//! The completion queue's transport: tokio's unbounded multi-producer,
//! single-consumer channel, reached through the trusted items below. Each
//! half carries a ghost record that only those items advance: what the
//! receiving half answered, and what the sending half had accepted.
use vstd::prelude::*;
use tokio::sync::mpsc::error::TryRecvError;
use tokio::sync::mpsc::{UnboundedReceiver, UnboundedSender};

verus! {

#[verifier::external_type_specification]
#[verifier::external_body]
#[verifier::reject_recursive_types(T)]
pub struct ExUnboundedSender<T>(UnboundedSender<T>);

#[verifier::external_type_specification]
#[verifier::external_body]
#[verifier::reject_recursive_types(T)]
pub struct ExUnboundedReceiver<T>(UnboundedReceiver<T>);

/// What one attempt to take the oldest pending item out of the queue gives.
#[derive(Debug)]
pub enum Polled<T> {
    /// The oldest pending item, now removed from the queue.
    Item(T),
    /// Nothing is pending now; senders may still push later.
    Empty,
    /// Nothing is pending and nothing will ever arrive again.
    Disconnected,
}

/// Relies on tokio::sync::mpsc::unbounded_channel: a fresh, open channel,
/// returned as its sending and receiving halves.
#[verifier::external_body]
fn unbounded_channel<T>() -> (UnboundedSender<T>, UnboundedReceiver<T>) {
    tokio::sync::mpsc::unbounded_channel()
}

/// Relies on UnboundedSender::clone: one more sending half of the same
/// channel.
#[verifier::external_body]
fn clone_sender<T>(tx: &UnboundedSender<T>) -> UnboundedSender<T> {
    tx.clone()
}

/// A fresh channel: its sending half, which has accepted nothing yet, and
/// its receiving half, which has answered no poll yet and is open.
pub(crate) fn open<T>() -> (r: (Outbox<T>, Inbox<T>))
    ensures
        r.0.sent() == Seq::<T>::empty(),
        r.1.log() == Seq::<Polled<T>>::empty(),
        r.1.counts() == Seq::<nat>::empty(),
        !r.1.is_closed(),
{
    let (sender, receiver) = unbounded_channel();
    let outbox = Outbox { sender, sent: Ghost(Seq::empty()) };
    let inbox = Inbox { receiver, log: Ghost(Seq::empty()), counts: Ghost(Seq::empty()), closed: Ghost(false) };
    (outbox, inbox)
}

/// A sending half of the channel, with the items that this handle has had
/// accepted.
#[verifier::reject_recursive_types(T)]
pub struct Outbox<T> {
    sender: UnboundedSender<T>,
    sent: Ghost<Seq<T>>,
}

impl<T> Outbox<T> {
    /// The items this handle pushed and the channel accepted, oldest first.
    pub closed spec fn sent(&self) -> Seq<T> {
        self.sent@
    }

    /// Another sending half of the same channel, which has accepted nothing
    /// yet.
    pub(crate) fn handle(&self) -> (r: Outbox<T>)
        ensures
            r.sent() == Seq::<T>::empty(),
    {
        Outbox { sender: clone_sender(&self.sender), sent: Ghost(Seq::empty()) }
    }

    /// Relies on UnboundedSender::send: it never waits; the message is
    /// accepted, or, when the receiving half is closed or dropped, it comes
    /// back inside the error.
    #[verifier::external_body]
    pub(crate) fn send(&mut self, message: T) -> (r: Result<(), T>)
        ensures
            r is Ok ==> final(self).sent() == old(self).sent().push(message),
            r matches Err(back) ==> back == message && final(self).sent() == old(self).sent(),
    {
        self.sender.send(message).map_err(|e| e.0)
    }
}

/// The receiving half of the channel, with every answer it gave to a poll,
/// every pending count it reported, and whether it was closed.
#[verifier::reject_recursive_types(T)]
pub struct Inbox<T> {
    receiver: UnboundedReceiver<T>,
    log: Ghost<Seq<Polled<T>>>,
    counts: Ghost<Seq<nat>>,
    closed: Ghost<bool>,
}

impl<T> Inbox<T> {
    /// Every answer to a poll, oldest first.
    pub closed spec fn log(&self) -> Seq<Polled<T>> {
        self.log@
    }

    /// Every pending count the channel reported, oldest first.
    pub closed spec fn counts(&self) -> Seq<nat> {
        self.counts@
    }

    /// Whether the receiving half has been closed.
    pub closed spec fn is_closed(&self) -> bool {
        self.closed@
    }

    /// Relies on UnboundedReceiver::try_recv: the oldest pending message, or
    /// which of its two errors holds; it never waits for a sender.
    #[verifier::external_body]
    pub(crate) fn poll(&mut self) -> (r: Polled<T>)
        ensures
            final(self).log() == old(self).log().push(r),
            final(self).counts() == old(self).counts(),
            final(self).is_closed() == old(self).is_closed(),
    {
        match self.receiver.try_recv() {
            Ok(item) => Polled::Item(item),
            Err(TryRecvError::Empty) => Polled::Empty,
            Err(TryRecvError::Disconnected) => Polled::Disconnected,
        }
    }

    /// Relies on UnboundedReceiver::len: how many messages are pending now.
    #[verifier::external_body]
    pub(crate) fn pending(&mut self) -> (r: usize)
        ensures
            final(self).counts() == old(self).counts().push(r as nat),
            final(self).log() == old(self).log(),
            final(self).is_closed() == old(self).is_closed(),
    {
        self.receiver.len()
    }

    /// Relies on UnboundedReceiver::close: later sends fail, while messages
    /// already pending can still be received.
    #[verifier::external_body]
    pub(crate) fn close(&mut self)
        ensures
            final(self).is_closed(),
            final(self).log() == old(self).log(),
            final(self).counts() == old(self).counts(),
    {
        self.receiver.close()
    }
}

} // verus!
