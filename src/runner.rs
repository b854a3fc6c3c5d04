//! The runner: the completion queue between background tasks, which push
//! the deferred invocations of finished futures, and the synchronous tick,
//! which drains them in the order they arrived.
use vstd::prelude::*;
use crate::channel;
use crate::channel::{Inbox, Outbox, Polled};

verus! {

/// The runner's life cycle: it accepts and drains completions while
/// `Active`, and becomes `Closed` for good once a drain finds that nothing
/// can ever arrive again.
#[derive(Clone, Copy, Debug, PartialEq, Eq, Structural)]
pub enum RunnerState {
    Active,
    Closed,
}

/// The items that a sequence of polls took out of the queue, oldest first.
pub open spec fn delivered<T>(polls: Seq<Polled<T>>) -> Seq<T>
    decreases polls.len(),
{
    if polls.len() == 0 {
        Seq::empty()
    } else {
        let before = delivered(polls.drop_last());
        match polls.last() {
            Polled::Item(x) => before.push(x),
            _ => before,
        }
    }
}

/// Whether some poll in the sequence found the queue disconnected.
pub open spec fn saw_disconnect<T>(polls: Seq<Polled<T>>) -> bool {
    exists|i: int| 0 <= i < polls.len() && (#[trigger] polls[i]) is Disconnected
}

/// The shape of the polls made by one drain of an active runner: at least
/// one poll, every poll but the last took an item, and the drain stopped
/// at the first poll that took none.
pub open spec fn is_flush<T>(polls: Seq<Polled<T>>) -> bool {
    &&& polls.len() >= 1
    &&& forall|i: int| 0 <= i < polls.len() - 1 ==> (#[trigger] polls[i]) is Item
}

/// Splitting a sequence of polls splits the items it delivered the same way.
pub proof fn lemma_delivered_append<T>(a: Seq<Polled<T>>, b: Seq<Polled<T>>)
    ensures
        delivered(a + b) == delivered(a) + delivered(b),
    decreases b.len(),
{
    if b.len() == 0 {
        assert(a + b =~= a);
        assert(delivered(a) + delivered(b) =~= delivered(a));
    } else {
        let rest = b.drop_last();
        lemma_delivered_append(a, rest);
        assert((a + b).drop_last() =~= a + rest);
        assert((a + b).last() == b.last());
        if let Polled::Item(x) = b.last() {
            assert(delivered(a) + delivered(rest).push(x) =~= (delivered(a) + delivered(rest)).push(x));
        }
    }
}

/// The handle a background task keeps to push its completion.
#[verifier::reject_recursive_types(T)]
pub struct Completer<T> {
    outbox: Outbox<T>,
}

impl<T> Completer<T> {
    /// The completions this handle pushed and the queue accepted, oldest
    /// first.
    pub closed spec fn sent(&self) -> Seq<T> {
        self.outbox.sent()
    }

    /// Pushes one completion onto the queue without waiting. When the queue
    /// accepts it, it is recorded as sent; when the receiving side is gone it
    /// is handed back in the error, for the caller to drop or report, and
    /// nothing panics.
    pub fn complete(&mut self, item: T) -> (r: Result<(), T>)
        ensures
            r is Ok ==> final(self).sent() == old(self).sent().push(item),
            r matches Err(back) ==> back == item && final(self).sent() == old(self).sent(),
    {
        self.outbox.send(item)
    }
}

impl<T> Clone for Completer<T> {
    fn clone(&self) -> (r: Completer<T>)
        ensures
            r.sent() == Seq::<T>::empty(),
    {
        Completer { outbox: self.outbox.handle() }
    }
}

/// The completion queue and the state of its single consumer.
#[verifier::reject_recursive_types(T)]
pub struct AsyncRunner<T> {
    outbox: Outbox<T>,
    inbox: Inbox<T>,
    state: RunnerState,
}

impl<T> AsyncRunner<T> {
    /// The runner's current state.
    pub closed spec fn current_state(&self) -> RunnerState {
        self.state
    }

    /// Every answer the queue gave to a poll, oldest first.
    pub closed spec fn polls(&self) -> Seq<Polled<T>> {
        self.inbox.log()
    }

    /// Every pending count the queue reported, oldest first.
    pub closed spec fn counts(&self) -> Seq<nat> {
        self.inbox.counts()
    }

    /// The pending count the queue last reported.
    pub open spec fn backlog(&self) -> nat {
        self.counts().last()
    }

    /// Whether the queue's receiving side has been torn down.
    pub closed spec fn receiver_closed(&self) -> bool {
        self.inbox.is_closed()
    }

    /// The runner is `Closed` exactly when some drain has found the queue
    /// disconnected.
    pub open spec fn wf(&self) -> bool {
        (self.current_state() == RunnerState::Closed) == saw_disconnect(self.polls())
    }

    /// The polls that were made between `before` and `after`.
    pub open spec fn polls_since(before: &Self, after: &Self) -> Seq<Polled<T>> {
        after.polls().subrange(before.polls().len() as int, after.polls().len() as int)
    }

    /// What one call of `run` does, from the runner `before` to the runner
    /// `after`, handing out `out`:
    /// - a closed runner polls nothing, hands out nothing and stays as it is;
    /// - an active runner first asks the queue how many items are pending,
    ///   then polls until a poll takes no item, making at most one poll more
    ///   than that count, and hands out every item it took, in the order the
    ///   queue gave them;
    /// - the runner becomes closed exactly when one of those polls found the
    ///   queue disconnected.
    pub open spec fn drained(before: &Self, after: &Self, out: Seq<T>) -> bool {
        let new_polls = Self::polls_since(before, after);
        &&& before.polls().len() <= after.polls().len()
        &&& after.polls().subrange(0, before.polls().len() as int) == before.polls()
        &&& after.receiver_closed() == before.receiver_closed()
        &&& before.current_state() == RunnerState::Closed ==> {
            &&& new_polls.len() == 0
            &&& after.current_state() == RunnerState::Closed
            &&& after.counts() == before.counts()
        }
        &&& before.current_state() == RunnerState::Active ==> {
            &&& after.counts().len() == before.counts().len() + 1
            &&& after.counts().subrange(0, before.counts().len() as int) == before.counts()
            &&& is_flush(new_polls)
            &&& new_polls.len() <= after.backlog() + 1
            &&& new_polls.last() is Item ==> new_polls.len() == after.backlog() + 1
            &&& after.current_state() == (if new_polls.last() is Disconnected {
                RunnerState::Closed
            } else {
                RunnerState::Active
            })
        }
        &&& out == delivered(new_polls)
    }

    /// A new, active runner over a fresh, open queue that has answered no
    /// poll yet.
    pub fn new() -> (r: AsyncRunner<T>)
        ensures
            r.wf(),
            r.current_state() == RunnerState::Active,
            r.polls().len() == 0,
            r.counts().len() == 0,
            !r.receiver_closed(),
    {
        let (outbox, inbox) = channel::open();
        AsyncRunner { outbox, inbox, state: RunnerState::Active }
    }

    /// The runner's current state.
    pub fn state(&self) -> (r: RunnerState)
        ensures
            r == self.current_state(),
    {
        self.state
    }

    /// A handle through which a background task pushes its completion onto
    /// this runner's queue; it has sent nothing yet.
    pub fn completer(&self) -> (r: Completer<T>)
        ensures
            r.sent() == Seq::<T>::empty(),
    {
        Completer { outbox: self.outbox.handle() }
    }

    /// Tears down the receiving side: later pushes fail, and completions
    /// already pending are still handed out by the next drain, which then
    /// finds the queue disconnected and closes the runner.
    pub fn close(&mut self)
        ensures
            final(self).receiver_closed(),
            final(self).current_state() == old(self).current_state(),
            final(self).polls() == old(self).polls(),
            final(self).counts() == old(self).counts(),
    {
        self.inbox.close();
    }

    /// Drains the queue once: hands out, oldest first, every completion that
    /// is ready now, and closes the runner for good when the queue turns out
    /// to be disconnected. A closed runner does nothing.
    pub fn run(&mut self) -> (r: Vec<T>)
        requires
            old(self).wf(),
        ensures
            final(self).wf(),
            Self::drained(old(self), final(self), r@),
            delivered(final(self).polls()) == delivered(old(self).polls()) + r@,
    {
        let mut out: Vec<T> = Vec::new();
        let ghost start = self.inbox.log();
        if self.state == RunnerState::Closed {
            assert(start.subrange(0, start.len() as int) =~= start);
            assert(Self::polls_since(old(self), self) =~= Seq::<Polled<T>>::empty());
            assert(delivered(start) + out@ =~= delivered(start));
            return out;
        }
        let pending = self.inbox.pending();
        let mut taken: usize = 0;
        let mut done = false;
        let ghost mut fresh: Seq<Polled<T>> = Seq::empty();
        while !done
            invariant
                self.inbox.log() == start + fresh,
                self.inbox.counts() == old(self).counts().push(pending as nat),
                self.inbox.is_closed() == old(self).inbox.is_closed(),
                start == old(self).polls(),
                !saw_disconnect(start),
                taken <= pending,
                !done ==> taken == fresh.len(),
                !done ==> forall|i: int| 0 <= i < fresh.len() ==> (#[trigger] fresh[i]) is Item,
                done ==> 1 <= fresh.len() <= pending + 1,
                done && fresh.last() is Item ==> fresh.len() == pending + 1,
                forall|i: int| 0 <= i < fresh.len() - 1 ==> (#[trigger] fresh[i]) is Item,
                self.state == (if fresh.len() > 0 && fresh.last() is Disconnected {
                    RunnerState::Closed
                } else {
                    RunnerState::Active
                }),
                out@ == delivered(fresh),
            decreases pending - taken + (if done { 0int } else { 1int }),
        {
            let polled = self.inbox.poll();
            let ghost prev = fresh;
            proof {
                fresh = fresh.push(polled);
                assert(fresh.drop_last() =~= prev);
                assert(self.inbox.log() =~= start + fresh);
            }
            match polled {
                Polled::Item(x) => {
                    out.push(x);
                    if taken == pending {
                        done = true;
                    } else {
                        taken = taken + 1;
                    }
                },
                Polled::Empty => {
                    done = true;
                },
                Polled::Disconnected => {
                    self.state = RunnerState::Closed;
                    done = true;
                },
            }
        }
        proof {
            let log = self.inbox.log();
            lemma_delivered_append(start, fresh);
            assert(log.subrange(0, start.len() as int) =~= start);
            assert(Self::polls_since(old(self), self) =~= fresh);
            assert(self.counts().subrange(0, old(self).counts().len() as int) =~= old(self).counts());
            if self.state == RunnerState::Closed {
                assert(log[log.len() - 1] is Disconnected);
            } else {
                assert forall|i: int| 0 <= i < log.len() implies !(#[trigger] log[i] is Disconnected) by {
                    if i >= start.len() {
                        assert(log[i] == fresh[i - start.len()]);
                    } else {
                        assert(log[i] == start[i]);
                    }
                }
            }
        }
        out
    }
}

/// Over two successive drains, the items handed out are exactly the items the
/// queue gave, each once and in the queue's order: the first drain's items,
/// then the second's.
pub proof fn lemma_successive_drains_deliver_each_once<T>(
    a: AsyncRunner<T>,
    b: AsyncRunner<T>,
    c: AsyncRunner<T>,
    first: Seq<T>,
    second: Seq<T>,
)
    requires
        AsyncRunner::drained(&a, &b, first),
        AsyncRunner::drained(&b, &c, second),
    ensures
        delivered(c.polls()) == delivered(a.polls()) + first + second,
{
    let ab = AsyncRunner::polls_since(&a, &b);
    let bc = AsyncRunner::polls_since(&b, &c);
    assert(b.polls() =~= a.polls() + ab);
    assert(c.polls() =~= b.polls() + bc);
    lemma_delivered_append(a.polls(), ab);
    lemma_delivered_append(b.polls(), bc);
}

/// A drain whose only poll finds the queue empty hands out nothing and leaves
/// the runner's state as it was.
pub proof fn lemma_drain_of_empty_queue_is_inert<T>(a: AsyncRunner<T>, b: AsyncRunner<T>, out: Seq<T>)
    requires
        AsyncRunner::drained(&a, &b, out),
        AsyncRunner::polls_since(&a, &b) == seq![Polled::<T>::Empty],
    ensures
        out.len() == 0,
        b.current_state() == a.current_state(),
{
    let fresh = AsyncRunner::polls_since(&a, &b);
    assert(fresh.drop_last() =~= Seq::<Polled<T>>::empty());
    assert(delivered(fresh.drop_last()) == Seq::<T>::empty());
    assert(delivered(fresh) == delivered(fresh.drop_last()));
}

/// Once closed, a runner stays closed: a drain polls nothing, hands out
/// nothing and leaves the runner as it was.
pub proof fn lemma_closed_runner_is_inert<T>(a: AsyncRunner<T>, b: AsyncRunner<T>, out: Seq<T>)
    requires
        AsyncRunner::drained(&a, &b, out),
        a.current_state() == RunnerState::Closed,
    ensures
        out.len() == 0,
        b.polls() == a.polls(),
        b.current_state() == RunnerState::Closed,
{
    assert(b.polls() =~= b.polls().subrange(0, a.polls().len() as int));
}

/// A drain of an active runner does not stop while polls keep yielding items:
/// every poll but the last took an item, every item taken is handed out, and
/// unless a poll found nothing to take, the whole backlog that the queue
/// reported when the drain began is handed out at once, with one item more
/// that arrived meanwhile.
pub proof fn lemma_drain_flushes_backlog<T>(a: AsyncRunner<T>, b: AsyncRunner<T>, out: Seq<T>)
    requires
        AsyncRunner::drained(&a, &b, out),
        a.current_state() == RunnerState::Active,
    ensures
        AsyncRunner::polls_since(&a, &b).last() is Item ==> out.len() == AsyncRunner::polls_since(&a, &b).len(),
        !(AsyncRunner::polls_since(&a, &b).last() is Item) ==> out.len() == AsyncRunner::polls_since(&a, &b).len() - 1,
        out.len() == b.backlog() + 1 || !(AsyncRunner::polls_since(&a, &b).last() is Item),
{
    let fresh = AsyncRunner::polls_since(&a, &b);
    lemma_flush_count(fresh);
}

/// In a flush, every poll but the last delivered an item, and the last one
/// did exactly when it took an item.
proof fn lemma_flush_count<T>(polls: Seq<Polled<T>>)
    requires
        is_flush(polls),
    ensures
        polls.last() is Item ==> delivered(polls).len() == polls.len(),
        !(polls.last() is Item) ==> delivered(polls).len() == polls.len() - 1,
{
    lemma_all_items_delivered(polls.drop_last());
}

/// A sequence of polls that all took items delivers one item per poll.
proof fn lemma_all_items_delivered<T>(polls: Seq<Polled<T>>)
    requires
        forall|i: int| 0 <= i < polls.len() ==> (#[trigger] polls[i]) is Item,
    ensures
        delivered(polls).len() == polls.len(),
    decreases polls.len(),
{
    if polls.len() > 0 {
        lemma_all_items_delivered(polls.drop_last());
    }
}

} // verus!
