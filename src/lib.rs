use vstd::prelude::*;

pub mod channel;
pub mod runner;

pub use crate::channel::Polled;
pub use crate::runner::{AsyncRunner, Completer, RunnerState};

verus! {

/// Where the background work of submitted futures runs.
///
/// The choice is made once, when the runner is built, and holds for the
/// runner's whole life.
#[derive(Clone, Copy, Debug, PartialEq, Eq, Structural)]
pub enum Backend {
    /// The host framework's shared I/O task pool; spawned tasks are detached.
    EnginePool,
    /// A private multi-threaded runtime owned by the runner.
    MultiThread,
    /// A private runtime that drives every task on one background thread.
    CurrentThread,
}

/// Configuration of the runner that the host application installs: which
/// backend runs the submitted futures.
#[derive(Clone, Copy, Debug, PartialEq, Eq, Structural)]
pub struct AsyncRunnerPlugin {
    pub backend: Backend,
}

impl AsyncRunnerPlugin {
    /// The default configuration, on the host framework's own task pool.
    pub fn new() -> (r: AsyncRunnerPlugin)
        ensures
            r.backend == Backend::EnginePool,
    {
        AsyncRunnerPlugin { backend: Backend::EnginePool }
    }

    /// The same configuration with another backend.
    pub fn with_backend(self, backend: Backend) -> (r: AsyncRunnerPlugin)
        ensures
            r.backend == backend,
    {
        AsyncRunnerPlugin { backend }
    }

    /// Whether the runner owns a runtime of its own, which is created and
    /// torn down with it.
    pub fn owns_runtime(&self) -> (r: bool)
        ensures
            r == (self.backend != Backend::EnginePool),
    {
        !matches!(self.backend, Backend::EnginePool)
    }

    /// Whether tasks handed to the backend must be detached, because the
    /// pool does not keep them alive on its own.
    pub fn detaches_tasks(&self) -> (r: bool)
        ensures
            r == (self.backend == Backend::EnginePool),
    {
        matches!(self.backend, Backend::EnginePool)
    }
}

impl Default for AsyncRunnerPlugin {
    fn default() -> (r: AsyncRunnerPlugin)
        ensures
            r.backend == Backend::EnginePool,
    {
        AsyncRunnerPlugin::new()
    }
}

} // verus!
