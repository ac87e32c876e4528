//! The progress-driving owner of the engine.

use vstd::prelude::*;
use crate::engine::{Engine, spec_step_post};

verus! {

/// The worker owns the engine and its cooperative progress loop: every
/// asynchronous completion in this crate is discovered inside
/// [`Worker::progress`] and nowhere else. Endpoints, listeners and
/// request tokens borrow the worker for each call instead of holding it,
/// so the worker outlives every handle used with it by construction, and
/// blocking behaviour exists only where a caller chooses to loop.
pub struct Worker {
    pub engine: Engine,
}

impl Worker {
    /// The worker's engine tables are internally consistent.
    pub open spec fn wf(self) -> bool {
        self.engine.wf()
    }

    /// A worker over a fresh engine: no channels, no requests, every
    /// counter at zero.
    pub fn new() -> (w: Worker)
        ensures
            w.wf(),
            w.engine.eps.len() == 0,
            w.engine.reqs.len() == 0,
            w.engine.listeners.len() == 0,
            w.engine.conns.len() == 0,
            w.engine.msgs.len() == 0,
            w.engine.attempts.len() == 0,
            w.engine.steps == 0,
            w.engine.allocs == 0,
            w.engine.frees == 0,
            w.engine.forced_closes == 0,
    {
        Worker { engine: Engine::new() }
    }

    /// Drive one cooperative progress step. Never blocks, produces no
    /// error of its own; failures surface only through the affected
    /// request tokens.
    pub fn progress(&mut self)
        requires
            old(self).wf(),
        ensures
            final(self).wf(),
            spec_step_post(old(self).engine, final(self).engine),
    {
        self.engine.step();
    }
}

} // verus!
