//! Listeners and the single-use connection requests they dispatch.
//!
//! A listener binds an address; each inbound attempt becomes, during a
//! progress step, a [`ConnectionRequest`] queued on the listener. The
//! caller drains that queue with [`Listener::poll`] and hands each
//! request to whatever logic accepts or discards it — the engine holds
//! only the listener's table index, never a pointer into caller state,
//! so an attempt arriving after teardown is dropped harmlessly instead
//! of touching freed state.

use vstd::prelude::*;
use crate::engine::{
    Address, ListenerSlot, same_attempts, same_conns, same_eps, same_msgs, same_reqs,
};
use crate::status::{BindError, Error};
use crate::worker::Worker;

verus! {

/// A one-shot token for an inbound connection attempt. It is consumed
/// by value, exactly once, to build an endpoint (or discarded); a stale
/// or reused one makes the accept fail cleanly.
pub struct ConnectionRequest {
    pub id: usize,
}

/// A bound listener: a handle into the worker's listener table.
pub struct Listener {
    pub id: usize,
}

impl Listener {
    /// The handle names a live listener of this worker's engine.
    pub open spec fn valid(self, w: Worker) -> bool {
        self.id < w.engine.listeners.len() && w.engine.listeners@[self.id as int].alive
    }

    /// Bind a listener on `addr`. Fails with the busy kind exactly when
    /// a live listener already holds the address.
    pub fn create(w: &mut Worker, addr: Address) -> (r: Result<Listener, BindError>)
        requires
            old(w).wf(),
        ensures
            final(w).wf(),
            (r is Err) <==> old(w).engine.has_live_listener(addr),
            r matches Err(e) ==> e == BindError::Engine(Error::Busy) && *final(w) == *old(w),
            match r {
                Ok(l) => {
                    &&& l.id == old(w).engine.listeners.len()
                    &&& l.valid(*final(w))
                    &&& final(w).engine.listeners@ == old(w).engine.listeners@.push(
                        ListenerSlot { alive: true, addr },
                    )
                    &&& final(w).engine.queues.len() == old(w).engine.queues.len() + 1
                    &&& final(w).engine.queues@[l.id as int]@ == Seq::<usize>::empty()
                    &&& forall|k: int|
                        0 <= k < old(w).engine.queues.len() ==> final(w).engine.queues@[k]
                            == old(w).engine.queues@[k]
                    &&& same_eps(old(w).engine, final(w).engine)
                    &&& same_reqs(old(w).engine, final(w).engine)
                    &&& same_conns(old(w).engine, final(w).engine)
                    &&& same_msgs(old(w).engine, final(w).engine)
                    &&& same_attempts(old(w).engine, final(w).engine)
                    &&& final(w).engine.steps == old(w).engine.steps
                    &&& final(w).engine.allocs == old(w).engine.allocs
                    &&& final(w).engine.frees == old(w).engine.frees
                    &&& final(w).engine.forced_closes == old(w).engine.forced_closes
                },
                Err(_) => true,
            },
    {
        match w.engine.listener_bind(addr) {
            Ok(l) => Ok(Listener { id: l }),
            Err(_e) => Err(BindError::Engine(Error::Busy)),
        }
    }

    /// Take the oldest dispatched, not yet polled connection request, if
    /// one is waiting. Each request is handed out once: polling removes
    /// it from the queue, and the queued ids are pairwise distinct (see
    /// [`lemma_pending_conns_distinct`]).
    pub fn poll(&self, w: &mut Worker) -> (r: Option<ConnectionRequest>)
        requires
            old(w).wf(),
            self.id < old(w).engine.listeners.len(),
        ensures
            final(w).wf(),
            final(w).engine.listeners@ == old(w).engine.listeners@,
            final(w).engine.queues.len() == old(w).engine.queues.len(),
            forall|k: int|
                0 <= k < old(w).engine.queues.len() && k != self.id
                    ==> final(w).engine.queues@[k] == old(w).engine.queues@[k],
            same_eps(old(w).engine, final(w).engine),
            same_reqs(old(w).engine, final(w).engine),
            same_conns(old(w).engine, final(w).engine),
            same_msgs(old(w).engine, final(w).engine),
            same_attempts(old(w).engine, final(w).engine),
            final(w).engine.steps == old(w).engine.steps,
            final(w).engine.allocs == old(w).engine.allocs,
            final(w).engine.frees == old(w).engine.frees,
            final(w).engine.forced_closes == old(w).engine.forced_closes,
            match r {
                Some(c) => {
                    &&& old(w).engine.queues@[self.id as int]@.len() > 0
                    &&& c.id == old(w).engine.queues@[self.id as int]@[0]
                    &&& c.id < old(w).engine.conns.len()
                    &&& final(w).engine.queues@[self.id as int]@
                        == old(w).engine.queues@[self.id as int]@.subrange(
                        1,
                        old(w).engine.queues@[self.id as int]@.len() as int,
                    )
                },
                None => {
                    &&& old(w).engine.queues@[self.id as int]@.len() == 0
                    &&& *final(w) == *old(w)
                },
            },
    {
        match w.engine.listener_poll(self.id) {
            Some(c) => Some(ConnectionRequest { id: c }),
            None => None,
        }
    }

    /// Tear the listener down: the address is released, and every
    /// connection request still queued becomes stale — accepting it
    /// later fails cleanly instead of touching freed state.
    pub fn destroy(self, w: &mut Worker)
        requires
            old(w).wf(),
            self.id < old(w).engine.listeners.len(),
        ensures
            final(w).wf(),
            final(w).engine.listeners@ == old(w).engine.listeners@.update(
                self.id as int,
                (ListenerSlot {
                    alive: false,
                    addr: old(w).engine.listeners@[self.id as int].addr,
                }),
            ),
            final(w).engine.queues.len() == old(w).engine.queues.len(),
            final(w).engine.queues@[self.id as int]@ == Seq::<usize>::empty(),
            forall|k: int|
                0 <= k < old(w).engine.queues.len() && k != self.id
                    ==> final(w).engine.queues@[k] == old(w).engine.queues@[k],
            final(w).engine.conns.len() == old(w).engine.conns.len(),
            forall|c: int|
                0 <= c < old(w).engine.conns.len() ==> final(w).engine.conns@[c]
                    == (crate::engine::ConnSlot {
                    dead: old(w).engine.conns@[c].dead
                        || old(w).engine.queues@[self.id as int]@.contains(c as usize),
                    ..old(w).engine.conns@[c]
                }),
            same_eps(old(w).engine, final(w).engine),
            same_reqs(old(w).engine, final(w).engine),
            same_msgs(old(w).engine, final(w).engine),
            same_attempts(old(w).engine, final(w).engine),
            final(w).engine.steps == old(w).engine.steps,
            final(w).engine.allocs == old(w).engine.allocs,
            final(w).engine.frees == old(w).engine.frees,
            final(w).engine.forced_closes == old(w).engine.forced_closes,
    {
        w.engine.listener_destroy(self.id);
    }
}

/// Each dispatched, not yet polled connection request is its own: in a
/// well-formed worker, two distinct queue positions — on one listener or
/// on two — always hold distinct connection ids, so N inbound attempts
/// dispatch as N distinct single-use requests.
pub proof fn lemma_pending_conns_distinct(w: Worker, l1: int, j1: int, l2: int, j2: int)
    requires
        w.wf(),
        0 <= l1 < w.engine.queues.len(),
        0 <= j1 < w.engine.queues@[l1]@.len(),
        0 <= l2 < w.engine.queues.len(),
        0 <= j2 < w.engine.queues@[l2]@.len(),
        l1 != l2 || j1 != j2,
    ensures
        w.engine.queues@[l1]@[j1] != w.engine.queues@[l2]@[j2],
{
}

} // verus!
