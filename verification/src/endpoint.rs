//! Endpoints — bidirectional tag-matched channels — and the request
//! tokens their operations hand back.
//!
//! A request token is consumed exactly once, by value, by
//! [`StatusPtr::wait`] or [`StatusPtr::release`]; that is what makes a
//! double release or a leak of the engine handle unrepresentable.
//! Endpoint teardown ([`Endpoint::close`]) also consumes its handle, and
//! coordinates with the engine's asynchronous error path through the
//! shared closed flag: whichever of the two fires first forecloses the
//! other, so the forced-close request is issued at most once.

use vstd::prelude::*;
use crate::engine::{
    Address, Engine, EpSlot, ReqKind, ReqSlot, copy_bytes, sat_inc, same_attempts, same_conns,
    same_eps, same_listeners, same_reqs, spec_engine_evolves, spec_ep_evolves,
    lemma_evolves_refl, lemma_evolves_trans, lemma_step_evolves,
};
use crate::listener::ConnectionRequest;
use crate::status::{
    AcceptError, ConnectError, Error, OpError, STATUS_ERR_CONNECTION_RESET, STATUS_IN_PROGRESS,
    STATUS_OK, spec_error_of, spec_from_status,
};
use crate::worker::Worker;

verus! {

/// Byte-for-byte copy of a borrowed byte slice into an owned buffer.
fn bytes_to_vec(b: &[u8]) -> (r: Vec<u8>)
    ensures
        r@ == b@,
{
    let mut r: Vec<u8> = Vec::new();
    let mut i: usize = 0;
    while i < b.len()
        invariant
            i <= b.len(),
            r@ == b@.subrange(0, i as int),
        decreases b.len() - i,
    {
        r.push(b[i]);
        proof {
            assert(r@ =~= b@.subrange(0, i + 1 as int));
        }
        i = i + 1;
    }
    proof {
        assert(r@ =~= b@);
    }
    r
}

/// What any number of progress steps plus the single release of handle
/// `h` leaves intact: every counter but the step and free counts,
/// endpoint identity, the listener table, the other handles' released
/// flags, resolved requests other than `h`, connection ownership, each
/// queue's already-dispatched prefix, and message provenance.
pub open spec fn spec_wait_frame(a: Engine, b: Engine, h: int) -> bool {
    &&& b.steps >= a.steps
    &&& b.allocs == a.allocs
    &&& b.forced_closes == a.forced_closes
    &&& b.eps.len() == a.eps.len()
    &&& forall|e: int| 0 <= e < a.eps.len() ==> spec_ep_evolves(#[trigger] a.eps@[e], b.eps@[e])
    &&& b.listeners@ == a.listeners@
    &&& b.reqs.len() == a.reqs.len()
    &&& b.bufs.len() == a.bufs.len()
    &&& forall|i: int|
        0 <= i < a.reqs.len() ==> ((#[trigger] b.reqs@[i]).ep == a.reqs@[i].ep && b.reqs@[i].kind
            == a.reqs@[i].kind)
    &&& forall|i: int|
        0 <= i < a.reqs.len() && i != h ==> (#[trigger] b.reqs@[i]).freed == a.reqs@[i].freed
    &&& forall|i: int|
        0 <= i < a.reqs.len() && i != h && (#[trigger] a.reqs@[i]).status != STATUS_IN_PROGRESS
            ==> b.reqs@[i] == a.reqs@[i] && b.bufs@[i] == a.bufs@[i]
    &&& b.conns.len() == a.conns.len()
    &&& forall|c: int|
        0 <= c < a.conns.len() ==> ((#[trigger] b.conns@[c]).client_ep == a.conns@[c].client_ep
            && b.conns@[c].used == a.conns@[c].used && (a.conns@[c].dead ==> b.conns@[c].dead))
    &&& b.queues.len() == a.queues.len()
    &&& forall|l: int|
        0 <= l < a.queues.len() ==> (#[trigger] b.queues@[l]@).len() >= a.queues@[l]@.len()
            && b.queues@[l]@.take(a.queues@[l]@.len() as int) == a.queues@[l]@
    &&& forall|j: int| 0 <= j < b.msgs.len() ==> a.msgs@.contains(#[trigger] b.msgs@[j])
}

/// A request token: one outstanding or already-resolved operation.
///
/// `Resolved` carries a final status and holds no engine resource;
/// `Pending` carries the engine handle of an in-flight request. A token
/// is consumed exactly once, by [`StatusPtr::wait`] or by
/// [`StatusPtr::release`].
pub enum StatusPtr {
    Resolved(i32),
    Pending(usize),
}

impl StatusPtr {
    /// The token refers to a live, not yet released request of this
    /// worker's engine (a resolved token carries a final status).
    pub open spec fn wf(self, w: Worker) -> bool {
        match self {
            StatusPtr::Resolved(s) => s != STATUS_IN_PROGRESS,
            StatusPtr::Pending(h) => h < w.engine.reqs.len() && !w.engine.reqs@[h as int].freed,
        }
    }

    /// The operation's current status: immediate for a resolved token, a
    /// handle query for a pending one. Reading never drives progress.
    pub fn status(&self, w: &Worker) -> (r: i32)
        requires
            self.wf(*w),
        ensures
            match *self {
                StatusPtr::Resolved(s) => r == s,
                StatusPtr::Pending(h) => r == w.engine.reqs@[h as int].status,
            },
    {
        match *self {
            StatusPtr::Resolved(s) => s,
            StatusPtr::Pending(h) => w.engine.check_status(h),
        }
    }

    /// Block until the operation resolves, by cooperative polling alone:
    /// check the handle, drive one progress step, repeat. On a resolved
    /// token this returns at once and the worker is untouched — zero
    /// steps. On a pending token at least one step is driven, the
    /// handle is released exactly once, and the result translates the
    /// final status; a successful receive hands the posted buffer back
    /// with the delivered bytes in its prefix.
    ///
    /// An operation the engine never resolves — a receive no message
    /// ever matches — keeps this loop spinning until the step counter's
    /// range is exhausted, which no real run approaches; a token still
    /// unresolved at that point resolves to the timed-out failure.
    /// Callers wanting a tighter bound poll [`StatusPtr::status`]
    /// themselves.
    pub fn wait(self, w: &mut Worker) -> (r: Result<Option<Vec<u8>>, OpError>)
        requires
            old(w).wf(),
            self.wf(*old(w)),
        ensures
            final(w).wf(),
            match self {
                StatusPtr::Resolved(s) => *final(w) == *old(w) && r == (match spec_from_status(
                    s,
                ) {
                    Ok(()) => Ok::<Option<Vec<u8>>, OpError>(None),
                    Err(e) => Err(OpError::Engine(e)),
                }),
                StatusPtr::Pending(h) => {
                    &&& spec_wait_frame(old(w).engine, final(w).engine, h as int)
                    &&& old(w).engine.steps < u64::MAX ==> final(w).engine.steps
                        > old(w).engine.steps
                    &&& final(w).engine.frees == sat_inc(old(w).engine.frees)
                    &&& final(w).engine.reqs@[h as int].freed
                    &&& (r is Ok ==> final(w).engine.reqs@[h as int].status == STATUS_OK)
                    &&& final(w).engine.steps < u64::MAX ==> {
                        &&& final(w).engine.reqs@[h as int].status != STATUS_IN_PROGRESS
                        &&& (r is Ok <==> final(w).engine.reqs@[h as int].status == STATUS_OK)
                        &&& (r matches Err(OpError::Engine(e)) ==> e == spec_error_of(
                            final(w).engine.reqs@[h as int].status,
                        ))
                    }
                    &&& (r matches Ok(b) ==> (if old(w).engine.reqs@[h as int].kind is Recv {
                        b matches Some(v) && v@ == final(w).engine.bufs@[h as int]@
                    } else {
                        b is None
                    }))
                },
            },
    {
        match self {
            StatusPtr::Resolved(s) => {
                match Error::from_status(s) {
                    Ok(()) => Ok(None),
                    Err(e) => Err(OpError::Engine(e)),
                }
            },
            StatusPtr::Pending(h) => {
                let ghost o = old(w).engine;
                let mut st: i32 = STATUS_IN_PROGRESS;
                proof {
                    lemma_evolves_refl(o);
                }
                loop
                    invariant_except_break
                        w.wf(),
                        h < w.engine.reqs.len(),
                        !w.engine.reqs@[h as int].freed,
                        spec_engine_evolves(o, w.engine),
                    ensures
                        w.wf(),
                        h < w.engine.reqs.len(),
                        !w.engine.reqs@[h as int].freed,
                        spec_engine_evolves(o, w.engine),
                        o.steps < u64::MAX ==> w.engine.steps > o.steps,
                        st != STATUS_IN_PROGRESS ==> w.engine.reqs@[h as int].status == st,
                        st == STATUS_IN_PROGRESS ==> w.engine.steps == u64::MAX,
                    decreases u64::MAX - w.engine.steps,
                {
                    st = w.engine.check_status(h);
                    let ghost pre = w.engine;
                    w.progress();
                    proof {
                        lemma_step_evolves(pre, w.engine);
                        lemma_evolves_trans(o, pre, w.engine);
                    }
                    if st != STATUS_IN_PROGRESS {
                        proof {
                            assert(pre.reqs@[h as int].status == st);
                            assert(w.engine.reqs@[h as int] == pre.reqs@[h as int]);
                            if o.steps < u64::MAX {
                                assert(w.engine.steps == sat_inc(pre.steps));
                            }
                        }
                        break ;
                    }
                    if w.engine.steps == u64::MAX {
                        // the poll budget is the step counter's range;
                        // no real engine run reaches it
                        break ;
                    }
                }
                w.engine.free(h);
                if st == STATUS_IN_PROGRESS {
                    return Err(OpError::Engine(Error::TimedOut));
                }
                match Error::from_status(st) {
                    Ok(()) => {
                        let kind = w.engine.reqs[h].kind;
                        match kind {
                            ReqKind::Recv { .. } => {
                                let out = copy_bytes(&w.engine.bufs[h]);
                                Ok(Some(out))
                            },
                            _ => Ok(None),
                        }
                    },
                    Err(e) => Err(OpError::Engine(e)),
                }
            },
        }
    }

    /// Release a token without waiting. A resolved token holds no engine
    /// resource, so this is a no-op; a pending token's handle is
    /// released back to the engine exactly once — the handle neither
    /// leaks nor can it be released again, since the token is gone.
    pub fn release(self, w: &mut Worker)
        requires
            old(w).wf(),
            self.wf(*old(w)),
        ensures
            final(w).wf(),
            match self {
                StatusPtr::Resolved(_) => *final(w) == *old(w),
                StatusPtr::Pending(h) => {
                    &&& final(w).engine.reqs@ == old(w).engine.reqs@.update(
                        h as int,
                        (ReqSlot { freed: true, ..old(w).engine.reqs@[h as int] }),
                    )
                    &&& final(w).engine.frees == sat_inc(old(w).engine.frees)
                    &&& same_eps(old(w).engine, final(w).engine)
                    &&& same_listeners(old(w).engine, final(w).engine)
                    &&& same_conns(old(w).engine, final(w).engine)
                    &&& same_attempts(old(w).engine, final(w).engine)
                    &&& final(w).engine.msgs@ == old(w).engine.msgs@
                    &&& final(w).engine.bufs@ == old(w).engine.bufs@
                    &&& final(w).engine.steps == old(w).engine.steps
                    &&& final(w).engine.allocs == old(w).engine.allocs
                    &&& final(w).engine.forced_closes == old(w).engine.forced_closes
                },
            },
    {
        match self {
            StatusPtr::Resolved(_) => {},
            StatusPtr::Pending(h) => {
                w.engine.free(h);
            },
        }
    }
}

/// A bidirectional channel to one peer: a handle into the worker's
/// endpoint table. The engine is never given this handle's address —
/// only the table index — so its asynchronous error path flips the
/// slot's shared closed flag and nothing else.
pub struct Endpoint {
    pub id: usize,
}

impl Endpoint {
    /// The handle names a live endpoint of this worker's engine.
    pub open spec fn valid(self, w: Worker) -> bool {
        self.id < w.engine.eps.len() && w.engine.eps@[self.id as int].alive
    }

    /// The shared closed flag: set by the engine's error path (a step
    /// after a peer failure) or by teardown.
    pub open spec fn closed(self, w: Worker) -> bool {
        w.engine.eps@[self.id as int].closed
    }

    /// Read the shared closed flag.
    pub fn is_closed(&self, w: &Worker) -> (r: bool)
        requires
            self.id < w.engine.eps.len(),
        ensures
            r == self.closed(*w),
    {
        w.engine.eps[self.id].closed
    }

    /// Establish an outbound channel to `addr`. Succeeds exactly when a
    /// live listener is bound there, creating a fresh endpoint whose
    /// closed flag is clear and staging the inbound attempt the next
    /// step dispatches to that listener; otherwise the engine reports
    /// the address unreachable.
    pub fn from_sockaddr(w: &mut Worker, addr: Address) -> (r: Result<Endpoint, ConnectError>)
        requires
            old(w).wf(),
        ensures
            final(w).wf(),
            (r is Ok) <==> old(w).engine.has_live_listener(addr),
            r matches Err(e) ==> e == ConnectError::Engine(Error::Unreachable) && *final(w)
                == *old(w),
            match r {
                Ok(ep) => {
                    &&& ep.id == old(w).engine.eps.len()
                    &&& ep.valid(*final(w))
                    &&& !ep.closed(*final(w))
                    &&& final(w).engine.eps@ == old(w).engine.eps@.push(
                        EpSlot { alive: true, closed: false, err_pending: false, peer: None },
                    )
                    &&& final(w).engine.conns.len() == old(w).engine.conns.len() + 1
                    &&& forall|k: int|
                        0 <= k < old(w).engine.conns.len() ==> final(w).engine.conns@[k]
                            == old(w).engine.conns@[k]
                    &&& final(w).engine.conns@[old(w).engine.conns.len() as int].client_ep
                        == ep.id
                    &&& !final(w).engine.conns@[old(w).engine.conns.len() as int].dead
                    &&& !final(w).engine.conns@[old(w).engine.conns.len() as int].used
                    &&& final(w).engine.conns@[old(w).engine.conns.len() as int].listener
                        < old(w).engine.listeners.len()
                    &&& old(w).engine.listeners@[final(w).engine.conns@[old(
                        w,
                    ).engine.conns.len() as int].listener as int].alive
                    &&& old(w).engine.listeners@[final(w).engine.conns@[old(
                        w,
                    ).engine.conns.len() as int].listener as int].addr == addr
                    &&& final(w).engine.attempts@ == old(w).engine.attempts@.push(
                        (crate::engine::Attempt { addr, conn: old(w).engine.conns.len() }),
                    )
                    &&& same_reqs(old(w).engine, final(w).engine)
                    &&& same_listeners(old(w).engine, final(w).engine)
                    &&& final(w).engine.msgs@ == old(w).engine.msgs@
                    &&& final(w).engine.steps == old(w).engine.steps
                    &&& final(w).engine.allocs == old(w).engine.allocs
                    &&& final(w).engine.frees == old(w).engine.frees
                    &&& final(w).engine.forced_closes == old(w).engine.forced_closes
                },
                Err(_) => true,
            },
    {
        match w.engine.connect(addr) {
            Ok(ep) => Ok(Endpoint { id: ep }),
            Err(_e) => Err(ConnectError::Engine(Error::Unreachable)),
        }
    }

    /// Consume a connection request — by value, exactly once — into the
    /// inbound side of its channel, pairing it with the connecting
    /// endpoint. Fails cleanly, with the stale kind, exactly when the
    /// request is unknown, already used, or orphaned by its listener's
    /// teardown.
    pub fn from_conn_req(w: &mut Worker, conn_req: ConnectionRequest) -> (r: Result<
        Endpoint,
        AcceptError,
    >)
        requires
            old(w).wf(),
        ensures
            final(w).wf(),
            (r is Ok) <==> (conn_req.id < old(w).engine.conns.len()
                && !old(w).engine.conns@[conn_req.id as int].dead
                && !old(w).engine.conns@[conn_req.id as int].used
                && old(w).engine.listeners@[old(w).engine.conns@[conn_req.id
                as int].listener as int].alive),
            r matches Err(e) ==> e == AcceptError::Stale && *final(w) == *old(w),
            match r {
                Ok(ep) => {
                    &&& ep.id == old(w).engine.eps.len()
                    &&& ep.valid(*final(w))
                    &&& !ep.closed(*final(w))
                    &&& final(w).engine.eps.len() == old(w).engine.eps.len() + 1
                    &&& final(w).engine.eps@[ep.id as int] == (EpSlot {
                        alive: true,
                        closed: false,
                        err_pending: false,
                        peer: Some(old(w).engine.conns@[conn_req.id as int].client_ep),
                    })
                    &&& final(w).engine.eps@[old(w).engine.conns@[conn_req.id as int].client_ep
                        as int] == (EpSlot {
                        peer: Some(ep.id),
                        ..old(w).engine.eps@[old(w).engine.conns@[conn_req.id
                            as int].client_ep as int]
                    })
                    &&& forall|e: int|
                        0 <= e < old(w).engine.eps.len() && e != old(w).engine.conns@[conn_req.id
                            as int].client_ep ==> final(w).engine.eps@[e]
                            == old(w).engine.eps@[e]
                    &&& final(w).engine.conns@ == old(w).engine.conns@.update(
                        conn_req.id as int,
                        (crate::engine::ConnSlot {
                            used: true,
                            ..old(w).engine.conns@[conn_req.id as int]
                        }),
                    )
                    &&& same_reqs(old(w).engine, final(w).engine)
                    &&& same_listeners(old(w).engine, final(w).engine)
                    &&& final(w).engine.msgs@ == old(w).engine.msgs@
                    &&& final(w).engine.attempts@ == old(w).engine.attempts@
                    &&& final(w).engine.steps == old(w).engine.steps
                    &&& final(w).engine.allocs == old(w).engine.allocs
                    &&& final(w).engine.frees == old(w).engine.frees
                    &&& final(w).engine.forced_closes == old(w).engine.forced_closes
                },
                Err(_) => true,
            },
    {
        match w.engine.accept(conn_req.id) {
            Ok(server) => Ok(Endpoint { id: server }),
            Err(()) => Err(AcceptError::Stale),
        }
    }

    /// Submit a non-blocking tagged send of a contiguous byte buffer.
    /// On a channel whose closed flag is set the token comes back
    /// already resolved with the reset status and nothing leaves.
    /// Otherwise the message joins the in-flight queue: an empty payload
    /// resolves at once with success, anything else yields a pending
    /// token that the next step resolves.
    pub fn tag_send(&self, w: &mut Worker, tag: u64, bytes: &[u8]) -> (r: StatusPtr)
        requires
            old(w).wf(),
            self.valid(*old(w)),
        ensures
            final(w).wf(),
            r.wf(*final(w)),
            self.closed(*old(w)) ==> r == StatusPtr::Resolved(STATUS_ERR_CONNECTION_RESET)
                && *final(w) == *old(w),
            !self.closed(*old(w)) ==> {
                &&& same_eps(old(w).engine, final(w).engine)
                &&& same_listeners(old(w).engine, final(w).engine)
                &&& same_conns(old(w).engine, final(w).engine)
                &&& same_attempts(old(w).engine, final(w).engine)
                &&& final(w).engine.steps == old(w).engine.steps
                &&& final(w).engine.frees == old(w).engine.frees
                &&& final(w).engine.forced_closes == old(w).engine.forced_closes
                &&& final(w).engine.msgs.len() == old(w).engine.msgs.len() + 1
                &&& forall|k: int|
                    0 <= k < old(w).engine.msgs.len() ==> final(w).engine.msgs@[k]
                        == old(w).engine.msgs@[k]
                &&& final(w).engine.msgs@[old(w).engine.msgs.len() as int].src == self.id
                &&& final(w).engine.msgs@[old(w).engine.msgs.len() as int].tag == tag
                &&& final(w).engine.msgs@[old(w).engine.msgs.len() as int].data@ == bytes@
            },
            !self.closed(*old(w)) && bytes@.len() == 0 ==> r == StatusPtr::Resolved(STATUS_OK)
                && same_reqs(old(w).engine, final(w).engine) && final(w).engine.allocs == old(
                w,
            ).engine.allocs,
            !self.closed(*old(w)) && bytes@.len() > 0 ==> {
                &&& r == StatusPtr::Pending(old(w).engine.reqs.len())
                &&& final(w).engine.reqs@ == old(w).engine.reqs@.push(
                    ReqSlot {
                        ep: self.id,
                        kind: ReqKind::Send,
                        status: STATUS_IN_PROGRESS,
                        freed: false,
                    },
                )
                &&& final(w).engine.bufs.len() == old(w).engine.bufs.len() + 1
                &&& forall|k: int|
                    0 <= k < old(w).engine.bufs.len() ==> final(w).engine.bufs@[k]
                        == old(w).engine.bufs@[k]
                &&& final(w).engine.allocs == sat_inc(old(w).engine.allocs)
            },
    {
        let data = bytes_to_vec(bytes);
        match w.engine.submit_send(self.id, tag, data) {
            Ok(h) => StatusPtr::Pending(h),
            Err(s) => StatusPtr::Resolved(s),
        }
    }

    /// Post a non-blocking receive for messages whose tag agrees with
    /// `tag` under `tag_mask` (an all-ones mask demands an exact match,
    /// zero matches anything). The buffer moves into the engine until
    /// the token is consumed: waiting on a successful receive hands it
    /// back with the message in its prefix and the tail untouched; a
    /// message longer than the buffer resolves the token with the
    /// truncation status instead. On a channel whose closed flag is set
    /// the token is born resolved with the reset status.
    pub fn tag_recv(&self, w: &mut Worker, buffer: Vec<u8>, tag: u64, tag_mask: u64) -> (r:
        StatusPtr)
        requires
            old(w).wf(),
            self.valid(*old(w)),
        ensures
            final(w).wf(),
            r.wf(*final(w)),
            r == StatusPtr::Pending(old(w).engine.reqs.len()),
            final(w).engine.reqs@ == old(w).engine.reqs@.push(
                ReqSlot {
                    ep: self.id,
                    kind: ReqKind::Recv { tag, mask: tag_mask },
                    status: if self.closed(*old(w)) {
                        STATUS_ERR_CONNECTION_RESET
                    } else {
                        STATUS_IN_PROGRESS
                    },
                    freed: false,
                },
            ),
            final(w).engine.bufs.len() == old(w).engine.bufs.len() + 1,
            final(w).engine.bufs@[old(w).engine.reqs.len() as int]@ == buffer@,
            forall|k: int|
                0 <= k < old(w).engine.bufs.len() ==> final(w).engine.bufs@[k]
                    == old(w).engine.bufs@[k],
            final(w).engine.allocs == sat_inc(old(w).engine.allocs),
            same_eps(old(w).engine, final(w).engine),
            same_listeners(old(w).engine, final(w).engine),
            same_conns(old(w).engine, final(w).engine),
            same_attempts(old(w).engine, final(w).engine),
            final(w).engine.msgs@ == old(w).engine.msgs@,
            final(w).engine.steps == old(w).engine.steps,
            final(w).engine.frees == old(w).engine.frees,
            final(w).engine.forced_closes == old(w).engine.forced_closes,
    {
        let h = w.engine.submit_recv(self.id, buffer, tag, tag_mask);
        StatusPtr::Pending(h)
    }

    /// Tear the endpoint down, consuming it. If the shared closed flag
    /// is already set — the engine reported a peer failure first — the
    /// forced-close path is skipped entirely and the worker is not even
    /// stepped. Otherwise exactly one forced close is issued and waited
    /// out by cooperative polling, its handle released, and any failure
    /// swallowed: no caller remains to receive it. Either way the slot
    /// is invalidated synchronously, and a live peer is handed the
    /// asynchronous error notification that sets its own closed flag on
    /// its next step.
    pub fn close(self, w: &mut Worker)
        requires
            old(w).wf(),
            self.valid(*old(w)),
        ensures
            final(w).wf(),
            self.closed(*old(w)) ==> {
                &&& final(w).engine.forced_closes == old(w).engine.forced_closes
                &&& final(w).engine.steps == old(w).engine.steps
                &&& final(w).engine.allocs == old(w).engine.allocs
                &&& final(w).engine.frees == old(w).engine.frees
                &&& same_reqs(old(w).engine, final(w).engine)
                &&& final(w).engine.msgs@ == old(w).engine.msgs@
                &&& same_listeners(old(w).engine, final(w).engine)
                &&& same_conns(old(w).engine, final(w).engine)
                &&& same_attempts(old(w).engine, final(w).engine)
            },
            !self.closed(*old(w)) ==> {
                &&& final(w).engine.forced_closes == sat_inc(old(w).engine.forced_closes)
                &&& final(w).engine.allocs == sat_inc(old(w).engine.allocs)
                &&& final(w).engine.frees == sat_inc(old(w).engine.frees)
                &&& old(w).engine.steps < u64::MAX ==> final(w).engine.steps
                    > old(w).engine.steps
                &&& final(w).engine.reqs.len() == old(w).engine.reqs.len() + 1
                &&& final(w).engine.listeners@ == old(w).engine.listeners@
            },
            final(w).engine.eps.len() == old(w).engine.eps.len(),
            final(w).engine.eps@[self.id as int].alive == false,
            final(w).engine.eps@[self.id as int].closed == true,
            final(w).engine.eps@[self.id as int].peer == old(w).engine.eps@[self.id as int].peer,
            old(w).engine.eps@[self.id as int].peer matches Some(p) ==> (p < old(
                w,
            ).engine.eps.len() && (p != self.id && old(w).engine.eps@[p as int].alive
                ==> final(w).engine.eps@[p as int].err_pending)),
            forall|i: int|
                0 <= i < old(w).engine.reqs.len() ==> ((#[trigger] final(w).engine.reqs@[i]).ep
                    == old(w).engine.reqs@[i].ep && final(w).engine.reqs@[i].kind
                    == old(w).engine.reqs@[i].kind && final(w).engine.reqs@[i].freed
                    == old(w).engine.reqs@[i].freed),
            forall|i: int|
                0 <= i < old(w).engine.reqs.len() && (#[trigger] old(w).engine.reqs@[i]).status
                    != STATUS_IN_PROGRESS ==> final(w).engine.reqs@[i]
                    == old(w).engine.reqs@[i] && final(w).engine.bufs@[i]
                    == old(w).engine.bufs@[i],
    {
        let ghost o = *old(w);
        let closed = w.engine.eps[self.id].closed;
        if !closed {
            let h = w.engine.submit_close(self.id);
            let tok = StatusPtr::Pending(h);
            let ghost s1 = w.engine;
            let r = tok.wait(w);
            // teardown failures are swallowed: no caller remains to see them
            let _ = r;
            proof {
                assert(w.engine.eps@[self.id as int].alive) by {
                    assert(spec_ep_evolves(s1.eps@[self.id as int], w.engine.eps@[self.id
                        as int]));
                }
            }
        }
        w.engine.kill_ep(self.id);
    }
}

} // verus!
