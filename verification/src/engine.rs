//! A deterministic, instrumented, in-process engine.
//!
//! The engine is the non-blocking transport this layer manages: it accepts
//! operation submissions immediately and resolves them only inside an
//! explicit step ([`Engine::step`]). Handles are indices into stable
//! tables, so a stale handle is a safe no-op instead of a dangling
//! pointer. Every handle allocation, release, forced close and step is
//! counted, which lets the layer's exactly-once lifetime guarantees be
//! observed at run time as well as proved.
//!
//! Delivery model: a message sent on an endpoint is addressed to that
//! endpoint's peer and is matched, during a step, against the oldest
//! posted receive on the peer whose tag agrees under the receive's mask.
//! A message larger than the posted buffer resolves the receive with the
//! truncation status and is consumed; a smaller one overwrites only the
//! buffer's prefix. Messages are datagrams: one send is one message.

use vstd::prelude::*;
use crate::status::{STATUS_OK, STATUS_IN_PROGRESS, STATUS_ERR_CONNECTION_RESET,
    STATUS_ERR_MESSAGE_TRUNCATED, Error};

verus! {

/// A socket address: an IP (an IPv4 address sits in the low 32 bits) and
/// a port. Outbound connects and inbound binds use the same form.
#[derive(Clone, Copy, Debug, PartialEq, Eq, Structural)]
pub struct Address {
    pub ip: u128,
    pub port: u16,
}

/// A message in flight: sent, not yet matched by any receive.
pub struct Msg {
    /// The endpoint that sent it; it is addressed to that endpoint's peer.
    pub src: usize,
    /// The 64-bit tag the receiver matches on.
    pub tag: u64,
    /// The payload, an opaque byte sequence with no added framing.
    pub data: Vec<u8>,
}

/// What an engine request slot is doing.
#[derive(Clone, Copy, Debug, PartialEq, Eq, Structural)]
pub enum ReqKind {
    /// A tagged send; completes on the step after submission.
    Send,
    /// A posted receive for messages whose tag agrees under `mask`.
    Recv { tag: u64, mask: u64 },
    /// A forced close of a channel; completes on the step after submission.
    Close,
}

/// One engine request slot. The slot index is the request handle.
#[derive(Clone, Copy, Debug, PartialEq, Eq, Structural)]
pub struct ReqSlot {
    /// The endpoint the operation was issued on.
    pub ep: usize,
    pub kind: ReqKind,
    /// The in-progress sentinel until resolved, then a final status code.
    pub status: i32,
    /// Set exactly once, when the handle is released back to the engine.
    pub freed: bool,
}

/// One endpoint channel record.
#[derive(Clone, Copy, Debug, PartialEq, Eq, Structural)]
pub struct EpSlot {
    /// Cleared when the owner tears the endpoint down; handles to dead
    /// slots are invalidated synchronously.
    pub alive: bool,
    /// The shared closed flag: set by the engine's error path or by
    /// teardown, and consulted by teardown to skip a redundant close.
    pub closed: bool,
    /// An engine-reported peer failure that the next step will turn into
    /// the closed flag.
    pub err_pending: bool,
    /// The endpoint this channel is connected to, once known.
    pub peer: Option<usize>,
}

/// One bound listener record; its inbound queue lives in
/// [`Engine::queues`] at the same index.
#[derive(Clone, Copy, Debug, PartialEq, Eq, Structural)]
pub struct ListenerSlot {
    pub alive: bool,
    pub addr: Address,
}

/// One inbound connection record. It backs a single-use connection
/// request: accepting marks it used, destroying its listener marks it
/// dead, and either mark makes any later accept fail cleanly.
#[derive(Clone, Copy, Debug, PartialEq, Eq, Structural)]
pub struct ConnSlot {
    /// The connecting side's endpoint, paired up at accept time.
    pub client_ep: usize,
    /// The listener the attempt was aimed at; tearing it down makes the
    /// request unusable even after it was handed out.
    pub listener: usize,
    pub dead: bool,
    pub used: bool,
}

/// An inbound connection attempt that no step has dispatched yet.
#[derive(Clone, Copy, Debug, PartialEq, Eq, Structural)]
pub struct Attempt {
    pub addr: Address,
    pub conn: usize,
}

/// The engine state: stable tables indexed by handle, the in-flight
/// message queue, undispatched connection attempts, and the counters.
pub struct Engine {
    pub eps: Vec<EpSlot>,
    pub reqs: Vec<ReqSlot>,
    /// `bufs[i]` is the posted receive buffer of request `i` (empty for
    /// sends and closes). After delivery it holds the delivered bytes.
    pub bufs: Vec<Vec<u8>>,
    pub listeners: Vec<ListenerSlot>,
    /// `queues[l]` holds the dispatched, not yet polled connection ids of
    /// listener `l`, oldest first.
    pub queues: Vec<Vec<usize>>,
    pub conns: Vec<ConnSlot>,
    pub msgs: Vec<Msg>,
    pub attempts: Vec<Attempt>,
    /// How many steps have run (saturating).
    pub steps: u64,
    /// How many request handles were handed out (saturating).
    pub allocs: u64,
    /// How many request handles were released (saturating).
    pub frees: u64,
    /// How many forced close requests were issued (saturating).
    pub forced_closes: u64,
}

/// A counter bumped by one, stopping at the top of its range.
pub open spec fn sat_inc(x: u64) -> u64 {
    if x == u64::MAX {
        u64::MAX
    } else {
        (x + 1) as u64
    }
}

/// A message tag agrees with a posted receive under the receive's mask.
/// An all-ones mask is an exact match; a zero mask matches anything.
pub open spec fn spec_tag_matches(msg_tag: u64, tag: u64, mask: u64) -> bool {
    (msg_tag & mask) == (tag & mask)
}

/// Exec mirror of [`spec_tag_matches`].
pub fn tag_matches(msg_tag: u64, tag: u64, mask: u64) -> (r: bool)
    ensures
        r == spec_tag_matches(msg_tag, tag, mask),
{
    (msg_tag & mask) == (tag & mask)
}

/// An endpoint record after a step's error phase: a pending
/// engine-reported failure becomes the closed flag.
pub open spec fn spec_ep_after_step(e: EpSlot) -> EpSlot {
    EpSlot { closed: e.closed || e.err_pending, err_pending: false, ..e }
}

/// A request's status after a step's error phase: a pending send or
/// receive on a channel whose closed flag is (or just became) set
/// resolves with the reset status. Close requests are exempt: a forced
/// close must resolve even on a failed channel.
pub open spec fn spec_status_after_errors(o: Engine, i: int) -> i32 {
    if o.reqs[i].status == STATUS_IN_PROGRESS && !(o.reqs[i].kind is Close)
        && spec_ep_after_step(o.eps[o.reqs[i].ep as int]).closed {
        STATUS_ERR_CONNECTION_RESET
    } else {
        o.reqs[i].status
    }
}

/// A request's status after a step's local-completion phase: pending
/// sends (the payload is already buffered in the message queue) and
/// pending closes resolve with success.
pub open spec fn spec_status_after_local(o: Engine, i: int) -> i32 {
    if o.reqs[i].status == STATUS_IN_PROGRESS && (o.reqs[i].kind is Send || o.reqs[i].kind
        is Close) {
        STATUS_OK
    } else {
        o.reqs[i].status
    }
}

impl ReqKind {
    /// The tag a posted receive matches on (zero for other kinds).
    pub open spec fn recv_tag(self) -> u64 {
        match self {
            ReqKind::Recv { tag, .. } => tag,
            _ => 0,
        }
    }

    /// The mask a posted receive matches under (zero for other kinds).
    pub open spec fn recv_mask(self) -> u64 {
        match self {
            ReqKind::Recv { mask, .. } => mask,
            _ => 0,
        }
    }
}

/// Message `k` of `pre` resolved receive `i`: the message was acceptable
/// to the receive, and either it fit the posted buffer (success: the
/// buffer's prefix becomes the payload, its tail is untouched) or it was
/// larger (the receive resolves with the truncation status and the
/// buffer is untouched). The message is consumed either way.
pub open spec fn spec_msg_delivers(pre: Engine, k: int, post: Engine, i: int) -> bool {
    &&& pre.spec_recv_accepts(i, pre.msgs[k].src, pre.msgs[k].tag)
    &&& if pre.msgs[k].data.len() <= pre.bufs[i].len() {
        &&& post.reqs[i].status == STATUS_OK
        &&& post.bufs[i]@ == pre.msgs[k].data@ + pre.bufs[i]@.skip(pre.msgs[k].data.len() as int)
    } else {
        &&& post.reqs[i].status == STATUS_ERR_MESSAGE_TRUNCATED
        &&& post.bufs[i]@ == pre.bufs[i]@
    }
}

/// Receive `i` either sat untouched through a delivery phase or was
/// resolved by one of the messages that were in flight when it began.
pub open spec fn spec_delivery(pre: Engine, post: Engine, i: int) -> bool {
    ||| (post.reqs[i] == pre.reqs[i] && post.bufs[i] == pre.bufs[i])
    ||| (exists|k: int| 0 <= k < pre.msgs.len() && #[trigger] spec_msg_delivers(pre, k, post, i))
}

/// Some live listener in `listeners` is bound on `addr`.
pub open spec fn spec_live_listener(listeners: Seq<ListenerSlot>, addr: Address) -> bool {
    exists|l: int|
        0 <= l < listeners.len() && (#[trigger] listeners[l]).alive && listeners[l].addr == addr
}

/// The connection ids a step hands the listener bound on `addr`: the
/// staged attempts for that address, oldest first.
pub open spec fn spec_dispatched_to(attempts: Seq<Attempt>, addr: Address) -> Seq<usize>
    decreases attempts.len(),
{
    if attempts.len() == 0 {
        Seq::empty()
    } else {
        let rest = spec_dispatched_to(attempts.drop_last(), addr);
        if attempts.last().addr == addr {
            rest.push(attempts.last().conn)
        } else {
            rest
        }
    }
}

/// Among the first `t` staged attempts, one carried connection `c` to an
/// address no live listener holds, so a step drops it.
pub open spec fn spec_dropped_upto(
    attempts: Seq<Attempt>,
    listeners: Seq<ListenerSlot>,
    c: int,
    t: int,
) -> bool {
    exists|a: int|
        0 <= a < t && (#[trigger] attempts[a]).conn == c && !spec_live_listener(
            listeners,
            attempts[a].addr,
        )
}

/// A staged attempt carried connection `c` to an address no live
/// listener holds.
pub open spec fn spec_attempt_dropped(
    attempts: Seq<Attempt>,
    listeners: Seq<ListenerSlot>,
    c: int,
) -> bool {
    spec_dropped_upto(attempts, listeners, c, attempts.len() as int)
}

/// Dispatching one more staged attempt extends the dispatch of its
/// address by its connection id and leaves every other address alone.
proof fn lemma_dispatched_step(s: Seq<Attempt>, t: int, addr: Address)
    requires
        0 <= t < s.len(),
    ensures
        spec_dispatched_to(s.take(t + 1), addr) == if s[t].addr == addr {
            spec_dispatched_to(s.take(t), addr).push(s[t].conn)
        } else {
            spec_dispatched_to(s.take(t), addr)
        },
{
    let pre1 = s.take(t + 1);
    assert(pre1.len() == t + 1);
    assert(pre1.drop_last() =~= s.take(t));
    assert(pre1.last() == s[t]);
}

/// A delivery verdict only reads the receive's slot and buffer, so it
/// survives any change that leaves those two untouched.
proof fn lemma_delivery_stable(pre: Engine, a: Engine, b: Engine, i: int)
    requires
        spec_delivery(pre, a, i),
        b.reqs.len() == a.reqs.len(),
        b.bufs.len() == a.bufs.len(),
        b.reqs[i] == a.reqs[i],
        b.bufs[i] == a.bufs[i],
    ensures
        spec_delivery(pre, b, i),
{
    if !(a.reqs[i] == pre.reqs[i] && a.bufs[i] == pre.bufs[i]) {
        let k = choose|k: int|
            0 <= k < pre.msgs.len() && #[trigger] spec_msg_delivers(pre, k, a, i);
        assert(spec_msg_delivers(pre, k, b, i));
    }
}

/// Everything one step promises, relating the engine before (`o`) and
/// after (`n`): the step counter advances; endpoints only trade their
/// pending error notification for the closed flag; resolved requests are
/// stable; pending sends and closes resolve (a send on a closed channel
/// with the reset status, otherwise with success); each still-open
/// pending receive is either untouched or resolved by an in-flight
/// message under the truncation policy; surviving messages were already
/// in flight; and every staged connection attempt is dispatched to the
/// live listener bound on its address or dropped, its record marked
/// dead, when there is none.
pub open spec fn spec_step_post(o: Engine, n: Engine) -> bool {
    &&& n.steps == sat_inc(o.steps)
    &&& n.allocs == o.allocs
    &&& n.frees == o.frees
    &&& n.forced_closes == o.forced_closes
    &&& n.eps.len() == o.eps.len()
    &&& forall|e: int|
        0 <= e < o.eps.len() ==> n.eps@[e] == spec_ep_after_step(#[trigger] o.eps@[e])
    &&& n.listeners@ == o.listeners@
    &&& n.reqs.len() == o.reqs.len()
    &&& n.bufs.len() == o.bufs.len()
    &&& forall|i: int|
        0 <= i < o.reqs.len() ==> ((#[trigger] n.reqs@[i]).ep == o.reqs@[i].ep && n.reqs@[i].kind
            == o.reqs@[i].kind && n.reqs@[i].freed == o.reqs@[i].freed)
    &&& forall|i: int|
        0 <= i < o.reqs.len() && (#[trigger] o.reqs@[i]).status != STATUS_IN_PROGRESS
            ==> n.reqs@[i] == o.reqs@[i] && n.bufs@[i] == o.bufs@[i]
    &&& forall|i: int|
        0 <= i < o.reqs.len() && (#[trigger] o.reqs@[i]).status == STATUS_IN_PROGRESS
            && o.reqs@[i].kind is Close ==> n.reqs@[i].status == STATUS_OK
    &&& forall|i: int|
        0 <= i < o.reqs.len() && (#[trigger] o.reqs@[i]).status == STATUS_IN_PROGRESS
            && o.reqs@[i].kind is Send ==> n.reqs@[i].status == (if spec_ep_after_step(
            o.eps@[o.reqs@[i].ep as int],
        ).closed {
            STATUS_ERR_CONNECTION_RESET
        } else {
            STATUS_OK
        })
    &&& forall|i: int|
        0 <= i < o.reqs.len() && (#[trigger] o.reqs@[i]).status == STATUS_IN_PROGRESS
            && o.reqs@[i].kind is Recv && spec_ep_after_step(
            o.eps@[o.reqs@[i].ep as int],
        ).closed ==> n.reqs@[i].status == STATUS_ERR_CONNECTION_RESET && n.bufs@[i]
            == o.bufs@[i]
    &&& forall|i: int|
        0 <= i < o.reqs.len() && (#[trigger] o.reqs@[i]).status == STATUS_IN_PROGRESS
            && o.reqs@[i].kind is Recv && !spec_ep_after_step(
            o.eps@[o.reqs@[i].ep as int],
        ).closed ==> spec_delivery(o, n, i)
    &&& forall|j: int| 0 <= j < n.msgs.len() ==> o.msgs@.contains(#[trigger] n.msgs@[j])
    &&& ((o.msgs.len() > 0 && (exists|i: int|
        0 <= i < o.reqs.len() && (#[trigger] o.reqs@[i]).status == STATUS_IN_PROGRESS
            && o.reqs@[i].kind is Recv && o.eps@[o.reqs@[i].ep as int].alive
            && !spec_ep_after_step(o.eps@[o.reqs@[i].ep as int]).closed
            && o.spec_recv_accepts(i, o.msgs@[0].src, o.msgs@[0].tag))) ==> n.msgs.len()
        < o.msgs.len())
    &&& n.attempts.len() == 0
    &&& n.conns.len() == o.conns.len()
    &&& forall|c: int|
        0 <= c < o.conns.len() ==> n.conns@[c] == (ConnSlot {
            dead: o.conns@[c].dead || spec_attempt_dropped(o.attempts@, o.listeners@, c),
            ..o.conns@[c]
        })
    &&& n.queues.len() == o.queues.len()
    &&& forall|l: int|
        0 <= l < o.listeners.len() && (#[trigger] o.listeners@[l]).alive ==> n.queues@[l]@
            == o.queues@[l]@ + spec_dispatched_to(o.attempts@, o.listeners@[l].addr)
    &&& forall|l: int|
        0 <= l < o.listeners.len() && !(#[trigger] o.listeners@[l]).alive ==> n.queues@[l]
            == o.queues@[l]
}

/// An endpoint record only evolves, across any number of steps, by
/// trading a pending error notification for the closed flag; liveness
/// and peering are only changed by its owner, never by a step.
pub open spec fn spec_ep_evolves(a: EpSlot, b: EpSlot) -> bool {
    &&& b.alive == a.alive
    &&& b.peer == a.peer
    &&& (a.closed ==> b.closed)
    &&& (b.closed ==> a.closed || a.err_pending)
    &&& (b.err_pending ==> a.err_pending)
}

/// What any number of steps preserves: handle counters other than the
/// step count, endpoint identity, the listener table, resolved
/// requests, every released-flag, connection ownership, each queue's
/// already-dispatched prefix, and the provenance of in-flight messages.
pub open spec fn spec_engine_evolves(a: Engine, b: Engine) -> bool {
    &&& b.steps >= a.steps
    &&& b.allocs == a.allocs
    &&& b.frees == a.frees
    &&& b.forced_closes == a.forced_closes
    &&& b.eps.len() == a.eps.len()
    &&& forall|e: int| 0 <= e < a.eps.len() ==> spec_ep_evolves(#[trigger] a.eps@[e], b.eps@[e])
    &&& b.listeners@ == a.listeners@
    &&& b.reqs.len() == a.reqs.len()
    &&& b.bufs.len() == a.bufs.len()
    &&& forall|i: int|
        0 <= i < a.reqs.len() ==> ((#[trigger] b.reqs@[i]).ep == a.reqs@[i].ep && b.reqs@[i].kind
            == a.reqs@[i].kind && b.reqs@[i].freed == a.reqs@[i].freed)
    &&& forall|i: int|
        0 <= i < a.reqs.len() && (#[trigger] a.reqs@[i]).status != STATUS_IN_PROGRESS
            ==> b.reqs@[i] == a.reqs@[i] && b.bufs@[i] == a.bufs@[i]
    &&& b.conns.len() == a.conns.len()
    &&& forall|c: int|
        0 <= c < a.conns.len() ==> ((#[trigger] b.conns@[c]).client_ep == a.conns@[c].client_ep
            && b.conns@[c].listener == a.conns@[c].listener && b.conns@[c].used
            == a.conns@[c].used && (a.conns@[c].dead ==> b.conns@[c].dead))
    &&& b.queues.len() == a.queues.len()
    &&& forall|l: int|
        0 <= l < a.queues.len() ==> (#[trigger] b.queues@[l]@).len() >= a.queues@[l]@.len()
            && b.queues@[l]@.take(a.queues@[l]@.len() as int) == a.queues@[l]@
    &&& forall|j: int| 0 <= j < b.msgs.len() ==> a.msgs@.contains(#[trigger] b.msgs@[j])
}

/// Nothing evolves across zero steps.
pub proof fn lemma_evolves_refl(a: Engine)
    ensures
        spec_engine_evolves(a, a),
{
    assert forall|l: int| 0 <= l < a.queues.len() implies (#[trigger] a.queues@[l]@).len()
        >= a.queues@[l]@.len() && a.queues@[l]@.take(a.queues@[l]@.len() as int)
        == a.queues@[l]@ by {
        assert(a.queues@[l]@.take(a.queues@[l]@.len() as int) =~= a.queues@[l]@);
    }
    assert forall|j: int| 0 <= j < a.msgs.len() implies a.msgs@.contains(
        #[trigger] a.msgs@[j],
    ) by {
    }
}

/// Evolution composes across consecutive runs of steps.
pub proof fn lemma_evolves_trans(a: Engine, b: Engine, c: Engine)
    requires
        spec_engine_evolves(a, b),
        spec_engine_evolves(b, c),
    ensures
        spec_engine_evolves(a, c),
{
    assert forall|e: int| 0 <= e < a.eps.len() implies spec_ep_evolves(
        #[trigger] a.eps@[e],
        c.eps@[e],
    ) by {
        assert(spec_ep_evolves(a.eps@[e], b.eps@[e]));
        assert(spec_ep_evolves(b.eps@[e], c.eps@[e]));
    }
    assert forall|i: int|
        0 <= i < a.reqs.len() && (#[trigger] a.reqs@[i]).status != STATUS_IN_PROGRESS implies
        c.reqs@[i] == a.reqs@[i] && c.bufs@[i] == a.bufs@[i] by {
        assert(b.reqs@[i] == a.reqs@[i] && b.bufs@[i] == a.bufs@[i]);
        assert(b.reqs@[i].status != STATUS_IN_PROGRESS);
    }
    assert forall|l: int| 0 <= l < a.queues.len() implies (#[trigger] c.queues@[l]@).len()
        >= a.queues@[l]@.len() && c.queues@[l]@.take(a.queues@[l]@.len() as int)
        == a.queues@[l]@ by {
        assert(b.queues@[l]@.take(a.queues@[l]@.len() as int) == a.queues@[l]@) by {
            assert(b.queues@[l]@.take(a.queues@[l]@.len() as int) =~= b.queues@[l]@.take(
                b.queues@[l]@.len() as int,
            ).take(a.queues@[l]@.len() as int)) by {
                assert(c.queues@[l]@.len() >= b.queues@[l]@.len());
            }
        }
        assert(c.queues@[l]@.take(a.queues@[l]@.len() as int) =~= b.queues@[l]@.take(
            a.queues@[l]@.len() as int,
        ));
    }
    assert forall|j: int| 0 <= j < c.msgs.len() implies a.msgs@.contains(
        #[trigger] c.msgs@[j],
    ) by {
        assert(b.msgs@.contains(c.msgs@[j]));
        let w = choose|w: int| 0 <= w < b.msgs@.len() && b.msgs@[w] == c.msgs@[j];
        assert(a.msgs@.contains(b.msgs@[w]));
    }
}

/// One step is an evolution.
pub proof fn lemma_step_evolves(a: Engine, b: Engine)
    requires
        a.wf(),
        spec_step_post(a, b),
    ensures
        spec_engine_evolves(a, b),
{
    assert forall|e: int| 0 <= e < a.eps.len() implies spec_ep_evolves(
        #[trigger] a.eps@[e],
        b.eps@[e],
    ) by {
        assert(b.eps@[e] == spec_ep_after_step(a.eps@[e]));
    }
    assert forall|l: int| 0 <= l < a.queues.len() implies (#[trigger] b.queues@[l]@).len()
        >= a.queues@[l]@.len() && b.queues@[l]@.take(a.queues@[l]@.len() as int)
        == a.queues@[l]@ by {
        if l < a.listeners.len() && a.listeners@[l].alive {
            assert(b.queues@[l]@.take(a.queues@[l]@.len() as int) =~= a.queues@[l]@);
        } else {
            assert(b.queues@[l] == a.queues@[l]);
            assert(b.queues@[l]@.take(a.queues@[l]@.len() as int) =~= a.queues@[l]@);
        }
    }
}

/// The endpoint table is unchanged.
pub open spec fn same_eps(a: Engine, b: Engine) -> bool {
    b.eps@ == a.eps@
}

/// The request table, buffers included, is unchanged.
pub open spec fn same_reqs(a: Engine, b: Engine) -> bool {
    b.reqs@ == a.reqs@ && b.bufs@ == a.bufs@
}

/// The listener table and its queues are unchanged.
pub open spec fn same_listeners(a: Engine, b: Engine) -> bool {
    b.listeners@ == a.listeners@ && b.queues@ == a.queues@
}

/// The connection record table is unchanged.
pub open spec fn same_conns(a: Engine, b: Engine) -> bool {
    b.conns@ == a.conns@
}

/// The in-flight message queue is unchanged.
pub open spec fn same_msgs(a: Engine, b: Engine) -> bool {
    b.msgs@ == a.msgs@
}

/// The staged connection attempts are unchanged.
pub open spec fn same_attempts(a: Engine, b: Engine) -> bool {
    b.attempts@ == a.attempts@
}

/// Every instrumentation counter is unchanged.
pub open spec fn same_counters(a: Engine, b: Engine) -> bool {
    b.steps == a.steps && b.allocs == a.allocs && b.frees == a.frees && b.forced_closes
        == a.forced_closes
}

fn sat_inc_u64(x: u64) -> (r: u64)
    ensures
        r == sat_inc(x),
{
    if x == u64::MAX {
        x
    } else {
        x + 1
    }
}

/// Byte-for-byte copy of a buffer.
pub fn copy_bytes(v: &Vec<u8>) -> (r: Vec<u8>)
    ensures
        r@ == v@,
{
    let mut r: Vec<u8> = Vec::new();
    let mut i: usize = 0;
    while i < v.len()
        invariant
            i <= v.len(),
            r@ == v@.subrange(0, i as int),
        decreases v.len() - i,
    {
        r.push(v[i]);
        proof {
            assert(r@ =~= v@.subrange(0, i + 1 as int));
        }
        i = i + 1;
    }
    proof {
        assert(r@ =~= v@);
    }
    r
}

/// Element-for-element copy of a connection id queue.
fn copy_ids(v: &Vec<usize>) -> (r: Vec<usize>)
    ensures
        r@ == v@,
{
    let mut r: Vec<usize> = Vec::new();
    let mut i: usize = 0;
    while i < v.len()
        invariant
            i <= v.len(),
            r@ == v@.subrange(0, i as int),
        decreases v.len() - i,
    {
        r.push(v[i]);
        proof {
            assert(r@ =~= v@.subrange(0, i + 1 as int));
        }
        i = i + 1;
    }
    proof {
        assert(r@ =~= v@);
    }
    r
}

impl Engine {
    /// Every request slot names an existing endpoint.
    pub open spec fn reqs_wf(self) -> bool {
        &&& self.bufs.len() == self.reqs.len()
        &&& forall|i: int|
            0 <= i < self.reqs.len() ==> (#[trigger] self.reqs[i]).ep < self.eps.len()
    }

    /// Every in-flight message names an existing source endpoint.
    pub open spec fn msgs_wf(self) -> bool {
        forall|i: int|
            0 <= i < self.msgs.len() ==> (#[trigger] self.msgs[i]).src < self.eps.len()
    }

    /// Every peer link points at an existing endpoint.
    pub open spec fn peers_wf(self) -> bool {
        forall|i: int|
            0 <= i < self.eps.len() ==> ((#[trigger] self.eps[i]).peer matches Some(p) ==> p
                < self.eps.len())
    }

    /// Every connection record names an existing client endpoint and an
    /// existing listener.
    pub open spec fn conns_wf(self) -> bool {
        forall|i: int|
            0 <= i < self.conns.len() ==> ((#[trigger] self.conns[i]).client_ep < self.eps.len()
                && self.conns[i].listener < self.listeners.len())
    }

    /// Every staged attempt names an existing connection record.
    pub open spec fn attempts_wf(self) -> bool {
        forall|i: int|
            0 <= i < self.attempts.len() ==> (#[trigger] self.attempts[i]).conn < self.conns.len()
    }

    /// Each listener has its queue, and queued ids name existing
    /// connection records.
    pub open spec fn queues_wf(self) -> bool {
        &&& self.queues.len() == self.listeners.len()
        &&& forall|l: int, j: int|
            0 <= l < self.queues.len() && 0 <= j < self.queues[l].len() ==> (
            #[trigger] self.queues[l][j]) < self.conns.len()
    }

    /// At most one live listener is bound on any address, so an inbound
    /// attempt has a single possible home.
    pub open spec fn addrs_unique(self) -> bool {
        forall|l1: int, l2: int|
            0 <= l1 < self.listeners.len() && 0 <= l2 < self.listeners.len() && l1 != l2
                && (#[trigger] self.listeners[l1]).alive && (#[trigger] self.listeners[l2]).alive
                ==> self.listeners[l1].addr != self.listeners[l2].addr
    }

    /// A pending connection id occurs at most once across all listener
    /// queues and staged attempts: each attempt is dispatched as its own
    /// single-use connection request.
    pub open spec fn pending_conns_distinct(self) -> bool {
        &&& forall|l1: int, j1: int, l2: int, j2: int|
            #![trigger self.queues[l1][j1], self.queues[l2][j2]]
            0 <= l1 < self.queues.len() && 0 <= j1 < self.queues[l1].len() && 0 <= l2
                < self.queues.len() && 0 <= j2 < self.queues[l2].len() && (l1 != l2 || j1 != j2)
                ==> self.queues[l1][j1] != self.queues[l2][j2]
        &&& forall|l: int, j: int, a: int|
            #![trigger self.queues[l][j], self.attempts[a]]
            0 <= l < self.queues.len() && 0 <= j < self.queues[l].len() && 0 <= a
                < self.attempts.len() ==> self.queues[l][j] != self.attempts[a].conn
        &&& forall|a1: int, a2: int|
            #![trigger self.attempts[a1], self.attempts[a2]]
            0 <= a1 < self.attempts.len() && 0 <= a2 < self.attempts.len() && a1 != a2
                ==> self.attempts[a1].conn != self.attempts[a2].conn
    }

    /// The engine's tables are internally consistent.
    pub open spec fn wf(self) -> bool {
        &&& self.reqs_wf()
        &&& self.msgs_wf()
        &&& self.peers_wf()
        &&& self.conns_wf()
        &&& self.attempts_wf()
        &&& self.queues_wf()
        &&& self.addrs_unique()
        &&& self.pending_conns_distinct()
    }

    /// Some live listener is bound on this address.
    pub open spec fn has_live_listener(self, addr: Address) -> bool {
        spec_live_listener(self.listeners@, addr)
    }

    /// A fresh engine: no channels, no requests, every counter at zero.
    pub fn new() -> (e: Engine)
        ensures
            e.wf(),
            e.eps.len() == 0,
            e.reqs.len() == 0,
            e.listeners.len() == 0,
            e.conns.len() == 0,
            e.msgs.len() == 0,
            e.attempts.len() == 0,
            e.steps == 0,
            e.allocs == 0,
            e.frees == 0,
            e.forced_closes == 0,
    {
        Engine {
            eps: Vec::new(),
            reqs: Vec::new(),
            bufs: Vec::new(),
            listeners: Vec::new(),
            queues: Vec::new(),
            conns: Vec::new(),
            msgs: Vec::new(),
            attempts: Vec::new(),
            steps: 0,
            allocs: 0,
            frees: 0,
            forced_closes: 0,
        }
    }

    /// Establish an outbound channel to `addr`. The engine resolves
    /// addresses in-process: it succeeds exactly when a live listener is
    /// bound there, creating a fresh endpoint and staging an inbound
    /// attempt that a later step will dispatch to that listener.
    pub fn connect(&mut self, addr: Address) -> (r: Result<usize, Error>)
        requires
            old(self).wf(),
        ensures
            final(self).wf(),
            same_counters(*old(self), *final(self)),
            same_reqs(*old(self), *final(self)),
            same_msgs(*old(self), *final(self)),
            same_listeners(*old(self), *final(self)),
            match r {
                Ok(ep) => {
                    &&& old(self).has_live_listener(addr)
                    &&& ep == old(self).eps.len()
                    &&& final(self).eps@ == old(self).eps@.push(
                        EpSlot { alive: true, closed: false, err_pending: false, peer: None },
                    )
                    &&& final(self).conns.len() == old(self).conns.len() + 1
                    &&& forall|k: int|
                        0 <= k < old(self).conns.len() ==> final(self).conns@[k]
                            == old(self).conns@[k]
                    &&& final(self).conns@[old(self).conns.len() as int].client_ep == ep
                    &&& !final(self).conns@[old(self).conns.len() as int].dead
                    &&& !final(self).conns@[old(self).conns.len() as int].used
                    &&& final(self).conns@[old(self).conns.len() as int].listener
                        < old(self).listeners.len()
                    &&& old(self).listeners@[final(self).conns@[old(self).conns.len()
                        as int].listener as int].alive
                    &&& old(self).listeners@[final(self).conns@[old(self).conns.len()
                        as int].listener as int].addr == addr
                    &&& final(self).attempts@ == old(self).attempts@.push(
                        Attempt { addr, conn: old(self).conns.len() },
                    )
                },
                Err(e) => {
                    &&& !old(self).has_live_listener(addr)
                    &&& e == Error::Unreachable
                    &&& *final(self) == *old(self)
                },
            },
    {
        match self.find_listener(addr) {
            Some(l) => {
                let ep = self.eps.len();
                self.eps.push(EpSlot { alive: true, closed: false, err_pending: false, peer: None });
                let conn = self.conns.len();
                self.conns.push(ConnSlot { client_ep: ep, listener: l, dead: false, used: false });
                self.attempts.push(Attempt { addr, conn });
                proof {
                    assert(self.wf()) by {
                        assert forall|i: int|
                            0 <= i < self.attempts.len() implies (#[trigger] self.attempts[i]).conn
                            < self.conns.len() by {
                            if i < old(self).attempts.len() {
                                assert(old(self).attempts[i].conn < old(self).conns.len());
                            }
                        }
                    }
                }
                Ok(ep)
            },
            None => Err(Error::Unreachable),
        }
    }

    /// Bind a listener on `addr`. Fails while another live listener holds
    /// the address, so a live address has a single owner.
    pub fn listener_bind(&mut self, addr: Address) -> (r: Result<usize, Error>)
        requires
            old(self).wf(),
        ensures
            final(self).wf(),
            same_counters(*old(self), *final(self)),
            same_reqs(*old(self), *final(self)),
            same_msgs(*old(self), *final(self)),
            same_eps(*old(self), *final(self)),
            same_conns(*old(self), *final(self)),
            same_attempts(*old(self), *final(self)),
            match r {
                Ok(l) => {
                    &&& !old(self).has_live_listener(addr)
                    &&& l == old(self).listeners.len()
                    &&& final(self).listeners@ == old(self).listeners@.push(
                        ListenerSlot { alive: true, addr },
                    )
                    &&& final(self).queues.len() == old(self).queues.len() + 1
                    &&& forall|k: int|
                        0 <= k < old(self).queues.len() ==> final(self).queues@[k]
                            == old(self).queues@[k]
                    &&& final(self).queues[l as int]@ == Seq::<usize>::empty()
                },
                Err(e) => {
                    &&& old(self).has_live_listener(addr)
                    &&& e == Error::Busy
                    &&& *final(self) == *old(self)
                },
            },
    {
        match self.find_listener(addr) {
            Some(_l) => Err(Error::Busy),
            None => {
                let l = self.listeners.len();
                self.listeners.push(ListenerSlot { alive: true, addr });
                self.queues.push(Vec::new());
                proof {
                    assert(self.wf()) by {
                        assert forall|l1: int, l2: int|
                            0 <= l1 < self.listeners.len() && 0 <= l2 < self.listeners.len() && l1
                                != l2 && (#[trigger] self.listeners[l1]).alive && (
                            #[trigger] self.listeners[l2]).alive implies self.listeners[l1].addr
                            != self.listeners[l2].addr by {
                            if l1 < old(self).listeners.len() && l2 < old(self).listeners.len() {
                                assert(old(self).addrs_unique());
                            }
                        }
                        assert forall|l1: int, j1: int|
                            0 <= l1 < self.queues.len() && 0 <= j1
                                < self.queues[l1].len() implies (#[trigger] self.queues[l1][j1])
                            < self.conns.len() by {
                            assert(l1 < old(self).queues.len());
                        }
                    }
                }
                Ok(l)
            },
        }
    }

    /// Hand out the oldest dispatched, not yet polled connection id of
    /// listener `l`, if one is waiting.
    pub fn listener_poll(&mut self, l: usize) -> (r: Option<usize>)
        requires
            old(self).wf(),
            l < old(self).listeners.len(),
        ensures
            final(self).wf(),
            same_counters(*old(self), *final(self)),
            same_reqs(*old(self), *final(self)),
            same_msgs(*old(self), *final(self)),
            same_eps(*old(self), *final(self)),
            same_conns(*old(self), *final(self)),
            same_attempts(*old(self), *final(self)),
            final(self).listeners@ == old(self).listeners@,
            final(self).queues.len() == old(self).queues.len(),
            forall|k: int|
                0 <= k < old(self).queues.len() && k != l ==> final(self).queues@[k]
                    == old(self).queues@[k],
            match r {
                Some(c) => {
                    &&& old(self).queues[l as int].len() > 0
                    &&& c == old(self).queues[l as int][0]
                    &&& c < old(self).conns.len()
                    &&& final(self).queues[l as int]@ == old(self).queues[l as int]@.subrange(
                        1,
                        old(self).queues[l as int].len() as int,
                    )
                },
                None => {
                    &&& old(self).queues[l as int].len() == 0
                    &&& *final(self) == *old(self)
                },
            },
    {
        proof {
            assert(self.queues.len() == self.listeners.len());
        }
        if self.queues[l].len() == 0 {
            None
        } else {
            let mut q = copy_ids(&self.queues[l]);
            let c = q.remove(0);
            self.queues[l] = q;
            proof {
                assert(self.queues[l as int]@ =~= old(self).queues[l as int]@.subrange(
                    1,
                    old(self).queues[l as int].len() as int,
                ));
                assert(self.wf()) by {
                    assert forall|l1: int, j1: int|
                        0 <= l1 < self.queues.len() && 0 <= j1 < self.queues[l1].len() implies (
                    #[trigger] self.queues[l1][j1]) < self.conns.len() by {
                        if l1 == l {
                            assert(self.queues[l1][j1] == old(self).queues[l1][j1 + 1]);
                        }
                    }
                    assert forall|l1: int, j1: int, l2: int, j2: int|
                        #![trigger self.queues[l1][j1], self.queues[l2][j2]]
                        0 <= l1 < self.queues.len() && 0 <= j1 < self.queues[l1].len() && 0 <= l2
                            < self.queues.len() && 0 <= j2 < self.queues[l2].len() && (l1 != l2
                            || j1 != j2) implies self.queues[l1][j1] != self.queues[l2][j2] by {
                        let i1 = if l1 == l { j1 + 1 } else { j1 };
                        let i2 = if l2 == l { j2 + 1 } else { j2 };
                        assert(self.queues[l1][j1] == old(self).queues[l1][i1]);
                        assert(self.queues[l2][j2] == old(self).queues[l2][i2]);
                    }
                    assert forall|l1: int, j1: int, a: int|
                        #![trigger self.queues[l1][j1], self.attempts[a]]
                        0 <= l1 < self.queues.len() && 0 <= j1 < self.queues[l1].len() && 0 <= a
                            < self.attempts.len() implies self.queues[l1][j1]
                        != self.attempts[a].conn by {
                        let i1 = if l1 == l { j1 + 1 } else { j1 };
                        assert(self.queues[l1][j1] == old(self).queues[l1][i1]);
                    }
                }
            }
            Some(c)
        }
    }

    /// Tear a listener down: the address is released, and every
    /// connection id still queued on it is marked dead so that a later
    /// accept of such a stale request fails cleanly.
    pub fn listener_destroy(&mut self, l: usize)
        requires
            old(self).wf(),
            l < old(self).listeners.len(),
        ensures
            final(self).wf(),
            same_counters(*old(self), *final(self)),
            same_reqs(*old(self), *final(self)),
            same_msgs(*old(self), *final(self)),
            same_eps(*old(self), *final(self)),
            same_attempts(*old(self), *final(self)),
            final(self).listeners@ == old(self).listeners@.update(
                l as int,
                (ListenerSlot { alive: false, addr: old(self).listeners[l as int].addr }),
            ),
            final(self).queues.len() == old(self).queues.len(),
            forall|k: int|
                0 <= k < old(self).queues.len() && k != l ==> final(self).queues@[k]
                    == old(self).queues@[k],
            final(self).queues[l as int]@ == Seq::<usize>::empty(),
            final(self).conns.len() == old(self).conns.len(),
            forall|c: int|
                0 <= c < old(self).conns.len() ==> final(self).conns@[c] == (ConnSlot {
                    dead: old(self).conns@[c].dead || old(self).queues[l as int]@.contains(
                        c as usize,
                    ),
                    ..old(self).conns@[c]
                }),
    {
        proof {
            assert(self.queues.len() == self.listeners.len());
        }
        let q = copy_ids(&self.queues[l]);
        let mut j: usize = 0;
        while j < q.len()
            invariant
                old(self).wf(),
                l < old(self).listeners.len(),
                j <= q.len(),
                q@ == old(self).queues[l as int]@,
                *self == (Engine { conns: self.conns, ..*old(self) }),
                self.conns.len() == old(self).conns.len(),
                forall|c: int|
                    0 <= c < old(self).conns.len() ==> self.conns@[c] == (ConnSlot {
                        dead: old(self).conns@[c].dead || q@.subrange(0, j as int).contains(
                            c as usize,
                        ),
                        ..old(self).conns@[c]
                    }),
            decreases q.len() - j,
        {
            let id = q[j];
            proof {
                assert(old(self).queues[l as int][j as int] < old(self).conns.len());
            }
            let mut cs = self.conns[id];
            cs.dead = true;
            self.conns[id] = cs;
            proof {
                assert forall|c: int|
                    0 <= c < old(self).conns.len() implies self.conns@[c] == (ConnSlot {
                        dead: old(self).conns@[c].dead || q@.subrange(0, j + 1 as int).contains(
                            c as usize,
                        ),
                        ..old(self).conns@[c]
                    }) by {
                    let pre = q@.subrange(0, j as int);
                    let post = q@.subrange(0, j + 1 as int);
                    assert(post =~= pre.push(q@[j as int]));
                    if c == id {
                        assert(post.contains(q@[j as int])) by {
                            assert(post[j as int] == q@[j as int]);
                        }
                    } else {
                        assert(post.contains(c as usize) == pre.contains(c as usize)) by {
                            if pre.contains(c as usize) {
                                let w = choose|w: int| 0 <= w < pre.len() && pre[w] == c as usize;
                                assert(post[w] == c as usize);
                            }
                            if post.contains(c as usize) {
                                let w = choose|w: int|
                                    0 <= w < post.len() && post[w] == c as usize;
                                assert(w < pre.len());
                                assert(pre[w] == c as usize);
                            }
                        }
                    }
                }
            }
            j = j + 1;
        }
        proof {
            assert(q@.subrange(0, q.len() as int) =~= q@);
        }
        self.queues[l] = Vec::new();
        let mut ls = self.listeners[l];
        ls.alive = false;
        self.listeners[l] = ls;
        proof {
            assert(final(self).listeners@ =~= old(self).listeners@.update(
                l as int,
                (ListenerSlot { alive: false, addr: old(self).listeners[l as int].addr }),
            ));
            assert(self.wf()) by {
                assert forall|l1: int, j1: int|
                    0 <= l1 < self.queues.len() && 0 <= j1 < self.queues[l1].len() implies (
                #[trigger] self.queues[l1][j1]) < self.conns.len() by {
                    assert(l1 != l);
                    assert(self.queues[l1][j1] == old(self).queues[l1][j1]);
                }
                assert forall|l1: int, j1: int, l2: int, j2: int|
                    #![trigger self.queues[l1][j1], self.queues[l2][j2]]
                    0 <= l1 < self.queues.len() && 0 <= j1 < self.queues[l1].len() && 0 <= l2
                        < self.queues.len() && 0 <= j2 < self.queues[l2].len() && (l1 != l2 || j1
                        != j2) implies self.queues[l1][j1] != self.queues[l2][j2] by {
                    assert(l1 != l && l2 != l);
                    assert(self.queues[l1][j1] == old(self).queues[l1][j1]);
                    assert(self.queues[l2][j2] == old(self).queues[l2][j2]);
                }
                assert forall|l1: int, j1: int, a: int|
                    #![trigger self.queues[l1][j1], self.attempts[a]]
                    0 <= l1 < self.queues.len() && 0 <= j1 < self.queues[l1].len() && 0 <= a
                        < self.attempts.len() implies self.queues[l1][j1]
                    != self.attempts[a].conn by {
                    assert(l1 != l);
                    assert(self.queues[l1][j1] == old(self).queues[l1][j1]);
                }
            }
        }
    }

    /// Consume an inbound connection record into a server-side endpoint,
    /// pairing it with the connecting side. Fails exactly when the record
    /// is stale: unknown, already used, or orphaned by listener teardown.
    pub fn accept(&mut self, conn: usize) -> (r: Result<usize, ()>)
        requires
            old(self).wf(),
        ensures
            final(self).wf(),
            same_counters(*old(self), *final(self)),
            same_reqs(*old(self), *final(self)),
            same_msgs(*old(self), *final(self)),
            same_listeners(*old(self), *final(self)),
            same_attempts(*old(self), *final(self)),
            match r {
                Ok(server) => {
                    &&& conn < old(self).conns.len()
                    &&& !old(self).conns[conn as int].dead
                    &&& !old(self).conns[conn as int].used
                    &&& old(self).listeners@[old(self).conns[conn as int].listener as int].alive
                    &&& server == old(self).eps.len()
                    &&& final(self).eps.len() == old(self).eps.len() + 1
                    &&& final(self).eps@[server as int] == (EpSlot {
                        alive: true,
                        closed: false,
                        err_pending: false,
                        peer: Some(old(self).conns[conn as int].client_ep),
                    })
                    &&& final(self).eps@[old(self).conns[conn as int].client_ep as int]
                        == (EpSlot {
                        peer: Some(server),
                        ..old(self).eps@[old(self).conns[conn as int].client_ep as int]
                    })
                    &&& forall|e: int|
                        0 <= e < old(self).eps.len() && e != old(self).conns[
                            conn as int
                        ].client_ep ==> final(self).eps@[e] == old(self).eps@[e]
                    &&& final(self).conns@ == old(self).conns@.update(
                        conn as int,
                        (ConnSlot { used: true, ..old(self).conns@[conn as int] }),
                    )
                },
                Err(()) => {
                    &&& (conn >= old(self).conns.len() || old(self).conns[conn as int].dead
                        || old(self).conns[conn as int].used || !old(self).listeners@[old(
                        self,
                    ).conns[conn as int].listener as int].alive)
                    &&& *final(self) == *old(self)
                },
            },
    {
        if conn >= self.conns.len() {
            return Err(());
        }
        let cs = self.conns[conn];
        if cs.dead || cs.used {
            return Err(());
        }
        if !self.listeners[cs.listener].alive {
            return Err(());
        }
        let client = cs.client_ep;
        let server = self.eps.len();
        self.eps.push(
            EpSlot { alive: true, closed: false, err_pending: false, peer: Some(client) },
        );
        let mut cl = self.eps[client];
        cl.peer = Some(server);
        self.eps[client] = cl;
        let mut cs2 = cs;
        cs2.used = true;
        self.conns[conn] = cs2;
        proof {
            assert(self.wf()) by {
                assert forall|i: int|
                    0 <= i < self.eps.len() implies ((#[trigger] self.eps[i]).peer matches Some(p)
                    ==> p < self.eps.len()) by {
                    if i != client && i < old(self).eps.len() {
                        assert(self.eps[i] == old(self).eps[i]);
                        assert(old(self).peers_wf());
                    }
                }
            }
        }
        Ok(server)
    }

    /// One cooperative progress step. It never blocks and reports no
    /// error of its own: it drives whatever is ready — pending error
    /// notifications, send and close completions, message delivery, and
    /// listener dispatch — and returns promptly either way.
    pub fn step(&mut self)
        requires
            old(self).wf(),
        ensures
            final(self).wf(),
            spec_step_post(*old(self), *final(self)),
    {
        self.steps = sat_inc_u64(self.steps);
        self.apply_errors();
        let ghost s1 = *self;
        self.complete_local();
        let ghost s2 = *self;
        self.deliver();
        let ghost s3 = *self;
        self.dispatch_attempts();
        proof {
            let o = *old(self);
            let n = *self;
            assert forall|e: int| 0 <= e < o.eps.len() implies n.eps@[e] == spec_ep_after_step(
                #[trigger] o.eps@[e],
            ) by {
                assert(s1.eps@[e] == spec_ep_after_step(o.eps@[e]));
                assert(n.eps@[e] == s1.eps@[e]);
            }
            assert forall|i: int|
                0 <= i < o.reqs.len() && (#[trigger] o.reqs@[i]).status == STATUS_IN_PROGRESS
                    && o.reqs@[i].kind is Recv && !spec_ep_after_step(
                o.eps@[o.reqs@[i].ep as int],
            ).closed implies spec_delivery(o, n, i) by {
                assert(s2.reqs@[i] == o.reqs@[i]);
                assert(s2.bufs@[i] == o.bufs@[i]);
                assert(spec_delivery(s2, s3, i));
                if !(s3.reqs@[i] == s2.reqs@[i] && s3.bufs@[i] == s2.bufs@[i]) {
                    let k = choose|k: int|
                        0 <= k < s2.msgs.len() && #[trigger] spec_msg_delivers(s2, k, s3, i);
                    assert(spec_msg_delivers(o, k, n, i)) by {
                        assert(s2.msgs@ == o.msgs@);
                        assert(n.reqs@[i] == s3.reqs@[i] && n.bufs@[i] == s3.bufs@[i]);
                        assert(s2.eps@[s2.reqs@[i].ep as int].peer == o.eps@[o.reqs@[i].ep
                            as int].peer);
                    }
                    assert(spec_delivery(o, n, i));
                } else {
                    assert(n.reqs@[i] == o.reqs@[i] && n.bufs@[i] == o.bufs@[i]);
                }
            }
            if o.msgs.len() > 0 && (exists|i: int|
                0 <= i < o.reqs.len() && (#[trigger] o.reqs@[i]).status == STATUS_IN_PROGRESS
                    && o.reqs@[i].kind is Recv && o.eps@[o.reqs@[i].ep as int].alive
                    && !spec_ep_after_step(o.eps@[o.reqs@[i].ep as int]).closed
                    && o.spec_recv_accepts(i, o.msgs@[0].src, o.msgs@[0].tag)) {
                let i = choose|i: int|
                    0 <= i < o.reqs.len() && (#[trigger] o.reqs@[i]).status
                        == STATUS_IN_PROGRESS && o.reqs@[i].kind is Recv
                        && o.eps@[o.reqs@[i].ep as int].alive && !spec_ep_after_step(
                        o.eps@[o.reqs@[i].ep as int],
                    ).closed && o.spec_recv_accepts(i, o.msgs@[0].src, o.msgs@[0].tag);
                assert(s2.spec_open_recv(i)) by {
                    assert(s2.reqs@[i] == o.reqs@[i]);
                    assert(s2.eps@[o.reqs@[i].ep as int] == spec_ep_after_step(
                        o.eps@[o.reqs@[i].ep as int],
                    ));
                }
                assert(s2.spec_recv_accepts(i, s2.msgs@[0].src, s2.msgs@[0].tag)) by {
                    assert(s2.msgs@ == o.msgs@);
                    assert(s2.eps@[s2.reqs@[i].ep as int].peer == o.eps@[o.reqs@[i].ep
                        as int].peer);
                }
                assert(s3.msgs.len() < s2.msgs.len());
                assert(n.msgs.len() < o.msgs.len());
            }
        }
    }

    /// Submit a tagged send on `ep`. On a channel whose closed flag is
    /// set the submission resolves inline with the reset status and no
    /// message leaves. Otherwise the message joins the in-flight queue;
    /// an empty payload completes inline with success (the engine has
    /// nothing left to copy), any other send gets a pending handle.
    pub fn submit_send(&mut self, ep: usize, tag: u64, data: Vec<u8>) -> (r: Result<usize, i32>)
        requires
            old(self).wf(),
            ep < old(self).eps.len(),
        ensures
            final(self).wf(),
            same_eps(*old(self), *final(self)),
            same_listeners(*old(self), *final(self)),
            same_conns(*old(self), *final(self)),
            same_attempts(*old(self), *final(self)),
            final(self).steps == old(self).steps,
            final(self).frees == old(self).frees,
            final(self).forced_closes == old(self).forced_closes,
            match r {
                Ok(h) => {
                    &&& !old(self).eps[ep as int].closed
                    &&& data.len() > 0
                    &&& h == old(self).reqs.len()
                    &&& final(self).reqs@ == old(self).reqs@.push(
                        ReqSlot { ep, kind: ReqKind::Send, status: STATUS_IN_PROGRESS, freed: false },
                    )
                    &&& final(self).bufs.len() == old(self).bufs.len() + 1
                    &&& forall|k: int|
                        0 <= k < old(self).bufs.len() ==> final(self).bufs@[k]
                            == old(self).bufs@[k]
                    &&& final(self).msgs.len() == old(self).msgs.len() + 1
                    &&& forall|k: int|
                        0 <= k < old(self).msgs.len() ==> final(self).msgs@[k]
                            == old(self).msgs@[k]
                    &&& final(self).msgs@[old(self).msgs.len() as int].src == ep
                    &&& final(self).msgs@[old(self).msgs.len() as int].tag == tag
                    &&& final(self).msgs@[old(self).msgs.len() as int].data@ == data@
                    &&& final(self).allocs == sat_inc(old(self).allocs)
                },
                Err(s) => {
                    if old(self).eps[ep as int].closed {
                        &&& s == STATUS_ERR_CONNECTION_RESET
                        &&& *final(self) == *old(self)
                    } else {
                        &&& s == STATUS_OK
                        &&& data.len() == 0
                        &&& same_reqs(*old(self), *final(self))
                        &&& final(self).allocs == old(self).allocs
                        &&& final(self).msgs.len() == old(self).msgs.len() + 1
                        &&& forall|k: int|
                            0 <= k < old(self).msgs.len() ==> final(self).msgs@[k]
                                == old(self).msgs@[k]
                        &&& final(self).msgs@[old(self).msgs.len() as int].src == ep
                        &&& final(self).msgs@[old(self).msgs.len() as int].tag == tag
                        &&& final(self).msgs@[old(self).msgs.len() as int].data@ == data@
                    }
                },
            },
    {
        let slot = self.eps[ep];
        if slot.closed {
            return Err(STATUS_ERR_CONNECTION_RESET);
        }
        let empty = data.len() == 0;
        self.msgs.push(Msg { src: ep, tag, data });
        if empty {
            Err(STATUS_OK)
        } else {
            let h = self.reqs.len();
            self.reqs.push(
                ReqSlot { ep, kind: ReqKind::Send, status: STATUS_IN_PROGRESS, freed: false },
            );
            self.bufs.push(Vec::new());
            self.allocs = sat_inc_u64(self.allocs);
            Ok(h)
        }
    }

    /// Post a receive on `ep` for messages whose tag agrees with `tag`
    /// under `mask`. The caller's buffer moves into the request slot and
    /// comes back when the handle is waited on. On a channel whose closed
    /// flag is set the request is born already resolved with the reset
    /// status.
    pub fn submit_recv(&mut self, ep: usize, buf: Vec<u8>, tag: u64, mask: u64) -> (h: usize)
        requires
            old(self).wf(),
            ep < old(self).eps.len(),
        ensures
            final(self).wf(),
            same_eps(*old(self), *final(self)),
            same_listeners(*old(self), *final(self)),
            same_conns(*old(self), *final(self)),
            same_attempts(*old(self), *final(self)),
            same_msgs(*old(self), *final(self)),
            final(self).steps == old(self).steps,
            final(self).frees == old(self).frees,
            final(self).forced_closes == old(self).forced_closes,
            final(self).allocs == sat_inc(old(self).allocs),
            h == old(self).reqs.len(),
            final(self).reqs@ == old(self).reqs@.push(
                ReqSlot {
                    ep,
                    kind: ReqKind::Recv { tag, mask },
                    status: if old(self).eps[ep as int].closed {
                        STATUS_ERR_CONNECTION_RESET
                    } else {
                        STATUS_IN_PROGRESS
                    },
                    freed: false,
                },
            ),
            final(self).bufs.len() == old(self).bufs.len() + 1,
            forall|k: int|
                0 <= k < old(self).bufs.len() ==> final(self).bufs@[k] == old(self).bufs@[k],
            final(self).bufs@[h as int]@ == buf@,
    {
        let slot = self.eps[ep];
        let status = if slot.closed {
            STATUS_ERR_CONNECTION_RESET
        } else {
            STATUS_IN_PROGRESS
        };
        let h = self.reqs.len();
        self.reqs.push(ReqSlot { ep, kind: ReqKind::Recv { tag, mask }, status, freed: false });
        self.bufs.push(buf);
        self.allocs = sat_inc_u64(self.allocs);
        h
    }

    /// Issue a forced close of `ep`'s channel: a non-blocking request
    /// that the next step resolves. Counted, so the teardown path's
    /// at-most-once guarantee is observable.
    pub fn submit_close(&mut self, ep: usize) -> (h: usize)
        requires
            old(self).wf(),
            ep < old(self).eps.len(),
        ensures
            final(self).wf(),
            same_eps(*old(self), *final(self)),
            same_listeners(*old(self), *final(self)),
            same_conns(*old(self), *final(self)),
            same_attempts(*old(self), *final(self)),
            same_msgs(*old(self), *final(self)),
            final(self).steps == old(self).steps,
            final(self).frees == old(self).frees,
            final(self).forced_closes == sat_inc(old(self).forced_closes),
            final(self).allocs == sat_inc(old(self).allocs),
            h == old(self).reqs.len(),
            final(self).reqs@ == old(self).reqs@.push(
                ReqSlot { ep, kind: ReqKind::Close, status: STATUS_IN_PROGRESS, freed: false },
            ),
            final(self).bufs.len() == old(self).bufs.len() + 1,
            forall|k: int|
                0 <= k < old(self).bufs.len() ==> final(self).bufs@[k] == old(self).bufs@[k],
    {
        let h = self.reqs.len();
        self.reqs.push(ReqSlot { ep, kind: ReqKind::Close, status: STATUS_IN_PROGRESS, freed: false });
        self.bufs.push(Vec::new());
        self.allocs = sat_inc_u64(self.allocs);
        self.forced_closes = sat_inc_u64(self.forced_closes);
        h
    }

    /// The current status of a request: the in-progress sentinel or its
    /// final code. Reading never changes anything.
    pub fn check_status(&self, h: usize) -> (r: i32)
        requires
            h < self.reqs.len(),
        ensures
            r == self.reqs[h as int].status,
    {
        self.reqs[h].status
    }

    /// Release a request handle back to the engine. A handle is released
    /// exactly once: the flag this sets is what rules a second release
    /// out.
    pub fn free(&mut self, h: usize)
        requires
            old(self).wf(),
            h < old(self).reqs.len(),
            !old(self).reqs[h as int].freed,
        ensures
            final(self).wf(),
            same_eps(*old(self), *final(self)),
            same_listeners(*old(self), *final(self)),
            same_conns(*old(self), *final(self)),
            same_attempts(*old(self), *final(self)),
            same_msgs(*old(self), *final(self)),
            final(self).steps == old(self).steps,
            final(self).allocs == old(self).allocs,
            final(self).forced_closes == old(self).forced_closes,
            final(self).frees == sat_inc(old(self).frees),
            final(self).reqs@ == old(self).reqs@.update(
                h as int,
                (ReqSlot { freed: true, ..old(self).reqs@[h as int] }),
            ),
            final(self).bufs@ == old(self).bufs@,
    {
        let mut s = self.reqs[h];
        s.freed = true;
        self.reqs[h] = s;
        self.frees = sat_inc_u64(self.frees);
    }

    /// Invalidate an endpoint's channel record synchronously at owner
    /// teardown: the slot dies with its closed flag set, and a live peer
    /// is handed the asynchronous error notification that the next step
    /// will turn into its closed flag.
    pub fn kill_ep(&mut self, ep: usize)
        requires
            old(self).wf(),
            ep < old(self).eps.len(),
        ensures
            final(self).wf(),
            same_reqs(*old(self), *final(self)),
            same_listeners(*old(self), *final(self)),
            same_conns(*old(self), *final(self)),
            same_attempts(*old(self), *final(self)),
            same_msgs(*old(self), *final(self)),
            same_counters(*old(self), *final(self)),
            final(self).eps.len() == old(self).eps.len(),
            final(self).eps@[ep as int] == (EpSlot {
                alive: false,
                closed: true,
                ..old(self).eps@[ep as int]
            }),
            forall|e: int|
                0 <= e < old(self).eps.len() && e != ep && old(self).eps[ep as int].peer != Some(
                    e as usize,
                ) ==> final(self).eps@[e] == old(self).eps@[e],
            forall|p: int|
                0 <= p < old(self).eps.len() && p != ep && old(self).eps[ep as int].peer == Some(
                    p as usize,
                ) ==> final(self).eps@[p] == (EpSlot {
                    err_pending: old(self).eps@[p].err_pending || old(self).eps@[p].alive,
                    ..old(self).eps@[p]
                }),
    {
        let slot = self.eps[ep];
        let mut dead = slot;
        dead.alive = false;
        dead.closed = true;
        self.eps[ep] = dead;
        if let Some(p) = slot.peer {
            if p != ep {
                let peer = self.eps[p];
                if peer.alive {
                    let mut pn = peer;
                    pn.err_pending = true;
                    self.eps[p] = pn;
                }
            }
        }
    }

    /// Step phase one: each endpoint's pending engine-reported failure
    /// becomes its closed flag, and pending sends and receives on closed
    /// channels resolve with the reset status.
    fn apply_errors(&mut self)
        requires
            old(self).wf(),
        ensures
            final(self).wf(),
            same_listeners(*old(self), *final(self)),
            same_conns(*old(self), *final(self)),
            same_msgs(*old(self), *final(self)),
            same_attempts(*old(self), *final(self)),
            same_counters(*old(self), *final(self)),
            final(self).eps.len() == old(self).eps.len(),
            forall|e: int|
                0 <= e < old(self).eps.len() ==> final(self).eps@[e] == spec_ep_after_step(
                    old(self).eps@[e],
                ),
            final(self).bufs@ == old(self).bufs@,
            final(self).reqs.len() == old(self).reqs.len(),
            forall|i: int|
                0 <= i < old(self).reqs.len() ==> final(self).reqs@[i] == (ReqSlot {
                    status: spec_status_after_errors(*old(self), i),
                    ..old(self).reqs@[i]
                }),
    {
        let n = self.eps.len();
        let mut e: usize = 0;
        while e < n
            invariant
                old(self).wf(),
                n == old(self).eps.len(),
                e <= n,
                *self == (Engine { eps: self.eps, ..*old(self) }),
                self.eps.len() == n,
                forall|k: int|
                    0 <= k < e ==> self.eps@[k] == spec_ep_after_step(old(self).eps@[k]),
                forall|k: int| e <= k < n ==> self.eps@[k] == old(self).eps@[k],
            decreases n - e,
        {
            let mut s = self.eps[e];
            s.closed = s.closed || s.err_pending;
            s.err_pending = false;
            self.eps[e] = s;
            e = e + 1;
        }
        let m = self.reqs.len();
        let mut i: usize = 0;
        while i < m
            invariant
                old(self).wf(),
                m == old(self).reqs.len(),
                i <= m,
                *self == (Engine { eps: self.eps, reqs: self.reqs, ..*old(self) }),
                self.eps.len() == old(self).eps.len(),
                forall|k: int|
                    0 <= k < self.eps.len() ==> self.eps@[k] == spec_ep_after_step(
                        old(self).eps@[k],
                    ),
                self.reqs.len() == m,
                forall|k: int|
                    0 <= k < i ==> self.reqs@[k] == (ReqSlot {
                        status: spec_status_after_errors(*old(self), k),
                        ..old(self).reqs@[k]
                    }),
                forall|k: int| i <= k < m ==> self.reqs@[k] == old(self).reqs@[k],
            decreases m - i,
        {
            let rq = self.reqs[i];
            if rq.status == STATUS_IN_PROGRESS {
                let is_close = match rq.kind {
                    ReqKind::Close => true,
                    _ => false,
                };
                if !is_close {
                    proof {
                        assert(old(self).reqs@[i as int].ep < old(self).eps.len());
                    }
                    let es = self.eps[rq.ep];
                    if es.closed {
                        let mut r2 = rq;
                        r2.status = STATUS_ERR_CONNECTION_RESET;
                        self.reqs[i] = r2;
                    }
                }
            }
            i = i + 1;
        }
        proof {
            assert(self.wf()) by {
                assert forall|k: int|
                    0 <= k < self.reqs.len() implies (#[trigger] self.reqs[k]).ep
                    < self.eps.len() by {
                    assert(self.reqs@[k].ep == old(self).reqs@[k].ep);
                }
                assert forall|k: int|
                    0 <= k < self.eps.len() implies ((#[trigger] self.eps[k]).peer matches Some(p)
                    ==> p < self.eps.len()) by {
                    assert(self.eps@[k].peer == old(self).eps@[k].peer);
                }
            }
        }
    }

    /// Step phase two: pending sends and closes resolve with success.
    fn complete_local(&mut self)
        requires
            old(self).wf(),
        ensures
            final(self).wf(),
            same_eps(*old(self), *final(self)),
            same_listeners(*old(self), *final(self)),
            same_conns(*old(self), *final(self)),
            same_msgs(*old(self), *final(self)),
            same_attempts(*old(self), *final(self)),
            same_counters(*old(self), *final(self)),
            final(self).bufs@ == old(self).bufs@,
            final(self).reqs.len() == old(self).reqs.len(),
            forall|i: int|
                0 <= i < old(self).reqs.len() ==> final(self).reqs@[i] == (ReqSlot {
                    status: spec_status_after_local(*old(self), i),
                    ..old(self).reqs@[i]
                }),
    {
        let m = self.reqs.len();
        let mut i: usize = 0;
        while i < m
            invariant
                old(self).wf(),
                m == old(self).reqs.len(),
                i <= m,
                *self == (Engine { reqs: self.reqs, ..*old(self) }),
                self.reqs.len() == m,
                forall|k: int|
                    0 <= k < i ==> self.reqs@[k] == (ReqSlot {
                        status: spec_status_after_local(*old(self), k),
                        ..old(self).reqs@[k]
                    }),
                forall|k: int| i <= k < m ==> self.reqs@[k] == old(self).reqs@[k],
            decreases m - i,
        {
            let rq = self.reqs[i];
            if rq.status == STATUS_IN_PROGRESS {
                let local = match rq.kind {
                    ReqKind::Send => true,
                    ReqKind::Close => true,
                    ReqKind::Recv { .. } => false,
                };
                if local {
                    let mut r2 = rq;
                    r2.status = STATUS_OK;
                    self.reqs[i] = r2;
                }
            }
            i = i + 1;
        }
        proof {
            assert(self.wf()) by {
                assert forall|k: int|
                    0 <= k < self.reqs.len() implies (#[trigger] self.reqs[k]).ep
                    < self.eps.len() by {
                    assert(self.reqs@[k].ep == old(self).reqs@[k].ep);
                }
            }
        }
    }

    /// Request `i` is a posted receive still able to match: pending, on
    /// a live channel whose closed flag is clear.
    pub open spec fn spec_open_recv(self, i: int) -> bool {
        &&& self.reqs[i].status == STATUS_IN_PROGRESS
        &&& self.reqs[i].kind is Recv
        &&& self.eps[self.reqs[i].ep as int].alive
        &&& !self.eps[self.reqs[i].ep as int].closed
    }

    /// Receive `i` accepts a message from `src` with tag `tag`: the
    /// sender is the receive's channel peer, and the tags agree under
    /// the receive's mask.
    pub open spec fn spec_recv_accepts(self, i: int, src: usize, tag: u64) -> bool {
        &&& self.eps[self.reqs[i].ep as int].peer == Some(src)
        &&& spec_tag_matches(tag, self.reqs[i].kind.recv_tag(), self.reqs[i].kind.recv_mask())
    }

    /// The oldest posted receive that can take a message from `src` with
    /// tag `tag`, if any.
    fn find_match(&self, src: usize, tag: u64) -> (r: Option<usize>)
        requires
            self.wf(),
        ensures
            match r {
                Some(i) => {
                    &&& i < self.reqs.len()
                    &&& self.spec_open_recv(i as int)
                    &&& self.spec_recv_accepts(i as int, src, tag)
                    &&& forall|j: int|
                        0 <= j < i ==> !(self.spec_open_recv(j) && self.spec_recv_accepts(
                            j,
                            src,
                            tag,
                        ))
                },
                None => forall|j: int|
                    0 <= j < self.reqs.len() ==> !(self.spec_open_recv(j)
                        && self.spec_recv_accepts(j, src, tag)),
            },
    {
        let mut i: usize = 0;
        while i < self.reqs.len()
            invariant
                self.wf(),
                i <= self.reqs.len(),
                forall|j: int|
                    0 <= j < i ==> !(self.spec_open_recv(j) && self.spec_recv_accepts(
                        j,
                        src,
                        tag,
                    )),
            decreases self.reqs.len() - i,
        {
            let rq = self.reqs[i];
            if rq.status == STATUS_IN_PROGRESS {
                if let ReqKind::Recv { tag: rtag, mask } = rq.kind {
                    let es = self.eps[rq.ep];
                    if es.alive && !es.closed {
                        let peer_ok = match es.peer {
                            Some(p) => p == src,
                            None => false,
                        };
                        if peer_ok && tag_matches(tag, rtag, mask) {
                            return Some(i);
                        }
                    }
                }
            }
            i = i + 1;
        }
        None
    }

    /// Step phase three: walk the in-flight messages, oldest first, and
    /// resolve each against the oldest posted receive that accepts it.
    /// Unmatched messages stay queued for a later receive.
    fn deliver(&mut self)
        requires
            old(self).wf(),
        ensures
            final(self).wf(),
            same_eps(*old(self), *final(self)),
            same_listeners(*old(self), *final(self)),
            same_conns(*old(self), *final(self)),
            same_attempts(*old(self), *final(self)),
            same_counters(*old(self), *final(self)),
            final(self).reqs.len() == old(self).reqs.len(),
            final(self).bufs.len() == old(self).bufs.len(),
            forall|i: int|
                0 <= i < old(self).reqs.len() ==> {
                    &&& (#[trigger] final(self).reqs@[i]).ep == old(self).reqs@[i].ep
                    &&& final(self).reqs@[i].kind == old(self).reqs@[i].kind
                    &&& final(self).reqs@[i].freed == old(self).reqs@[i].freed
                },
            forall|i: int|
                0 <= i < old(self).reqs.len() && (#[trigger] old(self).reqs@[i]).status
                    != STATUS_IN_PROGRESS ==> final(self).reqs@[i] == old(self).reqs@[i]
                    && final(self).bufs@[i] == old(self).bufs@[i],
            forall|i: int|
                0 <= i < old(self).reqs.len() && (#[trigger] old(self).reqs@[i]).status
                    == STATUS_IN_PROGRESS && !(old(self).reqs@[i].kind is Recv)
                    ==> final(self).reqs@[i] == old(self).reqs@[i]
                    && final(self).bufs@[i] == old(self).bufs@[i],
            forall|i: int|
                0 <= i < old(self).reqs.len() && (#[trigger] old(self).reqs@[i]).status
                    == STATUS_IN_PROGRESS && old(self).reqs@[i].kind is Recv ==> spec_delivery(
                    *old(self),
                    *final(self),
                    i,
                ),
            forall|j: int|
                0 <= j < final(self).msgs.len() ==> old(self).msgs@.contains(
                    #[trigger] final(self).msgs@[j],
                ),
            (old(self).msgs.len() > 0 && (exists|i: int|
                0 <= i < old(self).reqs.len() && #[trigger] old(self).spec_open_recv(i)
                    && old(self).spec_recv_accepts(
                    i,
                    old(self).msgs@[0].src,
                    old(self).msgs@[0].tag,
                ))) ==> final(self).msgs.len() < old(self).msgs.len(),
    {
        let ghost o = *old(self);
        let mut kept: Vec<Msg> = Vec::new();
        let ghost mut t: int = 0;
        let ghost mut dropped0: bool = false;
        while self.msgs.len() > 0
            invariant
                o.wf(),
                self.wf(),
                same_eps(o, *self),
                same_listeners(o, *self),
                same_conns(o, *self),
                same_attempts(o, *self),
                same_counters(o, *self),
                self.reqs.len() == o.reqs.len(),
                self.bufs.len() == o.bufs.len(),
                0 <= t <= o.msgs.len(),
                self.msgs@ == o.msgs@.skip(t),
                forall|i: int|
                    0 <= i < o.reqs.len() ==> {
                        &&& (#[trigger] self.reqs@[i]).ep == o.reqs@[i].ep
                        &&& self.reqs@[i].kind == o.reqs@[i].kind
                        &&& self.reqs@[i].freed == o.reqs@[i].freed
                    },
                forall|i: int|
                    0 <= i < o.reqs.len() && (#[trigger] o.reqs@[i]).status != STATUS_IN_PROGRESS
                        ==> self.reqs@[i] == o.reqs@[i] && self.bufs@[i] == o.bufs@[i],
                forall|i: int|
                    0 <= i < o.reqs.len() && (#[trigger] o.reqs@[i]).status == STATUS_IN_PROGRESS
                        && !(o.reqs@[i].kind is Recv) ==> self.reqs@[i] == o.reqs@[i]
                        && self.bufs@[i] == o.bufs@[i],
                forall|i: int|
                    0 <= i < o.reqs.len() && (#[trigger] o.reqs@[i]).status == STATUS_IN_PROGRESS
                        && o.reqs@[i].kind is Recv ==> spec_delivery(o, *self, i),
                forall|j: int|
                    0 <= j < kept.len() ==> o.msgs@.take(t).contains(#[trigger] kept@[j]),
                kept@.len() <= t,
                t == 0 ==> self.reqs@ == o.reqs@ && self.bufs@ == o.bufs@,
                dropped0 ==> kept@.len() + 1 <= t,
                (t > 0 && (exists|i: int|
                    0 <= i < o.reqs.len() && #[trigger] o.spec_open_recv(i)
                        && o.spec_recv_accepts(i, o.msgs@[0].src, o.msgs@[0].tag)))
                    ==> dropped0,
            decreases self.msgs.len(),
        {
            let ghost pre = *self;
            proof {
                assert(self.msgs@[0] == o.msgs@.skip(t)[0]);
                assert(o.msgs@.skip(t)[0] == o.msgs@[t]);
            }
            let ghost mv = self.msgs@[0];
            let m = self.msgs.remove(0);
            proof {
                assert(self.msgs@ =~= o.msgs@.skip(t + 1));
                assert(m == mv);
            }
            match self.find_match(m.src, m.tag) {
                Some(i) => {
                    proof {
                        // an open receive cannot be one this phase already
                        // resolved, so its slot and buffer still carry the
                        // phase-entry state
                        let gi = i as int;
                        assert(o.reqs@[gi].kind is Recv);
                        if o.reqs@[gi].status != STATUS_IN_PROGRESS {
                            assert(self.reqs@[gi] == o.reqs@[gi]);
                        }
                        assert(o.reqs@[gi].status == STATUS_IN_PROGRESS);
                        if !(self.reqs@[gi] == o.reqs@[gi] && self.bufs@[gi] == o.bufs@[gi]) {
                            assert(spec_delivery(o, pre, gi));
                            lemma_delivery_stable(o, pre, *self, gi);
                            let k = choose|k: int|
                                0 <= k < o.msgs.len() && #[trigger] spec_msg_delivers(
                                    o,
                                    k,
                                    *self,
                                    gi,
                                );
                            assert(self.reqs@[gi].status != STATUS_IN_PROGRESS);
                            assert(false);
                        }
                        assert(self.reqs@[gi] == o.reqs@[gi]);
                        assert(self.bufs@[gi] == o.bufs@[gi]);
                        assert(o.spec_recv_accepts(gi, m.src, m.tag)) by {
                            assert(self.spec_recv_accepts(gi, m.src, m.tag));
                            assert(self.eps@ == o.eps@);
                        }
                    }
                    let dlen = m.data.len();
                    let cap = self.bufs[i].len();
                    if dlen <= cap {
                        let mut nb = copy_bytes(&m.data);
                        let mut k = dlen;
                        while k < cap
                            invariant
                                dlen <= k <= cap,
                                i < self.bufs.len(),
                                cap == self.bufs[i as int].len(),
                                dlen == m.data.len(),
                                nb@ == m.data@ + self.bufs[i as int]@.subrange(
                                    dlen as int,
                                    k as int,
                                ),
                            decreases cap - k,
                        {
                            let b = self.bufs[i][k];
                            nb.push(b);
                            proof {
                                assert(nb@ =~= m.data@ + self.bufs[i as int]@.subrange(
                                    dlen as int,
                                    k + 1 as int,
                                ));
                            }
                            k = k + 1;
                        }
                        proof {
                            assert(nb@ =~= m.data@ + self.bufs[i as int]@.skip(dlen as int));
                        }
                        self.bufs[i] = nb;
                        let mut r2 = self.reqs[i];
                        r2.status = STATUS_OK;
                        self.reqs[i] = r2;
                    } else {
                        let mut r2 = self.reqs[i];
                        r2.status = STATUS_ERR_MESSAGE_TRUNCATED;
                        self.reqs[i] = r2;
                    }
                    proof {
                        if t == 0 {
                            dropped0 = true;
                        }
                        assert(o.msgs@[t] == mv);
                        assert(spec_msg_delivers(o, t, *self, i as int));
                        assert(spec_delivery(o, *self, i as int));
                        assert forall|x: int|
                            0 <= x < o.reqs.len() && (#[trigger] o.reqs@[x]).status
                                == STATUS_IN_PROGRESS && o.reqs@[x].kind is Recv implies
                            spec_delivery(o, *self, x) by {
                            if x != i {
                                assert(self.reqs@[x] == pre.reqs@[x]);
                                assert(self.bufs@[x] == pre.bufs@[x]);
                                lemma_delivery_stable(o, pre, *self, x);
                            }
                        }
                        assert(self.wf()) by {
                            assert forall|x: int|
                                0 <= x < self.reqs.len() implies (#[trigger] self.reqs[x]).ep
                                < self.eps.len() by {
                                assert(self.reqs@[x].ep == o.reqs@[x].ep);
                            }
                        }
                    }
                },
                None => {
                    proof {
                        if t == 0 {
                            assert forall|i: int|
                                0 <= i < o.reqs.len() implies !(#[trigger] o.spec_open_recv(i)
                                && o.spec_recv_accepts(i, o.msgs@[0].src, o.msgs@[0].tag)) by {
                                if o.spec_open_recv(i) && o.spec_recv_accepts(
                                    i,
                                    o.msgs@[0].src,
                                    o.msgs@[0].tag,
                                ) {
                                    assert(self.spec_open_recv(i)) by {
                                        assert(self.reqs@[i] == o.reqs@[i]);
                                        assert(self.eps@ == o.eps@);
                                    }
                                    assert(self.spec_recv_accepts(i, m.src, m.tag)) by {
                                        assert(m == o.msgs@[0]);
                                    }
                                    assert(false);
                                }
                            }
                        }
                    }
                    let ghost kv = kept@;
                    kept.push(m);
                    proof {
                        assert forall|j: int| 0 <= j < kept.len() implies o.msgs@.take(
                            t + 1,
                        ).contains(#[trigger] kept@[j]) by {
                            if j < kept.len() - 1 {
                                assert(kept@[j] == kv[j]);
                                assert(o.msgs@.take(t).contains(kv[j]));
                                let w = choose|w: int|
                                    0 <= w < o.msgs@.take(t).len() && o.msgs@.take(t)[w] == kv[j];
                                assert(o.msgs@.take(t + 1)[w] == kv[j]);
                            } else {
                                assert(kept@[j] == mv && mv == o.msgs@[t]);
                                assert(o.msgs@.take(t + 1)[t] == o.msgs@[t]);
                            }
                        }
                        assert forall|x: int|
                            0 <= x < o.reqs.len() && (#[trigger] o.reqs@[x]).status
                                == STATUS_IN_PROGRESS && o.reqs@[x].kind is Recv implies
                            spec_delivery(o, *self, x) by {
                            lemma_delivery_stable(o, pre, *self, x);
                        }
                    }
                },
            }
            proof {
                t = t + 1;
            }
        }
        let ghost kv = kept@;
        let ghost fin = *self;
        self.msgs = kept;
        proof {
            assert(self.msgs@ == kv);
            assert forall|x: int|
                0 <= x < o.reqs.len() && (#[trigger] o.reqs@[x]).status == STATUS_IN_PROGRESS
                    && o.reqs@[x].kind is Recv implies spec_delivery(o, *self, x) by {
                lemma_delivery_stable(o, fin, *self, x);
            }
            assert forall|j: int|
                0 <= j < self.msgs.len() implies (#[trigger] self.msgs[j]).src
                < self.eps.len() by {
                assert(o.msgs@.take(t).contains(kv[j]));
                let w = choose|w: int|
                    0 <= w < o.msgs@.take(t).len() && o.msgs@.take(t)[w] == kv[j];
                assert(o.msgs@[w].src < o.eps.len());
            }
            assert forall|j: int|
                0 <= j < self.msgs.len() implies old(self).msgs@.contains(
                #[trigger] self.msgs@[j]) by {
                assert(o.msgs@.take(t).contains(kv[j]));
                let w = choose|w: int|
                    0 <= w < o.msgs@.take(t).len() && o.msgs@.take(t)[w] == kv[j];
                assert(old(self).msgs@[w] == kv[j]);
            }
        }
    }

    /// Step phase four: hand each staged inbound attempt to the live
    /// listener bound on its address (there is at most one), or drop it
    /// — marking its connection record dead — when no listener holds the
    /// address any more.
    fn dispatch_attempts(&mut self)
        requires
            old(self).wf(),
        ensures
            final(self).wf(),
            same_eps(*old(self), *final(self)),
            same_reqs(*old(self), *final(self)),
            same_msgs(*old(self), *final(self)),
            same_counters(*old(self), *final(self)),
            final(self).listeners@ == old(self).listeners@,
            final(self).attempts.len() == 0,
            final(self).conns.len() == old(self).conns.len(),
            forall|c: int|
                0 <= c < old(self).conns.len() ==> final(self).conns@[c] == (ConnSlot {
                    dead: old(self).conns@[c].dead || spec_attempt_dropped(
                        old(self).attempts@,
                        old(self).listeners@,
                        c,
                    ),
                    ..old(self).conns@[c]
                }),
            final(self).queues.len() == old(self).queues.len(),
            forall|l: int|
                0 <= l < old(self).listeners.len() && (#[trigger] old(self).listeners@[l]).alive
                    ==> final(self).queues@[l]@ == old(self).queues@[l]@ + spec_dispatched_to(
                    old(self).attempts@,
                    old(self).listeners@[l].addr,
                ),
            forall|l: int|
                0 <= l < old(self).listeners.len() && !(#[trigger] old(self).listeners@[l]).alive
                    ==> final(self).queues@[l] == old(self).queues@[l],
    {
        let ghost o = *old(self);
        let ghost mut t: int = 0;
        while self.attempts.len() > 0
            invariant
                o.wf(),
                self.wf(),
                same_eps(o, *self),
                same_reqs(o, *self),
                same_msgs(o, *self),
                same_counters(o, *self),
                self.listeners@ == o.listeners@,
                0 <= t <= o.attempts.len(),
                self.attempts@ == o.attempts@.skip(t),
                self.conns.len() == o.conns.len(),
                forall|c: int|
                    0 <= c < o.conns.len() ==> self.conns@[c] == (ConnSlot {
                        dead: o.conns@[c].dead || spec_dropped_upto(
                            o.attempts@,
                            o.listeners@,
                            c,
                            t,
                        ),
                        ..o.conns@[c]
                    }),
                self.queues.len() == o.queues.len(),
                forall|l: int|
                    0 <= l < o.listeners.len() && (#[trigger] o.listeners@[l]).alive
                        ==> self.queues@[l]@ == o.queues@[l]@ + spec_dispatched_to(
                        o.attempts@.take(t),
                        o.listeners@[l].addr,
                    ),
                forall|l: int|
                    0 <= l < o.listeners.len() && !(#[trigger] o.listeners@[l]).alive
                        ==> self.queues@[l] == o.queues@[l],
            decreases self.attempts.len(),
        {
            let ghost pre = *self;
            proof {
                assert(self.attempts@[0] == o.attempts@.skip(t)[0]);
                assert(o.attempts@.skip(t)[0] == o.attempts@[t]);
            }
            let a = self.attempts.remove(0);
            proof {
                assert(self.attempts@ =~= o.attempts@.skip(t + 1));
                assert(a == o.attempts@[t]);
                assert(a.conn < o.conns.len());
                // the id just unstaged is distinct from every pending id
                assert forall|l1: int, j1: int|
                    0 <= l1 < self.queues.len() && 0 <= j1
                        < self.queues@[l1]@.len() implies (#[trigger] self.queues[l1][j1])
                    != a.conn by {
                    assert(pre.queues[l1][j1] != pre.attempts[0].conn);
                }
                assert forall|a2: int|
                    0 <= a2 < self.attempts@.len() implies (#[trigger] self.attempts@[a2]).conn
                    != a.conn by {
                    assert(pre.attempts@[a2 + 1].conn != pre.attempts@[0].conn);
                }
            }
            match self.find_listener(a.addr) {
                Some(l) => {
                    proof {
                        assert(spec_live_listener(o.listeners@, a.addr)) by {
                            assert(o.listeners@[l as int].alive && o.listeners@[l as int].addr
                                == a.addr);
                        }
                    }
                    let mut q = copy_ids(&self.queues[l]);
                    q.push(a.conn);
                    self.queues[l] = q;
                    proof {
                        assert(self.wf()) by {
                            assert forall|l1: int, j1: int|
                                0 <= l1 < self.queues.len() && 0 <= j1
                                    < self.queues[l1].len() implies (
                            #[trigger] self.queues[l1][j1]) < self.conns.len() by {
                                if l1 == l && j1 == self.queues@[l1]@.len() - 1 {
                                    assert(self.queues[l1][j1] == a.conn);
                                } else {
                                    assert(self.queues[l1][j1] == pre.queues[l1][j1]);
                                }
                            }
                            assert forall|l1: int, j1: int, l2: int, j2: int|
                                #![trigger self.queues[l1][j1], self.queues[l2][j2]]
                                0 <= l1 < self.queues.len() && 0 <= j1 < self.queues[l1].len()
                                    && 0 <= l2 < self.queues.len() && 0 <= j2
                                    < self.queues[l2].len() && (l1 != l2 || j1
                                    != j2) implies self.queues[l1][j1]
                                != self.queues[l2][j2] by {
                                let new1 = l1 == l && j1 == self.queues@[l1]@.len() - 1;
                                let new2 = l2 == l && j2 == self.queues@[l2]@.len() - 1;
                                if new1 && !new2 {
                                    assert(self.queues[l2][j2] == pre.queues[l2][j2]);
                                    assert(pre.queues[l2][j2] != pre.attempts[0].conn);
                                } else if !new1 && new2 {
                                    assert(self.queues[l1][j1] == pre.queues[l1][j1]);
                                    assert(pre.queues[l1][j1] != pre.attempts[0].conn);
                                } else if !new1 && !new2 {
                                    assert(self.queues[l1][j1] == pre.queues[l1][j1]);
                                    assert(self.queues[l2][j2] == pre.queues[l2][j2]);
                                }
                            }
                            assert forall|l1: int, j1: int, a2: int|
                                #![trigger self.queues[l1][j1], self.attempts[a2]]
                                0 <= l1 < self.queues.len() && 0 <= j1 < self.queues[l1].len()
                                    && 0 <= a2 < self.attempts.len() implies self.queues[l1][j1]
                                != self.attempts[a2].conn by {
                                if l1 == l && j1 == self.queues@[l1]@.len() - 1 {
                                    assert(self.queues[l1][j1] == a.conn);
                                    assert(pre.attempts@[a2 + 1].conn != pre.attempts@[0].conn);
                                } else {
                                    assert(self.queues[l1][j1] == pre.queues[l1][j1]);
                                    assert(pre.queues[l1][j1] != pre.attempts[a2 + 1].conn);
                                }
                            }
                        }
                        assert forall|lx: int|
                            0 <= lx < o.listeners.len() && (#[trigger] o.listeners@[lx]).alive
                                implies self.queues@[lx]@ == o.queues@[lx]@ + spec_dispatched_to(
                            o.attempts@.take(t + 1),
                            o.listeners@[lx].addr,
                        ) by {
                            lemma_dispatched_step(o.attempts@, t, o.listeners@[lx].addr);
                            if lx == l {
                                assert(o.listeners@[lx].addr == a.addr);
                                assert(self.queues@[lx]@ =~= o.queues@[lx]@ + spec_dispatched_to(
                                    o.attempts@.take(t),
                                    o.listeners@[lx].addr,
                                ).push(a.conn));
                            } else {
                                assert(o.listeners@[lx].addr != a.addr) by {
                                    assert(o.addrs_unique());
                                    assert(self.listeners@[lx] == o.listeners@[lx]);
                                    assert(self.listeners@[l as int].alive);
                                }
                                assert(self.queues@[lx] == pre.queues@[lx]);
                            }
                        }
                        assert forall|c: int|
                            0 <= c < o.conns.len() implies self.conns@[c] == (ConnSlot {
                                dead: o.conns@[c].dead || spec_dropped_upto(
                                    o.attempts@,
                                    o.listeners@,
                                    c,
                                    t + 1,
                                ),
                                ..o.conns@[c]
                            }) by {
                            if spec_dropped_upto(o.attempts@, o.listeners@, c, t + 1) {
                                let w = choose|w: int|
                                    0 <= w < t + 1 && (#[trigger] o.attempts@[w]).conn == c
                                        && !spec_live_listener(o.listeners@, o.attempts@[w].addr);
                                assert(w != t);
                                assert(spec_dropped_upto(o.attempts@, o.listeners@, c, t));
                            }
                            if spec_dropped_upto(o.attempts@, o.listeners@, c, t) {
                                let w = choose|w: int|
                                    0 <= w < t && (#[trigger] o.attempts@[w]).conn == c
                                        && !spec_live_listener(o.listeners@, o.attempts@[w].addr);
                                assert(spec_dropped_upto(o.attempts@, o.listeners@, c, t + 1));
                            }
                        }
                    }
                },
                None => {
                    proof {
                        assert(!spec_live_listener(o.listeners@, a.addr)) by {
                            if spec_live_listener(o.listeners@, a.addr) {
                                let w = choose|w: int|
                                    0 <= w < o.listeners@.len() && (
                                    #[trigger] o.listeners@[w]).alive && o.listeners@[w].addr
                                        == a.addr;
                                assert(self.listeners@[w].alive && self.listeners@[w].addr
                                    == a.addr);
                                assert(self.has_live_listener(a.addr));
                            }
                        }
                    }
                    let mut cs = self.conns[a.conn];
                    cs.dead = true;
                    self.conns[a.conn] = cs;
                    proof {
                        assert forall|c: int|
                            0 <= c < o.conns.len() implies self.conns@[c] == (ConnSlot {
                                dead: o.conns@[c].dead || spec_dropped_upto(
                                    o.attempts@,
                                    o.listeners@,
                                    c,
                                    t + 1,
                                ),
                                ..o.conns@[c]
                            }) by {
                            if c == a.conn {
                                assert(spec_dropped_upto(o.attempts@, o.listeners@, c, t + 1))
                                    by {
                                    assert((#[trigger] o.attempts@[t]).conn == c
                                        && !spec_live_listener(
                                        o.listeners@,
                                        o.attempts@[t].addr,
                                    ));
                                }
                            } else {
                                if spec_dropped_upto(o.attempts@, o.listeners@, c, t + 1) {
                                    let w = choose|w: int|
                                        0 <= w < t + 1 && (#[trigger] o.attempts@[w]).conn == c
                                            && !spec_live_listener(
                                            o.listeners@,
                                            o.attempts@[w].addr,
                                        );
                                    assert(w != t);
                                    assert(spec_dropped_upto(o.attempts@, o.listeners@, c, t));
                                }
                                if spec_dropped_upto(o.attempts@, o.listeners@, c, t) {
                                    let w = choose|w: int|
                                        0 <= w < t && (#[trigger] o.attempts@[w]).conn == c
                                            && !spec_live_listener(
                                            o.listeners@,
                                            o.attempts@[w].addr,
                                        );
                                    assert(spec_dropped_upto(
                                        o.attempts@,
                                        o.listeners@,
                                        c,
                                        t + 1,
                                    ));
                                }
                            }
                        }
                        assert forall|lx: int|
                            0 <= lx < o.listeners.len() && (#[trigger] o.listeners@[lx]).alive
                                implies self.queues@[lx]@ == o.queues@[lx]@ + spec_dispatched_to(
                            o.attempts@.take(t + 1),
                            o.listeners@[lx].addr,
                        ) by {
                            lemma_dispatched_step(o.attempts@, t, o.listeners@[lx].addr);
                            assert(o.listeners@[lx].addr != a.addr) by {
                                if o.listeners@[lx].addr == a.addr {
                                    assert(spec_live_listener(o.listeners@, a.addr)) by {
                                        assert((#[trigger] o.listeners@[lx]).alive
                                            && o.listeners@[lx].addr == a.addr);
                                    }
                                }
                            }
                        }
                        assert(self.wf()) by {
                            assert forall|i: int|
                                0 <= i < self.conns.len() implies ((
                            #[trigger] self.conns[i]).client_ep < self.eps.len()
                                && self.conns[i].listener < self.listeners.len()) by {
                                assert(self.conns@[i].client_ep == o.conns@[i].client_ep);
                                assert(self.conns@[i].listener == o.conns@[i].listener);
                            }
                        }
                    }
                },
            }
            proof {
                t = t + 1;
            }
        }
        proof {
            assert(t == o.attempts.len());
            assert(o.attempts@.take(t) =~= o.attempts@);
        }
    }

    /// The first live listener bound on `addr`, if any.
    fn find_listener(&self, addr: Address) -> (r: Option<usize>)
        ensures
            match r {
                Some(l) => l < self.listeners.len() && self.listeners[l as int].alive
                    && self.listeners[l as int].addr == addr,
                None => !self.has_live_listener(addr),
            },
    {
        let mut l: usize = 0;
        while l < self.listeners.len()
            invariant
                l <= self.listeners.len(),
                forall|k: int|
                    0 <= k < l ==> !((#[trigger] self.listeners[k]).alive && self.listeners[k].addr
                        == addr),
            decreases self.listeners.len() - l,
        {
            let slot = self.listeners[l];
            if slot.alive && slot.addr.ip == addr.ip && slot.addr.port == addr.port {
                return Some(l);
            }
            l = l + 1;
        }
        None
    }
}

} // verus!
