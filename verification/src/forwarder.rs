//! Decisions of the forwarding hot path: which requests the router answers
//! itself, how the client request id is swapped in and out of a frame, and
//! the retry policy across the hops of a segment.
//!
//! The caller runs the loop: it performs each action of a `ForwardPlan`
//! (looking up the hops, sending to a hop, sleeping) and reports the outcome
//! back as an event.
use vstd::prelude::*;
use bytes::{Bytes, BytesMut};
use crate::buffer::{
    bytes_contents, bytes_mut_contents, buf_len, buf_set_byte, buf_from_slice, buf_freeze, bytes_as_slice,
};
use crate::error::ForwardError;
use crate::protocol::{u32_le_bytes, lemma_le_u32_roundtrip};
use crate::strmap::strs_view;
use crate::text::{str_eq, concat3};

verus! {

/// Control segment asking for the list of segments.
pub const GETSEGMENTS: &'static str = "GETSEGMENTS";

/// Control segment asking for the codec list.
pub const GETCODECS: &'static str = "__codecs__";

/// Retries of a request across the hops of its segment.
pub const DEFAULT_MAX_RETRIES: usize = 3;

/// What a request asks for.
#[derive(Clone, Copy, PartialEq, Eq, Debug, Structural)]
pub enum RequestKind {
    /// The segment list, answered by the router.
    Segments,
    /// The codec list, answered by the router.
    Codecs,
    /// Anything else, forwarded to a hop.
    Routed,
}

pub fn classify_request(segment: &str) -> (k: RequestKind)
    ensures
        segment@ == GETSEGMENTS@ ==> k == RequestKind::Segments,
        segment@ != GETSEGMENTS@ && segment@ == GETCODECS@ ==> k == RequestKind::Codecs,
        segment@ != GETSEGMENTS@ && segment@ != GETCODECS@ ==> k == RequestKind::Routed,
{
    if str_eq(segment, GETSEGMENTS) {
        RequestKind::Segments
    } else if str_eq(segment, GETCODECS) {
        RequestKind::Codecs
    } else {
        RequestKind::Routed
    }
}

/// The strings of `parts` joined by `,`.
pub open spec fn comma_joined(parts: Seq<Seq<char>>) -> Seq<char>
    decreases parts.len(),
{
    if parts.len() == 0 {
        Seq::empty()
    } else if parts.len() == 1 {
        parts[0]
    } else {
        comma_joined(parts.drop_last()) + ","@ + parts.last()
    }
}

/// The codec list as the router reports it: the names joined by commas.
pub fn codecs_text(codecs: &Vec<String>) -> (s: String)
    ensures
        s@ == comma_joined(strs_view(codecs@)),
{
    proof {
        reveal_strlit("");
    }
    let mut s = String::new();
    let mut i: usize = 0;
    while i < codecs.len()
        invariant
            i <= codecs@.len(),
            s@ == comma_joined(strs_view(codecs@).take(i as int)),
        decreases codecs@.len() - i,
    {
        let ghost prev = s@;
        if i == 0 {
            s = codecs[i].clone();
        } else {
            s = concat3(s.as_str(), ",", codecs[i].as_str());
        }
        proof {
            let t = strs_view(codecs@).take(i + 1);
            assert(t.drop_last() =~= strs_view(codecs@).take(i as int));
            assert(t.last() == codecs@[i as int]@);
            if i == 0 {
                assert(t =~= seq![codecs@[0]@]);
            }
        }
        i = i + 1;
    }
    assert(strs_view(codecs@).take(codecs@.len() as int) =~= strs_view(codecs@));
    s
}

/// `b` with the four little-endian bytes of `x` at `offset`.
pub open spec fn with_u32_at(b: Seq<u8>, offset: int, x: u32) -> Seq<u8> {
    b.take(offset) + u32_le_bytes(x) + b.skip(offset + 4)
}

/// Puts the hop's correlation id in place of the client request id.
/// A frame too short to hold an id at `clrid_offset` is an internal error.
pub fn rewrite_clrid(frame: &mut BytesMut, clrid_offset: usize, new_clrid: u32) -> (r: Result<(), ForwardError>)
    ensures
        clrid_offset + 4 > bytes_mut_contents(*old(frame)).len() ==> (r matches Err(ForwardError::Internal(m))
            && m@ == "frame too short for CLRID"@ && bytes_mut_contents(*final(frame)) == bytes_mut_contents(*old(frame))),
        clrid_offset + 4 <= bytes_mut_contents(*old(frame)).len() ==> (r is Ok && bytes_mut_contents(*final(frame))
            == with_u32_at(bytes_mut_contents(*old(frame)), clrid_offset as int, new_clrid)),
{
    let len = buf_len(frame);
    if clrid_offset > len || len - clrid_offset < 4 {
        return Err(ForwardError::Internal(String::from_str("frame too short for CLRID")));
    }
    write_u32_at(frame, clrid_offset, new_clrid);
    Ok(())
}

fn write_u32_at(frame: &mut BytesMut, offset: usize, x: u32)
    requires
        offset + 4 <= bytes_mut_contents(*old(frame)).len(),
    ensures
        bytes_mut_contents(*final(frame)) == with_u32_at(bytes_mut_contents(*old(frame)), offset as int, x),
{
    let ghost b = bytes_mut_contents(*frame);
    let _len = buf_len(frame);
    let bytes = u32_le_bytes_exec(x);
    buf_set_byte(frame, offset, bytes.0);
    buf_set_byte(frame, offset + 1, bytes.1);
    buf_set_byte(frame, offset + 2, bytes.2);
    buf_set_byte(frame, offset + 3, bytes.3);
    assert(bytes_mut_contents(*frame) =~= with_u32_at(b, offset as int, x));
}

fn u32_le_bytes_exec(x: u32) -> (r: (u8, u8, u8, u8))
    ensures
        u32_le_bytes(x) == seq![r.0, r.1, r.2, r.3],
{
    let r = ((x % 256) as u8, ((x / 256) % 256) as u8, ((x / 65536) % 256) as u8, ((x / 16777216) % 256) as u8);
    assert(u32_le_bytes(x) =~= seq![r.0, r.1, r.2, r.3]);
    r
}

/// A hop's response with the client's request id restored: a response of at
/// least 9 bytes gets `original_clrid` at bytes 1..5; a shorter one is
/// returned as it is.
pub fn restore_clrid(response: Bytes, original_clrid: u32) -> (r: Bytes)
    ensures
        bytes_contents(response).len() >= 9 ==> bytes_contents(r) == with_u32_at(bytes_contents(response), 1, original_clrid),
        bytes_contents(response).len() < 9 ==> bytes_contents(r) == bytes_contents(response),
{
    let s = bytes_as_slice(&response);
    if s.len() >= 9 {
        let mut b = buf_from_slice(s);
        write_u32_at(&mut b, 1, original_clrid);
        buf_freeze(b)
    } else {
        response
    }
}

/// Why forwarding gave up.
#[derive(Clone, Copy, PartialEq, Eq, Debug, Structural)]
pub enum ForwardFailure {
    /// The routing table knows no hop for the segment.
    UnknownSegment,
    /// No hop answered within the retries.
    NetworkError,
    /// A write was sent and then failed; it is not sent again.
    Timeout,
}

/// The error answered for a failure of forwarding `segment`.
pub fn failure_error(f: ForwardFailure, segment: &str) -> (e: ForwardError)
    ensures
        f == ForwardFailure::UnknownSegment ==> (e matches ForwardError::UnknownSegment(s) && s@ == segment@),
        f == ForwardFailure::NetworkError ==> e is NetworkError,
        f == ForwardFailure::Timeout ==> e is Timeout,
{
    match f {
        ForwardFailure::UnknownSegment => ForwardError::UnknownSegment(String::from_str(segment)),
        ForwardFailure::NetworkError => ForwardError::NetworkError,
        ForwardFailure::Timeout => ForwardError::Timeout,
    }
}

/// What the caller does next.
#[derive(Clone, Copy, PartialEq, Eq, Debug, Structural)]
pub enum ForwardAction {
    /// Load the routing snapshot and report how many hops the segment has.
    Route,
    /// Try the hop at this position of the segment's hop list.
    TryHop(usize),
    /// Sleep this many milliseconds, then report `BackoffDone`.
    Backoff(u64),
    /// Give up with this failure.
    Fail(ForwardFailure),
}

/// What the caller reports back.
#[derive(Clone, Copy, PartialEq, Eq, Debug, Structural)]
pub enum ForwardEvent {
    /// The segment has this many hops.
    Routed(usize),
    /// The hop could not be used (unknown hop, no connection, or a closed
    /// connection); nothing was sent.
    HopSkipped,
    /// The connection closed before the request went out.
    SendClosed,
    /// The request went out and then failed.
    SendFailed,
    /// The backoff pause is over.
    BackoffDone,
}

#[derive(Clone, Copy, PartialEq, Eq, Debug, Structural)]
pub enum ForwardPhase {
    Routing,
    Trying,
    BackingOff,
    Done,
}

/// Retry state of one forwarded request: attempts over the segment's hops,
/// each attempt trying every hop once, round-robin from the client request id.
pub struct ForwardPlan {
    pub max_retries: usize,
    pub is_write: bool,
    pub original_clrid: u32,
    pub attempt: usize,
    pub hop_count: usize,
    pub step: usize,
    pub request_sent: bool,
    pub phase: ForwardPhase,
}

/// Position of the hop tried at `step` of an attempt over `n` hops.
pub open spec fn hop_position(clrid: u32, step: int, n: int) -> int {
    ((clrid as int % n) + step) % n
}

/// Pause before attempt `attempt + 1`, in milliseconds (50 per attempt so
/// far, saturating at the largest `u64`).
pub open spec fn backoff_ms(attempt: int) -> int {
    if 50 * (attempt + 1) <= u64::MAX {
        50 * (attempt + 1)
    } else {
        u64::MAX as int
    }
}

/// One step of the retry policy: the plan `p` takes event `e`, becomes
/// `q` and asks for action `a`.
///
/// - routed to no hop: fail with an unknown segment;
/// - routed to `n` hops: try the first of them, round-robin from the client request id;
/// - backoff over: route again, in the next attempt;
/// - a write whose send failed: fail with a timeout, never sending it again;
/// - otherwise try the next hop of the attempt; after the last hop, back
///   off, or fail with a network error after the last attempt.
pub open spec fn advance_spec(p: ForwardPlan, e: ForwardEvent, q: ForwardPlan, a: ForwardAction) -> bool {
    &&& q.max_retries == p.max_retries
    &&& q.is_write == p.is_write
    &&& q.original_clrid == p.original_clrid
    &&& match e {
        ForwardEvent::Routed(n) => if n == 0 {
            a == ForwardAction::Fail(ForwardFailure::UnknownSegment) && q.phase == ForwardPhase::Done
        } else {
            &&& a == ForwardAction::TryHop(hop_position(p.original_clrid, 0, n as int) as usize)
            &&& q.phase == ForwardPhase::Trying
            &&& q.hop_count == n
            &&& q.step == 0
            &&& q.attempt == p.attempt
        },
        ForwardEvent::BackoffDone => a == ForwardAction::Route && q.phase == ForwardPhase::Routing && q.attempt == p.attempt + 1,
        ForwardEvent::SendFailed if p.is_write => a == ForwardAction::Fail(ForwardFailure::Timeout) && q.phase == ForwardPhase::Done,
        _ => {
            &&& q.attempt == p.attempt
            &&& q.hop_count == p.hop_count
            &&& q.request_sent == (p.request_sent || e is SendFailed)
            &&& p.step + 1 < p.hop_count ==> q.step == p.step + 1 && q.phase == ForwardPhase::Trying && a
                == ForwardAction::TryHop(hop_position(p.original_clrid, p.step + 1, p.hop_count as int) as usize)
            &&& p.step + 1 >= p.hop_count ==> (if p.attempt + 1 == p.max_retries {
                a == ForwardAction::Fail(ForwardFailure::NetworkError) && q.phase == ForwardPhase::Done
            } else {
                a == ForwardAction::Backoff(backoff_ms(p.attempt as int) as u64) && q.phase == ForwardPhase::BackingOff
            })
        },
    }
}

impl ForwardPlan {
    pub open spec fn wf(&self) -> bool {
        &&& self.phase != ForwardPhase::Done ==> self.attempt < self.max_retries
        &&& self.phase == ForwardPhase::Trying ==> self.step < self.hop_count
        &&& self.phase == ForwardPhase::BackingOff ==> self.attempt + 1 < self.max_retries
        &&& self.is_write && self.request_sent ==> self.phase == ForwardPhase::Done
    }

    /// Events the plan waits for in its phase.
    pub open spec fn accepts(&self, e: ForwardEvent) -> bool {
        match self.phase {
            ForwardPhase::Routing => e is Routed,
            ForwardPhase::Trying => e is HopSkipped || e is SendClosed || e is SendFailed,
            ForwardPhase::BackingOff => e is BackoffDone,
            ForwardPhase::Done => false,
        }
    }

    /// Starts forwarding a request; with no retries at all it fails at once.
    pub fn start(max_retries: usize, is_write: bool, original_clrid: u32) -> (r: (ForwardPlan, ForwardAction))
        ensures
            r.0.wf(),
            r.0.max_retries == max_retries,
            r.0.is_write == is_write,
            r.0.original_clrid == original_clrid,
            r.0.attempt == 0,
            !r.0.request_sent,
            max_retries == 0 ==> r.1 == ForwardAction::Fail(ForwardFailure::NetworkError) && r.0.phase == ForwardPhase::Done,
            max_retries > 0 ==> r.1 == ForwardAction::Route && r.0.phase == ForwardPhase::Routing,
    {
        let mut plan = ForwardPlan {
            max_retries,
            is_write,
            original_clrid,
            attempt: 0,
            hop_count: 0,
            step: 0,
            request_sent: false,
            phase: ForwardPhase::Routing,
        };
        if max_retries == 0 {
            plan.phase = ForwardPhase::Done;
            (plan, ForwardAction::Fail(ForwardFailure::NetworkError))
        } else {
            (plan, ForwardAction::Route)
        }
    }

    fn position(&self) -> (p: usize)
        requires
            self.hop_count > 0,
            self.step < self.hop_count,
        ensures
            p == hop_position(self.original_clrid, self.step as int, self.hop_count as int),
            p < self.hop_count,
    {
        let n = self.hop_count;
        let start = (self.original_clrid as usize) % n;
        proof {
            vstd::arithmetic::div_mod::lemma_mod_bound(self.original_clrid as int, n as int);
        }
        let p = if self.step < n - start { start + self.step } else { self.step - (n - start) };
        proof {
            let s = start as int;
            let k = self.step as int;
            let nn = n as int;
            if k < nn - s {
                vstd::arithmetic::div_mod::lemma_small_mod((s + k) as nat, nn as nat);
            } else {
                vstd::arithmetic::div_mod::lemma_mod_multiples_vanish(1, s + k - nn, nn);
                vstd::arithmetic::div_mod::lemma_small_mod((s + k - nn) as nat, nn as nat);
            }
        }
        p
    }

    /// Goes on after the hop at the current step was not used or failed.
    fn next_hop(&mut self) -> (a: ForwardAction)
        requires
            old(self).phase == ForwardPhase::Trying,
            old(self).step < old(self).hop_count,
            old(self).attempt < old(self).max_retries,
            !(old(self).is_write && old(self).request_sent),
        ensures
            final(self).max_retries == old(self).max_retries,
            final(self).is_write == old(self).is_write,
            final(self).original_clrid == old(self).original_clrid,
            final(self).request_sent == old(self).request_sent,
            final(self).hop_count == old(self).hop_count,
            final(self).attempt == old(self).attempt,
            final(self).wf(),
            old(self).step + 1 < old(self).hop_count ==> final(self).step == old(self).step + 1 && final(self).phase
                == ForwardPhase::Trying && a == ForwardAction::TryHop(
                hop_position(old(self).original_clrid, old(self).step + 1, old(self).hop_count as int) as usize,
            ),
            old(self).step + 1 >= old(self).hop_count ==> final(self).step == old(self).step && (if old(self).attempt
                + 1 == old(self).max_retries {
                a == ForwardAction::Fail(ForwardFailure::NetworkError) && final(self).phase == ForwardPhase::Done
            } else {
                a == ForwardAction::Backoff(backoff_ms(old(self).attempt as int) as u64) && final(self).phase
                    == ForwardPhase::BackingOff
            }),
    {
        if self.step + 1 < self.hop_count {
            self.step = self.step + 1;
            let p = self.position();
            ForwardAction::TryHop(p)
        } else if self.is_write && self.request_sent {
            self.phase = ForwardPhase::Done;
            ForwardAction::Fail(ForwardFailure::Timeout)
        } else if self.attempt == self.max_retries - 1 {
            self.phase = ForwardPhase::Done;
            ForwardAction::Fail(ForwardFailure::NetworkError)
        } else {
            self.phase = ForwardPhase::BackingOff;
            assert(self.attempt < self.max_retries - 1);
            let attempts = self.attempt as u64 + 1;
            let ms: u64 = if attempts <= u64::MAX / 50 { 50 * attempts } else { u64::MAX };
            ForwardAction::Backoff(ms)
        }
    }

    /// Takes the outcome of the last action and says what to do next.
    pub fn advance(&mut self, event: ForwardEvent) -> (a: ForwardAction)
        requires
            old(self).wf(),
            old(self).accepts(event),
        ensures
            final(self).wf(),
            advance_spec(*old(self), event, *final(self), a),
    {
        match event {
            ForwardEvent::Routed(n) => {
                if n == 0 {
                    self.phase = ForwardPhase::Done;
                    ForwardAction::Fail(ForwardFailure::UnknownSegment)
                } else {
                    self.hop_count = n;
                    self.step = 0;
                    self.phase = ForwardPhase::Trying;
                    let p = self.position();
                    ForwardAction::TryHop(p)
                }
            },
            ForwardEvent::BackoffDone => {
                self.attempt = self.attempt + 1;
                self.phase = ForwardPhase::Routing;
                ForwardAction::Route
            },
            ForwardEvent::SendFailed => {
                self.request_sent = true;
                if self.is_write {
                    self.phase = ForwardPhase::Done;
                    ForwardAction::Fail(ForwardFailure::Timeout)
                } else {
                    self.next_hop()
                }
            },
            _ => self.next_hop(),
        }
    }
}

/// A write request is never sent again once a send of it has failed: the
/// plan gives up with a timeout and takes no further event.
pub proof fn lemma_failed_write_not_resent(p: ForwardPlan, q: ForwardPlan, a: ForwardAction)
    requires
        p.wf(),
        p.accepts(ForwardEvent::SendFailed),
        p.is_write,
        advance_spec(p, ForwardEvent::SendFailed, q, a),
    ensures
        a == ForwardAction::Fail(ForwardFailure::Timeout),
        q.phase == ForwardPhase::Done,
        forall|e: ForwardEvent| !q.accepts(e),
{
}

/// When the last hop of an attempt was skipped or its connection closed
/// before the request went out, nothing reached a hop: the request is tried
/// again after a pause of 50 ms per attempt made so far, or, after the last
/// attempt, given up with a network error. This holds for writes as for
/// reads: a write that was never sent is retried like a read.
pub proof fn lemma_unsent_attempt_retries(p: ForwardPlan, e: ForwardEvent, q: ForwardPlan, a: ForwardAction)
    requires
        p.wf(),
        p.phase == ForwardPhase::Trying,
        e is HopSkipped || e is SendClosed,
        p.step + 1 >= p.hop_count,
        advance_spec(p, e, q, a),
    ensures
        p.attempt + 1 < p.max_retries ==> q.phase == ForwardPhase::BackingOff && q.attempt == p.attempt && a
            == ForwardAction::Backoff(
            (if 50 * (p.attempt + 1) <= u64::MAX {
                50 * (p.attempt + 1)
            } else {
                u64::MAX as int
            }) as u64,
        ),
        p.attempt + 1 >= p.max_retries ==> a == ForwardAction::Fail(ForwardFailure::NetworkError) && q.phase
            == ForwardPhase::Done,
        !q.request_sent || p.request_sent,
{
}

/// Why a plan gives up: an unknown segment only when the segment has no hop;
/// a timeout only when the send of a write failed; a network error only
/// after the last hop of the last attempt.
pub proof fn lemma_failure_reasons(p: ForwardPlan, e: ForwardEvent, q: ForwardPlan, f: ForwardFailure)
    requires
        p.wf(),
        p.accepts(e),
        advance_spec(p, e, q, ForwardAction::Fail(f)),
    ensures
        f == ForwardFailure::UnknownSegment ==> e == ForwardEvent::Routed(0),
        f == ForwardFailure::Timeout ==> p.is_write && e is SendFailed,
        f == ForwardFailure::NetworkError ==> p.phase == ForwardPhase::Trying && p.step + 1 >= p.hop_count
            && p.attempt + 1 == p.max_retries,
        q.phase == ForwardPhase::Done,
{
}

/// Hop position `t` is tried at some step of an attempt over `n` hops.
pub open spec fn tried_in_attempt(clrid: u32, n: int, t: int) -> bool {
    exists|k: int| 0 <= k < n && hop_position(clrid, k, n) == t
}

/// Within one attempt over `n` hops, steps `0..n` try every hop exactly once.
pub proof fn lemma_attempt_tries_each_hop_once(clrid: u32, n: int)
    requires
        n > 0,
    ensures
        forall|k1: int, k2: int| 0 <= k1 < n && 0 <= k2 < n && k1 != k2 ==> hop_position(clrid, k1, n) != hop_position(clrid, k2, n),
        forall|t: int| 0 <= t < n ==> #[trigger] tried_in_attempt(clrid, n, t),
        forall|k: int| 0 <= k < n ==> 0 <= #[trigger] hop_position(clrid, k, n) < n,
{
    let s = clrid as int % n;
    vstd::arithmetic::div_mod::lemma_mod_bound(clrid as int, n);
    assert forall|k: int| 0 <= k < n implies 0 <= #[trigger] hop_position(clrid, k, n) < n by {
        vstd::arithmetic::div_mod::lemma_mod_bound(s + k, n);
    }
    assert forall|k1: int, k2: int| 0 <= k1 < n && 0 <= k2 < n && k1 != k2 implies hop_position(clrid, k1, n) != hop_position(clrid, k2, n) by {
        let x1 = s + k1;
        let x2 = s + k2;
        let p1 = if x1 < n { x1 } else { x1 - n };
        let p2 = if x2 < n { x2 } else { x2 - n };
        if x1 < n {
            vstd::arithmetic::div_mod::lemma_small_mod(x1 as nat, n as nat);
        } else {
            vstd::arithmetic::div_mod::lemma_mod_multiples_vanish(1, x1 - n, n);
            vstd::arithmetic::div_mod::lemma_small_mod((x1 - n) as nat, n as nat);
        }
        if x2 < n {
            vstd::arithmetic::div_mod::lemma_small_mod(x2 as nat, n as nat);
        } else {
            vstd::arithmetic::div_mod::lemma_mod_multiples_vanish(1, x2 - n, n);
            vstd::arithmetic::div_mod::lemma_small_mod((x2 - n) as nat, n as nat);
        }
        assert(hop_position(clrid, k1, n) == p1);
        assert(hop_position(clrid, k2, n) == p2);
    }
    assert forall|t: int| 0 <= t < n implies #[trigger] tried_in_attempt(clrid, n, t) by {
        let k = crate::hop::lemma_rr_reaches(s, n, t);
        assert(hop_position(clrid, k, n) == crate::hop::rr_index(s, k, n));
    }
}

} // verus!
