//! Decisions about one hop (a zone router or a bridge): its health state,
//! which of its connections serves the next request, and what its periodic
//! maintenance does.
use vstd::prelude::*;
use std::sync::atomic::{AtomicUsize, Ordering};

verus! {

/// Health of a hop.
#[derive(Clone, Copy, PartialEq, Eq, Debug, Structural)]
pub enum HopState {
    Healthy,
    Recovering,
    Unavailable,
}

/// Number that stands for a state in the atomic cell.
pub open spec fn hop_state_code(s: HopState) -> usize {
    match s {
        HopState::Healthy => 0,
        HopState::Recovering => 1,
        HopState::Unavailable => 2,
    }
}

/// State that a number in the atomic cell stands for; numbers above 2 read
/// as unavailable.
pub open spec fn hop_state_of_code(v: usize) -> HopState {
    if v == 0 {
        HopState::Healthy
    } else if v == 1 {
        HopState::Recovering
    } else {
        HopState::Unavailable
    }
}

/// Reading back the number of a state gives the state.
pub proof fn lemma_hop_state_code_roundtrip(s: HopState)
    ensures
        hop_state_of_code(hop_state_code(s)) == s,
{
}

pub fn encode_hop_state(s: HopState) -> (v: usize)
    ensures
        v == hop_state_code(s),
{
    match s {
        HopState::Healthy => 0,
        HopState::Recovering => 1,
        HopState::Unavailable => 2,
    }
}

pub fn decode_hop_state(v: usize) -> (s: HopState)
    ensures
        s == hop_state_of_code(v),
{
    if v == 0 {
        HopState::Healthy
    } else if v == 1 {
        HopState::Recovering
    } else {
        HopState::Unavailable
    }
}

/// A hop state shared between tasks, held in an atomic cell as the number of
/// `hop_state_code`. What a load or a failed exchange finds depends on the
/// other tasks; the cell's contents are not modelled, so those results are
/// not tied to earlier stores. The verified parts are the encoding and
/// decoding of states (`encode_hop_state`, `decode_hop_state`).
pub struct AtomicHopState {
    state: AtomicUsize,
}

impl AtomicHopState {
    pub fn new(state: HopState) -> (a: Self) {
        AtomicHopState { state: AtomicUsize::new(encode_hop_state(state)) }
    }

    pub fn load(&self) -> HopState {
        decode_hop_state(self.state.load(Ordering::Acquire))
    }

    pub fn store(&self, state: HopState) {
        self.state.store(encode_hop_state(state), Ordering::Release)
    }

    /// Replaces `current` by `new`; on failure, returns the state found.
    pub fn compare_exchange(&self, current: HopState, new: HopState) -> (r: Result<(), HopState>) {
        match self.state.compare_exchange(
            encode_hop_state(current),
            encode_hop_state(new),
            Ordering::AcqRel,
            Ordering::Acquire,
        ) {
            Ok(_) => Ok(()),
            Err(actual) => Err(decode_hop_state(actual)),
        }
    }
}

/// Position tried at step `i` of a round-robin scan of `n` entries from `cursor`.
pub open spec fn rr_index(cursor: int, i: int, n: int) -> int {
    (cursor + i) % n
}

/// The round-robin choice among `n = closed.len()` connections: the first
/// open one at or after `cursor`, going around.
pub open spec fn rr_pick(closed: Seq<bool>, cursor: int, p: Option<usize>) -> bool {
    let n = closed.len() as int;
    match p {
        Some(idx) => exists|i: int|
            0 <= i < n && idx == rr_index(cursor, i, n) && !closed[idx as int] && (forall|j: int|
                0 <= j < i ==> #[trigger] closed[rr_index(cursor, j, n)]),
        None => forall|j: int| 0 <= j < n ==> #[trigger] closed[j],
    }
}

/// A round-robin scan of `n` entries reaches every position.
pub proof fn lemma_rr_reaches(c: int, n: int, t: int) -> (j: int)
    requires
        c >= 0,
        n > 0,
        0 <= t < n,
    ensures
        0 <= j < n,
        rr_index(c, j, n) == t,
{
    let r = c % n;
    let q = c / n;
    vstd::arithmetic::div_mod::lemma_fundamental_div_mod(c, n);
    vstd::arithmetic::div_mod::lemma_mod_bound(c, n);
    if t >= r {
        let j = t - r;
        assert(c + j == n * q + t);
        vstd::arithmetic::div_mod::lemma_mod_multiples_vanish(q, t, n);
        vstd::arithmetic::div_mod::lemma_small_mod(t as nat, n as nat);
        j
    } else {
        let j = t - r + n;
        assert(c + j == n * (q + 1) + t) by (nonlinear_arith)
            requires c == n * q + r, j == t - r + n;
        vstd::arithmetic::div_mod::lemma_mod_multiples_vanish(q + 1, t, n);
        vstd::arithmetic::div_mod::lemma_small_mod(t as nat, n as nat);
        j
    }
}

/// Picks the next open connection round-robin, given which are closed.
pub fn pick_open(closed: &Vec<bool>, cursor: usize) -> (r: Option<usize>)
    ensures
        rr_pick(closed@, cursor as int, r),
{
    let n = closed.len();
    if n == 0 {
        return None;
    }
    let start = cursor % n;
    let mut i: usize = 0;
    while i < n
        invariant
            n == closed@.len(),
            n > 0,
            start == cursor % n,
            i <= n,
            forall|j: int| 0 <= j < i ==> #[trigger] closed@[rr_index(cursor as int, j, n as int)],
        decreases n - i,
    {
        let idx = if i < n - start { start + i } else { i - (n - start) };
        proof {
            let c = cursor as int;
            let nn = n as int;
            vstd::arithmetic::div_mod::lemma_mod_bound(c, nn);
            vstd::arithmetic::div_mod::lemma_add_mod_noop(c, i as int, nn);
            vstd::arithmetic::div_mod::lemma_small_mod(i as nat, nn as nat);
            vstd::arithmetic::div_mod::lemma_mod_twice(c, nn);
            assert(rr_index(c, i as int, nn) == (start + i) % nn);
            if (i as int) < nn - start {
                vstd::arithmetic::div_mod::lemma_small_mod((start + i) as nat, nn as nat);
            } else {
                vstd::arithmetic::div_mod::lemma_mod_multiples_vanish(1, start + i - nn, nn);
                vstd::arithmetic::div_mod::lemma_small_mod((start + i - nn) as nat, nn as nat);
            }
            assert(idx == rr_index(c, i as int, nn));
        }
        if !closed[idx] {
            return Some(idx);
        }
        i = i + 1;
    }
    proof {
        assert forall|t: int| 0 <= t < n implies #[trigger] closed@[t] by {
            let j = lemma_rr_reaches(cursor as int, n as int, t);
            assert(closed@[rr_index(cursor as int, j, n as int)]);
        }
    }
    None
}

/// Number of open connections.
pub open spec fn open_count(closed: Seq<bool>) -> nat
    decreases closed.len(),
{
    if closed.len() == 0 {
        0
    } else {
        open_count(closed.drop_last()) + if closed.last() { 0nat } else { 1nat }
    }
}

pub fn count_open(closed: &Vec<bool>) -> (n: usize)
    ensures
        n == open_count(closed@),
{
    let mut n: usize = 0;
    let mut i: usize = 0;
    while i < closed.len()
        invariant
            i <= closed@.len(),
            n == open_count(closed@.take(i as int)),
            n <= i,
        decreases closed@.len() - i,
    {
        assert(closed@.take(i + 1).drop_last() =~= closed@.take(i as int));
        if !closed[i] {
            n = n + 1;
        }
        i = i + 1;
    }
    assert(closed@.take(closed@.len() as int) =~= closed@);
    n
}

/// What one maintenance tick of a hop does.
#[derive(Clone, Copy, PartialEq, Eq, Debug, Structural)]
pub enum MaintenanceAction {
    /// Healthy: top up the connection pool.
    EnsureConnections,
    /// Recovering with a known address: reconnect to it, else resolve anew.
    Reconnect,
    /// Recovering without an address: resolve one, then reconnect.
    ResolveAndReconnect,
    /// Unavailable with a known address: start recovering.
    StartRecovering,
    /// Unavailable without an address: wait.
    Wait,
}

pub fn maintenance_action(state: HopState, has_address: bool) -> (a: MaintenanceAction)
    ensures
        a == (match state {
            HopState::Healthy => MaintenanceAction::EnsureConnections,
            HopState::Recovering => if has_address {
                MaintenanceAction::Reconnect
            } else {
                MaintenanceAction::ResolveAndReconnect
            },
            HopState::Unavailable => if has_address {
                MaintenanceAction::StartRecovering
            } else {
                MaintenanceAction::Wait
            },
        }),
{
    match state {
        HopState::Healthy => MaintenanceAction::EnsureConnections,
        HopState::Recovering => if has_address {
            MaintenanceAction::Reconnect
        } else {
            MaintenanceAction::ResolveAndReconnect
        },
        HopState::Unavailable => if has_address {
            MaintenanceAction::StartRecovering
        } else {
            MaintenanceAction::Wait
        },
    }
}

/// Connections a hop keeps open: the configured number, at least one.
pub open spec fn pool_target(conn_per_hop: usize) -> usize {
    if conn_per_hop >= 1 { conn_per_hop } else { 1 }
}

/// How many connections to open to reach the pool target.
pub fn connections_to_open(conn_per_hop: usize, live: usize) -> (n: usize)
    ensures
        n == (if live < pool_target(conn_per_hop) { pool_target(conn_per_hop) - live } else { 0 }),
{
    let target = if conn_per_hop >= 1 { conn_per_hop } else { 1 };
    if live < target {
        target - live
    } else {
        0
    }
}

/// After a failed connection attempt, the hop starts recovering when no
/// connection is left and more than one was to be opened.
pub fn recover_after_failed_open(open_left: usize, to_open: usize) -> (b: bool)
    ensures
        b == (open_left == 0 && to_open > 1),
{
    open_left == 0 && to_open > 1
}

} // verus!
