//! Per-endpoint connection state.
//!
//! An `Endpoint` is one concrete traffic destination: a peer address, a
//! normalized weight, and counters that follow every outbound connection
//! through its life. The embedding program reports each connect attempt's
//! start and outcome, every read and write, and the close of each
//! connection; the methods here are the only way the counters move.

use vstd::prelude::*;
use crate::{Addr, UNIT_WEIGHT};

verus! {

/// The mutable counters of one endpoint.
#[derive(Clone, Copy, Debug)]
pub struct State {
    /// Outbound connection attempts in flight.
    pub pending_conns: usize,
    /// Established connections currently forwarding bytes.
    pub open_conns: usize,
    /// Connect failures since the last successful connect.
    pub consecutive_failures: usize,
    /// When the most recent connect failure happened, in milliseconds.
    pub last_failure_ms: Option<u64>,
    /// Bytes received from this endpoint over all its connections.
    pub rx_bytes: usize,
    /// Bytes sent to this endpoint over all its connections.
    pub tx_bytes: usize,
}

impl State {
    /// The state of a freshly created endpoint: every counter at zero.
    pub open spec fn zero_spec() -> State {
        State {
            pending_conns: 0,
            open_conns: 0,
            consecutive_failures: 0,
            last_failure_ms: None,
            rx_bytes: 0,
            tx_bytes: 0,
        }
    }

    pub fn zero() -> (r: State)
        ensures
            r == State::zero_spec(),
    {
        State {
            pending_conns: 0,
            open_conns: 0,
            consecutive_failures: 0,
            last_failure_ms: None,
            rx_bytes: 0,
            tx_bytes: 0,
        }
    }

    /// How loaded the endpoint is: attempts in flight plus open connections.
    pub open spec fn load_spec(self) -> int {
        self.pending_conns + self.open_conns
    }

    pub fn load(&self) -> (r: usize)
        requires
            self.load_spec() <= usize::MAX,
        ensures
            r == self.load_spec(),
    {
        self.open_conns + self.pending_conns
    }

    pub open spec fn is_idle_spec(self) -> bool {
        self.open_conns == 0
    }

    pub fn is_idle(&self) -> (r: bool)
        ensures
            r == self.is_idle_spec(),
    {
        self.open_conns == 0
    }
}

impl Default for State {
    fn default() -> (r: State)
        ensures
            r == State::zero_spec(),
    {
        State::zero()
    }
}

/// The state after a connect attempt is started.
pub open spec fn started_spec(s: State) -> State {
    State { pending_conns: (s.pending_conns + 1) as usize, ..s }
}

/// The state after an in-flight attempt fails at time `now_ms`.
pub open spec fn failed_spec(s: State, now_ms: u64) -> State {
    State {
        pending_conns: (s.pending_conns - 1) as usize,
        consecutive_failures: (s.consecutive_failures + 1) as usize,
        last_failure_ms: Some(now_ms),
        ..s
    }
}

/// The state after an in-flight attempt succeeds: the attempt becomes an
/// open connection and the failure streak resets.
pub open spec fn succeeded_spec(s: State) -> State {
    State {
        pending_conns: (s.pending_conns - 1) as usize,
        open_conns: (s.open_conns + 1) as usize,
        consecutive_failures: 0,
        ..s
    }
}

/// The state after an in-flight attempt is abandoned before it resolves:
/// the pending count must not leak.
pub open spec fn cancelled_spec(s: State) -> State {
    State { pending_conns: (s.pending_conns - 1) as usize, ..s }
}

/// The state after an open connection closes.
pub open spec fn closed_spec(s: State) -> State {
    State { open_conns: (s.open_conns - 1) as usize, ..s }
}

/// Represents a single concrete traffic destination.
#[derive(Clone, Copy, Debug)]
pub struct Endpoint {
    pub peer_addr: Addr,
    pub weight: u64,
    pub state: State,
}

impl Endpoint {
    pub open spec fn peer_addr_spec(self) -> Addr {
        self.peer_addr
    }

    pub open spec fn weight_spec(self) -> u64 {
        self.weight
    }

    pub open spec fn state_spec(self) -> State {
        self.state
    }

    pub fn peer_addr(&self) -> (r: Addr)
        ensures
            r == self.peer_addr_spec(),
    {
        self.peer_addr
    }

    pub fn state(&self) -> (r: &State)
        ensures
            *r == self.state_spec(),
    {
        &self.state
    }

    pub fn weight(&self) -> (r: u64)
        ensures
            r == self.weight_spec(),
    {
        self.weight
    }

    /// Weights are fractions of `UNIT_WEIGHT`; anything larger is rejected
    /// before the call.
    pub fn set_weight(&mut self, w: u64)
        requires
            w <= UNIT_WEIGHT,
        ensures
            final(self).weight_spec() == w,
            final(self).peer_addr_spec() == old(self).peer_addr_spec(),
            final(self).state_spec() == old(self).state_spec(),
    {
        self.weight = w;
    }

    pub open spec fn load_spec(self) -> int {
        self.state.load_spec()
    }

    pub fn load(&self) -> (r: usize)
        requires
            self.load_spec() <= usize::MAX,
        ensures
            r == self.load_spec(),
    {
        self.state.load()
    }

    pub fn is_idle(&self) -> (r: bool)
        ensures
            r == self.state_spec().is_idle_spec(),
    {
        self.state.is_idle()
    }

    /// A new endpoint starts with every counter at zero.
    pub fn new(peer_addr: Addr, weight: u64) -> (r: Endpoint)
        requires
            weight <= UNIT_WEIGHT,
        ensures
            r.peer_addr_spec() == peer_addr,
            r.weight_spec() == weight,
            r.state_spec() == State::zero_spec(),
    {
        Endpoint { peer_addr, weight, state: State::zero() }
    }

    /// An endpoint that keeps counters carried over from an earlier pool.
    pub fn with_state(peer_addr: Addr, weight: u64, state: State) -> (r: Endpoint)
        requires
            weight <= UNIT_WEIGHT,
        ensures
            r.peer_addr_spec() == peer_addr,
            r.weight_spec() == weight,
            r.state_spec() == state,
    {
        Endpoint { peer_addr, weight, state }
    }

    /// A connect attempt on this endpoint has started.
    pub fn connect_started(&mut self)
        requires
            old(self).state_spec().load_spec() < usize::MAX,
        ensures
            final(self).state_spec() == started_spec(old(self).state_spec()),
            final(self).peer_addr_spec() == old(self).peer_addr_spec(),
            final(self).weight_spec() == old(self).weight_spec(),
    {
        self.state.pending_conns = self.state.pending_conns + 1;
    }

    /// An in-flight attempt failed at time `now_ms`.
    pub fn connect_failed(&mut self, now_ms: u64)
        requires
            old(self).state_spec().pending_conns > 0,
            old(self).state_spec().consecutive_failures < usize::MAX,
        ensures
            final(self).state_spec() == failed_spec(old(self).state_spec(), now_ms),
            final(self).peer_addr_spec() == old(self).peer_addr_spec(),
            final(self).weight_spec() == old(self).weight_spec(),
    {
        self.state.pending_conns = self.state.pending_conns - 1;
        self.state.consecutive_failures = self.state.consecutive_failures + 1;
        self.state.last_failure_ms = Some(now_ms);
    }

    /// An in-flight attempt succeeded: it is now an open connection.
    pub fn connect_succeeded(&mut self)
        requires
            old(self).state_spec().pending_conns > 0,
            old(self).state_spec().load_spec() <= usize::MAX,
        ensures
            final(self).state_spec() == succeeded_spec(old(self).state_spec()),
            final(self).peer_addr_spec() == old(self).peer_addr_spec(),
            final(self).weight_spec() == old(self).weight_spec(),
    {
        self.state.pending_conns = self.state.pending_conns - 1;
        self.state.open_conns = self.state.open_conns + 1;
        self.state.consecutive_failures = 0;
    }

    /// An in-flight attempt was dropped before resolving; the pending count
    /// is given back rather than leaked.
    pub fn connect_cancelled(&mut self)
        requires
            old(self).state_spec().pending_conns > 0,
        ensures
            final(self).state_spec() == cancelled_spec(old(self).state_spec()),
            final(self).peer_addr_spec() == old(self).peer_addr_spec(),
            final(self).weight_spec() == old(self).weight_spec(),
    {
        self.state.pending_conns = self.state.pending_conns - 1;
    }

    /// An open connection on this endpoint closed.
    pub fn connection_closed(&mut self)
        requires
            old(self).state_spec().open_conns > 0,
        ensures
            final(self).state_spec() == closed_spec(old(self).state_spec()),
            final(self).peer_addr_spec() == old(self).peer_addr_spec(),
            final(self).weight_spec() == old(self).weight_spec(),
    {
        self.state.open_conns = self.state.open_conns - 1;
    }

    /// Bytes arrived from this endpoint.
    pub fn bytes_read(&mut self, sz: usize)
        requires
            old(self).state_spec().rx_bytes + sz <= usize::MAX,
        ensures
            final(self).state_spec() == (State {
                rx_bytes: (old(self).state_spec().rx_bytes + sz) as usize,
                ..old(self).state_spec()
            }),
            final(self).peer_addr_spec() == old(self).peer_addr_spec(),
            final(self).weight_spec() == old(self).weight_spec(),
    {
        self.state.rx_bytes = self.state.rx_bytes + sz;
    }

    /// Bytes were written to this endpoint.
    pub fn bytes_wrote(&mut self, sz: usize)
        requires
            old(self).state_spec().tx_bytes + sz <= usize::MAX,
        ensures
            final(self).state_spec() == (State {
                tx_bytes: (old(self).state_spec().tx_bytes + sz) as usize,
                ..old(self).state_spec()
            }),
            final(self).peer_addr_spec() == old(self).peer_addr_spec(),
            final(self).weight_spec() == old(self).weight_spec(),
    {
        self.state.tx_bytes = self.state.tx_bytes + sz;
    }
}

/// The handle an established connection carries: which endpoint it belongs
/// to and when it was established, so that its reads, writes and close can
/// be routed back to the right counters.
#[derive(Clone, Copy, PartialEq, Eq, Structural, Debug)]
pub struct Ctx {
    pub peer_addr: Addr,
    pub start_ms: u64,
}

impl Ctx {
    pub fn new(peer_addr: Addr, start_ms: u64) -> (r: Ctx)
        ensures
            r.peer_addr == peer_addr,
            r.start_ms == start_ms,
    {
        Ctx { peer_addr, start_ms }
    }
}

/// Law: connection counters never go negative. Every counter is an
/// unsigned machine integer, and every transition that lowers one requires
/// it to be positive.
pub proof fn lemma_counters_nonnegative(s: State)
    ensures
        s.pending_conns >= 0,
        s.open_conns >= 0,
{
}

/// Law: a completed connect attempt balances its books. Starting an attempt
/// and then resolving it leaves `pending_conns` exactly where it began;
/// `open_conns` rises by one on success and not at all on failure; and
/// closing the connection a success opened lowers `open_conns` by exactly
/// one, back to where it began.
pub proof fn lemma_connect_attempt_accounting(s: State, success: bool, now_ms: u64)
    requires
        s.pending_conns < usize::MAX,
        s.open_conns < usize::MAX,
        s.consecutive_failures < usize::MAX,
    ensures
        success ==> {
            let after = succeeded_spec(started_spec(s));
            &&& after.pending_conns == s.pending_conns
            &&& after.open_conns == s.open_conns + 1
            &&& closed_spec(after).open_conns == s.open_conns
            &&& after.consecutive_failures == 0
        },
        !success ==> {
            let after = failed_spec(started_spec(s), now_ms);
            &&& after.pending_conns == s.pending_conns
            &&& after.open_conns == s.open_conns
            &&& after.consecutive_failures == s.consecutive_failures + 1
        },
{
}

/// Law: an abandoned attempt does not leak the pending count.
pub proof fn lemma_cancel_accounting(s: State)
    requires
        s.pending_conns < usize::MAX,
    ensures
        cancelled_spec(started_spec(s)) == s,
{
    assert(cancelled_spec(started_spec(s)) =~= s);
}

} // verus!
