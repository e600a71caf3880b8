//! The balancing engine: the live endpoint pool, snapshot application,
//! load-aware selection, waiter admission and dispatch.
//!
//! The balancer owns every endpoint. The embedding program accepts
//! sockets, performs connects and pumps bytes; each of those events comes
//! back here as a plain call, and every decision — which endpoint serves a
//! waiter, who is retired, who is dropped — is made by the verified code
//! in this module.

use vstd::prelude::*;
use crate::{Addr, WeightedAddr, UNIT_WEIGHT};
use crate::endpoint::{Endpoint, State, Ctx, started_spec, failed_spec, succeeded_spec, closed_spec};
use crate::metrics::{Counter, Gauge, Timer};

verus! {

/// Whether some endpoint of `s` has peer address `a`.
pub open spec fn has_addr(s: Seq<Endpoint>, a: Addr) -> bool {
    exists|i: int| 0 <= i < s.len() && s[i].peer_addr == a
}

/// The index of the endpoint of `s` with peer address `a`; meaningful when
/// `has_addr(s, a)` holds and the addresses of `s` are distinct.
pub open spec fn index_of_addr(s: Seq<Endpoint>, a: Addr) -> int {
    choose|i: int| 0 <= i < s.len() && s[i].peer_addr == a
}

/// Whether snapshot `s` carries address `a`.
pub open spec fn snapshot_has(s: Seq<WeightedAddr>, a: Addr) -> bool {
    exists|i: int| 0 <= i < s.len() && s[i].addr == a
}

/// No two entries of the snapshot share an address.
pub open spec fn distinct_snapshot(s: Seq<WeightedAddr>) -> bool {
    forall|i: int, j: int| 0 <= i < j < s.len() ==> s[i].addr != s[j].addr
}

/// No two endpoints share an address.
pub open spec fn distinct_endpoints(s: Seq<Endpoint>) -> bool {
    forall|i: int, j: int| 0 <= i < j < s.len() ==> s[i].peer_addr != s[j].peer_addr
}

/// Every endpoint the balancer holds keeps its weight a valid fraction and
/// its load within machine range.
pub open spec fn ep_ok(e: Endpoint) -> bool {
    &&& e.weight <= UNIT_WEIGHT
    &&& e.state.load_spec() <= usize::MAX
}

/// An endpoint may be handed a new connection: it is selectable only with
/// a positive weight, and only while it can count one more attempt.
pub open spec fn eligible(e: Endpoint) -> bool {
    &&& e.weight > 0
    &&& e.state.load_spec() < usize::MAX
}

/// An endpoint retired by a snapshot is kept only while it still carries
/// traffic.
pub open spec fn retained(snap: Seq<WeightedAddr>, e: Endpoint) -> bool {
    &&& !snapshot_has(snap, e.peer_addr)
    &&& e.state.load_spec() > 0
}

/// The endpoint count the gauge records: every endpoint held, live or
/// retired, saturating at the gauge's range.
pub open spec fn endpoint_count(b: Balancer) -> u64 {
    if b.live@.len() + b.retired@.len() <= u64::MAX {
        (b.live@.len() + b.retired@.len()) as u64
    } else {
        u64::MAX
    }
}

/// The two balancers agree on every configured parameter.
pub open spec fn same_config(a: Balancer, b: Balancer) -> bool {
    &&& a.max_waiters == b.max_waiters
    &&& a.fail_limit == b.fail_limit
    &&& a.fail_penalty_ms == b.fail_penalty_ms
    &&& a.min_connections == b.min_connections
}

/// The balancing engine of one proxy instance.
pub struct Balancer {
    /// Endpoints of the latest snapshot, selectable for new connections.
    pub live: Vec<Endpoint>,
    /// Endpoints absent from the latest snapshot that still carry traffic;
    /// never selected, dropped once idle.
    pub retired: Vec<Endpoint>,
    /// Tokens of accepted inbound sockets awaiting dispatch, oldest first.
    pub waiters: Vec<u64>,
    /// Admission bound on the waiter queue.
    pub max_waiters: usize,
    /// Failure streak at which an endpoint starts being penalized.
    pub fail_limit: usize,
    /// How long after its last failure a penalized endpoint is skipped.
    pub fail_penalty_ms: u64,
    /// The pre-warming floor for per-endpoint load.
    pub min_connections: usize,
    /// Inbound sockets closed at admission because the queue was full.
    pub rejected: Counter,
    /// How many endpoints the balancer holds, live and retired; recorded
    /// on every snapshot and on every eviction, so retirement and the
    /// eventual drop of an idle endpoint are both observable.
    pub endpoints_gauge: Gauge,
    /// Connect-to-close durations of finished connections.
    pub conn_duration: Timer,
}

impl Balancer {
    /// Everything the balancer's methods preserve: distinct addresses over
    /// the live and retired pools together, endpoints within range, and the
    /// waiter queue within its bound.
    pub open spec fn wf(self) -> bool {
        &&& distinct_endpoints(self.live@ + self.retired@)
        &&& forall|i: int| 0 <= i < self.live@.len() ==> ep_ok(#[trigger] self.live@[i])
        &&& forall|i: int| 0 <= i < self.retired@.len() ==> ep_ok(#[trigger] self.retired@[i])
        &&& self.waiters@.len() <= self.max_waiters
    }

    pub fn new(max_waiters: usize, fail_limit: usize, fail_penalty_ms: u64, min_connections: usize)
        -> (r: Balancer)
        ensures
            r.wf(),
            r.live@.len() == 0,
            r.retired@.len() == 0,
            r.waiters@.len() == 0,
            r.max_waiters == max_waiters,
            r.fail_limit == fail_limit,
            r.fail_penalty_ms == fail_penalty_ms,
            r.min_connections == min_connections,
            r.rejected.value == 0,
            r.endpoints_gauge.value == 0,
    {
        Balancer {
            live: Vec::new(),
            retired: Vec::new(),
            waiters: Vec::new(),
            max_waiters,
            fail_limit,
            fail_penalty_ms,
            min_connections,
            rejected: Counter::new(),
            endpoints_gauge: Gauge::new(),
            conn_duration: Timer::new(),
        }
    }
}

/// The index of the first endpoint of `v` with address `a`, if any.
fn find_addr(v: &Vec<Endpoint>, a: Addr) -> (r: Option<usize>)
    ensures
        r matches Some(i) ==> i < v@.len() && v@[i as int].peer_addr == a,
        r is None ==> !has_addr(v@, a),
{
    let mut i: usize = 0;
    while i < v.len()
        invariant
            0 <= i <= v@.len(),
            forall|j: int| 0 <= j < i ==> v@[j].peer_addr != a,
        decreases v@.len() - i,
    {
        if v[i].peer_addr() == a {
            return Some(i);
        }
        i = i + 1;
    }
    None
}

/// Whether the snapshot carries address `a`.
fn snapshot_contains(snap: &Vec<WeightedAddr>, a: Addr) -> (r: bool)
    ensures
        r == snapshot_has(snap@, a),
{
    let mut i: usize = 0;
    while i < snap.len()
        invariant
            0 <= i <= snap@.len(),
            forall|j: int| 0 <= j < i ==> snap@[j].addr != a,
        decreases snap@.len() - i,
    {
        if snap[i].addr == a {
            return true;
        }
        i = i + 1;
    }
    false
}

impl Balancer {
    /// Records on the gauge how many endpoints are held, live and retired.
    fn record_endpoint_gauge(&mut self)
        ensures
            final(self).endpoints_gauge.value == endpoint_count(*old(self)),
            final(self).live == old(self).live,
            final(self).retired == old(self).retired,
            final(self).waiters == old(self).waiters,
            same_config(*old(self), *final(self)),
            final(self).rejected == old(self).rejected,
            final(self).conn_duration == old(self).conn_duration,
    {
        let lv = self.live.len() as u64;
        let rv = self.retired.len() as u64;
        let count = if lv <= u64::MAX - rv {
            lv + rv
        } else {
            u64::MAX
        };
        self.endpoints_gauge.set(count);
    }

    /// Applies one resolver snapshot to the pool.
    ///
    /// Afterwards the live pool mirrors the snapshot entry for entry: an
    /// endpoint that was already held — live or retired — keeps its
    /// counters and takes the snapshot's weight; a new address starts with
    /// zeroed counters. Endpoints absent from the snapshot are kept in the
    /// retired pool exactly while they still carry traffic, and are
    /// dropped once idle. The endpoint-count gauge records how many
    /// endpoints are now held, live and retired together.
    pub fn apply_update(&mut self, snap: &Vec<WeightedAddr>)
        requires
            old(self).wf(),
            distinct_snapshot(snap@),
            forall|i: int| 0 <= i < snap@.len() ==> (#[trigger] snap@[i]).weight <= UNIT_WEIGHT,
        ensures
            final(self).wf(),
            final(self).live@.len() == snap@.len(),
            // The snapshot's addresses and weights, in its order.
            forall|k: int| 0 <= k < snap@.len()
                ==> (#[trigger] final(self).live@[k]).peer_addr == snap@[k].addr
                    && final(self).live@[k].weight == snap@[k].weight,
            // Counters are preserved for endpoints that remain present,
            // and start at zero for new ones.
            forall|k: int| 0 <= k < snap@.len()
                ==> (#[trigger] final(self).live@[k]).state == ({
                    let all = old(self).live@ + old(self).retired@;
                    if has_addr(all, snap@[k].addr) {
                        all[index_of_addr(all, snap@[k].addr)].state
                    } else {
                        State::zero_spec()
                    }
                }),
            // The retired pool holds exactly the formerly held endpoints
            // that the snapshot dropped while they still carry traffic.
            forall|j: int| 0 <= j < final(self).retired@.len()
                ==> retained(snap@, #[trigger] final(self).retired@[j])
                    && (old(self).live@ + old(self).retired@).contains(final(self).retired@[j]),
            forall|i: int| 0 <= i < (old(self).live@ + old(self).retired@).len()
                ==> retained(snap@, #[trigger] (old(self).live@ + old(self).retired@)[i])
                    ==> final(self).retired@.contains((old(self).live@ + old(self).retired@)[i]),
            final(self).endpoints_gauge.value == endpoint_count(*final(self)),
            final(self).waiters == old(self).waiters,
            final(self).max_waiters == old(self).max_waiters,
            final(self).fail_limit == old(self).fail_limit,
            final(self).fail_penalty_ms == old(self).fail_penalty_ms,
            final(self).min_connections == old(self).min_connections,
            final(self).rejected == old(self).rejected,
    {
        let ghost all = self.live@ + self.retired@;
        let n_live = self.live.len();

        // Build the new live pool snapshot entry by snapshot entry,
        // carrying counters over from the current pools.
        let mut new_live: Vec<Endpoint> = Vec::new();
        let mut k: usize = 0;
        while k < snap.len()
            invariant
                0 <= k <= snap@.len(),
                all == self.live@ + self.retired@,
                n_live == self.live@.len(),
                distinct_endpoints(all),
                forall|i: int| 0 <= i < all.len() ==> ep_ok(#[trigger] all[i]),
                forall|i: int| 0 <= i < snap@.len() ==> (#[trigger] snap@[i]).weight <= UNIT_WEIGHT,
                new_live@.len() == k,
                forall|j: int| 0 <= j < k
                    ==> (#[trigger] new_live@[j]).peer_addr == snap@[j].addr
                        && new_live@[j].weight == snap@[j].weight,
                forall|j: int| 0 <= j < k
                    ==> (#[trigger] new_live@[j]).state == (if has_addr(all, snap@[j].addr) {
                        all[index_of_addr(all, snap@[j].addr)].state
                    } else {
                        State::zero_spec()
                    }),
            decreases snap@.len() - k,
        {
            let a = snap[k].addr;
            let w = snap[k].weight;
            let e = match find_addr(&self.live, a) {
                Some(i) => {
                    proof {
                        assert(all[i as int] == self.live@[i as int]);
                        lemma_unique_index(all, a, i as int);
                    }
                    Endpoint::with_state(a, w, *self.live[i].state())
                },
                None => {
                    match find_addr(&self.retired, a) {
                        Some(i) => {
                            proof {
                                assert(all[n_live + i] == self.retired@[i as int]);
                                lemma_unique_index(all, a, n_live + i);
                            }
                            Endpoint::with_state(a, w, *self.retired[i].state())
                        },
                        None => {
                            proof {
                                assert(!has_addr(all, a)) by {
                                    if has_addr(all, a) {
                                        let i = choose|i: int|
                                            0 <= i < all.len() && all[i].peer_addr == a;
                                        if i < n_live {
                                            assert(self.live@[i].peer_addr == a);
                                        } else {
                                            assert(self.retired@[i - n_live].peer_addr == a);
                                        }
                                    }
                                }
                            }
                            Endpoint::new(a, w)
                        },
                    }
                },
            };
            new_live.push(e);
            k = k + 1;
        }

        // Keep the endpoints the snapshot dropped only while they still
        // carry traffic: first from the live pool, then from the retired
        // pool, so every survivor comes from a distinct source index.
        let mut new_retired: Vec<Endpoint> = Vec::new();
        let ghost mut src: Seq<int> = Seq::empty();
        let mut i: usize = 0;
        while i < n_live
            invariant
                0 <= i <= n_live,
                all == self.live@ + self.retired@,
                n_live == self.live@.len(),
                forall|i0: int| 0 <= i0 < all.len() ==> ep_ok(#[trigger] all[i0]),
                src.len() == new_retired@.len(),
                forall|j: int| 0 <= j < src.len()
                    ==> 0 <= #[trigger] src[j] < i && all[src[j]] == new_retired@[j],
                forall|j1: int, j2: int| 0 <= j1 < j2 < src.len() ==> src[j1] < src[j2],
                forall|j: int| 0 <= j < new_retired@.len()
                    ==> retained(snap@, #[trigger] new_retired@[j]),
                forall|i0: int| 0 <= i0 < i ==> retained(snap@, #[trigger] all[i0])
                    ==> new_retired@.contains(all[i0]),
            decreases n_live - i,
        {
            let e = self.live[i];
            let ghost prev = new_retired@;
            proof {
                assert(all[i as int] == e);
            }
            let keep = !snapshot_contains(snap, e.peer_addr()) && e.load() > 0;
            if keep {
                new_retired.push(e);
                proof {
                    src = src.push(i as int);
                    assert(new_retired@.last() == all[i as int]);
                }
            }
            proof {
                assert forall|i0: int| 0 <= i0 < i + 1 && retained(snap@, all[i0])
                    implies new_retired@.contains(all[i0]) by {
                    if i0 < i {
                        let j = choose|j: int| 0 <= j < prev.len() && prev[j] == all[i0];
                        assert(new_retired@[j] == all[i0]);
                    } else {
                        assert(keep);
                        assert(new_retired@.last() == all[i0]);
                    }
                }
            }
            i = i + 1;
        }
        let n_retired = self.retired.len();
        let mut i: usize = 0;
        while i < n_retired
            invariant
                0 <= i <= n_retired,
                all == self.live@ + self.retired@,
                n_live == self.live@.len(),
                n_retired == self.retired@.len(),
                forall|i0: int| 0 <= i0 < all.len() ==> ep_ok(#[trigger] all[i0]),
                src.len() == new_retired@.len(),
                forall|j: int| 0 <= j < src.len()
                    ==> 0 <= #[trigger] src[j] < n_live + i && all[src[j]] == new_retired@[j],
                forall|j1: int, j2: int| 0 <= j1 < j2 < src.len() ==> src[j1] < src[j2],
                forall|j: int| 0 <= j < new_retired@.len()
                    ==> retained(snap@, #[trigger] new_retired@[j]),
                forall|i0: int| 0 <= i0 < n_live + i ==> retained(snap@, #[trigger] all[i0])
                    ==> new_retired@.contains(all[i0]),
            decreases n_retired - i,
        {
            let e = self.retired[i];
            let ghost prev = new_retired@;
            proof {
                assert(all[n_live + i] == e);
            }
            let keep = !snapshot_contains(snap, e.peer_addr()) && e.load() > 0;
            if keep {
                new_retired.push(e);
                proof {
                    src = src.push(n_live + i);
                    assert(new_retired@.last() == all[n_live + i]);
                }
            }
            proof {
                assert forall|i0: int| 0 <= i0 < n_live + i + 1 && retained(snap@, all[i0])
                    implies new_retired@.contains(all[i0]) by {
                    if i0 < n_live + i {
                        let j = choose|j: int| 0 <= j < prev.len() && prev[j] == all[i0];
                        assert(new_retired@[j] == all[i0]);
                    } else {
                        assert(keep);
                        assert(new_retired@.last() == all[i0]);
                    }
                }
            }
            i = i + 1;
        }

        self.live = new_live;
        self.retired = new_retired;
        self.record_endpoint_gauge();

        proof {
            // Distinctness of the new pools: live mirrors the distinct
            // snapshot; survivors come from distinct sources of a distinct
            // pool; and no survivor's address is in the snapshot.
            let fl = self.live@;
            let fr = self.retired@;
            assert forall|j: int| 0 <= j < fr.len() implies all.contains(#[trigger] fr[j]) by {
                assert(all[src[j]] == fr[j]);
            }
            assert forall|k1: int| 0 <= k1 < fl.len() implies ep_ok(#[trigger] fl[k1]) by {
                if has_addr(all, snap@[k1].addr) {
                    assert(ep_ok(all[index_of_addr(all, snap@[k1].addr)]));
                }
            }
            assert forall|j: int| 0 <= j < fr.len() implies ep_ok(#[trigger] fr[j]) by {
                assert(all[src[j]] == fr[j]);
            }
            assert forall|i1: int, j1: int| 0 <= i1 < j1 < (fl + fr).len()
                implies (fl + fr)[i1].peer_addr != (fl + fr)[j1].peer_addr by {
                if j1 < fl.len() {
                    assert(fl[i1].peer_addr == snap@[i1].addr);
                    assert(fl[j1].peer_addr == snap@[j1].addr);
                } else if i1 >= fl.len() {
                    let s1 = src[i1 - fl.len()];
                    let s2 = src[j1 - fl.len()];
                    assert(all[s1] == fr[i1 - fl.len()]);
                    assert(all[s2] == fr[j1 - fl.len()]);
                    assert(s1 < s2);
                } else {
                    assert(fl[i1].peer_addr == snap@[i1].addr);
                    assert(retained(snap@, fr[j1 - fl.len()]));
                    assert(!snapshot_has(snap@, fr[j1 - fl.len()].peer_addr));
                }
            }
        }
    }
}

/// With distinct addresses, any index whose endpoint carries address `a`
/// is the one `index_of_addr` names.
proof fn lemma_unique_index(s: Seq<Endpoint>, a: Addr, i: int)
    requires
        distinct_endpoints(s),
        0 <= i < s.len(),
        s[i].peer_addr == a,
    ensures
        has_addr(s, a),
        index_of_addr(s, a) == i,
{
    assert(has_addr(s, a));
    let j = index_of_addr(s, a);
    if j != i {
        if j < i {
            assert(s[j].peer_addr != s[i].peer_addr);
        } else {
            assert(s[i].peer_addr != s[j].peer_addr);
        }
    }
}

/// Relies on rand::Rng::gen_range over the thread-local generator: a
/// uniformly distributed index below `n`.
#[verifier::external_body]
fn rand_below(n: usize) -> (r: usize)
    requires
        n > 0,
    ensures
        r < n,
{
    rand::Rng::gen_range(&mut rand::thread_rng(), 0..n)
}

/// Which of two endpoints the comparison prefers. An endpoint inside its
/// failure penalty loses to one outside it; otherwise the lower cost
/// `load / weight` wins, compared without division by cross-multiplying;
/// ties go to the shorter failure streak, then to the first argument.
pub open spec fn prefers(a: Endpoint, b: Endpoint, now_ms: u64, limit: usize, penalty_ms: u64) -> bool {
    let ca = a.state.load_spec() * b.weight;
    let cb = b.state.load_spec() * a.weight;
    if penalized(a, now_ms, limit, penalty_ms) != penalized(b, now_ms, limit, penalty_ms) {
        !penalized(a, now_ms, limit, penalty_ms)
    } else {
        ca < cb || (ca == cb && a.state.consecutive_failures <= b.state.consecutive_failures)
    }
}

/// Whether an endpoint is inside its failure penalty at `now_ms`: its
/// failure streak has reached the limit and its last failure is less than
/// the penalty window ago.
pub open spec fn penalized(e: Endpoint, now_ms: u64, limit: usize, penalty_ms: u64) -> bool {
    &&& e.state.consecutive_failures >= limit
    &&& match e.state.last_failure_ms {
        Some(t) => now_ms < t || now_ms - t < penalty_ms,
        None => false,
    }
}

/// `a` beats `b` whichever way the pair is drawn: on penalty, cost or
/// failure streak, not merely on draw order.
pub open spec fn strictly_prefers(
    a: Endpoint,
    b: Endpoint,
    now_ms: u64,
    limit: usize,
    penalty_ms: u64,
) -> bool {
    &&& prefers(a, b, now_ms, limit, penalty_ms)
    &&& !prefers(b, a, now_ms, limit, penalty_ms)
}

/// The endpoints at `i` and `j` are the only eligible ones of the pool.
pub open spec fn only_eligible_pair(s: Seq<Endpoint>, i: int, j: int) -> bool {
    &&& 0 <= i < j < s.len()
    &&& eligible(s[i])
    &&& eligible(s[j])
    &&& forall|k: int| 0 <= k < s.len() && eligible(#[trigger] s[k]) ==> k == i || k == j
}

impl Balancer {
    /// The better of two live endpoints under the penalty-aware cost
    /// metric.
    fn pick(&self, i: usize, j: usize, now_ms: u64) -> (r: usize)
        requires
            self.wf(),
            i < self.live@.len(),
            j < self.live@.len(),
        ensures
            r == if prefers(self.live@[i as int], self.live@[j as int], now_ms,
                self.fail_limit, self.fail_penalty_ms) { i } else { j },
    {
        let pa = self.is_penalized(i, now_ms);
        let pb = self.is_penalized(j, now_ms);
        if pa != pb {
            return if pa { j } else { i };
        }
        let a = &self.live[i];
        let b = &self.live[j];
        proof {
            assert(ep_ok(self.live@[i as int]));
            assert(ep_ok(self.live@[j as int]));
        }
        let la = a.load();
        let lb = b.load();
        proof {
            assert((la as int) * (b.weight as int) <= (u64::MAX as int) * (UNIT_WEIGHT as int))
                by (nonlinear_arith)
                requires
                    la <= u64::MAX as int,
                    b.weight <= UNIT_WEIGHT,
                    0 <= la,
                    0 <= b.weight;
            assert((lb as int) * (a.weight as int) <= (u64::MAX as int) * (UNIT_WEIGHT as int))
                by (nonlinear_arith)
                requires
                    lb <= u64::MAX as int,
                    a.weight <= UNIT_WEIGHT,
                    0 <= lb,
                    0 <= a.weight;
        }
        let ca = (la as u128) * (b.weight() as u128);
        let cb = (lb as u128) * (a.weight() as u128);
        if ca < cb {
            i
        } else if ca == cb && a.state().consecutive_failures <= b.state().consecutive_failures {
            i
        } else {
            j
        }
    }

    /// Whether the live endpoint at `i` is inside its failure penalty.
    fn is_penalized(&self, i: usize, now_ms: u64) -> (r: bool)
        requires
            self.wf(),
            i < self.live@.len(),
        ensures
            r == penalized(self.live@[i as int], now_ms, self.fail_limit, self.fail_penalty_ms),
    {
        let st = self.live[i].state();
        match st.last_failure_ms {
            None => false,
            Some(t) => st.consecutive_failures >= self.fail_limit
                && (now_ms < t || now_ms - t < self.fail_penalty_ms),
        }
    }

    /// One weighted power-of-two draw among the eligible indices: with one
    /// candidate, that one; otherwise the preferred of two distinct
    /// uniformly drawn candidates.
    fn draw(&self, cands: &Vec<usize>, now_ms: u64) -> (r: usize)
        requires
            self.wf(),
            cands@.len() > 0,
            forall|j: int| 0 <= j < cands@.len()
                ==> (#[trigger] cands@[j]) < self.live@.len()
                    && eligible(self.live@[cands@[j] as int]),
        ensures
            cands@.contains(r),
            cands@.len() == 2 && strictly_prefers(
                self.live@[cands@[0] as int],
                self.live@[cands@[1] as int],
                now_ms,
                self.fail_limit,
                self.fail_penalty_ms,
            ) ==> r == cands@[0],
            cands@.len() == 2 && strictly_prefers(
                self.live@[cands@[1] as int],
                self.live@[cands@[0] as int],
                now_ms,
                self.fail_limit,
                self.fail_penalty_ms,
            ) ==> r == cands@[1],
    {
        let c = cands.len();
        if c == 1 {
            let r = cands[0];
            proof {
                assert(cands@[0] == r);
            }
            r
        } else {
            let pi = rand_below(c);
            let pj0 = rand_below(c - 1);
            let pj = if pj0 >= pi { pj0 + 1 } else { pj0 };
            let r = self.pick(cands[pi], cands[pj], now_ms);
            proof {
                if r == cands@[pi as int] {
                    assert(cands@.contains(r));
                } else {
                    assert(cands@[pj as int] == r);
                }
                // With exactly two candidates the pair is always both of
                // them, so a strict preference decides the draw.
                if c == 2 {
                    assert(pi == 0 || pi == 1);
                    assert(pj0 == 0);
                    assert(pi == 0 ==> pj == 1);
                    assert(pi == 1 ==> pj == 0);
                }
            }
            r
        }
    }

    /// Chooses a live endpoint for the next connection: power-of-two
    /// choices by cost over the eligible endpoints, skipping penalized
    /// winners for up to `fail_limit` redraws.
    ///
    /// `None` exactly when no live endpoint is eligible. With a single
    /// eligible endpoint the choice is deterministic: that endpoint,
    /// whatever the random draws. With exactly two eligible endpoints the
    /// choice is deterministic too whenever one strictly beats the other —
    /// on penalty, cost or failure streak — since every pairing draws both:
    /// this is how traffic fails over to the healthy endpoint while the
    /// other sits inside its penalty window.
    pub fn select(&self, now_ms: u64) -> (r: Option<usize>)
        requires
            self.wf(),
        ensures
            r is None <==> (forall|i: int|
                0 <= i < self.live@.len() ==> !eligible(#[trigger] self.live@[i])),
            r matches Some(i) ==> i < self.live@.len() && eligible(self.live@[i as int]),
            forall|i: int|
                0 <= i < self.live@.len() && eligible(#[trigger] self.live@[i])
                    && (forall|j: int|
                        0 <= j < self.live@.len() && eligible(#[trigger] self.live@[j]) ==> j == i)
                    ==> r == Some(i as usize),
            forall|i: int, j: int|
                only_eligible_pair(self.live@, i, j) && strictly_prefers(
                    self.live@[i],
                    self.live@[j],
                    now_ms,
                    self.fail_limit,
                    self.fail_penalty_ms,
                ) ==> r == Some(i as usize),
            forall|i: int, j: int|
                only_eligible_pair(self.live@, i, j) && strictly_prefers(
                    self.live@[j],
                    self.live@[i],
                    now_ms,
                    self.fail_limit,
                    self.fail_penalty_ms,
                ) ==> r == Some(j as usize),
    {
        let n = self.live.len();
        let mut cands: Vec<usize> = Vec::new();
        let mut k: usize = 0;
        while k < n
            invariant
                0 <= k <= n,
                n == self.live@.len(),
                self.wf(),
                forall|j: int| 0 <= j < cands@.len()
                    ==> (#[trigger] cands@[j]) < k && eligible(self.live@[cands@[j] as int]),
                forall|i0: int| 0 <= i0 < k && eligible(#[trigger] self.live@[i0])
                    ==> cands@.contains(i0 as usize),
                forall|a: int, b: int| 0 <= a < b < cands@.len() ==> cands@[a] < cands@[b],
            decreases n - k,
        {
            let e = &self.live[k];
            proof {
                assert(ep_ok(self.live@[k as int]));
            }
            if e.weight() > 0 && e.load() < usize::MAX {
                let ghost prev = cands@;
                cands.push(k);
                proof {
                    assert(cands@.last() == k);
                    assert forall|i0: int| 0 <= i0 < k + 1 && eligible(#[trigger] self.live@[i0])
                        implies cands@.contains(i0 as usize) by {
                        if i0 < k {
                            let j = choose|j: int| 0 <= j < prev.len() && prev[j] == i0 as usize;
                            assert(cands@[j] == i0 as usize);
                        } else {
                            assert(cands@.last() == i0 as usize);
                        }
                    }
                    assert forall|a: int, b: int| 0 <= a < b < cands@.len()
                        implies cands@[a] < cands@[b] by {
                        if b < prev.len() {
                            assert(prev[a] < prev[b]);
                        } else {
                            assert(cands@[a] == prev[a]);
                            assert(cands@[b] == k);
                        }
                    }
                }
            }
            k = k + 1;
        }
        proof {
            // When exactly two endpoints are eligible the candidate list
            // is exactly those two indices, in order.
            assert forall|i: int, j: int| only_eligible_pair(self.live@, i, j)
                implies cands@ =~= seq![i as usize, j as usize] by {
                assert(cands@.contains(i as usize));
                assert(cands@.contains(j as usize));
                let xi = choose|x: int| 0 <= x < cands@.len() && cands@[x] == i as usize;
                let xj = choose|x: int| 0 <= x < cands@.len() && cands@[x] == j as usize;
                assert(xi != xj);
                assert forall|x: int| 0 <= x < cands@.len()
                    implies cands@[x] == i as usize || cands@[x] == j as usize by {
                    assert(eligible(self.live@[cands@[x] as int]));
                }
                if cands@.len() >= 3 {
                    assert(cands@[0] < cands@[1]);
                    assert(cands@[1] < cands@[2]);
                    assert(false);
                }
                assert(cands@.len() == 2);
                assert(cands@[0] < cands@[1]);
                assert(cands@[0] == i as usize);
                assert(cands@[1] == j as usize);
            }
        }
        if cands.len() == 0 {
            proof {
                assert forall|i: int| 0 <= i < self.live@.len()
                    implies !eligible(#[trigger] self.live@[i]) by {
                    if eligible(self.live@[i]) {
                        assert(cands@.contains(i as usize));
                    }
                }
            }
            return None;
        }

        let mut winner = self.draw(&cands, now_ms);
        let mut tries: usize = 0;
        let mut settled = false;
        #[verifier::loop_isolation(false)]
        while tries < self.fail_limit && !settled
            invariant
                cands@.contains(winner),
                forall|i: int, j: int|
                    only_eligible_pair(self.live@, i, j) && strictly_prefers(
                        self.live@[i],
                        self.live@[j],
                        now_ms,
                        self.fail_limit,
                        self.fail_penalty_ms,
                    ) ==> winner == i as usize,
                forall|i: int, j: int|
                    only_eligible_pair(self.live@, i, j) && strictly_prefers(
                        self.live@[j],
                        self.live@[i],
                        now_ms,
                        self.fail_limit,
                        self.fail_penalty_ms,
                    ) ==> winner == j as usize,
            decreases self.fail_limit - tries,
        {
            if self.is_penalized(winner, now_ms) {
                winner = self.draw(&cands, now_ms);
            } else {
                settled = true;
            }
            tries = tries + 1;
        }

        proof {
            let j = choose|j: int| 0 <= j < cands@.len() && cands@[j] == winner;
            assert(eligible(self.live@[winner as int]));
        }
        Some(winner)
    }

    /// Admits or rejects one accepted inbound socket. A full waiter queue
    /// rejects the socket — the caller closes it — and counts the
    /// rejection; otherwise the token joins the back of the queue. The
    /// queue never exceeds `max_waiters`.
    pub fn admit_waiter(&mut self, token: u64) -> (accepted: bool)
        requires
            old(self).wf(),
        ensures
            final(self).wf(),
            accepted <==> old(self).waiters@.len() < old(self).max_waiters,
            accepted ==> final(self).waiters@ == old(self).waiters@.push(token)
                && final(self).rejected == old(self).rejected,
            !accepted ==> final(self).waiters == old(self).waiters
                && (old(self).rejected.value < u64::MAX
                    ==> final(self).rejected.value == old(self).rejected.value + 1),
            final(self).waiters@.len() <= final(self).max_waiters,
            final(self).live == old(self).live,
            final(self).retired == old(self).retired,
            final(self).max_waiters == old(self).max_waiters,
            final(self).fail_limit == old(self).fail_limit,
            final(self).fail_penalty_ms == old(self).fail_penalty_ms,
            final(self).min_connections == old(self).min_connections,
            final(self).endpoints_gauge == old(self).endpoints_gauge,
            final(self).conn_duration == old(self).conn_duration,
    {
        if self.waiters.len() < self.max_waiters {
            self.waiters.push(token);
            true
        } else {
            self.rejected.incr(1);
            false
        }
    }

    /// Pairs the oldest waiter with a selected endpoint, counting the
    /// connect attempt the caller is about to start. `None` — and no
    /// change — when no waiter is queued or no endpoint is eligible.
    pub fn dispatch(&mut self, now_ms: u64) -> (r: Option<(u64, Addr)>)
        requires
            old(self).wf(),
        ensures
            final(self).wf(),
            r is None ==> *final(self) == *old(self),
            r is None ==> old(self).waiters@.len() == 0 || (forall|i: int|
                0 <= i < old(self).live@.len() ==> !eligible(#[trigger] old(self).live@[i])),
            r matches Some(p) ==> ({
                &&& old(self).waiters@.len() > 0
                &&& p.0 == old(self).waiters@[0]
                &&& final(self).waiters@
                    == old(self).waiters@.subrange(1, old(self).waiters@.len() as int)
                &&& exists|i: int|
                    0 <= i < old(self).live@.len()
                        && (#[trigger] old(self).live@[i]).peer_addr == p.1
                        && eligible(old(self).live@[i])
                        && final(self).live@ == old(self).live@.update(i, (Endpoint {
                            state: started_spec(old(self).live@[i].state),
                            ..old(self).live@[i]
                        }))
                &&& final(self).retired == old(self).retired
                &&& same_config(*old(self), *final(self))
                &&& final(self).rejected == old(self).rejected
                &&& final(self).endpoints_gauge == old(self).endpoints_gauge
                &&& final(self).conn_duration == old(self).conn_duration
            }),
    {
        if self.waiters.len() == 0 {
            return None;
        }
        match self.select(now_ms) {
            None => None,
            Some(i) => {
                let token = self.waiters.remove(0);
                let ghost old_live = self.live@;
                let mut e = self.live.remove(i);
                e.connect_started();
                let a = e.peer_addr();
                self.live.insert(i, e);
                proof {
                    assert(self.live@ =~= old_live.update(i as int, (Endpoint {
                        state: started_spec(old_live[i as int].state),
                        ..old_live[i as int]
                    })));
                    assert(self.waiters@ =~= old(self).waiters@.subrange(
                        1, old(self).waiters@.len() as int));
                    lemma_distinct_pointwise(
                        old_live + self.retired@, self.live@ + self.retired@);
                    assert forall|k: int| 0 <= k < self.live@.len()
                        implies ep_ok(#[trigger] self.live@[k]) by {
                        assert(ep_ok(old_live[k]));
                    }
                }
                Some((token, a))
            },
        }
    }
}

/// Two pools whose endpoints carry the same addresses position for
/// position are distinct together or not at all.
proof fn lemma_distinct_pointwise(s1: Seq<Endpoint>, s2: Seq<Endpoint>)
    requires
        s1.len() == s2.len(),
        forall|i: int| 0 <= i < s1.len() ==> s1[i].peer_addr == (#[trigger] s2[i]).peer_addr,
        distinct_endpoints(s1),
    ensures
        distinct_endpoints(s2),
{
    assert forall|i: int, j: int| 0 <= i < j < s2.len()
        implies s2[i].peer_addr != s2[j].peer_addr by {
        assert(s1[i].peer_addr != s1[j].peer_addr);
    }
}

/// Law: the waiter queue never exceeds the configured bound.
pub proof fn lemma_max_waiters(b: Balancer)
    requires
        b.wf(),
    ensures
        b.waiters@.len() <= b.max_waiters,
{
}


/// Dropping one retired endpoint cannot make addresses collide.
proof fn lemma_distinct_drop_retired(live: Seq<Endpoint>, retired: Seq<Endpoint>, j: int)
    requires
        distinct_endpoints(live + retired),
        0 <= j < retired.len(),
    ensures
        distinct_endpoints(live + retired.remove(j)),
{
    let before = live + retired;
    let after = live + retired.remove(j);
    assert forall|i1: int, j1: int| 0 <= i1 < j1 < after.len()
        implies after[i1].peer_addr != after[j1].peer_addr by {
        let m1 = if i1 < live.len() + j { i1 } else { i1 + 1 };
        let m2 = if j1 < live.len() + j { j1 } else { j1 + 1 };
        assert(after[i1] == before[m1]);
        assert(after[j1] == before[m2]);
    }
}

impl Balancer {
    /// The counters of the endpoint with address `addr`, live or retired.
    pub fn find_state(&self, addr: Addr) -> (r: Option<State>)
        ensures
            r matches Some(st) ==> exists|i: int|
                0 <= i < (self.live@ + self.retired@).len()
                    && (#[trigger] (self.live@ + self.retired@)[i]).peer_addr == addr
                    && (self.live@ + self.retired@)[i].state == st,
            r is None ==> !has_addr(self.live@ + self.retired@, addr),
    {
        let ghost all = self.live@ + self.retired@;
        match find_addr(&self.live, addr) {
            Some(i) => {
                proof {
                    assert(all[i as int] == self.live@[i as int]);
                }
                Some(*self.live[i].state())
            },
            None => match find_addr(&self.retired, addr) {
                Some(i) => {
                    proof {
                        assert(all[self.live@.len() + i] == self.retired@[i as int]);
                    }
                    Some(*self.retired[i].state())
                },
                None => {
                    proof {
                        assert forall|i: int| 0 <= i < all.len()
                            implies (#[trigger] all[i]).peer_addr != addr by {
                            if i < self.live@.len() {
                                assert(all[i] == self.live@[i]);
                            } else {
                                assert(all[i] == self.retired@[i - self.live@.len()]);
                            }
                        }
                    }
                    None
                },
            },
        }
    }

    /// An in-flight connect attempt to `addr` failed at `now_ms`: the
    /// pending count comes back, the failure streak grows, and the failure
    /// time is remembered for the penalty window.
    pub fn connect_failed(&mut self, addr: Addr, now_ms: u64)
        requires
            old(self).wf(),
            has_addr(old(self).live@ + old(self).retired@, addr),
            ({
                let all = old(self).live@ + old(self).retired@;
                let e = all[index_of_addr(all, addr)];
                e.state.pending_conns > 0 && e.state.consecutive_failures < usize::MAX
            }),
        ensures
            final(self).wf(),
            ({
                let all = old(self).live@ + old(self).retired@;
                let i = index_of_addr(all, addr);
                let e2 = (Endpoint { state: failed_spec(all[i].state, now_ms), ..all[i] });
                if i < old(self).live@.len() {
                    final(self).live@ == old(self).live@.update(i, e2)
                        && final(self).retired == old(self).retired
                } else {
                    final(self).retired@ == old(self).retired@.update(
                        i - old(self).live@.len(), e2) && final(self).live == old(self).live
                }
            }),
            final(self).waiters == old(self).waiters,
            same_config(*old(self), *final(self)),
            final(self).rejected == old(self).rejected,
            final(self).endpoints_gauge == old(self).endpoints_gauge,
            final(self).conn_duration == old(self).conn_duration,
    {
        let ghost all = self.live@ + self.retired@;
        let ghost old_live = self.live@;
        let ghost old_retired = self.retired@;
        match find_addr(&self.live, addr) {
            Some(i) => {
                proof {
                    assert(all[i as int] == self.live@[i as int]);
                    lemma_unique_index(all, addr, i as int);
                }
                let mut e = self.live.remove(i);
                e.connect_failed(now_ms);
                self.live.insert(i, e);
                proof {
                    assert(self.live@ =~= old_live.update(i as int, (Endpoint {
                        state: failed_spec(all[i as int].state, now_ms),
                        ..all[i as int]
                    })));
                    lemma_distinct_pointwise(all, self.live@ + self.retired@);
                    assert forall|k: int| 0 <= k < self.live@.len()
                        implies ep_ok(#[trigger] self.live@[k]) by {
                        assert(ep_ok(old_live[k]));
                    }
                }
            },
            None => match find_addr(&self.retired, addr) {
                Some(i) => {
                    proof {
                        assert(all[old_live.len() + i] == self.retired@[i as int]);
                        lemma_unique_index(all, addr, old_live.len() + i);
                    }
                    let mut e = self.retired.remove(i);
                    e.connect_failed(now_ms);
                    self.retired.insert(i, e);
                    proof {
                        assert(self.retired@ =~= old_retired.update(i as int, (Endpoint {
                            state: failed_spec(all[old_live.len() + i].state, now_ms),
                            ..all[old_live.len() + i]
                        })));
                        lemma_distinct_pointwise(all, self.live@ + self.retired@);
                        assert forall|k: int| 0 <= k < self.retired@.len()
                            implies ep_ok(#[trigger] self.retired@[k]) by {
                            assert(ep_ok(old_retired[k]));
                        }
                    }
                },
                None => {
                    proof {
                        lemma_no_addr_in_split(old_live, old_retired, addr);
                    }
                    vstd::pervasive::unreached()
                },
            },
        }
    }

    /// An in-flight connect attempt to `addr` succeeded at `now_ms`: the
    /// attempt becomes an open connection, the failure streak resets, and
    /// the returned context routes the connection's reads, writes and
    /// close back to this endpoint.
    pub fn connect_succeeded(&mut self, addr: Addr, now_ms: u64) -> (r: Ctx)
        requires
            old(self).wf(),
            has_addr(old(self).live@ + old(self).retired@, addr),
            ({
                let all = old(self).live@ + old(self).retired@;
                all[index_of_addr(all, addr)].state.pending_conns > 0
            }),
        ensures
            final(self).wf(),
            r.peer_addr == addr,
            r.start_ms == now_ms,
            ({
                let all = old(self).live@ + old(self).retired@;
                let i = index_of_addr(all, addr);
                let e2 = (Endpoint { state: succeeded_spec(all[i].state), ..all[i] });
                if i < old(self).live@.len() {
                    final(self).live@ == old(self).live@.update(i, e2)
                        && final(self).retired == old(self).retired
                } else {
                    final(self).retired@ == old(self).retired@.update(
                        i - old(self).live@.len(), e2) && final(self).live == old(self).live
                }
            }),
            final(self).waiters == old(self).waiters,
            same_config(*old(self), *final(self)),
            final(self).rejected == old(self).rejected,
            final(self).endpoints_gauge == old(self).endpoints_gauge,
            final(self).conn_duration == old(self).conn_duration,
    {
        let ghost all = self.live@ + self.retired@;
        let ghost old_live = self.live@;
        let ghost old_retired = self.retired@;
        match find_addr(&self.live, addr) {
            Some(i) => {
                proof {
                    assert(all[i as int] == self.live@[i as int]);
                    lemma_unique_index(all, addr, i as int);
                    assert(ep_ok(old_live[i as int]));
                }
                let mut e = self.live.remove(i);
                e.connect_succeeded();
                self.live.insert(i, e);
                proof {
                    assert(self.live@ =~= old_live.update(i as int, (Endpoint {
                        state: succeeded_spec(all[i as int].state),
                        ..all[i as int]
                    })));
                    lemma_distinct_pointwise(all, self.live@ + self.retired@);
                    assert forall|k: int| 0 <= k < self.live@.len()
                        implies ep_ok(#[trigger] self.live@[k]) by {
                        assert(ep_ok(old_live[k]));
                    }
                }
                Ctx::new(addr, now_ms)
            },
            None => match find_addr(&self.retired, addr) {
                Some(i) => {
                    proof {
                        assert(all[old_live.len() + i] == self.retired@[i as int]);
                        lemma_unique_index(all, addr, old_live.len() + i);
                        assert(ep_ok(old_retired[i as int]));
                    }
                    let mut e = self.retired.remove(i);
                    e.connect_succeeded();
                    self.retired.insert(i, e);
                    proof {
                        assert(self.retired@ =~= old_retired.update(i as int, (Endpoint {
                            state: succeeded_spec(all[old_live.len() + i].state),
                            ..all[old_live.len() + i]
                        })));
                        lemma_distinct_pointwise(all, self.live@ + self.retired@);
                        assert forall|k: int| 0 <= k < self.retired@.len()
                            implies ep_ok(#[trigger] self.retired@[k]) by {
                            assert(ep_ok(old_retired[k]));
                        }
                    }
                    Ctx::new(addr, now_ms)
                },
                None => {
                    proof {
                        lemma_no_addr_in_split(old_live, old_retired, addr);
                    }
                    vstd::pervasive::unreached()
                },
            },
        }
    }

    /// The connection behind `ctx` closed at `now_ms`: its endpoint's open
    /// count falls by one, the connection's duration is recorded, and a
    /// retired endpoint whose last traffic this was is dropped — with the
    /// endpoint-count gauge re-recorded, so the eviction is observable.
    pub fn connection_closed(&mut self, ctx: Ctx, now_ms: u64)
        requires
            old(self).wf(),
            now_ms >= ctx.start_ms,
            has_addr(old(self).live@ + old(self).retired@, ctx.peer_addr),
            ({
                let all = old(self).live@ + old(self).retired@;
                all[index_of_addr(all, ctx.peer_addr)].state.open_conns > 0
            }),
        ensures
            final(self).wf(),
            ({
                let all = old(self).live@ + old(self).retired@;
                let i = index_of_addr(all, ctx.peer_addr);
                let e2 = (Endpoint { state: closed_spec(all[i].state), ..all[i] });
                if i < old(self).live@.len() {
                    final(self).live@ == old(self).live@.update(i, e2)
                        && final(self).retired == old(self).retired
                } else if closed_spec(all[i].state).load_spec() == 0 {
                    final(self).retired@ == old(self).retired@.remove(i - old(self).live@.len())
                        && final(self).live == old(self).live
                } else {
                    final(self).retired@ == old(self).retired@.update(
                        i - old(self).live@.len(), e2) && final(self).live == old(self).live
                }
            }),
            final(self).waiters == old(self).waiters,
            same_config(*old(self), *final(self)),
            final(self).rejected == old(self).rejected,
            ({
                let all = old(self).live@ + old(self).retired@;
                let i = index_of_addr(all, ctx.peer_addr);
                if i >= old(self).live@.len() && closed_spec(all[i].state).load_spec() == 0 {
                    final(self).endpoints_gauge.value == endpoint_count(*final(self))
                } else {
                    final(self).endpoints_gauge == old(self).endpoints_gauge
                }
            }),
            old(self).conn_duration.count < u64::MAX
                ==> final(self).conn_duration.count == old(self).conn_duration.count + 1,
    {
        let addr = ctx.peer_addr;
        let ghost all = self.live@ + self.retired@;
        let ghost old_live = self.live@;
        let ghost old_retired = self.retired@;
        self.conn_duration.record(now_ms - ctx.start_ms);
        match find_addr(&self.live, addr) {
            Some(i) => {
                proof {
                    assert(all[i as int] == self.live@[i as int]);
                    lemma_unique_index(all, addr, i as int);
                }
                let mut e = self.live.remove(i);
                e.connection_closed();
                self.live.insert(i, e);
                proof {
                    assert(self.live@ =~= old_live.update(i as int, (Endpoint {
                        state: closed_spec(all[i as int].state),
                        ..all[i as int]
                    })));
                    lemma_distinct_pointwise(all, self.live@ + self.retired@);
                    assert forall|k: int| 0 <= k < self.live@.len()
                        implies ep_ok(#[trigger] self.live@[k]) by {
                        assert(ep_ok(old_live[k]));
                    }
                }
            },
            None => match find_addr(&self.retired, addr) {
                Some(i) => {
                    proof {
                        assert(all[old_live.len() + i] == self.retired@[i as int]);
                        lemma_unique_index(all, addr, old_live.len() + i);
                    }
                    let mut e = self.retired.remove(i);
                    e.connection_closed();
                    if e.load() == 0 {
                        // Absent from the latest snapshot and now idle:
                        // the endpoint is gone, and the gauge says so.
                        proof {
                            lemma_distinct_drop_retired(old_live, old_retired, i as int);
                            assert(self.retired@ =~= old_retired.remove(i as int));
                        }
                        self.record_endpoint_gauge();
                    } else {
                        self.retired.insert(i, e);
                        proof {
                            assert(self.retired@ =~= old_retired.update(i as int, (Endpoint {
                                state: closed_spec(all[old_live.len() + i].state),
                                ..all[old_live.len() + i]
                            })));
                            lemma_distinct_pointwise(all, self.live@ + self.retired@);
                        }
                    }
                    proof {
                        assert forall|k: int| 0 <= k < self.retired@.len()
                            implies ep_ok(#[trigger] self.retired@[k]) by {
                            if self.retired@.len() == old_retired.len() {
                                assert(ep_ok(old_retired[k]));
                            } else {
                                let m = if k < i as int { k } else { k + 1 };
                                assert(self.retired@[k] == old_retired[m]);
                                assert(ep_ok(old_retired[m]));
                            }
                        }
                    }
                },
                None => {
                    proof {
                        lemma_no_addr_in_split(old_live, old_retired, addr);
                    }
                    vstd::pervasive::unreached()
                },
            },
        }
    }
}

/// An address found in neither pool is not in their concatenation.
proof fn lemma_no_addr_in_split(live: Seq<Endpoint>, retired: Seq<Endpoint>, a: Addr)
    requires
        !has_addr(live, a),
        !has_addr(retired, a),
    ensures
        !has_addr(live + retired, a),
{
    let all = live + retired;
    assert forall|i: int| 0 <= i < all.len() implies (#[trigger] all[i]).peer_addr != a by {
        if i < live.len() {
            assert(all[i] == live[i]);
        } else {
            assert(all[i] == retired[i - live.len()]);
        }
    }
}


impl Balancer {
    /// The connection behind `ctx` read `sz` bytes from its endpoint.
    pub fn conn_read(&mut self, ctx: Ctx, sz: usize)
        requires
            old(self).wf(),
            has_addr(old(self).live@ + old(self).retired@, ctx.peer_addr),
            ({
                let all = old(self).live@ + old(self).retired@;
                all[index_of_addr(all, ctx.peer_addr)].state.rx_bytes + sz <= usize::MAX
            }),
        ensures
            final(self).wf(),
            ({
                let all = old(self).live@ + old(self).retired@;
                let i = index_of_addr(all, ctx.peer_addr);
                let e2 = (Endpoint {
                    state: (State { rx_bytes: (all[i].state.rx_bytes + sz) as usize, ..all[i].state }),
                    ..all[i]
                });
                if i < old(self).live@.len() {
                    final(self).live@ == old(self).live@.update(i, e2)
                        && final(self).retired == old(self).retired
                } else {
                    final(self).retired@ == old(self).retired@.update(
                        i - old(self).live@.len(), e2) && final(self).live == old(self).live
                }
            }),
            final(self).waiters == old(self).waiters,
            same_config(*old(self), *final(self)),
            final(self).rejected == old(self).rejected,
            final(self).endpoints_gauge == old(self).endpoints_gauge,
            final(self).conn_duration == old(self).conn_duration,
    {
        let addr = ctx.peer_addr;
        let ghost all = self.live@ + self.retired@;
        let ghost old_live = self.live@;
        let ghost old_retired = self.retired@;
        match find_addr(&self.live, addr) {
            Some(i) => {
                proof {
                    assert(all[i as int] == self.live@[i as int]);
                    lemma_unique_index(all, addr, i as int);
                }
                let mut e = self.live.remove(i);
                e.bytes_read(sz);
                self.live.insert(i, e);
                proof {
                    assert(self.live@ =~= old_live.update(i as int, (Endpoint {
                        state: (State {
                            rx_bytes: (all[i as int].state.rx_bytes + sz) as usize,
                            ..all[i as int].state
                        }),
                        ..all[i as int]
                    })));
                    lemma_distinct_pointwise(all, self.live@ + self.retired@);
                    assert forall|k: int| 0 <= k < self.live@.len()
                        implies ep_ok(#[trigger] self.live@[k]) by {
                        assert(ep_ok(old_live[k]));
                    }
                }
            },
            None => match find_addr(&self.retired, addr) {
                Some(i) => {
                    proof {
                        assert(all[old_live.len() + i] == self.retired@[i as int]);
                        lemma_unique_index(all, addr, old_live.len() + i);
                    }
                    let mut e = self.retired.remove(i);
                    e.bytes_read(sz);
                    self.retired.insert(i, e);
                    proof {
                        assert(self.retired@ =~= old_retired.update(i as int, (Endpoint {
                            state: (State {
                                rx_bytes: (all[old_live.len() + i].state.rx_bytes + sz) as usize,
                                ..all[old_live.len() + i].state
                            }),
                            ..all[old_live.len() + i]
                        })));
                        lemma_distinct_pointwise(all, self.live@ + self.retired@);
                        assert forall|k: int| 0 <= k < self.retired@.len()
                            implies ep_ok(#[trigger] self.retired@[k]) by {
                            assert(ep_ok(old_retired[k]));
                        }
                    }
                },
                None => {
                    proof {
                        lemma_no_addr_in_split(old_live, old_retired, addr);
                    }
                    vstd::pervasive::unreached()
                },
            },
        }
    }

    /// The connection behind `ctx` wrote `sz` bytes to its endpoint.
    pub fn conn_wrote(&mut self, ctx: Ctx, sz: usize)
        requires
            old(self).wf(),
            has_addr(old(self).live@ + old(self).retired@, ctx.peer_addr),
            ({
                let all = old(self).live@ + old(self).retired@;
                all[index_of_addr(all, ctx.peer_addr)].state.tx_bytes + sz <= usize::MAX
            }),
        ensures
            final(self).wf(),
            ({
                let all = old(self).live@ + old(self).retired@;
                let i = index_of_addr(all, ctx.peer_addr);
                let e2 = (Endpoint {
                    state: (State { tx_bytes: (all[i].state.tx_bytes + sz) as usize, ..all[i].state }),
                    ..all[i]
                });
                if i < old(self).live@.len() {
                    final(self).live@ == old(self).live@.update(i, e2)
                        && final(self).retired == old(self).retired
                } else {
                    final(self).retired@ == old(self).retired@.update(
                        i - old(self).live@.len(), e2) && final(self).live == old(self).live
                }
            }),
            final(self).waiters == old(self).waiters,
            same_config(*old(self), *final(self)),
            final(self).rejected == old(self).rejected,
            final(self).endpoints_gauge == old(self).endpoints_gauge,
            final(self).conn_duration == old(self).conn_duration,
    {
        let addr = ctx.peer_addr;
        let ghost all = self.live@ + self.retired@;
        let ghost old_live = self.live@;
        let ghost old_retired = self.retired@;
        match find_addr(&self.live, addr) {
            Some(i) => {
                proof {
                    assert(all[i as int] == self.live@[i as int]);
                    lemma_unique_index(all, addr, i as int);
                }
                let mut e = self.live.remove(i);
                e.bytes_wrote(sz);
                self.live.insert(i, e);
                proof {
                    assert(self.live@ =~= old_live.update(i as int, (Endpoint {
                        state: (State {
                            tx_bytes: (all[i as int].state.tx_bytes + sz) as usize,
                            ..all[i as int].state
                        }),
                        ..all[i as int]
                    })));
                    lemma_distinct_pointwise(all, self.live@ + self.retired@);
                    assert forall|k: int| 0 <= k < self.live@.len()
                        implies ep_ok(#[trigger] self.live@[k]) by {
                        assert(ep_ok(old_live[k]));
                    }
                }
            },
            None => match find_addr(&self.retired, addr) {
                Some(i) => {
                    proof {
                        assert(all[old_live.len() + i] == self.retired@[i as int]);
                        lemma_unique_index(all, addr, old_live.len() + i);
                    }
                    let mut e = self.retired.remove(i);
                    e.bytes_wrote(sz);
                    self.retired.insert(i, e);
                    proof {
                        assert(self.retired@ =~= old_retired.update(i as int, (Endpoint {
                            state: (State {
                                tx_bytes: (all[old_live.len() + i].state.tx_bytes + sz) as usize,
                                ..all[old_live.len() + i].state
                            }),
                            ..all[old_live.len() + i]
                        })));
                        lemma_distinct_pointwise(all, self.live@ + self.retired@);
                        assert forall|k: int| 0 <= k < self.retired@.len()
                            implies ep_ok(#[trigger] self.retired@[k]) by {
                            assert(ep_ok(old_retired[k]));
                        }
                    }
                },
                None => {
                    proof {
                        lemma_no_addr_in_split(old_live, old_retired, addr);
                    }
                    vstd::pervasive::unreached()
                },
            },
        }
    }
}


/// Whether some live endpoint of `b` with address `a` is eligible and
/// still below the pre-warming floor.
pub open spec fn prewarm_ok(b: Balancer, a: Addr) -> bool {
    exists|i: int|
        0 <= i < b.live@.len() && (#[trigger] b.live@[i]).peer_addr == a && eligible(b.live@[i])
            && b.live@[i].state.load_spec() < b.min_connections
}

impl Balancer {
    /// The live endpoints below the pre-warming floor: those still
    /// eligible whose load has not reached `min_connections`. The caller
    /// may start proactive connects to them, counted like any attempt.
    pub fn prewarm_targets(&self) -> (r: Vec<Addr>)
        requires
            self.wf(),
        ensures
            forall|j: int| 0 <= j < r@.len() ==> prewarm_ok(*self, #[trigger] r@[j]),
            forall|i: int|
                0 <= i < self.live@.len() && eligible(#[trigger] self.live@[i])
                    && self.live@[i].state.load_spec() < self.min_connections
                    ==> r@.contains(self.live@[i].peer_addr),
    {
        let n = self.live.len();
        let mut r: Vec<Addr> = Vec::new();
        let mut k: usize = 0;
        while k < n
            invariant
                0 <= k <= n,
                n == self.live@.len(),
                self.wf(),
                forall|j: int| 0 <= j < r@.len() ==> prewarm_ok(*self, #[trigger] r@[j]),
                forall|i: int|
                    0 <= i < k && eligible(#[trigger] self.live@[i])
                        && self.live@[i].state.load_spec() < self.min_connections
                        ==> r@.contains(self.live@[i].peer_addr),
            decreases n - k,
        {
            let e = &self.live[k];
            proof {
                assert(ep_ok(self.live@[k as int]));
            }
            if e.weight() > 0 && e.load() < usize::MAX && e.load() < self.min_connections {
                let ghost prev = r@;
                r.push(e.peer_addr());
                proof {
                    assert(r@.last() == self.live@[k as int].peer_addr);
                    assert(prewarm_ok(*self, self.live@[k as int].peer_addr));
                    assert forall|j: int| 0 <= j < r@.len()
                        implies prewarm_ok(*self, #[trigger] r@[j]) by {
                        if j < prev.len() {
                            assert(r@[j] == prev[j]);
                        } else {
                            assert(r@[j] == self.live@[k as int].peer_addr);
                        }
                    }
                    assert forall|i: int| 0 <= i < k + 1 && eligible(#[trigger] self.live@[i])
                        && self.live@[i].state.load_spec() < self.min_connections
                        implies r@.contains(self.live@[i].peer_addr) by {
                        if i < k {
                            let j = choose|j: int|
                                0 <= j < prev.len() && prev[j] == self.live@[i].peer_addr;
                            assert(r@[j] == self.live@[i].peer_addr);
                        } else {
                            assert(r@.last() == self.live@[i].peer_addr);
                        }
                    }
                }
            }
            k = k + 1;
        }
        r
    }
}

/// The index of the first snapshot entry with address `a`, if any.
fn find_snap_addr(v: &Vec<WeightedAddr>, a: Addr) -> (r: Option<usize>)
    ensures
        r matches Some(i) ==> i < v@.len() && v@[i as int].addr == a,
        r is None ==> !snapshot_has(v@, a),
{
    let mut i: usize = 0;
    while i < v.len()
        invariant
            0 <= i <= v@.len(),
            forall|j: int| 0 <= j < i ==> v@[j].addr != a,
        decreases v@.len() - i,
    {
        if v[i].addr == a {
            return Some(i);
        }
        i = i + 1;
    }
    None
}

/// Of the entries of `s` with address `a`, the last one; meaningful when
/// one exists.
pub open spec fn last_entry(s: Seq<WeightedAddr>, a: Addr) -> WeightedAddr
    decreases s.len(),
{
    if s.len() == 0 {
        arbitrary()
    } else if s.last().addr == a {
        s.last()
    } else {
        last_entry(s.drop_last(), a)
    }
}

proof fn lemma_last_entry_take_step(s: Seq<WeightedAddr>, a: Addr, i: int)
    requires
        0 <= i < s.len(),
    ensures
        last_entry(s.take(i + 1), a) == (if s[i].addr == a {
            s[i]
        } else {
            last_entry(s.take(i), a)
        }),
{
    assert(s.take(i + 1).drop_last() =~= s.take(i));
    assert(s.take(i + 1).last() == s[i]);
}

/// Keys a snapshot by address, as applying it does: of entries that share
/// an address, the later one wins. Every entry of the result is the last
/// input entry with its address, no address of the input is lost, and the
/// result's addresses are distinct — what `apply_update` asks of its
/// snapshot.
pub fn dedupe_by_addr(snap: &Vec<WeightedAddr>) -> (r: Vec<WeightedAddr>)
    ensures
        distinct_snapshot(r@),
        forall|j: int| 0 <= j < r@.len() ==> snap@.contains(#[trigger] r@[j]),
        forall|j: int| 0 <= j < r@.len() ==> #[trigger] r@[j] == last_entry(snap@, r@[j].addr),
        forall|i: int| 0 <= i < snap@.len() ==> snapshot_has(r@, (#[trigger] snap@[i]).addr),
{
    let n = snap.len();
    let mut out: Vec<WeightedAddr> = Vec::new();
    let mut i: usize = 0;
    while i < n
        invariant
            0 <= i <= n,
            n == snap@.len(),
            distinct_snapshot(out@),
            forall|j: int| 0 <= j < out@.len() ==> snap@.contains(#[trigger] out@[j]),
            forall|j: int| 0 <= j < out@.len()
                ==> #[trigger] out@[j] == last_entry(snap@.take(i as int), out@[j].addr),
            forall|i0: int| 0 <= i0 < i ==> snapshot_has(out@, (#[trigger] snap@[i0]).addr),
        decreases n - i,
    {
        let entry = snap[i];
        proof {
            assert(snap@[i as int] == entry);
            assert(snap@.contains(entry));
        }
        let ghost prev = out@;
        match find_snap_addr(&out, entry.addr) {
            Some(j) => {
                let removed = out.remove(j);
                out.insert(j, entry);
                proof {
                    assert(out@ =~= prev.update(j as int, entry));
                    assert(removed.addr == entry.addr);
                    assert forall|j1: int| 0 <= j1 < out@.len()
                        implies #[trigger] out@[j1] == last_entry(
                        snap@.take(i as int + 1),
                        out@[j1].addr,
                    ) by {
                        lemma_last_entry_take_step(snap@, out@[j1].addr, i as int);
                        if j1 != j as int {
                            assert(out@[j1] == prev[j1]);
                            assert(prev[j as int].addr == entry.addr);
                            assert(prev[j1].addr != entry.addr);
                        }
                    }
                    assert forall|j1: int, j2: int| 0 <= j1 < j2 < out@.len()
                        implies out@[j1].addr != out@[j2].addr by {
                        assert(prev[j1].addr == out@[j1].addr);
                        assert(prev[j2].addr == out@[j2].addr);
                    }
                    assert forall|i0: int| 0 <= i0 < i + 1
                        implies snapshot_has(out@, (#[trigger] snap@[i0]).addr) by {
                        let w = choose|w: int| 0 <= w < prev.len()
                            && prev[w].addr == snap@[i0].addr;
                        if i0 < i {
                            assert(out@[w].addr == snap@[i0].addr);
                        } else {
                            assert(out@[j as int].addr == snap@[i0].addr);
                        }
                    }
                }
            },
            None => {
                out.push(entry);
                proof {
                    assert(out@.last() == entry);
                    assert forall|j1: int| 0 <= j1 < out@.len()
                        implies #[trigger] out@[j1] == last_entry(
                        snap@.take(i as int + 1),
                        out@[j1].addr,
                    ) by {
                        lemma_last_entry_take_step(snap@, out@[j1].addr, i as int);
                        if j1 < prev.len() {
                            assert(out@[j1] == prev[j1]);
                            assert(prev[j1].addr != entry.addr);
                        }
                    }
                    assert forall|j1: int, j2: int| 0 <= j1 < j2 < out@.len()
                        implies out@[j1].addr != out@[j2].addr by {
                        if j2 < prev.len() {
                            assert(prev[j1].addr != prev[j2].addr);
                        } else {
                            assert(out@[j1] == prev[j1]);
                        }
                    }
                    assert forall|i0: int| 0 <= i0 < i + 1
                        implies snapshot_has(out@, (#[trigger] snap@[i0]).addr) by {
                        if i0 < i {
                            let w = choose|w: int| 0 <= w < prev.len()
                                && prev[w].addr == snap@[i0].addr;
                            assert(out@[w].addr == snap@[i0].addr);
                        } else {
                            assert(out@.last().addr == snap@[i0].addr);
                        }
                    }
                }
            },
        }
        i = i + 1;
    }
    proof {
        assert(snap@.take(n as int) =~= snap@);
    }
    out
}


} // verus!
