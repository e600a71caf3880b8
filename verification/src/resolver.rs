//! Resolver snapshots: normalizing the naming service's answers and the
//! polling state machine that produces a stream of snapshots.
//!
//! The embedding program performs the HTTP request and the JSON decoding;
//! it hands this module the response status, the decoded address records,
//! and timer events, and this module decides what each of them means.

use vstd::prelude::*;
use vstd::arithmetic::div_mod::{lemma_fundamental_div_mod, lemma_mod_bound};
use vstd::string::StringExecFns;
use crate::{Addr, WeightedAddr, UNIT_WEIGHT};
use crate::metrics::{Counter, Timer};

verus! {

/// Why a resolution cycle produced no address set.
#[derive(Clone, Copy, PartialEq, Eq, Structural, Debug)]
pub enum Error {
    /// The HTTP exchange itself failed.
    Transport,
    /// The naming service answered with a status other than 200.
    UnexpectedStatus(u16),
    /// The response parsed but its type was not "bound".
    NotBound,
    /// The response body was not well-formed.
    Parse,
    /// The interval timer failed; the resolver cannot continue.
    Timer,
}

/// One address record of a naming-service response, already decoded:
/// the IP and port, and the advertised weight in `UNIT_WEIGHT` units,
/// absent when the record carried none.
#[derive(Clone, Copy, PartialEq, Eq, Structural, Debug)]
pub struct NamerdAddr {
    pub ip: u128,
    pub port: u16,
    pub weight: Option<u64>,
}

/// The raw weight of a record: an absent weight defaults to 1.0.
pub open spec fn raw_weight(a: NamerdAddr) -> u64 {
    match a.weight {
        Some(w) => w,
        None => UNIT_WEIGHT,
    }
}

/// The sum of the raw weights of a sequence of records.
pub open spec fn total_raw(s: Seq<NamerdAddr>) -> int
    decreases s.len(),
{
    if s.len() == 0 {
        0
    } else {
        total_raw(s.drop_last()) + raw_weight(s.last())
    }
}

/// The sum of the normalized weights of a sequence of weighted addresses.
pub open spec fn sum_weights(s: Seq<WeightedAddr>) -> int
    decreases s.len(),
{
    if s.len() == 0 {
        0
    } else {
        sum_weights(s.drop_last()) + s.last().weight
    }
}

proof fn lemma_total_raw_nonneg(s: Seq<NamerdAddr>)
    ensures
        total_raw(s) >= 0,
    decreases s.len(),
{
    if s.len() > 0 {
        lemma_total_raw_nonneg(s.drop_last());
    }
}

proof fn lemma_total_raw_take_step(s: Seq<NamerdAddr>, i: int)
    requires
        0 <= i < s.len(),
    ensures
        total_raw(s.take(i + 1)) == total_raw(s.take(i)) + raw_weight(s[i]),
{
    assert(s.take(i + 1).drop_last() =~= s.take(i));
    assert(s.take(i + 1).last() == s[i]);
}

proof fn lemma_total_raw_take_le(s: Seq<NamerdAddr>, i: int)
    requires
        0 <= i <= s.len(),
    ensures
        total_raw(s.take(i)) <= total_raw(s),
    decreases s.len() - i,
{
    if i == s.len() {
        assert(s.take(i) =~= s);
    } else {
        lemma_total_raw_take_step(s, i);
        lemma_total_raw_take_le(s, i + 1);
    }
}

/// What it means for `out` to be the normalization of `input`: the same
/// addresses in the same order; when the total raw weight is positive,
/// every record but the last carries `floor(raw * UNIT_WEIGHT / total)`
/// and the last takes up the slack so the weights sum to exactly
/// `UNIT_WEIGHT`; when the total is zero, every weight is zero.
pub open spec fn normalized_of(input: Seq<NamerdAddr>, out: Seq<WeightedAddr>) -> bool {
    let total = total_raw(input);
    &&& out.len() == input.len()
    &&& forall|i: int|
        0 <= i < out.len() ==> out[i].addr == (Addr { ip: input[i].ip, port: input[i].port })
    &&& forall|i: int| 0 <= i < out.len() ==> out[i].weight <= UNIT_WEIGHT
    &&& (total == 0 ==> forall|i: int| 0 <= i < out.len() ==> out[i].weight == 0)
    &&& (total > 0 ==> forall|i: int|
        0 <= i < out.len() - 1 ==> out[i].weight == raw_weight(input[i]) * UNIT_WEIGHT / total)
    &&& (total > 0 && out.len() > 0 ==> out.last().weight
        == UNIT_WEIGHT - sum_weights(out.drop_last()))
    &&& (total > 0 ==> sum_weights(out) == UNIT_WEIGHT)
}

/// Normalizes the weights of a resolved address set.
///
/// Weights are scaled so that they keep their proportions and sum to
/// exactly `UNIT_WEIGHT` (that is, 1.0) whenever any raw weight is
/// positive; rounding slack lands on the final record. A set whose raw
/// weights are all zero comes back with every weight zero.
pub fn to_weighted_addrs(addrs: &Vec<NamerdAddr>) -> (r: Vec<WeightedAddr>)
    ensures
        normalized_of(addrs@, r@),
{
    let n = addrs.len();

    // First pass: the total raw weight.
    let mut total: u128 = 0;
    let mut i: usize = 0;
    while i < n
        invariant
            0 <= i <= n,
            n == addrs@.len(),
            total == total_raw(addrs@.take(i as int)),
            total <= i * (u64::MAX as u128),
        decreases n - i,
    {
        let w: u64 = match addrs[i].weight {
            Some(w) => w,
            None => UNIT_WEIGHT,
        };
        proof {
            lemma_total_raw_take_step(addrs@, i as int);
            assert(total + w <= (i as int + 1) * (u64::MAX as int)) by (nonlinear_arith)
                requires
                    total <= (i as int) * (u64::MAX as int),
                    w <= u64::MAX as int;
            assert((i as int + 1) * (u64::MAX as int) <= u128::MAX as int) by (nonlinear_arith)
                requires
                    0 <= i as int,
                    i as int + 1 <= u64::MAX as int;
        }
        total = total + (w as u128);
        i = i + 1;
    }
    proof {
        assert(addrs@.take(n as int) =~= addrs@);
    }

    let mut out: Vec<WeightedAddr> = Vec::new();

    if total == 0 {
        let mut i: usize = 0;
        while i < n
            invariant
                0 <= i <= n,
                n == addrs@.len(),
                out@.len() == i,
                forall|j: int|
                    0 <= j < i ==> out@[j].addr == (Addr { ip: addrs@[j].ip, port: addrs@[j].port }),
                forall|j: int| 0 <= j < i ==> out@[j].weight == 0,
            decreases n - i,
        {
            out.push(WeightedAddr { addr: Addr { ip: addrs[i].ip, port: addrs[i].port }, weight: 0 });
            i = i + 1;
        }
        return out;
    }

    // A positive total means at least one record exists.
    proof {
        if addrs@.len() == 0 {
            assert(total_raw(addrs@) == 0);
        }
    }

    // Second pass: every record but the last gets the floored share.
    let mut acc: u64 = 0;
    let mut i: usize = 0;
    while i + 1 < n
        invariant
            0 <= i < n,
            n == addrs@.len(),
            0 < total == total_raw(addrs@),
            out@.len() == i,
            forall|j: int|
                0 <= j < i ==> out@[j].addr == (Addr { ip: addrs@[j].ip, port: addrs@[j].port }),
            forall|j: int|
                0 <= j < i ==> out@[j].weight == raw_weight(addrs@[j]) * UNIT_WEIGHT / (total as int),
            forall|j: int| 0 <= j < i ==> out@[j].weight <= UNIT_WEIGHT,
            acc == sum_weights(out@),
            acc * total <= total_raw(addrs@.take(i as int)) * (UNIT_WEIGHT as int),
            acc <= UNIT_WEIGHT,
        decreases n - i,
    {
        let raw: u64 = match addrs[i].weight {
            Some(w) => w,
            None => UNIT_WEIGHT,
        };
        let prod: u128 = (raw as u128) * (UNIT_WEIGHT as u128);
        let share: u128 = prod / total;
        proof {
            // The record's raw weight is no more than the total, so its
            // floored share is no more than the whole unit.
            lemma_total_raw_take_step(addrs@, i as int);
            lemma_total_raw_take_le(addrs@, i as int + 1);
            lemma_total_raw_nonneg(addrs@.take(i as int));
            assert(raw <= total);
            lemma_fundamental_div_mod(prod as int, total as int);
            lemma_mod_bound(prod as int, total as int);
            assert((share as int) * (total as int) <= prod as int) by (nonlinear_arith)
                requires
                    prod as int == (total as int) * (share as int) + (prod as int) % (total as int),
                    0 <= (prod as int) % (total as int);
            assert(share <= UNIT_WEIGHT) by (nonlinear_arith)
                requires
                    (share as int) * (total as int) <= (raw as int) * (UNIT_WEIGHT as int),
                    raw <= total,
                    total > 0;
            // The running sum of shares stays within the unit.
            assert((acc + share) * (total as int)
                <= total_raw(addrs@.take(i as int + 1)) * (UNIT_WEIGHT as int)) by (nonlinear_arith)
                requires
                    acc * total <= total_raw(addrs@.take(i as int)) * (UNIT_WEIGHT as int),
                    (share as int) * (total as int) <= (raw as int) * (UNIT_WEIGHT as int),
                    total_raw(addrs@.take(i as int + 1))
                        == total_raw(addrs@.take(i as int)) + raw as int;
            assert(acc + share <= UNIT_WEIGHT) by (nonlinear_arith)
                requires
                    (acc + share) * (total as int)
                        <= total_raw(addrs@.take(i as int + 1)) * (UNIT_WEIGHT as int),
                    total_raw(addrs@.take(i as int + 1)) <= total as int,
                    total > 0;
        }
        let w: u64 = share as u64;
        let wa = WeightedAddr { addr: Addr { ip: addrs[i].ip, port: addrs[i].port }, weight: w };
        let ghost prev = out@;
        out.push(wa);
        proof {
            assert(out@.drop_last() =~= prev);
        }
        acc = acc + w;
        i = i + 1;
    }

    // The final record takes up the rounding slack.
    let last = n - 1;
    let w_last: u64 = UNIT_WEIGHT - acc;
    let wa = WeightedAddr {
        addr: Addr { ip: addrs[last].ip, port: addrs[last].port },
        weight: w_last,
    };
    let ghost prev = out@;
    out.push(wa);
    proof {
        assert(out@.drop_last() =~= prev);
    }
    out
}

/// The naming service's answer to one polling cycle: an address set, or a
/// typed transient failure.
pub type Snapshot = Result<Vec<WeightedAddr>, Error>;

/// What a 200 answer means versus any other status: only 200 carries a
/// body worth parsing.
pub fn classify_status(status: u16) -> (r: Result<(), Error>)
    ensures
        status == 200 ==> r == Ok::<(), Error>(()),
        status != 200 ==> r == Err::<(), Error>(Error::UnexpectedStatus(status)),
{
    if status == 200 {
        Ok(())
    } else {
        Err(Error::UnexpectedStatus(status))
    }
}

/// Turns a decoded naming-service response into a snapshot: a response of
/// type "bound" yields the normalized address set, any other type is a
/// `NotBound` failure.
pub fn parse_result(kind: &String, addrs: &Vec<NamerdAddr>) -> (r: Result<Vec<WeightedAddr>, Error>)
    ensures
        kind@ == "bound"@ ==> (r matches Ok(v) && normalized_of(addrs@, v@)),
        kind@ != "bound"@ ==> r == Err::<Vec<WeightedAddr>, Error>(Error::NotBound),
{
    let bound = String::from_str("bound");
    if *kind == bound {
        Ok(to_weighted_addrs(addrs))
    } else {
        Err(Error::NotBound)
    }
}

/// Counters the resolver keeps about its own polling.
#[derive(Clone, Copy, PartialEq, Eq, Structural, Debug)]
pub struct Stats {
    pub request_latency: Timer,
    pub success_count: Counter,
    pub failure_count: Counter,
}

impl Stats {
    pub fn new() -> (r: Stats)
        ensures
            r.request_latency.count == 0,
            r.request_latency.total_ms == 0,
            r.success_count.value == 0,
            r.failure_count.value == 0,
    {
        Stats { request_latency: Timer::new(), success_count: Counter::new(), failure_count: Counter::new() }
    }

    /// Accounts one finished polling request: its latency, and which of the
    /// two outcome counters it bumps.
    pub fn observe(&mut self, ok: bool, latency_ms: u64)
        requires
            old(self).success_count.value < u64::MAX,
            old(self).failure_count.value < u64::MAX,
        ensures
            ok ==> final(self).success_count.value == old(self).success_count.value + 1,
            ok ==> final(self).failure_count == old(self).failure_count,
            !ok ==> final(self).failure_count.value == old(self).failure_count.value + 1,
            !ok ==> final(self).success_count == old(self).success_count,
            old(self).request_latency.count < u64::MAX
                ==> final(self).request_latency.count == old(self).request_latency.count + 1,
    {
        self.request_latency.record(latency_ms);
        if ok {
            self.success_count.incr(1);
        } else {
            self.failure_count.incr(1);
        }
    }
}

/// Where a resolution cycle stands.
#[derive(Clone, Copy, PartialEq, Eq, Structural, Debug)]
pub enum PollState {
    /// A request is in flight; the next tick is already waiting.
    Pending,
    /// No request in flight; waiting for the interval tick.
    Waiting,
}

/// What polling the interval timer reported.
#[derive(Clone, Copy, PartialEq, Eq, Structural, Debug)]
pub enum TickPoll {
    Fired,
    NotReady,
    Failed,
}

/// What polling the in-flight request reported.
#[derive(Debug)]
pub enum RequestPoll {
    Done(Snapshot),
    NotReady,
}

/// What one step of the resolver stream decided.
#[derive(Debug)]
pub enum PollOutcome {
    /// Nothing to do until an event arrives.
    NotReady,
    /// The interval source failed; fatal for this resolver.
    TimerFailed,
    /// A snapshot (an address set or a transient error) is delivered.
    Emit(Snapshot),
    /// The tick fired: issue a request, then poll again.
    StartRequest,
}

/// One step of the resolver stream while waiting for the interval tick.
/// A fired tick starts a request; a timer failure is surfaced without
/// emitting a snapshot; otherwise there is nothing to do.
pub fn poll_waiting(tick: TickPoll) -> (r: (PollState, PollOutcome))
    ensures
        tick == TickPoll::Failed ==> r == (PollState::Waiting, PollOutcome::TimerFailed),
        tick == TickPoll::NotReady ==> r == (PollState::Waiting, PollOutcome::NotReady),
        tick == TickPoll::Fired ==> r == (PollState::Pending, PollOutcome::StartRequest),
{
    match tick {
        TickPoll::Failed => (PollState::Waiting, PollOutcome::TimerFailed),
        TickPoll::NotReady => (PollState::Waiting, PollOutcome::NotReady),
        TickPoll::Fired => (PollState::Pending, PollOutcome::StartRequest),
    }
}

/// One step of the resolver stream while a request is in flight. A
/// finished request is emitted as a snapshot — successful or not — and
/// the stream goes back to waiting for the next tick.
pub fn poll_pending(request: RequestPoll) -> (r: (PollState, PollOutcome))
    ensures
        request matches RequestPoll::Done(res)
            ==> r == (PollState::Waiting, PollOutcome::Emit(res)),
        request matches RequestPoll::NotReady
            ==> r == (PollState::Pending, PollOutcome::NotReady),
{
    match request {
        RequestPoll::Done(res) => (PollState::Waiting, PollOutcome::Emit(res)),
        RequestPoll::NotReady => (PollState::Pending, PollOutcome::NotReady),
    }
}

/// The result of building a resolve URL from a base and a target path.
/// Relies on url::Url::parse_with_params, whose output is a function of
/// its arguments alone.
pub uninterp spec fn resolve_url_of(base: Seq<char>, target: Seq<char>) -> Seq<char>;

/// Whether a base is a URL that the resolve URL can be built on. Relies
/// on url::Url::parse, a function of the text alone.
pub uninterp spec fn resolve_url_ok(base: Seq<char>) -> bool;

/// Relies on url::Url::parse_with_params: appends `?path={target}` to the
/// base URL, percent-encoding the target. Its error arm is exactly
/// url::Url::parse failing on the base — appending the pair itself cannot
/// fail — so `None` comes if and only if the base is not a valid URL,
/// whatever the target.
#[verifier::external_body]
fn url_with_path_param(base: &str, target: &str) -> (r: Option<String>)
    ensures
        r is Some <==> resolve_url_ok(base@),
        r matches Some(u) ==> u@ == resolve_url_of(base@, target@),
{
    match url::Url::parse_with_params(base, &[("path", target)]) {
        Ok(u) => Some(u.as_str().to_owned()),
        Err(_) => None,
    }
}

/// The resolver's configuration: where to poll and how often.
#[derive(Clone, Debug)]
pub struct Namerd {
    pub base_url: String,
    pub period_ms: u64,
    pub namespace: String,
    pub stats: Stats,
}

impl Namerd {
    /// Composes the resolve URL base `{base_url}/api/1/resolve/{namespace}`
    /// for the given naming-service root and namespace.
    pub fn new(base_url: String, period_ms: u64, namespace: String) -> (r: Namerd)
        ensures
            r.base_url@ == base_url@ + "/api/1/resolve/"@ + namespace@,
            r.period_ms == period_ms,
            r.namespace@ == namespace@,
            r.stats.success_count.value == 0,
            r.stats.failure_count.value == 0,
            r.stats.request_latency.count == 0,
    {
        let mut url = base_url.concat("/api/1/resolve/");
        url.append(namespace.as_str());
        Namerd { base_url: url, period_ms, namespace, stats: Stats::new() }
    }

    /// The URL one polling request fetches: the resolve base with the
    /// target name as its `path` query parameter. The result is owed for
    /// every valid base: `None` comes if and only if the configured base
    /// is not a valid URL.
    pub fn resolve_url(&self, target: &str) -> (r: Option<String>)
        ensures
            r is Some <==> resolve_url_ok(self.base_url@),
            r matches Some(u) ==> u@ == resolve_url_of(self.base_url@, target@),
    {
        url_with_path_param(self.base_url.as_str(), target)
    }
}

} // verus!
