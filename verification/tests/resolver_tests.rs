use l4proxy::resolver::{
    classify_status, parse_result, poll_pending, poll_waiting, to_weighted_addrs, Error, Namerd,
    NamerdAddr, PollOutcome, PollState, RequestPoll, Stats, TickPoll,
};
use l4proxy::balancer::Balancer;
use l4proxy::buf::{bytes_in, to_buf};
use l4proxy::{Addr, WeightedAddr, UNIT_WEIGHT};

fn na(ip: u128, weight: Option<u64>) -> NamerdAddr {
    NamerdAddr { ip, port: 8080, weight }
}

#[test]
fn weight_normalization() {
    // Raw weights 2.0 and 3.0 normalize to 0.4 and 0.6.
    let out = to_weighted_addrs(&vec![na(1, Some(2_000_000)), na(2, Some(3_000_000))]);
    assert_eq!(out.len(), 2);
    assert_eq!(out[0].weight, 400_000);
    assert_eq!(out[1].weight, 600_000);
    assert_eq!(out[0].addr, Addr { ip: 1, port: 8080 });
}

#[test]
fn weight_normalization_rounding_sums_to_one() {
    // Three equal thirds: the rounding slack lands on the last record and
    // the total is exactly one.
    let out = to_weighted_addrs(&vec![na(1, Some(1)), na(2, Some(1)), na(3, Some(1))]);
    assert_eq!(out[0].weight, 333_333);
    assert_eq!(out[1].weight, 333_333);
    assert_eq!(out[2].weight, 333_334);
    let total: u64 = out.iter().map(|w| w.weight).sum();
    assert_eq!(total, UNIT_WEIGHT);
}

#[test]
fn weight_normalization_defaults_and_edges() {
    // An absent weight counts as 1.0.
    let out = to_weighted_addrs(&vec![na(1, None), na(2, Some(1_000_000))]);
    assert_eq!(out[0].weight, 500_000);
    assert_eq!(out[1].weight, 500_000);
    // A single record takes the whole unit.
    let single = to_weighted_addrs(&vec![na(1, None)]);
    assert_eq!(single[0].weight, UNIT_WEIGHT);
    // An empty list stays empty, and all-zero weights stay zero.
    assert!(to_weighted_addrs(&vec![]).is_empty());
    let zeros = to_weighted_addrs(&vec![na(1, Some(0)), na(2, Some(0))]);
    assert_eq!(zeros[0].weight, 0);
    assert_eq!(zeros[1].weight, 0);
}

#[test]
fn response_kind_decides_bound() {
    let addrs = vec![na(1, None)];
    let ok = parse_result(&String::from("bound"), &addrs);
    assert_eq!(ok.unwrap()[0].weight, UNIT_WEIGHT);
    let neg = parse_result(&String::from("neg"), &addrs);
    assert_eq!(neg.unwrap_err(), Error::NotBound);
}

#[test]
fn status_classification() {
    assert!(classify_status(200).is_ok());
    assert_eq!(classify_status(503).unwrap_err(), Error::UnexpectedStatus(503));
    assert_eq!(classify_status(404).unwrap_err(), Error::UnexpectedStatus(404));
}

#[test]
fn resolver_transient_failure_preserves_endpoints() {
    // The naming service answers 503: the error is emitted as a failed
    // snapshot, the balancer keeps its endpoint set, the failure counter
    // grows, and the next tick starts a fresh request.
    let mut b = Balancer::new(8, 5, 60000, 0);
    b.apply_update(&vec![WeightedAddr { addr: Addr { ip: 1, port: 80 }, weight: UNIT_WEIGHT }]);
    let mut stats = Stats::new();

    let err = classify_status(503).unwrap_err();
    let (state, outcome) = poll_pending(RequestPoll::Done(Err(err)));
    assert_eq!(state, PollState::Waiting);
    match outcome {
        PollOutcome::Emit(Err(e)) => assert_eq!(e, Error::UnexpectedStatus(503)),
        _ => panic!("expected an emitted error snapshot"),
    }
    stats.observe(false, 3);
    assert_eq!(stats.failure_count.value, 1);
    assert_eq!(stats.success_count.value, 0);
    // A failed snapshot is not applied: the pool is untouched.
    assert!(b.find_state(Addr { ip: 1, port: 80 }).is_some());
    assert_eq!(b.endpoints_gauge.value, 1);
    // The next interval recovers.
    let (state, outcome) = poll_waiting(TickPoll::Fired);
    assert_eq!(state, PollState::Pending);
    assert!(matches!(outcome, PollOutcome::StartRequest));
    let (state, outcome) =
        poll_pending(RequestPoll::Done(Ok(to_weighted_addrs(&vec![na(1, None)]))));
    assert_eq!(state, PollState::Waiting);
    match outcome {
        PollOutcome::Emit(Ok(addrs)) => {
            b.apply_update(&addrs);
            stats.observe(true, 2);
        },
        _ => panic!("expected an emitted address set"),
    }
    assert_eq!(stats.success_count.value, 1);
}

#[test]
fn poll_machine_waiting_steps() {
    let (state, outcome) = poll_waiting(TickPoll::NotReady);
    assert_eq!(state, PollState::Waiting);
    assert!(matches!(outcome, PollOutcome::NotReady));
    let (state, outcome) = poll_waiting(TickPoll::Failed);
    assert_eq!(state, PollState::Waiting);
    assert!(matches!(outcome, PollOutcome::TimerFailed));
    let (state, outcome) = poll_pending(RequestPoll::NotReady);
    assert_eq!(state, PollState::Pending);
    assert!(matches!(outcome, PollOutcome::NotReady));
}

#[test]
fn namerd_url_composition() {
    let n = Namerd::new(String::from("http://127.0.0.1:4180"), 60000, String::from("default"));
    assert_eq!(n.base_url, "http://127.0.0.1:4180/api/1/resolve/default");
    assert_eq!(n.period_ms, 60000);
    let url = n.resolve_url("/svc/foo").expect("valid base URL");
    assert_eq!(url, "http://127.0.0.1:4180/api/1/resolve/default?path=%2Fsvc%2Ffoo");
    let bad = Namerd::new(String::from("not a url"), 1, String::from("default"));
    assert!(bad.resolve_url("/svc/foo").is_none());
}

#[test]
fn body_chunks_concatenate() {
    let chunks: Vec<Vec<u8>> = vec![b"{\"type\":".to_vec(), b"\"bound\"}".to_vec(), vec![]];
    assert_eq!(bytes_in(&chunks), 16);
    let buf = to_buf(&chunks);
    assert_eq!(&buf[..], b"{\"type\":\"bound\"}");
    let empty = to_buf(&vec![]);
    assert_eq!(empty.len(), 0);
}

#[test]
fn stats_observe_counts() {
    let mut s = Stats::new();
    s.observe(true, 10);
    s.observe(true, 20);
    s.observe(false, 30);
    assert_eq!(s.success_count.value, 2);
    assert_eq!(s.failure_count.value, 1);
    assert_eq!(s.request_latency.count, 3);
    assert_eq!(s.request_latency.total_ms, 60);
}
