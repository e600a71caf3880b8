use l4proxy::balancer::{dedupe_by_addr, Balancer};
use l4proxy::endpoint::{Endpoint, State};
use l4proxy::{Addr, WeightedAddr, UNIT_WEIGHT};

fn addr(n: u128) -> Addr {
    Addr { ip: n, port: 80 }
}

fn wa(n: u128, weight: u64) -> WeightedAddr {
    WeightedAddr { addr: addr(n), weight }
}

#[test]
fn basic_forwarding_accounting() {
    // One endpoint with full weight; a waiter travels the whole pipeline
    // and five bytes go each way, as an echoed "hello" would.
    let mut b = Balancer::new(8, 5, 60000, 0);
    b.apply_update(&vec![wa(1, UNIT_WEIGHT)]);
    assert!(b.admit_waiter(77));
    let (token, a) = b.dispatch(0).expect("one eligible endpoint");
    assert_eq!(token, 77);
    assert_eq!(a, addr(1));
    let st = b.find_state(addr(1)).unwrap();
    assert_eq!(st.pending_conns, 1);
    let ctx = b.connect_succeeded(addr(1), 10);
    b.conn_read(ctx, 5);
    b.conn_wrote(ctx, 5);
    let st = b.find_state(addr(1)).unwrap();
    assert_eq!(st.pending_conns, 0);
    assert_eq!(st.open_conns, 1);
    assert_eq!(st.rx_bytes, 5);
    assert_eq!(st.tx_bytes, 5);
    b.connection_closed(ctx, 25);
    let st = b.find_state(addr(1)).unwrap();
    assert_eq!(st.open_conns, 0);
    assert_eq!(st.consecutive_failures, 0);
}

#[test]
fn failover_after_failure_limit() {
    // A refuses connections; B accepts. Once A's failure streak reaches
    // the limit inside the penalty window, waiters go to B.
    let fail_limit = 2;
    let penalty_ms = 1000;
    let mut b = Balancer::new(8, fail_limit, penalty_ms, 0);
    b.apply_update(&vec![wa(1, 500000), wa(2, 500000)]);
    // Open one connection somewhere; call that endpoint B (the acceptor)
    // and the other, now strictly cheaper, A (the refuser).
    assert!(b.admit_waiter(0));
    let (_, b_addr) = b.dispatch(0).unwrap();
    let b_ctx = b.connect_succeeded(b_addr, 0);
    let a_addr = if b_addr == addr(1) { addr(2) } else { addr(1) };
    // A refuses: each dispatch picks the idle A by cost, and each attempt
    // fails, until A's streak reaches the limit.
    for _ in 0..fail_limit {
        assert!(b.admit_waiter(0));
        let (_, a) = b.dispatch(100).unwrap();
        assert_eq!(a, a_addr);
        b.connect_failed(a_addr, 100);
    }
    assert_eq!(b.find_state(a_addr).unwrap().consecutive_failures, fail_limit);
    // Within the penalty window every dispatch lands on B despite A's
    // lower load.
    for t in 0..5u64 {
        assert!(b.admit_waiter(t));
        let (_, a) = b.dispatch(200 + t).unwrap();
        assert_eq!(a, b_addr, "penalized endpoint was selected");
        let ctx = b.connect_succeeded(b_addr, 200 + t);
        b.connection_closed(ctx, 300 + t);
    }
    // Once the penalty lapses A is preferred again.
    assert!(b.admit_waiter(9));
    let (_, a) = b.dispatch(100 + penalty_ms).unwrap();
    assert_eq!(a, a_addr);
    b.connect_failed(a_addr, 100 + penalty_ms);
    b.connection_closed(b_ctx, 2000);
}

#[test]
fn idle_eviction_after_retirement() {
    // The resolver emits {A, B}, then {A}. B keeps its state while a
    // connection is open and is dropped once it closes — and the
    // endpoint-count gauge shows the drop.
    let mut b = Balancer::new(8, 5, 60000, 0);
    b.apply_update(&vec![wa(1, 500000), wa(2, 500000)]);
    assert_eq!(b.endpoints_gauge.value, 2);
    // Open a connection on B.
    assert!(b.admit_waiter(9));
    let ctx = loop {
        let (_, a) = b.dispatch(0).expect("two eligible endpoints");
        if a == addr(2) {
            break b.connect_succeeded(addr(2), 0);
        }
        b.connect_failed(a, 0);
        assert!(b.admit_waiter(9));
    };
    // B leaves the snapshot but keeps its counters while loaded; the
    // gauge still counts it among the endpoints held.
    b.apply_update(&vec![wa(1, UNIT_WEIGHT)]);
    assert_eq!(b.endpoints_gauge.value, 2);
    let st = b.find_state(addr(2)).expect("retired endpoint retained");
    assert_eq!(st.open_conns, 1);
    // Its last connection closes: B is gone, visibly.
    b.connection_closed(ctx, 50);
    assert!(b.find_state(addr(2)).is_none());
    assert_eq!(b.endpoints_gauge.value, 1);
}

#[test]
fn max_waiters_admission() {
    // maxWaiters = 2 and no live endpoints: two waiters queue, the third
    // is rejected and counted.
    let mut b = Balancer::new(2, 5, 60000, 0);
    assert!(b.admit_waiter(1));
    assert!(b.admit_waiter(2));
    assert!(!b.admit_waiter(3));
    assert_eq!(b.waiters.len(), 2);
    assert_eq!(b.rejected.value, 1);
    // With no endpoints nothing dispatches and the queue stays intact.
    assert!(b.dispatch(0).is_none());
    assert_eq!(b.waiters.len(), 2);
}

#[test]
fn counters_preserved_across_snapshots() {
    // An endpoint present in consecutive snapshots keeps its counters and
    // takes the new weight.
    let mut b = Balancer::new(8, 5, 60000, 0);
    b.apply_update(&vec![wa(1, UNIT_WEIGHT)]);
    assert!(b.admit_waiter(5));
    b.dispatch(0).unwrap();
    let ctx = b.connect_succeeded(addr(1), 0);
    b.conn_read(ctx, 123);
    b.apply_update(&vec![wa(1, 250000), wa(2, 750000)]);
    let st = b.find_state(addr(1)).unwrap();
    assert_eq!(st.open_conns, 1);
    assert_eq!(st.rx_bytes, 123);
    let st2 = b.find_state(addr(2)).unwrap();
    assert_eq!(st2.open_conns, 0);
    assert_eq!(st2.rx_bytes, 0);
}

#[test]
fn selection_single_endpoint_deterministic() {
    // With one live endpoint every dispatch picks it.
    let mut b = Balancer::new(8, 5, 60000, 0);
    b.apply_update(&vec![wa(7, UNIT_WEIGHT)]);
    for t in 0..10u64 {
        assert_eq!(b.select(t), Some(0));
    }
}

#[test]
fn selection_skips_zero_weight() {
    // A zero-weight endpoint is never selected.
    let mut b = Balancer::new(8, 5, 60000, 0);
    b.apply_update(&vec![wa(1, 0), wa(2, UNIT_WEIGHT)]);
    for t in 0..10u64 {
        assert_eq!(b.select(t), Some(1));
    }
    let mut only_zero = Balancer::new(8, 5, 60000, 0);
    only_zero.apply_update(&vec![wa(1, 0)]);
    assert_eq!(only_zero.select(0), None);
}

#[test]
fn selection_prefers_lower_cost() {
    // Equal weights: the endpoint with lower load always wins the pair.
    let mut b = Balancer::new(8, 5, 60000, 0);
    b.apply_update(&vec![wa(1, 500000), wa(2, 500000)]);
    // Load up endpoint at index 0.
    assert!(b.admit_waiter(0));
    b.dispatch(0).unwrap();
    let loaded = if b.live[0].state.pending_conns == 1 { 0 } else { 1 };
    let idle = 1 - loaded;
    for t in 0..10u64 {
        assert_eq!(b.select(t), Some(idle));
    }
}

#[test]
fn endpoint_transitions_balance() {
    // One attempt that fails, one that succeeds and closes: pending comes
    // back to zero each time, open rises and falls with the connection.
    let mut e = Endpoint::new(addr(3), UNIT_WEIGHT);
    e.connect_started();
    assert_eq!(e.state.pending_conns, 1);
    e.connect_failed(40);
    assert_eq!(e.state.pending_conns, 0);
    assert_eq!(e.state.consecutive_failures, 1);
    assert_eq!(e.state.last_failure_ms, Some(40));
    e.connect_started();
    e.connect_succeeded();
    assert_eq!(e.state.pending_conns, 0);
    assert_eq!(e.state.open_conns, 1);
    assert_eq!(e.state.consecutive_failures, 0);
    assert!(!e.is_idle());
    e.connection_closed();
    assert_eq!(e.state.open_conns, 0);
    assert!(e.is_idle());
    // An abandoned attempt gives its pending count back.
    e.connect_started();
    e.connect_cancelled();
    assert_eq!(e.state.pending_conns, 0);
}

#[test]
fn endpoint_state_defaults() {
    let st = State::default();
    assert_eq!(st.pending_conns, 0);
    assert_eq!(st.open_conns, 0);
    assert_eq!(st.consecutive_failures, 0);
    assert_eq!(st.rx_bytes, 0);
    assert_eq!(st.tx_bytes, 0);
    assert_eq!(st.last_failure_ms, None);
    let mut e = Endpoint::new(addr(9), 0);
    assert_eq!(e.peer_addr(), addr(9));
    assert_eq!(e.weight(), 0);
    assert_eq!(e.load(), 0);
    e.set_weight(UNIT_WEIGHT);
    assert_eq!(e.weight(), UNIT_WEIGHT);
}

#[test]
fn dedupe_keys_snapshots_by_address() {
    // Of entries sharing an address, the later one wins, as inserting
    // them into a map keyed by address would have it.
    let snap = vec![wa(1, 100), wa(2, 200), wa(1, 300)];
    let d = dedupe_by_addr(&snap);
    assert_eq!(d.len(), 2);
    assert_eq!(d[0], wa(1, 300));
    assert_eq!(d[1], wa(2, 200));
    let mut b = Balancer::new(8, 5, 60000, 0);
    b.apply_update(&d);
    assert_eq!(b.endpoints_gauge.value, 2);
}
