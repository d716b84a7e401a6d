use remora::load_balancer::{Action, LoadBalancer, Phase};

/// Offers one transaction that the consensus sink took to the proxies, where
/// the proxies in `closed` refuse it. Returns the proxy that took it.
fn route(lb: &mut LoadBalancer, closed: &[usize]) -> Option<usize> {
    let mut action = lb.on_consensus(true);
    loop {
        match action {
            Action::Forward(j) => {
                action = lb.on_proxy(!closed.contains(&j));
                if action == Action::Next {
                    return Some(j);
                }
            }
            Action::Drop => return None,
            other => panic!("unexpected action {:?}", other),
        }
    }
}

#[test]
fn round_robin_two_proxies() {
    let mut lb = LoadBalancer::new(2);
    let routed: Vec<Option<usize>> = (0..4).map(|_| route(&mut lb, &[])).collect();
    assert_eq!(routed, vec![Some(0), Some(1), Some(0), Some(1)]);
    assert_eq!(lb.phase_of(), Phase::Idle);
}

#[test]
fn round_robin_residue_without_failures() {
    let mut lb = LoadBalancer::new(5);
    for i in 0..23usize {
        assert_eq!(route(&mut lb, &[]), Some(i % 5));
    }
}

#[test]
fn failover_skips_closed_proxy() {
    let mut lb = LoadBalancer::new(3);
    let routed: Vec<Option<usize>> = (0..6).map(|_| route(&mut lb, &[1])).collect();
    assert_eq!(
        routed,
        vec![Some(0), Some(2), Some(2), Some(0), Some(2), Some(2)]
    );
}

#[test]
fn failover_tries_next_proxies_in_turn() {
    let mut lb = LoadBalancer::new(4);
    assert_eq!(route(&mut lb, &[]), Some(0));
    // primary is 1; 1 and 2 refuse, 3 takes it
    assert_eq!(lb.on_consensus(true), Action::Forward(1));
    assert_eq!(lb.on_proxy(false), Action::Forward(2));
    assert_eq!(lb.on_proxy(false), Action::Forward(3));
    assert_eq!(lb.on_proxy(true), Action::Next);
    // wraps around past the end of the pool
    assert_eq!(lb.on_consensus(true), Action::Forward(2));
    assert_eq!(lb.on_proxy(false), Action::Forward(3));
    assert_eq!(lb.on_proxy(false), Action::Forward(0));
    assert_eq!(lb.on_proxy(true), Action::Next);
}

#[test]
fn all_proxies_closed_drops_and_continues() {
    let mut lb = LoadBalancer::new(3);
    assert_eq!(lb.on_consensus(true), Action::Forward(0));
    assert_eq!(lb.on_proxy(false), Action::Forward(1));
    assert_eq!(lb.on_proxy(false), Action::Forward(2));
    assert_eq!(lb.on_proxy(false), Action::Drop);
    assert_eq!(lb.phase_of(), Phase::Idle);
    // the balancer keeps feeding consensus and moves the round-robin choice on
    assert_eq!(route(&mut lb, &[0, 1, 2]), None);
    assert_eq!(route(&mut lb, &[]), Some(2));
}

#[test]
fn single_proxy_closed_drops() {
    let mut lb = LoadBalancer::new(1);
    assert_eq!(lb.on_consensus(true), Action::Forward(0));
    assert_eq!(lb.on_proxy(false), Action::Drop);
    assert_eq!(route(&mut lb, &[]), Some(0));
}

#[test]
fn consensus_closed_stops() {
    let mut lb = LoadBalancer::new(2);
    assert_eq!(lb.on_consensus(false), Action::Stop);
    assert_eq!(lb.phase_of(), Phase::Stopped);
}

#[test]
fn consensus_closed_after_some_transactions() {
    let mut lb = LoadBalancer::new(2);
    assert_eq!(route(&mut lb, &[]), Some(0));
    assert_eq!(lb.on_consensus(false), Action::Stop);
    assert_eq!(lb.phase_of(), Phase::Stopped);
}
