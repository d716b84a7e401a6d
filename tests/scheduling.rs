use remora::dependency_controller::DependencyController;
use remora::footprint::{footprint, InputObjectKind};
use remora::proxy::ProxyScheduler;

fn owned(ids: &[u64]) -> Vec<InputObjectKind> {
    ids.iter().map(|&id| InputObjectKind::ImmOrOwned(id)).collect()
}

fn sorted(mut v: Vec<u64>) -> Vec<u64> {
    v.sort();
    v
}

#[test]
fn footprint_ignores_packages() {
    let inputs = vec![
        InputObjectKind::Package(9),
        InputObjectKind::ImmOrOwned(3),
        InputObjectKind::Shared { id: 7, initial_shared_version: 2, mutable: true },
        InputObjectKind::Package(4),
        InputObjectKind::Shared { id: 5, initial_shared_version: 1, mutable: false },
    ];
    assert_eq!(footprint(&inputs), vec![3, 7, 5]);
    assert_eq!(footprint(&vec![InputObjectKind::Package(1)]), Vec::<u64>::new());
    assert_eq!(footprint(&vec![]), Vec::<u64>::new());
}

#[test]
fn disjoint_transactions_wait_on_nothing() {
    let mut proxy = ProxyScheduler::new(0);
    for (k, o) in [1u64, 2, 3].iter().enumerate() {
        let a = proxy.schedule(&owned(&[*o]));
        assert_eq!(a.task_id, k as u64 + 1);
        assert!(a.prior_handles.is_empty());
        assert_eq!(a.current_handles, vec![a.task_id]);
    }
    assert_eq!(proxy.admitted(), 3);
}

#[test]
fn overlapping_chain_is_serial() {
    let mut proxy = ProxyScheduler::new(0);
    let a1 = proxy.schedule(&owned(&[1]));
    let a2 = proxy.schedule(&owned(&[1, 2]));
    let a3 = proxy.schedule(&owned(&[2]));
    assert!(a1.prior_handles.is_empty());
    assert_eq!(a2.prior_handles, vec![1]);
    assert_eq!(a3.prior_handles, vec![2]);
    assert_eq!(a3.current_handles, vec![3]);
}

#[test]
fn same_object_keeps_submission_order() {
    let mut proxy = ProxyScheduler::new(0);
    for k in 1..=100u64 {
        let a = proxy.schedule(&owned(&[1]));
        assert_eq!(a.task_id, k);
        if k == 1 {
            assert!(a.prior_handles.is_empty());
        } else {
            assert_eq!(a.prior_handles, vec![k - 1]);
        }
        assert_eq!(a.current_handles, vec![k]);
    }
}

#[test]
fn shared_inputs_count_in_footprint() {
    let mut proxy = ProxyScheduler::new(4);
    assert_eq!(proxy.id(), 4);
    proxy.schedule(&vec![InputObjectKind::Shared { id: 8, initial_shared_version: 1, mutable: true }]);
    let a = proxy.schedule(&vec![
        InputObjectKind::Package(8),
        InputObjectKind::ImmOrOwned(8),
    ]);
    assert_eq!(a.prior_handles, vec![1]);
}

#[test]
fn packages_create_no_dependency() {
    let mut proxy = ProxyScheduler::new(0);
    proxy.schedule(&vec![InputObjectKind::Package(5)]);
    let a = proxy.schedule(&vec![InputObjectKind::Package(5)]);
    assert!(a.prior_handles.is_empty());
}

#[test]
fn duplicate_objects_collapse() {
    let mut c = DependencyController::new();
    let (p1, c1) = c.get_dependencies(1, vec![1, 1, 2]);
    assert!(p1.is_empty());
    assert_eq!(c1, vec![1]);
    let (p2, c2) = c.get_dependencies(2, vec![2, 1, 2, 1]);
    assert_eq!(p2, vec![1]);
    assert_eq!(c2, vec![2]);
}

#[test]
fn waits_on_latest_toucher_of_each_object() {
    let mut c = DependencyController::new();
    c.get_dependencies(1, vec![1]);
    c.get_dependencies(2, vec![2]);
    c.get_dependencies(3, vec![1, 3]);
    let (p4, _) = c.get_dependencies(4, vec![1, 2, 3, 4]);
    assert_eq!(sorted(p4), vec![2, 3]);
    let (p5, _) = c.get_dependencies(5, vec![5]);
    assert!(p5.is_empty());
    let (p6, _) = c.get_dependencies(6, vec![4, 5]);
    assert_eq!(sorted(p6), vec![4, 5]);
}

#[test]
fn empty_footprint_waits_on_nothing() {
    let mut c = DependencyController::new();
    c.get_dependencies(1, vec![1]);
    let (p, cur) = c.get_dependencies(2, vec![]);
    assert!(p.is_empty());
    assert_eq!(cur, vec![2]);
    let (p, _) = c.get_dependencies(3, vec![1]);
    assert_eq!(p, vec![1]);
}

#[test]
fn can_schedule_while_ids_remain() {
    let mut proxy = ProxyScheduler::new(0);
    assert!(proxy.can_schedule());
    proxy.schedule(&owned(&[1]));
    assert!(proxy.can_schedule());
    assert_eq!(proxy.admitted(), 1);
}
