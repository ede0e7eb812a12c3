use nullspace_execution::layer::Layer;
use nullspace_execution::state::{
    admit_transactions, plan_state_transition, Memory, Noncer, PrepareError, State, Status, TransitionPlan,
};
use std::collections::BTreeMap;

#[test]
fn test_memory_read_your_writes() {
    let mut m: Memory<u64, u64> = Memory::new();
    assert_eq!(m.get(&1), None);
    m.insert(1, 10);
    m.insert(2, 20);
    assert_eq!(m.get(&1), Some(&10));
    m.insert(1, 11);
    assert_eq!(m.get(&1), Some(&11));
    m.delete(1);
    assert_eq!(m.get(&1), None);
    assert_eq!(m.get(&2), Some(&20));
    let d: Memory<u64, u64> = Memory::default();
    assert_eq!(d.get(&2), None);
}

#[test]
fn test_memory_apply_in_order() {
    let mut m: Memory<u64, u64> = Memory::new();
    m.insert(3, 30);
    m.apply(vec![(1, Status::Update(1)), (1, Status::Update(2)), (3, Status::Delete), (4, Status::Delete)]);
    assert_eq!(m.get(&1), Some(&2));
    assert_eq!(m.get(&3), None);
    assert_eq!(m.get(&4), None);
}

#[test]
fn test_noncer_pending_over_store() {
    let mut m: Memory<u64, String> = Memory::new();
    m.insert(1, String::from("one"));
    m.insert(2, String::from("two"));
    let mut n = Noncer::new(&m);
    assert_eq!(n.get(&1).map(|s| s.as_str()), Some("one"));
    n.insert(1, String::from("uno"));
    n.delete(2);
    n.insert(3, String::from("tres"));
    assert_eq!(n.get(&1).map(|s| s.as_str()), Some("uno"));
    assert_eq!(n.get(&2), None);
    assert_eq!(n.get(&3).map(|s| s.as_str()), Some("tres"));
    drop(n);
    assert_eq!(m.get(&1).map(|s| s.as_str()), Some("one"));
    assert_eq!(m.get(&2).map(|s| s.as_str()), Some("two"));
}

#[test]
fn test_layer_commit_then_apply_reads_the_same() {
    let mut m: Memory<u64, u64> = Memory::new();
    m.insert(1, 100);
    m.insert(2, 200);
    m.insert(3, 300);
    let mut layer = Layer::new(&m, 42);
    assert_eq!(layer.view(), 42);
    layer.insert(5, 500);
    layer.delete(2);
    layer.insert(1, 101);
    layer.insert(5, 501);
    let seen: Vec<Option<u64>> = (0..7).map(|k| layer.get(&k).copied()).collect();
    assert_eq!(seen, vec![None, Some(101), None, Some(300), None, Some(501), None]);
    let changes = layer.commit();
    assert_eq!(changes, vec![(1, Status::Update(101)), (2, Status::Delete), (5, Status::Update(501))]);
    m.apply(changes);
    let after: Vec<Option<u64>> = (0..7).map(|k| m.get(&k).copied()).collect();
    assert_eq!(after, seen);
}

#[test]
fn test_admit_transactions_consecutive_nonces() {
    let mut m: Memory<u64, u64> = Memory::new();
    m.insert(1, 0);
    m.insert(2, 5);
    let txs = [(1, 0), (1, 0), (1, 1), (2, 5), (3, 0), (3, 2), (2, 7)];
    let (admitted, processed) = admit_transactions(&mut m, &txs);
    assert_eq!(admitted, vec![true, false, true, true, true, false, false]);
    let expected: BTreeMap<u64, u64> = [(1, 2), (2, 6), (3, 1)].into_iter().collect();
    assert_eq!(processed, expected);
    for (account, nonce) in expected.iter() {
        assert_eq!(m.get(account), Some(nonce));
    }
    let (again, none) = admit_transactions(&mut m, &[(1, 1), (4, 1)]);
    assert_eq!(again, vec![false, false]);
    assert!(none.is_empty());
}

#[test]
fn test_admit_transactions_in_a_layer() {
    let mut m: Memory<u64, u64> = Memory::new();
    m.insert(8, 2);
    let mut layer = Layer::new(&m, 3);
    let (admitted, processed) = admit_transactions(&mut layer, &[(8, 2), (8, 3), (8, 3)]);
    assert_eq!(admitted, vec![true, true, false]);
    assert_eq!(processed.get(&8), Some(&4));
    assert_eq!(layer.commit(), vec![(8, Status::Update(4))]);
}

#[test]
fn test_plan_state_transition() {
    assert_eq!(plan_state_transition(5, 4, 4), TransitionPlan::Execute { append_events: true });
    assert_eq!(plan_state_transition(5, 4, 3), TransitionPlan::Execute { append_events: false });
    assert_eq!(plan_state_transition(4, 4, 4), TransitionPlan::AlreadyApplied);
    assert_eq!(plan_state_transition(7, 4, 4), TransitionPlan::Invalid);
    assert_eq!(plan_state_transition(3, 4, 4), TransitionPlan::Invalid);
}

#[test]
fn test_noncer_prepare_advances_nonces() {
    let mut m: Memory<u64, u64> = Memory::new();
    m.insert(7, 3);
    let mut n = Noncer::new(&m);
    assert_eq!(n.prepare(7, 3), Ok(()));
    assert_eq!(n.get(&7), Some(&4));
    assert_eq!(n.prepare(7, 3), Err(PrepareError::NonceMismatch { expected: 4, got: 3 }));
    assert_eq!(n.get(&7), Some(&4));
    assert_eq!(n.prepare(9, 1), Err(PrepareError::NonceMismatch { expected: 0, got: 1 }));
    assert_eq!(n.get(&9), None);
    assert_eq!(n.prepare(9, 0), Ok(()));
    assert_eq!(n.get(&9), Some(&1));
    drop(n);
    assert_eq!(m.get(&7), Some(&3));
}

#[test]
fn test_layer_prepare_then_commit() {
    let m: Memory<u64, u64> = Memory::new();
    let mut layer = Layer::new(&m, 1);
    assert_eq!(layer.prepare(5, 0), Ok(()));
    assert_eq!(layer.prepare(5, 1), Ok(()));
    assert_eq!(layer.prepare(5, 1), Err(PrepareError::NonceMismatch { expected: 2, got: 1 }));
    assert_eq!(layer.commit(), vec![(5, Status::Update(2))]);
}
