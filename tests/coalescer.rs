use npm_package_explorer::coalescer::{Coalescer, CoalescingError};

#[test]
fn overlapping_callers_share_the_first_group() {
    let mut table: Coalescer<u32> = Coalescer::new();
    assert_eq!(table.join("some-key".into(), 1), None);
    assert_eq!(table.join("some-key".into(), 2), Some(1));
    assert_eq!(table.join("some-key".into(), 3), Some(1));
    assert_eq!(table.finish("some-key"), Some(1));
}

#[test]
fn sequential_callers_each_run() {
    let mut table: Coalescer<u32> = Coalescer::new();
    assert_eq!(table.join("k".into(), 1), None);
    assert_eq!(table.finish("k"), Some(1));
    assert_eq!(table.join("k".into(), 2), None);
    assert_eq!(table.finish("k"), Some(2));
    assert_eq!(table.finish("k"), None);
}

#[test]
fn distinct_keys_run_separately() {
    let mut table: Coalescer<u32> = Coalescer::new();
    assert_eq!(table.join("a".into(), 1), None);
    assert_eq!(table.join("b".into(), 2), None);
    assert_eq!(table.finish("a"), Some(1));
    assert_eq!(table.join("b".into(), 3), Some(2));
}

#[test]
fn error_kinds_are_distinct() {
    assert_ne!(CoalescingError::PoisonError, CoalescingError::RecvError);
}
