use router_analytics::batch::Batcher;

#[test]
fn full_batch_is_handed_out_in_order() {
    let mut b = Batcher::new(3);
    assert!(b.record(1).is_none());
    assert!(b.record(2).is_none());
    assert_eq!(b.record(3), Some(vec![1, 2, 3]));
    assert_eq!(b.len(), 0);
    assert!(b.record(4).is_none());
    assert_eq!(b.len(), 1);
}

#[test]
fn flush_hands_out_the_rest() {
    let mut b: Batcher<&str> = Batcher::new(10);
    assert!(b.flush().is_none());
    b.record("a");
    b.record("b");
    assert_eq!(b.flush(), Some(vec!["a", "b"]));
    assert!(b.flush().is_none());
}

#[test]
fn failed_batch_waits_again_first() {
    let mut b = Batcher::new(2);
    b.record(1);
    let batch = b.record(2).unwrap();
    b.record(3);
    b.requeue(batch);
    assert_eq!(b.flush(), Some(vec![1, 2, 3]));
}
