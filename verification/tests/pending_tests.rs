use spite_core::pending::PendingQueue;

#[test]
fn ids_are_fresh_and_claims_are_exclusive() {
    let mut q: PendingQueue<String> = PendingQueue::new();
    let a = q.park("first".to_string());
    let b = q.park("second".to_string());
    assert_eq!((a, b), (0, 1));
    // Undo claims the draft back...
    assert_eq!(q.claim(a).as_deref(), Some("first"));
    // ...so the lapse timer finds nothing to send.
    assert_eq!(q.claim(a), None);
    // The other entry is untouched.
    assert_eq!(q.claim(b).as_deref(), Some("second"));
    assert_eq!(q.claim(b), None);
    assert_eq!(q.claim(42), None);
    assert_eq!(q.park("third".to_string()), 2);
}
