use minikv::database::Database;

#[test]
fn set_then_get_returns_value() {
    let mut db = Database::new();
    db.set(b"k".to_vec(), b"v".to_vec());
    assert_eq!(db.get(b"k"), Some(b"v".to_vec()));
}

#[test]
fn set_overwrites() {
    let mut db = Database::new();
    db.set(b"k".to_vec(), b"v".to_vec());
    db.set(b"k".to_vec(), b"v2".to_vec());
    assert_eq!(db.get(b"k"), Some(b"v2".to_vec()));
}

#[test]
fn get_absent_key() {
    let db = Database::new();
    assert_eq!(db.get(b"missing"), None);
}

#[test]
fn set_keeps_other_keys() {
    let mut db = Database::new();
    db.set(b"a".to_vec(), b"1".to_vec());
    db.set(b"b".to_vec(), b"2".to_vec());
    db.set(b"a".to_vec(), b"3".to_vec());
    assert_eq!(db.get(b"a"), Some(b"3".to_vec()));
    assert_eq!(db.get(b"b"), Some(b"2".to_vec()));
}

#[test]
fn empty_key_and_value() {
    let mut db = Database::new();
    db.set(Vec::new(), Vec::new());
    assert_eq!(db.get(b""), Some(Vec::new()));
}

#[test]
fn delete_absent_returns_false_and_changes_nothing() {
    let mut db = Database::new();
    db.set(b"a".to_vec(), b"1".to_vec());
    assert!(!db.delete(b"b"));
    assert_eq!(db.get(b"a"), Some(b"1".to_vec()));
}

#[test]
fn delete_present_returns_true_and_removes() {
    let mut db = Database::new();
    db.set(b"a".to_vec(), b"1".to_vec());
    assert!(db.delete(b"a"));
    assert_eq!(db.get(b"a"), None);
}

#[test]
fn publish_then_receive_in_order() {
    let mut db = Database::new();
    let mut rx = db.subscribe(7);
    assert!(db.publish(7, b"m1".to_vec()));
    assert!(db.publish(7, b"m2".to_vec()));
    assert_eq!(rx.try_recv().unwrap(), b"m1".to_vec());
    assert_eq!(rx.try_recv().unwrap(), b"m2".to_vec());
    assert!(rx.try_recv().is_err());
}

#[test]
fn publish_without_subscriber_returns_false() {
    let db = Database::new();
    assert!(!db.publish(7, b"lost".to_vec()));
}

#[test]
fn publish_after_last_unsubscribe_returns_false() {
    let mut db = Database::new();
    let rx = db.subscribe(7);
    drop(rx);
    db.unsubscribe(7);
    assert!(!db.publish(7, b"late".to_vec()));
}

#[test]
fn unsubscribe_keeps_other_subscribers() {
    let mut db = Database::new();
    let mut rx1 = db.subscribe(7);
    let rx2 = db.subscribe(7);
    drop(rx2);
    db.unsubscribe(7);
    assert!(db.publish(7, b"still".to_vec()));
    assert_eq!(rx1.try_recv().unwrap(), b"still".to_vec());
}

#[test]
fn each_subscriber_receives_every_payload() {
    let mut db = Database::new();
    let mut rx1 = db.subscribe(3);
    let mut rx2 = db.subscribe(3);
    assert!(db.publish(3, b"all".to_vec()));
    assert_eq!(rx1.try_recv().unwrap(), b"all".to_vec());
    assert_eq!(rx2.try_recv().unwrap(), b"all".to_vec());
}

#[test]
fn subscriber_sees_only_later_payloads() {
    let mut db = Database::new();
    let _rx0 = db.subscribe(3);
    assert!(db.publish(3, b"before".to_vec()));
    let mut rx = db.subscribe(3);
    assert!(db.publish(3, b"after".to_vec()));
    assert_eq!(rx.try_recv().unwrap(), b"after".to_vec());
    assert!(rx.try_recv().is_err());
}

#[test]
fn unsubscribe_unknown_channel_is_a_no_op() {
    let mut db = Database::new();
    db.unsubscribe(42);
    assert!(!db.publish(42, b"x".to_vec()));
}

#[test]
fn store_and_registry_are_independent() {
    let mut db = Database::new();
    let mut rx = db.subscribe(7);
    db.set(b"k".to_vec(), b"v".to_vec());
    assert!(db.publish(7, b"x".to_vec()));
    assert_eq!(rx.try_recv().unwrap(), b"x".to_vec());
    assert_eq!(db.get(b"k"), Some(b"v".to_vec()));
    assert!(db.delete(b"k"));
    drop(rx);
    db.unsubscribe(7);
    assert!(!db.publish(7, b"x".to_vec()));
    assert_eq!(db.get(b"k"), None);
}

#[test]
fn slow_subscriber_loses_oldest_but_keeps_order() {
    let mut db = Database::new();
    let mut rx = db.subscribe(1);
    // Far more payloads than the channel keeps; publishing never blocks.
    for i in 0..5000u32 {
        assert!(db.publish(1, i.to_be_bytes().to_vec()));
    }
    // The subscriber fell behind: the oldest payloads are gone.
    assert!(matches!(
        rx.try_recv(),
        Err(tokio::sync::broadcast::error::TryRecvError::Lagged(_))
    ));
    // What remains is still delivered in publish order.
    let first = rx.try_recv().unwrap();
    let second = rx.try_recv().unwrap();
    assert!(first < second);
}
