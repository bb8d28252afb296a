use minikv::database::Database;
use minikv::protocol::{Request, Response};
use minikv::session::{handle_request, Channel, SubscriptionChange};

#[test]
fn ping_answers_pong() {
    let mut db = Database::new();
    let mut channel = Channel::new();
    let (response, change) = handle_request(&mut db, &mut channel, Request::Ping);
    assert_eq!(response, Response::Pong);
    assert!(matches!(change, SubscriptionChange::Unchanged));
}

#[test]
fn set_then_get_exchange() {
    let mut db = Database::new();
    let mut channel = Channel::new();
    let (response, _) = handle_request(
        &mut db,
        &mut channel,
        Request::Put(b"a".to_vec(), b"1".to_vec()),
    );
    assert_eq!(response, Response::Okay);
    let (response, _) = handle_request(&mut db, &mut channel, Request::Get(b"a".to_vec()));
    assert_eq!(response, Response::Get(b"1".to_vec()));
}

#[test]
fn get_absent_answers_not_found() {
    let mut db = Database::new();
    let mut channel = Channel::new();
    let (response, _) = handle_request(&mut db, &mut channel, Request::Get(b"nope".to_vec()));
    assert_eq!(response, Response::NotFound);
}

#[test]
fn delete_answers_by_presence() {
    let mut db = Database::new();
    let mut channel = Channel::new();
    handle_request(
        &mut db,
        &mut channel,
        Request::Put(b"a".to_vec(), b"1".to_vec()),
    );
    let (response, _) = handle_request(&mut db, &mut channel, Request::Delete(b"a".to_vec()));
    assert_eq!(response, Response::Okay);
    let (response, _) = handle_request(&mut db, &mut channel, Request::Delete(b"a".to_vec()));
    assert_eq!(response, Response::NotFound);
}

#[test]
fn publish_without_channel_answers_not_found() {
    let mut db = Database::new();
    let mut channel = Channel::new();
    let (response, _) = handle_request(
        &mut db,
        &mut channel,
        Request::Publish(7, b"hi".to_vec()),
    );
    assert_eq!(response, Response::NotFound);
}

#[test]
fn subscriber_receives_another_sessions_publish() {
    let mut db = Database::new();

    // Session A subscribes to channel 7 and keeps the receiver.
    let mut channel_a = Channel::new();
    let (response, change) = handle_request(&mut db, &mut channel_a, Request::Subscribe(7));
    assert_eq!(response, Response::Okay);
    let mut rx = match change {
        SubscriptionChange::Attach(rx) => rx,
        _ => panic!("subscribe must attach a receiver"),
    };

    // Session B publishes on channel 7, interleaved with its own traffic.
    let mut channel_b = Channel::new();
    let (response, _) = handle_request(
        &mut db,
        &mut channel_b,
        Request::Put(b"a".to_vec(), b"1".to_vec()),
    );
    assert_eq!(response, Response::Okay);
    let (response, change) = handle_request(
        &mut db,
        &mut channel_b,
        Request::Publish(7, b"hi".to_vec()),
    );
    assert_eq!(response, Response::Okay);
    assert!(matches!(change, SubscriptionChange::Unchanged));
    let (response, _) = handle_request(&mut db, &mut channel_b, Request::Get(b"a".to_vec()));
    assert_eq!(response, Response::Get(b"1".to_vec()));

    assert_eq!(rx.try_recv().unwrap(), b"hi".to_vec());
}

#[test]
fn unsubscribe_always_answers_okay() {
    let mut db = Database::new();
    let mut channel = Channel::new();
    let (response, change) = handle_request(&mut db, &mut channel, Request::Unsubscribe);
    assert_eq!(response, Response::Okay);
    assert!(matches!(change, SubscriptionChange::Detach));
}

#[test]
fn subscribe_replaces_prior_subscription() {
    let mut db = Database::new();
    let mut channel = Channel::new();
    let (_, change) = handle_request(&mut db, &mut channel, Request::Subscribe(1));
    let _old_rx = match change {
        SubscriptionChange::Attach(rx) => rx,
        _ => panic!("subscribe must attach a receiver"),
    };
    // Re-subscribing to another channel implicitly gives channel 1 up; with
    // no subscriber left, channel 1 is reclaimed.
    drop(_old_rx);
    let (response, change) = handle_request(&mut db, &mut channel, Request::Subscribe(2));
    assert_eq!(response, Response::Okay);
    let mut rx = match change {
        SubscriptionChange::Attach(rx) => rx,
        _ => panic!("subscribe must attach a receiver"),
    };
    let (response, _) = handle_request(
        &mut db,
        &mut channel,
        Request::Publish(1, b"one".to_vec()),
    );
    assert_eq!(response, Response::NotFound);
    let (response, _) = handle_request(
        &mut db,
        &mut channel,
        Request::Publish(2, b"two".to_vec()),
    );
    assert_eq!(response, Response::Okay);
    assert_eq!(rx.try_recv().unwrap(), b"two".to_vec());
}

#[test]
fn session_cleanup_reclaims_the_channel() {
    let mut db = Database::new();

    // A session subscribes, then its socket closes: the session drops its
    // receiver and gives the subscription up, as it must on any exit.
    let mut channel = Channel::new();
    let (_, change) = handle_request(&mut db, &mut channel, Request::Subscribe(9));
    let rx = match change {
        SubscriptionChange::Attach(rx) => rx,
        _ => panic!("subscribe must attach a receiver"),
    };
    drop(rx);
    channel.unsubscribe(&mut db);

    // With no subscriber left the channel is reclaimed: publishing to it
    // reports an unregistered channel, and other sessions go on untouched.
    assert!(!db.publish(9, b"late".to_vec()));
    let (response, _) = handle_request(
        &mut db,
        &mut Channel::new(),
        Request::Publish(9, b"later".to_vec()),
    );
    assert_eq!(response, Response::NotFound);
}
