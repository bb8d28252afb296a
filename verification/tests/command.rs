use minikv::error::Error;
use minikv::protocol::Request;

#[test]
fn parse_ping() {
    assert_eq!(Request::try_from("PING"), Ok(Request::Ping));
    assert_eq!(Request::try_from("ping"), Ok(Request::Ping));
    assert_eq!(Request::try_from("p"), Ok(Request::Ping));
    assert_eq!(Request::try_from("  PING  "), Ok(Request::Ping));
}

#[test]
fn parse_get() {
    assert_eq!(
        Request::try_from("GET key"),
        Ok(Request::Get(b"key".to_vec()))
    );
    assert_eq!(Request::try_from("g key"), Ok(Request::Get(b"key".to_vec())));
    assert_eq!(
        Request::try_from("get Key"),
        Ok(Request::Get(b"Key".to_vec()))
    );
}

#[test]
fn parse_set() {
    assert_eq!(
        Request::try_from("SET key value"),
        Ok(Request::Put(b"key".to_vec(), b"value".to_vec()))
    );
    assert_eq!(
        Request::try_from("s k v"),
        Ok(Request::Put(b"k".to_vec(), b"v".to_vec()))
    );
}

#[test]
fn parse_delete() {
    assert_eq!(
        Request::try_from("DELETE key"),
        Ok(Request::Delete(b"key".to_vec()))
    );
    assert_eq!(
        Request::try_from("d key"),
        Ok(Request::Delete(b"key".to_vec()))
    );
}

#[test]
fn parse_publish() {
    assert_eq!(
        Request::try_from("PUBLISH 7 hi"),
        Ok(Request::Publish(7, b"hi".to_vec()))
    );
    assert_eq!(
        Request::try_from("pub 7 hi"),
        Ok(Request::Publish(7, b"hi".to_vec()))
    );
    assert_eq!(
        Request::try_from("pub 4294967295 x"),
        Ok(Request::Publish(u32::MAX, b"x".to_vec()))
    );
}

#[test]
fn parse_subscribe() {
    assert_eq!(Request::try_from("SUBSCRIBE 9"), Ok(Request::Subscribe(9)));
    assert_eq!(Request::try_from("sub 9"), Ok(Request::Subscribe(9)));
    assert_eq!(Request::try_from("sub +9"), Ok(Request::Subscribe(9)));
    assert_eq!(Request::try_from("sub 0"), Ok(Request::Subscribe(0)));
}

#[test]
fn parse_unsubscribe() {
    assert_eq!(Request::try_from("UNSUBSCRIBE"), Ok(Request::Unsubscribe));
    assert_eq!(Request::try_from("unsub"), Ok(Request::Unsubscribe));
}

#[test]
fn extra_arguments_are_ignored() {
    assert_eq!(Request::try_from("ping now"), Ok(Request::Ping));
    assert_eq!(
        Request::try_from("get key extra"),
        Ok(Request::Get(b"key".to_vec()))
    );
}

#[test]
fn parse_rejects_malformed_lines() {
    assert_eq!(Request::try_from(""), Err(Error::Parse));
    assert_eq!(Request::try_from("   "), Err(Error::Parse));
    assert_eq!(Request::try_from("nonsense"), Err(Error::Parse));
    assert_eq!(Request::try_from("get"), Err(Error::Parse));
    assert_eq!(Request::try_from("set k"), Err(Error::Parse));
    assert_eq!(Request::try_from("pub seven hi"), Err(Error::Parse));
    assert_eq!(Request::try_from("pub 7"), Err(Error::Parse));
    assert_eq!(Request::try_from("sub"), Err(Error::Parse));
    assert_eq!(Request::try_from("sub -1"), Err(Error::Parse));
    assert_eq!(Request::try_from("sub 4294967296"), Err(Error::Parse));
    assert_eq!(Request::try_from("sub 99999999999999999999 x"), Err(Error::Parse));
    assert_eq!(Request::try_from("pinger"), Err(Error::Parse));
}
