use minikv::codec::{decode_request, decode_response, encode_request, encode_response, DecodedRequest, DecodedResponse};
use minikv::protocol::{Request, Response};

fn request_round_trip(request: Request) {
    let frame = encode_request(&request);
    let decoded = decode_request(frame.as_slice());
    assert_eq!(decoded, DecodedRequest::Frame(request, frame.len()));
}

fn response_round_trip(response: Response) {
    let frame = encode_response(&response);
    let decoded = decode_response(frame.as_slice());
    assert_eq!(decoded, DecodedResponse::Frame(response, frame.len()));
}

#[test]
fn round_trip_ping() {
    request_round_trip(Request::Ping);
}

#[test]
fn round_trip_get() {
    request_round_trip(Request::Get(b"key".to_vec()));
}

#[test]
fn round_trip_get_empty_key() {
    request_round_trip(Request::Get(Vec::new()));
}

#[test]
fn round_trip_put() {
    request_round_trip(Request::Put(b"key".to_vec(), b"value".to_vec()));
}

#[test]
fn round_trip_put_empty_key_and_value() {
    request_round_trip(Request::Put(Vec::new(), Vec::new()));
}

#[test]
fn round_trip_delete() {
    request_round_trip(Request::Delete(b"gone".to_vec()));
}

#[test]
fn round_trip_publish() {
    request_round_trip(Request::Publish(7, b"hi".to_vec()));
}

#[test]
fn round_trip_publish_empty_payload() {
    request_round_trip(Request::Publish(u32::MAX, Vec::new()));
}

#[test]
fn round_trip_subscribe() {
    request_round_trip(Request::Subscribe(7));
}

#[test]
fn round_trip_unsubscribe() {
    request_round_trip(Request::Unsubscribe);
}

#[test]
fn round_trip_responses() {
    response_round_trip(Response::Pong);
    response_round_trip(Response::Okay);
    response_round_trip(Response::NotFound);
    response_round_trip(Response::Get(b"data".to_vec()));
    response_round_trip(Response::Get(Vec::new()));
    response_round_trip(Response::Message(b"published".to_vec()));
    response_round_trip(Response::Message(Vec::new()));
}

#[test]
fn round_trip_with_trailing_bytes() {
    let mut frame = encode_request(&Request::Put(b"a".to_vec(), b"bc".to_vec()));
    let used = frame.len();
    frame.extend_from_slice(&[0, 9, 9]);
    let decoded = decode_request(frame.as_slice());
    assert_eq!(
        decoded,
        DecodedRequest::Frame(Request::Put(b"a".to_vec(), b"bc".to_vec()), used)
    );
}

#[test]
fn request_frames_exact_bytes() {
    assert_eq!(encode_request(&Request::Ping), vec![0]);
    assert_eq!(
        encode_request(&Request::Get(b"ab".to_vec())),
        vec![1, 0, 2, 97, 98]
    );
    assert_eq!(
        encode_request(&Request::Put(b"a".to_vec(), b"bc".to_vec())),
        vec![2, 0, 1, 0, 0, 0, 2, 97, 98, 99]
    );
    assert_eq!(
        encode_request(&Request::Delete(b"ab".to_vec())),
        vec![3, 0, 2, 97, 98]
    );
    assert_eq!(
        encode_request(&Request::Publish(7, b"hi".to_vec())),
        vec![4, 0, 0, 0, 7, 0, 0, 0, 2, 104, 105]
    );
    assert_eq!(
        encode_request(&Request::Subscribe(0x01020304)),
        vec![5, 1, 2, 3, 4]
    );
    assert_eq!(encode_request(&Request::Unsubscribe), vec![6]);
}

#[test]
fn response_frames_exact_bytes() {
    assert_eq!(encode_response(&Response::Pong), vec![0]);
    assert_eq!(encode_response(&Response::Okay), vec![1]);
    assert_eq!(encode_response(&Response::NotFound), vec![2]);
    assert_eq!(
        encode_response(&Response::Get(b"1".to_vec())),
        vec![3, 0, 0, 0, 1, 49]
    );
    assert_eq!(
        encode_response(&Response::Message(b"hi".to_vec())),
        vec![4, 0, 0, 0, 2, 104, 105]
    );
}

#[test]
fn decode_incomplete_frames() {
    assert_eq!(decode_request(&[]), DecodedRequest::Incomplete);
    assert_eq!(decode_request(&[1]), DecodedRequest::Incomplete);
    assert_eq!(decode_request(&[1, 0]), DecodedRequest::Incomplete);
    assert_eq!(decode_request(&[1, 0, 2, 97]), DecodedRequest::Incomplete);
    assert_eq!(decode_request(&[2, 0, 1, 0, 0, 0]), DecodedRequest::Incomplete);
    assert_eq!(
        decode_request(&[2, 0, 1, 0, 0, 0, 1, 97]),
        DecodedRequest::Incomplete
    );
    assert_eq!(decode_request(&[4, 0, 0, 0, 7]), DecodedRequest::Incomplete);
    assert_eq!(decode_request(&[5, 0, 0]), DecodedRequest::Incomplete);
    assert_eq!(decode_response(&[]), DecodedResponse::Incomplete);
    assert_eq!(decode_response(&[3, 0, 0, 0]), DecodedResponse::Incomplete);
    assert_eq!(decode_response(&[4, 0, 0, 0, 1]), DecodedResponse::Incomplete);
}

#[test]
fn decode_unknown_tags() {
    assert_eq!(decode_request(&[7]), DecodedRequest::Invalid);
    assert_eq!(decode_request(&[255, 0, 0]), DecodedRequest::Invalid);
    assert_eq!(decode_response(&[5]), DecodedResponse::Invalid);
    assert_eq!(decode_response(&[9, 1, 2]), DecodedResponse::Invalid);
}

#[test]
fn kind_tags_are_fixed() {
    assert_eq!(Request::Ping.kind(), 0);
    assert_eq!(Request::Get(Vec::new()).kind(), 1);
    assert_eq!(Request::Put(Vec::new(), Vec::new()).kind(), 2);
    assert_eq!(Request::Delete(Vec::new()).kind(), 3);
    assert_eq!(Request::Publish(0, Vec::new()).kind(), 4);
    assert_eq!(Request::Subscribe(0).kind(), 5);
    assert_eq!(Request::Unsubscribe.kind(), 6);
    assert_eq!(Response::Pong.kind(), 0);
    assert_eq!(Response::Okay.kind(), 1);
    assert_eq!(Response::NotFound.kind(), 2);
    assert_eq!(Response::Get(Vec::new()).kind(), 3);
    assert_eq!(Response::Message(Vec::new()).kind(), 4);
}
