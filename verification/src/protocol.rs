use vstd::prelude::*;

verus! {

/// Mathematical model of a request: the same variants as `Request`, with
/// byte sequences in place of vectors.
pub enum SpecRequest {
    Ping,
    Get(Seq<u8>),
    Put(Seq<u8>, Seq<u8>),
    Delete(Seq<u8>),
    Publish(u32, Seq<u8>),
    Subscribe(u32),
    Unsubscribe,
}

/// Mathematical model of a response.
pub enum SpecResponse {
    Pong,
    Okay,
    NotFound,
    Get(Seq<u8>),
    Message(Seq<u8>),
}

/// One framed client request. `key`, `value` and `payload` fields are raw
/// bytes; channel ids are unsigned 32-bit integers.
#[derive(Debug, Clone, PartialEq, Eq)]
pub enum Request {
    Ping,
    Get(Vec<u8>),
    Put(Vec<u8>, Vec<u8>),
    Delete(Vec<u8>),
    Publish(u32, Vec<u8>),
    Subscribe(u32),
    Unsubscribe,
}

/// One framed server response. `Message` carries an asynchronously published
/// payload; the others answer exactly one request each.
#[derive(Debug, Clone, PartialEq, Eq)]
pub enum Response {
    Pong,
    Okay,
    NotFound,
    Get(Vec<u8>),
    Message(Vec<u8>),
}

impl View for Request {
    type V = SpecRequest;

    open spec fn view(&self) -> SpecRequest {
        match self {
            Request::Ping => SpecRequest::Ping,
            Request::Get(key) => SpecRequest::Get(key@),
            Request::Put(key, value) => SpecRequest::Put(key@, value@),
            Request::Delete(key) => SpecRequest::Delete(key@),
            Request::Publish(id, payload) => SpecRequest::Publish(*id, payload@),
            Request::Subscribe(id) => SpecRequest::Subscribe(*id),
            Request::Unsubscribe => SpecRequest::Unsubscribe,
        }
    }
}

impl View for Response {
    type V = SpecResponse;

    open spec fn view(&self) -> SpecResponse {
        match self {
            Response::Pong => SpecResponse::Pong,
            Response::Okay => SpecResponse::Okay,
            Response::NotFound => SpecResponse::NotFound,
            Response::Get(data) => SpecResponse::Get(data@),
            Response::Message(data) => SpecResponse::Message(data@),
        }
    }
}

impl SpecRequest {
    /// The wire tag of each request variant.
    pub open spec fn kind(self) -> u8 {
        match self {
            SpecRequest::Ping => Request::PING,
            SpecRequest::Get(_) => Request::GET,
            SpecRequest::Put(_, _) => Request::SET,
            SpecRequest::Delete(_) => Request::DELETE,
            SpecRequest::Publish(_, _) => Request::PUBLISH,
            SpecRequest::Subscribe(_) => Request::SUBSCRIBE,
            SpecRequest::Unsubscribe => Request::UNSUBSCRIBE,
        }
    }
}

impl SpecResponse {
    /// The wire tag of each response variant.
    pub open spec fn kind(self) -> u8 {
        match self {
            SpecResponse::Pong => Response::PONG,
            SpecResponse::Okay => Response::OK,
            SpecResponse::NotFound => Response::NOT_FOUND,
            SpecResponse::Get(_) => Response::GET,
            SpecResponse::Message(_) => Response::MESSAGE,
        }
    }
}

impl Request {
    pub const PING: u8 = 0;
    pub const GET: u8 = 1;
    pub const SET: u8 = 2;
    pub const DELETE: u8 = 3;
    pub const PUBLISH: u8 = 4;
    pub const SUBSCRIBE: u8 = 5;
    pub const UNSUBSCRIBE: u8 = 6;

    /// The tag byte that opens this request's wire frame.
    pub fn kind(&self) -> (k: u8)
        ensures
            k == self@.kind(),
    {
        match self {
            Request::Ping => Request::PING,
            Request::Get(_) => Request::GET,
            Request::Put(_, _) => Request::SET,
            Request::Delete(_) => Request::DELETE,
            Request::Publish(_, _) => Request::PUBLISH,
            Request::Subscribe(_) => Request::SUBSCRIBE,
            Request::Unsubscribe => Request::UNSUBSCRIBE,
        }
    }
}

impl Response {
    pub const PONG: u8 = 0;
    pub const OK: u8 = 1;
    pub const NOT_FOUND: u8 = 2;
    pub const GET: u8 = 3;
    pub const MESSAGE: u8 = 4;

    /// The tag byte that opens this response's wire frame.
    pub fn kind(&self) -> (k: u8)
        ensures
            k == self@.kind(),
    {
        match self {
            Response::Pong => Response::PONG,
            Response::Okay => Response::OK,
            Response::NotFound => Response::NOT_FOUND,
            Response::Get(_) => Response::GET,
            Response::Message(_) => Response::MESSAGE,
        }
    }
}

} // verus!
