use vstd::prelude::*;
use vstd::slice::{slice_subrange, slice_to_vec};
use vstd::arithmetic::div_mod::{lemma_div_denominator, lemma_fundamental_div_mod};
use crate::protocol::{Request, Response, SpecRequest, SpecResponse};

verus! {

// ---------------------------------------------------------------------------
// Big-endian fields
// ---------------------------------------------------------------------------

/// The two big-endian bytes of a 16-bit length prefix.
pub open spec fn spec_u16_be(n: u16) -> Seq<u8> {
    seq![(n / 0x100) as u8, (n % 0x100) as u8]
}

/// The four big-endian bytes of a 32-bit field.
pub open spec fn spec_u32_be(n: u32) -> Seq<u8> {
    seq![
        (n / 0x1000000) as u8,
        ((n / 0x10000) % 0x100) as u8,
        ((n / 0x100) % 0x100) as u8,
        (n % 0x100) as u8,
    ]
}

/// The 16-bit big-endian integer spelled by `s[i]` and `s[i + 1]`.
pub open spec fn spec_u16_at(s: Seq<u8>, i: int) -> u16
    recommends
        0 <= i,
        i + 2 <= s.len(),
{
    (s[i] * 0x100 + s[i + 1]) as u16
}

/// The 32-bit big-endian integer spelled by `s[i]` through `s[i + 3]`.
pub open spec fn spec_u32_at(s: Seq<u8>, i: int) -> u32
    recommends
        0 <= i,
        i + 4 <= s.len(),
{
    (s[i] * 0x1000000 + s[i + 1] * 0x10000 + s[i + 2] * 0x100 + s[i + 3]) as u32
}

/// Reading two big-endian bytes gives back the encoded 16-bit value.
pub proof fn lemma_u16_at_of_bytes(s: Seq<u8>, i: int, n: u16)
    requires
        0 <= i,
        i + 2 <= s.len(),
        s[i] == spec_u16_be(n)[0],
        s[i + 1] == spec_u16_be(n)[1],
    ensures
        spec_u16_at(s, i) == n,
{
    lemma_fundamental_div_mod(n as int, 0x100);
}

/// Reading four big-endian bytes gives back the encoded 32-bit value.
pub proof fn lemma_u32_at_of_bytes(s: Seq<u8>, i: int, n: u32)
    requires
        0 <= i,
        i + 4 <= s.len(),
        s[i] == spec_u32_be(n)[0],
        s[i + 1] == spec_u32_be(n)[1],
        s[i + 2] == spec_u32_be(n)[2],
        s[i + 3] == spec_u32_be(n)[3],
    ensures
        spec_u32_at(s, i) == n,
{
    let x = n as int;
    lemma_fundamental_div_mod(x, 0x100);
    lemma_fundamental_div_mod(x / 0x100, 0x100);
    lemma_fundamental_div_mod(x / 0x10000, 0x100);
    lemma_div_denominator(x, 0x100, 0x100);
    lemma_div_denominator(x, 0x10000, 0x100);
    assert(x / 0x1000000 <= 0xff) by (nonlinear_arith)
        requires
            0 <= x <= 0xffffffff,
    ;
}

fn read_u16_at(buf: &[u8], i: usize) -> (n: u16)
    requires
        i + 2 <= buf@.len(),
    ensures
        n == spec_u16_at(buf@, i as int),
{
    buf[i] as u16 * 0x100 + buf[i + 1] as u16
}

fn read_u32_at(buf: &[u8], i: usize) -> (n: u32)
    requires
        i + 4 <= buf@.len(),
    ensures
        n == spec_u32_at(buf@, i as int),
{
    buf[i] as u32 * 0x1000000 + buf[i + 1] as u32 * 0x10000 + buf[i + 2] as u32 * 0x100
        + buf[i + 3] as u32
}

fn push_u16_be(out: &mut Vec<u8>, n: u16)
    ensures
        final(out)@ == old(out)@ + spec_u16_be(n),
{
    out.push((n / 0x100) as u8);
    out.push((n % 0x100) as u8);
    assert(out@ =~= old(out)@ + spec_u16_be(n));
}

fn push_u32_be(out: &mut Vec<u8>, n: u32)
    ensures
        final(out)@ == old(out)@ + spec_u32_be(n),
{
    out.push((n / 0x1000000) as u8);
    out.push(((n / 0x10000) % 0x100) as u8);
    out.push(((n / 0x100) % 0x100) as u8);
    out.push((n % 0x100) as u8);
    assert(out@ =~= old(out)@ + spec_u32_be(n));
}

fn push_bytes(out: &mut Vec<u8>, data: &[u8])
    ensures
        final(out)@ == old(out)@ + data@,
{
    let mut i: usize = 0;
    while i < data.len()
        invariant
            i <= data@.len(),
            out@ == old(out)@ + data@.subrange(0, i as int),
        decreases data@.len() - i,
    {
        out.push(data[i]);
        i = i + 1;
        assert(out@ =~= old(out)@ + data@.subrange(0, i as int));
    }
    assert(data@.subrange(0, data@.len() as int) =~= data@);
}

// ---------------------------------------------------------------------------
// Frames
// ---------------------------------------------------------------------------

/// Whether a request's byte fields fit their wire length prefixes: keys are
/// 16-bit length-prefixed, values and payloads 32-bit.
pub open spec fn request_fits(r: SpecRequest) -> bool {
    match r {
        SpecRequest::Ping => true,
        SpecRequest::Get(key) => key.len() <= 0xffff,
        SpecRequest::Put(key, value) => key.len() <= 0xffff && value.len() <= 0xffffffff,
        SpecRequest::Delete(key) => key.len() <= 0xffff,
        SpecRequest::Publish(_, payload) => payload.len() <= 0xffffffff,
        SpecRequest::Subscribe(_) => true,
        SpecRequest::Unsubscribe => true,
    }
}

/// Whether a response's data fits its 32-bit wire length prefix.
pub open spec fn response_fits(r: SpecResponse) -> bool {
    match r {
        SpecResponse::Get(data) => data.len() <= 0xffffffff,
        SpecResponse::Message(data) => data.len() <= 0xffffffff,
        _ => true,
    }
}

/// The frame of one request: a tag byte, then the variant's length-prefixed
/// fields, big-endian.
pub open spec fn spec_encode_request(r: SpecRequest) -> Seq<u8> {
    match r {
        SpecRequest::Ping => seq![Request::PING],
        SpecRequest::Get(key) => seq![Request::GET] + spec_u16_be(key.len() as u16) + key,
        SpecRequest::Put(key, value) => seq![Request::SET] + spec_u16_be(key.len() as u16)
            + spec_u32_be(value.len() as u32) + key + value,
        SpecRequest::Delete(key) => seq![Request::DELETE] + spec_u16_be(key.len() as u16) + key,
        SpecRequest::Publish(id, payload) => seq![Request::PUBLISH] + spec_u32_be(id)
            + spec_u32_be(payload.len() as u32) + payload,
        SpecRequest::Subscribe(id) => seq![Request::SUBSCRIBE] + spec_u32_be(id),
        SpecRequest::Unsubscribe => seq![Request::UNSUBSCRIBE],
    }
}

/// The frame of one response.
pub open spec fn spec_encode_response(r: SpecResponse) -> Seq<u8> {
    match r {
        SpecResponse::Pong => seq![Response::PONG],
        SpecResponse::Okay => seq![Response::OK],
        SpecResponse::NotFound => seq![Response::NOT_FOUND],
        SpecResponse::Get(data) => seq![Response::GET] + spec_u32_be(data.len() as u32) + data,
        SpecResponse::Message(data) => seq![Response::MESSAGE] + spec_u32_be(data.len() as u32)
            + data,
    }
}

/// Writes one request frame. The length bounds are what the 16- and 32-bit
/// wire prefixes force.
pub fn encode_request(request: &Request) -> (out: Vec<u8>)
    requires
        request_fits(request@),
    ensures
        out@ == spec_encode_request(request@),
{
    let mut out: Vec<u8> = Vec::new();
    match request {
        Request::Ping => {
            out.push(Request::PING);
            assert(out@ =~= spec_encode_request(request@));
        }
        Request::Get(key) => {
            out.push(Request::GET);
            push_u16_be(&mut out, key.len() as u16);
            push_bytes(&mut out, key.as_slice());
            assert(out@ =~= spec_encode_request(request@));
        }
        Request::Put(key, value) => {
            out.push(Request::SET);
            push_u16_be(&mut out, key.len() as u16);
            push_u32_be(&mut out, value.len() as u32);
            push_bytes(&mut out, key.as_slice());
            push_bytes(&mut out, value.as_slice());
            assert(out@ =~= spec_encode_request(request@));
        }
        Request::Delete(key) => {
            out.push(Request::DELETE);
            push_u16_be(&mut out, key.len() as u16);
            push_bytes(&mut out, key.as_slice());
            assert(out@ =~= spec_encode_request(request@));
        }
        Request::Publish(id, payload) => {
            out.push(Request::PUBLISH);
            push_u32_be(&mut out, *id);
            push_u32_be(&mut out, payload.len() as u32);
            push_bytes(&mut out, payload.as_slice());
            assert(out@ =~= spec_encode_request(request@));
        }
        Request::Subscribe(id) => {
            out.push(Request::SUBSCRIBE);
            push_u32_be(&mut out, *id);
            assert(out@ =~= spec_encode_request(request@));
        }
        Request::Unsubscribe => {
            out.push(Request::UNSUBSCRIBE);
            assert(out@ =~= spec_encode_request(request@));
        }
    }
    out
}

/// Writes one response frame.
pub fn encode_response(response: &Response) -> (out: Vec<u8>)
    requires
        response_fits(response@),
    ensures
        out@ == spec_encode_response(response@),
{
    let mut out: Vec<u8> = Vec::new();
    match response {
        Response::Pong => {
            out.push(Response::PONG);
            assert(out@ =~= spec_encode_response(response@));
        }
        Response::Okay => {
            out.push(Response::OK);
            assert(out@ =~= spec_encode_response(response@));
        }
        Response::NotFound => {
            out.push(Response::NOT_FOUND);
            assert(out@ =~= spec_encode_response(response@));
        }
        Response::Get(data) => {
            out.push(Response::GET);
            push_u32_be(&mut out, data.len() as u32);
            push_bytes(&mut out, data.as_slice());
            assert(out@ =~= spec_encode_response(response@));
        }
        Response::Message(data) => {
            out.push(Response::MESSAGE);
            push_u32_be(&mut out, data.len() as u32);
            push_bytes(&mut out, data.as_slice());
            assert(out@ =~= spec_encode_response(response@));
        }
    }
    out
}


// ---------------------------------------------------------------------------
// Decoding
// ---------------------------------------------------------------------------

/// Outcome of reading one frame from the front of a byte sequence: a complete
/// frame and the count of bytes it spans, too few bytes yet, or an
/// unrecognized tag.
pub enum SpecDecoded<T> {
    Frame(T, int),
    Incomplete,
    Invalid,
}

/// Outcome of decoding one request frame from the front of a buffer.
/// `Incomplete` means the buffer ends mid-frame: more bytes are needed, or
/// the peer disconnected. `Invalid` is an unrecognized tag, a protocol error.
#[derive(Debug, PartialEq, Eq)]
pub enum DecodedRequest {
    Frame(Request, usize),
    Incomplete,
    Invalid,
}

/// Outcome of decoding one response frame from the front of a buffer.
#[derive(Debug, PartialEq, Eq)]
pub enum DecodedResponse {
    Frame(Response, usize),
    Incomplete,
    Invalid,
}

impl View for DecodedRequest {
    type V = SpecDecoded<SpecRequest>;

    open spec fn view(&self) -> SpecDecoded<SpecRequest> {
        match self {
            DecodedRequest::Frame(request, used) => SpecDecoded::Frame(request@, *used as int),
            DecodedRequest::Incomplete => SpecDecoded::Incomplete,
            DecodedRequest::Invalid => SpecDecoded::Invalid,
        }
    }
}

impl View for DecodedResponse {
    type V = SpecDecoded<SpecResponse>;

    open spec fn view(&self) -> SpecDecoded<SpecResponse> {
        match self {
            DecodedResponse::Frame(response, used) => SpecDecoded::Frame(response@, *used as int),
            DecodedResponse::Incomplete => SpecDecoded::Incomplete,
            DecodedResponse::Invalid => SpecDecoded::Invalid,
        }
    }
}

/// What one request frame at the front of `s` decodes to.
pub open spec fn spec_decode_request(s: Seq<u8>) -> SpecDecoded<SpecRequest> {
    if s.len() < 1 {
        SpecDecoded::Incomplete
    } else if s[0] == Request::PING {
        SpecDecoded::Frame(SpecRequest::Ping, 1)
    } else if s[0] == Request::GET {
        if s.len() < 3 {
            SpecDecoded::Incomplete
        } else {
            let klen = spec_u16_at(s, 1) as int;
            if s.len() < 3 + klen {
                SpecDecoded::Incomplete
            } else {
                SpecDecoded::Frame(SpecRequest::Get(s.subrange(3, 3 + klen)), 3 + klen)
            }
        }
    } else if s[0] == Request::SET {
        if s.len() < 7 {
            SpecDecoded::Incomplete
        } else {
            let klen = spec_u16_at(s, 1) as int;
            let vlen = spec_u32_at(s, 3) as int;
            if s.len() < 7 + klen + vlen {
                SpecDecoded::Incomplete
            } else {
                SpecDecoded::Frame(
                    SpecRequest::Put(
                        s.subrange(7, 7 + klen),
                        s.subrange(7 + klen, 7 + klen + vlen),
                    ),
                    7 + klen + vlen,
                )
            }
        }
    } else if s[0] == Request::DELETE {
        if s.len() < 3 {
            SpecDecoded::Incomplete
        } else {
            let klen = spec_u16_at(s, 1) as int;
            if s.len() < 3 + klen {
                SpecDecoded::Incomplete
            } else {
                SpecDecoded::Frame(SpecRequest::Delete(s.subrange(3, 3 + klen)), 3 + klen)
            }
        }
    } else if s[0] == Request::PUBLISH {
        if s.len() < 9 {
            SpecDecoded::Incomplete
        } else {
            let id = spec_u32_at(s, 1);
            let plen = spec_u32_at(s, 5) as int;
            if s.len() < 9 + plen {
                SpecDecoded::Incomplete
            } else {
                SpecDecoded::Frame(SpecRequest::Publish(id, s.subrange(9, 9 + plen)), 9 + plen)
            }
        }
    } else if s[0] == Request::SUBSCRIBE {
        if s.len() < 5 {
            SpecDecoded::Incomplete
        } else {
            SpecDecoded::Frame(SpecRequest::Subscribe(spec_u32_at(s, 1)), 5)
        }
    } else if s[0] == Request::UNSUBSCRIBE {
        SpecDecoded::Frame(SpecRequest::Unsubscribe, 1)
    } else {
        SpecDecoded::Invalid
    }
}

/// What one response frame at the front of `s` decodes to.
pub open spec fn spec_decode_response(s: Seq<u8>) -> SpecDecoded<SpecResponse> {
    if s.len() < 1 {
        SpecDecoded::Incomplete
    } else if s[0] == Response::PONG {
        SpecDecoded::Frame(SpecResponse::Pong, 1)
    } else if s[0] == Response::OK {
        SpecDecoded::Frame(SpecResponse::Okay, 1)
    } else if s[0] == Response::NOT_FOUND {
        SpecDecoded::Frame(SpecResponse::NotFound, 1)
    } else if s[0] == Response::GET || s[0] == Response::MESSAGE {
        if s.len() < 5 {
            SpecDecoded::Incomplete
        } else {
            let dlen = spec_u32_at(s, 1) as int;
            if s.len() < 5 + dlen {
                SpecDecoded::Incomplete
            } else {
                let data = s.subrange(5, 5 + dlen);
                if s[0] == Response::GET {
                    SpecDecoded::Frame(SpecResponse::Get(data), 5 + dlen)
                } else {
                    SpecDecoded::Frame(SpecResponse::Message(data), 5 + dlen)
                }
            }
        }
    } else {
        SpecDecoded::Invalid
    }
}

/// Reads one request frame from the front of `buf`. Either a whole frame is
/// there and it is returned with its span, or nothing usable has been read.
pub fn decode_request(buf: &[u8]) -> (r: DecodedRequest)
    ensures
        r@ == spec_decode_request(buf@),
{
    if buf.len() < 1 {
        return DecodedRequest::Incomplete;
    }
    let tag = buf[0];
    if tag == Request::PING {
        DecodedRequest::Frame(Request::Ping, 1)
    } else if tag == Request::GET {
        if buf.len() < 3 {
            return DecodedRequest::Incomplete;
        }
        let klen = read_u16_at(buf, 1) as usize;
        if buf.len() - 3 < klen {
            return DecodedRequest::Incomplete;
        }
        let key = slice_to_vec(slice_subrange(buf, 3, 3 + klen));
        DecodedRequest::Frame(Request::Get(key), 3 + klen)
    } else if tag == Request::SET {
        if buf.len() < 7 {
            return DecodedRequest::Incomplete;
        }
        let klen = read_u16_at(buf, 1) as usize;
        let vlen = read_u32_at(buf, 3) as usize;
        if buf.len() - 7 < klen {
            return DecodedRequest::Incomplete;
        }
        if buf.len() - 7 - klen < vlen {
            return DecodedRequest::Incomplete;
        }
        let key = slice_to_vec(slice_subrange(buf, 7, 7 + klen));
        let value = slice_to_vec(slice_subrange(buf, 7 + klen, 7 + klen + vlen));
        DecodedRequest::Frame(Request::Put(key, value), 7 + klen + vlen)
    } else if tag == Request::DELETE {
        if buf.len() < 3 {
            return DecodedRequest::Incomplete;
        }
        let klen = read_u16_at(buf, 1) as usize;
        if buf.len() - 3 < klen {
            return DecodedRequest::Incomplete;
        }
        let key = slice_to_vec(slice_subrange(buf, 3, 3 + klen));
        DecodedRequest::Frame(Request::Delete(key), 3 + klen)
    } else if tag == Request::PUBLISH {
        if buf.len() < 9 {
            return DecodedRequest::Incomplete;
        }
        let id = read_u32_at(buf, 1);
        let plen = read_u32_at(buf, 5) as usize;
        if buf.len() - 9 < plen {
            return DecodedRequest::Incomplete;
        }
        let payload = slice_to_vec(slice_subrange(buf, 9, 9 + plen));
        DecodedRequest::Frame(Request::Publish(id, payload), 9 + plen)
    } else if tag == Request::SUBSCRIBE {
        if buf.len() < 5 {
            return DecodedRequest::Incomplete;
        }
        let id = read_u32_at(buf, 1);
        DecodedRequest::Frame(Request::Subscribe(id), 5)
    } else if tag == Request::UNSUBSCRIBE {
        DecodedRequest::Frame(Request::Unsubscribe, 1)
    } else {
        DecodedRequest::Invalid
    }
}

/// Reads one response frame from the front of `buf`.
pub fn decode_response(buf: &[u8]) -> (r: DecodedResponse)
    ensures
        r@ == spec_decode_response(buf@),
{
    if buf.len() < 1 {
        return DecodedResponse::Incomplete;
    }
    let tag = buf[0];
    if tag == Response::PONG {
        DecodedResponse::Frame(Response::Pong, 1)
    } else if tag == Response::OK {
        DecodedResponse::Frame(Response::Okay, 1)
    } else if tag == Response::NOT_FOUND {
        DecodedResponse::Frame(Response::NotFound, 1)
    } else if tag == Response::GET || tag == Response::MESSAGE {
        if buf.len() < 5 {
            return DecodedResponse::Incomplete;
        }
        let dlen = read_u32_at(buf, 1) as usize;
        if buf.len() - 5 < dlen {
            return DecodedResponse::Incomplete;
        }
        let data = slice_to_vec(slice_subrange(buf, 5, 5 + dlen));
        if tag == Response::GET {
            DecodedResponse::Frame(Response::Get(data), 5 + dlen)
        } else {
            DecodedResponse::Frame(Response::Message(data), 5 + dlen)
        }
    } else {
        DecodedResponse::Invalid
    }
}


// ---------------------------------------------------------------------------
// Round trip
// ---------------------------------------------------------------------------

/// Law: a request frame decodes back to the request it encodes, whatever
/// bytes follow it, and spans exactly the encoded bytes. Holds for every
/// request whose fields fit the wire's length prefixes, zero-length fields
/// included.
pub proof fn lemma_request_round_trip(r: SpecRequest, rest: Seq<u8>)
    requires
        request_fits(r),
    ensures
        spec_decode_request(spec_encode_request(r) + rest) == SpecDecoded::Frame(
            r,
            spec_encode_request(r).len() as int,
        ),
{
    let enc = spec_encode_request(r);
    let s = enc + rest;
    match r {
        SpecRequest::Ping => {
            assert(s[0] == Request::PING);
        }
        SpecRequest::Get(key) => {
            let kl = key.len() as u16;
            assert(s[0] == Request::GET);
            assert(s[1] == spec_u16_be(kl)[0]);
            assert(s[2] == spec_u16_be(kl)[1]);
            lemma_u16_at_of_bytes(s, 1, kl);
            assert(s.subrange(3, 3 + key.len() as int) =~= key);
        }
        SpecRequest::Put(key, value) => {
            let kl = key.len() as u16;
            let vl = value.len() as u32;
            assert(s[0] == Request::SET);
            assert(s[1] == spec_u16_be(kl)[0]);
            assert(s[2] == spec_u16_be(kl)[1]);
            assert(s[3] == spec_u32_be(vl)[0]);
            assert(s[4] == spec_u32_be(vl)[1]);
            assert(s[5] == spec_u32_be(vl)[2]);
            assert(s[6] == spec_u32_be(vl)[3]);
            lemma_u16_at_of_bytes(s, 1, kl);
            lemma_u32_at_of_bytes(s, 3, vl);
            assert(s.subrange(7, 7 + key.len() as int) =~= key);
            assert(s.subrange(7 + key.len() as int, 7 + key.len() + value.len() as int) =~= value);
        }
        SpecRequest::Delete(key) => {
            let kl = key.len() as u16;
            assert(s[0] == Request::DELETE);
            assert(s[1] == spec_u16_be(kl)[0]);
            assert(s[2] == spec_u16_be(kl)[1]);
            lemma_u16_at_of_bytes(s, 1, kl);
            assert(s.subrange(3, 3 + key.len() as int) =~= key);
        }
        SpecRequest::Publish(id, payload) => {
            let pl = payload.len() as u32;
            assert(s[0] == Request::PUBLISH);
            assert(s[1] == spec_u32_be(id)[0]);
            assert(s[2] == spec_u32_be(id)[1]);
            assert(s[3] == spec_u32_be(id)[2]);
            assert(s[4] == spec_u32_be(id)[3]);
            assert(s[5] == spec_u32_be(pl)[0]);
            assert(s[6] == spec_u32_be(pl)[1]);
            assert(s[7] == spec_u32_be(pl)[2]);
            assert(s[8] == spec_u32_be(pl)[3]);
            lemma_u32_at_of_bytes(s, 1, id);
            lemma_u32_at_of_bytes(s, 5, pl);
            assert(s.subrange(9, 9 + payload.len() as int) =~= payload);
        }
        SpecRequest::Subscribe(id) => {
            assert(s[0] == Request::SUBSCRIBE);
            assert(s[1] == spec_u32_be(id)[0]);
            assert(s[2] == spec_u32_be(id)[1]);
            assert(s[3] == spec_u32_be(id)[2]);
            assert(s[4] == spec_u32_be(id)[3]);
            lemma_u32_at_of_bytes(s, 1, id);
        }
        SpecRequest::Unsubscribe => {
            assert(s[0] == Request::UNSUBSCRIBE);
        }
    }
}

/// Law: a response frame decodes back to the response it encodes, whatever
/// bytes follow it, and spans exactly the encoded bytes.
pub proof fn lemma_response_round_trip(r: SpecResponse, rest: Seq<u8>)
    requires
        response_fits(r),
    ensures
        spec_decode_response(spec_encode_response(r) + rest) == SpecDecoded::Frame(
            r,
            spec_encode_response(r).len() as int,
        ),
{
    let enc = spec_encode_response(r);
    let s = enc + rest;
    match r {
        SpecResponse::Pong => {
            assert(s[0] == Response::PONG);
        }
        SpecResponse::Okay => {
            assert(s[0] == Response::OK);
        }
        SpecResponse::NotFound => {
            assert(s[0] == Response::NOT_FOUND);
        }
        SpecResponse::Get(data) => {
            let dl = data.len() as u32;
            assert(s[0] == Response::GET);
            assert(s[1] == spec_u32_be(dl)[0]);
            assert(s[2] == spec_u32_be(dl)[1]);
            assert(s[3] == spec_u32_be(dl)[2]);
            assert(s[4] == spec_u32_be(dl)[3]);
            lemma_u32_at_of_bytes(s, 1, dl);
            assert(s.subrange(5, 5 + data.len() as int) =~= data);
        }
        SpecResponse::Message(data) => {
            let dl = data.len() as u32;
            assert(s[0] == Response::MESSAGE);
            assert(s[1] == spec_u32_be(dl)[0]);
            assert(s[2] == spec_u32_be(dl)[1]);
            assert(s[3] == spec_u32_be(dl)[2]);
            assert(s[4] == spec_u32_be(dl)[3]);
            lemma_u32_at_of_bytes(s, 1, dl);
            assert(s.subrange(5, 5 + data.len() as int) =~= data);
        }
    }
}

} // verus!
