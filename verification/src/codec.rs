//! The wire codec: tagged, length-prefixed binary frames for the two message
//! families, `Request` and `Response`.
//!
//! A frame is one tag byte followed by the variant's payload. Every 128-bit
//! identifier field is preceded by a fixed length marker (the constant 128,
//! one byte in requests, two bytes in responses) that is written and skipped
//! but never interpreted. Text is preceded by its byte count as a 16-bit
//! big-endian integer and carried as raw UTF-8 bytes.

use vstd::prelude::*;
use vstd::string::StrSliceExecFns;
use vstd::utf8::{
    decode_utf8, encode_utf8, encode_utf8_decode_utf8, encode_utf8_valid_utf8, valid_utf8,
};

use crate::wire::{
    lemma_u128_be_round_trip, lemma_u16_be_round_trip, push_u128_be, push_u16_be, read_u128_be,
    read_u16_be, spec_u128_be, spec_u128_from_be, spec_u16_be, spec_u16_from_be,
};

verus! {

/// Tag byte of a `Request::Join` frame.
pub const TAG_REQ_JOIN: u8 = 0;

/// Tag byte of a `Request::Message` frame.
pub const TAG_REQ_MESSAGE: u8 = 1;

/// Tag byte of a `Response::Error` frame.
pub const TAG_RESP_ERROR: u8 = 0;

/// Tag byte of a `Response::JoinReject` frame.
pub const TAG_RESP_JOIN_REJECT: u8 = 1;

/// Tag byte of a `Response::Joined` frame.
pub const TAG_RESP_JOINED: u8 = 2;

/// Tag byte of a `Response::MsgSent` frame.
pub const TAG_RESP_MSG_SENT: u8 = 3;

/// The fixed length marker written before every 128-bit identifier field.
/// It is a wire-format constant, emitted and skipped but never validated.
pub const U128_MARKER: u8 = 128;

/// Longest admissible text payload in bytes: the length field is 16 bits.
pub const MAX_TEXT_LEN: usize = 65535;

/// A client-to-server message.
pub enum Request {
    /// Ask to join the room with the given identifier.
    Join(u128),
    /// A single text message addressed to a room.
    Message { room_id: u128, message: String },
}

/// A server-to-client message.
pub enum Response {
    /// The request was malformed or illegal in the current session state.
    Error,
    /// The join was refused: the sender's identity is already registered.
    JoinReject,
    /// The join was accepted; echoes the room identifier.
    Joined(u128),
    /// The message was accepted, under a server-assigned identifier.
    MsgSent(u128),
}

/// Why a decode failed.
#[derive(Clone, Copy, PartialEq, Eq, Structural, Debug)]
pub enum DecodeError {
    /// The tag byte names no variant.
    InvalidTag,
    /// The stream ended before the frame was complete.
    UnexpectedEof,
    /// A text payload was not valid UTF-8.
    InvalidEncoding,
}

/// Why an encode failed.
#[derive(Clone, Copy, PartialEq, Eq, Structural, Debug)]
pub enum EncodeError {
    /// The text payload does not fit the 16-bit length field.
    TextTooLong,
}

/// The mathematical value of a `Request`: the text is its character sequence.
pub enum RequestView {
    Join { room_id: u128 },
    Message { room_id: u128, text: Seq<char> },
}

/// The mathematical value of a `Response`.
pub enum ResponseView {
    Error,
    JoinReject,
    Joined { room_id: u128 },
    MsgSent { message_id: u128 },
}

impl View for Request {
    type V = RequestView;

    open spec fn view(&self) -> RequestView {
        match self {
            Request::Join(room_id) => RequestView::Join { room_id: *room_id },
            Request::Message { room_id, message } => RequestView::Message {
                room_id: *room_id,
                text: message@,
            },
        }
    }
}

impl View for Response {
    type V = ResponseView;

    open spec fn view(&self) -> ResponseView {
        match self {
            Response::Error => ResponseView::Error,
            Response::JoinReject => ResponseView::JoinReject,
            Response::Joined(room_id) => ResponseView::Joined { room_id: *room_id },
            Response::MsgSent(message_id) => ResponseView::MsgSent { message_id: *message_id },
        }
    }
}

/// A request is encodable when its text payload fits the 16-bit length field.
pub open spec fn request_wf(r: RequestView) -> bool {
    match r {
        RequestView::Join { .. } => true,
        RequestView::Message { text, .. } => encode_utf8(text).len() <= MAX_TEXT_LEN,
    }
}

/// The frame bytes of a request.
pub open spec fn spec_encode_request(r: RequestView) -> Seq<u8> {
    match r {
        RequestView::Join { room_id } => seq![TAG_REQ_JOIN, U128_MARKER] + spec_u128_be(room_id),
        RequestView::Message { room_id, text } => {
            let payload = encode_utf8(text);
            seq![TAG_REQ_MESSAGE, U128_MARKER] + spec_u128_be(room_id)
                + spec_u16_be(payload.len() as u16) + payload
        },
    }
}

/// The frame bytes of a response.
pub open spec fn spec_encode_response(r: ResponseView) -> Seq<u8> {
    match r {
        ResponseView::Error => seq![TAG_RESP_ERROR],
        ResponseView::JoinReject => seq![TAG_RESP_JOIN_REJECT],
        ResponseView::Joined { room_id } => seq![TAG_RESP_JOINED]
            + spec_u16_be(U128_MARKER as u16) + spec_u128_be(room_id),
        ResponseView::MsgSent { message_id } => seq![TAG_RESP_MSG_SENT]
            + spec_u16_be(U128_MARKER as u16) + spec_u128_be(message_id),
    }
}

/// What decoding one request frame from the front of `bytes` yields: the
/// value and the number of bytes consumed, or the failure.
pub open spec fn spec_decode_request(bytes: Seq<u8>) -> Result<(RequestView, int), DecodeError> {
    if bytes.len() < 1 {
        Err(DecodeError::UnexpectedEof)
    } else if bytes[0] == TAG_REQ_JOIN {
        if bytes.len() < 18 {
            Err(DecodeError::UnexpectedEof)
        } else {
            Ok((RequestView::Join { room_id: spec_u128_from_be(bytes.subrange(2, 18)) }, 18))
        }
    } else if bytes[0] == TAG_REQ_MESSAGE {
        if bytes.len() < 20 {
            Err(DecodeError::UnexpectedEof)
        } else {
            let len = spec_u16_from_be(bytes.subrange(18, 20)) as int;
            if bytes.len() < 20 + len {
                Err(DecodeError::UnexpectedEof)
            } else {
                let payload = bytes.subrange(20, 20 + len);
                if valid_utf8(payload) {
                    Ok((RequestView::Message {
                        room_id: spec_u128_from_be(bytes.subrange(2, 18)),
                        text: decode_utf8(payload),
                    }, 20 + len))
                } else {
                    Err(DecodeError::InvalidEncoding)
                }
            }
        }
    } else {
        Err(DecodeError::InvalidTag)
    }
}

/// What decoding one response frame from the front of `bytes` yields.
pub open spec fn spec_decode_response(bytes: Seq<u8>) -> Result<(ResponseView, int), DecodeError> {
    if bytes.len() < 1 {
        Err(DecodeError::UnexpectedEof)
    } else if bytes[0] == TAG_RESP_ERROR {
        Ok((ResponseView::Error, 1))
    } else if bytes[0] == TAG_RESP_JOIN_REJECT {
        Ok((ResponseView::JoinReject, 1))
    } else if bytes[0] == TAG_RESP_JOINED {
        if bytes.len() < 19 {
            Err(DecodeError::UnexpectedEof)
        } else {
            Ok((ResponseView::Joined { room_id: spec_u128_from_be(bytes.subrange(3, 19)) }, 19))
        }
    } else if bytes[0] == TAG_RESP_MSG_SENT {
        if bytes.len() < 19 {
            Err(DecodeError::UnexpectedEof)
        } else {
            Ok((ResponseView::MsgSent {
                message_id: spec_u128_from_be(bytes.subrange(3, 19)),
            }, 19))
        }
    } else {
        Err(DecodeError::InvalidTag)
    }
}

/// A value that can be written to the wire as one frame.
pub trait Serialize {
    /// When the value is encodable at all.
    spec fn wf(&self) -> bool;

    /// The frame bytes of the value.
    spec fn wire(&self) -> Seq<u8>;

    /// Appends the value's frame to `buf`; fails, leaving `buf` unchanged,
    /// exactly when the value is not encodable.
    fn serialize(&self, buf: &mut Vec<u8>) -> (r: Result<(), EncodeError>)
        ensures
            r is Ok <==> self.wf(),
            self.wf() ==> final(buf)@ == old(buf)@ + self.wire(),
            !self.wf() ==> final(buf)@ == old(buf)@,
    ;
}

/// A value that can be read back from the wire, one frame at a time.
pub trait Deserialize: Sized {
    type Output: View;

    /// What decoding one frame from the front of `bytes` yields.
    spec fn spec_decode(bytes: Seq<u8>) -> Result<(<Self::Output as View>::V, int), DecodeError>;

    /// Decodes one frame from `buf` starting at `start`. On success the
    /// returned position is the first byte after the frame, so that decoding
    /// may resume there: a decode consumes exactly one frame.
    fn deserialize(buf: &Vec<u8>, start: usize) -> (r: Result<(Self::Output, usize), DecodeError>)
        requires
            start <= buf@.len(),
        ensures
            match r {
                Ok(p) => {
                    &&& start <= p.1 <= buf@.len()
                    &&& Self::spec_decode(buf@.skip(start as int))
                        == Ok::<(<Self::Output as View>::V, int), DecodeError>((p.0@, p.1 - start))
                },
                Err(e) => Self::spec_decode(buf@.skip(start as int))
                    == Err::<(<Self::Output as View>::V, int), DecodeError>(e),
            },
    ;
}

/// Relies on `String::from_utf8`: it succeeds exactly on valid UTF-8 input
/// and returns the string whose characters those bytes encode (the string's
/// UTF-8 bytes are the input bytes).
#[verifier::external_body]
fn string_from_utf8(bytes: Vec<u8>) -> (r: Option<String>)
    ensures
        r is Some <==> valid_utf8(bytes@),
        r matches Some(s) ==> s@ == decode_utf8(bytes@),
{
    String::from_utf8(bytes).ok()
}

/// Reads one length-prefixed text field from `buf` at `start`: a 16-bit
/// big-endian byte count, then that many bytes of UTF-8. On success returns
/// the text and the position after the field.
fn extract_string(buf: &Vec<u8>, start: usize) -> (r: Result<(String, usize), DecodeError>)
    requires
        start <= buf@.len(),
    ensures
        match r {
            Ok(p) => {
                &&& start + 2 <= buf@.len()
                &&& p.1 == start + 2 + spec_u16_from_be(buf@.subrange(start as int, start + 2))
                &&& p.1 <= buf@.len()
                &&& valid_utf8(buf@.subrange(start + 2, p.1 as int))
                &&& p.0@ == decode_utf8(buf@.subrange(start + 2, p.1 as int))
            },
            Err(e) => {
                let have_len = start + 2 <= buf@.len();
                let text_end = start + 2 + spec_u16_from_be(
                    buf@.subrange(start as int, start + 2),
                );
                if !have_len || text_end > buf@.len() {
                    e == DecodeError::UnexpectedEof
                } else {
                    e == DecodeError::InvalidEncoding && !valid_utf8(
                        buf@.subrange(start + 2, text_end),
                    )
                }
            },
        },
{
    let n = buf.len();
    if n - start < 2 {
        return Err(DecodeError::UnexpectedEof);
    }
    let len = read_u16_be(buf[start], buf[start + 1]) as usize;
    proof {
        let ghost b1 = buf@[start + 1];
        assert(buf@.subrange(start as int, start + 2) =~= seq![buf@[start as int], b1]);
    }
    if n - start - 2 < len {
        return Err(DecodeError::UnexpectedEof);
    }
    let mut payload: Vec<u8> = Vec::new();
    let mut j: usize = 0;
    while j < len
        invariant
            start + 2 + len <= n == buf@.len(),
            j <= len,
            payload@ == buf@.subrange(start + 2, start + 2 + j),
        decreases len - j,
    {
        proof {
            assert(buf@.subrange(start + 2, start + 2 + j).push(buf@[start + 2 + j]) =~= buf@
                .subrange(start + 2, start + 2 + (j + 1)));
        }
        payload.push(buf[start + 2 + j]);
        j += 1;
    }
    match string_from_utf8(payload) {
        Some(text) => Ok((text, start + 2 + len)),
        None => Err(DecodeError::InvalidEncoding),
    }
}

impl Request {
    /// The tag byte that starts this request's frame.
    pub fn tag(&self) -> (t: u8)
        ensures
            t == spec_encode_request(self@)[0],
            t == TAG_REQ_JOIN || t == TAG_REQ_MESSAGE,
    {
        match self {
            Request::Join(_) => TAG_REQ_JOIN,
            Request::Message { .. } => TAG_REQ_MESSAGE,
        }
    }

    /// The text payload, if this request carries one.
    pub fn get_message(&self) -> (r: Option<&String>)
        ensures
            match r {
                Some(m) => self@ matches RequestView::Message { text, .. } && m@ == text,
                None => self@ matches RequestView::Join { .. },
            },
    {
        match self {
            Request::Message { message, .. } => Some(message),
            _ => None,
        }
    }
}

impl Response {
    /// The tag byte that starts this response's frame.
    pub fn tag(&self) -> (t: u8)
        ensures
            t == spec_encode_response(self@)[0],
    {
        match self {
            Response::Error => TAG_RESP_ERROR,
            Response::JoinReject => TAG_RESP_JOIN_REJECT,
            Response::Joined(_) => TAG_RESP_JOINED,
            Response::MsgSent(_) => TAG_RESP_MSG_SENT,
        }
    }

    /// The 128-bit identifier carried by the response, if any.
    pub fn get_inner(&self) -> (r: Option<u128>)
        ensures
            match r {
                Some(id) => self@ == (ResponseView::Joined { room_id: id })
                    || self@ == (ResponseView::MsgSent { message_id: id }),
                None => self@ == ResponseView::Error || self@ == ResponseView::JoinReject,
            },
    {
        match self {
            Response::Joined(room_id) => Some(*room_id),
            Response::MsgSent(message_id) => Some(*message_id),
            _ => None,
        }
    }
}

impl Serialize for Request {
    open spec fn wf(&self) -> bool {
        request_wf(self@)
    }

    open spec fn wire(&self) -> Seq<u8> {
        spec_encode_request(self@)
    }

    fn serialize(&self, buf: &mut Vec<u8>) -> (r: Result<(), EncodeError>) {
        match self {
            Request::Join(room_id) => {
                buf.push(TAG_REQ_JOIN);
                buf.push(U128_MARKER);
                push_u128_be(buf, *room_id);
                proof {
                    assert(final(buf)@ =~= old(buf)@ + spec_encode_request(self@));
                }
                Ok(())
            },
            Request::Message { room_id, message } => {
                let mut payload = message.as_str().as_bytes_vec();
                let len = payload.len();
                if len > MAX_TEXT_LEN {
                    return Err(EncodeError::TextTooLong);
                }
                buf.push(TAG_REQ_MESSAGE);
                buf.push(U128_MARKER);
                push_u128_be(buf, *room_id);
                push_u16_be(buf, len as u16);
                buf.append(&mut payload);
                proof {
                    assert(final(buf)@ =~= old(buf)@ + spec_encode_request(self@));
                }
                Ok(())
            },
        }
    }
}

impl Serialize for Response {
    open spec fn wf(&self) -> bool {
        true
    }

    open spec fn wire(&self) -> Seq<u8> {
        spec_encode_response(self@)
    }

    fn serialize(&self, buf: &mut Vec<u8>) -> (r: Result<(), EncodeError>) {
        match self {
            Response::Error => {
                buf.push(TAG_RESP_ERROR);
            },
            Response::JoinReject => {
                buf.push(TAG_RESP_JOIN_REJECT);
            },
            Response::Joined(room_id) => {
                buf.push(TAG_RESP_JOINED);
                push_u16_be(buf, U128_MARKER as u16);
                push_u128_be(buf, *room_id);
            },
            Response::MsgSent(message_id) => {
                buf.push(TAG_RESP_MSG_SENT);
                push_u16_be(buf, U128_MARKER as u16);
                push_u128_be(buf, *message_id);
            },
        }
        proof {
            assert(final(buf)@ =~= old(buf)@ + spec_encode_response(self@));
        }
        Ok(())
    }
}

impl Deserialize for Request {
    type Output = Request;

    open spec fn spec_decode(bytes: Seq<u8>) -> Result<(RequestView, int), DecodeError> {
        spec_decode_request(bytes)
    }

    fn deserialize(buf: &Vec<u8>, start: usize) -> (r: Result<(Request, usize), DecodeError>) {
        let ghost bytes = buf@.skip(start as int);
        let n = buf.len();
        if n - start < 1 {
            return Err(DecodeError::UnexpectedEof);
        }
        let tag = buf[start];
        proof {
            assert(bytes[0] == buf@[start as int]);
        }
        if tag == TAG_REQ_JOIN {
            if n - start < 18 {
                return Err(DecodeError::UnexpectedEof);
            }
            let room_id = read_u128_be(buf, start + 2);
            proof {
                assert(buf@.subrange(start + 2, start + 18) =~= bytes.subrange(2, 18));
            }
            Ok((Request::Join(room_id), start + 18))
        } else if tag == TAG_REQ_MESSAGE {
            if n - start < 18 {
                return Err(DecodeError::UnexpectedEof);
            }
            let room_id = read_u128_be(buf, start + 2);
            proof {
                assert(buf@.subrange(start + 2, start + 18) =~= bytes.subrange(2, 18));
                if start + 20 <= buf@.len() {
                    assert(buf@.subrange(start + 18, start + 20) =~= bytes.subrange(18, 20));
                    let len = spec_u16_from_be(bytes.subrange(18, 20)) as int;
                    if 20 + len <= bytes.len() {
                        assert(buf@.subrange(start + 20, start + 20 + len) =~= bytes.subrange(
                            20,
                            20 + len,
                        ));
                    }
                }
            }
            match extract_string(buf, start + 18) {
                Ok((message, end)) => Ok((Request::Message { room_id, message }, end)),
                Err(e) => Err(e),
            }
        } else {
            Err(DecodeError::InvalidTag)
        }
    }
}

impl Deserialize for Response {
    type Output = Response;

    open spec fn spec_decode(bytes: Seq<u8>) -> Result<(ResponseView, int), DecodeError> {
        spec_decode_response(bytes)
    }

    fn deserialize(buf: &Vec<u8>, start: usize) -> (r: Result<(Response, usize), DecodeError>) {
        let ghost bytes = buf@.skip(start as int);
        let n = buf.len();
        if n - start < 1 {
            return Err(DecodeError::UnexpectedEof);
        }
        let tag = buf[start];
        proof {
            assert(bytes[0] == buf@[start as int]);
        }
        if tag == TAG_RESP_ERROR {
            Ok((Response::Error, start + 1))
        } else if tag == TAG_RESP_JOIN_REJECT {
            Ok((Response::JoinReject, start + 1))
        } else if tag == TAG_RESP_JOINED {
            if n - start < 19 {
                return Err(DecodeError::UnexpectedEof);
            }
            let room_id = read_u128_be(buf, start + 3);
            proof {
                assert(buf@.subrange(start + 3, start + 19) =~= bytes.subrange(3, 19));
            }
            Ok((Response::Joined(room_id), start + 19))
        } else if tag == TAG_RESP_MSG_SENT {
            if n - start < 19 {
                return Err(DecodeError::UnexpectedEof);
            }
            let message_id = read_u128_be(buf, start + 3);
            proof {
                assert(buf@.subrange(start + 3, start + 19) =~= bytes.subrange(3, 19));
            }
            Ok((Response::MsgSent(message_id), start + 19))
        } else {
            Err(DecodeError::InvalidTag)
        }
    }
}

/// Law: decoding consumes exactly one frame. Whatever bytes follow an
/// encodable request's frame, the decode yields that request and stops at
/// the frame's end, leaving the stream aligned on the next frame.
pub proof fn lemma_request_frame_aligned(r: RequestView, rest: Seq<u8>)
    requires
        request_wf(r),
    ensures
        spec_decode_request(spec_encode_request(r) + rest)
            == Ok::<(RequestView, int), DecodeError>((
            r,
            spec_encode_request(r).len() as int,
        )),
{
    let enc = spec_encode_request(r);
    let bytes = enc + rest;
    match r {
        RequestView::Join { room_id } => {
            lemma_u128_be_round_trip(room_id);
            assert(bytes[0] == TAG_REQ_JOIN);
            assert(bytes.subrange(2, 18) =~= spec_u128_be(room_id));
        },
        RequestView::Message { room_id, text } => {
            let payload = encode_utf8(text);
            let len = payload.len() as int;
            lemma_u128_be_round_trip(room_id);
            lemma_u16_be_round_trip(len as u16);
            assert(bytes.len() == 20 + len + rest.len());
            assert(bytes[0] == TAG_REQ_MESSAGE);
            assert(bytes.subrange(2, 18) =~= spec_u128_be(room_id));
            assert(bytes.subrange(18, 20) =~= spec_u16_be(len as u16));
            assert(spec_u16_from_be(bytes.subrange(18, 20)) as int == len);
            assert(bytes.subrange(20, 20 + len) =~= payload);
            encode_utf8_valid_utf8(text);
            encode_utf8_decode_utf8(text);
        },
    }
}

/// Law: every encodable request round-trips through encode and decode to an
/// equal value, the whole frame consumed.
pub proof fn lemma_request_round_trip(r: RequestView)
    requires
        request_wf(r),
    ensures
        spec_decode_request(spec_encode_request(r)) == Ok::<(RequestView, int), DecodeError>((
            r,
            spec_encode_request(r).len() as int,
        )),
{
    assert(spec_encode_request(r) + Seq::<u8>::empty() =~= spec_encode_request(r));
    lemma_request_frame_aligned(r, Seq::<u8>::empty());
}

/// Law: decoding consumes exactly one frame. Whatever bytes follow a
/// response's frame, the decode yields that response and stops at the
/// frame's end.
pub proof fn lemma_response_frame_aligned(r: ResponseView, rest: Seq<u8>)
    ensures
        spec_decode_response(spec_encode_response(r) + rest)
            == Ok::<(ResponseView, int), DecodeError>((
            r,
            spec_encode_response(r).len() as int,
        )),
{
    let enc = spec_encode_response(r);
    let bytes = enc + rest;
    match r {
        ResponseView::Error => {
            assert(bytes[0] == TAG_RESP_ERROR);
        },
        ResponseView::JoinReject => {
            assert(bytes[0] == TAG_RESP_JOIN_REJECT);
        },
        ResponseView::Joined { room_id } => {
            lemma_u128_be_round_trip(room_id);
            assert(bytes[0] == TAG_RESP_JOINED);
            assert(bytes.subrange(3, 19) =~= spec_u128_be(room_id));
        },
        ResponseView::MsgSent { message_id } => {
            lemma_u128_be_round_trip(message_id);
            assert(bytes[0] == TAG_RESP_MSG_SENT);
            assert(bytes.subrange(3, 19) =~= spec_u128_be(message_id));
        },
    }
}

/// Law: every response round-trips through encode and decode to an equal
/// value, the whole frame consumed.
pub proof fn lemma_response_round_trip(r: ResponseView)
    ensures
        spec_decode_response(spec_encode_response(r)) == Ok::<(ResponseView, int), DecodeError>((
            r,
            spec_encode_response(r).len() as int,
        )),
{
    assert(spec_encode_response(r) + Seq::<u8>::empty() =~= spec_encode_response(r));
    lemma_response_frame_aligned(r, Seq::<u8>::empty());
}

/// Law: a request frame cut short anywhere, the empty stream included,
/// decodes to `UnexpectedEof`, never to a value.
pub proof fn lemma_request_truncated(r: RequestView, k: int)
    requires
        request_wf(r),
        0 <= k < spec_encode_request(r).len(),
    ensures
        spec_decode_request(spec_encode_request(r).take(k)) == Err::<(RequestView, int),
            DecodeError,
        >(DecodeError::UnexpectedEof),
{
    let enc = spec_encode_request(r);
    let p = enc.take(k);
    match r {
        RequestView::Join { room_id } => {
            lemma_u128_be_round_trip(room_id);
            if k >= 1 {
                assert(p[0] == TAG_REQ_JOIN);
            }
        },
        RequestView::Message { room_id, text } => {
            let payload = encode_utf8(text);
            let len = payload.len() as int;
            lemma_u128_be_round_trip(room_id);
            lemma_u16_be_round_trip(len as u16);
            assert(enc.len() == 20 + len);
            if k >= 1 {
                assert(p[0] == TAG_REQ_MESSAGE);
                if k >= 20 {
                    assert(p.subrange(18, 20) =~= spec_u16_be(len as u16));
                    assert(spec_u16_from_be(p.subrange(18, 20)) as int == len);
                    assert(p.len() < 20 + len);
                }
            }
        },
    }
}

/// Law: a response frame cut short anywhere, the empty stream included,
/// decodes to `UnexpectedEof`, never to a value.
pub proof fn lemma_response_truncated(r: ResponseView, k: int)
    requires
        0 <= k < spec_encode_response(r).len(),
    ensures
        spec_decode_response(spec_encode_response(r).take(k)) == Err::<(ResponseView, int),
            DecodeError,
        >(DecodeError::UnexpectedEof),
{
    let enc = spec_encode_response(r);
    let p = enc.take(k);
    match r {
        ResponseView::Error => {
        },
        ResponseView::JoinReject => {
        },
        ResponseView::Joined { room_id } => {
            lemma_u128_be_round_trip(room_id);
            if k >= 1 {
                assert(p[0] == TAG_RESP_JOINED);
            }
        },
        ResponseView::MsgSent { message_id } => {
            lemma_u128_be_round_trip(message_id);
            if k >= 1 {
                assert(p[0] == TAG_RESP_MSG_SENT);
            }
        },
    }
}

/// Law: a stream whose first byte names no request variant decodes to
/// `InvalidTag`, whatever follows it.
pub proof fn lemma_request_invalid_tag(bytes: Seq<u8>)
    requires
        bytes.len() >= 1,
        bytes[0] != TAG_REQ_JOIN,
        bytes[0] != TAG_REQ_MESSAGE,
    ensures
        spec_decode_request(bytes) == Err::<(RequestView, int), DecodeError>(
            DecodeError::InvalidTag,
        ),
{
}

/// Law: a stream whose first byte names no response variant decodes to
/// `InvalidTag`, whatever follows it.
pub proof fn lemma_response_invalid_tag(bytes: Seq<u8>)
    requires
        bytes.len() >= 1,
        bytes[0] != TAG_RESP_ERROR,
        bytes[0] != TAG_RESP_JOIN_REJECT,
        bytes[0] != TAG_RESP_JOINED,
        bytes[0] != TAG_RESP_MSG_SENT,
    ensures
        spec_decode_response(bytes) == Err::<(ResponseView, int), DecodeError>(
            DecodeError::InvalidTag,
        ),
{
}

} // verus!
