//! Message envelope: a length prefix and a header around a message body.
//!
//! ```text
//! length:i32 | api_key:i16 | api_version:i16 | correlation_id:i32 | body
//! ```
//!
//! The length counts everything that follows it. A request envelope carries
//! the client's identifier, a string, between the header and the body.

use vstd::prelude::*;
use vstd::utf8::encode_utf8;
use crate::codec::{
    append_slice, be_value, copy_range, decode_i16, decode_i32, decode_string, encode_i16,
    encode_i32, encode_string, holds_at, lemma_be_bytes_len, lemma_holds_at_split,
    lemma_i16_roundtrip, lemma_i32_roundtrip, lemma_string_roundtrip, signed16, signed32,
    spec_decode_string, spec_encode_i16, spec_encode_i32, spec_encode_string, string_fits,
    unsigned16, unsigned32,
};
use crate::error::ProtocolError;

verus! {

/// What every envelope says of its message.
#[derive(Clone, Copy, Debug, PartialEq, Eq, Structural)]
pub struct Header {
    /// Which message family the body belongs to.
    pub api_key: i16,
    /// The version of the wire layout that the body is written in.
    pub api_version: i16,
    /// Chosen by the caller to match a response to its request.
    pub correlation_id: i32,
}

/// An envelope taken apart.
#[derive(Debug, PartialEq, Eq)]
pub struct Frame {
    pub header: Header,
    pub body: Vec<u8>,
}

/// A request envelope taken apart.
#[derive(Debug, PartialEq, Eq)]
pub struct RequestFrame {
    pub header: Header,
    pub client_id: String,
    pub body: Vec<u8>,
}

/// Bytes that the length prefix takes.
pub const LENGTH_PREFIX_LEN: usize = 4;

/// Bytes that the header takes.
pub const HEADER_LEN: usize = 8;

/// The longest body that the length prefix can still account for.
pub const MAX_BODY_LEN: usize = 0x7fff_fff7;

/// The header on the wire.
pub open spec fn spec_encode_header(header: Header) -> Seq<u8> {
    spec_encode_i16(header.api_key) + spec_encode_i16(header.api_version) + spec_encode_i32(
        header.correlation_id,
    )
}

/// The envelope on the wire.
pub open spec fn spec_frame(header: Header, body: Seq<u8>) -> Seq<u8> {
    spec_encode_i32((HEADER_LEN + body.len()) as i32) + spec_encode_header(header) + body
}

/// The header that stands right after the length prefix of `s`.
pub open spec fn spec_header_of(s: Seq<u8>) -> Header {
    Header {
        api_key: signed16(be_value(s, 4, 2)),
        api_version: signed16(be_value(s, 6, 2)),
        correlation_id: signed32(be_value(s, 8, 4)),
    }
}

/// Taking the first envelope of `s` apart.
pub open spec fn spec_unframe(s: Seq<u8>) -> Result<(Header, Seq<u8>), ProtocolError> {
    if s.len() < LENGTH_PREFIX_LEN {
        Err(ProtocolError::Truncated)
    } else {
        let declared = signed32(be_value(s, 0, 4)) as int;
        if declared < HEADER_LEN {
            Err(ProtocolError::InvalidLength)
        } else if LENGTH_PREFIX_LEN + declared > s.len() {
            Err(ProtocolError::Truncated)
        } else {
            Ok((spec_header_of(s), s.subrange(12, LENGTH_PREFIX_LEN + declared)))
        }
    }
}

/// The request envelope on the wire.
pub open spec fn spec_frame_request(header: Header, client_id: Seq<char>, body: Seq<u8>) -> Seq<
    u8,
> {
    spec_frame(header, spec_encode_string(client_id) + body)
}

/// Taking the first request envelope of `s` apart.
pub open spec fn spec_unframe_request(s: Seq<u8>) -> Result<
    (Header, Seq<char>, Seq<u8>),
    ProtocolError,
> {
    match spec_unframe(s) {
        Err(e) => Err(e),
        Ok((header, payload)) => match spec_decode_string(payload, 0) {
            Err(e) => Err(e),
            Ok((client_id, next)) => Ok(
                (header, client_id, payload.subrange(next, payload.len() as int)),
            ),
        },
    }
}

/// The length of an envelope around a body of `body_len` bytes.
pub open spec fn spec_frame_len(body_len: nat) -> nat {
    LENGTH_PREFIX_LEN as nat + HEADER_LEN as nat + body_len
}

/// An envelope is twelve bytes longer than its body.
pub proof fn lemma_frame_len(header: Header, body: Seq<u8>)
    ensures
        spec_frame(header, body).len() == spec_frame_len(body.len()),
        spec_encode_header(header).len() == HEADER_LEN,
{
    lemma_be_bytes_len(unsigned32((HEADER_LEN + body.len()) as i32), 4);
    lemma_be_bytes_len(unsigned16(header.api_key), 2);
    lemma_be_bytes_len(unsigned16(header.api_version), 2);
    lemma_be_bytes_len(unsigned32(header.correlation_id), 4);
}

/// Wraps `body` in an envelope. Fails if the body is longer than the length
/// prefix can account for.
pub fn frame(api_key: i16, api_version: i16, correlation_id: i32, body: &[u8]) -> (r: Result<
    Vec<u8>,
    ProtocolError,
>)
    ensures
        match r {
            Ok(bytes) => body@.len() <= MAX_BODY_LEN && bytes@ == spec_frame(
                Header { api_key, api_version, correlation_id },
                body@,
            ),
            Err(e) => e == ProtocolError::InvalidLength && body@.len() > MAX_BODY_LEN,
        },
{
    if body.len() > MAX_BODY_LEN {
        return Err(ProtocolError::InvalidLength);
    }
    let mut out: Vec<u8> = Vec::new();
    encode_i32(&mut out, (HEADER_LEN + body.len()) as i32);
    encode_i16(&mut out, api_key);
    encode_i16(&mut out, api_version);
    encode_i32(&mut out, correlation_id);
    append_slice(&mut out, body);
    proof {
        assert(out@ =~= spec_frame(Header { api_key, api_version, correlation_id }, body@));
    }
    Ok(out)
}

/// Takes the first envelope of `bytes` apart. Whatever follows it is left
/// alone. `Truncated` means that more input is needed, not that the input is
/// wrong.
pub fn unframe(bytes: &[u8]) -> (r: Result<Frame, ProtocolError>)
    ensures
        match r {
            Ok(f) => spec_unframe(bytes@) == Ok::<(Header, Seq<u8>), ProtocolError>(
                (f.header, f.body@),
            ),
            Err(e) => spec_unframe(bytes@) == Err::<(Header, Seq<u8>), ProtocolError>(e),
        },
{
    let (declared, _) = match decode_i32(bytes, 0) {
        Ok(pair) => pair,
        Err(_) => { return Err(ProtocolError::Truncated); },
    };
    if declared < HEADER_LEN as i32 {
        return Err(ProtocolError::InvalidLength);
    }
    let declared: usize = declared as usize;
    if bytes.len() - LENGTH_PREFIX_LEN < declared {
        return Err(ProtocolError::Truncated);
    }
    let (api_key, _) = match decode_i16(bytes, 4) {
        Ok(pair) => pair,
        Err(e) => { return Err(e); },
    };
    let (api_version, _) = match decode_i16(bytes, 6) {
        Ok(pair) => pair,
        Err(e) => { return Err(e); },
    };
    let (correlation_id, _) = match decode_i32(bytes, 8) {
        Ok(pair) => pair,
        Err(e) => { return Err(e); },
    };
    let body = copy_range(bytes, 12, declared - HEADER_LEN);
    Ok(Frame { header: Header { api_key, api_version, correlation_id }, body })
}


/// Wraps a request body and the client's identifier in an envelope. Fails if
/// the identifier is too long for a string field, or if identifier and body
/// together are longer than the length prefix can account for.
pub fn frame_request(
    api_key: i16,
    api_version: i16,
    correlation_id: i32,
    client_id: &str,
    body: &[u8],
) -> (r: Result<Vec<u8>, ProtocolError>)
    ensures
        match r {
            Ok(bytes) => {
                &&& string_fits(client_id@)
                &&& spec_encode_string(client_id@).len() + body@.len() <= MAX_BODY_LEN
                &&& bytes@ == spec_frame_request(
                    Header { api_key, api_version, correlation_id },
                    client_id@,
                    body@,
                )
            },
            Err(e) => {
                &&& e == ProtocolError::InvalidLength
                &&& !string_fits(client_id@) || spec_encode_string(client_id@).len() + body@.len()
                    > MAX_BODY_LEN
            },
        },
{
    let mut payload: Vec<u8> = Vec::new();
    match encode_string(&mut payload, client_id) {
        Ok(_) => {},
        Err(e) => { return Err(e); },
    }
    proof {
        lemma_be_bytes_len(unsigned16(encode_utf8(client_id@).len() as i16), 2);
    }
    if body.len() > MAX_BODY_LEN - payload.len() {
        return Err(ProtocolError::InvalidLength);
    }
    append_slice(&mut payload, body);
    frame(api_key, api_version, correlation_id, payload.as_slice())
}

/// Takes the first request envelope of `bytes` apart.
pub fn unframe_request(bytes: &[u8]) -> (r: Result<RequestFrame, ProtocolError>)
    ensures
        match r {
            Ok(f) => spec_unframe_request(bytes@) == Ok::<
                (Header, Seq<char>, Seq<u8>),
                ProtocolError,
            >((f.header, f.client_id@, f.body@)),
            Err(e) => spec_unframe_request(bytes@) == Err::<
                (Header, Seq<char>, Seq<u8>),
                ProtocolError,
            >(e),
        },
{
    let whole = match unframe(bytes) {
        Ok(f) => f,
        Err(e) => { return Err(e); },
    };
    let (client_id, next) = match decode_string(whole.body.as_slice(), 0) {
        Ok(pair) => pair,
        Err(e) => { return Err(e); },
    };
    let body = copy_range(whole.body.as_slice(), next, whole.body.len() - next);
    Ok(RequestFrame { header: whole.header, client_id, body })
}

/// The parts of an envelope stand where the layout says.
proof fn lemma_frame_layout(header: Header, body: Seq<u8>, s: Seq<u8>)
    requires
        holds_at(s, 0, spec_frame(header, body)),
    ensures
        holds_at(s, 0, spec_encode_i32((HEADER_LEN + body.len()) as i32)),
        holds_at(s, 4, spec_encode_i16(header.api_key)),
        holds_at(s, 6, spec_encode_i16(header.api_version)),
        holds_at(s, 8, spec_encode_i32(header.correlation_id)),
        holds_at(s, 12, body),
{
    let len = spec_encode_i32((HEADER_LEN + body.len()) as i32);
    let key = spec_encode_i16(header.api_key);
    let version = spec_encode_i16(header.api_version);
    let correlation = spec_encode_i32(header.correlation_id);
    lemma_frame_len(header, body);
    lemma_be_bytes_len(unsigned32((HEADER_LEN + body.len()) as i32), 4);
    lemma_be_bytes_len(unsigned16(header.api_key), 2);
    lemma_be_bytes_len(unsigned16(header.api_version), 2);
    lemma_be_bytes_len(unsigned32(header.correlation_id), 4);
    assert(spec_frame(header, body) =~= len + (key + (version + (correlation + body))));
    lemma_holds_at_split(s, 0, len, key + (version + (correlation + body)));
    lemma_holds_at_split(s, 4, key, version + (correlation + body));
    lemma_holds_at_split(s, 6, version, correlation + body);
    lemma_holds_at_split(s, 8, correlation, body);
}

/// Taking apart what `frame` put together gives the header and the body
/// back, whatever follows the envelope in the input. This holds of every
/// body, the empty one too, that its length prefix can account for.
pub proof fn lemma_unframe_frame(header: Header, body: Seq<u8>, rest: Seq<u8>)
    requires
        body.len() <= MAX_BODY_LEN,
    ensures
        spec_unframe(spec_frame(header, body) + rest) == Ok::<(Header, Seq<u8>), ProtocolError>(
            (header, body),
        ),
{
    let s = spec_frame(header, body) + rest;
    lemma_frame_len(header, body);
    assert(s.subrange(0, spec_frame(header, body).len() as int) =~= spec_frame(header, body));
    lemma_frame_layout(header, body, s);
    lemma_i32_roundtrip(s, 0, (HEADER_LEN + body.len()) as i32);
    lemma_i16_roundtrip(s, 4, header.api_key);
    lemma_i16_roundtrip(s, 6, header.api_version);
    lemma_i32_roundtrip(s, 8, header.correlation_id);
}

/// A proper prefix of an envelope is never taken for an envelope: `unframe`
/// answers `Truncated`.
pub proof fn lemma_unframe_prefix_truncated(header: Header, body: Seq<u8>, n: int)
    requires
        body.len() <= MAX_BODY_LEN,
        0 <= n < spec_frame(header, body).len(),
    ensures
        spec_unframe(spec_frame(header, body).subrange(0, n)) == Err::<
            (Header, Seq<u8>),
            ProtocolError,
        >(ProtocolError::Truncated),
{
    let whole = spec_frame(header, body);
    let s = whole.subrange(0, n);
    lemma_frame_len(header, body);
    if n >= LENGTH_PREFIX_LEN {
        let len = spec_encode_i32((HEADER_LEN + body.len()) as i32);
        lemma_be_bytes_len(unsigned32((HEADER_LEN + body.len()) as i32), 4);
        assert(whole.subrange(0, whole.len() as int) =~= whole);
        lemma_frame_layout(header, body, whole);
        assert(s.subrange(0, 4) =~= whole.subrange(0, 4));
        lemma_i32_roundtrip(s, 0, (HEADER_LEN + body.len()) as i32);
    }
}

/// Taking apart what `frame_request` put together gives the header, the
/// client's identifier and the body back.
pub proof fn lemma_unframe_frame_request(
    header: Header,
    client_id: Seq<char>,
    body: Seq<u8>,
    rest: Seq<u8>,
)
    requires
        string_fits(client_id),
        spec_encode_string(client_id).len() + body.len() <= MAX_BODY_LEN,
    ensures
        spec_unframe_request(spec_frame_request(header, client_id, body) + rest) == Ok::<
            (Header, Seq<char>, Seq<u8>),
            ProtocolError,
        >((header, client_id, body)),
{
    let id = spec_encode_string(client_id);
    let payload = id + body;
    lemma_unframe_frame(header, payload, rest);
    assert(payload.subrange(0, id.len() as int) =~= id);
    lemma_string_roundtrip(payload, 0, client_id);
    assert(payload.subrange(id.len() as int, payload.len() as int) =~= body);
}

} // verus!
