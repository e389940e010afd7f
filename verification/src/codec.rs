//! Primitive codec: fixed-width big-endian integers, length-prefixed
//! strings, nullable strings and raw byte buffers.
//!
//! Encoders append to an output buffer. Decoders read at a position of the
//! input and hand back the value with the position that follows it.

use vstd::prelude::*;
use vstd::utf8::*;
use crate::error::ProtocolError;

verus! {

/// What a decoder yields in the model: the value and the position after it.
pub type Decoded<T> = Result<(T, int), ProtocolError>;

/// The bytes `bytes` stand in `s` from position `pos` on.
pub open spec fn holds_at(s: Seq<u8>, pos: int, bytes: Seq<u8>) -> bool {
    &&& 0 <= pos
    &&& pos + bytes.len() <= s.len()
    &&& s.subrange(pos, pos + bytes.len()) == bytes
}

/// The executable result `r` is the modelled result `m`.
pub open spec fn same_outcome<T>(r: Result<(T, usize), ProtocolError>, m: Decoded<T>) -> bool {
    match r {
        Ok((v, next)) => m == Ok::<(T, int), ProtocolError>((v, next as int)),
        Err(e) => m == Err::<(T, int), ProtocolError>(e),
    }
}

/// Two's complement of an 8-bit value, as a number in `0..256`.
pub open spec fn unsigned8(v: i8) -> int {
    if v < 0 {
        v + 0x100
    } else {
        v as int
    }
}

/// Two's complement of a 16-bit value, as a number in `0..65536`.
pub open spec fn unsigned16(v: i16) -> int {
    if v < 0 {
        v + 0x1_0000
    } else {
        v as int
    }
}

/// Two's complement of a 32-bit value, as a number below `2^32`.
pub open spec fn unsigned32(v: i32) -> int {
    if v < 0 {
        v + 0x1_0000_0000
    } else {
        v as int
    }
}

/// Two's complement of a 64-bit value, as a number below `2^64`.
pub open spec fn unsigned64(v: i64) -> int {
    if v < 0 {
        v + 0x1_0000_0000_0000_0000
    } else {
        v as int
    }
}

/// The signed 8-bit value whose two's complement is `u`.
pub open spec fn signed8(u: int) -> i8 {
    if u >= 0x80 {
        (u - 0x100) as i8
    } else {
        u as i8
    }
}

/// The signed 16-bit value whose two's complement is `u`.
pub open spec fn signed16(u: int) -> i16 {
    if u >= 0x8000 {
        (u - 0x1_0000) as i16
    } else {
        u as i16
    }
}

/// The signed 32-bit value whose two's complement is `u`.
pub open spec fn signed32(u: int) -> i32 {
    if u >= 0x8000_0000 {
        (u - 0x1_0000_0000) as i32
    } else {
        u as i32
    }
}

/// The signed 64-bit value whose two's complement is `u`.
pub open spec fn signed64(u: int) -> i64 {
    if u >= 0x8000_0000_0000_0000 {
        (u - 0x1_0000_0000_0000_0000) as i64
    } else {
        u as i64
    }
}

/// The number that `width` bytes of `s` from `pos` on denote, most
/// significant byte first.
pub open spec fn be_value(s: Seq<u8>, pos: int, width: nat) -> int
    decreases width,
{
    if width == 0 {
        0
    } else {
        be_value(s, pos, (width - 1) as nat) * 256 + s[pos + width - 1]
    }
}

/// The `width` bytes that denote `u`, most significant byte first.
pub open spec fn be_bytes(u: int, width: nat) -> Seq<u8>
    decreases width,
{
    if width == 0 {
        Seq::empty()
    } else {
        be_bytes(u / 256, (width - 1) as nat).push((u % 256) as u8)
    }
}

/// An 8-bit integer on the wire.
pub open spec fn spec_encode_i8(v: i8) -> Seq<u8> {
    be_bytes(unsigned8(v), 1)
}

/// A 16-bit integer on the wire: two bytes, most significant first.
pub open spec fn spec_encode_i16(v: i16) -> Seq<u8> {
    be_bytes(unsigned16(v), 2)
}

/// A 32-bit integer on the wire: four bytes, most significant first.
pub open spec fn spec_encode_i32(v: i32) -> Seq<u8> {
    be_bytes(unsigned32(v), 4)
}

/// A 64-bit integer on the wire: eight bytes, most significant first.
pub open spec fn spec_encode_i64(v: i64) -> Seq<u8> {
    be_bytes(unsigned64(v), 8)
}

/// Reading an 8-bit integer at `pos`.
pub open spec fn spec_decode_i8(s: Seq<u8>, pos: int) -> Decoded<i8> {
    if pos + 1 > s.len() {
        Err(ProtocolError::BufferUnderflow)
    } else {
        Ok((signed8(be_value(s, pos, 1)), pos + 1))
    }
}

/// Reading a 16-bit integer at `pos`.
pub open spec fn spec_decode_i16(s: Seq<u8>, pos: int) -> Decoded<i16> {
    if pos + 2 > s.len() {
        Err(ProtocolError::BufferUnderflow)
    } else {
        Ok((signed16(be_value(s, pos, 2)), pos + 2))
    }
}

/// Reading a 32-bit integer at `pos`.
pub open spec fn spec_decode_i32(s: Seq<u8>, pos: int) -> Decoded<i32> {
    if pos + 4 > s.len() {
        Err(ProtocolError::BufferUnderflow)
    } else {
        Ok((signed32(be_value(s, pos, 4)), pos + 4))
    }
}

/// Reading a 64-bit integer at `pos`.
pub open spec fn spec_decode_i64(s: Seq<u8>, pos: int) -> Decoded<i64> {
    if pos + 8 > s.len() {
        Err(ProtocolError::BufferUnderflow)
    } else {
        Ok((signed64(be_value(s, pos, 8)), pos + 8))
    }
}

/// `be_bytes` yields exactly `width` bytes.
pub proof fn lemma_be_bytes_len(u: int, width: nat)
    ensures
        be_bytes(u, width).len() == width,
    decreases width,
{
    if width > 0 {
        lemma_be_bytes_len(u / 256, (width - 1) as nat);
    }
}

/// `256` to the power `width`.
pub open spec fn radix_pow(width: nat) -> int
    decreases width,
{
    if width == 0 {
        1
    } else {
        256 * radix_pow((width - 1) as nat)
    }
}

/// Reading back the big-endian bytes of a number that fits `width` bytes
/// gives the number.
pub proof fn lemma_be_roundtrip(s: Seq<u8>, pos: int, u: int, width: nat)
    requires
        0 <= u < radix_pow(width),
        holds_at(s, pos, be_bytes(u, width)),
    ensures
        be_value(s, pos, width) == u,
    decreases width,
{
    lemma_be_bytes_len(u, width);
    if width > 0 {
        let rest = (width - 1) as nat;
        let bytes = be_bytes(u, width);
        lemma_be_bytes_len(u / 256, rest);
        assert(s.subrange(pos, pos + rest) == be_bytes(u / 256, rest)) by {
            assert(s.subrange(pos, pos + rest) =~= s.subrange(pos, pos + width).subrange(
                0,
                rest as int,
            ));
            assert(bytes.subrange(0, rest as int) =~= be_bytes(u / 256, rest));
        }
        lemma_be_roundtrip(s, pos, u / 256, rest);
        assert(s[pos + width - 1] == s.subrange(pos, pos + width)[width - 1]);
        assert(bytes[width - 1] == (u % 256) as u8);
    }
}


/// Decoding an encoded 8-bit integer gives it back.
pub proof fn lemma_i8_roundtrip(s: Seq<u8>, pos: int, v: i8)
    requires
        holds_at(s, pos, spec_encode_i8(v)),
    ensures
        spec_decode_i8(s, pos) == Ok::<(i8, int), ProtocolError>((v, pos + 1)),
{
    reveal_with_fuel(radix_pow, 2);
    lemma_be_bytes_len(unsigned8(v), 1);
    lemma_be_roundtrip(s, pos, unsigned8(v), 1);
}

/// Decoding an encoded 16-bit integer gives it back.
pub proof fn lemma_i16_roundtrip(s: Seq<u8>, pos: int, v: i16)
    requires
        holds_at(s, pos, spec_encode_i16(v)),
    ensures
        spec_decode_i16(s, pos) == Ok::<(i16, int), ProtocolError>((v, pos + 2)),
{
    reveal_with_fuel(radix_pow, 3);
    lemma_be_bytes_len(unsigned16(v), 2);
    lemma_be_roundtrip(s, pos, unsigned16(v), 2);
}

/// Decoding an encoded 32-bit integer gives it back.
pub proof fn lemma_i32_roundtrip(s: Seq<u8>, pos: int, v: i32)
    requires
        holds_at(s, pos, spec_encode_i32(v)),
    ensures
        spec_decode_i32(s, pos) == Ok::<(i32, int), ProtocolError>((v, pos + 4)),
{
    reveal_with_fuel(radix_pow, 5);
    lemma_be_bytes_len(unsigned32(v), 4);
    lemma_be_roundtrip(s, pos, unsigned32(v), 4);
}

/// Decoding an encoded 64-bit integer gives it back.
pub proof fn lemma_i64_roundtrip(s: Seq<u8>, pos: int, v: i64)
    requires
        holds_at(s, pos, spec_encode_i64(v)),
    ensures
        spec_decode_i64(s, pos) == Ok::<(i64, int), ProtocolError>((v, pos + 8)),
{
    reveal_with_fuel(radix_pow, 9);
    lemma_be_bytes_len(unsigned64(v), 8);
    lemma_be_roundtrip(s, pos, unsigned64(v), 8);
}

/// Appends the `width` bytes that denote `u`, most significant first.
fn append_be(out: &mut Vec<u8>, u: u64, width: u8)
    ensures
        final(out)@ == old(out)@ + be_bytes(u as int, width as nat),
    decreases width,
{
    if width > 0 {
        append_be(out, u / 256, width - 1);
        out.push((u % 256) as u8);
        proof {
            assert(out@ =~= old(out)@ + be_bytes(u as int, width as nat));
        }
    } else {
        proof {
            assert(out@ =~= old(out)@ + be_bytes(u as int, width as nat));
        }
    }
}

/// Appends the one byte of `v`.
pub fn encode_i8(out: &mut Vec<u8>, v: i8)
    ensures
        final(out)@ == old(out)@ + spec_encode_i8(v),
{
    let u: u64 = if v < 0 {
        (v as i64 + 0x100) as u64
    } else {
        v as u64
    };
    append_be(out, u, 1);
}

/// Appends the two bytes of `v`, most significant first.
pub fn encode_i16(out: &mut Vec<u8>, v: i16)
    ensures
        final(out)@ == old(out)@ + spec_encode_i16(v),
{
    let u: u64 = if v < 0 {
        (v as i64 + 0x1_0000) as u64
    } else {
        v as u64
    };
    append_be(out, u, 2);
}

/// Appends the four bytes of `v`, most significant first.
pub fn encode_i32(out: &mut Vec<u8>, v: i32)
    ensures
        final(out)@ == old(out)@ + spec_encode_i32(v),
{
    let u: u64 = if v < 0 {
        (v as i64 + 0x1_0000_0000) as u64
    } else {
        v as u64
    };
    append_be(out, u, 4);
}

/// Appends the eight bytes of `v`, most significant first.
pub fn encode_i64(out: &mut Vec<u8>, v: i64)
    ensures
        final(out)@ == old(out)@ + spec_encode_i64(v),
{
    let u: u64 = if v < 0 {
        (v as i128 + 0x1_0000_0000_0000_0000) as u64
    } else {
        v as u64
    };
    append_be(out, u, 8);
}

/// A number of `width` digits to the base 256 is below `256` to the power
/// `width`.
pub proof fn lemma_be_value_bound(s: Seq<u8>, pos: int, width: nat)
    ensures
        0 <= be_value(s, pos, width) < radix_pow(width),
    decreases width,
{
    if width > 0 {
        lemma_be_value_bound(s, pos, (width - 1) as nat);
    }
}

/// The number that `width` bytes of `input` from `pos` on denote.
fn read_be(input: &[u8], pos: usize, width: u8) -> (u: u64)
    requires
        width <= 8,
        pos + width <= input.len(),
    ensures
        u == be_value(input@, pos as int, width as nat),
    decreases width,
{
    if width == 0 {
        0
    } else {
        let head = read_be(input, pos, width - 1);
        proof {
            lemma_be_value_bound(input@, pos as int, (width - 1) as nat);
            reveal_with_fuel(radix_pow, 8);
        }
        head * 256 + input[pos + (width as usize) - 1] as u64
    }
}

/// Reads an 8-bit integer at `pos`.
pub fn decode_i8(input: &[u8], pos: usize) -> (r: Result<(i8, usize), ProtocolError>)
    ensures
        same_outcome(r, spec_decode_i8(input@, pos as int)),
{
    if pos > input.len() || input.len() - pos < 1 {
        return Err(ProtocolError::BufferUnderflow);
    }
    let u = read_be(input, pos, 1);
    proof {
        lemma_be_value_bound(input@, pos as int, 1);
        reveal_with_fuel(radix_pow, 2);
    }
    let v: i8 = if u >= 0x80 {
        (u as i64 - 0x100) as i8
    } else {
        u as i8
    };
    Ok((v, pos + 1))
}

/// Reads a 16-bit integer at `pos`.
pub fn decode_i16(input: &[u8], pos: usize) -> (r: Result<(i16, usize), ProtocolError>)
    ensures
        same_outcome(r, spec_decode_i16(input@, pos as int)),
{
    if pos > input.len() || input.len() - pos < 2 {
        return Err(ProtocolError::BufferUnderflow);
    }
    let u = read_be(input, pos, 2);
    proof {
        lemma_be_value_bound(input@, pos as int, 2);
        reveal_with_fuel(radix_pow, 3);
    }
    let v: i16 = if u >= 0x8000 {
        (u as i64 - 0x1_0000) as i16
    } else {
        u as i16
    };
    Ok((v, pos + 2))
}

/// Reads a 32-bit integer at `pos`.
pub fn decode_i32(input: &[u8], pos: usize) -> (r: Result<(i32, usize), ProtocolError>)
    ensures
        same_outcome(r, spec_decode_i32(input@, pos as int)),
{
    if pos > input.len() || input.len() - pos < 4 {
        return Err(ProtocolError::BufferUnderflow);
    }
    let u = read_be(input, pos, 4);
    proof {
        lemma_be_value_bound(input@, pos as int, 4);
        reveal_with_fuel(radix_pow, 5);
    }
    let v: i32 = if u >= 0x8000_0000 {
        (u as i64 - 0x1_0000_0000) as i32
    } else {
        u as i32
    };
    Ok((v, pos + 4))
}

/// Reads a 64-bit integer at `pos`.
pub fn decode_i64(input: &[u8], pos: usize) -> (r: Result<(i64, usize), ProtocolError>)
    ensures
        same_outcome(r, spec_decode_i64(input@, pos as int)),
{
    if pos > input.len() || input.len() - pos < 8 {
        return Err(ProtocolError::BufferUnderflow);
    }
    let u = read_be(input, pos, 8);
    let v: i64 = if u >= 0x8000_0000_0000_0000 {
        (u as i128 - 0x1_0000_0000_0000_0000) as i64
    } else {
        u as i64
    };
    Ok((v, pos + 8))
}

/// The longest string, counted in UTF-8 bytes, that a 16-bit length prefix
/// can announce.
pub const MAX_STRING_LEN: usize = 0x7fff;

/// The longest byte buffer that a 32-bit length prefix can announce.
pub const MAX_BYTES_LEN: usize = 0x7fff_ffff;

/// The UTF-8 form of `chars` is short enough for a 16-bit length prefix.
pub open spec fn string_fits(chars: Seq<char>) -> bool {
    encode_utf8(chars).len() <= MAX_STRING_LEN
}

/// A string on the wire: its length in bytes as a 16-bit integer, then its
/// UTF-8 bytes.
pub open spec fn spec_encode_string(chars: Seq<char>) -> Seq<u8> {
    let bytes = encode_utf8(chars);
    spec_encode_i16(bytes.len() as i16) + bytes
}

/// A nullable string on the wire: the length `-1` alone for null, otherwise
/// as a string.
pub open spec fn spec_encode_nullable_string(value: Option<Seq<char>>) -> Seq<u8> {
    match value {
        None => spec_encode_i16(-1i16),
        Some(chars) => spec_encode_string(chars),
    }
}

/// The text of `len` bytes that starts at `start`.
pub open spec fn spec_decode_text(s: Seq<u8>, start: int, len: int) -> Decoded<Seq<char>> {
    if start + len > s.len() {
        Err(ProtocolError::BufferUnderflow)
    } else if !valid_utf8(s.subrange(start, start + len)) {
        Err(ProtocolError::InvalidUtf8)
    } else {
        Ok((decode_utf8(s.subrange(start, start + len)), start + len))
    }
}

/// Reading a string at `pos`: a negative length is refused.
pub open spec fn spec_decode_string(s: Seq<u8>, pos: int) -> Decoded<Seq<char>> {
    match spec_decode_i16(s, pos) {
        Err(e) => Err(e),
        Ok((len, start)) => if len < 0 {
            Err(ProtocolError::InvalidLength)
        } else {
            spec_decode_text(s, start, len as int)
        },
    }
}

/// Reading a nullable string at `pos`: a negative length stands for null.
pub open spec fn spec_decode_nullable_string(s: Seq<u8>, pos: int) -> Decoded<Option<Seq<char>>> {
    match spec_decode_i16(s, pos) {
        Err(e) => Err(e),
        Ok((len, start)) => if len < 0 {
            Ok((None, start))
        } else {
            match spec_decode_text(s, start, len as int) {
                Err(e) => Err(e),
                Ok((chars, next)) => Ok((Some(chars), next)),
            }
        },
    }
}

/// `bytes` is short enough for a 32-bit length prefix.
pub open spec fn bytes_fit(bytes: Seq<u8>) -> bool {
    bytes.len() <= MAX_BYTES_LEN
}

/// A byte buffer on the wire: its length as a 32-bit integer, then the bytes.
pub open spec fn spec_encode_bytes(bytes: Seq<u8>) -> Seq<u8> {
    spec_encode_i32(bytes.len() as i32) + bytes
}

/// Reading a byte buffer at `pos`: a negative length is refused.
pub open spec fn spec_decode_bytes(s: Seq<u8>, pos: int) -> Decoded<Seq<u8>> {
    match spec_decode_i32(s, pos) {
        Err(e) => Err(e),
        Ok((len, start)) => if len < 0 {
            Err(ProtocolError::InvalidLength)
        } else if start + len > s.len() {
            Err(ProtocolError::BufferUnderflow)
        } else {
            Ok((s.subrange(start, start + len), start + len))
        },
    }
}

/// Where `a + b` stands at `pos`, `a` stands at `pos` and `b` right after it.
pub proof fn lemma_holds_at_split(s: Seq<u8>, pos: int, a: Seq<u8>, b: Seq<u8>)
    requires
        holds_at(s, pos, a + b),
    ensures
        holds_at(s, pos, a),
        holds_at(s, pos + a.len(), b),
{
    let whole = s.subrange(pos, pos + (a + b).len());
    assert(s.subrange(pos, pos + a.len()) =~= whole.subrange(0, a.len() as int));
    assert((a + b).subrange(0, a.len() as int) =~= a);
    assert(s.subrange(pos + a.len(), pos + a.len() + b.len()) =~= whole.subrange(
        a.len() as int,
        (a + b).len() as int,
    ));
    assert((a + b).subrange(a.len() as int, (a + b).len() as int) =~= b);
}

/// Decoding an encoded string gives it back.
pub proof fn lemma_string_roundtrip(s: Seq<u8>, pos: int, chars: Seq<char>)
    requires
        string_fits(chars),
        holds_at(s, pos, spec_encode_string(chars)),
    ensures
        spec_decode_string(s, pos) == Ok::<(Seq<char>, int), ProtocolError>(
            (chars, pos + spec_encode_string(chars).len()),
        ),
        spec_decode_nullable_string(s, pos) == Ok::<(Option<Seq<char>>, int), ProtocolError>(
            (Some(chars), pos + spec_encode_string(chars).len()),
        ),
{
    let bytes = encode_utf8(chars);
    let prefix = spec_encode_i16(bytes.len() as i16);
    lemma_be_bytes_len(unsigned16(bytes.len() as i16), 2);
    lemma_holds_at_split(s, pos, prefix, bytes);
    lemma_i16_roundtrip(s, pos, bytes.len() as i16);
    encode_utf8_valid_utf8(chars);
    encode_utf8_decode_utf8(chars);
}

/// Decoding an encoded null string gives null back.
pub proof fn lemma_null_string_roundtrip(s: Seq<u8>, pos: int)
    requires
        holds_at(s, pos, spec_encode_nullable_string(None)),
    ensures
        spec_decode_nullable_string(s, pos) == Ok::<(Option<Seq<char>>, int), ProtocolError>(
            (None, pos + 2),
        ),
{
    lemma_i16_roundtrip(s, pos, -1i16);
}

/// Decoding an encoded byte buffer gives it back.
pub proof fn lemma_bytes_roundtrip(s: Seq<u8>, pos: int, bytes: Seq<u8>)
    requires
        bytes_fit(bytes),
        holds_at(s, pos, spec_encode_bytes(bytes)),
    ensures
        spec_decode_bytes(s, pos) == Ok::<(Seq<u8>, int), ProtocolError>(
            (bytes, pos + spec_encode_bytes(bytes).len()),
        ),
{
    let prefix = spec_encode_i32(bytes.len() as i32);
    lemma_be_bytes_len(unsigned32(bytes.len() as i32), 4);
    lemma_holds_at_split(s, pos, prefix, bytes);
    lemma_i32_roundtrip(s, pos, bytes.len() as i32);
}

/// Appends the bytes of `src`.
pub fn append_slice(out: &mut Vec<u8>, src: &[u8])
    ensures
        final(out)@ == old(out)@ + src@,
{
    let mut i: usize = 0;
    while i < src.len()
        invariant
            i <= src.len(),
            out@ == old(out)@ + src@.subrange(0, i as int),
        decreases src.len() - i,
    {
        proof {
            assert(src@.subrange(0, i as int).push(src@[i as int]) =~= src@.subrange(
                0,
                i as int + 1,
            ));
        }
        out.push(src[i]);
        i += 1;
    }
    proof {
        assert(src@.subrange(0, src@.len() as int) =~= src@);
    }
}

/// Copies `len` bytes of `input` from `start` on.
pub(crate) fn copy_range(input: &[u8], start: usize, len: usize) -> (r: Vec<u8>)
    requires
        start + len <= input.len(),
    ensures
        r@ == input@.subrange(start as int, start + len),
{
    let mut r: Vec<u8> = Vec::new();
    let mut i: usize = 0;
    while i < len
        invariant
            i <= len,
            start + len <= input.len(),
            r@ == input@.subrange(start as int, start + i),
        decreases len - i,
    {
        proof {
            assert(input@.subrange(start as int, start + i).push(input@[start + i])
                =~= input@.subrange(start as int, start + i + 1));
        }
        r.push(input[start + i]);
        i += 1;
    }
    r
}

/// The string that `bytes` spells in UTF-8, if they are well-formed UTF-8.
///
/// Trusted: this is `String::from_utf8` of the standard library, which
/// accepts exactly the well-formed UTF-8 byte sequences and returns the
/// string that has those bytes.
#[verifier::external_body]
fn string_from_utf8(bytes: Vec<u8>) -> (r: Option<String>)
    ensures
        r is Some <==> valid_utf8(bytes@),
        r matches Some(text) ==> encode_utf8(text@) == bytes@,
{
    match String::from_utf8(bytes) {
        Ok(text) => Some(text),
        Err(_) => None,
    }
}

/// Appends `text` as a string field. Fails, and appends nothing, if its
/// UTF-8 form is longer than a 16-bit length can tell.
pub fn encode_string(out: &mut Vec<u8>, text: &str) -> (r: Result<(), ProtocolError>)
    ensures
        match r {
            Ok(_) => string_fits(text@) && final(out)@ == old(out)@ + spec_encode_string(text@),
            Err(e) => e == ProtocolError::InvalidLength && !string_fits(text@) && final(out)@
                == old(out)@,
        },
{
    let bytes = text.as_bytes();
    if bytes.len() > MAX_STRING_LEN {
        return Err(ProtocolError::InvalidLength);
    }
    encode_i16(out, bytes.len() as i16);
    append_slice(out, bytes);
    proof {
        assert(out@ =~= old(out)@ + spec_encode_string(text@));
    }
    Ok(())
}

/// Appends `text` as a nullable string field.
pub fn encode_nullable_string(out: &mut Vec<u8>, text: Option<&str>) -> (r: Result<
    (),
    ProtocolError,
>)
    ensures
        match r {
            Ok(_) => {
                &&& text matches Some(t) ==> string_fits(t@)
                &&& final(out)@ == old(out)@ + spec_encode_nullable_string(
                    match text {
                        Some(t) => Some(t@),
                        None => None,
                    },
                )
            },
            Err(e) => {
                &&& e == ProtocolError::InvalidLength
                &&& text matches Some(t) && !string_fits(t@)
                &&& final(out)@ == old(out)@
            },
        },
{
    match text {
        None => {
            encode_i16(out, -1);
            Ok(())
        },
        Some(t) => encode_string(out, t),
    }
}

/// Reads `len` bytes of text at `start`.
fn decode_text(input: &[u8], start: usize, len: usize) -> (r: Result<(String, usize), ProtocolError>)
    requires
        start <= input.len(),
    ensures
        match r {
            Ok((text, next)) => spec_decode_text(input@, start as int, len as int) == Ok::<
                (Seq<char>, int),
                ProtocolError,
            >((text@, next as int)),
            Err(e) => spec_decode_text(input@, start as int, len as int) == Err::<
                (Seq<char>, int),
                ProtocolError,
            >(e),
        },
{
    if input.len() - start < len {
        return Err(ProtocolError::BufferUnderflow);
    }
    let raw = copy_range(input, start, len);
    match string_from_utf8(raw) {
        None => Err(ProtocolError::InvalidUtf8),
        Some(text) => {
            proof {
                encode_utf8_decode_utf8(text@);
            }
            Ok((text, start + len))
        },
    }
}

/// Reads a string field at `pos`.
pub fn decode_string(input: &[u8], pos: usize) -> (r: Result<(String, usize), ProtocolError>)
    ensures
        match r {
            Ok((text, next)) => spec_decode_string(input@, pos as int) == Ok::<
                (Seq<char>, int),
                ProtocolError,
            >((text@, next as int)),
            Err(e) => spec_decode_string(input@, pos as int) == Err::<
                (Seq<char>, int),
                ProtocolError,
            >(e),
        },
{
    let (len, start) = match decode_i16(input, pos) {
        Ok(pair) => pair,
        Err(e) => { return Err(e); },
    };
    if len < 0 {
        return Err(ProtocolError::InvalidLength);
    }
    decode_text(input, start, len as usize)
}

/// Reads a nullable string field at `pos`.
pub fn decode_nullable_string(input: &[u8], pos: usize) -> (r: Result<
    (Option<String>, usize),
    ProtocolError,
>)
    ensures
        match r {
            Ok((text, next)) => spec_decode_nullable_string(input@, pos as int) == Ok::<
                (Option<Seq<char>>, int),
                ProtocolError,
            >(
                (
                    match text {
                        Some(t) => Some(t@),
                        None => None,
                    },
                    next as int,
                ),
            ),
            Err(e) => spec_decode_nullable_string(input@, pos as int) == Err::<
                (Option<Seq<char>>, int),
                ProtocolError,
            >(e),
        },
{
    let (len, start) = match decode_i16(input, pos) {
        Ok(pair) => pair,
        Err(e) => { return Err(e); },
    };
    if len < 0 {
        return Ok((None, start));
    }
    match decode_text(input, start, len as usize) {
        Ok((text, next)) => Ok((Some(text), next)),
        Err(e) => Err(e),
    }
}

/// Appends `bytes` as a byte-buffer field. Fails, and appends nothing, if
/// there are more bytes than a 32-bit length can tell.
pub fn encode_bytes(out: &mut Vec<u8>, bytes: &[u8]) -> (r: Result<(), ProtocolError>)
    ensures
        match r {
            Ok(_) => bytes_fit(bytes@) && final(out)@ == old(out)@ + spec_encode_bytes(bytes@),
            Err(e) => e == ProtocolError::InvalidLength && !bytes_fit(bytes@) && final(out)@
                == old(out)@,
        },
{
    if bytes.len() > MAX_BYTES_LEN {
        return Err(ProtocolError::InvalidLength);
    }
    encode_i32(out, bytes.len() as i32);
    append_slice(out, bytes);
    proof {
        assert(out@ =~= old(out)@ + spec_encode_bytes(bytes@));
    }
    Ok(())
}

/// Reads a byte-buffer field at `pos`.
pub fn decode_bytes(input: &[u8], pos: usize) -> (r: Result<(Vec<u8>, usize), ProtocolError>)
    ensures
        match r {
            Ok((bytes, next)) => spec_decode_bytes(input@, pos as int) == Ok::<
                (Seq<u8>, int),
                ProtocolError,
            >((bytes@, next as int)),
            Err(e) => spec_decode_bytes(input@, pos as int) == Err::<(Seq<u8>, int), ProtocolError>(
                e,
            ),
        },
{
    let (len, start) = match decode_i32(input, pos) {
        Ok(pair) => pair,
        Err(e) => { return Err(e); },
    };
    if len < 0 {
        return Err(ProtocolError::InvalidLength);
    }
    if input.len() - start < len as usize {
        return Err(ProtocolError::BufferUnderflow);
    }
    let bytes = copy_range(input, start, len as usize);
    Ok((bytes, start + len as usize))
}

} // verus!
