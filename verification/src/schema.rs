//! Versioned struct codec: one routine that reads and writes any message
//! from the description of its fields.
//!
//! A schema is the ordered list of a struct's fields. Each field has a codec
//! rule and the range of versions in which it is on the wire. Fields are
//! written and read in the order of the schema; a field whose range leaves
//! out the active version is not written, and reads as its default.

use vstd::prelude::*;
use crate::codec::{
    bytes_fit, decode_bytes, decode_i16, decode_i32, decode_i64, decode_i8,
    decode_nullable_string, decode_string, encode_bytes, encode_i16, encode_i32, encode_i64,
    encode_i8, encode_string, holds_at, lemma_be_bytes_len,
    lemma_bytes_roundtrip, lemma_holds_at_split, lemma_i16_roundtrip, lemma_i32_roundtrip,
    lemma_i64_roundtrip, lemma_i8_roundtrip, lemma_null_string_roundtrip, lemma_string_roundtrip,
    spec_decode_bytes, spec_decode_i16, spec_decode_i32, spec_decode_i64, spec_decode_i8,
    spec_decode_nullable_string, spec_decode_string, spec_encode_bytes, spec_encode_i16,
    spec_encode_i32, spec_encode_i64, spec_encode_i8, spec_encode_nullable_string,
    spec_encode_string, string_fits, unsigned16, unsigned32, unsigned64, unsigned8, Decoded,
};
use crate::error::ProtocolError;

verus! {

/// The codec rule of a field.
#[derive(Debug, PartialEq, Eq)]
pub enum FieldType {
    Int8,
    Int16,
    Int32,
    Int64,
    /// A string that is always there.
    String,
    /// A string that may be null.
    NullableString,
    /// A raw byte buffer.
    Bytes,
    /// A sequence, which may be null, of elements of one type.
    Array(Box<FieldType>),
    /// A nested struct, which shares the active version of its parent.
    Struct(Vec<Field>),
}

/// One field of a schema.
#[derive(Debug, PartialEq, Eq)]
pub struct Field {
    pub ty: FieldType,
    /// The first version that has the field.
    pub min_version: i16,
    /// The last version that has the field.
    pub max_version: i16,
}

/// A value of some field.
#[derive(Debug, PartialEq, Eq)]
pub enum Value {
    Int8(i8),
    Int16(i16),
    Int32(i32),
    Int64(i64),
    String(String),
    NullableString(Option<String>),
    Bytes(Vec<u8>),
    /// A sequence that is there; it may be empty.
    Array(Vec<Value>),
    /// The null sequence, which is not the empty one.
    NullArray,
    Struct(Vec<Value>),
}

/// The greatest number of elements that a 32-bit count can announce.
pub const MAX_ARRAY_LEN: usize = 0x7fff_ffff;

/// What a `Value` stands for.
pub enum Datum {
    Int8(i8),
    Int16(i16),
    Int32(i32),
    Int64(i64),
    String(Seq<char>),
    NullableString(Option<Seq<char>>),
    Bytes(Seq<u8>),
    Array(Seq<Datum>),
    NullArray,
    Struct(Seq<Datum>),
}

impl View for Value {
    type V = Datum;

    open spec fn view(&self) -> Datum
        decreases self,
    {
        match self {
            Value::Int8(v) => Datum::Int8(*v),
            Value::Int16(v) => Datum::Int16(*v),
            Value::Int32(v) => Datum::Int32(*v),
            Value::Int64(v) => Datum::Int64(*v),
            Value::String(text) => Datum::String(text@),
            Value::NullableString(None) => Datum::NullableString(None),
            Value::NullableString(Some(text)) => Datum::NullableString(Some(text@)),
            Value::Bytes(bytes) => Datum::Bytes(bytes@),
            Value::Array(items) => Datum::Array(
                Seq::new(
                    items@.len(),
                    |i: int|
                        if 0 <= i < items@.len() {
                            items@[i].view()
                        } else {
                            Datum::Int8(0)
                        },
                ),
            ),
            Value::NullArray => Datum::NullArray,
            Value::Struct(items) => Datum::Struct(
                Seq::new(
                    items@.len(),
                    |i: int|
                        if 0 <= i < items@.len() {
                            items@[i].view()
                        } else {
                            Datum::Int8(0)
                        },
                ),
            ),
        }
    }
}

/// What a sequence of values stands for.
pub open spec fn datums(items: Seq<Value>) -> Seq<Datum> {
    Seq::new(items.len(), |i: int| items[i]@)
}

/// The view of a sequence or a struct is the sequence of its items' views.
pub proof fn lemma_view_items(items: Vec<Value>)
    ensures
        Value::Array(items)@ == Datum::Array(datums(items@)),
        Value::Struct(items)@ == Datum::Struct(datums(items@)),
{
    reveal_with_fuel(<Value as View>::view, 2);
    assert(Value::Struct(items)@->Struct_0 =~= datums(items@));
    assert(Value::Array(items)@->Array_0 =~= datums(items@));
}

/// `field` is on the wire at `version`.
pub open spec fn applies(field: Field, version: i16) -> bool {
    field.min_version <= version <= field.max_version
}

/// The value that a field of type `ty` has when it is not on the wire:
/// zero, the empty string, the null string, no bytes, the empty sequence,
/// and for a struct the defaults of its fields.
pub open spec fn default_datum(ty: FieldType) -> Datum
    decreases ty, 0nat,
{
    match ty {
        FieldType::Int8 => Datum::Int8(0),
        FieldType::Int16 => Datum::Int16(0),
        FieldType::Int32 => Datum::Int32(0),
        FieldType::Int64 => Datum::Int64(0),
        FieldType::String => Datum::String(Seq::empty()),
        FieldType::NullableString => Datum::NullableString(None),
        FieldType::Bytes => Datum::Bytes(Seq::empty()),
        FieldType::Array(_) => Datum::Array(Seq::empty()),
        FieldType::Struct(fields) => Datum::Struct(default_fields(fields@, fields@.len())),
    }
}

/// The defaults of the first `n` fields.
pub open spec fn default_fields(fields: Seq<Field>, n: nat) -> Seq<Datum>
    decreases fields, n,
{
    if n == 0 || n > fields.len() {
        Seq::empty()
    } else {
        default_fields(fields, (n - 1) as nat).push(default_datum(fields[n - 1].ty))
    }
}

/// What is written for `d` as a field of type `ty`, or why it cannot be
/// written.
pub open spec fn spec_encode_value(ty: FieldType, d: Datum, version: i16) -> Result<
    Seq<u8>,
    ProtocolError,
>
    decreases ty, 0nat,
{
    match (ty, d) {
        (FieldType::Int8, Datum::Int8(v)) => Ok(spec_encode_i8(v)),
        (FieldType::Int16, Datum::Int16(v)) => Ok(spec_encode_i16(v)),
        (FieldType::Int32, Datum::Int32(v)) => Ok(spec_encode_i32(v)),
        (FieldType::Int64, Datum::Int64(v)) => Ok(spec_encode_i64(v)),
        (FieldType::String, Datum::String(text)) => if string_fits(text) {
            Ok(spec_encode_string(text))
        } else {
            Err(ProtocolError::InvalidLength)
        },
        (FieldType::NullableString, Datum::NullableString(None)) => Ok(
            spec_encode_nullable_string(None),
        ),
        (FieldType::NullableString, Datum::NullableString(Some(text))) => if string_fits(text) {
            Ok(spec_encode_string(text))
        } else {
            Err(ProtocolError::InvalidLength)
        },
        (FieldType::Bytes, Datum::Bytes(bytes)) => if bytes_fit(bytes) {
            Ok(spec_encode_bytes(bytes))
        } else {
            Err(ProtocolError::InvalidLength)
        },
        (FieldType::Array(_), Datum::NullArray) => Ok(spec_encode_i32(-1i32)),
        (FieldType::Array(inner), Datum::Array(items)) => if items.len() > MAX_ARRAY_LEN {
            Err(ProtocolError::InvalidLength)
        } else {
            match spec_encode_items(*inner, items, items.len(), version) {
                Err(e) => Err(e),
                Ok(bytes) => Ok(spec_encode_i32(items.len() as i32) + bytes),
            }
        },
        (FieldType::Struct(fields), Datum::Struct(items)) => if items.len() != fields@.len() {
            Err(ProtocolError::SchemaMismatch)
        } else {
            spec_encode_fields(fields@, items, fields@.len(), version)
        },
        _ => Err(ProtocolError::SchemaMismatch),
    }
}

/// What is written for the first `n` of `items`, each of type `ty`.
pub open spec fn spec_encode_items(ty: FieldType, items: Seq<Datum>, n: nat, version: i16) -> Result<
    Seq<u8>,
    ProtocolError,
>
    decreases ty, n,
{
    if n == 0 || n > items.len() {
        Ok(Seq::empty())
    } else {
        match spec_encode_items(ty, items, (n - 1) as nat, version) {
            Err(e) => Err(e),
            Ok(head) => match spec_encode_value(ty, items[n - 1], version) {
                Err(e) => Err(e),
                Ok(last) => Ok(head + last),
            },
        }
    }
}

/// What is written for the first `n` fields of a struct.
pub open spec fn spec_encode_fields(fields: Seq<Field>, items: Seq<Datum>, n: nat, version: i16) -> Result<
    Seq<u8>,
    ProtocolError,
>
    decreases fields, n,
{
    if n == 0 || n > fields.len() {
        Ok(Seq::empty())
    } else {
        match spec_encode_fields(fields, items, (n - 1) as nat, version) {
            Err(e) => Err(e),
            Ok(head) => if applies(fields[n - 1], version) {
                match spec_encode_value(fields[n - 1].ty, items[n - 1], version) {
                    Err(e) => Err(e),
                    Ok(last) => Ok(head + last),
                }
            } else {
                Ok(head)
            },
        }
    }
}

/// What is written for a struct with the schema `fields`.
pub open spec fn spec_encode_struct(fields: Seq<Field>, items: Seq<Datum>, version: i16) -> Result<
    Seq<u8>,
    ProtocolError,
> {
    if items.len() != fields.len() {
        Err(ProtocolError::SchemaMismatch)
    } else {
        spec_encode_fields(fields, items, fields.len(), version)
    }
}

/// What is read from `pos` on as a struct with the schema `fields`.
pub open spec fn spec_decode_struct(fields: Seq<Field>, s: Seq<u8>, pos: int, version: i16) -> Decoded<
    Seq<Datum>,
> {
    spec_decode_fields(fields, s, pos, fields.len(), version)
}

/// What is read at `pos` as a field of type `ty`.
pub open spec fn spec_decode_value(ty: FieldType, s: Seq<u8>, pos: int, version: i16) -> Decoded<
    Datum,
>
    decreases ty, 0nat,
{
    match ty {
        FieldType::Int8 => match spec_decode_i8(s, pos) {
            Err(e) => Err(e),
            Ok((v, next)) => Ok((Datum::Int8(v), next)),
        },
        FieldType::Int16 => match spec_decode_i16(s, pos) {
            Err(e) => Err(e),
            Ok((v, next)) => Ok((Datum::Int16(v), next)),
        },
        FieldType::Int32 => match spec_decode_i32(s, pos) {
            Err(e) => Err(e),
            Ok((v, next)) => Ok((Datum::Int32(v), next)),
        },
        FieldType::Int64 => match spec_decode_i64(s, pos) {
            Err(e) => Err(e),
            Ok((v, next)) => Ok((Datum::Int64(v), next)),
        },
        FieldType::String => match spec_decode_string(s, pos) {
            Err(e) => Err(e),
            Ok((text, next)) => Ok((Datum::String(text), next)),
        },
        FieldType::NullableString => match spec_decode_nullable_string(s, pos) {
            Err(e) => Err(e),
            Ok((text, next)) => Ok((Datum::NullableString(text), next)),
        },
        FieldType::Bytes => match spec_decode_bytes(s, pos) {
            Err(e) => Err(e),
            Ok((bytes, next)) => Ok((Datum::Bytes(bytes), next)),
        },
        FieldType::Array(inner) => match spec_decode_i32(s, pos) {
            Err(e) => Err(e),
            Ok((count, start)) => if count < 0 {
                Ok((Datum::NullArray, start))
            } else {
                match spec_decode_items(*inner, s, start, count as nat, version) {
                    Err(e) => Err(e),
                    Ok((items, next)) => Ok((Datum::Array(items), next)),
                }
            },
        },
        FieldType::Struct(fields) => match spec_decode_fields(
            fields@,
            s,
            pos,
            fields@.len(),
            version,
        ) {
            Err(e) => Err(e),
            Ok((items, next)) => Ok((Datum::Struct(items), next)),
        },
    }
}

/// What is read from `pos` on as `n` items of type `ty`.
pub open spec fn spec_decode_items(ty: FieldType, s: Seq<u8>, pos: int, n: nat, version: i16) -> Decoded<
    Seq<Datum>,
>
    decreases ty, n,
{
    if n == 0 {
        Ok((Seq::empty(), pos))
    } else {
        match spec_decode_items(ty, s, pos, (n - 1) as nat, version) {
            Err(e) => Err(e),
            Ok((head, mid)) => match spec_decode_value(ty, s, mid, version) {
                Err(e) => Err(e),
                Ok((last, next)) => Ok((head.push(last), next)),
            },
        }
    }
}

/// What is read from `pos` on as the first `n` fields of a struct.
pub open spec fn spec_decode_fields(
    fields: Seq<Field>,
    s: Seq<u8>,
    pos: int,
    n: nat,
    version: i16,
) -> Decoded<Seq<Datum>>
    decreases fields, n,
{
    if n == 0 || n > fields.len() {
        Ok((Seq::empty(), pos))
    } else {
        match spec_decode_fields(fields, s, pos, (n - 1) as nat, version) {
            Err(e) => Err(e),
            Ok((head, mid)) => if applies(fields[n - 1], version) {
                match spec_decode_value(fields[n - 1].ty, s, mid, version) {
                    Err(e) => Err(e),
                    Ok((last, next)) => Ok((head.push(last), next)),
                }
            } else {
                Ok((head.push(default_datum(fields[n - 1].ty)), mid))
            },
        }
    }
}


/// Once the first `i` items fail to encode, so do the first `n`, alike.
pub proof fn lemma_encode_items_error(
    ty: FieldType,
    items: Seq<Datum>,
    i: nat,
    n: nat,
    version: i16,
)
    requires
        i <= n <= items.len(),
        spec_encode_items(ty, items, i, version) is Err,
    ensures
        spec_encode_items(ty, items, n, version) == spec_encode_items(ty, items, i, version),
    decreases n,
{
    if i < n {
        lemma_encode_items_error(ty, items, i, (n - 1) as nat, version);
    }
}

/// Once the first `i` fields fail to encode, so do the first `n`, alike.
pub proof fn lemma_encode_fields_error(
    fields: Seq<Field>,
    items: Seq<Datum>,
    i: nat,
    n: nat,
    version: i16,
)
    requires
        i <= n <= fields.len(),
        spec_encode_fields(fields, items, i, version) is Err,
    ensures
        spec_encode_fields(fields, items, n, version) == spec_encode_fields(
            fields,
            items,
            i,
            version,
        ),
    decreases n,
{
    if i < n {
        lemma_encode_fields_error(fields, items, i, (n - 1) as nat, version);
    }
}

/// Once the first `i` items fail to decode, so do the first `n`, alike.
pub proof fn lemma_decode_items_error(
    ty: FieldType,
    s: Seq<u8>,
    pos: int,
    i: nat,
    n: nat,
    version: i16,
)
    requires
        i <= n,
        spec_decode_items(ty, s, pos, i, version) is Err,
    ensures
        spec_decode_items(ty, s, pos, n, version) == spec_decode_items(ty, s, pos, i, version),
    decreases n,
{
    if i < n {
        lemma_decode_items_error(ty, s, pos, i, (n - 1) as nat, version);
    }
}

/// Once the first `i` fields fail to decode, so do the first `n`, alike.
pub proof fn lemma_decode_fields_error(
    fields: Seq<Field>,
    s: Seq<u8>,
    pos: int,
    i: nat,
    n: nat,
    version: i16,
)
    requires
        i <= n <= fields.len(),
        spec_decode_fields(fields, s, pos, i, version) is Err,
    ensures
        spec_decode_fields(fields, s, pos, n, version) == spec_decode_fields(
            fields,
            s,
            pos,
            i,
            version,
        ),
    decreases n,
{
    if i < n {
        lemma_decode_fields_error(fields, s, pos, i, (n - 1) as nat, version);
    }
}

/// `final_bytes` is `old_bytes` with `m`'s bytes behind it where `m` is
/// `Ok`; where `m` is an error, `r` is that error and `final_bytes` is
/// `old_bytes`.
pub open spec fn appended(
    r: Result<(), ProtocolError>,
    m: Result<Seq<u8>, ProtocolError>,
    old_bytes: Seq<u8>,
    final_bytes: Seq<u8>,
) -> bool {
    match r {
        Ok(_) => m matches Ok(bytes) && final_bytes == old_bytes + bytes,
        Err(e) => m == Err::<Seq<u8>, ProtocolError>(e) && final_bytes == old_bytes,
    }
}

/// Whether `field` is on the wire at `version`.
pub fn field_applies(field: &Field, version: i16) -> (b: bool)
    ensures
        b == applies(*field, version),
{
    field.min_version <= version && version <= field.max_version
}

/// Appends `value` as a field of type `ty`. Fails if the value has not the
/// shape of `ty`, or holds a string, a buffer or a sequence that is too long
/// for its length prefix; `out` is then left as it was.
pub fn encode_value(ty: &FieldType, value: &Value, version: i16, out: &mut Vec<u8>) -> (r: Result<
    (),
    ProtocolError,
>)
    ensures
        appended(r, spec_encode_value(*ty, value@, version), old(out)@, final(out)@),
    decreases ty, 0nat,
{
    match (ty, value) {
        (FieldType::Int8, Value::Int8(v)) => {
            encode_i8(out, *v);
            Ok(())
        },
        (FieldType::Int16, Value::Int16(v)) => {
            encode_i16(out, *v);
            Ok(())
        },
        (FieldType::Int32, Value::Int32(v)) => {
            encode_i32(out, *v);
            Ok(())
        },
        (FieldType::Int64, Value::Int64(v)) => {
            encode_i64(out, *v);
            Ok(())
        },
        (FieldType::String, Value::String(text)) => encode_string(out, text.as_str()),
        (FieldType::NullableString, Value::NullableString(None)) => {
            encode_i16(out, -1);
            Ok(())
        },
        (FieldType::NullableString, Value::NullableString(Some(text))) => encode_string(
            out,
            text.as_str(),
        ),
        (FieldType::Bytes, Value::Bytes(bytes)) => encode_bytes(out, bytes.as_slice()),
        (FieldType::Array(_), Value::NullArray) => {
            encode_i32(out, -1);
            Ok(())
        },
        (FieldType::Array(inner), Value::Array(items)) => {
            proof {
                lemma_view_items(*items);
            }
            if items.len() > MAX_ARRAY_LEN {
                return Err(ProtocolError::InvalidLength);
            }
            let start = out.len();
            encode_i32(out, items.len() as i32);
            let r = encode_items(inner, items, version, out);
            if r.is_err() {
                out.truncate(start);
            }
            proof {
                if r is Ok {
                    let bytes = spec_encode_items(
                        **inner,
                        datums(items@),
                        items@.len(),
                        version,
                    )->Ok_0;
                    assert(out@ =~= old(out)@ + (spec_encode_i32(items.len() as i32) + bytes));
                } else {
                    assert(out@ =~= old(out)@);
                }
            }
            r
        },
        (FieldType::Struct(fields), Value::Struct(items)) => {
            proof {
                lemma_view_items(*items);
            }
            encode_struct(fields, items, version, out)
        },
        _ => Err(ProtocolError::SchemaMismatch),
    }
}

/// Appends each of `items` as a value of type `ty`.
fn encode_items(ty: &FieldType, items: &Vec<Value>, version: i16, out: &mut Vec<u8>) -> (r: Result<
    (),
    ProtocolError,
>)
    ensures
        appended(
            r,
            spec_encode_items(*ty, datums(items@), items@.len(), version),
            old(out)@,
            final(out)@,
        ),
    decreases ty, 1nat,
{
    let start = out.len();
    let mut i: usize = 0;
    let ghost mut done: Seq<u8> = Seq::empty();
    proof {
        assert(out@ =~= old(out)@ + done);
    }
    while i < items.len()
        invariant
            i <= items.len(),
            start == old(out)@.len(),
            spec_encode_items(*ty, datums(items@), i as nat, version) == Ok::<
                Seq<u8>,
                ProtocolError,
            >(done),
            out@ == old(out)@ + done,
        decreases items.len() - i,
    {
        match encode_value(ty, &items[i], version, out) {
            Ok(_) => {
                proof {
                    let last = spec_encode_value(*ty, items[i as int]@, version)->Ok_0;
                    assert(out@ =~= old(out)@ + (done + last));
                    done = done + last;
                }
            },
            Err(e) => {
                proof {
                    assert(spec_encode_items(*ty, datums(items@), (i + 1) as nat, version) is Err);
                    lemma_encode_items_error(
                        *ty,
                        datums(items@),
                        (i + 1) as nat,
                        items@.len(),
                        version,
                    );
                }
                out.truncate(start);
                proof {
                    assert(out@ =~= old(out)@);
                }
                return Err(e);
            },
        }
        i += 1;
    }
    Ok(())
}

/// Appends the fields of a struct in the order of `fields`, leaving out the
/// fields that are not on the wire at `version`. Fails if there are not as
/// many values as fields, or if a value that is to be written cannot be;
/// `out` is then left as it was.
pub fn encode_struct(fields: &Vec<Field>, items: &Vec<Value>, version: i16, out: &mut Vec<u8>) -> (r:
    Result<(), ProtocolError>)
    ensures
        appended(r, spec_encode_struct(fields@, datums(items@), version), old(out)@, final(out)@),
    decreases fields, 0nat,
{
    if items.len() != fields.len() {
        return Err(ProtocolError::SchemaMismatch);
    }
    let start = out.len();
    let mut i: usize = 0;
    let ghost mut done: Seq<u8> = Seq::empty();
    proof {
        assert(out@ =~= old(out)@ + done);
    }
    while i < fields.len()
        invariant
            i <= fields.len(),
            items.len() == fields.len(),
            start == old(out)@.len(),
            spec_encode_fields(fields@, datums(items@), i as nat, version) == Ok::<
                Seq<u8>,
                ProtocolError,
            >(done),
            out@ == old(out)@ + done,
        decreases fields.len() - i,
    {
        if field_applies(&fields[i], version) {
            assert(decreases_to!(fields => fields[i as int]));
            assert(decreases_to!(fields[i as int] => fields[i as int].ty));
            match encode_value(&fields[i].ty, &items[i], version, out) {
                Ok(_) => {
                    proof {
                        let last = spec_encode_value(
                            fields[i as int].ty,
                            items[i as int]@,
                            version,
                        )->Ok_0;
                        assert(out@ =~= old(out)@ + (done + last));
                        done = done + last;
                    }
                },
                Err(e) => {
                    proof {
                        assert(spec_encode_fields(
                            fields@,
                            datums(items@),
                            (i + 1) as nat,
                            version,
                        ) is Err);
                        lemma_encode_fields_error(
                            fields@,
                            datums(items@),
                            (i + 1) as nat,
                            fields@.len(),
                            version,
                        );
                    }
                    out.truncate(start);
                    proof {
                        assert(out@ =~= old(out)@);
                    }
                    return Err(e);
                },
            }
        }
        i += 1;
    }
    Ok(())
}


/// The executable result `r` is the modelled result `m`, value by view.
pub open spec fn same_value(r: Result<(Value, usize), ProtocolError>, m: Decoded<Datum>) -> bool {
    match r {
        Ok((v, next)) => m == Ok::<(Datum, int), ProtocolError>((v@, next as int)),
        Err(e) => m == Err::<(Datum, int), ProtocolError>(e),
    }
}

/// The executable result `r` is the modelled result `m`, item by item.
pub open spec fn same_values(
    r: Result<(Vec<Value>, usize), ProtocolError>,
    m: Decoded<Seq<Datum>>,
) -> bool {
    match r {
        Ok((items, next)) => m == Ok::<(Seq<Datum>, int), ProtocolError>(
            (datums(items@), next as int),
        ),
        Err(e) => m == Err::<(Seq<Datum>, int), ProtocolError>(e),
    }
}

/// The default of a field of type `ty`.
pub fn default_value(ty: &FieldType) -> (r: Value)
    ensures
        r@ == default_datum(*ty),
    decreases ty, 0nat,
{
    match ty {
        FieldType::Int8 => Value::Int8(0),
        FieldType::Int16 => Value::Int16(0),
        FieldType::Int32 => Value::Int32(0),
        FieldType::Int64 => Value::Int64(0),
        FieldType::String => Value::String(String::new()),
        FieldType::NullableString => Value::NullableString(None),
        FieldType::Bytes => {
            let bytes: Vec<u8> = Vec::new();
            Value::Bytes(bytes)
        },
        FieldType::Array(_) => {
            let items: Vec<Value> = Vec::new();
            proof {
                lemma_view_items(items);
                assert(datums(items@) =~= Seq::<Datum>::empty());
            }
            Value::Array(items)
        },
        FieldType::Struct(fields) => {
            let items = default_values(fields);
            proof {
                lemma_view_items(items);
            }
            Value::Struct(items)
        },
    }
}

/// The defaults of the fields of a struct.
pub fn default_values(fields: &Vec<Field>) -> (items: Vec<Value>)
    ensures
        datums(items@) == default_fields(fields@, fields@.len()),
    decreases fields, 0nat,
{
    let mut items: Vec<Value> = Vec::new();
    let mut i: usize = 0;
    proof {
        assert(datums(items@) =~= default_fields(fields@, 0));
    }
    while i < fields.len()
        invariant
            i <= fields.len(),
            datums(items@) == default_fields(fields@, i as nat),
        decreases fields.len() - i,
    {
        assert(decreases_to!(fields => fields[i as int]));
        assert(decreases_to!(fields[i as int] => fields[i as int].ty));
        let item = default_value(&fields[i].ty);
        proof {
            assert(datums(items@.push(item)) =~= datums(items@).push(item@));
        }
        items.push(item);
        i += 1;
    }
    items
}

/// Reads a field of type `ty` at `pos`.
pub fn decode_value(ty: &FieldType, input: &[u8], pos: usize, version: i16) -> (r: Result<
    (Value, usize),
    ProtocolError,
>)
    ensures
        same_value(r, spec_decode_value(*ty, input@, pos as int, version)),
    decreases ty, 0nat,
{
    match ty {
        FieldType::Int8 => match decode_i8(input, pos) {
            Ok((v, next)) => Ok((Value::Int8(v), next)),
            Err(e) => Err(e),
        },
        FieldType::Int16 => match decode_i16(input, pos) {
            Ok((v, next)) => Ok((Value::Int16(v), next)),
            Err(e) => Err(e),
        },
        FieldType::Int32 => match decode_i32(input, pos) {
            Ok((v, next)) => Ok((Value::Int32(v), next)),
            Err(e) => Err(e),
        },
        FieldType::Int64 => match decode_i64(input, pos) {
            Ok((v, next)) => Ok((Value::Int64(v), next)),
            Err(e) => Err(e),
        },
        FieldType::String => match decode_string(input, pos) {
            Ok((text, next)) => Ok((Value::String(text), next)),
            Err(e) => Err(e),
        },
        FieldType::NullableString => match decode_nullable_string(input, pos) {
            Ok((text, next)) => Ok((Value::NullableString(text), next)),
            Err(e) => Err(e),
        },
        FieldType::Bytes => match decode_bytes(input, pos) {
            Ok((bytes, next)) => Ok((Value::Bytes(bytes), next)),
            Err(e) => Err(e),
        },
        FieldType::Array(inner) => {
            let (count, start) = match decode_i32(input, pos) {
                Ok(pair) => pair,
                Err(e) => { return Err(e); },
            };
            if count < 0 {
                return Ok((Value::NullArray, start));
            }
            match decode_items(inner, input, start, count as usize, version) {
                Ok((items, next)) => {
                    proof {
                        lemma_view_items(items);
                    }
                    Ok((Value::Array(items), next))
                },
                Err(e) => Err(e),
            }
        },
        FieldType::Struct(fields) => match decode_struct(fields, input, pos, version) {
            Ok((items, next)) => {
                proof {
                    lemma_view_items(items);
                }
                Ok((Value::Struct(items), next))
            },
            Err(e) => Err(e),
        },
    }
}

/// Reads `n` values of type `ty` from `pos` on.
fn decode_items(ty: &FieldType, input: &[u8], pos: usize, n: usize, version: i16) -> (r: Result<
    (Vec<Value>, usize),
    ProtocolError,
>)
    ensures
        same_values(r, spec_decode_items(*ty, input@, pos as int, n as nat, version)),
    decreases ty, 1nat,
{
    let mut items: Vec<Value> = Vec::new();
    let mut at: usize = pos;
    let mut i: usize = 0;
    proof {
        assert(datums(items@) =~= Seq::<Datum>::empty());
    }
    while i < n
        invariant
            i <= n,
            spec_decode_items(*ty, input@, pos as int, i as nat, version) == Ok::<
                (Seq<Datum>, int),
                ProtocolError,
            >((datums(items@), at as int)),
        decreases n - i,
    {
        match decode_value(ty, input, at, version) {
            Ok((item, next)) => {
                proof {
                    assert(datums(items@.push(item)) =~= datums(items@).push(item@));
                }
                items.push(item);
                at = next;
            },
            Err(e) => {
                proof {
                    assert(spec_decode_items(*ty, input@, pos as int, (i + 1) as nat, version)
                        is Err);
                    lemma_decode_items_error(
                        *ty,
                        input@,
                        pos as int,
                        (i + 1) as nat,
                        n as nat,
                        version,
                    );
                }
                return Err(e);
            },
        }
        i += 1;
    }
    Ok((items, at))
}

/// Reads the fields of a struct from `pos` on, in the order of `fields`. A
/// field that is not on the wire at `version` takes its default and no
/// input.
pub fn decode_struct(fields: &Vec<Field>, input: &[u8], pos: usize, version: i16) -> (r: Result<
    (Vec<Value>, usize),
    ProtocolError,
>)
    ensures
        same_values(r, spec_decode_struct(fields@, input@, pos as int, version)),
    decreases fields, 0nat,
{
    let mut items: Vec<Value> = Vec::new();
    let mut at: usize = pos;
    let mut i: usize = 0;
    proof {
        assert(datums(items@) =~= Seq::<Datum>::empty());
    }
    while i < fields.len()
        invariant
            i <= fields.len(),
            spec_decode_fields(fields@, input@, pos as int, i as nat, version) == Ok::<
                (Seq<Datum>, int),
                ProtocolError,
            >((datums(items@), at as int)),
        decreases fields.len() - i,
    {
        assert(decreases_to!(fields => fields[i as int]));
        assert(decreases_to!(fields[i as int] => fields[i as int].ty));
        if field_applies(&fields[i], version) {
            match decode_value(&fields[i].ty, input, at, version) {
                Ok((item, next)) => {
                    proof {
                        assert(datums(items@.push(item)) =~= datums(items@).push(item@));
                    }
                    items.push(item);
                    at = next;
                },
                Err(e) => {
                    proof {
                        assert(spec_decode_fields(
                            fields@,
                            input@,
                            pos as int,
                            (i + 1) as nat,
                            version,
                        ) is Err);
                        lemma_decode_fields_error(
                            fields@,
                            input@,
                            pos as int,
                            (i + 1) as nat,
                            fields@.len(),
                            version,
                        );
                    }
                    return Err(e);
                },
            }
        } else {
            let item = default_value(&fields[i].ty);
            proof {
                assert(datums(items@.push(item)) =~= datums(items@).push(item@));
            }
            items.push(item);
        }
        i += 1;
    }
    Ok((items, at))
}


/// What `d` looks like after a trip over the wire as a field of type `ty`
/// at `version`: the same, but that inside it every struct field that is
/// not on the wire at `version` holds its default.
pub open spec fn normalize_value(ty: FieldType, d: Datum, version: i16) -> Datum
    decreases ty, 0nat,
{
    match (ty, d) {
        (FieldType::Array(inner), Datum::Array(items)) => Datum::Array(
            normalize_items(*inner, items, items.len(), version),
        ),
        (FieldType::Struct(fields), Datum::Struct(items)) => Datum::Struct(
            normalize_fields(fields@, items, fields@.len(), version),
        ),
        _ => d,
    }
}

/// The first `n` of `items` after a trip over the wire.
pub open spec fn normalize_items(ty: FieldType, items: Seq<Datum>, n: nat, version: i16) -> Seq<
    Datum,
>
    decreases ty, n,
{
    if n == 0 || n > items.len() {
        Seq::empty()
    } else {
        normalize_items(ty, items, (n - 1) as nat, version).push(
            normalize_value(ty, items[n - 1], version),
        )
    }
}

/// The first `n` fields of a struct after a trip over the wire.
pub open spec fn normalize_fields(fields: Seq<Field>, items: Seq<Datum>, n: nat, version: i16) -> Seq<
    Datum,
>
    decreases fields, n,
{
    if n == 0 || n > fields.len() {
        Seq::empty()
    } else {
        normalize_fields(fields, items, (n - 1) as nat, version).push(
            if applies(fields[n - 1], version) {
                normalize_value(fields[n - 1].ty, items[n - 1], version)
            } else {
                default_datum(fields[n - 1].ty)
            },
        )
    }
}

/// The fields of `items` are populated as `version` has them: each field
/// that is not on the wire at `version` holds its default, in nested structs
/// too.
pub open spec fn version_appropriate(fields: Seq<Field>, items: Seq<Datum>, version: i16) -> bool {
    normalize_fields(fields, items, fields.len(), version) == items
}

/// Field by field, what a struct holds after a trip over the wire.
pub proof fn lemma_normalize_fields_index(
    fields: Seq<Field>,
    items: Seq<Datum>,
    n: nat,
    version: i16,
    i: int,
)
    requires
        0 <= i < n <= fields.len(),
    ensures
        normalize_fields(fields, items, n, version).len() == n,
        normalize_fields(fields, items, n, version)[i] == if applies(fields[i], version) {
            normalize_value(fields[i].ty, items[i], version)
        } else {
            default_datum(fields[i].ty)
        },
    decreases n,
{
    lemma_normalize_fields_len(fields, items, n, version);
    lemma_normalize_fields_len(fields, items, (n - 1) as nat, version);
    if i < n - 1 {
        lemma_normalize_fields_index(fields, items, (n - 1) as nat, version, i);
    }
}

/// A struct keeps the number of its fields over the wire.
pub proof fn lemma_normalize_fields_len(
    fields: Seq<Field>,
    items: Seq<Datum>,
    n: nat,
    version: i16,
)
    requires
        n <= fields.len(),
    ensures
        normalize_fields(fields, items, n, version).len() == n,
    decreases n,
{
    if n > 0 {
        lemma_normalize_fields_len(fields, items, (n - 1) as nat, version);
    }
}

/// Reading what was written for a value gives the value as it is after a
/// trip over the wire, and ends right behind its bytes.
pub proof fn lemma_value_roundtrip(ty: FieldType, d: Datum, version: i16, s: Seq<u8>, pos: int)
    requires
        spec_encode_value(ty, d, version) is Ok,
        holds_at(s, pos, spec_encode_value(ty, d, version)->Ok_0),
    ensures
        spec_decode_value(ty, s, pos, version) == Ok::<(Datum, int), ProtocolError>(
            (
                normalize_value(ty, d, version),
                pos + spec_encode_value(ty, d, version)->Ok_0.len(),
            ),
        ),
    decreases ty, 0nat,
{
    match (ty, d) {
        (FieldType::Int8, Datum::Int8(v)) => {
            lemma_be_bytes_len(unsigned8(v), 1);
            lemma_i8_roundtrip(s, pos, v);
        },
        (FieldType::Int16, Datum::Int16(v)) => {
            lemma_be_bytes_len(unsigned16(v), 2);
            lemma_i16_roundtrip(s, pos, v);
        },
        (FieldType::Int32, Datum::Int32(v)) => {
            lemma_be_bytes_len(unsigned32(v), 4);
            lemma_i32_roundtrip(s, pos, v);
        },
        (FieldType::Int64, Datum::Int64(v)) => {
            lemma_be_bytes_len(unsigned64(v), 8);
            lemma_i64_roundtrip(s, pos, v);
        },
        (FieldType::String, Datum::String(text)) => {
            lemma_string_roundtrip(s, pos, text);
        },
        (FieldType::NullableString, Datum::NullableString(None)) => {
            lemma_be_bytes_len(unsigned16(-1i16), 2);
            lemma_null_string_roundtrip(s, pos);
        },
        (FieldType::NullableString, Datum::NullableString(Some(text))) => {
            lemma_string_roundtrip(s, pos, text);
        },
        (FieldType::Bytes, Datum::Bytes(bytes)) => {
            lemma_bytes_roundtrip(s, pos, bytes);
        },
        (FieldType::Array(_), Datum::NullArray) => {
            lemma_be_bytes_len(unsigned32(-1i32), 4);
            lemma_i32_roundtrip(s, pos, -1i32);
        },
        (FieldType::Array(inner), Datum::Array(items)) => {
            let count = spec_encode_i32(items.len() as i32);
            let body = spec_encode_items(*inner, items, items.len(), version)->Ok_0;
            lemma_be_bytes_len(unsigned32(items.len() as i32), 4);
            lemma_holds_at_split(s, pos, count, body);
            lemma_i32_roundtrip(s, pos, items.len() as i32);
            lemma_items_roundtrip(*inner, items, items.len(), version, s, pos + 4);
        },
        (FieldType::Struct(fields), Datum::Struct(items)) => {
            lemma_fields_roundtrip(fields@, items, fields@.len(), version, s, pos);
        },
        _ => {},
    }
}

/// Reading what was written for the first `n` items gives them as they are
/// after a trip over the wire.
pub proof fn lemma_items_roundtrip(
    ty: FieldType,
    items: Seq<Datum>,
    n: nat,
    version: i16,
    s: Seq<u8>,
    pos: int,
)
    requires
        n <= items.len(),
        spec_encode_items(ty, items, n, version) is Ok,
        holds_at(s, pos, spec_encode_items(ty, items, n, version)->Ok_0),
    ensures
        spec_decode_items(ty, s, pos, n, version) == Ok::<(Seq<Datum>, int), ProtocolError>(
            (
                normalize_items(ty, items, n, version),
                pos + spec_encode_items(ty, items, n, version)->Ok_0.len(),
            ),
        ),
    decreases ty, n,
{
    if n > 0 {
        let head = spec_encode_items(ty, items, (n - 1) as nat, version)->Ok_0;
        let last = spec_encode_value(ty, items[n - 1], version)->Ok_0;
        lemma_holds_at_split(s, pos, head, last);
        lemma_items_roundtrip(ty, items, (n - 1) as nat, version, s, pos);
        lemma_value_roundtrip(ty, items[n - 1], version, s, pos + head.len());
    }
}

/// Reading what was written for the first `n` fields of a struct gives them
/// as they are after a trip over the wire.
pub proof fn lemma_fields_roundtrip(
    fields: Seq<Field>,
    items: Seq<Datum>,
    n: nat,
    version: i16,
    s: Seq<u8>,
    pos: int,
)
    requires
        n <= fields.len(),
        spec_encode_fields(fields, items, n, version) is Ok,
        holds_at(s, pos, spec_encode_fields(fields, items, n, version)->Ok_0),
    ensures
        spec_decode_fields(fields, s, pos, n, version) == Ok::<(Seq<Datum>, int), ProtocolError>(
            (
                normalize_fields(fields, items, n, version),
                pos + spec_encode_fields(fields, items, n, version)->Ok_0.len(),
            ),
        ),
    decreases fields, n,
{
    if n > 0 {
        let head = spec_encode_fields(fields, items, (n - 1) as nat, version)->Ok_0;
        if applies(fields[n - 1], version) {
            let last = spec_encode_value(fields[n - 1].ty, items[n - 1], version)->Ok_0;
            lemma_holds_at_split(s, pos, head, last);
            lemma_fields_roundtrip(fields, items, (n - 1) as nat, version, s, pos);
            lemma_value_roundtrip(fields[n - 1].ty, items[n - 1], version, s, pos + head.len());
        } else {
            lemma_fields_roundtrip(fields, items, (n - 1) as nat, version, s, pos);
        }
    }
}

/// Decoding an encoded struct at the version it was encoded at gives the
/// struct back, whatever follows it in the input, provided that its fields
/// are populated as that version has them.
pub proof fn lemma_struct_roundtrip(
    fields: Seq<Field>,
    items: Seq<Datum>,
    version: i16,
    rest: Seq<u8>,
)
    requires
        spec_encode_struct(fields, items, version) is Ok,
        version_appropriate(fields, items, version),
    ensures
        spec_decode_struct(
            fields,
            spec_encode_struct(fields, items, version)->Ok_0 + rest,
            0,
            version,
        ) == Ok::<(Seq<Datum>, int), ProtocolError>(
            (items, spec_encode_struct(fields, items, version)->Ok_0.len() as int),
        ),
{
    let bytes = spec_encode_struct(fields, items, version)->Ok_0;
    assert((bytes + rest).subrange(0, bytes.len() as int) =~= bytes);
    lemma_fields_roundtrip(fields, items, fields.len(), version, bytes + rest, 0);
}

/// A field whose range leaves out the active version comes back as its
/// default after encoding and decoding, whatever it held before.
pub proof fn lemma_omitted_field_reads_default(
    fields: Seq<Field>,
    items: Seq<Datum>,
    version: i16,
    i: int,
)
    requires
        spec_encode_struct(fields, items, version) is Ok,
        0 <= i < fields.len(),
        !applies(fields[i], version),
    ensures
        spec_decode_struct(
            fields,
            spec_encode_struct(fields, items, version)->Ok_0,
            0,
            version,
        ) matches Ok((read, _)) && read.len() == fields.len() && read[i] == default_datum(
            fields[i].ty,
        ),
{
    let bytes = spec_encode_struct(fields, items, version)->Ok_0;
    assert(bytes.subrange(0, bytes.len() as int) =~= bytes);
    lemma_fields_roundtrip(fields, items, fields.len(), version, bytes, 0);
    lemma_normalize_fields_index(fields, items, fields.len(), version, i);
}

} // verus!
