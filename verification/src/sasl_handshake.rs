//! The SASL handshake: the client names the mechanism it wants, the server
//! answers with an error code and the mechanisms it has enabled.
//!
//! Both messages are plain data. On the wire they are laid out by the schemas
//! given here and written and read by the versioned struct codec.

use vstd::prelude::*;
use crate::codec::{spec_decode_i32, string_fits};
use crate::error::ProtocolError;
use crate::registry::{decode_body, encode_body, ApiSpec, Request};
use crate::schema::{
    applies, datums, lemma_struct_roundtrip, lemma_view_items, normalize_fields, normalize_items,
    normalize_value, spec_decode_fields, spec_decode_items, spec_decode_struct,
    spec_encode_fields, spec_encode_items, spec_encode_struct, Datum, Field, FieldType, Value,
    MAX_ARRAY_LEN,
};
use crate::text::texts_of;

verus! {

/// The key of the SASL handshake family.
pub const API_KEY: i16 = 17;

/// The first version of the SASL handshake that this library speaks.
pub const MIN_API_VERSION: i16 = 0;

/// The last version of the SASL handshake that this library speaks.
pub const MAX_API_VERSION: i16 = 1;

/// The version that a client uses when it has not negotiated one.
pub const DEFAULT_API_VERSION: i16 = 1;

/// The error code of a response: zero for success, anything else a failure
/// that the caller makes sense of. A code that this library has no name for
/// is kept as it came.
#[derive(Clone, Copy, Debug, PartialEq, Eq, Structural)]
pub enum ErrorCode {
    /// No error: the code `0`.
    Success,
    /// Any other code.
    Unknown(i16),
}

impl ErrorCode {
    /// `Unknown` never holds the code of `Success`.
    pub open spec fn wf(&self) -> bool {
        match self {
            ErrorCode::Success => true,
            ErrorCode::Unknown(raw) => *raw != 0,
        }
    }

    /// The number that stands for the code on the wire.
    pub open spec fn spec_code(&self) -> i16 {
        match self {
            ErrorCode::Success => 0i16,
            ErrorCode::Unknown(raw) => *raw,
        }
    }

    /// The code that `raw` stands for.
    pub open spec fn spec_from_code(raw: i16) -> ErrorCode {
        if raw == 0 {
            ErrorCode::Success
        } else {
            ErrorCode::Unknown(raw)
        }
    }

    /// The number that stands for the code on the wire.
    pub fn code(&self) -> (raw: i16)
        ensures
            raw == self.spec_code(),
    {
        match self {
            ErrorCode::Success => 0,
            ErrorCode::Unknown(raw) => *raw,
        }
    }

    /// The code that `raw` stands for.
    pub fn from_code(raw: i16) -> (r: ErrorCode)
        ensures
            r == Self::spec_from_code(raw),
            r.wf(),
    {
        if raw == 0 {
            ErrorCode::Success
        } else {
            ErrorCode::Unknown(raw)
        }
    }

    /// Whether the code says that there was no error.
    pub fn is_success(&self) -> (b: bool)
        ensures
            b == (self.spec_code() == 0),
    {
        self.code() == 0
    }
}

/// A code survives the trip to its number and back.
pub proof fn lemma_error_code_roundtrip(code: ErrorCode)
    requires
        code.wf(),
    ensures
        ErrorCode::spec_from_code(code.spec_code()) == code,
{
}

/// The request of the handshake.
#[derive(Debug, PartialEq, Eq)]
pub struct KfSaslHandshakeRequest {
    /// The SASL mechanism chosen by the client.
    pub mechanism: String,
}

/// The response of the handshake.
#[derive(Debug, PartialEq, Eq)]
pub struct KfSaslHandshakeResponse {
    /// The error code, or 0 if there was no error.
    pub error_code: ErrorCode,
    /// The mechanisms enabled in the server.
    pub mechanisms: Vec<String>,
}

/// A field that is on the wire from version 0 on.
pub open spec fn always(ty: FieldType) -> Field {
    Field { ty, min_version: 0, max_version: 0x7fff }
}

/// The layout of the request: the mechanism.
pub open spec fn spec_request_fields() -> Seq<Field> {
    seq![always(FieldType::String)]
}

/// The layout of the response: the error code, then the mechanisms.
pub open spec fn spec_response_fields() -> Seq<Field> {
    seq![always(FieldType::Int16), always(FieldType::Array(Box::new(FieldType::String)))]
}

/// What a request that names `mechanism` holds, field by field.
pub open spec fn request_datums(mechanism: Seq<char>) -> Seq<Datum> {
    seq![Datum::String(mechanism)]
}

/// Each of `texts` as the value of a string field.
pub open spec fn string_datums(texts: Seq<Seq<char>>) -> Seq<Datum> {
    Seq::new(texts.len(), |i: int| Datum::String(texts[i]))
}

/// What a response with `code` and `mechanisms` holds, field by field.
pub open spec fn response_datums(code: i16, mechanisms: Seq<Seq<char>>) -> Seq<Datum> {
    seq![Datum::Int16(code), Datum::Array(string_datums(mechanisms))]
}

/// The layout of the request.
pub fn request_fields() -> (r: Vec<Field>)
    ensures
        r@ == spec_request_fields(),
{
    let mut fields: Vec<Field> = Vec::new();
    fields.push(Field { ty: FieldType::String, min_version: 0, max_version: 0x7fff });
    proof {
        assert(fields@ =~= spec_request_fields());
    }
    fields
}

/// The layout of the response.
pub fn response_fields() -> (r: Vec<Field>)
    ensures
        r@ == spec_response_fields(),
{
    let mut fields: Vec<Field> = Vec::new();
    fields.push(Field { ty: FieldType::Int16, min_version: 0, max_version: 0x7fff });
    fields.push(
        Field {
            ty: FieldType::Array(Box::new(FieldType::String)),
            min_version: 0,
            max_version: 0x7fff,
        },
    );
    proof {
        assert(fields@ =~= spec_response_fields());
    }
    fields
}

/// What the handshake family declares of itself.
pub fn api_spec() -> (r: ApiSpec)
    ensures
        r.valid(),
        r.api_key == API_KEY,
        r.min_version == MIN_API_VERSION,
        r.max_version == MAX_API_VERSION,
        r.default_version == DEFAULT_API_VERSION,
        r.request@ == spec_request_fields(),
        r.response@ == spec_response_fields(),
{
    ApiSpec {
        api_key: API_KEY,
        min_version: MIN_API_VERSION,
        max_version: MAX_API_VERSION,
        default_version: DEFAULT_API_VERSION,
        request: request_fields(),
        response: response_fields(),
    }
}

impl KfSaslHandshakeRequest {
    /// What the request holds, field by field.
    pub open spec fn datums(&self) -> Seq<Datum> {
        request_datums(self.mechanism@)
    }

    /// The request as values of its fields.
    pub fn to_values(&self) -> (r: Vec<Value>)
        ensures
            datums(r@) == self.datums(),
    {
        let mut values: Vec<Value> = Vec::new();
        values.push(Value::String(self.mechanism.clone()));
        proof {
            assert(datums(values@) =~= self.datums());
        }
        values
    }

    /// The request that `values` are the fields of, if they are the fields
    /// of one.
    pub fn from_values(values: &Vec<Value>) -> (r: Option<KfSaslHandshakeRequest>)
        ensures
            match r {
                Some(request) => datums(values@) == request.datums(),
                None => !(datums(values@).len() == 1 && datums(values@)[0] is String),
            },
    {
        if values.len() != 1 {
            return None;
        }
        match &values[0] {
            Value::String(text) => {
                let request = KfSaslHandshakeRequest { mechanism: text.clone() };
                proof {
                    assert(datums(values@) =~= request.datums());
                }
                Some(request)
            },
            _ => None,
        }
    }

    /// The bytes of the request body at `version`. Fails with
    /// `InvalidLength` if the mechanism's name is too long for a string
    /// field.
    pub fn encode(&self, version: i16) -> (r: Result<Vec<u8>, ProtocolError>)
        ensures
            match r {
                Ok(bytes) => spec_encode_struct(spec_request_fields(), self.datums(), version)
                    == Ok::<Seq<u8>, ProtocolError>(bytes@),
                Err(e) => spec_encode_struct(spec_request_fields(), self.datums(), version)
                    == Err::<Seq<u8>, ProtocolError>(e),
            },
    {
        let fields = request_fields();
        let values = self.to_values();
        encode_body(&fields, &values, version)
    }

    /// The request that `bytes` hold at `version`.
    pub fn decode(bytes: &[u8], version: i16) -> (r: Result<KfSaslHandshakeRequest, ProtocolError>)
        ensures
            match r {
                Ok(request) => spec_decode_struct(spec_request_fields(), bytes@, 0, version)
                    matches Ok((read, _)) && read == request.datums(),
                Err(e) => spec_decode_struct(spec_request_fields(), bytes@, 0, version) == Err::<
                    (Seq<Datum>, int),
                    ProtocolError,
                >(e),
            },
    {
        let fields = request_fields();
        let values = match decode_body(&fields, bytes, version) {
            Ok(values) => values,
            Err(e) => { return Err(e); },
        };
        proof {
            lemma_request_shape(bytes@, version);
        }
        match Self::from_values(&values) {
            Some(request) => Ok(request),
            None => Err(ProtocolError::SchemaMismatch),
        }
    }
}

impl Request for KfSaslHandshakeRequest {
    const API_KEY: i16 = API_KEY;

    const MIN_API_VERSION: i16 = MIN_API_VERSION;

    const MAX_API_VERSION: i16 = MAX_API_VERSION;

    const DEFAULT_API_VERSION: i16 = DEFAULT_API_VERSION;

    type Response = KfSaslHandshakeResponse;
}

/// What is read with the layout of the request has the shape of a request.
pub proof fn lemma_request_shape(s: Seq<u8>, version: i16)
    ensures
        spec_decode_struct(spec_request_fields(), s, 0, version) matches Ok((read, _)) ==> read.len()
            == 1 && read[0] is String,
{
    reveal_with_fuel(spec_decode_fields, 2);
}


/// `d` holds an error code and either no sequence or a sequence of strings.
pub open spec fn response_shaped(d: Seq<Datum>) -> bool {
    &&& d.len() == 2
    &&& d[0] is Int16
    &&& d[1] is NullArray || (d[1] matches Datum::Array(items) && forall|i: int|
        0 <= i < items.len() ==> (#[trigger] items[i]) is String)
}

/// The strings that a sequence of string values holds; none for the null
/// sequence.
pub open spec fn texts_in(d: Datum) -> Seq<Seq<char>> {
    match d {
        Datum::Array(items) => Seq::new(items.len(), |i: int| items[i]->String_0),
        _ => Seq::empty(),
    }
}

impl KfSaslHandshakeResponse {
    /// The error code is well-formed.
    pub open spec fn wf(&self) -> bool {
        self.error_code.wf()
    }

    /// What the response holds, field by field.
    pub open spec fn datums(&self) -> Seq<Datum> {
        response_datums(self.error_code.spec_code(), texts_of(self.mechanisms@))
    }

    /// The response as values of its fields.
    pub fn to_values(&self) -> (r: Vec<Value>)
        ensures
            datums(r@) == self.datums(),
    {
        let mut items: Vec<Value> = Vec::new();
        let mut i: usize = 0;
        while i < self.mechanisms.len()
            invariant
                i <= self.mechanisms.len(),
                items@.len() == i,
                forall|j: int| 0 <= j < i ==> (#[trigger] items@[j])@ == Datum::String(
                    self.mechanisms@[j]@,
                ),
            decreases self.mechanisms.len() - i,
        {
            items.push(Value::String(self.mechanisms[i].clone()));
            i += 1;
        }
        proof {
            lemma_view_items(items);
            assert(datums(items@) =~= string_datums(texts_of(self.mechanisms@)));
        }
        let mut values: Vec<Value> = Vec::new();
        values.push(Value::Int16(self.error_code.code()));
        values.push(Value::Array(items));
        proof {
            assert(datums(values@) =~= self.datums());
        }
        values
    }

    /// The response that `values` are the fields of, if they are the fields
    /// of one. The null sequence is read as no mechanisms.
    pub fn from_values(values: &Vec<Value>) -> (r: Option<KfSaslHandshakeResponse>)
        ensures
            match r {
                Some(response) => {
                    &&& response_shaped(datums(values@))
                    &&& response.wf()
                    &&& response.error_code == ErrorCode::spec_from_code(
                        datums(values@)[0]->Int16_0,
                    )
                    &&& texts_of(response.mechanisms@) == texts_in(datums(values@)[1])
                },
                None => !response_shaped(datums(values@)),
            },
    {
        if values.len() != 2 {
            return None;
        }
        let error_code = match &values[0] {
            Value::Int16(raw) => ErrorCode::from_code(*raw),
            _ => { return None; },
        };
        let mut mechanisms: Vec<String> = Vec::new();
        match &values[1] {
            Value::NullArray => {
                proof {
                    assert(texts_of(mechanisms@) =~= texts_in(datums(values@)[1]));
                }
            },
            Value::Array(items) => {
                proof {
                    lemma_view_items(*items);
                }
                let mut i: usize = 0;
                while i < items.len()
                    invariant
                        i <= items.len(),
                        mechanisms@.len() == i,
                        values@.len() == 2,
                        values@[1] == Value::Array(*items),
                        forall|j: int| 0 <= j < i ==> (#[trigger] items@[j])@ is String,
                        forall|j: int|
                            0 <= j < i ==> (#[trigger] mechanisms@[j])@
                                == items@[j]@->String_0,
                    decreases items.len() - i,
                {
                    match &items[i] {
                        Value::String(text) => {
                            mechanisms.push(text.clone());
                        },
                        _ => {
                            proof {
                                lemma_view_items(*items);
                                assert(!(datums(items@)[i as int] is String));
                            }
                            return None;
                        },
                    }
                    i += 1;
                }
                proof {
                    assert(texts_of(mechanisms@) =~= texts_in(datums(values@)[1]));
                }
            },
            _ => { return None; },
        }
        Some(KfSaslHandshakeResponse { error_code, mechanisms })
    }

    /// The bytes of the response body at `version`. Fails with
    /// `InvalidLength` if a mechanism's name is too long for a string field
    /// or there are more mechanisms than a count can tell.
    pub fn encode(&self, version: i16) -> (r: Result<Vec<u8>, ProtocolError>)
        ensures
            match r {
                Ok(bytes) => spec_encode_struct(spec_response_fields(), self.datums(), version)
                    == Ok::<Seq<u8>, ProtocolError>(bytes@),
                Err(e) => spec_encode_struct(spec_response_fields(), self.datums(), version)
                    == Err::<Seq<u8>, ProtocolError>(e),
            },
    {
        let fields = response_fields();
        let values = self.to_values();
        encode_body(&fields, &values, version)
    }

    /// The response that `bytes` hold at `version`.
    pub fn decode(bytes: &[u8], version: i16) -> (r: Result<
        KfSaslHandshakeResponse,
        ProtocolError,
    >)
        ensures
            match r {
                Ok(response) => {
                    &&& response.wf()
                    &&& spec_decode_struct(spec_response_fields(), bytes@, 0, version) matches Ok(
                        (read, _),
                    ) && response_shaped(read) && response.error_code
                        == ErrorCode::spec_from_code(read[0]->Int16_0) && texts_of(
                        response.mechanisms@,
                    ) == texts_in(read[1])
                },
                Err(e) => spec_decode_struct(spec_response_fields(), bytes@, 0, version) == Err::<
                    (Seq<Datum>, int),
                    ProtocolError,
                >(e),
            },
    {
        let fields = response_fields();
        let values = match decode_body(&fields, bytes, version) {
            Ok(values) => values,
            Err(e) => { return Err(e); },
        };
        proof {
            lemma_response_shape(bytes@, version);
        }
        match Self::from_values(&values) {
            Some(response) => Ok(response),
            None => Err(ProtocolError::SchemaMismatch),
        }
    }
}

/// Items read as strings are strings.
pub proof fn lemma_string_items_shape(s: Seq<u8>, pos: int, n: nat, version: i16)
    ensures
        spec_decode_items(FieldType::String, s, pos, n, version) matches Ok((items, _))
            ==> items.len() == n && forall|i: int|
            0 <= i < items.len() ==> (#[trigger] items[i]) is String,
    decreases n,
{
    reveal_with_fuel(spec_decode_items, 2);
    if n > 0 {
        lemma_string_items_shape(s, pos, (n - 1) as nat, version);
    }
}

/// What is read with the layout of the response has the shape of a response.
pub proof fn lemma_response_shape(s: Seq<u8>, version: i16)
    ensures
        spec_decode_struct(spec_response_fields(), s, 0, version) matches Ok((read, _))
            ==> response_shaped(read),
{
    reveal_with_fuel(spec_decode_fields, 3);
    let fields = spec_response_fields();
    if applies(fields[1], version) {
        let first = spec_decode_fields(fields, s, 0, 1, version);
        if first is Ok {
            let count = spec_decode_i32(s, first->Ok_0.1);
            if count is Ok && count->Ok_0.0 >= 0 {
                lemma_string_items_shape(s, count->Ok_0.1, count->Ok_0.0 as nat, version);
            }
        }
    }
}


/// Each of `texts` is short enough for a string field.
pub open spec fn all_fit(texts: Seq<Seq<char>>) -> bool {
    forall|i: int| 0 <= i < texts.len() ==> string_fits(#[trigger] texts[i])
}

/// Strings that fit are written without error, and a trip over the wire
/// leaves them as they are.
pub proof fn lemma_string_items(texts: Seq<Seq<char>>, n: nat, version: i16)
    requires
        all_fit(texts),
        n <= texts.len(),
    ensures
        spec_encode_items(FieldType::String, string_datums(texts), n, version) is Ok,
        normalize_items(FieldType::String, string_datums(texts), n, version) == string_datums(
            texts,
        ).take(n as int),
    decreases n,
{
    reveal_with_fuel(spec_encode_items, 2);
    reveal_with_fuel(normalize_items, 2);
    let items = string_datums(texts);
    if n > 0 {
        lemma_string_items(texts, (n - 1) as nat, version);
        assert(string_fits(texts[n - 1]));
        assert(items.take(n - 1).push(items[n - 1]) =~= items.take(n as int));
    } else {
        assert(items.take(0) =~= Seq::<Datum>::empty());
    }
}

/// A request that is encoded at a supported version and decoded at the same
/// version comes back as it was, whatever follows it in the input.
pub proof fn lemma_request_roundtrip(mechanism: Seq<char>, version: i16, rest: Seq<u8>)
    requires
        string_fits(mechanism),
        MIN_API_VERSION <= version <= MAX_API_VERSION,
    ensures
        spec_encode_struct(spec_request_fields(), request_datums(mechanism), version) matches Ok(
            bytes,
        ) && spec_decode_struct(spec_request_fields(), bytes + rest, 0, version) == Ok::<
            (Seq<Datum>, int),
            ProtocolError,
        >((request_datums(mechanism), bytes.len() as int)),
{
    reveal_with_fuel(spec_encode_fields, 2);
    reveal_with_fuel(normalize_fields, 2);
    let fields = spec_request_fields();
    let items = request_datums(mechanism);
    assert(applies(fields[0], version));
    assert(normalize_fields(fields, items, 1, version) =~= items);
    lemma_struct_roundtrip(fields, items, version, rest);
}

/// A response that is encoded at a supported version and decoded at the
/// same version comes back as it was, whatever follows it in the input.
pub proof fn lemma_response_roundtrip(
    code: i16,
    mechanisms: Seq<Seq<char>>,
    version: i16,
    rest: Seq<u8>,
)
    requires
        all_fit(mechanisms),
        mechanisms.len() <= MAX_ARRAY_LEN,
        MIN_API_VERSION <= version <= MAX_API_VERSION,
    ensures
        spec_encode_struct(spec_response_fields(), response_datums(code, mechanisms), version)
            matches Ok(bytes) && spec_decode_struct(
            spec_response_fields(),
            bytes + rest,
            0,
            version,
        ) == Ok::<(Seq<Datum>, int), ProtocolError>(
            (response_datums(code, mechanisms), bytes.len() as int),
        ),
{
    reveal_with_fuel(spec_encode_fields, 3);
    reveal_with_fuel(normalize_fields, 3);
    let fields = spec_response_fields();
    let items = response_datums(code, mechanisms);
    let texts = string_datums(mechanisms);
    lemma_string_items(mechanisms, mechanisms.len(), version);
    assert(texts.take(texts.len() as int) =~= texts);
    assert(applies(fields[0], version));
    assert(applies(fields[1], version));
    assert(normalize_value(fields[1].ty, items[1], version) == items[1]);
    assert(normalize_fields(fields, items, 2, version) =~= items);
    lemma_struct_roundtrip(fields, items, version, rest);
}

} // verus!
