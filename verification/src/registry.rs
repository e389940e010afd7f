//! API registry: which message families there are, in which versions, and
//! how their requests and responses are laid out.
//!
//! A registry is filled once, when the process starts, and only read
//! afterwards.

use vstd::prelude::*;
use crate::error::ProtocolError;
use crate::frame::{spec_unframe, unframe, Frame, Header};
use crate::negotiate::{negotiate, spec_negotiate};
use crate::schema::{
    datums, decode_struct, encode_struct, lemma_struct_roundtrip, spec_decode_struct,
    spec_encode_struct, version_appropriate, Datum, Field, Value,
};

verus! {

/// What a message family declares of itself: its key, the versions it
/// supports, and the layouts of its request and of the response that
/// belongs to it.
#[derive(Debug, PartialEq, Eq)]
pub struct ApiSpec {
    pub api_key: i16,
    pub min_version: i16,
    pub max_version: i16,
    pub default_version: i16,
    pub request: Vec<Field>,
    pub response: Vec<Field>,
}

/// What every request type declares: the key of its family, the versions it
/// is spoken in, and the type of the response that belongs to it. The pairing
/// is fixed with the type and cannot be changed while the program runs.
pub trait Request {
    const API_KEY: i16;

    const MIN_API_VERSION: i16;

    const MAX_API_VERSION: i16;

    const DEFAULT_API_VERSION: i16;

    type Response;
}

/// Why an entry was not taken into a registry.
#[derive(Clone, Copy, Debug, PartialEq, Eq, Structural)]
pub enum RegistrationError {
    /// The default version does not lie between the minimum and the maximum.
    InvalidVersions,
    /// The registry already holds an entry with that key.
    DuplicateApiKey,
}

impl ApiSpec {
    /// The default version lies between the minimum and the maximum.
    pub open spec fn valid(&self) -> bool {
        self.min_version <= self.default_version <= self.max_version
    }

    /// `version` is one of the versions that this family supports.
    pub open spec fn spec_supports(&self, version: i16) -> bool {
        self.min_version <= version <= self.max_version
    }

    /// Whether the default version lies between the minimum and the maximum.
    pub fn is_valid(&self) -> (b: bool)
        ensures
            b == self.valid(),
    {
        self.min_version <= self.default_version && self.default_version <= self.max_version
    }

    /// Whether `version` is one of the versions that this family supports.
    pub fn supports(&self, version: i16) -> (b: bool)
        ensures
            b == self.spec_supports(version),
    {
        self.min_version <= version && version <= self.max_version
    }

    /// The version to use with a server: the negotiated one where the server
    /// has advertised its range, and the family's default where negotiation
    /// is left out.
    pub fn choose_version(&self, server: Option<(i16, i16)>) -> (r: Result<i16, ProtocolError>)
        ensures
            r == match server {
                Some((server_min, server_max)) => spec_negotiate(
                    self.min_version,
                    self.max_version,
                    server_min,
                    server_max,
                ),
                None => Ok(self.default_version),
            },
    {
        match server {
            Some((server_min, server_max)) => self.negotiate_with(server_min, server_max),
            None => Ok(self.default_version),
        }
    }

    /// The version to use with a server that advertises
    /// `[server_min, server_max]` for this family.
    pub fn negotiate_with(&self, server_min: i16, server_max: i16) -> (r: Result<i16, ProtocolError>)
        ensures
            r == spec_negotiate(self.min_version, self.max_version, server_min, server_max),
    {
        negotiate(self.min_version, self.max_version, server_min, server_max)
    }

    /// The bytes of a request body at `version`.
    pub fn encode_request(&self, values: &Vec<Value>, version: i16) -> (r: Result<
        Vec<u8>,
        ProtocolError,
    >)
        ensures
            match r {
                Ok(bytes) => spec_encode_struct(self.request@, datums(values@), version) == Ok::<
                    Seq<u8>,
                    ProtocolError,
                >(bytes@),
                Err(e) => spec_encode_struct(self.request@, datums(values@), version) == Err::<
                    Seq<u8>,
                    ProtocolError,
                >(e),
            },
    {
        encode_body(&self.request, values, version)
    }

    /// The bytes of a response body at `version`.
    pub fn encode_response(&self, values: &Vec<Value>, version: i16) -> (r: Result<
        Vec<u8>,
        ProtocolError,
    >)
        ensures
            match r {
                Ok(bytes) => spec_encode_struct(self.response@, datums(values@), version) == Ok::<
                    Seq<u8>,
                    ProtocolError,
                >(bytes@),
                Err(e) => spec_encode_struct(self.response@, datums(values@), version) == Err::<
                    Seq<u8>,
                    ProtocolError,
                >(e),
            },
    {
        encode_body(&self.response, values, version)
    }

    /// The request that `bytes` hold at `version`. Bytes behind the request
    /// are left unread.
    pub fn decode_request(&self, bytes: &[u8], version: i16) -> (r: Result<
        Vec<Value>,
        ProtocolError,
    >)
        ensures
            decoded_body(r, spec_decode_struct(self.request@, bytes@, 0, version)),
    {
        decode_body(&self.request, bytes, version)
    }

    /// The response that `bytes` hold at `version`. Bytes behind the response
    /// are left unread.
    pub fn decode_response(&self, bytes: &[u8], version: i16) -> (r: Result<
        Vec<Value>,
        ProtocolError,
    >)
        ensures
            decoded_body(r, spec_decode_struct(self.response@, bytes@, 0, version)),
    {
        decode_body(&self.response, bytes, version)
    }
}

/// The executable result `r` holds the values of the modelled result `m`.
pub open spec fn decoded_body(
    r: Result<Vec<Value>, ProtocolError>,
    m: Result<(Seq<Datum>, int), ProtocolError>,
) -> bool {
    match r {
        Ok(values) => m matches Ok((read, _)) && read == datums(values@),
        Err(e) => m == Err::<(Seq<Datum>, int), ProtocolError>(e),
    }
}

/// The bytes of a message body with the layout `fields` at `version`.
pub fn encode_body(fields: &Vec<Field>, values: &Vec<Value>, version: i16) -> (r: Result<
    Vec<u8>,
    ProtocolError,
>)
    ensures
        match r {
            Ok(bytes) => spec_encode_struct(fields@, datums(values@), version) == Ok::<
                Seq<u8>,
                ProtocolError,
            >(bytes@),
            Err(e) => spec_encode_struct(fields@, datums(values@), version) == Err::<
                Seq<u8>,
                ProtocolError,
            >(e),
        },
{
    let mut out: Vec<u8> = Vec::new();
    match encode_struct(fields, values, version, &mut out) {
        Ok(_) => {
            proof {
                let bytes = spec_encode_struct(fields@, datums(values@), version)->Ok_0;
                assert(out@ =~= bytes);
            }
            Ok(out)
        },
        Err(e) => Err(e),
    }
}

/// The message body with the layout `fields` that `bytes` hold at `version`.
pub fn decode_body(fields: &Vec<Field>, bytes: &[u8], version: i16) -> (r: Result<
    Vec<Value>,
    ProtocolError,
>)
    ensures
        decoded_body(r, spec_decode_struct(fields@, bytes@, 0, version)),
{
    match decode_struct(fields, bytes, 0, version) {
        Ok((values, _)) => Ok(values),
        Err(e) => Err(e),
    }
}

/// The message families that a process knows.
#[derive(Debug)]
pub struct Registry {
    entries: Vec<ApiSpec>,
}

impl Registry {
    /// The entries, in the order in which they were registered.
    pub closed spec fn entries(&self) -> Seq<ApiSpec> {
        self.entries@
    }

    /// No two entries have one key, and every entry is valid.
    pub open spec fn wf(&self) -> bool {
        &&& forall|i: int, j: int|
            0 <= i < j < self.entries().len() ==> self.entries()[i].api_key
                != self.entries()[j].api_key
        &&& forall|i: int|
            0 <= i < self.entries().len() ==> (#[trigger] self.entries()[i]).valid()
    }

    /// The registry holds an entry for `api_key`.
    pub open spec fn contains(&self, api_key: i16) -> bool {
        exists|i: int| 0 <= i < self.entries().len() && (#[trigger] self.entries()[i]).api_key == api_key
    }

    /// The entry for `api_key`, where the registry holds one.
    pub open spec fn entry_for(&self, api_key: i16) -> Option<ApiSpec> {
        if self.contains(api_key) {
            Some(
                self.entries()[choose|i: int|
                    0 <= i < self.entries().len() && (#[trigger] self.entries()[i]).api_key
                        == api_key],
            )
        } else {
            None
        }
    }

    /// A registry without entries.
    pub fn new() -> (r: Registry)
        ensures
            r.wf(),
            r.entries() == Seq::<ApiSpec>::empty(),
    {
        Registry { entries: Vec::new() }
    }

    /// How many families are registered.
    pub fn len(&self) -> (n: usize)
        ensures
            n == self.entries().len(),
    {
        self.entries.len()
    }

    /// Takes `spec` into the registry. An entry whose default version lies
    /// outside its range, and one whose key is already taken, is refused,
    /// and the registry stays as it was.
    pub fn register(&mut self, spec: ApiSpec) -> (r: Result<(), RegistrationError>)
        requires
            old(self).wf(),
        ensures
            final(self).wf(),
            match r {
                Ok(_) => {
                    &&& spec.valid()
                    &&& !old(self).contains(spec.api_key)
                    &&& final(self).entries() == old(self).entries().push(spec)
                },
                Err(RegistrationError::InvalidVersions) => {
                    &&& !spec.valid()
                    &&& final(self).entries() == old(self).entries()
                },
                Err(RegistrationError::DuplicateApiKey) => {
                    &&& spec.valid()
                    &&& old(self).contains(spec.api_key)
                    &&& final(self).entries() == old(self).entries()
                },
            },
    {
        if !spec.is_valid() {
            return Err(RegistrationError::InvalidVersions);
        }
        if self.lookup(spec.api_key).is_some() {
            return Err(RegistrationError::DuplicateApiKey);
        }
        self.entries.push(spec);
        Ok(())
    }

    /// The entry for `api_key`, if there is one.
    pub fn lookup(&self, api_key: i16) -> (r: Option<&ApiSpec>)
        requires
            self.wf(),
        ensures
            match r {
                Some(entry) => {
                    &&& entry.api_key == api_key
                    &&& entry.valid()
                    &&& self.entry_for(api_key) == Some(*entry)
                },
                None => !self.contains(api_key),
            },
    {
        let mut i: usize = 0;
        while i < self.entries.len()
            invariant
                i <= self.entries.len(),
                self.wf(),
                forall|j: int| 0 <= j < i ==> (#[trigger] self.entries@[j]).api_key != api_key,
            decreases self.entries.len() - i,
        {
            if self.entries[i].api_key == api_key {
                proof {
                    assert(self.entries()[i as int].api_key == api_key);
                    let chosen = choose|j: int|
                        0 <= j < self.entries().len() && (#[trigger] self.entries()[j]).api_key
                            == api_key;
                    assert(chosen == i);
                }
                return Some(&self.entries[i]);
            }
            i += 1;
        }
        None
    }

    /// The entry that the header of a message names. `UnknownApiKey` if the
    /// registry holds no entry for the header's key.
    pub fn resolve(&self, header: &Header) -> (r: Result<&ApiSpec, ProtocolError>)
        requires
            self.wf(),
        ensures
            match r {
                Ok(entry) => {
                    &&& entry.api_key == header.api_key
                    &&& entry.valid()
                    &&& self.entry_for(header.api_key) == Some(*entry)
                },
                Err(e) => e == ProtocolError::UnknownApiKey && !self.contains(header.api_key),
            },
    {
        match self.lookup(header.api_key) {
            Some(entry) => Ok(entry),
            None => Err(ProtocolError::UnknownApiKey),
        }
    }

    /// Takes the first envelope of `bytes` apart and finds the entry for
    /// its key. Fails as `unframe` does, and with `UnknownApiKey` if the
    /// envelope is sound but the registry holds no entry for its key.
    pub fn receive(&self, bytes: &[u8]) -> (r: Result<(Frame, &ApiSpec), ProtocolError>)
        requires
            self.wf(),
        ensures
            match r {
                Ok((f, entry)) => {
                    &&& spec_unframe(bytes@) == Ok::<(Header, Seq<u8>), ProtocolError>(
                        (f.header, f.body@),
                    )
                    &&& entry.api_key == f.header.api_key
                    &&& entry.valid()
                    &&& self.entry_for(f.header.api_key) == Some(*entry)
                },
                Err(e) => match spec_unframe(bytes@) {
                    Ok((header, _)) => e == ProtocolError::UnknownApiKey && !self.contains(
                        header.api_key,
                    ),
                    Err(cause) => e == cause,
                },
            },
    {
        let f = match unframe(bytes) {
            Ok(f) => f,
            Err(e) => { return Err(e); },
        };
        match self.resolve(&f.header) {
            Ok(entry) => Ok((f, entry)),
            Err(e) => Err(e),
        }
    }
}


/// The registry of the families that this library brings: the SASL
/// handshake.
pub fn standard_registry() -> (r: Registry)
    ensures
        r.wf(),
        r.entries().len() == 1,
        r.entries()[0].api_key == crate::sasl_handshake::API_KEY,
        r.entries()[0].min_version == crate::sasl_handshake::MIN_API_VERSION,
        r.entries()[0].max_version == crate::sasl_handshake::MAX_API_VERSION,
        r.entries()[0].default_version == crate::sasl_handshake::DEFAULT_API_VERSION,
        r.entries()[0].request@ == crate::sasl_handshake::spec_request_fields(),
        r.entries()[0].response@ == crate::sasl_handshake::spec_response_fields(),
        r.contains(crate::sasl_handshake::API_KEY),
{
    let mut registry = Registry::new();
    let spec = crate::sasl_handshake::api_spec();
    let _ = registry.register(spec);
    proof {
        assert(registry.entries()[0].api_key == crate::sasl_handshake::API_KEY);
    }
    registry
}


/// For every family and every version that it supports: a request or a
/// response that is encoded at that version and decoded at the same version
/// comes back as it was, provided that its fields are populated as the
/// version has them.
pub proof fn lemma_family_roundtrip(
    family: ApiSpec,
    request: Seq<Datum>,
    response: Seq<Datum>,
    version: i16,
    rest: Seq<u8>,
)
    requires
        family.spec_supports(version),
        spec_encode_struct(family.request@, request, version) is Ok,
        version_appropriate(family.request@, request, version),
        spec_encode_struct(family.response@, response, version) is Ok,
        version_appropriate(family.response@, response, version),
    ensures
        spec_decode_struct(
            family.request@,
            spec_encode_struct(family.request@, request, version)->Ok_0 + rest,
            0,
            version,
        ) == Ok::<(Seq<Datum>, int), ProtocolError>(
            (request, spec_encode_struct(family.request@, request, version)->Ok_0.len() as int),
        ),
        spec_decode_struct(
            family.response@,
            spec_encode_struct(family.response@, response, version)->Ok_0 + rest,
            0,
            version,
        ) == Ok::<(Seq<Datum>, int), ProtocolError>(
            (response, spec_encode_struct(family.response@, response, version)->Ok_0.len() as int),
        ),
{
    lemma_struct_roundtrip(family.request@, request, version, rest);
    lemma_struct_roundtrip(family.response@, response, version, rest);
}

} // verus!
