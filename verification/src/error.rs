//! The errors of the protocol core.

use vstd::prelude::*;

verus! {

/// Everything that can go wrong while turning bytes into messages or
/// agreeing on a version with a peer.
#[derive(Clone, Copy, Debug, PartialEq, Eq, Structural)]
pub enum ProtocolError {
    /// Fewer bytes remain than a fixed-width value or a declared length needs.
    BufferUnderflow,
    /// The input ends before the frame that its length prefix announces.
    Truncated,
    /// A length prefix is negative where no null sentinel applies, or a
    /// value is too long for its length prefix.
    InvalidLength,
    /// The bytes of a string field are not well-formed UTF-8.
    InvalidUtf8,
    /// The header names an API key that the registry does not hold.
    UnknownApiKey,
    /// The two version ranges have no version in common.
    NoCommonVersion,
    /// A value handed to an encoder does not have the shape that its schema
    /// asks for.
    SchemaMismatch,
}

} // verus!
