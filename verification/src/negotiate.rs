//! Version negotiation: from the ranges that client and server support to
//! the one version that both will use.

use vstd::prelude::*;
use crate::error::ProtocolError;

verus! {

/// `v` lies in the closed range `[min, max]`.
pub open spec fn in_range(v: int, min: int, max: int) -> bool {
    min <= v <= max
}

/// `v` is supported by both the client and the server.
pub open spec fn mutually_supported(
    v: int,
    client_min: int,
    client_max: int,
    server_min: int,
    server_max: int,
) -> bool {
    in_range(v, client_min, client_max) && in_range(v, server_min, server_max)
}

/// The smaller of the two upper bounds: the only candidate for the
/// negotiated version.
pub open spec fn candidate_version(client_max: int, server_max: int) -> int {
    if client_max <= server_max {
        client_max
    } else {
        server_max
    }
}

/// The larger of the two lower bounds.
pub open spec fn version_floor(client_min: int, server_min: int) -> int {
    if client_min >= server_min {
        client_min
    } else {
        server_min
    }
}

/// The outcome of version negotiation as a mathematical function.
pub open spec fn spec_negotiate(
    client_min: i16,
    client_max: i16,
    server_min: i16,
    server_max: i16,
) -> Result<i16, ProtocolError> {
    let chosen = candidate_version(client_max as int, server_max as int);
    if chosen >= version_floor(client_min as int, server_min as int) {
        Ok(chosen as i16)
    } else {
        Err(ProtocolError::NoCommonVersion)
    }
}

/// Picks the version that a client supporting `[client_min, client_max]` and
/// a server advertising `[server_min, server_max]` will both use: the highest
/// version that both support.
pub fn negotiate(client_min: i16, client_max: i16, server_min: i16, server_max: i16) -> (r: Result<
    i16,
    ProtocolError,
>)
    ensures
        r == spec_negotiate(client_min, client_max, server_min, server_max),
{
    let chosen: i16 = if client_max <= server_max {
        client_max
    } else {
        server_max
    };
    let floor: i16 = if client_min >= server_min {
        client_min
    } else {
        server_min
    };
    if chosen >= floor {
        Ok(chosen)
    } else {
        Err(ProtocolError::NoCommonVersion)
    }
}

/// Negotiation succeeds exactly when some version is supported by both
/// sides, and then yields the greatest such version; it fails with
/// `NoCommonVersion` exactly when the two ranges do not meet.
pub proof fn lemma_negotiate_greatest_common(
    client_min: i16,
    client_max: i16,
    server_min: i16,
    server_max: i16,
)
    ensures
        match spec_negotiate(client_min, client_max, server_min, server_max) {
            Ok(v) => {
                &&& mutually_supported(
                    v as int,
                    client_min as int,
                    client_max as int,
                    server_min as int,
                    server_max as int,
                )
                &&& forall|w: int|
                    mutually_supported(
                        w,
                        client_min as int,
                        client_max as int,
                        server_min as int,
                        server_max as int,
                    ) ==> w <= v
            },
            Err(e) => {
                &&& e == ProtocolError::NoCommonVersion
                &&& forall|w: int|
                    !mutually_supported(
                        w,
                        client_min as int,
                        client_max as int,
                        server_min as int,
                        server_max as int,
                    )
            },
        },
{
}

} // verus!
