//! The failure categories that context processing reports.

use vstd::prelude::*;

verus! {

/// A typed, fail-fast processing error. The first failing entry aborts the
/// whole merge call; no partial context is returned, and the caller keeps the
/// local context value it passed, so the offending value stays in its hands.
/// Diagnostic rendering of that value is left to the embedding application.
#[derive(Clone, Copy, Debug, PartialEq, Eq, Structural)]
pub enum ErrorCode {
    /// An `@reverse` entry co-occurs with `@id`/`@nest`, or declares an
    /// unsupported container.
    InvalidReverseProperty,
    /// An `@reverse` value is not a string, expands to no value, or expands to
    /// neither an absolute identifier nor a blank-node identifier.
    InvalidIriMapping,
    /// An `@container` value does not parse into a recognized container shape.
    InvalidContainerMapping,
    /// A local-context entry is not null, a string, or an object.
    InvalidLocalContext,
    /// A `null` entry attempts to reset a context holding protected terms
    /// without the override flag.
    InvalidContextNullification,
    /// The count of remote contexts entered on one recursion path exceeds the
    /// configured limit.
    ContextOverflow,
    /// The external loader could not retrieve a remote context.
    LoadingRemoteContextFailed,
    /// A fetched document lacks an extractable `@context` member.
    InvalidRemoteContext,
    /// Malformed reference or base in identifier resolution.
    Uncategorized,
}

} // verus!
