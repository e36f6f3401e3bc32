//! Error taxonomy for the register engine.
//!
//! Errors are plain variants without payloads so that contracts can state
//! exactly which error a function returns on which input.  Callers that
//! need to report the offending register attach the subject themselves
//! (see `register_tool::GatherError`).

use vstd::prelude::*;

verus! {

/// Why a bit specification, register construction, configuration lookup,
/// or memory access was rejected.
#[derive(Clone, Copy, Debug, PartialEq, Eq, Structural)]
pub enum RegError {
    /// A bit range was not of the form "hi:lo".
    InvalidFormat,
    /// One side of a bit range did not parse as a decimal integer.
    InvalidDigit,
    /// A bit position was 32 or more.
    OutOfRange,
    /// A bit range had its high bit below its low bit.
    Inverted,
    /// A register node has no resolvable "offset" field.
    InvalidOffset,
    /// A "read-write" field held something other than ro, rw, wr, wo, w1c.
    InvalidAccessKind,
    /// A value was supplied for a read-only register.
    ReadOnlyViolation,
    /// A "shadow" field named a path with no resolvable "offset".
    InvalidShadowOffset,
    /// A write-only register without a shadow cannot be read.
    WriteOnlyUnreadable,
    /// A supplied value exceeded the permitted bound.
    ValueOutOfRange,
    /// A register spec token was malformed ("PATH=VALUE" with a bad value
    /// or more than one '=').
    BadArgument,
    /// A required tool-level configuration field was absent.
    ConfigFieldMissing,
    /// Field resolution failed: the field was absent along the whole
    /// parent chain, or was present with the wrong type.
    NotFound,
    /// A resolver root was requested that no node lies under.
    RootNotFound,
    /// A memory access used an offset that is not 4-byte aligned.
    Misaligned,
    /// A memory access fell outside the mapped or allocated range.
    AddressOutOfRange,
    /// Operations were applied before a memory target was bound.
    Unbound,
    /// A defensive check that callers cannot trigger through the
    /// documented interface.
    InternalInvariant,
    /// The device could not be opened or mapped (reported by the
    /// unverified mapping layer).
    MappingError,
}

/// The fixed descriptive text for each error variant.
pub open spec fn message_spec(e: RegError) -> Seq<char> {
    match e {
        RegError::InvalidFormat => "Invalid bit range format. Expected 'hi:lo'"@,
        RegError::InvalidDigit => "Invalid bit value"@,
        RegError::OutOfRange => "Bit positions must be less than 32"@,
        RegError::Inverted => "High bit must be greater than or equal to low bit"@,
        RegError::InvalidOffset => "Invalid offset for register"@,
        RegError::InvalidAccessKind => "Invalid read-write value: must be ro, rw, wo or w1c"@,
        RegError::ReadOnlyViolation => "Register is read only and cannot be set"@,
        RegError::InvalidShadowOffset => "Invalid shadow-offset for register"@,
        RegError::WriteOnlyUnreadable => "Register is write only and cannot be read"@,
        RegError::ValueOutOfRange => "Value is out of range for register"@,
        RegError::BadArgument => "Bad argument"@,
        RegError::ConfigFieldMissing => "Required configuration field not found"@,
        RegError::NotFound => "Field not found"@,
        RegError::RootNotFound => "No such subtree to rebase the resolver under"@,
        RegError::Misaligned => "Memory address must be 4-byte aligned"@,
        RegError::AddressOutOfRange => "Memory address is outside the target range"@,
        RegError::Unbound => "No memory target bound"@,
        RegError::InternalInvariant => "Internal invariant violated"@,
        RegError::MappingError => "Memory mapping failed"@,
    }
}

impl RegError {
    /// The descriptive text for this error.
    pub fn message(&self) -> (r: &'static str)
        ensures
            r@ == message_spec(*self),
    {
        match self {
            RegError::InvalidFormat => "Invalid bit range format. Expected 'hi:lo'",
            RegError::InvalidDigit => "Invalid bit value",
            RegError::OutOfRange => "Bit positions must be less than 32",
            RegError::Inverted => "High bit must be greater than or equal to low bit",
            RegError::InvalidOffset => "Invalid offset for register",
            RegError::InvalidAccessKind => "Invalid read-write value: must be ro, rw, wo or w1c",
            RegError::ReadOnlyViolation => "Register is read only and cannot be set",
            RegError::InvalidShadowOffset => "Invalid shadow-offset for register",
            RegError::WriteOnlyUnreadable => "Register is write only and cannot be read",
            RegError::ValueOutOfRange => "Value is out of range for register",
            RegError::BadArgument => "Bad argument",
            RegError::ConfigFieldMissing => "Required configuration field not found",
            RegError::NotFound => "Field not found",
            RegError::RootNotFound => "No such subtree to rebase the resolver under",
            RegError::Misaligned => "Memory address must be 4-byte aligned",
            RegError::AddressOutOfRange => "Memory address is outside the target range",
            RegError::Unbound => "No memory target bound",
            RegError::InternalInvariant => "Internal invariant violated",
            RegError::MappingError => "Memory mapping failed",
        }
    }
}

} // verus!
