//! Failure taxonomy shared by the codecs and the commitment proof
//! protocol. Every failure is reported to the immediate caller as a
//! typed value; nothing here recovers or retries.

use vstd::prelude::*;

verus! {

/// Names the enumeration a decoder was reading when it met an unknown
/// discriminant. `Error::EnumValueNotKnown` carries one of these so a
/// diagnostic can say which type rejected the offending byte.
#[derive(Clone, Copy, Debug, PartialEq, Eq, Structural)]
pub enum TypeName {
    TransitionAction,
    AssignmentAction,
    StandardProcedure,
    Procedure,
    ScriptEncodeData,
}

impl TypeName {
    /// Full diagnostic name of the enumeration, as callers print it.
    pub fn name(&self) -> (r: &'static str)
        ensures
            *self == TypeName::TransitionAction ==> r@ == "script::TransitionAction"@,
            *self == TypeName::AssignmentAction ==> r@ == "script::AssignmentAction"@,
            *self == TypeName::StandardProcedure ==> r@ == "script::StandardProcedure"@,
            *self == TypeName::Procedure ==> r@ == "script::Procedure"@,
            *self == TypeName::ScriptEncodeData ==> r@ == "dbc::ScriptEncodeData"@,
    {
        match self {
            TypeName::TransitionAction => "script::TransitionAction",
            TypeName::AssignmentAction => "script::AssignmentAction",
            TypeName::StandardProcedure => "script::StandardProcedure",
            TypeName::Procedure => "script::Procedure",
            TypeName::ScriptEncodeData => "dbc::ScriptEncodeData",
        }
    }
}

/// Typed failure returned by every fallible operation of this library.
#[derive(Clone, Copy, Debug, PartialEq, Eq, Structural)]
pub enum Error {
    /// The byte source ended before a fixed-width or declared-count
    /// read completed; the stream is too short, never zero-padded.
    DataIncomplete,
    /// A discriminant byte matched no variant of the named enumeration;
    /// fatal to the decode attempt, never defaulted.
    EnumValueNotKnown(TypeName, u8),
    /// A map decode produced two equal keys; a data-corruption signal.
    DuplicateKey,
    /// A declared count or length exceeds the configured safety cap.
    ValueOutOfRange,
    /// A proof's claimed shape does not match what the host contains.
    InvalidProofStructure,
    /// The key embedded in a proof does not match the host's anchor.
    CommitmentMismatch,
    /// Opaque failure propagated from a byte sink or source at the
    /// caller's I/O boundary; the in-memory codecs never produce it.
    Io,
}

} // verus!
