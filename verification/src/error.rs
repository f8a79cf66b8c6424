//! The error taxonomy of the lock engine. Every variant carries the data a
//! caller needs to report the failure; none of them is ever swallowed by the
//! verified code.

use vstd::prelude::*;

use crate::aws_profile::{NameV, ProfileName};
use crate::line_lexer::{EntryLine, LineV};

verus! {

/// The stage of the entry parser at which an error arose.
#[derive(Clone, Copy, Debug, PartialEq, Eq, Structural)]
pub enum ParsePhase {
    /// Scanning for an optional production marker.
    ProductionFlag,
    /// Deciding whether the entry is locked.
    LockFlag,
    /// Consuming the header line.
    Header,
    /// Consuming key/value lines.
    Values,
}

/// An error of the lock engine.
#[derive(Debug, Clone)]
pub enum AwsError {
    /// A non-blank line matches none of the recognized line shapes.
    MalformedLine(String),
    /// The token stream ended in the middle of an entry.
    UnexpectedEndOfInput(ParsePhase),
    /// A token appeared out of the order the entry grammar allows.
    StructuralError(ParsePhase, EntryLine),
    /// A config-file header is neither `default` nor `profile <name>`.
    InvalidHeader(String),
    /// A profile has a config-file entry but no credentials-file entry.
    MissingCredentials(ProfileName),
    /// A credentials-file entry lacks a required key; the key and the
    /// profile are named.
    MissingRequiredField(String, ProfileName),
    /// Target profile names that are present in no entry.
    UnknownProfiles(Vec<ProfileName>),
    /// The interactive confirmation for production profiles was declined.
    UserCancelled,
}

/// The mathematical image of an `AwsError`.
#[verifier::ext_equal]
pub enum ErrV {
    MalformedLine(Seq<char>),
    UnexpectedEndOfInput(ParsePhase),
    StructuralError(ParsePhase, LineV),
    InvalidHeader(Seq<char>),
    MissingCredentials(NameV),
    MissingRequiredField(Seq<char>, NameV),
    UnknownProfiles(Seq<NameV>),
    UserCancelled,
}

impl DeepView for AwsError {
    type V = ErrV;

    open spec fn deep_view(&self) -> ErrV {
        match self {
            AwsError::MalformedLine(l) => ErrV::MalformedLine(l@),
            AwsError::UnexpectedEndOfInput(p) => ErrV::UnexpectedEndOfInput(*p),
            AwsError::StructuralError(p, t) => ErrV::StructuralError(*p, t.deep_view()),
            AwsError::InvalidHeader(h) => ErrV::InvalidHeader(h@),
            AwsError::MissingCredentials(n) => ErrV::MissingCredentials(n.deep_view()),
            AwsError::MissingRequiredField(k, n) => ErrV::MissingRequiredField(
                k@,
                n.deep_view(),
            ),
            AwsError::UnknownProfiles(ns) => ErrV::UnknownProfiles(ns.deep_view()),
            AwsError::UserCancelled => ErrV::UserCancelled,
        }
    }
}

} // verus!
