//! The decode error taxonomy. Every decode failure is surfaced immediately
//! and carries enough data to reconstruct what was expected and what
//! arrived; no partial instance is ever exposed.
use crate::text::push_str;
use vstd::prelude::*;

verus! {

/// Why a decode refused its wire value.
#[derive(Debug, PartialEq)]
pub enum DecodeError {
    /// The wire value's shape cannot hold the declared type at all.
    ShapeMismatch { expected: String, actual: String },
    /// A positional array's length differs from the declared field count.
    ArityMismatch { expected: usize, actual: usize },
    /// A required field is absent and its type cannot default from null.
    MissingField { field: String },
    /// A named field's nested decode failed; wraps the cause with the
    /// field's wire name.
    FieldFailure { field: String, cause: Box<DecodeError> },
    /// A positional element's nested decode failed; wraps the cause with
    /// its index.
    ElementFailure { index: usize, cause: Box<DecodeError> },
    /// A binary payload was not valid UTF-8 where text was required.
    EncodingError,
    /// An enumeration payload matched no declared variant; carries the
    /// offered token and the full order-preserving list of valid tokens.
    UnknownVariant { token: String, allowed: String },
    /// A leaf value's wire shape can never hold the declared leaf type.
    TypeMismatch { expected: String, actual: String },
}

/// The mathematical shadow of a decode error.
pub ghost enum ErrModel {
    ShapeMismatch { expected: Seq<char>, actual: Seq<char> },
    ArityMismatch { expected: int, actual: int },
    MissingField { field: Seq<char> },
    FieldFailure { field: Seq<char>, cause: Box<ErrModel> },
    ElementFailure { index: int, cause: Box<ErrModel> },
    EncodingError,
    UnknownVariant { token: Seq<char>, allowed: Seq<char> },
    TypeMismatch { expected: Seq<char>, actual: Seq<char> },
}

/// The model of a decode error.
pub open spec fn err_model(e: &DecodeError) -> ErrModel
    decreases e,
{
    match e {
        DecodeError::ShapeMismatch { expected, actual } => ErrModel::ShapeMismatch {
            expected: expected@,
            actual: actual@,
        },
        DecodeError::ArityMismatch { expected, actual } => ErrModel::ArityMismatch {
            expected: *expected as int,
            actual: *actual as int,
        },
        DecodeError::MissingField { field } => ErrModel::MissingField { field: field@ },
        DecodeError::FieldFailure { field, cause } => ErrModel::FieldFailure {
            field: field@,
            cause: Box::new(err_model(&**cause)),
        },
        DecodeError::ElementFailure { index, cause } => ErrModel::ElementFailure {
            index: *index as int,
            cause: Box::new(err_model(&**cause)),
        },
        DecodeError::EncodingError => ErrModel::EncodingError,
        DecodeError::UnknownVariant { token, allowed } => ErrModel::UnknownVariant {
            token: token@,
            allowed: allowed@,
        },
        DecodeError::TypeMismatch { expected, actual } => ErrModel::TypeMismatch {
            expected: expected@,
            actual: actual@,
        },
    }
}

/// The human-readable message of an error.
pub open spec fn spec_describe(e: ErrModel) -> Seq<char>
    decreases e,
{
    match e {
        ErrModel::ShapeMismatch { expected, actual } => "shape mismatch: expected "@ + expected
            + ", got "@ + actual,
        ErrModel::ArityMismatch { .. } => "positional array length differs from declared field count"@,
        ErrModel::MissingField { field } => "missing required field '"@ + field + "'"@,
        ErrModel::FieldFailure { field, cause } => "field '"@ + field + "': "@ + spec_describe(
            *cause,
        ),
        ErrModel::ElementFailure { cause, .. } => "positional element: "@ + spec_describe(*cause),
        ErrModel::EncodingError => "payload is not valid UTF-8"@,
        ErrModel::UnknownVariant { token, allowed } => "unknown variant '"@ + token
            + "'; valid variants: ["@ + allowed + "]"@,
        ErrModel::TypeMismatch { expected, actual } => "type mismatch: expected "@ + expected
            + ", got "@ + actual,
    }
}

impl DecodeError {
    /// Renders the human-readable message.
    pub fn describe(&self) -> (out: String)
        ensures
            out@ == spec_describe(err_model(self)),
        decreases self,
    {
        let mut out = String::new();
        match self {
            DecodeError::ShapeMismatch { expected, actual } => {
                push_str(&mut out, "shape mismatch: expected ");
                push_str(&mut out, expected.as_str());
                push_str(&mut out, ", got ");
                push_str(&mut out, actual.as_str());
            },
            DecodeError::ArityMismatch { .. } => {
                push_str(&mut out, "positional array length differs from declared field count");
            },
            DecodeError::MissingField { field } => {
                push_str(&mut out, "missing required field '");
                push_str(&mut out, field.as_str());
                push_str(&mut out, "'");
            },
            DecodeError::FieldFailure { field, cause } => {
                push_str(&mut out, "field '");
                push_str(&mut out, field.as_str());
                push_str(&mut out, "': ");
                let inner = cause.describe();
                push_str(&mut out, inner.as_str());
            },
            DecodeError::ElementFailure { cause, .. } => {
                push_str(&mut out, "positional element: ");
                let inner = cause.describe();
                push_str(&mut out, inner.as_str());
            },
            DecodeError::EncodingError => {
                push_str(&mut out, "payload is not valid UTF-8");
            },
            DecodeError::UnknownVariant { token, allowed } => {
                push_str(&mut out, "unknown variant '");
                push_str(&mut out, token.as_str());
                push_str(&mut out, "'; valid variants: [");
                push_str(&mut out, allowed.as_str());
                push_str(&mut out, "]");
            },
            DecodeError::TypeMismatch { expected, actual } => {
                push_str(&mut out, "type mismatch: expected ");
                push_str(&mut out, expected.as_str());
                push_str(&mut out, ", got ");
                push_str(&mut out, actual.as_str());
            },
        }
        out
    }
}

} // verus!
