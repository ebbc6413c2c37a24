use vstd::prelude::*;

use crate::key::{key_text, ContextKey};

verus! {

/// Why an annotation could not be computed at a node.
#[derive(Debug)]
pub enum ValidateError {
    Internal(String),
    Expected(String),
    InvalidType(String, String),
    UnknownType(String),
    SchemaMismatch(String),
}

/// The mathematical form of a `ValidateError`.
pub enum ValidateErrorV {
    Internal(Seq<char>),
    Expected(Seq<char>),
    InvalidType(Seq<char>, Seq<char>),
    UnknownType(Seq<char>),
    SchemaMismatch(Seq<char>),
}

impl View for ValidateError {
    type V = ValidateErrorV;

    open spec fn view(&self) -> ValidateErrorV {
        match self {
            ValidateError::Internal(m) => ValidateErrorV::Internal(m@),
            ValidateError::Expected(m) => ValidateErrorV::Expected(m@),
            ValidateError::InvalidType(e, f) => ValidateErrorV::InvalidType(e@, f@),
            ValidateError::UnknownType(m) => ValidateErrorV::UnknownType(m@),
            ValidateError::SchemaMismatch(m) => ValidateErrorV::SchemaMismatch(m@),
        }
    }
}

impl Clone for ValidateError {
    fn clone(&self) -> (r: Self)
        ensures
            r@ == self@,
    {
        match self {
            ValidateError::Internal(m) => ValidateError::Internal(m.clone()),
            ValidateError::Expected(m) => ValidateError::Expected(m.clone()),
            ValidateError::InvalidType(e, f) => ValidateError::InvalidType(e.clone(), f.clone()),
            ValidateError::UnknownType(m) => ValidateError::UnknownType(m.clone()),
            ValidateError::SchemaMismatch(m) => ValidateError::SchemaMismatch(m.clone()),
        }
    }
}

impl ValidateError {
    /// A human-readable account of the error.
    pub fn reason(&self) -> (r: String)
        ensures
            r@ == self@.reason(),
    {
        match self {
            ValidateError::Internal(m) => String::from_str("internal error: ").concat(m.as_str()),
            ValidateError::Expected(m) => String::from_str("expected ").concat(m.as_str()),
            ValidateError::InvalidType(e, f) => String::from_str("expected ").concat(
                e.as_str(),
            ).concat(", found ").concat(f.as_str()),
            ValidateError::UnknownType(m) => String::from_str("unknown type ").concat(m.as_str()),
            ValidateError::SchemaMismatch(m) => String::from_str("schema mismatch on ").concat(
                m.as_str(),
            ),
        }
    }
}

impl ValidateErrorV {
    pub open spec fn reason(self) -> Seq<char> {
        match self {
            ValidateErrorV::Internal(m) => "internal error: "@ + m,
            ValidateErrorV::Expected(m) => "expected "@ + m,
            ValidateErrorV::InvalidType(e, f) => "expected "@ + e + ", found "@ + f,
            ValidateErrorV::UnknownType(m) => "unknown type "@ + m,
            ValidateErrorV::SchemaMismatch(m) => "schema mismatch on "@ + m,
        }
    }
}

/// Why a lookup in a `Context` failed.
#[derive(Debug)]
pub enum ContextError {
    NotFound(ContextKey),
    Ambiguous(ContextKey),
}

pub enum ContextErrorV {
    NotFound(Seq<Seq<char>>),
    Ambiguous(Seq<Seq<char>>),
}

impl View for ContextError {
    type V = ContextErrorV;

    open spec fn view(&self) -> ContextErrorV {
        match self {
            ContextError::NotFound(k) => ContextErrorV::NotFound(k@),
            ContextError::Ambiguous(k) => ContextErrorV::Ambiguous(k@),
        }
    }
}

impl ContextErrorV {
    /// The validation error that a failed column lookup amounts to.
    pub open spec fn column_error(self) -> ValidateErrorV {
        match self {
            ContextErrorV::NotFound(k) => ValidateErrorV::Expected("a column named "@ + key_text(k)),
            ContextErrorV::Ambiguous(k) => ValidateErrorV::Expected(
                "an unambiguous column named "@ + key_text(k),
            ),
        }
    }
}

impl ContextError {
    pub fn into_column_error(self) -> (r: ValidateError)
        ensures
            r@ == self@.column_error(),
    {
        match self {
            ContextError::NotFound(k) => ValidateError::Expected(
                String::from_str("a column named ").concat(k.to_string().as_str()),
            ),
            ContextError::Ambiguous(k) => ValidateError::Expected(
                String::from_str("an unambiguous column named ").concat(k.to_string().as_str()),
            ),
        }
    }
}

} // verus!
