//! What decoding and encoding report when they fail.

use vstd::prelude::*;
use crate::document::TokenKind;
use crate::types::Kind;
use crate::val::{Val, ValView};

verus! {

/// A number as a document gave it: a native token, or text.
#[derive(Debug, PartialEq, Eq)]
pub enum Number {
    Signed(i64),
    Unsigned(u64),
    Text(String),
}

/// The mathematical model of a [`Number`].
pub enum NumberView {
    Signed(i64),
    Unsigned(u64),
    Text(Seq<char>),
}

impl View for Number {
    type V = NumberView;

    open spec fn view(&self) -> NumberView {
        match self {
            Number::Signed(v) => NumberView::Signed(*v),
            Number::Unsigned(v) => NumberView::Unsigned(*v),
            Number::Text(s) => NumberView::Text(s@),
        }
    }
}

/// Why a document could not be decoded.
#[derive(Debug, PartialEq, Eq)]
pub enum DecodeError {
    /// The document's token is not one that the type accepts.
    ShapeMismatch { expected: Kind, found: TokenKind },
    /// The number `value` does not fit the width or the signedness of the
    /// type.
    RangeError { expected: Kind, value: Number },
    /// Text that holds no character, or more than one, where a character
    /// was expected.
    InvalidChar(String),
    /// A key that names no field of the record.
    UnknownField(String),
    /// A key that occurs a second time.
    DuplicateField(String),
    /// A field that is not optional and has no entry.
    MissingField(String),
    /// A name that is no case of the variant, enum or result.
    UnknownCase(String),
    /// A tuple whose type has `arity` elements, or a case framed by one
    /// entry, where the document gives `count`.
    ArityError { arity: usize, count: usize },
    /// The host does not accept the value: a flag of this name is not declared.
    HostConstructionError(String),
}

/// The mathematical model of a [`DecodeError`].
pub enum DecodeErrorView {
    ShapeMismatch { expected: Kind, found: TokenKind },
    RangeError { expected: Kind, value: NumberView },
    InvalidChar(Seq<char>),
    UnknownField(Seq<char>),
    DuplicateField(Seq<char>),
    MissingField(Seq<char>),
    UnknownCase(Seq<char>),
    ArityError { arity: nat, count: nat },
    HostConstructionError(Seq<char>),
}

impl View for DecodeError {
    type V = DecodeErrorView;

    open spec fn view(&self) -> DecodeErrorView {
        match self {
            DecodeError::ShapeMismatch { expected, found } => DecodeErrorView::ShapeMismatch {
                expected: *expected,
                found: *found,
            },
            DecodeError::RangeError { expected, value } => DecodeErrorView::RangeError {
                expected: *expected,
                value: value@,
            },
            DecodeError::InvalidChar(s) => DecodeErrorView::InvalidChar(s@),
            DecodeError::UnknownField(s) => DecodeErrorView::UnknownField(s@),
            DecodeError::DuplicateField(s) => DecodeErrorView::DuplicateField(s@),
            DecodeError::MissingField(s) => DecodeErrorView::MissingField(s@),
            DecodeError::UnknownCase(s) => DecodeErrorView::UnknownCase(s@),
            DecodeError::ArityError { arity, count } => DecodeErrorView::ArityError {
                arity: *arity as nat,
                count: *count as nat,
            },
            DecodeError::HostConstructionError(s) => DecodeErrorView::HostConstructionError(s@),
        }
    }
}

/// The model of what decoding returns.
pub open spec fn decoded_view(r: Result<Val, DecodeError>) -> Result<ValView, DecodeErrorView> {
    match r {
        Ok(v) => Ok(v@),
        Err(e) => Err(e@),
    }
}

/// Why a value could not be encoded.
#[derive(Debug, Clone, Copy, PartialEq, Eq, Structural)]
pub enum EncodeError {
    /// The value holds a resource, which has no portable representation.
    UnsupportedValue,
}

} // verus!
