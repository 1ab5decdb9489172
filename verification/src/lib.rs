//! A type-directed codec between dynamic values, each of a shape given by a
//! type descriptor, and documents of the generic data model that structured
//! formats such as JSON share.
//!
//! [`deserialize_val`] decodes a [`Document`] into a [`Val`] of a given
//! [`Type`], and [`serialize_val`] encodes a [`Val`] as a [`Document`]. What
//! the two directions mean is defined on mathematical models in [`decode`]
//! and [`encode`]; [`laws`], [`record_laws`] and [`normal`] prove how they
//! relate.
//!
//! A document holds every entry that its text gives, in the order of the
//! text, so a key that the text repeats reaches the decoder twice.
//!
//! Floating-point numbers are held by their bit patterns throughout, and
//! [`float`] converts between the two widths on the bits.

use vstd::prelude::*;

pub mod de;
pub mod decode;
pub mod document;
pub mod encode;
pub mod error;
pub mod float;
pub mod laws;
pub mod normal;
pub mod number;
pub mod record_laws;
pub mod sequence;
pub mod ser;
mod text;
pub mod types;
pub mod typing;
pub mod val;

pub use de::DeserializeVal;
pub use document::{Document, DocumentView, TokenKind};
pub use error::{DecodeError, DecodeErrorView, EncodeError, Number};
pub use ser::SerializeVal;
pub use types::{Kind, Type, TypeView};
pub use val::{Val, ValView};

verus! {

/// Decodes a value of type `ty` from a document.
pub fn deserialize_val(doc: &Document, ty: &Type) -> (r: Result<Val, DecodeError>)
    ensures
        error::decoded_view(r) == decode::decode(ty@, doc@),
{
    DeserializeVal(ty).deserialize(doc)
}

/// Encodes a value as a document.
///
/// Fails exactly when the value holds a resource.
pub fn serialize_val(val: &Val) -> (r: Result<Document, EncodeError>)
    ensures
        ser::encoded_view(r) == encode::encode(val@),
{
    SerializeVal(val).serialize()
}

} // verus!
