//! What encoding means: for each value, the document that writes it.

use vstd::prelude::*;
use crate::document::DocumentView;
use crate::error::EncodeError;
use crate::float::{class32, class64, FloatClass};
use crate::sequence::collect;
use crate::val::ValView;

verus! {

/// The document of a single-precision number: its reserved name where it is
/// not finite, itself where it is.
pub open spec fn encode_float32(bits: u32) -> DocumentView {
    match class32(bits) {
        FloatClass::Nan => DocumentView::String("NaN"@),
        FloatClass::Infinity => DocumentView::String("Infinity"@),
        FloatClass::NegInfinity => DocumentView::String("-Infinity"@),
        FloatClass::Finite => DocumentView::Float32(bits),
    }
}

/// The document of a double-precision number.
pub open spec fn encode_float64(bits: u64) -> DocumentView {
    match class64(bits) {
        FloatClass::Nan => DocumentView::String("NaN"@),
        FloatClass::Infinity => DocumentView::String("Infinity"@),
        FloatClass::NegInfinity => DocumentView::String("-Infinity"@),
        FloatClass::Finite => DocumentView::Float64(bits),
    }
}

/// Whether a value is the absent option.
pub open spec fn is_absent(v: ValView) -> bool {
    v == ValView::Option(None)
}

/// The indices of the fields that are written: all but the absent options,
/// in declaration order.
pub open spec fn present(fields: Seq<(Seq<char>, ValView)>) -> Seq<int>
    decreases fields.len(),
{
    if fields.len() == 0 {
        Seq::empty()
    } else {
        let rest = present(fields.drop_last());
        if is_absent(fields.last().1) {
            rest
        } else {
            rest.push(fields.len() - 1)
        }
    }
}

/// The entries of a record: one for each field that is written, under the
/// field's name, where `docs` holds each field's document.
pub open spec fn present_entries(
    fields: Seq<(Seq<char>, ValView)>,
    docs: Seq<DocumentView>,
) -> Seq<(Seq<char>, DocumentView)> {
    Seq::new(
        present(fields).len(),
        |i: int| (fields[present(fields)[i]].0, docs[present(fields)[i]]),
    )
}

/// The one entry that frames a case: the case's name with its payload's
/// document, or with the unit where it has no payload.
pub open spec fn frame(name: Seq<char>, payload: Option<Result<DocumentView, EncodeError>>) -> Result<
    DocumentView,
    EncodeError,
> {
    match payload {
        Some(Err(e)) => Err(e),
        Some(Ok(d)) => Ok(DocumentView::Entries(seq![(name, d)])),
        None => Ok(DocumentView::Entries(seq![(name, DocumentView::Null)])),
    }
}

/// The names of flags as a sequence of text documents.
pub open spec fn name_documents(names: Seq<Seq<char>>) -> Seq<DocumentView> {
    Seq::new(names.len(), |i: int| DocumentView::String(names[i]))
}

/// The document that writes `v`, or the error of a value that cannot be
/// written: one that holds a resource.
pub open spec fn encode(v: ValView) -> Result<DocumentView, EncodeError>
    decreases v, 0nat,
{
    match v {
        ValView::Bool(b) => Ok(DocumentView::Bool(b)),
        ValView::S8(n) => Ok(DocumentView::Signed(n as i64)),
        ValView::S16(n) => Ok(DocumentView::Signed(n as i64)),
        ValView::S32(n) => Ok(DocumentView::Signed(n as i64)),
        ValView::S64(n) => Ok(DocumentView::Signed(n)),
        ValView::U8(n) => Ok(DocumentView::Unsigned(n as u64)),
        ValView::U16(n) => Ok(DocumentView::Unsigned(n as u64)),
        ValView::U32(n) => Ok(DocumentView::Unsigned(n as u64)),
        ValView::U64(n) => Ok(DocumentView::Unsigned(n)),
        ValView::Float32(bits) => Ok(encode_float32(bits)),
        ValView::Float64(bits) => Ok(encode_float64(bits)),
        ValView::Char(c) => Ok(DocumentView::Char(c)),
        ValView::String(s) => Ok(DocumentView::String(s)),
        ValView::List(vals) => match collect(encoded(vals)) {
            Ok(docs) => Ok(DocumentView::List(docs)),
            Err(e) => Err(e),
        },
        ValView::Record(fields) => match collect(encoded_fields(fields)) {
            Ok(docs) => Ok(DocumentView::Entries(present_entries(fields, docs))),
            Err(e) => Err(e),
        },
        ValView::Tuple(vals) => match collect(encoded(vals)) {
            Ok(docs) => Ok(DocumentView::List(docs)),
            Err(e) => Err(e),
        },
        ValView::Variant(name, payload) => frame(
            name,
            match payload {
                Some(p) => Some(encode(*p)),
                None => None,
            },
        ),
        ValView::Enum(name) => Ok(DocumentView::String(name)),
        ValView::Option(None) => Ok(DocumentView::Absent),
        ValView::Option(Some(inner)) => if *inner is Option {
            frame("value"@, Some(encode(*inner)))
        } else {
            match encode(*inner) {
                Ok(d) => Ok(DocumentView::Present(Box::new(d))),
                Err(e) => Err(e),
            }
        },
        ValView::Result(Ok(payload)) => frame(
            "result"@,
            match payload {
                Some(p) => Some(encode(*p)),
                None => None,
            },
        ),
        ValView::Result(Err(payload)) => frame(
            "error"@,
            match payload {
                Some(p) => Some(encode(*p)),
                None => None,
            },
        ),
        ValView::Flags(names) => Ok(DocumentView::List(name_documents(names))),
        ValView::Resource(_) => Err(EncodeError::UnsupportedValue),
    }
}

/// What each value of a sequence encodes to.
pub open spec fn encoded(vals: Seq<ValView>) -> Seq<Result<DocumentView, EncodeError>>
    decreases vals, 1nat,
{
    Seq::new(
        vals.len(),
        |i: int|
            if 0 <= i < vals.len() {
                encode(vals[i])
            } else {
                arbitrary()
            },
    )
}

/// What each field's value encodes to.
pub open spec fn encoded_fields(fields: Seq<(Seq<char>, ValView)>) -> Seq<
    Result<DocumentView, EncodeError>,
>
    decreases fields, 1nat,
{
    Seq::new(
        fields.len(),
        |i: int|
            if 0 <= i < fields.len() {
                encode(fields[i].1)
            } else {
                arbitrary()
            },
    )
}

} // verus!
