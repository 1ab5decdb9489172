//! What decoding means: for each type descriptor and each document, the
//! value that the document stands for, or the error that it earns.

use vstd::prelude::*;
use crate::document::{DocumentView, TokenKind};
use crate::error::{DecodeErrorView, NumberView};
use crate::float::{
    canonical32, canonical64, narrow, widen, INFINITY32, INFINITY64, NAN32, NAN64, NEG_INFINITY32,
    NEG_INFINITY64,
};
use crate::number::{checked, checked_text};
use crate::sequence::{collect, position};
use crate::types::{case_names, field_names, Kind, TypeView};
use crate::val::ValView;

verus! {

/// What a type asks a document for, before it has seen it.
#[derive(Debug, Clone, Copy, PartialEq, Eq, Structural)]
pub enum Hint {
    Bool,
    Char,
    /// Text that the value will own.
    String,
    /// Text that is only read: the name of a case.
    Name,
    Sequence,
    /// A sequence of this many elements.
    Tuple(usize),
    Entries,
    /// The absent signal, or what is present.
    Option,
    /// Whatever the document holds.
    Any,
}

/// What a type asks a document for. A number may come as text, so numbers
/// ask for anything; so does an option of an option, which a bare absent
/// signal cannot tell from its inner option.
pub open spec fn hint_of(ty: TypeView) -> Hint {
    match ty {
        TypeView::Bool => Hint::Bool,
        TypeView::Char => Hint::Char,
        TypeView::String => Hint::String,
        TypeView::List(_) => Hint::Sequence,
        TypeView::Record(_) => Hint::Entries,
        TypeView::Tuple(types) => Hint::Tuple(types.len() as usize),
        TypeView::Variant(_) => Hint::Entries,
        TypeView::Enum(_) => Hint::Name,
        TypeView::Option(t) => if *t is Option {
            Hint::Any
        } else {
            Hint::Option
        },
        TypeView::Result(_, _) => Hint::Entries,
        TypeView::Flags(_) => Hint::Sequence,
        _ => Hint::Any,
    }
}

/// Whether a document that was asked for `hint` may hold a token of this
/// kind; any other is a shape mismatch.
pub open spec fn admits(hint: Hint, found: TokenKind) -> bool {
    match hint {
        Hint::Bool => found == TokenKind::Bool,
        Hint::Char | Hint::String | Hint::Name => found == TokenKind::String || found
            == TokenKind::Char,
        Hint::Sequence | Hint::Tuple(_) => found == TokenKind::List || found == TokenKind::Bytes,
        Hint::Entries => found == TokenKind::Entries,
        Hint::Option | Hint::Any => true,
    }
}

/// How a document that lies below another is to be asked for.
pub enum ChildView {
    /// Against this type, by the type's own hint.
    Typed(TypeView),
    /// Against this type, by this hint.
    Hinted(TypeView, Hint),
    /// As text.
    Text,
    /// As the unit.
    Unit,
    /// As whatever it holds: the decoder will refuse what it is part of.
    Any,
}

/// How the element at `index` of a sequence is asked for: against the
/// element type of a list, against the type at its place in a tuple, as
/// text among flags.
pub open spec fn element_child(ty: TypeView, index: nat) -> ChildView {
    match ty {
        TypeView::List(t) => ChildView::Typed(*t),
        TypeView::Tuple(types) => if index < types.len() {
            ChildView::Typed(types[index as int])
        } else {
            ChildView::Any
        },
        TypeView::Flags(_) => ChildView::Text,
        _ => ChildView::Any,
    }
}

/// How the payload of a case is asked for: against its type, or as the
/// unit where the case has none.
pub open spec fn payload_child(ty: Option<TypeView>) -> ChildView {
    match ty {
        Some(t) => ChildView::Typed(t),
        None => ChildView::Unit,
    }
}

/// How what stands under `key` is asked for: against the type of the field
/// of that name in a record, as the payload of the case of that name in a
/// variant or a result, against the inner type under the key `value` of an
/// option.
pub open spec fn entry_child(ty: TypeView, key: Seq<char>) -> ChildView {
    match ty {
        TypeView::Record(fields) => match position(field_names(fields), key) {
            Some(k) => ChildView::Typed(fields[k].1),
            None => ChildView::Any,
        },
        TypeView::Variant(cases) => match position(case_names(cases), key) {
            Some(k) => payload_child(cases[k].1),
            None => ChildView::Any,
        },
        TypeView::Option(t) => if key == "value"@ {
            ChildView::Typed(*t)
        } else {
            ChildView::Any
        },
        TypeView::Result(ok, err) => if key == "result"@ {
            payload_child(
                match ok {
                    Some(t) => Some(*t),
                    None => None,
                },
            )
        } else if key == "error"@ {
            payload_child(
                match err {
                    Some(t) => Some(*t),
                    None => None,
                },
            )
        } else {
            ChildView::Any
        },
        _ => ChildView::Any,
    }
}

/// How what a present option holds is asked for: against the inner type,
/// as a frame where the inner type is an option, and as whatever it holds
/// where it is not.
pub open spec fn present_child(ty: TypeView) -> ChildView {
    match ty {
        TypeView::Option(t) => ChildView::Hinted(
            *t,
            if *t is Option {
                Hint::Entries
            } else {
                Hint::Any
            },
        ),
        _ => ChildView::Any,
    }
}

/// The error of a token that the type does not accept.
pub open spec fn mismatch(ty: TypeView, doc: DocumentView) -> Result<ValView, DecodeErrorView> {
    Err(DecodeErrorView::ShapeMismatch { expected: ty.kind(), found: doc.kind() })
}

/// A document against an integer kind: a native number of either sign or a
/// decimal literal, held to the kind's range.
pub open spec fn decode_integer(ty: TypeView, doc: DocumentView) -> Result<
    ValView,
    DecodeErrorView,
> {
    match doc {
        DocumentView::Signed(v) => checked(ty.kind(), v as int, NumberView::Signed(v)),
        DocumentView::Unsigned(v) => checked(ty.kind(), v as int, NumberView::Unsigned(v)),
        DocumentView::String(s) => checked_text(ty.kind(), s),
        _ => mismatch(ty, doc),
    }
}

/// The single-precision number that one of the three reserved names
/// stands for.
pub open spec fn named32(s: Seq<char>) -> Option<u32> {
    if s == "NaN"@ {
        Some(NAN32)
    } else if s == "Infinity"@ {
        Some(INFINITY32)
    } else if s == "-Infinity"@ {
        Some(NEG_INFINITY32)
    } else {
        None
    }
}

/// The double-precision number that one of the three reserved names
/// stands for.
pub open spec fn named64(s: Seq<char>) -> Option<u64> {
    if s == "NaN"@ {
        Some(NAN64)
    } else if s == "Infinity"@ {
        Some(INFINITY64)
    } else if s == "-Infinity"@ {
        Some(NEG_INFINITY64)
    } else {
        None
    }
}

/// A document against the single-precision kind: a native number of either
/// width, or one of the three reserved names. Of the NaNs only the quiet one
/// without payload is kept.
pub open spec fn decode_float32(doc: DocumentView) -> Result<ValView, DecodeErrorView> {
    match doc {
        DocumentView::Float32(bits) => Ok(ValView::Float32(canonical32(bits))),
        DocumentView::Float64(bits) => Ok(ValView::Float32(narrow(bits))),
        DocumentView::String(s) => match named32(s) {
            Some(bits) => Ok(ValView::Float32(bits)),
            None => mismatch(TypeView::Float32, doc),
        },
        _ => mismatch(TypeView::Float32, doc),
    }
}

/// A document against the double-precision kind.
pub open spec fn decode_float64(doc: DocumentView) -> Result<ValView, DecodeErrorView> {
    match doc {
        DocumentView::Float32(bits) => Ok(ValView::Float64(widen(bits))),
        DocumentView::Float64(bits) => Ok(ValView::Float64(canonical64(bits))),
        DocumentView::String(s) => match named64(s) {
            Some(bits) => Ok(ValView::Float64(bits)),
            None => mismatch(TypeView::Float64, doc),
        },
        _ => mismatch(TypeView::Float64, doc),
    }
}

/// A document against the character kind: a character, or text of exactly
/// one character.
pub open spec fn decode_char(doc: DocumentView) -> Result<ValView, DecodeErrorView> {
    match doc {
        DocumentView::Char(c) => Ok(ValView::Char(c)),
        DocumentView::String(s) => if s.len() == 1 {
            Ok(ValView::Char(s[0]))
        } else {
            Err(DecodeErrorView::InvalidChar(s))
        },
        _ => mismatch(TypeView::Char, doc),
    }
}

/// A document against an enum: text that names one of its cases.
pub open spec fn decode_enum(cases: Seq<Seq<char>>, doc: DocumentView) -> Result<
    ValView,
    DecodeErrorView,
> {
    match doc {
        DocumentView::String(s) => if cases.contains(s) {
            Ok(ValView::Enum(s))
        } else {
            Err(DecodeErrorView::UnknownCase(s))
        },
        _ => mismatch(TypeView::Enum(cases), doc),
    }
}

/// The values of a byte string, as list elements.
pub open spec fn byte_vals(bytes: Seq<u8>) -> Seq<ValView> {
    Seq::new(bytes.len(), |i: int| ValView::U8(bytes[i]))
}

/// The name that an element of a flags document gives: it must be text.
pub open spec fn flag_name(doc: DocumentView) -> Result<Seq<char>, DecodeErrorView> {
    match doc {
        DocumentView::String(s) => Ok(s),
        _ => Err(DecodeErrorView::ShapeMismatch { expected: Kind::String, found: doc.kind() }),
    }
}

/// What the host makes of a list of flag names: the first name that is not
/// declared is refused; otherwise the declared names that were given are
/// the active flags, in declaration order, each once.
pub open spec fn active_flags(declared: Seq<Seq<char>>, given: Seq<Seq<char>>) -> Result<
    ValView,
    DecodeErrorView,
> {
    match collect(known_flags(declared, given)) {
        Err(e) => Err(e),
        Ok(_) => Ok(ValView::Flags(declared.filter(among(given)))),
    }
}

/// For each given name, whether it is declared.
pub open spec fn known_flags(declared: Seq<Seq<char>>, given: Seq<Seq<char>>) -> Seq<
    Result<(), DecodeErrorView>,
> {
    Seq::new(
        given.len(),
        |i: int|
            if declared.contains(given[i]) {
                Ok(())
            } else {
                Err(DecodeErrorView::HostConstructionError(given[i]))
            },
    )
}

/// The test whether a name is one of `names`.
pub open spec fn among(names: Seq<Seq<char>>) -> spec_fn(Seq<char>) -> bool {
    |name: Seq<char>| names.contains(name)
}

/// The names that the elements of a flags document give.
pub open spec fn flag_names(items: Seq<DocumentView>) -> Seq<Result<Seq<char>, DecodeErrorView>> {
    Seq::new(items.len(), |i: int| flag_name(items[i]))
}

/// A decoded value wrapped as a present option.
pub open spec fn wrapped(r: Result<ValView, DecodeErrorView>) -> Result<ValView, DecodeErrorView> {
    match r {
        Ok(v) => Ok(ValView::Option(Some(Box::new(v)))),
        Err(e) => Err(e),
    }
}

/// The one entry of a framed case, or an arity error where the document
/// has no entry or more than one.
pub open spec fn single_entry(entries: Seq<(Seq<char>, DocumentView)>) -> Result<
    (Seq<char>, DocumentView),
    DecodeErrorView,
> {
    if entries.len() == 1 {
        Ok(entries[0])
    } else {
        Err(DecodeErrorView::ArityError { arity: 1, count: entries.len() })
    }
}

/// The payload of a case. Where the case has a payload type, `decoded` is
/// what the entry's document gave against it. Where it has none, the
/// document must be the unit.
pub open spec fn payload(
    decoded: Option<Result<ValView, DecodeErrorView>>,
    doc: DocumentView,
) -> Result<Option<Box<ValView>>, DecodeErrorView> {
    match decoded {
        Some(Ok(v)) => Ok(Some(Box::new(v))),
        Some(Err(e)) => Err(e),
        None => match doc {
            DocumentView::Null => Ok(None),
            _ => Err(DecodeErrorView::ShapeMismatch { expected: Kind::Unit, found: doc.kind() }),
        },
    }
}

/// The keys of a keyed document, in its order.
pub open spec fn keys(entries: Seq<(Seq<char>, DocumentView)>) -> Seq<Seq<char>> {
    Seq::new(entries.len(), |i: int| entries[i].0)
}

/// For each entry, the index of the field that it gives: the first field
/// of its name, if there is one.
pub open spec fn targets(fields: Seq<(Seq<char>, TypeView)>, keys: Seq<Seq<char>>) -> Seq<
    Option<int>,
> {
    Seq::new(keys.len(), |i: int| position(field_names(fields), keys[i]))
}

/// What each entry gives once duplicates are refused: its decoded value,
/// or its own error, or a duplicate field error where an earlier entry
/// gave the same field.
pub open spec fn checked_entries(
    targets: Seq<Option<int>>,
    keys: Seq<Seq<char>>,
    decoded: Seq<Result<ValView, DecodeErrorView>>,
) -> Seq<Result<ValView, DecodeErrorView>> {
    Seq::new(
        keys.len(),
        |i: int|
            match decoded[i] {
                Err(e) => Err(e),
                Ok(v) => if position(targets, targets[i]) == Some(i) {
                    Ok(v)
                } else {
                    Err(DecodeErrorView::DuplicateField(keys[i]))
                },
            },
    )
}

/// What each field holds: the value of its entry; without one, the absent
/// value where it is optional, and a missing field error where it is not.
pub open spec fn named_fields(
    fields: Seq<(Seq<char>, TypeView)>,
    targets: Seq<Option<int>>,
    vals: Seq<ValView>,
) -> Seq<Result<(Seq<char>, ValView), DecodeErrorView>> {
    Seq::new(
        fields.len(),
        |k: int|
            match position(targets, Some(k)) {
                Some(i) => Ok((fields[k].0, vals[i])),
                None => if fields[k].1 is Option {
                    Ok((fields[k].0, ValView::Option(None)))
                } else {
                    Err(DecodeErrorView::MissingField(fields[k].0))
                },
            },
    )
}

/// A record from its entries. `decoded` holds, for each entry, an unknown
/// field error or what the entry's document gave against its field's type.
///
/// The entries are taken in document order; the first that names no field,
/// does not decode, or gives a field that an earlier entry gave, fails the
/// whole. Then the fields are taken in declaration order: a field takes the
/// value of its entry; without one it is absent where it is optional, and
/// missing where it is not.
pub open spec fn record_of(
    fields: Seq<(Seq<char>, TypeView)>,
    keys: Seq<Seq<char>>,
    decoded: Seq<Result<ValView, DecodeErrorView>>,
) -> Result<ValView, DecodeErrorView> {
    let targets = targets(fields, keys);
    match collect(checked_entries(targets, keys, decoded)) {
        Err(e) => Err(e),
        Ok(vals) => match collect(named_fields(fields, targets, vals)) {
            Err(e) => Err(e),
            Ok(named) => Ok(ValView::Record(named)),
        },
    }
}

/// A tuple from its elements. `decoded` holds what the leading elements
/// gave, as many as both the type and the document have; a failure among
/// them comes before the count.
pub open spec fn tuple_of(
    arity: nat,
    count: nat,
    decoded: Seq<Result<ValView, DecodeErrorView>>,
) -> Result<ValView, DecodeErrorView> {
    match collect(decoded) {
        Err(e) => Err(e),
        Ok(vals) => if arity == count {
            Ok(ValView::Tuple(vals))
        } else {
            Err(DecodeErrorView::ArityError { arity, count })
        },
    }
}

/// The value that `doc` stands for as a value of type `ty`, or the error
/// that it earns.
pub open spec fn decode(ty: TypeView, doc: DocumentView) -> Result<ValView, DecodeErrorView>
    decreases ty, 2nat,
{
    match ty {
        TypeView::Bool => match doc {
            DocumentView::Bool(b) => Ok(ValView::Bool(b)),
            _ => mismatch(ty, doc),
        },
        TypeView::S8 | TypeView::U8 | TypeView::S16 | TypeView::U16 | TypeView::S32
        | TypeView::U32 | TypeView::S64 | TypeView::U64 => decode_integer(ty, doc),
        TypeView::Float32 => decode_float32(doc),
        TypeView::Float64 => decode_float64(doc),
        TypeView::Char => decode_char(doc),
        TypeView::String => match doc {
            DocumentView::String(s) => Ok(ValView::String(s)),
            _ => mismatch(ty, doc),
        },
        TypeView::List(t) => match doc {
            DocumentView::List(items) => match collect(element_results(*t, items)) {
                Ok(vals) => Ok(ValView::List(vals)),
                Err(e) => Err(e),
            },
            DocumentView::Bytes(bytes) => if *t is U8 {
                Ok(ValView::List(byte_vals(bytes)))
            } else {
                mismatch(ty, doc)
            },
            _ => mismatch(ty, doc),
        },
        TypeView::Record(fields) => match doc {
            DocumentView::Entries(entries) => record_of(
                fields,
                keys(entries),
                entry_results(fields, entries),
            ),
            _ => mismatch(ty, doc),
        },
        TypeView::Tuple(types) => match doc {
            DocumentView::List(items) => tuple_of(
                types.len(),
                items.len(),
                tuple_results(types, items),
            ),
            _ => mismatch(ty, doc),
        },
        TypeView::Variant(cases) => match doc {
            DocumentView::Entries(entries) => match single_entry(entries) {
                Err(e) => Err(e),
                Ok((name, value)) => match position(case_names(cases), name) {
                    None => Err(DecodeErrorView::UnknownCase(name)),
                    Some(k) => match payload(
                        if 0 <= k < cases.len() {
                            match cases[k].1 {
                                Some(t) => Some(decode(t, value)),
                                None => None,
                            }
                        } else {
                            arbitrary()
                        },
                        value,
                    ) {
                        Err(e) => Err(e),
                        Ok(p) => Ok(ValView::Variant(name, p)),
                    },
                },
            },
            _ => mismatch(ty, doc),
        },
        TypeView::Enum(cases) => decode_enum(cases, doc),
        TypeView::Option(t) => if *t is Option {
            probe_option(ty, doc)
        } else {
            match doc {
                DocumentView::Null | DocumentView::Absent => Ok(ValView::Option(None)),
                DocumentView::Present(d) => wrapped(decode(*t, *d)),
                _ => wrapped(decode(*t, doc)),
            }
        },
        TypeView::Result(ok, err) => match doc {
            DocumentView::Entries(entries) => match single_entry(entries) {
                Err(e) => Err(e),
                Ok((name, value)) => if name == "result"@ {
                    match payload(
                        match ok {
                            Some(t) => Some(decode(*t, value)),
                            None => None,
                        },
                        value,
                    ) {
                        Err(e) => Err(e),
                        Ok(p) => Ok(ValView::Result(Ok(p))),
                    }
                } else if name == "error"@ {
                    match payload(
                        match err {
                            Some(t) => Some(decode(*t, value)),
                            None => None,
                        },
                        value,
                    ) {
                        Err(e) => Err(e),
                        Ok(p) => Ok(ValView::Result(Err(p))),
                    }
                } else {
                    Err(DecodeErrorView::UnknownCase(name))
                },
            },
            _ => mismatch(ty, doc),
        },
        TypeView::Flags(names) => match doc {
            DocumentView::List(items) => match collect(flag_names(items)) {
                Err(e) => Err(e),
                Ok(given) => active_flags(names, given),
            },
            _ => mismatch(ty, doc),
        },
        TypeView::Resource => mismatch(ty, doc),
    }
}

/// What each element of a list document gives against the element type.
pub open spec fn element_results(t: TypeView, items: Seq<DocumentView>) -> Seq<
    Result<ValView, DecodeErrorView>,
>
    decreases t, 3nat,
{
    Seq::new(items.len(), |i: int| decode(t, items[i]))
}

/// What the leading elements of a tuple document give, each against the
/// type at its place: as many as both the type and the document have.
pub open spec fn tuple_results(types: Seq<TypeView>, items: Seq<DocumentView>) -> Seq<
    Result<ValView, DecodeErrorView>,
>
    decreases types, 3nat,
{
    Seq::new(
        if types.len() <= items.len() {
            types.len()
        } else {
            items.len()
        },
        |i: int|
            if 0 <= i < types.len() {
                decode(types[i], items[i])
            } else {
                arbitrary()
            },
    )
}

/// What each entry of a record document gives: an unknown field error
/// where its key names no field, and otherwise what its document gives
/// against the type of the first field of that name.
pub open spec fn entry_results(
    fields: Seq<(Seq<char>, TypeView)>,
    entries: Seq<(Seq<char>, DocumentView)>,
) -> Seq<Result<ValView, DecodeErrorView>>
    decreases fields, 3nat,
{
    Seq::new(
        entries.len(),
        |i: int|
            match position(field_names(fields), entries[i].0) {
                Some(k) => if 0 <= k < fields.len() {
                    decode(fields[k].1, entries[i].1)
                } else {
                    arbitrary()
                },
                None => Err(DecodeErrorView::UnknownField(entries[i].0)),
            },
    )
}

/// An option that is framed: one entry under the key `value`, which holds
/// the document of what is present.
pub open spec fn framed(t: TypeView, entries: Seq<(Seq<char>, DocumentView)>) -> Result<
    ValView,
    DecodeErrorView,
>
    decreases t, 3nat,
{
    match single_entry(entries) {
        Err(e) => Err(e),
        Ok((name, value)) => if name == "value"@ {
            wrapped(decode(t, value))
        } else {
            Err(DecodeErrorView::UnknownField(name))
        },
    }
}

/// What a token means to an option type when the document is probed for
/// whatever it holds: the unit and the absent marker are the absent option,
/// keyed entries frame what is present, and the present marker holds it.
/// Any other token is a shape mismatch: probed, what is present cannot be
/// told from what is absent without a marker or a frame.
pub open spec fn probe_option(ty: TypeView, doc: DocumentView) -> Result<ValView, DecodeErrorView>
    decreases ty, 1nat,
{
    match ty {
        TypeView::Option(t) => match doc {
            DocumentView::Null | DocumentView::Absent => Ok(ValView::Option(None)),
            DocumentView::Entries(entries) => framed(*t, entries),
            DocumentView::Present(d) => visit_present(ty, *d),
            _ => mismatch(ty, doc),
        },
        _ => mismatch(ty, doc),
    }
}

/// What a present document means to an option type: the document decodes
/// against the inner type, and the value is wrapped as present. Where the
/// inner type is an option too, the document must be a frame.
pub open spec fn visit_present(ty: TypeView, doc: DocumentView) -> Result<
    ValView,
    DecodeErrorView,
>
    decreases ty, 0nat,
{
    match ty {
        TypeView::Option(t) => match *t {
            TypeView::Option(inner) => match doc {
                DocumentView::Entries(entries) => wrapped(framed(*inner, entries)),
                _ => mismatch(*t, doc),
            },
            _ => wrapped(decode(*t, doc)),
        },
        _ => Err(
            DecodeErrorView::ShapeMismatch { expected: ty.kind(), found: TokenKind::Present },
        ),
    }
}

/// What a token means to a type when the document is probed for whatever
/// it holds. For every type but an option this is `decode`.
pub open spec fn visit(ty: TypeView, doc: DocumentView) -> Result<ValView, DecodeErrorView> {
    match ty {
        TypeView::Option(_) => probe_option(ty, doc),
        _ => decode(ty, doc),
    }
}

} // verus!
