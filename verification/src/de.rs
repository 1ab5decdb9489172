//! The decoder: from a type descriptor and a document to a dynamic value.

use vstd::prelude::*;
use vstd::string::*;
use crate::decode::{
    active_flags, admits, among, byte_vals, checked_entries, decode, element_results,
    element_child, entry_child, entry_results, flag_names, hint_of, keys, known_flags,
    named_fields, payload, present_child, single_entry, targets, tuple_results, visit,
    visit_present, ChildView, Hint,
};
use crate::document::{documents_view, entries_view, Document, DocumentView, TokenKind};
use crate::error::{decoded_view, DecodeError, DecodeErrorView, Number};
use crate::float::{
    canonicalize32, canonicalize64, narrow_bits, widen_bits, INFINITY32, INFINITY64, NAN32, NAN64,
    NEG_INFINITY32, NEG_INFINITY64,
};
use crate::number::{checked_integer, checked_integer_text};
use crate::sequence::{
    collect, lemma_collect_err, lemma_collect_ok, lemma_position, lemma_position_is,
    lemma_position_none, position,
};
use crate::text::same_text;
use crate::types::{
    case_names, cases_view, field_names, lemma_record_type_view, lemma_tuple_type_view,
    lemma_variant_type_view, names_view, record_fields_view, tuple_types_view, Kind, Type,
    TypeView,
};
use crate::val::{
    fields_view, lemma_list_view, lemma_record_view, lemma_tuple_view, vals_view, Val, ValView,
};

verus! {

/// Decodes documents into values of the type that it holds.
pub struct DeserializeVal<'a>(pub &'a Type);

/// How a document that lies below another is to be asked for.
#[derive(Debug, PartialEq, Eq)]
pub enum Child<'a> {
    /// Against this type, by the type's own hint.
    Typed(&'a Type),
    /// Against this type, by this hint.
    Hinted(&'a Type, Hint),
    /// As text.
    Text,
    /// As the unit.
    Unit,
    /// As whatever it holds: the decoder will refuse what it is part of.
    Any,
}

impl<'a> View for Child<'a> {
    type V = ChildView;

    open spec fn view(&self) -> ChildView {
        match self {
            Child::Typed(t) => ChildView::Typed(t@),
            Child::Hinted(t, hint) => ChildView::Hinted(t@, *hint),
            Child::Text => ChildView::Text,
            Child::Unit => ChildView::Unit,
            Child::Any => ChildView::Any,
        }
    }
}

/// Whether `name` is among `names`.
pub fn contains_name(names: &Vec<String>, name: &str) -> (r: bool)
    ensures
        r == names_view(*names).contains(name@),
{
    let mut i: usize = 0;
    while i < names.len()
        invariant
            i <= names.len(),
            forall|j: int| 0 <= j < i ==> names_view(*names)[j] != name@,
        decreases names.len() - i,
    {
        if same_text(names[i].as_str(), name) {
            assert(names_view(*names)[i as int] == name@);
            return true;
        }
        i += 1;
    }
    false
}

/// The index of the first field named `name`.
pub fn find_field(fields: &Vec<(String, Type)>, name: &str) -> (r: Option<usize>)
    ensures
        match r {
            Some(k) => k < fields.len() && position(
                field_names(record_fields_view(*fields)),
                name@,
            ) == Some(k as int),
            None => position(field_names(record_fields_view(*fields)), name@) is None,
        },
{
    let ghost names = field_names(record_fields_view(*fields));
    let mut i: usize = 0;
    while i < fields.len()
        invariant
            i <= fields.len(),
            names == field_names(record_fields_view(*fields)),
            forall|j: int| 0 <= j < i ==> names[j] != name@,
        decreases fields.len() - i,
    {
        if same_text(fields[i].0.as_str(), name) {
            proof {
                lemma_position_is(names, name@, i as int);
            }
            return Some(i);
        }
        i += 1;
    }
    proof {
        lemma_position_none(names, name@);
    }
    None
}

/// The index of the first case named `name`.
pub fn find_case(cases: &Vec<(String, Option<Type>)>, name: &str) -> (r: Option<usize>)
    ensures
        match r {
            Some(k) => k < cases.len() && position(case_names(cases_view(*cases)), name@)
                == Some(k as int),
            None => position(case_names(cases_view(*cases)), name@) is None,
        },
{
    let ghost names = case_names(cases_view(*cases));
    let mut i: usize = 0;
    while i < cases.len()
        invariant
            i <= cases.len(),
            names == case_names(cases_view(*cases)),
            forall|j: int| 0 <= j < i ==> names[j] != name@,
        decreases cases.len() - i,
    {
        if same_text(cases[i].0.as_str(), name) {
            proof {
                lemma_position_is(names, name@, i as int);
            }
            return Some(i);
        }
        i += 1;
    }
    proof {
        lemma_position_none(names, name@);
    }
    None
}

/// The flags value that the host makes of the names that a document gave.
#[verifier::rlimit(50)]
pub fn new_flags(declared: &Vec<String>, given: &Vec<String>) -> (r: Result<Val, DecodeError>)
    ensures
        decoded_view(r) == active_flags(names_view(*declared), names_view(*given)),
{
    let ghost d = names_view(*declared);
    let ghost g = names_view(*given);
    let ghost known = known_flags(d, g);
    let mut i: usize = 0;
    while i < given.len()
        invariant
            i <= given.len(),
            d == names_view(*declared),
            g == names_view(*given),
            known == known_flags(d, g),
            forall|j: int| 0 <= j < i ==> (#[trigger] known[j]) is Ok,
        decreases given.len() - i,
    {
        if !contains_name(declared, given[i].as_str()) {
            proof {
                lemma_collect_err(known, i as int);
            }
            return Err(DecodeError::HostConstructionError(given[i].clone()));
        }
        i += 1;
    }
    proof {
        lemma_collect_ok(known);
    }
    let mut active: Vec<String> = Vec::new();
    let mut k: usize = 0;
    while k < declared.len()
        invariant
            k <= declared.len(),
            d == names_view(*declared),
            g == names_view(*given),
            names_view(active) == d.take(k as int).filter(among(g)),
        decreases declared.len() - k,
    {
        let ghost before = names_view(active);
        proof {
            assert(d.take(k + 1) =~= d.take(k as int).push(d[k as int]));
            d.take(k as int).lemma_filter_push(d[k as int], among(g));
        }
        if contains_name(given, declared[k].as_str()) {
            active.push(declared[k].clone());
            assert(names_view(active) =~= before.push(d[k as int]));
        }
        k += 1;
    }
    proof {
        assert(d.take(declared.len() as int) =~= d);
        assert(Val::Flags(active)@->Flags_0 =~= names_view(active));
    }
    Ok(Val::Flags(active))
}

/// The one entry of a framed case.
///
/// Fails with an arity error exactly when `entries` does not hold one
/// entry.
pub fn single_entry_map(entries: &Vec<(String, Document)>) -> (r: Result<
    (&String, &Document),
    DecodeError,
>)
    ensures
        match r {
            Ok((name, value)) => single_entry(entries_view(*entries)) == Ok::<
                (Seq<char>, DocumentView),
                DecodeErrorView,
            >((name@, value@)),
            Err(e) => single_entry(entries_view(*entries)) == Err::<
                (Seq<char>, DocumentView),
                DecodeErrorView,
            >(e@),
        },
{
    if entries.len() == 1 {
        Ok((&entries[0].0, &entries[0].1))
    } else {
        Err(DecodeError::ArityError { arity: 1, count: entries.len() })
    }
}

/// The model of what decoding a payload returns.
pub open spec fn payload_result_view(r: Result<Option<Box<Val>>, DecodeError>) -> Result<
    Option<Box<ValView>>,
    DecodeErrorView,
> {
    match r {
        Ok(Some(v)) => Ok(Some(Box::new((*v)@))),
        Ok(None) => Ok(None),
        Err(e) => Err(e@),
    }
}

/// What a case's payload type makes of the entry's document, where it has
/// one.
pub open spec fn payload_decoded(ty: Option<&Type>, doc: DocumentView) -> Option<
    Result<ValView, DecodeErrorView>,
> {
    match ty {
        Some(t) => Some(decode(t@, doc)),
        None => None,
    }
}

/// The payload of a case: the document decoded against the payload type
/// where the case has one; where it has none the document must be the
/// absent signal, and there is no payload.
pub fn next_value_maybe(ty: Option<&Type>, doc: &Document) -> (r: Result<
    Option<Box<Val>>,
    DecodeError,
>)
    ensures
        payload_result_view(r) == payload(payload_decoded(ty, doc@), doc@),
    decreases ty, 0nat,
{
    match ty {
        Some(t) => match DeserializeVal(t).deserialize(doc) {
            Ok(v) => Ok(Some(Box::new(v))),
            Err(e) => Err(e),
        },
        None => match doc {
            Document::Null => Ok(None),
            _ => Err(DecodeError::ShapeMismatch { expected: Kind::Unit, found: doc.kind() }),
        },
    }
}

/// Whether a slot holds the value that the entries before `upto` gave to
/// the field `k`, or nothing where none of them gave it one.
pub open spec fn slot_filled(
    slot: Option<Val>,
    targets: Seq<Option<int>>,
    decoded: Seq<Result<ValView, DecodeErrorView>>,
    upto: int,
    k: int,
) -> bool {
    match position(targets.take(upto), Some(k)) {
        Some(j) => match slot {
            Some(v) => decoded[j] == Ok::<ValView, DecodeErrorView>(v@),
            None => false,
        },
        None => slot is None,
    }
}

/// A record from keyed entries: each entry is decoded against the field
/// that it names, and the fields are then put in declaration order.
#[verifier::rlimit(50)]
pub fn decode_record(fields: &Vec<(String, Type)>, entries: &Vec<(String, Document)>) -> (r:
    Result<Val, DecodeError>)
    ensures
        decoded_view(r) == decode(
            TypeView::Record(record_fields_view(*fields)),
            DocumentView::Entries(entries_view(*entries)),
        ),
    decreases fields, 0nat,
{
    let ghost fs = record_fields_view(*fields);
    let ghost es = entries_view(*entries);
    let ghost ks = keys(es);
    let ghost ts = targets(fs, ks);
    let ghost decoded = entry_results(fs, es);
    let ghost checked = checked_entries(ts, ks, decoded);

    let mut slots: Vec<Option<Val>> = Vec::new();
    let mut k: usize = 0;
    while k < fields.len()
        invariant
            k <= fields.len(),
            slots.len() == k,
            forall|j: int| 0 <= j < k ==> slots[j] is None,
        decreases fields.len() - k,
    {
        slots.push(None);
        k += 1;
    }
    assert(ts.take(0) =~= Seq::empty());

    let mut i: usize = 0;
    while i < entries.len()
        invariant
            i <= entries.len(),
            slots.len() == fields.len(),
            fs == record_fields_view(*fields),
            es == entries_view(*entries),
            ks == keys(es),
            ts == targets(fs, ks),
            decoded == entry_results(fs, es),
            checked == checked_entries(ts, ks, decoded),
            forall|j: int| 0 <= j < i ==> (#[trigger] checked[j]) is Ok,
            forall|k: int|
                0 <= k < fields.len() ==> slot_filled(#[trigger] slots[k], ts, decoded, i as int, k),
        decreases entries.len() - i,
    {
        let key = &entries[i].0;
        let value = &entries[i].1;
        proof {
            assert(ts.take(i + 1).drop_last() =~= ts.take(i as int));
            assert(ts.take(i + 1).last() == ts[i as int]);
            assert(forall|j: int| 0 <= j < i ==> ts.take(i as int)[j] == ts[j]);
            assert(ks[i as int] == key@);
            assert(es[i as int].1 == value@);
            lemma_position(field_names(fs), ks[i as int]);
        }
        match find_field(fields, key.as_str()) {
            None => {
                proof {
                    lemma_collect_err(checked, i as int);
                }
                return Err(DecodeError::UnknownField(key.clone()));
            },
            Some(k) => {
                match DeserializeVal(&fields[k].1).deserialize(value) {
                    Err(e) => {
                        proof {
                            lemma_collect_err(checked, i as int);
                        }
                        return Err(e);
                    },
                    Ok(v) => {
                        proof {
                            lemma_position(ts.take(i as int), Some(k as int));
                            lemma_position(ts, ts[i as int]);
                        }
                        if slots[k].is_some() {
                            proof {
                                lemma_collect_err(checked, i as int);
                            }
                            return Err(DecodeError::DuplicateField(key.clone()));
                        }
                        proof {
                            lemma_position_is(ts, ts[i as int], i as int);
                        }
                        slots[k] = Some(v);
                    },
                }
            },
        }
        i += 1;
    }
    proof {
        assert(ts.take(entries.len() as int) =~= ts);
        lemma_collect_ok(checked);
    }
    let ghost vals = Seq::new(checked.len(), |i: int| checked[i]->Ok_0);
    let ghost named = named_fields(fs, ts, vals);

    let mut out: Vec<(String, Val)> = Vec::new();
    let mut k: usize = 0;
    while k < fields.len()
        invariant
            k <= fields.len(),
            out.len() == k,
            slots.len() == fields.len(),
            fs == record_fields_view(*fields),
            es == entries_view(*entries),
            ks == keys(es),
            ts == targets(fs, ks),
            decoded == entry_results(fs, es),
            collect(checked_entries(ts, ks, decoded)) == Ok::<Seq<ValView>, DecodeErrorView>(vals),
            ks.len() == decoded.len(),
            named == named_fields(fs, ts, vals),
            vals.len() == decoded.len(),
            forall|j: int|
                0 <= j < vals.len() ==> decoded[j] == Ok::<ValView, DecodeErrorView>(vals[j]),
            forall|j: int|
                k <= j < fields.len() ==> slot_filled(
                    #[trigger] slots[j],
                    ts,
                    decoded,
                    ts.len() as int,
                    j,
                ),
            forall|j: int|
                0 <= j < k ==> (#[trigger] named[j]) == Ok::<
                    (Seq<char>, ValView),
                    DecodeErrorView,
                >((out[j].0@, out[j].1@)),
        decreases fields.len() - k,
    {
        proof {
            assert(ts.take(ts.len() as int) =~= ts);
            lemma_position(ts, Some(k as int));
        }
        let name = fields[k].0.clone();
        let slot = slots[k].take();
        match slot {
            Some(v) => out.push((name, v)),
            None => {
                let optional = match fields[k].1 {
                    Type::Option(_) => true,
                    _ => false,
                };
                assert(optional == (fs[k as int].1 is Option));
                if optional {
                    out.push((name, Val::Option(None)));
                } else {
                    proof {
                        lemma_collect_err(named, k as int);
                    }
                    return Err(DecodeError::MissingField(name));
                }
            },
        }
        k += 1;
    }
    proof {
        lemma_collect_ok(named);
        lemma_record_view(out);
        assert(fields_view(out) =~= Seq::new(named.len(), |i: int| named[i]->Ok_0));
    }
    Ok(Val::Record(out))
}

impl<'a> DeserializeVal<'a> {
    /// The error of a token that the type does not accept.
    fn mismatch(&self, found: TokenKind) -> (e: DecodeError)
        ensures
            e@ == (DecodeErrorView::ShapeMismatch { expected: self.0@.kind(), found }),
    {
        DecodeError::ShapeMismatch { expected: self.0.kind(), found }
    }

    /// A truth value: the value of a `Bool`.
    pub fn visit_bool(&self, v: bool) -> (r: Result<Val, DecodeError>)
        ensures
            decoded_view(r) == visit(self.0@, DocumentView::Bool(v)),
    {
        match self.0 {
            Type::Bool => Ok(Val::Bool(v)),
            _ => Err(self.mismatch(TokenKind::Bool)),
        }
    }

    /// A signed number: the value of an integer type that it fits.
    pub fn visit_i64(&self, v: i64) -> (r: Result<Val, DecodeError>)
        ensures
            decoded_view(r) == visit(self.0@, DocumentView::Signed(v)),
    {
        match self.0 {
            Type::S8 | Type::U8 | Type::S16 | Type::U16 | Type::S32 | Type::U32 | Type::S64
            | Type::U64 => match checked_integer(self.0.kind(), v as i128) {
                Some(val) => Ok(val),
                None => Err(
                    DecodeError::RangeError { expected: self.0.kind(), value: Number::Signed(v) },
                ),
            },
            _ => Err(self.mismatch(TokenKind::Signed)),
        }
    }

    /// An unsigned number: the value of an integer type that it fits.
    pub fn visit_u64(&self, v: u64) -> (r: Result<Val, DecodeError>)
        ensures
            decoded_view(r) == visit(self.0@, DocumentView::Unsigned(v)),
    {
        match self.0 {
            Type::S8 | Type::U8 | Type::S16 | Type::U16 | Type::S32 | Type::U32 | Type::S64
            | Type::U64 => match checked_integer(self.0.kind(), v as i128) {
                Some(val) => Ok(val),
                None => Err(
                    DecodeError::RangeError { expected: self.0.kind(), value: Number::Unsigned(v) },
                ),
            },
            _ => Err(self.mismatch(TokenKind::Unsigned)),
        }
    }

    /// A single-precision number, by its bits: itself as a `Float32`,
    /// widened as a `Float64`.
    pub fn visit_f32(&self, bits: u32) -> (r: Result<Val, DecodeError>)
        ensures
            decoded_view(r) == visit(self.0@, DocumentView::Float32(bits)),
    {
        match self.0 {
            Type::Float32 => Ok(Val::Float32(canonicalize32(bits))),
            Type::Float64 => Ok(Val::Float64(widen_bits(bits))),
            _ => Err(self.mismatch(TokenKind::Float32)),
        }
    }

    /// A double-precision number, by its bits: itself as a `Float64`,
    /// rounded to the nearest as a `Float32`.
    pub fn visit_f64(&self, bits: u64) -> (r: Result<Val, DecodeError>)
        ensures
            decoded_view(r) == visit(self.0@, DocumentView::Float64(bits)),
    {
        match self.0 {
            Type::Float32 => Ok(Val::Float32(narrow_bits(bits))),
            Type::Float64 => Ok(Val::Float64(canonicalize64(bits))),
            _ => Err(self.mismatch(TokenKind::Float64)),
        }
    }

    /// A character: the value of a `Char`.
    pub fn visit_char(&self, v: char) -> (r: Result<Val, DecodeError>)
        ensures
            decoded_view(r) == visit(self.0@, DocumentView::Char(v)),
    {
        match self.0 {
            Type::Char => Ok(Val::Char(v)),
            _ => Err(self.mismatch(TokenKind::Char)),
        }
    }

    /// Text: a decimal literal for an integer type, a reserved name for a
    /// floating-point type, itself for a `String`, its one character for a
    /// `Char`, a case name for an enum.
    pub fn visit_str(&self, v: &str) -> (r: Result<Val, DecodeError>)
        ensures
            decoded_view(r) == visit(self.0@, DocumentView::String(v@)),
    {
        match self.0 {
            Type::S8 | Type::U8 | Type::S16 | Type::U16 | Type::S32 | Type::U32 | Type::S64
            | Type::U64 => checked_integer_text(self.0.kind(), v),
            Type::Float32 => {
                if same_text(v, "NaN") {
                    Ok(Val::Float32(NAN32))
                } else if same_text(v, "Infinity") {
                    Ok(Val::Float32(INFINITY32))
                } else if same_text(v, "-Infinity") {
                    Ok(Val::Float32(NEG_INFINITY32))
                } else {
                    Err(self.mismatch(TokenKind::String))
                }
            },
            Type::Float64 => {
                if same_text(v, "NaN") {
                    Ok(Val::Float64(NAN64))
                } else if same_text(v, "Infinity") {
                    Ok(Val::Float64(INFINITY64))
                } else if same_text(v, "-Infinity") {
                    Ok(Val::Float64(NEG_INFINITY64))
                } else {
                    Err(self.mismatch(TokenKind::String))
                }
            },
            Type::String => Ok(Val::String(v.to_owned())),
            Type::Char => {
                if v.unicode_len() == 1 {
                    Ok(Val::Char(v.get_char(0)))
                } else {
                    Err(DecodeError::InvalidChar(v.to_owned()))
                }
            },
            Type::Enum(cases) => {
                if contains_name(cases, v) {
                    Ok(Val::Enum(v.to_owned()))
                } else {
                    Err(DecodeError::UnknownCase(v.to_owned()))
                }
            },
            _ => Err(self.mismatch(TokenKind::String)),
        }
    }

    /// Owned text: as `visit_str`, but a `String` takes the text as it is.
    pub fn visit_string(&self, v: String) -> (r: Result<Val, DecodeError>)
        ensures
            decoded_view(r) == visit(self.0@, DocumentView::String(v@)),
    {
        match self.0 {
            Type::String => Ok(Val::String(v)),
            _ => self.visit_str(v.as_str()),
        }
    }

    /// A byte string: the value of a list of `U8`.
    pub fn visit_bytes(&self, v: &[u8]) -> (r: Result<Val, DecodeError>)
        ensures
            decoded_view(r) == visit(self.0@, DocumentView::Bytes(v@)),
    {
        match self.0 {
            Type::List(t) => match **t {
                Type::U8 => {
                    assert((**t)@ is U8);
                    let mut vals: Vec<Val> = Vec::new();
                    let mut i: usize = 0;
                    while i < v.len()
                        invariant
                            i <= v.len(),
                            vals.len() == i,
                            forall|j: int| 0 <= j < i ==> vals[j]@ == ValView::U8(v@[j]),
                        decreases v.len() - i,
                    {
                        vals.push(Val::U8(v[i]));
                        i += 1;
                    }
                    proof {
                        lemma_list_view(vals);
                        assert(vals_view(vals) =~= byte_vals(v@));
                    }
                    Ok(Val::List(vals))
                },
                _ => {
                    assert(!((**t)@ is U8));
                    Err(self.mismatch(TokenKind::Bytes))
                },
            },
            _ => Err(self.mismatch(TokenKind::Bytes)),
        }
    }

    /// The unit: the absent value of an option.
    pub fn visit_unit(&self) -> (r: Result<Val, DecodeError>)
        ensures
            decoded_view(r) == visit(self.0@, DocumentView::Null),
    {
        match self.0 {
            Type::Option(_) => Ok(Val::Option(None)),
            _ => Err(self.mismatch(TokenKind::Null)),
        }
    }

    /// The absent marker: the absent value of an option.
    pub fn visit_none(&self) -> (r: Result<Val, DecodeError>)
        ensures
            decoded_view(r) == visit(self.0@, DocumentView::Absent),
    {
        match self.0 {
            Type::Option(_) => Ok(Val::Option(None)),
            _ => Err(self.mismatch(TokenKind::Absent)),
        }
    }

    /// What the type asks the document for.
    pub fn hint(&self) -> (h: Hint)
        ensures
            h == hint_of(self.0@),
    {
        match self.0 {
            Type::Bool => Hint::Bool,
            Type::Char => Hint::Char,
            Type::String => Hint::String,
            Type::List(_) => Hint::Sequence,
            Type::Record(_) => Hint::Entries,
            Type::Tuple(types) => {
                proof {
                    lemma_tuple_type_view(*types);
                }
                Hint::Tuple(types.len())
            },
            Type::Variant(_) => Hint::Entries,
            Type::Enum(_) => Hint::Name,
            Type::Option(t) => match **t {
                Type::Option(_) => {
                    assert((**t)@ is Option);
                    Hint::Any
                },
                _ => {
                    assert(!((**t)@ is Option));
                    Hint::Option
                },
            },
            Type::Result(_, _) => Hint::Entries,
            Type::Flags(_) => Hint::Sequence,
            _ => Hint::Any,
        }
    }

    /// How the element at `index` of a sequence document is asked for.
    pub fn element(&self, index: usize) -> (c: Child<'a>)
        ensures
            c@ == element_child(self.0@, index as nat),
    {
        match self.0 {
            Type::List(t) => Child::Typed(&**t),
            Type::Tuple(types) => {
                proof {
                    lemma_tuple_type_view(*types);
                }
                if index < types.len() {
                    Child::Typed(&types[index])
                } else {
                    Child::Any
                }
            },
            Type::Flags(_) => Child::Text,
            _ => Child::Any,
        }
    }

    /// How what stands under `key` in a keyed document is asked for.
    pub fn entry(&self, key: &str) -> (c: Child<'a>)
        ensures
            c@ == entry_child(self.0@, key@),
    {
        match self.0 {
            Type::Record(fields) => {
                proof {
                    lemma_record_type_view(*fields);
                }
                match find_field(fields, key) {
                    Some(k) => Child::Typed(&fields[k].1),
                    None => Child::Any,
                }
            },
            Type::Variant(cases) => {
                proof {
                    lemma_variant_type_view(*cases);
                }
                match find_case(cases, key) {
                    Some(k) => match &cases[k].1 {
                        Some(t) => Child::Typed(t),
                        None => Child::Unit,
                    },
                    None => Child::Any,
                }
            },
            Type::Option(t) => if same_text(key, "value") {
                Child::Typed(&**t)
            } else {
                Child::Any
            },
            Type::Result(ok, err) => if same_text(key, "result") {
                match ok {
                    Some(t) => Child::Typed(&**t),
                    None => Child::Unit,
                }
            } else if same_text(key, "error") {
                match err {
                    Some(t) => Child::Typed(&**t),
                    None => Child::Unit,
                }
            } else {
                Child::Any
            },
            _ => Child::Any,
        }
    }

    /// How what a present option holds is asked for.
    pub fn present(&self) -> (c: Child<'a>)
        ensures
            c@ == present_child(self.0@),
    {
        match self.0 {
            Type::Option(t) => match **t {
                Type::Option(_) => {
                    assert((**t)@ is Option);
                    Child::Hinted(&**t, Hint::Entries)
                },
                _ => {
                    assert(!((**t)@ is Option));
                    Child::Hinted(&**t, Hint::Any)
                },
            },
            _ => Child::Any,
        }
    }

    /// Decodes `doc` as a value of the type.
    #[verifier::rlimit(50)]
    pub fn deserialize(&self, doc: &Document) -> (r: Result<Val, DecodeError>)
        ensures
            decoded_view(r) == decode(self.0@, doc@),
        decreases *self.0, 3nat,
    {
        let hint = self.hint();
        let found = doc.kind();
        let admitted = match hint {
            Hint::Bool => found == TokenKind::Bool,
            Hint::Char | Hint::String | Hint::Name => found == TokenKind::String || found
                == TokenKind::Char,
            Hint::Sequence | Hint::Tuple(_) => found == TokenKind::List || found
                == TokenKind::Bytes,
            Hint::Entries => found == TokenKind::Entries,
            Hint::Option | Hint::Any => true,
        };
        assert(admitted == admits(hint, found));
        if !admitted {
            Err(self.mismatch(found))
        } else {
            match hint {
                Hint::Option => match doc {
                    Document::Null => self.visit_unit(),
                    Document::Absent => self.visit_none(),
                    Document::Present(d) => self.visit_some(&**d),
                    _ => self.visit_some(doc),
                },
                _ => self.deserialize_any(doc),
            }
        }
    }

    /// Decodes `doc` by what it holds: each token goes to the method that
    /// takes it.
    pub fn deserialize_any(&self, doc: &Document) -> (r: Result<Val, DecodeError>)
        ensures
            decoded_view(r) == visit(self.0@, doc@),
        decreases *self.0, 2nat,
    {
        match doc {
            Document::Null => self.visit_unit(),
            Document::Absent => self.visit_none(),
            Document::Present(d) => self.visit_some(&**d),
            Document::Bool(v) => self.visit_bool(*v),
            Document::Signed(v) => self.visit_i64(*v),
            Document::Unsigned(v) => self.visit_u64(*v),
            Document::Float32(bits) => self.visit_f32(*bits),
            Document::Float64(bits) => self.visit_f64(*bits),
            Document::Char(c) => self.visit_char(*c),
            Document::String(s) => self.visit_str(s.as_str()),
            Document::Bytes(bytes) => self.visit_bytes(bytes.as_slice()),
            Document::List(items) => {
                proof {
                    crate::document::lemma_list_view(*items);
                }
                self.visit_seq(items)
            },
            Document::Entries(entries) => {
                proof {
                    crate::document::lemma_entries_view(*entries);
                }
                self.visit_map(entries)
            },
        }
    }

    /// A present document: the present value of an option, decoded against
    /// the inner type.
    #[verifier::rlimit(50)]
    pub fn visit_some(&self, doc: &Document) -> (r: Result<Val, DecodeError>)
        ensures
            decoded_view(r) == visit_present(self.0@, doc@),
        decreases *self.0, 1nat,
    {
        match self.0 {
            Type::Option(t) => {
                let inner = DeserializeVal(&**t);
                let decoded = match **t {
                    Type::Option(_) => {
                        assert((**t)@ is Option);
                        match doc {
                            Document::Entries(entries) => {
                                proof {
                                    crate::document::lemma_entries_view(*entries);
                                }
                                inner.visit_map(entries)
                            },
                            _ => Err(inner.mismatch(doc.kind())),
                        }
                    },
                    _ => {
                        assert(!((**t)@ is Option));
                        inner.deserialize_any(doc)
                    },
                };
                match decoded {
                    Ok(v) => Ok(Val::Option(Some(Box::new(v)))),
                    Err(e) => Err(e),
                }
            },
            _ => Err(self.mismatch(TokenKind::Present)),
        }
    }

    /// A sequence: the elements of a list, of a tuple, or the names of
    /// flags.
    #[verifier::rlimit(50)]
    pub fn visit_seq(&self, items: &Vec<Document>) -> (r: Result<Val, DecodeError>)
        ensures
            decoded_view(r) == visit(self.0@, DocumentView::List(documents_view(*items))),
        decreases *self.0, 1nat,
    {
        let ghost docs = documents_view(*items);
        match self.0 {
            Type::List(t) => {
                let element = DeserializeVal(&**t);
                let ghost decoded = element_results((**t)@, docs);
                let mut vals: Vec<Val> = Vec::new();
                let mut i: usize = 0;
                while i < items.len()
                    invariant
                        i <= items.len(),
                        vals.len() == i,
                        element.0 == &**t,
                        *self.0 == Type::List(*t),
                        docs == documents_view(*items),
                        decoded == element_results((**t)@, docs),
                        forall|j: int|
                            0 <= j < i ==> (#[trigger] decoded[j]) == Ok::<
                                ValView,
                                DecodeErrorView,
                            >(vals[j]@),
                    decreases items.len() - i,
                {
                    match element.deserialize(&items[i]) {
                        Ok(v) => vals.push(v),
                        Err(e) => {
                            proof {
                                lemma_collect_err(decoded, i as int);
                            }
                            return Err(e);
                        },
                    }
                    i += 1;
                }
                proof {
                    lemma_collect_ok(decoded);
                    lemma_list_view(vals);
                    assert(vals_view(vals) =~= Seq::new(decoded.len(), |i: int| decoded[i]->Ok_0));
                }
                Ok(Val::List(vals))
            },
            Type::Tuple(types) => {
                let ghost tys = tuple_types_view(*types);
                proof {
                    lemma_tuple_type_view(*types);
                }
                let n = if types.len() <= items.len() {
                    types.len()
                } else {
                    items.len()
                };
                let ghost decoded = tuple_results(tys, docs);
                let mut vals: Vec<Val> = Vec::new();
                let mut i: usize = 0;
                while i < n
                    invariant
                        i <= n,
                        n <= types.len(),
                        n <= items.len(),
                        vals.len() == i,
                        *self.0 == Type::Tuple(*types),
                        self.0@ == TypeView::Tuple(tys),
                        docs == documents_view(*items),
                        tys == tuple_types_view(*types),
                        decoded == tuple_results(tys, docs),
                        decoded.len() == n,
                        forall|j: int|
                            0 <= j < i ==> (#[trigger] decoded[j]) == Ok::<
                                ValView,
                                DecodeErrorView,
                            >(vals[j]@),
                    decreases n - i,
                {
                    match DeserializeVal(&types[i]).deserialize(&items[i]) {
                        Ok(v) => vals.push(v),
                        Err(e) => {
                            proof {
                                lemma_collect_err(decoded, i as int);
                            }
                            return Err(e);
                        },
                    }
                    i += 1;
                }
                proof {
                    lemma_collect_ok(decoded);
                    lemma_tuple_view(vals);
                    assert(vals_view(vals) =~= Seq::new(decoded.len(), |i: int| decoded[i]->Ok_0));
                }
                if types.len() == items.len() {
                    Ok(Val::Tuple(vals))
                } else {
                    Err(DecodeError::ArityError { arity: types.len(), count: items.len() })
                }
            },
            Type::Flags(names) => {
                let ghost given = flag_names(docs);
                let mut texts: Vec<String> = Vec::new();
                let mut i: usize = 0;
                while i < items.len()
                    invariant
                        i <= items.len(),
                        texts.len() == i,
                        self.0@ == TypeView::Flags(names_view(*names)),
                        docs == documents_view(*items),
                        given == flag_names(docs),
                        forall|j: int|
                            0 <= j < i ==> (#[trigger] given[j]) == Ok::<
                                Seq<char>,
                                DecodeErrorView,
                            >(texts[j]@),
                    decreases items.len() - i,
                {
                    match &items[i] {
                        Document::String(s) => texts.push(s.clone()),
                        other => {
                            proof {
                                lemma_collect_err(given, i as int);
                            }
                            return Err(
                                DecodeError::ShapeMismatch {
                                    expected: Kind::String,
                                    found: other.kind(),
                                },
                            );
                        },
                    }
                    i += 1;
                }
                proof {
                    lemma_collect_ok(given);
                    assert(names_view(texts) =~= Seq::new(given.len(), |i: int| given[i]->Ok_0));
                }
                new_flags(names, &texts)
            },
            _ => Err(self.mismatch(TokenKind::List)),
        }
    }

    /// Keyed entries: the fields of a record, or the one entry that frames
    /// a case of a variant, of a result, or a present option.
    #[verifier::rlimit(50)]
    pub fn visit_map(&self, entries: &Vec<(String, Document)>) -> (r: Result<Val, DecodeError>)
        ensures
            decoded_view(r) == visit(self.0@, DocumentView::Entries(entries_view(*entries))),
        decreases *self.0, 1nat,
    {
        match self.0 {
            Type::Record(fields) => {
                proof {
                    lemma_record_type_view(*fields);
                }
                decode_record(fields, entries)
            },
            Type::Variant(cases) => {
                proof {
                    lemma_variant_type_view(*cases);
                }
                match single_entry_map(entries) {
                    Err(e) => Err(e),
                    Ok((name, value)) => match find_case(cases, name.as_str()) {
                        None => Err(DecodeError::UnknownCase(name.clone())),
                        Some(k) => {
                            let ty: Option<&Type> = match &cases[k].1 {
                                Some(t) => Some(t),
                                None => None,
                            };
                            match next_value_maybe(ty, value) {
                                Err(e) => Err(e),
                                Ok(p) => Ok(Val::Variant(name.clone(), p)),
                            }
                        },
                    },
                }
            },
            Type::Option(t) => match single_entry_map(entries) {
                Err(e) => Err(e),
                Ok((name, value)) => if same_text(name.as_str(), "value") {
                    match DeserializeVal(&**t).deserialize(value) {
                        Ok(v) => Ok(Val::Option(Some(Box::new(v)))),
                        Err(e) => Err(e),
                    }
                } else {
                    Err(DecodeError::UnknownField(name.clone()))
                },
            },
            Type::Result(ok, err) => match single_entry_map(entries) {
                Err(e) => Err(e),
                Ok((name, value)) => if same_text(name.as_str(), "result") {
                    let ty: Option<&Type> = match ok {
                        Some(t) => Some(&**t),
                        None => None,
                    };
                    match next_value_maybe(ty, value) {
                        Err(e) => Err(e),
                        Ok(p) => Ok(Val::Result(Ok(p))),
                    }
                } else if same_text(name.as_str(), "error") {
                    let ty: Option<&Type> = match err {
                        Some(t) => Some(&**t),
                        None => None,
                    };
                    match next_value_maybe(ty, value) {
                        Err(e) => Err(e),
                        Ok(p) => Ok(Val::Result(Err(p))),
                    }
                } else {
                    Err(DecodeError::UnknownCase(name.clone()))
                },
            },
            _ => Err(self.mismatch(TokenKind::Entries)),
        }
    }
}

} // verus!
