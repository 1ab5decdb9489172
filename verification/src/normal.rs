//! The normal form of a document: what is written when the document is
//! read and the value is written again.
//!
//! A plain document gives its numbers as native tokens and its flags in
//! declaration order. Its normal form is the document with the entries of
//! every record put in the declared order of the fields, without the
//! entries that give an option as absent, and with each token as the
//! encoder writes it: a number in the sign and width of its type, a
//! character as a character, an option by its marker.

use vstd::prelude::*;
use crate::decode::{
    among, checked_entries, decode, element_results, entry_results, flag_names, framed, keys,
    known_flags, named_fields, probe_option, targets, tuple_results,
};
use crate::document::DocumentView;
use crate::encode::{
    encode, encoded, encoded_fields, is_absent, name_documents, present, present_entries,
};
use crate::error::{DecodeErrorView, EncodeError};
use crate::encode::{encode_float32, encode_float64};
use crate::float::{canonical32, canonical64, narrow, widen};
use crate::laws::lemma_decode_typed;
use crate::sequence::{collect, lemma_collect, lemma_collect_ok, lemma_position, position};
use crate::types::{case_names, field_names, TypeView};
use crate::val::ValView;

verus! {

/// Whether a document gives an option as absent: it is the unit or the
/// absent marker.
pub open spec fn absent_doc(doc: DocumentView) -> bool {
    doc is Null || doc is Absent
}

/// The names that the text items of a sequence hold.
pub open spec fn texts(items: Seq<DocumentView>) -> Seq<Seq<char>> {
    Seq::new(items.len(), |i: int| items[i]->String_0)
}

/// Whether `doc` gives a value of type `ty` with its numbers as native
/// tokens, or by a reserved name where they are not finite, and with its
/// flags in declaration order, each once. The entries of a record may come
/// in any order and may give an option as absent; an option that holds no
/// option may come with its marker or without.
pub open spec fn plain(ty: TypeView, doc: DocumentView) -> bool
    decreases ty,
{
    match ty {
        TypeView::Bool => doc is Bool,
        TypeView::S8 | TypeView::S16 | TypeView::S32 | TypeView::S64 | TypeView::U8
        | TypeView::U16 | TypeView::U32 | TypeView::U64 => doc is Signed || doc is Unsigned,
        TypeView::Float32 | TypeView::Float64 => doc is Float32 || doc is Float64
            || doc is String,
        TypeView::Char => doc is Char || doc is String,
        TypeView::String => doc is String,
        TypeView::Enum(_) => doc is String,
        TypeView::List(t) => match doc {
            DocumentView::List(items) => forall|i: int|
                0 <= i < items.len() ==> plain(*t, #[trigger] items[i]),
            _ => false,
        },
        TypeView::Tuple(types) => match doc {
            DocumentView::List(items) => forall|i: int|
                0 <= i < items.len() && i < types.len() ==> plain(types[i], #[trigger] items[i]),
            _ => false,
        },
        TypeView::Flags(declared) => match doc {
            DocumentView::List(items) => texts(items) == declared.filter(among(texts(items))),
            _ => false,
        },
        TypeView::Record(fields) => match doc {
            DocumentView::Entries(entries) => forall|i: int|
                0 <= i < entries.len() ==> match position(
                    field_names(fields),
                    (#[trigger] entries[i]).0,
                ) {
                    Some(k) => 0 <= k < fields.len() ==> plain(fields[k].1, entries[i].1),
                    None => true,
                },
            _ => false,
        },
        TypeView::Variant(cases) => match doc {
            DocumentView::Entries(entries) => entries.len() == 1 ==> match position(
                case_names(cases),
                entries[0].0,
            ) {
                Some(k) => 0 <= k < cases.len() ==> match cases[k].1 {
                    Some(t) => plain(t, entries[0].1),
                    None => true,
                },
                None => true,
            },
            _ => false,
        },
        TypeView::Option(t) => if *t is Option {
            match doc {
                DocumentView::Null | DocumentView::Absent => true,
                DocumentView::Entries(entries) => entries.len() == 1 ==> plain(*t, entries[0].1),
                _ => false,
            }
        } else {
            match doc {
                DocumentView::Null | DocumentView::Absent => true,
                DocumentView::Present(d) => plain(*t, *d),
                _ => plain(*t, doc),
            }
        },
        TypeView::Result(ok, err) => match doc {
            DocumentView::Entries(entries) => entries.len() == 1 ==> {
                &&& entries[0].0 == "result"@ ==> match ok {
                    Some(t) => plain(*t, entries[0].1),
                    None => true,
                }
                &&& entries[0].0 == "error"@ ==> match err {
                    Some(t) => plain(*t, entries[0].1),
                    None => true,
                }
            },
            _ => false,
        },
        TypeView::Resource => false,
    }
}

/// The indices of the first `n` fields that an entry gives as other than
/// absent, in declaration order.
pub open spec fn kept(
    n: nat,
    targets: Seq<Option<int>>,
    entries: Seq<(Seq<char>, DocumentView)>,
) -> Seq<int>
    decreases n,
{
    if n == 0 {
        Seq::empty()
    } else {
        let rest = kept((n - 1) as nat, targets, entries);
        match position(targets, Some(n - 1)) {
            Some(i) => if absent_doc(entries[i].1) {
                rest
            } else {
                rest.push(n - 1)
            },
            None => rest,
        }
    }
}

/// The normal form of a document against a type: the document with the
/// entries of every record in the declared order of the fields and without
/// the entries that give an option as absent, and with each token as the
/// encoder writes it.
pub open spec fn arrange(ty: TypeView, doc: DocumentView) -> DocumentView
    decreases ty, 0nat,
{
    match ty {
        TypeView::S8 | TypeView::S16 | TypeView::S32 | TypeView::S64 => match doc {
            DocumentView::Unsigned(v) => DocumentView::Signed(v as i64),
            _ => doc,
        },
        TypeView::U8 | TypeView::U16 | TypeView::U32 | TypeView::U64 => match doc {
            DocumentView::Signed(v) => DocumentView::Unsigned(v as u64),
            _ => doc,
        },
        TypeView::Float32 => match doc {
            DocumentView::Float32(bits) => encode_float32(canonical32(bits)),
            DocumentView::Float64(bits) => encode_float32(narrow(bits)),
            _ => doc,
        },
        TypeView::Float64 => match doc {
            DocumentView::Float32(bits) => encode_float64(widen(bits)),
            DocumentView::Float64(bits) => encode_float64(canonical64(bits)),
            _ => doc,
        },
        TypeView::Char => match doc {
            DocumentView::String(s) => if s.len() == 1 {
                DocumentView::Char(s[0])
            } else {
                doc
            },
            _ => doc,
        },
        TypeView::List(t) => match doc {
            DocumentView::List(items) => DocumentView::List(arrange_each(*t, items)),
            _ => doc,
        },
        TypeView::Tuple(types) => match doc {
            DocumentView::List(items) => DocumentView::List(arrange_tuple(types, items)),
            _ => doc,
        },
        TypeView::Record(fields) => match doc {
            DocumentView::Entries(entries) => DocumentView::Entries(
                arrange_entries(fields, entries),
            ),
            _ => doc,
        },
        TypeView::Variant(cases) => match doc {
            DocumentView::Entries(entries) => if entries.len() == 1 {
                match position(case_names(cases), entries[0].0) {
                    Some(k) => if 0 <= k < cases.len() {
                        match cases[k].1 {
                            Some(t) => DocumentView::Entries(
                                seq![(entries[0].0, arrange(t, entries[0].1))],
                            ),
                            None => doc,
                        }
                    } else {
                        doc
                    },
                    None => doc,
                }
            } else {
                doc
            },
            _ => doc,
        },
        TypeView::Option(t) => if *t is Option {
            match doc {
                DocumentView::Null => DocumentView::Absent,
                DocumentView::Entries(entries) => if entries.len() == 1 {
                    DocumentView::Entries(seq![(entries[0].0, arrange(*t, entries[0].1))])
                } else {
                    doc
                },
                _ => doc,
            }
        } else {
            match doc {
                DocumentView::Null | DocumentView::Absent => DocumentView::Absent,
                DocumentView::Present(d) => DocumentView::Present(Box::new(arrange(*t, *d))),
                _ => DocumentView::Present(Box::new(arrange(*t, doc))),
            }
        },
        TypeView::Result(ok, err) => match doc {
            DocumentView::Entries(entries) => if entries.len() == 1 {
                if entries[0].0 == "result"@ {
                    match ok {
                        Some(t) => DocumentView::Entries(
                            seq![(entries[0].0, arrange(*t, entries[0].1))],
                        ),
                        None => doc,
                    }
                } else if entries[0].0 == "error"@ {
                    match err {
                        Some(t) => DocumentView::Entries(
                            seq![(entries[0].0, arrange(*t, entries[0].1))],
                        ),
                        None => doc,
                    }
                } else {
                    doc
                }
            } else {
                doc
            },
            _ => doc,
        },
        _ => doc,
    }
}

/// The normal forms of the elements of a list document.
pub open spec fn arrange_each(t: TypeView, items: Seq<DocumentView>) -> Seq<DocumentView>
    decreases t, 1nat,
{
    Seq::new(items.len(), |i: int| arrange(t, items[i]))
}

/// The normal forms of the elements of a tuple document.
pub open spec fn arrange_tuple(types: Seq<TypeView>, items: Seq<DocumentView>) -> Seq<
    DocumentView,
>
    decreases types, 1nat,
{
    Seq::new(
        items.len(),
        |i: int|
            if 0 <= i < types.len() {
                arrange(types[i], items[i])
            } else {
                items[i]
            },
    )
}

/// The entries of a record document in normal form: for each field that an
/// entry gives as other than absent, in declaration order, the field's name
/// with the normal form of what the entry holds.
pub open spec fn arrange_entries(
    fields: Seq<(Seq<char>, TypeView)>,
    entries: Seq<(Seq<char>, DocumentView)>,
) -> Seq<(Seq<char>, DocumentView)>
    decreases fields, 1nat,
{
    let ts = targets(fields, keys(entries));
    let ks = kept(fields.len(), ts, entries);
    Seq::new(
        ks.len(),
        |j: int|
            if 0 <= ks[j] < fields.len() {
                (
                    fields[ks[j]].0,
                    arrange(fields[ks[j]].1, entries[position(ts, Some(ks[j]))->Some_0].1),
                )
            } else {
                arbitrary()
            },
    )
}

/// Whether reading `doc` against `ty` and writing the value gives the
/// normal form of `doc`, where `doc` is plain and decodes.
pub open spec fn normalises(ty: TypeView, doc: DocumentView) -> bool {
    plain(ty, doc) && decode(ty, doc) is Ok ==> encode(decode(ty, doc)->Ok_0) == Ok::<
        DocumentView,
        EncodeError,
    >(arrange(ty, doc))
}

/// A plain document that decodes gives the absent option exactly where it
/// is the unit or the absent marker.
proof fn lemma_absent_iff(ty: TypeView, doc: DocumentView)
    requires
        decode(ty, doc) is Ok,
        plain(ty, doc),
    ensures
        is_absent(decode(ty, doc)->Ok_0) <==> absent_doc(doc),
{
    lemma_decode_typed(ty, doc);
    match ty {
        TypeView::Option(t) => {
            if *t is Option {
                assert(decode(ty, doc) == probe_option(ty, doc));
                match doc {
                    DocumentView::Entries(entries) => {
                        assert(probe_option(ty, doc) == framed(*t, entries));
                    },
                    _ => {},
                }
            }
        },
        _ => {},
    }
}

/// The fields of a decoded record that are written are the fields that an
/// entry gives as other than absent.
proof fn lemma_kept(
    out: Seq<(Seq<char>, ValView)>,
    targets: Seq<Option<int>>,
    entries: Seq<(Seq<char>, DocumentView)>,
    n: nat,
)
    requires
        n <= out.len(),
        forall|k: int|
            0 <= k < out.len() ==> (!is_absent((#[trigger] out[k]).1) <==> match position(
                targets,
                Some(k),
            ) {
                Some(i) => !absent_doc(entries[i].1),
                None => false,
            }),
    ensures
        present(out.take(n as int)) == kept(n, targets, entries),
    decreases n,
{
    if n == 0 {
        assert(out.take(0) =~= Seq::empty());
    } else {
        lemma_kept(out, targets, entries, (n - 1) as nat);
        assert(out.take(n as int).drop_last() =~= out.take(n - 1));
        assert(out.take(n as int).last() == out[n - 1]);
    }
}

/// A record document that is plain and decodes is written again in normal
/// form, where what its entries hold is.
#[verifier::rlimit(50)]
proof fn lemma_normal_record(
    fields: Seq<(Seq<char>, TypeView)>,
    entries: Seq<(Seq<char>, DocumentView)>,
)
    requires
        plain(TypeView::Record(fields), DocumentView::Entries(entries)),
        decode(TypeView::Record(fields), DocumentView::Entries(entries)) is Ok,
        forall|k: int, i: int|
            0 <= k < fields.len() && 0 <= i < entries.len() ==> normalises(
                (#[trigger] fields[k]).1,
                (#[trigger] entries[i]).1,
            ),
    ensures
        normalises(TypeView::Record(fields), DocumentView::Entries(entries)),
{
    let names = field_names(fields);
    let ks = keys(entries);
    let ts = targets(fields, ks);
    let decoded = entry_results(fields, entries);
    let checked = checked_entries(ts, ks, decoded);
    lemma_collect(checked);
    let vals = collect(checked)->Ok_0;
    let named = named_fields(fields, ts, vals);
    lemma_collect(named);
    let out = collect(named)->Ok_0;
    lemma_decode_typed(TypeView::Record(fields), DocumentView::Entries(entries));

    // What each entry gives: the value of its field, read from a plain
    // document or from the unit.
    assert forall|i: int| 0 <= i < entries.len() implies match #[trigger] ts[i] {
        Some(k) => 0 <= k < fields.len() && decode(fields[k].1, entries[i].1) == Ok::<
            ValView,
            DecodeErrorView,
        >(vals[i]) && plain(fields[k].1, entries[i].1),
        None => false,
    } by {
        assert(checked[i] == Ok::<ValView, DecodeErrorView>(vals[i]));
        lemma_position(names, entries[i].0);
        assert(ks[i] == entries[i].0);
    }

    let rs = encoded_fields(out);
    lemma_collect(rs);
    let docs = collect(rs)->Ok_0;

    assert forall|k: int| 0 <= k < out.len() implies (!is_absent((#[trigger] out[k]).1)
        <==> match position(ts, Some(k)) {
        Some(i) => !absent_doc(entries[i].1),
        None => false,
    }) by {
        assert(named[k] == Ok::<(Seq<char>, ValView), DecodeErrorView>(out[k]));
        lemma_position(ts, Some(k));
        match position(ts, Some(k)) {
            Some(i) => {
                assert(ts[i] == Some(k));
                lemma_absent_iff(fields[k].1, entries[i].1);
            },
            None => {},
        }
    }
    lemma_kept(out, ts, entries, out.len());
    assert(out.take(out.len() as int) =~= out);

    let idx = present(out);
    let written = present_entries(out, docs);
    let normal = arrange_entries(fields, entries);
    assert(idx == kept(fields.len(), ts, entries));
    lemma_kept_bound(fields.len(), ts, entries);
    assert forall|j: int| 0 <= j < idx.len() implies #[trigger] written[j] == normal[j] by {
        let k = idx[j];
        assert(0 <= k < fields.len());
        assert(named[k] == Ok::<(Seq<char>, ValView), DecodeErrorView>(out[k]));
        lemma_position(ts, Some(k));
        let i = position(ts, Some(k))->Some_0;
        assert(ts[i] == Some(k));
        assert(rs[k] == Ok::<DocumentView, EncodeError>(docs[k]));
        assert(normalises(fields[k].1, entries[i].1));
    }
    assert(written =~= normal);
}

/// The kept indices are indices of fields that an entry gives as other than
/// absent.
proof fn lemma_kept_bound(
    n: nat,
    targets: Seq<Option<int>>,
    entries: Seq<(Seq<char>, DocumentView)>,
)
    ensures
        forall|j: int|
            0 <= j < kept(n, targets, entries).len() ==> {
                let k = #[trigger] kept(n, targets, entries)[j];
                &&& 0 <= k < n
                &&& position(targets, Some(k)) is Some
                &&& !absent_doc(entries[position(targets, Some(k))->Some_0].1)
            },
    decreases n,
{
    if n > 0 {
        let rest = kept((n - 1) as nat, targets, entries);
        lemma_kept_bound((n - 1) as nat, targets, entries);
        assert forall|j: int| 0 <= j < kept(n, targets, entries).len() implies {
            let k = #[trigger] kept(n, targets, entries)[j];
            &&& 0 <= k < n
            &&& position(targets, Some(k)) is Some
            &&& !absent_doc(entries[position(targets, Some(k))->Some_0].1)
        } by {
            if j < rest.len() {
                assert(kept(n, targets, entries)[j] == rest[j]);
            }
        }
    }
}

/// A list or tuple whose elements are each written in normal form is.
proof fn lemma_normal_elements(
    vals: Seq<ValView>,
    normal: Seq<DocumentView>,
)
    requires
        vals.len() == normal.len(),
        forall|i: int|
            0 <= i < vals.len() ==> encode(#[trigger] vals[i]) == Ok::<DocumentView, EncodeError>(
                normal[i],
            ),
    ensures
        collect(encoded(vals)) == Ok::<Seq<DocumentView>, EncodeError>(normal),
{
    let rs = encoded(vals);
    assert forall|i: int| 0 <= i < rs.len() implies (#[trigger] rs[i]) is Ok by {
        assert(encode(vals[i]) is Ok);
    }
    lemma_collect_ok(rs);
    assert(collect(rs)->Ok_0 =~= normal);
}

/// Flags that are given in declaration order, each once, are written as
/// they were given.
proof fn lemma_normal_flags(declared: Seq<Seq<char>>, items: Seq<DocumentView>)
    requires
        plain(TypeView::Flags(declared), DocumentView::List(items)),
        decode(TypeView::Flags(declared), DocumentView::List(items)) is Ok,
    ensures
        normalises(TypeView::Flags(declared), DocumentView::List(items)),
{
    let given = flag_names(items);
    lemma_collect(given);
    let names = collect(given)->Ok_0;
    assert forall|i: int| 0 <= i < items.len() implies #[trigger] items[i]
        == DocumentView::String(names[i]) by {
        assert(given[i] == Ok::<Seq<char>, DecodeErrorView>(names[i]));
    }
    assert(names =~= texts(items));
    assert(name_documents(names) =~= items);
    let known = known_flags(declared, names);
    lemma_collect(known);
}

/// An integer given as a native token is written in the sign of its type.
proof fn lemma_normal_integer(ty: TypeView, doc: DocumentView)
    requires
        ty is S8 || ty is U8 || ty is S16 || ty is U16 || ty is S32 || ty is U32 || ty is S64
            || ty is U64,
    ensures
        normalises(ty, doc),
{
}

/// A floating-point number given as a native token is written in the
/// width of its type, or by its reserved name where it is not finite
/// there; one given by its reserved name is written as given.
proof fn lemma_normal_float(ty: TypeView, doc: DocumentView)
    requires
        ty is Float32 || ty is Float64,
    ensures
        normalises(ty, doc),
{
    reveal_strlit("NaN");
    reveal_strlit("Infinity");
    reveal_strlit("-Infinity");
}

/// A truth value, text and the name of a case are written as given, and a
/// character as a character.
proof fn lemma_normal_simple(ty: TypeView, doc: DocumentView)
    requires
        ty is Bool || ty is Char || ty is String || ty is Enum,
    ensures
        normalises(ty, doc),
{
}

/// A framed case is written in normal form where its payload is.
proof fn lemma_normal_variant(
    cases: Seq<(Seq<char>, Option<TypeView>)>,
    entries: Seq<(Seq<char>, DocumentView)>,
)
    requires
        entries.len() == 1 ==> match position(case_names(cases), entries[0].0) {
            Some(k) => 0 <= k < cases.len() ==> match cases[k].1 {
                Some(t) => normalises(t, entries[0].1),
                None => true,
            },
            None => true,
        },
    ensures
        normalises(TypeView::Variant(cases), DocumentView::Entries(entries)),
{
    let ty = TypeView::Variant(cases);
    let doc = DocumentView::Entries(entries);
    if plain(ty, doc) && decode(ty, doc) is Ok {
        lemma_position(case_names(cases), entries[0].0);
        let k = position(case_names(cases), entries[0].0)->Some_0;
        match cases[k].1 {
            Some(t) => {
                assert(decode(t, entries[0].1) is Ok);
            },
            None => {
                assert(entries =~= seq![(entries[0].0, DocumentView::Null)]);
            },
        }
    }
}

/// An option is written in normal form where what it holds is.
proof fn lemma_normal_option(t: TypeView, doc: DocumentView)
    requires
        t is Option ==> match doc {
            DocumentView::Entries(entries) => entries.len() == 1 ==> normalises(t, entries[0].1),
            _ => true,
        },
        !(t is Option) ==> match doc {
            DocumentView::Present(d) => normalises(t, *d),
            _ => normalises(t, doc),
        },
    ensures
        normalises(TypeView::Option(Box::new(t)), doc),
{
    reveal_strlit("value");
    let ty = TypeView::Option(Box::new(t));
    if plain(ty, doc) && decode(ty, doc) is Ok {
        if t is Option {
            assert(decode(ty, doc) == probe_option(ty, doc));
            match doc {
                DocumentView::Entries(entries) => {
                    assert(probe_option(ty, doc) == framed(t, entries));
                    assert(decode(t, entries[0].1) is Ok);
                    lemma_decode_typed(t, entries[0].1);
                    assert(entries =~= seq![entries[0]]);
                },
                _ => {},
            }
        } else {
            match doc {
                DocumentView::Null | DocumentView::Absent => {},
                DocumentView::Present(d) => {
                    lemma_decode_typed(t, *d);
                },
                _ => {
                    lemma_decode_typed(t, doc);
                },
            }
        }
    }
}

/// A framed result is written in normal form where its payload is.
proof fn lemma_normal_result(
    ok: Option<Box<TypeView>>,
    err: Option<Box<TypeView>>,
    entries: Seq<(Seq<char>, DocumentView)>,
)
    requires
        entries.len() == 1 ==> {
            &&& entries[0].0 == "result"@ ==> match ok {
                Some(t) => normalises(*t, entries[0].1),
                None => true,
            }
            &&& entries[0].0 == "error"@ ==> match err {
                Some(t) => normalises(*t, entries[0].1),
                None => true,
            }
        },
    ensures
        normalises(TypeView::Result(ok, err), DocumentView::Entries(entries)),
{
    reveal_strlit("result");
    reveal_strlit("error");
    let ty = TypeView::Result(ok, err);
    let doc = DocumentView::Entries(entries);
    if plain(ty, doc) && decode(ty, doc) is Ok {
        assert(entries =~= seq![entries[0]]);
        if entries[0].0 == "result"@ {
            match ok {
                Some(t) => {
                    assert(decode(*t, entries[0].1) is Ok);
                },
                None => {},
            }
        } else {
            match err {
                Some(t) => {
                    assert(decode(*t, entries[0].1) is Ok);
                },
                None => {},
            }
        }
    }
}

/// A list is written in normal form where its elements are.
proof fn lemma_normal_list(t: TypeView, items: Seq<DocumentView>)
    requires
        forall|i: int| 0 <= i < items.len() ==> normalises(t, #[trigger] items[i]),
    ensures
        normalises(TypeView::List(Box::new(t)), DocumentView::List(items)),
{
    let ty = TypeView::List(Box::new(t));
    let doc = DocumentView::List(items);
    if plain(ty, doc) && decode(ty, doc) is Ok {
        let rs = element_results(t, items);
        lemma_collect(rs);
        let vals = collect(rs)->Ok_0;
        let normal = arrange_each(t, items);
        assert forall|i: int| 0 <= i < vals.len() implies encode(#[trigger] vals[i]) == Ok::<
            DocumentView,
            EncodeError,
        >(normal[i]) by {
            assert(rs[i] == Ok::<ValView, DecodeErrorView>(vals[i]));
            assert(plain(t, items[i]));
            assert(normalises(t, items[i]));
        }
        lemma_normal_elements(vals, normal);
    }
}

/// A tuple is written in normal form where its elements are.
proof fn lemma_normal_tuple(types: Seq<TypeView>, items: Seq<DocumentView>)
    requires
        forall|i: int|
            0 <= i < items.len() && i < types.len() ==> normalises(
                types[i],
                #[trigger] items[i],
            ),
    ensures
        normalises(TypeView::Tuple(types), DocumentView::List(items)),
{
    let ty = TypeView::Tuple(types);
    let doc = DocumentView::List(items);
    if plain(ty, doc) && decode(ty, doc) is Ok {
        let rs = tuple_results(types, items);
        lemma_collect(rs);
        let vals = collect(rs)->Ok_0;
        let normal = arrange_tuple(types, items);
        assert forall|i: int| 0 <= i < vals.len() implies encode(#[trigger] vals[i]) == Ok::<
            DocumentView,
            EncodeError,
        >(normal[i]) by {
            assert(rs[i] == Ok::<ValView, DecodeErrorView>(vals[i]));
            assert(plain(types[i], items[i]));
            assert(normalises(types[i], items[i]));
        }
        lemma_normal_elements(vals, normal);
    }
}

/// Reading a plain document and writing the value gives the normal form of
/// the document, for every type and every plain document that decodes.
#[verifier::rlimit(50)]
proof fn lemma_normalises(ty: TypeView, doc: DocumentView)
    ensures
        normalises(ty, doc),
    decreases ty,
{
    match ty {
        TypeView::S8 | TypeView::U8 | TypeView::S16 | TypeView::U16 | TypeView::S32
        | TypeView::U32 | TypeView::S64 | TypeView::U64 => {
            lemma_normal_integer(ty, doc);
        },
        TypeView::Float32 | TypeView::Float64 => {
            lemma_normal_float(ty, doc);
        },
        TypeView::Bool | TypeView::Char | TypeView::String | TypeView::Enum(_) => {
            lemma_normal_simple(ty, doc);
        },
        TypeView::List(t) => match doc {
            DocumentView::List(items) => {
                assert forall|i: int| 0 <= i < items.len() implies normalises(
                    *t,
                    #[trigger] items[i],
                ) by {
                    lemma_normalises(*t, items[i]);
                }
                lemma_normal_list(*t, items);
            },
            _ => {},
        },
        TypeView::Tuple(types) => match doc {
            DocumentView::List(items) => {
                assert forall|i: int| 0 <= i < items.len() && i < types.len() implies normalises(
                    types[i],
                    #[trigger] items[i],
                ) by {
                    lemma_normalises(types[i], items[i]);
                }
                lemma_normal_tuple(types, items);
            },
            _ => {},
        },
        TypeView::Flags(declared) => match doc {
            DocumentView::List(items) => {
                if plain(ty, doc) && decode(ty, doc) is Ok {
                    lemma_normal_flags(declared, items);
                }
            },
            _ => {},
        },
        TypeView::Record(fields) => match doc {
            DocumentView::Entries(entries) => {
                assert forall|k: int, i: int|
                    0 <= k < fields.len() && 0 <= i < entries.len() implies normalises(
                    (#[trigger] fields[k]).1,
                    (#[trigger] entries[i]).1,
                ) by {
                    lemma_normalises(fields[k].1, entries[i].1);
                }
                if plain(ty, doc) && decode(ty, doc) is Ok {
                    lemma_normal_record(fields, entries);
                }
            },
            _ => {},
        },
        TypeView::Variant(cases) => match doc {
            DocumentView::Entries(entries) => {
                if entries.len() == 1 {
                    match position(case_names(cases), entries[0].0) {
                        Some(k) => {
                            if 0 <= k < cases.len() {
                                match cases[k].1 {
                                    Some(t) => {
                                        lemma_normalises(t, entries[0].1);
                                    },
                                    None => {},
                                }
                            }
                        },
                        None => {},
                    }
                }
                lemma_normal_variant(cases, entries);
            },
            _ => {},
        },
        TypeView::Option(t) => {
            if *t is Option {
                match doc {
                    DocumentView::Entries(entries) => {
                        if entries.len() == 1 {
                            lemma_normalises(*t, entries[0].1);
                        }
                    },
                    _ => {},
                }
            } else {
                match doc {
                    DocumentView::Present(d) => {
                        lemma_normalises(*t, *d);
                    },
                    _ => {
                        lemma_normalises(*t, doc);
                    },
                }
            }
            lemma_normal_option(*t, doc);
        },
        TypeView::Result(ok, err) => match doc {
            DocumentView::Entries(entries) => {
                if entries.len() == 1 {
                    match ok {
                        Some(t) => {
                            lemma_normalises(*t, entries[0].1);
                        },
                        None => {},
                    }
                    match err {
                        Some(t) => {
                            lemma_normalises(*t, entries[0].1);
                        },
                        None => {},
                    }
                }
                lemma_normal_result(ok, err, entries);
            },
            _ => {},
        },
        TypeView::Resource => {},
    }
}

/// A plain document that decodes is written again in its normal form:
/// reading it and writing the value gives the document with the entries of
/// its records in the declared order of the fields and without those that
/// give an option as absent, and with each token as the encoder writes it.
pub proof fn lemma_normal_form(ty: TypeView, doc: DocumentView)
    requires
        plain(ty, doc),
        decode(ty, doc) is Ok,
    ensures
        encode(decode(ty, doc)->Ok_0) == Ok::<DocumentView, EncodeError>(arrange(ty, doc)),
{
    lemma_normalises(ty, doc);
}

/// A plain document that is its own normal form is written again exactly
/// as it was read.
pub proof fn lemma_normal_fixed(ty: TypeView, doc: DocumentView)
    requires
        plain(ty, doc),
        decode(ty, doc) is Ok,
        arrange(ty, doc) == doc,
    ensures
        encode(decode(ty, doc)->Ok_0) == Ok::<DocumentView, EncodeError>(doc),
{
    lemma_normal_form(ty, doc);
}

} // verus!
