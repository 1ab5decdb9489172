//! Laws that relate decoding and encoding.

use vstd::prelude::*;
use crate::decode::{
    among, byte_vals, checked_entries, decode, element_results, entry_results, flag_names,
    framed, keys, known_flags, named_fields, probe_option, single_entry, targets, tuple_results,
    visit_present, wrapped,
};
use crate::document::DocumentView;
use crate::encode::{
    encode, encoded, encoded_fields, frame, is_absent, name_documents, present, present_entries,
};
use crate::error::{DecodeErrorView, EncodeError};
use crate::float::{lemma_narrow_canonical, lemma_widen_canonical};
use crate::sequence::{
    collect, lemma_collect, lemma_collect_ok, lemma_position, lemma_position_is,
    lemma_position_none, position,
};
use crate::types::{case_names, distinct, field_names, TypeView};
use crate::val::ValView;

verus! {

/// Whether what `doc` decodes to against `ty`, if anything, is of type
/// `ty` and can be encoded.
pub open spec fn typed(ty: TypeView, doc: DocumentView) -> bool {
    match decode(ty, doc) {
        Ok(v) => v.has_type(ty) && encode(v) is Ok,
        Err(_) => true,
    }
}

/// Two tests that agree on every item of a sequence keep the same items.
proof fn lemma_filter_agree<A>(s: Seq<A>, p: spec_fn(A) -> bool, q: spec_fn(A) -> bool)
    requires
        forall|i: int| 0 <= i < s.len() ==> p(#[trigger] s[i]) == q(s[i]),
    ensures
        s.filter(p) == s.filter(q),
    decreases s.len(),
{
    reveal(Seq::filter);
    if s.len() > 0 {
        assert(forall|i: int| 0 <= i < s.len() - 1 ==> s.drop_last()[i] == s[i]);
        lemma_filter_agree(s.drop_last(), p, q);
    }
}

/// The declared names that were given, taken as the names given, select
/// themselves.
proof fn lemma_active_stable(declared: Seq<Seq<char>>, given: Seq<Seq<char>>)
    ensures
        declared.filter(among(declared.filter(among(given)))) == declared.filter(among(given)),
{
    let active = declared.filter(among(given));
    assert forall|i: int| 0 <= i < declared.len() implies among(active)(#[trigger] declared[i])
        == among(given)(declared[i]) by {
        if given.contains(declared[i]) {
            declared.lemma_filter_contains(among(given), i);
        }
        if active.contains(declared[i]) {
            let j = choose|j: int| 0 <= j < active.len() && active[j] == declared[i];
            declared.lemma_filter_pred(among(given), j);
        }
    }
    lemma_filter_agree(declared, among(active), among(given));
}

/// What decodes against a floating-point type holds no NaN with a payload.
proof fn lemma_typed_float(doc: DocumentView)
    ensures
        typed(TypeView::Float32, doc),
        typed(TypeView::Float64, doc),
{
    match doc {
        DocumentView::Float32(bits) => {
            lemma_widen_canonical(bits);
        },
        DocumentView::Float64(bits) => {
            lemma_narrow_canonical(bits);
        },
        _ => {},
    }
}

/// Values that are each of a type and can each be encoded make a list and
/// a tuple that can be encoded.
proof fn lemma_typed_values(ty: TypeView, rs: Seq<Result<ValView, DecodeErrorView>>)
    requires
        forall|i: int|
            0 <= i < rs.len() ==> match #[trigger] rs[i] {
                Ok(v) => v.has_type(ty) && encode(v) is Ok,
                Err(_) => true,
            },
    ensures
        match collect(rs) {
            Ok(vals) => vals.len() == rs.len() && encode(ValView::List(vals)) is Ok && encode(
                ValView::Tuple(vals),
            ) is Ok && forall|i: int| 0 <= i < vals.len() ==> (#[trigger] vals[i]).has_type(ty),
            Err(_) => true,
        },
{
    lemma_collect(rs);
    match collect(rs) {
        Ok(vals) => {
            assert forall|i: int| 0 <= i < vals.len() implies (#[trigger] vals[i]).has_type(
                ty,
            ) && encode(vals[i]) is Ok by {
                assert(rs[i] == Ok::<ValView, DecodeErrorView>(vals[i]));
            }
            let docs = encoded(vals);
            assert forall|i: int| 0 <= i < docs.len() implies (#[trigger] docs[i]) is Ok by {
                assert(vals[i].has_type(ty));
            }
            lemma_collect_ok(docs);
        },
        Err(_) => {},
    }
}

/// A list is typed where its elements are.
proof fn lemma_typed_list(t: TypeView, items: Seq<DocumentView>)
    requires
        forall|i: int| 0 <= i < items.len() ==> typed(t, #[trigger] items[i]),
    ensures
        typed(TypeView::List(Box::new(t)), DocumentView::List(items)),
{
    let rs = element_results(t, items);
    assert forall|i: int| 0 <= i < rs.len() implies match #[trigger] rs[i] {
        Ok(v) => v.has_type(t) && encode(v) is Ok,
        Err(_) => true,
    } by {
        assert(typed(t, items[i]));
    }
    lemma_typed_values(t, rs);
}

/// A tuple is typed where its elements are.
proof fn lemma_typed_tuple(types: Seq<TypeView>, items: Seq<DocumentView>)
    requires
        forall|i: int|
            0 <= i < items.len() && 0 <= i < types.len() ==> typed(
                #[trigger] types[i],
                items[i],
            ),
    ensures
        typed(TypeView::Tuple(types), DocumentView::List(items)),
{
    let rs = tuple_results(types, items);
    lemma_collect(rs);
    match collect(rs) {
        Ok(vals) => {
            if types.len() == items.len() {
                assert forall|i: int| 0 <= i < vals.len() implies (#[trigger] vals[i]).has_type(
                    types[i],
                ) && encode(vals[i]) is Ok by {
                    assert(rs[i] == Ok::<ValView, DecodeErrorView>(vals[i]));
                    assert(typed(types[i], items[i]));
                }
                let docs = encoded(vals);
                assert forall|i: int| 0 <= i < docs.len() implies (#[trigger] docs[i]) is Ok by {
                    assert(vals[i].has_type(types[i]));
                }
                lemma_collect_ok(docs);
            }
        },
        Err(_) => {},
    }
}

/// Flags are typed: they come out in declaration order, each once.
proof fn lemma_typed_flags(declared: Seq<Seq<char>>, items: Seq<DocumentView>)
    ensures
        typed(TypeView::Flags(declared), DocumentView::List(items)),
{
    match collect(flag_names(items)) {
        Ok(given) => {
            lemma_active_stable(declared, given);
        },
        Err(_) => {},
    }
}

/// A record is typed where the values of its entries are.
#[verifier::rlimit(50)]
proof fn lemma_typed_record(
    fields: Seq<(Seq<char>, TypeView)>,
    entries: Seq<(Seq<char>, DocumentView)>,
)
    requires
        forall|k: int, i: int|
            0 <= k < fields.len() && 0 <= i < entries.len() ==> typed(
                (#[trigger] fields[k]).1,
                (#[trigger] entries[i]).1,
            ),
    ensures
        typed(TypeView::Record(fields), DocumentView::Entries(entries)),
{
    let ks = keys(entries);
    let ts = targets(fields, ks);
    let decoded = entry_results(fields, entries);
    let checked = checked_entries(ts, ks, decoded);
    lemma_collect(checked);
    match collect(checked) {
        Ok(vals) => {
            let named = named_fields(fields, ts, vals);
            lemma_collect(named);
            match collect(named) {
                Ok(out) => {
                    assert forall|k: int| 0 <= k < out.len() implies (#[trigger] out[k]).0
                        == fields[k].0 && out[k].1.has_type(fields[k].1) && encode(out[k].1) is Ok by {
                        assert(named[k] == Ok::<(Seq<char>, ValView), DecodeErrorView>(
                            out[k],
                        ));
                        lemma_position(ts, Some(k));
                        match position(ts, Some(k)) {
                            Some(i) => {
                                assert(ts[i] == Some(k));
                                assert(checked[i] == Ok::<ValView, DecodeErrorView>(
                                    vals[i],
                                ));
                                assert(decoded[i] == decode(fields[k].1, entries[i].1));
                                assert(typed(fields[k].1, entries[i].1));
                            },
                            None => {},
                        }
                    }
                    let docs = encoded_fields(out);
                    assert forall|k: int| 0 <= k < docs.len() implies (#[trigger] docs[k]) is Ok by {
                        assert(encode(out[k].1) is Ok);
                    }
                    lemma_collect_ok(docs);
                },
                Err(_) => {},
            }
        },
        Err(_) => {},
    }
}

/// What decodes is of the type it was decoded against, and can be encoded
/// again: a decoded value holds no resource.
#[verifier::rlimit(50)]
pub proof fn lemma_decode_typed(ty: TypeView, doc: DocumentView)
    ensures
        match decode(ty, doc) {
            Ok(v) => v.has_type(ty) && encode(v) is Ok,
            Err(_) => true,
        },
    decreases ty,
{
    match ty {
        TypeView::Float32 | TypeView::Float64 => {
            lemma_typed_float(doc);
        },
        TypeView::List(t) => match doc {
            DocumentView::List(items) => {
                assert forall|i: int| 0 <= i < items.len() implies typed(*t, #[trigger] items[i]) by {
                    lemma_decode_typed(*t, items[i]);
                }
                lemma_typed_list(*t, items);
            },
            DocumentView::Bytes(bytes) => {
                if *t is U8 {
                    let vals = byte_vals(bytes);
                    let docs = encoded(vals);
                    assert forall|i: int| 0 <= i < docs.len() implies (#[trigger] docs[i]) is Ok by {
                        assert(vals[i] == ValView::U8(bytes[i]));
                    }
                    lemma_collect_ok(docs);
                    assert forall|i: int| 0 <= i < vals.len() implies (#[trigger] vals[i]).has_type(
                        *t,
                    ) by {
                        assert(vals[i] == ValView::U8(bytes[i]));
                    }
                }
            },
            _ => {},
        },
        TypeView::Record(fields) => match doc {
            DocumentView::Entries(entries) => {
                assert forall|k: int, i: int|
                    0 <= k < fields.len() && 0 <= i < entries.len() implies typed(
                    (#[trigger] fields[k]).1,
                    (#[trigger] entries[i]).1,
                ) by {
                    lemma_decode_typed(fields[k].1, entries[i].1);
                }
                lemma_typed_record(fields, entries);
            },
            _ => {},
        },
        TypeView::Tuple(types) => match doc {
            DocumentView::List(items) => {
                assert forall|i: int| 0 <= i < items.len() && 0 <= i < types.len() implies typed(
                    #[trigger] types[i],
                    items[i],
                ) by {
                    lemma_decode_typed(types[i], items[i]);
                }
                lemma_typed_tuple(types, items);
            },
            _ => {},
        },
        TypeView::Variant(cases) => match doc {
            DocumentView::Entries(entries) => {
                if entries.len() == 1 {
                    lemma_position(case_names(cases), entries[0].0);
                    match position(case_names(cases), entries[0].0) {
                        Some(k) => match cases[k].1 {
                            Some(t) => {
                                lemma_decode_typed(t, entries[0].1);
                            },
                            None => {},
                        },
                        None => {},
                    }
                }
            },
            _ => {},
        },
        TypeView::Option(t) => {
            if *t is Option {
                assert(decode(ty, doc) == probe_option(ty, doc));
                match doc {
                    DocumentView::Entries(entries) => {
                        assert(probe_option(ty, doc) == framed(*t, entries));
                        if entries.len() == 1 {
                            lemma_decode_typed(*t, entries[0].1);
                        }
                        assert(typed(ty, doc));
                    },
                    DocumentView::Present(d) => {
                        let inner = *t->Option_0;
                        assert(probe_option(ty, doc) == visit_present(ty, *d));
                        match *d {
                            DocumentView::Entries(entries) => {
                                assert(visit_present(ty, *d) == wrapped(framed(inner, entries)));
                                if entries.len() == 1 {
                                    lemma_decode_typed(inner, entries[0].1);
                                    if framed(inner, entries) is Ok {
                                        let mid = framed(inner, entries)->Ok_0;
                                        assert(mid.has_type(*t));
                                        assert(encode(mid) is Ok);
                                    }
                                }
                            },
                            _ => {},
                        }
                        assert(typed(ty, doc));
                    },
                    _ => {
                        assert(typed(ty, doc));
                    },
                }
            } else {
                match doc {
                    DocumentView::Present(d) => {
                        lemma_decode_typed(*t, *d);
                        assert(typed(ty, doc));
                    },
                    _ => {
                        lemma_decode_typed(*t, doc);
                        assert(typed(ty, doc));
                    },
                }
            }
        },
        TypeView::Result(ok, err) => match doc {
            DocumentView::Entries(entries) => {
                if entries.len() == 1 {
                    match ok {
                        Some(t) => {
                            lemma_decode_typed(*t, entries[0].1);
                        },
                        None => {},
                    }
                    match err {
                        Some(t) => {
                            lemma_decode_typed(*t, entries[0].1);
                        },
                        None => {},
                    }
                }
            },
            _ => {},
        },
        TypeView::Flags(names) => match doc {
            DocumentView::List(items) => {
                lemma_typed_flags(names, items);
            },
            _ => {},
        },
        _ => {},
    }
}

/// The indices of the written fields are indices of fields that are not
/// absent; they rise; and every field that is not absent is among them.
#[verifier::rlimit(50)]
proof fn lemma_present(fields: Seq<(Seq<char>, ValView)>)
    ensures
        present(fields).len() <= fields.len(),
        forall|i: int|
            0 <= i < present(fields).len() ==> 0 <= #[trigger] present(fields)[i] < fields.len()
                && !is_absent(fields[present(fields)[i]].1),
        forall|i: int, j: int|
            0 <= i < j < present(fields).len() ==> #[trigger] present(fields)[i]
                < #[trigger] present(fields)[j],
        forall|k: int|
            0 <= k < fields.len() && !is_absent((#[trigger] fields[k]).1) ==> exists|i: int|
                0 <= i < present(fields).len() && present(fields)[i] == k,
    decreases fields.len(),
{
    if fields.len() > 0 {
        let front = fields.drop_last();
        let rest = present(front);
        let all = present(fields);
        lemma_present(front);
        assert forall|i: int| 0 <= i < all.len() implies 0 <= #[trigger] all[i] < fields.len()
            && !is_absent(fields[all[i]].1) by {
            if i < rest.len() {
                assert(all[i] == rest[i]);
                assert(front[rest[i]] == fields[rest[i]]);
            }
        }
        assert forall|i: int, j: int| 0 <= i < j < all.len() implies #[trigger] all[i]
            < #[trigger] all[j] by {
            assert(all[i] == rest[i]);
            if j < rest.len() {
                assert(all[j] == rest[j]);
            }
        }
        assert forall|k: int| 0 <= k < fields.len() && !is_absent((#[trigger] fields[k]).1) implies exists|
            i: int,
        |
            0 <= i < all.len() && all[i] == k by {
            if k < fields.len() - 1 {
                assert(front[k] == fields[k]);
                let i = choose|i: int| 0 <= i < rest.len() && rest[i] == k;
                assert(all[i] == k);
            } else {
                assert(all[all.len() - 1] == k);
            }
        }
    }
}

/// A record that is encoded and decoded again is the record.
#[verifier::rlimit(50)]
proof fn lemma_round_record(
    types: Seq<(Seq<char>, TypeView)>,
    fields: Seq<(Seq<char>, ValView)>,
    docs: Seq<DocumentView>,
)
    requires
        distinct(field_names(types)),
        fields.len() == types.len(),
        docs.len() == fields.len(),
        forall|k: int| 0 <= k < fields.len() ==> (#[trigger] fields[k]).0 == types[k].0,
        forall|k: int|
            0 <= k < fields.len() && is_absent((#[trigger] fields[k]).1) ==> types[k].1 is Option,
        forall|k: int|
            0 <= k < fields.len() ==> decode(types[k].1, #[trigger] docs[k]) == Ok::<
                ValView,
                DecodeErrorView,
            >(fields[k].1),
    ensures
        decode(TypeView::Record(types), DocumentView::Entries(present_entries(fields, docs)))
            == Ok::<ValView, DecodeErrorView>(ValView::Record(fields)),
{
    let idx = present(fields);
    let entries = present_entries(fields, docs);
    let names = field_names(types);
    let ks = keys(entries);
    let ts = targets(types, ks);
    let decoded = entry_results(types, entries);
    let checked = checked_entries(ts, ks, decoded);
    lemma_present(fields);
    assert forall|i: int| 0 <= i < ts.len() implies #[trigger] ts[i] == Some(idx[i]) by {
        let k = idx[i];
        assert(fields[k].0 == types[k].0);
        assert(ks[i] == names[k]);
        lemma_position_is(names, ks[i], k);
    }
    assert forall|i: int| 0 <= i < checked.len() implies #[trigger] checked[i] == Ok::<
        ValView,
        DecodeErrorView,
    >(fields[idx[i]].1) by {
        let k = idx[i];
        assert(ts[i] == Some(k));
        assert(entries[i].1 == docs[k]);
        assert(decoded[i] == decode(types[k].1, docs[k]));
        assert forall|j: int| 0 <= j < i implies ts[j] != ts[i] by {
            assert(ts[j] == Some(idx[j]));
            assert(idx[j] < idx[i]);
        }
        lemma_position_is(ts, ts[i], i);
    }
    lemma_collect_ok(checked);
    let vals = collect(checked)->Ok_0;
    let named = named_fields(types, ts, vals);
    assert forall|k: int| 0 <= k < named.len() implies #[trigger] named[k] == Ok::<
        (Seq<char>, ValView),
        DecodeErrorView,
    >(fields[k]) by {
        lemma_position(ts, Some(k));
        assert(fields[k].0 == types[k].0);
        if is_absent(fields[k].1) {
            match position(ts, Some(k)) {
                Some(i) => {
                    assert(ts[i] == Some(idx[i]));
                    assert(!is_absent(fields[idx[i]].1));
                },
                None => {},
            }
        } else {
            let i = choose|i: int| 0 <= i < idx.len() && idx[i] == k;
            assert(ts[i] == Some(k));
            match position(ts, Some(k)) {
                Some(j) => {
                    assert(ts[j] == Some(idx[j]));
                    assert(vals[j] == checked[j]->Ok_0);
                },
                None => {},
            }
        }
    }
    lemma_collect_ok(named);
    assert(collect(named)->Ok_0 =~= fields);
}

/// A list or a tuple whose elements each read back reads back.
proof fn lemma_round_elements(
    vals: Seq<ValView>,
    back: Seq<Result<ValView, DecodeErrorView>>,
)
    requires
        back.len() == vals.len(),
        forall|i: int|
            0 <= i < vals.len() ==> #[trigger] back[i] == Ok::<ValView, DecodeErrorView>(vals[i]),
    ensures
        collect(back) == Ok::<Seq<ValView>, DecodeErrorView>(vals),
{
    lemma_collect_ok(back);
    assert(collect(back)->Ok_0 =~= vals);
}

/// An integer that is written reads back.
proof fn lemma_round_integer(ty: TypeView, v: ValView)
    requires
        v.has_type(ty),
        v is S8 || v is U8 || v is S16 || v is U16 || v is S32 || v is U32 || v is S64 || v is U64,
    ensures
        decode(ty, encode(v)->Ok_0) == Ok::<ValView, DecodeErrorView>(v),
{
}

/// A floating-point number that is written reads back.
proof fn lemma_round_float(ty: TypeView, v: ValView)
    requires
        v.has_type(ty),
        v is Float32 || v is Float64,
    ensures
        decode(ty, encode(v)->Ok_0) == Ok::<ValView, DecodeErrorView>(v),
{
    reveal_strlit("NaN");
    reveal_strlit("Infinity");
    reveal_strlit("-Infinity");
}

/// Flags that are written read back.
proof fn lemma_round_flags(declared: Seq<Seq<char>>, names: Seq<Seq<char>>)
    requires
        names == declared.filter(among(names)),
    ensures
        decode(TypeView::Flags(declared), DocumentView::List(name_documents(names))) == Ok::<
            ValView,
            DecodeErrorView,
        >(ValView::Flags(names)),
{
    let items = name_documents(names);
    let given = flag_names(items);
    assert forall|i: int| 0 <= i < given.len() implies (#[trigger] given[i]) is Ok by {}
    lemma_collect_ok(given);
    assert(collect(given)->Ok_0 =~= names);
    let known = known_flags(declared, names);
    assert forall|i: int| 0 <= i < known.len() implies (#[trigger] known[i]) is Ok by {
        assert(declared.filter(among(names)).contains(names[i]));
        declared.lemma_filter_contains_rev(among(names), names[i]);
    }
    lemma_collect_ok(known);
}

/// A case that is framed reads back, where its payload does.
proof fn lemma_round_variant(
    cases: Seq<(Seq<char>, Option<TypeView>)>,
    name: Seq<char>,
    payload: Option<Box<ValView>>,
    k: int,
)
    requires
        position(case_names(cases), name) == Some(k),
        0 <= k < cases.len(),
        match payload {
            Some(p) => cases[k].1 is Some && encode(*p) is Ok && decode(
                cases[k].1->Some_0,
                encode(*p)->Ok_0,
            ) == Ok::<ValView, DecodeErrorView>(*p),
            None => cases[k].1 is None,
        },
    ensures
        encode(ValView::Variant(name, payload)) is Ok,
        decode(TypeView::Variant(cases), encode(ValView::Variant(name, payload))->Ok_0) == Ok::<
            ValView,
            DecodeErrorView,
        >(ValView::Variant(name, payload)),
{
    let entries = encode(ValView::Variant(name, payload))->Ok_0->Entries_0;
    assert(entries.len() == 1);
    assert(entries[0].0 == name);
}

/// A present option that is written reads back, where what it holds does.
proof fn lemma_round_option(t: TypeView, inner: ValView)
    requires
        inner.has_type(t),
        encode(inner) is Ok,
        decode(t, encode(inner)->Ok_0) == Ok::<ValView, DecodeErrorView>(inner),
    ensures
        decode(
            TypeView::Option(Box::new(t)),
            encode(ValView::Option(Some(Box::new(inner))))->Ok_0,
        ) == Ok::<ValView, DecodeErrorView>(ValView::Option(Some(Box::new(inner)))),
{
    reveal_strlit("value");
    let ty = TypeView::Option(Box::new(t));
    let doc = encode(ValView::Option(Some(Box::new(inner))))->Ok_0;
    if inner is Option {
        let entries = doc->Entries_0;
        assert(entries.len() == 1);
        assert(entries[0] == ("value"@, encode(inner)->Ok_0));
        assert(decode(ty, doc) == probe_option(ty, doc));
        assert(probe_option(ty, doc) == framed(t, entries));
    }
}

/// A result that is framed reads back, where its payload does.
proof fn lemma_round_result(
    ok: Option<Box<TypeView>>,
    err: Option<Box<TypeView>>,
    r: Result<Option<Box<ValView>>, Option<Box<ValView>>>,
)
    requires
        match r {
            Ok(Some(p)) => ok is Some && encode(*p) is Ok && decode(*ok->Some_0, encode(*p)->Ok_0)
                == Ok::<ValView, DecodeErrorView>(*p),
            Ok(None) => ok is None,
            Err(Some(p)) => err is Some && encode(*p) is Ok && decode(
                *err->Some_0,
                encode(*p)->Ok_0,
            ) == Ok::<ValView, DecodeErrorView>(*p),
            Err(None) => err is None,
        },
    ensures
        encode(ValView::Result(r)) is Ok,
        decode(TypeView::Result(ok, err), encode(ValView::Result(r))->Ok_0) == Ok::<
            ValView,
            DecodeErrorView,
        >(ValView::Result(r)),
{
    reveal_strlit("result");
    reveal_strlit("error");
    let entries = encode(ValView::Result(r))->Ok_0->Entries_0;
    assert(entries.len() == 1);
    match r {
        Ok(_) => {
            assert(entries[0].0 == "result"@);
        },
        Err(_) => {
            assert(entries[0].0 == "error"@);
            assert("error"@ != "result"@);
        },
    }
}

/// A value of a type whose name lists are free of repetitions, written and
/// read again against that type, is the value it was.
#[verifier::rlimit(50)]
pub proof fn lemma_encode_decode(ty: TypeView, v: ValView)
    requires
        ty.well_formed(),
        v.has_type(ty),
        encode(v) is Ok,
    ensures
        decode(ty, encode(v)->Ok_0) == Ok::<ValView, DecodeErrorView>(v),
    decreases v,
{
    match v {
        ValView::S8(_) | ValView::U8(_) | ValView::S16(_) | ValView::U16(_) | ValView::S32(_)
        | ValView::U32(_) | ValView::S64(_) | ValView::U64(_) => {
            lemma_round_integer(ty, v);
        },
        ValView::Float32(_) | ValView::Float64(_) => {
            lemma_round_float(ty, v);
        },
        ValView::List(vals) => {
            let t = *ty->List_0;
            let rs = encoded(vals);
            lemma_collect(rs);
            let docs = collect(rs)->Ok_0;
            let back = element_results(t, docs);
            assert forall|i: int| 0 <= i < vals.len() implies #[trigger] back[i] == Ok::<
                ValView,
                DecodeErrorView,
            >(vals[i]) by {
                assert(rs[i] == Ok::<DocumentView, EncodeError>(docs[i]));
                assert(vals[i].has_type(t));
                lemma_encode_decode(t, vals[i]);
            }
            lemma_round_elements(vals, back);
        },
        ValView::Tuple(vals) => {
            let types = ty->Tuple_0;
            let rs = encoded(vals);
            lemma_collect(rs);
            let docs = collect(rs)->Ok_0;
            let back = tuple_results(types, docs);
            assert forall|i: int| 0 <= i < vals.len() implies #[trigger] back[i] == Ok::<
                ValView,
                DecodeErrorView,
            >(vals[i]) by {
                assert(rs[i] == Ok::<DocumentView, EncodeError>(docs[i]));
                assert(vals[i].has_type(types[i]));
                assert(types[i].well_formed());
                lemma_encode_decode(types[i], vals[i]);
            }
            lemma_round_elements(vals, back);
        },
        ValView::Record(fields) => {
            let types = ty->Record_0;
            let rs = encoded_fields(fields);
            lemma_collect(rs);
            let docs = collect(rs)->Ok_0;
            assert forall|k: int| 0 <= k < fields.len() implies decode(
                types[k].1,
                #[trigger] docs[k],
            ) == Ok::<ValView, DecodeErrorView>(fields[k].1) by {
                assert(rs[k] == Ok::<DocumentView, EncodeError>(docs[k]));
                assert(fields[k].1.has_type(types[k].1));
                assert(types[k].1.well_formed());
                lemma_encode_decode(types[k].1, fields[k].1);
            }
            assert forall|k: int|
                0 <= k < fields.len() && is_absent(
                    (#[trigger] fields[k]).1,
                ) implies types[k].1 is Option by {
                assert(fields[k].1.has_type(types[k].1));
            }
            lemma_round_record(types, fields, docs);
        },
        ValView::Variant(name, payload) => {
            let cases = ty->Variant_0;
            lemma_position(case_names(cases), name);
            let k = position(case_names(cases), name)->Some_0;
            match payload {
                Some(p) => {
                    assert(cases[k].1->Some_0.well_formed());
                    lemma_encode_decode(cases[k].1->Some_0, *p);
                },
                None => {},
            }
            lemma_round_variant(cases, name, payload, k);
        },
        ValView::Option(None) => {
            assert(probe_option(ty, DocumentView::Absent) == Ok::<ValView, DecodeErrorView>(v));
        },
        ValView::Option(Some(inner)) => {
            let t = *ty->Option_0;
            lemma_encode_decode(t, *inner);
            lemma_round_option(t, *inner);
        },
        ValView::Result(r) => {
            let ok = ty->Result_0;
            let err = ty->Result_1;
            match r {
                Ok(Some(p)) => {
                    lemma_encode_decode(*ok->Some_0, *p);
                },
                Err(Some(p)) => {
                    lemma_encode_decode(*err->Some_0, *p);
                },
                _ => {},
            }
            lemma_round_result(ok, err, r);
        },
        ValView::Flags(names) => {
            lemma_round_flags(ty->Flags_0, names);
        },
        _ => {},
    }
}

/// Reading a document and writing the value gives the document in normal
/// form: it reads as the very same value, and reading and writing it once
/// more changes nothing.
///
/// The normal form has the fields of a record in declaration order and
/// without its absent options; it also has each number as a native token,
/// the flags in declaration order and each option by its marker, so a
/// document that gives a number as text is not its own normal form. What
/// the normal form of a document is, token for token, is stated for plain
/// documents in the module `normal`.
pub proof fn lemma_round_trip(ty: TypeView, doc: DocumentView)
    requires
        ty.well_formed(),
        decode(ty, doc) is Ok,
    ensures
        encode(decode(ty, doc)->Ok_0) is Ok,
        decode(ty, encode(decode(ty, doc)->Ok_0)->Ok_0) == decode(ty, doc),
        encode(decode(ty, encode(decode(ty, doc)->Ok_0)->Ok_0)->Ok_0) == encode(
            decode(ty, doc)->Ok_0,
        ),
{
    lemma_decode_typed(ty, doc);
    lemma_encode_decode(ty, decode(ty, doc)->Ok_0);
}

/// Decoding has no hidden state: two results that each meet the decoder's
/// contract, for inputs with the same models, have the same model.
pub proof fn lemma_decode_deterministic(
    ty: TypeView,
    doc: DocumentView,
    first: Result<ValView, DecodeErrorView>,
    second: Result<ValView, DecodeErrorView>,
)
    requires
        first == decode(ty, doc),
        second == decode(ty, doc),
    ensures
        first == second,
{
}

/// Encoding has no hidden state: two results that each meet the encoder's
/// contract, for values with the same model, are the same.
pub proof fn lemma_encode_deterministic(
    v: ValView,
    first: Result<DocumentView, EncodeError>,
    second: Result<DocumentView, EncodeError>,
)
    requires
        first == encode(v),
        second == encode(v),
    ensures
        first == second,
{
}

/// A case is framed by exactly one entry: against a variant or a result,
/// keyed entries that are not one entry are an arity error, whatever their
/// keys and whatever they hold.
pub proof fn lemma_framing_arity(ty: TypeView, entries: Seq<(Seq<char>, DocumentView)>)
    requires
        ty is Variant || ty is Result,
        entries.len() != 1,
    ensures
        decode(ty, DocumentView::Entries(entries)) == Err::<ValView, DecodeErrorView>(
            DecodeErrorView::ArityError { arity: 1, count: entries.len() },
        ),
{
}

/// A framed case is one entry, and reading the frame gives back the name
/// and the document that were framed.
pub proof fn lemma_frame_single(name: Seq<char>, doc: DocumentView)
    ensures
        frame(name, Some(Ok(doc))) == Ok::<DocumentView, EncodeError>(
            DocumentView::Entries(seq![(name, doc)]),
        ),
        frame(name, None) == Ok::<DocumentView, EncodeError>(
            DocumentView::Entries(seq![(name, DocumentView::Null)]),
        ),
        single_entry(seq![(name, doc)]) == Ok::<(Seq<char>, DocumentView), DecodeErrorView>(
            (name, doc),
        ),
{
    let entries = seq![(name, doc)];
    assert(entries.len() == 1);
    assert(entries[0] == (name, doc));
}

/// An option of an option tells its three shapes apart: the unit and the
/// absent marker are the outer absence; one entry under the key `value` is
/// the outer presence, and what the entry holds is read as the inner
/// option. The outer presence of an inner absence is written as that frame
/// around the absent marker.
pub proof fn lemma_nested_option(t: TypeView, inner: DocumentView)
    ensures
        decode(
            TypeView::Option(Box::new(TypeView::Option(Box::new(t)))),
            DocumentView::Null,
        ) == Ok::<ValView, DecodeErrorView>(ValView::Option(None)),
        decode(
            TypeView::Option(Box::new(TypeView::Option(Box::new(t)))),
            DocumentView::Absent,
        ) == Ok::<ValView, DecodeErrorView>(ValView::Option(None)),
        decode(
            TypeView::Option(Box::new(TypeView::Option(Box::new(t)))),
            DocumentView::Entries(seq![("value"@, inner)]),
        ) == match decode(TypeView::Option(Box::new(t)), inner) {
            Ok(v) => Ok::<ValView, DecodeErrorView>(ValView::Option(Some(Box::new(v)))),
            Err(e) => Err(e),
        },
        encode(ValView::Option(Some(Box::new(ValView::Option(None))))) == Ok::<
            DocumentView,
            EncodeError,
        >(DocumentView::Entries(seq![("value"@, DocumentView::Absent)])),
{
    let ty = TypeView::Option(Box::new(TypeView::Option(Box::new(t))));
    let entries = seq![("value"@, inner)];
    assert(entries.len() == 1);
    assert(entries[0] == ("value"@, inner));
    assert(probe_option(ty, DocumentView::Null) == Ok::<ValView, DecodeErrorView>(
        ValView::Option(None),
    ));
    assert(probe_option(ty, DocumentView::Absent) == Ok::<ValView, DecodeErrorView>(
        ValView::Option(None),
    ));
    assert(probe_option(ty, DocumentView::Entries(entries)) == framed(
        TypeView::Option(Box::new(t)),
        entries,
    ));
    assert(encode(ValView::Option(None)) == Ok::<DocumentView, EncodeError>(
        DocumentView::Absent,
    ));
}

/// A record's optional field that no entry gives is absent, and an absent
/// option is written as no entry at all: a record type of the two fields
/// `required` and `optional`, the second an option, reads the one entry
/// `required` as a record with `optional` absent, and writes that record as
/// that one entry.
#[verifier::rlimit(50)]
pub proof fn lemma_optional_field(
    required: Seq<char>,
    optional: Seq<char>,
    t: TypeView,
    u: TypeView,
    doc: DocumentView,
)
    requires
        required != optional,
        !(t is Option),
        decode(t, doc) is Ok,
    ensures
        decode(
            TypeView::Record(seq![(required, t), (optional, TypeView::Option(Box::new(u)))]),
            DocumentView::Entries(seq![(required, doc)]),
        ) == Ok::<ValView, DecodeErrorView>(
            ValView::Record(
                seq![(required, decode(t, doc)->Ok_0), (optional, ValView::Option(None))],
            ),
        ),
        encode(
            ValView::Record(
                seq![(required, decode(t, doc)->Ok_0), (optional, ValView::Option(None))],
            ),
        ) == match encode(decode(t, doc)->Ok_0) {
            Ok(d) => Ok::<DocumentView, EncodeError>(
                DocumentView::Entries(seq![(required, d)]),
            ),
            Err(e) => Err(e),
        },
{
    let v = decode(t, doc)->Ok_0;
    let types = seq![(required, t), (optional, TypeView::Option(Box::new(u)))];
    let entries = seq![(required, doc)];
    let names = field_names(types);
    let ks = keys(entries);
    let ts = targets(types, ks);
    let decoded = entry_results(types, entries);
    let checked = checked_entries(ts, ks, decoded);
    lemma_position_is(names, required, 0);
    assert(ts[0] == Some(0int));
    assert(decoded[0] == decode(t, doc));
    lemma_position_is(ts, ts[0], 0);
    lemma_collect_ok(checked);
    let vals = collect(checked)->Ok_0;
    let named = named_fields(types, ts, vals);
    lemma_position_is(ts, Some(0int), 0);
    lemma_position_none(ts, Some(1int));
    assert(named[0] == Ok::<(Seq<char>, ValView), DecodeErrorView>((required, v)));
    assert(named[1] == Ok::<(Seq<char>, ValView), DecodeErrorView>(
        (optional, ValView::Option(None)),
    ));
    lemma_collect_ok(named);
    let fields = seq![(required, v), (optional, ValView::Option(None))];
    assert(collect(named)->Ok_0 =~= fields);

    lemma_decode_typed(t, doc);
    let rs = encoded_fields(fields);
    assert(rs[0] == encode(v));
    assert(rs[1] == Ok::<DocumentView, EncodeError>(DocumentView::Absent));
    lemma_collect(rs);
    let docs = collect(rs)->Ok_0;
    assert(fields.drop_last() =~= seq![(required, v)]);
    assert(fields.drop_last().drop_last() =~= Seq::<(Seq<char>, ValView)>::empty());
    assert(present(fields.drop_last().drop_last()) =~= Seq::<int>::empty());
    assert(!is_absent(v));
    assert(present(fields.drop_last()) =~= seq![0int]);
    assert(present(fields) =~= seq![0int]);
    assert(present_entries(fields, docs) =~= seq![(required, docs[0])]);
}

/// Encoding fails exactly for the values that hold a resource.
pub proof fn lemma_encode_fails(v: ValView)
    ensures
        encode(v) is Err <==> v.holds_resource(),
        encode(v) is Err ==> encode(v) == Err::<DocumentView, EncodeError>(
            EncodeError::UnsupportedValue,
        ),
    decreases v,
{
    match v {
        ValView::List(vals) => {
            lemma_encode_fails_all(vals);
        },
        ValView::Tuple(vals) => {
            lemma_encode_fails_all(vals);
        },
        ValView::Record(fields) => {
            let rs = encoded_fields(fields);
            lemma_collect(rs);
            assert forall|i: int| 0 <= i < fields.len() implies ((#[trigger] rs[i]) is Err
                <==> fields[i].1.holds_resource()) by {
                lemma_encode_fails(fields[i].1);
            }
            if v.holds_resource() {
                let i = choose|i: int|
                    0 <= i < fields.len() && (#[trigger] fields[i]).1.holds_resource();
                assert(rs[i] is Err);
            }
            if collect(rs) is Err {
                let e = collect(rs)->Err_0;
                let k = choose|k: int|
                    0 <= k < rs.len() && rs[k] == Err::<DocumentView, EncodeError>(e);
                assert(fields[k].1.holds_resource());
            }
        },
        ValView::Variant(_, Some(p)) => {
            lemma_encode_fails(*p);
        },
        ValView::Option(Some(inner)) => {
            lemma_encode_fails(*inner);
        },
        ValView::Result(Ok(Some(p))) => {
            lemma_encode_fails(*p);
        },
        ValView::Result(Err(Some(p))) => {
            lemma_encode_fails(*p);
        },
        _ => {},
    }
}

/// A sequence of values fails to encode exactly where one of them holds a
/// resource.
proof fn lemma_encode_fails_all(vals: Seq<ValView>)
    ensures
        collect(encoded(vals)) is Err <==> exists|i: int|
            0 <= i < vals.len() && (#[trigger] vals[i]).holds_resource(),
    decreases vals,
{
    let rs = encoded(vals);
    lemma_collect(rs);
    assert forall|i: int| 0 <= i < vals.len() implies ((#[trigger] rs[i]) is Err
        <==> vals[i].holds_resource()) by {
        lemma_encode_fails(vals[i]);
    }
    if exists|i: int| 0 <= i < vals.len() && (#[trigger] vals[i]).holds_resource() {
        let i = choose|i: int| 0 <= i < vals.len() && (#[trigger] vals[i]).holds_resource();
        assert(rs[i] is Err);
    }
    if collect(rs) is Err {
        let e = collect(rs)->Err_0;
        let k = choose|k: int| 0 <= k < rs.len() && rs[k] == Err::<DocumentView, EncodeError>(e);
        assert(vals[k].holds_resource());
    }
}

} // verus!
