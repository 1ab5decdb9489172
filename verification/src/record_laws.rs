//! Laws on record documents: the order of the entries does not matter, and
//! neither does an entry that gives an optional field as absent.

use vstd::prelude::*;
use crate::decode::{
    checked_entries, decode, entry_results, keys, named_fields, probe_option, targets,
};
use crate::document::DocumentView;
use crate::error::DecodeErrorView;
use crate::sequence::{
    collect, lemma_collect, lemma_collect_ok, lemma_position, lemma_position_is, position,
};
use crate::types::{field_names, TypeView};
use crate::val::ValView;

verus! {

/// Whether `perm` holds each index below `n` exactly once.
pub open spec fn is_permutation(perm: Seq<int>, n: nat) -> bool {
    &&& perm.len() == n
    &&& forall|i: int| 0 <= i < n ==> 0 <= #[trigger] perm[i] < n
    &&& forall|i: int, j: int| 0 <= i < j < n ==> #[trigger] perm[i] != #[trigger] perm[j]
    &&& forall|j: int| 0 <= j < n ==> #[trigger] perm.contains(j)
}

/// The items of `s` in the order that `perm` gives: the item at `perm[i]`
/// comes to stand at `i`.
pub open spec fn reordered<A>(s: Seq<A>, perm: Seq<int>) -> Seq<A> {
    Seq::new(s.len(), |i: int| s[perm[i]])
}

/// Where every entry is the first to give its field, no two entries give
/// the same field.
proof fn lemma_targets_differ(ts: Seq<Option<int>>, a: int, b: int)
    requires
        0 <= a < ts.len(),
        0 <= b < ts.len(),
        a != b,
        position(ts, ts[a]) == Some(a),
        position(ts, ts[b]) == Some(b),
    ensures
        ts[a] != ts[b],
{
}

/// The order of a record document's entries does not matter: where the
/// document decodes, it decodes to the same record with its entries in any
/// other order.
#[verifier::rlimit(50)]
pub proof fn lemma_field_order(
    fields: Seq<(Seq<char>, TypeView)>,
    entries: Seq<(Seq<char>, DocumentView)>,
    perm: Seq<int>,
)
    requires
        is_permutation(perm, entries.len()),
        decode(TypeView::Record(fields), DocumentView::Entries(entries)) is Ok,
    ensures
        decode(TypeView::Record(fields), DocumentView::Entries(reordered(entries, perm)))
            == decode(TypeView::Record(fields), DocumentView::Entries(entries)),
{
    let n = entries.len() as int;
    let ks = keys(entries);
    let ts = targets(fields, ks);
    let decoded = entry_results(fields, entries);
    let checked = checked_entries(ts, ks, decoded);
    lemma_collect(checked);
    let vals = collect(checked)->Ok_0;
    assert forall|a: int| 0 <= a < n implies position(ts, #[trigger] ts[a]) == Some(a)
        && decoded[a] == Ok::<ValView, DecodeErrorView>(vals[a]) by {
        assert(checked[a] == Ok::<ValView, DecodeErrorView>(vals[a]));
    }

    let moved = reordered(entries, perm);
    let ks2 = keys(moved);
    let ts2 = targets(fields, ks2);
    let decoded2 = entry_results(fields, moved);
    let checked2 = checked_entries(ts2, ks2, decoded2);
    assert forall|i: int| 0 <= i < n implies #[trigger] ts2[i] == ts[perm[i]] && decoded2[i]
        == decoded[perm[i]] by {
        assert(moved[i] == entries[perm[i]]);
        assert(ks2[i] == ks[perm[i]]);
    }
    assert forall|i: int| 0 <= i < n implies #[trigger] checked2[i] == Ok::<
        ValView,
        DecodeErrorView,
    >(vals[perm[i]]) by {
        assert(ts2[i] == ts[perm[i]]);
        assert forall|j: int| 0 <= j < i implies ts2[j] != ts2[i] by {
            assert(ts2[j] == ts[perm[j]]);
            assert(perm[j] != perm[i]);
            assert(position(ts, ts[perm[j]]) == Some(perm[j]));
            assert(position(ts, ts[perm[i]]) == Some(perm[i]));
            lemma_targets_differ(ts, perm[j], perm[i]);
        }
        lemma_position_is(ts2, ts2[i], i);
    }
    lemma_collect_ok(checked2);
    let vals2 = collect(checked2)->Ok_0;

    let named = named_fields(fields, ts, vals);
    let named2 = named_fields(fields, ts2, vals2);
    assert forall|k: int| 0 <= k < fields.len() implies #[trigger] named2[k] == named[k] by {
        lemma_position(ts, Some(k));
        lemma_position(ts2, Some(k));
        match position(ts, Some(k)) {
            Some(j) => {
                assert(perm.contains(j));
                let i = choose|i: int| 0 <= i < perm.len() && perm[i] == j;
                assert(ts2[i] == ts[perm[i]]);
                let i2 = position(ts2, Some(k))->Some_0;
                assert(ts2[i2] == ts[perm[i2]]);
                if perm[i2] != j {
                    assert(position(ts, ts[perm[i2]]) == Some(perm[i2]));
                    assert(position(ts, ts[j]) == Some(j));
                    lemma_targets_differ(ts, perm[i2], j);
                }
                assert(vals2[i2] == checked2[i2]->Ok_0);
            },
            None => {
                match position(ts2, Some(k)) {
                    Some(i2) => {
                        assert(ts2[i2] == ts[perm[i2]]);
                    },
                    None => {},
                }
            },
        }
    }
    assert(named2 =~= named);
}

/// An entry that gives an optional field as absent says no more than no
/// entry: where a record document decodes and gives a field of option type
/// no entry, it decodes to the same record with one more entry, the field's
/// name with the unit or with the absent marker.
#[verifier::rlimit(50)]
pub proof fn lemma_absent_entry(
    fields: Seq<(Seq<char>, TypeView)>,
    entries: Seq<(Seq<char>, DocumentView)>,
    k: int,
    absent: DocumentView,
)
    requires
        absent is Null || absent is Absent,
        0 <= k < fields.len(),
        fields[k].1 is Option,
        position(field_names(fields), fields[k].0) == Some(k),
        position(targets(fields, keys(entries)), Some(k)) is None,
        decode(TypeView::Record(fields), DocumentView::Entries(entries)) is Ok,
    ensures
        decode(
            TypeView::Record(fields),
            DocumentView::Entries(entries.push((fields[k].0, absent))),
        ) == decode(TypeView::Record(fields), DocumentView::Entries(entries)),
{
    let n = entries.len() as int;
    let ks = keys(entries);
    let ts = targets(fields, ks);
    let decoded = entry_results(fields, entries);
    let checked = checked_entries(ts, ks, decoded);
    lemma_collect(checked);
    let vals = collect(checked)->Ok_0;
    assert forall|a: int| 0 <= a < n implies position(ts, #[trigger] ts[a]) == Some(a)
        && decoded[a] == Ok::<ValView, DecodeErrorView>(vals[a]) by {
        assert(checked[a] == Ok::<ValView, DecodeErrorView>(vals[a]));
    }

    let more = entries.push((fields[k].0, absent));
    let ks2 = keys(more);
    let ts2 = targets(fields, ks2);
    let decoded2 = entry_results(fields, more);
    let checked2 = checked_entries(ts2, ks2, decoded2);
    assert(ts2.drop_last() =~= ts);
    assert(ts2[n] == Some(k));
    assert(probe_option(fields[k].1, absent) == Ok::<ValView, DecodeErrorView>(
        ValView::Option(None),
    ));
    assert(decode(fields[k].1, absent) == Ok::<ValView, DecodeErrorView>(ValView::Option(None)));
    assert(decoded2[n] == Ok::<ValView, DecodeErrorView>(ValView::Option(None)));
    assert forall|i: int| 0 <= i < n + 1 implies #[trigger] checked2[i] == Ok::<
        ValView,
        DecodeErrorView,
    >(if i < n { vals[i] } else { ValView::Option(None) }) by {
        if i < n {
            assert(more[i] == entries[i]);
            assert(ts2[i] == ts[i]);
            assert(decoded2[i] == decoded[i]);
            assert(position(ts, ts[i]) == Some(i));
        }
    }
    lemma_collect_ok(checked2);
    let vals2 = collect(checked2)->Ok_0;

    let named = named_fields(fields, ts, vals);
    let named2 = named_fields(fields, ts2, vals2);
    assert forall|f: int| 0 <= f < fields.len() implies #[trigger] named2[f] == named[f] by {
        lemma_position(ts, Some(f));
        match position(ts, Some(f)) {
            Some(j) => {
                assert(vals2[j] == checked2[j]->Ok_0);
            },
            None => {
                if f == k {
                    assert(vals2[n] == checked2[n]->Ok_0);
                }
            },
        }
    }
    assert(named2 =~= named);
}

} // verus!
