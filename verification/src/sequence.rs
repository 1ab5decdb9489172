//! Two tools on sequences: the first place of an item, and the results of
//! a sequence of fallible steps taken together.

use vstd::prelude::*;

verus! {

/// The first index at which `item` stands in `s`, if it stands in it.
pub open spec fn position<A>(s: Seq<A>, item: A) -> Option<int>
    decreases s.len(),
{
    if s.len() == 0 {
        None
    } else {
        match position(s.drop_last(), item) {
            Some(k) => Some(k),
            None => if s.last() == item {
                Some(s.len() - 1)
            } else {
                None
            },
        }
    }
}

/// `position` finds the first index that holds the item, and finds none
/// exactly when no index holds it.
pub proof fn lemma_position<A>(s: Seq<A>, item: A)
    ensures
        match position(s, item) {
            Some(k) => 0 <= k < s.len() && s[k] == item && forall|j: int|
                0 <= j < k ==> s[j] != item,
            None => forall|j: int| 0 <= j < s.len() ==> s[j] != item,
        },
    decreases s.len(),
{
    if s.len() > 0 {
        lemma_position(s.drop_last(), item);
        assert(forall|j: int| 0 <= j < s.len() - 1 ==> s.drop_last()[j] == s[j]);
    }
}

/// An index that holds the item, with none before it that does, is the
/// item's position.
pub proof fn lemma_position_is<A>(s: Seq<A>, item: A, k: int)
    requires
        0 <= k < s.len(),
        s[k] == item,
        forall|j: int| 0 <= j < k ==> s[j] != item,
    ensures
        position(s, item) == Some(k),
{
    lemma_position(s, item);
}

/// An item that no index holds has no position.
pub proof fn lemma_position_none<A>(s: Seq<A>, item: A)
    requires
        forall|j: int| 0 <= j < s.len() ==> s[j] != item,
    ensures
        position(s, item) is None,
{
    lemma_position(s, item);
}

/// The index of the first failure among `rs`, or the length of `rs` where
/// every step succeeded.
pub open spec fn first_failure<V, E>(rs: Seq<Result<V, E>>) -> int
    decreases rs.len(),
{
    if rs.len() == 0 {
        0
    } else {
        let k = first_failure(rs.drop_last());
        if k < rs.len() - 1 || rs.last() is Err {
            k
        } else {
            rs.len() as int
        }
    }
}

/// The results of a sequence of steps taken together: the values of all of
/// them where every step succeeded, the error of the first that failed
/// where one did.
pub open spec fn collect<V, E>(rs: Seq<Result<V, E>>) -> Result<Seq<V>, E> {
    let k = first_failure(rs);
    if 0 <= k < rs.len() {
        Err(rs[k]->Err_0)
    } else {
        Ok(Seq::new(rs.len(), |i: int| rs[i]->Ok_0))
    }
}

/// `first_failure` is the least index of a failure.
pub proof fn lemma_first_failure<V, E>(rs: Seq<Result<V, E>>)
    ensures
        0 <= first_failure(rs) <= rs.len(),
        forall|j: int| 0 <= j < first_failure(rs) ==> (#[trigger] rs[j]) is Ok,
        first_failure(rs) < rs.len() ==> rs[first_failure(rs)] is Err,
    decreases rs.len(),
{
    if rs.len() > 0 {
        lemma_first_failure(rs.drop_last());
        assert(forall|j: int| 0 <= j < rs.len() - 1 ==> rs.drop_last()[j] == rs[j]);
    }
}

/// Where the step at `k` fails and all before it succeed, the whole fails
/// with the error of that step.
pub proof fn lemma_collect_err<V, E>(rs: Seq<Result<V, E>>, k: int)
    requires
        0 <= k < rs.len(),
        rs[k] is Err,
        forall|j: int| 0 <= j < k ==> (#[trigger] rs[j]) is Ok,
    ensures
        collect(rs) == Err::<Seq<V>, E>(rs[k]->Err_0),
{
    lemma_first_failure(rs);
}

/// Where every step succeeds, the whole succeeds with their values.
pub proof fn lemma_collect_ok<V, E>(rs: Seq<Result<V, E>>)
    requires
        forall|j: int| 0 <= j < rs.len() ==> (#[trigger] rs[j]) is Ok,
    ensures
        collect(rs) == Ok::<Seq<V>, E>(Seq::new(rs.len(), |i: int| rs[i]->Ok_0)),
{
    lemma_first_failure(rs);
}

/// What `collect` returns, read backwards: success means that every step
/// succeeded; failure means that some step failed with that error and all
/// before it succeeded.
pub proof fn lemma_collect<V, E>(rs: Seq<Result<V, E>>)
    ensures
        match collect(rs) {
            Ok(vs) => vs.len() == rs.len() && forall|j: int|
                0 <= j < rs.len() ==> (#[trigger] rs[j]) == Ok::<V, E>(vs[j]),
            Err(e) => exists|k: int|
                0 <= k < rs.len() && rs[k] == Err::<V, E>(e) && forall|j: int|
                    0 <= j < k ==> (#[trigger] rs[j]) is Ok,
        },
{
    lemma_first_failure(rs);
    let k = first_failure(rs);
    if 0 <= k < rs.len() {
        assert(rs[k] == Err::<V, E>(rs[k]->Err_0));
    }
}

} // verus!
