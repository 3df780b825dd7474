//! Picking items out of a list, in order.

use vstd::prelude::*;

verus! {

/// A filter keeps exactly the items that pass the test, each as often as it stands in the list.
pub(crate) proof fn lemma_filter_members<A>(s: Seq<A>, pred: spec_fn(A) -> bool)
    ensures
        forall|x: A| #[trigger] s.filter(pred).contains(x) <==> s.contains(x) && pred(x),
        s.no_duplicates() ==> s.filter(pred).no_duplicates(),
    decreases s.len(),
{
    let places = lemma_filter_places(s, pred);
    let kept = s.filter(pred);
    assert forall|x: A| #[trigger] kept.contains(x) <==> s.contains(x) && pred(x) by {
        if kept.contains(x) {
            let k = kept.index_of(x);
            assert(s[places[k]] == x);
        }
        if s.contains(x) && pred(x) {
            let i = s.index_of(x);
            let k = places.index_of(i);
            assert(kept[k] == x);
        }
    }
    if s.no_duplicates() {
        assert forall|j: int, k: int|
            0 <= j < kept.len() && 0 <= k < kept.len() && j != k implies kept[j] != kept[k] by {
            assert(s[places[j]] == kept[j]);
            assert(s[places[k]] == kept[k]);
            assert(places[j] != places[k]);
        }
    }
}

/// A filter keeps items in their order: the result gives the places that they have in the list.
pub(crate) proof fn lemma_filter_places<A>(s: Seq<A>, pred: spec_fn(A) -> bool) -> (places: Seq<
    int,
>)
    ensures
        places.len() == s.filter(pred).len(),
        forall|k: int|
            0 <= k < places.len() ==> 0 <= #[trigger] places[k] < s.len() && s[places[k]]
                == s.filter(pred)[k] && pred(s[places[k]]),
        forall|j: int, k: int|
            0 <= j < k < places.len() ==> #[trigger] places[j] < #[trigger] places[k],
        forall|i: int| 0 <= i < s.len() && pred(#[trigger] s[i]) ==> places.contains(i),
    decreases s.len(),
{
    reveal(Seq::filter);
    if s.len() == 0 {
        Seq::empty()
    } else {
        let rest = s.drop_last();
        let before = lemma_filter_places(rest, pred);
        let n = s.len() - 1;
        let places = if pred(s.last()) {
            before.push(n)
        } else {
            before
        };
        assert forall|i: int| 0 <= i < s.len() && pred(#[trigger] s[i]) implies places.contains(
            i,
        ) by {
            if i < n {
                assert(rest[i] == s[i]);
                assert(places[before.index_of(i)] == i);
            } else {
                assert(places[before.len() as int] == n);
            }
        }
        places
    }
}

/// Mapping with gaps keeps items in their order: the result gives the places of the items that
/// have a value.
pub(crate) proof fn lemma_filter_map_places<A, B>(s: Seq<A>, f: spec_fn(A) -> Option<B>) -> (places:
    Seq<int>)
    ensures
        places.len() == s.filter_map(f).len(),
        forall|k: int|
            0 <= k < places.len() ==> 0 <= #[trigger] places[k] < s.len() && f(s[places[k]])
                == Some(s.filter_map(f)[k]),
        forall|j: int, k: int|
            0 <= j < k < places.len() ==> #[trigger] places[j] < #[trigger] places[k],
        forall|i: int| 0 <= i < s.len() && f(#[trigger] s[i]) is Some ==> places.contains(i),
    decreases s.len(),
{
    if s.len() == 0 {
        Seq::empty()
    } else {
        let rest = s.drop_last();
        let before = lemma_filter_map_places(rest, f);
        let n = s.len() - 1;
        let places = if f(s.last()) is Some {
            before.push(n)
        } else {
            before
        };
        assert forall|i: int| 0 <= i < s.len() && f(
            #[trigger] s[i],
        ) is Some implies places.contains(i) by {
            if i < n {
                assert(rest[i] == s[i]);
                assert(places[before.index_of(i)] == i);
            } else {
                assert(places[before.len() as int] == n);
            }
        }
        places
    }
}

/// Filtering by a test that only items of a first filter pass.
pub(crate) proof fn lemma_filter_twice<A>(
    s: Seq<A>,
    wide: spec_fn(A) -> bool,
    narrow: spec_fn(A) -> bool,
)
    requires
        forall|x: A| #[trigger] narrow(x) ==> wide(x),
    ensures
        s.filter(wide).filter(narrow) == s.filter(narrow),
    decreases s.len(),
{
    reveal(Seq::filter);
    if s.len() > 0 {
        lemma_filter_twice(s.drop_last(), wide, narrow);
        let x = s.last();
        let before = s.drop_last().filter(wide);
        if wide(x) {
            assert(before.push(x).drop_last() =~= before);
        }
    }
}

/// Leaving out a first item that does not pass makes no difference to a filter.
pub(crate) proof fn lemma_filter_tail<A>(s: Seq<A>, pred: spec_fn(A) -> bool)
    requires
        s.len() > 0,
        !pred(s[0]),
    ensures
        s.drop_first().filter(pred) == s.filter(pred),
    decreases s.len(),
{
    reveal(Seq::filter);
    if s.len() == 1 {
        assert(s.drop_first() =~= Seq::empty());
        assert(s.drop_last() =~= Seq::empty());
    } else {
        let rest = s.drop_last();
        lemma_filter_tail(rest, pred);
        assert(s.drop_first().drop_last() =~= rest.drop_first());
        assert(s.drop_first().last() == s.last());
    }
}

/// As many items have a value that passes a test as values pass it.
pub(crate) proof fn lemma_filter_map_count<A, B>(
    s: Seq<A>,
    f: spec_fn(A) -> Option<B>,
    pred: spec_fn(B) -> bool,
    both: spec_fn(A) -> bool,
)
    requires
        forall|x: A| #[trigger] both(x) <==> (f(x) is Some && pred(f(x)->0)),
    ensures
        s.filter_map(f).filter(pred).len() == s.filter(both).len(),
    decreases s.len(),
{
    reveal(Seq::filter);
    if s.len() > 0 {
        lemma_filter_map_count(s.drop_last(), f, pred, both);
        let x = s.last();
        assert(both(x) <==> (f(x) is Some && pred(f(x)->0)));
        let before = s.drop_last().filter_map(f);
        if let Some(y) = f(x) {
            assert(s.filter_map(f) =~= before.push(y));
            assert(before.push(y).drop_last() =~= before);
        }
    }
}

} // verus!
