//! Keeping the items of a sequence that meet a condition.

use crate::views::views;
use vstd::prelude::*;

verus! {

/// The items of `items` that `keep` accepts, in their order.
pub(crate) fn retain<T: Clone + View, F: Fn(&T) -> bool>(
    items: &Vec<T>,
    keep: F,
    Ghost(kept): Ghost<spec_fn(T::V) -> bool>,
) -> (r: Vec<T>)
    requires
        forall|item: &T| #[trigger] keep.requires((item,)),
        forall|item: &T, b: bool| #[trigger] keep.ensures((item,), b) ==> b == kept(item@),
        forall|a: T, b: T| #[trigger] cloned(a, b) ==> a@ == b@,
    ensures
        views(r@) == views(items@).filter(kept),
{
    let mut r: Vec<T> = Vec::new();
    let mut i: usize = 0;
    proof {
        reveal(Seq::filter);
        assert(views(items@.take(0)) =~= Seq::empty());
        assert(views(r@) =~= Seq::empty());
    }
    while i < items.len()
        invariant
            i <= items@.len(),
            views(r@) == views(items@.take(i as int)).filter(kept),
            forall|item: &T| #[trigger] keep.requires((item,)),
            forall|item: &T, b: bool| #[trigger] keep.ensures((item,), b) ==> b == kept(item@),
            forall|a: T, b: T| #[trigger] cloned(a, b) ==> a@ == b@,
        decreases items@.len() - i,
    {
        let item = &items[i];
        proof {
            reveal(Seq::filter);
            let next = views(items@.take(i + 1));
            assert(next.drop_last() =~= views(items@.take(i as int)));
            assert(next.last() == item@);
        }
        if keep(item) {
            let copy = item.clone();
            assert(cloned(*item, copy));
            assert(views(r@.push(copy)) =~= views(r@).push(copy@));
            r.push(copy);
        }
        i += 1;
    }
    assert(items@.take(items@.len() as int) =~= items@);
    r
}

/// Where a condition accepts no item, nothing is left.
pub proof fn lemma_filter_nothing<A>(items: Seq<A>, accepts: spec_fn(A) -> bool)
    requires
        forall|k: int| 0 <= k < items.len() ==> !accepts(#[trigger] items[k]),
    ensures
        items.filter(accepts) == Seq::<A>::empty(),
    decreases items.len(),
{
    reveal(Seq::filter);
    if items.len() > 0 {
        let front = items.drop_last();
        assert forall|k: int| 0 <= k < front.len() implies !accepts(#[trigger] front[k]) by {
            assert(front[k] == items[k]);
        }
        lemma_filter_nothing(front, accepts);
    }
}

/// Where a condition accepts every item, everything is left.
pub proof fn lemma_filter_everything<A>(items: Seq<A>, accepts: spec_fn(A) -> bool)
    requires
        forall|k: int| 0 <= k < items.len() ==> accepts(#[trigger] items[k]),
    ensures
        items.filter(accepts) == items,
    decreases items.len(),
{
    reveal(Seq::filter);
    if items.len() > 0 {
        let front = items.drop_last();
        assert forall|k: int| 0 <= k < front.len() implies accepts(#[trigger] front[k]) by {
            assert(front[k] == items[k]);
        }
        lemma_filter_everything(front, accepts);
        assert(front.push(items.last()) =~= items);
    }
}

} // verus!
