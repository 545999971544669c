//! The laws of the query engine, stated and proved once for all inputs: what
//! the top-K listing retains, how it is ordered, how long it is, that ties
//! keep their original order, and that a query run is repeatable.

use vstd::prelude::*;
use vstd::math::min;
use crate::card::CardV;
use crate::price::Price;
use crate::query::retained;
use crate::query::filter_cards;
use crate::query::insert_ranked;
use crate::query::stable_sort;
use crate::query::sorted_by_rank;
use crate::query::top_k_spec;

verus! {

/// Every card of the sequence passes the filter.
pub open spec fn all_retained(
    s: Seq<CardV>,
    max_price: Price,
    type_filter: Option<Seq<u8>>,
) -> bool {
    forall|i: int| 0 <= i < s.len() ==> retained(#[trigger] s[i], max_price, type_filter)
}

/// Every card of the sequence has rank at most `b`.
pub open spec fn all_rank_le(s: Seq<CardV>, b: u64) -> bool {
    forall|i: int| 0 <= i < s.len() ==> (#[trigger] s[i]).popularity_rank <= b
}

/// The cards of rank `r`, in order: the instrument for stating stability.
pub open spec fn rank_class(s: Seq<CardV>, r: u64) -> Seq<CardV>
    decreases s.len(),
{
    if s.len() == 0 {
        Seq::empty()
    } else {
        let pre = rank_class(s.drop_last(), r);
        if s.last().popularity_rank == r {
            pre.push(s.last())
        } else {
            pre
        }
    }
}

proof fn lemma_insert_ranked_len(s: Seq<CardV>, x: CardV)
    ensures
        insert_ranked(s, x).len() == s.len() + 1,
    decreases s.len(),
{
    if s.len() > 0 && x.popularity_rank < s.last().popularity_rank {
        lemma_insert_ranked_len(s.drop_last(), x);
    }
}

proof fn lemma_stable_sort_len(s: Seq<CardV>)
    ensures
        stable_sort(s).len() == s.len(),
    decreases s.len(),
{
    if s.len() > 0 {
        lemma_stable_sort_len(s.drop_last());
        lemma_insert_ranked_len(stable_sort(s.drop_last()), s.last());
    }
}

proof fn lemma_filter_all_retained(s: Seq<CardV>, max_price: Price, type_filter: Option<Seq<u8>>)
    ensures
        all_retained(filter_cards(s, max_price, type_filter), max_price, type_filter),
    decreases s.len(),
{
    if s.len() > 0 {
        lemma_filter_all_retained(s.drop_last(), max_price, type_filter);
    }
}

proof fn lemma_insert_ranked_retained(
    s: Seq<CardV>,
    x: CardV,
    max_price: Price,
    type_filter: Option<Seq<u8>>,
)
    requires
        all_retained(s, max_price, type_filter),
        retained(x, max_price, type_filter),
    ensures
        all_retained(insert_ranked(s, x), max_price, type_filter),
    decreases s.len(),
{
    if s.len() > 0 && x.popularity_rank < s.last().popularity_rank {
        assert(all_retained(s.drop_last(), max_price, type_filter));
        lemma_insert_ranked_retained(s.drop_last(), x, max_price, type_filter);
    }
}

proof fn lemma_stable_sort_retained(
    s: Seq<CardV>,
    max_price: Price,
    type_filter: Option<Seq<u8>>,
)
    requires
        all_retained(s, max_price, type_filter),
    ensures
        all_retained(stable_sort(s), max_price, type_filter),
    decreases s.len(),
{
    if s.len() > 0 {
        assert(all_retained(s.drop_last(), max_price, type_filter));
        lemma_stable_sort_retained(s.drop_last(), max_price, type_filter);
        lemma_insert_ranked_retained(
            stable_sort(s.drop_last()),
            s.last(),
            max_price,
            type_filter,
        );
    }
}

proof fn lemma_insert_ranked_bound(s: Seq<CardV>, x: CardV, b: u64)
    requires
        all_rank_le(s, b),
        x.popularity_rank <= b,
    ensures
        all_rank_le(insert_ranked(s, x), b),
    decreases s.len(),
{
    if s.len() > 0 && x.popularity_rank < s.last().popularity_rank {
        assert(all_rank_le(s.drop_last(), b));
        lemma_insert_ranked_bound(s.drop_last(), x, b);
    }
}

proof fn lemma_insert_ranked_sorted(s: Seq<CardV>, x: CardV)
    requires
        sorted_by_rank(s),
    ensures
        sorted_by_rank(insert_ranked(s, x)),
    decreases s.len(),
{
    if s.len() == 0 {
    } else if x.popularity_rank < s.last().popularity_rank {
        let dl = s.drop_last();
        assert(sorted_by_rank(dl));
        lemma_insert_ranked_sorted(dl, x);
        let b = s.last().popularity_rank;
        assert(all_rank_le(dl, b));
        lemma_insert_ranked_bound(dl, x, b);
        let t = insert_ranked(dl, x);
        assert forall|i: int, j: int|
            0 <= i <= j < t.push(s.last()).len() implies (#[trigger] t.push(s.last())[
            i]).popularity_rank <= (#[trigger] t.push(s.last())[j]).popularity_rank by {
            if j < t.len() {
                assert(t.push(s.last())[i] == t[i]);
                assert(t.push(s.last())[j] == t[j]);
            } else if i < t.len() {
                assert(t.push(s.last())[i] == t[i]);
                assert(t[i].popularity_rank <= b);
            }
        }
    } else {
        assert forall|i: int, j: int|
            0 <= i <= j < s.push(x).len() implies (#[trigger] s.push(x)[i]).popularity_rank <= (
            #[trigger] s.push(x)[j]).popularity_rank by {
            if j < s.len() {
            } else if i < s.len() {
                assert(s[i].popularity_rank <= s.last().popularity_rank);
            }
        }
    }
}

proof fn lemma_stable_sort_sorted(s: Seq<CardV>)
    ensures
        sorted_by_rank(stable_sort(s)),
    decreases s.len(),
{
    if s.len() > 0 {
        lemma_stable_sort_sorted(s.drop_last());
        lemma_insert_ranked_sorted(stable_sort(s.drop_last()), s.last());
    }
}

/// Stable insertion leaves every rank's class alone, except that the
/// inserted card joins the back of its own class.
proof fn lemma_insert_ranked_class(s: Seq<CardV>, x: CardV, r: u64)
    ensures
        rank_class(insert_ranked(s, x), r) == if x.popularity_rank == r {
            rank_class(s, r).push(x)
        } else {
            rank_class(s, r)
        },
    decreases s.len(),
{
    if s.len() == 0 {
        let e = Seq::<CardV>::empty();
        assert(s =~= e);
        assert(rank_class(e, r) =~= e);
        assert(seq![x].drop_last() =~= e);
        assert(seq![x].last() == x);
        assert(rank_class(seq![x], r) == if x.popularity_rank == r {
            rank_class(e, r).push(x)
        } else {
            rank_class(e, r)
        });
    } else if x.popularity_rank < s.last().popularity_rank {
        let dl = s.drop_last();
        lemma_insert_ranked_class(dl, x, r);
        let t = insert_ranked(dl, x);
        assert(t.push(s.last()).drop_last() =~= t);
    } else {
        assert(s.push(x).drop_last() =~= s);
    }
}

/// The sort is stable: for every rank, it keeps that rank's cards in their
/// original order.
proof fn lemma_stable_sort_class(s: Seq<CardV>, r: u64)
    ensures
        rank_class(stable_sort(s), r) == rank_class(s, r),
    decreases s.len(),
{
    if s.len() > 0 {
        lemma_stable_sort_class(s.drop_last(), r);
        lemma_insert_ranked_class(stable_sort(s.drop_last()), s.last(), r);
    }
}

/// A prefix's rank classes are prefixes of the whole sequence's.
proof fn lemma_rank_class_take_prefix(s: Seq<CardV>, k: int, r: u64)
    requires
        0 <= k <= s.len(),
    ensures
        rank_class(s.take(k), r).is_prefix_of(rank_class(s, r)),
    decreases s.len(),
{
    if k == s.len() {
        assert(s.take(k) =~= s);
        assert(rank_class(s, r) =~= rank_class(s, r).subrange(0, rank_class(s, r).len() as int));
    } else {
        let dl = s.drop_last();
        assert(s.take(k) =~= dl.take(k));
        lemma_rank_class_take_prefix(dl, k, r);
        let a = rank_class(s.take(k), r);
        let b = rank_class(dl, r);
        let c = rank_class(s, r);
        assert(b.is_prefix_of(c)) by {
            if s.last().popularity_rank == r {
                assert(b =~= c.subrange(0, b.len() as int));
            } else {
                assert(b =~= c.subrange(0, b.len() as int));
            }
        }
        assert(a =~= c.subrange(0, a.len() as int));
    }
}

/// Top-K filter correctness: every card of the result is within the price
/// bound and, when a type filter was given, matches it.
pub proof fn lemma_top_k_retained(
    s: Seq<CardV>,
    k: nat,
    max_price: Price,
    type_filter: Option<Seq<u8>>,
)
    ensures
        all_retained(top_k_spec(s, k, max_price, type_filter), max_price, type_filter),
{
    lemma_filter_all_retained(s, max_price, type_filter);
    lemma_stable_sort_retained(filter_cards(s, max_price, type_filter), max_price, type_filter);
}

/// Top-K ordering: the result is sorted non-decreasing by popularity rank.
pub proof fn lemma_top_k_sorted(
    s: Seq<CardV>,
    k: nat,
    max_price: Price,
    type_filter: Option<Seq<u8>>,
)
    ensures
        sorted_by_rank(top_k_spec(s, k, max_price, type_filter)),
{
    lemma_stable_sort_sorted(filter_cards(s, max_price, type_filter));
}

/// Top-K stability: for every rank, the result's cards of that rank are the
/// first retained cards of that rank, in their original order.
pub proof fn lemma_top_k_stable(
    s: Seq<CardV>,
    k: nat,
    max_price: Price,
    type_filter: Option<Seq<u8>>,
    r: u64,
)
    ensures
        rank_class(top_k_spec(s, k, max_price, type_filter), r).is_prefix_of(
            rank_class(filter_cards(s, max_price, type_filter), r),
        ),
{
    let f = filter_cards(s, max_price, type_filter);
    let sorted = stable_sort(f);
    lemma_rank_class_take_prefix(sorted, min(k as int, sorted.len() as int), r);
    lemma_stable_sort_class(f, r);
}

/// Top-K bound: the result holds min(K, retained count) cards.
pub proof fn lemma_top_k_len(
    s: Seq<CardV>,
    k: nat,
    max_price: Price,
    type_filter: Option<Seq<u8>>,
)
    ensures
        top_k_spec(s, k, max_price, type_filter).len() == min(
            k as int,
            filter_cards(s, max_price, type_filter).len() as int,
        ),
{
    lemma_stable_sort_len(filter_cards(s, max_price, type_filter));
}

/// The queries are functions of the extracted collection and the parameters
/// alone: two runs on the same collection yield identical output.
pub proof fn lemma_top_k_repeatable(
    r1: Seq<CardV>,
    r2: Seq<CardV>,
    s: Seq<CardV>,
    k: nat,
    max_price: Price,
    type_filter: Option<Seq<u8>>,
)
    requires
        r1 == top_k_spec(s, k, max_price, type_filter),
        r2 == top_k_spec(s, k, max_price, type_filter),
    ensures
        r1 == r2,
{
}

} // verus!
