//! The query engine: the full price/rank projection over a card collection,
//! and the filtered, rank-sorted top-K listing.

use vstd::prelude::*;
use vstd::math::min;
use crate::card::Card;
use crate::card::CardV;
use crate::card::card_views;
use crate::card::all_wf;
use crate::card::copy_card;
use crate::price::Price;
use crate::price::price_le;
use crate::price::price_le_exec;
use crate::text::is_substring;
use crate::text::contains_sub;

verus! {

/// A card passes the query filter: its price is at most `max_price` and,
/// when a filter text is given, its type line contains it.
pub open spec fn retained(c: CardV, max_price: Price, type_filter: Option<Seq<u8>>) -> bool {
    &&& price_le(c.price, max_price)
    &&& (type_filter matches Some(t) ==> is_substring(c.type_line, t))
}

/// The cards passing the filter, in their original order.
pub open spec fn filter_cards(
    s: Seq<CardV>,
    max_price: Price,
    type_filter: Option<Seq<u8>>,
) -> Seq<CardV>
    decreases s.len(),
{
    if s.len() == 0 {
        Seq::empty()
    } else {
        let pre = filter_cards(s.drop_last(), max_price, type_filter);
        if retained(s.last(), max_price, type_filter) {
            pre.push(s.last())
        } else {
            pre
        }
    }
}

/// Insertion into a rank-sorted sequence, after every element of equal or
/// lower rank: the stable insertion.
pub open spec fn insert_ranked(s: Seq<CardV>, x: CardV) -> Seq<CardV>
    decreases s.len(),
{
    if s.len() == 0 {
        seq![x]
    } else if x.popularity_rank < s.last().popularity_rank {
        insert_ranked(s.drop_last(), x).push(s.last())
    } else {
        s.push(x)
    }
}

/// Sorting non-decreasing by popularity rank, stably.
pub open spec fn stable_sort(s: Seq<CardV>) -> Seq<CardV>
    decreases s.len(),
{
    if s.len() == 0 {
        Seq::empty()
    } else {
        insert_ranked(stable_sort(s.drop_last()), s.last())
    }
}

/// Non-decreasing by popularity rank.
pub open spec fn sorted_by_rank(s: Seq<CardV>) -> bool {
    forall|i: int, j: int|
        0 <= i <= j < s.len() ==> (#[trigger] s[i]).popularity_rank <= (
        #[trigger] s[j]).popularity_rank
}

/// Operation B's meaning: filter, sort stably by rank, keep the first K.
pub open spec fn top_k_spec(
    s: Seq<CardV>,
    k: nat,
    max_price: Price,
    type_filter: Option<Seq<u8>>,
) -> Seq<CardV> {
    let f = stable_sort(filter_cards(s, max_price, type_filter));
    f.take(min(k as int, f.len() as int))
}

/// The view of an optional type filter.
pub open spec fn tf_view(type_filter: Option<&Vec<u8>>) -> Option<Seq<u8>> {
    match type_filter {
        Some(t) => Some(t@),
        None => None,
    }
}

/// A stable insertion at the position the run-time search finds: before the
/// strictly-higher ranks, after everything else.
proof fn lemma_insert_ranked_split(s: Seq<CardV>, x: CardV, p: int)
    requires
        0 <= p <= s.len(),
        forall|q: int| p <= q < s.len() ==> (#[trigger] s[q]).popularity_rank > x.popularity_rank,
        forall|q: int| 0 <= q < p ==> (#[trigger] s[q]).popularity_rank <= x.popularity_rank,
    ensures
        insert_ranked(s, x) == s.take(p).push(x) + s.skip(p),
    decreases s.len(),
{
    if s.len() == 0 {
        assert(insert_ranked(s, x) =~= s.take(p).push(x) + s.skip(p));
    } else if x.popularity_rank < s.last().popularity_rank {
        assert(p < s.len());
        assert(s.drop_last().take(p) =~= s.take(p));
        lemma_insert_ranked_split(s.drop_last(), x, p);
        assert(insert_ranked(s, x) =~= s.take(p).push(x) + s.skip(p));
    } else {
        assert(p == s.len()) by {
            if p < s.len() {
                assert(s[s.len() - 1].popularity_rank > x.popularity_rank);
            }
        }
        assert(insert_ranked(s, x) =~= s.take(p).push(x) + s.skip(p));
    }
}

/// Operation B: the K most popular cards among those within the price bound
/// and matching the optional type filter, most popular first; ties keep
/// their original order.
#[verifier::loop_isolation(false)]
pub fn top_cards_under_price(
    cards: &Vec<Card>,
    num_cards: usize,
    max_price: &Price,
    type_filter: Option<&Vec<u8>>,
) -> (r: Vec<Card>)
    requires
        max_price.wf(),
        all_wf(card_views(cards@)),
    ensures
        card_views(r@) == top_k_spec(
            card_views(cards@),
            num_cards as nat,
            *max_price,
            tf_view(type_filter),
        ),
{
    let ghost cs = card_views(cards@);
    let ghost tf = tf_view(type_filter);
    // Retain the cards within the price bound that match the filter.
    let mut kept: Vec<Card> = Vec::new();
    proof {
        assert(cs.take(0) =~= Seq::<CardV>::empty());
        assert(card_views(kept@) =~= Seq::<CardV>::empty());
    }
    let mut i: usize = 0;
    while i < cards.len()
        invariant
            0 <= i <= cards.len(),
            card_views(kept@) == filter_cards(cs.take(i as int), *max_price, tf),
        decreases cards.len() - i,
    {
        proof {
            assert(cs.take(i + 1).drop_last() =~= cs.take(i as int));
        }
        assert(cs[i as int].wf());
        let within = price_le_exec(&cards[i].price, max_price);
        let keep = if within {
            match type_filter {
                Some(t) => contains_sub(&cards[i].type_line, t),
                None => true,
            }
        } else {
            false
        };
        assert(keep == retained(cs[i as int], *max_price, tf));
        if keep {
            let ghost prev = kept@;
            let c = copy_card(&cards[i]);
            let ghost cv = c@;
            kept.push(c);
            proof {
                assert(card_views(kept@) =~= card_views(prev).push(cv));
            }
        }
        i = i + 1;
    }
    proof {
        assert(cs.take(cs.len() as int) =~= cs);
    }
    // Stable insertion sort, ascending by popularity rank.
    let ghost ks = card_views(kept@);
    let mut sorted: Vec<Card> = Vec::new();
    proof {
        assert(ks.take(0) =~= Seq::<CardV>::empty());
        assert(card_views(sorted@) =~= Seq::<CardV>::empty());
    }
    let mut j: usize = 0;
    while j < kept.len()
        invariant
            0 <= j <= kept.len(),
            card_views(sorted@) == stable_sort(ks.take(j as int)),
            sorted_by_rank(card_views(sorted@)),
        decreases kept.len() - j,
    {
        let x = copy_card(&kept[j]);
        let ghost xv = x@;
        assert(xv == ks[j as int]);
        let mut p: usize = sorted.len();
        while p > 0 && sorted[p - 1].popularity_rank > x.popularity_rank
            invariant
                0 <= p <= sorted@.len(),
                forall|q: int|
                    p <= q < sorted@.len() ==> (#[trigger] card_views(
                        sorted@,
                    )[q]).popularity_rank > xv.popularity_rank,
            decreases p,
        {
            p = p - 1;
        }
        proof {
            assert(forall|q: int|
                0 <= q < p ==> (#[trigger] card_views(sorted@)[q]).popularity_rank
                    <= xv.popularity_rank) by {
                if p > 0 {
                    assert(card_views(sorted@)[p - 1].popularity_rank <= xv.popularity_rank);
                }
            }
            lemma_insert_ranked_split(card_views(sorted@), xv, p as int);
            assert(ks.take(j + 1).drop_last() =~= ks.take(j as int));
        }
        let ghost prev = sorted@;
        sorted.insert(p, x);
        proof {
            assert(card_views(sorted@) =~= card_views(prev).take(p as int).push(xv) + card_views(
                prev,
            ).skip(p as int));
            assert(card_views(sorted@) == stable_sort(ks.take(j + 1)));
            assert(sorted_by_rank(card_views(sorted@))) by {
                let n = card_views(sorted@);
                let o = card_views(prev);
                assert forall|a: int, b: int|
                    0 <= a <= b < n.len() implies n[a].popularity_rank <= n[b].popularity_rank by {
                    assert(forall|q: int| 0 <= q < p ==> n[q] == (#[trigger] o[q]));
                    assert(n[p as int] == xv);
                    assert(forall|q: int|
                        p < q < n.len() ==> n[q] == (#[trigger] o[q - 1]));
                }
            }
        }
        j = j + 1;
    }
    proof {
        assert(ks.take(ks.len() as int) =~= ks);
    }
    // Keep the first K.
    let ghost whole = card_views(sorted@);
    sorted.truncate(num_cards);
    proof {
        if num_cards as int <= whole.len() {
            assert(card_views(sorted@) =~= whole.take(num_cards as int));
        } else {
            assert(card_views(sorted@) =~= whole.take(
                min(num_cards as int, whole.len() as int),
            ));
        }
    }
    sorted
}

/// Operation A: the (price, popularity rank) pair of every card, in the
/// collection's order, unfiltered.
#[verifier::loop_isolation(false)]
pub fn price_rank_pairs(cards: &Vec<Card>) -> (r: Vec<(Price, u64)>)
    ensures
        r@.len() == cards@.len(),
        forall|i: int|
            0 <= i < cards@.len() ==> #[trigger] r@[i] == (
                card_views(cards@)[i].price,
                card_views(cards@)[i].popularity_rank,
            ),
{
    let mut r: Vec<(Price, u64)> = Vec::new();
    let mut i: usize = 0;
    while i < cards.len()
        invariant
            0 <= i <= cards.len(),
            r@.len() == i,
            forall|j: int|
                0 <= j < i ==> #[trigger] r@[j] == (
                    card_views(cards@)[j].price,
                    card_views(cards@)[j].popularity_rank,
                ),
        decreases cards.len() - i,
    {
        r.push((cards[i].price, cards[i].popularity_rank));
        i = i + 1;
    }
    r
}

} // verus!
