//! The report formatter: one text line per record, in the query's order.
//! Dump mode renders `<price>, <rank>`; top-K mode renders `1 <name>`, the
//! deck-list quantity-plus-name convention.

use vstd::prelude::*;
use crate::card::Card;
use crate::card::card_views;
use crate::card::all_wf;
use crate::digits::dec_digits;
use crate::digits::u64_to_dec;
use crate::price::Price;
use crate::price::price_text;
use crate::price::render_price;
use crate::query::price_rank_pairs;
use crate::text::byte_views;
use crate::text::copy_bytes;

verus! {

/// A dump line: the price's decimal text, a comma and a space, the rank.
pub open spec fn dump_line(p: Price, rank: u64) -> Seq<u8> {
    price_text(p) + seq![44u8, 32u8] + dec_digits(rank as nat)
}

/// A top-K line: the literal `1`, a space, the card's name.
pub open spec fn top_line(name: Seq<u8>) -> Seq<u8> {
    seq![49u8, 32u8] + name
}

/// Renders the price/rank pairs, one line per pair, in order.
#[verifier::loop_isolation(false)]
pub fn render_dump_lines(pairs: &Vec<(Price, u64)>) -> (r: Vec<Vec<u8>>)
    requires
        forall|i: int| 0 <= i < pairs@.len() ==> (#[trigger] pairs@[i]).0.wf(),
    ensures
        r@.len() == pairs@.len(),
        forall|i: int|
            0 <= i < pairs@.len() ==> byte_views(r@)[i] == dump_line(
                (#[trigger] pairs@[i]).0,
                pairs@[i].1,
            ),
{
    let mut r: Vec<Vec<u8>> = Vec::new();
    let mut i: usize = 0;
    while i < pairs.len()
        invariant
            0 <= i <= pairs.len(),
            r@.len() == i,
            forall|j: int|
                0 <= j < i ==> byte_views(r@)[j] == dump_line(
                    (#[trigger] pairs@[j]).0,
                    pairs@[j].1,
                ),
        decreases pairs.len() - i,
    {
        let mut line = render_price(&pairs[i].0);
        line.push(44);
        line.push(32);
        let mut rank_text = u64_to_dec(pairs[i].1);
        line.append(&mut rank_text);
        proof {
            assert(line@ =~= dump_line(pairs@[i as int].0, pairs@[i as int].1));
        }
        let ghost prev = r@;
        let ghost lv = line@;
        r.push(line);
        proof {
            assert(byte_views(r@) =~= byte_views(prev).push(lv));
        }
        i = i + 1;
    }
    r
}

/// Renders the top-K cards, one line per card, in order.
#[verifier::loop_isolation(false)]
pub fn render_top_lines(cards: &Vec<Card>) -> (r: Vec<Vec<u8>>)
    ensures
        r@.len() == cards@.len(),
        forall|i: int|
            0 <= i < cards@.len() ==> byte_views(r@)[i] == top_line(card_views(cards@)[i].name),
{
    let mut r: Vec<Vec<u8>> = Vec::new();
    let mut i: usize = 0;
    while i < cards.len()
        invariant
            0 <= i <= cards.len(),
            r@.len() == i,
            forall|j: int|
                0 <= j < i ==> byte_views(r@)[j] == top_line(card_views(cards@)[j].name),
        decreases cards.len() - i,
    {
        let mut line: Vec<u8> = Vec::new();
        line.push(49);
        line.push(32);
        let mut name = copy_bytes(&cards[i].name);
        line.append(&mut name);
        proof {
            assert(line@ =~= top_line(card_views(cards@)[i as int].name));
        }
        let ghost prev = r@;
        let ghost lv = line@;
        r.push(line);
        proof {
            assert(byte_views(r@) =~= byte_views(prev).push(lv));
        }
        i = i + 1;
    }
    r
}

/// The full dump report of a collection: every card's price and rank, one
/// line each, in the collection's order.
pub fn price_rank_csv(cards: &Vec<Card>) -> (r: Vec<Vec<u8>>)
    requires
        all_wf(card_views(cards@)),
    ensures
        r@.len() == cards@.len(),
        forall|i: int|
            0 <= i < cards@.len() ==> byte_views(r@)[i] == dump_line(
                card_views(cards@)[i].price,
                card_views(cards@)[i].popularity_rank,
            ),
{
    let pairs = price_rank_pairs(cards);
    assert(forall|i: int| 0 <= i < pairs@.len() ==> (#[trigger] pairs@[i]).0.wf());
    let r = render_dump_lines(&pairs);
    proof {
        assert forall|i: int| 0 <= i < cards@.len() implies byte_views(r@)[i] == dump_line(
            card_views(cards@)[i].price,
            card_views(cards@)[i].popularity_rank,
        ) by {
            assert(pairs@[i] == (card_views(cards@)[i].price, card_views(cards@)[i].popularity_rank));
        }
    }
    r
}

} // verus!
