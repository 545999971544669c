//! The normalized card record surviving extraction.

use vstd::prelude::*;
use crate::price::Price;
use crate::text::copy_bytes;

verus! {

/// One catalog entry: name, list price, popularity rank (lower is more
/// popular), and the free-text type line.
pub struct Card {
    pub name: Vec<u8>,
    pub type_line: Vec<u8>,
    pub price: Price,
    pub popularity_rank: u64,
}

/// A card's mathematical value.
pub struct CardV {
    pub name: Seq<u8>,
    pub type_line: Seq<u8>,
    pub price: Price,
    pub popularity_rank: u64,
}

impl View for Card {
    type V = CardV;

    open spec fn view(&self) -> CardV {
        CardV {
            name: self.name@,
            type_line: self.type_line@,
            price: self.price,
            popularity_rank: self.popularity_rank,
        }
    }
}

impl CardV {
    /// A well-formed card holds a well-formed price.
    pub open spec fn wf(self) -> bool {
        self.price.wf()
    }
}

/// The views of a card sequence.
pub open spec fn card_views(s: Seq<Card>) -> Seq<CardV> {
    s.map_values(|c: Card| c@)
}

/// Every card in the sequence is well-formed.
pub open spec fn all_wf(cs: Seq<CardV>) -> bool {
    forall|i: int| 0 <= i < cs.len() ==> (#[trigger] cs[i]).wf()
}

/// Copies a card.
pub fn copy_card(c: &Card) -> (r: Card)
    ensures
        r@ == c@,
{
    Card {
        name: copy_bytes(&c.name),
        type_line: copy_bytes(&c.type_line),
        price: c.price,
        popularity_rank: c.popularity_rank,
    }
}

} // verus!
