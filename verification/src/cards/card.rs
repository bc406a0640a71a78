//! A playing card.

use crate::cards::rank::Rank;
use crate::cards::suit::Suit;
use vstd::prelude::*;
use vstd::string::StringExecFns;

verus! {

/// One playing card.
#[derive(Debug, Copy, Clone, PartialEq, Eq, Structural, Hash)]
pub struct Card {
    pub rank: Rank,
    pub suit: Suit,
}

impl Card {
    pub open spec fn spec_name(self) -> Seq<char> {
        self.rank.spec_name() + " of "@ + self.suit.spec_name()
    }

    pub fn new(rank: Rank, suit: Suit) -> (card: Card)
        ensures
            card.rank == rank,
            card.suit == suit,
    {
        Card { rank, suit }
    }

    pub fn same_rank(&self, other: &Card) -> (same: bool)
        ensures
            same == (self.rank == other.rank),
    {
        self.rank == other.rank
    }

    pub fn is_ace(&self) -> (ace: bool)
        ensures
            ace == (self.rank == Rank::Ace),
    {
        self.rank == Rank::Ace
    }

    /// The card written out, as in "Ace of Hearts".
    pub fn to_string(&self) -> (name: String)
        ensures
            name@ == self.spec_name(),
    {
        let mut name = String::from_str(self.rank.to_string());
        name.append(" of ");
        name.append(self.suit.to_string());
        name
    }
}

} // verus!
