//! The suits of the cards.

use vstd::prelude::*;

verus! {

/// The four suits. A suit never enters into scoring.
#[derive(Debug, Copy, Clone, PartialEq, Eq, Structural, Hash)]
pub enum Suit {
    Hearts,
    Diamonds,
    Clubs,
    Spades,
}

impl Suit {
    pub open spec fn spec_name(self) -> Seq<char> {
        match self {
            Suit::Hearts => "Hearts"@,
            Suit::Diamonds => "Diamonds"@,
            Suit::Clubs => "Clubs"@,
            Suit::Spades => "Spades"@,
        }
    }

    /// All suits, in the order in which a fresh deck is laid out.
    pub open spec fn all() -> Seq<Suit> {
        seq![Suit::Hearts, Suit::Diamonds, Suit::Clubs, Suit::Spades]
    }

    pub fn to_string(&self) -> (name: &'static str)
        ensures
            name@ == self.spec_name(),
    {
        match self {
            Suit::Hearts => "Hearts",
            Suit::Diamonds => "Diamonds",
            Suit::Clubs => "Clubs",
            Suit::Spades => "Spades",
        }
    }

    /// All suits, in the order in which a fresh deck is laid out.
    pub fn iter() -> (suits: Vec<Suit>)
        ensures
            suits@ == Suit::all(),
    {
        let suits = vec![Suit::Hearts, Suit::Diamonds, Suit::Clubs, Suit::Spades];
        assert(suits@ =~= Suit::all());
        suits
    }
}

} // verus!
