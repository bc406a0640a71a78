//! The house rules.

use vstd::prelude::*;

verus! {

/// The house rules of one table.
#[derive(Debug, Clone)]
pub struct Rules {
    pub playbook: String,
    pub hit_soft_17: bool,
    pub surrender: bool,
    pub double_any_two_cards: bool,
    pub double_after_split: bool,
    pub resplit_aces: bool,
    pub hit_split_aces: bool,
    /// A natural pays `blackjack_pays` for every `blackjack_bets` staked.
    pub blackjack_bets: usize,
    pub blackjack_pays: usize,
    /// The part of the shoe that is dealt before a reshuffle, in
    /// thousandths.
    pub penetration: usize,
}

impl Rules {
    /// Rules with nothing set: every switch off and every number zero.
    pub open spec fn spec_blank(&self) -> bool {
        &&& self.playbook@ == Seq::<char>::empty()
        &&& !self.hit_soft_17
        &&& !self.surrender
        &&& !self.double_any_two_cards
        &&& !self.double_after_split
        &&& !self.resplit_aces
        &&& !self.hit_split_aces
        &&& self.blackjack_bets == 0
        &&& self.blackjack_pays == 0
        &&& self.penetration == 0
    }

    pub fn new() -> (rules: Rules)
        ensures
            rules.spec_blank(),
    {
        Rules {
            playbook: String::new(),
            hit_soft_17: false,
            surrender: false,
            double_any_two_cards: false,
            double_after_split: false,
            resplit_aces: false,
            hit_split_aces: false,
            blackjack_bets: 0,
            blackjack_pays: 0,
            penetration: 0,
        }
    }
}

impl Default for Rules {
    fn default() -> (rules: Rules)
        ensures
            rules.spec_blank(),
    {
        Rules::new()
    }
}

} // verus!
