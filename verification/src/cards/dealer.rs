//! The dealer and the house rule.

use crate::cards::card::Card;
use crate::cards::hand::Hand;
use vstd::prelude::*;

verus! {

/// The house: one hand, played by a fixed rule.
#[derive(Debug, Clone)]
pub struct Dealer {
    pub hand: Hand,
    pub hit_soft_17: bool,
}

impl Dealer {
    /// The house rule: draw on a soft 17 where the table says so, and
    /// otherwise stand on 17 or more.
    pub open spec fn spec_should_stand(&self) -> bool {
        if self.hit_soft_17 && self.hand.spec_is_soft_17() {
            false
        } else {
            self.hand.total >= 17
        }
    }

    pub fn new(hit_soft_17: bool) -> (dealer: Dealer)
        ensures
            dealer.hand.wf(),
            dealer.hand.cards@ == Seq::<Card>::empty(),
            dealer.hit_soft_17 == hit_soft_17,
    {
        Dealer { hand: Hand::new(), hit_soft_17 }
    }

    #[verifier::when_used_as_spec(spec_should_stand)]
    pub fn should_stand(&self) -> (stand: bool)
        ensures
            stand == self.spec_should_stand(),
    {
        if self.hit_soft_17 && self.hand.is_soft_17() {
            return false;
        }
        self.hand.total >= 17
    }
}

} // verus!
