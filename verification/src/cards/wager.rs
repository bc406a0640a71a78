//! A bet on one hand and what it wins or loses.

use crate::cards::card::Card;
use crate::cards::hand::Hand;
use crate::errors::StrikerError;
use vstd::prelude::*;

verus! {

/// The amount that stands once `bet` has been brought into
/// `[minimum, maximum]` and rounded up to an even number.
pub open spec fn accepted_bet(minimum: nat, maximum: nat, bet: nat) -> nat {
    let raised = if bet < minimum {
        minimum
    } else {
        bet
    };
    let clamped = if raised < maximum {
        raised
    } else {
        maximum
    };
    ((clamped + 1) / 2 * 2) as nat
}

/// One bet bound to one hand, with what it won or lost.
#[derive(Debug, Clone)]
pub struct Wager {
    pub hand: Hand,
    pub minimum_bet: usize,
    pub maximum_bet: usize,
    pub amount_bet: usize,
    pub amount_won: isize,
    pub insurance_bet: usize,
    pub insurance_won: isize,
}

impl Wager {
    pub fn new(minimum_bet: usize, maximum_bet: usize) -> (wager: Wager)
        ensures
            wager.hand.wf(),
            wager.hand.cards@ == Seq::<Card>::empty(),
            wager.minimum_bet == minimum_bet,
            wager.maximum_bet == maximum_bet,
            wager.amount_bet == 0,
            wager.amount_won == 0,
            wager.insurance_bet == 0,
            wager.insurance_won == 0,
    {
        Wager {
            hand: Hand::new(),
            minimum_bet,
            maximum_bet,
            amount_bet: 0,
            amount_won: 0,
            insurance_bet: 0,
            insurance_won: 0,
        }
    }

    /// Starts a new round on this wager: the hand is emptied, the outcome
    /// and the insurance are cleared, and the bet is set from `bet`.
    pub fn place_bet(&mut self, bet: usize)
        requires
            old(self).maximum_bet < usize::MAX,
        ensures
            final(self).hand.wf(),
            final(self).hand.cards@ == Seq::<Card>::empty(),
            final(self).minimum_bet == old(self).minimum_bet,
            final(self).maximum_bet == old(self).maximum_bet,
            final(self).amount_bet == accepted_bet(
                old(self).minimum_bet as nat,
                old(self).maximum_bet as nat,
                bet as nat,
            ),
            final(self).amount_won == 0,
            final(self).insurance_bet == 0,
            final(self).insurance_won == 0,
    {
        self.hand.reset();
        let raised: usize = if bet < self.minimum_bet {
            self.minimum_bet
        } else {
            bet
        };
        let clamped: usize = if raised < self.maximum_bet {
            raised
        } else {
            self.maximum_bet
        };
        self.amount_bet = ((clamped + 1) / 2) * 2;
        self.amount_won = 0;
        self.insurance_bet = 0;
        self.insurance_won = 0;
    }

    /// Takes insurance for half the bet, rounded down.
    pub fn place_insurance_bet(&mut self)
        ensures
            *final(self) == (Wager { insurance_bet: old(self).amount_bet / 2, ..*old(self) }),
    {
        self.insurance_bet = self.amount_bet / 2;
    }

    pub fn double_bet(&mut self)
        requires
            old(self).amount_bet * 2 <= usize::MAX,
        ensures
            *final(self)
                == (Wager { amount_bet: (old(self).amount_bet * 2) as usize, ..*old(self) }),
    {
        self.amount_bet = self.amount_bet * 2;
    }

    /// Pays a natural at `pays` to `bet`, rounded down.
    pub fn won_blackjack(&mut self, pays: usize, bet: usize)
        requires
            bet > 0,
            old(self).amount_bet * pays <= isize::MAX,
        ensures
            *final(self) == (Wager {
                amount_won: (old(self).amount_bet * pays / (bet as int)) as isize,
                ..*old(self)
            }),
            final(self).amount_won == old(self).amount_bet * pays / (bet as int),
    {
        assert(0 <= (self.amount_bet * pays) / (bet as int) <= self.amount_bet * pays)
            by (nonlinear_arith)
            requires
                bet > 0,
                self.amount_bet * pays >= 0,
        ;
        self.amount_won = ((self.amount_bet * pays) / bet) as isize;
    }

    pub fn won(&mut self)
        requires
            old(self).amount_bet <= isize::MAX,
        ensures
            *final(self) == (Wager { amount_won: old(self).amount_bet as isize, ..*old(self) }),
            final(self).amount_won == old(self).amount_bet,
    {
        self.amount_won = self.amount_bet as isize;
    }

    pub fn lost(&mut self)
        requires
            old(self).amount_bet <= isize::MAX,
        ensures
            *final(self) == (Wager { amount_won: (-old(self).amount_bet) as isize, ..*old(self) }),
            final(self).amount_won == -old(self).amount_bet,
    {
        self.amount_won = -(self.amount_bet as isize);
    }

    /// A tie: the wager stays as it is.
    pub fn push(&mut self)
        ensures
            *final(self) == *old(self),
    {
    }

    /// Insurance pays two to one.
    pub fn won_insurance(&mut self)
        requires
            old(self).insurance_bet * 2 <= isize::MAX,
        ensures
            *final(self) == (Wager {
                insurance_won: (old(self).insurance_bet * 2) as isize,
                ..*old(self)
            }),
            final(self).insurance_won == old(self).insurance_bet * 2,
    {
        self.insurance_won = (self.insurance_bet as isize) * 2;
    }

    pub fn lost_insurance(&mut self)
        requires
            old(self).insurance_bet <= isize::MAX,
        ensures
            *final(self) == (Wager {
                insurance_won: (-old(self).insurance_bet) as isize,
                ..*old(self)
            }),
            final(self).insurance_won == -old(self).insurance_bet,
    {
        self.insurance_won = -(self.insurance_bet as isize);
    }

    /// Splits a pair: the second card moves to `split`'s hand, and `split`
    /// carries the same bet. A hand that is not a pair is refused, and both
    /// wagers stay as they are.
    pub fn split_hand(&mut self, split: &mut Wager) -> (done: Result<(), StrikerError>)
        requires
            old(self).hand.wf(),
            old(split).hand.has_room(),
        ensures
            done.is_ok() == old(self).hand.spec_is_pair(),
            done.is_err() ==> done == Err::<(), StrikerError>(StrikerError::InvalidOperation)
                && *final(self) == *old(self) && *final(split) == *old(split),
            done.is_ok() ==> {
                &&& final(self).hand.wf()
                &&& final(self).hand.cards@ == seq![old(self).hand.cards@[0]]
                &&& final(split).hand.wf()
                &&& final(split).hand.cards@ == old(split).hand.cards@.push(
                    old(self).hand.cards@[1],
                )
                &&& final(split).amount_bet == old(self).amount_bet
                &&& final(self).minimum_bet == old(self).minimum_bet
                &&& final(self).maximum_bet == old(self).maximum_bet
                &&& final(self).amount_bet == old(self).amount_bet
                &&& final(self).amount_won == old(self).amount_won
                &&& final(self).insurance_bet == old(self).insurance_bet
                &&& final(self).insurance_won == old(self).insurance_won
                &&& final(split).minimum_bet == old(split).minimum_bet
                &&& final(split).maximum_bet == old(split).maximum_bet
                &&& final(split).amount_won == old(split).amount_won
                &&& final(split).insurance_bet == old(split).insurance_bet
                &&& final(split).insurance_won == old(split).insurance_won
            },
    {
        match self.hand.split_pair() {
            Err(e) => Err(e),
            Ok(split_card) => {
                split.amount_bet = self.amount_bet;
                split.hand.draw_card(Some(split_card));
                Ok(())
            },
        }
    }
}

} // verus!
