//! The table: the deal, the round of play, and the session of a worker.

use crate::arguments::parameters::Parameters;
use crate::cards::card::Card;
use crate::cards::dealer::Dealer;
use crate::cards::hand::{drawn_by_rule, lemma_drawn_by_rule_push, lemma_hand_total_at_least_len};
use crate::cards::shoe::{cut_card_for, Shoe};
use crate::cards::wager::Wager;
use crate::errors::StrikerError;
use crate::cards::rank::Rank;
use crate::cards::wager::accepted_bet;
use crate::constants::constants::{MAXIMUM_BET, MINIMUM_BET};
use crate::player::payoff::{
    lemma_small_stake_settles, lemma_small_stake_wins, odds_bounded, settled, settled_within,
    stake_bounded,
};
use crate::player::player::{
    begins_with, cards_held, drew_at_most, grew, headroom, out_of_draws, out_of_room,
    same_outcome, seen_with, splits_off, Player,
};
use crate::strategy::strategy::{cards_seen, running_count_fits, within};
use crate::report::report::{Counters, Report};
use crate::strategy::rules::Rules;
use crate::strategy::strategy::Strategy;
use vstd::prelude::*;

verus! {

/// One table: a shoe, the dealer, the player, and what was counted.
/// A worker owns one table and shares nothing with the others.
#[derive(Debug, Clone)]
pub struct Table {
    pub parameters: Parameters,
    pub shoe: Shoe,
    pub dealer: Dealer,
    pub player: Player,
    pub report: Report,
    /// The dealer's card that lies face up.
    pub up: Option<Card>,
    /// The dealer's hole card, which the player has not seen.
    pub down: Option<Card>,
}

impl Table {
    pub open spec fn wf(&self) -> bool {
        &&& self.shoe.wf()
        &&& self.dealer.hand.wf()
        &&& self.player.wf()
    }

    /// A card can be drawn: the shoe's counters have room for a reshuffle.
    pub open spec fn spec_can_draw(&self) -> bool {
        self.shoe.number_of_shuffles < usize::MAX && self.shoe.out_of_cards < usize::MAX
    }

    /// The worker has not yet played its share of hands.
    pub open spec fn spec_hand_due(&self) -> bool {
        self.report.total_hands < self.parameters.share_of_hands
    }

    /// A table for one worker: a fresh shoe of the decks asked for, cut
    /// at the penetration of the rules, a dealer who plays by the rules,
    /// and a player with the strategy.
    pub fn new(parameters: Parameters, rules: Rules, strategy: Strategy) -> (table: Table)
        requires
            strategy.wf(),
            1 <= parameters.number_of_decks,
            52 * parameters.number_of_decks <= usize::MAX,
        ensures
            table.wf(),
            table.parameters == parameters,
            table.player.rules == rules,
            table.player.strategy == strategy,
            table.dealer.hit_soft_17 == rules.hit_soft_17,
            table.shoe.number_of_cards == 52 * parameters.number_of_decks,
            table.shoe.cut_card == cut_card_for(
                table.shoe.number_of_cards as nat,
                rules.penetration as nat,
            ),
            table.report.counters() == Counters::zero(),
            table.player.report.counters() == Counters::zero(),
            table.player.seen_cards@ == Seq::new(13, |i: int| 0usize),
            table.shoe.number_of_shuffles == 1,
            table.shoe.out_of_cards == 0,
            table.shoe.next_card == table.shoe.burn_card,
            table.shoe.last_discard == table.shoe.number_of_cards,
            !table.shoe.force_shuffle,
            table.up.is_none(),
            table.down.is_none(),
    {
        let shoe = Shoe::new(parameters.number_of_decks, rules.penetration);
        let dealer = Dealer::new(rules.hit_soft_17);
        Table {
            player: Player::new(rules, strategy),
            shoe,
            dealer,
            report: Report::new(),
            up: None,
            down: None,
            parameters,
        }
    }

    /// Shows a card to the player, who counts it as seen.
    pub fn show_card(&mut self, card: &Option<Card>) -> (done: Result<(), StrikerError>)
        ensures
            done.is_ok() == (card.is_none()
                || old(self).player.seen_cards@[card.unwrap().rank.spec_value() as int]
                < usize::MAX),
            done.is_err()
                ==> done == Err::<(), StrikerError>(StrikerError::Overflow) && *final(self)
                == *old(self),
            done.is_ok() && card.is_none() ==> *final(self) == *old(self),
            done.is_ok() && card.is_some() ==> final(self).player.seen_cards@ == seen_with(
                old(self).player.seen_cards@,
                card.unwrap().rank.spec_value() as int,
            ) && cards_seen(final(self).player.seen_cards@) == cards_seen(
                old(self).player.seen_cards@,
            ) + 1,
            final(self).parameters == old(self).parameters,
            final(self).shoe == old(self).shoe,
            final(self).dealer == old(self).dealer,
            final(self).report == old(self).report,
            final(self).up == old(self).up,
            final(self).down == old(self).down,
            final(self).player.rules == old(self).player.rules,
            final(self).player.strategy == old(self).player.strategy,
            final(self).player.wager == old(self).player.wager,
            final(self).player.splits == old(self).player.splits,
            final(self).player.report == old(self).player.report,
    {
        self.player.show_card(card)
    }

    pub fn get_report(&self) -> (report: &Report)
        ensures
            *report == self.report,
    {
        &self.report
    }

    /// Whether the worker has not yet played its share of hands.
    #[verifier::when_used_as_spec(spec_hand_due)]
    pub fn hand_due(&self) -> (due: bool)
        ensures
            due == self.spec_hand_due(),
    {
        self.report.total_hands < self.parameters.share_of_hands
    }

    /// Draws a card from the shoe.
    fn draw(&mut self) -> (drawn: Result<Card, StrikerError>)
        requires
            old(self).shoe.wf(),
        ensures
            final(self).shoe.wf(),
            Shoe::drawn_from(old(self).shoe, final(self).shoe),
            *final(self) == (Table { shoe: final(self).shoe, ..*old(self) }),
            drawn.is_ok() == old(self).spec_can_draw(),
            drawn.is_err()
                ==> drawn == Err::<Card, StrikerError>(StrikerError::Overflow) && *final(self)
                == *old(self),
            drawn.is_ok() ==> Shoe::drew(old(self).shoe, final(self).shoe, Some(drawn.unwrap())),
            drew_at_most(old(self).player.seen_cards@, final(self).player.seen_cards@,
                old(self).shoe, final(self).shoe, 1),
    {
        if self.shoe.number_of_shuffles == usize::MAX || self.shoe.out_of_cards == usize::MAX {
            return Err(StrikerError::Overflow);
        }
        let card = self.shoe.draw_card();
        Ok(card.unwrap())
    }

    /// Draws a card from the shoe into the player's hand, face up.
    fn deal_to_player(&mut self) -> (dealt: Result<Card, StrikerError>)
        requires
            old(self).wf(),
        ensures
            final(self).wf(),
            Shoe::drawn_from(old(self).shoe, final(self).shoe),
            final(self).parameters == old(self).parameters,
            final(self).dealer == old(self).dealer,
            final(self).report == old(self).report,
            final(self).up == old(self).up,
            final(self).down == old(self).down,
            final(self).player.rules == old(self).player.rules,
            final(self).player.strategy == old(self).player.strategy,
            final(self).player.splits == old(self).player.splits,
            final(self).player.report == old(self).player.report,
            dealt.is_err() ==> dealt == Err::<Card, StrikerError>(StrikerError::Overflow),
            dealt.is_ok() ==> {
                &&& Shoe::drew(old(self).shoe, final(self).shoe, Some(dealt.unwrap()))
                &&& final(self).player.wager == (Wager {
                    hand: final(self).player.wager.hand,
                    ..old(self).player.wager
                })
                &&& final(self).player.wager.hand.cards@ == old(self).player.wager.hand.cards@.push(
                    dealt.unwrap(),
                )
                &&& final(self).player.seen_cards@ == seen_with(
                    old(self).player.seen_cards@,
                    dealt.unwrap().rank.spec_value() as int,
                )
                &&& cards_seen(final(self).player.seen_cards@) == cards_seen(
                    old(self).player.seen_cards@,
                ) + 1
            },
            drew_at_most(old(self).player.seen_cards@, final(self).player.seen_cards@,
                old(self).shoe, final(self).shoe, 1),
            headroom(old(self).player.seen_cards@, old(self).shoe, 1)
                && old(self).player.wager.hand.has_room() ==> dealt.is_ok(),
            dealt.is_err()
                ==> !headroom(final(self).player.seen_cards@, final(self).shoe, 1)
                || !old(self).player.wager.hand.has_room(),
    {
        if self.player.wager.hand.cards.len() >= usize::MAX / 11 {
            return Err(StrikerError::Overflow);
        }
        match self.draw() {
            Err(e) => Err(e),
            Ok(card) => match self.player.draw_card(Some(card)) {
                Err(e) => Err(e),
                Ok(()) => Ok(card),
            },
        }
    }

    /// Draws a card from the shoe into the dealer's hand. The player does
    /// not see it yet.
    fn deal_to_dealer(&mut self) -> (dealt: Result<Card, StrikerError>)
        requires
            old(self).wf(),
        ensures
            final(self).wf(),
            Shoe::drawn_from(old(self).shoe, final(self).shoe),
            final(self).parameters == old(self).parameters,
            final(self).player == old(self).player,
            final(self).report == old(self).report,
            final(self).up == old(self).up,
            final(self).down == old(self).down,
            final(self).dealer.hit_soft_17 == old(self).dealer.hit_soft_17,
            dealt.is_err()
                ==> dealt == Err::<Card, StrikerError>(StrikerError::Overflow) && *final(self)
                == *old(self),
            dealt.is_ok() ==> {
                &&& Shoe::drew(old(self).shoe, final(self).shoe, Some(dealt.unwrap()))
                &&& final(self).dealer.hand.cards@ == old(self).dealer.hand.cards@.push(
                    dealt.unwrap(),
                )
            },
            drew_at_most(old(self).player.seen_cards@, final(self).player.seen_cards@,
                old(self).shoe, final(self).shoe, 1),
            dealt.is_ok() == (old(self).spec_can_draw() && old(self).dealer.hand.has_room()),
    {
        if self.dealer.hand.cards.len() >= usize::MAX / 11 {
            return Err(StrikerError::Overflow);
        }
        match self.draw() {
            Err(e) => Err(e),
            Ok(card) => {
                self.dealer.hand.draw_card(Some(card));
                Ok(card)
            },
        }
    }

    /// Deals the first four cards of a round: one to the player, the hole
    /// card to the dealer, one to the player, and the up-card to the
    /// dealer. The player sees every card but the hole card.
    pub fn deal_cards(&mut self) -> (done: Result<(), StrikerError>)
        requires
            old(self).wf(),
        ensures
            final(self).wf(),
            Shoe::drawn_from(old(self).shoe, final(self).shoe),
            final(self).parameters == old(self).parameters,
            final(self).report == old(self).report,
            final(self).dealer.hit_soft_17 == old(self).dealer.hit_soft_17,
            final(self).player.rules == old(self).player.rules,
            final(self).player.strategy == old(self).player.strategy,
            final(self).player.splits == old(self).player.splits,
            final(self).player.report == old(self).player.report,
            done.is_err() ==> done == Err::<(), StrikerError>(StrikerError::Overflow),
            done.is_ok() ==> {
                let mine = final(self).player.wager.hand.cards@;
                let dealers = final(self).dealer.hand.cards@;
                let had = old(self).player.wager.hand.cards@.len() as int;
                &&& final(self).up.is_some()
                &&& final(self).down.is_some()
                &&& final(self).player.wager == (Wager {
                    hand: final(self).player.wager.hand,
                    ..old(self).player.wager
                })
                &&& mine.len() == had + 2
                &&& begins_with(mine, old(self).player.wager.hand.cards@)
                &&& dealers == old(self).dealer.hand.cards@.push(final(self).down.unwrap()).push(
                    final(self).up.unwrap(),
                )
                &&& final(self).player.seen_cards@ == seen_with(
                    seen_with(
                        seen_with(
                            old(self).player.seen_cards@,
                            mine[had].rank.spec_value() as int,
                        ),
                        mine[had + 1].rank.spec_value() as int,
                    ),
                    final(self).up.unwrap().rank.spec_value() as int,
                )
                &&& cards_seen(final(self).player.seen_cards@) == cards_seen(
                    old(self).player.seen_cards@,
                ) + 3
                &&& old(self).shoe.next_card + 4 <= old(self).shoe.number_of_cards ==> {
                    let next = old(self).shoe.next_card as int;
                    let cards = old(self).shoe.cards@;
                    &&& final(self).shoe == (Shoe { next_card: (next
                        + 4) as usize, ..old(self).shoe })
                    &&& mine[had] == cards[next]
                    &&& final(self).down == Some(cards[next + 1])
                    &&& mine[had + 1] == cards[next + 2]
                    &&& final(self).up == Some(cards[next + 3])
                }
            },
            drew_at_most(old(self).player.seen_cards@, final(self).player.seen_cards@,
                old(self).shoe, final(self).shoe, 4),
            headroom(old(self).player.seen_cards@, old(self).shoe, 4)
                && 11 * (old(self).player.wager.hand.cards@.len() + 2) <= usize::MAX
                && 11 * (old(self).dealer.hand.cards@.len() + 2) <= usize::MAX ==> done.is_ok(),
            done.is_err() && 11 * (old(self).player.wager.hand.cards@.len() + 2) <= usize::MAX
                && 11 * (old(self).dealer.hand.cards@.len() + 2) <= usize::MAX
                ==> !headroom(final(self).player.seen_cards@, final(self).shoe, 1),
    {
        match self.deal_to_player() {
            Err(e) => {
                return Err(e);
            },
            Ok(_) => {},
        }
        match self.deal_to_dealer() {
            Err(e) => {
                return Err(e);
            },
            Ok(card) => {
                self.down = Some(card);
            },
        }
        match self.deal_to_player() {
            Err(e) => {
                return Err(e);
            },
            Ok(_) => {},
        }
        match self.deal_to_dealer() {
            Err(e) => {
                return Err(e);
            },
            Ok(card) => {
                self.up = Some(card);
            },
        }
        let up = self.up;
        self.show_card(&up)
    }

    /// The dealer draws until the house rule says stand. The player sees
    /// every card that is drawn.
    fn dealer_plays(&mut self) -> (done: Result<(), StrikerError>)
        requires
            old(self).wf(),
        ensures
            final(self).wf(),
            Shoe::drawn_from(old(self).shoe, final(self).shoe),
            final(self).parameters == old(self).parameters,
            final(self).report == old(self).report,
            final(self).up == old(self).up,
            final(self).down == old(self).down,
            final(self).dealer.hit_soft_17 == old(self).dealer.hit_soft_17,
            final(self).player.rules == old(self).player.rules,
            final(self).player.strategy == old(self).player.strategy,
            final(self).player.wager == old(self).player.wager,
            final(self).player.splits == old(self).player.splits,
            final(self).player.report == old(self).player.report,
            grew(old(self).player.seen_cards@, final(self).player.seen_cards@),
            begins_with(final(self).dealer.hand.cards@, old(self).dealer.hand.cards@),
            done.is_err() ==> done == Err::<(), StrikerError>(StrikerError::Overflow),
            done.is_ok() ==> final(self).dealer.spec_should_stand(),
            done.is_ok() ==> drawn_by_rule(
                old(self).dealer.hand.cards@.len() as int,
                final(self).dealer.hand.cards@,
                old(self).dealer.hit_soft_17,
            ),
            done.is_ok() ==> cards_seen(final(self).player.seen_cards@) - cards_seen(
                old(self).player.seen_cards@,
            ) == final(self).dealer.hand.cards@.len() - old(self).dealer.hand.cards@.len(),
            old(self).dealer.spec_should_stand() ==> done.is_ok() && *final(self) == *old(self),
            drew_at_most(old(self).player.seen_cards@, final(self).player.seen_cards@,
                old(self).shoe, final(self).shoe, 22),
            headroom(old(self).player.seen_cards@, old(self).shoe, 22) ==> done.is_ok(),
            done.is_err() ==> !headroom(final(self).player.seen_cards@, final(self).shoe, 1),
    {
        while !self.dealer.should_stand()
            invariant
                drew_at_most(old(self).player.seen_cards@, self.player.seen_cards@, old(self).shoe,
                    self.shoe, self.dealer.hand.cards@.len() - old(self).dealer.hand.cards@.len()),
                self.dealer.hand.cards@.len() - old(self).dealer.hand.cards@.len() <= 22,
                self.wf(),
                Shoe::drawn_from(old(self).shoe, self.shoe),
                self.parameters == old(self).parameters,
                self.report == old(self).report,
                self.up == old(self).up,
                self.down == old(self).down,
                self.dealer.hit_soft_17 == old(self).dealer.hit_soft_17,
                self.player.rules == old(self).player.rules,
                self.player.strategy == old(self).player.strategy,
                self.player.wager == old(self).player.wager,
                self.player.splits == old(self).player.splits,
                self.player.report == old(self).player.report,
                grew(old(self).player.seen_cards@, self.player.seen_cards@),
                begins_with(self.dealer.hand.cards@, old(self).dealer.hand.cards@),
                cards_seen(self.player.seen_cards@) - cards_seen(old(self).player.seen_cards@)
                    == self.dealer.hand.cards@.len() - old(self).dealer.hand.cards@.len(),
                old(self).dealer.spec_should_stand() ==> *self == *old(self),
                drawn_by_rule(
                    old(self).dealer.hand.cards@.len() as int,
                    self.dealer.hand.cards@,
                    old(self).dealer.hit_soft_17,
                ),
            decreases 23 - self.dealer.hand.cards@.len(),
        {
            let ghost held = self.dealer.hand.cards@;
            proof {
                lemma_hand_total_at_least_len(held);
            }
            match self.deal_to_dealer() {
                Err(e) => {
                    return Err(e);
                },
                Ok(card) => {
                    proof {
                        lemma_drawn_by_rule_push(
                            old(self).dealer.hand.cards@.len() as int,
                            held,
                            card,
                            old(self).dealer.hit_soft_17,
                        );
                    }
                    match self.show_card(&Some(card)) {
                        Err(e) => {
                            return Err(e);
                        },
                        Ok(()) => {},
                    }
                },
            }
        }
        Ok(())
    }

    /// The bet that stands on a hand before which the player has seen the
    /// cards of `seen`: what the player asks for as far as the table
    /// accepts it. (Where the bet cannot be computed, no hand is played.)
    pub open spec fn spec_bet(&self, seen: Seq<usize>, mimic: bool) -> nat {
        accepted_bet(
            MINIMUM_BET as nat,
            MAXIMUM_BET as nat,
            if mimic {
                MINIMUM_BET as nat
            } else {
                self.player.strategy.spec_bet(seen).unwrap() as nat
            },
        )
    }

    /// The cards that the player has seen when the next hand begins:
    /// none where the shoe is shuffled first.
    pub open spec fn spec_seen_before(&self) -> Seq<usize> {
        if self.spec_shuffle_due() {
            Seq::new(13, |i: int| 0usize)
        } else {
            self.player.seen_cards@
        }
    }

    /// The table as it stands once a hand is opened on the table
    /// `before`: the bet is placed, the player and the dealer hold two
    /// cards each, of which the player has seen all but the hole card,
    /// and insurance is taken where it was offered and the strategy said
    /// so.
    pub open spec fn spec_opened(&self, before: Table, mimic: bool) -> bool {
        let bet = before.spec_bet(before.player.seen_cards@, mimic);
        &&& self.up.is_some()
        &&& self.down.is_some()
        &&& self.dealer.hand.cards@ == seq![self.down.unwrap(), self.up.unwrap()]
        &&& self.player.wager.hand.cards@.len() == 2
        &&& self.player.splits@.len() == 0
        &&& self.player.wager.amount_bet == bet
        &&& self.player.wager.amount_won == 0
        &&& self.player.wager.insurance_won == 0
        &&& self.player.wager.insurance_bet == if !mimic && self.up.unwrap().rank == Rank::Ace
            && self.player.strategy.spec_insurance(self.player.seen_cards@) == Ok::<
            bool,
            StrikerError,
        >(true) {
            bet / 2
        } else {
            0
        }
        &&& self.player.seen_cards@ == seen_with(
            seen_with(
                seen_with(
                    before.player.seen_cards@,
                    self.player.wager.hand.cards@[0].rank.spec_value() as int,
                ),
                self.player.wager.hand.cards@[1].rank.spec_value() as int,
            ),
            self.up.unwrap().rank.spec_value() as int,
        )
        &&& self.player.report == before.player.report
        &&& cards_seen(self.player.seen_cards@) == cards_seen(before.player.seen_cards@) + 3
    }

    /// Opens a hand: the bet is placed, four cards are dealt, and
    /// insurance is offered against an ace, but not to a player who
    /// mimics the dealer.
    fn open_hand(&mut self, mimic: bool) -> (done: Result<(), StrikerError>)
        requires
            old(self).wf(),
        ensures
            final(self).wf(),
            Shoe::drawn_from(old(self).shoe, final(self).shoe),
            final(self).parameters == old(self).parameters,
            final(self).report == old(self).report,
            final(self).dealer.hit_soft_17 == old(self).dealer.hit_soft_17,
            final(self).player.rules == old(self).player.rules,
            final(self).player.strategy == old(self).player.strategy,
            final(self).player.report == old(self).player.report,
            done.is_err() ==> done == Err::<(), StrikerError>(StrikerError::Overflow),
            old(self).player.spec_asked_bet(mimic).is_err() ==> done.is_err(),
            done.is_ok() ==> final(self).spec_opened(*old(self), mimic),
            drew_at_most(old(self).player.seen_cards@, final(self).player.seen_cards@,
                old(self).shoe, final(self).shoe, 4),
            mimic && headroom(old(self).player.seen_cards@, old(self).shoe, 4) ==> done.is_ok(),
            done.is_err()
                ==> out_of_draws(final(self).player.strategy, final(self).player.seen_cards@,
                final(self).shoe),
    {
        self.dealer.hand.reset();
        match self.player.place_bet(mimic) {
            Err(e) => {
                return Err(e);
            },
            Ok(()) => {},
        }
        match self.deal_cards() {
            Err(e) => {
                return Err(e);
            },
            Ok(()) => {},
        }
        assert(self.dealer.hand.cards@ =~= seq![self.down.unwrap(), self.up.unwrap()]);
        let up: Card = self.up.unwrap();
        if !mimic && up.is_ace() {
            self.player.insurance()
        } else {
            Ok(())
        }
    }

    /// What play has drawn and counted since `before` at most: `draws`
    /// cards and 24 more for each split in a slot of the histogram and
    /// in a counter of the shoe, and one natural, one double and one
    /// split of aces.
    pub open spec fn spec_drew_within(&self, before: Table, draws: int) -> bool {
        let report = self.player.report;
        let was = before.player.report;
        &&& report.total_splits >= was.total_splits
        &&& drew_at_most(
            before.player.seen_cards@,
            self.player.seen_cards@,
            before.shoe,
            self.shoe,
            draws + 24 * (report.total_splits - was.total_splits),
        )
        &&& was.total_splits_ace <= report.total_splits_ace <= was.total_splits_ace + 1
        &&& was.total_doubles <= report.total_doubles <= was.total_doubles + 1
        &&& was.total_blackjacks <= report.total_blackjacks <= was.total_blackjacks + 1
    }

    /// Where play drew within `draws` cards up to `middle`, and at most
    /// `more` cards were drawn after that with nothing else changed in the
    /// player's report, play drew within both.
    proof fn lemma_drew_more(before: Table, middle: Table, after: Table, draws: int, more: int)
        requires
            middle.spec_drew_within(before, draws),
            after.player.report == middle.player.report,
            drew_at_most(
                middle.player.seen_cards@,
                after.player.seen_cards@,
                middle.shoe,
                after.shoe,
                more,
            ) || (after.shoe == middle.shoe && more >= 1 && exists|value: int|
                0 <= value < 13 && after.player.seen_cards@ == #[trigger] seen_with(
                    middle.player.seen_cards@,
                    value,
                )) || (after.shoe == middle.shoe && after.player.seen_cards@
                == middle.player.seen_cards@ && more >= 0),
        ensures
            after.spec_drew_within(before, draws + more),
    {
    }

    /// Plays an opened hand out: unless the dealer has blackjack the
    /// player plays, and the dealer after the player if a hand of the
    /// player is still live. Then the hole card is shown.
    #[verifier::rlimit(60)]
    fn play_out(&mut self, mimic: bool) -> (done: Result<(), StrikerError>)
        requires
            old(self).wf(),
            old(self).up.is_some(),
        ensures
            final(self).wf(),
            Shoe::drawn_from(old(self).shoe, final(self).shoe),
            final(self).parameters == old(self).parameters,
            final(self).report == old(self).report,
            final(self).up == old(self).up,
            final(self).down == old(self).down,
            final(self).dealer.hit_soft_17 == old(self).dealer.hit_soft_17,
            final(self).player.rules == old(self).player.rules,
            final(self).player.strategy == old(self).player.strategy,
            final(self).player.report.same_heading(&old(self).player.report),
            final(self).player.report.same_table_counts(&old(self).player.report),
            final(self).player.report.same_settlements(&old(self).player.report),
            begins_with(final(self).dealer.hand.cards@, old(self).dealer.hand.cards@),
            begins_with(final(self).player.splits@, old(self).player.splits@),
            done.is_err()
                ==> done == Err::<(), StrikerError>(StrikerError::Overflow)
                    || done == Err::<(), StrikerError>(StrikerError::Lookup),
            done.is_ok() ==> {
                let natural = old(self).player.wager.hand.spec_is_blackjack();
                let played = !old(self).dealer.hand.spec_is_blackjack();
                &&& final(self).dealer.hand.cards@.len() > old(self).dealer.hand.cards@.len()
                    ==> final(self).dealer.spec_should_stand()
                &&& drawn_by_rule(
                    old(self).dealer.hand.cards@.len() as int,
                    final(self).dealer.hand.cards@,
                    old(self).dealer.hit_soft_17,
                )
                &&& !played || final(self).player.spec_busted_or_blackjack()
                    ==> final(self).dealer.hand == old(self).dealer.hand
                &&& played && !final(self).player.spec_busted_or_blackjack()
                    ==> final(self).dealer.spec_should_stand()
                &&& !played ==> final(self).dealer == old(self).dealer && final(self).player.wager
                    == old(self).player.wager
                        && final(self).player.splits == old(self).player.splits
                        && final(self).player.report == old(self).player.report
                &&& same_outcome(old(self).player.wager, final(self).player.wager)
                &&& {
                    ||| final(self).player.wager.amount_bet == old(self).player.wager.amount_bet
                        && final(self).player.report.total_doubles
                            == old(self).player.report.total_doubles
                    ||| final(self).player.wager.amount_bet == old(self).player.wager.amount_bet
                        * 2 && final(self).player.report.total_doubles
                            == old(self).player.report.total_doubles + 1
                }
                &&& final(self).player.report.total_splits_ace
                    == old(self).player.report.total_splits_ace
                    + if final(self).player.splits@.len() > old(self).player.splits@.len()
                    && old(self).player.wager.hand.spec_is_pair_of_aces() {
                    1int
                } else {
                    0int
                }
                &&& splits_off(
                    final(self).player.splits@,
                    old(self).player.splits@.len() as int,
                    old(self).player.wager.amount_bet,
                )
                &&& final(self).player.report.total_splits - old(self).player.report.total_splits
                    == final(self).player.splits@.len() - old(self).player.splits@.len()
                &&& final(self).player.report.total_blackjacks
                    == old(self).player.report.total_blackjacks + if played && natural {
                    1int
                } else {
                    0int
                }
                &&& final(self).player.splits@.len() > old(self).player.splits@.len()
                    ==> old(self).player.wager.hand.spec_is_pair()
                &&& old(self).player.wager.hand.cards@.len() > 0
                    ==> final(self).player.wager.hand.cards@.len() > 0
                    && final(self).player.wager.hand.cards@[0]
                    == old(self).player.wager.hand.cards@[0]
                &&& natural ==> final(self).player.wager.hand == old(self).player.wager.hand
                    && final(self).player.splits == old(self).player.splits
                &&& final(self).player.splits@.len() == old(self).player.splits@.len()
                    ==> begins_with(
                    final(self).player.wager.hand.cards@,
                    old(self).player.wager.hand.cards@,
                )
                &&& cards_seen(final(self).player.seen_cards@) - cards_seen(
                    old(self).player.seen_cards@,
                ) == final(self).player.spec_cards_held() - old(self).player.spec_cards_held()
                    + final(self).dealer.hand.cards@.len() - old(self).dealer.hand.cards@.len()
                    + if old(self).down.is_some() {
                    1int
                } else {
                    0int
                }
            },
            mimic ==> drew_at_most(
                old(self).player.seen_cards@,
                final(self).player.seen_cards@,
                old(self).shoe,
                final(self).shoe,
                45,
            ),
            mimic && headroom(old(self).player.seen_cards@, old(self).shoe, 45)
                && old(self).player.report.total_blackjacks < usize::MAX ==> done.is_ok(),
            done.is_ok() && mimic
                ==> final(self).player.splits == old(self).player.splits
                && final(self).player.wager.amount_bet == old(self).player.wager.amount_bet,
            done.is_err() && (mimic || old(self).player.strategy.spec_complete())
                && old(self).player.wager.hand.cards@.len() == 2
                && old(self).player.wager.amount_bet * 2 <= usize::MAX
                ==> done == Err::<(), StrikerError>(StrikerError::Overflow)
                && out_of_room(final(self).player.strategy, final(self).player.seen_cards@,
                final(self).shoe, final(self).player.report),
            old(self).player.wager.hand.cards@.len() == 2
                ==> final(self).spec_drew_within(*old(self), 48),
    {
        let up: Card = self.up.unwrap();
        if !self.dealer.hand.is_blackjack() {
            let played = self.player.play(&up, &mut self.shoe, mimic);
            proof {
                if old(self).player.wager.hand.cards@.len() == 2 {
                    assert(self.spec_drew_within(*old(self), 25));
                }
            }
            match played {
                Err(e) => {
                    return Err(e);
                },
                Ok(()) => {},
            }
            if !self.player.busted_or_blackjack() {
                let ghost before = *self;
                let dealt = self.dealer_plays();
                proof {
                    if old(self).player.wager.hand.cards@.len() == 2 {
                        Table::lemma_drew_more(*old(self), before, *self, 25, 22);
                    }
                }
                match dealt {
                    Err(e) => {
                        return Err(e);
                    },
                    Ok(()) => {},
                }
            }
        }
        let down = self.down;
        let ghost before = *self;
        let shown = self.show_card(&down);
        proof {
            if old(self).player.wager.hand.cards@.len() == 2 {
                assert(before.spec_drew_within(*old(self), 47));
                Table::lemma_drew_more(*old(self), before, *self, 47, 1);
            }
        }
        shown
    }

    /// The cards that the player had seen once the hand was dealt, where
    /// the cards of `seen` were seen before: those, the player's first two
    /// cards, and the dealer's up-card. (Where the hand was split, its
    /// second card had the rank of the first.)
    pub open spec fn spec_seen_at_deal(&self, seen: Seq<usize>) -> Seq<usize> {
        let first = self.player.wager.hand.cards@[0].rank.spec_value() as int;
        let second = if self.player.splits@.len() == 0 {
            self.player.wager.hand.cards@[1].rank.spec_value() as int
        } else {
            first
        };
        seen_with(
            seen_with(seen_with(seen, first), second),
            self.dealer.hand.cards@[1].rank.spec_value() as int,
        )
    }

    /// What a hand that was played to the end has made of the table, on
    /// which the player had seen the cards of `seen` and had the report
    /// `was` before, and placed a bet of `bet`.
    ///
    /// The dealer holds the hole card and the up-card, and whatever the
    /// dealer drew was drawn by the house rule; the dealer played if a
    /// hand of the player was live against a dealer without blackjack.
    /// The player has seen every card that was dealt. Insurance stands
    /// where it was offered and the strategy said so at the cards seen
    /// once the hand was dealt. The bet stands as placed, or doubled, and
    /// each hand that a split made carries it. Every hand is settled
    /// against the dealer's, and the player's report has grown by the
    /// bets, by what they won, by one win, loss or tie for each hand
    /// that was not paid as a natural, and by the natural, the double and
    /// the splits.
    pub open spec fn spec_hand_played(
        &self,
        seen: Seq<usize>,
        was: Report,
        bet: nat,
        mimic: bool,
    ) -> bool {
        let dealers = self.dealer.hand.cards@;
        let player = self.player;
        let report = self.player.report;
        let whole = player.splits@.len() == 0;
        &&& dealers.len() >= 2
        &&& self.down == Some(dealers[0])
        &&& self.up == Some(dealers[1])
        &&& dealers.len() > 2 ==> self.dealer.spec_should_stand()
        &&& drawn_by_rule(2, dealers, self.dealer.hit_soft_17)
        &&& self.dealer.hand.spec_is_blackjack() || player.spec_busted_or_blackjack()
            ==> dealers.len() == 2
        &&& !self.dealer.hand.spec_is_blackjack() && !player.spec_busted_or_blackjack()
            ==> self.dealer.spec_should_stand()
        &&& cards_seen(player.seen_cards@) == cards_seen(seen) + player.spec_cards_held()
            + dealers.len()
        &&& player.wager.insurance_bet == if !mimic && dealers[1].rank == Rank::Ace
            && player.strategy.spec_insurance(self.spec_seen_at_deal(seen)) == Ok::<
            bool,
            StrikerError,
        >(true) {
            bet / 2
        } else {
            0
        }
        &&& settled(
            player.wager,
            whole,
            player.rules.blackjack_pays,
            player.rules.blackjack_bets,
            self.dealer.hand,
        )
        &&& forall|i: int|
            0 <= i < player.splits@.len() ==> settled(
                #[trigger] player.splits@[i],
                false,
                0,
                0,
                self.dealer.hand,
            )
        &&& report.total_bet == was.total_bet + player.spec_staked()
        &&& report.total_won == was.total_won + player.spec_winnings()
        &&& report.total_wins + report.total_loses + report.total_pushes == was.total_wins
            + was.total_loses + was.total_pushes + player.spec_decided(
            self.dealer.hand.spec_is_blackjack(),
        )
        &&& report.total_blackjacks == was.total_blackjacks + if whole
            && player.wager.hand.spec_is_blackjack() && !self.dealer.hand.spec_is_blackjack() {
            1int
        } else {
            0int
        }
        &&& report.total_splits == was.total_splits + player.splits@.len()
        &&& report.total_splits_ace == was.total_splits_ace + if !whole
            && player.wager.hand.cards@[0].rank == Rank::Ace {
            1int
        } else {
            0int
        }
        &&& report.total_doubles == was.total_doubles + if player.wager.amount_bet == 2 * bet {
            1int
        } else {
            0int
        }
        &&& player.wager.amount_bet == bet || player.wager.amount_bet == 2 * bet
        &&& forall|i: int|
            0 <= i < player.splits@.len() ==> (#[trigger] player.splits@[i]).amount_bet == bet
    }

    /// The table has room for `hands` more hands of a player who mimics
    /// the dealer, whatever cards come: a natural is paid at odds, and at
    /// no more than 500 to 1; and no counter of the shoe, of the player
    /// or of the table comes within what that many hands can add to it
    /// of the end of its range, where a hand draws fewer than 50 cards,
    /// stakes 2 and wins no more than 1000.
    pub open spec fn spec_room_for(&self, hands: int) -> bool {
        let table = self.report;
        let player = self.player.report;
        &&& self.player.rules.blackjack_bets > 0
        &&& 2 * self.player.rules.blackjack_pays <= 1000 * self.player.rules.blackjack_bets
        &&& 2 * self.player.rules.blackjack_pays <= isize::MAX
        &&& headroom(self.player.seen_cards@, self.shoe, 50 * hands)
        &&& self.shoe.number_of_shuffles + player.total_shuffles + 50 * hands <= usize::MAX
        &&& self.shoe.out_of_cards + player.out_of_cards + 50 * hands <= usize::MAX
        &&& table.total_hands + player.total_hands + hands <= usize::MAX
        &&& table.total_rounds + player.total_rounds + hands <= usize::MAX
        &&& table.total_bet + player.total_bet + 2 * hands <= usize::MAX
        &&& table.total_won + player.total_won + 1000 * hands <= isize::MAX
        &&& table.total_won + player.total_won - 2 * hands >= isize::MIN
        &&& player.total_won + 1000 * hands <= isize::MAX
        &&& player.total_won - 2 * hands >= isize::MIN
        &&& table.total_wins + player.total_wins + hands <= usize::MAX
        &&& table.total_loses + player.total_loses + hands <= usize::MAX
        &&& table.total_pushes + player.total_pushes + hands <= usize::MAX
        &&& table.total_blackjacks + player.total_blackjacks + hands <= usize::MAX
        &&& table.total_doubles + player.total_doubles <= usize::MAX
        &&& table.total_splits + player.total_splits <= usize::MAX
        &&& table.total_splits_ace + player.total_splits_ace <= usize::MAX
    }

    /// The table is set for play: a player who does not mimic the dealer
    /// has a chart row for every hand that play can reach, and a natural
    /// is paid at odds of no more than 1000 to 42.
    pub open spec fn spec_can_play(&self, mimic: bool) -> bool {
        &&& mimic || self.player.strategy.spec_complete()
        &&& odds_bounded(self.player.rules.blackjack_pays, self.player.rules.blackjack_bets)
    }

    /// Play at the table cannot go on: no card can be drawn or no
    /// decision taken, or a counter of the player or of the table is at
    /// the end of its range, or the player's report has no room for one
    /// more hand to be settled, or the two reports cannot be added up.
    pub open spec fn spec_out_of_room(&self) -> bool {
        ||| out_of_room(
            self.player.strategy,
            self.player.seen_cards@,
            self.shoe,
            self.player.report,
        )
        ||| !self.player.report.spec_room(1000)
        ||| self.report.total_hands == usize::MAX
        ||| self.report.total_rounds == usize::MAX
        ||| !self.spec_closed().fits()
    }

    /// The table has room for one hand of a player who mimics the dealer,
    /// whatever cards come: a natural is paid at odds, and at no more than
    /// 500 to 1; the histogram and the shoe have room for 49 cards; and
    /// the player's report has room for a stake of 2, a loss of 2, a win
    /// of 1000, and one win, loss, tie or natural.
    pub open spec fn spec_room_for_hand(&self) -> bool {
        let player = self.player.report;
        &&& self.player.rules.blackjack_bets > 0
        &&& 2 * self.player.rules.blackjack_pays <= 1000 * self.player.rules.blackjack_bets
        &&& 2 * self.player.rules.blackjack_pays <= isize::MAX
        &&& headroom(self.player.seen_cards@, self.shoe, 49)
        &&& player.total_bet + 2 <= usize::MAX
        &&& player.total_won + 1000 <= isize::MAX
        &&& player.total_won - 2 >= isize::MIN
        &&& player.total_wins + 1 <= usize::MAX
        &&& player.total_loses + 1 <= usize::MAX
        &&& player.total_pushes + 1 <= usize::MAX
        &&& player.total_blackjacks + 1 <= usize::MAX
    }

    /// What one hand of a player who mimics the dealer adds at most: fewer
    /// than 50 cards drawn, a stake of 2, a loss of 2 or a win of up to
    /// 1000, and one win, loss, tie or natural.
    pub open spec fn spec_mimic_hand(&self, before: Table) -> bool {
        let report = self.player.report;
        let was = before.player.report;
        &&& self.shoe.number_of_shuffles <= before.shoe.number_of_shuffles + 49
        &&& self.shoe.out_of_cards <= before.shoe.out_of_cards + 49
        &&& forall|i: int| 0 <= i < 13 ==> #[trigger] self.player.seen_cards@[i] <= 49 || (
        self.player.seen_cards@[i] <= before.player.seen_cards@[i] + 49)
        &&& report.total_bet == was.total_bet + 2
        &&& was.total_won - 2 <= report.total_won <= was.total_won + 1000
        &&& was.total_wins <= report.total_wins <= was.total_wins + 1
        &&& was.total_loses <= report.total_loses <= was.total_loses + 1
        &&& was.total_pushes <= report.total_pushes <= was.total_pushes + 1
        &&& was.total_blackjacks <= report.total_blackjacks <= was.total_blackjacks + 1
        &&& report.total_doubles == was.total_doubles
        &&& report.total_splits == was.total_splits
        &&& report.total_splits_ace == was.total_splits_ace
    }

    /// The table has room for `units` more hands, where each hand that
    /// is dealt and each hand that a split makes is one unit, whatever
    /// cards come and whatever the player decides: the histogram and the
    /// shoe have room for 60 cards to each unit, and the running count
    /// can be computed at every histogram on the way; and no counter of
    /// the player or of the table, nor their sum, comes within what that
    /// many units can add to it of the end of its range, where a unit
    /// stakes, wins or loses no more than 1100.
    pub open spec fn spec_room_for_play(&self, units: int) -> bool {
        let table = self.report;
        let player = self.player.report;
        &&& headroom(self.player.seen_cards@, self.shoe, 60 * units)
        &&& self.player.strategy.spec_counts_fit(self.player.seen_cards@, 60 * units)
        &&& self.shoe.number_of_shuffles + player.total_shuffles + 60 * units <= usize::MAX
        &&& self.shoe.out_of_cards + player.out_of_cards + 60 * units <= usize::MAX
        &&& table.total_hands + player.total_hands + units <= usize::MAX
        &&& table.total_rounds + player.total_rounds + units <= usize::MAX
        &&& table.total_bet + player.total_bet + 1100 * units <= usize::MAX
        &&& table.total_won + player.total_won + 1100 * units <= isize::MAX
        &&& table.total_won + player.total_won - 1100 * units >= isize::MIN
        &&& player.total_won + 1100 * units <= isize::MAX
        &&& player.total_won - 1100 * units >= isize::MIN
        &&& table.total_wins + player.total_wins + units <= usize::MAX
        &&& table.total_loses + player.total_loses + units <= usize::MAX
        &&& table.total_pushes + player.total_pushes + units <= usize::MAX
        &&& table.total_blackjacks + player.total_blackjacks + units <= usize::MAX
        &&& table.total_doubles + player.total_doubles + units <= usize::MAX
        &&& table.total_splits + player.total_splits + units <= usize::MAX
        &&& table.total_splits_ace + player.total_splits_ace + units <= usize::MAX
    }

    /// What play has used of the table `before` at most, once `units`
    /// hands were dealt or made by a split: 60 cards to each unit in a
    /// slot of the histogram and in a counter of the shoe; a stake of 63
    /// and a win or a loss of 1042 to each unit; one win, loss, tie,
    /// natural, double, split or split of aces to each unit; and one
    /// hand and one round to each unit in the table's report, which has
    /// not changed otherwise.
    pub open spec fn spec_used(&self, before: Table, units: int) -> bool {
        let report = self.player.report;
        let was = before.player.report;
        &&& drew_at_most(
            before.player.seen_cards@,
            self.player.seen_cards@,
            before.shoe,
            self.shoe,
            60 * units,
        )
        &&& self.report.counters() == (Counters {
            hands: self.report.total_hands as int,
            rounds: self.report.total_rounds as int,
            ..before.report.counters()
        })
        &&& self.report.total_hands <= before.report.total_hands + units
        &&& self.report.total_rounds <= before.report.total_rounds + units
        &&& report.same_table_counts(&was)
        &&& report.total_bet <= was.total_bet + 63 * units
        &&& was.total_won - 1042 * units <= report.total_won <= was.total_won + 1042 * units
        &&& report.total_wins <= was.total_wins + units
        &&& report.total_loses <= was.total_loses + units
        &&& report.total_pushes <= was.total_pushes + units
        &&& report.total_blackjacks <= was.total_blackjacks + units
        &&& report.total_doubles <= was.total_doubles + units
        &&& report.total_splits <= was.total_splits + units
        &&& report.total_splits_ace <= was.total_splits_ace + units
    }

    /// The number of hands that the table has counted since `before`, and
    /// of hands that splits have made since.
    pub open spec fn spec_units_since(&self, before: Table) -> int {
        (self.report.total_hands - before.report.total_hands) + (self.player.report.total_splits
            - before.player.report.total_splits)
    }

    /// A table that is out of room after `units` hands had no room for
    /// one more than that when it began.
    pub proof fn lemma_out_of_room_was_short(&self, before: Table, units: int)
        requires
            units >= 0,
            self.spec_used(before, units),
            self.player.strategy == before.player.strategy,
            self.spec_out_of_room(),
        ensures
            !before.spec_room_for_play(units + 1),
    {
        if before.spec_room_for_play(units + 1) {
            assert(within(before.player.seen_cards@, self.player.seen_cards@, 60 * (units + 1)));
            assert(running_count_fits(self.player.strategy.counts@, self.player.seen_cards@));
            assert(headroom(self.player.seen_cards@, self.shoe, 1));
            assert(self.spec_closed().fits());
            assert(false);
        }
    }

    /// A table that had room for `units` hands and has used `used` of
    /// them has room for the rest.
    pub proof fn lemma_room_is_left(&self, before: Table, used: int, units: int)
        requires
            0 <= used <= units,
            self.spec_used(before, used),
            self.player.strategy == before.player.strategy,
            before.spec_room_for_play(units),
        ensures
            self.spec_room_for_play(units - used),
    {
        assert forall|later: Seq<usize>|
            within(self.player.seen_cards@, later, 60 * (units - used)) implies #[trigger] (
        running_count_fits(self.player.strategy.counts@, later)) by {
            assert(within(before.player.seen_cards@, later, 60 * units));
        }
    }

    /// A table with no room for `units` hands has none for more.
    pub proof fn lemma_no_room_for_more(&self, units: int)
        requires
            units >= 0,
            !self.spec_room_for_play(units),
        ensures
            forall|more: int| #[trigger] self.spec_room_for_play(more) ==> more < units,
    {
        assert forall|more: int| #[trigger] self.spec_room_for_play(more) implies more < units by {
            if more >= units {
                assert forall|later: Seq<usize>|
                    within(self.player.seen_cards@, later, 60 * units) implies #[trigger] (
                running_count_fits(self.player.strategy.counts@, later)) by {
                    assert(within(self.player.seen_cards@, later, 60 * more));
                }
                assert(self.spec_room_for_play(units));
            }
        }
    }

    /// Play that has used `first` units and then `second` has used both.
    pub proof fn lemma_used_adds_up(&self, middle: Table, before: Table, first: int, second: int)
        requires
            middle.spec_used(before, first),
            self.spec_used(middle, second),
        ensures
            self.spec_used(before, first + second),
    {
    }

    /// A hand that was dealt with four cards drawn and played out within
    /// `draws` cards has used no more than one unit for itself and one
    /// for each split, as long as nothing is settled.
    proof fn lemma_dealt_and_drew(before: Table, opened: Table, after: Table, draws: int)
        requires
            draws <= 56,
            drew_at_most(
                before.player.seen_cards@,
                opened.player.seen_cards@,
                before.shoe,
                opened.shoe,
                4,
            ),
            opened.player.report == before.player.report,
            opened.report == before.report,
            after.report == before.report,
            after.spec_drew_within(opened, draws),
            after.player.report.same_settlements(&before.player.report),
            after.player.report.same_table_counts(&before.player.report),
        ensures
            after.spec_used(
                before,
                1 + (after.player.report.total_splits - before.player.report.total_splits),
            ),
            after.spec_drew_within(before, draws + 4),
    {
    }

    /// A hand that was played out and then settled, each of its hands
    /// within the bounds of one unit, has used no more than what it had
    /// used before and those units.
    proof fn lemma_settled_after_play(before: Table, played: Table, after: Table)
        requires
            played.spec_used(
                before,
                1 + (played.player.report.total_splits - before.player.report.total_splits),
            ),
            played.player.splits@.len() == played.player.report.total_splits
                - before.player.report.total_splits,
            settled_within(
                played.player.report,
                after.player.report,
                1 + (played.player.splits@.len() as int),
            ),
            after.report == played.report,
            after.shoe == played.shoe,
            after.player.seen_cards == played.player.seen_cards,
            before.player.report.same_settlements(&played.player.report),
        ensures
            after.spec_used(
                before,
                1 + (after.player.report.total_splits - before.player.report.total_splits),
            ),
            played.spec_drew_within(before, 52) ==> after.spec_drew_within(before, 52),
    {
    }

    /// Plays one hand from the bet to the payoff.
    ///
    /// The bet is placed and four cards are dealt. Insurance is offered
    /// against an ace, but not to a player who mimics the dealer. Unless
    /// the dealer has blackjack the player plays, and the dealer after
    /// the player if a hand of the player is still live. Then the hole
    /// card is shown and every hand of the player is settled.
    ///
    /// At a table that is set for play the hand fails only for want of
    /// room, and only where the table had no room for this hand, each
    /// hand that a split made of it, and one hand more.
    #[verifier::rlimit(100)]
    pub fn play_hand(&mut self, mimic: bool) -> (done: Result<(), StrikerError>)
        requires
            old(self).wf(),
        ensures
            final(self).wf(),
            Shoe::drawn_from(old(self).shoe, final(self).shoe),
            final(self).parameters == old(self).parameters,
            final(self).report == old(self).report,
            final(self).dealer.hit_soft_17 == old(self).dealer.hit_soft_17,
            final(self).player.rules == old(self).player.rules,
            final(self).player.strategy == old(self).player.strategy,
            final(self).player.report.same_heading(&old(self).player.report),
            final(self).player.report.same_table_counts(&old(self).player.report),
            done.is_err() ==> done != Err::<(), StrikerError>(StrikerError::InvalidOperation),
            !mimic && old(self).player.spec_asked_bet(false).is_err() ==> done.is_err(),
            done.is_ok() ==> final(self).spec_hand_played(
                old(self).player.seen_cards@,
                old(self).player.report,
                old(self).spec_bet(old(self).player.seen_cards@, mimic),
                mimic,
            ),
            mimic && old(self).spec_room_for_hand() ==> done.is_ok(),
            mimic && done.is_ok() && old(self).player.rules.blackjack_bets > 0
                && 2 * old(self).player.rules.blackjack_pays
                <= 1000 * old(self).player.rules.blackjack_bets
                ==> final(self).spec_mimic_hand(*old(self)),
            mimic ==> drew_at_most(old(self).player.seen_cards@, final(self).player.seen_cards@,
                old(self).shoe, final(self).shoe, 49),
            done.is_err() && old(self).spec_can_play(mimic)
                ==> done == Err::<(), StrikerError>(StrikerError::Overflow)
                && final(self).spec_out_of_room(),
            mimic && done.is_ok()
                ==> final(self).player.report.total_splits
                == old(self).player.report.total_splits
                && final(self).player.report.total_doubles == old(self).player.report.total_doubles,
            odds_bounded(old(self).player.rules.blackjack_pays,
                old(self).player.rules.blackjack_bets)
                ==> final(self).spec_used(*old(self), 1 + (final(self).player.report.total_splits
                - old(self).player.report.total_splits)),
            odds_bounded(old(self).player.rules.blackjack_pays,
                old(self).player.rules.blackjack_bets)
                ==> final(self).spec_drew_within(*old(self), 52),
            final(self).player.report.total_splits >= old(self).player.report.total_splits,
            done.is_err() && old(self).spec_can_play(mimic)
                ==> forall|units: int| #[trigger] old(self).spec_room_for_play(units)
                ==> units <= 1 + (final(self).player.report.total_splits
                - old(self).player.report.total_splits),
    {
        match self.open_hand(mimic) {
            Err(e) => {
                proof {
                    if old(self).spec_can_play(mimic) {
                        assert(self.spec_out_of_room());
                        assert(self.spec_used(*old(self), 1));
                        self.lemma_out_of_room_was_short(*old(self), 1);
                        old(self).lemma_no_room_for_more(2);
                    }
                }
                return Err(e);
            },
            Ok(()) => {},
        }
        let ghost opened = *self;
        let played = self.play_out(mimic);
        proof {
            Table::lemma_dealt_and_drew(*old(self), opened, *self, 48);
        }
        match played {
            Err(e) => {
                proof {
                    if old(self).spec_can_play(mimic) {
                        let units = 1 + (self.player.report.total_splits
                            - old(self).player.report.total_splits);
                        assert(self.spec_out_of_room());
                        self.lemma_out_of_room_was_short(*old(self), units);
                        old(self).lemma_no_room_for_more(units + 1);
                    }
                }
                return Err(e);
            },
            Ok(()) => {},
        }
        let ghost before = self.player;
        let ghost played_out = *self;
        proof {
            assert(opened.player.wager.amount_bet <= 21);
            assert(before.spec_stakes_bounded()) by {
                assert(stake_bounded(before.wager));
                assert forall|i: int| 0 <= i < before.splits@.len() implies stake_bounded(
                    #[trigger] before.splits@[i],
                ) by {}
            }
            if mimic && before.rules.blackjack_bets > 0 && 2 * before.rules.blackjack_pays <= 1000
                * before.rules.blackjack_bets {
                assert(before.wager.amount_bet == 2);
                lemma_small_stake_wins(
                    before.wager,
                    before.rules.blackjack_pays,
                    before.rules.blackjack_bets,
                    self.dealer.hand.spec_is_blackjack(),
                    self.dealer.hand.spec_is_busted(),
                    self.dealer.hand.total,
                );
                if old(self).spec_room_for_hand() {
                    lemma_small_stake_settles(
                        before.report.counters(),
                        before.wager,
                        before.rules.blackjack_pays,
                        before.rules.blackjack_bets,
                        self.dealer.hand.spec_is_blackjack(),
                        self.dealer.hand.spec_is_busted(),
                        self.dealer.hand.total,
                    );
                }
            }
        }
        let done = self.player.payoff(
            self.dealer.hand.is_blackjack(),
            self.dealer.hand.is_busted(),
            self.dealer.hand.total,
        );
        proof {
            if odds_bounded(before.rules.blackjack_pays, before.rules.blackjack_bets) {
                Table::lemma_settled_after_play(*old(self), played_out, *self);
            }
            if done.is_err() && old(self).spec_can_play(mimic) {
                let units = 1 + (self.player.report.total_splits
                    - old(self).player.report.total_splits);
                assert(self.spec_out_of_room());
                self.lemma_out_of_room_was_short(*old(self), units);
                old(self).lemma_no_room_for_more(units + 1);
            }
            if done.is_ok() {
                if self.dealer.hand.cards@.len() == 2 {
                    assert(self.dealer.hand.cards@ =~= opened.dealer.hand.cards@);
                }
                if before.splits@.len() == 0 && before.wager.hand.cards@.len() == 2 {
                    assert(before.wager.hand.cards@ =~= opened.player.wager.hand.cards@);
                }
                assert(self.player.wager.hand == before.wager.hand);
                assert forall|i: int| 0 <= i < self.player.splits@.len() implies (
                #[trigger] self.player.splits@[i]).hand == before.splits@[i].hand by {}
                assert forall|i: int| 0 <= i < before.splits@.len() implies (
                #[trigger] before.splits@[i]).hand == self.player.splits@[i].hand by {}
                assert(self.player.spec_busted_or_blackjack()
                    == before.spec_busted_or_blackjack());
                Table::lemma_same_cards_held(before.splits@, self.player.splits@);
                assert forall|i: int| 0 <= i < self.player.splits@.len() implies settled(
                    #[trigger] self.player.splits@[i],
                    false,
                    0,
                    0,
                    self.dealer.hand,
                ) by {
                    assert(before.splits@[i].amount_won == 0);
                }
            }
        }
        done
    }

    /// Wagers with the same hands hold the same number of cards.
    proof fn lemma_same_cards_held(first: Seq<Wager>, second: Seq<Wager>)
        requires
            first.len() == second.len(),
            forall|i: int| 0 <= i < first.len() ==> (#[trigger] first[i]).hand == second[i].hand,
        ensures
            cards_held(first) == cards_held(second),
        decreases first.len(),
    {
        if first.len() > 0 {
            Table::lemma_same_cards_held(first.drop_last(), second.drop_last());
        }
    }

    /// Whether the shoe is shuffled before the next hand: the cursor has
    /// reached the cut card, or the shoe ran out since the last shuffle.
    pub open spec fn spec_shuffle_due(&self) -> bool {
        self.shoe.next_card >= self.shoe.cut_card || self.shoe.force_shuffle
    }

    /// Whether a hand that is played now begins a round. A round begins
    /// with every shuffle, and with the first hand of a table.
    pub open spec fn spec_begins_round(&self) -> bool {
        self.spec_shuffle_due() || self.report.total_rounds == 0
    }

    /// A hand that was counted, after one shuffle at most, and then
    /// played has used one unit for itself and one for each split.
    proof fn lemma_hand_after_shuffle(before: Table, counted: Table, after: Table)
        requires
            drew_at_most(
                before.player.seen_cards@,
                counted.player.seen_cards@,
                before.shoe,
                counted.shoe,
                1,
            ),
            counted.player.report == before.player.report,
            counted.report.counters() == (Counters {
                hands: before.report.total_hands + 1,
                rounds: counted.report.total_rounds as int,
                ..before.report.counters()
            }),
            before.report.total_rounds <= counted.report.total_rounds <= before.report.total_rounds
                + 1,
            after.report == counted.report,
            after.spec_drew_within(counted, 52),
            after.spec_used(
                counted,
                1 + (after.player.report.total_splits - counted.player.report.total_splits),
            ),
        ensures
            after.spec_used(before, after.spec_units_since(before)),
            after.spec_units_since(before) >= 1,
    {
    }

    /// Plays the next hand of the session. Where a reshuffle is due, the
    /// shoe is shuffled first and the player forgets the cards seen. The
    /// hand is counted, and the round if it begins one.
    ///
    /// At a table that is set for play the hand fails only for want of
    /// room, and only where the table had no room for this hand, each
    /// hand that a split made of it, and one hand more.
    pub fn next_hand(&mut self, mimic: bool) -> (done: Result<(), StrikerError>)
        requires
            old(self).wf(),
        ensures
            final(self).wf(),
            Shoe::later(old(self).shoe, final(self).shoe),
            final(self).parameters == old(self).parameters,
            final(self).dealer.hit_soft_17 == old(self).dealer.hit_soft_17,
            final(self).player.rules == old(self).player.rules,
            final(self).player.strategy == old(self).player.strategy,
            final(self).player.report.same_heading(&old(self).player.report),
            final(self).player.report.same_table_counts(&old(self).player.report),
            final(self).report.same_heading(&old(self).report),
            done.is_err() ==> done != Err::<(), StrikerError>(StrikerError::InvalidOperation),
            done.is_ok() ==> final(self).spec_hand_played(
                old(self).spec_seen_before(),
                old(self).player.report,
                old(self).spec_bet(old(self).spec_seen_before(), mimic),
                mimic,
            ),
            done.is_ok() ==> Shoe::shuffles_between(old(self).shoe, final(self).shoe)
                == if old(self).spec_shuffle_due() {
                1int
            } else {
                0int
            },
            done.is_ok() ==> final(self).report.counters() == (Counters {
                hands: old(self).report.total_hands + 1,
                rounds: old(self).report.total_rounds + if old(self).spec_begins_round() {
                    1int
                } else {
                    0int
                },
                ..old(self).report.counters()
            }),
            mimic && old(self).spec_room_for(1) ==> done.is_ok(),
            mimic && done.is_ok()
                ==> forall|hands: int| hands >= 1 && #[trigger] old(self).spec_room_for(hands)
                ==> final(self).spec_room_for(hands - 1),
            done.is_err() && old(self).spec_can_play(mimic)
                ==> done == Err::<(), StrikerError>(StrikerError::Overflow)
                && final(self).spec_out_of_room(),
            mimic && done.is_ok()
                ==> final(self).player.report.total_splits
                == old(self).player.report.total_splits
                && final(self).player.report.total_doubles == old(self).player.report.total_doubles,
            odds_bounded(old(self).player.rules.blackjack_pays,
                old(self).player.rules.blackjack_bets)
                ==> final(self).spec_used(*old(self), final(self).spec_units_since(*old(self)))
                && final(self).spec_units_since(*old(self)) >= 0,
            done.is_err() && old(self).spec_can_play(mimic) ==> forall|units: int| #[trigger]
                old(self).spec_room_for_play(units) ==> units <= 1 + (
                final(self).player.report.total_splits - old(self).player.report.total_splits),
            final(self).player.report.total_splits >= old(self).player.report.total_splits,
            old(self).report.total_hands <= final(self).report.total_hands
                <= old(self).report.total_hands + 1,
    {
        if self.report.total_hands == usize::MAX || self.report.total_rounds == usize::MAX {
            return Err(StrikerError::Overflow);
        }
        let first: bool = self.report.total_rounds == 0;
        let due: bool = self.shoe.should_shuffle();
        if due {
            if self.shoe.number_of_shuffles == usize::MAX {
                return Err(StrikerError::Overflow);
            }
            self.shoe.shuffle();
            self.player.shuffle();
        }
        if due || first {
            self.report.total_rounds = self.report.total_rounds + 1;
        }
        self.report.total_hands = self.report.total_hands + 1;
        let ghost before = *self;
        let done = self.play_hand(mimic);
        proof {
            if odds_bounded(self.player.rules.blackjack_pays, self.player.rules.blackjack_bets) {
                Table::lemma_hand_after_shuffle(*old(self), before, *self);
                if done.is_err() && old(self).spec_can_play(mimic) {
                    self.lemma_out_of_room_was_short(*old(self), self.spec_units_since(*old(self)));
                    old(self).lemma_no_room_for_more(self.spec_units_since(*old(self)) + 1);
                }
            }
        }
        done
    }

    /// What the table's report stands at once the session is closed:
    /// the run-outs and shuffles are those of the shoe, and the player's
    /// counters are added.
    pub open spec fn spec_closed(&self) -> Counters {
        (Counters {
            out_of_cards: self.shoe.out_of_cards as int,
            shuffles: self.shoe.number_of_shuffles as int,
            ..self.report.counters()
        }).plus(self.player.report.counters())
    }

    /// Closes the session: the table's report takes the run-outs and
    /// shuffles of the shoe and the counters of the player.
    pub fn close(&mut self) -> (done: Result<(), StrikerError>)
        ensures
            final(self).parameters == old(self).parameters,
            final(self).shoe == old(self).shoe,
            final(self).dealer == old(self).dealer,
            final(self).player == old(self).player,
            final(self).up == old(self).up,
            final(self).down == old(self).down,
            final(self).report.same_heading(&old(self).report),
            done.is_ok() == old(self).spec_closed().fits(),
            done.is_err() ==> done == Err::<(), StrikerError>(StrikerError::Overflow),
            done.is_ok() ==> final(self).report.counters() == old(self).spec_closed(),
            done.is_err() ==> final(self).spec_closed() == old(self).spec_closed(),
            done.is_err() ==> final(self).report.total_hands == old(self).report.total_hands,
    {
        self.report.out_of_cards = self.shoe.out_of_cards;
        self.report.total_shuffles = self.shoe.number_of_shuffles;
        self.report.try_merge(&self.player.report)
    }

    /// The number of rounds that begin in a session that takes the shoe
    /// of this table to `shoe`: one with each shuffle of the session, and
    /// one with the first hand of a table where no shuffle comes before
    /// it.
    pub open spec fn spec_rounds_begun(&self, shoe: Shoe) -> int {
        Shoe::shuffles_between(self.shoe, shoe) + if self.spec_hand_due()
            && self.report.total_rounds == 0 && !self.spec_shuffle_due() {
            1int
        } else {
            0int
        }
    }

    /// What a session that was played to the end has made of the table
    /// `before`.
    ///
    /// The table's report counts the share of hands, or the hands that it
    /// counted before where those were more; the rounds that began; the
    /// shuffles and run-outs of the shoe; and what the player counted.
    /// Every hand that was played or made by a split in the session was
    /// settled once: as a win, a loss or a tie, or as a natural that was
    /// paid.
    pub open spec fn spec_session_done(&self, before: Table) -> bool {
        let hands = before.report.total_hands + before.spec_hands_due();
        &&& self.player.report.spec_settled_hands() - before.player.report.spec_settled_hands()
            == before.spec_hands_due() + (self.player.report.total_splits
            - before.player.report.total_splits)
        &&& Shoe::shuffles_between(before.shoe, self.shoe) >= 0
        &&& before.spec_hand_due() ==> before.report.total_rounds + before.spec_rounds_begun(
            self.shoe,
        ) >= 1
        &&& self.report.counters() == (Counters {
            hands: hands,
            rounds: before.report.total_rounds + before.spec_rounds_begun(self.shoe),
            out_of_cards: self.shoe.out_of_cards as int,
            shuffles: self.shoe.number_of_shuffles as int,
            ..before.report.counters()
        }).plus(self.player.report.counters())
    }

    /// The number of hands that the worker has yet to play.
    pub open spec fn spec_hands_due(&self) -> int {
        if self.spec_hand_due() {
            self.parameters.share_of_hands - self.report.total_hands
        } else {
            0
        }
    }

    /// Plays hands until the worker's share is reached, and closes the
    /// session.
    ///
    /// The table's report then counts exactly the share of hands, the
    /// rounds that began, the shuffles and run-outs of the shoe, and what
    /// the player counted. Every hand that was played or made by a split
    /// was settled once: as a win, a loss or a tie, or as a natural that
    /// was paid.
    ///
    /// A player who mimics the dealer plays a share to the end for which
    /// the table has room. How often a player splits by the charts
    /// depends on the cards, so no room that is fixed in advance is
    /// enough for every session: at a table that is set for play the
    /// session fails only where the table had no room for the hands that
    /// were due, each hand that a split made, and one hand more.
    pub fn session(&mut self, mimic: bool) -> (done: Result<(), StrikerError>)
        requires
            old(self).wf(),
        ensures
            final(self).wf(),
            Shoe::later(old(self).shoe, final(self).shoe),
            final(self).parameters == old(self).parameters,
            final(self).dealer.hit_soft_17 == old(self).dealer.hit_soft_17,
            final(self).player.rules == old(self).player.rules,
            final(self).player.strategy == old(self).player.strategy,
            final(self).report.same_heading(&old(self).report),
            final(self).player.report.same_heading(&old(self).player.report),
            final(self).player.report.same_table_counts(&old(self).player.report),
            done.is_err() ==> done != Err::<(), StrikerError>(StrikerError::InvalidOperation),
            done.is_ok() ==> final(self).spec_session_done(*old(self)),
            !old(self).spec_hand_due() ==> final(self).shoe == old(self).shoe && final(self).dealer
                == old(self).dealer && final(self).player == old(self).player,
            mimic && old(self).spec_room_for(old(self).spec_hands_due()) ==> done.is_ok(),
            done.is_err() && old(self).spec_can_play(mimic)
                ==> done == Err::<(), StrikerError>(StrikerError::Overflow)
                && final(self).spec_out_of_room(),
            mimic && done.is_ok() ==> final(self).player.report.total_splits
                == old(self).player.report.total_splits
                && final(self).player.report.total_doubles == old(self).player.report.total_doubles,
            !old(self).spec_hand_due() ==> done.is_ok() == old(self).spec_closed().fits(),
            done.is_err() && old(self).spec_can_play(mimic) ==> forall|units: int| #[trigger]
                old(self).spec_room_for_play(units) ==> units <= old(self).spec_hands_due() + (
                final(self).player.report.total_splits - old(self).player.report.total_splits),
            final(self).player.report.total_splits >= old(self).player.report.total_splits,
    {
        while self.hand_due()
            invariant
                odds_bounded(old(self).player.rules.blackjack_pays,
                    old(self).player.rules.blackjack_bets)
                    ==> self.spec_used(*old(self), self.spec_units_since(*old(self))),
                self.player.report.total_splits >= old(self).player.report.total_splits,
                mimic ==> self.player.report.total_splits
                    == old(self).player.report.total_splits
                    && self.player.report.total_doubles == old(self).player.report.total_doubles,
                Shoe::shuffles_between(old(self).shoe, self.shoe) >= 0,
                self.report.total_hands > old(self).report.total_hands
                    && old(self).spec_shuffle_due()
                    ==> Shoe::shuffles_between(old(self).shoe, self.shoe) >= 1,
                mimic && old(self).spec_room_for(old(self).spec_hands_due())
                    ==> self.spec_room_for(self.spec_hands_due()),
                self.wf(),
                Shoe::later(old(self).shoe, self.shoe),
                self.parameters == old(self).parameters,
                self.dealer.hit_soft_17 == old(self).dealer.hit_soft_17,
                self.player.rules == old(self).player.rules,
                self.player.strategy == old(self).player.strategy,
                self.report.same_heading(&old(self).report),
                self.player.report.same_heading(&old(self).player.report),
                self.player.report.same_table_counts(&old(self).player.report),
                !old(self).spec_hand_due() ==> *self == *old(self),
                old(self).spec_hand_due() ==> self.report.total_hands
                    <= self.parameters.share_of_hands,
                self.report.total_hands >= old(self).report.total_hands,
                self.report.total_hands == old(self).report.total_hands ==> *self == *old(self),
                self.player.report.spec_settled_hands()
                    - old(self).player.report.spec_settled_hands()
                    == (self.report.total_hands - old(self).report.total_hands) + (
                self.player.report.total_splits - old(self).player.report.total_splits),
                self.report.total_hands > old(self).report.total_hands
                    ==> self.report.total_rounds > 0,
                self.report.total_rounds == old(self).report.total_rounds + Shoe::shuffles_between(
                    old(self).shoe,
                    self.shoe,
                ) + if self.report.total_hands > old(self).report.total_hands
                    && old(self).report.total_rounds == 0 && !old(self).spec_shuffle_due() {
                    1int
                } else {
                    0int
                },
                self.report.counters() == (Counters {
                    hands: self.report.total_hands as int,
                    rounds: self.report.total_rounds as int,
                    ..old(self).report.counters()
                }),
            decreases self.parameters.share_of_hands - self.report.total_hands,
        {
            let ghost before = *self;
            let played = self.next_hand(mimic);
            proof {
                if old(self).spec_can_play(mimic) {
                    self.lemma_used_adds_up(
                        before,
                        *old(self),
                        before.spec_units_since(*old(self)),
                        self.spec_units_since(before),
                    );
                    if played.is_err() {
                        if old(self).spec_room_for_play(self.spec_units_since(*old(self)) + 1) {
                            before.lemma_room_is_left(
                                *old(self),
                                before.spec_units_since(*old(self)),
                                self.spec_units_since(*old(self)) + 1,
                            );
                        }
                        old(self).lemma_no_room_for_more(self.spec_units_since(*old(self)) + 1);
                    }
                }
            }
            match played {
                Err(e) => {
                    return Err(e);
                },
                Ok(()) => {},
            }
        }
        let ghost before = *self;
        let done = self.close();
        proof {
            if done.is_err() && old(self).spec_can_play(mimic) {
                before.lemma_out_of_room_was_short(*old(self), before.spec_units_since(*old(self)));
                old(self).lemma_no_room_for_more(before.spec_units_since(*old(self)) + 1);
            }
        }
        done
    }
}

} // verus!
