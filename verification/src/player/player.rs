//! The player: betting, insurance, and the play of a hand by the
//! dealer's rule or by the strategy, with doubling and splitting.

use crate::cards::card::Card;
use crate::cards::hand::{
    drawn_by_rule, drawn_unbusted, hand_total, lemma_drawn_by_rule_push,
    lemma_drawn_unbusted_push, lemma_hand_total_at_least_len, lemma_live_totals, soft_aces, Hand,
};
use crate::cards::rank::Rank;
use crate::cards::shoe::Shoe;
use crate::cards::wager::{accepted_bet, Wager};
use crate::constants::constants::{MAXIMUM_BET, MINIMUM_BET};
use crate::errors::StrikerError;
use crate::report::report::{Counters, Report};
use crate::strategy::rules::Rules;
use crate::strategy::strategy::{cards_seen, running_count_fits, within, Strategy};
use vstd::prelude::*;

verus! {

/// The number of slots of the histogram of seen cards. A card is counted
/// in the slot of its value.
pub const SEEN_SLOTS: usize = 13;

/// The histogram `after` counts at least what `before` counted in every
/// slot.
pub open spec fn grew(before: Seq<usize>, after: Seq<usize>) -> bool {
    &&& after.len() == before.len()
    &&& forall|i: int| 0 <= i < before.len() ==> #[trigger] after[i] >= before[i]
}

/// The wager `after` is `before` with cards added to its hand, and
/// nothing else changed.
pub open spec fn extends(before: Wager, after: Wager) -> bool {
    &&& after == (Wager { hand: after.hand, ..before })
    &&& begins_with(after.hand.cards@, before.hand.cards@)
}

/// The sequence `whole` begins with the elements of `start`.
pub open spec fn begins_with<T>(whole: Seq<T>, start: Seq<T>) -> bool {
    &&& start.len() <= whole.len()
    &&& forall|i: int| 0 <= i < start.len() ==> #[trigger] whole[i] == start[i]
}

/// What the player does first with the hand that was dealt.
#[derive(Debug, Clone, Copy, PartialEq, Eq, Structural)]
pub enum Move {
    /// The hand is a natural: nothing is played.
    Natural,
    /// The hand is played by the dealer's rule.
    Mimic,
    Double,
    Split,
    /// The hand is played card by card until it stands or is busted.
    Hit,
}

/// The wager is `before` with the hand that is left of it after a split
/// and after play: the same first card, and nothing else changed.
pub open spec fn played_from(before: Wager, after: Wager) -> bool {
    &&& after == (Wager { hand: after.hand, ..before })
    &&& before.hand.cards@.len() > 0 ==> after.hand.cards@.len() > 0 && after.hand.cards@[0]
        == before.hand.cards@[0]
}

/// The hands from position `from` on came out of a split of a pair of
/// `rank` with a wager of `bet`, got a second card, and were played to the
/// end, between the cards seen of `low` and those of `high`.
pub open spec fn splits_played(
    strategy: Strategy,
    splits: Seq<Wager>,
    from: int,
    bet: usize,
    up: Card,
    rank: Rank,
    low: Seq<usize>,
    high: Seq<usize>,
) -> bool {
    forall|i: int|
        from <= i < splits.len() ==> {
            &&& finished(strategy, (#[trigger] splits[i]).hand, up, low, high)
            &&& split_off(splits[i], bet)
            &&& splits[i].hand.cards@.len() >= 2
            &&& splits[i].hand.cards@[0].rank == rank
        }
}

/// The wager came out of a split of a wager of `bet`: it carries that bet,
/// no insurance, and nothing won or lost yet.
pub open spec fn split_off(wager: Wager, bet: usize) -> bool {
    &&& wager.amount_bet == bet
    &&& wager.amount_won == 0
    &&& wager.insurance_bet == 0
    &&& wager.insurance_won == 0
}

/// Every hand from position `from` on came out of a split of a wager of
/// `bet`.
pub open spec fn splits_off(splits: Seq<Wager>, from: int, bet: usize) -> bool {
    forall|i: int| from <= i < splits.len() ==> split_off(#[trigger] splits[i], bet)
}

/// The wager `after` has won and lost what `before` had, and carries the
/// same insurance.
pub open spec fn same_outcome(before: Wager, after: Wager) -> bool {
    &&& after.amount_won == before.amount_won
    &&& after.insurance_bet == before.insurance_bet
    &&& after.insurance_won == before.insurance_won
}

/// Every wager of the sequence is well formed.
pub open spec fn wagers_wf(wagers: Seq<Wager>) -> bool {
    forall|i: int| 0 <= i < wagers.len() ==> Player::wager_wf(#[trigger] wagers[i])
}

/// The dealer's rule applied to a hand: stand on 17 or more, but draw on
/// a soft 17.
pub open spec fn stands_like_dealer(hand: Hand) -> bool {
    !hand.spec_is_soft_17() && hand.total >= 17
}

/// Play on the hand is over, and was play by the strategy: there are
/// cards seen and a number of cards held at which play on the hand began,
/// each card behind those was drawn while the hand was not busted and the
/// strategy said no to standing at the cards seen at that moment, and in
/// the end the hand is busted or the strategy says stand. The cards seen
/// when play on the hand began count no less than `low` in any slot, and
/// those seen when it ended no more than `high`.
pub open spec fn finished(
    strategy: Strategy,
    hand: Hand,
    up: Card,
    low: Seq<usize>,
    high: Seq<usize>,
) -> bool {
    exists|seen: Seq<usize>, had: int|
        {
            &&& 0 <= had <= hand.cards@.len()
            &&& grew(low, seen)
            &&& grew(seen_after(seen, hand.cards@.skip(had)), high)
            &&& #[trigger] hit_by_strategy(strategy, seen, had, hand.cards@, up)
            &&& hand.spec_is_busted() || strategy.spec_stand(
                seen_after(seen, hand.cards@.skip(had)),
                hand.total,
                hand.spec_is_soft(),
                up,
            ) == Ok::<bool, StrikerError>(true)
        }
}

/// A hand that was played between two histograms was played between
/// any two that lie further apart.
pub proof fn lemma_finished_between_wider(
    strategy: Strategy,
    hand: Hand,
    up: Card,
    low: Seq<usize>,
    high: Seq<usize>,
    lower: Seq<usize>,
    higher: Seq<usize>,
)
    requires
        finished(strategy, hand, up, low, high),
        grew(lower, low),
        grew(high, higher),
    ensures
        finished(strategy, hand, up, lower, higher),
{
    let (seen, had) = choose|seen: Seq<usize>, had: int|
        {
            &&& 0 <= had <= hand.cards@.len()
            &&& grew(low, seen)
            &&& grew(seen_after(seen, hand.cards@.skip(had)), high)
            &&& #[trigger] hit_by_strategy(strategy, seen, had, hand.cards@, up)
            &&& hand.spec_is_busted() || strategy.spec_stand(
                seen_after(seen, hand.cards@.skip(had)),
                hand.total,
                hand.spec_is_soft(),
                up,
            ) == Ok::<bool, StrikerError>(true)
        };
    assert(grew(lower, seen));
    assert(grew(seen_after(seen, hand.cards@.skip(had)), higher));
    assert(hit_by_strategy(strategy, seen, had, hand.cards@, up));
}

/// Where both halves of a split were played one after the other, each
/// after it got its second card, the first half and every hand that
/// play made, the second half among them, were played between the cards
/// seen before the split and those seen after.
pub proof fn lemma_both_halves_played(
    strategy: Strategy,
    up: Card,
    bet: usize,
    rank: Rank,
    first: Hand,
    second: Wager,
    before: Seq<Wager>,
    between: Seq<Wager>,
    after: Seq<Wager>,
    seen: Seq<Seq<usize>>,
)
    requires
        seen.len() == 5,
        forall|k: int| 0 <= k < 4 ==> grew(#[trigger] seen[k], seen[k + 1]),
        begins_with(between, before),
        begins_with(after, between),
        finished(strategy, first, up, seen[1], seen[2]),
        splits_played(strategy, between, before.len() as int, bet, up, rank, seen[1], seen[2]),
        finished(strategy, second.hand, up, seen[3], seen[4]),
        splits_played(strategy, after, between.len() as int, bet, up, rank, seen[3], seen[4]),
        split_off(second, bet),
        second.hand.cards@.len() >= 2,
        second.hand.cards@[0].rank == rank,
    ensures
        finished(strategy, first, up, seen[0], seen[4]),
        splits_played(
            strategy,
            after.push(second),
            before.len() as int,
            bet,
            up,
            rank,
            seen[0],
            seen[4],
        ),
{
    assert(grew(seen[0], seen[1]) && grew(seen[1], seen[2]) && grew(seen[2], seen[3]) && grew(
        seen[3],
        seen[4],
    ));
    assert(grew(seen[0], seen[3]));
    assert(grew(seen[2], seen[4]));
    lemma_finished_between_wider(strategy, first, up, seen[1], seen[2], seen[0], seen[4]);
    let all = after.push(second);
    assert forall|i: int| before.len() <= i < all.len() implies {
        &&& finished(strategy, (#[trigger] all[i]).hand, up, seen[0], seen[4])
        &&& split_off(all[i], bet)
        &&& all[i].hand.cards@.len() >= 2
        &&& all[i].hand.cards@[0].rank == rank
    } by {
        if i < between.len() {
            assert(all[i] == between[i]);
            lemma_finished_between_wider(
                strategy,
                between[i].hand,
                up,
                seen[1],
                seen[2],
                seen[0],
                seen[4],
            );
        } else if i < after.len() {
            assert(all[i] == after[i]);
            lemma_finished_between_wider(
                strategy,
                after[i].hand,
                up,
                seen[3],
                seen[4],
                seen[0],
                seen[4],
            );
        } else {
            assert(all[i] == second);
            lemma_finished_between_wider(
                strategy,
                second.hand,
                up,
                seen[3],
                seen[4],
                seen[0],
                seen[4],
            );
        }
    }
}

/// A card can be drawn from the shoe into the hand without a counter of
/// the shoe or the raw sum of the hand leaving the machine range.
pub open spec fn can_draw(hand: Hand, shoe: Shoe) -> bool {
    &&& shoe.number_of_shuffles < usize::MAX
    &&& shoe.out_of_cards < usize::MAX
    &&& hand.has_room()
}

/// There is room for `draws` more cards: no slot of the histogram and no
/// counter of the shoe is within `draws` of the end of the machine range.
pub open spec fn headroom(seen: Seq<usize>, shoe: Shoe, draws: int) -> bool {
    &&& forall|i: int| 0 <= i < seen.len() ==> #[trigger] seen[i] + draws <= usize::MAX
    &&& shoe.number_of_shuffles + draws <= usize::MAX
    &&& shoe.out_of_cards + draws <= usize::MAX
}

/// No slot of the histogram and no counter of the shoe has grown by more
/// than `draws`.
pub open spec fn drew_at_most(
    seen: Seq<usize>,
    seen_after: Seq<usize>,
    shoe: Shoe,
    shoe_after: Shoe,
    draws: int,
) -> bool {
    &&& seen_after.len() == seen.len()
    &&& forall|i: int| 0 <= i < seen.len() ==> #[trigger] seen_after[i] <= seen[i] + draws
    &&& shoe_after.number_of_shuffles <= shoe.number_of_shuffles + draws
    &&& shoe_after.out_of_cards <= shoe.out_of_cards + draws
}

/// The histogram once the cards were seen, one after the other.
pub open spec fn seen_after(seen: Seq<usize>, cards: Seq<Card>) -> Seq<usize>
    decreases cards.len(),
{
    if cards.len() == 0 {
        seen
    } else {
        seen_with(seen_after(seen, cards.drop_last()), cards.last().rank.spec_value() as int)
    }
}

/// The cards that were added to the hand of `before` to give that of
/// `after`.
pub open spec fn added(before: Wager, after: Wager) -> Seq<Card> {
    after.hand.cards@.skip(before.hand.cards@.len() as int)
}

/// While the shoe does not run out, the cards drawn are those that it
/// held at its cursor, in their order, and the cursor has moved past
/// them.
pub open spec fn dealt_in_order(before: Shoe, after: Shoe, cards: Seq<Card>) -> bool {
    before.next_card + cards.len() <= before.number_of_cards ==> {
        &&& after == (Shoe { next_card: (before.next_card + cards.len()) as usize, ..before })
        &&& forall|j: int|
            0 <= j < cards.len() ==> #[trigger] cards[j] == before.cards@[before.next_card + j]
    }
}

/// What one more draw makes of the cards dealt in order.
pub proof fn lemma_dealt_in_order_push(
    before: Shoe,
    middle: Shoe,
    after: Shoe,
    cards: Seq<Card>,
    card: Card,
)
    requires
        before.cards@.len() == before.number_of_cards,
        dealt_in_order(before, middle, cards),
        middle.number_of_cards == before.number_of_cards,
        Shoe::drew(middle, after, Some(card)),
    ensures
        dealt_in_order(before, after, cards.push(card)),
{
    if before.next_card + cards.len() + 1 <= before.number_of_cards {
        assert(!middle.spec_exhausted());
        assert forall|j: int| 0 <= j < cards.push(card).len() implies #[trigger] cards.push(
            card,
        )[j] == before.cards@[before.next_card + j] by {
            if j < cards.len() {
                assert(cards[j] == before.cards@[before.next_card + j]);
            }
        }
    }
}

/// The hand is played and not split: it is no pair, or the strategy says
/// no to splitting it at the cards of `seen`.
pub open spec fn not_split(strategy: Strategy, seen: Seq<usize>, wager: Wager, up: Card) -> bool {
    !wager.hand.spec_is_pair() || strategy.spec_split(seen, wager.hand.cards@[0], up) == Ok::<
        bool,
        StrikerError,
    >(false)
}

/// Each card of `cards` behind the first `had` was drawn on a hand that
/// was not busted and on which the strategy said no to standing, at the
/// cards seen at that moment: those of `seen` and those drawn on the hand
/// before.
pub open spec fn hit_by_strategy(
    strategy: Strategy,
    seen: Seq<usize>,
    had: int,
    cards: Seq<Card>,
    up: Card,
) -> bool {
    forall|k: int|
        had <= k < cards.len() ==> {
            &&& hand_total(#[trigger] cards.take(k)) <= 21
            &&& strategy.spec_stand(
                seen_after(seen, cards.take(k).skip(had)),
                hand_total(cards.take(k)) as usize,
                soft_aces(cards.take(k)) > 0,
                up,
            ) == Ok::<bool, StrikerError>(false)
        }
}

/// What holds of the cards drawn so far still holds once a card is drawn
/// on a hand on which the strategy says no to standing.
pub proof fn lemma_hit_by_strategy_push(
    strategy: Strategy,
    seen: Seq<usize>,
    had: int,
    cards: Seq<Card>,
    card: Card,
    up: Card,
)
    requires
        0 <= had <= cards.len(),
        hit_by_strategy(strategy, seen, had, cards, up),
        hand_total(cards) <= 21,
        strategy.spec_stand(
            seen_after(seen, cards.skip(had)),
            hand_total(cards) as usize,
            soft_aces(cards) > 0,
            up,
        ) == Ok::<bool, StrikerError>(false),
    ensures
        hit_by_strategy(strategy, seen, had, cards.push(card), up),
{
    let after = cards.push(card);
    assert forall|k: int| had <= k < after.len() implies {
        &&& hand_total(#[trigger] after.take(k)) <= 21
        &&& strategy.spec_stand(
            seen_after(seen, after.take(k).skip(had)),
            hand_total(after.take(k)) as usize,
            soft_aces(after.take(k)) > 0,
            up,
        ) == Ok::<bool, StrikerError>(false)
    } by {
        if k < cards.len() {
            assert(after.take(k) =~= cards.take(k));
        } else {
            assert(after.take(k) =~= cards);
        }
    }
}

/// No card can be drawn or no decision taken: a slot of the histogram or
/// a counter of the shoe is at the end of its range, or the running count
/// of the cards seen leaves the range of `isize`.
pub open spec fn out_of_draws(strategy: Strategy, seen: Seq<usize>, shoe: Shoe) -> bool {
    !headroom(seen, shoe, 1) || !running_count_fits(strategy.counts@, seen)
}

/// Play cannot go on: no card can be drawn or no decision taken, or a
/// counter of the player's report is at the end of its range.
pub open spec fn out_of_room(strategy: Strategy, seen: Seq<usize>, shoe: Shoe,
    report: Report) -> bool {
    ||| out_of_draws(strategy, seen, shoe)
    ||| report.total_splits == usize::MAX
    ||| report.total_splits_ace == usize::MAX
    ||| report.total_doubles == usize::MAX
    ||| report.total_blackjacks == usize::MAX
}

/// The number of cards that were counted as seen between two histograms.
pub open spec fn counted(seen: Seq<usize>, after: Seq<usize>) -> int {
    cards_seen(after) - cards_seen(seen)
}

/// There is room to play on by the charts for `draws` more cards: the
/// histogram and the shoe have room for them, the running count can be
/// computed at every histogram that they can lead to, there is room for
/// as many splits, and no other counter of the report is at the end of
/// its range.
pub open spec fn play_room(
    strategy: Strategy,
    seen: Seq<usize>,
    shoe: Shoe,
    report: Report,
    draws: int,
) -> bool {
    &&& headroom(seen, shoe, draws)
    &&& strategy.spec_counts_fit(seen, draws)
    &&& report.total_splits + draws <= usize::MAX
    &&& report.total_splits_ace + 2 <= usize::MAX
    &&& report.total_doubles < usize::MAX
    &&& report.total_blackjacks < usize::MAX
}

/// Play that is out of room after `cards` cards were counted had no room
/// for two cards more than that when it began.
pub proof fn lemma_ran_out_of_room(
    strategy: Strategy,
    seen: Seq<usize>,
    shoe: Shoe,
    report: Report,
    seen_after: Seq<usize>,
    shoe_after: Shoe,
    report_after: Report,
    cards: int,
)
    requires
        cards >= 0,
        out_of_room(strategy, seen_after, shoe_after, report_after),
        grew(seen, seen_after),
        drew_at_most(seen, seen_after, shoe, shoe_after, cards + 1),
        report_after.total_splits <= report.total_splits + cards + 1,
        report_after.total_splits_ace <= report.total_splits_ace + 1,
        report_after.total_doubles == report.total_doubles,
        report_after.total_blackjacks == report.total_blackjacks,
    ensures
        !play_room(strategy, seen, shoe, report, cards + 2),
{
    if play_room(strategy, seen, shoe, report, cards + 2) {
        assert(within(seen, seen_after, cards + 2));
        assert(running_count_fits(strategy.counts@, seen_after));
        assert forall|i: int| 0 <= i < seen_after.len() implies #[trigger] seen_after[i] + 1
            <= usize::MAX by {
            assert(seen[i] + (cards + 2) <= usize::MAX);
        }
        assert(headroom(seen_after, shoe_after, 1));
        assert(false);
    }
}

/// Where there is no room to play on for `draws` cards, there is none
/// for more.
pub proof fn lemma_no_play_room_for_more(
    strategy: Strategy,
    seen: Seq<usize>,
    shoe: Shoe,
    report: Report,
    draws: int,
)
    requires
        !play_room(strategy, seen, shoe, report, draws),
    ensures
        forall|more: int| #[trigger] play_room(strategy, seen, shoe, report, more) ==> more < draws,
{
    assert forall|more: int| #[trigger]
        play_room(strategy, seen, shoe, report, more) implies more < draws by {
        if more >= draws {
            assert forall|later: Seq<usize>| within(seen, later, draws) implies #[trigger] (
            running_count_fits(strategy.counts@, later)) by {
                assert(within(seen, later, more));
            }
            assert(play_room(strategy, seen, shoe, report, draws));
        }
    }
}

/// The report `after` is `before` but for the number of splits, which is
/// no less.
pub open spec fn counted_splits(before: Report, after: Report) -> bool {
    &&& after == (Report { total_splits: after.total_splits, ..before })
    &&& after.total_splits >= before.total_splits
}

/// The number of cards in the hands of the wagers.
pub open spec fn cards_held(wagers: Seq<Wager>) -> nat
    decreases wagers.len(),
{
    if wagers.len() == 0 {
        0
    } else {
        cards_held(wagers.drop_last()) + wagers.last().hand.cards@.len()
    }
}

/// A card that is seen is one card more in the histogram.
pub proof fn lemma_seen_with(seen: Seq<usize>, value: int)
    requires
        0 <= value < seen.len(),
        seen[value] < usize::MAX,
    ensures
        cards_seen(seen_with(seen, value)) == cards_seen(seen) + 1,
    decreases seen.len(),
{
    if value == seen.len() - 1 {
        assert(seen_with(seen, value).drop_last() =~= seen.drop_last());
    } else {
        lemma_seen_with(seen.drop_last(), value);
        assert(seen_with(seen, value).drop_last() =~= seen_with(seen.drop_last(), value));
    }
}

/// A wager that joins the others brings the cards of its hand.
pub proof fn lemma_cards_held_push(wagers: Seq<Wager>, wager: Wager)
    ensures
        cards_held(wagers.push(wager)) == cards_held(wagers) + wager.hand.cards@.len(),
{
    assert(wagers.push(wager).drop_last() =~= wagers);
}

/// The histogram once one more card of `value` was seen.
pub open spec fn seen_with(seen: Seq<usize>, value: int) -> Seq<usize> {
    seen.update(value, (seen[value] + 1) as usize)
}

/// The player: the wager on the hand that was dealt, the wagers on the
/// hands that splitting made, what was counted, and the cards seen since
/// the last shuffle.
#[derive(Debug, Clone)]
pub struct Player {
    pub rules: Rules,
    pub strategy: Strategy,
    pub wager: Wager,
    pub splits: Vec<Wager>,
    pub report: Report,
    pub seen_cards: [usize; 13],
}

impl Player {
    /// A wager with a well-formed hand and the limits of this table.
    pub open spec fn wager_wf(wager: Wager) -> bool {
        &&& wager.hand.wf()
        &&& wager.minimum_bet == MINIMUM_BET
        &&& wager.maximum_bet == MAXIMUM_BET
    }

    pub open spec fn wf(&self) -> bool {
        &&& self.strategy.wf()
        &&& Player::wager_wf(self.wager)
        &&& wagers_wf(self.splits@)
    }

    /// No hand of the player is live any more: without a split the hand
    /// is busted or a natural, and after a split every hand is busted.
    pub open spec fn spec_busted_or_blackjack(&self) -> bool {
        if self.splits@.len() == 0 {
            self.wager.hand.spec_is_busted() || self.wager.hand.spec_is_blackjack()
        } else {
            self.wager.hand.spec_is_busted() && forall|i: int|
                0 <= i < self.splits@.len() ==> (#[trigger] self.splits@[i]).hand.spec_is_busted()
        }
    }

    /// The dealer's rule applied to the player's hand: stand on 17 or
    /// more, but draw on a soft 17.
    pub open spec fn spec_mimic_stand(&self) -> bool {
        stands_like_dealer(self.wager.hand)
    }

    pub fn new(rules: Rules, strategy: Strategy) -> (player: Player)
        requires
            strategy.wf(),
        ensures
            player.wf(),
            player.rules == rules,
            player.strategy == strategy,
            player.wager.hand.cards@ == Seq::<Card>::empty(),
            player.wager.amount_bet == 0,
            player.wager.amount_won == 0,
            player.wager.insurance_bet == 0,
            player.wager.insurance_won == 0,
            player.splits@ == Seq::<Wager>::empty(),
            player.report.counters() == Counters::zero(),
            player.seen_cards@ == Seq::new(SEEN_SLOTS as nat, |i: int| 0usize),
    {
        let player = Player {
            rules,
            strategy,
            wager: Wager::new(MINIMUM_BET, MAXIMUM_BET),
            splits: Vec::new(),
            report: Report::new(),
            seen_cards: [0;13],
        };
        assert(player.seen_cards@ =~= Seq::new(SEEN_SLOTS as nat, |i: int| 0usize));
        player
    }

    /// Forgets the cards seen: the shoe was shuffled.
    pub fn shuffle(&mut self)
        ensures
            final(self).seen_cards@ == Seq::new(SEEN_SLOTS as nat, |i: int| 0usize),
            final(self).rules == old(self).rules,
            final(self).strategy == old(self).strategy,
            final(self).wager == old(self).wager,
            final(self).splits == old(self).splits,
            final(self).report == old(self).report,
    {
        self.seen_cards = [0;13];
        assert(self.seen_cards@ =~= Seq::new(SEEN_SLOTS as nat, |i: int| 0usize));
    }

    /// Takes a card into the hand that was dealt and counts it as seen.
    pub fn draw_card(&mut self, maybe_card: Option<Card>) -> (done: Result<(), StrikerError>)
        requires
            maybe_card.is_some(),
            old(self).wager.hand.has_room(),
        ensures
            done.is_ok() == (old(self).seen_cards@[maybe_card.unwrap().rank.spec_value() as int]
                < usize::MAX),
            done.is_err()
                ==> done == Err::<(), StrikerError>(StrikerError::Overflow)
                && *final(self) == *old(self),
            done.is_ok()
                ==> final(self).wager.hand.wf()
                && final(self).wager.hand.cards@
                == old(self).wager.hand.cards@.push(maybe_card.unwrap())
                && final(self).seen_cards@ == seen_with(
                old(self).seen_cards@,
                maybe_card.unwrap().rank.spec_value() as int,
            ),
            done.is_ok()
                ==> final(self).rules == old(self).rules
                && final(self).strategy == old(self).strategy
                && final(self).splits == old(self).splits
                && final(self).report == old(self).report && final(self).wager == (Wager {
                hand: final(self).wager.hand,
                ..old(self).wager
            }),
            done.is_ok()
                ==> cards_seen(final(self).seen_cards@) == cards_seen(old(self).seen_cards@)
                + 1,
    {
        proof {
            if self.seen_cards@[maybe_card.unwrap().rank.spec_value() as int] < usize::MAX {
                lemma_seen_with(self.seen_cards@, maybe_card.unwrap().rank.spec_value() as int);
            }
        }
        match Player::note_card(&mut self.seen_cards, &maybe_card) {
            Err(e) => Err(e),
            Ok(()) => {
                self.wager.hand.draw_card(maybe_card);
                Ok(())
            },
        }
    }

    /// Counts a card as seen. Where there is no card, nothing is counted.
    pub fn show_card(&mut self, card: &Option<Card>) -> (done: Result<(), StrikerError>)
        ensures
            done.is_ok() == (card.is_none()
                || old(self).seen_cards@[card.unwrap().rank.spec_value() as int]
                < usize::MAX),
            done.is_err()
                ==> done == Err::<(), StrikerError>(StrikerError::Overflow)
                && *final(self) == *old(self),
            done.is_ok() && card.is_none() ==> *final(self) == *old(self),
            done.is_ok() && card.is_some() ==> final(self).seen_cards@ == seen_with(
                old(self).seen_cards@,
                card.unwrap().rank.spec_value() as int,
            ) && cards_seen(final(self).seen_cards@) == cards_seen(old(self).seen_cards@) + 1,
            final(self).rules == old(self).rules,
            final(self).strategy == old(self).strategy,
            final(self).wager == old(self).wager,
            final(self).splits == old(self).splits,
            final(self).report == old(self).report,
    {
        proof {
            if card.is_some() && self.seen_cards@[card.unwrap().rank.spec_value() as int]
                < usize::MAX {
                lemma_seen_with(self.seen_cards@, card.unwrap().rank.spec_value() as int);
            }
        }
        Player::note_card(&mut self.seen_cards, card)
    }

    fn note_card(seen: &mut [usize; 13], card: &Option<Card>) -> (done: Result<(), StrikerError>)
        ensures
            done.is_ok() == (card.is_none() || old(seen)@[card.unwrap().rank.spec_value() as int]
                < usize::MAX),
            done.is_err()
                ==> done == Err::<(), StrikerError>(StrikerError::Overflow)
                && *final(seen) == *old(seen),
            done.is_ok() && card.is_none() ==> *final(seen) == *old(seen),
            done.is_ok() && card.is_some() ==> final(seen)@ == seen_with(
                old(seen)@,
                card.unwrap().rank.spec_value() as int,
            ),
    {
        match card {
            None => Ok(()),
            Some(card) => {
                let value: usize = card.rank.value();
                if seen[value] == usize::MAX {
                    return Err(StrikerError::Overflow);
                }
                seen[value] = seen[value] + 1;
                Ok(())
            },
        }
    }

    pub fn get_report(&self) -> (report: &Report)
        ensures
            *report == self.report,
    {
        &self.report
    }

    #[verifier::when_used_as_spec(spec_busted_or_blackjack)]
    pub fn busted_or_blackjack(&self) -> (over: bool)
        ensures
            over == self.spec_busted_or_blackjack(),
    {
        if self.splits.len() == 0 {
            return self.wager.hand.is_busted() || self.wager.hand.is_blackjack();
        }
        if !self.wager.hand.is_busted() {
            return false;
        }
        let mut i: usize = 0;
        while i < self.splits.len()
            invariant
                i <= self.splits@.len(),
                forall|j: int| 0 <= j < i ==> (#[trigger] self.splits@[j]).hand.spec_is_busted(),
            decreases self.splits@.len() - i,
        {
            if !self.splits[i].hand.is_busted() {
                return false;
            }
            i = i + 1;
        }
        true
    }

    #[verifier::when_used_as_spec(spec_mimic_stand)]
    pub fn mimic_stand(&self) -> (stand: bool)
        ensures
            stand == self.spec_mimic_stand(),
    {
        !self.wager.hand.is_soft_17() && self.wager.hand.total >= 17
    }

    /// The bet that the player asks for: the table's minimum where the
    /// player mimics the dealer, and otherwise what the strategy says at
    /// the cards seen.
    pub open spec fn spec_asked_bet(&self, mimic: bool) -> Result<usize, StrikerError> {
        if mimic {
            Ok(MINIMUM_BET)
        } else {
            self.strategy.spec_bet(self.seen_cards@)
        }
    }

    /// Starts a round: the hands that a split made are dropped, the hand
    /// is emptied and the bet is placed.
    pub fn place_bet(&mut self, mimic: bool) -> (done: Result<(), StrikerError>)
        requires
            old(self).wf(),
        ensures
            final(self).wf(),
            done.is_ok() == old(self).spec_asked_bet(mimic).is_ok(),
            done.is_err()
                ==> done == Err::<(), StrikerError>(StrikerError::Overflow) && *final(self)
                == *old(self),
            done.is_ok() ==> {
                &&& final(self).splits@ == Seq::<Wager>::empty()
                &&& final(self).wager.hand.cards@ == Seq::<Card>::empty()
                &&& final(self).wager.amount_bet == accepted_bet(
                    MINIMUM_BET as nat,
                    MAXIMUM_BET as nat,
                    old(self).spec_asked_bet(mimic).unwrap() as nat,
                )
                &&& final(self).wager.amount_won == 0
                &&& final(self).wager.insurance_bet == 0
                &&& final(self).wager.insurance_won == 0
                &&& final(self).rules == old(self).rules
                &&& final(self).strategy == old(self).strategy
                &&& final(self).report == old(self).report
                &&& final(self).seen_cards == old(self).seen_cards
            },
    {
        let bet: usize = if mimic {
            MINIMUM_BET
        } else {
            match self.strategy.get_bet(self.seen_cards.as_slice()) {
                Ok(bet) => bet,
                Err(e) => {
                    return Err(e);
                },
            }
        };
        self.splits.clear();
        self.wager.hand.reset();
        self.wager.place_bet(bet);
        Ok(())
    }

    /// Takes insurance where the strategy says so at the cards seen.
    pub fn insurance(&mut self) -> (done: Result<(), StrikerError>)
        requires
            old(self).wf(),
        ensures
            final(self).wf(),
            done.is_ok() == old(self).strategy.spec_insurance(old(self).seen_cards@).is_ok(),
            done.is_err() ==> done == Err::<(), StrikerError>(StrikerError::Overflow),
            old(self).strategy.spec_insurance(old(self).seen_cards@)
                == Ok::<bool, StrikerError>(true) ==> *final(self) == (Player {
                wager: Wager {
                    insurance_bet: old(self).wager.amount_bet / 2,
                    ..old(self).wager
                },
                ..*old(self)
            }),
            old(self).strategy.spec_insurance(old(self).seen_cards@) != Ok::<bool,
                StrikerError>(true) ==> *final(self) == *old(self),
    {
        match self.strategy.get_insurance(self.seen_cards.as_slice()) {
            Err(e) => Err(e),
            Ok(take) => {
                if take {
                    self.wager.place_insurance_bet();
                }
                Ok(())
            },
        }
    }

    /// Draws a card from the shoe into the hand of `wager` and counts it
    /// as seen.
    fn deal(
        seen: &mut [usize; 13],
        wager: &mut Wager,
        shoe: &mut Shoe,
    ) -> (dealt: Result<Card, StrikerError>)
        requires
            old(shoe).wf(),
            Player::wager_wf(*old(wager)),
        ensures
            final(shoe).wf(),
            Shoe::drawn_from(*old(shoe), *final(shoe)),
            Player::wager_wf(*final(wager)),
            grew(old(seen)@, final(seen)@),
            extends(*old(wager), *final(wager)),
            dealt.is_err()
                ==> dealt == Err::<Card, StrikerError>(StrikerError::Overflow) && *final(seen)
                == *old(seen) && *final(wager) == *old(wager),
            !can_draw(old(wager).hand, *old(shoe)) ==> dealt.is_err() && *final(shoe) == *old(shoe),
            headroom(old(seen)@, *old(shoe), 1) && old(wager).hand.has_room() ==> dealt.is_ok(),
            drew_at_most(old(seen)@, final(seen)@, *old(shoe), *final(shoe), 1),
            dealt.is_ok() ==> {
                &&& Shoe::drew(*old(shoe), *final(shoe), Some(dealt.unwrap()))
                &&& final(wager).hand.cards@ == old(wager).hand.cards@.push(dealt.unwrap())
                &&& final(seen)@ == seen_with(old(seen)@, dealt.unwrap().rank.spec_value() as int)
                &&& cards_seen(final(seen)@) == cards_seen(old(seen)@) + 1
            },
            dealt.is_err()
                ==> !headroom(final(seen)@, *final(shoe), 1) || !old(wager).hand.has_room(),
    {
        if shoe.number_of_shuffles == usize::MAX || shoe.out_of_cards == usize::MAX
            || wager.hand.cards.len() >= usize::MAX / 11 {
            return Err(StrikerError::Overflow);
        }
        let card = shoe.draw_card();
        match Player::note_card(seen, &card) {
            Err(e) => Err(e),
            Ok(()) => {
                proof {
                    lemma_seen_with(old(seen)@, card.unwrap().rank.spec_value() as int);
                }
                wager.hand.draw_card(card);
                Ok(card.unwrap())
            },
        }
    }

    /// Draws like the dealer: until the hand stands at 17 or more and is
    /// no soft 17.
    fn play_mimic(
        seen: &mut [usize; 13],
        wager: &mut Wager,
        shoe: &mut Shoe,
    ) -> (done: Result<(), StrikerError>)
        requires
            old(shoe).wf(),
            Player::wager_wf(*old(wager)),
        ensures
            final(shoe).wf(),
            Shoe::drawn_from(*old(shoe), *final(shoe)),
            Player::wager_wf(*final(wager)),
            grew(old(seen)@, final(seen)@),
            extends(*old(wager), *final(wager)),
            done.is_ok()
                ==> cards_seen(final(seen)@) - cards_seen(old(seen)@)
                == final(wager).hand.cards@.len()
                - old(wager).hand.cards@.len(),
            done.is_err() ==> done == Err::<(), StrikerError>(StrikerError::Overflow),
            done.is_ok() ==> stands_like_dealer(final(wager).hand),
            done.is_ok() ==> drawn_by_rule(
                old(wager).hand.cards@.len() as int,
                final(wager).hand.cards@,
                true,
            ),
            headroom(old(seen)@, *old(shoe), 22) ==> done.is_ok(),
            drew_at_most(old(seen)@, final(seen)@, *old(shoe), *final(shoe), 22),
            stands_like_dealer(old(wager).hand) ==> done.is_ok() && *final(wager) == *old(wager)
                && *final(seen) == *old(seen) && *final(shoe) == *old(shoe),
            done.is_ok()
                ==> final(seen)@ == seen_after(old(seen)@, added(*old(wager), *final(wager))),
            done.is_ok()
                ==> dealt_in_order(*old(shoe), *final(shoe), added(*old(wager), *final(wager))),
            done.is_err() ==> !headroom(final(seen)@, *final(shoe), 1),
            0 <= counted(old(seen)@, final(seen)@) <= 22,
            drew_at_most(old(seen)@, final(seen)@, *old(shoe), *final(shoe), counted(old(seen)@,
                final(seen)@) + 1),
    {
        assert(added(*old(wager), *wager) =~= Seq::<Card>::empty());
        while !(!wager.hand.is_soft_17() && wager.hand.total >= 17)
            invariant
                seen@ == seen_after(old(seen)@, added(*old(wager), *wager)),
                dealt_in_order(*old(shoe), *shoe, added(*old(wager), *wager)),
                old(shoe).wf(),
                shoe.wf(),
                Shoe::drawn_from(*old(shoe), *shoe),
                Player::wager_wf(*wager),
                grew(old(seen)@, seen@),
                extends(*old(wager), *wager),
                cards_seen(seen@) - cards_seen(old(seen)@) == wager.hand.cards@.len()
                    - old(wager).hand.cards@.len(),
                stands_like_dealer(old(wager).hand) ==> *wager == *old(wager) && *seen == *old(seen)
                    && *shoe == *old(shoe),
                drawn_by_rule(old(wager).hand.cards@.len() as int, wager.hand.cards@, true),
                drew_at_most(
                    old(seen)@,
                    seen@,
                    *old(shoe),
                    *shoe,
                    wager.hand.cards@.len() - old(wager).hand.cards@.len(),
                ),
                wager.hand.cards@.len() - old(wager).hand.cards@.len() <= 22,
            decreases 23 - wager.hand.cards@.len(),
        {
            let ghost held = wager.hand.cards@;
            let ghost before = *shoe;
            proof {
                lemma_hand_total_at_least_len(held);
            }
            match Player::deal(seen, wager, shoe) {
                Err(e) => {
                    return Err(e);
                },
                Ok(card) => {
                    proof {
                        lemma_drawn_by_rule_push(
                            old(wager).hand.cards@.len() as int,
                            held,
                            card,
                            true,
                        );
                        let had = old(wager).hand.cards@.len() as int;
                        assert(wager.hand.cards@.skip(had) =~= held.skip(had).push(card));
                        assert(held.skip(had).push(card).drop_last() =~= held.skip(had));
                        lemma_dealt_in_order_push(
                            *old(shoe),
                            before,
                            *shoe,
                            held.skip(had),
                            card,
                        );
                    }
                },
            }
        }
        Ok(())
    }

    /// Draws until the hand is busted or the strategy says stand. `standing`
    /// is what the strategy says of the hand as it is.
    fn hit_loop(
        strategy: &Strategy,
        seen: &mut [usize; 13],
        wager: &mut Wager,
        shoe: &mut Shoe,
        up: &Card,
        standing: bool,
    ) -> (done: Result<(), StrikerError>)
        requires
            strategy.wf(),
            old(shoe).wf(),
            Player::wager_wf(*old(wager)),
            !old(wager).hand.spec_is_busted() ==> strategy.spec_stand(
                old(seen)@,
                old(wager).hand.total,
                old(wager).hand.spec_is_soft(),
                *up,
            ) == Ok::<bool, StrikerError>(standing),
        ensures
            done.is_ok()
                ==> final(seen)@ == seen_after(old(seen)@, added(*old(wager), *final(wager))),
            done.is_ok() ==> dealt_in_order(
                *old(shoe),
                *final(shoe),
                added(*old(wager), *final(wager)),
            ),
            done.is_ok() ==> hit_by_strategy(
                *strategy,
                old(seen)@,
                old(wager).hand.cards@.len() as int,
                final(wager).hand.cards@,
                *up,
            ),
            drew_at_most(old(seen)@, final(seen)@, *old(shoe), *final(shoe), 22),
            done.is_err() && strategy.spec_complete() && old(wager).hand.cards@.len() >= 2 ==> done
                == Err::<(), StrikerError>(StrikerError::Overflow) && out_of_draws(
                *strategy,
                final(seen)@,
                *final(shoe),
            ),
            strategy.spec_complete() && old(wager).hand.cards@.len() >= 2 && headroom(
                old(seen)@,
                *old(shoe),
                22,
            ) && strategy.spec_counts_fit(old(seen)@, 22) ==> done.is_ok(),
            final(shoe).wf(),
            Shoe::drawn_from(*old(shoe), *final(shoe)),
            Player::wager_wf(*final(wager)),
            grew(old(seen)@, final(seen)@),
            extends(*old(wager), *final(wager)),
            done.is_ok()
                ==> cards_seen(final(seen)@) - cards_seen(old(seen)@)
                == final(wager).hand.cards@.len()
                - old(wager).hand.cards@.len(),
            done.is_err()
                ==> done == Err::<(), StrikerError>(StrikerError::Overflow)
                    || done == Err::<(), StrikerError>(StrikerError::Lookup),
            done.is_ok() ==> final(wager).hand.spec_is_busted() || strategy.spec_stand(
                final(seen)@,
                final(wager).hand.total,
                final(wager).hand.spec_is_soft(),
                *up,
            ) == Ok::<bool, StrikerError>(true),
            old(wager).hand.spec_is_busted() || standing
                ==> done.is_ok() && *final(wager) == *old(wager)
                && *final(seen) == *old(seen) && *final(shoe) == *old(shoe),
            done.is_ok() ==> drawn_unbusted(
                old(wager).hand.cards@.len() as int,
                final(wager).hand.cards@,
            ),
            done.is_ok()
                ==> drew_at_most(old(seen)@, final(seen)@, *old(shoe), *final(shoe),
                counted(old(seen)@, final(seen)@)),
            done.is_err()
                ==> counted(old(seen)@, final(seen)@) >= 0
                && drew_at_most(old(seen)@, final(seen)@, *old(shoe), *final(shoe),
                counted(old(seen)@, final(seen)@) + 1),
            0 <= counted(old(seen)@, final(seen)@) <= 22,
    {
        let mut stand: bool = standing;
        assert(added(*old(wager), *wager) =~= Seq::<Card>::empty());
        while !wager.hand.is_busted() && !stand
            invariant
                old(shoe).wf(),
                seen@ == seen_after(old(seen)@, added(*old(wager), *wager)),
                dealt_in_order(*old(shoe), *shoe, added(*old(wager), *wager)),
                hit_by_strategy(
                    *strategy,
                    old(seen)@,
                    old(wager).hand.cards@.len() as int,
                    wager.hand.cards@,
                    *up,
                ),
                drew_at_most(
                    old(seen)@,
                    seen@,
                    *old(shoe),
                    *shoe,
                    wager.hand.cards@.len() - old(wager).hand.cards@.len(),
                ),
                wager.hand.cards@.len() - old(wager).hand.cards@.len() <= 22,
                !wager.hand.spec_is_busted() ==> strategy.spec_stand(
                    seen@,
                    wager.hand.total,
                    wager.hand.spec_is_soft(),
                    *up,
                ) == Ok::<bool, StrikerError>(stand),
                strategy.wf(),
                shoe.wf(),
                Shoe::drawn_from(*old(shoe), *shoe),
                Player::wager_wf(*wager),
                grew(old(seen)@, seen@),
                extends(*old(wager), *wager),
                cards_seen(seen@) - cards_seen(old(seen)@) == wager.hand.cards@.len()
                    - old(wager).hand.cards@.len(),
                old(wager).hand.spec_is_busted() || standing
                    ==> *wager == *old(wager) && *seen == *old(seen) && *shoe == *old(shoe)
                    && stand == standing,
                drawn_unbusted(old(wager).hand.cards@.len() as int, wager.hand.cards@),
            decreases 23 - wager.hand.cards@.len(),
        {
            let ghost held = wager.hand.cards@;
            let ghost before = *shoe;
            let ghost had = old(wager).hand.cards@.len() as int;
            proof {
                lemma_hand_total_at_least_len(held);
                assert(within(old(seen)@, seen@, 22));
            }
            match Player::deal(seen, wager, shoe) {
                Err(e) => {
                    return Err(e);
                },
                Ok(card) => {
                    proof {
                        lemma_drawn_unbusted_push(had, held, card);
                        assert(wager.hand.cards@.skip(had) =~= held.skip(had).push(card));
                        assert(held.skip(had).push(card).drop_last() =~= held.skip(had));
                        lemma_dealt_in_order_push(*old(shoe), before, *shoe, held.skip(had), card);
                        lemma_hit_by_strategy_push(*strategy, old(seen)@, had, held, card, *up);
                    }
                },
            }
            proof {
                if !wager.hand.spec_is_busted() && old(wager).hand.cards@.len() >= 2
                    && strategy.spec_complete() {
                    strategy.lemma_stand_decides(seen@, wager.hand.cards@, *up);
                    assert(within(old(seen)@, seen@, 22));
                }
            }
            if !wager.hand.is_busted() {
                match strategy.get_stand(
                    seen.as_slice(),
                    wager.hand.total,
                    wager.hand.is_soft(),
                    up,
                ) {
                    Err(e) => {
                        return Err(e);
                    },
                    Ok(decision) => {
                        stand = decision;
                    },
                }
            }
        }
        Ok(())
    }

    /// Plays a hand that is not split: draws until it is busted or the
    /// strategy says stand.
    fn hit_until_stand_or_bust(
        strategy: &Strategy,
        seen: &mut [usize; 13],
        wager: &mut Wager,
        shoe: &mut Shoe,
        up: &Card,
    ) -> (done: Result<(), StrikerError>)
        requires
            strategy.wf(),
            old(shoe).wf(),
            Player::wager_wf(*old(wager)),
        ensures
            final(shoe).wf(),
            Shoe::drawn_from(*old(shoe), *final(shoe)),
            Player::wager_wf(*final(wager)),
            grew(old(seen)@, final(seen)@),
            extends(*old(wager), *final(wager)),
            done.is_ok()
                ==> cards_seen(final(seen)@) - cards_seen(old(seen)@)
                == final(wager).hand.cards@.len()
                - old(wager).hand.cards@.len(),
            done.is_err()
                ==> done == Err::<(), StrikerError>(StrikerError::Overflow)
                    || done == Err::<(), StrikerError>(StrikerError::Lookup),
            done.is_ok() ==> final(wager).hand.spec_is_busted() || strategy.spec_stand(
                final(seen)@,
                final(wager).hand.total,
                final(wager).hand.spec_is_soft(),
                *up,
            ) == Ok::<bool, StrikerError>(true),
            done.is_ok() ==> drawn_unbusted(
                old(wager).hand.cards@.len() as int,
                final(wager).hand.cards@,
            ),
            !old(wager).hand.spec_is_busted() ==> match strategy.spec_stand(
                old(seen)@,
                old(wager).hand.total,
                old(wager).hand.spec_is_soft(),
                *up,
            ) {
                Err(e) => done == Err::<(), StrikerError>(e),
                Ok(stand) => stand ==> done.is_ok(),
            },
            old(wager).hand.spec_is_busted() || strategy.spec_stand(
                old(seen)@,
                old(wager).hand.total,
                old(wager).hand.spec_is_soft(),
                *up,
            ) != Ok::<bool, StrikerError>(false) ==> *final(wager) == *old(wager) && *final(seen)
                == *old(seen) && *final(shoe) == *old(shoe),
            done.is_ok()
                ==> final(seen)@ == seen_after(old(seen)@, added(*old(wager), *final(wager))),
            done.is_ok()
                ==> dealt_in_order(*old(shoe), *final(shoe), added(*old(wager), *final(wager))),
            done.is_ok()
                ==> hit_by_strategy(*strategy, old(seen)@, old(wager).hand.cards@.len() as int,
                final(wager).hand.cards@, *up),
            drew_at_most(old(seen)@, final(seen)@, *old(shoe), *final(shoe), 22),
            done.is_err() && strategy.spec_complete() && old(wager).hand.cards@.len() >= 2
                ==> done == Err::<(), StrikerError>(StrikerError::Overflow)
                && out_of_draws(*strategy, final(seen)@, *final(shoe)),
            strategy.spec_complete() && old(wager).hand.cards@.len() >= 2
                && headroom(old(seen)@, *old(shoe), 22)
                && strategy.spec_counts_fit(old(seen)@, 22) ==> done.is_ok(),
            old(wager).hand.spec_is_busted() ==> done.is_ok(),
            done.is_ok()
                ==> drew_at_most(old(seen)@, final(seen)@, *old(shoe), *final(shoe),
                counted(old(seen)@, final(seen)@)),
            done.is_err()
                ==> counted(old(seen)@, final(seen)@) >= 0
                && drew_at_most(old(seen)@, final(seen)@, *old(shoe), *final(shoe),
                counted(old(seen)@, final(seen)@) + 1),
            0 <= counted(old(seen)@, final(seen)@) <= 22,
    {
        proof {
            assert(added(*old(wager), *wager) =~= Seq::<Card>::empty());
            assert(within(old(seen)@, seen@, 22));
            if !wager.hand.spec_is_busted() && wager.hand.cards@.len() >= 2
                && strategy.spec_complete() {
                strategy.lemma_stand_decides(seen@, wager.hand.cards@, *up);
            }
        }
        if wager.hand.is_busted() {
            return Ok(());
        }
        match strategy.get_stand(seen.as_slice(), wager.hand.total, wager.hand.is_soft(), up) {
            Err(e) => Err(e),
            Ok(standing) => Player::hit_loop(strategy, seen, wager, shoe, up, standing),
        }
    }

    /// Plays a hand that came out of a split. Where it is a pair again
    /// and the strategy says so, it is split again, and each half is
    /// played in turn after it got its second card; the second half then
    /// joins `splits`. Otherwise the hand is played until it is busted or
    /// the strategy says stand.
    fn play_split_hand(
        strategy: &Strategy,
        seen: &mut [usize; 13],
        report: &mut Report,
        splits: &mut Vec<Wager>,
        wager: &mut Wager,
        shoe: &mut Shoe,
        up: &Card,
    ) -> (done: Result<(), StrikerError>)
        requires
            strategy.wf(),
            old(shoe).wf(),
            Player::wager_wf(*old(wager)),
            wagers_wf(old(splits)@),
        ensures
            final(shoe).wf(),
            Shoe::drawn_from(*old(shoe), *final(shoe)),
            Player::wager_wf(*final(wager)),
            wagers_wf(final(splits)@),
            grew(old(seen)@, final(seen)@),
            begins_with(final(splits)@, old(splits)@),
            counted_splits(*old(report), *final(report)),
            done.is_err()
                ==> done == Err::<(), StrikerError>(StrikerError::Overflow)
                    || done == Err::<(), StrikerError>(StrikerError::Lookup),
            done.is_ok() ==> {
                &&& played_from(*old(wager), *final(wager))
                &&& cards_seen(final(seen)@) - cards_seen(old(seen)@)
                    == final(wager).hand.cards@.len()
                    - old(wager).hand.cards@.len() + cards_held(final(splits)@) - cards_held(
                    old(splits)@,
                )
                &&& finished(*strategy, final(wager).hand, *up, old(seen)@, final(seen)@)
                &&& splits_played(
                    *strategy,
                    final(splits)@,
                    old(splits)@.len() as int,
                    old(wager).amount_bet,
                    *up,
                    old(wager).hand.cards@[0].rank,
                    old(seen)@,
                    final(seen)@,
                )
                &&& old(wager).hand.cards@.len() >= 2 ==> final(wager).hand.cards@.len() >= 2
                &&& final(report).total_splits - old(report).total_splits == final(splits)@.len()
                    - old(splits)@.len()
            },
            old(wager).hand.spec_is_pair() ==> match strategy.spec_split(
                old(seen)@,
                old(wager).hand.cards@[0],
                *up,
            ) {
                Err(e) => done == Err::<(), StrikerError>(e),
                Ok(split) => !split && done.is_ok() ==> extends(*old(wager), *final(wager))
                    && *final(splits) == *old(splits),
            },
            !old(wager).hand.spec_is_pair() && done.is_ok() ==> extends(*old(wager), *final(wager))
                && *final(splits) == *old(splits),
            done.is_err() && strategy.spec_complete() && old(wager).hand.cards@.len() >= 2
                && !old(wager).hand.spec_is_busted()
                ==> done == Err::<(), StrikerError>(StrikerError::Overflow)
                && out_of_room(*strategy, final(seen)@, *final(shoe), *final(report)),
            not_split(*strategy, old(seen)@, *old(wager), *up) ==> match strategy.spec_stand(
                old(seen)@,
                old(wager).hand.total,
                old(wager).hand.spec_is_soft(),
                *up,
            ) {
                Err(e) => done == Err::<(), StrikerError>(e),
                Ok(stand) => {
                    &&& stand || old(wager).hand.spec_is_busted() ==> {
                        &&& done.is_ok()
                        &&& *final(wager) == *old(wager)
                        &&& *final(seen) == *old(seen)
                        &&& *final(shoe) == *old(shoe)
                    }
                    &&& strategy.spec_complete() && old(wager).hand.cards@.len() >= 2
                        && headroom(old(seen)@, *old(shoe), 22)
                        && strategy.spec_counts_fit(old(seen)@, 22) ==> done.is_ok()
                    &&& done.is_ok() ==> {
                        let drawn = added(*old(wager), *final(wager));
                        &&& hit_by_strategy(
                            *strategy,
                            old(seen)@,
                            old(wager).hand.cards@.len() as int,
                            final(wager).hand.cards@,
                            *up,
                        )
                        &&& final(seen)@ == seen_after(old(seen)@, drawn)
                        &&& dealt_in_order(*old(shoe), *final(shoe), drawn)
                    }
                },
            },
            done.is_ok()
                ==> drew_at_most(old(seen)@, final(seen)@, *old(shoe), *final(shoe),
                counted(old(seen)@, final(seen)@)),
            done.is_err()
                ==> counted(old(seen)@, final(seen)@) >= 0
                && drew_at_most(old(seen)@, final(seen)@, *old(shoe), *final(shoe),
                counted(old(seen)@, final(seen)@) + 1),
            done.is_ok()
                ==> final(report).total_splits - old(report).total_splits
                <= counted(old(seen)@, final(seen)@),
            done.is_err()
                ==> final(report).total_splits - old(report).total_splits
                <= counted(old(seen)@, final(seen)@) + 1,
            done.is_err() && strategy.spec_complete() && old(wager).hand.cards@.len() >= 2
                && !old(wager).hand.spec_is_busted()
                ==> !play_room(*strategy, old(seen)@, *old(shoe), *old(report), counted(old(seen)@,
                final(seen)@) + 2),
            old(wager).hand.cards@.len() >= 2
                ==> counted(old(seen)@, final(seen)@) <= 24 * (final(report).total_splits
                - old(report).total_splits + 1) - 2,
        decreases usize::MAX - old(report).total_splits, 1nat,
    {
        proof {
            if wager.hand.spec_is_pair() && strategy.spec_complete() {
                strategy.lemma_first_move_decides(seen@, wager.hand.cards@, *up);
            }
        }
        if wager.hand.is_pair() {
            let pair: Card = wager.hand.cards[0];
            match strategy.get_split(seen.as_slice(), &pair, up) {
                Err(e) => {
                    return Err(e);
                },
                Ok(split_it) => {
                    if split_it {
                        return Player::split_again(strategy, seen, report, splits, wager, shoe, up);
                    }
                },
            }
        }
        proof {
            if wager.hand.cards@.len() >= 2 && !wager.hand.spec_is_busted()
                && strategy.spec_complete() {
                strategy.lemma_stand_decides(seen@, wager.hand.cards@, *up);
            }
        }
        match strategy.get_stand(seen.as_slice(), wager.hand.total, wager.hand.is_soft(), up) {
            Err(e) => Err(e),
            Ok(standing) => {
                let ghost began = seen@;
                let ghost had = wager.hand.cards@.len() as int;
                let done = Player::hit_loop(strategy, seen, wager, shoe, up, standing);
                proof {
                    if done.is_ok() {
                        assert(hit_by_strategy(*strategy, began, had, wager.hand.cards@, *up));
                        assert(grew(began, began));
                        assert(wager.hand.cards@.skip(had) == added(*old(wager), *wager));
                        assert(grew(seen_after(began, wager.hand.cards@.skip(had)), seen@));
                        assert(finished(*strategy, wager.hand, *up, began, seen@));
                    }
                }
                done
            },
        }
    }

    /// Splits a pair that came out of a split, and plays both halves.
    #[verifier::rlimit(60)]
    fn split_again(
        strategy: &Strategy,
        seen: &mut [usize; 13],
        report: &mut Report,
        splits: &mut Vec<Wager>,
        wager: &mut Wager,
        shoe: &mut Shoe,
        up: &Card,
    ) -> (done: Result<(), StrikerError>)
        requires
            strategy.wf(),
            old(shoe).wf(),
            Player::wager_wf(*old(wager)),
            wagers_wf(old(splits)@),
            old(wager).hand.spec_is_pair(),
        ensures
            final(shoe).wf(),
            Shoe::drawn_from(*old(shoe), *final(shoe)),
            Player::wager_wf(*final(wager)),
            wagers_wf(final(splits)@),
            grew(old(seen)@, final(seen)@),
            begins_with(final(splits)@, old(splits)@),
            counted_splits(*old(report), *final(report)),
            done.is_err()
                ==> done == Err::<(), StrikerError>(StrikerError::Overflow)
                    || done == Err::<(), StrikerError>(StrikerError::Lookup),
            done.is_ok() ==> {
                &&& played_from(*old(wager), *final(wager))
                &&& cards_seen(final(seen)@) - cards_seen(old(seen)@)
                    == final(wager).hand.cards@.len()
                    - old(wager).hand.cards@.len() + cards_held(final(splits)@) - cards_held(
                    old(splits)@,
                )
                &&& finished(*strategy, final(wager).hand, *up, old(seen)@, final(seen)@)
                &&& splits_played(
                    *strategy,
                    final(splits)@,
                    old(splits)@.len() as int,
                    old(wager).amount_bet,
                    *up,
                    old(wager).hand.cards@[0].rank,
                    old(seen)@,
                    final(seen)@,
                )
                &&& old(wager).hand.cards@.len() >= 2 ==> final(wager).hand.cards@.len() >= 2
                &&& final(report).total_splits - old(report).total_splits == final(splits)@.len()
                    - old(splits)@.len()
                &&& final(splits)@.len() > old(splits)@.len()
            },
            done.is_err() && strategy.spec_complete() && old(wager).hand.cards@.len() >= 2
                && !old(wager).hand.spec_is_busted()
                ==> done == Err::<(), StrikerError>(StrikerError::Overflow)
                && out_of_room(*strategy, final(seen)@, *final(shoe), *final(report)),
            done.is_ok()
                ==> drew_at_most(old(seen)@, final(seen)@, *old(shoe), *final(shoe),
                counted(old(seen)@, final(seen)@)),
            done.is_err()
                ==> counted(old(seen)@, final(seen)@) >= 0
                && drew_at_most(old(seen)@, final(seen)@, *old(shoe), *final(shoe),
                counted(old(seen)@, final(seen)@) + 1),
            done.is_ok()
                ==> final(report).total_splits - old(report).total_splits
                <= counted(old(seen)@, final(seen)@),
            done.is_err()
                ==> final(report).total_splits - old(report).total_splits
                <= counted(old(seen)@, final(seen)@) + 1,
            done.is_err() && strategy.spec_complete() && old(wager).hand.cards@.len() >= 2
                && !old(wager).hand.spec_is_busted()
                ==> !play_room(*strategy, old(seen)@, *old(shoe), *old(report), counted(old(seen)@,
                final(seen)@) + 2),
            old(wager).hand.cards@.len() >= 2
                ==> counted(old(seen)@, final(seen)@) <= 24 * (final(report).total_splits
                - old(report).total_splits + 1) - 2,
        decreases usize::MAX - old(report).total_splits, 0nat,
    {
        if report.total_splits == usize::MAX {
            return Err(StrikerError::Overflow);
        }
        let mut split = Wager::new(MINIMUM_BET, MAXIMUM_BET);
        match wager.split_hand(&mut split) {
            Err(_) => {
                return Err(StrikerError::Overflow);
            },
            Ok(()) => {},
        }
        report.total_splits = report.total_splits + 1;
        assert(wager.hand.has_room() && split.hand.has_room());
        match Player::deal(seen, wager, shoe) {
            Err(e) => {
                return Err(e);
            },
            Ok(_) => {},
        }
        proof {
            lemma_live_totals(wager.hand.cards@);
        }
        let ghost dealt = seen@;
        match Player::play_split_hand(strategy, seen, report, splits, wager, shoe, up) {
            Err(e) => {
                return Err(e);
            },
            Ok(()) => {},
        }
        let ghost played = seen@;
        let ghost between = splits@;
        match Player::deal(seen, &mut split, shoe) {
            Err(e) => {
                return Err(e);
            },
            Ok(_) => {},
        }
        proof {
            lemma_live_totals(split.hand.cards@);
        }
        let ghost dealt_again = seen@;
        match Player::play_split_hand(strategy, seen, report, splits, &mut split, shoe, up) {
            Err(e) => {
                return Err(e);
            },
            Ok(()) => {},
        }
        proof {
            lemma_cards_held_push(splits@, split);
            lemma_both_halves_played(
                *strategy,
                *up,
                old(wager).amount_bet,
                old(wager).hand.cards@[0].rank,
                wager.hand,
                split,
                old(splits)@,
                between,
                splits@,
                seq![old(seen)@, dealt, played, dealt_again, seen@],
            );
        }
        splits.push(split);
        Ok(())
    }

    /// The number of cards in all the hands of the player.
    pub open spec fn spec_cards_held(&self) -> nat {
        self.wager.hand.cards@.len() + cards_held(self.splits@)
    }

    /// What the player does first with the hand that was dealt. A natural
    /// is not played. A player who mimics the dealer asks no chart.
    /// Otherwise the charts are asked in turn whether to double and, for
    /// a pair, whether to split; a chart that lacks the row, or a running
    /// count that leaves the machine range, is an error.
    pub open spec fn spec_first_move(&self, up: Card, mimic: bool) -> Result<Move, StrikerError> {
        if self.wager.hand.spec_is_blackjack() {
            Ok(Move::Natural)
        } else if mimic {
            Ok(Move::Mimic)
        } else {
            match self.strategy.spec_double(
                self.seen_cards@,
                self.wager.hand.total,
                self.wager.hand.spec_is_soft(),
                up,
            ) {
                Err(e) => Err(e),
                Ok(double) => if double {
                    Ok(Move::Double)
                } else if self.wager.hand.spec_is_pair() {
                    match self.strategy.spec_split(self.seen_cards@, self.wager.hand.cards@[0],
                        up) {
                        Err(e) => Err(e),
                        Ok(split) => if split {
                            Ok(Move::Split)
                        } else {
                            Ok(Move::Hit)
                        },
                    }
                } else {
                    Ok(Move::Hit)
                },
            }
        }
    }

    /// What the player does first with the hand that was dealt.
    pub fn first_move(&self, up: &Card, mimic: bool) -> (first: Result<Move, StrikerError>)
        requires
            self.wf(),
        ensures
            first == self.spec_first_move(*up, mimic),
    {
        if self.wager.hand.is_blackjack() {
            return Ok(Move::Natural);
        }
        if mimic {
            return Ok(Move::Mimic);
        }
        match self.strategy.get_double(
            self.seen_cards.as_slice(),
            self.wager.hand.total,
            self.wager.hand.is_soft(),
            up,
        ) {
            Err(e) => {
                return Err(e);
            },
            Ok(double) => {
                if double {
                    return Ok(Move::Double);
                }
            },
        }
        if self.wager.hand.is_pair() {
            let pair: Card = self.wager.hand.cards[0];
            match self.strategy.get_split(self.seen_cards.as_slice(), &pair, up) {
                Err(e) => {
                    return Err(e);
                },
                Ok(split) => {
                    if split {
                        return Ok(Move::Split);
                    }
                },
            }
        }
        Ok(Move::Hit)
    }

    /// What a round of play has made of the player: `self` is the player
    /// after the move `first` was carried out on `before` against `up`.
    pub open spec fn spec_played(&self, before: Player, first: Move, up: Card) -> bool {
        match first {
            Move::Natural => *self == (Player {
                report: Report {
                    total_blackjacks: (before.report.total_blackjacks + 1) as usize,
                    ..before.report
                },
                ..before
            }),
            Move::Mimic => {
                &&& self.seen_cards@
                    == seen_after(before.seen_cards@, added(before.wager, self.wager))
                &&& self.spec_mimic_stand()
                &&& drawn_by_rule(before.wager.hand.cards@.len() as int, self.wager.hand.cards@,
                    true)
                &&& extends(before.wager, self.wager)
                &&& self.splits == before.splits
                &&& self.report == before.report
            },
            Move::Double => {
                &&& self.seen_cards@
                    == seen_after(before.seen_cards@, added(before.wager, self.wager))
                &&& self.wager == (Wager {
                    hand: self.wager.hand,
                    amount_bet: (before.wager.amount_bet * 2) as usize,
                    ..before.wager
                })
                &&& before.wager.amount_bet * 2 <= usize::MAX
                &&& begins_with(self.wager.hand.cards@, before.wager.hand.cards@)
                &&& self.wager.hand.cards@.len() == before.wager.hand.cards@.len() + 1
                &&& self.splits == before.splits
                &&& before.report.total_doubles < usize::MAX
                &&& self.report == (Report {
                    total_doubles: (before.report.total_doubles + 1) as usize,
                    ..before.report
                })
            },
            Move::Split => {
                &&& played_from(before.wager, self.wager)
                &&& self.splits@.len() > before.splits@.len()
                &&& self.report.total_splits - before.report.total_splits == self.splits@.len()
                    - before.splits@.len()
                &&& if before.wager.hand.spec_is_pair_of_aces() {
                    &&& before.report.total_splits_ace < usize::MAX
                    &&& self.report == (Report {
                        total_splits: self.report.total_splits,
                        total_splits_ace: (before.report.total_splits_ace + 1) as usize,
                        ..before.report
                    })
                    &&& self.splits@.len() == before.splits@.len() + 1
                    &&& self.wager.hand.cards@.len() == 2
                    &&& self.splits@.last().hand.cards@.len() == 2
                    &&& self.splits@.last().hand.cards@[0] == before.wager.hand.cards@[1]
                    &&& split_off(self.splits@.last(), before.wager.amount_bet)
                } else {
                    &&& counted_splits(before.report, self.report)
                    &&& finished(
                        self.strategy,
                        self.wager.hand,
                        up,
                        before.seen_cards@,
                        self.seen_cards@,
                    )
                    &&& splits_played(
                        self.strategy,
                        self.splits@,
                        before.splits@.len() as int,
                        before.wager.amount_bet,
                        up,
                        before.wager.hand.cards@[0].rank,
                        before.seen_cards@,
                        self.seen_cards@,
                    )
                    &&& self.wager.hand.cards@.len() >= 2
                }
            },
            Move::Hit => {
                &&& self.seen_cards@
                    == seen_after(before.seen_cards@, added(before.wager, self.wager))
                &&& hit_by_strategy(
                    self.strategy,
                    before.seen_cards@,
                    before.wager.hand.cards@.len() as int,
                    self.wager.hand.cards@,
                    up,
                )
                &&& extends(before.wager, self.wager)
                &&& drawn_unbusted(before.wager.hand.cards@.len() as int, self.wager.hand.cards@)
                &&& self.splits == before.splits
                &&& self.report == before.report
                &&& self.wager.hand.spec_is_busted() || self.strategy.spec_stand(
                    self.seen_cards@,
                    self.wager.hand.total,
                    self.wager.hand.spec_is_soft(),
                    up,
                ) == Ok::<bool, StrikerError>(true)
            },
        }
    }

    /// What a round of play has used up at most, whether it came to its
    /// end or not: `self` is the player after play on `before`, which
    /// took the shoe from `shoe` to `shoe_after`. For each card that was
    /// counted at most one slot of the histogram and the counters of the
    /// shoe have grown by one, and by one more at most for a card that
    /// was drawn and not counted; there are no more splits than cards
    /// but one, and no more than 24 cards to each hand that play made;
    /// and there is at most one natural, one double and one split of
    /// aces.
    pub open spec fn spec_consumed(&self, before: Player, shoe: Shoe, shoe_after: Shoe) -> bool {
        let cards = counted(before.seen_cards@, self.seen_cards@);
        let made = self.report.total_splits - before.report.total_splits;
        &&& cards >= 0
        &&& made >= 0
        &&& drew_at_most(before.seen_cards@, self.seen_cards@, shoe, shoe_after, cards + 1)
        &&& made <= cards + 1
        &&& cards <= 24 * (made + 1)
        &&& before.report.total_splits_ace <= self.report.total_splits_ace
            <= before.report.total_splits_ace + 1
        &&& before.report.total_doubles <= self.report.total_doubles <= before.report.total_doubles
            + 1
        &&& before.report.total_blackjacks <= self.report.total_blackjacks
            <= before.report.total_blackjacks + 1
    }

    /// What a round of play has counted and staked: `self` is the player
    /// after the move `first` was carried out on `before`.
    ///
    /// The wager has won and lost nothing yet and carries the bet, doubled
    /// where the player doubled down. Each hand that a split made carries
    /// the bet of the hand that was split. The report counts the natural,
    /// the double, each split once and the split of aces. And the player
    /// has seen one card more for each card that the hands hold more.
    pub open spec fn spec_counted(&self, before: Player, first: Move) -> bool {
        &&& same_outcome(before.wager, self.wager)
        &&& self.wager.amount_bet == if first == Move::Double {
            before.wager.amount_bet * 2
        } else {
            before.wager.amount_bet as int
        }
        &&& splits_off(self.splits@, before.splits@.len() as int, before.wager.amount_bet)
        &&& self.report.total_blackjacks == before.report.total_blackjacks + if first
            == Move::Natural {
            1int
        } else {
            0int
        }
        &&& self.report.total_doubles == before.report.total_doubles + if first == Move::Double {
            1int
        } else {
            0int
        }
        &&& self.report.total_splits == before.report.total_splits + self.splits@.len()
            - before.splits@.len()
        &&& self.report.total_splits_ace == before.report.total_splits_ace + if first
            == Move::Split && before.wager.hand.spec_is_pair_of_aces() {
            1int
        } else {
            0int
        }
        &&& cards_seen(self.seen_cards@) - cards_seen(before.seen_cards@)
            == self.spec_cards_held() - before.spec_cards_held()
    }

    /// Plays the player's hand against the dealer's up-card.
    ///
    /// Play succeeds wherever it has room. A natural needs room in its
    /// counter. Play by the dealer's rule and play card by card need room
    /// for 22 cards, a double for one, a split of aces for two; play by
    /// the charts also needs a chart row for every hand that it can
    /// reach, and a running count that can be computed. A split of
    /// another pair can go on for as long as the shoe deals pairs: with
    /// room for a number of cards it fails only once it has counted as
    /// many cards but two, and then with an overflow, out of room. It
    /// counts no more than 24 cards to the hand and to each hand that a
    /// split makes.
    ///
    /// A natural is counted and not played. A player who mimics the
    /// dealer draws by the dealer's rule. Otherwise the player doubles
    /// down and takes exactly one card, or splits a pair and plays each
    /// half, or draws until the hand is busted or the strategy says
    /// stand, as the strategy decides. Every card drawn is counted as
    /// seen at once.
    pub fn play(
        &mut self,
        up: &Card,
        shoe: &mut Shoe,
        mimic: bool,
    ) -> (done: Result<(), StrikerError>)
        requires
            old(self).wf(),
            old(shoe).wf(),
        ensures
            final(self).wf(),
            final(shoe).wf(),
            Shoe::drawn_from(*old(shoe), *final(shoe)),
            final(self).rules == old(self).rules,
            final(self).strategy == old(self).strategy,
            grew(old(self).seen_cards@, final(self).seen_cards@),
            begins_with(final(self).splits@, old(self).splits@),
            final(self).report.same_heading(&old(self).report),
            final(self).report.same_table_counts(&old(self).report),
            final(self).report.same_settlements(&old(self).report),
            done.is_err() && (mimic || old(self).strategy.spec_complete())
                && old(self).wager.hand.cards@.len() == 2
                && old(self).wager.amount_bet * 2 <= usize::MAX ==> done
                == Err::<(), StrikerError>(StrikerError::Overflow) && out_of_room(
                final(self).strategy,
                final(self).seen_cards@,
                *final(shoe),
                final(self).report,
            ),
            old(self).wager.hand.cards@.len() >= 2 ==> final(self).spec_consumed(
                *old(self),
                *old(shoe),
                *final(shoe),
            ),
            match old(self).spec_first_move(*up, mimic) {
                Err(e) => {
                    &&& done == Err::<(), StrikerError>(e)
                    &&& *final(self) == *old(self)
                    &&& *final(shoe) == *old(shoe)
                },
                Ok(first) => {
                    &&& done.is_ok() ==> final(self).spec_played(*old(self), first, *up)
                    &&& done.is_ok() ==> final(self).spec_counted(*old(self), first)
                    &&& done.is_err() ==> {
                        ||| done == Err::<(), StrikerError>(StrikerError::Overflow)
                        ||| (first == Move::Split || first == Move::Hit) && done == Err::<
                            (),
                            StrikerError,
                        >(StrikerError::Lookup)
                    }
                    &&& first == Move::Mimic ==> {
                        &&& headroom(old(self).seen_cards@, *old(shoe), 22) ==> done.is_ok()
                        &&& drew_at_most(
                            old(self).seen_cards@,
                            final(self).seen_cards@,
                            *old(shoe),
                            *final(shoe),
                            22,
                        )
                    }
                    &&& first == Move::Double && headroom(old(self).seen_cards@, *old(shoe), 1)
                        && old(self).wager.hand.has_room() && old(self).wager.amount_bet * 2
                        <= usize::MAX && old(self).report.total_doubles < usize::MAX
                        ==> done.is_ok()
                    &&& (first == Move::Mimic || first == Move::Hit || first == Move::Double)
                        && done.is_ok() ==> dealt_in_order(
                        *old(shoe),
                        *final(shoe),
                        added(old(self).wager, final(self).wager),
                    )
                    &&& (first == Move::Hit || first == Move::Split) && done.is_err()
                        && old(self).strategy.spec_complete()
                        && old(self).wager.hand.cards@.len() >= 2 ==> done
                        == Err::<(), StrikerError>(StrikerError::Overflow) && out_of_room(
                        final(self).strategy,
                        final(self).seen_cards@,
                        *final(shoe),
                        final(self).report,
                    )
                    &&& (first == Move::Hit || first == Move::Split) && done.is_err()
                        && old(self).strategy.spec_complete()
                        && old(self).wager.hand.cards@.len() >= 2 ==> forall|draws: int| #[trigger]
                        play_room(
                            old(self).strategy,
                            old(self).seen_cards@,
                            *old(shoe),
                            old(self).report,
                            draws,
                        ) ==> draws < counted(old(self).seen_cards@, final(self).seen_cards@) + 2
                    &&& first == Move::Hit && old(self).strategy.spec_complete()
                        && old(self).wager.hand.cards@.len() >= 2
                        && headroom(old(self).seen_cards@, *old(shoe), 22)
                        && old(self).strategy.spec_counts_fit(old(self).seen_cards@, 22)
                        ==> done.is_ok()
                    &&& first == Move::Hit && !old(self).wager.hand.spec_is_busted()
                        ==> match old(self).strategy.spec_stand(
                        old(self).seen_cards@,
                        old(self).wager.hand.total,
                        old(self).wager.hand.spec_is_soft(),
                        *up,
                    ) {
                        Err(e) => done == Err::<(), StrikerError>(e),
                        Ok(stand) => stand
                            ==> done.is_ok() && *final(self) == *old(self)
                            && *final(shoe) == *old(shoe),
                    }
                    &&& first == Move::Hit && old(self).wager.hand.spec_is_busted() ==> done.is_ok()
                        && *final(self) == *old(self) && *final(shoe) == *old(shoe)
                    &&& first == Move::Split && old(self).wager.hand.spec_is_pair_of_aces()
                        && headroom(old(self).seen_cards@, *old(shoe), 2)
                            && old(self).report.total_splits < usize::MAX
                            && old(self).report.total_splits_ace
                        < usize::MAX ==> done.is_ok()
                    &&& first == Move::Natural ==> {
                        &&& *final(shoe) == *old(shoe)
                        &&& done.is_ok() == (old(self).report.total_blackjacks < usize::MAX)
                        &&& done.is_err() ==> *final(self) == *old(self)
                    }
                },
            },
    {
        proof {
            if self.wager.hand.cards@.len() == 2 {
                lemma_live_totals(self.wager.hand.cards@);
                if self.strategy.spec_complete() {
                    self.strategy.lemma_first_move_decides(
                        self.seen_cards@,
                        self.wager.hand.cards@,
                        *up,
                    );
                }
            }
        }
        let done = match self.first_move(up, mimic) {
            Err(e) => Err(e),
            Ok(Move::Natural) => {
                if self.report.total_blackjacks == usize::MAX {
                    return Err(StrikerError::Overflow);
                }
                self.report.total_blackjacks = self.report.total_blackjacks + 1;
                Ok(())
            },
            Ok(Move::Mimic) => Player::play_mimic(&mut self.seen_cards, &mut self.wager, shoe),
            Ok(Move::Double) => self.double_down(shoe),
            Ok(Move::Split) => self.handle_split(shoe, up),
            Ok(Move::Hit) => Player::hit_until_stand_or_bust(
                &self.strategy,
                &mut self.seen_cards,
                &mut self.wager,
                shoe,
                up,
            ),
        };
        proof {
            let draws = counted(old(self).seen_cards@, self.seen_cards@) + 2;
            if !play_room(
                old(self).strategy,
                old(self).seen_cards@,
                *old(shoe),
                old(self).report,
                draws,
            ) {
                lemma_no_play_room_for_more(
                    old(self).strategy,
                    old(self).seen_cards@,
                    *old(shoe),
                    old(self).report,
                    draws,
                );
            }
        }
        done
    }

    /// Doubles the bet and takes exactly one card.
    fn double_down(&mut self, shoe: &mut Shoe) -> (done: Result<(), StrikerError>)
        requires
            old(self).wf(),
            old(shoe).wf(),
        ensures
            final(self).wf(),
            final(shoe).wf(),
            Shoe::drawn_from(*old(shoe), *final(shoe)),
            final(self).rules == old(self).rules,
            final(self).strategy == old(self).strategy,
            grew(old(self).seen_cards@, final(self).seen_cards@),
            final(self).splits == old(self).splits,
            final(self).report.same_heading(&old(self).report),
            final(self).report.same_table_counts(&old(self).report),
            final(self).report.same_settlements(&old(self).report),
            done.is_err() ==> done == Err::<(), StrikerError>(StrikerError::Overflow),
            done.is_ok() ==> cards_seen(final(self).seen_cards@) - cards_seen(old(self).seen_cards@)
                == final(self).spec_cards_held() - old(self).spec_cards_held(),
            done.is_ok() ==> {
                &&& final(self).wager == (Wager {
                    hand: final(self).wager.hand,
                    amount_bet: (old(self).wager.amount_bet * 2) as usize,
                    ..old(self).wager
                })
                &&& old(self).wager.amount_bet * 2 <= usize::MAX
                &&& begins_with(final(self).wager.hand.cards@, old(self).wager.hand.cards@)
                &&& final(self).wager.hand.cards@.len() == old(self).wager.hand.cards@.len() + 1
                &&& old(self).report.total_doubles < usize::MAX
                &&& final(self).report == (Report {
                    total_doubles: (old(self).report.total_doubles + 1) as usize,
                    ..old(self).report
                })
            },
            headroom(old(self).seen_cards@, *old(shoe), 1) && old(self).wager.hand.has_room()
                && old(self).wager.amount_bet * 2 <= usize::MAX
                && old(self).report.total_doubles < usize::MAX ==> done.is_ok(),
            done.is_ok()
                ==> final(self).seen_cards@
                == seen_after(old(self).seen_cards@, added(old(self).wager, final(self).wager))
                && dealt_in_order(*old(shoe), *final(shoe), added(old(self).wager,
                final(self).wager)),
            done.is_err()
                ==> out_of_room(final(self).strategy, final(self).seen_cards@, *final(shoe),
                final(self).report) || old(self).wager.amount_bet * 2 > usize::MAX
                || !old(self).wager.hand.has_room(),
            final(self).spec_consumed(*old(self), *old(shoe), *final(shoe)),
    {
        if self.wager.amount_bet > usize::MAX / 2 || self.report.total_doubles == usize::MAX {
            return Err(StrikerError::Overflow);
        }
        self.wager.double_bet();
        let ghost held = self.wager.hand.cards@;
        match Player::deal(&mut self.seen_cards, &mut self.wager, shoe) {
            Err(e) => {
                return Err(e);
            },
            Ok(card) => {
                proof {
                    let none = Seq::<Card>::empty();
                    reveal_with_fuel(seen_after, 2);
                    assert(held == old(self).wager.hand.cards@);
                    assert(added(old(self).wager, self.wager) =~= none.push(card));
                    assert(none.push(card).drop_last() =~= none);
                    lemma_dealt_in_order_push(*old(shoe), *old(shoe), *shoe, none, card);
                }
            },
        }
        self.report.total_doubles = self.report.total_doubles + 1;
        Ok(())
    }

    /// Splits the pair that was dealt. A pair of aces gets one card on
    /// each ace and is played no further. Any other pair gets a card on
    /// each half, and each half is played in turn, split again where it
    /// is a pair again and the strategy says so.
    ///
    /// Every split is counted once, the first of a round like each that
    /// follows: the report's number of splits grows by the number of
    /// hands that the splits made. A split of aces is counted among the
    /// splits and among the splits of aces.
    #[verifier::rlimit(60)]
    fn handle_split(&mut self, shoe: &mut Shoe, up: &Card) -> (done: Result<(), StrikerError>)
        requires
            old(self).wf(),
            old(shoe).wf(),
            old(self).wager.hand.spec_is_pair(),
        ensures
            final(self).wf(),
            final(shoe).wf(),
            Shoe::drawn_from(*old(shoe), *final(shoe)),
            final(self).rules == old(self).rules,
            final(self).strategy == old(self).strategy,
            grew(old(self).seen_cards@, final(self).seen_cards@),
            begins_with(final(self).splits@, old(self).splits@),
            final(self).report.same_heading(&old(self).report),
            final(self).report.same_table_counts(&old(self).report),
            final(self).report.same_settlements(&old(self).report),
            done.is_err()
                ==> done == Err::<(), StrikerError>(StrikerError::Overflow)
                    || done == Err::<(), StrikerError>(StrikerError::Lookup),
            done.is_ok() ==> final(self).spec_played(*old(self), Move::Split, *up),
            done.is_ok() ==> cards_seen(final(self).seen_cards@) - cards_seen(old(self).seen_cards@)
                == final(self).spec_cards_held() - old(self).spec_cards_held(),
            done.is_err() && old(self).strategy.spec_complete()
                ==> done == Err::<(), StrikerError>(StrikerError::Overflow)
                && out_of_room(final(self).strategy, final(self).seen_cards@, *final(shoe),
                final(self).report),
            old(self).wager.hand.spec_is_pair_of_aces()
                && headroom(old(self).seen_cards@, *old(shoe), 2)
                && old(self).report.total_splits < usize::MAX
                && old(self).report.total_splits_ace < usize::MAX ==> done.is_ok(),
            done.is_err() && old(self).strategy.spec_complete()
                ==> !play_room(old(self).strategy, old(self).seen_cards@, *old(shoe),
                old(self).report, counted(old(self).seen_cards@, final(self).seen_cards@) + 2),
            final(self).spec_consumed(*old(self), *old(shoe), *final(shoe)),
    {
        let aces: bool = self.wager.hand.is_pair_of_aces();
        if self.report.total_splits == usize::MAX || (aces && self.report.total_splits_ace
            == usize::MAX) {
            return Err(StrikerError::Overflow);
        }
        let mut split = Wager::new(MINIMUM_BET, MAXIMUM_BET);
        match self.wager.split_hand(&mut split) {
            Err(_) => {
                return Err(StrikerError::Overflow);
            },
            Ok(()) => {},
        }
        self.report.total_splits = self.report.total_splits + 1;
        if aces {
            self.report.total_splits_ace = self.report.total_splits_ace + 1;
        }
        assert(self.wager.hand.has_room() && split.hand.has_room());
        match Player::deal(&mut self.seen_cards, &mut self.wager, shoe) {
            Err(e) => {
                return Err(e);
            },
            Ok(_) => {},
        }
        proof {
            lemma_live_totals(self.wager.hand.cards@);
        }
        let ghost dealt = self.seen_cards@;
        if !aces {
            match Player::play_split_hand(
                &self.strategy,
                &mut self.seen_cards,
                &mut self.report,
                &mut self.splits,
                &mut self.wager,
                shoe,
                up,
            ) {
                Err(e) => {
                    return Err(e);
                },
                Ok(()) => {},
            }
        }
        let ghost played = self.seen_cards@;
        let ghost between = self.splits@;
        match Player::deal(&mut self.seen_cards, &mut split, shoe) {
            Err(e) => {
                return Err(e);
            },
            Ok(_) => {},
        }
        proof {
            lemma_live_totals(split.hand.cards@);
        }
        let ghost dealt_again = self.seen_cards@;
        if !aces {
            match Player::play_split_hand(
                &self.strategy,
                &mut self.seen_cards,
                &mut self.report,
                &mut self.splits,
                &mut split,
                shoe,
                up,
            ) {
                Err(e) => {
                    return Err(e);
                },
                Ok(()) => {},
            }
        }
        proof {
            lemma_cards_held_push(self.splits@, split);
            if !aces {
                lemma_both_halves_played(
                    self.strategy,
                    *up,
                    old(self).wager.amount_bet,
                    old(self).wager.hand.cards@[0].rank,
                    self.wager.hand,
                    split,
                    old(self).splits@,
                    between,
                    self.splits@,
                    seq![old(self).seen_cards@, dealt, played, dealt_again, self.seen_cards@],
                );
            }
        }
        self.splits.push(split);
        Ok(())
    }

    /// Plays a hand that came out of a split: splits it again where it is
    /// a pair and the strategy says so, and otherwise draws until it is
    /// busted or the strategy says stand. The hands that a further split
    /// makes join the player's.
    ///
    /// With a chart row for every hand that play can reach, and with
    /// room for a number of cards, the hand fails only once it has
    /// counted as many cards but two, and then with an overflow, out of
    /// room. It counts no more than 24 cards to the hand and to each hand
    /// that a split makes.
    pub fn play_split(
        &mut self,
        wager: &mut Wager,
        shoe: &mut Shoe,
        up: &Card,
    ) -> (done: Result<(), StrikerError>)
        requires
            old(self).wf(),
            old(shoe).wf(),
            Player::wager_wf(*old(wager)),
        ensures
            final(self).wf(),
            final(shoe).wf(),
            Shoe::drawn_from(*old(shoe), *final(shoe)),
            Player::wager_wf(*final(wager)),
            final(self).rules == old(self).rules,
            final(self).strategy == old(self).strategy,
            final(self).wager == old(self).wager,
            grew(old(self).seen_cards@, final(self).seen_cards@),
            begins_with(final(self).splits@, old(self).splits@),
            counted_splits(old(self).report, final(self).report),
            done.is_err()
                ==> done == Err::<(), StrikerError>(StrikerError::Overflow)
                    || done == Err::<(), StrikerError>(StrikerError::Lookup),
            done.is_ok() ==> {
                &&& played_from(*old(wager), *final(wager))
                &&& cards_seen(final(self).seen_cards@) - cards_seen(old(self).seen_cards@)
                    == final(wager).hand.cards@.len() - old(wager).hand.cards@.len() + cards_held(
                    final(self).splits@,
                ) - cards_held(old(self).splits@)
                &&& finished(
                    final(self).strategy,
                    final(wager).hand,
                    *up,
                    old(self).seen_cards@,
                    final(self).seen_cards@,
                )
                &&& splits_played(
                    final(self).strategy,
                    final(self).splits@,
                    old(self).splits@.len() as int,
                    old(wager).amount_bet,
                    *up,
                    old(wager).hand.cards@[0].rank,
                    old(self).seen_cards@,
                    final(self).seen_cards@,
                )
                &&& old(wager).hand.cards@.len() >= 2 ==> final(wager).hand.cards@.len() >= 2
                &&& final(self).report.total_splits - old(self).report.total_splits
                    == final(self).splits@.len() - old(self).splits@.len()
            },
            old(wager).hand.spec_is_pair() ==> match old(self).strategy.spec_split(
                old(self).seen_cards@,
                old(wager).hand.cards@[0],
                *up,
            ) {
                Err(e) => done == Err::<(), StrikerError>(e),
                Ok(split) => !split && done.is_ok() ==> extends(*old(wager), *final(wager))
                    && final(self).splits == old(self).splits,
            },
            !old(wager).hand.spec_is_pair() && done.is_ok() ==> extends(*old(wager), *final(wager))
                && final(self).splits == old(self).splits,
            done.is_err() && old(self).strategy.spec_complete()
                && old(wager).hand.cards@.len() >= 2 && !old(wager).hand.spec_is_busted()
                ==> done == Err::<(), StrikerError>(StrikerError::Overflow)
                && out_of_room(final(self).strategy, final(self).seen_cards@, *final(shoe),
                final(self).report),
            not_split(old(self).strategy, old(self).seen_cards@, *old(wager), *up)
                ==> match old(self).strategy.spec_stand(
                old(self).seen_cards@,
                old(wager).hand.total,
                old(wager).hand.spec_is_soft(),
                *up,
            ) {
                Err(e) => done == Err::<(), StrikerError>(e),
                Ok(stand) => {
                    &&& stand || old(wager).hand.spec_is_busted() ==> {
                        &&& done.is_ok()
                        &&& *final(wager) == *old(wager)
                        &&& final(self).seen_cards == old(self).seen_cards
                        &&& *final(shoe) == *old(shoe)
                    }
                    &&& old(self).strategy.spec_complete() && old(wager).hand.cards@.len() >= 2
                        && headroom(old(self).seen_cards@, *old(shoe), 22)
                        && old(self).strategy.spec_counts_fit(old(self).seen_cards@, 22)
                        ==> done.is_ok()
                    &&& done.is_ok() ==> {
                        let drawn = added(*old(wager), *final(wager));
                        &&& hit_by_strategy(
                            final(self).strategy,
                            old(self).seen_cards@,
                            old(wager).hand.cards@.len() as int,
                            final(wager).hand.cards@,
                            *up,
                        )
                        &&& final(self).seen_cards@ == seen_after(old(self).seen_cards@, drawn)
                        &&& dealt_in_order(*old(shoe), *final(shoe), drawn)
                    }
                },
            },
            done.is_err() && old(self).strategy.spec_complete()
                && old(wager).hand.cards@.len() >= 2 && !old(wager).hand.spec_is_busted()
                ==> forall|draws: int| #[trigger]
                play_room(
                    old(self).strategy,
                    old(self).seen_cards@,
                    *old(shoe),
                    old(self).report,
                    draws,
                ) ==> draws < counted(old(self).seen_cards@, final(self).seen_cards@) + 2,
            old(wager).hand.cards@.len() >= 2 ==> 0 <= counted(
                old(self).seen_cards@,
                final(self).seen_cards@,
            ) <= 24 * (final(self).report.total_splits - old(self).report.total_splits + 1) - 2,
    {
        let done = Player::play_split_hand(
            &self.strategy,
            &mut self.seen_cards,
            &mut self.report,
            &mut self.splits,
            wager,
            shoe,
            up,
        );
        proof {
            let draws = counted(old(self).seen_cards@, self.seen_cards@) + 2;
            if !play_room(
                old(self).strategy,
                old(self).seen_cards@,
                *old(shoe),
                old(self).report,
                draws,
            ) {
                lemma_no_play_room_for_more(
                    old(self).strategy,
                    old(self).seen_cards@,
                    *old(shoe),
                    old(self).report,
                    draws,
                );
            }
        }
        done
    }
}

} // verus!
