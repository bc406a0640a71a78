//! A hand of cards and what it counts.

use crate::cards::card::Card;
use crate::cards::rank::Rank;
use crate::errors::StrikerError;
use vstd::prelude::*;

verus! {

/// The sum of the cards' points with every ace counted as eleven.
pub open spec fn raw_total(cards: Seq<Card>) -> nat
    decreases cards.len(),
{
    if cards.len() == 0 {
        0
    } else {
        raw_total(cards.drop_last()) + cards.last().rank.spec_value()
    }
}

/// The number of aces among the cards.
pub open spec fn ace_count(cards: Seq<Card>) -> nat
    decreases cards.len(),
{
    if cards.len() == 0 {
        0
    } else {
        ace_count(cards.drop_last()) + if cards.last().rank == Rank::Ace {
            1nat
        } else {
            0nat
        }
    }
}

/// How many aces have to count as one instead of eleven: as few as bring
/// the sum to 21 or below, and all of them where that is not enough.
pub open spec fn demotions(raw: nat, aces: nat) -> nat {
    if raw <= 21 {
        0
    } else {
        let needed = ((raw - 21 + 9) / 10) as nat;
        if needed < aces {
            needed
        } else {
            aces
        }
    }
}

/// The value of a hand that holds these cards.
pub open spec fn hand_total(cards: Seq<Card>) -> nat {
    (raw_total(cards) - 10 * demotions(raw_total(cards), ace_count(cards))) as nat
}

/// The number of aces that still count as eleven in `hand_total`.
pub open spec fn soft_aces(cards: Seq<Card>) -> nat {
    (ace_count(cards) - demotions(raw_total(cards), ace_count(cards))) as nat
}

/// Whether the house rule says stand on these cards: on 17 or more, but
/// not on a soft 17 where the house draws on it.
pub open spec fn stands_on(cards: Seq<Card>, hit_soft_17: bool) -> bool {
    if hit_soft_17 && hand_total(cards) == 17 && soft_aces(cards) > 0 {
        false
    } else {
        hand_total(cards) >= 17
    }
}

/// Each card of `after` behind the first `had` was drawn while the house
/// rule said draw.
pub open spec fn drawn_by_rule(had: int, after: Seq<Card>, hit_soft_17: bool) -> bool {
    forall|k: int| had <= k < after.len() ==> !stands_on(#[trigger] after.take(k), hit_soft_17)
}

/// Each card of `after` behind the first `had` was drawn on a hand that
/// was not busted.
pub open spec fn drawn_unbusted(had: int, after: Seq<Card>) -> bool {
    forall|k: int| had <= k < after.len() ==> hand_total(#[trigger] after.take(k)) <= 21
}

/// What holds of the cards drawn so far still holds once a card is drawn
/// on cards on which the house rule says draw.
pub proof fn lemma_drawn_by_rule_push(had: int, cards: Seq<Card>, card: Card, hit_soft_17: bool)
    requires
        0 <= had,
        drawn_by_rule(had, cards, hit_soft_17),
        !stands_on(cards, hit_soft_17),
    ensures
        drawn_by_rule(had, cards.push(card), hit_soft_17),
{
    let after = cards.push(card);
    assert forall|k: int| had <= k < after.len() implies !stands_on(
        #[trigger] after.take(k),
        hit_soft_17,
    ) by {
        if k < cards.len() {
            assert(after.take(k) =~= cards.take(k));
        } else {
            assert(after.take(k) =~= cards);
        }
    }
}

/// What holds of the cards drawn so far still holds once a card is drawn
/// on cards that are not busted.
pub proof fn lemma_drawn_unbusted_push(had: int, cards: Seq<Card>, card: Card)
    requires
        0 <= had,
        drawn_unbusted(had, cards),
        hand_total(cards) <= 21,
    ensures
        drawn_unbusted(had, cards.push(card)),
{
    let after = cards.push(card);
    assert forall|k: int| had <= k < after.len() implies hand_total(#[trigger] after.take(k))
        <= 21 by {
        if k < cards.len() {
            assert(after.take(k) =~= cards.take(k));
        } else {
            assert(after.take(k) =~= cards);
        }
    }
}

/// Adding a card adds its points and, for an ace, one ace.
pub proof fn lemma_totals_push(cards: Seq<Card>, card: Card)
    ensures
        raw_total(cards.push(card)) == raw_total(cards) + card.rank.spec_value(),
        ace_count(cards.push(card)) == ace_count(cards) + if card.rank == Rank::Ace {
            1nat
        } else {
            0nat
        },
{
    assert(cards.push(card).drop_last() =~= cards);
}

/// Every card counts for at least two points raw, an ace for eleven, and
/// there are no more aces than cards.
pub proof fn lemma_raw_total_bounds(cards: Seq<Card>)
    ensures
        ace_count(cards) <= cards.len(),
        2 * cards.len() + 9 * ace_count(cards) <= raw_total(cards) <= 11 * cards.len(),
        raw_total(cards) <= 10 * cards.len() + ace_count(cards),
    decreases cards.len(),
{
    if cards.len() > 0 {
        lemma_raw_total_bounds(cards.drop_last());
    }
}

/// A hand is worth at least one point per card, so a hand that is not
/// busted holds at most 21 cards.
pub proof fn lemma_hand_total_at_least_len(cards: Seq<Card>)
    ensures
        hand_total(cards) >= cards.len(),
        soft_aces(cards) <= cards.len(),
        hand_total(cards) <= raw_total(cards),
{
    lemma_raw_total_bounds(cards);
}

/// A hand of two cards or more counts at least 4, and at least 12 while
/// an ace in it counts eleven; and a hand of two cards is never busted.
pub proof fn lemma_live_totals(cards: Seq<Card>)
    requires
        cards.len() >= 2,
    ensures
        hand_total(cards) >= 4,
        soft_aces(cards) > 0 ==> hand_total(cards) >= 12,
        cards.len() == 2 ==> hand_total(cards) <= 21,
{
    lemma_raw_total_bounds(cards);
}

/// A hand of three cards is no blackjack, whatever it counts.
pub proof fn lemma_three_cards_are_no_blackjack(hand: Hand)
    requires
        hand.cards@.len() == 3,
    ensures
        !hand.spec_is_blackjack(),
{
}

/// A single ace, as each hand holds one after a pair of aces is split,
/// counts eleven.
pub proof fn lemma_single_ace_counts_eleven(ace: Card)
    requires
        ace.rank == Rank::Ace,
    ensures
        hand_total(seq![ace]) == 11,
        soft_aces(seq![ace]) == 1,
{
    reveal_with_fuel(raw_total, 2);
    reveal_with_fuel(ace_count, 2);
    assert(seq![ace].drop_last() =~= Seq::<Card>::empty());
}

/// An ace and a six count a soft 17, and with a ten a hard 17.
pub proof fn lemma_soft_17_turns_hard(ace: Card, six: Card, ten: Card)
    requires
        ace.rank == Rank::Ace,
        six.rank == Rank::Six,
        ten.rank.spec_value() == 10,
    ensures
        hand_total(seq![ace, six]) == 17,
        soft_aces(seq![ace, six]) == 1,
        hand_total(seq![ace, six, ten]) == 17,
        soft_aces(seq![ace, six, ten]) == 0,
{
    lemma_single_ace_counts_eleven(ace);
    lemma_totals_push(seq![ace], six);
    assert(seq![ace].push(six) =~= seq![ace, six]);
    lemma_totals_push(seq![ace, six], ten);
    assert(seq![ace, six].push(ten) =~= seq![ace, six, ten]);
}

/// The cards one seat holds, with their value.
///
/// `total` and the soft-ace count are derived from `cards`; a hand is
/// well formed when they agree with the cards.
#[derive(Debug, Clone)]
pub struct Hand {
    pub cards: Vec<Card>,
    pub total: usize,
    /// The number of aces that count as eleven in `total`.
    pub soft_ace: usize,
}

impl Hand {
    /// `total` and the soft-ace count are those of the cards held, and the
    /// raw sum of the cards fits the machine.
    pub open spec fn wf(&self) -> bool {
        &&& 11 * self.cards@.len() <= usize::MAX
        &&& self.total == hand_total(self.cards@)
        &&& self.soft_ace == soft_aces(self.cards@)
    }

    /// One more card can be taken without the raw sum leaving the machine
    /// range.
    pub open spec fn has_room(&self) -> bool {
        11 * (self.cards@.len() + 1) <= usize::MAX
    }

    pub open spec fn spec_is_blackjack(&self) -> bool {
        self.cards@.len() == 2 && self.total == 21
    }

    pub open spec fn spec_is_pair(&self) -> bool {
        self.cards@.len() == 2 && self.cards@[0].rank == self.cards@[1].rank
    }

    pub open spec fn spec_is_pair_of_aces(&self) -> bool {
        self.spec_is_pair() && self.cards@[0].rank == Rank::Ace
    }

    pub open spec fn spec_is_busted(&self) -> bool {
        self.total > 21
    }

    pub open spec fn spec_is_soft(&self) -> bool {
        self.soft_ace > 0
    }

    pub open spec fn spec_is_soft_17(&self) -> bool {
        self.total == 17 && self.spec_is_soft()
    }

    pub fn new() -> (hand: Hand)
        ensures
            hand.wf(),
            hand.cards@ == Seq::<Card>::empty(),
            hand.total == 0,
    {
        Hand { cards: Vec::new(), total: 0, soft_ace: 0 }
    }

    pub fn reset(&mut self)
        ensures
            final(self).wf(),
            final(self).cards@ == Seq::<Card>::empty(),
            final(self).total == 0,
    {
        self.cards.clear();
        self.total = 0;
        self.soft_ace = 0;
    }

    /// Takes the card and brings the total up to date.
    pub fn draw_card(&mut self, maybe_card: Option<Card>)
        requires
            maybe_card.is_some(),
            old(self).has_room(),
        ensures
            final(self).wf(),
            final(self).cards@ == old(self).cards@.push(maybe_card.unwrap()),
    {
        let card = maybe_card.unwrap();
        self.cards.push(card);
        self.calculate_total();
    }

    #[verifier::when_used_as_spec(spec_is_blackjack)]
    pub fn is_blackjack(&self) -> (r: bool)
        ensures
            r == self.spec_is_blackjack(),
    {
        self.cards.len() == 2 && self.total == 21
    }

    #[verifier::when_used_as_spec(spec_is_pair)]
    pub fn is_pair(&self) -> (r: bool)
        ensures
            r == self.spec_is_pair(),
    {
        self.cards.len() == 2 && self.cards[0].same_rank(&self.cards[1])
    }

    #[verifier::when_used_as_spec(spec_is_pair_of_aces)]
    pub fn is_pair_of_aces(&self) -> (r: bool)
        ensures
            r == self.spec_is_pair_of_aces(),
    {
        self.is_pair() && self.cards[0].is_ace()
    }

    #[verifier::when_used_as_spec(spec_is_busted)]
    pub fn is_busted(&self) -> (r: bool)
        ensures
            r == self.spec_is_busted(),
    {
        self.total > 21
    }

    #[verifier::when_used_as_spec(spec_is_soft)]
    pub fn is_soft(&self) -> (r: bool)
        ensures
            r == self.spec_is_soft(),
    {
        self.soft_ace > 0
    }

    #[verifier::when_used_as_spec(spec_is_soft_17)]
    pub fn is_soft_17(&self) -> (r: bool)
        ensures
            r == self.spec_is_soft_17(),
    {
        self.total == 17 && self.is_soft()
    }

    /// The first card, which for a pair stands for both.
    pub fn get_card_pair(&self) -> (first: Option<&Card>)
        ensures
            self.cards@.len() == 0 ==> first.is_none(),
            self.cards@.len() > 0 ==> first == Some(&self.cards@[0]),
    {
        if self.cards.len() > 0 {
            Some(&self.cards[0])
        } else {
            None
        }
    }

    /// Takes the second card of a pair out of the hand and hands it back.
    /// A hand that is not a pair is left as it is.
    pub fn split_pair(&mut self) -> (taken: Result<Card, StrikerError>)
        requires
            old(self).wf(),
        ensures
            final(self).wf(),
            old(self).spec_is_pair() ==> taken == Ok::<Card, StrikerError>(old(self).cards@[1])
                && final(self).cards@ == seq![old(self).cards@[0]],
            !old(self).spec_is_pair()
                ==> taken == Err::<Card, StrikerError>(StrikerError::InvalidOperation)
                && *final(self) == *old(self),
    {
        if !self.is_pair() {
            return Err(StrikerError::InvalidOperation);
        }
        let card = self.cards.pop().unwrap();
        self.calculate_total();
        assert(self.cards@ =~= seq![old(self).cards@[0]]);
        Ok(card)
    }

    fn calculate_total(&mut self)
        requires
            11 * old(self).cards@.len() <= usize::MAX,
        ensures
            final(self).wf(),
            final(self).cards@ == old(self).cards@,
    {
        let mut total: usize = 0;
        let mut soft: usize = 0;
        let mut i: usize = 0;
        let n: usize = self.cards.len();
        while i < n
            invariant
                n == self.cards@.len(),
                11 * n <= usize::MAX,
                i <= n,
                total == raw_total(self.cards@.take(i as int)),
                soft == ace_count(self.cards@.take(i as int)),
                total <= 11 * i,
                soft <= i,
            decreases n - i,
        {
            let val: usize = self.cards[i].rank.value();
            proof {
                let prefix = self.cards@.take(i as int);
                lemma_totals_push(prefix, self.cards@[i as int]);
                assert(self.cards@.take(i + 1) =~= prefix.push(self.cards@[i as int]));
            }
            total = total + val;
            if val == 11 {
                soft = soft + 1;
            }
            i = i + 1;
        }
        assert(self.cards@.take(n as int) =~= self.cards@);
        let ghost raw = total as nat;
        let ghost aces = soft as nat;
        let ghost mut k: nat = 0;
        while total > 21 && soft > 0
            invariant
                total == raw - 10 * k,
                soft == aces - k,
                k <= demotions(raw, aces),
                (total > 21 && soft > 0) || k == demotions(raw, aces),
            decreases soft,
        {
            total = total - 10;
            soft = soft - 1;
            proof {
                k = k + 1;
            }
        }
        self.total = total;
        self.soft_ace = soft;
    }
}

impl Default for Hand {
    fn default() -> (hand: Hand)
        ensures
            hand.wf(),
            hand.cards@ == Seq::<Card>::empty(),
            hand.total == 0,
    {
        Hand::new()
    }
}

} // verus!
