//! The shoe: the decks that are dealt from, the cut card, and the shuffle.

use crate::cards::card::Card;
use crate::cards::rank::Rank;
use crate::cards::suit::Suit;
use rand::seq::SliceRandom;
use vstd::prelude::*;
use vstd::seq_lib::lemma_multiset_commutative;

verus! {

/// One deck in the order in which it is laid out: suit by suit, and within
/// a suit from the two up to the ace.
pub open spec fn fresh_deck() -> Seq<Card> {
    Seq::new(52, |i: int| Card { rank: Rank::all()[i % 13], suit: Suit::all()[i / 13] })
}

/// `decks` decks laid out one after the other.
pub open spec fn fresh_shoe(decks: nat) -> Seq<Card>
    decreases decks,
{
    if decks == 0 {
        Seq::empty()
    } else {
        fresh_shoe((decks - 1) as nat) + fresh_deck()
    }
}

/// The position of the cut card in a shoe of `size` cards of which the
/// fraction `permille / 1000` is dealt before a reshuffle is due: the
/// product rounded to the nearest whole card, halves upwards, and never
/// more than the machine can count.
pub open spec fn cut_card_for(size: nat, permille: nat) -> nat {
    let rounded = (size * permille + 500) / 1000;
    if rounded > usize::MAX {
        usize::MAX as nat
    } else {
        rounded
    }
}

/// `after` is `before` with its first `count` cards in some other order
/// and the rest where they were.
pub open spec fn reshuffled(before: Seq<Card>, after: Seq<Card>, count: int) -> bool
    recommends
        0 <= count <= before.len(),
{
    &&& after.len() == before.len()
    &&& after.subrange(0, count).to_multiset() == before.subrange(0, count).to_multiset()
    &&& after.subrange(count, before.len() as int) == before.subrange(
        count,
        before.len() as int,
    )
}

pub proof fn lemma_fresh_shoe_len(decks: nat)
    ensures
        fresh_shoe(decks).len() == 52 * decks,
    decreases decks,
{
    if decks > 0 {
        lemma_fresh_shoe_len((decks - 1) as nat);
    }
}

/// A reshuffle neither adds nor removes a card.
pub proof fn lemma_reshuffled_keeps_cards(before: Seq<Card>, after: Seq<Card>, count: int)
    requires
        0 <= count <= before.len(),
        reshuffled(before, after, count),
    ensures
        after.to_multiset() == before.to_multiset(),
{
    let n = before.len() as int;
    assert(before =~= before.subrange(0, count) + before.subrange(count, n));
    assert(after =~= after.subrange(0, count) + after.subrange(count, n));
    lemma_multiset_commutative(before.subrange(0, count), before.subrange(count, n));
    lemma_multiset_commutative(after.subrange(0, count), after.subrange(count, n));
}

/// Puts the first `count` cards into a random order.
///
/// Calls `rand::seq::SliceRandom::shuffle` on the slice of the first
/// `count` cards, with the thread's generator from `rand::rng`. That
/// function only swaps elements of the slice it is given, so the contract
/// claims that the length stays, that the first `count` cards are the same
/// cards in some order, and that the others are untouched. Which order
/// comes out is not stated.
#[verifier::external_body]
fn shuffle_prefix(cards: &mut Vec<Card>, count: usize)
    requires
        count <= old(cards)@.len(),
    ensures
        reshuffled(old(cards)@, final(cards)@, count as int),
{
    let mut rng = rand::rng();
    cards[..count].shuffle(&mut rng);
}

/// One or more decks dealt from the front, with a cursor, a cut card and
/// a record of how often the shoe was shuffled and ran out.
#[derive(Debug, Clone, PartialEq)]
pub struct Shoe {
    pub cards: Vec<Card>,
    /// Set when the shoe ran out in the middle of a round.
    pub force_shuffle: bool,
    pub number_of_cards: usize,
    pub number_of_shuffles: usize,
    pub out_of_cards: usize,
    /// Once the cursor has reached this position, a reshuffle is due.
    pub cut_card: usize,
    /// The position from which dealing starts after a shuffle.
    pub burn_card: usize,
    /// The position of the card that is dealt next.
    pub next_card: usize,
    /// The cursor as it stood when a reshuffle was last asked about: the
    /// cards before it are back from play.
    pub last_discard: usize,
}

impl Shoe {
    /// The shoe holds whole decks, at least one, the cursor is past the
    /// burn card and not past the end, and the discard mark is in range.
    pub open spec fn wf(&self) -> bool {
        &&& self.cards@.len() == self.number_of_cards
        &&& self.number_of_cards >= 52
        &&& self.number_of_cards % 52 == 0
        &&& self.cards@.to_multiset() == fresh_shoe(
            (self.number_of_cards / 52) as nat,
        ).to_multiset()
        &&& self.burn_card == 1
        &&& self.burn_card <= self.next_card <= self.number_of_cards
        &&& self.last_discard <= self.number_of_cards
    }

    /// No card is left at the cursor.
    pub open spec fn spec_exhausted(&self) -> bool {
        self.next_card >= self.number_of_cards
    }

    /// What one draw does to a shoe. While a card is left at the cursor,
    /// that card comes and the cursor moves on. Otherwise the cards before
    /// the discard mark are reshuffled, the event is counted, a reshuffle
    /// is demanded for the next round, and the card behind the burn card
    /// comes.
    pub open spec fn drew(before: Shoe, after: Shoe, card: Option<Card>) -> bool {
        &&& after.number_of_cards == before.number_of_cards
        &&& after.cut_card == before.cut_card
        &&& after.burn_card == before.burn_card
        &&& after.last_discard == before.last_discard
        &&& if !before.spec_exhausted() {
            &&& after == (Shoe { next_card: (before.next_card + 1) as usize, ..before })
            &&& card == Some(before.cards@[before.next_card as int])
        } else {
            &&& reshuffled(before.cards@, after.cards@, before.last_discard as int)
            &&& after.force_shuffle
            &&& after.number_of_shuffles == before.number_of_shuffles + 1
            &&& after.out_of_cards == before.out_of_cards + 1
            &&& after.next_card == before.burn_card + 1
            &&& card == Some(after.cards@[before.burn_card as int])
        }
    }

    /// The shoe `after` is the shoe `before` at a later time: it holds the
    /// same cards, in whatever order, is cut at the same place, and has
    /// counted no less.
    pub open spec fn later(before: Shoe, after: Shoe) -> bool {
        &&& after.number_of_cards == before.number_of_cards
        &&& after.cut_card == before.cut_card
        &&& after.burn_card == before.burn_card
        &&& after.cards@.to_multiset() == before.cards@.to_multiset()
        &&& after.number_of_shuffles >= before.number_of_shuffles
        &&& after.out_of_cards >= before.out_of_cards
    }

    /// The number of shuffles between `before` and `after` that were no
    /// reshuffles of a shoe that ran out.
    pub open spec fn shuffles_between(before: Shoe, after: Shoe) -> int {
        (after.number_of_shuffles - before.number_of_shuffles) - (after.out_of_cards
            - before.out_of_cards)
    }

    /// The shoe `after` is the shoe `before` after some draws: it is the
    /// same shoe at a later time, and was shuffled only when it ran out.
    pub open spec fn drawn_from(before: Shoe, after: Shoe) -> bool {
        Shoe::later(before, after) && Shoe::shuffles_between(before, after) == 0
    }

    /// What a shuffle does to a shoe: the cards before the discard mark
    /// come into a new order, the cursor goes back behind the burn card,
    /// the demand for a reshuffle is met, and the shuffle is counted.
    pub open spec fn shuffled(before: Shoe, after: Shoe) -> bool {
        &&& reshuffled(before.cards@, after.cards@, before.last_discard as int)
        &&& !after.force_shuffle
        &&& after.number_of_cards == before.number_of_cards
        &&& after.number_of_shuffles == before.number_of_shuffles + 1
        &&& after.out_of_cards == before.out_of_cards
        &&& after.cut_card == before.cut_card
        &&& after.burn_card == before.burn_card
        &&& after.next_card == before.burn_card
        &&& after.last_discard == before.last_discard
    }

    /// Builds a shoe of `number_of_decks` decks, shuffles all of it and
    /// sets the cut card for a penetration of `penetration_permille`
    /// thousandths.
    pub fn new(number_of_decks: usize, penetration_permille: usize) -> (shoe: Shoe)
        requires
            1 <= number_of_decks,
            52 * number_of_decks <= usize::MAX,
        ensures
            shoe.wf(),
            shoe.number_of_cards == 52 * number_of_decks,
            shoe.cut_card == cut_card_for(shoe.number_of_cards as nat, penetration_permille as nat),
            shoe.next_card == shoe.burn_card,
            shoe.last_discard == shoe.number_of_cards,
            shoe.number_of_shuffles == 1,
            shoe.out_of_cards == 0,
            !shoe.force_shuffle,
    {
        let suits = Suit::iter();
        let ranks = Rank::iter();
        let mut cards: Vec<Card> = Vec::new();
        let mut deck: usize = 0;
        while deck < number_of_decks
            invariant
                deck <= number_of_decks,
                suits@ == Suit::all(),
                ranks@ == Rank::all(),
                cards@ == fresh_shoe(deck as nat),
            decreases number_of_decks - deck,
        {
            let mut s: usize = 0;
            while s < 4
                invariant
                    s <= 4,
                    suits@ == Suit::all(),
                    ranks@ == Rank::all(),
                    cards@ == fresh_shoe(deck as nat) + fresh_deck().take(13 * s),
                decreases 4 - s,
            {
                let mut r: usize = 0;
                while r < 13
                    invariant
                        s < 4,
                        r <= 13,
                        suits@ == Suit::all(),
                        ranks@ == Rank::all(),
                        cards@ == fresh_shoe(deck as nat) + fresh_deck().take(13 * s + r),
                    decreases 13 - r,
                {
                    cards.push(Card::new(ranks[r], suits[s]));
                    proof {
                        let i = 13 * s + r;
                        assert(fresh_deck()[i] == Card {
                            rank: Rank::all()[r as int],
                            suit: Suit::all()[s as int],
                        });
                        assert(fresh_deck().take(i + 1) =~= fresh_deck().take(i).push(
                            fresh_deck()[i],
                        ));
                        assert(cards@ =~= fresh_shoe(deck as nat) + fresh_deck().take(i + 1));
                    }
                    r = r + 1;
                }
                s = s + 1;
            }
            assert(fresh_deck().take(52) =~= fresh_deck());
            deck = deck + 1;
        }
        proof {
            lemma_fresh_shoe_len(number_of_decks as nat);
        }
        let number_of_cards: usize = cards.len();
        assert((number_of_cards as u128) * (penetration_permille as u128) + 500 <= u128::MAX)
            by (nonlinear_arith)
            requires
                number_of_cards <= 0xffff_ffff_ffff_ffff,
                penetration_permille <= 0xffff_ffff_ffff_ffff,
        ;
        let rounded: u128 = ((number_of_cards as u128) * (penetration_permille as u128) + 500)
            / 1000;
        let cut_card: usize = if rounded > usize::MAX as u128 {
            usize::MAX
        } else {
            rounded as usize
        };
        let mut shoe = Shoe {
            cards,
            force_shuffle: false,
            number_of_cards,
            number_of_shuffles: 0,
            out_of_cards: 0,
            cut_card,
            burn_card: 1,
            next_card: number_of_cards,
            last_discard: number_of_cards,
        };
        shoe.shuffle();
        shoe
    }

    /// Hands out the card at the cursor. A shoe that has run out is
    /// reshuffled first, so a card always comes.
    pub fn draw_card(&mut self) -> (card: Option<Card>)
        requires
            old(self).wf(),
            old(self).number_of_shuffles < usize::MAX,
            old(self).out_of_cards < usize::MAX,
        ensures
            final(self).wf(),
            card.is_some(),
            Shoe::drew(*old(self), *final(self), card),
            Shoe::drawn_from(*old(self), *final(self)),
    {
        if self.next_card >= self.number_of_cards {
            self.force_shuffle = true;
            self.out_of_cards = self.out_of_cards + 1;
            self.shuffle_random();
        }
        let card = Some(self.cards[self.next_card]);
        self.next_card = self.next_card + 1;
        card
    }

    /// Shuffles the cards that are back from play and starts dealing from
    /// behind the burn card again.
    pub fn shuffle(&mut self)
        requires
            old(self).wf(),
            old(self).number_of_shuffles < usize::MAX,
        ensures
            final(self).wf(),
            Shoe::shuffled(*old(self), *final(self)),
            Shoe::later(*old(self), *final(self)),
    {
        self.force_shuffle = false;
        self.shuffle_random();
    }

    fn shuffle_random(&mut self)
        requires
            old(self).wf(),
            old(self).number_of_shuffles < usize::MAX,
        ensures
            final(self).wf(),
            reshuffled(old(self).cards@, final(self).cards@, old(self).last_discard as int),
            final(self).force_shuffle == old(self).force_shuffle,
            final(self).number_of_cards == old(self).number_of_cards,
            final(self).number_of_shuffles == old(self).number_of_shuffles + 1,
            final(self).out_of_cards == old(self).out_of_cards,
            final(self).cut_card == old(self).cut_card,
            final(self).burn_card == old(self).burn_card,
            final(self).next_card == old(self).burn_card,
            final(self).last_discard == old(self).last_discard,
    {
        shuffle_prefix(&mut self.cards, self.last_discard);
        proof {
            lemma_reshuffled_keeps_cards(
                old(self).cards@,
                self.cards@,
                old(self).last_discard as int,
            );
        }
        self.next_card = self.burn_card;
        self.number_of_shuffles = self.number_of_shuffles + 1;
    }

    /// Marks the cards dealt so far as back from play and says whether a
    /// reshuffle is due: the cursor has reached the cut card, or the shoe
    /// ran out since the last shuffle.
    pub fn should_shuffle(&mut self) -> (due: bool)
        requires
            old(self).wf(),
        ensures
            final(self).wf(),
            *final(self) == (Shoe { last_discard: old(self).next_card, ..*old(self) }),
            due == (old(self).next_card >= old(self).cut_card || old(self).force_shuffle),
    {
        self.last_discard = self.next_card;
        (self.next_card >= self.cut_card) || self.force_shuffle
    }
}

/// `states[i + 1]` is what one draw makes of `states[i]`.
pub open spec fn draw_follows(states: Seq<Shoe>, i: int) -> bool {
    exists|card: Option<Card>| #[trigger] Shoe::drew(states[i], states[i + 1], card)
}

/// Each state but the first is what one draw makes of the state before.
pub open spec fn is_run_of_draws(states: Seq<Shoe>) -> bool {
    forall|i: int| 0 <= i < states.len() - 1 ==> #[trigger] draw_follows(states, i)
}

/// In a run of draws from a shoe that was just shuffled, the cursor
/// advances by one per draw and nothing is counted while cards are left.
proof fn lemma_draws_before_exhaustion(states: Seq<Shoe>, k: int)
    requires
        states.len() >= 1,
        states[0].wf(),
        states[0].next_card == states[0].burn_card,
        is_run_of_draws(states),
        0 <= k < states.len(),
        k <= states[0].number_of_cards - 1,
    ensures
        states[k].number_of_cards == states[0].number_of_cards,
        states[k].burn_card == 1,
        states[k].next_card == 1 + k,
        states[k].out_of_cards == states[0].out_of_cards,
        states[k].number_of_shuffles == states[0].number_of_shuffles,
    decreases k,
{
    if k > 0 {
        lemma_draws_before_exhaustion(states, k - 1);
        assert(draw_follows(states, k - 1));
    }
}

/// Drawing one card more than the shoe holds, from a shoe that was just
/// shuffled, runs it out exactly once: `states` are the shoe before the
/// first draw and after each of the draws, and between the first and the
/// last of them one reshuffle and one run-out are counted.
pub proof fn lemma_exhaustion_reshuffles_once(states: Seq<Shoe>)
    requires
        states.len() >= 1,
        states[0].wf(),
        states[0].next_card == states[0].burn_card,
        states.len() == states[0].number_of_cards + 2,
        is_run_of_draws(states),
    ensures
        states.last().out_of_cards == states[0].out_of_cards + 1,
        states.last().number_of_shuffles == states[0].number_of_shuffles + 1,
{
    let n = states[0].number_of_cards as int;
    lemma_draws_before_exhaustion(states, n - 1);
    assert(draw_follows(states, n - 1));
    assert(draw_follows(states, n));
}

} // verus!
