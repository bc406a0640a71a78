//! The payoff: how each hand of the player ends against the dealer's,
//! what it wins, and what that adds to the player's report.

use crate::cards::hand::Hand;
use crate::cards::wager::Wager;
use crate::errors::StrikerError;
use crate::player::player::Player;
use crate::report::report::{Counters, Report};
use crate::strategy::strategy::in_isize;
use vstd::prelude::*;

verus! {

/// How a hand ends against the dealer.
#[derive(Debug, Clone, Copy, PartialEq, Eq, Structural)]
pub enum Outcome {
    /// A natural that is paid at the odds for blackjack.
    Blackjack,
    Win,
    Loss,
    Push,
}

/// How a hand ends against a dealer's hand of `dealer_total`.
///
/// For a hand that can be a natural: against a dealer's blackjack a
/// natural ties and anything else loses, and against anything else a
/// natural is paid as one. For the rest, and for every hand after a split:
/// a busted hand loses; otherwise the hand wins where the dealer is busted
/// or has less, loses where the dealer has more, and ties on equal totals.
pub open spec fn spec_outcome(
    hand: Hand,
    natural: bool,
    dealer_blackjack: bool,
    dealer_busted: bool,
    dealer_total: usize,
) -> Outcome {
    if natural && dealer_blackjack {
        if hand.spec_is_blackjack() {
            Outcome::Push
        } else {
            Outcome::Loss
        }
    } else if natural && hand.spec_is_blackjack() {
        Outcome::Blackjack
    } else if hand.spec_is_busted() {
        Outcome::Loss
    } else if dealer_busted || hand.total > dealer_total {
        Outcome::Win
    } else if dealer_total > hand.total {
        Outcome::Loss
    } else {
        Outcome::Push
    }
}

/// How a hand ends against the dealer. `natural` says whether the hand
/// can count as a natural, which a hand after a split cannot.
pub fn outcome_of(
    hand: &Hand,
    natural: bool,
    dealer_blackjack: bool,
    dealer_busted: bool,
    dealer_total: usize,
) -> (outcome: Outcome)
    ensures
        outcome == spec_outcome(*hand, natural, dealer_blackjack, dealer_busted, dealer_total),
{
    if natural && dealer_blackjack {
        if hand.is_blackjack() {
            Outcome::Push
        } else {
            Outcome::Loss
        }
    } else if natural && hand.is_blackjack() {
        Outcome::Blackjack
    } else if hand.is_busted() {
        Outcome::Loss
    } else if dealer_busted || hand.total > dealer_total {
        Outcome::Win
    } else if dealer_total > hand.total {
        Outcome::Loss
    } else {
        Outcome::Push
    }
}

/// What a wager has won once its hand ended in `outcome`: the bet at the
/// odds for blackjack, the bet, minus the bet, or, on a tie, what stood
/// before.
pub open spec fn spec_amount_won(wager: Wager, outcome: Outcome, pays: usize, bets: usize) -> int {
    match outcome {
        Outcome::Blackjack => wager.amount_bet * pays / (bets as int),
        Outcome::Win => wager.amount_bet as int,
        Outcome::Loss => -(wager.amount_bet as int),
        Outcome::Push => wager.amount_won as int,
    }
}

/// What the insurance of a wager has won once the dealer's hand is known:
/// twice the insurance against a blackjack, and minus the insurance
/// otherwise. A hand after a split carries none, and keeps what stood.
pub open spec fn spec_insurance_won(wager: Wager, natural: bool, dealer_blackjack: bool) -> int {
    if !natural {
        wager.insurance_won as int
    } else if dealer_blackjack {
        wager.insurance_bet * 2
    } else {
        -(wager.insurance_bet as int)
    }
}

/// The wager once its hand is settled against the dealer's. A hand that
/// can be a natural carries the insurance, which pays two to one against a
/// dealer's blackjack and is lost otherwise.
pub open spec fn spec_settled(
    wager: Wager,
    natural: bool,
    pays: usize,
    bets: usize,
    dealer_blackjack: bool,
    dealer_busted: bool,
    dealer_total: usize,
) -> Wager {
    let outcome = spec_outcome(wager.hand, natural, dealer_blackjack, dealer_busted, dealer_total);
    Wager {
        amount_won: spec_amount_won(wager, outcome, pays, bets) as isize,
        insurance_won: spec_insurance_won(wager, natural, dealer_blackjack) as isize,
        ..wager
    }
}

/// What a settled wager adds to a report: a win, a loss or a tie, the bet
/// and what it won, with the insurance where the hand carried one.
pub open spec fn spec_settlement(wager: Wager, outcome: Outcome, insured: bool) -> Counters {
    Counters {
        bet: wager.amount_bet + if insured {
            wager.insurance_bet as int
        } else {
            0
        },
        won: wager.amount_won + if insured {
            wager.insurance_won as int
        } else {
            0
        },
        wins: if outcome == Outcome::Win {
            1
        } else {
            0
        },
        loses: if outcome == Outcome::Loss {
            1
        } else {
            0
        },
        pushes: if outcome == Outcome::Push {
            1
        } else {
            0
        },
        ..Counters::zero()
    }
}

/// What settling the wager adds to a report.
pub open spec fn spec_hand_settlement(
    wager: Wager,
    natural: bool,
    pays: usize,
    bets: usize,
    dealer_blackjack: bool,
    dealer_busted: bool,
    dealer_total: usize,
) -> Counters {
    spec_settlement(
        spec_settled(wager, natural, pays, bets, dealer_blackjack, dealer_busted, dealer_total),
        spec_outcome(wager.hand, natural, dealer_blackjack, dealer_busted, dealer_total),
        natural,
    )
}

/// Whether the wager can be settled into a report that stands at
/// `counters`. A natural cannot be paid at odds to nothing: such rules are
/// refused. A payout or a counter that leaves the machine range is an
/// overflow.
pub open spec fn spec_can_settle(
    counters: Counters,
    wager: Wager,
    natural: bool,
    pays: usize,
    bets: usize,
    dealer_blackjack: bool,
    dealer_busted: bool,
    dealer_total: usize,
) -> Result<(), StrikerError> {
    let outcome = spec_outcome(wager.hand, natural, dealer_blackjack, dealer_busted, dealer_total);
    if outcome == Outcome::Blackjack && bets == 0 {
        Err(StrikerError::Configuration)
    } else if outcome == Outcome::Blackjack && wager.amount_bet * pays > isize::MAX {
        Err(StrikerError::Overflow)
    } else if !in_isize(spec_amount_won(wager, outcome, pays, bets)) || !in_isize(
        spec_insurance_won(wager, natural, dealer_blackjack),
    ) {
        Err(StrikerError::Overflow)
    } else if !counters.plus(
        spec_hand_settlement(
            wager,
            natural,
            pays,
            bets,
            dealer_blackjack,
            dealer_busted,
            dealer_total,
        ),
    ).fits() {
        Err(StrikerError::Overflow)
    } else {
        Ok(())
    }
}

/// What a report that stands at `counters` stands at once the first `n`
/// of the hands that a split made are settled, one after the other, or
/// the error at which settling stops.
pub open spec fn spec_payoff_splits(
    counters: Counters,
    wagers: Seq<Wager>,
    dealer_busted: bool,
    dealer_total: usize,
    n: int,
) -> Result<Counters, StrikerError>
    decreases n,
{
    if n <= 0 {
        Ok(counters)
    } else {
        match spec_payoff_splits(counters, wagers, dealer_busted, dealer_total, n - 1) {
            Err(e) => Err(e),
            Ok(before) => match spec_can_settle(
                before,
                wagers[n - 1],
                false,
                0,
                0,
                false,
                dealer_busted,
                dealer_total,
            ) {
                Err(e) => Err(e),
                Ok(()) => Ok(
                    before.plus(
                        spec_hand_settlement(
                            wagers[n - 1],
                            false,
                            0,
                            0,
                            false,
                            dealer_busted,
                            dealer_total,
                        ),
                    ),
                ),
            },
        }
    }
}

/// A stake of 2 loses 2 or wins 2, or on a natural at odds of no more
/// than 500 to 1 up to 1000, whatever the dealer holds.
pub proof fn lemma_small_stake_wins(
    wager: Wager,
    pays: usize,
    bets: usize,
    dealer_blackjack: bool,
    dealer_busted: bool,
    dealer_total: usize,
)
    requires
        wager.amount_bet == 2,
        wager.amount_won == 0,
        bets > 0,
        2 * pays <= 1000 * bets,
    ensures
        -2 <= spec_amount_won(
            wager,
            spec_outcome(wager.hand, true, dealer_blackjack, dealer_busted, dealer_total),
            pays,
            bets,
        ) <= 1000,
{
    assert(wager.amount_bet * pays == 2 * pays) by (nonlinear_arith)
        requires
            wager.amount_bet == 2,
    ;
    assert(0 <= (2 * pays) / (bets as int) <= 1000) by (nonlinear_arith)
        requires
            bets > 0,
            0 <= 2 * pays <= 1000 * bets,
    ;
}

/// A hand with a stake of 2 and no insurance can be settled, whatever
/// the dealer holds, where a natural is paid at odds of no more than 500
/// to 1 and the report has room for a stake of 2, a loss of 2, a win of
/// 1000, and one win, loss or tie.
pub proof fn lemma_small_stake_settles(
    counters: Counters,
    wager: Wager,
    pays: usize,
    bets: usize,
    dealer_blackjack: bool,
    dealer_busted: bool,
    dealer_total: usize,
)
    requires
        wager.amount_bet == 2,
        wager.insurance_bet == 0,
        wager.amount_won == 0,
        bets > 0,
        2 * pays <= 1000 * bets,
        2 * pays <= isize::MAX,
        counters.fits(),
        counters.bet + 2 <= usize::MAX,
        counters.won + 1000 <= isize::MAX,
        counters.won - 2 >= isize::MIN,
        counters.wins + 1 <= usize::MAX,
        counters.loses + 1 <= usize::MAX,
        counters.pushes + 1 <= usize::MAX,
    ensures
        spec_can_settle(
            counters,
            wager,
            true,
            pays,
            bets,
            dealer_blackjack,
            dealer_busted,
            dealer_total,
        ) == Ok::<(), StrikerError>(()),
{
    lemma_small_stake_wins(wager, pays, bets, dealer_blackjack, dealer_busted, dealer_total);
    assert(wager.amount_bet * pays == 2 * pays) by (nonlinear_arith)
        requires
            wager.amount_bet == 2,
    ;
}

/// The wager is one that play at a table leaves to be settled: a bet of
/// no more than 42, insurance of no more than 21, and nothing won or lost
/// yet.
pub open spec fn stake_bounded(wager: Wager) -> bool {
    &&& wager.amount_bet <= 42
    &&& wager.insurance_bet <= 21
    &&& wager.amount_won == 0
    &&& wager.insurance_won == 0
}

/// The rules pay a natural at odds, and at no more than 1000 to 42.
pub open spec fn odds_bounded(pays: usize, bets: usize) -> bool {
    &&& bets > 0
    &&& 42 * pays <= 1000 * bets
    &&& 42 * pays <= isize::MAX
}

/// A wager with a bounded stake can be settled, whatever the dealer
/// holds, into a report that has room for a stake, a win or a loss of
/// 1000.
pub proof fn lemma_bounded_stake_settles(
    counters: Counters,
    wager: Wager,
    natural: bool,
    pays: usize,
    bets: usize,
    dealer_blackjack: bool,
    dealer_busted: bool,
    dealer_total: usize,
)
    requires
        stake_bounded(wager),
        natural ==> odds_bounded(pays, bets),
        counters.fits(),
        counters.bet + 1000 <= usize::MAX,
        counters.won + 1000 <= isize::MAX,
        counters.won - 1000 >= isize::MIN,
        counters.wins + 1 <= usize::MAX,
        counters.loses + 1 <= usize::MAX,
        counters.pushes + 1 <= usize::MAX,
    ensures
        spec_can_settle(
            counters,
            wager,
            natural,
            pays,
            bets,
            dealer_blackjack,
            dealer_busted,
            dealer_total,
        ) == Ok::<(), StrikerError>(()),
{
    if natural {
        assert(0 <= wager.amount_bet * pays <= 42 * pays) by (nonlinear_arith)
            requires
                0 <= wager.amount_bet <= 42,
                0 <= pays,
        ;
        let product = wager.amount_bet * pays;
        assert(0 <= product / (bets as int) <= 1000) by (nonlinear_arith)
            requires
                bets > 0,
                0 <= product <= 1000 * bets,
        ;
    }
}

/// What settling `hands` hands with bounded stakes adds to a report at
/// most: a stake of 63 and a win or a loss of 1042 for each hand, and a
/// win, a loss or a tie for each; nothing else changes.
pub open spec fn settled_within(before: Report, after: Report, hands: int) -> bool {
    &&& before.total_bet <= after.total_bet <= before.total_bet + 63 * hands
    &&& before.total_won - 1042 * hands <= after.total_won <= before.total_won + 1042 * hands
    &&& before.total_wins <= after.total_wins <= before.total_wins + hands
    &&& before.total_loses <= after.total_loses <= before.total_loses + hands
    &&& before.total_pushes <= after.total_pushes <= before.total_pushes + hands
    &&& after.total_blackjacks == before.total_blackjacks
    &&& after.total_doubles == before.total_doubles
    &&& after.total_splits == before.total_splits
    &&& after.total_splits_ace == before.total_splits_ace
    &&& after.same_table_counts(&before)
}

/// What settling one wager with a bounded stake adds to a report at most.
pub proof fn lemma_bounded_stake_adds(
    wager: Wager,
    natural: bool,
    pays: usize,
    bets: usize,
    dealer_blackjack: bool,
    dealer_busted: bool,
    dealer_total: usize,
)
    requires
        stake_bounded(wager),
        natural ==> odds_bounded(pays, bets),
    ensures
        ({
            let adds = spec_hand_settlement(
                wager,
                natural,
                pays,
                bets,
                dealer_blackjack,
                dealer_busted,
                dealer_total,
            );
            &&& 0 <= adds.bet <= 63
            &&& -1042 <= adds.won <= 1042
            &&& 0 <= adds.wins <= 1
            &&& 0 <= adds.loses <= 1
            &&& 0 <= adds.pushes <= 1
            &&& adds.blackjacks == 0
            &&& adds.doubles == 0
            &&& adds.splits == 0
            &&& adds.splits_ace == 0
            &&& adds.hands == 0
            &&& adds.rounds == 0
            &&& adds.shuffles == 0
            &&& adds.out_of_cards == 0
        }),
{
    if natural {
        assert(0 <= wager.amount_bet * pays <= 42 * pays) by (nonlinear_arith)
            requires
                0 <= wager.amount_bet <= 42,
                0 <= pays,
        ;
        let product = wager.amount_bet * pays;
        assert(0 <= product / (bets as int) <= 1000) by (nonlinear_arith)
            requires
                bets > 0,
                0 <= product <= 1000 * bets,
        ;
    }
}

/// Once settling has stopped at an error, it has for good.
proof fn lemma_payoff_splits_stops(
    counters: Counters,
    wagers: Seq<Wager>,
    dealer_busted: bool,
    dealer_total: usize,
    n: int,
    all: int,
)
    requires
        n <= all,
        spec_payoff_splits(counters, wagers, dealer_busted, dealer_total, n).is_err(),
    ensures
        spec_payoff_splits(counters, wagers, dealer_busted, dealer_total, all)
            == spec_payoff_splits(counters, wagers, dealer_busted, dealer_total, n),
    decreases all - n,
{
    if n < all {
        lemma_payoff_splits_stops(counters, wagers, dealer_busted, dealer_total, n, all - 1);
    }
}

/// The wager's amounts are those of a hand that is settled against the
/// dealer's hand: what the outcome pays on the bet, nothing on a tie,
/// and for a hand that can be a natural what the insurance pays.
pub open spec fn settled(
    wager: Wager,
    natural: bool,
    pays: usize,
    bets: usize,
    dealer: Hand,
) -> bool {
    let outcome = spec_outcome(
        wager.hand,
        natural,
        dealer.spec_is_blackjack(),
        dealer.spec_is_busted(),
        dealer.total,
    );
    &&& wager.amount_won == if outcome == Outcome::Push {
        0
    } else {
        spec_amount_won(wager, outcome, pays, bets)
    }
    &&& natural ==> wager.insurance_won == if dealer.spec_is_blackjack() {
        wager.insurance_bet * 2
    } else {
        -(wager.insurance_bet as int)
    }
}

/// The sum of the bets of the wagers.
pub open spec fn staked(wagers: Seq<Wager>) -> int
    decreases wagers.len(),
{
    if wagers.len() == 0 {
        0
    } else {
        staked(wagers.drop_last()) + wagers.last().amount_bet
    }
}

/// The sum of what the wagers won, losses counted as negative.
pub open spec fn winnings(wagers: Seq<Wager>) -> int
    decreases wagers.len(),
{
    if wagers.len() == 0 {
        0
    } else {
        winnings(wagers.drop_last()) + wagers.last().amount_won
    }
}

/// What one settled hand adds to a report.
pub open spec fn spec_record(
    outcome: Outcome,
    bet: usize,
    won: isize,
    insurance_won: isize,
) -> Counters {
    Counters {
        bet: bet as int,
        won: won + insurance_won,
        wins: if outcome == Outcome::Win {
            1
        } else {
            0
        },
        loses: if outcome == Outcome::Loss {
            1
        } else {
            0
        },
        pushes: if outcome == Outcome::Push {
            1
        } else {
            0
        },
        ..Counters::zero()
    }
}

impl Player {
    /// Every wager of the player is one that play at a table leaves to
    /// be settled.
    pub open spec fn spec_stakes_bounded(&self) -> bool {
        &&& stake_bounded(self.wager)
        &&& forall|i: int| 0 <= i < self.splits@.len() ==> stake_bounded(#[trigger] self.splits@[i])
    }

    /// The sum of the player's bets: the bet on each hand, and the
    /// insurance on a hand that was not split.
    pub open spec fn spec_staked(&self) -> int {
        if self.splits@.len() == 0 {
            self.wager.amount_bet + self.wager.insurance_bet
        } else {
            self.wager.amount_bet + staked(self.splits@)
        }
    }

    /// The sum of what the player's bets won, losses counted as
    /// negative: on each hand, and on the insurance of a hand that was
    /// not split.
    pub open spec fn spec_winnings(&self) -> int {
        if self.splits@.len() == 0 {
            self.wager.amount_won + self.wager.insurance_won
        } else {
            self.wager.amount_won + winnings(self.splits@)
        }
    }

    /// The number of hands of the player that end in a win, a loss or a
    /// tie: all of them, but for a natural that is paid as one.
    pub open spec fn spec_decided(&self, dealer_blackjack: bool) -> int {
        if self.splits@.len() == 0 {
            if self.wager.hand.spec_is_blackjack() && !dealer_blackjack {
                0
            } else {
                1
            }
        } else {
            1 + self.splits@.len() as int
        }
    }

    /// Settles every hand of the player against the dealer's and adds the
    /// outcome to the report. Without a split the hand is settled with
    /// its insurance and can be paid as a natural; after a split every
    /// hand is settled on its total alone.
    pub fn payoff(
        &mut self,
        dealer_blackjack: bool,
        dealer_busted: bool,
        dealer_total: usize,
    ) -> (done: Result<(), StrikerError>)
        requires
            old(self).wf(),
        ensures
            final(self).wf(),
            final(self).rules == old(self).rules,
            final(self).strategy == old(self).strategy,
            final(self).seen_cards == old(self).seen_cards,
            final(self).report.same_heading(&old(self).report),
            final(self).report.same_table_counts(&old(self).report),
            final(self).splits@.len() == old(self).splits@.len(),
            done.is_err()
                ==> done == Err::<(), StrikerError>(StrikerError::Overflow)
                    || done == Err::<(), StrikerError>(StrikerError::Configuration),
            done.is_ok() ==> {
                &&& final(self).report.total_bet == old(self).report.total_bet
                    + final(self).spec_staked()
                &&& final(self).report.total_won == old(self).report.total_won
                    + final(self).spec_winnings()
                &&& final(self).report.total_wins + final(self).report.total_loses
                    + final(self).report.total_pushes == old(self).report.total_wins
                    + old(self).report.total_loses
                    + old(self).report.total_pushes + old(self).spec_decided(dealer_blackjack)
                &&& final(self).report.total_blackjacks == old(self).report.total_blackjacks
                &&& final(self).report.total_doubles == old(self).report.total_doubles
                &&& final(self).report.total_splits == old(self).report.total_splits
                &&& final(self).report.total_splits_ace == old(self).report.total_splits_ace
            },
            old(self).splits@.len() == 0 ==> {
                &&& done == spec_can_settle(
                    old(self).report.counters(),
                    old(self).wager,
                    true,
                    old(self).rules.blackjack_pays,
                    old(self).rules.blackjack_bets,
                    dealer_blackjack,
                    dealer_busted,
                    dealer_total,
                )
                &&& done.is_err() ==> *final(self) == *old(self)
                &&& done.is_ok() ==> final(self).wager == spec_settled(
                    old(self).wager,
                    true,
                    old(self).rules.blackjack_pays,
                    old(self).rules.blackjack_bets,
                    dealer_blackjack,
                    dealer_busted,
                    dealer_total,
                ) && final(self).report.counters() == old(self).report.counters().plus(
                    spec_hand_settlement(
                        old(self).wager,
                        true,
                        old(self).rules.blackjack_pays,
                        old(self).rules.blackjack_bets,
                        dealer_blackjack,
                        dealer_busted,
                        dealer_total,
                    ),
                )
            },
            old(self).splits@.len() > 0 ==> match spec_payoff_splits(
                old(self).report.counters(),
                seq![old(self).wager] + old(self).splits@,
                dealer_busted,
                dealer_total,
                old(self).splits@.len() as int + 1,
            ) {
                Err(e) => done == Err::<(), StrikerError>(e),
                Ok(counters) => {
                    &&& done.is_ok()
                    &&& final(self).report.counters() == counters
                    &&& final(self).wager == spec_settled(
                        old(self).wager,
                        false,
                        0,
                        0,
                        false,
                        dealer_busted,
                        dealer_total,
                    )
                    &&& forall|i: int|
                        0 <= i < old(self).splits@.len() ==> #[trigger] final(self).splits@[i]
                            == spec_settled(
                            old(self).splits@[i],
                            false,
                            0,
                            0,
                            false,
                            dealer_busted,
                            dealer_total,
                        )
                },
            },
            done.is_err() && old(self).spec_stakes_bounded()
                && odds_bounded(old(self).rules.blackjack_pays, old(self).rules.blackjack_bets)
                ==> done == Err::<(), StrikerError>(StrikerError::Overflow)
                && !final(self).report.spec_room(1000),
            old(self).spec_stakes_bounded()
                && odds_bounded(old(self).rules.blackjack_pays, old(self).rules.blackjack_bets)
                ==> settled_within(old(self).report, final(self).report, 1
                    + (old(self).splits@.len() as int)),
            final(self).report.total_splits == old(self).report.total_splits,
    {
        if self.splits.len() == 0 {
            return self.payoff_hand(dealer_blackjack, dealer_busted, dealer_total);
        }
        let ghost all = seq![old(self).wager] + old(self).splits@;
        proof {
            reveal_with_fuel(spec_payoff_splits, 2);
            assert(all[0] == old(self).wager);
        }
        match Player::payoff_split(&mut self.report, &mut self.wager, dealer_busted, dealer_total) {
            Err(e) => {
                proof {
                    lemma_payoff_splits_stops(
                        old(self).report.counters(),
                        all,
                        dealer_busted,
                        dealer_total,
                        1,
                        all.len() as int,
                    );
                }
                return Err(e);
            },
            Ok(()) => {},
        }
        let n: usize = self.splits.len();
        let mut i: usize = 0;
        while i < n
            invariant
                self.report.total_splits == old(self).report.total_splits,
                old(self).spec_stakes_bounded()
                    ==> settled_within(old(self).report, self.report, 1 + i),
                old(self).spec_stakes_bounded() ==> forall|j: int| i <= j < n
                    ==> stake_bounded(#[trigger] self.splits@[j]),
                i <= n,
                n == self.splits@.len(),
                n == old(self).splits@.len(),
                all == seq![old(self).wager] + old(self).splits@,
                self.rules == old(self).rules,
                self.strategy == old(self).strategy,
                self.seen_cards == old(self).seen_cards,
                self.strategy.wf(),
                self.report.same_heading(&old(self).report),
                self.report.same_table_counts(&old(self).report),
                self.wager == spec_settled(
                    old(self).wager,
                    false,
                    0,
                    0,
                    false,
                    dealer_busted,
                    dealer_total,
                ),
                Player::wager_wf(self.wager),
                forall|j: int| 0 <= j < n ==> Player::wager_wf(#[trigger] self.splits@[j]),
                forall|j: int|
                    0 <= j < i ==> #[trigger] self.splits@[j] == spec_settled(
                        old(self).splits@[j],
                        false,
                        0,
                        0,
                        false,
                        dealer_busted,
                        dealer_total,
                    ),
                forall|j: int| i <= j < n ==> #[trigger] self.splits@[j] == old(self).splits@[j],
                spec_payoff_splits(
                    old(self).report.counters(),
                    all,
                    dealer_busted,
                    dealer_total,
                    i + 1,
                ) == Ok::<Counters, StrikerError>(self.report.counters()),
                self.report.total_bet == old(self).report.total_bet + self.wager.amount_bet
                    + staked(
                    self.splits@.take(i as int),
                ),
                self.report.total_won == old(self).report.total_won + self.wager.amount_won
                    + winnings(self.splits@.take(i as int)),
                self.report.total_wins + self.report.total_loses + self.report.total_pushes
                    == old(self).report.total_wins + old(self).report.total_loses
                    + old(self).report.total_pushes
                    + 1 + i,
                self.report.total_blackjacks == old(self).report.total_blackjacks,
                self.report.total_doubles == old(self).report.total_doubles,
                self.report.total_splits == old(self).report.total_splits,
                self.report.total_splits_ace == old(self).report.total_splits_ace,
            decreases n - i,
        {
            assert(all[i + 1] == old(self).splits@[i as int]);
            let ghost earlier = self.splits@;
            match Player::payoff_split(
                &mut self.report,
                &mut self.splits[i],
                dealer_busted,
                dealer_total,
            ) {
                Err(e) => {
                    proof {
                        lemma_payoff_splits_stops(
                            old(self).report.counters(),
                            all,
                            dealer_busted,
                            dealer_total,
                            i + 2,
                            all.len() as int,
                        );
                    }
                    return Err(e);
                },
                Ok(()) => {},
            }
            proof {
                assert(self.splits@.take(i as int) =~= earlier.take(i as int));
                assert(self.splits@.take(i + 1).drop_last() =~= self.splits@.take(i as int));
                assert(self.splits@.take(i + 1).last() == self.splits@[i as int]);
            }
            i = i + 1;
        }
        assert(self.splits@.take(n as int) =~= self.splits@);
        Ok(())
    }

    /// Settles the hand that was dealt, with its insurance, and adds the
    /// outcome to the report.
    pub fn payoff_hand(
        &mut self,
        dealer_blackjack: bool,
        dealer_busted: bool,
        dealer_total: usize,
    ) -> (done: Result<(), StrikerError>)
        requires
            old(self).wf(),
        ensures
            final(self).wf(),
            done == spec_can_settle(
                old(self).report.counters(),
                old(self).wager,
                true,
                old(self).rules.blackjack_pays,
                old(self).rules.blackjack_bets,
                dealer_blackjack,
                dealer_busted,
                dealer_total,
            ),
            done.is_err() ==> *final(self) == *old(self),
            final(self).rules == old(self).rules,
            final(self).strategy == old(self).strategy,
            final(self).seen_cards == old(self).seen_cards,
            final(self).splits == old(self).splits,
            final(self).report.same_heading(&old(self).report),
            final(self).report.same_table_counts(&old(self).report),
            done.is_ok() ==> final(self).wager == spec_settled(
                old(self).wager,
                true,
                old(self).rules.blackjack_pays,
                old(self).rules.blackjack_bets,
                dealer_blackjack,
                dealer_busted,
                dealer_total,
            ) && final(self).report.counters() == old(self).report.counters().plus(
                spec_hand_settlement(
                    old(self).wager,
                    true,
                    old(self).rules.blackjack_pays,
                    old(self).rules.blackjack_bets,
                    dealer_blackjack,
                    dealer_busted,
                    dealer_total,
                ),
            ),
            done.is_err() && old(self).spec_stakes_bounded()
                && odds_bounded(old(self).rules.blackjack_pays, old(self).rules.blackjack_bets)
                ==> done == Err::<(), StrikerError>(StrikerError::Overflow)
                && !final(self).report.spec_room(1000),
            old(self).spec_stakes_bounded()
                && odds_bounded(old(self).rules.blackjack_pays, old(self).rules.blackjack_bets)
                ==> settled_within(old(self).report, final(self).report, 1),
            final(self).report.total_splits == old(self).report.total_splits,
    {
        proof {
            if self.spec_stakes_bounded() && odds_bounded(
                self.rules.blackjack_pays,
                self.rules.blackjack_bets,
            ) {
                lemma_bounded_stake_adds(
                    self.wager,
                    true,
                    self.rules.blackjack_pays,
                    self.rules.blackjack_bets,
                    dealer_blackjack,
                    dealer_busted,
                    dealer_total,
                );
            }
            if self.spec_stakes_bounded() && odds_bounded(
                self.rules.blackjack_pays,
                self.rules.blackjack_bets,
            ) && self.report.spec_room(1000) {
                lemma_bounded_stake_settles(
                    self.report.counters(),
                    self.wager,
                    true,
                    self.rules.blackjack_pays,
                    self.rules.blackjack_bets,
                    dealer_blackjack,
                    dealer_busted,
                    dealer_total,
                );
            }
        }
        Player::settle(
            &mut self.report,
            &mut self.wager,
            true,
            self.rules.blackjack_pays,
            self.rules.blackjack_bets,
            dealer_blackjack,
            dealer_busted,
            dealer_total,
        )
    }

    fn payoff_split(
        report: &mut Report,
        wager: &mut Wager,
        dealer_busted: bool,
        dealer_total: usize,
    ) -> (done: Result<(), StrikerError>)
        requires
            Player::wager_wf(*old(wager)),
        ensures
            Player::wager_wf(*final(wager)),
            done == spec_can_settle(
                old(report).counters(),
                *old(wager),
                false,
                0,
                0,
                false,
                dealer_busted,
                dealer_total,
            ),
            done.is_err() ==> *final(report) == *old(report) && *final(wager) == *old(wager),
            final(report).same_heading(old(report)),
            final(report).same_table_counts(old(report)),
            done.is_ok() ==> *final(wager) == spec_settled(
                *old(wager),
                false,
                0,
                0,
                false,
                dealer_busted,
                dealer_total,
            ) && final(report).counters() == old(report).counters().plus(
                spec_hand_settlement(*old(wager), false, 0, 0, false, dealer_busted, dealer_total),
            ),
            done.is_err() && stake_bounded(*old(wager))
                ==> done == Err::<(), StrikerError>(StrikerError::Overflow)
                && !final(report).spec_room(1000),
            stake_bounded(*old(wager)) ==> settled_within(*old(report), *final(report), 1),
            final(report).total_splits == old(report).total_splits,
    {
        proof {
            if stake_bounded(*wager) {
                lemma_bounded_stake_adds(*wager, false, 0, 0, false, dealer_busted, dealer_total);
            }
            if stake_bounded(*wager) && report.spec_room(1000) {
                lemma_bounded_stake_settles(
                    report.counters(),
                    *wager,
                    false,
                    0,
                    0,
                    false,
                    dealer_busted,
                    dealer_total,
                );
            }
        }
        Player::settle(report, wager, false, 0, 0, false, dealer_busted, dealer_total)
    }

    fn settle(
        report: &mut Report,
        wager: &mut Wager,
        natural: bool,
        pays: usize,
        bets: usize,
        dealer_blackjack: bool,
        dealer_busted: bool,
        dealer_total: usize,
    ) -> (done: Result<(), StrikerError>)
        requires
            Player::wager_wf(*old(wager)),
        ensures
            Player::wager_wf(*final(wager)),
            done == spec_can_settle(
                old(report).counters(),
                *old(wager),
                natural,
                pays,
                bets,
                dealer_blackjack,
                dealer_busted,
                dealer_total,
            ),
            done.is_err() ==> *final(report) == *old(report) && *final(wager) == *old(wager),
            final(report).same_heading(old(report)),
            final(report).same_table_counts(old(report)),
            done.is_ok() ==> *final(wager) == spec_settled(
                *old(wager),
                natural,
                pays,
                bets,
                dealer_blackjack,
                dealer_busted,
                dealer_total,
            ) && final(report).counters() == old(report).counters().plus(
                spec_hand_settlement(
                    *old(wager),
                    natural,
                    pays,
                    bets,
                    dealer_blackjack,
                    dealer_busted,
                    dealer_total,
                ),
            ),
    {
        let outcome = outcome_of(&wager.hand, natural, dealer_blackjack, dealer_busted,
            dealer_total);
        let amount_won: isize = match Player::amount_won(wager, outcome, pays, bets) {
            Ok(amount) => amount,
            Err(e) => {
                return Err(e);
            },
        };
        let insurance_won: isize = if !natural {
            0
        } else if dealer_blackjack {
            if wager.insurance_bet > (isize::MAX as usize) / 2 {
                return Err(StrikerError::Overflow);
            }
            (wager.insurance_bet * 2) as isize
        } else {
            match Player::negated(wager.insurance_bet) {
                Ok(lost) => lost,
                Err(e) => {
                    return Err(e);
                },
            }
        };
        let bet: usize = if natural {
            if wager.insurance_bet > usize::MAX - wager.amount_bet {
                return Err(StrikerError::Overflow);
            }
            wager.amount_bet + wager.insurance_bet
        } else {
            wager.amount_bet
        };
        match Player::record(report, outcome, bet, amount_won, insurance_won) {
            Err(e) => {
                return Err(e);
            },
            Ok(()) => {},
        }
        if natural {
            wager.insurance_won = insurance_won;
        }
        wager.amount_won = amount_won;
        Ok(())
    }

    /// What the wager wins once its hand ended in `outcome`.
    fn amount_won(
        wager: &Wager,
        outcome: Outcome,
        pays: usize,
        bets: usize,
    ) -> (amount: Result<isize, StrikerError>)
        ensures
            outcome == Outcome::Blackjack && bets == 0
                ==> amount == Err::<isize, StrikerError>(StrikerError::Configuration),
            !(outcome == Outcome::Blackjack && bets == 0) && !in_isize(
                spec_amount_won(*wager, outcome, pays, bets),
            ) ==> amount == Err::<isize, StrikerError>(StrikerError::Overflow),
            outcome == Outcome::Blackjack && bets != 0 && wager.amount_bet * pays > isize::MAX
                ==> amount == Err::<isize, StrikerError>(StrikerError::Overflow),
            !(outcome == Outcome::Blackjack && (bets == 0 || wager.amount_bet * pays > isize::MAX))
                && in_isize(spec_amount_won(*wager, outcome, pays, bets)) ==> amount == Ok::<
                isize,
                StrikerError,
            >(spec_amount_won(*wager, outcome, pays, bets) as isize),
    {
        match outcome {
            Outcome::Blackjack => {
                if bets == 0 {
                    return Err(StrikerError::Configuration);
                }
                assert((wager.amount_bet as u128) * (pays as u128)
                    <= u128::MAX) by (nonlinear_arith)
                    requires
                        wager.amount_bet <= 0xffff_ffff_ffff_ffff,
                        pays <= 0xffff_ffff_ffff_ffff,
                ;
                let product: u128 = (wager.amount_bet as u128) * (pays as u128);
                assert(0 <= product as int / (bets as int) <= product) by (nonlinear_arith)
                    requires
                        bets > 0,
                        product >= 0,
                ;
                if product > isize::MAX as u128 {
                    return Err(StrikerError::Overflow);
                }
                Ok((product / (bets as u128)) as isize)
            },
            Outcome::Win => {
                if wager.amount_bet > isize::MAX as usize {
                    return Err(StrikerError::Overflow);
                }
                Ok(wager.amount_bet as isize)
            },
            Outcome::Loss => Player::negated(wager.amount_bet),
            Outcome::Push => Ok(wager.amount_won),
        }
    }

    /// The amount as a loss.
    fn negated(amount: usize) -> (lost: Result<isize, StrikerError>)
        ensures
            in_isize(-(amount as int))
                ==> lost == Ok::<isize, StrikerError>((-(amount as int)) as isize),
            !in_isize(-(amount as int))
                ==> lost == Err::<isize, StrikerError>(StrikerError::Overflow),
    {
        if amount <= isize::MAX as usize {
            Ok(-(amount as isize))
        } else if amount - 1 == isize::MAX as usize {
            Ok(isize::MIN)
        } else {
            Err(StrikerError::Overflow)
        }
    }

    /// Adds one settled hand to the report: its outcome, its bet and what
    /// it won on the hand and on the insurance.
    fn record(
        report: &mut Report,
        outcome: Outcome,
        bet: usize,
        won: isize,
        insurance_won: isize,
    ) -> (done: Result<(), StrikerError>)
        ensures
            done.is_ok() == old(report).counters().plus(
                spec_record(outcome, bet, won, insurance_won),
            ).fits(),
            done.is_err()
                ==> done == Err::<(), StrikerError>(StrikerError::Overflow) && *final(report)
                == *old(report),
            final(report).same_heading(old(report)),
            final(report).same_table_counts(old(report)),
            done.is_ok() ==> final(report).counters() == old(report).counters().plus(
                spec_record(outcome, bet, won, insurance_won),
            ),
    {
        let total: i128 = report.total_won as i128 + won as i128 + insurance_won as i128;
        if bet > usize::MAX - report.total_bet || total > isize::MAX as i128 || total
            < isize::MIN as i128 {
            return Err(StrikerError::Overflow);
        }
        match outcome {
            Outcome::Win => {
                if report.total_wins == usize::MAX {
                    return Err(StrikerError::Overflow);
                }
                report.total_wins = report.total_wins + 1;
            },
            Outcome::Loss => {
                if report.total_loses == usize::MAX {
                    return Err(StrikerError::Overflow);
                }
                report.total_loses = report.total_loses + 1;
            },
            Outcome::Push => {
                if report.total_pushes == usize::MAX {
                    return Err(StrikerError::Overflow);
                }
                report.total_pushes = report.total_pushes + 1;
            },
            Outcome::Blackjack => {},
        }
        report.total_bet = report.total_bet + bet;
        report.total_won = total as isize;
        Ok(())
    }
}

} // verus!
