//! One worker of a run.

use crate::arguments::parameters::Parameters;
use crate::constants::constants::STRATEGY_MIMIC;
use crate::errors::StrikerError;
use crate::report::report::{Counters, Report};
use crate::simulator::table::Table;
use crate::strategy::rules::Rules;
use crate::strategy::strategy::Strategy;
use vstd::prelude::*;
use vstd::string::StringExecFns;

verus! {

/// One worker of a run: a table of its own and the report that it hands
/// back.
#[derive(Debug, Clone)]
pub struct Simulator {
    pub table: Table,
    pub report: Report,
}

impl Simulator {
    pub open spec fn wf(&self) -> bool {
        self.table.wf()
    }

    /// Whether the worker mimics the dealer: its strategy is named so.
    pub open spec fn spec_mimic(&self) -> bool {
        self.table.parameters.strategy@ == STRATEGY_MIMIC@
    }

    /// The worker has not played yet: its reports are empty, the player
    /// has seen no card, and the shoe was shuffled just once.
    pub open spec fn spec_fresh(&self) -> bool {
        &&& self.report.counters() == Counters::zero()
        &&& self.table.report.counters() == Counters::zero()
        &&& self.table.player.report.counters() == Counters::zero()
        &&& self.table.player.seen_cards@ == Seq::new(13, |i: int| 0usize)
        &&& self.table.shoe.number_of_shuffles == 1
        &&& self.table.shoe.out_of_cards == 0
    }

    pub fn new(parameters: Parameters, rules: Rules, strategy: Strategy) -> (simulator: Simulator)
        requires
            strategy.wf(),
            1 <= parameters.number_of_decks,
            52 * parameters.number_of_decks <= usize::MAX,
        ensures
            simulator.wf(),
            simulator.table.parameters == parameters,
            simulator.table.player.rules == rules,
            simulator.table.player.strategy == strategy,
            simulator.table.report.counters() == Counters::zero(),
            simulator.report.counters() == Counters::zero(),
            simulator.spec_fresh(),
    {
        Simulator { table: Table::new(parameters, rules, strategy), report: Report::new() }
    }

    /// What a run has made of the worker `before`: the table has played
    /// its session to the end, and the worker's report has grown by what
    /// the table's report counts.
    pub open spec fn spec_ran(&self, before: Simulator) -> bool {
        &&& self.wf()
        &&& self.table.parameters == before.table.parameters
        &&& self.table.player.rules == before.table.player.rules
        &&& self.table.player.strategy == before.table.player.strategy
        &&& self.table.player.report.same_table_counts(&before.table.player.report)
        &&& self.table.spec_session_done(before.table)
        &&& self.report.same_heading(&before.report)
        &&& self.report.counters() == before.report.counters().plus(self.table.report.counters())
    }

    /// Runs the worker's session and adds what the table counted to the
    /// worker's report. The worker comes back as it then stands, with
    /// the outcome of the run.
    ///
    /// A worker that mimics the dealer and has room for its share runs to
    /// the end. Any other run fails only for want of room: where play at
    /// the table cannot go on, or where the worker's report cannot take
    /// what the table counted. How often a player splits by the charts
    /// depends on the cards, so no room that is fixed in advance is
    /// enough for every run: a run into an empty report fails only
    /// where the table had no room for its share of hands, the splits
    /// that it made and one hand more.
    pub fn run_once(self) -> (run: (Simulator, Result<(), StrikerError>))
        requires
            self.wf(),
        ensures
            run.0.wf(),
            run.0.table.parameters == self.table.parameters,
            run.0.table.player.rules == self.table.player.rules,
            run.0.table.player.strategy == self.table.player.strategy,
            run.0.report.same_heading(&self.report),
            run.1.is_ok() ==> run.0.spec_ran(self),
            self.spec_mimic() && self.table.spec_room_for(self.table.spec_hands_due())
                && self.report.counters() == Counters::zero() ==> run.1.is_ok(),
            run.1.is_err() && self.table.spec_can_play(self.spec_mimic()) ==> run.1 == Err::<
                (),
                StrikerError,
            >(StrikerError::Overflow)
                && (run.0.table.spec_out_of_room() || !run.0.report.spec_can_merge(
                &run.0.table.report,
            )),
            run.1.is_err() ==> run.1 != Err::<(), StrikerError>(StrikerError::InvalidOperation),
            self.spec_mimic() && run.1.is_ok() ==> run.0.table.player.report.total_splits
                == self.table.player.report.total_splits && run.0.table.player.report.total_doubles
                == self.table.player.report.total_doubles,
            !self.table.spec_hand_due() ==> run.1.is_ok() == (self.table.spec_closed().fits()
                && self.report.counters().plus(self.table.spec_closed()).fits()),
            run.1.is_err() && self.table.spec_can_play(self.spec_mimic())
                && self.report.counters() == Counters::zero()
                ==> forall|units: int| #[trigger] self.table.spec_room_for_play(units)
                ==> units <= self.table.spec_hands_due()
                + (run.0.table.player.report.total_splits - self.table.player.report.total_splits),
            run.0.table.player.report.total_splits >= self.table.player.report.total_splits,
    {
        let mut simulator = self;
        let mimic: bool = simulator.table.parameters.strategy == String::from_str(STRATEGY_MIMIC);
        match simulator.table.session(mimic) {
            Err(e) => {
                return (simulator, Err(e));
            },
            Ok(()) => {},
        }
        let done = simulator.report.try_merge(&simulator.table.report);
        (simulator, done)
    }

    pub fn get_report(&self) -> (report: &Report)
        ensures
            *report == self.report,
    {
        &self.report
    }
}

/// A fresh worker that has run counts exactly its share of hands, and
/// has settled each of them and each hand that a split made once.
pub proof fn lemma_fresh_worker_counts_its_share(before: Simulator, after: Simulator)
    requires
        before.spec_fresh(),
        after.spec_ran(before),
    ensures
        after.report.total_hands == before.table.parameters.share_of_hands,
        after.report.spec_settled_hands() == after.report.total_hands + after.report.total_splits,
        after.report.total_shuffles == after.table.shoe.number_of_shuffles,
        after.report.out_of_cards == after.table.shoe.out_of_cards,
        after.report.total_splits == after.table.player.report.total_splits,
        after.report.total_doubles == after.table.player.report.total_doubles,
        before.table.parameters.share_of_hands >= 1 ==> after.report.total_rounds >= 1,
{
}

/// A fresh worker that mimics the dealer and has run has split and
/// doubled nothing, so that it has settled exactly the hands that it
/// counts, each as a win, a loss or a tie, or as a natural that was paid.
pub proof fn lemma_fresh_mimic_worker_settles_its_hands(before: Simulator, after: Simulator)
    requires
        before.spec_fresh(),
        after.spec_ran(before),
        after.table.player.report.total_splits == before.table.player.report.total_splits,
        after.table.player.report.total_doubles == before.table.player.report.total_doubles,
    ensures
        after.report.total_splits == 0,
        after.report.total_doubles == 0,
        after.report.spec_settled_hands() == after.report.total_hands,
        after.report.total_hands == before.table.parameters.share_of_hands,
{
    lemma_fresh_worker_counts_its_share(before, after);
}

/// A fresh worker that mimics the dealer has room for its whole share of
/// hands, and so plays it to the end, where a natural is paid at odds of
/// no more than 500 to 1 and a thousand times the share is still in the
/// range of `isize`.
pub proof fn lemma_fresh_mimic_worker_has_room(simulator: Simulator)
    requires
        simulator.spec_fresh(),
        simulator.table.player.rules.blackjack_bets > 0,
        2 * simulator.table.player.rules.blackjack_pays <= 1000
            * simulator.table.player.rules.blackjack_bets,
        2 * simulator.table.player.rules.blackjack_pays <= isize::MAX,
        1000 * simulator.table.parameters.share_of_hands <= isize::MAX,
    ensures
        simulator.table.spec_room_for(simulator.table.spec_hands_due()),
{
}

/// A fresh worker has room for `units` hands, dealt or made by a split,
/// where the running count can be computed at every histogram of up to
/// 60 cards of a rank for each of them, and 1100 times their number is
/// still in the range of `isize`.
pub proof fn lemma_fresh_worker_has_room_for_play(simulator: Simulator, units: int)
    requires
        simulator.spec_fresh(),
        units >= 0,
        1100 * units + 1 <= isize::MAX,
        simulator.table.player.strategy.spec_counts_fit(
            simulator.table.player.seen_cards@,
            60 * units,
        ),
    ensures
        simulator.table.spec_room_for_play(units),
{
}

} // verus!
