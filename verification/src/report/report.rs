//! The report of a worker or of a run: counters that merge by addition.

use crate::arguments::parameters::Parameters;
use crate::constants::constants::STRIKER_VERSION;
use crate::errors::StrikerError;
use vstd::prelude::*;
use vstd::string::StringExecFns;

verus! {

/// The counters of a report as unbounded numbers.
pub struct Counters {
    pub rounds: int,
    pub hands: int,
    pub bet: int,
    pub won: int,
    pub blackjacks: int,
    pub doubles: int,
    pub splits: int,
    pub splits_ace: int,
    pub wins: int,
    pub loses: int,
    pub pushes: int,
    pub shuffles: int,
    pub out_of_cards: int,
}

impl Counters {
    /// Every counter at zero.
    pub open spec fn zero() -> Counters {
        Counters {
            rounds: 0,
            hands: 0,
            bet: 0,
            won: 0,
            blackjacks: 0,
            doubles: 0,
            splits: 0,
            splits_ace: 0,
            wins: 0,
            loses: 0,
            pushes: 0,
            shuffles: 0,
            out_of_cards: 0,
        }
    }

    /// The counter-wise sum.
    pub open spec fn plus(self, other: Counters) -> Counters {
        Counters {
            rounds: self.rounds + other.rounds,
            hands: self.hands + other.hands,
            bet: self.bet + other.bet,
            won: self.won + other.won,
            blackjacks: self.blackjacks + other.blackjacks,
            doubles: self.doubles + other.doubles,
            splits: self.splits + other.splits,
            splits_ace: self.splits_ace + other.splits_ace,
            wins: self.wins + other.wins,
            loses: self.loses + other.loses,
            pushes: self.pushes + other.pushes,
            shuffles: self.shuffles + other.shuffles,
            out_of_cards: self.out_of_cards + other.out_of_cards,
        }
    }

    /// Every counter fits the machine type of its field in a report.
    pub open spec fn fits(self) -> bool {
        &&& 0 <= self.rounds <= usize::MAX
        &&& 0 <= self.hands <= usize::MAX
        &&& 0 <= self.bet <= usize::MAX
        &&& isize::MIN <= self.won <= isize::MAX
        &&& 0 <= self.blackjacks <= usize::MAX
        &&& 0 <= self.doubles <= usize::MAX
        &&& 0 <= self.splits <= usize::MAX
        &&& 0 <= self.splits_ace <= usize::MAX
        &&& 0 <= self.wins <= usize::MAX
        &&& 0 <= self.loses <= usize::MAX
        &&& 0 <= self.pushes <= usize::MAX
        &&& 0 <= self.shuffles <= usize::MAX
        &&& 0 <= self.out_of_cards <= usize::MAX
    }
}

/// The sum of all the counters of a sequence, taken from the left.
pub open spec fn merge_all(reports: Seq<Counters>) -> Counters
    decreases reports.len(),
{
    if reports.len() == 0 {
        Counters::zero()
    } else {
        merge_all(reports.drop_last()).plus(reports.last())
    }
}

/// Merging is commutative: it does not matter which of two reports is
/// merged into which.
pub proof fn lemma_merge_commutative(a: Counters, b: Counters)
    ensures
        a.plus(b) == b.plus(a),
{
}

/// Merging is associative: it does not matter how reports are grouped.
pub proof fn lemma_merge_associative(a: Counters, b: Counters, c: Counters)
    ensures
        a.plus(b).plus(c) == a.plus(b.plus(c)),
{
}

/// A report can be taken out of the middle of a sequence and merged last.
pub proof fn lemma_merge_all_remove(reports: Seq<Counters>, i: int)
    requires
        0 <= i < reports.len(),
    ensures
        merge_all(reports) == merge_all(reports.remove(i)).plus(reports[i]),
    decreases reports.len(),
{
    if i == reports.len() - 1 {
        assert(reports.remove(i) =~= reports.drop_last());
    } else {
        lemma_merge_all_remove(reports.drop_last(), i);
        assert(reports.remove(i).drop_last() =~= reports.drop_last().remove(i));
        assert(reports.remove(i).last() == reports.last());
    }
}

/// The order in which any number of reports is merged does not matter:
/// two sequences that hold the same reports, each as often as the other,
/// merge to the same counters.
pub proof fn lemma_merge_order_irrelevant(first: Seq<Counters>, second: Seq<Counters>)
    requires
        first.to_multiset() == second.to_multiset(),
    ensures
        merge_all(first) == merge_all(second),
    decreases first.len(),
{
    broadcast use vstd::seq_lib::group_to_multiset_ensures;

    vstd::seq_lib::to_multiset_len(first);
    vstd::seq_lib::to_multiset_len(second);
    if first.len() == 0 {
    } else {
        let last = first.last();
        assert(first.contains(last));
        assert(second.to_multiset().count(last) > 0);
        assert(second.contains(last));
        let i = choose|i: int| 0 <= i < second.len() && second[i] == last;
        assert(first.drop_last() =~= first.remove(first.len() - 1));
        assert(first.drop_last().to_multiset() == second.remove(i).to_multiset());
        lemma_merge_order_irrelevant(first.drop_last(), second.remove(i));
        lemma_merge_all_remove(second, i);
    }
}

/// The present time in whole seconds since the Unix epoch.
///
/// Calls `std::time::SystemTime::now` and `duration_since` the epoch. The
/// result depends on the clock, so nothing is claimed of it.
#[verifier::external_body]
fn unix_seconds() -> usize {
    std::time::SystemTime::now().duration_since(std::time::UNIX_EPOCH).map_or(
        0,
        |elapsed| elapsed.as_secs() as usize,
    )
}

/// What one worker, or a whole run, has counted.
#[derive(Debug, Clone)]
pub struct Report {
    pub name: String,
    pub version: String,
    pub simulator: String,
    pub playbook: String,
    pub strategy: String,
    pub decks: String,
    pub epoch: String,
    pub total_rounds: usize,
    pub total_hands: usize,
    pub total_bet: usize,
    pub total_won: isize,
    pub total_blackjacks: usize,
    pub total_doubles: usize,
    pub total_splits: usize,
    pub total_splits_ace: usize,
    pub total_wins: usize,
    pub total_loses: usize,
    pub total_pushes: usize,
    pub out_of_cards: usize,
    pub total_shuffles: usize,
    pub total_threads: usize,
    /// Seconds since the Unix epoch at which the run began and ended.
    pub start: usize,
    pub end: usize,
    pub duration: usize,
}

impl Report {
    /// The report's counters.
    pub open spec fn counters(&self) -> Counters {
        Counters {
            rounds: self.total_rounds as int,
            hands: self.total_hands as int,
            bet: self.total_bet as int,
            won: self.total_won as int,
            blackjacks: self.total_blackjacks as int,
            doubles: self.total_doubles as int,
            splits: self.total_splits as int,
            splits_ace: self.total_splits_ace as int,
            wins: self.total_wins as int,
            loses: self.total_loses as int,
            pushes: self.total_pushes as int,
            shuffles: self.total_shuffles as int,
            out_of_cards: self.out_of_cards as int,
        }
    }

    /// What is not a counter is the same in both reports.
    pub open spec fn same_heading(&self, other: &Report) -> bool {
        &&& self.name == other.name
        &&& self.version == other.version
        &&& self.simulator == other.simulator
        &&& self.playbook == other.playbook
        &&& self.strategy == other.strategy
        &&& self.decks == other.decks
        &&& self.epoch == other.epoch
        &&& self.total_threads == other.total_threads
        &&& self.start == other.start
        &&& self.end == other.end
        &&& self.duration == other.duration
    }

    /// The counters that a table keeps, and a player does not, are the
    /// same in both reports: hands, rounds, shuffles and run-outs.
    pub open spec fn same_table_counts(&self, other: &Report) -> bool {
        &&& self.total_hands == other.total_hands
        &&& self.total_rounds == other.total_rounds
        &&& self.total_shuffles == other.total_shuffles
        &&& self.out_of_cards == other.out_of_cards
    }

    /// The counters that settling a hand changes are the same in both
    /// reports: the bets, what they won, and the wins, losses and ties.
    pub open spec fn same_settlements(&self, other: &Report) -> bool {
        &&& self.total_bet == other.total_bet
        &&& self.total_won == other.total_won
        &&& self.total_wins == other.total_wins
        &&& self.total_loses == other.total_loses
        &&& self.total_pushes == other.total_pushes
    }

    /// The number of hands that were settled: those that were won, lost
    /// or tied, and the naturals that were paid.
    pub open spec fn spec_settled_hands(&self) -> int {
        self.total_wins + self.total_loses + self.total_pushes + self.total_blackjacks
    }

    /// The report has room for one more hand to be settled with a stake,
    /// a win or a loss of up to `amount`.
    pub open spec fn spec_room(&self, amount: int) -> bool {
        &&& self.total_bet + amount <= usize::MAX
        &&& self.total_won + amount <= isize::MAX
        &&& self.total_won - amount >= isize::MIN
        &&& self.total_wins < usize::MAX
        &&& self.total_loses < usize::MAX
        &&& self.total_pushes < usize::MAX
    }

    /// The counters of `other` can be added to this report's without one
    /// of them leaving the range of its type.
    pub open spec fn spec_can_merge(&self, other: &Report) -> bool {
        self.counters().plus(other.counters()).fits()
    }

    /// An empty report.
    pub fn new() -> (report: Report)
        ensures
            report.counters() == Counters::zero(),
            report.name@ == Seq::<char>::empty(),
            report.total_threads == 0,
            report.start == 0,
            report.end == 0,
            report.duration == 0,
    {
        Report {
            name: String::new(),
            version: String::new(),
            simulator: String::new(),
            playbook: String::new(),
            strategy: String::new(),
            decks: String::new(),
            epoch: String::new(),
            total_rounds: 0,
            total_hands: 0,
            total_bet: 0,
            total_won: 0,
            total_blackjacks: 0,
            total_doubles: 0,
            total_splits: 0,
            total_splits_ace: 0,
            total_wins: 0,
            total_loses: 0,
            total_pushes: 0,
            out_of_cards: 0,
            total_shuffles: 0,
            total_threads: 0,
            start: 0,
            end: 0,
            duration: 0,
        }
    }

    /// Heads the report with the names of the run and marks its start at
    /// the present time.
    pub fn init(&mut self, parameters: &Parameters)
        ensures
            final(self).counters() == old(self).counters(),
            final(self).name@ == parameters.name@,
            final(self).version@ == STRIKER_VERSION@,
            final(self).simulator@ == parameters.processor@,
            final(self).playbook@ == parameters.playbook@,
            final(self).strategy@ == parameters.strategy@,
            final(self).decks@ == parameters.decks@,
            final(self).epoch@ == parameters.epoch@,
            final(self).total_threads == parameters.number_of_threads,
            final(self).end == old(self).end,
            final(self).duration == old(self).duration,
    {
        self.init_at(parameters, unix_seconds());
    }

    /// Heads the report with the names of the run and marks its start at
    /// `now`, in seconds since the Unix epoch.
    pub fn init_at(&mut self, parameters: &Parameters, now: usize)
        ensures
            final(self).counters() == old(self).counters(),
            final(self).name@ == parameters.name@,
            final(self).version@ == STRIKER_VERSION@,
            final(self).simulator@ == parameters.processor@,
            final(self).playbook@ == parameters.playbook@,
            final(self).strategy@ == parameters.strategy@,
            final(self).decks@ == parameters.decks@,
            final(self).epoch@ == parameters.epoch@,
            final(self).total_threads == parameters.number_of_threads,
            final(self).start == now,
            final(self).end == old(self).end,
            final(self).duration == old(self).duration,
    {
        self.name = parameters.name.clone();
        self.version = String::from_str(STRIKER_VERSION);
        self.simulator = parameters.processor.clone();
        self.playbook = parameters.playbook.clone();
        self.strategy = parameters.strategy.clone();
        self.decks = parameters.decks.clone();
        self.epoch = parameters.epoch.clone();
        self.total_threads = parameters.number_of_threads;
        self.start = now;
    }

    /// Whether the counters of `other` can be added to this report's.
    pub fn can_merge(&self, other: &Report) -> (fits: bool)
        ensures
            fits == self.spec_can_merge(other),
    {
        let won = self.total_won.checked_add(other.total_won);
        won.is_some()
            && self.total_rounds <= usize::MAX - other.total_rounds
            && self.total_hands <= usize::MAX - other.total_hands
            && self.total_bet <= usize::MAX - other.total_bet
            && self.total_blackjacks <= usize::MAX - other.total_blackjacks
            && self.total_doubles <= usize::MAX - other.total_doubles
            && self.total_splits <= usize::MAX - other.total_splits
            && self.total_splits_ace <= usize::MAX - other.total_splits_ace
            && self.total_wins <= usize::MAX - other.total_wins
            && self.total_loses <= usize::MAX - other.total_loses
            && self.total_pushes <= usize::MAX - other.total_pushes
            && self.total_shuffles <= usize::MAX - other.total_shuffles
            && self.out_of_cards <= usize::MAX - other.out_of_cards
    }

    /// Adds the counters of `other` to this report's.
    pub fn merge(&mut self, other: &Report)
        requires
            old(self).spec_can_merge(other),
        ensures
            final(self).counters() == old(self).counters().plus(other.counters()),
            final(self).same_heading(old(self)),
    {
        self.total_rounds = self.total_rounds + other.total_rounds;
        self.total_hands = self.total_hands + other.total_hands;
        self.total_bet = self.total_bet + other.total_bet;
        self.total_won = self.total_won + other.total_won;
        self.total_blackjacks = self.total_blackjacks + other.total_blackjacks;
        self.total_doubles = self.total_doubles + other.total_doubles;
        self.total_splits = self.total_splits + other.total_splits;
        self.total_splits_ace = self.total_splits_ace + other.total_splits_ace;
        self.total_wins = self.total_wins + other.total_wins;
        self.total_loses = self.total_loses + other.total_loses;
        self.total_pushes = self.total_pushes + other.total_pushes;
        self.total_shuffles = self.total_shuffles + other.total_shuffles;
        self.out_of_cards = self.out_of_cards + other.out_of_cards;
    }

    /// Adds the counters of `other` to this report's where all of them
    /// fit, and leaves the report as it is where one does not.
    pub fn try_merge(&mut self, other: &Report) -> (done: Result<(), StrikerError>)
        ensures
            done.is_ok() == old(self).spec_can_merge(other),
            done.is_ok() ==> final(self).counters() == old(self).counters().plus(other.counters())
                && final(self).same_heading(old(self)),
            done.is_err()
                ==> done == Err::<(), StrikerError>(StrikerError::Overflow) && *final(self)
                == *old(self),
    {
        if self.can_merge(other) {
            self.merge(other);
            Ok(())
        } else {
            Err(StrikerError::Overflow)
        }
    }

    /// Marks the end of the run at the present time.
    pub fn finish(&mut self)
        ensures
            final(self).counters() == old(self).counters(),
            final(self).start == old(self).start,
            final(self).duration == if final(self).end >= old(self).start {
                final(self).end - old(self).start
            } else {
                0
            },
    {
        self.finish_at(unix_seconds());
    }

    /// Marks the end of the run at `now`, in seconds since the Unix epoch.
    /// The duration is the time since the start; a clock that went back
    /// gives a duration of zero.
    pub fn finish_at(&mut self, now: usize)
        ensures
            final(self).counters() == old(self).counters(),
            final(self).end == now,
            final(self).start == old(self).start,
            final(self).duration == if now >= old(self).start {
                now - old(self).start
            } else {
                0
            },
    {
        self.end = now;
        self.duration = if now >= self.start {
            now - self.start
        } else {
            0
        };
    }
}

impl Default for Report {
    fn default() -> (report: Report)
        ensures
            report.counters() == Counters::zero(),
            report.name@ == Seq::<char>::empty(),
            report.total_threads == 0,
            report.start == 0,
            report.end == 0,
            report.duration == 0,
    {
        Report::new()
    }
}

} // verus!
