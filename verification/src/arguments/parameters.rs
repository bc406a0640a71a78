//! What a worker needs to know of a run: its name, its playbook and its
//! share of the hands.

use crate::arguments::arguments::Arguments;
use crate::constants::constants::{STRIKER_WHO_AM_I, TIME_LAYOUT};
use crate::utilities::utilities::{padded, to_padded};
use chrono::Datelike;
use vstd::prelude::*;
use vstd::string::StringExecFns;

verus! {

/// A moment as the local calendar and clock show it.
#[derive(Debug, Clone)]
pub struct TimeStamp {
    pub year: i32,
    pub month: u32,
    pub day: u32,
    /// Seconds since the Unix epoch.
    pub seconds: i64,
    /// The moment written out in the layout of the run's records.
    pub epoch: String,
}

/// The present moment.
///
/// Calls `chrono::Local::now` and reads the year, the month, the day and
/// the Unix time off the result, and has it written out in the layout of
/// the run's records. The result depends on the clock and on the time
/// zone of the machine, so nothing is claimed of it.
#[verifier::external_body]
fn local_now() -> TimeStamp {
    let now = chrono::Local::now();
    TimeStamp {
        year: now.year(),
        month: now.month(),
        day: now.day(),
        seconds: now.timestamp(),
        epoch: now.format(TIME_LAYOUT).to_string(),
    }
}

/// The number of hands that each of `threads` workers plays so that all
/// together play `hands` at least: the hands divided among the workers,
/// rounded up. No workers count as one.
pub open spec fn share_of(hands: nat, threads: nat) -> nat {
    let workers = if threads == 0 {
        1
    } else {
        threads
    };
    hands / workers + if hands % workers != 0 {
        1nat
    } else {
        0nat
    }
}

/// The name of a run that began at `now`: who runs it, the date, and the
/// Unix time.
pub open spec fn run_name(now: TimeStamp) -> Seq<char> {
    STRIKER_WHO_AM_I@ + "_"@ + padded(now.year as int, 4) + "_"@ + padded(now.month as int, 2)
        + "_"@ + padded(now.day as int, 2) + "_"@ + padded(now.seconds as int, 12)
}

/// What one worker needs to know of a run.
#[derive(Debug, Clone)]
pub struct Parameters {
    pub name: String,
    pub processor: String,
    pub playbook: String,
    pub strategy: String,
    pub decks: String,
    pub epoch: String,
    pub number_of_decks: usize,
    pub number_of_hands: usize,
    /// The number of hands that each worker plays.
    pub share_of_hands: usize,
    pub number_of_threads: usize,
    /// Whether the worker reports its progress while it plays.
    pub verbose: bool,
}

impl Parameters {
    /// The parameters are those of a run with these arguments.
    pub open spec fn spec_of(&self, arguments: &Arguments) -> bool {
        &&& self.processor@ == STRIKER_WHO_AM_I@
        &&& self.playbook@ == arguments.decks@ + "-"@ + arguments.strategy@
        &&& self.strategy@ == arguments.strategy@
        &&& self.decks@ == arguments.decks@
        &&& self.number_of_decks == arguments.number_of_decks
        &&& self.number_of_hands == arguments.number_of_hands
        &&& self.share_of_hands == share_of(
            arguments.number_of_hands as nat,
            arguments.number_of_threads as nat,
        )
        &&& self.number_of_threads == arguments.number_of_threads
        &&& self.verbose == (arguments.number_of_threads == 1)
    }

    /// The parameters of a run that begins now.
    pub fn new(arguments: &Arguments) -> (parameters: Parameters)
        ensures
            parameters.spec_of(arguments),
    {
        Parameters::at(arguments, &local_now())
    }

    /// The parameters of a run that began at `now`.
    pub fn at(arguments: &Arguments, now: &TimeStamp) -> (parameters: Parameters)
        ensures
            parameters.spec_of(arguments),
            parameters.name@ == run_name(*now),
            parameters.epoch@ == now.epoch@,
    {
        let workers: usize = if arguments.number_of_threads == 0 {
            1
        } else {
            arguments.number_of_threads
        };
        let whole: usize = arguments.number_of_hands / workers;
        let share: usize = if arguments.number_of_hands % workers != 0 {
            assert(whole < usize::MAX) by (nonlinear_arith)
                requires
                    whole == arguments.number_of_hands as int / workers as int,
                    arguments.number_of_hands as int % workers as int != 0,
                    workers > 0,
                    arguments.number_of_hands <= usize::MAX,
            ;
            whole + 1
        } else {
            whole
        };
        let name = String::from_str(STRIKER_WHO_AM_I).concat("_").concat(
            to_padded(now.year as i64, 4).as_str(),
        ).concat("_").concat(to_padded(now.month as i64, 2).as_str()).concat("_").concat(
            to_padded(now.day as i64, 2).as_str(),
        ).concat("_").concat(to_padded(now.seconds, 12).as_str());
        Parameters {
            name,
            processor: String::from_str(STRIKER_WHO_AM_I),
            playbook: arguments.decks.clone().concat("-").concat(arguments.strategy.as_str()),
            strategy: arguments.strategy.clone(),
            decks: arguments.decks.clone(),
            epoch: now.epoch.clone(),
            number_of_decks: arguments.number_of_decks,
            number_of_hands: arguments.number_of_hands,
            share_of_hands: share,
            number_of_threads: arguments.number_of_threads,
            verbose: arguments.number_of_threads == 1,
        }
    }
}

} // verus!
