//! The constants of the simulation.

use vstd::prelude::*;

verus! {

// General constants
pub const STRIKER_WHO_AM_I: &'static str = "striker-rust";

pub const STRIKER_VERSION: &'static str = "v3.00.00";

pub const TIME_LAYOUT: &'static str = "%Y-%m-%d %H:%M:%S %z";

pub const STATUS_ROUNDS: usize = 1000000;

pub const MY_HOSTNAME: &'static str = "Striker";

// Simulation constants
pub const MILLION: usize = 1000000;

pub const BILLION: usize = 1000000000;

pub const NUMBER_OF_HANDS_MAXIMUM: u64 = 10000000000;

pub const NUMBER_OF_HANDS_MINIMUM: usize = 100;

pub const NUMBER_OF_HANDS_DEFAULT: usize = 500000000;

pub const NUMBER_OF_HANDS_DATABASE: usize = 10000000;

pub const NUMBER_OF_CARDS_IN_DECK: usize = 52;

pub const NUMBER_OF_CORES_MINIMUM: usize = 1;

pub const NUMBER_OF_CORES_PHYSICAL: usize = 24;

pub const NUMBER_OF_CORES_LOGICAL: usize = 32;

pub const NUMBER_OF_CORES_DEFAULT: usize = 24;

pub const NUMBER_OF_CORES_MAXIMUM: usize = 32;

// Strategy and deck names
pub const STRATEGY_MIMIC: &'static str = "mimic";

pub const STRATEGY_BASIC: &'static str = "basic";

pub const STRATEGY_NEURAL: &'static str = "neural";

pub const STRATEGY_LINEAR: &'static str = "linear";

pub const STRATEGY_POLYNOMIAL: &'static str = "polynomial";

pub const STRATEGY_HIGH_LOW: &'static str = "high-low";

pub const STRATEGY_WONG: &'static str = "wong";

pub const DECKS_SINGLE_DECK: &'static str = "single-deck";

pub const DECKS_DOUBLE_DECK: &'static str = "double-deck";

pub const DECKS_SIX_SHOE: &'static str = "six-shoe";

// Betting constants
pub const MINIMUM_BET: usize = 2;

pub const MAXIMUM_BET: usize = 20;

pub const TRUE_COUNT_BET: usize = 2;

pub const TRUE_COUNT_MULTIPLIER: usize = 26;

} // verus!
