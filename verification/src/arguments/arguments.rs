//! The arguments of a run and the command line that gives them.

use crate::constants::constants::{
    DECKS_DOUBLE_DECK, DECKS_SINGLE_DECK, DECKS_SIX_SHOE, NUMBER_OF_CORES_DEFAULT,
    NUMBER_OF_CORES_MAXIMUM, NUMBER_OF_CORES_MINIMUM, NUMBER_OF_HANDS_DEFAULT,
    NUMBER_OF_HANDS_MAXIMUM, NUMBER_OF_HANDS_MINIMUM, STRATEGY_BASIC, STRATEGY_HIGH_LOW,
    STRATEGY_LINEAR, STRATEGY_MIMIC, STRATEGY_NEURAL, STRATEGY_POLYNOMIAL, STRATEGY_WONG,
};
use crate::utilities::utilities::{drop_char, parse_count, parse_usize, without_char};
use vstd::prelude::*;
use vstd::string::{StrSliceExecFns, StringExecFns};

verus! {

/// What a run was asked to do.
#[derive(Debug, Clone)]
pub struct Arguments {
    pub strategy: String,
    pub decks: String,
    pub number_of_decks: usize,
    pub number_of_hands: usize,
    pub number_of_threads: usize,
}

/// The arguments of a run with their texts laid open.
pub struct ArgumentsView {
    pub strategy: Seq<char>,
    pub decks: Seq<char>,
    pub number_of_decks: usize,
    pub number_of_hands: usize,
    pub number_of_threads: usize,
}

impl View for Arguments {
    type V = ArgumentsView;

    open spec fn view(&self) -> ArgumentsView {
        ArgumentsView {
            strategy: self.strategy@,
            decks: self.decks@,
            number_of_decks: self.number_of_decks,
            number_of_hands: self.number_of_hands,
            number_of_threads: self.number_of_threads,
        }
    }
}

/// What a command line asks for.
#[derive(Debug, Clone)]
pub enum Parsed {
    /// A run with these arguments.
    Run(Arguments),
    /// The help text.
    Help,
    /// The version.
    Version,
}

/// What a command line asks for, with the texts laid open.
pub enum ParsedView {
    Run(ArgumentsView),
    Help,
    Version,
}

impl View for Parsed {
    type V = ParsedView;

    open spec fn view(&self) -> ParsedView {
        match self {
            Parsed::Run(arguments) => ParsedView::Run(arguments@),
            Parsed::Help => ParsedView::Help,
            Parsed::Version => ParsedView::Version,
        }
    }
}

/// What an option that takes a number sets.
#[derive(Debug, Clone, Copy, PartialEq, Eq, Structural)]
pub enum Field {
    NumberOfHands,
    NumberOfThreads,
}

impl Field {
    pub open spec fn spec_name(self) -> Seq<char> {
        match self {
            Field::NumberOfHands => "number of hands"@,
            Field::NumberOfThreads => "number of threads"@,
        }
    }

    /// The field in words.
    pub fn name(&self) -> (name: &'static str)
        ensures
            name@ == self.spec_name(),
    {
        match self {
            Field::NumberOfHands => "number of hands",
            Field::NumberOfThreads => "number of threads",
        }
    }
}

/// Why a command line is refused.
#[derive(Debug, Clone, Copy, PartialEq, Eq, Structural)]
pub enum ArgumentError {
    /// The option that sets the field stands last, without its number.
    MissingValue(Field),
    /// What stands behind the option that sets the field is no number.
    InvalidNumber(Field),
    /// The number is below or above what the field admits.
    OutOfRange(Field),
    /// The word is no option.
    UnknownArgument,
}

/// The arguments of a run that was asked for nothing in particular: the
/// dealer's own strategy on a single deck.
pub open spec fn default_arguments() -> ArgumentsView {
    ArgumentsView {
        strategy: STRATEGY_MIMIC@,
        decks: DECKS_SINGLE_DECK@,
        number_of_decks: 1,
        number_of_hands: NUMBER_OF_HANDS_DEFAULT,
        number_of_threads: NUMBER_OF_CORES_DEFAULT,
    }
}

/// The texts of the words of a command line.
pub open spec fn texts(argv: Seq<String>) -> Seq<Seq<char>> {
    Seq::new(argv.len(), |i: int| argv[i]@)
}

/// The strategy that an option selects, if it selects one.
pub open spec fn strategy_of(flag: Seq<char>) -> Option<Seq<char>> {
    if flag == "-M"@ || flag == "--mimic"@ {
        Some(STRATEGY_MIMIC@)
    } else if flag == "-B"@ || flag == "--basic"@ {
        Some(STRATEGY_BASIC@)
    } else if flag == "-L"@ || flag == "--linear"@ {
        Some(STRATEGY_LINEAR@)
    } else if flag == "-P"@ || flag == "--polynomial"@ {
        Some(STRATEGY_POLYNOMIAL@)
    } else if flag == "-N"@ || flag == "--neural"@ {
        Some(STRATEGY_NEURAL@)
    } else if flag == "-H"@ || flag == "--high-low"@ {
        Some(STRATEGY_HIGH_LOW@)
    } else if flag == "-W"@ || flag == "--wong"@ {
        Some(STRATEGY_WONG@)
    } else {
        None
    }
}

/// The decks that an option selects, by name and by number, if it
/// selects any.
pub open spec fn decks_of(flag: Seq<char>) -> Option<(Seq<char>, usize)> {
    if flag == "-1"@ || flag == "--single-deck"@ {
        Some((DECKS_SINGLE_DECK@, 1usize))
    } else if flag == "-2"@ || flag == "--double-deck"@ {
        Some((DECKS_DOUBLE_DECK@, 2usize))
    } else if flag == "-6"@ || flag == "--six-shoe"@ {
        Some((DECKS_SIX_SHOE@, 6usize))
    } else {
        None
    }
}

/// The number behind the option at position `i`, which sets `field`: the
/// next word, read as a count without regard to commas, and within `min`
/// and `max`.
pub open spec fn number_at(
    argv: Seq<Seq<char>>,
    i: int,
    min: nat,
    max: nat,
    field: Field,
) -> Result<usize, ArgumentError> {
    if i + 1 >= argv.len() {
        Err(ArgumentError::MissingValue(field))
    } else {
        match parse_count(without_char(argv[i + 1], ',')) {
            None => Err(ArgumentError::InvalidNumber(field)),
            Some(value) => if value < min || value > max {
                Err(ArgumentError::OutOfRange(field))
            } else {
                Ok(value as usize)
            },
        }
    }
}

/// What the words from position `i` on ask for, on top of what the words
/// before them asked for. The words are read from the left; the first
/// that asks for help or for the version, or that is refused, ends the
/// reading.
pub open spec fn parse_from(
    argv: Seq<Seq<char>>,
    i: int,
    so_far: ArgumentsView,
) -> Result<ParsedView, ArgumentError>
    decreases argv.len() - i,
{
    if i < 0 || i >= argv.len() {
        Ok(ParsedView::Run(so_far))
    } else {
        let flag = argv[i];
        if flag == "-h"@ || flag == "--number-of-hands"@ {
            match number_at(
                argv,
                i,
                NUMBER_OF_HANDS_MINIMUM as nat,
                NUMBER_OF_HANDS_MAXIMUM as nat,
                Field::NumberOfHands,
            ) {
                Err(e) => Err(e),
                Ok(hands) => parse_from(
                    argv,
                    i + 2,
                    ArgumentsView { number_of_hands: hands, ..so_far },
                ),
            }
        } else if flag == "-t"@ || flag == "--number-of-threads"@ {
            match number_at(
                argv,
                i,
                NUMBER_OF_CORES_MINIMUM as nat,
                NUMBER_OF_CORES_MAXIMUM as nat,
                Field::NumberOfThreads,
            ) {
                Err(e) => Err(e),
                Ok(threads) => parse_from(
                    argv,
                    i + 2,
                    ArgumentsView { number_of_threads: threads, ..so_far },
                ),
            }
        } else if strategy_of(flag).is_some() {
            parse_from(argv, i
                + 1, ArgumentsView { strategy: strategy_of(flag).unwrap(), ..so_far })
        } else if decks_of(flag).is_some() {
            parse_from(
                argv,
                i + 1,
                ArgumentsView {
                    decks: decks_of(flag).unwrap().0,
                    number_of_decks: decks_of(flag).unwrap().1,
                    ..so_far
                },
            )
        } else if flag == "--help"@ {
            Ok(ParsedView::Help)
        } else if flag == "--version"@ {
            Ok(ParsedView::Version)
        } else {
            Err(ArgumentError::UnknownArgument)
        }
    }
}

/// What a command line asks for. The first word is the program's name
/// and is passed over.
pub open spec fn parse(argv: Seq<Seq<char>>) -> Result<ParsedView, ArgumentError> {
    parse_from(argv, 1, default_arguments())
}

/// The words that are not empty, in their order.
pub open spec fn filled(words: Seq<Seq<char>>) -> Seq<Seq<char>>
    decreases words.len(),
{
    if words.len() == 0 {
        words
    } else if words.last().len() == 0 {
        filled(words.drop_last())
    } else {
        filled(words.drop_last()).push(words.last())
    }
}

/// The texts of the words of a list.
pub open spec fn word_texts(words: Seq<&str>) -> Seq<Seq<char>> {
    Seq::new(words.len(), |i: int| words[i]@)
}

/// The outcome of reading a command line, with the texts laid open.
pub open spec fn outcome(
    parsed: Result<Parsed, ArgumentError>,
) -> Result<ParsedView, ArgumentError> {
    match parsed {
        Ok(asked) => Ok(asked@),
        Err(e) => Err(e),
    }
}

/// Whether the word is the given option.
fn is_word(word: &String, option: &str) -> (same: bool)
    ensures
        same == (word@ == option@),
{
    *word == String::from_str(option)
}

/// The strategy that an option selects, if it selects one.
fn strategy_for(flag: &String) -> (name: Option<&'static str>)
    ensures
        name.is_some() == strategy_of(flag@).is_some(),
        name.is_some() ==> name.unwrap()@ == strategy_of(flag@).unwrap(),
{
    if is_word(flag, "-M") || is_word(flag, "--mimic") {
        Some(STRATEGY_MIMIC)
    } else if is_word(flag, "-B") || is_word(flag, "--basic") {
        Some(STRATEGY_BASIC)
    } else if is_word(flag, "-L") || is_word(flag, "--linear") {
        Some(STRATEGY_LINEAR)
    } else if is_word(flag, "-P") || is_word(flag, "--polynomial") {
        Some(STRATEGY_POLYNOMIAL)
    } else if is_word(flag, "-N") || is_word(flag, "--neural") {
        Some(STRATEGY_NEURAL)
    } else if is_word(flag, "-H") || is_word(flag, "--high-low") {
        Some(STRATEGY_HIGH_LOW)
    } else if is_word(flag, "-W") || is_word(flag, "--wong") {
        Some(STRATEGY_WONG)
    } else {
        None
    }
}

/// The decks that an option selects, if it selects any.
fn decks_for(flag: &String) -> (decks: Option<(&'static str, usize)>)
    ensures
        decks.is_some() == decks_of(flag@).is_some(),
        decks.is_some() ==> decks.unwrap().0@ == decks_of(flag@).unwrap().0 && decks.unwrap().1
            == decks_of(flag@).unwrap().1,
{
    if is_word(flag, "-1") || is_word(flag, "--single-deck") {
        Some((DECKS_SINGLE_DECK, 1))
    } else if is_word(flag, "-2") || is_word(flag, "--double-deck") {
        Some((DECKS_DOUBLE_DECK, 2))
    } else if is_word(flag, "-6") || is_word(flag, "--six-shoe") {
        Some((DECKS_SIX_SHOE, 6))
    } else {
        None
    }
}

impl Arguments {
    /// The arguments of a run that was asked for nothing in particular.
    pub open spec fn spec_default(&self) -> bool {
        self@ == default_arguments()
    }

    /// Reads the arguments off a list of words, empty words left out.
    pub fn make_args(args: &[&str]) -> (parsed: Result<Parsed, ArgumentError>)
        ensures
            outcome(parsed) == parse(seq!["program"@] + filled(word_texts(args@))),
    {
        let mut owned: Vec<String> = Vec::new();
        owned.push(String::from_str("program"));
        let mut i: usize = 0;
        assert(texts(owned@) =~= seq!["program"@] + filled(word_texts(args@).take(0)));
        while i < args.len()
            invariant
                i <= args@.len(),
                texts(owned@) == seq!["program"@] + filled(word_texts(args@).take(i as int)),
            decreases args@.len() - i,
        {
            proof {
                assert(word_texts(args@).take(i + 1).drop_last() =~= word_texts(args@).take(
                    i as int,
                ));
            }
            let word: &str = args[i];
            let ghost before = texts(owned@);
            assert(word_texts(args@).take(i + 1).last() == word@);
            if word.unicode_len() != 0 {
                owned.push(String::from_str(word));
                assert(texts(owned@) =~= before.push(word@));
                assert(texts(owned@) =~= seq!["program"@] + filled(
                    word_texts(args@).take(i + 1),
                ));
            }
            i = i + 1;
        }
        assert(word_texts(args@).take(i as int) =~= word_texts(args@));
        Arguments::parse_args(owned.as_slice())
    }

    /// Reads the arguments off a command line.
    pub fn parse_args(argv: &[String]) -> (parsed: Result<Parsed, ArgumentError>)
        ensures
            outcome(parsed) == parse(texts(argv@)),
    {
        let mut args = Arguments::default();
        let mut i: usize = 1;
        while i < argv.len()
            invariant
                1 <= i,
                parse(texts(argv@)) == parse_from(texts(argv@), i as int, args@),
            decreases argv@.len() - i,
        {
            let flag: &String = &argv[i];
            assert(texts(argv@)[i as int] == flag@);
            if is_word(flag, "-h") || is_word(flag, "--number-of-hands") {
                match Arguments::parse_usize_arg(
                    argv,
                    i,
                    NUMBER_OF_HANDS_MINIMUM as u64,
                    NUMBER_OF_HANDS_MAXIMUM,
                    Field::NumberOfHands,
                ) {
                    Err(e) => {
                        return Err(e);
                    },
                    Ok(hands) => {
                        args.number_of_hands = hands;
                    },
                }
                i = i + 1;
            } else if is_word(flag, "-t") || is_word(flag, "--number-of-threads") {
                match Arguments::parse_usize_arg(
                    argv,
                    i,
                    NUMBER_OF_CORES_MINIMUM as u64,
                    NUMBER_OF_CORES_MAXIMUM as u64,
                    Field::NumberOfThreads,
                ) {
                    Err(e) => {
                        return Err(e);
                    },
                    Ok(threads) => {
                        args.number_of_threads = threads;
                    },
                }
                i = i + 1;
            } else {
                match strategy_for(flag) {
                    Some(name) => {
                        args.strategy = String::from_str(name);
                    },
                    None => match decks_for(flag) {
                        Some(decks) => {
                            args.decks = String::from_str(decks.0);
                            args.number_of_decks = decks.1;
                        },
                        None => {
                            if is_word(flag, "--help") {
                                return Ok(Parsed::Help);
                            } else if is_word(flag, "--version") {
                                return Ok(Parsed::Version);
                            } else {
                                return Err(ArgumentError::UnknownArgument);
                            }
                        },
                    },
                }
            }
            i = i + 1;
        }
        Ok(Parsed::Run(args))
    }

    /// Reads the number behind the option at position `i`, which sets
    /// `field`.
    pub fn parse_usize_arg(
        argv: &[String],
        i: usize,
        min: u64,
        max: u64,
        field: Field,
    ) -> (number: Result<usize, ArgumentError>)
        requires
            i < argv@.len(),
        ensures
            number == number_at(texts(argv@), i as int, min as nat, max as nat, field),
    {
        if i >= argv.len() - 1 {
            return Err(ArgumentError::MissingValue(field));
        }
        assert(texts(argv@)[i + 1] == argv@[i + 1]@);
        let value = drop_char(argv[i + 1].as_str(), ',');
        match parse_usize(value.as_str()) {
            None => Err(ArgumentError::InvalidNumber(field)),
            Some(parsed) => {
                if (parsed as u64) < min || (parsed as u64) > max {
                    Err(ArgumentError::OutOfRange(field))
                } else {
                    Ok(parsed)
                }
            },
        }
    }
}

impl Default for Arguments {
    fn default() -> (arguments: Arguments)
        ensures
            arguments.spec_default(),
    {
        Arguments {
            strategy: String::from_str(STRATEGY_MIMIC),
            decks: String::from_str(DECKS_SINGLE_DECK),
            number_of_decks: 1,
            number_of_hands: NUMBER_OF_HANDS_DEFAULT,
            number_of_threads: NUMBER_OF_CORES_DEFAULT,
        }
    }
}

} // verus!
