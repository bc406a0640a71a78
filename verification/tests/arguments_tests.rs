use striker::arguments::arguments::{ArgumentError, Arguments, Field, Parsed};
use striker::arguments::parameters::{Parameters, TimeStamp};
use striker::constants::constants::{
    DECKS_DOUBLE_DECK, DECKS_SINGLE_DECK, DECKS_SIX_SHOE, MILLION, NUMBER_OF_CORES_MAXIMUM,
    NUMBER_OF_CORES_MINIMUM, NUMBER_OF_HANDS_MAXIMUM, NUMBER_OF_HANDS_MINIMUM, STRATEGY_BASIC,
    STRATEGY_HIGH_LOW, STRATEGY_LINEAR, STRATEGY_MIMIC, STRATEGY_NEURAL, STRATEGY_POLYNOMIAL,
    STRATEGY_WONG,
};

fn run(args: &[&str]) -> Arguments {
    match Arguments::make_args(args) {
        Ok(Parsed::Run(arguments)) => arguments,
        other => panic!("{:?}", other),
    }
}

fn refused(args: &[&str]) -> ArgumentError {
    match Arguments::make_args(args) {
        Err(error) => error,
        other => panic!("{:?}", other),
    }
}

#[test]
fn test_help_flags() {
    assert!(matches!(Arguments::make_args(&["--help"]), Ok(Parsed::Help)));
}

#[test]
fn test_version_flags() {
    assert!(matches!(Arguments::make_args(&["--version"]), Ok(Parsed::Version)));
}

#[test]
fn test_print() {
    let args = Arguments::default();
    let parameters = Parameters::new(&args);
    println!("{:?}", parameters);
    assert_eq!(parameters.processor, "striker-rust");
    assert_eq!(parameters.playbook, "single-deck-mimic");
    assert_eq!(parameters.strategy, "mimic");
    assert_eq!(parameters.decks, "single-deck");
    assert_eq!(parameters.number_of_decks, 1);
    assert_eq!(parameters.number_of_hands, 500 * MILLION);
    assert_eq!(parameters.number_of_threads, 24);
    assert!(!parameters.verbose);
    assert!(parameters.name.starts_with("striker-rust_2"));
    assert_eq!(parameters.name.len(), "striker-rust_2024_03_07_001709800000".len());
}

#[test]
fn test_no_arguments_are_the_defaults() {
    let arguments = run(&[]);
    assert_eq!(arguments.strategy, STRATEGY_MIMIC);
    assert_eq!(arguments.decks, DECKS_SINGLE_DECK);
    assert_eq!(arguments.number_of_decks, 1);
    assert_eq!(arguments.number_of_hands, 500 * MILLION);
    assert_eq!(arguments.number_of_threads, 24);
    let empty = run(&["", ""]);
    assert_eq!(empty.strategy, STRATEGY_MIMIC);
}

#[test]
fn test_strategy_flags() {
    for (flag, alias, expected) in [
        ("--mimic", "-M", STRATEGY_MIMIC),
        ("--basic", "-B", STRATEGY_BASIC),
        ("--linear", "-L", STRATEGY_LINEAR),
        ("--polynomial", "-P", STRATEGY_POLYNOMIAL),
        ("--neural", "-N", STRATEGY_NEURAL),
        ("--high-low", "-H", STRATEGY_HIGH_LOW),
        ("--wong", "-W", STRATEGY_WONG),
    ] {
        assert_eq!(run(&[flag]).strategy, expected);
        assert_eq!(run(&[alias]).strategy, expected);
    }
}

#[test]
fn test_deck_flags() {
    for (flag, alias, expected, count) in [
        ("--single-deck", "-1", DECKS_SINGLE_DECK, 1),
        ("--double-deck", "-2", DECKS_DOUBLE_DECK, 2),
        ("--six-shoe", "-6", DECKS_SIX_SHOE, 6),
    ] {
        let arguments = run(&[flag]);
        assert_eq!(arguments.decks, expected);
        assert_eq!(arguments.number_of_decks, count);

        let arguments = run(&[alias]);
        assert_eq!(arguments.decks, expected);
        assert_eq!(arguments.number_of_decks, count);
    }
}

#[test]
fn test_number_of_hands() {
    for flag in ["--number-of-hands", "-h"] {
        let arguments = run(&[flag, &MILLION.to_string()]);
        assert_eq!(arguments.number_of_hands, MILLION);
    }
    assert_eq!(run(&["-h", "1,000,000"]).number_of_hands, MILLION);
    assert_eq!(run(&["-h", "+100"]).number_of_hands, 100);
    assert_eq!(run(&["-h", "10000000000"]).number_of_hands as u64, NUMBER_OF_HANDS_MAXIMUM);
}

#[test]
fn test_number_of_threads() {
    for flag in ["--number-of-threads", "-t"] {
        let arguments = run(&[flag, "2"]);
        assert_eq!(arguments.number_of_threads, 2);
    }
}

#[test]
fn test_arguments_panics() {
    let threads_above = (NUMBER_OF_CORES_MAXIMUM + 1).to_string();
    let threads_below = (NUMBER_OF_CORES_MINIMUM - 1).to_string();
    let hands_above = (NUMBER_OF_HANDS_MAXIMUM + 1).to_string();
    let hands_below = (NUMBER_OF_HANDS_MINIMUM - 1).to_string();
    for (flag, option, expected) in [
        ("--number-of-threads", "", ArgumentError::MissingValue(Field::NumberOfThreads)),
        ("--number-of-threads", "empty", ArgumentError::InvalidNumber(Field::NumberOfThreads)),
        ("--number-of-threads", threads_above.as_str(), ArgumentError::OutOfRange(Field::NumberOfThreads)),
        ("--number-of-threads", threads_below.as_str(), ArgumentError::OutOfRange(Field::NumberOfThreads)),
        ("--number-of-hands", "", ArgumentError::MissingValue(Field::NumberOfHands)),
        ("--number-of-hands", "empty", ArgumentError::InvalidNumber(Field::NumberOfHands)),
        ("--number-of-hands", hands_above.as_str(), ArgumentError::OutOfRange(Field::NumberOfHands)),
        ("--number-of-hands", hands_below.as_str(), ArgumentError::OutOfRange(Field::NumberOfHands)),
    ] {
        assert_eq!(refused(&[flag, option]), expected);
    }
    assert_eq!(refused(&["-t", "-2"]), ArgumentError::InvalidNumber(Field::NumberOfThreads));
    assert_eq!(refused(&["-t", ","]), ArgumentError::InvalidNumber(Field::NumberOfThreads));
    assert_eq!(
        refused(&["-h", "99999999999999999999999"]),
        ArgumentError::InvalidNumber(Field::NumberOfHands)
    );
    assert_eq!(Field::NumberOfHands.name(), "number of hands");
    assert_eq!(Field::NumberOfThreads.name(), "number of threads");
}

#[test]
fn test_unknown_arguments_are_refused() {
    assert_eq!(refused(&["--invalid-flag"]), ArgumentError::UnknownArgument);
    assert_eq!(refused(&["-M", "basic"]), ArgumentError::UnknownArgument);
    assert_eq!(refused(&["--MIMIC"]), ArgumentError::UnknownArgument);
}

#[test]
fn test_words_are_read_from_the_left() {
    let arguments = run(&["-B", "-6", "-t", "4", "-h", "2,000", "-W", "-2"]);
    assert_eq!(arguments.strategy, STRATEGY_WONG);
    assert_eq!(arguments.decks, DECKS_DOUBLE_DECK);
    assert_eq!(arguments.number_of_decks, 2);
    assert_eq!(arguments.number_of_threads, 4);
    assert_eq!(arguments.number_of_hands, 2000);
    // what comes first ends the reading
    assert!(matches!(Arguments::make_args(&["--help", "--bogus"]), Ok(Parsed::Help)));
    assert_eq!(refused(&["--bogus", "--help"]), ArgumentError::UnknownArgument);
    assert!(matches!(Arguments::make_args(&["-B", "--version", "-t"]), Ok(Parsed::Version)));
    // the number behind an option is not read as an option
    assert_eq!(refused(&["-t", "-B"]), ArgumentError::InvalidNumber(Field::NumberOfThreads));
    // the first word of a command line is the program's name
    let argv: Vec<String> = ["--help", "-B"].iter().map(|s| s.to_string()).collect();
    match Arguments::parse_args(&argv) {
        Ok(Parsed::Run(arguments)) => assert_eq!(arguments.strategy, STRATEGY_BASIC),
        other => panic!("{:?}", other),
    }
    assert_eq!(
        Arguments::parse_usize_arg(&argv, 0, 0, 10, Field::NumberOfHands),
        Err(ArgumentError::InvalidNumber(Field::NumberOfHands))
    );
    assert_eq!(
        Arguments::parse_usize_arg(&argv, 1, 0, 10, Field::NumberOfThreads),
        Err(ArgumentError::MissingValue(Field::NumberOfThreads))
    );
}

#[test]
fn test_parameters_of_a_run() {
    let mut arguments = Arguments::default();
    arguments.strategy = "basic".to_string();
    arguments.decks = "six-shoe".to_string();
    arguments.number_of_decks = 6;
    arguments.number_of_hands = 1_000_000;
    arguments.number_of_threads = 1;
    let now = TimeStamp {
        year: 2024,
        month: 3,
        day: 7,
        seconds: 1_709_800_000,
        epoch: "2024-03-07 08:26:40 +0000".to_string(),
    };
    let parameters = Parameters::at(&arguments, &now);
    assert_eq!(parameters.name, "striker-rust_2024_03_07_001709800000");
    assert_eq!(parameters.processor, "striker-rust");
    assert_eq!(parameters.playbook, "six-shoe-basic");
    assert_eq!(parameters.strategy, "basic");
    assert_eq!(parameters.decks, "six-shoe");
    assert_eq!(parameters.epoch, "2024-03-07 08:26:40 +0000");
    assert_eq!(parameters.number_of_decks, 6);
    assert_eq!(parameters.number_of_hands, 1_000_000);
    assert_eq!(parameters.share_of_hands, 1_000_000);
    assert_eq!(parameters.number_of_threads, 1);
    assert!(parameters.verbose);
}

#[test]
fn test_share_of_hands_is_rounded_up() {
    let now = TimeStamp { year: -5, month: 12, day: 31, seconds: -1, epoch: String::new() };
    let mut arguments = Arguments::default();
    for (hands, threads, share) in [
        (1_000_000, 1, 1_000_000),
        (1_000_000, 3, 333_334),
        (1_000_000, 4, 250_000),
        (100, 24, 5),
        (100, 0, 100),
        (0, 7, 0),
        (usize::MAX, 1, usize::MAX),
        (usize::MAX, 2, usize::MAX / 2 + 1),
    ] {
        arguments.number_of_hands = hands;
        arguments.number_of_threads = threads;
        let parameters = Parameters::at(&arguments, &now);
        assert_eq!(parameters.share_of_hands, share);
        assert_eq!(parameters.verbose, threads == 1);
        assert_eq!(parameters.name, "striker-rust_-005_12_31_-00000000001");
    }
}
