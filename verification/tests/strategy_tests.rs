use striker::arguments::arguments::Arguments;
use striker::cards::card::Card;
use striker::cards::rank::Rank;
use striker::cards::suit::Suit;
use striker::errors::StrikerError;
use striker::resources::single_deck_basic::single_deck_basic;
use striker::strategy::strategy::{
    parse_isize, resolve_code, strategy_load_table, Strategy, StrategyDefinition, TableRow,
};
use striker::strategy::chart::Chart;

fn mock_strategy() -> Strategy {
    let mut strategy = Strategy::new();
    let mut arguments = Arguments::default();

    arguments.strategy = "basic".to_string();
    strategy.init(&arguments, Some(&single_deck_basic())).unwrap();
    strategy
}

fn high_low() -> Strategy {
    let mut strategy = Strategy::new();
    strategy.counts = vec![0, 0, 1, 1, 1, 1, 1, 0, 0, 0, -1, -1];
    strategy
}

#[test]
fn test_get_true_count_nonzero_unseen() {
    let seen_cards = [0, 0, 2, 2, 2, 2, 2, 2, 2, 2, 8, 2];
    let strategy = Strategy::new();
    let running_count = strategy.get_running_count(&seen_cards).unwrap();
    let true_count = strategy.get_true_count(&seen_cards, running_count);
    assert_eq!(true_count, 0);
}

#[test]
fn test_process_value_yes_no() {
    let strategy = Strategy::new();
    assert!(strategy.process_value("yes", 3, false));
    assert!(!strategy.process_value("no", 3, true));
}

#[test]
fn test_process_value_threshold() {
    let strategy = Strategy::new();
    assert!(strategy.process_value("2", 3, false));
    assert!(!strategy.process_value("4", 3, false));
    assert!(strategy.process_value("r5", 3, false)); // reverse logic: true if TC <= 5
    assert!(!strategy.process_value("r1", 3, false));
}

#[test]
fn test_get_bet_base_case() {
    let strategy = Strategy::new();
    let seen_cards = [0, 0, 1, 1, 1, 1, 1, 1, 1, 1, 1, 1];
    assert_eq!(strategy.get_bet(&seen_cards), Ok(0));
}

#[test]
fn test_get_insurance() {
    let strategy = Strategy::new();
    let seen_cards = [0, 0, 1, 1, 1, 1, 1, 1, 1, 1, 1, 1];
    assert_eq!(strategy.get_insurance(&seen_cards), Ok(false));
}

#[test]
fn test_get_play_double() {
    let strategy = mock_strategy();
    let up = Card::new(Rank::Ten, Suit::Hearts);
    let seen_cards = [0, 0, 1, 1, 1, 1, 1, 1, 1, 1, 1, 1];
    assert_eq!(strategy.get_double(&seen_cards, 20, false, &up), Ok(false));
}

#[test]
fn test_get_play_split() {
    let strategy = mock_strategy();
    let up = Card::new(Rank::Ten, Suit::Hearts);
    let pair = Card::new(Rank::Ten, Suit::Hearts);
    let seen_cards = [0, 0, 1, 1, 1, 1, 1, 1, 1, 1, 1, 1];
    assert_eq!(strategy.get_split(&seen_cards, &pair, &up), Ok(false));
}

#[test]
fn test_get_play_stand() {
    let strategy = mock_strategy();
    let up = Card::new(Rank::Ten, Suit::Hearts);
    let seen_cards = [0, 0, 1, 1, 1, 1, 1, 1, 1, 1, 1, 1];
    assert_eq!(strategy.get_stand(&seen_cards, 20, false, &up), Ok(true));
}

#[test]
fn test_single_deck_basic_json_structure() {
    let val = single_deck_basic();

    assert_eq!(val.playbook, "single-deck-basic");
    assert_eq!(val.counts.len(), 10);
    assert_eq!(val.insurance, "N");

    fn cell<'a>(table: &'a [TableRow], key: &str, index: usize) -> &'a str {
        &table.iter().find(|row| row.key == key).unwrap().values[index]
    }

    // Soft double rule for 13 vs dealer 2 is "N", dealer 4 is "Y"
    assert_eq!(cell(&val.soft_double, "13", 0), "N");
    assert_eq!(cell(&val.soft_double, "13", 2), "Y");

    // Hard double rule for 10 vs dealer 7 is "Y"
    assert_eq!(cell(&val.hard_double, "10", 6), "Y");

    // Pair split rule for 8s vs dealer 9 is "Y"
    assert_eq!(cell(&val.pair_split, "8", 8), "Y");

    // Soft stand for 18 vs dealer 8 is "N"
    assert_eq!(cell(&val.soft_stand, "18", 7), "N");

    // Hard stand for 13 vs dealer 3 is "Y"
    assert_eq!(cell(&val.hard_stand, "13", 2), "Y");
}

#[test]
fn test_new_strategy_mimics_on_a_single_deck() {
    let strategy = Strategy::new();
    assert_eq!(strategy.playbook, "single-deck-mimic");
    assert_eq!(strategy.counts, vec![0; 12]);
    assert_eq!(strategy.insurance, "N");
    assert_eq!(strategy.number_of_cards, 52);
    assert_eq!(strategy.soft_double.name, "Soft Double");
    assert_eq!(strategy.hard_double.name, "Hard Double");
    assert_eq!(strategy.pair_split.name, "Pair Split");
    assert_eq!(strategy.soft_stand.name, "Soft Stand");
    assert_eq!(strategy.hard_stand.name, "Hard Stand");
    assert_eq!(strategy.hard_stand.next_row, 0);
}

#[test]
fn test_resolver_codes() {
    let strategy = Strategy::new();
    assert!(strategy.process_value("R5", 3, false));
    assert!(strategy.process_value("2", 3, false));
    assert!(!strategy.process_value("2", 1, true));
    for count in [-1000, -1, 0, 1, 1000] {
        for default in [false, true] {
            assert!(strategy.process_value("Y", count, default));
            assert!(strategy.process_value("yes", count, default));
            assert!(strategy.process_value("YES", count, default));
            assert!(strategy.process_value("Yes", count, default));
            assert!(!strategy.process_value("N", count, default));
            assert!(!strategy.process_value("no", count, default));
            assert!(!strategy.process_value("NO", count, default));
        }
    }
}

#[test]
fn test_resolver_thresholds_at_the_boundary() {
    assert!(resolve_code("3", 3, false));
    assert!(!resolve_code("3", 2, true));
    assert!(resolve_code("r3", 3, false));
    assert!(!resolve_code("r3", 4, true));
    assert!(resolve_code("-2", -2, false));
    assert!(!resolve_code("-2", -3, true));
    assert!(resolve_code("r-2", -2, false));
    assert!(!resolve_code("r-2", -1, true));
    assert!(resolve_code("+4", 4, false));
    assert!(resolve_code("007", 7, false));
}

#[test]
fn test_resolver_falls_back_on_the_default() {
    for default in [false, true] {
        assert_eq!(resolve_code("---", 0, default), default);
        assert_eq!(resolve_code("", 0, default), default);
        assert_eq!(resolve_code("r", 0, default), default);
        assert_eq!(resolve_code("rx", 0, default), default);
        assert_eq!(resolve_code("r 5", 0, default), default);
        assert_eq!(resolve_code("yeah", 0, default), default);
        assert_eq!(resolve_code("ye", 0, default), default);
        assert_eq!(resolve_code("nope", 0, default), default);
        assert_eq!(resolve_code("5x", 9, default), default);
        assert_eq!(resolve_code(" 5", 9, default), default);
        assert_eq!(resolve_code("-", 9, default), default);
        assert_eq!(resolve_code("+", 9, default), default);
        assert_eq!(resolve_code("99999999999999999999999999", 9, default), default);
        // the resolver takes lower case only
        assert_eq!(resolve_code("YES", 0, default), default);
        assert_eq!(resolve_code("R5", 0, default), default);
    }
}

#[test]
fn test_parse_isize_reads_what_the_standard_parser_reads() {
    for text in [
        "0", "7", "-7", "+7", "007", "-0", "", "-", "+", "7 ", " 7", "7a", "--7", "+-7", "1_000",
        "9223372036854775807", "9223372036854775808", "-9223372036854775808",
        "-9223372036854775809", "00000000000000000000000000000001", "٣",
    ] {
        assert_eq!(parse_isize(text), text.parse::<isize>().ok(), "{:?}", text);
    }
}

#[test]
fn test_running_count_is_the_weighted_sum() {
    let strategy = high_low();
    let seen = [0, 0, 1, 2, 0, 0, 3, 5, 0, 0, 4, 1, 0];
    assert_eq!(strategy.get_running_count(&seen), Ok(1 + 2 + 3 - 4 - 1));
    let none = [0usize; 13];
    assert_eq!(strategy.get_running_count(&none), Ok(0));
}

#[test]
fn test_true_count_is_per_half_deck_rounded_down() {
    let strategy = high_low();
    // 12 cards seen, 40 unseen: 3 * 26 / 40 = 1.95
    let seen = [0, 0, 3, 3, 0, 0, 3, 0, 0, 0, 3, 0, 0];
    assert_eq!(strategy.get_true_count(&seen, 3), 1);
    assert_eq!(strategy.get_true_count(&seen, -3), -2);
    assert_eq!(strategy.get_true_count(&seen, 0), 0);
    // 26 unseen: the true count is the running count
    let half = [0, 0, 6, 6, 6, 6, 2, 0, 0, 0, 0, 0, 0];
    assert_eq!(strategy.get_true_count(&half, 5), 5);
    assert_eq!(strategy.get_true_count(&half, -5), -5);
    // 13 unseen: twice the running count
    let most = [0, 0, 6, 6, 6, 6, 6, 6, 3, 0, 0, 0, 0];
    assert_eq!(strategy.get_true_count(&most, 4), 8);
    // a full deck unseen: half the running count, rounded down
    let none = [0usize; 13];
    assert_eq!(strategy.get_true_count(&none, 5), 2);
    assert_eq!(strategy.get_true_count(&none, -5), -3);
}

#[test]
fn test_true_count_is_zero_once_nothing_is_unseen() {
    let strategy = high_low();
    let all = [0, 0, 4, 4, 4, 4, 4, 4, 4, 4, 16, 4, 0];
    assert_eq!(strategy.get_true_count(&all, 7), 0);
    let more = [0, 0, 40, 4, 4, 4, 4, 4, 4, 4, 16, 4, 0];
    assert_eq!(strategy.get_true_count(&more, 7), 0);
    let far_more = [usize::MAX, usize::MAX, 0, 0, 0, 0, 0, 0, 0, 0, 0, 0, 0];
    assert_eq!(strategy.get_true_count(&far_more, 7), 0);
}

#[test]
fn test_true_count_stays_in_range() {
    let mut strategy = high_low();
    strategy.number_of_cards = 1;
    let none = [0usize; 13];
    assert_eq!(strategy.get_true_count(&none, isize::MAX), isize::MAX);
    assert_eq!(strategy.get_true_count(&none, isize::MIN), isize::MIN);
}

#[test]
fn test_bet_is_two_units_per_point_of_a_positive_count() {
    let strategy = high_low();
    // running count 6 with 26 unseen: true count 6
    let seen = [0, 0, 6, 6, 6, 6, 2, 0, 0, 0, 0, 0, 0];
    assert_eq!(strategy.get_running_count(&seen), Ok(26));
    assert_eq!(strategy.get_bet(&seen), Ok(52));
    // a negative count bets nothing
    let tens = [0, 0, 0, 0, 0, 0, 0, 0, 0, 0, 10, 0, 0];
    assert_eq!(strategy.get_running_count(&tens), Ok(-10));
    assert_eq!(strategy.get_bet(&tens), Ok(0));
}

#[test]
fn test_running_count_out_of_range_is_an_overflow() {
    let mut strategy = high_low();
    strategy.counts[2] = isize::MAX;
    let seen = [0, 0, 2, 0, 0, 0, 0, 0, 0, 0, 0, 0, 0];
    assert_eq!(strategy.get_running_count(&seen), Err(StrikerError::Overflow));
    assert_eq!(strategy.get_bet(&seen), Err(StrikerError::Overflow));
    assert_eq!(strategy.get_insurance(&seen), Err(StrikerError::Overflow));
    let huge = [0, 0, usize::MAX, 0, 0, 0, 0, 0, 0, 0, 0, 0, 0];
    assert_eq!(high_low().get_running_count(&huge), Err(StrikerError::Overflow));
}

#[test]
fn test_insurance_follows_its_code() {
    let mut strategy = high_low();
    strategy.insurance = "3".to_string();
    let seen = [0, 0, 6, 6, 6, 6, 2, 0, 0, 0, 0, 0, 0];
    assert_eq!(strategy.get_insurance(&seen), Ok(true));
    let none = [0usize; 13];
    assert_eq!(strategy.get_insurance(&none), Ok(false));
    strategy.insurance = "?".to_string();
    assert_eq!(strategy.get_insurance(&seen), Ok(false));
}

#[test]
fn test_missing_chart_row_is_a_lookup_error() {
    let strategy = Strategy::new();
    let up = Card::new(Rank::Ten, Suit::Hearts);
    let pair = Card::new(Rank::Eight, Suit::Hearts);
    let seen = [0usize; 13];
    assert_eq!(strategy.get_double(&seen, 11, false, &up), Err(StrikerError::Lookup));
    assert_eq!(strategy.get_split(&seen, &pair, &up), Err(StrikerError::Lookup));
    assert_eq!(strategy.get_stand(&seen, 16, true, &up), Err(StrikerError::Lookup));
    let basic = mock_strategy();
    assert_eq!(basic.get_stand(&seen, 22, false, &up), Err(StrikerError::Lookup));
    assert_eq!(basic.get_double(&seen, 11, true, &up), Err(StrikerError::Lookup));
}

#[test]
fn test_stand_defaults_to_yes_and_the_rest_to_no() {
    let mut strategy = Strategy::new();
    // rows whose cells were never filled hold a code that decides nothing
    strategy.hard_stand.insert("16", 2, "Y").unwrap();
    strategy.hard_double.insert("16", 2, "Y").unwrap();
    strategy.pair_split.insert("8", 2, "Y").unwrap();
    let up = Card::new(Rank::Ten, Suit::Hearts);
    let pair = Card::new(Rank::Eight, Suit::Hearts);
    let seen = [0usize; 13];
    assert_eq!(strategy.get_stand(&seen, 16, false, &up), Ok(true));
    assert_eq!(strategy.get_double(&seen, 16, false, &up), Ok(false));
    assert_eq!(strategy.get_split(&seen, &pair, &up), Ok(false));
}

#[test]
fn test_basic_strategy_decisions() {
    let strategy = mock_strategy();
    let seen = [0usize; 13];
    let six = Card::new(Rank::Six, Suit::Clubs);
    let ten = Card::new(Rank::King, Suit::Clubs);
    let ace = Card::new(Rank::Ace, Suit::Clubs);
    assert_eq!(strategy.get_double(&seen, 11, false, &ace), Ok(true));
    assert_eq!(strategy.get_double(&seen, 10, false, &ten), Ok(false));
    assert_eq!(strategy.get_double(&seen, 17, true, &six), Ok(true));
    assert_eq!(strategy.get_double(&seen, 17, false, &six), Ok(false));
    assert_eq!(strategy.get_split(&seen, &Card::new(Rank::Eight, Suit::Hearts), &ten), Ok(true));
    assert_eq!(strategy.get_split(&seen, &Card::new(Rank::Queen, Suit::Hearts), &six), Ok(false));
    assert_eq!(strategy.get_split(&seen, &Card::new(Rank::Ace, Suit::Hearts), &ace), Ok(true));
    assert_eq!(strategy.get_stand(&seen, 12, false, &six), Ok(true));
    assert_eq!(strategy.get_stand(&seen, 12, false, &ten), Ok(false));
    assert_eq!(strategy.get_stand(&seen, 18, true, &ten), Ok(false));
    assert_eq!(strategy.get_stand(&seen, 18, true, &six), Ok(true));
}

#[test]
fn test_init_for_mimic_needs_no_definition() {
    let mut strategy = Strategy::new();
    let mut arguments = Arguments::default();
    arguments.number_of_decks = 6;
    assert_eq!(strategy.init(&arguments, None), Ok(()));
    assert_eq!(strategy.number_of_cards, 312);
    assert_eq!(strategy.soft_double.next_row, 0);
    arguments.strategy = "MIMIC".to_string();
    assert_eq!(strategy.init(&arguments, None), Ok(()));
    assert!(!Strategy::uses_charts("Mimic"));
    assert!(Strategy::uses_charts("basic"));
}

#[test]
fn test_init_for_charts_takes_over_the_definition() {
    let strategy = mock_strategy();
    assert_eq!(strategy.playbook, "single-deck-basic");
    assert_eq!(strategy.insurance, "N");
    assert_eq!(strategy.counts, vec![0; 12]);
    assert_eq!(strategy.number_of_cards, 52);
    assert_eq!(strategy.soft_double.next_row, 10);
    assert_eq!(strategy.hard_double.next_row, 18);
    assert_eq!(strategy.pair_split.next_row, 10);
    assert_eq!(strategy.soft_stand.next_row, 10);
    assert_eq!(strategy.hard_stand.next_row, 18);
    assert_eq!(strategy.pair_split.get_value_by_key("9", 7), Ok("N"));
    assert_eq!(strategy.pair_split.get_value_by_key("9", 9), Ok("Y"));
    assert_eq!(strategy.pair_split.get_value_by_key("9", 2), Ok("Y"));
    assert_eq!(strategy.pair_split.get_value_by_key("9", 11), Ok("N"));
}

#[test]
fn test_weights_move_up_to_their_card_values() {
    let mut definition = single_deck_basic();
    definition.counts = vec![1, 1, 1, 1, 1, 0, 0, 0, -1, -1];
    definition.insurance = "r-1".to_string();
    let mut strategy = Strategy::new();
    assert_eq!(strategy.load(&definition), Ok(()));
    assert_eq!(strategy.counts, vec![0, 0, 1, 1, 1, 1, 1, 0, 0, 0, -1, -1]);
    assert_eq!(strategy.insurance, "r-1");
}

#[test]
fn test_refused_definitions() {
    let mut arguments = Arguments::default();
    arguments.strategy = "basic".to_string();
    // no definition for a strategy that plays by charts
    assert_eq!(Strategy::new().init(&arguments, None), Err(StrikerError::Configuration));
    // too few weights
    let mut short = single_deck_basic();
    short.counts.pop();
    assert_eq!(Strategy::new().load(&short), Err(StrikerError::Configuration));
    // a row with more codes than there are up-cards
    let mut wide = single_deck_basic();
    wide.soft_stand[3].values.push("Y".to_string());
    assert_eq!(Strategy::new().load(&wide), Err(StrikerError::Configuration));
    // more rows than a chart holds
    let mut tall = single_deck_basic();
    for i in 0..4 {
        tall.hard_stand.push(TableRow { key: format!("extra{}", i), values: vec![] });
    }
    assert_eq!(Strategy::new().load(&tall), Ok(()));
    for i in 0..4 {
        tall.hard_stand[18 + i].values.push("Y".to_string());
    }
    assert_eq!(Strategy::new().load(&tall), Err(StrikerError::Configuration));
    let ok: StrategyDefinition = single_deck_basic();
    assert_eq!(Strategy::new().load(&ok), Ok(()));
}

#[test]
fn test_load_table_puts_codes_at_their_up_card_values() {
    let mut chart = Chart::new("Loaded");
    let table = vec![
        TableRow {
            key: "a,7".to_string(),
            values: ["h", "s", "d"].iter().map(|v| v.to_string()).collect(),
        },
        TableRow { key: "9".to_string(), values: vec!["r2".to_string()] },
    ];
    assert_eq!(strategy_load_table(&table, &mut chart), Ok(()));
    assert_eq!(chart.next_row, 2);
    assert_eq!(chart.get_value_by_key("A,7", 2), Ok("H"));
    assert_eq!(chart.get_value_by_key("A,7", 3), Ok("S"));
    assert_eq!(chart.get_value_by_key("A,7", 4), Ok("D"));
    assert_eq!(chart.get_value_by_key("A,7", 5), Ok("---"));
    assert_eq!(chart.get_value_by_key("9", 2), Ok("R2"));
}
