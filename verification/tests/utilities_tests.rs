use striker::errors::StrikerError;
use striker::resources::rules_table::rules_table;
use striker::strategy::rules::Rules;
use striker::utilities::utilities::{drop_char, parse_usize, strip_quotes, to_decimal, to_padded};

#[test]
fn test_strip_quotes() {
    assert_eq!(strip_quotes("\"hello\""), "hello");
    assert_eq!(strip_quotes("hello"), "hello");
    assert_eq!(strip_quotes("\"123\""), "123");
}

#[test]
fn test_rules_json_contents() {
    let rules = rules_table();
    assert_eq!(rules.playbook, "single-deck");
    assert_eq!(rules.hit_soft_17, true);
    assert_eq!(rules.surrender, false);
    assert_eq!(rules.double_any_two_cards, true);
    assert_eq!(rules.double_after_split, false);
    assert_eq!(rules.resplit_aces, false);
    assert_eq!(rules.hit_split_aces, false);
    assert_eq!(rules.blackjack_bets, 2);
    assert_eq!(rules.blackjack_pays, 3);
    let penetration = rules.penetration as f64 / 1000.0;
    assert!((penetration - 0.75).abs() < 1e-6);
}

#[test]
fn test_blank_rules() {
    for rules in [Rules::new(), Rules::default()] {
        assert_eq!(rules.playbook, "");
        assert!(!rules.hit_soft_17);
        assert!(!rules.surrender);
        assert!(!rules.double_any_two_cards);
        assert!(!rules.double_after_split);
        assert!(!rules.resplit_aces);
        assert!(!rules.hit_split_aces);
        assert_eq!(rules.blackjack_bets, 0);
        assert_eq!(rules.blackjack_pays, 0);
        assert_eq!(rules.penetration, 0);
    }
}

fn std_strip_quotes(input: &str) -> String {
    input.trim_matches('"').replace("\\n", "").replace("\\", "")
}

#[test]
fn test_strip_quotes_lays_an_escaped_text_bare() {
    for input in [
        "",
        "\"",
        "\"\"",
        "\"\"\"a\"\"",
        "a\"b",
        "\"{\\\"playbook\\\": \\\"single-deck\\\",\\n \\\"hitSoft17\\\": true}\\n\"",
        "\\",
        "\\n",
        "\\\\n",
        "\\n\\n\\",
        "n\\",
        "a\\nb\\tc",
        "\\\"",
        "\"\\\"",
        "line\nbreak",
        "ünï\\ncödé \"quoted\"",
    ] {
        assert_eq!(strip_quotes(input), std_strip_quotes(input), "{:?}", input);
    }
    assert_eq!(strip_quotes("\"a\\nb\\\\c\\\"d\""), "abc\"d");
}

#[test]
fn test_numbers_in_decimal() {
    for n in [0u64, 1, 9, 10, 11, 99, 100, 101, 12345, 1_000_000, u64::MAX] {
        assert_eq!(to_decimal(n), n.to_string());
    }
    assert_eq!(to_padded(7, 4), "0007");
    assert_eq!(to_padded(2024, 4), "2024");
    assert_eq!(to_padded(12345, 4), "12345");
    assert_eq!(to_padded(-5, 4), "-005");
    assert_eq!(to_padded(-12345, 4), "-12345");
    assert_eq!(to_padded(0, 0), "0");
    assert_eq!(to_padded(0, 2), "00");
    assert_eq!(to_padded(1709800000, 12), "001709800000");
    for (n, width) in [(i64::MIN, 3usize), (i64::MAX, 25), (-1, 1), (-1, 2), (-1, 0), (42, 1)] {
        assert_eq!(to_padded(n, width), format!("{:0width$}", n, width = width));
    }
}

#[test]
fn test_counts_are_read_as_the_standard_parser_reads_them() {
    for text in [
        "0", "7", "+7", "-7", "007", "", "+", "-", " 7", "7 ", "7a", "1,000",
        "18446744073709551615", "18446744073709551616", "000018446744073709551615", "++7",
    ] {
        assert_eq!(parse_usize(text), text.parse::<usize>().ok(), "{:?}", text);
    }
    assert_eq!(drop_char("1,000,000", ','), "1000000");
    assert_eq!(drop_char(",,", ','), "");
    assert_eq!(drop_char("abc", ','), "abc");
}

#[test]
fn test_error_messages() {
    assert_eq!(StrikerError::InvalidOperation.message(), "Error: Trying to split a non-pair");
    let all = [
        StrikerError::Configuration,
        StrikerError::Lookup,
        StrikerError::InvalidOperation,
        StrikerError::Overflow,
    ];
    for (i, a) in all.iter().enumerate() {
        assert!(a.message().starts_with("Error: "));
        for b in &all[i + 1..] {
            assert_ne!(a.message(), b.message());
        }
    }
}
