use striker::arguments::arguments::Arguments;
use striker::arguments::parameters::Parameters;
use striker::cards::card::Card;
use striker::cards::rank::Rank;
use striker::cards::suit::Suit;
use striker::errors::StrikerError;
use striker::report::report::Report;
use striker::resources::rules_table::rules_table;
use striker::resources::single_deck_basic::single_deck_basic;
use striker::simulator::simulator::Simulator;
use striker::simulator::table::Table;
use striker::strategy::rules::Rules;
use striker::strategy::strategy::Strategy;

fn make_table() -> Table {
    let arguments = Arguments::default();
    let parameters = Parameters::new(&arguments);
    let rules = Rules::new();
    let strategy = Strategy::new();
    Table::new(parameters.clone(), rules.clone(), strategy.clone())
}

fn table_for(strategy_name: &str, decks: usize, hands: usize) -> Table {
    let mut arguments = Arguments::default();
    arguments.strategy = strategy_name.to_string();
    arguments.number_of_decks = decks;
    arguments.number_of_hands = hands;
    arguments.number_of_threads = 1;
    let parameters = Parameters::new(&arguments);
    let mut strategy = Strategy::new();
    let definition = single_deck_basic();
    strategy.init(&arguments, Some(&definition)).unwrap();
    Table::new(parameters, rules_table(), strategy)
}

fn advantage(report: &Report) -> f64 {
    report.total_won as f64 / report.total_bet as f64 * 100.0
}

#[test]
fn test_table_initialization() {
    let table = make_table();
    assert_eq!(table.report.total_hands, 0);
    assert!(table.up.is_none());
    assert!(table.down.is_none());
}

#[test]
fn test_deal_cards_sets_up_and_down() {
    let mut table = make_table();
    table.deal_cards().unwrap();
    assert!(table.up.is_some());
    assert!(table.down.is_some());
}

#[test]
fn test_show_card_updates_seen_cards() {
    let mut table = make_table();
    let card = Some(Card::new(Rank::Ten, Suit::Clubs));
    table.show_card(&card).unwrap();
    assert_eq!(table.player.seen_cards[10], 1);
    assert_eq!(table.player.seen_cards.iter().sum::<usize>(), 1);
}

#[test]
fn test_simulator_initialization() {
    let arguments = Arguments::default();
    let parameters = Parameters::new(&arguments);
    let rules = Rules::default();
    let strategy = Strategy::new();
    let _table = Table::new(parameters.clone(), rules.clone(), strategy.clone());
    let simulator = Simulator::new(parameters.clone(), rules.clone(), strategy.clone());
    assert_eq!(simulator.get_report().total_hands, 0);
}

#[test]
fn test_deal_cards_in_turn() {
    let mut table = make_table();
    let cards = table.shoe.cards.clone();
    table.deal_cards().unwrap();
    assert_eq!(table.player.wager.hand.cards, vec![cards[1], cards[3]]);
    assert_eq!(table.dealer.hand.cards, vec![cards[2], cards[4]]);
    assert_eq!(table.down, Some(cards[2]));
    assert_eq!(table.up, Some(cards[4]));
    assert_eq!(table.shoe.next_card, 5);
    // the player has seen every card but the hole card
    let mut seen = [0usize; 13];
    for card in [cards[1], cards[3], cards[4]] {
        seen[card.rank.value()] += 1;
    }
    assert_eq!(table.player.seen_cards, seen);
}

#[test]
fn test_play_hand_settles_the_hand() {
    for _ in 0..500 {
        let mut table = table_for("basic", 1, 100);
        assert_eq!(table.play_hand(false), Ok(()));
        let dealer = &table.dealer.hand;
        assert!(dealer.cards.len() >= 2);
        assert_eq!(table.down, Some(dealer.cards[0]));
        assert_eq!(table.up, Some(dealer.cards[1]));
        if dealer.cards.len() > 2 {
            assert!(table.dealer.should_stand());
        }
        if !dealer.is_blackjack() && !table.player.busted_or_blackjack() {
            assert!(table.dealer.should_stand());
        }
        let player = &table.player;
        let hands = player.splits.len() + 1;
        let report = &player.report;
        let natural = player.splits.is_empty()
            && player.wager.hand.is_blackjack()
            && !dealer.is_blackjack();
        assert_eq!(
            report.total_wins + report.total_loses + report.total_pushes,
            if natural { 0 } else { hands }
        );
        let mut cards = dealer.cards.len() + player.wager.hand.cards.len();
        for split in &player.splits {
            cards += split.hand.cards.len();
        }
        assert_eq!(player.seen_cards.iter().sum::<usize>(), cards);
        assert_eq!(table.shoe.next_card, 1 + cards);
        assert_eq!(table.report.total_hands, 0);
        // the report holds the sum of the bets and of what they won
        let mut bet = player.wager.amount_bet;
        let mut won = player.wager.amount_won;
        if player.splits.is_empty() {
            bet += player.wager.insurance_bet;
            won += player.wager.insurance_won;
        }
        for split in &player.splits {
            bet += split.amount_bet;
            won += split.amount_won;
        }
        assert_eq!(report.total_bet, bet);
        assert_eq!(report.total_won, won);
        assert_eq!(report.total_splits, player.splits.len());
        assert_eq!(report.total_blackjacks, if natural { 1 } else { 0 });
        assert!(player.wager.amount_bet == 2 || player.wager.amount_bet == 4);
        assert_eq!(report.total_doubles, if player.wager.amount_bet == 4 { 1 } else { 0 });
    }
}

#[test]
fn test_session_plays_the_share_of_hands() {
    let mut table = table_for("mimic", 1, 10_000);
    assert_eq!(table.parameters.share_of_hands, 10_000);
    assert_eq!(table.session(true), Ok(()));
    let report = table.get_report();
    assert_eq!(report.total_hands, 10_000);
    assert!(report.total_rounds >= 1);
    assert!(report.total_rounds <= report.total_hands);
    assert_eq!(report.total_shuffles, table.shoe.number_of_shuffles);
    assert_eq!(report.out_of_cards, table.shoe.out_of_cards);
    // the shoe was shuffled once when it was made, and then once a round
    // but for the first
    assert_eq!(report.total_shuffles, report.total_rounds + report.out_of_cards);
    assert_eq!(report.total_doubles, 0);
    assert_eq!(report.total_splits, 0);
    assert!(report.total_blackjacks > 0);
    assert_eq!(
        report.total_wins + report.total_loses + report.total_pushes + report.total_blackjacks,
        report.total_hands
    );
    assert_eq!(report.total_bet, 2 * report.total_hands);
    assert!(report.total_bet >= 2 * report.total_hands);
    // a second session has nothing left to play
    let cursor = table.shoe.next_card;
    let played = table.report.total_hands;
    assert_eq!(table.session(true), Ok(()));
    assert_eq!(table.shoe.next_card, cursor);
    assert!(table.report.total_hands >= played);
}

#[test]
fn test_session_with_an_early_cut_card_shuffles_before_every_hand() {
    let mut arguments = Arguments::default();
    arguments.number_of_hands = 50;
    arguments.number_of_threads = 1;
    let parameters = Parameters::new(&arguments);
    let mut rules = rules_table();
    rules.penetration = 0;
    let mut table = Table::new(parameters, rules, Strategy::new());
    assert_eq!(table.shoe.cut_card, 0);
    assert_eq!(table.session(true), Ok(()));
    assert_eq!(table.report.total_hands, 50);
    assert_eq!(table.report.total_rounds, 50);
}

#[test]
fn test_session_without_odds_for_a_natural_is_refused() {
    let mut arguments = Arguments::default();
    arguments.number_of_hands = 100_000;
    arguments.number_of_threads = 1;
    let parameters = Parameters::new(&arguments);
    let mut rules = rules_table();
    rules.blackjack_bets = 0;
    let mut table = Table::new(parameters, rules, Strategy::new());
    assert_eq!(table.session(true), Err(StrikerError::Configuration));
}

#[test]
fn test_session_with_empty_charts_is_a_lookup_error() {
    let mut arguments = Arguments::default();
    arguments.number_of_hands = 100_000;
    arguments.number_of_threads = 1;
    let parameters = Parameters::new(&arguments);
    let mut table = Table::new(parameters, rules_table(), Strategy::new());
    assert_eq!(table.session(false), Err(StrikerError::Lookup));
}

#[test]
fn test_mimic_single_deck_one_thread_a_million_hands() {
    let mut arguments = Arguments::default();
    arguments.number_of_hands = 1_000_000;
    arguments.number_of_threads = 1;
    let parameters = Parameters::new(&arguments);
    let simulator = Simulator::new(parameters, rules_table(), Strategy::new());
    let (simulator, done) = simulator.run_once();
    assert_eq!(done, Ok(()));
    let report = simulator.get_report();
    assert_eq!(report.total_hands, 1_000_000);
    let edge = advantage(report);
    assert!(edge > -9.0 && edge < -2.5, "advantage {}", edge);
}

#[test]
fn test_basic_strategy_session() {
    for decks in [1, 2, 6] {
        let mut table = table_for("basic", decks, 200_000);
        assert_eq!(table.shoe.number_of_cards, 52 * decks);
        assert_eq!(table.session(false), Ok(()));
        let report = table.get_report();
        assert_eq!(report.total_hands, 200_000);
        assert!(report.total_doubles > 0);
        assert!(report.total_splits > 0);
        assert!(report.total_splits_ace > 0);
        assert!(report.total_splits_ace < report.total_splits);
        // every hand that was dealt or made by a split was settled once
        assert_eq!(
            report.total_wins + report.total_loses + report.total_pushes + report.total_blackjacks,
            report.total_hands + report.total_splits
        );
        assert_eq!(report.total_shuffles, report.total_rounds + report.out_of_cards);
        assert!(report.total_bet >= 2 * (report.total_hands + report.total_splits));
        let edge = advantage(report);
        assert!(edge > -4.0 && edge < 3.0, "advantage {}", edge);
    }
}

#[test]
fn test_workers_merge_to_the_same_totals_in_any_order() {
    let mut reports = Vec::new();
    for _ in 0..3 {
        let mut table = table_for("basic", 1, 2_000);
        table.session(false).unwrap();
        reports.push(table.report.clone());
    }
    let mut forth = Report::new();
    for report in &reports {
        forth.merge(report);
    }
    let mut back = Report::new();
    for report in reports.iter().rev() {
        back.merge(report);
    }
    assert_eq!(forth.total_hands, 6_000);
    assert_eq!(forth.total_hands, back.total_hands);
    assert_eq!(forth.total_rounds, back.total_rounds);
    assert_eq!(forth.total_bet, back.total_bet);
    assert_eq!(forth.total_won, back.total_won);
    assert_eq!(forth.total_wins, back.total_wins);
    assert_eq!(forth.total_loses, back.total_loses);
    assert_eq!(forth.total_pushes, back.total_pushes);
    assert_eq!(forth.total_blackjacks, back.total_blackjacks);
    assert_eq!(forth.total_doubles, back.total_doubles);
    assert_eq!(forth.total_splits, back.total_splits);
    assert_eq!(forth.total_splits_ace, back.total_splits_ace);
    assert_eq!(forth.total_shuffles, back.total_shuffles);
    assert_eq!(forth.out_of_cards, back.out_of_cards);
}

#[test]
fn test_new_table_has_a_fresh_shoe() {
    for decks in [1, 2, 6] {
        let table = table_for("mimic", decks, 10);
        assert_eq!(table.shoe.next_card, table.shoe.burn_card);
        assert_eq!(table.shoe.next_card, 1);
        assert_eq!(table.shoe.last_discard, table.shoe.number_of_cards);
        assert!(!table.shoe.force_shuffle);
        assert_eq!(table.shoe.number_of_shuffles, 1);
        assert_eq!(table.shoe.out_of_cards, 0);
        assert_eq!(table.player.seen_cards, [0; 13]);
    }
}

#[test]
fn test_mimic_session_splits_and_doubles_nothing() {
    let mut table = table_for("mimic", 1, 20_000);
    assert_eq!(table.session(true), Ok(()));
    assert_eq!(table.report.total_splits, 0);
    assert_eq!(table.report.total_splits_ace, 0);
    assert_eq!(table.report.total_doubles, 0);
    assert!(table.report.total_rounds >= 1);
    assert!(table.report.total_shuffles >= 1 + table.report.out_of_cards);
}

#[test]
fn test_run_by_charts_comes_back_with_its_outcome() {
    let mut arguments = Arguments::default();
    arguments.strategy = "basic".to_string();
    arguments.number_of_hands = 5_000;
    arguments.number_of_threads = 1;
    let parameters = Parameters::new(&arguments);
    let mut strategy = Strategy::new();
    strategy.init(&arguments, Some(&single_deck_basic())).unwrap();
    let (simulator, done) = Simulator::new(parameters.clone(), rules_table(), strategy.clone()).run_once();
    assert_eq!(done, Ok(()));
    assert_eq!(simulator.get_report().total_hands, 5_000);
    assert_eq!(simulator.table.report.total_hands, 5_000);
    // a worker without room for a hand to be settled comes back as it stands
    let mut full = Simulator::new(parameters, rules_table(), strategy);
    full.table.player.report.total_bet = usize::MAX - 1;
    let (full, done) = full.run_once();
    assert_eq!(done, Err(StrikerError::Overflow));
    assert_eq!(full.get_report().total_hands, 0);
    assert_eq!(full.table.report.total_hands, 1);
    assert_eq!(full.table.player.report.total_bet, usize::MAX - 1);
}
