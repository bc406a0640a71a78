use striker::cards::card::Card;
use striker::cards::rank::Rank;
use striker::cards::shoe::Shoe;
use striker::cards::suit::Suit;
use striker::constants::constants::MINIMUM_BET;
use striker::arguments::arguments::Arguments;
use striker::errors::StrikerError;
use striker::player::payoff::{outcome_of, Outcome};
use striker::player::player::{Move, Player};
use striker::resources::rules_table::rules_table;
use striker::resources::single_deck_basic::single_deck_basic;
use striker::strategy::rules::Rules;
use striker::strategy::strategy::Strategy;
use striker::cards::hand::Hand;

fn card(rank: Rank) -> Card {
    Card::new(rank, Suit::Hearts)
}

fn hand(ranks: &[Rank]) -> Hand {
    let mut hand = Hand::new();
    for rank in ranks {
        hand.draw_card(Some(card(*rank)));
    }
    hand
}

fn mock_player() -> Player {
    let rules = Rules::default();
    let strategy = Strategy::new();
    let mut player = Player::new(rules, strategy);

    player.place_bet(true).unwrap();
    player.wager.hand.draw_card(Some(Card::new(Rank::Ten, Suit::Hearts)));
    player.wager.hand.draw_card(Some(Card::new(Rank::Ten, Suit::Hearts)));

    player
}

fn basic_player(ranks: &[Rank]) -> Player {
    let mut strategy = Strategy::new();
    let mut arguments = Arguments::default();
    arguments.strategy = "basic".to_string();
    strategy.init(&arguments, Some(&single_deck_basic())).unwrap();
    let mut player = Player::new(rules_table(), strategy);
    player.place_bet(false).unwrap();
    for rank in ranks {
        player.draw_card(Some(card(*rank))).unwrap();
    }
    player
}

#[test]
fn test_place_bet_mimic() {
    let rules = Rules::default();
    let mut strategy = Strategy::new();
    strategy.init(&Arguments::default(), None).unwrap();
    let mut player = Player::new(rules, strategy);

    player.place_bet(true).unwrap();
    assert_eq!(player.wager.amount_bet, MINIMUM_BET);
}

#[test]
fn test_play_mimic() {
    let rules = Rules::default();
    let strategy = Strategy::new();
    let mut player = Player::new(rules, strategy);

    player.place_bet(true).unwrap();
    player.wager.hand.draw_card(Some(Card::new(Rank::Ace, Suit::Hearts)));
    player.wager.hand.draw_card(Some(Card::new(Rank::Six, Suit::Hearts)));
    assert!(!player.mimic_stand());

    player.wager.hand.draw_card(Some(Card::new(Rank::Ten, Suit::Hearts)));
    assert!(player.mimic_stand());
}

#[test]
fn test_payoff_player_busted() {
    let mut player = mock_player();

    player.wager.hand.draw_card(Some(Card::new(Rank::Ten, Suit::Hearts)));
    player.payoff(false, false, 21).unwrap();

    assert_eq!(player.wager.amount_won, -(player.wager.amount_bet as isize));
}

#[test]
fn test_payoff_dealer_busted() {
    let mut player = mock_player();
    player.payoff(false, true, 22).unwrap();

    assert_eq!(player.wager.amount_won, player.wager.amount_bet as isize);
}

#[test]
fn test_payoff_dealer_blackjack() {
    let mut player = mock_player();
    player.payoff(true, false, 21).unwrap();

    assert_eq!(player.wager.amount_won, -(player.wager.amount_bet as isize));
}

#[test]
fn test_payoff_dealer_21() {
    let mut player = mock_player();
    player.payoff(false, false, 21).unwrap();
    assert_eq!(player.wager.amount_won, -2);
    assert_eq!(player.report.total_loses, 1);
}

#[test]
fn test_payoff_dealer_20() {
    let mut player = mock_player();
    player.payoff(false, false, 20).unwrap();
    assert_eq!(player.wager.amount_won, 0);
    assert_eq!(player.report.total_pushes, 1);
}

#[test]
fn test_payoff_dealer_19() {
    let mut player = mock_player();
    player.payoff(false, false, 19).unwrap();
    assert_eq!(player.wager.amount_won, 2);
    assert_eq!(player.report.total_wins, 1);
    assert_eq!(player.report.total_bet, 2);
    assert_eq!(player.report.total_won, 2);
}

#[test]
fn test_outcomes() {
    let twenty = hand(&[Rank::Ten, Rank::King]);
    let natural = hand(&[Rank::Ace, Rank::King]);
    let busted = hand(&[Rank::Ten, Rank::King, Rank::Two]);
    let three_card_21 = hand(&[Rank::Seven, Rank::Seven, Rank::Seven]);
    // against a dealer's blackjack
    assert_eq!(outcome_of(&natural, true, true, false, 21), Outcome::Push);
    assert_eq!(outcome_of(&twenty, true, true, false, 21), Outcome::Loss);
    assert_eq!(outcome_of(&three_card_21, true, true, false, 21), Outcome::Loss);
    // a natural against anything else
    assert_eq!(outcome_of(&natural, true, false, false, 21), Outcome::Blackjack);
    assert_eq!(outcome_of(&natural, true, false, true, 25), Outcome::Blackjack);
    // a hand after a split is never a natural
    assert_eq!(outcome_of(&natural, false, false, false, 21), Outcome::Push);
    assert_eq!(outcome_of(&natural, false, false, false, 20), Outcome::Win);
    // a busted hand loses even where the dealer is busted too
    assert_eq!(outcome_of(&busted, true, false, true, 26), Outcome::Loss);
    assert_eq!(outcome_of(&twenty, true, false, true, 26), Outcome::Win);
    assert_eq!(outcome_of(&twenty, true, false, false, 19), Outcome::Win);
    assert_eq!(outcome_of(&twenty, true, false, false, 20), Outcome::Push);
    assert_eq!(outcome_of(&twenty, true, false, false, 21), Outcome::Loss);
}

#[test]
fn test_payoff_natural_at_three_to_two() {
    let mut player = Player::new(rules_table(), Strategy::new());
    player.place_bet(true).unwrap();
    player.draw_card(Some(card(Rank::Ace))).unwrap();
    player.draw_card(Some(card(Rank::Queen))).unwrap();
    assert_eq!(player.payoff(false, false, 20), Ok(()));
    assert_eq!(player.wager.amount_won, 3);
    assert_eq!(player.report.total_bet, 2);
    assert_eq!(player.report.total_won, 3);
    assert_eq!(player.report.total_wins, 0);
    assert_eq!(player.report.total_loses, 0);
    assert_eq!(player.report.total_pushes, 0);
}

#[test]
fn test_payoff_natural_without_odds_is_refused() {
    let mut player = Player::new(Rules::default(), Strategy::new());
    player.place_bet(true).unwrap();
    player.draw_card(Some(card(Rank::Ace))).unwrap();
    player.draw_card(Some(card(Rank::Queen))).unwrap();
    assert_eq!(player.payoff(false, false, 20), Err(StrikerError::Configuration));
    assert_eq!(player.report.total_bet, 0);
    assert_eq!(player.wager.amount_won, 0);
    // against a dealer's blackjack no odds are needed
    assert_eq!(player.payoff(true, false, 21), Ok(()));
    assert_eq!(player.report.total_pushes, 1);
}

#[test]
fn test_payoff_with_insurance() {
    let mut won = mock_player();
    won.wager.place_bet(10);
    won.wager.hand.draw_card(Some(card(Rank::Ten)));
    won.wager.hand.draw_card(Some(card(Rank::Nine)));
    won.wager.place_insurance_bet();
    assert_eq!(won.payoff(true, false, 21), Ok(()));
    assert_eq!(won.wager.insurance_won, 10);
    assert_eq!(won.wager.amount_won, -10);
    assert_eq!(won.report.total_bet, 15);
    assert_eq!(won.report.total_won, 0);
    assert_eq!(won.report.total_loses, 1);

    let mut lost = mock_player();
    lost.wager.place_bet(10);
    lost.wager.hand.draw_card(Some(card(Rank::Ten)));
    lost.wager.hand.draw_card(Some(card(Rank::Nine)));
    lost.wager.place_insurance_bet();
    assert_eq!(lost.payoff(false, false, 18), Ok(()));
    assert_eq!(lost.wager.insurance_won, -5);
    assert_eq!(lost.wager.amount_won, 10);
    assert_eq!(lost.report.total_bet, 15);
    assert_eq!(lost.report.total_won, 5);
    assert_eq!(lost.report.total_wins, 1);
}

#[test]
fn test_payoff_counter_out_of_range_is_an_overflow() {
    let mut player = mock_player();
    player.report.total_bet = usize::MAX - 1;
    assert_eq!(player.payoff(false, false, 19), Err(StrikerError::Overflow));
    assert_eq!(player.report.total_bet, usize::MAX - 1);
    assert_eq!(player.report.total_wins, 0);
    assert_eq!(player.wager.amount_won, 0);
    player.report.total_bet = usize::MAX - 2;
    assert_eq!(player.payoff(false, false, 19), Ok(()));
    assert_eq!(player.report.total_bet, usize::MAX);
}

#[test]
fn test_payoff_after_a_split_settles_every_hand() {
    let up = card(Rank::Six);
    let mut shoe = Shoe::new(1, 750);
    let mut player = basic_player(&[Rank::Eight, Rank::Eight]);
    assert_eq!(player.first_move(&up, false), Ok(Move::Split));
    assert_eq!(player.play(&up, &mut shoe, false), Ok(()));
    let hands = player.splits.len() + 1;
    assert!(hands >= 2);
    assert_eq!(player.report.total_splits, hands - 1);
    assert_eq!(player.report.total_splits_ace, 0);
    assert_eq!(player.payoff(false, true, 25), Ok(()));
    assert_eq!(
        player.report.total_wins + player.report.total_loses + player.report.total_pushes,
        hands
    );
    let mut bet = player.wager.amount_bet;
    let mut won = player.wager.amount_won;
    for split in &player.splits {
        assert_eq!(split.amount_bet, player.wager.amount_bet);
        assert!(split.hand.cards.len() >= 2);
        assert_eq!(split.hand.cards[0].rank, Rank::Eight);
        bet += split.amount_bet;
        won += split.amount_won;
        if split.hand.is_busted() {
            assert_eq!(split.amount_won, -(split.amount_bet as isize));
        } else {
            assert_eq!(split.amount_won, split.amount_bet as isize);
        }
    }
    assert_eq!(player.report.total_bet, bet);
    assert_eq!(player.report.total_won, won);
}

#[test]
fn test_busted_or_blackjack() {
    let mut player = mock_player();
    assert!(!player.busted_or_blackjack());
    player.wager.hand.draw_card(Some(card(Rank::Five)));
    assert!(player.busted_or_blackjack());
    let mut natural = Player::new(Rules::default(), Strategy::new());
    natural.draw_card(Some(card(Rank::Ace))).unwrap();
    natural.draw_card(Some(card(Rank::Jack))).unwrap();
    assert!(natural.busted_or_blackjack());
    // after a split a hand is live unless it is busted
    let mut split = mock_player();
    let mut second = split.wager.clone();
    second.hand.draw_card(Some(card(Rank::Five)));
    split.splits.push(second);
    assert!(!split.busted_or_blackjack());
    split.wager.hand.draw_card(Some(card(Rank::Five)));
    assert!(split.busted_or_blackjack());
    split.splits[0].hand.reset();
    assert!(!split.busted_or_blackjack());
}

#[test]
fn test_cards_are_counted_as_seen() {
    let mut player = Player::new(Rules::default(), Strategy::new());
    player.draw_card(Some(card(Rank::Ace))).unwrap();
    player.draw_card(Some(card(Rank::King))).unwrap();
    player.show_card(&Some(card(Rank::Ten))).unwrap();
    player.show_card(&Some(card(Rank::Two))).unwrap();
    player.show_card(&None).unwrap();
    assert_eq!(player.seen_cards, [0, 0, 1, 0, 0, 0, 0, 0, 0, 0, 2, 1, 0]);
    assert_eq!(player.wager.hand.cards.len(), 2);
    player.seen_cards[2] = usize::MAX;
    assert_eq!(player.show_card(&Some(card(Rank::Two))), Err(StrikerError::Overflow));
    assert_eq!(player.draw_card(Some(card(Rank::Two))), Err(StrikerError::Overflow));
    assert_eq!(player.wager.hand.cards.len(), 2);
    player.shuffle();
    assert_eq!(player.seen_cards, [0; 13]);
}

#[test]
fn test_place_bet_by_the_count() {
    let mut strategy = Strategy::new();
    strategy.counts = vec![0, 0, 1, 1, 1, 1, 1, 0, 0, 0, -1, -1];
    let mut player = Player::new(Rules::default(), strategy);
    // running count 26 with 26 unseen: count 26, bet 52, at most 20
    player.seen_cards = [0, 0, 6, 6, 6, 6, 2, 0, 0, 0, 0, 0, 0];
    player.splits.push(player.wager.clone());
    player.place_bet(false).unwrap();
    assert_eq!(player.wager.amount_bet, 20);
    assert!(player.splits.is_empty());
    // running count 9 with 43 unseen: 9 * 26 / 43 = 5.4, count 5, bet 10
    player.seen_cards = [0, 0, 3, 3, 0, 0, 3, 0, 0, 0, 0, 0, 0];
    player.place_bet(false).unwrap();
    assert_eq!(player.wager.amount_bet, 10);
    // running count 6 with 40 unseen: 6 * 26 / 40 = 3.9, count 3, bet 6
    player.seen_cards = [0, 0, 3, 3, 0, 0, 3, 0, 0, 0, 3, 0, 0];
    player.place_bet(false).unwrap();
    assert_eq!(player.wager.amount_bet, 6);
    // a count of zero bets the minimum
    player.seen_cards = [0; 13];
    player.place_bet(false).unwrap();
    assert_eq!(player.wager.amount_bet, 2);
}

#[test]
fn test_insurance_by_the_strategy() {
    let mut strategy = Strategy::new();
    strategy.insurance = "Y".to_string();
    let mut player = Player::new(Rules::default(), strategy);
    player.wager.place_bet(10);
    assert_eq!(player.insurance(), Ok(()));
    assert_eq!(player.wager.insurance_bet, 5);
    let mut never = Player::new(Rules::default(), Strategy::new());
    never.wager.place_bet(10);
    assert_eq!(never.insurance(), Ok(()));
    assert_eq!(never.wager.insurance_bet, 0);
}

#[test]
fn test_play_natural_is_counted_and_not_played() {
    let up = card(Rank::Six);
    let mut shoe = Shoe::new(1, 750);
    let before = shoe.clone();
    let mut player = basic_player(&[Rank::Ace, Rank::King]);
    assert_eq!(player.first_move(&up, false), Ok(Move::Natural));
    assert_eq!(player.play(&up, &mut shoe, false), Ok(()));
    assert_eq!(player.report.total_blackjacks, 1);
    assert_eq!(player.wager.hand.cards.len(), 2);
    assert!(shoe == before);
}

#[test]
fn test_play_mimic_draws_like_the_dealer() {
    let up = card(Rank::Six);
    for _ in 0..200 {
        let mut shoe = Shoe::new(1, 750);
        let mut player = Player::new(Rules::default(), Strategy::new());
        player.place_bet(true).unwrap();
        player.draw_card(Some(card(Rank::Two))).unwrap();
        player.draw_card(Some(card(Rank::Three))).unwrap();
        assert_eq!(player.first_move(&up, true), Ok(Move::Mimic));
        assert_eq!(player.play(&up, &mut shoe, true), Ok(()));
        assert!(player.mimic_stand());
        assert!(player.wager.hand.total >= 17);
        assert!(player.wager.hand.cards.len() >= 3);
        assert_eq!(player.wager.amount_bet, 2);
        assert!(player.splits.is_empty());
        let seen: usize = player.seen_cards.iter().sum();
        assert_eq!(seen, player.wager.hand.cards.len());
        assert_eq!(shoe.next_card, 1 + player.wager.hand.cards.len() - 2);
        // without the last card the hand did not stand
        let mut shorter = Hand::new();
        for c in &player.wager.hand.cards[..player.wager.hand.cards.len() - 1] {
            shorter.draw_card(Some(*c));
        }
        assert!(shorter.total < 17 || shorter.is_soft_17());
    }
}

#[test]
fn test_play_double_takes_exactly_one_card() {
    let up = card(Rank::Six);
    let mut shoe = Shoe::new(1, 750);
    let mut player = basic_player(&[Rank::Six, Rank::Five]);
    let bet = player.wager.amount_bet;
    assert_eq!(player.first_move(&up, false), Ok(Move::Double));
    assert_eq!(player.play(&up, &mut shoe, false), Ok(()));
    assert_eq!(player.wager.amount_bet, 2 * bet);
    assert_eq!(player.wager.hand.cards.len(), 3);
    assert_eq!(player.report.total_doubles, 1);
    assert!(player.splits.is_empty());
    assert_eq!(shoe.next_card, 2);
}

#[test]
fn test_play_hit_until_stand_or_bust() {
    let up = card(Rank::Ten);
    for _ in 0..200 {
        let mut shoe = Shoe::new(1, 750);
        let mut player = basic_player(&[Rank::Ten, Rank::Two]);
        assert_eq!(player.first_move(&up, false), Ok(Move::Hit));
        assert_eq!(player.play(&up, &mut shoe, false), Ok(()));
        let hand = &player.wager.hand;
        assert!(hand.cards.len() >= 3);
        assert!(hand.is_busted() || hand.total >= 17);
        assert!(
            hand.is_busted()
                || player.strategy.get_stand(&player.seen_cards, hand.total, hand.is_soft(), &up)
                    == Ok(true)
        );
        assert_eq!(player.report.total_doubles, 0);
        assert_eq!(player.wager.amount_bet, 2);
    }
    // a hand on which the strategy stands is not touched
    let mut shoe = Shoe::new(1, 750);
    let mut standing = basic_player(&[Rank::Ten, Rank::Seven]);
    assert_eq!(standing.play(&up, &mut shoe, false), Ok(()));
    assert_eq!(standing.wager.hand.cards.len(), 2);
    assert_eq!(shoe.next_card, 1);
}

#[test]
fn test_play_splits_aces_once_with_one_card_each() {
    let up = card(Rank::Six);
    for _ in 0..50 {
        let mut shoe = Shoe::new(1, 750);
        let mut player = basic_player(&[Rank::Ace, Rank::Ace]);
        assert_eq!(player.first_move(&up, false), Ok(Move::Split));
        assert_eq!(player.play(&up, &mut shoe, false), Ok(()));
        assert_eq!(player.splits.len(), 1);
        assert_eq!(player.wager.hand.cards.len(), 2);
        assert_eq!(player.splits[0].hand.cards.len(), 2);
        assert_eq!(player.wager.hand.cards[0].rank, Rank::Ace);
        assert_eq!(player.splits[0].hand.cards[0].rank, Rank::Ace);
        assert_eq!(player.splits[0].amount_bet, player.wager.amount_bet);
        assert_eq!(player.report.total_splits, 1);
        assert_eq!(player.report.total_splits_ace, 1);
        assert_eq!(shoe.next_card, 3);
        let seen: usize = player.seen_cards.iter().sum();
        assert_eq!(seen, 4);
    }
}

#[test]
fn test_play_splits_pairs_again() {
    let up = card(Rank::Six);
    let mut resplit = false;
    for _ in 0..300 {
        let mut shoe = Shoe::new(6, 750);
        let mut player = basic_player(&[Rank::Eight, Rank::Eight]);
        assert_eq!(player.play(&up, &mut shoe, false), Ok(()));
        assert!(!player.splits.is_empty());
        assert_eq!(player.report.total_splits, player.splits.len());
        let mut cards = player.wager.hand.cards.len();
        for split in &player.splits {
            cards += split.hand.cards.len();
            assert_eq!(split.hand.cards[0].rank, Rank::Eight);
            assert!(split.hand.cards.len() >= 2);
        }
        let seen: usize = player.seen_cards.iter().sum();
        assert_eq!(seen, cards);
        if player.splits.len() > 1 {
            resplit = true;
        }
    }
    assert!(resplit);
}

#[test]
fn test_play_without_a_chart_row_is_a_lookup_error() {
    let up = card(Rank::Six);
    let mut shoe = Shoe::new(1, 750);
    let before = shoe.clone();
    let mut player = Player::new(Rules::default(), Strategy::new());
    player.place_bet(true).unwrap();
    player.draw_card(Some(card(Rank::Ten))).unwrap();
    player.draw_card(Some(card(Rank::Six))).unwrap();
    assert_eq!(player.first_move(&up, false), Err(StrikerError::Lookup));
    assert_eq!(player.play(&up, &mut shoe, false), Err(StrikerError::Lookup));
    assert_eq!(player.wager.hand.cards.len(), 2);
    assert!(shoe == before);
}

#[test]
fn test_play_split_on_a_hand_of_its_own() {
    let up = card(Rank::Ten);
    let mut shoe = Shoe::new(1, 750);
    let mut player = basic_player(&[Rank::Ten, Rank::Seven]);
    let mut other = player.wager.clone();
    other.hand.reset();
    other.hand.draw_card(Some(card(Rank::Ten)));
    other.hand.draw_card(Some(card(Rank::Three)));
    assert_eq!(player.play_split(&mut other, &mut shoe, &up), Ok(()));
    assert!(other.hand.cards.len() >= 3);
    assert!(other.hand.is_busted() || other.hand.total >= 17);
    assert!(player.splits.is_empty());
    assert_eq!(player.wager.hand.cards.len(), 2);
    assert_eq!(player.report.total_splits, 0);
    assert_eq!(player.get_report().total_splits, 0);
}

#[test]
fn test_mimic_hand_takes_the_cards_of_the_shoe_in_order() {
    let up = card(Rank::Six);
    for _ in 0..200 {
        let mut shoe = Shoe::new(1, 750);
        let order = shoe.cards.clone();
        let mut player = Player::new(Rules::default(), Strategy::new());
        player.place_bet(true).unwrap();
        player.draw_card(Some(card(Rank::Two))).unwrap();
        player.draw_card(Some(card(Rank::Three))).unwrap();
        let seen_before = player.seen_cards;
        assert_eq!(player.play(&up, &mut shoe, true), Ok(()));
        let drawn = &player.wager.hand.cards[2..];
        assert_eq!(drawn, &order[1..1 + drawn.len()]);
        assert_eq!(shoe.next_card, 1 + drawn.len());
        assert_eq!(shoe.cards, order);
        let mut seen = seen_before;
        for c in drawn {
            seen[c.rank.value()] += 1;
        }
        assert_eq!(player.seen_cards, seen);
    }
}

#[test]
fn test_hit_hand_takes_the_cards_of_the_shoe_while_the_strategy_says_hit() {
    let up = card(Rank::Ten);
    for _ in 0..200 {
        let mut shoe = Shoe::new(1, 750);
        let order = shoe.cards.clone();
        let mut player = basic_player(&[Rank::Five, Rank::Three]);
        let seen_before = player.seen_cards;
        assert_eq!(player.play(&up, &mut shoe, false), Ok(()));
        let cards = player.wager.hand.cards.clone();
        let drawn = &cards[2..];
        assert_eq!(drawn, &order[1..1 + drawn.len()]);
        assert_eq!(shoe.next_card, 1 + drawn.len());
        let mut seen = seen_before;
        let mut held = hand(&[Rank::Five, Rank::Three]);
        for c in drawn {
            // the card was drawn on a live hand on which the strategy said hit
            assert!(!held.is_busted());
            assert_eq!(
                player.strategy.get_stand(&seen, held.total, held.is_soft(), &up),
                Ok(false)
            );
            held.draw_card(Some(*c));
            seen[c.rank.value()] += 1;
        }
        assert_eq!(player.seen_cards, seen);
        assert!(
            held.is_busted()
                || player.strategy.get_stand(&seen, held.total, held.is_soft(), &up) == Ok(true)
        );
    }
}

#[test]
fn test_play_out_of_room_is_an_overflow() {
    let up = card(Rank::Six);
    // no room for a split
    let mut shoe = Shoe::new(1, 750);
    let mut player = basic_player(&[Rank::Eight, Rank::Eight]);
    player.report.total_splits = usize::MAX;
    assert_eq!(player.play(&up, &mut shoe, false), Err(StrikerError::Overflow));
    assert_eq!(shoe.next_card, 1);
    assert_eq!(player.wager.hand.cards.len(), 2);
    // no room in the histogram for the card that comes
    let mut shoe = Shoe::new(1, 750);
    let mut player = basic_player(&[Rank::Ten, Rank::Two]);
    player.strategy.counts = vec![0; 12];
    player.seen_cards = [usize::MAX; 13];
    assert_eq!(player.play(&card(Rank::Ten), &mut shoe, false), Err(StrikerError::Overflow));
    assert_eq!(player.wager.hand.cards.len(), 2);
    // no room in the shoe's counters
    let mut shoe = Shoe::new(1, 750);
    shoe.number_of_shuffles = usize::MAX;
    let mut player = basic_player(&[Rank::Ten, Rank::Two]);
    assert_eq!(player.play(&card(Rank::Ten), &mut shoe, false), Err(StrikerError::Overflow));
    assert_eq!(shoe.next_card, 1);
    // with room, the same hands are played
    let mut shoe = Shoe::new(1, 750);
    let mut player = basic_player(&[Rank::Eight, Rank::Eight]);
    player.report.total_splits = usize::MAX - 60;
    assert_eq!(player.play(&up, &mut shoe, false), Ok(()));
}
