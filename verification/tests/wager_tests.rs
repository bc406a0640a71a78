use striker::cards::card::Card;
use striker::cards::rank::Rank;
use striker::cards::suit::Suit;
use striker::cards::wager::Wager;
use striker::constants::constants::{MAXIMUM_BET, MINIMUM_BET};
use striker::errors::StrikerError;

const DOUBLE_MIN_BET: usize = MINIMUM_BET * 2;

fn new_test_wager() -> Wager {
    Wager::new(MINIMUM_BET, MAXIMUM_BET)
}

#[test]
fn test_initialization() {
    let wager = new_test_wager();
    assert_eq!(wager.minimum_bet, MINIMUM_BET);
    assert_eq!(wager.maximum_bet, MAXIMUM_BET);
    assert_eq!(wager.amount_bet, 0);
    assert_eq!(wager.amount_won, 0);
    assert_eq!(wager.insurance_bet, 0);
    assert_eq!(wager.insurance_won, 0);
}

#[test]
fn test_place_bet_within_bounds() {
    let mut wager = new_test_wager();
    wager.place_bet(DOUBLE_MIN_BET);
    assert_eq!(wager.amount_bet, DOUBLE_MIN_BET);
}

#[test]
fn test_place_bet_below_minimum() {
    let mut wager = new_test_wager();
    wager.place_bet(MINIMUM_BET - 2);
    assert_eq!(wager.amount_bet, MINIMUM_BET);
}

#[test]
fn test_place_bet_above_maximum() {
    let mut wager = new_test_wager();
    wager.place_bet(MAXIMUM_BET + 2);
    assert_eq!(wager.amount_bet, MAXIMUM_BET);
}

#[test]
fn test_insurance_and_double_bet() {
    let mut wager = new_test_wager();
    wager.place_bet(MINIMUM_BET);
    wager.place_insurance_bet();
    assert_eq!(wager.insurance_bet, MINIMUM_BET / 2);

    wager.double_bet();
    assert_eq!(wager.amount_bet, DOUBLE_MIN_BET);
}

#[test]
fn test_won_blackjack() {
    let mut wager = new_test_wager();
    wager.place_bet(DOUBLE_MIN_BET);
    wager.won_blackjack(3, 2); // 3:2 payout
    assert_eq!(wager.amount_won, (DOUBLE_MIN_BET * 3 / 2) as isize);
}

#[test]
fn test_won_and_lost() {
    let mut wager = new_test_wager();
    wager.place_bet(DOUBLE_MIN_BET);

    wager.won();
    assert_eq!(wager.amount_won, DOUBLE_MIN_BET as isize);

    wager.place_bet(DOUBLE_MIN_BET);
    wager.lost();
    assert_eq!(wager.amount_won, -(DOUBLE_MIN_BET as isize));
}

#[test]
fn test_push_resets_winnings() {
    let mut wager = new_test_wager();
    wager.place_bet(DOUBLE_MIN_BET);
    wager.push();
    assert_eq!(wager.amount_won, 0);
}

#[test]
fn test_insurance_outcomes() {
    let mut wager = new_test_wager();
    wager.place_bet(DOUBLE_MIN_BET);
    wager.place_insurance_bet();

    wager.won_insurance();
    assert_eq!(wager.insurance_won, DOUBLE_MIN_BET as isize);

    wager.place_insurance_bet();
    wager.lost_insurance();
    assert_eq!(wager.insurance_won, -(MINIMUM_BET as isize));
}

#[test]
fn test_split_hand_valid_pair() {
    let mut wager = new_test_wager();
    wager.place_bet(DOUBLE_MIN_BET);

    let ace1 = Card::new(Rank::Ace, Suit::Hearts);
    let ace2 = Card::new(Rank::Ace, Suit::Spades);
    wager.hand.draw_card(Some(ace1.clone()));
    wager.hand.draw_card(Some(ace2));

    let mut split_wager = new_test_wager();
    assert!(wager.split_hand(&mut split_wager).is_ok());

    assert_eq!(wager.hand.total, 11);
    assert_eq!(split_wager.hand.total, 11);
    assert_eq!(wager.amount_bet, DOUBLE_MIN_BET);
    assert_eq!(split_wager.amount_bet, DOUBLE_MIN_BET);
}

#[test]
#[should_panic(expected = "Cannot split a non-pair hand")]
fn test_split_hand_invalid_pair_panics() {
    let mut wager = new_test_wager();
    wager.place_bet(DOUBLE_MIN_BET);
    wager.hand.draw_card(Some(Card::new(Rank::Ace, Suit::Hearts)));
    wager.hand.draw_card(Some(Card::new(Rank::King, Suit::Spades)));

    let mut split_wager = new_test_wager();
    if wager.split_hand(&mut split_wager).is_err() {
        panic!("Cannot split a non-pair hand");
    }
}

#[test]
fn test_split_hand_of_a_non_pair_changes_nothing() {
    let mut wager = new_test_wager();
    wager.place_bet(DOUBLE_MIN_BET);
    wager.hand.draw_card(Some(Card::new(Rank::Ace, Suit::Hearts)));
    wager.hand.draw_card(Some(Card::new(Rank::King, Suit::Spades)));

    let mut split_wager = new_test_wager();
    assert_eq!(wager.split_hand(&mut split_wager), Err(StrikerError::InvalidOperation));
    assert_eq!(wager.hand.cards.len(), 2);
    assert_eq!(wager.hand.total, 21);
    assert_eq!(split_wager.amount_bet, 0);
    assert!(split_wager.hand.cards.is_empty());
}

#[test]
fn test_place_bet_clamps_and_rounds_up_to_even() {
    let mut wager = Wager::new(2, 20);
    wager.place_bet(1);
    assert_eq!(wager.amount_bet, 2);
    wager.place_bet(1000);
    assert_eq!(wager.amount_bet, 20);
    wager.place_bet(7);
    assert_eq!(wager.amount_bet, 8);
    wager.place_bet(8);
    assert_eq!(wager.amount_bet, 8);
    wager.place_bet(0);
    assert_eq!(wager.amount_bet, 2);
    let mut odd = Wager::new(3, 21);
    odd.place_bet(0);
    assert_eq!(odd.amount_bet, 4);
    odd.place_bet(50);
    assert_eq!(odd.amount_bet, 22);
}

#[test]
fn test_place_bet_starts_a_new_round() {
    let mut wager = new_test_wager();
    wager.place_bet(10);
    wager.hand.draw_card(Some(Card::new(Rank::Ace, Suit::Hearts)));
    wager.place_insurance_bet();
    wager.won_insurance();
    wager.won();
    wager.place_bet(6);
    assert!(wager.hand.cards.is_empty());
    assert_eq!(wager.hand.total, 0);
    assert_eq!(wager.amount_bet, 6);
    assert_eq!(wager.amount_won, 0);
    assert_eq!(wager.insurance_bet, 0);
    assert_eq!(wager.insurance_won, 0);
}

#[test]
fn test_blackjack_payout_rounds_down() {
    let mut wager = new_test_wager();
    wager.place_bet(2);
    wager.won_blackjack(6, 5);
    assert_eq!(wager.amount_won, 2);
    wager.won_blackjack(3, 2);
    assert_eq!(wager.amount_won, 3);
    wager.place_bet(10);
    wager.place_insurance_bet();
    assert_eq!(wager.insurance_bet, 5);
    wager.won_insurance();
    assert_eq!(wager.insurance_won, 10);
    wager.lost_insurance();
    assert_eq!(wager.insurance_won, -5);
}
