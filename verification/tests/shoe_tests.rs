use striker::cards::card::Card;
use striker::cards::rank::Rank;
use striker::cards::shoe::Shoe;
use striker::cards::suit::Suit;

#[test]
fn test_shoe_creation() {
    for decks in [1, 2, 6] {
        let mut shoe = Shoe::new(decks, 500);
        assert_eq!(shoe.number_of_cards, 52 * decks);
        assert_eq!(shoe.cut_card, 26 * decks);
        let card = shoe.draw_card();
        assert!(card.is_some());
    }
}

#[test]
fn test_shuffle() {
    for decks in [1, 2, 6] {
        let mut shoe = Shoe::new(decks, 500);
        let cards_before = shoe.cards.clone();
        shoe.shuffle();
        assert_ne!(cards_before, shoe.cards);
        assert!(!shoe.should_shuffle());
        shoe.next_card = shoe.number_of_cards;
        assert!(shoe.should_shuffle());
    }
}

#[test]
fn test_force_shuffle() {
    for decks in [1, 2, 6] {
        let mut shoe = Shoe::new(decks, 500);
        let shuffles = shoe.number_of_shuffles;
        for _ in 0..shoe.number_of_cards {
            shoe.draw_card();
            shoe.last_discard = shoe.next_card;
        }
        assert!(shoe.should_shuffle());
        assert!(shoe.number_of_shuffles == shuffles + 1);
        assert!(shoe.out_of_cards == 1);
    }
}

fn count(cards: &[Card], rank: Rank, suit: Suit) -> usize {
    cards.iter().filter(|card| card.rank == rank && card.suit == suit).count()
}

#[test]
fn test_shoe_holds_each_card_once_per_deck() {
    for decks in [1, 2, 6] {
        let mut shoe = Shoe::new(decks, 750);
        for _ in 0..3 {
            for suit in Suit::iter() {
                for rank in Rank::iter() {
                    assert_eq!(count(&shoe.cards, rank, suit), decks);
                }
            }
            shoe.should_shuffle();
            shoe.shuffle();
        }
    }
}

#[test]
fn test_cut_card_is_rounded_to_the_nearest_card() {
    assert_eq!(Shoe::new(1, 750).cut_card, 39);
    assert_eq!(Shoe::new(2, 750).cut_card, 78);
    assert_eq!(Shoe::new(6, 750).cut_card, 234);
    // 52 * 0.01 = 0.52 rounds to 1, 52 * 0.009 = 0.468 rounds to 0
    assert_eq!(Shoe::new(1, 10).cut_card, 1);
    assert_eq!(Shoe::new(1, 9).cut_card, 0);
    // 52 * 0.625 = 32.5 rounds up
    assert_eq!(Shoe::new(1, 625).cut_card, 33);
    assert_eq!(Shoe::new(1, 0).cut_card, 0);
    assert_eq!(Shoe::new(1, 1000).cut_card, 52);
    assert_eq!(
        Shoe::new(1, usize::MAX).cut_card as u128,
        (52 * usize::MAX as u128 + 500) / 1000
    );
}

#[test]
fn test_exhaustion_forces_exactly_one_reshuffle() {
    for decks in [1, 2, 6] {
        let mut shoe = Shoe::new(decks, 500);
        let shuffles = shoe.number_of_shuffles;
        let size = shoe.number_of_cards;
        for _ in 0..size + 1 {
            assert!(shoe.draw_card().is_some());
            assert!(shoe.next_card <= size);
        }
        assert_eq!(shoe.number_of_shuffles, shuffles + 1);
        assert_eq!(shoe.out_of_cards, 1);
        assert_eq!(shoe.next_card, 3);
    }
}

#[test]
fn test_partial_shuffle_leaves_undealt_cards_in_place() {
    let mut shoe = Shoe::new(1, 500);
    for _ in 0..9 {
        shoe.draw_card();
    }
    assert!(!shoe.should_shuffle());
    assert_eq!(shoe.last_discard, 10);
    let before = shoe.cards.clone();
    shoe.shuffle();
    assert_eq!(shoe.next_card, 1);
    assert_eq!(&shoe.cards[10..], &before[10..]);
    let mut dealt_before: Vec<String> = before[..10].iter().map(|c| c.to_string()).collect();
    let mut dealt_after: Vec<String> = shoe.cards[..10].iter().map(|c| c.to_string()).collect();
    dealt_before.sort();
    dealt_after.sort();
    assert_eq!(dealt_before, dealt_after);
}

#[test]
fn test_draw_hands_out_the_cards_in_order() {
    let mut shoe = Shoe::new(1, 500);
    let cards = shoe.cards.clone();
    for i in 1..52 {
        assert_eq!(shoe.draw_card(), Some(cards[i]));
    }
    assert_eq!(shoe.out_of_cards, 0);
}
