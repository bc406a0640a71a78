use striker::cards::card::Card;
use striker::cards::dealer::Dealer;
use striker::cards::rank::Rank;
use striker::cards::suit::Suit;

#[test]
fn test_dealer_should_hit_on_soft_17() {
    let mut dealer = Dealer::new(true);

    assert_eq!(dealer.hand.total, 0);

    dealer.hand.draw_card(Some(Card::new(Rank::Ace, Suit::Hearts)));
    assert_eq!(dealer.hand.total, 11);

    dealer.hand.draw_card(Some(Card::new(Rank::Six, Suit::Spades)));
    assert_eq!(dealer.hand.total, 17); // Soft
    assert!(!dealer.should_stand());

    dealer.hand.draw_card(Some(Card::new(Rank::Ten, Suit::Spades)));
    assert_eq!(dealer.hand.total, 17); // Hard
    assert!(dealer.should_stand());
}

#[test]
fn test_dealer_should_stand_on_soft_17() {
    let mut dealer = Dealer::new(false);

    dealer.hand.draw_card(Some(Card::new(Rank::Ace, Suit::Hearts)));
    assert_eq!(dealer.hand.total, 11);

    dealer.hand.draw_card(Some(Card::new(Rank::Six, Suit::Spades)));
    assert_eq!(dealer.hand.total, 17); // Soft
    assert!(dealer.should_stand());
}

#[test]
fn test_dealer_stands_on_hard_totals_from_17() {
    for hit_soft_17 in [false, true] {
        let mut dealer = Dealer::new(hit_soft_17);
        dealer.hand.draw_card(Some(Card::new(Rank::Ten, Suit::Hearts)));
        dealer.hand.draw_card(Some(Card::new(Rank::Six, Suit::Hearts)));
        assert!(!dealer.should_stand());
        dealer.hand.draw_card(Some(Card::new(Rank::Ace, Suit::Hearts)));
        assert_eq!(dealer.hand.total, 17);
        assert!(!dealer.hand.is_soft());
        assert!(dealer.should_stand());
    }
}
