use blackjack::{blackjack_card_value, Card, CardSymbol, Colors, Deck, Hand, HandState, Suit};

fn card(value: CardSymbol) -> Card {
    Card::new(Suit::Spade, value)
}

fn hand_of(values: &[CardSymbol]) -> Hand {
    Hand::from_cards(values.iter().map(|v| card(*v)).collect())
}

#[test]
fn card_values_count_ace_high_and_faces_ten() {
    let expected = [
        (CardSymbol::Ace, 11),
        (CardSymbol::Two, 2),
        (CardSymbol::Three, 3),
        (CardSymbol::Four, 4),
        (CardSymbol::Five, 5),
        (CardSymbol::Six, 6),
        (CardSymbol::Seven, 7),
        (CardSymbol::Eight, 8),
        (CardSymbol::Nine, 9),
        (CardSymbol::Ten, 10),
        (CardSymbol::Jack, 10),
        (CardSymbol::Queen, 10),
        (CardSymbol::King, 10),
        (CardSymbol::Joker, 0),
    ];
    for (symbol, points) in expected {
        assert_eq!(blackjack_card_value(&symbol), points);
    }
}

#[test]
fn symbols_from_values_and_labels() {
    assert_eq!(CardSymbol::from_value(1), CardSymbol::Ace);
    assert_eq!(CardSymbol::from_value(10), CardSymbol::Ten);
    assert_eq!(CardSymbol::from_value(13), CardSymbol::King);
    assert_eq!(CardSymbol::from_value(14), CardSymbol::Joker);
    assert_eq!(CardSymbol::Ace.to_str(), "A");
    assert_eq!(CardSymbol::Ten.to_str(), "10");
    assert_eq!(CardSymbol::Queen.to_str(), "Q");
    assert_eq!(CardSymbol::Joker.to_str(), "X");
}

#[test]
fn suits_have_colors_and_labels() {
    assert_eq!(Suit::Spade.color(), Colors::Black);
    assert_eq!(Suit::Club.color(), Colors::Black);
    assert_eq!(Suit::Heart.color(), Colors::Red);
    assert_eq!(Suit::Diamond.color(), Colors::Red);
    assert_eq!(Suit::Heart.to_str(), "H");
    assert_eq!(Colors::Red.to_str(), "Red");
    assert_eq!(Colors::Black.to_str(), "Black");
}

#[test]
fn cards_turn_over() {
    let mut c = card(CardSymbol::Five);
    assert!(c.is_revealed());
    c.unreveal();
    assert!(!c.is_revealed());
    c.turn_face_up();
    assert!(c.is_revealed());
}

#[test]
fn fresh_deck_holds_each_card_once_in_order() {
    let deck = Deck::new();
    assert_eq!(deck.len(), 52);
    let cards: Vec<Card> = deck.cards.iter().copied().collect();
    assert_eq!(cards[0], Card::new(Suit::Spade, CardSymbol::Ace));
    assert_eq!(cards[12], Card::new(Suit::Spade, CardSymbol::King));
    assert_eq!(cards[13], Card::new(Suit::Heart, CardSymbol::Ace));
    assert_eq!(cards[51], Card::new(Suit::Diamond, CardSymbol::King));
    for i in 0..cards.len() {
        assert!(cards[i].revealed);
        assert!(cards[i].value != CardSymbol::Joker);
        for j in (i + 1)..cards.len() {
            assert_ne!(cards[i], cards[j]);
        }
    }
}

#[test]
fn shuffled_deck_is_a_permutation_of_the_fresh_one() {
    let fresh: Vec<Card> = Deck::new().cards.iter().copied().collect();
    let shuffled: Vec<Card> = Deck::new_shuffled().cards.iter().copied().collect();
    assert_eq!(shuffled.len(), 52);
    for c in &fresh {
        assert_eq!(shuffled.iter().filter(|s| *s == c).count(), 1);
    }
    // The chance that a shuffle keeps the fresh order is 1 in 52!.
    assert_ne!(fresh, shuffled);
}

#[test]
fn drawing_takes_the_front_card() {
    let mut deck = Deck::from_cards(vec![card(CardSymbol::Two), card(CardSymbol::Three)]);
    assert_eq!(deck.draw_card(), card(CardSymbol::Two));
    assert_eq!(deck.len(), 1);
    assert_eq!(deck.draw_card(), card(CardSymbol::Three));
    assert_eq!(deck.len(), 0);
}

#[test]
fn ace_ace_nine_totals_21_blackjack() {
    let mut hand = Hand::from_cards(vec![
        card(CardSymbol::Ace),
        card(CardSymbol::Ace),
        card(CardSymbol::Nine),
    ]);
    hand.update_state();
    assert_eq!(hand.sum, 21);
    assert_eq!(hand.state, HandState::Blackjack);
}

#[test]
fn ace_king_totals_21_blackjack() {
    let mut hand = hand_of(&[CardSymbol::Ace, CardSymbol::King]);
    hand.update_state();
    assert_eq!(hand.sum, 21);
    assert_eq!(hand.state, HandState::Blackjack);
}

#[test]
fn king_queen_five_is_bust() {
    let mut hand = hand_of(&[CardSymbol::King, CardSymbol::Queen, CardSymbol::Five]);
    hand.update_state();
    assert_eq!(hand.sum, 25);
    assert_eq!(hand.state, HandState::Bust);
}

#[test]
fn aces_are_demoted_one_at_a_time() {
    assert_eq!(hand_of(&[CardSymbol::Ace]).sum, 11);
    assert_eq!(hand_of(&[CardSymbol::Ace, CardSymbol::Ace]).sum, 12);
    assert_eq!(hand_of(&[CardSymbol::Ace, CardSymbol::Five, CardSymbol::King]).sum, 16);
    assert_eq!(
        hand_of(&[CardSymbol::Ace, CardSymbol::Ace, CardSymbol::Ace, CardSymbol::Ace]).sum,
        14
    );
    let bust = hand_of(&[CardSymbol::Ace, CardSymbol::King, CardSymbol::Queen, CardSymbol::Two]);
    assert_eq!(bust.sum, 23);
    assert_eq!(bust.state, HandState::Bust);
}

#[test]
fn empty_hand_is_open_at_zero() {
    let hand = Hand::new();
    assert_eq!(hand.sum, 0);
    assert_eq!(hand.state, HandState::Undefined);
    assert!(hand.cards.is_empty());
}

#[test]
fn state_follows_the_total() {
    assert_eq!(HandState::from_value(20), HandState::Undefined);
    assert_eq!(HandState::from_value(21), HandState::Blackjack);
    assert_eq!(HandState::from_value(22), HandState::Bust);
}

#[test]
fn every_total_is_at_most_21_unless_bust() {
    let symbols = [
        CardSymbol::Ace,
        CardSymbol::Two,
        CardSymbol::Five,
        CardSymbol::Nine,
        CardSymbol::Ten,
        CardSymbol::King,
    ];
    for a in symbols {
        for b in symbols {
            for c in symbols {
                let mut hand = hand_of(&[a, b]);
                if hand.state == HandState::Undefined {
                    hand.deal_card(card(c));
                }
                hand.update_state();
                assert!(hand.sum <= 21 || hand.state == HandState::Bust);
                assert!(!(hand.sum > 21 && hand.state != HandState::Bust));
            }
        }
    }
}

#[test]
fn a_closed_state_is_kept() {
    let mut hand = hand_of(&[CardSymbol::Ten, CardSymbol::Six]);
    hand.state = HandState::Finished;
    hand.update_state();
    assert_eq!(hand.state, HandState::Finished);
    assert_eq!(hand.sum, 16);
}

#[test]
fn dealing_recomputes_total_and_state() {
    let mut hand = hand_of(&[CardSymbol::Ten, CardSymbol::Six]);
    assert_eq!(hand.state, HandState::Undefined);
    hand.deal_card(card(CardSymbol::Five));
    assert_eq!(hand.sum, 21);
    assert_eq!(hand.state, HandState::Blackjack);
}

#[test]
fn splitting_eights_makes_two_hands() {
    let mut hand = Hand::from_cards(vec![
        Card::new(Suit::Spade, CardSymbol::Eight),
        Card::new(Suit::Heart, CardSymbol::Eight),
    ]);
    assert!(hand.is_splitable());
    assert!(hand.splitable());
    let new_hand = hand.split(
        Card::new(Suit::Club, CardSymbol::Three),
        Card::new(Suit::Diamond, CardSymbol::Ten),
    );
    assert_eq!(
        hand.cards,
        vec![Card::new(Suit::Spade, CardSymbol::Eight), Card::new(Suit::Club, CardSymbol::Three)]
    );
    assert_eq!(
        new_hand.cards,
        vec![Card::new(Suit::Heart, CardSymbol::Eight), Card::new(Suit::Diamond, CardSymbol::Ten)]
    );
    assert_eq!(hand.sum, 11);
    assert_eq!(new_hand.sum, 18);
    assert_eq!(hand.state, HandState::Undefined);
    assert_eq!(new_hand.state, HandState::Undefined);
}

#[test]
fn eight_nine_is_not_splittable() {
    let hand = hand_of(&[CardSymbol::Eight, CardSymbol::Nine]);
    assert!(!hand.is_splitable());
    let three = hand_of(&[CardSymbol::Eight, CardSymbol::Eight, CardSymbol::Two]);
    assert!(!three.is_splitable());
}

#[test]
fn split_aces_draw_to_blackjack() {
    let mut hand = hand_of(&[CardSymbol::Ace, CardSymbol::Ace]);
    let new_hand = hand.split(card(CardSymbol::King), card(CardSymbol::Two));
    assert_eq!(hand.sum, 21);
    assert_eq!(hand.state, HandState::Blackjack);
    assert_eq!(new_hand.sum, 13);
}

#[test]
fn description_shows_ranks_and_total() {
    let hand = hand_of(&[CardSymbol::Ten, CardSymbol::Nine]);
    assert_eq!(hand.describe(), "10 + 9 = 19");
    let single = hand_of(&[CardSymbol::Ace]);
    assert_eq!(single.describe(), "A = 11");
    assert_eq!(Hand::new().describe(), " = 0");
}

#[test]
fn description_hides_face_down_cards_and_total() {
    let mut hand = hand_of(&[CardSymbol::Six, CardSymbol::King]);
    hand.card_at_mut(1).unreveal();
    assert!(!hand.card_at(1).is_revealed());
    assert_eq!(hand.describe(), "6 + X = ?");
    hand.card_at_mut(1).turn_face_up();
    assert_eq!(hand.describe(), "6 + K = 16");
}

#[test]
fn card_description_names_color_suit_and_rank() {
    assert_eq!(
        Card::new(Suit::Heart, CardSymbol::Queen).describe(),
        "Card: color=Red, suit=H, value=Q"
    );
    assert_eq!(
        Card::new(Suit::Club, CardSymbol::Ten).describe(),
        "Card: color=Black, suit=C, value=10"
    );
}
