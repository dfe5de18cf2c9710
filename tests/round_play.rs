use blackjack::judge::{Game, JudgedHand, DEFAULT_BET};
use blackjack::round::dealer_decision;
use blackjack::{
    blackjack_round, calculate_hand_result, payout, ActorRole, Card, CardSymbol, DealerAction,
    Deck, Hand, HandResult, HandState, Round, Suit, UserAction,
};

fn c(suit: Suit, value: CardSymbol) -> Card {
    Card::new(suit, value)
}

fn spades(values: &[CardSymbol]) -> Vec<Card> {
    values.iter().map(|v| c(Suit::Spade, *v)).collect()
}

fn closed(values: &[CardSymbol], state: HandState) -> Hand {
    let mut hand = Hand::from_cards(spades(values));
    if hand.state == HandState::Undefined {
        hand.state = state;
    }
    hand
}

#[test]
fn new_round_seats_players_then_dealer() {
    let round = blackjack_round(2, 10);
    assert_eq!(round.actors.len(), 3);
    assert_eq!(round.actor_bets, vec![10, 10]);
    assert_eq!(round.deck.len(), 52);
    assert_eq!(round.actors[0].role, ActorRole::Player);
    assert_eq!(round.actors[1].role, ActorRole::Player);
    assert_eq!(round.actors[2].role, ActorRole::Dealer);
    for (i, actor) in round.actors.iter().enumerate() {
        assert_eq!(actor.actor_idx, i);
        assert_eq!(actor.hands.len(), 1);
        assert!(actor.hand_at(0).cards.is_empty());
    }
    assert_eq!(ActorRole::Dealer.as_str(), "dealer");
    assert_eq!(ActorRole::Player.as_str(), "player");
}

#[test]
fn initial_deal_is_round_robin_with_dealer_card_face_down() {
    let deck = Deck::new();
    let fresh: Vec<Card> = deck.cards.iter().copied().collect();
    let mut round = Round::with_deck(deck, 2, 10);
    round.deal_cards();
    for a in 0..3 {
        let hand = round.actors[a].hand_at(0);
        assert_eq!(hand.cards.len(), 2);
        assert_eq!(hand.cards[0].value, fresh[a].value);
        assert_eq!(hand.cards[0].suit, fresh[a].suit);
        assert_eq!(hand.cards[1].value, fresh[3 + a].value);
        assert!(hand.cards[0].revealed);
    }
    assert!(round.actors[0].hand_at(0).cards[1].revealed);
    assert!(round.actors[1].hand_at(0).cards[1].revealed);
    assert!(!round.dealer_hand().cards[1].revealed);
    assert_eq!(round.deck.len(), 46);
    assert_eq!(round.dealer().role, ActorRole::Dealer);
    assert_eq!(round.dealer_hand().describe(), "3 + X = ?");
    round.reveal_hole_card();
    assert!(round.dealer_hand().cards[1].revealed);
    assert_eq!(round.dealer_hand().describe(), "3 + 6 = 9");
}

#[test]
fn dealer_hits_below_17_and_stands_from_17() {
    let sixteen = Hand::from_cards(spades(&[CardSymbol::Ten, CardSymbol::Six]));
    assert_eq!(dealer_decision(&sixteen), DealerAction::Hit);
    let seventeen = Hand::from_cards(spades(&[CardSymbol::Ten, CardSymbol::Seven]));
    assert_eq!(dealer_decision(&seventeen), DealerAction::Stand);
    let eighteen = Hand::from_cards(spades(&[CardSymbol::Ten, CardSymbol::Eight]));
    assert_eq!(dealer_decision(&eighteen), DealerAction::Stand);
    let soft_seventeen = Hand::from_cards(spades(&[CardSymbol::Ace, CardSymbol::Six]));
    assert_eq!(dealer_decision(&soft_seventeen), DealerAction::Stand);
    let twenty_one = Hand::from_cards(spades(&[CardSymbol::Ace, CardSymbol::King]));
    assert_eq!(dealer_decision(&twenty_one), DealerAction::Done);
    let bust = Hand::from_cards(spades(&[CardSymbol::Ten, CardSymbol::Six, CardSymbol::King]));
    assert_eq!(dealer_decision(&bust), DealerAction::Done);
}

#[test]
fn judging_table() {
    let natural = closed(&[CardSymbol::Ace, CardSymbol::King], HandState::Blackjack);
    let dealer_20 = closed(&[CardSymbol::King, CardSymbol::Queen], HandState::Finished);
    let result = calculate_hand_result(&natural, &dealer_20);
    assert_eq!(result, HandResult::AutoWin);
    assert_eq!(payout(result, 10), 15);

    let player_20 = closed(&[CardSymbol::Ten, CardSymbol::Jack], HandState::Finished);
    let result = calculate_hand_result(&player_20, &dealer_20);
    assert_eq!(result, HandResult::Draw);
    assert_eq!(payout(result, 10), 0);

    let player_22 = closed(&[CardSymbol::Ten, CardSymbol::Two, CardSymbol::King], HandState::Bust);
    assert_eq!(player_22.sum, 22);
    let dealer_18 = closed(&[CardSymbol::Ten, CardSymbol::Eight], HandState::Finished);
    let result = calculate_hand_result(&player_22, &dealer_18);
    assert_eq!(result, HandResult::Loss);
    assert_eq!(payout(result, 10), -10);

    let player_19 = closed(&[CardSymbol::Ten, CardSymbol::Nine], HandState::Finished);
    let dealer_23 = closed(&[CardSymbol::Ten, CardSymbol::Three, CardSymbol::King], HandState::Bust);
    assert_eq!(dealer_23.sum, 23);
    let result = calculate_hand_result(&player_19, &dealer_23);
    assert_eq!(result, HandResult::Win);
    assert_eq!(payout(result, 10), 10);
}

#[test]
fn judging_blackjacks_and_lower_totals() {
    let natural = closed(&[CardSymbol::Ace, CardSymbol::King], HandState::Blackjack);
    let dealer_natural = closed(&[CardSymbol::Ace, CardSymbol::Queen], HandState::Blackjack);
    assert_eq!(calculate_hand_result(&natural, &dealer_natural), HandResult::Draw);

    let three_card_21 =
        closed(&[CardSymbol::Seven, CardSymbol::Seven, CardSymbol::Seven], HandState::Blackjack);
    let dealer_19 = closed(&[CardSymbol::Ten, CardSymbol::Nine], HandState::Finished);
    assert_eq!(calculate_hand_result(&three_card_21, &dealer_19), HandResult::Win);

    let player_18 = closed(&[CardSymbol::Ten, CardSymbol::Eight], HandState::Finished);
    assert_eq!(calculate_hand_result(&player_18, &dealer_19), HandResult::Loss);
    assert_eq!(calculate_hand_result(&player_18, &dealer_natural), HandResult::Loss);

    let bust = closed(&[CardSymbol::Ten, CardSymbol::Eight, CardSymbol::King], HandState::Bust);
    let dealer_bust = closed(&[CardSymbol::Ten, CardSymbol::Six, CardSymbol::Nine], HandState::Bust);
    assert_eq!(calculate_hand_result(&bust, &dealer_bust), HandResult::Loss);
}

#[test]
fn natural_payout_rounds_toward_zero() {
    assert_eq!(payout(HandResult::AutoWin, 7), 10);
    assert_eq!(payout(HandResult::AutoWin, -3), -4);
    assert_eq!(payout(HandResult::AutoWin, 0), 0);
    assert_eq!(payout(HandResult::Loss, 7), -7);
}

/// A deck that deals `cards` first, then enough twos for any dealer turn.
fn forced_round(cards: &[Card], players: usize) -> Round {
    let mut all = cards.to_vec();
    for _ in 0..20 {
        all.push(c(Suit::Diamond, CardSymbol::Two));
    }
    Round::with_deck(Deck::from_cards(all), players, 10)
}

#[test]
fn one_player_stands_and_dealer_draws_to_blackjack() {
    let deck = [
        c(Suit::Spade, CardSymbol::Ten),
        c(Suit::Heart, CardSymbol::Six),
        c(Suit::Diamond, CardSymbol::Nine),
        c(Suit::Club, CardSymbol::Ten),
        c(Suit::Spade, CardSymbol::Five),
        c(Suit::Heart, CardSymbol::Two),
        c(Suit::Heart, CardSymbol::Three),
        c(Suit::Heart, CardSymbol::Four),
        c(Suit::Club, CardSymbol::Two),
        c(Suit::Club, CardSymbol::Three),
        c(Suit::Club, CardSymbol::Four),
        c(Suit::Club, CardSymbol::Five),
        c(Suit::Diamond, CardSymbol::Two),
        c(Suit::Diamond, CardSymbol::Three),
        c(Suit::Diamond, CardSymbol::Four),
        c(Suit::Diamond, CardSymbol::Five),
    ];
    let mut game = Game {
        current_round: forced_round(&deck, 1),
        player_scores: vec![0],
        player_names: vec!["User_1".to_string()],
    };
    let round = &mut game.current_round;
    round.deal_cards();
    assert_eq!(round.actors[0].hand_at(0).sum, 19);
    assert!(!round.dealer_hand().cards[1].revealed);
    assert!(round.advance_turn());
    round.apply_action(UserAction::Stay);
    assert_eq!(round.actors[0].hand_at(0).state, HandState::Finished);
    assert!(!round.advance_turn());
    assert_eq!(round.actor_cursor, 1);
    round.play();
    let dealer = round.dealer_hand();
    assert!(dealer.cards[1].revealed);
    assert_eq!(dealer.cards.len(), 3);
    assert_eq!(dealer.cards[2], c(Suit::Spade, CardSymbol::Five));
    assert_eq!(dealer.sum, 21);
    assert_eq!(dealer.state, HandState::Blackjack);
    assert!(game.can_judge());
    let verdicts = game.judge_current_round();
    assert_eq!(
        verdicts,
        vec![JudgedHand { actor_idx: 0, hand_idx: 0, result: HandResult::Loss, coins: -10 }]
    );
    assert_eq!(game.player_scores, vec![-10]);
}

#[test]
fn dealer_stands_on_17_and_bust_dealer_pays_players() {
    // Player: 10 + 8; dealer: 10 + 4, then draws 3 (17) and stands.
    let deck = spades(&[
        CardSymbol::Ten,
        CardSymbol::Ten,
        CardSymbol::Eight,
        CardSymbol::Four,
        CardSymbol::Three,
        CardSymbol::Nine,
        CardSymbol::Two,
        CardSymbol::Two,
        CardSymbol::Two,
        CardSymbol::Two,
        CardSymbol::Two,
        CardSymbol::Two,
        CardSymbol::Two,
        CardSymbol::Two,
        CardSymbol::Two,
    ]);
    let mut round = forced_round(&deck, 1);
    round.deal_cards();
    assert!(round.advance_turn());
    round.apply_action(UserAction::Stay);
    assert!(!round.advance_turn());
    round.play();
    assert_eq!(round.dealer_hand().sum, 17);
    assert_eq!(round.dealer_hand().state, HandState::Finished);
    assert_eq!(round.deck.len(), deck.len() + 20 - 5);

    // Dealer: 10 + 6, then draws a king and busts.
    let deck = spades(&[
        CardSymbol::Ten,
        CardSymbol::Ten,
        CardSymbol::Nine,
        CardSymbol::Six,
        CardSymbol::King,
        CardSymbol::Two,
        CardSymbol::Two,
        CardSymbol::Two,
        CardSymbol::Two,
        CardSymbol::Two,
        CardSymbol::Two,
        CardSymbol::Two,
        CardSymbol::Two,
        CardSymbol::Two,
        CardSymbol::Two,
    ]);
    let mut game = Game {
        current_round: forced_round(&deck, 1),
        player_scores: vec![5],
        player_names: vec!["User_1".to_string()],
    };
    game.current_round.deal_cards();
    assert!(game.current_round.advance_turn());
    game.current_round.apply_action(UserAction::Stay);
    assert!(!game.current_round.advance_turn());
    assert!(!game.can_judge());
    game.current_round.play();
    assert_eq!(game.current_round.dealer_hand().state, HandState::Bust);
    let verdicts = game.judge_current_round();
    assert_eq!(verdicts[0].result, HandResult::Win);
    assert_eq!(game.player_scores, vec![15]);
}

#[test]
fn hit_and_split_follow_the_cursor() {
    // Player 1: 8 + 8; player 2: 10 + 10 (stays); dealer: 10 + 7.
    let deck = vec![
        c(Suit::Spade, CardSymbol::Eight),
        c(Suit::Spade, CardSymbol::Ten),
        c(Suit::Spade, CardSymbol::King),
        c(Suit::Heart, CardSymbol::Eight),
        c(Suit::Heart, CardSymbol::Ten),
        c(Suit::Heart, CardSymbol::Seven),
        c(Suit::Club, CardSymbol::Three),
        c(Suit::Club, CardSymbol::Ace),
        c(Suit::Club, CardSymbol::King),
        c(Suit::Club, CardSymbol::Two),
        c(Suit::Club, CardSymbol::Four),
        c(Suit::Club, CardSymbol::Five),
        c(Suit::Club, CardSymbol::Six),
        c(Suit::Club, CardSymbol::Seven),
        c(Suit::Club, CardSymbol::Eight),
        c(Suit::Club, CardSymbol::Nine),
        c(Suit::Diamond, CardSymbol::Two),
        c(Suit::Diamond, CardSymbol::Three),
    ];
    let mut round = forced_round(&deck, 2);
    round.deal_cards();
    assert!(round.advance_turn());
    assert_eq!((round.actor_cursor, round.hand_cursor), (0, 0));
    assert!(round.actors[0].hand_at(0).is_splitable());
    round.apply_action(UserAction::Split);
    let seat = &round.actors[0];
    assert_eq!(seat.hands.len(), 2);
    assert_eq!(
        seat.hand_at(0).cards,
        vec![c(Suit::Spade, CardSymbol::Eight), c(Suit::Club, CardSymbol::Three)]
    );
    assert_eq!(
        seat.hand_at(1).cards,
        vec![c(Suit::Heart, CardSymbol::Eight), c(Suit::Club, CardSymbol::Ace)]
    );
    assert_eq!(seat.hand_at(1).sum, 19);
    assert_eq!(round.hand_cursor, 0);

    assert!(round.advance_turn());
    round.apply_action(UserAction::Hit);
    assert_eq!(round.actors[0].hand_at(0).sum, 21);
    assert_eq!(round.actors[0].hand_at(0).state, HandState::Blackjack);
    assert_eq!(round.hand_cursor, 0);

    // The first hand is closed: the cursor moves to the split hand.
    assert!(round.advance_turn());
    assert_eq!((round.actor_cursor, round.hand_cursor), (0, 1));
    round.apply_action(UserAction::Stay);
    assert_eq!(round.hand_cursor, 2);

    assert!(round.advance_turn());
    assert_eq!((round.actor_cursor, round.hand_cursor), (1, 0));
    round.apply_action(UserAction::Stay);
    assert!(!round.advance_turn());
    assert_eq!(round.actor_cursor, 2);

    round.play();
    assert_eq!(round.dealer_hand().sum, 17);
    assert_eq!(round.dealer_hand().state, HandState::Finished);

    let mut game = Game {
        current_round: round,
        player_scores: vec![0, 0],
        player_names: vec!["User_1".to_string(), "User_2".to_string()],
    };
    let verdicts = game.judge_current_round();
    let results: Vec<(usize, usize, HandResult)> =
        verdicts.iter().map(|v| (v.actor_idx, v.hand_idx, v.result)).collect();
    assert_eq!(
        results,
        vec![(0, 0, HandResult::Win), (0, 1, HandResult::Win), (1, 0, HandResult::Win)]
    );
    assert_eq!(game.player_scores, vec![20, 10]);
}

#[test]
fn advance_skips_a_natural_blackjack() {
    // Player: ace + king; dealer: 10 + 9.
    let deck = spades(&[
        CardSymbol::Ace,
        CardSymbol::Ten,
        CardSymbol::King,
        CardSymbol::Nine,
        CardSymbol::Two,
        CardSymbol::Two,
        CardSymbol::Two,
        CardSymbol::Two,
        CardSymbol::Two,
        CardSymbol::Two,
        CardSymbol::Two,
        CardSymbol::Two,
        CardSymbol::Two,
        CardSymbol::Two,
        CardSymbol::Two,
    ]);
    let mut game = Game {
        current_round: forced_round(&deck, 1),
        player_scores: vec![0],
        player_names: vec!["User_1".to_string()],
    };
    game.current_round.deal_cards();
    assert_eq!(game.current_round.actors[0].hand_at(0).state, HandState::Blackjack);
    assert!(!game.current_round.advance_turn());
    game.current_round.play();
    assert_eq!(game.current_round.dealer_hand().sum, 19);
    let verdicts = game.judge_current_round();
    assert_eq!(verdicts[0].result, HandResult::AutoWin);
    assert_eq!(verdicts[0].coins, 15);
    assert_eq!(game.player_scores, vec![15]);
}

#[test]
fn game_names_players_and_keeps_scores_across_rounds() {
    let mut game = Game::init(3);
    assert_eq!(game.player_names, vec!["User_1", "User_2", "User_3"]);
    assert_eq!(game.player_scores, vec![0, 0, 0]);
    assert_eq!(game.current_round.actors.len(), 4);
    assert_eq!(game.current_round.actor_bets, vec![DEFAULT_BET; 3]);
    game.player_scores[1] = 25;
    game.start_new_round();
    assert_eq!(game.player_scores, vec![0, 25, 0]);
    assert_eq!(game.current_round.deck.len(), 52);
    assert_eq!(game.current_round.actors.len(), 4);
}

#[test]
fn twelve_players_name_with_two_digits() {
    let game = Game::init(12);
    assert_eq!(game.player_names[9], "User_10");
    assert_eq!(game.player_names[11], "User_12");
}

#[test]
fn update_recomputes_totals_after_a_card_changes() {
    let deck = spades(&[CardSymbol::Ten, CardSymbol::Ten, CardSymbol::Six, CardSymbol::Seven]);
    let mut round = forced_round(&deck, 1);
    round.deal_cards();
    assert_eq!(round.actors[0].hand_at(0).sum, 16);
    round.actors[0].hand_at_mut(0).card_at_mut(1).value = CardSymbol::Ace;
    assert_eq!(round.actors[0].hand_at(0).sum, 16);
    round.update();
    assert_eq!(round.actors[0].hand_at(0).sum, 21);
    assert_eq!(round.actors[0].hand_at(0).state, HandState::Blackjack);
    assert_eq!(round.dealer_hand().sum, 17);
    assert_eq!(round.dealer_hand().state, HandState::Undefined);
}
