use blackjack_core::{BlackJackGame, Card, Deck, GameResult, GameState, Suit, Value};

fn c(suit: Suit, value: Value) -> Card {
    Card::new(suit, value, true)
}

/// A deck that yields the given cards first, in this order, then three
/// other cards.
fn stacked(draw_order: &[Card]) -> Deck {
    let suits = [Suit::Hearts, Suit::Diamonds, Suit::Clubs, Suit::Spades];
    let values = [Value::Two, Value::Three, Value::Four, Value::Five];
    let mut cards: Vec<Card> = Vec::new();
    for s in suits {
        for v in values {
            let taken = draw_order.iter().any(|d| d.suit == s && d.value == v);
            if !taken && cards.len() < 3 {
                cards.push(c(s, v));
            }
        }
    }
    for card in draw_order.iter().rev() {
        cards.push(*card);
    }
    Deck::from_cards(cards).unwrap()
}

fn game_on(draw_order: &[Card]) -> BlackJackGame {
    let mut game = BlackJackGame::new();
    game.start_game_with_deck(stacked(draw_order));
    game
}

#[test]
fn shuffled_deck_holds_each_card_once() {
    let mut deck = Deck::shuffled(123_456_789);
    let mut seen: Vec<Card> = Vec::new();
    while let Some(card) = deck.draw() {
        assert!(card.is_face_up);
        assert!(!seen.contains(&card));
        seen.push(card);
    }
    assert_eq!(seen.len(), 52);
    assert!(deck.draw().is_none());
}

#[test]
fn shuffle_depends_only_on_seed() {
    let mut a = Deck::shuffled(42);
    let mut b = Deck::shuffled(42);
    let mut same = true;
    let mut c1 = Deck::shuffled(43);
    let mut differs = false;
    for _ in 0..52 {
        let x = a.draw();
        same &= x == b.draw();
        differs |= x != c1.draw();
    }
    assert!(same);
    assert!(differs);
}

/// SplitMix64, written out independently of the library.
fn splitmix_words(seed: u64) -> Vec<u64> {
    let mut state = seed;
    let mut out = Vec::new();
    for _ in 0..51 {
        state = state.wrapping_add(0x9E37_79B9_7F4A_7C15);
        let mut z = state;
        z = (z ^ (z >> 30)).wrapping_mul(0xBF58_476D_1CE4_E5B9);
        z = (z ^ (z >> 27)).wrapping_mul(0x94D0_49BB_1331_11EB);
        out.push(z ^ (z >> 31));
    }
    out
}

#[test]
fn seeded_shuffle_draws_on_splitmix() {
    let words = splitmix_words(0);
    assert_eq!(words[0], 0xE220_A839_7B1D_CDAF);
    for seed in [0u64, 1, 0xDEAD_BEEF, u64::MAX] {
        let mut a = Deck::shuffled(seed);
        let mut b = Deck::shuffled_with(&splitmix_words(seed)).unwrap();
        for _ in 0..52 {
            assert_eq!(a.draw(), b.draw());
        }
    }
}

#[test]
fn all_zero_draws_rotate_the_standard_order() {
    // Every step then exchanges position i with position 0.
    let mut deck = Deck::shuffled_with(&[0u64; 51]).unwrap();
    assert_eq!(deck.draw(), Some(c(Suit::Hearts, Value::Ace)));
    assert_eq!(deck.draw(), Some(c(Suit::Spades, Value::King)));
}

#[test]
fn shuffle_needs_51_draws() {
    assert!(Deck::shuffled_with(&[7u64; 50]).is_none());
    assert!(Deck::shuffled_with(&[7u64; 60]).is_some());
}

#[test]
fn from_cards_refuses_a_card_twice() {
    let twice = vec![c(Suit::Hearts, Value::Two), Card::new(Suit::Hearts, Value::Two, false)];
    assert!(Deck::from_cards(twice).is_none());
}

#[test]
fn dealer_value_stays_hidden_after_stand_and_bust() {
    let mut game = game_on(&[
        c(Suit::Spades, Value::Ten),
        c(Suit::Hearts, Value::Nine),
        c(Suit::Clubs, Value::Five),
        c(Suit::Diamonds, Value::Eight),
        c(Suit::Hearts, Value::King),
    ]);
    game.deal_initial_cards();
    assert_eq!(game.dealer_value(), 9);
    assert!(game.player_hit());
    assert_eq!(game.state(), GameState::GameOver);
    assert_eq!(game.dealer_value(), 9);

    let mut game = game_on(&[
        c(Suit::Spades, Value::Ten),
        c(Suit::Hearts, Value::Nine),
        c(Suit::Clubs, Value::Five),
        c(Suit::Diamonds, Value::Eight),
    ]);
    game.deal_initial_cards();
    game.player_stand();
    assert_eq!(game.state(), GameState::DealerTurn);
    assert_eq!(game.dealer_value(), 9);
    game.start_dealer_turn();
    assert_eq!(game.dealer_value(), 9);
    game.reveal_dealer_cards();
    assert_eq!(game.dealer_value(), 17);
}

#[test]
fn reaching_21_is_ignored_outside_the_players_turn() {
    let mut game = BlackJackGame::new();
    game.player_has_21();
    assert_eq!(game.state(), GameState::WaitingForStart);
    let mut game = game_on(&[
        c(Suit::Spades, Value::Ace),
        c(Suit::Hearts, Value::Nine),
        c(Suit::Clubs, Value::King),
        c(Suit::Diamonds, Value::Five),
    ]);
    game.deal_initial_cards();
    assert_eq!(game.state(), GameState::GameOver);
    game.player_has_21();
    assert_eq!(game.state(), GameState::GameOver);
    assert_eq!(game.result(), GameResult::PlayerWins);
}

#[test]
fn clock_deck_is_full() {
    let mut deck = Deck::new();
    let mut n = 0;
    while deck.draw().is_some() {
        n += 1;
    }
    assert_eq!(n, 52);
}

#[test]
fn from_cards_limits_and_faces() {
    let too_many: Vec<Card> = (0..53).map(|_| c(Suit::Hearts, Value::Two)).collect();
    assert!(Deck::from_cards(too_many).is_none());
    let mut deck = Deck::from_cards(vec![Card::new(Suit::Spades, Value::Queen, false)]).unwrap();
    assert_eq!(deck.draw(), Some(c(Suit::Spades, Value::Queen)));
    assert_eq!(deck.draw(), None);
}

#[test]
fn new_game_waits_for_start() {
    let game = BlackJackGame::new();
    assert_eq!(game.state(), GameState::WaitingForStart);
    assert_eq!(game.result(), GameResult::InProgress);
    assert_eq!(game.player_hand().card_count(), 0);
    assert_eq!(game.dealer_hand().card_count(), 0);
}

#[test]
fn start_game_clears_the_table() {
    let mut game = BlackJackGame::new();
    game.start_game();
    assert_eq!(game.state(), GameState::DealerDealing);
    game.deal_initial_cards();
    game.start_game();
    assert_eq!(game.state(), GameState::DealerDealing);
    assert_eq!(game.player_hand().card_count(), 0);
    assert_eq!(game.dealer_hand().card_count(), 0);
    assert_eq!(game.result(), GameResult::InProgress);
}

#[test]
fn fresh_deal_order_and_faces() {
    let mut game = game_on(&[
        c(Suit::Hearts, Value::Five),
        c(Suit::Diamonds, Value::Nine),
        c(Suit::Clubs, Value::Seven),
        c(Suit::Spades, Value::King),
    ]);
    game.deal_initial_cards();
    assert_eq!(game.state(), GameState::PlayerTurn);
    let p = game.player_hand();
    assert_eq!(p.card_count(), 2);
    assert_eq!(*p.get_card(0).unwrap(), c(Suit::Hearts, Value::Five));
    assert_eq!(*p.get_card(1).unwrap(), c(Suit::Clubs, Value::Seven));
    let d = game.dealer_hand();
    assert_eq!(d.card_count(), 2);
    assert_eq!(*d.get_card(0).unwrap(), c(Suit::Diamonds, Value::Nine));
    assert_eq!(*d.get_card(1).unwrap(), Card::new(Suit::Spades, Value::King, false));
}

#[test]
fn shuffled_round_deals_two_each() {
    let mut game = BlackJackGame::new();
    game.start_game_with_deck(Deck::shuffled(987_654_321));
    game.deal_initial_cards();
    assert_eq!(game.player_hand().card_count(), 2);
    assert_eq!(game.dealer_hand().card_count(), 2);
    assert!(game.player_hand().get_card(0).unwrap().is_face_up);
    assert!(game.player_hand().get_card(1).unwrap().is_face_up);
    assert!(game.dealer_hand().get_card(0).unwrap().is_face_up);
    if game.state() == GameState::PlayerTurn {
        assert!(!game.dealer_hand().get_card(1).unwrap().is_face_up);
    }
}

#[test]
fn deal_is_ignored_outside_dealing() {
    let mut game = BlackJackGame::new();
    game.deal_initial_cards();
    assert_eq!(game.state(), GameState::WaitingForStart);
    assert_eq!(game.player_hand().card_count(), 0);
}

#[test]
fn player_blackjack_wins_at_once() {
    let mut game = game_on(&[
        c(Suit::Spades, Value::Ace),
        c(Suit::Hearts, Value::Nine),
        c(Suit::Clubs, Value::King),
        c(Suit::Diamonds, Value::Five),
    ]);
    game.deal_initial_cards();
    assert_eq!(game.state(), GameState::GameOver);
    assert_eq!(game.result(), GameResult::PlayerWins);
    assert_eq!(game.player_value(), 21);
    assert_eq!(game.dealer_hand().card_count(), 2);
    assert!(game.dealer_hand().get_card(1).unwrap().is_face_up);
    assert_eq!(game.dealer_value(), 14);
    assert!(!game.dealer_draw_card());
    assert_eq!(game.dealer_hand().card_count(), 2);
}

#[test]
fn both_blackjack_is_a_push() {
    let mut game = game_on(&[
        c(Suit::Spades, Value::Ace),
        c(Suit::Hearts, Value::Ace),
        c(Suit::Clubs, Value::King),
        c(Suit::Diamonds, Value::Queen),
    ]);
    game.deal_initial_cards();
    assert_eq!(game.state(), GameState::GameOver);
    assert_eq!(game.result(), GameResult::Push);
}

#[test]
fn hit_to_21_with_three_cards_is_not_blackjack() {
    let mut game = game_on(&[
        c(Suit::Spades, Value::Seven),
        c(Suit::Hearts, Value::Ten),
        c(Suit::Clubs, Value::Five),
        c(Suit::Diamonds, Value::Six),
        c(Suit::Hearts, Value::Nine),
    ]);
    game.deal_initial_cards();
    assert_eq!(game.player_value(), 12);
    assert!(game.player_hit());
    assert_eq!(game.player_value(), 21);
    assert_eq!(game.player_hand().card_count(), 3);
    assert!(!game.player_hand().is_blackjack());
    assert!(!game.player_hand().is_bust());
    assert_eq!(game.state(), GameState::PlayerTurn);
    assert_eq!(game.result(), GameResult::InProgress);
    game.player_has_21();
    assert_eq!(game.state(), GameState::DealerTurn);
}

#[test]
fn bust_ends_round_with_hidden_card_down() {
    let mut game = game_on(&[
        c(Suit::Spades, Value::Ten),
        c(Suit::Hearts, Value::Nine),
        c(Suit::Clubs, Value::Five),
        c(Suit::Diamonds, Value::Eight),
        c(Suit::Hearts, Value::King),
    ]);
    game.deal_initial_cards();
    assert_eq!(game.player_value(), 15);
    assert!(game.player_hit());
    assert_eq!(game.player_value(), 25);
    assert_eq!(game.state(), GameState::GameOver);
    assert_eq!(game.result(), GameResult::DealerWins);
    assert!(!game.dealer_hand().get_card(1).unwrap().is_face_up);
    assert!(!game.player_hit());
}

#[test]
fn fifth_card_passes_turn_to_dealer() {
    let mut game = game_on(&[
        c(Suit::Spades, Value::Two),
        c(Suit::Hearts, Value::Nine),
        c(Suit::Clubs, Value::Two),
        c(Suit::Diamonds, Value::Eight),
        c(Suit::Hearts, Value::Three),
        c(Suit::Hearts, Value::Four),
        c(Suit::Hearts, Value::Five),
    ]);
    game.deal_initial_cards();
    assert!(game.player_hit());
    assert!(game.player_hit());
    assert_eq!(game.player_hand().card_count(), 4);
    assert_eq!(game.state(), GameState::PlayerTurn);
    assert!(game.player_hit());
    assert_eq!(game.player_hand().card_count(), 4);
    assert_eq!(game.state(), GameState::DealerTurn);
}

#[test]
fn moves_outside_their_phase_are_refused() {
    let mut game = BlackJackGame::new();
    assert!(!game.player_hit());
    assert!(!game.player_stand());
    assert!(!game.dealer_draw_card());
    game.start_dealer_turn();
    game.reveal_dealer_cards();
    assert_eq!(game.state(), GameState::WaitingForStart);
    assert!(!game.dealer_needs_card());
}

#[test]
fn dealer_value_hides_the_hole_card() {
    let mut game = game_on(&[
        c(Suit::Spades, Value::Ten),
        c(Suit::Hearts, Value::Ace),
        c(Suit::Clubs, Value::Six),
        c(Suit::Diamonds, Value::King),
    ]);
    game.deal_initial_cards();
    assert_eq!(game.state(), GameState::PlayerTurn);
    assert_eq!(game.dealer_value(), 11);
    assert!(game.player_stand());
    assert_eq!(game.state(), GameState::DealerTurn);
    game.start_dealer_turn();
    assert_eq!(game.state(), GameState::DealerRevealing);
    game.reveal_dealer_cards();
    assert_eq!(game.dealer_value(), 21);
    assert!(game.dealer_hand().get_card(1).unwrap().is_face_up);
    assert_eq!(game.state(), GameState::GameOver);
    assert_eq!(game.result(), GameResult::DealerWins);
}

#[test]
fn dealer_stands_on_17_without_drawing() {
    let mut game = game_on(&[
        c(Suit::Spades, Value::Ten),
        c(Suit::Hearts, Value::Ten),
        c(Suit::Clubs, Value::Eight),
        c(Suit::Diamonds, Value::Seven),
    ]);
    game.deal_initial_cards();
    game.player_stand();
    game.start_dealer_turn();
    game.reveal_dealer_cards();
    assert_eq!(game.state(), GameState::GameOver);
    assert_eq!(game.dealer_hand().card_count(), 2);
    assert_eq!(game.result(), GameResult::PlayerWins);
}

#[test]
fn dealer_draws_until_17() {
    let mut game = game_on(&[
        c(Suit::Spades, Value::Ten),
        c(Suit::Hearts, Value::Ten),
        c(Suit::Clubs, Value::Eight),
        c(Suit::Diamonds, Value::Two),
        c(Suit::Hearts, Value::Three),
        c(Suit::Clubs, Value::Four),
    ]);
    game.deal_initial_cards();
    game.player_stand();
    game.start_dealer_turn();
    game.reveal_dealer_cards();
    assert_eq!(game.state(), GameState::DealerDrawing);
    assert!(game.dealer_needs_card());
    assert!(game.dealer_draw_card());
    assert_eq!(game.dealer_value(), 15);
    assert_eq!(game.state(), GameState::DealerDrawing);
    assert!(game.dealer_draw_card());
    assert_eq!(game.dealer_value(), 19);
    assert_eq!(game.state(), GameState::GameOver);
    assert_eq!(game.result(), GameResult::DealerWins);
    assert!(!game.dealer_needs_card());
}

#[test]
fn dealer_bust_goes_to_player() {
    let mut game = game_on(&[
        c(Suit::Spades, Value::Ten),
        c(Suit::Hearts, Value::Ten),
        c(Suit::Clubs, Value::Two),
        c(Suit::Diamonds, Value::Six),
        c(Suit::Hearts, Value::King),
    ]);
    game.deal_initial_cards();
    game.player_stand();
    game.start_dealer_turn();
    game.reveal_dealer_cards();
    assert!(game.dealer_draw_card());
    assert_eq!(game.dealer_value(), 26);
    assert_eq!(game.state(), GameState::GameOver);
    assert_eq!(game.result(), GameResult::PlayerWins);
}

#[test]
fn equal_totals_push() {
    let mut game = game_on(&[
        c(Suit::Spades, Value::Ten),
        c(Suit::Hearts, Value::Ten),
        c(Suit::Clubs, Value::Eight),
        c(Suit::Diamonds, Value::Eight),
    ]);
    game.deal_initial_cards();
    game.player_stand();
    game.start_dealer_turn();
    game.reveal_dealer_cards();
    assert_eq!(game.result(), GameResult::Push);
}

#[test]
fn dealer_at_four_cards_stands_on_next_draw() {
    let mut game = game_on(&[
        c(Suit::Spades, Value::Ten),
        c(Suit::Hearts, Value::Two),
        c(Suit::Clubs, Value::Nine),
        c(Suit::Diamonds, Value::Two),
        c(Suit::Hearts, Value::Three),
        c(Suit::Clubs, Value::Four),
        c(Suit::Clubs, Value::King),
    ]);
    game.deal_initial_cards();
    game.player_stand();
    game.start_dealer_turn();
    game.reveal_dealer_cards();
    assert!(game.dealer_draw_card());
    assert!(game.dealer_draw_card());
    assert_eq!(game.dealer_hand().card_count(), 4);
    assert_eq!(game.dealer_value(), 11);
    assert_eq!(game.state(), GameState::DealerDrawing);
    assert!(game.dealer_draw_card());
    assert_eq!(game.dealer_hand().card_count(), 4);
    assert_eq!(game.state(), GameState::GameOver);
    assert_eq!(game.result(), GameResult::PlayerWins);
}
