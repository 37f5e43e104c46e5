use blackjack_core::{Card, Hand, Suit, Value, format_suit, format_value, score_to_str, LedColor};

fn up(value: Value) -> Card {
    Card::new(Suit::Spades, value, true)
}

fn hand_of(values: &[Value]) -> Hand {
    let mut hand = Hand::new();
    for v in values {
        assert!(hand.add_card(up(*v)));
    }
    hand
}

#[test]
fn card_values_follow_rank() {
    assert_eq!(up(Value::Ace).blackjack_value(), 11);
    assert_eq!(up(Value::Two).blackjack_value(), 2);
    assert_eq!(up(Value::Nine).blackjack_value(), 9);
    assert_eq!(up(Value::Ten).blackjack_value(), 10);
    assert_eq!(up(Value::Jack).blackjack_value(), 10);
    assert_eq!(up(Value::Queen).blackjack_value(), 10);
    assert_eq!(up(Value::King).blackjack_value(), 10);
}

#[test]
fn set_face_up_changes_only_the_flag() {
    let mut c = Card::new(Suit::Clubs, Value::Seven, true);
    c.set_face_up(false);
    assert_eq!(c, Card::new(Suit::Clubs, Value::Seven, false));
    c.set_face_up(true);
    assert!(c.is_face_up);
}

#[test]
fn card_names() {
    assert_eq!(format_value(Value::Ace), "Ace");
    assert_eq!(format_value(Value::Ten), "10");
    assert_eq!(format_value(Value::Queen), "Queen");
    assert_eq!(format_suit(Suit::Diamonds), "Diamonds");
}

#[test]
fn aces_are_demoted_one_at_a_time() {
    assert_eq!(hand_of(&[Value::Ace, Value::Ace]).value(), 12);
    assert_eq!(hand_of(&[Value::Ace, Value::King]).value(), 21);
    assert_eq!(hand_of(&[Value::Ace, Value::Nine, Value::Ace]).value(), 21);
    assert_eq!(hand_of(&[Value::King, Value::Queen, Value::Ace]).value(), 21);
    assert_eq!(hand_of(&[Value::Ace, Value::Ace, Value::Ace, Value::Nine]).value(), 12);
    assert_eq!(hand_of(&[Value::Ace, Value::Five, Value::Five]).value(), 21);
    assert_eq!(hand_of(&[Value::Ace, Value::Six, Value::Nine]).value(), 16);
}

#[test]
fn value_passes_21_only_without_aces_to_demote() {
    let bust = hand_of(&[Value::King, Value::Queen, Value::Five]);
    assert_eq!(bust.value(), 25);
    assert!(bust.is_bust());
    let soft = hand_of(&[Value::Ace, Value::King, Value::Queen]);
    assert_eq!(soft.value(), 21);
    assert!(!soft.is_bust());
}

#[test]
fn blackjack_needs_two_cards_worth_21() {
    assert!(hand_of(&[Value::Ace, Value::King]).is_blackjack());
    assert!(hand_of(&[Value::Jack, Value::Ace]).is_blackjack());
    assert!(!hand_of(&[Value::Seven, Value::Seven, Value::Seven]).is_blackjack());
    assert!(!hand_of(&[Value::King, Value::Queen]).is_blackjack());
    assert!(!hand_of(&[Value::Ace]).is_blackjack());
}

#[test]
fn hand_holds_at_most_four_cards() {
    let mut hand = hand_of(&[Value::Two, Value::Two, Value::Three, Value::Three]);
    assert_eq!(hand.card_count(), 4);
    assert!(!hand.add_card(up(Value::King)));
    assert_eq!(hand.card_count(), 4);
    assert_eq!(hand.value(), 10);
}

#[test]
fn get_card_in_and_out_of_range() {
    let hand = hand_of(&[Value::Four, Value::Jack]);
    assert_eq!(hand.get_card(1).map(|c| c.value), Some(Value::Jack));
    assert_eq!(hand.get_card(0).map(|c| c.value), Some(Value::Four));
    assert!(hand.get_card(2).is_none());
    assert_eq!(Hand::new().card_count(), 0);
    assert_eq!(Hand::new().value(), 0);
}

#[test]
fn reveal_all_turns_every_card_up() {
    let mut hand = Hand::new();
    hand.add_card(Card::new(Suit::Hearts, Value::Nine, false));
    hand.add_card(Card::new(Suit::Clubs, Value::Two, true));
    hand.add_card(Card::new(Suit::Spades, Value::Ace, false));
    hand.reveal_all();
    for i in 0..3 {
        assert!(hand.get_card(i).unwrap().is_face_up);
    }
    assert_eq!(hand.get_card(0).unwrap().value, Value::Nine);
    assert_eq!(hand.get_card(2).unwrap().suit, Suit::Spades);
}

#[test]
fn score_text() {
    assert_eq!(score_to_str(0), "0");
    assert_eq!(score_to_str(9), "9");
    assert_eq!(score_to_str(21), "21");
    assert_eq!(score_to_str(31), "31");
    assert_eq!(score_to_str(32), "32+");
    assert_eq!(score_to_str(255), "32+");
}

#[test]
fn led_levels() {
    assert_eq!(LedColor::Yellow.levels(), (true, true, false));
    assert_eq!(LedColor::Blue.levels(), (false, false, true));
    assert_eq!(LedColor::Off.levels(), (false, false, false));
}
