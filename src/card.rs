use vstd::prelude::*;

verus! {

/// Card suits
#[derive(Debug, Clone, Copy, PartialEq, Eq, Structural)]
pub enum Suit {
    Hearts,
    Diamonds,
    Clubs,
    Spades,
}

/// Card ranks
#[derive(Debug, Clone, Copy, PartialEq, Eq, Structural)]
pub enum Value {
    Ace,
    Two,
    Three,
    Four,
    Five,
    Six,
    Seven,
    Eight,
    Nine,
    Ten,
    Jack,
    Queen,
    King,
}

/// A playing card; only its face-up flag ever changes.
#[derive(Debug, Clone, Copy, PartialEq, Eq, Structural)]
pub struct Card {
    pub suit: Suit,
    pub value: Value,
    pub is_face_up: bool,
}

/// Points a rank is worth before any ace is demoted: an ace counts 11,
/// face cards 10, numeric cards their number.
pub open spec fn rank_points(v: Value) -> nat {
    match v {
        Value::Ace => 11,
        Value::Two => 2,
        Value::Three => 3,
        Value::Four => 4,
        Value::Five => 5,
        Value::Six => 6,
        Value::Seven => 7,
        Value::Eight => 8,
        Value::Nine => 9,
        Value::Ten | Value::Jack | Value::Queen | Value::King => 10,
    }
}

impl Card {
    /// Create a new card
    pub fn new(suit: Suit, value: Value, is_face_up: bool) -> (r: Self)
        ensures
            r == (Card { suit, value, is_face_up }),
    {
        Card { suit, value, is_face_up }
    }

    /// The card's worth in BlackJack, with an ace counted as 11.
    pub fn blackjack_value(&self) -> (r: u8)
        ensures
            r == rank_points(self.value),
    {
        match self.value {
            Value::Ace => 11,
            Value::Two => 2,
            Value::Three => 3,
            Value::Four => 4,
            Value::Five => 5,
            Value::Six => 6,
            Value::Seven => 7,
            Value::Eight => 8,
            Value::Nine => 9,
            Value::Ten | Value::Jack | Value::Queen | Value::King => 10,
        }
    }

    /// Show or hide the card
    pub fn set_face_up(&mut self, is_face_up: bool)
        ensures
            *final(self) == (Card { is_face_up, ..*old(self) }),
    {
        self.is_face_up = is_face_up;
    }
}

/// A card's identity, whichever way up it lies.
pub open spec fn card_key(c: Card) -> (Suit, Value) {
    (c.suit, c.value)
}

/// No two of the cards are the same card.
pub open spec fn distinct_cards(s: Seq<Card>) -> bool {
    forall|i: int, j: int|
        0 <= i < s.len() && 0 <= j < s.len() && i != j ==> card_key(#[trigger] s[i]) != card_key(#[trigger] s[j])
}

/// Cards are still distinct after being rearranged, dropped or turned over:
/// every card of `t` is a card of `s`, and no two of them come from the same
/// place in `s`.
pub proof fn lemma_distinct_by_map(s: Seq<Card>, t: Seq<Card>, f: spec_fn(int) -> int)
    requires
        distinct_cards(s),
        forall|i: int| 0 <= i < t.len() ==> 0 <= #[trigger] f(i) < s.len() && card_key(t[i]) == card_key(s[f(i)]),
        forall|i: int, j: int| 0 <= i < t.len() && 0 <= j < t.len() && i != j ==> #[trigger] f(i) != #[trigger] f(j),
    ensures
        distinct_cards(t),
{
    assert forall|i: int, j: int| 0 <= i < t.len() && 0 <= j < t.len() && i != j implies card_key(#[trigger] t[i])
        != card_key(#[trigger] t[j]) by {
        assert(f(i) != f(j));
        assert(card_key(s[f(i)]) != card_key(s[f(j)]));
    }
}

/// The printed name of a rank.
pub open spec fn value_name(v: Value) -> Seq<char> {
    match v {
        Value::Ace => "Ace"@,
        Value::Two => "2"@,
        Value::Three => "3"@,
        Value::Four => "4"@,
        Value::Five => "5"@,
        Value::Six => "6"@,
        Value::Seven => "7"@,
        Value::Eight => "8"@,
        Value::Nine => "9"@,
        Value::Ten => "10"@,
        Value::Jack => "Jack"@,
        Value::Queen => "Queen"@,
        Value::King => "King"@,
    }
}

/// The printed name of a suit.
pub open spec fn suit_name(s: Suit) -> Seq<char> {
    match s {
        Suit::Hearts => "Hearts"@,
        Suit::Diamonds => "Diamonds"@,
        Suit::Clubs => "Clubs"@,
        Suit::Spades => "Spades"@,
    }
}

/// A rank's name for messages: "Ace", "2" to "10", "Jack", "Queen", "King".
pub fn format_value(value: Value) -> (r: &'static str)
    ensures
        r@ == value_name(value),
{
    match value {
        Value::Ace => "Ace",
        Value::Two => "2",
        Value::Three => "3",
        Value::Four => "4",
        Value::Five => "5",
        Value::Six => "6",
        Value::Seven => "7",
        Value::Eight => "8",
        Value::Nine => "9",
        Value::Ten => "10",
        Value::Jack => "Jack",
        Value::Queen => "Queen",
        Value::King => "King",
    }
}

/// A suit's name for messages.
pub fn format_suit(suit: Suit) -> (r: &'static str)
    ensures
        r@ == suit_name(suit),
{
    match suit {
        Suit::Hearts => "Hearts",
        Suit::Diamonds => "Diamonds",
        Suit::Clubs => "Clubs",
        Suit::Spades => "Spades",
    }
}

} // verus!
