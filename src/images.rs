//! Which picture shows a card. The pictures themselves are loaded by the
//! caller into a table of 53 slots: the card back, then each suit in turn
//! (hearts, diamonds, clubs, spades), ace to king.
use vstd::prelude::*;
use crate::card::{Card, Suit, Value};

verus! {

/// Number of picture slots: the back and 52 faces.
pub const CARD_IMAGE_SLOTS: usize = 53;

pub open spec fn suit_index(s: Suit) -> nat {
    match s {
        Suit::Hearts => 0,
        Suit::Diamonds => 1,
        Suit::Clubs => 2,
        Suit::Spades => 3,
    }
}

pub open spec fn value_index(v: Value) -> nat {
    match v {
        Value::Ace => 0,
        Value::Two => 1,
        Value::Three => 2,
        Value::Four => 3,
        Value::Five => 4,
        Value::Six => 5,
        Value::Seven => 6,
        Value::Eight => 7,
        Value::Nine => 8,
        Value::Ten => 9,
        Value::Jack => 10,
        Value::Queen => 11,
        Value::King => 12,
    }
}

/// The slot of a card's picture: the back for a face-down card, whatever
/// its face; otherwise its own face.
pub open spec fn image_slot(card: Card) -> nat {
    if !card.is_face_up {
        0
    } else {
        1 + 13 * suit_index(card.suit) + value_index(card.value)
    }
}

/// The picture that a table gives a card, if its slot is filled.
pub open spec fn resolved_image(card: Card, images: Seq<Option<Vec<u8>>>) -> Option<Seq<u8>> {
    let slot = image_slot(card) as int;
    if slot < images.len() && images[slot] is Some {
        Some(images[slot]->Some_0@)
    } else {
        None
    }
}

/// The slot of a card's picture in a table of card pictures.
pub fn card_image_slot(card: &Card) -> (r: usize)
    ensures
        r == image_slot(*card),
        r < CARD_IMAGE_SLOTS,
{
    if !card.is_face_up {
        return 0;
    }
    let suit: usize = match card.suit {
        Suit::Hearts => 0,
        Suit::Diamonds => 1,
        Suit::Clubs => 2,
        Suit::Spades => 3,
    };
    let value: usize = match card.value {
        Value::Ace => 0,
        Value::Two => 1,
        Value::Three => 2,
        Value::Four => 3,
        Value::Five => 4,
        Value::Six => 5,
        Value::Seven => 6,
        Value::Eight => 7,
        Value::Nine => 8,
        Value::Ten => 9,
        Value::Jack => 10,
        Value::Queen => 11,
        Value::King => 12,
    };
    1 + 13 * suit + value
}

/// The bitmap data for a card: the back for a face-down card, its face
/// otherwise; none when the table leaves that slot empty.
pub fn get_card_image<'a>(card: &Card, images: &'a [Option<Vec<u8>>]) -> (r: Option<&'a [u8]>)
    ensures
        resolved_image(*card, images@) is None ==> r is None,
        resolved_image(*card, images@) matches Some(data) ==> r is Some && r->Some_0@ == data,
{
    let slot = card_image_slot(card);
    if slot >= images.len() {
        return None;
    }
    match &images[slot] {
        Some(data) => Some(data.as_slice()),
        None => None,
    }
}

} // verus!
