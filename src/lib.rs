//! Control core of a card-table appliance: the BlackJack rules engine and
//! the pipeline that renders cards onto bitmap panels behind a bus
//! multiplexer.
//!
//! - `card`, `hand`, `deck`, `state`: cards, scoring, the deck and the round's
//!   state machine.
//! - `pbm_image`: the bitmap decoder and its rescaling to panel pages.
//! - `i2c_mux`, `card_displays`, `card_ui`, `images`: the bus, the
//!   multiplexer, the panel driver and the rendering of hands.
//! - `storage`: the fixed-capacity vectors the rest is built on.
use vstd::prelude::*;

pub mod card;
pub mod storage;
pub mod hand;
pub mod deck;
pub mod state;
pub mod pbm_image;
pub mod i2c_mux;
pub mod card_displays;
pub mod images;
pub mod card_ui;
pub mod leds;
pub mod status_text;

pub use card::{Card, Suit, Value, format_suit, format_value};
pub use hand::Hand;
pub use deck::Deck;
pub use state::{BlackJackGame, GameResult, GameState};
pub use pbm_image::{PBMError, PBMImage};
pub use i2c_mux::{I2cBus, TCA9548A};
pub use card_displays::{CardDisplays, DisplayPosition};
pub use images::{card_image_slot, get_card_image};
pub use card_ui::CardUI;
pub use leds::LedColor;
pub use status_text::score_to_str;

verus! {

} // verus!
