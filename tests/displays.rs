use std::cell::RefCell;
use std::rc::Rc;

use blackjack_core::{
    card_image_slot, get_card_image, Card, CardDisplays, CardUI, DisplayPosition, Hand, I2cBus, Suit, Value, TCA9548A,
};

type Log = Rc<RefCell<Vec<(u8, Vec<u8>)>>>;

/// A bus that records every write, and fails the writes whose numbers
/// (counting from 0) are listed.
struct RecordingBus {
    log: Log,
    attempts: usize,
    fail_at: Vec<usize>,
}

impl I2cBus for RecordingBus {
    type Error = usize;

    fn write(&mut self, address: u8, bytes: &[u8]) -> Result<(), usize> {
        let n = self.attempts;
        self.attempts += 1;
        self.log.borrow_mut().push((address, bytes.to_vec()));
        if self.fail_at.contains(&n) {
            Err(n)
        } else {
            Ok(())
        }
    }
}

fn bus(fail_at: Vec<usize>) -> (RecordingBus, Log) {
    let log: Log = Rc::new(RefCell::new(Vec::new()));
    (RecordingBus { log: log.clone(), attempts: 0, fail_at }, log)
}

const MUX: u8 = 0x70;
const PANEL: u8 = 0x3C;

const ALL_POSITIONS: [DisplayPosition; 8] = [
    DisplayPosition::DealerCard1,
    DisplayPosition::DealerCard2,
    DisplayPosition::DealerCard3,
    DisplayPosition::DealerCard4,
    DisplayPosition::PlayerCard1,
    DisplayPosition::PlayerCard2,
    DisplayPosition::PlayerCard3,
    DisplayPosition::PlayerCard4,
];

#[test]
fn positions_map_to_channels() {
    for (i, p) in ALL_POSITIONS.iter().enumerate() {
        assert_eq!(p.channel() as usize, i);
    }
}

#[test]
fn select_channel_writes_one_hot_byte() {
    let (b, log) = bus(vec![]);
    let mut mux = TCA9548A::new(b, MUX);
    assert!(mux.select_channel(3).is_ok());
    assert!(mux.select_channel(7).is_ok());
    assert_eq!(*log.borrow(), vec![(MUX, vec![0x08]), (MUX, vec![0x80])]);
}

#[test]
fn out_of_range_channel_is_a_quiet_success() {
    let (b, log) = bus(vec![]);
    let mut mux = TCA9548A::new(b, MUX);
    assert!(mux.select_channel(9).is_ok());
    assert!(mux.select_channel(8).is_ok());
    assert!(log.borrow().is_empty());
    assert_eq!(mux.i2c_mut().attempts, 0);
}

#[test]
fn select_channel_failure_is_returned() {
    let (b, _log) = bus(vec![0]);
    let mut mux = TCA9548A::new(b, MUX);
    assert_eq!(mux.select_channel(2), Err(0));
}

#[test]
fn i2c_mut_reaches_the_bus() {
    let (b, log) = bus(vec![]);
    let mut mux = TCA9548A::new(b, MUX);
    mux.i2c_mut().write(0x11, &[1, 2]).unwrap();
    assert_eq!(*log.borrow(), vec![(0x11, vec![1, 2])]);
}

fn assert_clear(writes: &[(u8, Vec<u8>)], channel: u8) {
    assert_eq!(writes.len(), 131);
    assert_eq!(writes[0], (MUX, vec![1 << channel]));
    assert_eq!(writes[1], (PANEL, vec![0x00, 0x21, 0x00, 0x7F]));
    assert_eq!(writes[2], (PANEL, vec![0x00, 0x22, 0x00, 0x07]));
    let mut zero = vec![0x40];
    zero.extend([0u8; 16]);
    for w in &writes[3..] {
        assert_eq!(*w, (PANEL, zero.clone()));
    }
}

#[test]
fn clear_display_zeroes_the_full_window() {
    let (b, log) = bus(vec![]);
    let mut displays = CardDisplays::new(b, MUX, PANEL);
    assert!(displays.clear_display(DisplayPosition::PlayerCard2).is_ok());
    assert_clear(&log.borrow(), 5);
}

#[test]
fn init_all_brings_up_each_panel_then_returns_to_channel_0() {
    let (b, log) = bus(vec![]);
    let mut displays = CardDisplays::new(b, MUX, PANEL);
    assert!(displays.init_all_displays().is_ok());
    let writes = log.borrow();
    assert_eq!(writes.len(), 8 * (1 + 25 + 131) + 1);
    let opcodes = [
        0xAE, 0xD5, 0x80, 0xA8, 0x3F, 0xD3, 0x00, 0x40, 0x8D, 0x14, 0x20, 0x00, 0xA1, 0xC8, 0xDA, 0x12, 0x81, 0xCF,
        0xD9, 0xF1, 0xDB, 0x40, 0xA4, 0xA6, 0xAF,
    ];
    for ch in 0..8u8 {
        let base = ch as usize * 157;
        assert_eq!(writes[base], (MUX, vec![1 << ch]));
        for (k, op) in opcodes.iter().enumerate() {
            assert_eq!(writes[base + 1 + k], (PANEL, vec![0x00, *op]));
        }
        assert_clear(&writes[base + 26..base + 157], ch);
    }
    assert_eq!(writes[8 * 157], (MUX, vec![0x01]));
}

#[test]
fn init_all_stops_at_first_failure() {
    let (b, log) = bus(vec![5]);
    let mut displays = CardDisplays::new(b, MUX, PANEL);
    assert_eq!(displays.init_all_displays(), Err(5));
    assert_eq!(log.borrow().len(), 6);
}

#[test]
fn paint_streams_buffer_in_chunks() {
    let img = blackjack_core::PBMImage::new(b"P1 1 1 1").unwrap();
    let buf = img.to_display_buffer(128, 64).unwrap();
    let (b, log) = bus(vec![]);
    let mut displays = CardDisplays::new(b, MUX, PANEL);
    assert!(displays.paint(&buf, DisplayPosition::DealerCard3).is_ok());
    let writes = log.borrow();
    assert_eq!(writes.len(), 3 + 64);
    assert_eq!(writes[0], (MUX, vec![0x04]));
    let mut total = 0;
    for w in &writes[3..] {
        assert_eq!(w.0, PANEL);
        assert_eq!(w.1[0], 0x40);
        assert_eq!(w.1.len(), 17);
        assert!(w.1[1..].iter().all(|b| *b == 0xFF));
        total += w.1.len() - 1;
    }
    assert_eq!(total, 1024);
}

#[test]
fn paint_of_odd_length_ends_with_short_chunk() {
    let img = blackjack_core::PBMImage::new(b"P1 1 1 1").unwrap();
    let buf = img.to_display_buffer(20, 8).unwrap();
    let (b, log) = bus(vec![]);
    let mut displays = CardDisplays::new(b, MUX, PANEL);
    assert!(displays.paint(&buf, DisplayPosition::DealerCard1).is_ok());
    let writes = log.borrow();
    assert_eq!(writes.len(), 3 + 2);
    assert_eq!(writes[3].1.len(), 17);
    assert_eq!(writes[4].1, vec![0x40, 0xFF, 0xFF, 0xFF, 0xFF]);
}

#[test]
fn undecodable_bitmap_is_skipped() {
    let (b, log) = bus(vec![]);
    let mut displays = CardDisplays::new(b, MUX, PANEL);
    assert!(displays.display_pbm_image(b"not a bitmap", DisplayPosition::DealerCard1).is_ok());
    assert!(log.borrow().is_empty());
    assert!(displays.display_pbm_image(b"P1 1 1 1", DisplayPosition::DealerCard1).is_ok());
    assert_eq!(log.borrow().len(), 67);
}

#[test]
fn procedural_back_is_solid_and_face_is_bordered() {
    let (b, log) = bus(vec![]);
    let mut displays = CardDisplays::new(b, MUX, PANEL);
    let down = Card::new(Suit::Hearts, Value::Two, false);
    assert!(displays.display_card(&down, DisplayPosition::PlayerCard1).is_ok());
    {
        let writes = log.borrow();
        assert_eq!(writes.len(), 1 + 131 + 3);
        assert_eq!(writes[0], (MUX, vec![0x10]));
        assert_eq!(writes[132], (PANEL, vec![0x00, 0x21, 20, 108]));
        assert_eq!(writes[133], (PANEL, vec![0x00, 0x22, 1, 1]));
        let row = &writes[134].1;
        assert_eq!(row.len(), 90);
        assert_eq!(row[0], 0x40);
        assert!(row[1..].iter().all(|b| *b == 0xFF));
    }
    log.borrow_mut().clear();
    let up = Card::new(Suit::Hearts, Value::Two, true);
    assert!(displays.display_card(&up, DisplayPosition::PlayerCard1).is_ok());
    let writes = log.borrow();
    let row = &writes[134].1;
    assert_eq!(row[1], 0xFF);
    assert_eq!(row[89], 0xFF);
    assert_eq!(row[45], 0x40);
}

#[test]
fn clear_all_covers_eight_panels() {
    let (b, log) = bus(vec![]);
    let mut displays = CardDisplays::new(b, MUX, PANEL);
    assert!(displays.clear_all_displays().is_ok());
    let writes = log.borrow();
    assert_eq!(writes.len(), 8 * 131);
    for ch in 0..8u8 {
        assert_clear(&writes[ch as usize * 131..(ch as usize + 1) * 131], ch);
    }
}

#[test]
fn image_slots() {
    assert_eq!(card_image_slot(&Card::new(Suit::Spades, Value::King, false)), 0);
    assert_eq!(card_image_slot(&Card::new(Suit::Hearts, Value::Ace, true)), 1);
    assert_eq!(card_image_slot(&Card::new(Suit::Diamonds, Value::Two, true)), 15);
    assert_eq!(card_image_slot(&Card::new(Suit::Spades, Value::King, true)), 52);
}

#[test]
fn face_down_card_resolves_to_the_back() {
    let mut table: Vec<Option<Vec<u8>>> = vec![None; 53];
    table[0] = Some(b"back".to_vec());
    table[1] = Some(b"ace of hearts".to_vec());
    let down = Card::new(Suit::Hearts, Value::Ace, false);
    let up = Card::new(Suit::Hearts, Value::Ace, true);
    assert_eq!(get_card_image(&down, &table), Some(&b"back"[..]));
    assert_eq!(get_card_image(&up, &table), Some(&b"ace of hearts"[..]));
    assert_eq!(get_card_image(&Card::new(Suit::Clubs, Value::Ace, true), &table), None);
    assert_eq!(get_card_image(&up, &[]), None);
}

fn hand(cards: &[Card]) -> Hand {
    let mut h = Hand::new();
    for c in cards {
        h.add_card(*c);
    }
    h
}

#[test]
fn dealer_hand_uses_pictures_and_falls_back() {
    let mut table: Vec<Option<Vec<u8>>> = vec![None; 53];
    table[0] = Some(b"P1 1 1 1".to_vec());
    table[1 + 13 * 3 + 8] = Some(b"broken".to_vec());
    let (b, log) = bus(vec![]);
    let mut ui = CardUI::new(CardDisplays::new(b, MUX, PANEL), table);
    let h = hand(&[
        Card::new(Suit::Spades, Value::Nine, true),
        Card::new(Suit::Hearts, Value::King, false),
    ]);
    assert!(ui.update_dealer_hand(&h).is_ok());
    let writes = log.borrow();
    // Four clears, a procedural face (broken picture), then the back picture.
    assert_eq!(writes.len(), 4 * 131 + 135 + 67);
    for ch in 0..4u8 {
        assert_clear(&writes[ch as usize * 131..(ch as usize + 1) * 131], ch);
    }
    assert_eq!(writes[4 * 131], (MUX, vec![0x01]));
    let face_row = &writes[4 * 131 + 134].1;
    assert_eq!((face_row[0], face_row[1]), (0x40, 0xFF));
    assert_eq!(writes[4 * 131 + 135], (MUX, vec![0x02]));
    assert!(writes[4 * 131 + 138].1[1..].iter().all(|b| *b == 0xFF));
}

#[test]
fn player_hand_goes_to_player_panels() {
    let (b, log) = bus(vec![]);
    let mut ui = CardUI::new(CardDisplays::new(b, MUX, PANEL), Vec::new());
    let h = hand(&[Card::new(Suit::Clubs, Value::Five, true)]);
    assert!(ui.update_player_hand(&h).is_ok());
    let writes = log.borrow();
    assert_eq!(writes.len(), 4 * 131 + 135);
    assert_eq!(writes[0], (MUX, vec![0x10]));
    assert_eq!(writes[3 * 131], (MUX, vec![0x80]));
    assert_eq!(writes[4 * 131], (MUX, vec![0x10]));
}

#[test]
fn one_failing_panel_does_not_stop_the_others() {
    // The first write of the second clear fails.
    let (b, log) = bus(vec![131]);
    let mut ui = CardUI::new(CardDisplays::new(b, MUX, PANEL), Vec::new());
    let h = hand(&[Card::new(Suit::Clubs, Value::Five, true)]);
    assert_eq!(ui.update_dealer_hand(&h), Err(131));
    assert_eq!(log.borrow().len(), 131 + 1 + 2 * 131 + 135);
}

#[test]
fn card_ui_init_and_clear() {
    let (b, log) = bus(vec![]);
    let mut ui = CardUI::new(CardDisplays::new(b, MUX, PANEL), Vec::new());
    assert!(ui.init_all_displays().is_ok());
    assert_eq!(log.borrow().len(), 8 * 157 + 1);
    log.borrow_mut().clear();
    assert!(ui.clear_all().is_ok());
    assert_eq!(log.borrow().len(), 8 * 131);
    log.borrow_mut().clear();
    let card = Card::new(Suit::Clubs, Value::Five, false);
    assert!(ui.display_card_with_image(&card, DisplayPosition::PlayerCard4).is_ok());
    assert_eq!(log.borrow()[0], (MUX, vec![0x80]));
}
