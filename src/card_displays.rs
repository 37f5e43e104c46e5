//! The eight card panels, each a 128x64 page-addressed display reached
//! through its own multiplexer channel, driven with raw bus commands.
use vstd::prelude::*;
use crate::card::Card;
use crate::pbm_image::{PBMImage, parse_pbm, display_bytes};
use crate::storage::{buffer_bytes, buffer_vec_len, buffer_vec_at};
use crate::i2c_mux::{BusWrite, BusAttempt, I2cBus, TCA9548A, issued, all_succeeded, select_write, lemma_issued_then, lemma_issued_stop};

verus! {

/// The physical panel positions: four for the dealer, four for the player.
#[derive(Debug, Clone, Copy, PartialEq, Eq, Structural)]
pub enum DisplayPosition {
    DealerCard1,
    DealerCard2,
    DealerCard3,
    DealerCard4,
    PlayerCard1,
    PlayerCard2,
    PlayerCard3,
    PlayerCard4,
}

/// The multiplexer channel wired to each position.
pub open spec fn position_channel(p: DisplayPosition) -> u8 {
    match p {
        DisplayPosition::DealerCard1 => 0,
        DisplayPosition::DealerCard2 => 1,
        DisplayPosition::DealerCard3 => 2,
        DisplayPosition::DealerCard4 => 3,
        DisplayPosition::PlayerCard1 => 4,
        DisplayPosition::PlayerCard2 => 5,
        DisplayPosition::PlayerCard3 => 6,
        DisplayPosition::PlayerCard4 => 7,
    }
}

impl DisplayPosition {
    /// Convert to MUX channel number
    pub fn channel(&self) -> (r: u8)
        ensures
            r == position_channel(*self),
    {
        match self {
            DisplayPosition::DealerCard1 => 0,
            DisplayPosition::DealerCard2 => 1,
            DisplayPosition::DealerCard3 => 2,
            DisplayPosition::DealerCard4 => 3,
            DisplayPosition::PlayerCard1 => 4,
            DisplayPosition::PlayerCard2 => 5,
            DisplayPosition::PlayerCard3 => 6,
            DisplayPosition::PlayerCard4 => 7,
        }
    }
}

/// Prefix byte of a command write.
pub const COMMAND: u8 = 0x00;

/// Prefix byte of a data write.
pub const DATA: u8 = 0x40;

/// Panel width in pixels (columns).
pub const PANEL_WIDTH: u16 = 128;

/// Panel height in pixels (eight pages of eight rows).
pub const PANEL_HEIGHT: u16 = 64;

/// Data bytes per chunk when streaming to a panel.
pub const CHUNK: usize = 16;

/// The panel bring-up opcodes, in order: display off, clock divider,
/// multiplex ratio, display offset, start line, charge pump on, horizontal
/// addressing, segment remap, scan direction, COM pins, contrast,
/// precharge, VCOM level, resume from RAM, normal polarity, display on.
pub open spec fn init_opcodes() -> Seq<u8> {
    seq![
        0xAEu8, 0xD5, 0x80, 0xA8, 0x3F, 0xD3, 0x00, 0x40, 0x8D, 0x14, 0x20, 0x00, 0xA1,
        0xC8, 0xDA, 0x12, 0x81, 0xCF, 0xD9, 0xF1, 0xDB, 0x40, 0xA4, 0xA6, 0xAF,
    ]
}

/// One write per bring-up opcode, each as a command.
pub open spec fn bring_up_writes(address: u8) -> Seq<BusWrite> {
    Seq::new(init_opcodes().len(), |i: int| (address, seq![COMMAND, init_opcodes()[i]]))
}

/// Sets the address window to all 128 columns and all 8 pages.
pub open spec fn full_window_writes(address: u8) -> Seq<BusWrite> {
    seq![(address, seq![COMMAND, 0x21u8, 0x00, 0x7F]), (address, seq![COMMAND, 0x22u8, 0x00, 0x07])]
}

/// A data write of sixteen zero bytes.
pub open spec fn zero_chunk() -> Seq<u8> {
    Seq::new(17, |i: int| if i == 0 { DATA } else { 0u8 })
}

/// Zeroes the whole panel: 128 chunks of sixteen bytes.
pub open spec fn zero_fill_writes(address: u8) -> Seq<BusWrite> {
    Seq::new(128, |i: int| (address, zero_chunk()))
}

/// Clearing a panel: select its channel, set the full window, zero it.
pub open spec fn clear_writes(mux_address: u8, channel: u8, address: u8) -> Seq<BusWrite> {
    seq![select_write(mux_address, channel)] + full_window_writes(address) + zero_fill_writes(address)
}

/// Bringing a panel up: select its channel, send the bring-up opcodes, clear it.
pub open spec fn init_writes(mux_address: u8, channel: u8, address: u8) -> Seq<BusWrite> {
    seq![select_write(mux_address, channel)] + bring_up_writes(address) + clear_writes(mux_address, channel, address)
}

/// The writes of `f(0)`, `f(1)`, ..., `f(n - 1)`, one after another.
pub open spec fn over_channels(n: nat, f: spec_fn(u8) -> Seq<BusWrite>) -> Seq<BusWrite>
    decreases n,
{
    if n == 0 {
        Seq::empty()
    } else {
        over_channels((n - 1) as nat, f) + f((n - 1) as u8)
    }
}

proof fn lemma_over_channels_prefix(i: nat, n: nat, f: spec_fn(u8) -> Seq<BusWrite>)
    requires
        i <= n,
    ensures
        over_channels(i, f).len() <= over_channels(n, f).len(),
        over_channels(n, f).take(over_channels(i, f).len() as int) == over_channels(i, f),
    decreases n,
{
    if i < n {
        lemma_over_channels_prefix(i, (n - 1) as nat, f);
        let a = over_channels(i, f);
        let b = over_channels((n - 1) as nat, f);
        assert((b + f((n - 1) as u8)).take(a.len() as int) =~= b.take(a.len() as int));
    } else {
        assert(over_channels(n, f).take(over_channels(n, f).len() as int) =~= over_channels(n, f));
    }
}

/// Bringing up all eight panels, channel 0 to 7, then selecting channel 0.
pub open spec fn init_all_writes(mux_address: u8, address: u8) -> Seq<BusWrite> {
    over_channels(8, |ch: u8| init_writes(mux_address, ch, address)) + seq![select_write(mux_address, 0)]
}

/// Clearing all eight panels, channel 0 to 7.
pub open spec fn clear_all_writes(mux_address: u8, address: u8) -> Seq<BusWrite> {
    over_channels(8, |ch: u8| clear_writes(mux_address, ch, address))
}

/// The number of chunks of at most sixteen bytes that `len` bytes take.
pub open spec fn chunk_count(len: nat) -> nat {
    (len + 15) / 16
}

/// Streams bytes as data writes of up to sixteen bytes each, in order.
pub open spec fn data_chunks(address: u8, bytes: Seq<u8>) -> Seq<BusWrite> {
    Seq::new(
        chunk_count(bytes.len()),
        |i: int| (address, seq![DATA] + bytes.subrange(16 * i, if 16 * i + 16 <= bytes.len() { 16 * i + 16 } else { bytes.len() as int })),
    )
}

/// Painting a buffer: select the channel, set the full window, stream the bytes.
pub open spec fn paint_writes(mux_address: u8, channel: u8, address: u8, bytes: Seq<u8>) -> Seq<BusWrite> {
    seq![select_write(mux_address, channel)] + full_window_writes(address) + data_chunks(address, bytes)
}

/// The data write of a card outline's top edge (after the data prefix, one
/// byte per column): solid for a card's back; for its face, solid columns at
/// both ends with a single lit row between them.
pub open spec fn outline_row(face_up: bool) -> Seq<u8> {
    if face_up {
        Seq::new(90, |i: int| if i == 1 || i == 89 { 0xFFu8 } else { DATA })
    } else {
        Seq::new(90, |i: int| if i == 0 { DATA } else { 0xFFu8 })
    }
}

/// Drawing the outline: window columns 20 to 108 of page 1, then the row.
pub open spec fn outline_writes(address: u8, face_up: bool) -> Seq<BusWrite> {
    seq![
        (address, seq![COMMAND, 0x21u8, 20, 108]),
        (address, seq![COMMAND, 0x22u8, 1, 1]),
        (address, outline_row(face_up)),
    ]
}

/// Drawing a card without a bitmap: select, clear, outline.
pub open spec fn procedural_card_writes(mux_address: u8, channel: u8, address: u8, face_up: bool) -> Seq<BusWrite> {
    seq![select_write(mux_address, channel)] + clear_writes(mux_address, channel, address) + outline_writes(address, face_up)
}

/// A panel driver behind the multiplexer, which owns the bus; every access
/// selects its panel's channel first, since another caller may have moved it.
pub struct CardDisplays<I> {
    mux: TCA9548A<I>,
    display_address: u8,
}

impl<I> CardDisplays<I> {
    /// Every write issued on the bus, oldest first.
    pub closed spec fn writes(&self) -> Seq<BusAttempt> {
        self.mux.writes()
    }

    pub closed spec fn mux_address(&self) -> u8 {
        self.mux.mux_address()
    }

    /// The bus address that every panel answers at on its channel.
    pub closed spec fn panel_address(&self) -> u8 {
        self.display_address
    }

    /// Create a new card display manager
    pub fn new(i2c: I, mux_address: u8, display_address: u8) -> (r: Self)
        ensures
            r.writes() == Seq::<BusAttempt>::empty(),
            r.mux_address() == mux_address,
            r.panel_address() == display_address,
    {
        CardDisplays { mux: TCA9548A::new(i2c, mux_address), display_address }
    }
}

impl<I: I2cBus> CardDisplays<I> {
    /// Writes to the panel on whichever channel is selected.
    fn send(&mut self, bytes: &[u8]) -> (r: Result<(), I::Error>)
        ensures
            final(self).writes() == old(self).writes().push(((old(self).panel_address(), bytes@), r is Ok)),
            final(self).mux_address() == old(self).mux_address(),
            final(self).panel_address() == old(self).panel_address(),
    {
        self.mux.write_to(self.display_address, bytes)
    }

    fn select(&mut self, position: DisplayPosition) -> (r: Result<(), I::Error>)
        ensures
            issued(old(self).writes(), final(self).writes(), seq![select_write(old(self).mux_address(), position_channel(position))], r is Ok),
            final(self).mux_address() == old(self).mux_address(),
            final(self).panel_address() == old(self).panel_address(),
    {
        self.mux.select_channel(position.channel())
    }

    /// Sets the full window and streams zeros over it, on the selected channel.
    fn zero_fill(&mut self) -> (r: Result<(), I::Error>)
        ensures
            issued(old(self).writes(), final(self).writes(),
                full_window_writes(old(self).panel_address()) + zero_fill_writes(old(self).panel_address()), r is Ok),
            final(self).mux_address() == old(self).mux_address(),
            final(self).panel_address() == old(self).panel_address(),
    {
        let ghost a = self.display_address;
        let ghost start = self.writes();
        let ghost all = full_window_writes(a) + zero_fill_writes(a);
        let column_window: [u8; 4] = [COMMAND, 0x21, 0x00, 0x7F];
        let page_window: [u8; 4] = [COMMAND, 0x22, 0x00, 0x07];
        let chunk: [u8; 17] = [DATA, 0, 0, 0, 0, 0, 0, 0, 0, 0, 0, 0, 0, 0, 0, 0, 0];
        assert(column_window@ =~= seq![COMMAND, 0x21u8, 0x00, 0x7F]);
        assert(page_window@ =~= seq![COMMAND, 0x22u8, 0x00, 0x07]);
        assert(chunk@ =~= zero_chunk());
        let r1 = self.send(&column_window);
        if r1.is_err() {
            assert(self.writes() =~= start + all_succeeded(all.take(0)).push((all[0], false)));
            return r1;
        }
        let r2 = self.send(&page_window);
        if r2.is_err() {
            assert(self.writes() =~= start + all_succeeded(all.take(1)).push((all[1], false)));
            return r2;
        }
        assert(self.writes() =~= start + all_succeeded(all.take(2)));
        let mut k: usize = 0;
        while k < 128
            invariant
                k <= 128,
                a == self.panel_address(),
                all == full_window_writes(a) + zero_fill_writes(a),
                all.len() == 130,
                chunk@ == zero_chunk(),
                self.writes() == start + all_succeeded(all.take(2 + k)),
                start == old(self).writes(),
                self.mux_address() == old(self).mux_address(),
                a == old(self).panel_address(),
            decreases 128 - k,
        {
            let r = self.send(&chunk);
            assert(all[2 + k] == (a, chunk@));
            if r.is_err() {
                assert(self.writes() =~= start + all_succeeded(all.take(2 + k)).push((all[2 + k], false)));
                return r;
            }
            assert(all_succeeded(all.take(2 + k + 1)) =~= all_succeeded(all.take(2 + k)).push((all[2 + k], true)));
            k = k + 1;
        }
        assert(all.take(130) =~= all);
        Ok(())
    }

    /// Clears a panel: selects its channel, sets the full window and zeroes it.
    fn clear_display_raw(&mut self, position: DisplayPosition) -> (r: Result<(), I::Error>)
        ensures
            issued(old(self).writes(), final(self).writes(),
                clear_writes(old(self).mux_address(), position_channel(position), old(self).panel_address()), r is Ok),
            final(self).mux_address() == old(self).mux_address(),
            final(self).panel_address() == old(self).panel_address(),
    {
        let ghost w1 = seq![select_write(self.mux_address(), position_channel(position))];
        let ghost w2 = full_window_writes(self.panel_address()) + zero_fill_writes(self.panel_address());
        let ghost l0 = self.writes();
        assert(clear_writes(self.mux_address(), position_channel(position), self.panel_address()) =~= w1 + w2);
        let r1 = self.select(position);
        if r1.is_err() {
            proof {
                assert((w1 + w2).take(w1.len() as int) =~= w1);
                lemma_issued_stop(l0, self.writes(), w1, w1 + w2);
            }
            return r1;
        }
        let ghost l1 = self.writes();
        let r2 = self.zero_fill();
        proof { lemma_issued_then(l0, l1, self.writes(), w1, w2, r2 is Ok); }
        r2
    }

    /// Writes each row to the panel in order, stopping at the first failure.
    fn send_all(&mut self, rows: &Vec<Vec<u8>>) -> (r: Result<(), I::Error>)
        ensures
            issued(old(self).writes(), final(self).writes(),
                Seq::new(rows@.len(), |i: int| (old(self).panel_address(), rows@[i]@)), r is Ok),
            final(self).mux_address() == old(self).mux_address(),
            final(self).panel_address() == old(self).panel_address(),
    {
        let ghost start = self.writes();
        let ghost all = Seq::new(rows@.len(), |i: int| (self.panel_address(), rows@[i]@));
        let mut k: usize = 0;
        while k < rows.len()
            invariant
                k <= rows@.len(),
                all == Seq::new(rows@.len(), |i: int| (old(self).panel_address(), rows@[i]@)),
                start == old(self).writes(),
                self.writes() == start + all_succeeded(all.take(k as int)),
                self.mux_address() == old(self).mux_address(),
                self.panel_address() == old(self).panel_address(),
            decreases rows@.len() - k,
        {
            let r = self.send(rows[k].as_slice());
            if r.is_err() {
                assert(self.writes() =~= start + all_succeeded(all.take(k as int)).push((all[k as int], false)));
                return r;
            }
            assert(all_succeeded(all.take(k + 1)) =~= all_succeeded(all.take(k as int)).push((all[k as int], true)));
            k = k + 1;
        }
        assert(all.take(rows@.len() as int) =~= all);
        Ok(())
    }

    /// Brings one panel up: selects its channel, sends the bring-up
    /// opcodes, then clears it.
    fn init_display(&mut self, position: DisplayPosition) -> (r: Result<(), I::Error>)
        ensures
            issued(old(self).writes(), final(self).writes(),
                init_writes(old(self).mux_address(), position_channel(position), old(self).panel_address()), r is Ok),
            final(self).mux_address() == old(self).mux_address(),
            final(self).panel_address() == old(self).panel_address(),
    {
        let ghost m = self.mux_address();
        let ghost a = self.panel_address();
        let ghost ch = position_channel(position);
        let ghost l0 = self.writes();
        let ghost w1 = seq![select_write(m, ch)];
        let ghost w2 = bring_up_writes(a);
        let ghost w3 = clear_writes(m, ch, a);
        assert(init_writes(m, ch, a) =~= w1 + w2 + w3);
        let r1 = self.select(position);
        if r1.is_err() {
            proof {
                assert((w1 + w2 + w3).take(w1.len() as int) =~= w1);
                lemma_issued_stop(l0, self.writes(), w1, w1 + w2 + w3);
            }
            return r1;
        }
        let ghost l1 = self.writes();
        let opcodes: [u8; 25] = [
            0xAE, 0xD5, 0x80, 0xA8, 0x3F, 0xD3, 0x00, 0x40, 0x8D, 0x14, 0x20, 0x00, 0xA1,
            0xC8, 0xDA, 0x12, 0x81, 0xCF, 0xD9, 0xF1, 0xDB, 0x40, 0xA4, 0xA6, 0xAF,
        ];
        assert(opcodes@ =~= init_opcodes());
        let mut rows: Vec<Vec<u8>> = Vec::new();
        let mut k: usize = 0;
        while k < 25
            invariant
                k <= 25,
                opcodes@ == init_opcodes(),
                rows@.len() == k,
                forall|i: int| 0 <= i < k ==> (#[trigger] rows@[i])@ == seq![COMMAND, init_opcodes()[i]],
            decreases 25 - k,
        {
            let row = vec![COMMAND, opcodes[k]];
            assert(row@ =~= seq![COMMAND, init_opcodes()[k as int]]);
            rows.push(row);
            k = k + 1;
        }
        let r2 = self.send_all(&rows);
        assert(Seq::new(rows@.len(), |i: int| (a, rows@[i]@)) =~= w2);
        proof { lemma_issued_then(l0, l1, self.writes(), w1, w2, r2 is Ok); }
        if r2.is_err() {
            proof {
                assert((w1 + w2 + w3).take((w1 + w2).len() as int) =~= w1 + w2);
                lemma_issued_stop(l0, self.writes(), w1 + w2, w1 + w2 + w3);
            }
            return r2;
        }
        let ghost l2 = self.writes();
        let r3 = self.clear_display_raw(position);
        proof { lemma_issued_then(l0, l2, self.writes(), w1 + w2, w3, r3 is Ok); }
        r3
    }

    /// Brings up all eight panels in position order, stopping at the first
    /// failure, then returns the multiplexer to channel 0.
    pub fn init_all_displays(&mut self) -> (r: Result<(), I::Error>)
        ensures
            issued(old(self).writes(), final(self).writes(),
                init_all_writes(old(self).mux_address(), old(self).panel_address()), r is Ok),
            final(self).mux_address() == old(self).mux_address(),
            final(self).panel_address() == old(self).panel_address(),
    {
        let ghost m = self.mux_address();
        let ghost a = self.panel_address();
        let ghost f = |ch: u8| init_writes(m, ch, a);
        let ghost all = init_all_writes(m, a);
        let ghost start = self.writes();
        let positions: [DisplayPosition; 8] = [
            DisplayPosition::DealerCard1,
            DisplayPosition::DealerCard2,
            DisplayPosition::DealerCard3,
            DisplayPosition::DealerCard4,
            DisplayPosition::PlayerCard1,
            DisplayPosition::PlayerCard2,
            DisplayPosition::PlayerCard3,
            DisplayPosition::PlayerCard4,
        ];
        let mut i: usize = 0;
        while i < 8
            invariant
                i <= 8,
                forall|j: int| 0 <= j < 8 ==> position_channel(#[trigger] positions@[j]) == j,
                m == old(self).mux_address(),
                a == old(self).panel_address(),
                f == (|ch: u8| init_writes(m, ch, a)),
                all == over_channels(8, f) + seq![select_write(m, 0)],
                start == old(self).writes(),
                issued(start, self.writes(), over_channels(i as nat, f), true),
                self.mux_address() == m,
                self.panel_address() == a,
            decreases 8 - i,
        {
            let ghost li = self.writes();
            let r = self.init_display(positions[i]);
            proof {
                lemma_issued_then(start, li, self.writes(), over_channels(i as nat, f), f(i as u8), r is Ok);
                assert(over_channels(i as nat, f) + f(i as u8) == over_channels((i + 1) as nat, f));
            }
            if r.is_err() {
                proof {
                    lemma_over_channels_prefix((i + 1) as nat, 8, f);
                    let w = over_channels((i + 1) as nat, f);
                    assert(all.take(w.len() as int) =~= over_channels(8, f).take(w.len() as int));
                    lemma_issued_stop(start, self.writes(), w, all);
                }
                return r;
            }
            i = i + 1;
        }
        let ghost l8 = self.writes();
        let r = self.mux.select_channel(0);
        proof {
            assert(issued(start, l8, over_channels(8, f), true));
            lemma_issued_then(start, l8, self.writes(), over_channels(8, f), seq![select_write(m, 0)], r is Ok);
        }
        r
    }

    /// Paints a display buffer onto a panel: selects its channel, sets the
    /// full window, then streams the buffer as data chunks of up to sixteen
    /// bytes.
    pub fn paint(&mut self, buffer: &heapless::Vec<u8, 1024>, position: DisplayPosition) -> (r: Result<(), I::Error>)
        ensures
            issued(old(self).writes(), final(self).writes(),
                paint_writes(old(self).mux_address(), position_channel(position), old(self).panel_address(), buffer_bytes(*buffer)),
                r is Ok),
            final(self).mux_address() == old(self).mux_address(),
            final(self).panel_address() == old(self).panel_address(),
    {
        let ghost m = self.mux_address();
        let ghost a = self.panel_address();
        let ghost bytes = buffer_bytes(*buffer);
        let ghost l0 = self.writes();
        let ghost w1 = seq![select_write(m, position_channel(position))] + full_window_writes(a);
        let ghost w2 = data_chunks(a, bytes);
        assert(paint_writes(m, position_channel(position), a, bytes) =~= w1 + w2);
        let r1 = self.select(position);
        if r1.is_err() {
            proof {
                let s = seq![select_write(m, position_channel(position))];
                assert((w1 + w2).take(1) =~= s);
                lemma_issued_stop(l0, self.writes(), s, w1 + w2);
            }
            return r1;
        }
        let column_window: [u8; 4] = [COMMAND, 0x21, 0x00, 0x7F];
        let page_window: [u8; 4] = [COMMAND, 0x22, 0x00, 0x07];
        assert(column_window@ =~= seq![COMMAND, 0x21u8, 0x00, 0x7F]);
        assert(page_window@ =~= seq![COMMAND, 0x22u8, 0x00, 0x07]);
        let ghost w = w1 + w2;
        assert(self.writes() =~= l0 + all_succeeded(w.take(1)));
        let r2 = self.send(&column_window);
        if r2.is_err() {
            assert(self.writes() =~= l0 + all_succeeded(w.take(1)).push((w[1], false)));
            return r2;
        }
        let r3 = self.send(&page_window);
        if r3.is_err() {
            assert(self.writes() =~= l0 + all_succeeded(w.take(2)).push((w[2], false)));
            return r3;
        }
        assert(w1.len() == 3);
        assert(self.writes() =~= l0 + all_succeeded(w1));
        let ghost l1 = self.writes();
        let len = buffer_vec_len(buffer);
        let count: usize = (len + 15) / 16;
        let mut rows: Vec<Vec<u8>> = Vec::new();
        let mut k: usize = 0;
        while k < count
            invariant
                len == bytes.len(),
                len <= 1024,
                bytes == buffer_bytes(*buffer),
                count == chunk_count(len as nat),
                k <= count,
                rows@.len() == k,
                forall|i: int| 0 <= i < rows@.len() ==> (#[trigger] rows@[i])@ == data_chunks(a, bytes)[i].1,
            decreases count - k,
        {
            assert(16 * k < len) by (nonlinear_arith)
                requires k < count, count == (len + 15) / 16;
            let pos: usize = 16 * k;
            let size: usize = if len - pos < CHUNK { len - pos } else { CHUNK };
            let mut chunk: Vec<u8> = Vec::new();
            chunk.push(DATA);
            let mut j: usize = 0;
            while j < size
                invariant
                    len == bytes.len(),
                    bytes == buffer_bytes(*buffer),
                    pos < len,
                    size <= len - pos,
                    j <= size,
                    chunk@ == seq![DATA] + bytes.subrange(pos as int, pos + j),
                decreases size - j,
            {
                let b = buffer_vec_at(buffer, pos + j);
                assert(bytes.subrange(pos as int, pos + j + 1) =~= bytes.subrange(pos as int, pos + j as int).push(b));
                chunk.push(b);
                j = j + 1;
            }
            assert(chunk@ == data_chunks(a, bytes)[k as int].1);
            rows.push(chunk);
            k = k + 1;
        }
        assert(rows@.len() == chunk_count(bytes.len()));
        let r4 = self.send_all(&rows);
        assert(Seq::new(rows@.len(), |i: int| (a, rows@[i]@)) =~= w2);
        proof { lemma_issued_then(l0, l1, self.writes(), w1, w2, r4 is Ok); }
        r4
    }

    /// Decodes a bitmap, rescales it to the panel and paints it. A bitmap
    /// that does not decode is skipped: nothing is written and the call
    /// succeeds.
    pub fn display_pbm_image(&mut self, image_data: &[u8], position: DisplayPosition) -> (r: Result<(), I::Error>)
        ensures
            match parse_pbm(image_data@) {
                Ok(img) => issued(old(self).writes(), final(self).writes(),
                    paint_writes(old(self).mux_address(), position_channel(position), old(self).panel_address(),
                        display_bytes(img, PANEL_WIDTH, PANEL_HEIGHT)), r is Ok),
                Err(_) => r is Ok && final(self).writes() == old(self).writes(),
            },
            final(self).mux_address() == old(self).mux_address(),
            final(self).panel_address() == old(self).panel_address(),
    {
        let image = match PBMImage::new(image_data) {
            Ok(img) => img,
            Err(_) => return Ok(()),
        };
        let buffer = match image.to_display_buffer(PANEL_WIDTH, PANEL_HEIGHT) {
            Ok(buf) => buf,
            Err(_) => return Ok(()),
        };
        self.paint(&buffer, position)
    }

    /// Draws a card without a bitmap: selects the channel, clears the
    /// panel, then draws the top edge of an outline, solid for a face-down
    /// card and bordered for a face-up one.
    pub fn display_card(&mut self, card: &Card, position: DisplayPosition) -> (r: Result<(), I::Error>)
        ensures
            issued(old(self).writes(), final(self).writes(),
                procedural_card_writes(old(self).mux_address(), position_channel(position), old(self).panel_address(), card.is_face_up),
                r is Ok),
            final(self).mux_address() == old(self).mux_address(),
            final(self).panel_address() == old(self).panel_address(),
    {
        let ghost m = self.mux_address();
        let ghost a = self.panel_address();
        let ghost ch = position_channel(position);
        let ghost l0 = self.writes();
        let ghost w1 = seq![select_write(m, ch)];
        let ghost w2 = clear_writes(m, ch, a);
        let ghost w3 = outline_writes(a, card.is_face_up);
        assert(procedural_card_writes(m, ch, a, card.is_face_up) =~= w1 + w2 + w3);
        let r1 = self.select(position);
        if r1.is_err() {
            proof {
                assert((w1 + w2 + w3).take(w1.len() as int) =~= w1);
                lemma_issued_stop(l0, self.writes(), w1, w1 + w2 + w3);
            }
            return r1;
        }
        let ghost l1 = self.writes();
        let r2 = self.clear_display_raw(position);
        proof { lemma_issued_then(l0, l1, self.writes(), w1, w2, r2 is Ok); }
        if r2.is_err() {
            proof {
                assert((w1 + w2 + w3).take((w1 + w2).len() as int) =~= w1 + w2);
                lemma_issued_stop(l0, self.writes(), w1 + w2, w1 + w2 + w3);
            }
            return r2;
        }
        let ghost l2 = self.writes();
        let r3 = self.draw_outline(card.is_face_up);
        proof { lemma_issued_then(l0, l2, self.writes(), w1 + w2, w3, r3 is Ok); }
        r3
    }

    /// The top edge of a card outline in columns 20 to 108 of page 1.
    fn draw_outline(&mut self, face_up: bool) -> (r: Result<(), I::Error>)
        ensures
            issued(old(self).writes(), final(self).writes(), outline_writes(old(self).panel_address(), face_up), r is Ok),
            final(self).mux_address() == old(self).mux_address(),
            final(self).panel_address() == old(self).panel_address(),
    {
        let mut row: Vec<u8> = Vec::new();
        let mut i: usize = 0;
        while i < 90
            invariant
                i <= 90,
                row@ == outline_row(face_up).take(i as int),
            decreases 90 - i,
        {
            let b: u8 = if face_up {
                if i == 1 || i == 89 { 0xFF } else { DATA }
            } else {
                if i == 0 { DATA } else { 0xFF }
            };
            assert(outline_row(face_up).take(i + 1) =~= outline_row(face_up).take(i as int).push(b));
            row.push(b);
            i = i + 1;
        }
        assert(row@ =~= outline_row(face_up));
        let rows: Vec<Vec<u8>> = vec![vec![COMMAND, 0x21, 20, 108], vec![COMMAND, 0x22, 1, 1], row];
        let r = self.send_all(&rows);
        assert(Seq::new(rows@.len(), |i: int| (old(self).panel_address(), rows@[i]@)) =~= outline_writes(old(self).panel_address(), face_up));
        r
    }

    /// Clears a specific display
    pub fn clear_display(&mut self, position: DisplayPosition) -> (r: Result<(), I::Error>)
        ensures
            issued(old(self).writes(), final(self).writes(),
                clear_writes(old(self).mux_address(), position_channel(position), old(self).panel_address()), r is Ok),
            final(self).mux_address() == old(self).mux_address(),
            final(self).panel_address() == old(self).panel_address(),
    {
        self.clear_display_raw(position)
    }

    /// Clears all eight panels in position order, stopping at the first failure.
    pub fn clear_all_displays(&mut self) -> (r: Result<(), I::Error>)
        ensures
            issued(old(self).writes(), final(self).writes(),
                clear_all_writes(old(self).mux_address(), old(self).panel_address()), r is Ok),
            final(self).mux_address() == old(self).mux_address(),
            final(self).panel_address() == old(self).panel_address(),
    {
        let ghost m = self.mux_address();
        let ghost a = self.panel_address();
        let ghost f = |ch: u8| clear_writes(m, ch, a);
        let ghost start = self.writes();
        let positions: [DisplayPosition; 8] = [
            DisplayPosition::DealerCard1,
            DisplayPosition::DealerCard2,
            DisplayPosition::DealerCard3,
            DisplayPosition::DealerCard4,
            DisplayPosition::PlayerCard1,
            DisplayPosition::PlayerCard2,
            DisplayPosition::PlayerCard3,
            DisplayPosition::PlayerCard4,
        ];
        let mut i: usize = 0;
        while i < 8
            invariant
                i <= 8,
                forall|j: int| 0 <= j < 8 ==> position_channel(#[trigger] positions@[j]) == j,
                m == old(self).mux_address(),
                a == old(self).panel_address(),
                f == (|ch: u8| clear_writes(m, ch, a)),
                start == old(self).writes(),
                issued(start, self.writes(), over_channels(i as nat, f), true),
                self.mux_address() == m,
                self.panel_address() == a,
            decreases 8 - i,
        {
            let ghost li = self.writes();
            let r = self.clear_display(positions[i]);
            proof {
                lemma_issued_then(start, li, self.writes(), over_channels(i as nat, f), f(i as u8), r is Ok);
                assert(over_channels(i as nat, f) + f(i as u8) == over_channels((i + 1) as nat, f));
            }
            if r.is_err() {
                proof {
                    lemma_over_channels_prefix((i + 1) as nat, 8, f);
                    lemma_issued_stop(start, self.writes(), over_channels((i + 1) as nat, f), over_channels(8, f));
                }
                return r;
            }
            i = i + 1;
        }
        Ok(())
    }
}

} // verus!
