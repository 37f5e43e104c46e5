//! Portable bitmaps, in the ASCII (`P1`) and binary (`P4`) forms, and their
//! conversion to the page-packed buffer of a 128x64 panel.
use vstd::prelude::*;
use vstd::arithmetic::div_mod::lemma_fundamental_div_mod_converse;
use crate::storage::{
    pixel_bits, pixel_vec_new, pixel_vec_push, pixel_vec_at, buffer_bytes, buffer_vec_new, buffer_vec_push,
};

verus! {

/// Most pixels a bitmap may hold.
pub const MAX_PIXELS: usize = 8192;

/// Most bytes a display buffer may hold.
pub const MAX_BUFFER: usize = 1024;

/// Bytes of the format's text, in ASCII.
pub const SPACE: u8 = 0x20;
pub const TAB: u8 = 0x09;
pub const LINE_FEED: u8 = 0x0A;
pub const CARRIAGE_RETURN: u8 = 0x0D;
pub const HASH: u8 = 0x23;
pub const DIGIT_0: u8 = 0x30;
pub const DIGIT_1: u8 = 0x31;
pub const DIGIT_2: u8 = 0x32;
pub const DIGIT_4: u8 = 0x34;
pub const DIGIT_9: u8 = 0x39;
pub const LETTER_P: u8 = 0x50;

/// Why a bitmap was refused.
#[derive(Debug, Clone, Copy, PartialEq, Eq, Structural)]
pub enum PBMError {
    InvalidFormat,
    BufferFull,
}

pub open spec fn is_space(b: u8) -> bool {
    b == SPACE || b == TAB || b == LINE_FEED || b == CARRIAGE_RETURN
}

pub open spec fn is_line_end(b: u8) -> bool {
    b == LINE_FEED || b == CARRIAGE_RETURN
}

pub open spec fn is_digit(b: u8) -> bool {
    DIGIT_0 <= b <= DIGIT_9
}

/// Where scanning stops when skipping whitespace and `#` comments from
/// `pos`; `in_comment` says whether `pos` lies inside a comment, which runs
/// up to and including the next line end.
pub open spec fn skip_from(data: Seq<u8>, pos: nat, in_comment: bool) -> nat
    decreases data.len() - pos,
{
    if pos >= data.len() {
        pos
    } else if in_comment {
        skip_from(data, pos + 1, !is_line_end(data[pos as int]))
    } else if is_space(data[pos as int]) {
        skip_from(data, pos + 1, false)
    } else if data[pos as int] == HASH {
        skip_from(data, pos + 1, true)
    } else {
        pos
    }
}

/// First position at or after `pos` that is not a decimal digit.
pub open spec fn digits_end(data: Seq<u8>, pos: nat) -> nat
    decreases data.len() - pos,
{
    if pos < data.len() && is_digit(data[pos as int]) {
        digits_end(data, pos + 1)
    } else {
        pos
    }
}

/// The decimal number written by the bytes from `from` up to `to`.
pub open spec fn digits_value(data: Seq<u8>, from: nat, to: nat) -> nat
    decreases to - from,
{
    if to <= from {
        0
    } else {
        digits_value(data, from, (to - 1) as nat) * 10 + (data[to - 1] - DIGIT_0) as nat
    }
}

/// A number at `pos` and the position after its digits: there must be at
/// least one digit, and the number must fit in 16 bits.
pub open spec fn number_at(data: Seq<u8>, pos: nat) -> Result<(u16, nat), PBMError> {
    let end = digits_end(data, pos);
    if end == pos || digits_value(data, pos, end) > 0xFFFF {
        Err(PBMError::InvalidFormat)
    } else {
        Ok((digits_value(data, pos, end) as u16, end))
    }
}

/// The header: magic `P1` or `P4`, width, height, each after optional
/// whitespace and comments. Gives the format digit, the dimensions and where
/// the pixel data starts (after any whitespace and comments).
pub open spec fn header(data: Seq<u8>) -> Result<(u8, u16, u16, nat), PBMError> {
    let p = skip_from(data, 0, false);
    if p + 1 >= data.len() || data[p as int] != LETTER_P || (data[p + 1int] != DIGIT_1 && data[p + 1int] != DIGIT_4) {
        Err(PBMError::InvalidFormat)
    } else {
        match number_at(data, skip_from(data, p + 2, false)) {
            Err(e) => Err(e),
            Ok((w, e1)) => match number_at(data, skip_from(data, e1, false)) {
                Err(e) => Err(e),
                Ok((h, e2)) => Ok((data[p + 1int], w, h, skip_from(data, e2, false))),
            },
        }
    }
}

/// Reads `count` more ASCII pixels from `pos`, after those already in
/// `acc`: each is one digit after optional whitespace and comments, `0` for
/// off, `1` or `2` for on. None if the data ends first or holds another byte.
pub open spec fn p1_scan(data: Seq<u8>, pos: nat, count: nat, acc: Seq<bool>) -> Option<Seq<bool>>
    decreases count,
{
    if count == 0 {
        Some(acc)
    } else {
        let q = skip_from(data, pos, false);
        if q >= data.len() {
            None
        } else if data[q as int] == DIGIT_0 {
            p1_scan(data, q + 1, (count - 1) as nat, acc.push(false))
        } else if data[q as int] == DIGIT_1 || data[q as int] == DIGIT_2 {
            p1_scan(data, q + 1, (count - 1) as nat, acc.push(true))
        } else {
            None
        }
    }
}

/// Bytes per row of binary pixel data: each row is padded to a whole byte.
pub open spec fn row_stride(width: nat) -> nat {
    (width + 7) / 8
}

/// Where the byte holding binary pixel `i` (row-major) lies.
pub open spec fn p4_byte_index(start: nat, width: nat, i: nat) -> nat {
    start + (i / width) * row_stride(width) + (i % width) / 8
}

/// Pixel `x` of a row, within its byte: most significant bit first.
pub open spec fn p4_bit(byte: u8, x: nat) -> bool {
    (byte >> ((7 - x % 8) as u8)) & 1u8 == 1u8
}

/// Whether the data holds the byte of every one of the `width * height` pixels.
pub open spec fn p4_complete(data: Seq<u8>, start: nat, width: nat, height: nat) -> bool {
    forall|i: nat| i < width * height ==> #[trigger] p4_byte_index(start, width, i) < data.len()
}

/// The binary pixels, row-major.
pub open spec fn p4_pixels(data: Seq<u8>, start: nat, width: nat, height: nat) -> Seq<bool> {
    Seq::new(
        width * height,
        |i: int| p4_bit(data[p4_byte_index(start, width, i as nat) as int], (i % width as int) as nat),
    )
}

/// A decoded bitmap.
pub struct BitmapView {
    pub width: u16,
    pub height: u16,
    pub pixels: Seq<bool>,
}

/// What decoding a bitmap file gives: its header, then at most 8192 pixels,
/// read in the form that the magic names; a missing pixel is an invalid file.
pub open spec fn parse_pbm(data: Seq<u8>) -> Result<BitmapView, PBMError> {
    match header(data) {
        Err(e) => Err(e),
        Ok((format, w, h, start)) => if w * h > MAX_PIXELS {
            Err(PBMError::BufferFull)
        } else if format == DIGIT_1 {
            match p1_scan(data, start, (w * h) as nat, Seq::empty()) {
                None => Err(PBMError::InvalidFormat),
                Some(pixels) => Ok(BitmapView { width: w, height: h, pixels }),
            }
        } else if p4_complete(data, start, w as nat, h as nat) {
            Ok(BitmapView { width: w, height: h, pixels: p4_pixels(data, start, w as nat, h as nat) })
        } else {
            Err(PBMError::InvalidFormat)
        },
    }
}

/// The pixel at column `x`, row `y`; off outside the bitmap.
pub open spec fn pixel_at(img: BitmapView, x: int, y: int) -> bool {
    0 <= x < img.width && 0 <= y < img.height && img.pixels[y * img.width + x]
}

proof fn lemma_p1_scan_len(data: Seq<u8>, pos: nat, count: nat, acc: Seq<bool>)
    ensures
        p1_scan(data, pos, count, acc) matches Some(px) ==> px.len() == acc.len() + count,
    decreases count,
{
    if count > 0 {
        let q = skip_from(data, pos, false);
        lemma_p1_scan_len(data, q + 1, (count - 1) as nat, acc.push(false));
        lemma_p1_scan_len(data, q + 1, (count - 1) as nat, acc.push(true));
    }
}

/// Source column sampled for target column `col` (nearest neighbour).
pub open spec fn source_x(img: BitmapView, target_width: u16, col: int) -> int {
    if img.width > 0 { col * img.width / target_width as int } else { 0 }
}

/// Source row sampled for target row `y` (nearest neighbour).
pub open spec fn source_y(img: BitmapView, target_height: u16, y: int) -> int {
    if img.height > 0 { y * img.height / target_height as int } else { 0 }
}

/// Whether target pixel `(col, y)` is on once the bitmap is rescaled.
pub open spec fn sample_on(img: BitmapView, target_width: u16, target_height: u16, col: int, y: int) -> bool {
    y < target_height && pixel_at(img, source_x(img, target_width, col), source_y(img, target_height, y))
}

/// The low `n` bits of a page byte: bit `k` is row `page * 8 + k` of column `col`.
pub open spec fn page_bits(img: BitmapView, target_width: u16, target_height: u16, page: int, col: int, n: nat) -> u8
    decreases n,
{
    if n == 0 {
        0
    } else {
        let low = page_bits(img, target_width, target_height, page, col, (n - 1) as nat);
        if sample_on(img, target_width, target_height, col, page * 8 + n - 1) {
            low | (1u8 << ((n - 1) as u8))
        } else {
            low
        }
    }
}

/// Pages of eight rows needed for a height.
pub open spec fn page_count(target_height: u16) -> nat {
    ((target_height + 7) / 8) as nat
}

/// The rescaled bitmap packed page by page, each page column by column,
/// one byte per column of a page.
pub open spec fn display_bytes(img: BitmapView, target_width: u16, target_height: u16) -> Seq<u8> {
    Seq::new(
        page_count(target_height) * (target_width as nat),
        |k: int| page_bits(img, target_width, target_height, k / target_width as int, k % target_width as int, 8),
    )
}

proof fn lemma_page_bits_bit(img: BitmapView, tw: u16, th: u16, page: int, col: int, n: nat)
    requires
        n <= 8,
    ensures
        forall|b: u8| b < 8 ==> ((#[trigger] (page_bits(img, tw, th, page, col, n) >> b) & 1u8 == 1u8)
            <==> (b < n && sample_on(img, tw, th, col, page * 8 + b))),
    decreases n,
{
    if n > 0 {
        lemma_page_bits_bit(img, tw, th, page, col, (n - 1) as nat);
        let low = page_bits(img, tw, th, page, col, (n - 1) as nat);
        let m = (n - 1) as u8;
        assert forall|b: u8| b < 8 implies ((#[trigger] (page_bits(img, tw, th, page, col, n) >> b) & 1u8 == 1u8)
            <==> (b < n && sample_on(img, tw, th, col, page * 8 + b))) by {
            assert(((low | (1u8 << m)) >> b) & 1u8 == (if b == m { 1u8 } else { (low >> b) & 1u8 })) by (bit_vector)
                requires m < 8, b < 8;
            assert(((low >> m) & 1u8 == 1u8) == false);
        }
    } else {
        assert forall|b: u8| b < 8 implies (#[trigger] (0u8 >> b) & 1u8) != 1u8 by {
            assert((0u8 >> b) & 1u8 == 0u8) by (bit_vector);
        }
    }
}

/// Bit `b` of display byte `k` is on exactly when the target pixel in
/// column `k % width`, row `(k / width) * 8 + b` samples an on pixel.
pub proof fn lemma_display_bit(img: BitmapView, target_width: u16, target_height: u16, k: int, b: u8)
    requires
        0 <= k < display_bytes(img, target_width, target_height).len(),
        b < 8,
    ensures
        ((display_bytes(img, target_width, target_height)[k] >> b) & 1u8 == 1u8) == sample_on(
            img,
            target_width,
            target_height,
            k % target_width as int,
            (k / target_width as int) * 8 + b,
        ),
{
    lemma_page_bits_bit(img, target_width, target_height, k / target_width as int, k % target_width as int, 8);
}

fn is_whitespace(byte: u8) -> (r: bool)
    ensures
        r == is_space(byte),
{
    byte == SPACE || byte == TAB || byte == LINE_FEED || byte == CARRIAGE_RETURN
}

/// Skips whitespace and comment lines (from `#` to the line end) from `pos`.
fn skip_whitespace_and_comments(data: &[u8], pos: usize) -> (r: usize)
    requires
        pos <= data@.len(),
    ensures
        r == skip_from(data@, pos as nat, false),
        pos <= r <= data@.len(),
{
    let mut p = pos;
    let mut in_comment = false;
    while p < data.len()
        invariant
            pos <= p <= data@.len(),
            skip_from(data@, p as nat, in_comment) == skip_from(data@, pos as nat, false),
        decreases data@.len() - p,
    {
        let b = data[p];
        if in_comment {
            in_comment = !(b == LINE_FEED || b == CARRIAGE_RETURN);
        } else if is_whitespace(b) {
            in_comment = false;
        } else if b == HASH {
            in_comment = true;
        } else {
            return p;
        }
        p = p + 1;
    }
    p
}

proof fn lemma_digits_value_grows(data: Seq<u8>, from: nat, to: nat)
    requires
        from <= to < data.len(),
        is_digit(data[to as int]),
    ensures
        digits_value(data, from, to + 1) == digits_value(data, from, to) * 10 + (data[to as int] - DIGIT_0),
        digits_value(data, from, to + 1) >= digits_value(data, from, to),
{
}

/// Reads a decimal number at `pos`: its value and the position after it.
fn parse_number(data: &[u8], pos: usize) -> (r: Result<(u16, usize), PBMError>)
    requires
        pos <= data@.len(),
    ensures
        match r {
            Ok((v, end)) => number_at(data@, pos as nat) == Ok::<(u16, nat), PBMError>((v, end as nat)),
            Err(e) => number_at(data@, pos as nat) == Err::<(u16, nat), PBMError>(e),
        },
        r matches Ok((_, end)) ==> end <= data@.len(),
{
    let mut end = pos;
    let mut value: u32 = 0;
    let mut too_big = false;
    while end < data.len() && DIGIT_0 <= data[end] && data[end] <= DIGIT_9
        invariant
            pos <= end <= data@.len(),
            digits_end(data@, end as nat) == digits_end(data@, pos as nat),
            !too_big ==> value == digits_value(data@, pos as nat, end as nat) && value <= 0xFFFF,
            too_big ==> digits_value(data@, pos as nat, end as nat) > 0xFFFF,
        decreases data@.len() - end,
    {
        proof { lemma_digits_value_grows(data@, pos as nat, end as nat); }
        if !too_big {
            let next = value * 10 + (data[end] - DIGIT_0) as u32;
            if next > 0xFFFF {
                too_big = true;
            } else {
                value = next;
            }
        }
        end = end + 1;
    }
    if end == pos || too_big {
        return Err(PBMError::InvalidFormat);
    }
    Ok((value as u16, end))
}

/// A decoded monochrome bitmap of at most 8192 pixels.
pub struct PBMImage {
    width: u16,
    height: u16,
    pixels: heapless::Vec<bool, 8192>,
}

impl View for PBMImage {
    type V = BitmapView;

    closed spec fn view(&self) -> BitmapView {
        BitmapView { width: self.width, height: self.height, pixels: pixel_bits(self.pixels) }
    }
}

impl PBMImage {
    #[verifier::type_invariant]
    spec fn inv(self) -> bool {
        &&& pixel_bits(self.pixels).len() == self.width * self.height
        &&& self.width * self.height <= MAX_PIXELS
    }

    /// Decodes a `P1` or `P4` bitmap.
    pub fn new(data: &[u8]) -> (r: Result<Self, PBMError>)
        ensures
            match r {
                Ok(img) => parse_pbm(data@) == Ok::<BitmapView, PBMError>(img@),
                Err(e) => parse_pbm(data@) == Err::<BitmapView, PBMError>(e),
            },
    {
        let mut pos = skip_whitespace_and_comments(data, 0);
        if data.len() - pos < 2 || data[pos] != LETTER_P {
            return Err(PBMError::InvalidFormat);
        }
        let format = data[pos + 1];
        if format != DIGIT_1 && format != DIGIT_4 {
            return Err(PBMError::InvalidFormat);
        }
        pos = skip_whitespace_and_comments(data, pos + 2);
        let width = match parse_number(data, pos) {
            Ok((v, end)) => {
                pos = end;
                v
            },
            Err(e) => return Err(e),
        };
        pos = skip_whitespace_and_comments(data, pos);
        let height = match parse_number(data, pos) {
            Ok((v, end)) => {
                pos = end;
                v
            },
            Err(e) => return Err(e),
        };
        pos = skip_whitespace_and_comments(data, pos);
        assert(width as u32 * height as u32 <= 0xFFFF * 0xFFFF) by (nonlinear_arith)
            requires width <= 0xFFFF, height <= 0xFFFF;
        let total_pixels: u32 = width as u32 * height as u32;
        if total_pixels > MAX_PIXELS as u32 {
            return Err(PBMError::BufferFull);
        }
        let total_pixels = total_pixels as usize;
        let mut pixels = pixel_vec_new();
        if format == DIGIT_1 {
            match Self::parse_p1_data(data, pos, total_pixels, &mut pixels) {
                Ok(()) => {
                    proof { lemma_p1_scan_len(data@, pos as nat, total_pixels as nat, Seq::empty()); }
                },
                Err(e) => return Err(e),
            }
        } else {
            match Self::parse_p4_data(data, pos, width, height, &mut pixels) {
                Ok(()) => {},
                Err(e) => return Err(e),
            }
        }
        Ok(PBMImage { width, height, pixels })
    }

    /// Reads `total` ASCII pixels starting at `pos`.
    fn parse_p1_data(data: &[u8], pos: usize, total: usize, pixels: &mut heapless::Vec<bool, 8192>) -> (r: Result<(), PBMError>)
        requires
            pos <= data@.len(),
            total <= MAX_PIXELS,
            pixel_bits(*old(pixels)) == Seq::<bool>::empty(),
        ensures
            r is Ok ==> p1_scan(data@, pos as nat, total as nat, Seq::empty()) == Some(pixel_bits(*final(pixels))),
            r is Err ==> r == Err::<(), PBMError>(PBMError::InvalidFormat)
                && p1_scan(data@, pos as nat, total as nat, Seq::empty()) is None,
    {
        let mut p = pos;
        let mut k: usize = 0;
        while k < total
            invariant
                p <= data@.len(),
                k <= total <= MAX_PIXELS,
                pixel_bits(*pixels).len() == k,
                p1_scan(data@, p as nat, (total - k) as nat, pixel_bits(*pixels))
                    == p1_scan(data@, pos as nat, total as nat, Seq::empty()),
            decreases total - k,
        {
            p = skip_whitespace_and_comments(data, p);
            if p >= data.len() {
                return Err(PBMError::InvalidFormat);
            }
            let c = data[p];
            let on = if c == DIGIT_0 {
                false
            } else if c == DIGIT_1 || c == DIGIT_2 {
                true
            } else {
                return Err(PBMError::InvalidFormat);
            };
            let _ = pixel_vec_push(pixels, on);
            p = p + 1;
            k = k + 1;
        }
        Ok(())
    }

    /// Reads binary pixels starting at `pos`: rows of `width` bits, most
    /// significant bit first, each row padded to a whole byte.
    fn parse_p4_data(data: &[u8], pos: usize, width: u16, height: u16, pixels: &mut heapless::Vec<bool, 8192>) -> (r: Result<(), PBMError>)
        requires
            pos <= data@.len(),
            width * height <= MAX_PIXELS,
            pixel_bits(*old(pixels)) == Seq::<bool>::empty(),
        ensures
            r is Ok ==> p4_complete(data@, pos as nat, width as nat, height as nat)
                && pixel_bits(*final(pixels)) == p4_pixels(data@, pos as nat, width as nat, height as nat),
            r is Err ==> r == Err::<(), PBMError>(PBMError::InvalidFormat)
                && !p4_complete(data@, pos as nat, width as nat, height as nat),
    {
        let ghost w = width as nat;
        let ghost h = height as nat;
        let ghost all = p4_pixels(data@, pos as nat, w, h);
        let bytes_per_row: usize = (width as usize + 7) / 8;
        let mut y: usize = 0;
        while y < height as usize
            invariant
                pos <= data@.len(),
                w * h <= MAX_PIXELS,
                w == width,
                h == height,
                all == p4_pixels(data@, pos as nat, w, h),
                bytes_per_row == row_stride(w),
                y <= h,
                pixel_bits(*pixels) == all.take(y * w),
                forall|i: nat| i < y * w ==> #[trigger] p4_byte_index(pos as nat, w, i) < data@.len(),
            decreases h - y,
        {
            assert(y * w + w <= w * h) by (nonlinear_arith)
                requires y < h;
            assert(y * bytes_per_row <= 8192 * 8192) by (nonlinear_arith)
                requires y < h, h <= 65535, bytes_per_row == (w + 7) / 8, w <= 65535, w * h <= 8192;
            let mut x: usize = 0;
            while x < width as usize
                invariant
                    pos <= data@.len(),
                    w * h <= MAX_PIXELS,
                    w == width,
                    h == height,
                    all == p4_pixels(data@, pos as nat, w, h),
                    bytes_per_row == row_stride(w),
                    y < h,
                    y * w + w <= w * h,
                    y * bytes_per_row <= 8192 * 8192,
                    x <= w,
                    pixel_bits(*pixels) == all.take(y * w + x),
                    forall|i: nat| i < y * w + x ==> #[trigger] p4_byte_index(pos as nat, w, i) < data@.len(),
                decreases w - x,
            {
                let ghost i: nat = (y * w + x) as nat;
                proof {
                    lemma_fundamental_div_mod_converse(i as int, w as int, y as int, x as int);
                }
                let offset = y * bytes_per_row + x / 8;
                if offset >= data.len() - pos {
                    assert(p4_byte_index(pos as nat, w, i) >= data@.len());
                    return Err(PBMError::InvalidFormat);
                }
                let byte_pos = pos + offset;
                let bit_offset: u8 = 7 - (x % 8) as u8;
                let on = (data[byte_pos] >> bit_offset) & 1 == 1;
                assert(on == all[i as int]);
                assert(all.take(i + 1int) =~= all.take(i as int).push(on));
                let _ = pixel_vec_push(pixels, on);
                x = x + 1;
            }
            y = y + 1;
            assert((y - 1) * w + w == y * w) by (nonlinear_arith);
        }
        assert(all.take((h * w) as int) =~= all) by {
            assert(h * w == w * h) by (nonlinear_arith);
        }
        assert(h * w == w * h) by (nonlinear_arith);
        Ok(())
    }

    /// Rescales to `target_width` x `target_height` and packs the result
    /// into display pages: one byte per column of each page of eight rows,
    /// bit `n` for row `page * 8 + n`. Fails when the buffer would pass
    /// 1024 bytes.
    pub fn to_display_buffer(&self, target_width: u16, target_height: u16) -> (r: Result<heapless::Vec<u8, 1024>, PBMError>)
        ensures
            page_count(target_height) * target_width > MAX_BUFFER ==> r == Err::<heapless::Vec<u8, 1024>, PBMError>(
                PBMError::BufferFull,
            ),
            page_count(target_height) * target_width <= MAX_BUFFER ==> r is Ok && buffer_bytes(r->Ok_0) == display_bytes(
                self@,
                target_width,
                target_height,
            ),
    {
        proof { use_type_invariant(self); }
        let ghost img = self@;
        let ghost all = display_bytes(img, target_width, target_height);
        let pages: u32 = (target_height as u32 + 7) / 8;
        assert(pages as nat == page_count(target_height));
        assert(pages * target_width as u32 <= 8192 * 0xFFFF) by (nonlinear_arith)
            requires pages <= 8192, target_width <= 0xFFFF;
        if pages * target_width as u32 > MAX_BUFFER as u32 {
            return Err(PBMError::BufferFull);
        }
        let tw = target_width as u32;
        let th = target_height as u32;
        let w = self.width as u32;
        let h = self.height as u32;
        let mut buffer = buffer_vec_new();
        let mut page: u32 = 0;
        while page < pages
            invariant
                img == self@,
                all == display_bytes(img, target_width, target_height),
                pages == page_count(target_height),
                pages * tw <= MAX_BUFFER,
                tw == target_width,
                th == target_height,
                w == img.width,
                h == img.height,
                w * h <= MAX_PIXELS,
                page <= pages,
                buffer_bytes(buffer) == all.take(page * tw),
            decreases pages - page,
        {
            assert(page * tw + tw <= pages * tw) by (nonlinear_arith)
                requires page < pages;
            let mut col: u32 = 0;
            while col < tw
                invariant
                    img == self@,
                    all == display_bytes(img, target_width, target_height),
                    pages == page_count(target_height),
                    pages * tw <= MAX_BUFFER,
                    page * tw + tw <= pages * tw,
                    tw == target_width,
                    th == target_height,
                    w == img.width,
                    h == img.height,
                    w * h <= MAX_PIXELS,
                    page < pages,
                    col <= tw,
                    buffer_bytes(buffer) == all.take(page * tw + col),
                decreases tw - col,
            {
                let mut page_byte: u8 = 0;
                let mut row: u32 = 0;
                while row < 8
                    invariant
                        img == self@,
                        pages == page_count(target_height),
                        tw == target_width,
                        th == target_height,
                        w == img.width,
                        h == img.height,
                        w * h <= MAX_PIXELS,
                        page < pages,
                        col < tw,
                        row <= 8,
                        page_byte == page_bits(img, target_width, target_height, page as int, col as int, row as nat),
                    decreases 8 - row,
                {
                    let y = page * 8 + row;
                    if y < th {
                        let src_x: u32 = if w > 0 {
                            assert(col * w < tw * w) by (nonlinear_arith)
                                requires col < tw, w > 0;
                            assert(col * w <= 0xFFFF * 0xFFFF) by (nonlinear_arith)
                                requires col < tw, tw <= 0xFFFF, w <= 0xFFFF;
                            assert(((col * w) as int / tw as int) < w) by (nonlinear_arith)
                                requires col * w < tw * w, tw > 0;
                            (col * w) / tw
                        } else {
                            0
                        };
                        let src_y: u32 = if h > 0 {
                            assert(y * h < th * h) by (nonlinear_arith)
                                requires y < th, h > 0;
                            assert(y * h <= 0xFFFF * 0xFFFF) by (nonlinear_arith)
                                requires y < th, th <= 0xFFFF, h <= 0xFFFF;
                            assert(((y * h) as int / th as int) < h) by (nonlinear_arith)
                                requires y * h < th * h, th > 0;
                            (y * h) / th
                        } else {
                            0
                        };
                        if self.get_pixel(src_x as u16, src_y as u16) {
                            page_byte = page_byte | (1u8 << (row as u8));
                        }
                    }
                    row = row + 1;
                }
                proof {
                    let k = page * tw + col;
                    lemma_fundamental_div_mod_converse(k as int, tw as int, page as int, col as int);
                    assert(all.take(k + 1int) =~= all.take(k as int).push(page_byte));
                }
                let _ = buffer_vec_push(&mut buffer, page_byte);
                col = col + 1;
            }
            page = page + 1;
            assert((page - 1) * tw + tw == page * tw) by (nonlinear_arith);
        }
        assert(all.take(pages * tw) =~= all);
        Ok(buffer)
    }

    /// Get image width
    pub fn width(&self) -> (r: u16)
        ensures
            r == self@.width,
    {
        self.width
    }

    /// Get image height
    pub fn height(&self) -> (r: u16)
        ensures
            r == self@.height,
    {
        self.height
    }

    /// The pixel at `(x, y)`: true for on; off outside the bitmap.
    pub fn get_pixel(&self, x: u16, y: u16) -> (r: bool)
        ensures
            r == pixel_at(self@, x as int, y as int),
    {
        proof { use_type_invariant(self); }
        if x >= self.width || y >= self.height {
            return false;
        }
        proof {
            assert(y * self.width + x < self.width * self.height) by (nonlinear_arith)
                requires x < self.width, y < self.height;
        }
        let index = y as usize * self.width as usize + x as usize;
        pixel_vec_at(&self.pixels, index)
    }
}

} // verus!
