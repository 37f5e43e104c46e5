use blackjack_core::{PBMError, PBMImage};

fn checker_on(x: u16, y: u16) -> bool {
    (x + y) % 2 == 0
}

fn checker_p4() -> Vec<u8> {
    let mut data = b"P4\n8 8\n".to_vec();
    for y in 0..8 {
        data.push(if y % 2 == 0 { 0xAA } else { 0x55 });
    }
    data
}

fn checker_p1() -> Vec<u8> {
    let mut data = b"P1\n# checkerboard\n8 8\n".to_vec();
    for y in 0..8u16 {
        for x in 0..8u16 {
            data.push(if checker_on(x, y) { b'1' } else { b'0' });
            data.push(b' ');
        }
        data.push(b'\n');
    }
    data
}

fn decode(data: &[u8]) -> Result<PBMImage, PBMError> {
    PBMImage::new(data)
}

#[test]
fn binary_checkerboard_decodes_exactly() {
    let img = decode(&checker_p4()).unwrap();
    assert_eq!(img.width(), 8);
    assert_eq!(img.height(), 8);
    for y in 0..8 {
        for x in 0..8 {
            assert_eq!(img.get_pixel(x, y), checker_on(x, y), "pixel {} {}", x, y);
        }
    }
}

#[test]
fn ascii_checkerboard_matches_binary() {
    let a = decode(&checker_p1()).unwrap();
    let b = decode(&checker_p4()).unwrap();
    assert_eq!((a.width(), a.height()), (b.width(), b.height()));
    for y in 0..8 {
        for x in 0..8 {
            assert_eq!(a.get_pixel(x, y), b.get_pixel(x, y));
        }
    }
}

#[test]
fn one_pixel_on_fills_the_panel() {
    let img = decode(b"P1 1 1 1").unwrap();
    let buf = img.to_display_buffer(128, 64).unwrap();
    assert_eq!(buf.len(), 1024);
    assert!(buf.iter().all(|b| *b == 0xFF));
}

#[test]
fn one_pixel_off_leaves_the_panel_dark() {
    let img = decode(b"P1 1 1 0").unwrap();
    let buf = img.to_display_buffer(128, 64).unwrap();
    assert!(buf.iter().all(|b| *b == 0));
}

#[test]
fn rescale_packs_rows_into_page_bits() {
    // 2x2: top-left and bottom-right on, scaled to 4x8 (one page).
    let img = decode(b"P1\n2 2\n1 0\n0 1\n").unwrap();
    let buf = img.to_display_buffer(4, 8).unwrap();
    assert_eq!(buf.len(), 4);
    // Columns 0-1 sample source column 0: rows 0-3 on. Columns 2-3: rows 4-7 on.
    assert_eq!(buf[0], 0x0F);
    assert_eq!(buf[1], 0x0F);
    assert_eq!(buf[2], 0xF0);
    assert_eq!(buf[3], 0xF0);
}

#[test]
fn partial_last_page_leaves_missing_rows_off() {
    let img = decode(b"P1 1 1 1").unwrap();
    let buf = img.to_display_buffer(3, 10).unwrap();
    assert_eq!(buf.len(), 6);
    assert_eq!(&buf[0..3], &[0xFF, 0xFF, 0xFF]);
    assert_eq!(&buf[3..6], &[0x03, 0x03, 0x03]);
}

#[test]
fn oversized_target_is_buffer_full() {
    let img = decode(b"P1 1 1 1").unwrap();
    assert!(matches!(img.to_display_buffer(128, 72), Err(PBMError::BufferFull)));
    assert!(img.to_display_buffer(128, 64).is_ok());
}

#[test]
fn empty_image_rescales_to_dark() {
    let img = decode(b"P4 0 0 ").unwrap();
    let buf = img.to_display_buffer(8, 8).unwrap();
    assert_eq!(buf.len(), 8);
    assert!(buf.iter().all(|b| *b == 0));
}

#[test]
fn wide_source_is_sampled_without_overflow() {
    let mut data = b"P4\n1024 1\n".to_vec();
    data.extend(std::iter::repeat(0xFFu8).take(128));
    let img = decode(&data).unwrap();
    assert_eq!(img.width(), 1024);
    let buf = img.to_display_buffer(128, 64).unwrap();
    assert!(buf.iter().all(|b| *b == 0xFF));
}

#[test]
fn rows_are_padded_to_whole_bytes() {
    // 3 pixels per row, rows 101 and 010, each padded to a byte.
    let data = [b'P', b'4', b' ', b'3', b' ', b'2', b'\n', 0b1010_0000, 0b0100_0000];
    let img = decode(&data).unwrap();
    let want = [true, false, true, false, true, false];
    for i in 0..6u16 {
        assert_eq!(img.get_pixel(i % 3, i / 3), want[i as usize]);
    }
}

#[test]
fn two_counts_as_on_in_ascii() {
    let img = decode(b"P1 3 1 2 0 1").unwrap();
    assert!(img.get_pixel(0, 0));
    assert!(!img.get_pixel(1, 0));
    assert!(img.get_pixel(2, 0));
}

#[test]
fn ascii_digits_need_no_separator() {
    let img = decode(b"P1 3 1\n101").unwrap();
    assert!(img.get_pixel(0, 0) && !img.get_pixel(1, 0) && img.get_pixel(2, 0));
}

#[test]
fn comments_anywhere_in_the_header() {
    let img = decode(b"# lead\nP1 # after magic\n2 # after width\n1\n# before data\n1 1").unwrap();
    assert_eq!((img.width(), img.height()), (2, 1));
    assert!(img.get_pixel(1, 0));
}

#[test]
fn pixel_outside_is_off() {
    let img = decode(b"P1 1 1 1").unwrap();
    assert!(img.get_pixel(0, 0));
    assert!(!img.get_pixel(1, 0));
    assert!(!img.get_pixel(0, 1));
}

#[test]
fn bad_magic_is_invalid() {
    assert!(matches!(decode(b"P0 1 1 1"), Err(PBMError::InvalidFormat)));
    assert!(matches!(decode(b"Q1 1 1 1"), Err(PBMError::InvalidFormat)));
    assert!(matches!(decode(b"P"), Err(PBMError::InvalidFormat)));
    assert!(matches!(decode(b""), Err(PBMError::InvalidFormat)));
}

#[test]
fn bad_dimensions_are_invalid() {
    assert!(matches!(decode(b"P1 x 1 1"), Err(PBMError::InvalidFormat)));
    assert!(matches!(decode(b"P1 1"), Err(PBMError::InvalidFormat)));
    assert!(matches!(decode(b"P1 70000 1"), Err(PBMError::InvalidFormat)));
}

#[test]
fn too_many_pixels_is_buffer_full() {
    assert!(matches!(decode(b"P1 100 100 "), Err(PBMError::BufferFull)));
    assert!(matches!(decode(b"P4 8193 1 "), Err(PBMError::BufferFull)));
}

#[test]
fn truncated_data_is_invalid() {
    assert!(matches!(decode(b"P1 2 2 1 0 1"), Err(PBMError::InvalidFormat)));
    let mut data = checker_p4();
    data.pop();
    assert!(matches!(decode(&data), Err(PBMError::InvalidFormat)));
}

#[test]
fn stray_ascii_pixel_is_invalid() {
    assert!(matches!(decode(b"P1 2 1 1 7"), Err(PBMError::InvalidFormat)));
}

#[test]
fn largest_image_is_accepted() {
    let mut data = b"P4 128 64\n".to_vec();
    data.extend(std::iter::repeat(0u8).take(1024));
    let img = decode(&data).unwrap();
    assert_eq!((img.width(), img.height()), (128, 64));
}
