use stegano_core::lsb_codec::ScanCursor;
use stegano_core::{LSBCodec, PixelBuffer, SteganoError};

fn carrier(width: u32, height: u32, fill: u8) -> PixelBuffer {
    let samples = vec![fill; (width * height * 4) as usize];
    PixelBuffer::from_raw(width, height, samples).expect("samples cover the grid")
}

fn samples_of(codec: LSBCodec) -> Vec<u8> {
    codec.finish().into_raw().2
}

#[test]
fn write_then_read_gives_the_bytes_back() {
    let mut writer = LSBCodec::new(carrier(4, 4, 0xAB));
    let written = writer.write(&[0b1011_0010, 0x00, 0xFF]);
    assert_eq!(written, 3);
    let mut reader = LSBCodec::new(writer.finish());
    assert_eq!(reader.read(3), vec![0b1011_0010, 0x00, 0xFF]);
}

#[test]
fn write_goes_down_the_columns_and_skips_alpha() {
    let mut codec = LSBCodec::new(carrier(2, 2, 0x80));
    assert_eq!(codec.write(&[0b1011_0010]), 1);
    assert_eq!(
        samples_of(codec),
        vec![
            0x80, 0x81, 0x80, 0x80, // (0, 0): bits 0, 1, 2
            0x80, 0x81, 0x80, 0x80, // (1, 0): bits 6, 7
            0x80, 0x81, 0x81, 0x80, // (0, 1): bits 3, 4, 5
            0x80, 0x80, 0x80, 0x80, // (1, 1): not reached
        ]
    );
}

#[test]
fn write_clears_low_bits_for_zero_bits() {
    let mut codec = LSBCodec::new(carrier(2, 2, 0xFF));
    assert_eq!(codec.write(&[0b1011_0010]), 1);
    assert_eq!(
        samples_of(codec),
        vec![
            0xFE, 0xFF, 0xFE, 0xFF, //
            0xFE, 0xFF, 0xFF, 0xFF, //
            0xFE, 0xFF, 0xFF, 0xFF, //
            0xFF, 0xFF, 0xFF, 0xFF,
        ]
    );
}

#[test]
fn write_keeps_alpha_and_high_bits() {
    let before: Vec<u8> = (0..64u32).map(|i| (i * 37 % 251) as u8).collect();
    let buffer = PixelBuffer::from_raw(4, 4, before.clone()).unwrap();
    let mut codec = LSBCodec::new(buffer);
    assert_eq!(codec.write(&[0xFF, 0x00, 0xA5, 0x5A, 0x0F, 0xF0]), 6);
    let after = samples_of(codec);
    assert_eq!(after.len(), before.len());
    for j in 0..before.len() {
        assert_eq!(after[j] & 0xFE, before[j] & 0xFE);
        if j % 4 == 3 {
            assert_eq!(after[j], before[j]);
        }
    }
}

#[test]
fn write_leaves_what_the_cursor_did_not_reach() {
    let before: Vec<u8> = (0..64u32).map(|i| (i * 29 % 256) as u8).collect();
    let buffer = PixelBuffer::from_raw(4, 4, before.clone()).unwrap();
    let mut codec = LSBCodec::new(buffer);
    // one byte: places 0..8, which are pixels (0,0), (0,1) and two channels of (0,2)
    assert_eq!(codec.write(&[0x00]), 1);
    let after = samples_of(codec);
    let visited = [0usize, 1, 2, 16, 17, 18, 32, 33];
    for j in 0..before.len() {
        if visited.contains(&j) {
            assert_eq!(after[j], before[j] & 0xFE);
        } else {
            assert_eq!(after[j], before[j]);
        }
    }
}

#[test]
fn write_counts_whole_bytes_only() {
    // 2 x 2 pixels carry 12 bits: one byte and a half
    let mut codec = LSBCodec::new(carrier(2, 2, 0x00));
    assert_eq!(codec.capacity(), 12);
    assert_eq!(codec.write(&[0xFF, 0xFF]), 1);
    assert_eq!(codec.remaining(), 0);
    assert_eq!(codec.write(&[0xFF]), 0);
    assert_eq!(
        samples_of(codec),
        vec![1, 1, 1, 0, 1, 1, 1, 0, 1, 1, 1, 0, 1, 1, 1, 0]
    );
}

#[test]
fn write_in_pieces_is_write_in_one() {
    let data: Vec<u8> = (0..40u32).map(|i| (i * 7 + 3) as u8).collect();
    let mut whole = LSBCodec::new(carrier(5, 7, 0x55));
    whole.write(&data);
    let mut pieces = LSBCodec::new(carrier(5, 7, 0x55));
    let mut written = 0;
    for chunk in data.chunks(3) {
        written += pieces.write(chunk);
    }
    // 5 x 7 pixels carry 105 bits: 13 bytes and one bit
    assert_eq!(written, 13);
    assert_eq!(whole.cursor(), pieces.cursor());
    assert_eq!(samples_of(whole), samples_of(pieces));
}

#[test]
fn cursor_moves_channel_then_row_then_column() {
    let mut codec = LSBCodec::new(carrier(3, 2, 0));
    assert_eq!(codec.cursor(), ScanCursor { x: 0, y: 0, channel: 0 });
    codec.write(&[0]);
    // 8 places on: two pixels of column 0 passed, two channels of (1, 0)
    assert_eq!(codec.cursor(), ScanCursor { x: 1, y: 0, channel: 2 });
    codec.write(&[0]);
    assert_eq!(codec.cursor(), ScanCursor { x: 2, y: 1, channel: 1 });
    assert_eq!(codec.remaining(), 2);
    codec.write(&[0]);
    assert_eq!(codec.cursor(), ScanCursor { x: 3, y: 0, channel: 0 });
    assert_eq!(codec.remaining(), 0);
}

#[test]
fn capacity_is_three_bits_per_pixel() {
    assert_eq!(LSBCodec::new(carrier(64, 64, 0)).capacity(), 12288);
    assert_eq!(LSBCodec::new(carrier(1, 1, 0)).capacity(), 3);
    assert_eq!(LSBCodec::new(carrier(0, 9, 0)).capacity(), 0);
    assert_eq!(LSBCodec::new(carrier(9, 0, 0)).capacity(), 0);
}

#[test]
fn write_all_stores_what_fits_exactly() {
    // 2 x 4 pixels carry 24 bits
    let mut codec = LSBCodec::new(carrier(2, 4, 0));
    assert_eq!(codec.write_all(&[1, 2, 3]), Ok(()));
    assert_eq!(codec.remaining(), 0);
    let mut reader = LSBCodec::new(codec.finish());
    assert_eq!(reader.read(3), vec![1, 2, 3]);
}

#[test]
fn write_all_refuses_what_does_not_fit_and_changes_nothing() {
    let mut codec = LSBCodec::new(carrier(2, 4, 0xFF));
    assert_eq!(codec.write_all(&[0, 0, 0, 0]), Err(SteganoError::CapacityExceeded));
    assert_eq!(codec.remaining(), 24);
    assert_eq!(codec.cursor(), ScanCursor { x: 0, y: 0, channel: 0 });
    assert_eq!(samples_of(codec), vec![0xFF; 32]);
}

#[test]
fn write_all_refuses_a_byte_that_fits_in_part_only() {
    // 12 bits: the second byte would fit with four bits only
    let mut codec = LSBCodec::new(carrier(2, 2, 0xFF));
    assert_eq!(codec.write_all(&[0]), Ok(()));
    assert_eq!(codec.write_all(&[0]), Err(SteganoError::CapacityExceeded));
    assert_eq!(codec.remaining(), 4);
}

#[test]
fn write_all_on_an_empty_carrier() {
    let mut codec = LSBCodec::new(carrier(0, 0, 0));
    assert_eq!(codec.write_all(&[]), Ok(()));
    assert_eq!(codec.write_all(&[1]), Err(SteganoError::CapacityExceeded));
}

#[test]
fn read_assembles_bytes_from_low_bits() {
    // places in scan order: (0,0) r g b, (0,1) r g b, (1,0) r g b, (1,1) r g b
    let samples = vec![
        0, 1, 0, 9, // (0, 0): 0 1 0
        0, 1, 7, 9, // (1, 0): 0 1 1
        0, 1, 1, 9, // (0, 1): 0 1 1
        1, 0, 1, 9, // (1, 1): 1 0 1
    ];
    let mut codec = LSBCodec::new(PixelBuffer::from_raw(2, 2, samples.clone()).unwrap());
    // bits 0 1 0 0 1 1 0 1, least significant first
    assert_eq!(codec.read(1), vec![0b1011_0010]);
    assert_eq!(codec.remaining(), 4);
    assert_eq!(samples_of(codec), samples);
}

#[test]
fn read_stops_where_the_carrier_ends() {
    let mut codec = LSBCodec::new(carrier(2, 2, 0xFF));
    assert_eq!(codec.read(5), vec![0xFF]);
    assert_eq!(codec.remaining(), 0);
    assert_eq!(codec.read(1), Vec::<u8>::new());
}

#[test]
fn read_of_nothing_reads_nothing() {
    let mut codec = LSBCodec::new(carrier(2, 2, 0xFF));
    assert_eq!(codec.read(0), Vec::<u8>::new());
    assert_eq!(codec.remaining(), 12);
    assert_eq!(codec.cursor(), ScanCursor { x: 0, y: 0, channel: 0 });
}

#[test]
fn read_goes_on_where_the_last_read_stopped() {
    let data: Vec<u8> = (0..20).collect();
    let mut writer = LSBCodec::new(carrier(8, 8, 0x33));
    assert_eq!(writer.write_all(&data), Ok(()));
    let mut reader = LSBCodec::new(writer.finish());
    let mut out = reader.read(7);
    out.extend(reader.read(1));
    out.extend(reader.read(12));
    assert_eq!(out, data);
}
