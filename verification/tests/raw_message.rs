use stegano_core::{LSBCodec, PixelBuffer, RawMessage, SteganoError};

fn carrier(width: u32, height: u32, fill: u8) -> PixelBuffer {
    let samples = vec![fill; (width * height * 4) as usize];
    PixelBuffer::from_raw(width, height, samples).expect("samples cover the grid")
}

#[test]
fn raw_message_of_length_zero_reads_no_bit() {
    let mut codec = LSBCodec::new(carrier(4, 4, 0xFF));
    let message = RawMessage::of(&mut codec, Some(0));
    assert!(message.content.is_empty());
    assert_eq!(codec.remaining(), 48);
}

#[test]
fn raw_message_of_given_length() {
    let mut writer = LSBCodec::new(carrier(4, 4, 0));
    writer.write(RawMessage::new(vec![10, 20, 30, 40]).serialize());
    let mut codec = LSBCodec::new(writer.finish());
    assert_eq!(RawMessage::of(&mut codec, Some(3)).content, vec![10, 20, 30]);
    assert_eq!(codec.remaining(), 24);
}

#[test]
fn raw_message_without_length_takes_all_whole_bytes() {
    // 3 x 3 pixels carry 27 bits: three bytes and three bits
    let mut codec = LSBCodec::new(carrier(3, 3, 0xFF));
    assert_eq!(RawMessage::of(&mut codec, None).content, vec![0xFF; 3]);
    assert_eq!(codec.remaining(), 0);
}

#[test]
fn raw_message_longer_than_the_carrier_is_cut() {
    let mut codec = LSBCodec::new(carrier(3, 3, 0));
    assert_eq!(RawMessage::of(&mut codec, Some(100)).content, vec![0; 3]);
    assert_eq!(codec.remaining(), 0);
}

#[test]
fn raw_message_serializes_to_its_content() {
    let message = RawMessage::new(vec![1, 2, 3]);
    assert_eq!(message.serialize(), &[1, 2, 3]);
    assert_eq!(RawMessage::new(Vec::new()).serialize(), &[] as &[u8]);
}

#[test]
fn raw_message_embedded_is_read_back() {
    let message = RawMessage::new(vec![0xDE, 0xAD, 0xBE, 0xEF]);
    let image = message.embed_in(carrier(4, 4, 0x7F)).unwrap();
    let mut codec = LSBCodec::new(image);
    assert_eq!(RawMessage::of(&mut codec, Some(4)), message);
}

#[test]
fn raw_message_that_does_not_fit_is_refused() {
    // 4 x 4 pixels carry 48 bits: six bytes
    let fits = RawMessage::new(vec![1; 6]);
    assert!(fits.embed_in(carrier(4, 4, 0)).is_ok());
    let too_long = RawMessage::new(vec![1; 7]);
    assert_eq!(
        too_long.embed_in(carrier(4, 4, 0)).err(),
        Some(SteganoError::CapacityExceeded)
    );
}
