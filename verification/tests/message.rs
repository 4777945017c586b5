use stegano_core::{ContentVersion, LSBCodec, Message, PixelBuffer, SteganoError};

fn carrier(width: u32, height: u32, fill: u8) -> PixelBuffer {
    let samples = vec![fill; (width * height * 4) as usize];
    PixelBuffer::from_raw(width, height, samples).expect("samples cover the grid")
}

fn carrying(bytes: &[u8], width: u32, height: u32, fill: u8) -> LSBCodec {
    let mut writer = LSBCodec::new(carrier(width, height, fill));
    assert_eq!(writer.write_all(bytes), Ok(()));
    LSBCodec::new(writer.finish())
}

#[test]
fn version_tags() {
    assert_eq!(ContentVersion::V4.to_u8(), 0x04);
    assert_eq!(ContentVersion::from_u8(0x04), Some(ContentVersion::V4));
    for tag in 0..=255u8 {
        if tag != 0x04 {
            assert_eq!(ContentVersion::from_u8(tag), None);
        }
    }
}

#[test]
fn empty_message_is_tag_and_zero_length() {
    let message = Message::empty();
    assert_eq!(message.header, ContentVersion::V4);
    assert!(message.files.is_empty());
    assert_eq!(message.text, None);
    assert_eq!(message.serialize(), Ok(vec![0x04, 0, 0, 0, 0]));
}

#[test]
fn one_file_on_the_wire() {
    let mut message = Message::empty();
    message.add_file_data("a", vec![1, 2, 3]);
    assert_eq!(
        message.serialize(),
        Ok(vec![
            0x04, // tag
            0, 0, 0, 12, // payload length
            0, 0, 0, 1, b'a', // name
            0, 0, 0, 3, 1, 2, 3, // content
        ])
    );
}

#[test]
fn text_goes_first_under_the_empty_name() {
    let mut message = Message::new(vec![("f".to_string(), vec![9])]);
    message.text = Some("hi".to_string());
    assert_eq!(
        message.serialize(),
        Ok(vec![
            0x04, //
            0, 0, 0, 20, //
            0, 0, 0, 0, 0, 0, 0, 2, b'h', b'i', //
            0, 0, 0, 1, b'f', 0, 0, 0, 1, 9,
        ])
    );
}

#[test]
fn lengths_are_big_endian() {
    let mut message = Message::empty();
    message.add_file_data("n", vec![0xEE; 0x0102]);
    let bytes = message.serialize().unwrap();
    assert_eq!(&bytes[..5], &[0x04, 0, 0, 0x01, 0x0B]);
    assert_eq!(&bytes[5..14], &[0, 0, 0, 1, b'n', 0, 0, 0x01, 0x02]);
    assert_eq!(bytes.len(), 5 + 9 + 0x0102);
}

#[test]
fn names_are_written_in_utf8() {
    let mut message = Message::empty();
    message.add_file_data("é.txt", vec![]);
    let bytes = message.serialize().unwrap();
    assert_eq!(
        bytes,
        vec![0x04, 0, 0, 0, 14, 0, 0, 0, 6, 0xC3, 0xA9, b'.', b't', b'x', b't', 0, 0, 0, 0]
    );
    let read = Message::of(&mut carrying(&bytes, 8, 8, 0)).unwrap();
    assert_eq!(read.files, vec![("é.txt".to_string(), vec![])]);
}

#[test]
fn files_keep_their_order_and_may_share_a_name() {
    let mut message = Message::empty();
    message.add_file_data("x", vec![1]);
    message.add_file_data("y", vec![2, 2]);
    message.add_file_data("x", vec![3, 3, 3]);
    let bytes = message.serialize().unwrap();
    let read = Message::of(&mut carrying(&bytes, 16, 16, 0xFF)).unwrap();
    assert_eq!(read.header, ContentVersion::V4);
    assert_eq!(read.text, None);
    assert_eq!(
        read.files,
        vec![
            ("x".to_string(), vec![1]),
            ("y".to_string(), vec![2, 2]),
            ("x".to_string(), vec![3, 3, 3]),
        ]
    );
}

#[test]
fn text_is_read_back_as_the_first_entry() {
    let mut message = Message::new(vec![("f".to_string(), vec![9])]);
    message.text = Some("hello".to_string());
    let bytes = message.serialize().unwrap();
    let read = Message::of(&mut carrying(&bytes, 16, 16, 0xFF)).unwrap();
    assert_eq!(
        read.files,
        vec![(String::new(), b"hello".to_vec()), ("f".to_string(), vec![9])]
    );
}

#[test]
fn reading_stops_behind_the_message() {
    let mut message = Message::empty();
    message.add_file_data("a", vec![1, 2, 3]);
    let bytes = message.serialize().unwrap();
    // whatever the carrier holds behind the message is not looked at
    for fill in [0x00u8, 0xFF, 0x04] {
        let mut codec = carrying(&bytes, 16, 16, fill);
        let before = codec.remaining();
        let read = Message::of(&mut codec).unwrap();
        assert_eq!(read.files, vec![("a".to_string(), vec![1, 2, 3])]);
        assert_eq!(before - codec.remaining(), 8 * bytes.len());
    }
}

#[test]
fn unknown_tag_is_refused_and_nothing_more_is_read() {
    for tag in [0x00u8, 0x01, 0x02, 0x03, 0x05, 0xFF] {
        let mut codec = carrying(&[tag, 0, 0, 0, 0], 8, 8, 0);
        let before = codec.remaining();
        assert_eq!(Message::of(&mut codec).err(), Some(SteganoError::UnknownVersion));
        assert_eq!(before - codec.remaining(), 8);
    }
}

#[test]
fn carrier_without_a_byte_is_of_unknown_format() {
    let mut codec = LSBCodec::new(carrier(1, 2, 0));
    assert_eq!(Message::of(&mut codec).err(), Some(SteganoError::UnknownVersion));
    let mut codec = LSBCodec::new(carrier(0, 0, 0));
    assert_eq!(Message::of(&mut codec).err(), Some(SteganoError::UnknownVersion));
}

#[test]
fn carrier_that_ends_in_the_length_is_malformed() {
    // 2 x 4 pixels: 24 bits, the tag and two bytes
    let mut codec = carrying(&[0x04, 0, 0], 2, 4, 0);
    assert_eq!(Message::of(&mut codec).err(), Some(SteganoError::MalformedEntry));
}

#[test]
fn payload_longer_than_the_carrier_is_malformed() {
    // all ones after the tag: a payload of 4 GiB is announced
    let mut codec = carrying(&[0x04], 8, 8, 0xFF);
    assert_eq!(Message::of(&mut codec).err(), Some(SteganoError::MalformedEntry));
    assert_eq!(codec.remaining(), 0);
}

#[test]
fn entry_that_reaches_beyond_the_payload_is_malformed() {
    // payload of 9 bytes, whose entry announces a content of 2 bytes and has 1
    let bytes = [0x04, 0, 0, 0, 9, 0, 0, 0, 0, 0, 0, 0, 2, 7];
    let mut codec = carrying(&bytes, 8, 8, 0);
    assert_eq!(Message::of(&mut codec).err(), Some(SteganoError::MalformedEntry));
    // a name that reaches beyond the payload
    let bytes = [0x04, 0, 0, 0, 8, 0, 0, 0, 5, b'a', b'b', b'c', b'd'];
    let mut codec = carrying(&bytes, 8, 8, 0);
    assert_eq!(Message::of(&mut codec).err(), Some(SteganoError::MalformedEntry));
    // an entry cut off within its first length
    let bytes = [0x04, 0, 0, 0, 3, 0, 0, 0];
    let mut codec = carrying(&bytes, 8, 8, 0);
    assert_eq!(Message::of(&mut codec).err(), Some(SteganoError::MalformedEntry));
}

#[test]
fn name_that_is_not_utf8_is_malformed() {
    let bytes = [0x04, 0, 0, 0, 10, 0, 0, 0, 2, 0xC3, 0x28, 0, 0, 0, 0];
    let mut codec = carrying(&bytes, 8, 8, 0);
    assert_eq!(Message::of(&mut codec).err(), Some(SteganoError::MalformedEntry));
}

#[test]
fn payload_of_no_entries_is_an_empty_message() {
    let mut codec = carrying(&[0x04, 0, 0, 0, 0], 8, 8, 0xFF);
    let read = Message::of(&mut codec).unwrap();
    assert!(read.files.is_empty());
    assert_eq!(read.text, None);
}

#[test]
fn error_messages() {
    assert_eq!(SteganoError::CapacityExceeded.message(), "message does not fit into the carrier image");
    assert_eq!(SteganoError::UnknownVersion.message(), "unknown content version");
    assert_eq!(SteganoError::MalformedEntry.message(), "malformed message entry");
    assert_eq!(SteganoError::CarrierUnreadable.message(), "carrier image is not readable");
    assert_eq!(SteganoError::CarrierUnwritable.message(), "carrier image cannot be written");
    assert_eq!(SteganoError::OutputSinkUnwritable.message(), "output cannot be written");
    assert_eq!(
        SteganoError::UnsupportedMultiFileUnveil.message(),
        "more than one content file is not supported"
    );
}

#[test]
fn from_bytes_reads_what_serialize_wrote() {
    let mut message = Message::new(vec![("a.txt".to_string(), vec![1, 2, 3])]);
    message.add_file_data("b", Vec::new());
    let bytes = message.serialize().unwrap();
    assert_eq!(Message::from_bytes(&bytes), Ok(message.clone()));
    let mut longer = bytes.clone();
    longer.extend_from_slice(&[0xFF, 0x00, 0x04]);
    assert_eq!(Message::from_bytes(&longer), Ok(message));
}

#[test]
fn from_bytes_refuses_what_is_no_message() {
    assert_eq!(Message::from_bytes(&[]), Err(SteganoError::UnknownVersion));
    assert_eq!(Message::from_bytes(&[0x03, 0, 0, 0, 0]), Err(SteganoError::UnknownVersion));
    assert_eq!(Message::from_bytes(&[0x04]), Err(SteganoError::MalformedEntry));
    assert_eq!(Message::from_bytes(&[0x04, 0, 0, 0]), Err(SteganoError::MalformedEntry));
    assert_eq!(Message::from_bytes(&[0x04, 0, 0, 0, 1]), Err(SteganoError::MalformedEntry));
    assert_eq!(Message::from_bytes(&[0x04, 0, 0, 0, 1, 0]), Err(SteganoError::MalformedEntry));
    assert_eq!(
        Message::from_bytes(&[0x04, 0, 0, 0, 8, 0, 0, 0, 0, 0, 0, 0, 0]),
        Ok(Message::new(vec![(String::new(), Vec::new())]))
    );
    assert_eq!(
        Message::from_bytes(&[0x04, 0, 0, 0, 9, 0, 0, 0, 0, 0, 0, 0, 0, 7]),
        Err(SteganoError::MalformedEntry)
    );
}
