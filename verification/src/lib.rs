//! Least-significant-bit steganography over RGBA carrier images.
//!
//! The crate hides byte streams in the lowest bit of the colour channels of
//! a carrier image and recovers them bit-exact. It works on pixels in
//! memory: loading and saving image files is left to the caller.

pub mod bit_iterator;
pub mod decoder;
pub mod encoder;
pub mod error;
pub mod facade;
pub mod lsb_codec;
pub mod message;
pub mod pixel_buffer;
pub mod raw_message;
pub mod scan;

pub use bit_iterator::BitIterator;
pub use decoder::{unveil_from, SteganoDecoder, SteganoRawDecoder, UnveilMode};
pub use encoder::SteganoEncoder;
pub use error::SteganoError;
pub use facade::{Hide, SteganoCore, Unveil};
pub use lsb_codec::{LSBCodec, ScanCursor};
pub use message::{ContentVersion, Message};
pub use pixel_buffer::PixelBuffer;
pub use raw_message::RawMessage;
