//! The entry points: one place to get an encoder or a decoder from, and the
//! two operations that they perform.

use crate::decoder::{DecoderView, RawDecoderView, SteganoDecoder, SteganoRawDecoder};
use crate::encoder::{EncoderView, SteganoEncoder};
use crate::error::SteganoError;
use crate::pixel_buffer::PixelBuffer;
use vstd::prelude::*;

verus! {

/// Hiding: from a configured carrier and message to the image to be saved
/// and the path to save it under.
pub trait Hide: Sized {
    /// Hides the message, or says why it cannot be hidden.
    fn conceal(self) -> Result<(String, PixelBuffer), SteganoError>;
}

/// Unveiling: from a configured carrier to the bytes to be written and the
/// path to write them to.
pub trait Unveil: Sized {
    /// Unveils the bytes, or says why they cannot be unveiled.
    fn unveil(self) -> Result<(String, Vec<u8>), SteganoError>;
}

/// Where encoders and decoders come from.
pub struct SteganoCore {}

impl SteganoCore {
    /// An encoder with nothing configured.
    pub fn encoder() -> (encoder: SteganoEncoder)
        ensures
            encoder@ == EncoderView::empty(),
    {
        SteganoEncoder::new()
    }

    /// A decoder of framed messages with nothing configured.
    pub fn decoder() -> (decoder: SteganoDecoder)
        ensures
            decoder@ == DecoderView::empty(),
    {
        SteganoDecoder::new()
    }

    /// A decoder of raw messages with nothing configured.
    pub fn raw_decoder() -> (decoder: SteganoRawDecoder)
        ensures
            decoder@ == RawDecoderView::empty(),
    {
        SteganoRawDecoder::new()
    }
}

} // verus!
