//! Unveiling what a carrier holds.

use crate::bit_iterator::bits_of;
use crate::encoder::EncoderView;
use crate::error::SteganoError;
use crate::facade::Unveil;
use crate::lsb_codec::{lemma_read_after_write, CodecState, LSBCodec};
use crate::message::{
    decode,
    entry_bytes,
    lemma_decode_wire,
    lemma_entries_bytes_push,
    ContentVersion,
    Message,
    MessageView,
};
use crate::pixel_buffer::{PixelBuffer, Pixels};
use crate::raw_message::{raw_bytes, RawMessage};
use crate::scan::{capacity, embed};
use vstd::prelude::*;
use vstd::utf8::encode_utf8;

verus! {

/// The bytes that `pixels` carry, from the first place on.
pub open spec fn carried(pixels: Pixels) -> Seq<u8> {
    (CodecState { pixels, position: 0 }).stream()
}

/// What unveiling a framed message from `pixels` comes to: the content of
/// the one file that the message holds, or nothing where it holds none. A
/// message of several files is refused.
pub open spec fn unveiled(pixels: Pixels) -> Result<Seq<u8>, SteganoError> {
    match decode(carried(pixels)) {
        Err(e) => Err(e),
        Ok(message) => if message.files.len() > 1 {
            Err(SteganoError::UnsupportedMultiFileUnveil)
        } else if message.files.len() == 1 {
            Ok(message.files[0].1)
        } else {
            Ok(Seq::empty())
        },
    }
}

/// What unveiling a raw message from `pixels` comes to: `length` bytes, or
/// all the whole bytes that the carrier holds where that is fewer or where
/// no length is given.
pub open spec fn unveiled_raw(pixels: Pixels, length: Option<usize>) -> Seq<u8> {
    raw_bytes(CodecState { pixels, position: 0 }, length)
}

/// How the bytes of a carrier are to be taken: as a framed message, or raw
/// with the number of bytes to take, if that is known.
#[derive(Clone, Copy, Debug, PartialEq, Eq, Structural)]
pub enum UnveilMode {
    Framed,
    Raw(Option<usize>),
}

/// What unveiling from `pixels` comes to in the given mode.
pub open spec fn unveiled_as(pixels: Pixels, mode: UnveilMode) -> Result<Seq<u8>, SteganoError> {
    match mode {
        UnveilMode::Framed => unveiled(pixels),
        UnveilMode::Raw(length) => Ok(unveiled_raw(pixels, length)),
    }
}

/// Unveils what `input` carries, in the given mode.
pub fn unveil_from(input: PixelBuffer, mode: UnveilMode) -> (result: Result<Vec<u8>, SteganoError>)
    ensures
        input@.wf(),
        match result {
            Ok(bytes) => unveiled_as(input@, mode) == Ok::<Seq<u8>, SteganoError>(bytes@),
            Err(e) => unveiled_as(input@, mode) == Err::<Seq<u8>, SteganoError>(e),
        },
{
    let mut codec = LSBCodec::new(input);
    match mode {
        UnveilMode::Framed => {
            let message = match Message::of(&mut codec) {
                Ok(message) => message,
                Err(e) => {
                    return Err(e);
                },
            };
            let Message { header: _, mut files, text: _ } = message;
            if files.len() > 1 {
                return Err(SteganoError::UnsupportedMultiFileUnveil);
            }
            match files.pop() {
                Some(file) => Ok(file.1),
                None => Ok(Vec::new()),
            }
        },
        UnveilMode::Raw(length) => Ok(RawMessage::of(&mut codec, length).content),
    }
}

/// A message that was hidden in a carrier is read back from it: the same
/// entries in the same order, all of them as files.
pub proof fn lemma_decode_hidden(carrier: Pixels, message: MessageView)
    requires
        carrier.wf(),
        message.fits_format(),
        8 * message.wire().len() <= capacity(carrier),
    ensures
        decode(carried(embed(carrier, 0, bits_of(message.wire())))) == Ok::<
            MessageView,
            SteganoError,
        >(message.as_read()),
{
    let state = CodecState { pixels: carrier, position: 0 };
    lemma_read_after_write(state, message.wire());
    lemma_decode_wire(message, state.after_write(message.wire()).stream());
}

/// Unveiling what was hidden gives the content of the one entry back, be
/// it a file or the text; nothing for a message without entries; and a
/// refusal for a message of several entries.
pub proof fn lemma_unveil_hidden(carrier: Pixels, message: MessageView)
    requires
        carrier.wf(),
        message.fits_format(),
        8 * message.wire().len() <= capacity(carrier),
    ensures
        unveiled(embed(carrier, 0, bits_of(message.wire()))) == if message.entries().len() > 1 {
            Err::<Seq<u8>, SteganoError>(SteganoError::UnsupportedMultiFileUnveil)
        } else if message.entries().len() == 1 {
            Ok(message.entries()[0].1)
        } else {
            Ok(Seq::empty())
        },
{
    lemma_decode_hidden(carrier, message);
}

/// The number of bytes that the wire form of a message of one file has
/// beside the file's content: the tag, three lengths and the name.
pub open spec fn framing_overhead(name: Seq<char>) -> nat {
    13 + encode_utf8(name).len()
}

/// Round trip: a file that is hidden in a carrier with room for it comes
/// out of the image byte for byte.
///
/// The file must also fit the format: its entry must be no longer than the
/// four bytes of the payload length can announce.
pub proof fn lemma_round_trip(
    carrier: Pixels,
    target: Seq<char>,
    output: Seq<char>,
    header: ContentVersion,
    name: Seq<char>,
    content: Seq<u8>,
)
    requires
        carrier.wf(),
        8 * content.len() + 8 * framing_overhead(name) <= capacity(carrier),
        entry_bytes((name, content)).len() <= u32::MAX,
    ensures
        ({
            let encoder = EncoderView {
                target: Some(target),
                carrier: Some(carrier),
                message: MessageView { header, files: seq![(name, content)], text: None },
            };
            &&& encoder.outcome() is Ok
            &&& (DecoderView { input: Some(encoder.outcome()->Ok_0), output: Some(output) }).outcome()
                == Ok::<Seq<u8>, SteganoError>(content)
        }),
{
    let message = MessageView { header, files: seq![(name, content)], text: None };
    lemma_entries_bytes_push(Seq::empty(), (name, content));
    lemma_unveil_hidden(carrier, message);
}

/// The same for a text: it comes out of the image as its UTF-8 bytes.
pub proof fn lemma_round_trip_text(
    carrier: Pixels,
    target: Seq<char>,
    output: Seq<char>,
    header: ContentVersion,
    text: Seq<char>,
)
    requires
        carrier.wf(),
        8 * encode_utf8(text).len() + 8 * framing_overhead(Seq::empty()) <= capacity(carrier),
        entry_bytes((Seq::empty(), encode_utf8(text))).len() <= u32::MAX,
    ensures
        ({
            let encoder = EncoderView {
                target: Some(target),
                carrier: Some(carrier),
                message: MessageView { header, files: Seq::empty(), text: Some(text) },
            };
            &&& encoder.outcome() is Ok
            &&& (DecoderView { input: Some(encoder.outcome()->Ok_0), output: Some(output) }).outcome()
                == Ok::<Seq<u8>, SteganoError>(encode_utf8(text))
        }),
{
    let message = MessageView { header, files: Seq::empty(), text: Some(text) };
    let entry = (Seq::<char>::empty(), encode_utf8(text));
    lemma_entries_bytes_push(Seq::empty(), entry);
    lemma_unveil_hidden(carrier, message);
}

/// Raw round trip: bytes that were stored raw in a carrier with room for
/// them come out of it when as many bytes are asked for.
pub proof fn lemma_raw_round_trip(carrier: Pixels, bytes: Seq<u8>)
    requires
        carrier.wf(),
        8 * bytes.len() <= capacity(carrier),
    ensures
        unveiled_raw(embed(carrier, 0, bits_of(bytes)), Some(bytes.len() as usize)) == bytes,
{
    let state = CodecState { pixels: carrier, position: 0 };
    lemma_read_after_write(state, bytes);
    assert(unveiled_raw(embed(carrier, 0, bits_of(bytes)), Some(bytes.len() as usize)) =~= bytes);
}

/// A carrier whose first byte stands for no version is refused as of
/// unknown format, whatever else it holds.
pub proof fn lemma_unveil_unknown_version(pixels: Pixels)
    requires
        carried(pixels).len() > 0,
        ContentVersion::of_tag(carried(pixels)[0]).is_none(),
    ensures
        unveiled(pixels) == Err::<Seq<u8>, SteganoError>(SteganoError::UnknownVersion),
{
}

/// What a decoder is configured with, as plain values.
pub struct DecoderView {
    pub input: Option<Pixels>,
    pub output: Option<Seq<char>>,
}

impl DecoderView {
    /// Nothing configured: no input, no output.
    pub open spec fn empty() -> DecoderView {
        DecoderView { input: None, output: None }
    }

    /// What unveiling comes to in the given mode. Without an input there
    /// is nothing to read, without an output nowhere to write.
    pub open spec fn outcome_as(self, mode: UnveilMode) -> Result<Seq<u8>, SteganoError> {
        match (self.input, self.output) {
            (None, _) => Err(SteganoError::CarrierUnreadable),
            (Some(_), None) => Err(SteganoError::OutputSinkUnwritable),
            (Some(pixels), Some(_)) => unveiled_as(pixels, mode),
        }
    }

    /// What unveiling a framed message comes to.
    pub open spec fn outcome(self) -> Result<Seq<u8>, SteganoError> {
        self.outcome_as(UnveilMode::Framed)
    }

    /// What unveiling a raw message of the given length comes to.
    pub open spec fn raw_outcome(self, length: Option<usize>) -> Result<Seq<u8>, SteganoError> {
        self.outcome_as(UnveilMode::Raw(length))
    }
}

/// Collects an image and an output path, and unveils the framed message
/// that the image carries.
pub struct SteganoDecoder {
    input: Option<PixelBuffer>,
    output: Option<String>,
}

impl View for SteganoDecoder {
    type V = DecoderView;

    closed spec fn view(&self) -> DecoderView {
        DecoderView {
            input: match self.input {
                Some(image) => Some(image@),
                None => None,
            },
            output: match self.output {
                Some(path) => Some(path@),
                None => None,
            },
        }
    }
}

impl Default for SteganoDecoder {
    fn default() -> (decoder: Self)
        ensures
            decoder@ == DecoderView::empty(),
    {
        SteganoDecoder { input: None, output: None }
    }
}

impl SteganoDecoder {
    /// A decoder with no input and no output.
    pub fn new() -> (decoder: Self)
        ensures
            decoder@ == DecoderView::empty(),
    {
        SteganoDecoder { input: None, output: None }
    }

    /// Sets the image to unveil.
    pub fn use_source_image(self, image: PixelBuffer) -> (decoder: Self)
        ensures
            decoder@ == (DecoderView { input: Some(image@), ..self@ }),
    {
        SteganoDecoder { input: Some(image), ..self }
    }

    /// Sets the path that the unveiled bytes are to be written to.
    pub fn write_to_file(self, output_file: &str) -> (decoder: Self)
        ensures
            decoder@ == (DecoderView { output: Some(output_file@), ..self@ }),
    {
        SteganoDecoder { output: Some(output_file.to_owned()), ..self }
    }

    /// Unveils in the given mode and hands out the bytes with the path to
    /// write them to.
    pub fn unveil_as(self, mode: UnveilMode) -> (result: Result<(String, Vec<u8>), SteganoError>)
        ensures
            match result {
                Ok((output, bytes)) => {
                    &&& self@.outcome_as(mode) == Ok::<Seq<u8>, SteganoError>(bytes@)
                    &&& self@.output == Some(output@)
                },
                Err(e) => self@.outcome_as(mode) == Err::<Seq<u8>, SteganoError>(e),
            },
    {
        let SteganoDecoder { input, output } = self;
        let input = match input {
            Some(input) => input,
            None => {
                return Err(SteganoError::CarrierUnreadable);
            },
        };
        let output = match output {
            Some(output) => output,
            None => {
                return Err(SteganoError::OutputSinkUnwritable);
            },
        };
        match unveil_from(input, mode) {
            Ok(bytes) => Ok((output, bytes)),
            Err(e) => Err(e),
        }
    }
}

impl Unveil for SteganoDecoder {
    /// Unveils the framed message and hands out the content of its file
    /// with the path to write it to.
    fn unveil(self) -> (result: Result<(String, Vec<u8>), SteganoError>)
        ensures
            match result {
                Ok((output, bytes)) => {
                    &&& self@.outcome() == Ok::<Seq<u8>, SteganoError>(bytes@)
                    &&& self@.output == Some(output@)
                },
                Err(e) => self@.outcome() == Err::<Seq<u8>, SteganoError>(e),
            },
    {
        self.unveil_as(UnveilMode::Framed)
    }
}

/// What a raw decoder is configured with, as plain values.
pub struct RawDecoderView {
    pub inner: DecoderView,
    pub length: Option<usize>,
}

impl RawDecoderView {
    /// Nothing configured: no input, no output, no length.
    pub open spec fn empty() -> RawDecoderView {
        RawDecoderView { inner: DecoderView::empty(), length: None }
    }
}

/// Collects an image, an output path and, if known, a length, and unveils
/// the raw bytes that the image carries.
pub struct SteganoRawDecoder {
    inner: SteganoDecoder,
    length: Option<usize>,
}

impl View for SteganoRawDecoder {
    type V = RawDecoderView;

    closed spec fn view(&self) -> RawDecoderView {
        RawDecoderView { inner: self.inner@, length: self.length }
    }
}

impl Default for SteganoRawDecoder {
    fn default() -> (decoder: Self)
        ensures
            decoder@ == RawDecoderView::empty(),
    {
        SteganoRawDecoder { inner: SteganoDecoder::new(), length: None }
    }
}

impl SteganoRawDecoder {
    /// A raw decoder with no input, no output and no length.
    pub fn new() -> (decoder: Self)
        ensures
            decoder@ == RawDecoderView::empty(),
    {
        SteganoRawDecoder { inner: SteganoDecoder::new(), length: None }
    }

    /// Sets the image to unveil.
    pub fn use_source_image(self, image: PixelBuffer) -> (decoder: Self)
        ensures
            decoder@ == (RawDecoderView {
                inner: DecoderView { input: Some(image@), ..self@.inner },
                ..self@
            }),
    {
        let SteganoRawDecoder { inner, length } = self;
        SteganoRawDecoder { inner: inner.use_source_image(image), length }
    }

    /// Sets the path that the unveiled bytes are to be written to.
    pub fn write_to_file(self, output_file: &str) -> (decoder: Self)
        ensures
            decoder@ == (RawDecoderView {
                inner: DecoderView { output: Some(output_file@), ..self@.inner },
                ..self@
            }),
    {
        let SteganoRawDecoder { inner, length } = self;
        SteganoRawDecoder { inner: inner.write_to_file(output_file), length }
    }

    /// Sets the number of bytes to unveil.
    pub fn expect_length(self, length: usize) -> (decoder: Self)
        ensures
            decoder@ == (RawDecoderView { length: Some(length), ..self@ }),
    {
        let SteganoRawDecoder { inner, length: _ } = self;
        SteganoRawDecoder { inner, length: Some(length) }
    }
}

impl Unveil for SteganoRawDecoder {
    /// Unveils the raw bytes and hands them out with the path to write them
    /// to.
    fn unveil(self) -> (result: Result<(String, Vec<u8>), SteganoError>)
        ensures
            match result {
                Ok((output, bytes)) => {
                    &&& self@.inner.raw_outcome(self@.length) == Ok::<Seq<u8>, SteganoError>(
                        bytes@,
                    )
                    &&& self@.inner.output == Some(output@)
                },
                Err(e) => self@.inner.raw_outcome(self@.length) == Err::<Seq<u8>, SteganoError>(
                    e,
                ),
            },
    {
        let SteganoRawDecoder { inner, length } = self;
        inner.unveil_as(UnveilMode::Raw(length))
    }
}

} // verus!
