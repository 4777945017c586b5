//! Hiding a message in a carrier.

use crate::bit_iterator::bits_of;
use crate::error::SteganoError;
use crate::facade::Hide;
use crate::lsb_codec::LSBCodec;
use crate::message::{ContentVersion, Message, MessageView};
use crate::pixel_buffer::{PixelBuffer, Pixels};
use crate::scan::{alpha_kept, capacity, embed, unvisited_kept};
use vstd::prelude::*;

verus! {

/// What an encoder is configured with, as plain values.
pub struct EncoderView {
    pub target: Option<Seq<char>>,
    pub carrier: Option<Pixels>,
    pub message: MessageView,
}

impl EncoderView {
    /// Nothing configured: no carrier, no target, an empty message.
    pub open spec fn empty() -> EncoderView {
        EncoderView { target: None, carrier: None, message: MessageView::empty() }
    }

    /// What hiding comes to.
    ///
    /// Without a carrier there is nothing to read, without a target nowhere
    /// to write. A message whose wire form has more bits than the carrier
    /// has places exceeds the capacity. Else the carrier comes out with the
    /// bits of the wire form stored from its first place on.
    pub open spec fn outcome(self) -> Result<Pixels, SteganoError> {
        match (self.carrier, self.target) {
            (None, _) => Err(SteganoError::CarrierUnreadable),
            (Some(_), None) => Err(SteganoError::CarrierUnwritable),
            (Some(carrier), Some(_)) => if self.message.fits_format() && 8
                * self.message.wire().len() <= capacity(carrier) {
                Ok(embed(carrier, 0, bits_of(self.message.wire())))
            } else {
                Err(SteganoError::CapacityExceeded)
            },
        }
    }
}

/// The capacity boundary: with a carrier and a target set, hiding succeeds
/// for a message whose wire form has as many bits as the carrier has
/// places, or fewer, and fails for want of capacity from one bit more on.
pub proof fn lemma_capacity_boundary(encoder: EncoderView)
    requires
        encoder.carrier.is_some(),
        encoder.target.is_some(),
        encoder.message.fits_format(),
    ensures
        8 * encoder.message.wire().len() <= capacity(encoder.carrier.unwrap())
            ==> encoder.outcome() is Ok,
        8 * encoder.message.wire().len() > capacity(encoder.carrier.unwrap())
            ==> encoder.outcome() == Err::<Pixels, SteganoError>(SteganoError::CapacityExceeded),
{
}

/// Collects a carrier, a target and a message, and hides the message in the
/// carrier.
pub struct SteganoEncoder {
    target: Option<String>,
    carrier: Option<PixelBuffer>,
    message: Message,
}

impl View for SteganoEncoder {
    type V = EncoderView;

    closed spec fn view(&self) -> EncoderView {
        EncoderView {
            target: match self.target {
                Some(path) => Some(path@),
                None => None,
            },
            carrier: match self.carrier {
                Some(image) => Some(image@),
                None => None,
            },
            message: self.message@,
        }
    }
}

impl Default for SteganoEncoder {
    fn default() -> (encoder: Self)
        ensures
            encoder@ == EncoderView::empty(),
    {
        SteganoEncoder { target: None, carrier: None, message: Message::empty() }
    }
}

impl SteganoEncoder {
    /// An encoder with no carrier, no target and an empty message.
    pub fn new() -> (encoder: Self)
        ensures
            encoder@ == EncoderView::empty(),
    {
        SteganoEncoder { target: None, carrier: None, message: Message::empty() }
    }

    /// Sets the image to hide the message in.
    pub fn use_carrier_image(self, image: PixelBuffer) -> (encoder: Self)
        ensures
            encoder@ == (EncoderView { carrier: Some(image@), ..self@ }),
    {
        SteganoEncoder { carrier: Some(image), ..self }
    }

    /// Sets the path that the image is to be saved under.
    pub fn write_to(self, output_file: &str) -> (encoder: Self)
        ensures
            encoder@ == (EncoderView { target: Some(output_file@), ..self@ }),
    {
        SteganoEncoder { target: Some(output_file.to_owned()), ..self }
    }

    /// Sets the text of the message.
    pub fn hide_message(self, msg: &str) -> (encoder: Self)
        ensures
            encoder@ == (EncoderView {
                message: MessageView { text: Some(msg@), ..self@.message },
                ..self@
            }),
    {
        let SteganoEncoder { target, carrier, message } = self;
        let Message { header, files, text: _ } = message;
        SteganoEncoder {
            target,
            carrier,
            message: Message { header, files, text: Some(msg.to_owned()) },
        }
    }

    /// Adds a file to the message, behind those that it holds.
    pub fn hide_file(self, name: &str, content: Vec<u8>) -> (encoder: Self)
        ensures
            encoder@ == (EncoderView {
                message: MessageView {
                    files: self@.message.files.push((name@, content@)),
                    ..self@.message
                },
                ..self@
            }),
    {
        let SteganoEncoder { target, carrier, mut message } = self;
        message.add_file_data(name, content);
        SteganoEncoder { target, carrier, message }
    }

    /// Replaces the files of the message by the given ones, in their order.
    pub fn hide_files(self, files: Vec<(String, Vec<u8>)>) -> (encoder: Self)
        ensures
            encoder@ == (EncoderView {
                message: MessageView {
                    files: crate::message::files_view(files@),
                    ..self@.message
                },
                ..self@
            }),
    {
        let SteganoEncoder { target, carrier, message } = self;
        let Message { header, files: _, text } = message;
        SteganoEncoder { target, carrier, message: Message { header, files, text } }
    }

    /// Sets the version of the wire format that the message is written in.
    pub fn force_content_version(self, c: ContentVersion) -> (encoder: Self)
        ensures
            encoder@ == (EncoderView {
                message: MessageView { header: c, ..self@.message },
                ..self@
            }),
    {
        let SteganoEncoder { target, carrier, message } = self;
        let Message { header: _, files, text } = message;
        SteganoEncoder { target, carrier, message: Message { header: c, files, text } }
    }
}

impl Hide for SteganoEncoder {
    /// Hides the message in the carrier and hands out the image with the
    /// path to save it under.
    ///
    /// The image has the dimensions of the carrier and every alpha channel
    /// of it. It differs from the carrier in the lowest bit of the channels
    /// that carry the message, and nowhere else.
    fn conceal(self) -> (result: Result<(String, PixelBuffer), SteganoError>)
        ensures
            match result {
                Ok((target, image)) => {
                    &&& self@.outcome() == Ok::<Pixels, SteganoError>(image@)
                    &&& self@.target == Some(target@)
                    &&& self@.carrier matches Some(carrier) && carrier.wf() && alpha_kept(
                        carrier,
                        image@,
                    ) && unvisited_kept(
                        carrier,
                        image@,
                        0,
                        (8 * self@.message.wire().len()) as int,
                    )
                },
                Err(e) => self@.outcome() == Err::<Pixels, SteganoError>(e),
            },
    {
        let SteganoEncoder { target, carrier, message } = self;
        let carrier = match carrier {
            Some(carrier) => carrier,
            None => {
                return Err(SteganoError::CarrierUnreadable);
            },
        };
        let target = match target {
            Some(target) => target,
            None => {
                return Err(SteganoError::CarrierUnwritable);
            },
        };
        let bytes = match message.serialize() {
            Ok(bytes) => bytes,
            Err(e) => {
                return Err(e);
            },
        };
        let mut codec = LSBCodec::new(carrier);
        match codec.write_all(bytes.as_slice()) {
            Ok(()) => Ok((target, codec.finish())),
            Err(e) => Err(e),
        }
    }
}

} // verus!
