//! The raw message: bytes with no framing at all.
//!
//! Nothing in the carrier says how long a raw message is. Whoever reads one
//! says how many bytes to take, or takes every whole byte that is left.

use crate::bit_iterator::bits_of;
use crate::error::SteganoError;
use crate::lsb_codec::{CodecState, LSBCodec};
use crate::pixel_buffer::PixelBuffer;
use crate::scan::{alpha_kept, capacity, embed, unvisited_kept};
use vstd::prelude::*;

verus! {

/// Bytes to be hidden, or that were unveiled, as they are.
#[derive(Clone, Debug, PartialEq, Eq)]
pub struct RawMessage {
    pub content: Vec<u8>,
}

impl View for RawMessage {
    type V = Seq<u8>;

    open spec fn view(&self) -> Seq<u8> {
        self.content@
    }
}

/// The bytes that a raw read takes: as many as announced, or as many of
/// them as are left, and all whole bytes from the cursor on where no length
/// was announced.
pub open spec fn raw_bytes(state: CodecState, length: Option<usize>) -> Seq<u8> {
    match length {
        Some(n) => state.stream().take(state.readable(n as nat) as int),
        None => state.stream(),
    }
}

/// The codec after a raw read: the cursor has passed the announced bytes,
/// or has reached the end where fewer were left or no length was announced.
pub open spec fn after_raw_read(state: CodecState, length: Option<usize>) -> CodecState {
    match length {
        Some(n) => state.after_read(n as nat),
        None => CodecState { position: capacity(state.pixels), ..state },
    }
}

impl RawMessage {
    /// A raw message of the given bytes.
    pub fn new(content: Vec<u8>) -> (message: Self)
        ensures
            message@ == content@,
    {
        RawMessage { content }
    }

    /// The message on the wire, which is its content.
    pub fn serialize(&self) -> (bytes: &[u8])
        ensures
            bytes@ == self@,
    {
        self.content.as_slice()
    }

    /// Stores the message in `carrier` from its first place on and hands
    /// the carrier back, or fails for want of capacity where the message
    /// has more bits than the carrier has places.
    pub fn embed_in(&self, carrier: PixelBuffer) -> (result: Result<PixelBuffer, SteganoError>)
        ensures
            carrier@.wf(),
            match result {
                Ok(image) => {
                    &&& 8 * self@.len() <= capacity(carrier@)
                    &&& image@ == embed(carrier@, 0, bits_of(self@))
                    &&& alpha_kept(carrier@, image@)
                    &&& unvisited_kept(carrier@, image@, 0, (8 * self@.len()) as int)
                },
                Err(e) => e == SteganoError::CapacityExceeded && 8 * self@.len() > capacity(
                    carrier@,
                ),
            },
    {
        let mut codec = LSBCodec::new(carrier);
        match codec.write_all(self.content.as_slice()) {
            Ok(()) => Ok(codec.finish()),
            Err(e) => Err(e),
        }
    }

    /// Reads a raw message at the cursor of `codec`: `length` bytes, or as
    /// many of them as are left, and all whole bytes that are left where
    /// `length` is `None`. With a length of zero no bit is read.
    pub fn of(codec: &mut LSBCodec, length: Option<usize>) -> (message: Self)
        ensures
            old(codec)@.wf(),
            final(codec)@.wf(),
            message@ == raw_bytes(old(codec)@, length),
            final(codec)@ == after_raw_read(old(codec)@, length),
            length == Some(0usize) ==> message@.len() == 0 && final(codec)@ == old(codec)@,
    {
        let count = match length {
            Some(n) => n,
            None => codec.remaining() / 8 + 1,
        };
        RawMessage { content: codec.read(count) }
    }
}

} // verus!
