//! The codec between byte buffers and the lowest bits of a carrier's colour
//! channels.
//!
//! A codec owns the carrier and a cursor into its scan order. Writing and
//! reading both start where the last call stopped, so a buffer may be
//! handed over in pieces of any size.

use crate::bit_iterator::{
    bits_of,
    byte_of,
    byte_prefix,
    bytes_of,
    lemma_bits_of_concat,
    lemma_bytes_of_bits_of,
    lemma_bytes_of_concat,
    push_bit,
    BitIterator,
};
use crate::error::SteganoError;
use crate::pixel_buffer::{PixelBuffer, Pixels};
use crate::scan::{
    alpha_kept,
    capacity,
    embed,
    lemma_embed_keeps_alpha,
    lemma_embed_keeps_unvisited,
    lemma_embed_nothing,
    lemma_embed_push,
    lemma_embed_resumes,
    lemma_embed_truncates,
    lemma_index_of,
    lemma_lsb_stream_embed,
    lemma_scan_position,
    lsb,
    lsb_stream,
    scan_index,
    scan_position,
    unvisited_kept,
    with_lsb,
};
use vstd::prelude::*;

verus! {

/// The next channel to touch: channel `channel` of the pixel at `(x, y)`.
#[derive(Clone, Copy, Debug, PartialEq, Eq, Structural)]
pub struct ScanCursor {
    pub x: u32,
    pub y: u32,
    pub channel: u8,
}

/// What a codec is, as plain values: the pixels it owns and the place in
/// scan order that its cursor is at.
pub struct CodecState {
    pub pixels: Pixels,
    pub position: nat,
}

impl CodecState {
    /// The pixels are well formed and the cursor is within the grid or just
    /// behind its last place.
    pub open spec fn wf(self) -> bool {
        self.pixels.wf() && self.position <= capacity(self.pixels)
    }

    /// The number of places from the cursor to the end of the grid.
    pub open spec fn remaining(self) -> nat {
        (capacity(self.pixels) - self.position) as nat
    }

    /// The bits that the grid carries from the cursor on.
    pub open spec fn pending(self) -> Seq<bool> {
        lsb_stream(self.pixels).skip(self.position as int)
    }

    /// The whole bytes that the grid carries from the cursor on.
    pub open spec fn stream(self) -> Seq<u8> {
        bytes_of(self.pending())
    }

    /// How many bits of `bytes` a write stores: all of them, or as many as
    /// there are places left.
    pub open spec fn stored_bits(self, bytes: Seq<u8>) -> nat {
        if 8 * bytes.len() <= self.remaining() {
            8 * bytes.len()
        } else {
            self.remaining()
        }
    }

    /// The codec after writing `bytes`.
    pub open spec fn after_write(self, bytes: Seq<u8>) -> CodecState {
        CodecState {
            pixels: embed(self.pixels, self.position as int, bits_of(bytes)),
            position: self.position + self.stored_bits(bytes),
        }
    }

    /// How many bytes a read of `count` bytes returns: all of them, or as
    /// many whole bytes as are left.
    pub open spec fn readable(self, count: nat) -> nat {
        if count <= self.stream().len() {
            count
        } else {
            self.stream().len()
        }
    }

    /// The codec after reading `count` bytes: the cursor has passed them,
    /// or has reached the end where fewer were left.
    pub open spec fn after_read(self, count: nat) -> CodecState {
        CodecState {
            pixels: self.pixels,
            position: if 8 * count <= self.remaining() {
                self.position + 8 * count
            } else {
                capacity(self.pixels)
            },
        }
    }
}

/// After reading `n` bytes that were there, the bytes still to come are the
/// old ones without their first `n`.
pub proof fn lemma_stream_after_read(state: CodecState, n: nat)
    requires
        state.wf(),
        n <= state.stream().len(),
    ensures
        state.after_read(n).wf(),
        state.after_read(n).stream() == state.stream().skip(n as int),
{
    let after = state.after_read(n);
    assert forall|i: int| 0 <= i < after.stream().len() implies after.stream()[i]
        == state.stream().skip(n as int)[i] by {
        assert(after.pending().subrange(8 * i, 8 * i + 8) =~= state.pending().subrange(
            8 * (i + n),
            8 * (i + n) + 8,
        ));
    }
}

/// Reading `first` bytes that are there and then `second` more leaves the
/// codec as reading them in one go does.
pub proof fn lemma_after_read_twice(state: CodecState, first: nat, second: nat)
    requires
        state.wf(),
        first <= state.stream().len(),
    ensures
        state.after_read(first).after_read(second) == state.after_read(first + second),
{
}

/// The cursor never moves back, and never beyond the end of the grid:
/// neither by a write nor by a read.
pub proof fn lemma_cursor_advances(state: CodecState, bytes: Seq<u8>, count: nat)
    requires
        state.wf(),
    ensures
        state.position <= state.after_write(bytes).position <= capacity(state.pixels),
        state.position <= state.after_read(count).position <= capacity(state.pixels),
        capacity(state.after_write(bytes).pixels) == capacity(state.pixels),
{
}

/// Writing a buffer in two pieces, the second from where the first
/// stopped, leaves the codec as writing it in one piece does.
pub proof fn lemma_write_resumes(state: CodecState, first: Seq<u8>, second: Seq<u8>)
    requires
        state.wf(),
    ensures
        state.after_write(first).after_write(second) == state.after_write(first + second),
{
    let start = state.position as int;
    let middle = state.after_write(first);
    lemma_bits_of_concat(first, second);
    lemma_embed_resumes(state.pixels, start, bits_of(first), bits_of(second));
    if 8 * first.len() > state.remaining() {
        let at = start + 8 * first.len();
        lemma_embed_truncates(middle.pixels, middle.position as int, bits_of(second), 0);
        lemma_embed_nothing(middle.pixels, middle.position as int);
        lemma_embed_truncates(middle.pixels, at, bits_of(second), 0);
        lemma_embed_nothing(middle.pixels, at);
        assert(bits_of(second).take(0) =~= Seq::<bool>::empty());
    }
}

/// Bytes that were written where they fit are read back from the place
/// they were written at, ahead of what the carrier holds behind them.
pub proof fn lemma_read_after_write(state: CodecState, bytes: Seq<u8>)
    requires
        state.wf(),
        8 * bytes.len() <= state.remaining(),
    ensures
        (CodecState { pixels: state.after_write(bytes).pixels, position: state.position }).stream()
            == bytes + state.after_write(bytes).stream(),
{
    let start = state.position as int;
    let bits = bits_of(bytes);
    let written = state.after_write(bytes);
    let reader = CodecState { pixels: written.pixels, position: state.position };
    lemma_lsb_stream_embed(state.pixels, start, bits);
    assert(reader.pending() =~= bits + written.pending());
    lemma_bytes_of_concat(bits, written.pending());
    lemma_bytes_of_bits_of(bytes);
}

/// Writes bytes into, and reads bytes from, the lowest bits of the colour
/// channels of a carrier image.
pub struct LSBCodec {
    subject: PixelBuffer,
    width: u32,
    height: u32,
    cursor: ScanCursor,
}

impl View for LSBCodec {
    type V = CodecState;

    closed spec fn view(&self) -> CodecState {
        CodecState {
            pixels: self.subject@,
            position: scan_position(
                self.subject@,
                self.cursor.x as int,
                self.cursor.y as int,
                self.cursor.channel as int,
            ) as nat,
        }
    }
}

impl LSBCodec {
    #[verifier::type_invariant]
    spec fn inv(self) -> bool {
        &&& self.subject@.wf()
        &&& self.width == self.subject@.width
        &&& self.height == self.subject@.height
        &&& self.cursor.channel < 3
        &&& {
            ||| self.cursor.x < self.width && self.cursor.y < self.height
            ||| self.cursor.x == self.width && self.cursor.y == 0 && self.cursor.channel == 0
        }
    }

    proof fn lemma_inv(self)
        requires
            self.inv(),
        ensures
            self@.wf(),
            self@.position == scan_position(
                self.subject@,
                self.cursor.x as int,
                self.cursor.y as int,
                self.cursor.channel as int,
            ),
            self.cursor.x < self.width <==> self@.position < capacity(self@.pixels),
            self.cursor.x < self.width ==> scan_index(self@.pixels, self@.position as int)
                == self@.pixels.index_of(
                self.cursor.x as int,
                self.cursor.y as int,
                self.cursor.channel as int,
            ),
    {
        if self.cursor.x < self.width {
            lemma_scan_position(
                self.subject@,
                self.cursor.x as int,
                self.cursor.y as int,
                self.cursor.channel as int,
            );
        }
    }

    /// Takes the carrier, with the cursor at the first place.
    pub fn new(subject: PixelBuffer) -> (codec: Self)
        ensures
            codec@.wf(),
            codec@ == (CodecState { pixels: subject@, position: 0 }),
    {
        let (width, height) = subject.dimensions();
        let x = if height == 0 {
            width
        } else {
            0
        };
        let codec = LSBCodec { subject, width, height, cursor: ScanCursor { x, y: 0, channel: 0 } };
        proof {
            assert(x as int * height as int == 0) by (nonlinear_arith)
                requires
                    x == 0 || height == 0,
            ;
        }
        codec
    }

    /// Hands the carrier back as the writes have left it.
    pub fn finish(self) -> (subject: PixelBuffer)
        ensures
            self@.wf(),
            subject@ == self@.pixels,
    {
        proof {
            use_type_invariant(&self);
            self.lemma_inv();
        }
        self.subject
    }

    /// Where the cursor is.
    pub fn cursor(&self) -> (cursor: ScanCursor)
        ensures
            self@.wf(),
            self@.position == scan_position(
                self@.pixels,
                cursor.x as int,
                cursor.y as int,
                cursor.channel as int,
            ),
            cursor.channel < 3,
            cursor.x < self@.pixels.width && cursor.y < self@.pixels.height || cursor.x
                == self@.pixels.width && cursor.y == 0 && cursor.channel == 0,
    {
        proof {
            use_type_invariant(self);
            self.lemma_inv();
        }
        self.cursor
    }

    /// The number of bits that the carrier can hold in all.
    pub fn capacity(&self) -> (bits: usize)
        ensures
            self@.wf(),
            bits == capacity(self@.pixels),
    {
        proof {
            use_type_invariant(self);
            self.lemma_inv();
        }
        3 * (self.width as usize * self.height as usize)
    }

    /// The number of bits that the carrier can still hold or hand out.
    pub fn remaining(&self) -> (bits: usize)
        ensures
            self@.wf(),
            bits == self@.remaining(),
    {
        proof {
            use_type_invariant(self);
            self.lemma_inv();
            if self.cursor.x < self.width {
                assert(0 <= self.cursor.x as int * self.height as int) by (nonlinear_arith);
            }
        }
        let total = 3 * (self.width as usize * self.height as usize);
        let passed = 3 * (self.cursor.x as usize * self.height as usize + self.cursor.y as usize)
            + self.cursor.channel as usize;
        total - passed
    }

    /// Moves the cursor to the next place.
    fn advance(&mut self)
        requires
            old(self)@.position < capacity(old(self)@.pixels),
        ensures
            final(self)@ == (CodecState { position: old(self)@.position + 1, ..old(self)@ }),
    {
        proof {
            use_type_invariant(&*self);
            self.lemma_inv();
        }
        let ScanCursor { x, y, channel } = self.cursor;
        if channel < 2 {
            self.cursor = ScanCursor { x, y, channel: channel + 1 };
        } else if y + 1 < self.height {
            self.cursor = ScanCursor { x, y: y + 1, channel: 0 };
        } else {
            proof {
                assert((x + 1) * self.height as int == x * self.height as int + self.height as int)
                    by (nonlinear_arith);
            }
            self.cursor = ScanCursor { x: x + 1, y: 0, channel: 0 };
        }
    }

    /// Moves the cursor behind the last place.
    fn exhaust(&mut self)
        ensures
            final(self)@ == (CodecState {
                position: capacity(old(self)@.pixels),
                ..old(self)@
            }),
    {
        proof {
            use_type_invariant(&*self);
        }
        self.cursor = ScanCursor { x: self.width, y: 0, channel: 0 };
    }

    /// Stores one bit at the cursor and moves on.
    fn store_bit(&mut self, bit: bool)
        requires
            old(self)@.position < capacity(old(self)@.pixels),
        ensures
            final(self)@ == (CodecState {
                pixels: embed(old(self)@.pixels, old(self)@.position as int, seq![bit]),
                position: old(self)@.position + 1,
            }),
    {
        proof {
            use_type_invariant(&*self);
            self.lemma_inv();
        }
        let ghost before = self@;
        let ScanCursor { x, y, channel } = self.cursor;
        let value = self.subject.get(x, y, channel);
        let low: u8 = if bit {
            1
        } else {
            0
        };
        proof {
            lemma_index_of(before.pixels, x as int, y as int, channel as int);
            lemma_embed_nothing(before.pixels, before.position as int);
            lemma_embed_push(before.pixels, before.position as int, Seq::empty(), bit);
        }
        self.subject.set(x, y, channel, (value & 0xFE) | low);
        self.advance();
    }

    /// Loads the bit at the cursor and moves on.
    fn load_bit(&mut self) -> (bit: bool)
        requires
            old(self)@.position < capacity(old(self)@.pixels),
        ensures
            bit == old(self)@.pending()[0],
            final(self)@ == (CodecState { position: old(self)@.position + 1, ..old(self)@ }),
    {
        proof {
            use_type_invariant(&*self);
            self.lemma_inv();
        }
        let ScanCursor { x, y, channel } = self.cursor;
        let value = self.subject.get(x, y, channel);
        self.advance();
        value & 1 == 1
    }

    /// Loads the byte at the cursor and moves on.
    fn load_byte(&mut self) -> (byte: u8)
        requires
            old(self)@.wf(),
            old(self)@.remaining() >= 8,
        ensures
            byte == byte_of(old(self)@.pending().take(8)),
            final(self)@ == (CodecState { position: old(self)@.position + 8, ..old(self)@ }),
    {
        let ghost before = self@;
        let ghost bits = before.pending().take(8);
        let mut byte: u8 = 0;
        let mut i: u8 = 0;
        while i < 8
            invariant
                i <= 8,
                before.wf(),
                before.remaining() >= 8,
                bits == before.pending().take(8),
                self@ == (CodecState { position: (before.position + i) as nat, ..before }),
                byte == byte_prefix(bits, i as int),
            decreases 8 - i,
        {
            let bit = self.load_bit();
            byte = push_bit(byte, i, bit);
            i = i + 1;
        }
        byte
    }

    /// Stores the bits of `buf` from the cursor on, as far as the carrier
    /// reaches, and returns the number of bytes stored in full.
    ///
    /// The cursor stops behind the last bit stored. No alpha channel
    /// changes, no sample changes that the cursor did not pass, and of the
    /// samples it passed only the lowest bit.
    pub fn write(&mut self, buf: &[u8]) -> (written: usize)
        ensures
            old(self)@.wf(),
            final(self)@.wf(),
            final(self)@ == old(self)@.after_write(buf@),
            written == old(self)@.stored_bits(buf@) / 8,
            alpha_kept(old(self)@.pixels, final(self)@.pixels),
            unvisited_kept(
                old(self)@.pixels,
                final(self)@.pixels,
                old(self)@.position as int,
                final(self)@.position as int,
            ),
    {
        let ghost before = self@;
        let ghost all = bits_of(buf@);
        let ghost start = before.position as int;
        let left = self.remaining();
        let mut bits = BitIterator::new(buf);
        let mut stored: usize = 0;
        proof {
            lemma_embed_nothing(before.pixels, start);
            assert(all.take(0) =~= Seq::<bool>::empty());
            assert(all.skip(0) =~= all);
        }
        loop
            invariant
                before.wf(),
                start == before.position,
                left == before.remaining(),
                all == bits_of(buf@),
                stored <= left,
                stored <= all.len(),
                bits@ == all.skip(stored as int),
                self@ == (CodecState {
                    pixels: embed(before.pixels, start, all.take(stored as int)),
                    position: (before.position + stored) as nat,
                }),
            ensures
                stored == left || stored == all.len(),
            decreases left - stored,
        {
            if stored >= left {
                break ;
            }
            match bits.next() {
                None => {
                    break ;
                },
                Some(bit) => {
                    proof {
                        lemma_embed_resumes(
                            before.pixels,
                            start,
                            all.take(stored as int),
                            seq![bit],
                        );
                        assert(all.take(stored as int) + seq![bit] =~= all.take(stored + 1));
                    }
                    self.store_bit(bit);
                    stored = stored + 1;
                },
            }
        }
        proof {
            if stored < all.len() {
                lemma_embed_truncates(before.pixels, start, all, stored as int);
            }
            lemma_embed_keeps_alpha(before.pixels, start, all.take(stored as int));
            lemma_embed_keeps_unvisited(before.pixels, start, all.take(stored as int));
        }
        stored / 8
    }

    /// Stores all of `buf` from the cursor on, or nothing at all where the
    /// carrier has fewer places left than `buf` has bits.
    pub fn write_all(&mut self, buf: &[u8]) -> (result: Result<(), SteganoError>)
        ensures
            old(self)@.wf(),
            final(self)@.wf(),
            match result {
                Ok(()) => {
                    &&& 8 * buf@.len() <= old(self)@.remaining()
                    &&& final(self)@ == old(self)@.after_write(buf@)
                    &&& final(self)@.position == old(self)@.position + 8 * buf@.len()
                },
                Err(e) => {
                    &&& e == SteganoError::CapacityExceeded
                    &&& 8 * buf@.len() > old(self)@.remaining()
                    &&& final(self)@ == old(self)@
                },
            },
            alpha_kept(old(self)@.pixels, final(self)@.pixels),
            unvisited_kept(
                old(self)@.pixels,
                final(self)@.pixels,
                old(self)@.position as int,
                final(self)@.position as int,
            ),
    {
        let left = self.remaining();
        if buf.len() > left / 8 {
            proof {
                lemma_embed_nothing(self@.pixels, self@.position as int);
                lemma_embed_keeps_alpha(self@.pixels, self@.position as int, Seq::empty());
                lemma_embed_keeps_unvisited(self@.pixels, self@.position as int, Seq::empty());
            }
            return Err(SteganoError::CapacityExceeded);
        }
        self.write(buf);
        Ok(())
    }

    /// Reads `count` bytes from the cursor on, or as many whole bytes as the
    /// carrier has left. The pixels stay as they are. The cursor stops
    /// behind the last byte read, or at the end where fewer than `count`
    /// were left.
    pub fn read(&mut self, count: usize) -> (bytes: Vec<u8>)
        ensures
            old(self)@.wf(),
            final(self)@.wf(),
            bytes@ == old(self)@.stream().take(old(self)@.readable(count as nat) as int),
            final(self)@ == old(self)@.after_read(count as nat),
    {
        let ghost before = self@;
        let mut bytes: Vec<u8> = Vec::new();
        let mut left = self.remaining();
        while bytes.len() < count && left >= 8
            invariant
                before.wf(),
                bytes.len() <= count,
                8 * bytes.len() + left == before.remaining(),
                self@ == (CodecState { position: (before.position + 8 * bytes.len()) as nat, ..before }),
                bytes@ == before.stream().take(bytes.len() as int),
            decreases left,
        {
            let ghost n = bytes.len() as int;
            let byte = self.load_byte();
            proof {
                assert(before.pending().subrange(8 * n, 8 * n + 8) =~= lsb_stream(
                    before.pixels,
                ).skip(before.position + 8 * n).take(8));
            }
            bytes.push(byte);
            left = left - 8;
        }
        if bytes.len() < count {
            self.exhaust();
        }
        bytes
    }
}

} // verus!
