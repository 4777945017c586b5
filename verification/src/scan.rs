//! The scan order of the codec and what embedding a bit stream means.
//!
//! Bits live in the lowest bit of the red, green and blue channels. The
//! channels are visited column by column: `x` runs slowest, then `y`, then
//! the channel. Alpha is never visited.

use crate::pixel_buffer::Pixels;
use vstd::arithmetic::div_mod::{
    lemma_div_pos_is_pos,
    lemma_fundamental_div_mod,
    lemma_fundamental_div_mod_converse,
    lemma_mod_pos_bound,
};
use vstd::prelude::*;

verus! {

/// The bit that a channel value carries.
pub open spec fn lsb(value: u8) -> bool {
    value & 1 == 1
}

/// The channel value with its lowest bit replaced by `bit`.
pub open spec fn with_lsb(value: u8, bit: bool) -> u8 {
    (value & 0xFE) | (if bit {
        1u8
    } else {
        0u8
    })
}

/// Replacing the lowest bit stores that bit and leaves the seven high bits
/// alone; storing the bit that is there already changes nothing.
pub proof fn lemma_with_lsb(value: u8, bit: bool)
    ensures
        lsb(with_lsb(value, bit)) == bit,
        with_lsb(value, bit) & 0xFE == value & 0xFE,
        with_lsb(value, lsb(value)) == value,
{
    assert(((value & 0xFE) | 1u8) & 1 == 1) by (bit_vector);
    assert(((value & 0xFE) | 0u8) & 1 == 0) by (bit_vector);
    assert(((value & 0xFE) | 1u8) & 0xFE == value & 0xFE) by (bit_vector);
    assert(((value & 0xFE) | 0u8) & 0xFE == value & 0xFE) by (bit_vector);
    assert(value & 1 == 1 ==> (value & 0xFE) | 1u8 == value) by (bit_vector);
    assert(value & 1 != 1 ==> (value & 0xFE) | 0u8 == value) by (bit_vector);
}

/// The number of bits that a grid can carry: one in each of three channels
/// of every pixel.
pub open spec fn capacity(p: Pixels) -> nat {
    3 * p.area()
}

/// The place in scan order of channel `c` of the pixel at `(x, y)`.
pub open spec fn scan_position(p: Pixels, x: int, y: int, c: int) -> int {
    3 * (x * p.height + y) + c
}

/// The column of the channel at place `k` in scan order.
pub open spec fn scan_x(p: Pixels, k: int) -> int {
    (k / 3) / (p.height as int)
}

/// The row of the channel at place `k` in scan order.
pub open spec fn scan_y(p: Pixels, k: int) -> int {
    (k / 3) % (p.height as int)
}

/// Which channel of its pixel the channel at place `k` in scan order is.
pub open spec fn scan_c(k: int) -> int {
    k % 3
}

/// The index among the samples of the channel at place `k` in scan order.
pub open spec fn scan_index(p: Pixels, k: int) -> int {
    p.index_of(scan_x(p, k), scan_y(p, k), scan_c(k))
}

/// Sample `j` is a red, green or blue channel of a pixel of the grid.
pub open spec fn carries_bit(p: Pixels, j: int) -> bool {
    0 <= j < 4 * p.area() && j % 4 < 3
}

/// The place in scan order of sample `j`.
pub open spec fn sample_position(p: Pixels, j: int) -> int {
    scan_position(p, (j / 4) % (p.width as int), (j / 4) / (p.width as int), j % 4)
}

/// The bits that the grid carries, in scan order.
pub open spec fn lsb_stream(p: Pixels) -> Seq<bool> {
    Seq::new(capacity(p), |k: int| lsb(p.samples[scan_index(p, k)]))
}

/// Sample `j` of the grid after `bits` were stored from place `start` on.
pub open spec fn embedded_sample(p: Pixels, start: int, bits: Seq<bool>, j: int) -> u8 {
    let k = sample_position(p, j);
    if carries_bit(p, j) && start <= k < start + bits.len() {
        with_lsb(p.samples[j], bits[k - start])
    } else {
        p.samples[j]
    }
}

/// The grid after `bits` were stored from place `start` on: the channel at
/// place `start + i` carries `bits[i]`, as far as the grid reaches, and no
/// other bit of any sample differs.
pub open spec fn embed(p: Pixels, start: int, bits: Seq<bool>) -> Pixels {
    Pixels {
        samples: Seq::new(p.samples.len(), |j: int| embedded_sample(p, start, bits, j)),
        ..p
    }
}

/// Sample `j` is the sample of one of the places from `from` up to, and not
/// including, `to`.
pub open spec fn visited(p: Pixels, from: int, to: int, j: int) -> bool {
    exists|k: int| from <= k < to && 0 <= k < capacity(p) && scan_index(p, k) == j
}

/// `after` has the alpha channel of every pixel as `before` has it.
pub open spec fn alpha_kept(before: Pixels, after: Pixels) -> bool {
    forall|x: int, y: int|
        0 <= x < before.width && 0 <= y < before.height ==> #[trigger] after.channel(x, y, 3)
            == before.channel(x, y, 3)
}

/// `after` has every sample as `before` has it, but for the samples of the
/// places from `from` up to `to`, which differ in their lowest bit at most.
pub open spec fn unvisited_kept(before: Pixels, after: Pixels, from: int, to: int) -> bool {
    &&& after.width == before.width
    &&& after.height == before.height
    &&& after.samples.len() == before.samples.len()
    &&& forall|j: int|
        0 <= j < before.samples.len() ==> {
            &&& #[trigger] after.samples[j] & 0xFE == before.samples[j] & 0xFE
            &&& !visited(before, from, to, j) ==> after.samples[j] == before.samples[j]
        }
}

proof fn lemma_split(q: int, d: int)
    requires
        0 <= q,
        0 < d,
    ensures
        0 <= q % d < d,
        0 <= q / d,
        q == (q / d) * d + q % d,
{
    lemma_fundamental_div_mod(q, d);
    lemma_mod_pos_bound(q, d);
    lemma_div_pos_is_pos(q, d);
    assert(d * (q / d) == (q / d) * d) by (nonlinear_arith);
}

proof fn lemma_join(a: int, b: int, d: int)
    requires
        0 <= b < d,
    ensures
        (a * d + b) / d == a,
        (a * d + b) % d == b,
{
    lemma_fundamental_div_mod_converse(a * d + b, d, a, b);
}

proof fn lemma_in_grid(a: int, b: int, n: int, d: int)
    requires
        0 <= a < n,
        0 <= b < d,
    ensures
        0 <= a * d + b < n * d,
{
    assert(a * d + d <= n * d) by (nonlinear_arith)
        requires
            a + 1 <= n,
            d > 0,
    ;
    assert(0 <= a * d) by (nonlinear_arith)
        requires
            0 <= a,
            0 < d,
    ;
}

proof fn lemma_quotient_in_grid(q: int, n: int, d: int)
    requires
        0 <= q < n * d,
        0 <= d,
    ensures
        0 < d,
        0 <= q / d < n,
        0 <= q % d < d,
        q == (q / d) * d + q % d,
{
    assert(d != 0) by (nonlinear_arith)
        requires
            0 < n * d,
    ;
    lemma_split(q, d);
    if q / d >= n {
        assert((q / d) * d >= n * d) by (nonlinear_arith)
            requires
                q / d >= n,
                d > 0,
        ;
    }
}

/// The channel of a pixel of the grid has a place in scan order, and that
/// place leads back to the channel.
pub proof fn lemma_scan_position(p: Pixels, x: int, y: int, c: int)
    requires
        0 <= x < p.width,
        0 <= y < p.height,
        0 <= c < 3,
    ensures
        0 <= scan_position(p, x, y, c) < capacity(p),
        scan_x(p, scan_position(p, x, y, c)) == x,
        scan_y(p, scan_position(p, x, y, c)) == y,
        scan_c(scan_position(p, x, y, c)) == c,
        scan_index(p, scan_position(p, x, y, c)) == p.index_of(x, y, c),
{
    let h = p.height as int;
    lemma_in_grid(x, y, p.width as int, h);
    lemma_join(x, y, h);
}

/// The sample of a channel of a pixel of the grid lies among the samples
/// that cover the grid, and its index leads back to the pixel.
pub proof fn lemma_index_of(p: Pixels, x: int, y: int, c: int)
    requires
        0 <= x < p.width,
        0 <= y < p.height,
        0 <= c < 4,
    ensures
        0 <= p.index_of(x, y, c) < 4 * p.area(),
        p.index_of(x, y, c) % 4 == c,
        (p.index_of(x, y, c) / 4) % (p.width as int) == x,
        (p.index_of(x, y, c) / 4) / (p.width as int) == y,
{
    let w = p.width as int;
    lemma_in_grid(y, x, p.height as int, w);
    lemma_join(y, x, w);
    assert(p.height * p.width == p.width * p.height) by (nonlinear_arith);
}

/// Each place in scan order is a colour channel of a pixel of the grid,
/// and the sample there has that place.
pub proof fn lemma_scan_index(p: Pixels, k: int)
    requires
        0 <= k < capacity(p),
    ensures
        0 <= scan_x(p, k) < p.width,
        0 <= scan_y(p, k) < p.height,
        0 <= scan_c(k) < 3,
        scan_position(p, scan_x(p, k), scan_y(p, k), scan_c(k)) == k,
        carries_bit(p, scan_index(p, k)),
        sample_position(p, scan_index(p, k)) == k,
{
    lemma_quotient_in_grid(k / 3, p.width as int, p.height as int);
    lemma_index_of(p, scan_x(p, k), scan_y(p, k), scan_c(k));
}

/// Each colour sample of the grid has a place in scan order, and that place
/// leads back to the sample.
pub proof fn lemma_sample_position(p: Pixels, j: int)
    requires
        carries_bit(p, j),
    ensures
        0 <= sample_position(p, j) < capacity(p),
        scan_index(p, sample_position(p, j)) == j,
{
    assert(p.height * p.width == p.width * p.height) by (nonlinear_arith);
    lemma_quotient_in_grid(j / 4, p.height as int, p.width as int);
    lemma_scan_position(p, (j / 4) % (p.width as int), (j / 4) / (p.width as int), j % 4);
}

/// Storing no bits changes nothing.
pub proof fn lemma_embed_nothing(p: Pixels, start: int)
    ensures
        embed(p, start, Seq::empty()) == p,
{
    assert(embed(p, start, Seq::empty()).samples =~= p.samples);
}

/// Storing one more bit changes the one sample at the next place, which the
/// bits before it left alone.
pub proof fn lemma_embed_push(p: Pixels, start: int, bits: Seq<bool>, bit: bool)
    requires
        p.wf(),
        0 <= start,
        start + bits.len() < capacity(p),
    ensures
        ({
            let j = scan_index(p, start + bits.len());
            &&& 0 <= j < p.samples.len()
            &&& embed(p, start, bits).samples[j] == p.samples[j]
            &&& embed(p, start, bits.push(bit)) == (Pixels {
                samples: embed(p, start, bits).samples.update(j, with_lsb(p.samples[j], bit)),
                ..p
            })
        }),
{
    let k = start + bits.len();
    let j = scan_index(p, k);
    lemma_scan_index(p, k);
    let more = embed(p, start, bits.push(bit)).samples;
    let step = embed(p, start, bits).samples.update(j, with_lsb(p.samples[j], bit));
    assert forall|i: int| 0 <= i < p.samples.len() implies more[i] == step[i] by {
        if carries_bit(p, i) {
            lemma_sample_position(p, i);
        }
    }
    assert(more =~= step);
}

/// Bits that reach beyond the grid's capacity are not stored.
pub proof fn lemma_embed_truncates(p: Pixels, start: int, bits: Seq<bool>, n: int)
    requires
        0 <= start,
        0 <= n <= bits.len(),
        capacity(p) <= start + n,
    ensures
        embed(p, start, bits) == embed(p, start, bits.take(n)),
{
    let all = embed(p, start, bits).samples;
    let some = embed(p, start, bits.take(n)).samples;
    assert forall|i: int| 0 <= i < p.samples.len() implies all[i] == some[i] by {
        if carries_bit(p, i) {
            lemma_sample_position(p, i);
        }
    }
    assert(all =~= some);
}

/// Storing bits in two goes, the second from where the first ended, is
/// storing them in one.
pub proof fn lemma_embed_resumes(p: Pixels, start: int, first: Seq<bool>, second: Seq<bool>)
    ensures
        embed(embed(p, start, first), start + first.len(), second) == embed(
            p,
            start,
            first + second,
        ),
{
    let two = embed(embed(p, start, first), start + first.len(), second).samples;
    let one = embed(p, start, first + second).samples;
    assert(two =~= one);
}

/// After storing bits that fit, the grid carries them at their places and
/// carries what it carried before everywhere else.
pub proof fn lemma_lsb_stream_embed(p: Pixels, start: int, bits: Seq<bool>)
    requires
        p.wf(),
        0 <= start,
        start + bits.len() <= capacity(p),
    ensures
        lsb_stream(embed(p, start, bits)) == lsb_stream(p).subrange(0, start) + bits + lsb_stream(
            p,
        ).subrange(start + bits.len(), capacity(p) as int),
{
    let after = lsb_stream(embed(p, start, bits));
    let expected = lsb_stream(p).subrange(0, start) + bits + lsb_stream(p).subrange(
        start + bits.len(),
        capacity(p) as int,
    );
    assert forall|k: int| 0 <= k < capacity(p) implies after[k] == expected[k] by {
        lemma_scan_index(p, k);
        let j = scan_index(p, k);
        if start <= k < start + bits.len() {
            lemma_with_lsb(p.samples[j], bits[k - start]);
        }
    }
}

/// Storing bits leaves every alpha channel as it was.
pub proof fn lemma_embed_keeps_alpha(p: Pixels, start: int, bits: Seq<bool>)
    requires
        p.wf(),
    ensures
        alpha_kept(p, embed(p, start, bits)),
{
    let after = embed(p, start, bits);
    assert forall|x: int, y: int| 0 <= x < p.width && 0 <= y < p.height implies #[trigger] after.channel(
        x,
        y,
        3,
    ) == p.channel(x, y, 3) by {
        lemma_index_of(p, x, y, 3);
    }
}

/// Storing bits leaves every sample as it was whose place none of the bits
/// was stored at, and the seven high bits of all samples.
pub proof fn lemma_embed_keeps_unvisited(p: Pixels, start: int, bits: Seq<bool>)
    requires
        0 <= start,
    ensures
        unvisited_kept(p, embed(p, start, bits), start, start + bits.len()),
{
    let after = embed(p, start, bits);
    assert forall|j: int| 0 <= j < p.samples.len() implies {
        &&& #[trigger] after.samples[j] & 0xFE == p.samples[j] & 0xFE
        &&& !visited(p, start, start + bits.len(), j) ==> after.samples[j] == p.samples[j]
    } by {
        let k = sample_position(p, j);
        if carries_bit(p, j) && start <= k < start + bits.len() {
            lemma_with_lsb(p.samples[j], bits[k - start]);
            lemma_sample_position(p, j);
        }
    }
}

} // verus!
