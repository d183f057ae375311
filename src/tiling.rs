//! The placement of stored pixels on the canvas: 8 by 8 tiles in row-major
//! order, pixels in Morton order within each tile.
use vstd::prelude::*;

use crate::util::{even_bits, interleave, lemma_even_bits_round_trip, lemma_interleave_round_trip, lemma_tile_ordinates};

verus! {

/// The index, in the stored pixel stream, of the pixel at `(x, y)` on a
/// padded canvas `padded_width` pixels wide.
pub open spec fn source_index(padded_width: nat, x: nat, y: nat) -> nat {
    ((y / 8) * (padded_width / 8) + x / 8) * 64 + interleave(x % 8, y % 8)
}

/// The column of the `n`-th stored pixel on a padded canvas
/// `padded_width` pixels wide.
pub open spec fn pixel_x(padded_width: nat, n: nat) -> nat {
    (n / 64) % (padded_width / 8) * 8 + even_bits(n % 64)
}

/// The row of the `n`-th stored pixel on a padded canvas `padded_width`
/// pixels wide.
pub open spec fn pixel_y(padded_width: nat, n: nat) -> nat {
    (n / 64) / (padded_width / 8) * 8 + even_bits((n % 64) / 2)
}

/// Each position of the padded canvas is stored once: its index lies in
/// the stream, and the stored pixel of that index lies at that position.
pub proof fn lemma_position_to_index(tiles_wide: nat, tiles_high: nat, x: nat, y: nat)
    requires
        tiles_wide >= 1,
        x < 8 * tiles_wide,
        y < 8 * tiles_high,
    ensures
        source_index(8 * tiles_wide, x, y) < 64 * tiles_wide * tiles_high,
        pixel_x(8 * tiles_wide, source_index(8 * tiles_wide, x, y)) == x,
        pixel_y(8 * tiles_wide, source_index(8 * tiles_wide, x, y)) == y,
{
    let pw = 8 * tiles_wide;
    let lx = x % 8;
    let ly = y % 8;
    let i = interleave(lx, ly);
    lemma_tile_ordinates(0, lx, ly);
    lemma_interleave_round_trip(lx, ly);
    assert(pw / 8 == tiles_wide);
    let t = (y / 8) * tiles_wide + x / 8;
    let s = t * 64 + i;
    assert(s == source_index(pw, x, y));
    assert(x / 8 < tiles_wide && y / 8 < tiles_high);
    assert(t < tiles_wide * tiles_high) by (nonlinear_arith)
        requires
            t == (y / 8) * tiles_wide + x / 8,
            x / 8 < tiles_wide,
            y / 8 < tiles_high,
    ;
    assert(s / 64 == t && s % 64 == i) by (nonlinear_arith)
        requires
            s == t * 64 + i,
            0 <= i < 64,
            t >= 0,
    ;
    assert(s < 64 * tiles_wide * tiles_high) by (nonlinear_arith)
        requires
            s == t * 64 + i,
            0 <= i < 64,
            t < tiles_wide * tiles_high,
    ;
    assert(t % tiles_wide == x / 8 && t / tiles_wide == y / 8) by (nonlinear_arith)
        requires
            t == (y / 8) * tiles_wide + x / 8,
            0 <= x / 8 < tiles_wide,
            y / 8 >= 0,
    ;
}

/// Each stored pixel of the stream lies on the padded canvas, and its
/// position leads back to its index.
pub proof fn lemma_index_to_position(tiles_wide: nat, tiles_high: nat, n: nat)
    requires
        tiles_wide >= 1,
        n < 64 * tiles_wide * tiles_high,
    ensures
        pixel_x(8 * tiles_wide, n) < 8 * tiles_wide,
        pixel_y(8 * tiles_wide, n) < 8 * tiles_high,
        source_index(8 * tiles_wide, pixel_x(8 * tiles_wide, n), pixel_y(8 * tiles_wide, n)) == n,
{
    let pw = 8 * tiles_wide;
    assert(pw / 8 == tiles_wide);
    let t = n / 64;
    let i = n % 64;
    let tx = t % tiles_wide;
    let ty = t / tiles_wide;
    let lx = even_bits(i);
    let ly = even_bits(i / 2);
    lemma_tile_ordinates(i, 0, 0);
    lemma_even_bits_round_trip(i);
    assert(t < tiles_wide * tiles_high) by (nonlinear_arith)
        requires
            t == n / 64,
            n < 64 * tiles_wide * tiles_high,
    ;
    assert(ty < tiles_high && tx < tiles_wide && t == ty * tiles_wide + tx) by (nonlinear_arith)
        requires
            tiles_wide >= 1,
            t < tiles_wide * tiles_high,
            tx == t % tiles_wide,
            ty == t / tiles_wide,
    ;
    let x = tx * 8 + lx;
    let y = ty * 8 + ly;
    assert(x / 8 == tx && x % 8 == lx && y / 8 == ty && y % 8 == ly);
    assert(x < 8 * tiles_wide && y < 8 * tiles_high);
    assert(n == t * 64 + i);
}

} // verus!
