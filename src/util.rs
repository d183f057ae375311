//! Integer helpers: rounding, powers of two and Morton (Z-order) ordinates.
use vstd::prelude::*;

verus! {

/// `n` rounded up to the next multiple of `base`.
pub open spec fn round_up(n: int, base: int) -> int {
    (n + base - 1) / base * base
}

/// Whether `n` is a power of two.
pub open spec fn is_power_of_two(n: nat) -> bool
    decreases n,
{
    if n == 0 {
        false
    } else if n == 1 {
        true
    } else {
        n % 2 == 0 && is_power_of_two(n / 2)
    }
}

/// The smallest power of two that is at least `n`.
pub open spec fn next_power_of_two(n: nat) -> nat
    decreases n,
{
    if n <= 1 {
        1
    } else {
        2 * next_power_of_two(((n + 1) / 2) as nat)
    }
}

/// The bits of `n` at even positions, packed together: the first
/// coordinate of the Morton ordinate `n`.
pub open spec fn even_bits(n: nat) -> nat
    decreases n,
{
    if n == 0 {
        0
    } else {
        n % 2 + 2 * even_bits(n / 4)
    }
}

/// The Morton ordinate of `(x, y)`: the bits of `x` at even positions and
/// the bits of `y` at odd positions.
pub open spec fn interleave(x: nat, y: nat) -> nat
    decreases x + y,
{
    if x == 0 && y == 0 {
        0
    } else {
        x % 2 + 2 * (y % 2) + 4 * interleave(x / 2, y / 2)
    }
}

/// Rounds `num` up to the next multiple of `base`.
pub fn next_multiple_of(base: u32, num: u32) -> (r: u32)
    requires
        base > 0,
        num + base - 1 <= u32::MAX,
    ensures
        r == round_up(num as int, base as int),
{
    let s: u32 = num + (base - 1);
    let q: u32 = s / base;
    assert(q * base <= s) by (nonlinear_arith)
        requires
            q == s / base,
            base > 0,
    ;
    q * base
}

/// A non-zero `u32` with a single bit set is a power of two.
pub proof fn lemma_power_of_two_from_bits(x: u32)
    requires
        x != 0,
        x & ((x - 1) as u32) == 0,
    ensures
        is_power_of_two(x as nat),
    decreases x,
{
    if x != 1 {
        assert(x % 2 == 0 && (x / 2) != 0 && (x / 2) & ((x / 2 - 1) as u32) == 0) by (bit_vector)
            requires
                x != 0,
                x != 1,
                x & ((x - 1) as u32) == 0,
        ;
        lemma_power_of_two_from_bits(x / 2);
    }
}

/// `next_power_of_two(n)` is the power of two `p` with `p / 2 < n <= p`.
pub proof fn lemma_next_power_of_two_is(n: nat, p: nat)
    requires
        is_power_of_two(p),
        p / 2 < n <= p,
    ensures
        next_power_of_two(n) == p,
    decreases p,
{
    if p > 1 {
        let m = ((n + 1) / 2) as nat;
        lemma_next_power_of_two_is(m, p / 2);
    }
}

/// `next_power_of_two(n)` is a power of two no smaller than `n`.
pub proof fn lemma_next_power_of_two(n: nat)
    ensures
        is_power_of_two(next_power_of_two(n)),
        n <= next_power_of_two(n),
    decreases n,
{
    if n > 1 {
        let m = ((n + 1) / 2) as nat;
        lemma_next_power_of_two(m);
        let q = next_power_of_two(m);
        assert((2 * q) / 2 == q);
    }
}

/// A padded canvas dimension, the next power of two above the dimension
/// rounded up to a whole tile of 8, covers the dimension, is a power of two
/// and is a multiple of 8.
pub proof fn lemma_padded_dimension(n: nat)
    requires
        n >= 1,
    ensures
        next_power_of_two(round_up(n as int, 8) as nat) >= n,
        is_power_of_two(next_power_of_two(round_up(n as int, 8) as nat)),
        next_power_of_two(round_up(n as int, 8) as nat) % 8 == 0,
{
    let m = round_up(n as int, 8) as nat;
    assert(m >= n && m >= 8);
    lemma_next_power_of_two(m);
    let m1 = ((m + 1) / 2) as nat;
    let m2 = ((m1 + 1) / 2) as nat;
    let m3 = ((m2 + 1) / 2) as nat;
    assert(next_power_of_two(m) == 2 * next_power_of_two(m1));
    assert(next_power_of_two(m1) == 2 * next_power_of_two(m2));
    assert(next_power_of_two(m2) == 2 * next_power_of_two(m3));
}

/// Rounds `num` up to the next power of two.
pub fn next_largest_power_of_2(num: u32) -> (r: u32)
    requires
        1 <= num <= 0x8000_0000,
    ensures
        r == next_power_of_two(num as nat),
{
    let mut n: u32 = num - 1;
    n = n | (n >> 1);
    n = n | (n >> 2);
    n = n | (n >> 4);
    n = n | (n >> 8);
    n = n | (n >> 16);
    proof {
        let m = (num - 1) as u32;
        let a = m | (m >> 1);
        let b = a | (a >> 2);
        let c = b | (b >> 4);
        let d = c | (c >> 8);
        let e = d | (d >> 16);
        assert(n == e);
        assert(e < u32::MAX && (e + 1) as u32 & e == 0 && num <= e + 1 && (e + 1) / 2 < num)
            by (bit_vector)
            requires
                1 <= num <= 0x8000_0000,
                m == num - 1,
                a == m | (m >> 1),
                b == a | (a >> 2),
                c == b | (b >> 4),
                d == c | (c >> 8),
                e == d | (d >> 16),
        ;
        lemma_power_of_two_from_bits((e + 1) as u32);
        lemma_next_power_of_two_is(num as nat, (e + 1) as nat);
    }
    n + 1
}

/// The bits of `n` at even positions packed into the low half, written with
/// bit operations.
spec fn gather_even_bits(n: u32) -> u32 {
    ((n >> 0u32) & 0x1u32) | ((n >> 1u32) & 0x2u32) | ((n >> 2u32) & 0x4u32) | ((n >> 3u32) & 0x8u32) | ((n >> 4u32) & 0x10u32) | ((n >> 5u32) & 0x20u32) | ((n >> 6u32) & 0x40u32) | ((n >> 7u32) & 0x80u32) | ((n >> 8u32) & 0x100u32) | ((n >> 9u32) & 0x200u32) | ((n >> 10u32) & 0x400u32) | ((n >> 11u32) & 0x800u32) | ((n >> 12u32) & 0x1000u32) | ((n >> 13u32) & 0x2000u32) | ((n >> 14u32) & 0x4000u32) | ((n >> 15u32) & 0x8000u32)
}

proof fn lemma_gather_even_bits(n: u32)
    ensures
        gather_even_bits(n) == even_bits(n as nat),
    decreases n,
{
    assert(gather_even_bits(n) == n % 2 + 2 * gather_even_bits(n / 4)) by (bit_vector);
    if n != 0 {
        lemma_gather_even_bits(n / 4);
    }
}

/// Morton ordinates round-trip: the coordinates read back from the ordinate
/// of `(x, y)` are `x` and `y`.
pub proof fn lemma_interleave_round_trip(x: nat, y: nat)
    ensures
        even_bits(interleave(x, y)) == x,
        even_bits(interleave(x, y) / 2) == y,
    decreases x + y,
{
    if x != 0 || y != 0 {
        let i = interleave(x, y);
        let j = interleave(x / 2, y / 2);
        let a = x % 2;
        let b = y % 2;
        lemma_interleave_round_trip(x / 2, y / 2);
        assert(i == a + 2 * b + 4 * j);
        assert(i % 2 == a && i / 2 == b + 2 * j && i / 4 == j) by (nonlinear_arith)
            requires
                i == a + 2 * b + 4 * j,
                0 <= a < 2,
                0 <= b < 2,
                j >= 0,
        ;
        assert((b + 2 * j) % 2 == b && (b + 2 * j) / 4 == j / 2) by (nonlinear_arith)
            requires
                0 <= b < 2,
                j >= 0,
        ;
        assert(x == a + 2 * (x / 2));
        assert(y == b + 2 * (y / 2));
    }
}

/// Reading the coordinates of an ordinate and interleaving them again gives
/// back the ordinate.
pub proof fn lemma_even_bits_round_trip(n: nat)
    ensures
        interleave(even_bits(n), even_bits(n / 2)) == n,
    decreases n,
{
    if n != 0 {
        lemma_even_bits_round_trip(n / 4);
        let x = even_bits(n);
        let y = even_bits(n / 2);
        assert(x % 2 == n % 2 && x / 2 == even_bits(n / 4));
        if n / 2 != 0 {
            assert(y == (n / 2) % 2 + 2 * even_bits(n / 2 / 4));
        }
        assert(y % 2 == (n / 2) % 2 && y / 2 == even_bits(n / 4 / 2));
    }
}

/// Within a tile of 8 by 8 pixels: an ordinate below 64 has coordinates
/// below 8, and coordinates below 8 have an ordinate below 64.
pub proof fn lemma_tile_ordinates(n: nat, x: nat, y: nat)
    ensures
        n < 64 ==> even_bits(n) < 8 && even_bits(n / 2) < 8,
        x < 8 && y < 8 ==> interleave(x, y) < 64,
{
    if n < 64 {
        assert(even_bits(n) < 8) by {
            reveal_with_fuel(even_bits, 4);
        }
        assert(even_bits(n / 2) < 8) by {
            reveal_with_fuel(even_bits, 4);
        }
    }
    if x < 8 && y < 8 {
        reveal_with_fuel(interleave, 4);
    }
}

/// Splits a Morton ordinate into its coordinates: the even bits give `x`,
/// the odd bits give `y`.
pub fn decimal_ordinate_to_x_y(ordinate: u32) -> (r: (u32, u32))
    ensures
        r.0 == even_bits(ordinate as nat),
        r.1 == even_bits(ordinate as nat / 2),
{
    let mut x: u32 = ordinate;
    let mut y: u32 = ordinate >> 1;
    x = x & 0b0101_0101_0101_0101_0101_0101_0101_0101;
    y = y & 0b0101_0101_0101_0101_0101_0101_0101_0101;
    x = x | (x >> 1);
    y = y | (y >> 1);
    x = x & 0b0011_0011_0011_0011_0011_0011_0011_0011;
    y = y & 0b0011_0011_0011_0011_0011_0011_0011_0011;
    x = x | (x >> 2);
    y = y | (y >> 2);
    x = x & 0b0000_1111_0000_1111_0000_1111_0000_1111;
    y = y & 0b0000_1111_0000_1111_0000_1111_0000_1111;
    x = x | (x >> 4);
    y = y | (y >> 4);
    x = x & 0b0000_0000_1111_1111_0000_0000_1111_1111;
    y = y & 0b0000_0000_1111_1111_0000_0000_1111_1111;
    x = x | (x >> 8);
    y = y | (y >> 8);
    x = x & 0b0000_0000_0000_0000_1111_1111_1111_1111;
    y = y & 0b0000_0000_0000_0000_1111_1111_1111_1111;
    proof {
        lemma_compact(ordinate);
        lemma_compact(ordinate >> 1);
        assert(ordinate >> 1 == ordinate / 2) by (bit_vector);
        lemma_gather_even_bits(ordinate);
        lemma_gather_even_bits(ordinate / 2);
    }
    (x, y)
}

/// The mask-and-shift steps of `decimal_ordinate_to_x_y` gather the even bits.
spec fn compact(n: u32) -> u32 {
    let a = n & 0x5555_5555u32;
    let b = (a | (a >> 1u32)) & 0x3333_3333u32;
    let c = (b | (b >> 2u32)) & 0x0f0f_0f0fu32;
    let d = (c | (c >> 4u32)) & 0x00ff_00ffu32;
    (d | (d >> 8u32)) & 0x0000_ffffu32
}

proof fn lemma_compact(n: u32)
    ensures
        compact(n) == gather_even_bits(n),
{
    assert(compact(n) == gather_even_bits(n)) by (bit_vector);
}

} // verus!
