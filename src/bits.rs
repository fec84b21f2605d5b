use vstd::prelude::*;

verus! {

/// Bit `p` of `x` is set.
pub open spec fn bit(x: u64, p: u64) -> bool {
    (x >> p) & 1u64 == 1u64
}

/// The eight-bit lane of `x` that starts at bit `p`.
pub open spec fn lane_at(x: u64, p: u64) -> u64 {
    (x >> p) & 0xffu64
}

/// The number of pieces in a column lane, or 7 where the lane is not a
/// contiguous run of at most six pieces from row 0.
pub open spec fn lane_height(l: u64) -> u64 {
    if l == 0 {
        0
    } else if l == 1 {
        1
    } else if l == 3 {
        2
    } else if l == 7 {
        3
    } else if l == 15 {
        4
    } else if l == 31 {
        5
    } else if l == 63 {
        6
    } else {
        7
    }
}

pub proof fn lemma_bit_or(x: u64, y: u64, q: u64)
    by (bit_vector)
    requires
        q < 64,
    ensures
        bit(x | y, q) == (bit(x, q) || bit(y, q)),
{
}

pub proof fn lemma_bit_xor(x: u64, y: u64, q: u64)
    by (bit_vector)
    requires
        q < 64,
    ensures
        bit(x ^ y, q) == (bit(x, q) != bit(y, q)),
{
}

pub proof fn lemma_bit_single(a: u64, q: u64)
    by (bit_vector)
    requires
        a < 64,
        q < 64,
    ensures
        bit(1u64 << a, q) == (a == q),
{
}

pub proof fn lemma_test_single(x: u64, a: u64)
    by (bit_vector)
    requires
        a < 64,
    ensures
        (x & (1u64 << a) == 0) == !bit(x, a),
{
}

pub proof fn lemma_subset_bit(x: u64, m: u64, q: u64)
    by (bit_vector)
    requires
        x & !m == 0,
        q < 64,
    ensures
        bit(x, q) ==> bit(m, q),
{
}

/// A bit of `x` read through its lane.
pub proof fn lemma_lane_bit(x: u64, p: u64, r: u64)
    by (bit_vector)
    requires
        r < 8,
        p <= 56,
    ensures
        bit(x, (p + r) as u64) == ((lane_at(x, p) >> r) & 1u64 == 1u64),
{
}

/// In a well-formed lane, row `r` is occupied exactly below the height.
pub proof fn lemma_lane_rows(l: u64, r: u64)
    by (bit_vector)
    requires
        lane_height(l) <= 6,
        r < 8,
    ensures
        ((l >> r) & 1u64 == 1u64) == (r < lane_height(l)),
        l == (1u64 << lane_height(l)) - 1u64,
{
}

/// Adding the column's base bit to the occupancy isolates the lowest free
/// row of that column.
pub proof fn lemma_next_free(m: u64, p: u64, h: u64)
    by (bit_vector)
    requires
        p <= 48,
        p % 8 == 0,
        h < 6,
        m >> 56u64 == 0,
        (m >> p) & 0xffu64 == (1u64 << h) - 1u64,
    ensures
        m + (1u64 << p) < 0x100_0000_0000_0000,
        (((m + (1u64 << p)) as u64) | m) ^ m == 1u64 << ((p + h) as u64),
{
}

/// Setting a bit in one lane leaves every other lane as it was.
pub proof fn lemma_lane_other(m: u64, p: u64, h: u64, q: u64)
    by (bit_vector)
    requires
        p <= 48,
        q <= 48,
        p % 8 == 0,
        q % 8 == 0,
        p != q,
        h < 8,
    ensures
        lane_at(m | (1u64 << ((p + h) as u64)), q) == lane_at(m, q),
{
}

/// Setting the lowest free row of a lane grows its run by one.
pub proof fn lemma_lane_grow(m: u64, p: u64, h: u64)
    by (bit_vector)
    requires
        p <= 48,
        h < 6,
        lane_at(m, p) == (1u64 << h) - 1u64,
        m >> 56u64 == 0,
    ensures
        lane_at(m | (1u64 << ((p + h) as u64)), p) == (1u64 << ((h + 1) as u64)) - 1u64,
        lane_height(((1u64 << ((h + 1) as u64)) - 1u64) as u64) == h + 1,
        (m | (1u64 << ((p + h) as u64))) >> 56u64 == 0,
{
}

/// Flipping every occupied position keeps the pieces within the occupancy.
pub proof fn lemma_flip_within(x: u64, m: u64, n: u64)
    by (bit_vector)
    requires
        x & !m == 0,
    ensures
        (x ^ (m | n)) & !(m | n) == 0,
{
}

/// A template of four bits at offsets 0, `a`, `b` and `c`, moved to `p`, is
/// contained in `x` exactly when those four bits of `x` are set.
pub proof fn lemma_window(x: u64, p: u64, a: u64, b: u64, c: u64)
    by (bit_vector)
    requires
        0 < a < b < c,
        p + c < 64,
    ensures
        (x & ((1u64 | (1u64 << a) | (1u64 << b) | (1u64 << c)) << p)
            == (1u64 | (1u64 << a) | (1u64 << b) | (1u64 << c)) << p) == (bit(x, p) && bit(
            x,
            (p + a) as u64,
        ) && bit(x, (p + b) as u64) && bit(x, (p + c) as u64)),
{
}

/// The empty occupancy: no bit set, every lane empty.
pub proof fn lemma_empty(p: u64, q: u64)
    by (bit_vector)
    ensures
        lane_at(0u64, p) == 0,
        0u64 >> 56u64 == 0,
        0u64 & !0u64 == 0,
        !bit(0u64, q),
{
}

} // verus!
