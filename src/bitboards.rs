use vstd::prelude::*;

verus! {

/// Whether square `sq` (0..64, a1 = 0, h8 = 63) is set in the bitboard `b`.
pub open spec fn has_square(b: u64, sq: u64) -> bool {
    (b >> sq) & 1 == 1
}

/// Every set square spread to all squares north of it on its file.
pub open spec fn north_fill_of(b: u64) -> u64 {
    let b1 = b | (b << 8u64);
    let b2 = b1 | (b1 << 16u64);
    b2 | (b2 << 32u64)
}

/// Every set square spread to all squares south of it on its file.
pub open spec fn south_fill_of(b: u64) -> u64 {
    let b1 = b | (b >> 8u64);
    let b2 = b1 | (b1 >> 16u64);
    b2 | (b2 >> 32u64)
}

/// The squares strictly north of the set squares, on their files.
pub open spec fn w_front_span_of(b: u64) -> u64 {
    north_fill_of(b) << 8u64
}

/// The squares strictly south of the set squares, on their files.
pub open spec fn b_front_span_of(b: u64) -> u64 {
    south_fill_of(b) >> 8u64
}

pub fn north_fill(b: u64) -> (r: u64)
    ensures
        r == north_fill_of(b),
{
    let b1 = b | (b << 8u64);
    let b2 = b1 | (b1 << 16u64);
    b2 | (b2 << 32u64)
}

pub fn south_fill(b: u64) -> (r: u64)
    ensures
        r == south_fill_of(b),
{
    let b1 = b | (b >> 8u64);
    let b2 = b1 | (b1 >> 16u64);
    b2 | (b2 >> 32u64)
}

/// Front spans of white pawns: the squares ahead of them.
pub fn w_front_span(b: u64) -> (r: u64)
    ensures
        r == w_front_span_of(b),
{
    north_fill(b) << 8u64
}

/// Front spans of black pawns: the squares ahead of them.
pub fn b_front_span(b: u64) -> (r: u64)
    ensures
        r == b_front_span_of(b),
{
    south_fill(b) >> 8u64
}

/// Rear spans of white pawns: the squares behind them.
pub fn w_rear_span(b: u64) -> (r: u64)
    ensures
        r == b_front_span_of(b),
{
    south_fill(b) >> 8u64
}

/// Rear spans of black pawns: the squares behind them.
pub fn b_rear_span(b: u64) -> (r: u64)
    ensures
        r == w_front_span_of(b),
{
    north_fill(b) << 8u64
}

/// Clearing the lowest set square: it is below 64, it is set, the result is smaller and
/// differs from the board only there.
pub proof fn lemma_clear_square(x: u64, i: u64)
    requires
        i < 64,
        has_square(x, i),
    ensures
        x ^ (1u64 << i) < x,
        !has_square(x ^ (1u64 << i), i),
        forall|s: u64| s < 64 && s != i ==> has_square(x ^ (1u64 << i), s) == has_square(x, s),
{
    assert(x ^ (1u64 << i) < x && (((x ^ (1u64 << i)) >> i) & 1) != 1) by (bit_vector)
        requires
            i < 64,
            (x >> i) & 1 == 1,
    ;
    assert forall|s: u64| s < 64 && s != i implies has_square(x ^ (1u64 << i), s) == has_square(
        x,
        s,
    ) by {
        assert((((x ^ (1u64 << i)) >> s) & 1 == 1) == ((x >> s) & 1 == 1)) by (bit_vector)
            requires
                i < 64,
                s < 64,
                s != i,
        ;
    }
}

/// Setting square `i` sets it and leaves the other squares as they were.
pub proof fn lemma_set_square(x: u64, i: u64)
    requires
        i < 64,
    ensures
        forall|s: u64|
            s < 64 ==> #[trigger] has_square(x | (1u64 << i), s) == (has_square(x, s) || s == i),
{
    assert forall|s: u64| s < 64 implies #[trigger] has_square(x | (1u64 << i), s) == (has_square(x, s) || s == i) by {
        let y = x | (1u64 << i);
        assert(((y >> s) & 1 == 1) == (((x >> s) & 1 == 1) || s == i)) by (bit_vector)
            requires
                i < 64,
                s < 64,
                y == x | (1u64 << i),
        ;
    }
}

/// Squares of the empty board, and of a conjunction.
pub proof fn lemma_square_basics(x: u64, y: u64)
    ensures
        forall|s: u64| s < 64 ==> !has_square(0u64, s),
        forall|s: u64| s < 64 ==> has_square(x & !y, s) == (has_square(x, s) && !has_square(y, s)),
{
    assert forall|s: u64| s < 64 implies !has_square(0u64, s) by {
        assert((0u64 >> s) & 1 != 1) by (bit_vector);
    }
    assert forall|s: u64| s < 64 implies has_square(x & !y, s) == (has_square(x, s) && !has_square(y, s)) by {
        assert((((x & !y) >> s) & 1 == 1) == (((x >> s) & 1 == 1) && !((y >> s) & 1 == 1))) by (bit_vector)
            requires
                s < 64,
        ;
    }
}

/// Number of set squares of `b` below `n`.
pub open spec fn squares_below(b: u64, n: int) -> int
    decreases n,
{
    if n <= 0 {
        0
    } else {
        squares_below(b, n - 1) + if has_square(b, (n - 1) as u64) {
            1int
        } else {
            0
        }
    }
}

/// Number of set squares of `b`.
pub open spec fn square_count(b: u64) -> int {
    squares_below(b, 64)
}

proof fn lemma_squares_below_clear(x: u64, i: u64, n: int)
    requires
        i < 64,
        has_square(x, i),
        0 <= n <= 64,
    ensures
        squares_below(x, n) == squares_below(x ^ (1u64 << i), n) + if i < n {
            1int
        } else {
            0
        },
    decreases n,
{
    lemma_clear_square(x, i);
    if n > 0 {
        lemma_squares_below_clear(x, i, n - 1);
    }
}

proof fn lemma_squares_below_bounds(b: u64, n: int)
    requires
        0 <= n <= 64,
    ensures
        0 <= squares_below(b, n) <= n,
        b == 0 ==> squares_below(b, n) == 0,
    decreases n,
{
    lemma_square_basics(0u64, 0u64);
    if n > 0 {
        lemma_squares_below_bounds(b, n - 1);
    }
}

/// Number of set squares of `b`.
pub fn count_squares(b: u64) -> (r: u32)
    ensures
        r == square_count(b),
        r <= 64,
{
    let mut rest = b;
    let mut count: u32 = 0;
    proof {
        lemma_squares_below_bounds(b, 64);
    }
    while rest != 0u64
        invariant
            count == square_count(b) - square_count(rest),
            0 <= square_count(rest) <= 64,
            0 <= square_count(b) <= 64,
        decreases rest,
    {
        proof {
            vstd::std_specs::bits::axiom_u64_trailing_zeros(rest);
        }
        let idx = rest.trailing_zeros() as u64;
        let old_rest = rest;
        proof {
            lemma_clear_square(old_rest, idx);
            lemma_squares_below_clear(old_rest, idx, 64);
            lemma_squares_below_bounds(old_rest ^ (1u64 << idx), 64);
        }
        count = count + 1;
        rest = rest ^ (1u64 << idx);
    }
    proof {
        lemma_squares_below_bounds(rest, 64);
    }
    count
}

} // verus!
