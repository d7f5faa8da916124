//! Sets of squares held in a 64-bit word, bit `n` standing for square `n`.
use vstd::prelude::*;

verus! {

/// Whether a bitboard holds a square.
pub open spec fn holds(set: u64, square: int) -> bool {
    (set >> (square as u64)) & 1u64 == 1u64
}

/// The bitboard of one square.
pub open spec fn bit(square: int) -> u64 {
    1u64 << (square as u64)
}

/// How set operations on words act on membership.
pub proof fn lemma_ops(a: u64, b: u64, s: u64)
    by (bit_vector)
    requires
        s < 64,
    ensures
        ((a & b) >> s) & 1u64 == 1u64 <==> ((a >> s) & 1u64 == 1u64 && (b >> s) & 1u64 == 1u64),
        ((a | b) >> s) & 1u64 == 1u64 <==> ((a >> s) & 1u64 == 1u64 || (b >> s) & 1u64 == 1u64),
        ((a ^ b) >> s) & 1u64 == 1u64 <==> ((a >> s) & 1u64 == 1u64) != ((b >> s) & 1u64
            == 1u64),
        ((!a) >> s) & 1u64 == 1u64 <==> !((a >> s) & 1u64 == 1u64),
{
}

/// The bitboard of one square holds that square and no other.
pub proof fn lemma_bit(s: u64, t: u64)
    by (bit_vector)
    requires
        s < 64,
        t < 64,
    ensures
        ((1u64 << s) >> t) & 1u64 == 1u64 <==> s == t,
{
}

/// The empty word holds no square.
pub proof fn lemma_empty(s: u64)
    by (bit_vector)
    requires
        s < 64,
    ensures
        !(((0u64 >> s) & 1u64) == 1u64),
{
}

/// How many of the squares `0..n` a word holds.
pub open spec fn count_below(set: u64, n: int) -> int
    decreases n,
{
    if n <= 0 {
        0
    } else {
        count_below(set, n - 1) + if holds(set, n - 1) {
            1int
        } else {
            0int
        }
    }
}

/// The number of squares a word holds.
pub open spec fn popcount(set: u64) -> int {
    count_below(set, 64)
}

/// A count of squares lies between zero and the number of squares looked at.
pub proof fn lemma_count_bounds(set: u64, n: int)
    requires
        0 <= n,
    ensures
        0 <= count_below(set, n) <= n,
    decreases n,
{
    if n > 0 {
        lemma_count_bounds(set, n - 1);
    }
}

/// A word is empty exactly when it holds no square.
pub proof fn lemma_zero_holds_none(set: u64)
    ensures
        set == 0 <==> forall|square: int| 0 <= square < 64 ==> !#[trigger] holds(set, square),
{
    if set == 0 {
        assert forall|square: int| 0 <= square < 64 implies !#[trigger] holds(set, square) by {
            lemma_empty(square as u64);
        }
    } else {
        vstd::std_specs::bits::axiom_u64_trailing_zeros(set);
        let t = vstd::std_specs::bits::u64_trailing_zeros(set) as int;
        assert(holds(set, t));
    }
}

/// A word holds none of the squares `0..n` exactly when it counts none.
pub proof fn lemma_count_zero(set: u64, n: int)
    requires
        0 <= n,
    ensures
        count_below(set, n) == 0 <==> forall|a: int| 0 <= a < n ==> !#[trigger] holds(set, a),
    decreases n,
{
    if n > 0 {
        lemma_count_zero(set, n - 1);
        lemma_count_bounds(set, n - 1);
    }
}

/// A word holds at most one of the squares `0..n` exactly when it counts at
/// most one.
pub proof fn lemma_count_at_most_one(set: u64, n: int)
    requires
        0 <= n,
    ensures
        count_below(set, n) <= 1 <==> forall|a: int, b: int|
            0 <= a < n && 0 <= b < n && #[trigger] holds(set, a) && #[trigger] holds(set, b) ==> a
                == b,
    decreases n,
{
    if n > 0 {
        lemma_count_at_most_one(set, n - 1);
        lemma_count_zero(set, n - 1);
        lemma_count_bounds(set, n - 1);
        if holds(set, n - 1) {
            if count_below(set, n) <= 1 {
                assert forall|a: int, b: int|
                    0 <= a < n && 0 <= b < n && #[trigger] holds(set, a) && #[trigger] holds(set, b)
                        implies a == b by {
                    if a < n - 1 {
                        assert(!holds(set, a));
                    }
                    if b < n - 1 {
                        assert(!holds(set, b));
                    }
                }
            } else {
                let a = choose|a: int| 0 <= a < n - 1 && holds(set, a);
                assert(holds(set, a) && holds(set, n - 1) && a != n - 1);
            }
        } else {
            if count_below(set, n) > 1 {
                let (a, b) = choose|a: int, b: int|
                    0 <= a < n - 1 && 0 <= b < n - 1 && #[trigger] holds(set, a) && #[trigger] holds(
                        set,
                        b,
                    ) && a != b;
                assert(holds(set, a) && holds(set, b));
            }
        }
    }
}

/// Whether a word holds a square.
pub fn contains(set: u64, square: u8) -> (r: bool)
    requires
        square < 64,
    ensures
        r == holds(set, square as int),
{
    (set >> (square as u64)) & 1 == 1
}

/// The word holding one square.
pub fn square_bit(square: u8) -> (r: u64)
    requires
        square < 64,
    ensures
        r == bit(square as int),
        forall|t: int| 0 <= t < 64 ==> (holds(r, t) <==> t == square),
{
    proof {
        assert forall|t: int| 0 <= t < 64 implies (holds(bit(square as int), t) <==> t == square) by {
            lemma_bit(square as u64, t as u64);
        }
    }
    1u64 << (square as u64)
}

/// The number of squares a word holds.
pub fn count(set: u64) -> (r: u32)
    ensures
        r == popcount(set),
        r <= 64,
{
    let mut n: u32 = 0;
    let mut s: u8 = 0;
    while s < 64
        invariant
            s <= 64,
            n == count_below(set, s as int),
            n <= s,
        decreases 64 - s,
    {
        if contains(set, s) {
            n = n + 1;
        }
        s = s + 1;
    }
    n
}

/// The lowest square a word holds, if any.
pub fn first_square(set: u64) -> (r: Option<u8>)
    ensures
        r matches Some(s) ==> s < 64 && holds(set, s as int) && forall|t: int|
            0 <= t < s ==> !holds(set, t),
        r.is_none() <==> set == 0,
{
    if set == 0 {
        return None;
    }
    let t = set.trailing_zeros();
    proof {
        vstd::std_specs::bits::axiom_u64_trailing_zeros(set);
        assert forall|u: int| 0 <= u < t implies !holds(set, u) by {
            assert((set >> (u as u64)) & 1u64 == 0u64);
        }
    }
    Some(t as u8)
}

} // verus!
