//! The bound calculator: how many characters of an alphabet fit into 128 bits.

use vstd::arithmetic::power2::{
    lemma2_to64, lemma_pow2_pos, lemma_pow2_strictly_increases, lemma_pow2_unfold, pow2,
};
use vstd::prelude::*;

verus! {

/// Width in bits of the integer that backs a symbol.
pub const SYMBOL_BITS: usize = 128;

/// The ceiling of the binary logarithm: the least `k` with `x <= 2^k`.
/// Both 0 and 1 give 0.
pub open spec fn ceil_log2_of(x: nat) -> nat
    decreases x,
{
    if x <= 1 {
        0
    } else {
        1 + ceil_log2_of((x + 1) / 2)
    }
}

/// `ceil_log2_of(x)` is an exponent whose power of two reaches `x`, and
/// the exponent below it does not.
pub proof fn lemma_ceil_log2_bounds(x: nat)
    ensures
        x <= pow2(ceil_log2_of(x)),
        ceil_log2_of(x) > 0 ==> pow2((ceil_log2_of(x) - 1) as nat) < x,
    decreases x,
{
    let k = ceil_log2_of(x);
    if x <= 1 {
        lemma_pow2_pos(0);
    } else {
        let h = (x + 1) / 2;
        lemma_ceil_log2_bounds(h);
        lemma_pow2_unfold(k);
        if ceil_log2_of(h) > 0 {
            lemma_pow2_unfold((k - 1) as nat);
        } else {
            lemma_pow2_pos(0);
            assert(pow2(0) == 1) by {
                lemma2_to64();
            }
        }
    }
}

/// Only one exponent has the two properties of `lemma_ceil_log2_bounds`:
/// `ceil_log2_of(x)` is the least `k` with `x <= 2^k`.
pub proof fn lemma_ceil_log2_is_least(x: nat, k: nat)
    requires
        x <= pow2(k),
    ensures
        ceil_log2_of(x) <= k,
{
    lemma_ceil_log2_bounds(x);
    if ceil_log2_of(x) > k {
        let below = (ceil_log2_of(x) - 1) as nat;
        if k < below {
            lemma_pow2_strictly_increases(k, below);
        }
    }
}

/// The ceiling of the binary logarithm grows with its argument.
pub proof fn lemma_ceil_log2_monotonic(x: nat, y: nat)
    requires
        x <= y,
    ensures
        ceil_log2_of(x) <= ceil_log2_of(y),
{
    lemma_ceil_log2_bounds(y);
    lemma_ceil_log2_is_least(x, ceil_log2_of(y));
}

/// Bits that one character of an alphabet of `n` characters takes: the
/// ceiling of the binary logarithm of the radix `n + 1`.
pub open spec fn bits_per_char(n: nat) -> nat {
    ceil_log2_of(n + 1)
}

/// The longest text, in characters, that fits into 128 bits whatever its
/// characters are, for an alphabet of `n >= 1` characters.
pub open spec fn max_len_of(n: nat) -> nat
    recommends
        n >= 1,
{
    128nat / bits_per_char(n)
}

/// A non-empty alphabet takes at least one bit per character, so the
/// division in `max_len_of` is defined and the result is at most 128.
pub proof fn lemma_bits_per_char_positive(n: nat)
    requires
        n >= 1,
    ensures
        bits_per_char(n) >= 1,
        bits_per_char(n) == 1 + ceil_log2_of(n / 2 + 1),
        max_len_of(n) <= 128,
        max_len_of(n) * bits_per_char(n) <= 128,
{
    let b = bits_per_char(n);
    assert((n + 1 + 1) / 2 == n / 2 + 1);
    assert(128int / (b as int) <= 128 && (128int / (b as int)) * b <= 128) by (nonlinear_arith)
        requires
            b >= 1,
    ;
}

/// A smaller alphabet never has a shorter limit than a larger one.
pub proof fn lemma_max_len_antitone(n: nat, m: nat)
    requires
        1 <= n <= m,
    ensures
        max_len_of(m) <= max_len_of(n),
{
    lemma_bits_per_char_positive(n);
    lemma_bits_per_char_positive(m);
    lemma_ceil_log2_monotonic(n + 1, m + 1);
    let a = bits_per_char(n) as int;
    let b = bits_per_char(m) as int;
    assert(128int / b <= 128int / a) by (nonlinear_arith)
        requires
            1 <= a <= b,
    ;
}

/// Computes the ceiling of the binary logarithm of `x` by halving,
/// rounding up, until 1 is reached.
pub fn ceil_log2(x: usize) -> (log: usize)
    ensures
        log == ceil_log2_of(x as nat),
        x <= pow2(log as nat),
        log > 0 ==> pow2((log - 1) as nat) < x,
        log <= usize::BITS,
{
    let mut n: usize = x;
    let mut log: usize = 0;
    proof {
        lemma_ceil_log2_width(x as nat, usize::BITS as nat);
    }
    while n > 1
        invariant
            log + ceil_log2_of(n as nat) == ceil_log2_of(x as nat),
            ceil_log2_of(x as nat) <= usize::BITS,
        decreases n,
    {
        n = n / 2 + n % 2;
        log += 1;
    }
    proof {
        lemma_ceil_log2_bounds(x as nat);
    }
    log
}

/// A number below `2^w` has a logarithm of at most `w`.
proof fn lemma_ceil_log2_width(x: nat, w: nat)
    requires
        w == 32 || w == 64,
        x <= usize::MAX,
        usize::BITS == w,
    ensures
        ceil_log2_of(x) <= w,
{
    lemma2_to64();
    assert(usize::MAX < pow2(w)) by {
        if w == 32 {
            assert(usize::MAX == 0xffff_ffff);
        } else {
            assert(usize::MAX == 0xffff_ffff_ffff_ffff);
        }
    }
    lemma_ceil_log2_is_least(x, w);
}

/// The longest text that an alphabet of `n` characters can have as a
/// symbol: `floor(128 / ceil(log2(n + 1)))`.
pub fn max_len(n: usize) -> (max: usize)
    requires
        n >= 1,
    ensures
        max == max_len_of(n as nat),
        1 <= max <= 128,
{
    proof {
        lemma_bits_per_char_positive(n as nat);
    }
    // The first halving is done by hand: half of `n + 1`, rounded up, is
    // `n / 2 + 1`, and so `n + 1` is never formed and cannot overflow.
    let bits: usize = 1 + ceil_log2(n / 2 + 1);
    let max: usize = SYMBOL_BITS / bits;
    assert(max >= 1) by (nonlinear_arith)
        requires
            1 <= bits <= 65,
            max == 128int / (bits as int),
    ;
    max
}

} // verus!
