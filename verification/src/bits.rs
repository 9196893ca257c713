//! Single bits of sixteen-bit patterns and of sixty-four-bit words, and what
//! the bitwise operations do to them.
use vstd::prelude::*;

verus! {

/// Whether bit `i` of `bits` is set. No bit is set outside `0..16`.
pub open spec fn bit16(bits: u16, i: int) -> bool {
    0 <= i < 16 && (bits >> (i as u16)) & 1 == 1
}

/// The pattern whose bit `i` is set exactly where `set(i)` holds, for every
/// `i` below `n`.
pub open spec fn pattern(set: spec_fn(int) -> bool, n: nat) -> u16
    decreases n,
{
    if n == 0 {
        0
    } else if set(n - 1) {
        pattern(set, (n - 1) as nat) | (1u16 << ((n - 1) as u16))
    } else {
        pattern(set, (n - 1) as nat)
    }
}

/// A bit of `a | b` is set where it is set in `a` or in `b`.
pub proof fn lemma_bit_or(a: u16, b: u16, i: int)
    ensures
        bit16(a | b, i) == (bit16(a, i) || bit16(b, i)),
{
    if 0 <= i < 16 {
        let k: u16 = i as u16;
        assert((((a | b) >> k) & 1 == 1) == (((a >> k) & 1 == 1) || ((b >> k) & 1 == 1)))
            by (bit_vector);
    }
}

/// `1 << d` has bit `d` set and no other.
pub proof fn lemma_bit_single(d: int, i: int)
    requires
        0 <= d < 16,
    ensures
        bit16(1u16 << (d as u16), i) == (i == d),
{
    if 0 <= i < 16 {
        let k: u16 = i as u16;
        let e: u16 = d as u16;
        assert((((1u16 << e) >> k) & 1 == 1) == (k == e)) by (bit_vector)
            requires
                k < 16,
                e < 16,
        ;
    }
}

/// Zero has no bit set.
pub proof fn lemma_bit_zero(i: int)
    ensures
        !bit16(0, i),
{
    if 0 <= i < 16 {
        let k: u16 = i as u16;
        assert((0u16 >> k) & 1 == 0) by (bit_vector);
    }
}

/// Two patterns with the same bits are the same pattern.
pub proof fn lemma_same_bits(a: u16, b: u16)
    requires
        forall|i: int| 0 <= i < 16 ==> bit16(a, i) == bit16(b, i),
    ensures
        a == b,
{
    assert(bit16(a, 0) == bit16(b, 0));
    assert(bit16(a, 1) == bit16(b, 1));
    assert(bit16(a, 2) == bit16(b, 2));
    assert(bit16(a, 3) == bit16(b, 3));
    assert(bit16(a, 4) == bit16(b, 4));
    assert(bit16(a, 5) == bit16(b, 5));
    assert(bit16(a, 6) == bit16(b, 6));
    assert(bit16(a, 7) == bit16(b, 7));
    assert(bit16(a, 8) == bit16(b, 8));
    assert(bit16(a, 9) == bit16(b, 9));
    assert(bit16(a, 10) == bit16(b, 10));
    assert(bit16(a, 11) == bit16(b, 11));
    assert(bit16(a, 12) == bit16(b, 12));
    assert(bit16(a, 13) == bit16(b, 13));
    assert(bit16(a, 14) == bit16(b, 14));
    assert(bit16(a, 15) == bit16(b, 15));
    assert(a == b) by (bit_vector)
        requires
            ((a >> 0) & 1 == 1) == ((b >> 0) & 1 == 1),
            ((a >> 1) & 1 == 1) == ((b >> 1) & 1 == 1),
            ((a >> 2) & 1 == 1) == ((b >> 2) & 1 == 1),
            ((a >> 3) & 1 == 1) == ((b >> 3) & 1 == 1),
            ((a >> 4) & 1 == 1) == ((b >> 4) & 1 == 1),
            ((a >> 5) & 1 == 1) == ((b >> 5) & 1 == 1),
            ((a >> 6) & 1 == 1) == ((b >> 6) & 1 == 1),
            ((a >> 7) & 1 == 1) == ((b >> 7) & 1 == 1),
            ((a >> 8) & 1 == 1) == ((b >> 8) & 1 == 1),
            ((a >> 9) & 1 == 1) == ((b >> 9) & 1 == 1),
            ((a >> 10) & 1 == 1) == ((b >> 10) & 1 == 1),
            ((a >> 11) & 1 == 1) == ((b >> 11) & 1 == 1),
            ((a >> 12) & 1 == 1) == ((b >> 12) & 1 == 1),
            ((a >> 13) & 1 == 1) == ((b >> 13) & 1 == 1),
            ((a >> 14) & 1 == 1) == ((b >> 14) & 1 == 1),
            ((a >> 15) & 1 == 1) == ((b >> 15) & 1 == 1),
    ;
}

/// The bits of `pattern(set, n)`: bit `i` is set where `i < n` and `set(i)`.
pub proof fn lemma_pattern_bit(set: spec_fn(int) -> bool, n: nat, i: int)
    requires
        n <= 16,
    ensures
        bit16(pattern(set, n), i) == (0 <= i < n && set(i)),
    decreases n,
{
    if n == 0 {
        lemma_bit_zero(i);
    } else {
        let rest = pattern(set, (n - 1) as nat);
        lemma_pattern_bit(set, (n - 1) as nat, i);
        if set(n - 1) {
            lemma_bit_or(rest, 1u16 << ((n - 1) as u16), i);
            lemma_bit_single(n - 1, i);
        }
    }
}

/// Whether bit `i` of `bits` is set. No bit is set outside `0..64`.
pub open spec fn bit64(bits: u64, i: int) -> bool {
    0 <= i < 64 && (bits >> (i as u64)) & 1 == 1
}

/// The word whose lowest `width` bits are set, and no other.
pub open spec fn low_bits(width: int) -> u64 {
    ((1u64 << (width as u64)) - 1) as u64
}

/// A bit of `a | b` is set where it is set in `a` or in `b`.
pub proof fn lemma_bit64_or(a: u64, b: u64, i: int)
    ensures
        bit64(a | b, i) == (bit64(a, i) || bit64(b, i)),
{
    if 0 <= i < 64 {
        let k: u64 = i as u64;
        assert((((a | b) >> k) & 1 == 1) == (((a >> k) & 1 == 1) || ((b >> k) & 1 == 1)))
            by (bit_vector);
    }
}

/// A pattern keeps its bits when it is widened to a word.
pub proof fn lemma_bit64_wide(a: u16, i: int)
    ensures
        bit64(a as u64, i) == bit16(a, i),
{
    if 0 <= i < 64 {
        let k: u64 = i as u64;
        let wide: u64 = a as u64;
        assert(((wide >> k) & 1 == 1) == (k < 16 && (a >> (k as u16)) & 1 == 1)) by (bit_vector)
            requires
                wide == a as u64,
                k < 64,
        ;
    }
}

/// Bit `i` of `a << n` is bit `i - n` of `a`; the bits moved past the top are
/// lost.
pub proof fn lemma_bit64_shl(a: u64, n: int, i: int)
    requires
        0 <= n < 64,
    ensures
        bit64(a << (n as u64), i) == (n <= i < 64 && bit64(a, i - n)),
{
    if 0 <= i < 64 {
        let k: u64 = i as u64;
        let m: u64 = n as u64;
        if n <= i {
            let d: u64 = (i - n) as u64;
            assert((((a << m) >> k) & 1 == 1) == ((a >> d) & 1 == 1)) by (bit_vector)
                requires
                    k < 64,
                    m <= k,
                    d == k - m,
            ;
        } else {
            assert(((a << m) >> k) & 1 == 0) by (bit_vector)
                requires
                    k < m,
                    m < 64,
            ;
        }
    }
}

/// Bit `i` of `a >> n` is bit `i + n` of `a`.
pub proof fn lemma_bit64_shr(a: u64, n: int, i: int)
    requires
        0 <= n < 64,
    ensures
        bit64(a >> (n as u64), i) == (0 <= i && bit64(a, i + n)),
{
    if 0 <= i < 64 {
        let k: u64 = i as u64;
        let m: u64 = n as u64;
        if i + n < 64 {
            let u: u64 = (i + n) as u64;
            assert((((a >> m) >> k) & 1 == 1) == ((a >> u) & 1 == 1)) by (bit_vector)
                requires
                    u < 64,
                    u == k + m,
            ;
        } else {
            assert(((a >> m) >> k) & 1 == 0) by (bit_vector)
                requires
                    k < 64,
                    m < 64,
                    k + m >= 64,
            ;
        }
    }
}

/// The low sixteen bits of a word, as a pattern, are its bits below 16.
pub proof fn lemma_bit_low(a: u64, i: int)
    ensures
        bit16((a & 0xffff) as u16, i) == (i < 16 && bit64(a, i)),
{
    if 0 <= i < 16 {
        let k: u64 = i as u64;
        let low: u16 = (a & 0xffff) as u16;
        assert(((low >> (k as u16)) & 1 == 1) == ((a >> k) & 1 == 1)) by (bit_vector)
            requires
                low == (a & 0xffff) as u16,
                k < 16,
        ;
    }
}

/// The `width` bits of `a` from bit `from` upwards, as a pattern: bit `i` of
/// the pattern is bit `from + i` of the word.
pub proof fn lemma_bit_window(a: u64, from: int, width: int, i: int)
    requires
        0 <= from < 64,
        0 <= width <= 16,
    ensures
        bit16(((a >> (from as u64)) & low_bits(width)) as u16, i) == (0 <= i < width && bit64(
            a,
            from + i,
        )),
{
    if 0 <= i < 16 {
        let k: u64 = i as u64;
        let m: u64 = from as u64;
        let w: u64 = width as u64;
        let mask: u64 = low_bits(width);
        assert(mask == ((1u64 << w) - 1) as u64);
        let window: u16 = ((a >> m) & mask) as u16;
        if i + from < 64 {
            let u: u64 = (i + from) as u64;
            assert(((window >> (k as u16)) & 1 == 1) == (k < w && (a >> u) & 1 == 1))
                by (bit_vector)
                requires
                    window == ((a >> m) & mask) as u16,
                    mask == ((1u64 << w) - 1) as u64,
                    w <= 16,
                    k < 16,
                    u < 64,
                    u == k + m,
            ;
        } else {
            assert((window >> (k as u16)) & 1 == 0) by (bit_vector)
                requires
                    window == ((a >> m) & mask) as u16,
                    k < 16,
                    m < 64,
                    k + m >= 64,
            ;
        }
    }
}

} // verus!
