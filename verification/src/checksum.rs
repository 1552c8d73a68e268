//! The Internet Checksum (RFC 1071): a 16-bit one's-complement sum over a
//! byte span, returned complemented.

use vstd::prelude::*;

verus! {

/// Sum of the 16-bit big-endian words of `b`; an odd trailing byte is the
/// high byte of a zero-padded word.
pub open spec fn word_sum(b: Seq<u8>) -> int
    decreases b.len(),
{
    if b.len() == 0 {
        0
    } else if b.len() == 1 {
        b[0] * 256
    } else {
        b[0] * 256 + b[1] + word_sum(b.skip(2))
    }
}

/// Fold the carries of a one's-complement accumulator into 16 bits.
pub open spec fn fold_carries(s: int) -> int
    decreases s when s >= 0
{
    if s > 0xffff {
        fold_carries(s % 0x10000 + s / 0x10000)
    } else {
        s
    }
}

/// The internet checksum of a byte span: the folded one's-complement sum,
/// complemented.
pub open spec fn checksum_spec(b: Seq<u8>) -> u16 {
    (0xffff - fold_carries(word_sum(b))) as u16
}

pub proof fn lemma_word_sum_nonneg(b: Seq<u8>)
    ensures
        0 <= word_sum(b),
        word_sum(b) <= b.len() * 0x10000,
    decreases b.len(),
{
    if b.len() >= 2 {
        lemma_word_sum_nonneg(b.skip(2));
    }
}

pub proof fn lemma_fold_carries_bounds(s: int)
    requires
        0 <= s,
    ensures
        0 <= fold_carries(s) <= 0xffff,
        s > 0 ==> fold_carries(s) > 0,
        fold_carries(s) <= s,
    decreases s,
{
    if s > 0xffff {
        let s2 = s % 0x10000 + s / 0x10000;
        assert(s2 < s) by (nonlinear_arith)
            requires s > 0xffff && s2 == s % 0x10000 + s / 0x10000;
        assert(s2 > 0) by (nonlinear_arith)
            requires s > 0xffff && s2 == s % 0x10000 + s / 0x10000;
        lemma_fold_carries_bounds(s2);
    }
}

/// Folding preserves the value modulo 0xffff.
pub proof fn lemma_fold_carries_mod(s: int)
    requires
        0 <= s,
    ensures
        fold_carries(s) % 0xffff == s % 0xffff,
    decreases s,
{
    if s > 0xffff {
        let s2 = s % 0x10000 + s / 0x10000;
        assert(s2 % 0xffff == s % 0xffff) by {
            let q = s / 0x10000;
            let r = s % 0x10000;
            assert(s == 0x10000 * q + r) by (nonlinear_arith)
                requires q == s / 0x10000 && r == s % 0x10000 && s >= 0;
            assert(s == 0xffff * q + (q + r));
            assert((0xffff * q + (q + r)) % 0xffff == (q + r) % 0xffff) by (nonlinear_arith)
                requires q >= 0 && q + r >= 0;
        };
        assert(s2 >= 0) by (nonlinear_arith)
            requires s > 0xffff && s2 == s % 0x10000 + s / 0x10000;
        lemma_fold_carries_mod(s2);
    }
}

/// Computes the internet checksum of `data` (RFC 1071).
pub fn checksum(data: &[u8]) -> (r: u16)
    requires
        data@.len() < 0x1_0000_0000,
    ensures
        r == checksum_spec(data@),
{
    let ghost full = data@;
    let len = data.len();
    let mut sum: u64 = 0;
    let mut i: usize = 0;

    proof {
        assert(full.skip(0) =~= full);
    }
    while i + 1 < len
        invariant
            full == data@,
            len == full.len() < 0x1_0000_0000,
            i % 2 == 0,
            i <= len,
            sum + word_sum(full.skip(i as int)) == word_sum(full),
            sum <= i * 0x8000,
        decreases len - i,
    {
        proof {
            assert(full.skip(i as int).skip(2) =~= full.skip(i as int + 2));
            lemma_word_sum_nonneg(full.skip(i as int + 2));
        }
        sum = sum + (data[i] as u64) * 256 + (data[i + 1] as u64);
        i = i + 2;
    }

    if i < len {
        proof {
            assert(full.skip(i as int).len() == 1);
        }
        sum = sum + (data[i] as u64) * 256;
    }

    assert(sum == word_sum(full)) by {
        if i >= len {
            assert(full.skip(i as int).len() == 0);
        }
    };

    while sum > 0xffff
        invariant
            fold_carries(sum as int) == fold_carries(word_sum(full)),
        decreases sum,
    {
        let next = sum % 0x10000 + sum / 0x10000;
        proof {
            assert(next < sum) by (nonlinear_arith)
                requires sum > 0xffff && next == sum % 0x10000 + sum / 0x10000;
        }
        sum = next;
    }

    proof {
        lemma_word_sum_nonneg(full);
        lemma_fold_carries_bounds(word_sum(full));
    }
    0xffff - (sum as u16)
}

/// Writing bytes at an even word boundary shifts the word sum by the change
/// in that one word.
pub proof fn lemma_word_sum_update2(b: Seq<u8>, i: int, hi: u8, lo: u8)
    requires
        0 <= i,
        i % 2 == 0,
        i + 1 < b.len(),
    ensures
        word_sum(b.update(i, hi).update(i + 1, lo))
            == word_sum(b) - b[i] * 256 - b[i + 1] + hi * 256 + lo,
    decreases i,
{
    let b2 = b.update(i, hi).update(i + 1, lo);
    if i == 0 {
        assert(b2.skip(2) =~= b.skip(2));
    } else {
        assert(b2.skip(2) =~= b.skip(2).update(i - 2, hi).update(i - 1, lo));
        lemma_word_sum_update2(b.skip(2), i - 2, hi, lo);
    }
}

/// RFC 1071's defining property: write the computed checksum into an
/// all-zero checksum word, and the one's-complement sum of the whole span
/// folds to 0xffff — that is, the span then checksums to zero.
pub proof fn lemma_checksum_self_verifying(b: Seq<u8>, i: int)
    requires
        0 <= i,
        i % 2 == 0,
        i + 1 < b.len(),
        b[i] == 0,
        b[i + 1] == 0,
    ensures
        ({
            let c = checksum_spec(b);
            let b2 = b.update(i, (c / 256) as u8).update(i + 1, (c % 256) as u8);
            checksum_spec(b2) == 0
        }),
{
    let s = word_sum(b);
    lemma_word_sum_nonneg(b);
    lemma_fold_carries_bounds(s);
    lemma_fold_carries_mod(s);
    let f = fold_carries(s);
    let c = checksum_spec(b);
    assert(c == 0xffff - f);
    let hi = (c / 256) as u8;
    let lo = (c % 256) as u8;
    let b2 = b.update(i, hi).update(i + 1, lo);
    lemma_word_sum_update2(b, i, hi, lo);
    assert(hi * 256 + lo == c as int);
    let t = word_sum(b2);
    assert(t == s + c);

    // t is a positive multiple of 0xffff, so it folds to exactly 0xffff.
    assert(t % 0xffff == 0) by {
        assert(s % 0xffff == f % 0xffff);
        assert(t == (s - f) + 0xffff);
        assert((s - f) % 0xffff == 0) by (nonlinear_arith)
            requires s >= 0 && f >= 0 && s % 0xffff == f % 0xffff && s >= f;
        let d = (s - f) / 0xffff;
        assert(s - f == 0xffff * d) by (nonlinear_arith)
            requires (s - f) % 0xffff == 0 && d == (s - f) / 0xffff;
        assert(t == 0xffff * (d + 1));
        assert((0xffff * (d + 1)) % 0xffff == 0) by (nonlinear_arith);
    };
    assert(t > 0);
    lemma_fold_carries_bounds(t);
    lemma_fold_carries_mod(t);
    let ft = fold_carries(t);
    assert(ft % 0xffff == 0);
    assert(0 < ft <= 0xffff);
    assert(ft == 0xffff) by (nonlinear_arith)
        requires ft % 0xffff == 0 && 0 < ft <= 0xffff;
    assert(checksum_spec(b2) == 0);
}

} // verus!
