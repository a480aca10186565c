//! The Internet checksum.

use vstd::prelude::*;
use crate::wire::{u16_at, with_u16};

verus! {

/// The number of 16-bit words that `bytes` holds, a trailing single byte counted as one.
pub open spec fn word_count(bytes: Seq<u8>) -> nat {
    ((bytes.len() + 1) / 2) as nat
}

/// The `i`-th big-endian 16-bit word of `bytes`. A trailing single byte is the
/// high byte of a word whose low byte is zero.
pub open spec fn word_at(bytes: Seq<u8>, i: int) -> nat {
    let lo = if 2 * i + 1 < bytes.len() {
        bytes[2 * i + 1] as nat
    } else {
        0nat
    };
    (bytes[2 * i] as nat) * 256 + lo
}

/// The sum of the first `n` words of `bytes`.
pub open spec fn sum_words(bytes: Seq<u8>, n: nat) -> nat
    decreases n,
{
    if n == 0 {
        0
    } else {
        sum_words(bytes, (n - 1) as nat) + word_at(bytes, n - 1)
    }
}

/// What the accumulator holds after all words of `bytes` were added to it: a
/// 32-bit accumulator wraps around.
pub open spec fn accumulated(bytes: Seq<u8>) -> nat {
    sum_words(bytes, word_count(bytes)) % 0x1_0000_0000
}

/// A sum folded to 16 bits with end-around carry: zero stays zero, and every
/// other number becomes the one in `1..=0xFFFF` that it is congruent to modulo `0xFFFF`.
pub open spec fn fold16(x: nat) -> nat {
    if x == 0 {
        0
    } else {
        ((x - 1) % 0xFFFF + 1) as nat
    }
}

/// The Internet checksum of `bytes`: the complement of the folded sum of its words.
pub open spec fn internet_checksum(bytes: Seq<u8>) -> u16 {
    (0xFFFF - fold16(accumulated(bytes))) as u16
}

proof fn lemma_halves(x: u32)
    by (bit_vector)
    ensures
        x & 0xFFFF == x % 0x1_0000,
        x >> 16 == x / 0x1_0000,
{
}

proof fn lemma_complement(x: u16)
    by (bit_vector)
    ensures
        !x == 0xFFFF - x,
{
}

proof fn lemma_high_byte(b: u8)
    by (bit_vector)
    ensures
        (b as u32) << 8 == b as u32 * 256,
{
}

proof fn lemma_word(hi: u8, lo: u8)
    by (bit_vector)
    ensures
        ((hi as u32) << 8) | (lo as u32) == hi as u32 * 256 + lo as u32,
{
}

/// One folding step keeps what the sum folds to, and makes the sum smaller.
proof fn lemma_fold_step(x: u32)
    requires
        x >= 0x1_0000,
    ensures
        x % 0x1_0000 + x / 0x1_0000 < x,
        fold16((x % 0x1_0000 + x / 0x1_0000) as nat) == fold16(x as nat),
{
    let q = x as int / 0x1_0000;
    let r = x as int % 0x1_0000;
    let y = q + r;
    assert(x == 0x1_0000 * q + r);
    assert(x - 1 == (y - 1) + 0xFFFF * q);
    vstd::arithmetic::div_mod::lemma_mod_multiples_vanish(q, y - 1, 0xFFFF);
}

/// No word is more than `0xFFFF`.
pub proof fn lemma_sum_words_bound(bytes: Seq<u8>, n: nat)
    requires
        n <= word_count(bytes),
    ensures
        sum_words(bytes, n) <= 0xFFFF * n,
    decreases n,
{
    if n > 0 {
        lemma_sum_words_bound(bytes, (n - 1) as nat);
    }
}

/// Writing a word at an even offset changes the sum of the words by the
/// difference between the new word and the old one.
pub proof fn lemma_sum_words_with_u16(bytes: Seq<u8>, at: int, v: u16, n: nat)
    requires
        0 <= at,
        at % 2 == 0,
        at + 2 <= bytes.len(),
        n <= word_count(bytes),
    ensures
        sum_words(with_u16(bytes, at, v), n) == sum_words(bytes, n) + (if at / 2 < n {
            v - word_at(bytes, at / 2)
        } else {
            0
        }),
    decreases n,
{
    if n > 0 {
        lemma_sum_words_with_u16(bytes, at, v, (n - 1) as nat);
        let changed = with_u16(bytes, at, v);
        if n - 1 == at / 2 {
            assert(word_at(changed, n - 1) == v);
        } else {
            assert(word_at(changed, n - 1) == word_at(bytes, n - 1));
        }
    }
}

/// The sum of the words is at least the first byte times 256.
pub proof fn lemma_sum_words_first(bytes: Seq<u8>, n: nat)
    requires
        1 <= n <= word_count(bytes),
    ensures
        sum_words(bytes, n) >= bytes[0] as nat * 256,
    decreases n,
{
    if n > 1 {
        lemma_sum_words_first(bytes, (n - 1) as nat);
    }
}

proof fn lemma_sum_words_padded(bytes: Seq<u8>, n: nat)
    requires
        bytes.len() % 2 == 1,
        n <= word_count(bytes),
    ensures
        sum_words(bytes.push(0), n) == sum_words(bytes, n),
    decreases n,
{
    if n > 0 {
        lemma_sum_words_padded(bytes, (n - 1) as nat);
        assert(word_at(bytes.push(0), n - 1) == word_at(bytes, n - 1));
    }
}

/// The folded sum of the words and the checksum of the same bytes add up to
/// `0xFFFF`: each is the one's complement of the other.
pub proof fn lemma_checksum_complements_sum(bytes: Seq<u8>)
    ensures
        fold16(accumulated(bytes)) + internet_checksum(bytes) == 0xFFFF,
{
}

/// A checksum that is written into the field it was computed for makes the
/// whole verify: where the two bytes at the even offset `at` are zero, and
/// `bytes` is short enough for the accumulator not to wrap, the bytes with
/// their own checksum stored at `at` fold to `0xFFFF`, so their checksum is zero.
pub proof fn lemma_stored_checksum_verifies(bytes: Seq<u8>, at: int)
    requires
        0 <= at,
        at % 2 == 0,
        at + 2 <= bytes.len(),
        bytes.len() <= 0x2_0000,
        u16_at(bytes, at) == 0,
    ensures
        fold16(accumulated(with_u16(bytes, at, internet_checksum(bytes)))) == 0xFFFF,
        internet_checksum(with_u16(bytes, at, internet_checksum(bytes))) == 0,
{
    let c = internet_checksum(bytes);
    let stored = with_u16(bytes, at, c);
    let n = word_count(bytes);
    let total = sum_words(bytes, n);
    assert(word_count(stored) == n);
    assert(word_at(bytes, at / 2) == 0);
    lemma_sum_words_with_u16(bytes, at, c, n);
    lemma_sum_words_with_u16(bytes, at, 0xFFFF, n);
    lemma_sum_words_bound(with_u16(bytes, at, 0xFFFF), n);
    assert(total + 0xFFFF <= 0xFFFF * 0x1_0000);
    assert(sum_words(stored, n) == total + c);
    if total > 0 {
        let q = (total - 1) / 0xFFFF;
        assert(total - 1 == 0xFFFF * q + (total - 1) % 0xFFFF);
        assert(total + c - 1 == 0xFFFE + 0xFFFF * q);
        vstd::arithmetic::div_mod::lemma_mod_multiples_vanish(q, 0xFFFE, 0xFFFF);
    }
}

/// A trailing single byte is summed as the high byte of a word whose low byte
/// is zero: appending that zero byte changes nothing.
pub proof fn lemma_odd_length_pads_zero(bytes: Seq<u8>)
    requires
        bytes.len() % 2 == 1,
    ensures
        internet_checksum(bytes) == internet_checksum(bytes.push(0)),
{
    lemma_sum_words_padded(bytes, word_count(bytes));
}

/// Computes the Internet checksum of `header`.
///
/// Successive byte pairs are big-endian 16-bit words, summed in a 32-bit
/// accumulator that wraps around; the carries are folded back into the low 16
/// bits, and the result is the complement of those.
pub fn calculate_checksum(header: &[u8]) -> (checksum: u16)
    ensures
        checksum == internet_checksum(header@),
{
    let pairs: usize = header.len() / 2;
    let mut sum: u32 = 0;
    let mut w: usize = 0;
    while w < pairs
        invariant
            pairs == header@.len() / 2,
            2 * pairs <= header@.len() <= usize::MAX,
            w <= pairs,
            sum == sum_words(header@, w as nat) % 0x1_0000_0000,
        decreases pairs - w,
    {
        let hi = header[2 * w];
        let lo = header[2 * w + 1];
        proof {
            lemma_word(hi, lo);
        }
        let word: u32 = ((hi as u32) << 8) | (lo as u32);
        sum = sum.wrapping_add(word);
        w = w + 1;
    }
    if header.len() % 2 == 1 {
        let hi = header[header.len() - 1];
        proof {
            lemma_high_byte(hi);
        }
        sum = sum.wrapping_add((hi as u32) << 8);
    }
    assert(sum == accumulated(header@));
    let ghost start = sum;
    while sum >> 16 != 0
        invariant
            fold16(sum as nat) == fold16(start as nat),
        decreases sum,
    {
        proof {
            lemma_halves(sum);
            lemma_fold_step(sum);
        }
        sum = (sum & 0xFFFF) + (sum >> 16);
    }
    proof {
        lemma_halves(sum);
        lemma_complement(sum as u16);
    }
    !(sum as u16)
}

} // verus!
