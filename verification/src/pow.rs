use vstd::prelude::*;
use vstd::arithmetic::power2::{pow2, lemma2_to64, lemma_pow2_strictly_increases};

verus! {

/// Number of leading zero bits a block hash needs before it is accepted.
pub const DIFFICULTY: usize = 20;

/// The top `n` bits (1 <= n <= 8) of byte `b` are all zero.
pub open spec fn top_bits_zero(b: u8, n: nat) -> bool {
    (b as nat) < pow2((8 - n) as nat)
}

/// `hash` starts with `difficulty` zero bits: it has at least that many bits, every
/// whole leading byte is zero, and, when `difficulty` is not a multiple of eight, the
/// byte holding the remaining bits has those top bits clear.
pub open spec fn has_leading_zeroes(hash: Seq<u8>, difficulty: nat) -> bool {
    let full = difficulty / 8;
    let rem = difficulty % 8;
    &&& hash.len() * 8 >= difficulty
    &&& forall|i: int| 0 <= i < full ==> hash[i] == 0
    &&& rem > 0 ==> top_bits_zero(hash[full as int], rem)
}

proof fn lemma_shift_zero_iff_small(b: u8, s: u8)
    requires
        1 <= s <= 7,
    ensures
        (b >> s == 0) <==> (b as nat) < pow2(s as nat),
{
    lemma2_to64();
    assert((b >> s == 0) <==> b < (1u8 << s)) by (bit_vector)
        requires 1 <= s <= 7;
    assert(s == 1 ==> (1u8 << s) == 2) by (bit_vector);
    assert(s == 2 ==> (1u8 << s) == 4) by (bit_vector);
    assert(s == 3 ==> (1u8 << s) == 8) by (bit_vector);
    assert(s == 4 ==> (1u8 << s) == 16) by (bit_vector);
    assert(s == 5 ==> (1u8 << s) == 32) by (bit_vector);
    assert(s == 6 ==> (1u8 << s) == 64) by (bit_vector);
    assert(s == 7 ==> (1u8 << s) == 128) by (bit_vector);
}

/// Checks that `hash` begins with `difficulty` zero bits (see `has_leading_zeroes`).
pub fn check_leading_zeroes(hash: &[u8], difficulty: usize) -> (ok: bool)
    ensures
        ok == has_leading_zeroes(hash@, difficulty as nat),
{
    let full_bytes = difficulty / 8;
    let remaining_bits = difficulty % 8;
    if full_bytes > hash.len() || (remaining_bits > 0 && full_bytes >= hash.len()) {
        return false;
    }
    let mut i: usize = 0;
    while i < full_bytes && i < hash.len()
        invariant
            i <= full_bytes,
            i <= hash.len(),
            full_bytes == difficulty / 8,
            forall|j: int| 0 <= j < i ==> hash@[j] == 0,
        decreases full_bytes - i,
    {
        if hash[i] != 0 {
            return false;
        }
        i = i + 1;
    }
    if remaining_bits > 0 {
        let next_byte = hash[full_bytes];
        let shift: u8 = (8 - remaining_bits) as u8;
        proof {
            lemma_shift_zero_iff_small(next_byte, shift);
        }
        if next_byte >> shift != 0 {
            return false;
        }
    }
    true
}

/// A hash that meets a difficulty also meets every lower difficulty.
pub proof fn lemma_leading_zeroes_monotone(hash: Seq<u8>, d1: nat, d2: nat)
    requires
        d2 <= d1,
        has_leading_zeroes(hash, d1),
    ensures
        has_leading_zeroes(hash, d2),
{
    let f1 = d1 / 8;
    let f2 = d2 / 8;
    let r1 = d1 % 8;
    let r2 = d2 % 8;
    lemma2_to64();
    if r2 > 0 {
        assert(f2 <= f1);
        if f2 < f1 {
            assert(hash[f2 as int] == 0);
            assert(f2 < hash.len());
        } else {
            assert(r2 <= r1);
            assert(r1 > 0);
            if r2 < r1 {
                lemma_pow2_strictly_increases((8 - r1) as nat, (8 - r2) as nat);
            }
        }
    }
}

} // verus!
