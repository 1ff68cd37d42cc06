//! The byte layout that blocks and chains are hashed and exchanged in: fixed-width
//! little-endian integers, `u64` length prefixes, a one-byte tag for `Option` and a
//! `u32` variant index for enums (the bincode-compatible default layout that `wincode`
//! writes), with the facts about it that the proofs need.
use vstd::prelude::*;
use vstd::arithmetic::div_mod::{lemma_div_denominator, lemma_fundamental_div_mod, lemma_multiply_divide_lt};

verus! {

/// Largest byte size a sequence may take before serialisation refuses it
/// (`wincode`'s default preallocation limit of 4 MiB).
pub const PREALLOCATION_LIMIT: usize = 4194304;

pub open spec fn pow256(n: nat) -> nat
    decreases n,
{
    if n == 0 { 1 } else { 256 * pow256((n - 1) as nat) }
}

/// The `n` low bytes of `x`, least significant first.
pub open spec fn le_bytes(x: nat, n: nat) -> Seq<u8> {
    Seq::new(n, |i: int| ((x / pow256(i as nat)) % 256) as u8)
}

/// The `n` low bytes of `x`, most significant first.
pub open spec fn be_bytes(x: nat, n: nat) -> Seq<u8> {
    Seq::new(n, |i: int| le_bytes(x, n)[n - 1 - i])
}

pub open spec fn enc_u32(x: u32) -> Seq<u8> {
    le_bytes(x as nat, 4)
}

pub open spec fn enc_u64(x: nat) -> Seq<u8> {
    le_bytes(x, 8)
}

pub open spec fn enc_u128(x: u128) -> Seq<u8> {
    le_bytes(x as nat, 16)
}

/// A byte vector: its length as `u64`, then the bytes.
pub open spec fn enc_bytes(b: Seq<u8>) -> Seq<u8> {
    enc_u64(b.len()) + b
}

/// A string: the length of its UTF-8 form as `u64`, then that UTF-8 form.
pub open spec fn enc_string(s: Seq<char>) -> Seq<u8> {
    enc_bytes(vstd::utf8::encode_utf8(s))
}

/// An optional `u128`: tag byte 0 for `None`, tag byte 1 and the value for `Some`.
pub open spec fn enc_opt_u128(o: Option<u128>) -> Seq<u8> {
    match o {
        None => seq![0u8],
        Some(x) => seq![1u8] + enc_u128(x),
    }
}

/// A byte sequence of this length is within the serialisation limit.
pub open spec fn len_fits(len: nat) -> bool {
    len <= PREALLOCATION_LIMIT
}

proof fn lemma_pow256_pos(n: nat)
    ensures
        pow256(n) > 0,
    decreases n,
{
    if n > 0 {
        lemma_pow256_pos((n - 1) as nat);
    }
}

/// The number that little-endian bytes stand for.
pub open spec fn le_value(s: Seq<u8>) -> nat
    decreases s.len(),
{
    if s.len() == 0 {
        0
    } else {
        s[0] as nat + 256 * le_value(s.drop_first())
    }
}

/// Reading back the `n` low bytes of a number below `256^n` gives the number.
pub proof fn lemma_le_bytes_value(x: nat, n: nat)
    requires
        x < pow256(n),
    ensures
        le_value(le_bytes(x, n)) == x,
    decreases n,
{
    if n > 0 {
        let s = le_bytes(x, n);
        let q = x / 256;
        assert forall|i: int| 0 <= i < n - 1 implies #[trigger] s.drop_first()[i] == le_bytes(
            q,
            (n - 1) as nat,
        )[i] by {
            lemma_pow256_pos(i as nat);
            lemma_div_denominator(x as int, 256, pow256(i as nat) as int);
            assert(pow256((i + 1) as nat) == 256 * pow256(i as nat));
        }
        assert(s.drop_first() =~= le_bytes(q, (n - 1) as nat));
        assert(pow256(n) == 256 * pow256((n - 1) as nat));
        lemma_multiply_divide_lt(x as int, 256, pow256((n - 1) as nat) as int);
        lemma_le_bytes_value(q, (n - 1) as nat);
        assert(pow256(0) == 1);
        assert(x / 1 == x) by (nonlinear_arith);
        assert(s[0] == ((x / pow256(0)) % 256) as u8);
        assert(s[0] == (x % 256) as u8);
        lemma_fundamental_div_mod(x as int, 256);
    }
}

/// Numbers below `256^n` with the same `n` low bytes are equal.
pub proof fn lemma_le_bytes_injective(x: nat, y: nat, n: nat)
    requires
        x < pow256(n),
        y < pow256(n),
        le_bytes(x, n) == le_bytes(y, n),
    ensures
        x == y,
{
    lemma_le_bytes_value(x, n);
    lemma_le_bytes_value(y, n);
}

/// The widths of the fixed-size integers.
pub proof fn lemma_pow256_widths()
    ensures
        pow256(4) == 0x1_0000_0000,
        pow256(8) == 0x1_0000_0000_0000_0000,
        pow256(16) == 0x1_0000_0000_0000_0000_0000_0000_0000_0000,
{
    reveal_with_fuel(pow256, 17);
}

/// Appends the `n` low bytes of `x`, least significant first.
pub fn push_le(out: &mut Vec<u8>, x: u128, n: usize)
    ensures
        final(out)@ == old(out)@ + le_bytes(x as nat, n as nat),
{
    let ghost start = out@;
    let mut v: u128 = x;
    let mut i: usize = 0;
    assert(pow256(0) == 1);
    assert(le_bytes(x as nat, 0) =~= Seq::<u8>::empty());
    while i < n
        invariant
            i <= n,
            v as nat == (x as nat) / pow256(i as nat),
            out@ == start + le_bytes(x as nat, i as nat),
        decreases n - i,
    {
        let b: u8 = (v % 256) as u8;
        proof {
            lemma_pow256_pos(i as nat);
            lemma_div_denominator(x as int, pow256(i as nat) as int, 256);
            assert(pow256((i + 1) as nat) == pow256(i as nat) * 256);
            assert(le_bytes(x as nat, (i + 1) as nat) =~= le_bytes(x as nat, i as nat).push(b));
        }
        out.push(b);
        v = v / 256;
        i = i + 1;
    }
}

/// Appends the `n` low bytes of `x`, most significant first.
pub fn push_be(out: &mut Vec<u8>, x: u128, n: usize)
    ensures
        final(out)@ == old(out)@ + be_bytes(x as nat, n as nat),
{
    let mut tmp: Vec<u8> = Vec::new();
    push_le(&mut tmp, x, n);
    assert(tmp@ =~= le_bytes(x as nat, n as nat));
    let ghost start = out@;
    let mut j: usize = n;
    while j > 0
        invariant
            j <= n,
            tmp@ == le_bytes(x as nat, n as nat),
            out@ == start + be_bytes(x as nat, n as nat).take((n - j) as int),
        decreases j,
    {
        let b = tmp[j - 1];
        proof {
            assert(be_bytes(x as nat, n as nat).take((n - j + 1) as int) =~= be_bytes(
                x as nat,
                n as nat,
            ).take((n - j) as int).push(b));
        }
        out.push(b);
        j = j - 1;
    }
    assert(be_bytes(x as nat, n as nat).take(n as int) =~= be_bytes(x as nat, n as nat));
}

/// Appends the bytes of `b` as they are.
pub fn push_raw(out: &mut Vec<u8>, b: &[u8])
    ensures
        final(out)@ == old(out)@ + b@,
{
    out.extend_from_slice(b);
    assert(out@ =~= old(out)@ + b@);
}

} // verus!
