//! Vote blocks, their serialised form and their proof of work.
use vstd::prelude::*;
use vstd::string::*;
use rayon::iter::{IntoParallelIterator, ParallelIterator};

use crate::encoding::{
    be_bytes, enc_bytes, enc_opt_u128, enc_string, enc_u128, enc_u32, enc_u64, lemma_le_bytes_injective,
    lemma_pow256_widths, len_fits, push_be, push_raw, PREALLOCATION_LIMIT,
};
use crate::external::{is_uuid, sha256, spec_is_uuid, spec_sha256, unix_millis};
use crate::pow::{check_leading_zeroes, has_leading_zeroes, DIFFICULTY};
use vstd::arithmetic::power2::lemma2_to64;


verus! {

/// The candidates a vote can go to.
#[derive(Clone, Copy, PartialEq, Eq, Structural, Debug, Hash)]
pub enum Candidate {
    A,
    B,
    C,
    D,
    E,
    F,
}

impl Candidate {
    /// Position of the variant in declaration order.
    pub open spec fn index(self) -> u32 {
        match self {
            Candidate::A => 0,
            Candidate::B => 1,
            Candidate::C => 2,
            Candidate::D => 3,
            Candidate::E => 4,
            Candidate::F => 5,
        }
    }

    /// The one-letter name of the candidate.
    pub open spec fn spec_name(self) -> Seq<char> {
        match self {
            Candidate::A => seq!['A'],
            Candidate::B => seq!['B'],
            Candidate::C => seq!['C'],
            Candidate::D => seq!['D'],
            Candidate::E => seq!['E'],
            Candidate::F => seq!['F'],
        }
    }

    /// The candidate whose name is `s`, if any.
    pub open spec fn spec_from_name(s: Seq<char>) -> Option<Candidate> {
        if s == seq!['A'] {
            Some(Candidate::A)
        } else if s == seq!['B'] {
            Some(Candidate::B)
        } else if s == seq!['C'] {
            Some(Candidate::C)
        } else if s == seq!['D'] {
            Some(Candidate::D)
        } else if s == seq!['E'] {
            Some(Candidate::E)
        } else if s == seq!['F'] {
            Some(Candidate::F)
        } else {
            None
        }
    }

    /// The candidate at position `i` in declaration order, if any.
    pub open spec fn spec_from_index(i: nat) -> Option<Candidate> {
        if i == 0 {
            Some(Candidate::A)
        } else if i == 1 {
            Some(Candidate::B)
        } else if i == 2 {
            Some(Candidate::C)
        } else if i == 3 {
            Some(Candidate::D)
        } else if i == 4 {
            Some(Candidate::E)
        } else if i == 5 {
            Some(Candidate::F)
        } else {
            None
        }
    }

    /// The variant index written for the candidate in the serialised form.
    pub fn tag(self) -> (t: u32)
        ensures
            t == self.index(),
    {
        match self {
            Candidate::A => 0,
            Candidate::B => 1,
            Candidate::C => 2,
            Candidate::D => 3,
            Candidate::E => 4,
            Candidate::F => 5,
        }
    }

    /// The candidate's name as a string ("A" to "F").
    pub fn name(self) -> (s: String)
        ensures
            s@ == self.spec_name(),
    {
        let lit = match self {
            Candidate::A => "A",
            Candidate::B => "B",
            Candidate::C => "C",
            Candidate::D => "D",
            Candidate::E => "E",
            Candidate::F => "F",
        };
        proof {
            reveal_strlit("A");
            reveal_strlit("B");
            reveal_strlit("C");
            reveal_strlit("D");
            reveal_strlit("E");
            reveal_strlit("F");
        }
        String::from_str(lit)
    }

    /// Parses a candidate from its name; `None` for anything but "A" to "F".
    pub fn from_name(s: &str) -> (c: Option<Candidate>)
        ensures
            c == Candidate::spec_from_name(s@),
    {
        if s.unicode_len() != 1 {
            proof {
                assert(s@ != seq!['A'] && s@ != seq!['B'] && s@ != seq!['C']);
                assert(s@ != seq!['D'] && s@ != seq!['E'] && s@ != seq!['F']);
            }
            return None;
        }
        let ch = s.get_char(0);
        proof {
            assert(s@ == seq![ch]);
        }
        if ch == 'A' {
            Some(Candidate::A)
        } else if ch == 'B' {
            Some(Candidate::B)
        } else if ch == 'C' {
            Some(Candidate::C)
        } else if ch == 'D' {
            Some(Candidate::D)
        } else if ch == 'E' {
            Some(Candidate::E)
        } else if ch == 'F' {
            Some(Candidate::F)
        } else {
            proof {
                assert(seq![ch] != seq!['A'] && seq![ch] != seq!['B'] && seq![ch] != seq!['C']) by {
                    assert(seq![ch][0] == ch);
                }
                assert(seq![ch] != seq!['D'] && seq![ch] != seq!['E'] && seq![ch] != seq!['F']) by {
                    assert(seq![ch][0] == ch);
                }
            }
            None
        }
    }

    /// The candidate at position `i` in declaration order; `None` past the last one.
    pub fn from_index(i: usize) -> (c: Option<Candidate>)
        ensures
            c == Candidate::spec_from_index(i as nat),
    {
        match i {
            0 => Some(Candidate::A),
            1 => Some(Candidate::B),
            2 => Some(Candidate::C),
            3 => Some(Candidate::D),
            4 => Some(Candidate::E),
            5 => Some(Candidate::F),
            _ => None,
        }
    }
}

proof fn lemma_single_char_seq_eq(a: char, b: char)
    ensures
        (seq![a] == seq![b]) == (a == b),
{
    assert(seq![a][0] == a);
    assert(seq![b][0] == b);
}

/// Parsing a candidate's name gives the candidate back.
pub proof fn lemma_candidate_name_roundtrip(c: Candidate)
    ensures
        Candidate::spec_from_name(c.spec_name()) == Some(c),
{
    let n = c.spec_name();
    assert(n.len() == 1 && n == seq![n[0]]);
    lemma_single_char_seq_eq(n[0], 'A');
    lemma_single_char_seq_eq(n[0], 'B');
    lemma_single_char_seq_eq(n[0], 'C');
    lemma_single_char_seq_eq(n[0], 'D');
    lemma_single_char_seq_eq(n[0], 'E');
    lemma_single_char_seq_eq(n[0], 'F');
}

/// A mined vote: its position in the chain, the candidate voted for, the hash of the
/// block before it, the proof-of-work nonce, its own hash, the voter and the time
/// (milliseconds since the UNIX epoch) at which mining started.
#[derive(Debug)]
pub struct Block {
    pub idx: usize,
    pub data: Candidate,
    pub prev_hash: Vec<u8>,
    pub nonce: Option<u128>,
    pub hash: Vec<u8>,
    pub voter_id: String,
    pub timestamp: u128,
}

pub struct BlockView {
    pub idx: usize,
    pub data: Candidate,
    pub prev_hash: Seq<u8>,
    pub nonce: Option<u128>,
    pub hash: Seq<u8>,
    pub voter_id: Seq<char>,
    pub timestamp: u128,
}

impl View for Block {
    type V = BlockView;

    open spec fn view(&self) -> BlockView {
        BlockView {
            idx: self.idx,
            data: self.data,
            prev_hash: self.prev_hash@,
            nonce: self.nonce,
            hash: self.hash@,
            voter_id: self.voter_id@,
            timestamp: self.timestamp,
        }
    }
}

impl Clone for Block {
    fn clone(&self) -> (b: Self)
        ensures
            b@ == self@,
    {
        Block {
            idx: self.idx,
            data: self.data,
            prev_hash: copy_bytes(&self.prev_hash),
            nonce: self.nonce,
            hash: copy_bytes(&self.hash),
            voter_id: self.voter_id.clone(),
            timestamp: self.timestamp,
        }
    }
}

/// A fresh vector holding the same bytes.
pub fn copy_bytes(b: &[u8]) -> (v: Vec<u8>)
    ensures
        v@ == b@,
{
    let mut v: Vec<u8> = Vec::new();
    push_raw(&mut v, b);
    assert(v@ =~= b@);
    v
}

/// Whether two byte sequences are equal.
pub fn bytes_equal(a: &[u8], b: &[u8]) -> (eq: bool)
    ensures
        eq == (a@ == b@),
{
    if a.len() != b.len() {
        return false;
    }
    let mut i: usize = 0;
    while i < a.len()
        invariant
            i <= a.len(),
            a@.len() == b@.len(),
            forall|j: int| 0 <= j < i ==> a@[j] == b@[j],
        decreases a.len() - i,
    {
        if a[i] != b[i] {
            return false;
        }
        i = i + 1;
    }
    assert(a@ =~= b@);
    true
}

impl BlockView {
    /// Every byte sequence and string of the block is within the serialisation limit.
    pub open spec fn fits(self) -> bool {
        &&& len_fits(self.prev_hash.len())
        &&& len_fits(self.hash.len())
        &&& len_fits(vstd::utf8::encode_utf8(self.voter_id).len())
    }

    /// The serialised form of the block: its fields in declaration order.
    pub open spec fn bytes(self) -> Seq<u8> {
        enc_u64(self.idx as nat) + enc_u32(self.data.index()) + enc_bytes(self.prev_hash)
            + enc_opt_u128(self.nonce) + enc_bytes(self.hash) + enc_string(self.voter_id)
            + enc_u128(self.timestamp)
    }

    /// The block with no nonce and an empty hash, as it is before mining.
    pub open spec fn unsealed(self) -> BlockView {
        BlockView { nonce: None, hash: Seq::empty(), ..self }
    }

    /// The bytes that the proof of work hashes (before the nonce).
    pub open spec fn preimage(self) -> Seq<u8> {
        self.unsealed().bytes()
    }

    pub open spec fn preimage_fits(self) -> bool {
        self.unsealed().fits()
    }

    /// The nonce and hash are a proof of work over the rest of the block.
    pub open spec fn is_mined(self) -> bool {
        &&& self.nonce is Some
        &&& self.nonce->0 < u128::MAX
        &&& nonce_meets(self.preimage(), self.nonce->0)
        &&& self.hash == spec_sha256(self.preimage() + be_bytes(self.nonce->0 as nat, 16))
    }

    /// What `Block::validate` accepts.
    pub open spec fn is_valid(self) -> bool {
        &&& self.nonce is Some
        &&& self.hash.len() > 0
        &&& spec_is_uuid(self.voter_id)
        &&& has_leading_zeroes(self.hash, DIFFICULTY as nat)
        &&& self.preimage_fits()
        &&& spec_sha256(self.preimage() + be_bytes(self.nonce->0 as nat, 16)) == self.hash
    }
}

/// Hashing `preimage` followed by the nonce (big-endian) gives enough leading zero bits.
pub open spec fn nonce_meets(preimage: Seq<u8>, nonce: u128) -> bool {
    has_leading_zeroes(spec_sha256(preimage + be_bytes(nonce as nat, 16)), DIFFICULTY as nat)
}

/// No nonce below `u128::MAX` is a proof of work for `preimage`.
pub open spec fn no_nonce_exists(preimage: Seq<u8>) -> bool {
    forall|n: u128| n < u128::MAX ==> !nonce_meets(preimage, n)
}

/// Checks one candidate nonce for a block's preimage.
pub fn nonce_meets_difficulty(preimage: &[u8], nonce: u128) -> (ok: bool)
    ensures
        ok == nonce_meets(preimage@, nonce),
{
    let cap: usize = if preimage.len() <= usize::MAX - 16 {
        preimage.len() + 16
    } else {
        preimage.len()
    };
    let mut input: Vec<u8> = Vec::with_capacity(cap);
    push_raw(&mut input, preimage);
    push_be(&mut input, nonce, 16);
    assert(input@ =~= preimage@ + be_bytes(nonce as nat, 16));
    let h = sha256(input.as_slice());
    check_leading_zeroes(h.as_slice(), DIFFICULTY)
}

/// `rayon`'s `find_any` over the nonces `0..u128::MAX`, in parallel, with
/// `nonce_meets_difficulty` as the predicate. The contract claims what `find_any`
/// documents: a returned nonce satisfies the predicate, and `None` comes back only
/// when no nonce in the range does. Which of several good nonces comes back is left
/// open.
#[verifier::external_body]
fn search_nonce(preimage: &[u8]) -> (found: Option<u128>)
    ensures
        found matches Some(n) ==> n < u128::MAX && nonce_meets(preimage@, n),
        found is None ==> no_nonce_exists(preimage@),
{
    (0u128..u128::MAX).into_par_iter().find_any(|v| nonce_meets_difficulty(preimage, *v))
}

/// The block with the given fields.
pub open spec fn fields_view(
    idx: usize,
    data: Candidate,
    prev_hash: Seq<u8>,
    nonce: Option<u128>,
    hash: Seq<u8>,
    voter_id: Seq<char>,
    timestamp: u128,
) -> BlockView {
    BlockView { idx, data, prev_hash, nonce, hash, voter_id, timestamp }
}

/// `wincode::serialize` of a block's fields in declaration order, as a tuple with the
/// candidate as its `u32` variant index. wincode documents that it writes the bytes of
/// `bincode`'s default layout (little-endian fixed-width integers, `u64` lengths, a
/// one-byte `Option` tag, `u32` variant indices), which is `BlockView::bytes`, and it
/// refuses a byte sequence or string over its preallocation limit, which is what
/// `BlockView::fits` checks; `None` comes back for such a refusal.
#[verifier::external_body]
fn wincode_block(
    idx: usize,
    data: Candidate,
    prev_hash: &[u8],
    nonce: Option<u128>,
    hash: &[u8],
    voter_id: &str,
    timestamp: u128,
) -> (bytes: Option<Vec<u8>>)
    ensures
        bytes is Some <==> fields_view(idx, data, prev_hash@, nonce, hash@, voter_id@, timestamp).fits(),
        bytes matches Some(b) ==> b@ == fields_view(idx, data, prev_hash@, nonce, hash@, voter_id@, timestamp).bytes(),
{
    let fields = (idx, data as u32, prev_hash.to_vec(), nonce, hash.to_vec(), voter_id.to_string(), timestamp);
    wincode::serialize(&fields).ok()
}

impl Block {
    /// The serialised form of the block; `None` when a byte sequence or the voter id
    /// is over the serialisation limit.
    pub fn encode(&self) -> (bytes: Option<Vec<u8>>)
        ensures
            bytes is Some <==> self@.fits(),
            bytes matches Some(b) ==> b@ == self@.bytes(),
    {
        wincode_block(
            self.idx,
            self.data,
            self.prev_hash.as_slice(),
            self.nonce,
            self.hash.as_slice(),
            self.voter_id.as_str(),
            self.timestamp,
        )
    }

    /// Whether every byte sequence and the voter id are within the serialisation limit.
    pub fn fits(&self) -> (ok: bool)
        ensures
            ok == self@.fits(),
    {
        self.prev_hash.len() <= PREALLOCATION_LIMIT && self.hash.len() <= PREALLOCATION_LIMIT
            && self.voter_id.as_str().as_bytes().len() <= PREALLOCATION_LIMIT
    }

    /// Whether the block without nonce and hash is within the serialisation limit.
    pub fn preimage_fits(&self) -> (ok: bool)
        ensures
            ok == self@.preimage_fits(),
    {
        self.prev_hash.len() <= PREALLOCATION_LIMIT && self.voter_id.as_str().as_bytes().len()
            <= PREALLOCATION_LIMIT
    }

    /// The bytes that the proof of work hashes: the serialised form of the block
    /// without nonce and hash.
    pub fn preimage(&self) -> (bytes: Vec<u8>)
        requires
            self@.preimage_fits(),
        ensures
            bytes@ == self@.preimage(),
    {
        let empty: Vec<u8> = Vec::new();
        let encoded = wincode_block(
            self.idx,
            self.data,
            self.prev_hash.as_slice(),
            None,
            empty.as_slice(),
            self.voter_id.as_str(),
            self.timestamp,
        );
        assert(empty@ =~= Seq::<u8>::empty());
        assert(self@.unsealed() == fields_view(
            self.idx,
            self.data,
            self.prev_hash@,
            None,
            empty@,
            self.voter_id@,
            self.timestamp,
        ));
        encoded.unwrap()
    }

    /// Checks a block received from elsewhere: it has a nonce and a non-empty hash,
    /// its voter id is a UUID, the hash has `DIFFICULTY` leading zero bits, and the
    /// hash is the SHA-256 of the block without nonce and hash followed by the nonce.
    pub fn validate(block: &Self) -> (ok: bool)
        ensures
            ok == block@.is_valid(),
            ok ==> block@.hash.len() >= 3 && block@.hash[0] == 0 && block@.hash[1] == 0 && block@.hash[2] < 16,
    {
        proof {
            if block@.is_valid() {
                lemma_valid_block_has_work(block@);
            }
        }
        if block.nonce.is_none() {
            return false;
        }
        if block.hash.len() == 0 {
            return false;
        }
        if !is_uuid(block.voter_id.as_str()) {
            return false;
        }
        if !check_leading_zeroes(block.hash.as_slice(), DIFFICULTY) {
            return false;
        }
        if !block.preimage_fits() {
            return false;
        }
        let mut input = block.preimage();
        let nonce = block.nonce.unwrap();
        push_be(&mut input, nonce, 16);
        let h = sha256(input.as_slice());
        bytes_equal(h.as_slice(), block.hash.as_slice())
    }

    /// Mines the block: clears nonce and hash, then searches the nonces for one whose
    /// hash meets `DIFFICULTY`, and stores it with the resulting hash. Returns whether
    /// a nonce was found; when none exists the block is left without nonce and hash.
    pub fn hash(&mut self) -> (found: bool)
        requires
            old(self)@.preimage_fits(),
        ensures
            final(self)@.unsealed() == old(self)@.unsealed(),
            found ==> final(self)@.is_mined(),
            found ==> final(self)@.hash.len() == 32,
            found ==> (final(self)@.is_valid() <==> spec_is_uuid(final(self)@.voter_id)),
            !found ==> final(self)@ == old(self)@.unsealed(),
            !found ==> no_nonce_exists(old(self)@.preimage()),
    {
        self.hash = Vec::new();
        self.nonce = None;
        assert(self@ == old(self)@.unsealed());
        let pre = self.preimage();
        assert(pre@ == old(self)@.preimage());
        match search_nonce(pre.as_slice()) {
            Some(n) => {
                let mut input = pre;
                push_be(&mut input, n, 16);
                let h = sha256(input.as_slice());
                self.nonce = Some(n);
                self.hash = h;
                proof {
                    assert(self@.unsealed() == old(self)@.unsealed());
                    lemma_mined_block_valid(self@);
                }
                true
            },
            None => false,
        }
    }

    /// A new block on top of the given predecessor hash, mined at the given time.
    /// `None` when no nonce exists for it.
    pub fn with_timestamp(
        idx: usize,
        data: Candidate,
        prev_hash: Vec<u8>,
        voter_id: &str,
        timestamp: u128,
    ) -> (block: Option<Block>)
        requires
            len_fits(prev_hash@.len()),
            len_fits(vstd::utf8::encode_utf8(voter_id@).len()),
        ensures
            block matches Some(b) ==> {
                &&& b@.idx == idx
                &&& b@.data == data
                &&& b@.prev_hash == prev_hash@
                &&& b@.voter_id == voter_id@
                &&& b@.timestamp == timestamp
                &&& b@.is_mined()
                &&& b@.hash.len() == 32
                &&& b@.preimage_fits()
            },
            block is None ==> no_nonce_exists(
                BlockView {
                    idx,
                    data,
                    prev_hash: prev_hash@,
                    nonce: None,
                    hash: Seq::empty(),
                    voter_id: voter_id@,
                    timestamp,
                }.preimage(),
            ),
    {
        let mut block = Block {
            idx,
            data,
            prev_hash,
            nonce: None,
            hash: Vec::new(),
            voter_id: String::from_str(voter_id),
            timestamp,
        };
        if block.hash() {
            Some(block)
        } else {
            None
        }
    }

    /// A new block, stamped with the current time and mined. `None` when the clock
    /// reads before the UNIX epoch or no nonce exists.
    pub fn new(idx: usize, data: Candidate, prev_hash: Vec<u8>, voter_id: &str) -> (block: Option<
        Block,
    >)
        requires
            len_fits(prev_hash@.len()),
            len_fits(vstd::utf8::encode_utf8(voter_id@).len()),
        ensures
            block matches Some(b) ==> {
                &&& b@.idx == idx
                &&& b@.data == data
                &&& b@.prev_hash == prev_hash@
                &&& b@.voter_id == voter_id@
                &&& b@.is_mined()
                &&& b@.hash.len() == 32
                &&& b@.preimage_fits()
            },
    {
        match unix_millis() {
            Some(timestamp) => Block::with_timestamp(idx, data, prev_hash, voter_id, timestamp),
            None => None,
        }
    }
}

/// A block whose nonce and hash come from mining it passes validation exactly when
/// its voter id is a UUID.
pub proof fn lemma_mined_block_valid(b: BlockView)
    requires
        b.is_mined(),
        b.hash.len() == 32,
        b.preimage_fits(),
    ensures
        b.is_valid() <==> spec_is_uuid(b.voter_id),
{
}

/// Two blocks within the serialisation limit with the same preimage agree on every
/// field but nonce and hash: the preimage can be read back.
pub proof fn lemma_preimage_injective(a: BlockView, b: BlockView)
    requires
        a.preimage_fits(),
        b.preimage_fits(),
        a.preimage() == b.preimage(),
    ensures
        a.unsealed() == b.unsealed(),
{
    let p = a.preimage();
    let q = b.preimage();
    let la: int = a.prev_hash.len() as int;
    let lb: int = b.prev_hash.len() as int;
    let ua = vstd::utf8::encode_utf8(a.voter_id);
    let ub = vstd::utf8::encode_utf8(b.voter_id);
    lemma_pow256_widths();
    assert(p.subrange(0, 8) =~= enc_u64(a.idx as nat));
    assert(q.subrange(0, 8) =~= enc_u64(b.idx as nat));
    lemma_le_bytes_injective(a.idx as nat, b.idx as nat, 8);
    assert(p.subrange(8, 12) =~= enc_u32(a.data.index()));
    assert(q.subrange(8, 12) =~= enc_u32(b.data.index()));
    lemma_le_bytes_injective(a.data.index() as nat, b.data.index() as nat, 4);
    assert(a.data == b.data) by {
        match a.data {
            Candidate::A => {},
            Candidate::B => {},
            Candidate::C => {},
            Candidate::D => {},
            Candidate::E => {},
            Candidate::F => {},
        }
    }
    assert(p.subrange(12, 20) =~= enc_u64(la as nat));
    assert(q.subrange(12, 20) =~= enc_u64(lb as nat));
    lemma_le_bytes_injective(la as nat, lb as nat, 8);
    assert(p.subrange(20, 20 + la) =~= a.prev_hash);
    assert(q.subrange(20, 20 + la) =~= b.prev_hash);
    assert(p.subrange(29 + la, 37 + la) =~= enc_u64(ua.len()));
    assert(q.subrange(29 + la, 37 + la) =~= enc_u64(ub.len()));
    lemma_le_bytes_injective(ua.len(), ub.len(), 8);
    assert(p.subrange(37 + la, 37 + la + ua.len() as int) =~= ua);
    assert(q.subrange(37 + la, 37 + la + ua.len() as int) =~= ub);
    assert(vstd::utf8::decode_utf8(ua) == a.voter_id) by {
        vstd::utf8::encode_utf8_decode_utf8(a.voter_id);
    }
    assert(vstd::utf8::decode_utf8(ub) == b.voter_id) by {
        vstd::utf8::encode_utf8_decode_utf8(b.voter_id);
    }
    let t: int = 37 + la + ua.len() as int;
    assert(p.subrange(t, t + 16) =~= enc_u128(a.timestamp));
    assert(q.subrange(t, t + 16) =~= enc_u128(b.timestamp));
    lemma_le_bytes_injective(a.timestamp as nat, b.timestamp as nat, 16);
}

/// A valid block with its index, candidate, predecessor hash, voter or timestamp
/// changed, and its nonce and hash kept, validates again only through a SHA-256
/// collision: the two inputs hashed differ and have the same hash.
pub proof fn lemma_tampering_needs_collision(b: BlockView, t: BlockView)
    requires
        b.is_valid(),
        t.is_valid(),
        t.nonce == b.nonce,
        t.hash == b.hash,
        t.unsealed() != b.unsealed(),
    ensures
        b.preimage() + be_bytes(b.nonce->0 as nat, 16) != t.preimage() + be_bytes(t.nonce->0 as nat, 16),
        spec_sha256(b.preimage() + be_bytes(b.nonce->0 as nat, 16)) == spec_sha256(
            t.preimage() + be_bytes(t.nonce->0 as nat, 16),
        ),
{
    let sfx = be_bytes(b.nonce->0 as nat, 16);
    let x = b.preimage() + sfx;
    let y = t.preimage() + sfx;
    if x == y {
        assert(sfx.len() == 16);
        assert(x.len() == b.preimage().len() + 16);
        assert(y.len() == t.preimage().len() + 16);
        assert(b.preimage().len() == t.preimage().len());
        assert(x.subrange(0, b.preimage().len() as int) =~= b.preimage());
        assert(y.subrange(0, t.preimage().len() as int) =~= t.preimage());
        lemma_preimage_injective(b, t);
    }
}

/// A block that passes validation carries its proof of work: it has a nonce, its hash
/// is the SHA-256 of its preimage followed by the nonce (big-endian), the hash starts
/// with 20 zero bits (two zero bytes, then a byte below 16), and its voter id is a
/// UUID.
pub proof fn lemma_valid_block_has_work(b: BlockView)
    requires
        b.is_valid(),
    ensures
        b.nonce is Some,
        b.hash == spec_sha256(b.preimage() + be_bytes(b.nonce->0 as nat, 16)),
        b.hash.len() >= 3,
        b.hash[0] == 0,
        b.hash[1] == 0,
        b.hash[2] < 16,
        spec_is_uuid(b.voter_id),
{
    lemma2_to64();
    assert(b.hash.len() * 8 >= 20);
}

} // verus!
