//! The chain of vote blocks: whole-chain validation, single-block addition and the
//! chain digest that peers compare.
use vstd::prelude::*;

use crate::block::{Block, BlockView};
use crate::encoding::{enc_u64, len_fits, push_le, PREALLOCATION_LIMIT};
use crate::external::{md5_digest, spec_md5};
use crate::hexstr::{hex_lower, to_hex_lower};
use crate::report::{decimal, push_decimal};
use vstd::string::StringExecFns;

verus! {

/// The views of a sequence of blocks.
pub open spec fn view_blocks(s: Seq<Block>) -> Seq<BlockView> {
    s.map_values(|b: Block| b@)
}

/// Whether some string in `ids` equals `id`.
pub open spec fn ids_contain(ids: Seq<String>, id: Seq<char>) -> bool {
    exists|i: int| 0 <= i < ids.len() && ids[i]@ == id
}

/// Searches `ids` for `id`.
pub fn contains_id(ids: &[String], id: &String) -> (found: bool)
    ensures
        found == ids_contain(ids@, id@),
{
    let mut i: usize = 0;
    while i < ids.len()
        invariant
            i <= ids.len(),
            forall|j: int| 0 <= j < i ==> ids@[j]@ != id@,
        decreases ids.len() - i,
    {
        if ids[i] == *id {
            return true;
        }
        i = i + 1;
    }
    false
}

/// Outcome of offering one block to the local chain.
#[derive(Clone, Copy, PartialEq, Eq, Structural, Debug)]
pub enum ValidateChainRes {
    /// The block is invalid, out of place or from a voter already counted.
    IgnoreBlock,
    /// The block extends the chain.
    AddBlock,
    /// The block was mined against an older tip; mining it again may succeed.
    AttemptedLateAdd,
}

/// Why a chain offered by a peer was not adopted.
#[derive(Clone, Copy, PartialEq, Eq, Structural, Debug)]
pub enum ChainError {
    /// The offered chain has fewer blocks than the local one.
    Shorter { new_len: usize, current_len: usize },
    /// Same height, but the offered chain's last block is not newer.
    NotNewer { len: usize, new_last_timestamp: Option<u128>, current_last_timestamp: Option<u128> },
    /// Block `index` does not point at the hash of block `index - 1`.
    PrevHashMismatch { index: usize },
    /// Block `index` fails `Block::validate`.
    InvalidBlock { index: usize },
    /// Block `index` repeats the voter of an earlier block.
    DuplicateVoter { index: usize },
}

/// An optional timestamp as `{:?}` shows it: `Some(n)` or `None`.
pub open spec fn opt_text(t: Option<u128>) -> Seq<char> {
    match t {
        Some(n) => "Some("@ + decimal(n as nat) + ")"@,
        None => "None"@,
    }
}

/// The text that explains a refusal.
pub open spec fn error_text(e: ChainError) -> Seq<char> {
    match e {
        ChainError::Shorter { new_len, current_len } => "new chain ("@ + decimal(new_len as nat)
            + " blocks) is shorter than current chain ("@ + decimal(current_len as nat) + " blocks)"@,
        ChainError::NotNewer { len, new_last_timestamp, current_last_timestamp } =>
            "new chain has equal height ("@ + decimal(len as nat)
            + " blocks) but is not newer (new timestamp: "@ + opt_text(new_last_timestamp)
            + ", current timestamp: "@ + opt_text(current_last_timestamp) + ")"@,
        ChainError::PrevHashMismatch { index } => "block "@ + decimal(index as nat)
            + " prev_hash does not match hash of block "@ + decimal(
            if index > 0 {
                (index - 1) as nat
            } else {
                0
            },
        ),
        ChainError::InvalidBlock { index } => "block "@ + decimal(index as nat) + " failed validation"@,
        ChainError::DuplicateVoter { index } => "block "@ + decimal(index as nat)
            + " has a duplicate voter_id within the new chain"@,
    }
}

fn push_opt_text(s: &mut String, t: Option<u128>)
    ensures
        final(s)@ == old(s)@ + opt_text(t),
{
    match t {
        Some(n) => {
            s.append("Some(");
            push_decimal(s, n);
            s.append(")");
        },
        None => {
            s.append("None");
        },
    }
}

impl ChainError {
    /// The explanation of the refusal, as a log line shows it.
    pub fn message(&self) -> (m: String)
        ensures
            m@ == error_text(*self),
    {
        let mut s = String::new();
        match *self {
            ChainError::Shorter { new_len, current_len } => {
                s.append("new chain (");
                push_decimal(&mut s, new_len as u128);
                s.append(" blocks) is shorter than current chain (");
                push_decimal(&mut s, current_len as u128);
                s.append(" blocks)");
            },
            ChainError::NotNewer { len, new_last_timestamp, current_last_timestamp } => {
                s.append("new chain has equal height (");
                push_decimal(&mut s, len as u128);
                s.append(" blocks) but is not newer (new timestamp: ");
                push_opt_text(&mut s, new_last_timestamp);
                s.append(", current timestamp: ");
                push_opt_text(&mut s, current_last_timestamp);
                s.append(")");
            },
            ChainError::PrevHashMismatch { index } => {
                s.append("block ");
                push_decimal(&mut s, index as u128);
                s.append(" prev_hash does not match hash of block ");
                let before: usize = if index > 0 {
                    index - 1
                } else {
                    0
                };
                push_decimal(&mut s, before as u128);
            },
            ChainError::InvalidBlock { index } => {
                s.append("block ");
                push_decimal(&mut s, index as u128);
                s.append(" failed validation");
            },
            ChainError::DuplicateVoter { index } => {
                s.append("block ");
                push_decimal(&mut s, index as u128);
                s.append(" has a duplicate voter_id within the new chain");
            },
        }
        proof {
            assert(s@ =~= error_text(*self));
        }
        s
    }
}

/// `Option` order: `None` first, then `Some` by value.
pub open spec fn opt_le(a: Option<u128>, b: Option<u128>) -> bool {
    match (a, b) {
        (None, _) => true,
        (Some(_), None) => false,
        (Some(x), Some(y)) => x <= y,
    }
}

pub open spec fn last_timestamp(s: Seq<BlockView>) -> Option<u128> {
    if s.len() == 0 {
        None
    } else {
        Some(s.last().timestamp)
    }
}

/// Block `i` repeats the voter of some earlier block.
pub open spec fn repeats_voter(s: Seq<BlockView>, i: int) -> bool {
    exists|j: int| 0 <= j < i && s[j].voter_id == s[i].voter_id
}

/// The check made of block `i` (for `0 <= i < s.len()`).
pub open spec fn block_error(s: Seq<BlockView>, i: int) -> Option<ChainError> {
    if i > 0 && s[i].prev_hash != s[i - 1].hash {
        Some(ChainError::PrevHashMismatch { index: i as usize })
    } else if !s[i].is_valid() {
        Some(ChainError::InvalidBlock { index: i as usize })
    } else if repeats_voter(s, i) {
        Some(ChainError::DuplicateVoter { index: i as usize })
    } else {
        None
    }
}

/// The first failing check among blocks `0..k`.
pub open spec fn links_error(s: Seq<BlockView>, k: nat) -> Option<ChainError>
    decreases k,
{
    if k == 0 {
        None
    } else {
        match links_error(s, (k - 1) as nat) {
            Some(e) => Some(e),
            None => block_error(s, k - 1),
        }
    }
}

/// What `Chain::validate` answers for an offered chain `new` against the local `cur`.
pub open spec fn chain_check(new: Seq<BlockView>, cur: Seq<BlockView>) -> Result<(), ChainError> {
    if new.len() < cur.len() {
        Err(ChainError::Shorter { new_len: new.len() as usize, current_len: cur.len() as usize })
    } else if new.len() == cur.len() && opt_le(last_timestamp(new), last_timestamp(cur)) {
        Err(
            ChainError::NotNewer {
                len: new.len() as usize,
                new_last_timestamp: last_timestamp(new),
                current_last_timestamp: last_timestamp(cur),
            },
        )
    } else {
        match links_error(new, new.len()) {
            Some(e) => Err(e),
            None => Ok(()),
        }
    }
}

/// What `Chain::validate_addition` answers for `b` offered on top of `cur`.
pub open spec fn addition_check(seen: Seq<String>, cur: Seq<BlockView>, b: BlockView) -> ValidateChainRes {
    if ids_contain(seen, b.voter_id) {
        ValidateChainRes::IgnoreBlock
    } else if cur.len() == 0 {
        if b.idx == 0 && b.is_valid() {
            ValidateChainRes::AddBlock
        } else {
            ValidateChainRes::IgnoreBlock
        }
    } else if b.idx <= cur.last().idx {
        ValidateChainRes::AttemptedLateAdd
    } else if b.idx == cur.last().idx + 1 {
        if b.prev_hash != cur.last().hash {
            ValidateChainRes::AttemptedLateAdd
        } else if b.is_valid() {
            ValidateChainRes::AddBlock
        } else {
            ValidateChainRes::IgnoreBlock
        }
    } else {
        ValidateChainRes::IgnoreBlock
    }
}

/// The serialised blocks, one after the other.
pub open spec fn blocks_bytes(s: Seq<BlockView>) -> Seq<u8>
    decreases s.len(),
{
    if s.len() == 0 {
        Seq::empty()
    } else {
        blocks_bytes(s.drop_last()) + s.last().bytes()
    }
}

/// The serialised form of a list of blocks: its length as `u64`, then the blocks.
pub open spec fn chain_bytes(s: Seq<BlockView>) -> Seq<u8> {
    enc_u64(s.len()) + blocks_bytes(s)
}

/// A list of blocks is within the serialisation limit: the list's in-memory size and
/// every block's byte sequences and voter id.
pub open spec fn chain_fits(s: Seq<BlockView>) -> bool {
    &&& len_fits(s.len() * vstd::layout::size_of::<Block>())
    &&& forall|i: int| 0 <= i < s.len() ==> #[trigger] s[i].fits()
}

/// The chain digest: the MD5 of the serialised blocks, in lower-case hexadecimal.
pub open spec fn chain_digest(s: Seq<BlockView>) -> Seq<char> {
    hex_lower(spec_md5(chain_bytes(s)))
}

/// Once the checks of blocks `0..k` pass and block `k` fails, every longer prefix
/// reports block `k`'s failure.
proof fn lemma_first_error_stays(s: Seq<BlockView>, k: nat, n: nat)
    requires
        k < n,
        links_error(s, k) is None,
    ensures
        block_error(s, k as int) is Some ==> links_error(s, n) == block_error(s, k as int),
        block_error(s, k as int) is None ==> links_error(s, (k + 1) as nat) is None,
    decreases n - k,
{
    if n > k + 1 {
        lemma_first_error_stays(s, k, (n - 1) as nat);
    }
}

/// Every block passes validation and repeats no voter of an earlier block, and every
/// block after the first points at the hash of the block before it.
pub open spec fn well_linked(s: Seq<BlockView>) -> bool {
    forall|i: int| 0 <= i < s.len() ==> #[trigger] block_error(s, i) is None
}

proof fn lemma_links_error_none(s: Seq<BlockView>, k: nat)
    requires
        well_linked(s),
        k <= s.len(),
    ensures
        links_error(s, k) is None,
    decreases k,
{
    if k > 0 {
        lemma_links_error_none(s, (k - 1) as nat);
        assert(block_error(s, k - 1) is None);
    }
}

proof fn lemma_links_error_none_rev(s: Seq<BlockView>, k: nat)
    requires
        k <= s.len(),
        links_error(s, k) is None,
    ensures
        forall|i: int| 0 <= i < k ==> #[trigger] block_error(s, i) is None,
    decreases k,
{
    if k > 0 {
        lemma_links_error_none_rev(s, (k - 1) as nat);
    }
}

/// A well-linked chain longer than the local one is adopted.
pub proof fn lemma_linked_chain_accepted(new: Seq<BlockView>, cur: Seq<BlockView>)
    requires
        well_linked(new),
        new.len() > cur.len(),
    ensures
        chain_check(new, cur) == Ok::<(), ChainError>(()),
{
    lemma_links_error_none(new, new.len());
}

/// A chain that is adopted is well linked.
pub proof fn lemma_accepted_chain_linked(new: Seq<BlockView>, cur: Seq<BlockView>)
    requires
        chain_check(new, cur) is Ok,
    ensures
        well_linked(new),
{
    lemma_links_error_none_rev(new, new.len());
}

/// A block that `validate_addition` adds is valid, and it is block 0 of an empty
/// chain or the next index on top of the tip, pointing at the tip's hash; its voter
/// is not among the seen ones.
pub proof fn lemma_added_block_links(seen: Seq<String>, cur: Seq<BlockView>, b: BlockView)
    requires
        addition_check(seen, cur, b) == ValidateChainRes::AddBlock,
    ensures
        b.is_valid(),
        !ids_contain(seen, b.voter_id),
        cur.len() == 0 ==> b.idx == 0,
        cur.len() > 0 ==> b.idx == cur.last().idx + 1 && b.prev_hash == cur.last().hash,
{
}

/// Adding a block that `validate_addition` accepts keeps a chain well linked, when
/// the seen voters include those of the chain.
pub proof fn lemma_addition_keeps_linked(seen: Seq<String>, cur: Seq<BlockView>, b: BlockView)
    requires
        well_linked(cur),
        forall|j: int| 0 <= j < cur.len() ==> ids_contain(seen, #[trigger] cur[j].voter_id),
        addition_check(seen, cur, b) == ValidateChainRes::AddBlock,
    ensures
        well_linked(cur.push(b)),
{
    let s = cur.push(b);
    assert forall|i: int| 0 <= i < s.len() implies #[trigger] block_error(s, i) is None by {
        if i < cur.len() {
            assert(block_error(cur, i) is None);
            assert(s[i] == cur[i]);
            if i > 0 {
                assert(s[i - 1] == cur[i - 1]);
            }
            if repeats_voter(s, i) {
                let j = choose|j: int| 0 <= j < i && s[j].voter_id == s[i].voter_id;
                assert(cur[j] == s[j]);
            }
        } else {
            assert(s[i] == b);
            if i > 0 {
                assert(s[i - 1] == cur.last());
            }
            if repeats_voter(s, i) {
                let j = choose|j: int| 0 <= j < i && s[j].voter_id == s[i].voter_id;
                assert(cur[j] == s[j]);
                assert(ids_contain(seen, cur[j].voter_id));
            }
        }
    }
}

/// An offered chain is adopted only when it is longer than the local one, or exactly
/// as long with a last block stamped strictly later; two empty chains never replace
/// each other, and an older or equally old tip at equal height is refused.
pub proof fn lemma_adopted_chain_is_longer_or_newer(new: Seq<BlockView>, cur: Seq<BlockView>)
    ensures
        chain_check(new, cur) is Ok ==> new.len() > cur.len() || (new.len() == cur.len() && new.len() > 0
            && new[new.len() - 1].timestamp > cur[cur.len() - 1].timestamp),
        new.len() == cur.len() && new.len() > 0 && new[new.len() - 1].timestamp <= cur[cur.len()
            - 1].timestamp ==> chain_check(new, cur) is Err,
        new.len() < cur.len() ==> chain_check(new, cur) is Err,
{
}

/// What happens to a block offered on top of the chain, by where it stands: a voter
/// already seen is ignored; on a non-empty chain, a block whose index is not above the
/// tip's lost the race and is retried, a block right above the tip that does not
/// point at the tip's hash is retried too, and a block that skips an index is ignored.
pub proof fn lemma_addition_by_position(seen: Seq<String>, cur: Seq<BlockView>, b: BlockView)
    ensures
        (exists|k: int| 0 <= k < seen.len() && seen[k]@ == b.voter_id) ==> addition_check(seen, cur, b)
            == ValidateChainRes::IgnoreBlock,
        (forall|k: int| 0 <= k < seen.len() ==> seen[k]@ != b.voter_id) && cur.len() > 0 && b.idx
            <= cur[cur.len() - 1].idx ==> addition_check(seen, cur, b) == ValidateChainRes::AttemptedLateAdd,
        (forall|k: int| 0 <= k < seen.len() ==> seen[k]@ != b.voter_id) && cur.len() > 0 && b.idx
            == cur[cur.len() - 1].idx + 1 && b.prev_hash != cur[cur.len() - 1].hash ==> addition_check(
            seen,
            cur,
            b,
        ) == ValidateChainRes::AttemptedLateAdd,
        cur.len() > 0 && b.idx > cur[cur.len() - 1].idx + 1 ==> addition_check(seen, cur, b)
            != ValidateChainRes::AddBlock,
        addition_check(seen, cur, b) == ValidateChainRes::AddBlock ==> b.is_valid(),
{
}

/// The local chain of blocks.
pub struct Chain {
    blocks: Vec<Block>,
}

impl View for Chain {
    type V = Seq<BlockView>;

    closed spec fn view(&self) -> Seq<BlockView> {
        view_blocks(self.blocks@)
    }
}

impl Chain {
    pub fn new() -> (c: Self)
        ensures
            c@ == Seq::<BlockView>::empty(),
    {
        let c = Chain { blocks: Vec::new() };
        assert(c@ =~= Seq::<BlockView>::empty());
        c
    }

    pub fn push(&mut self, block: Block)
        ensures
            final(self)@ == old(self)@.push(block@),
    {
        self.blocks.push(block);
        assert(self@ =~= old(self)@.push(block@));
    }

    pub fn clear(&mut self)
        ensures
            final(self)@ == Seq::<BlockView>::empty(),
    {
        self.blocks.clear();
        assert(self@ =~= Seq::<BlockView>::empty());
    }

    pub fn extend(&mut self, new_blocks: Vec<Block>)
        ensures
            final(self)@ == old(self)@ + view_blocks(new_blocks@),
    {
        let ghost added = new_blocks@;
        let mut new_blocks = new_blocks;
        self.blocks.append(&mut new_blocks);
        assert(self@ =~= old(self)@ + view_blocks(added));
    }

    /// The blocks, oldest first.
    pub fn blocks(&self) -> (s: &[Block])
        ensures
            view_blocks(s@) == self@,
    {
        self.blocks.as_slice()
    }

    pub fn len(&self) -> (n: usize)
        ensures
            n == self@.len(),
    {
        self.blocks.len()
    }

    /// The newest block, if any.
    pub fn last(&self) -> (b: Option<&Block>)
        ensures
            b is None <==> self@.len() == 0,
            b matches Some(x) ==> x@ == self@.last(),
    {
        if self.blocks.len() == 0 {
            None
        } else {
            Some(&self.blocks[self.blocks.len() - 1])
        }
    }

    /// Decides whether a chain offered by a peer replaces the local one: it must be
    /// longer, or as long and with a newer last block; every block must pass
    /// `Block::validate` and not repeat the voter of an earlier block, and each block
    /// after the first must point at the hash of the one before it.
    pub fn validate(new_blocks: &[Block], current_chain: &[Block]) -> (r: Result<(), ChainError>)
        ensures
            r == chain_check(view_blocks(new_blocks@), view_blocks(current_chain@)),
            r is Ok ==> new_blocks@.len() > current_chain@.len() || (new_blocks@.len() == current_chain@.len()
                && new_blocks@.len() > 0 && new_blocks@[new_blocks@.len() - 1].timestamp > current_chain@[current_chain@.len()
                - 1].timestamp),
    {
        let ghost new = view_blocks(new_blocks@);
        let ghost cur = view_blocks(current_chain@);
        proof {
            lemma_adopted_chain_is_longer_or_newer(new, cur);
        }
        if new_blocks.len() < current_chain.len() {
            return Err(
                ChainError::Shorter { new_len: new_blocks.len(), current_len: current_chain.len() },
            );
        }
        if new_blocks.len() == current_chain.len() {
            let new_last: Option<u128> = if new_blocks.len() == 0 {
                None
            } else {
                Some(new_blocks[new_blocks.len() - 1].timestamp)
            };
            let cur_last: Option<u128> = if current_chain.len() == 0 {
                None
            } else {
                Some(current_chain[current_chain.len() - 1].timestamp)
            };
            let not_newer = match (new_last, cur_last) {
                (None, _) => true,
                (Some(_), None) => false,
                (Some(x), Some(y)) => x <= y,
            };
            if not_newer {
                return Err(
                    ChainError::NotNewer {
                        len: new_blocks.len(),
                        new_last_timestamp: new_last,
                        current_last_timestamp: cur_last,
                    },
                );
            }
        }
        let mut voter_ids: Vec<String> = Vec::new();
        let mut i: usize = 0;
        while i < new_blocks.len()
            invariant
                new == view_blocks(new_blocks@),
                cur == view_blocks(current_chain@),
                chain_check(new, cur) == match links_error(new, new.len()) {
                    Some(e) => Err(e),
                    None => Ok(()),
                },
                i <= new_blocks.len(),
                links_error(new, i as nat) is None,
                voter_ids@.len() == i,
                forall|j: int| 0 <= j < i ==> #[trigger] voter_ids@[j]@ == new[j].voter_id,
            decreases new_blocks.len() - i,
        {
            let b = &new_blocks[i];
            proof {
                lemma_first_error_stays(new, i as nat, new.len());
            }
            if i > 0 && !bytes_eq(b.prev_hash.as_slice(), new_blocks[i - 1].hash.as_slice()) {
                return Err(ChainError::PrevHashMismatch { index: i });
            }
            if !Block::validate(b) {
                return Err(ChainError::InvalidBlock { index: i });
            }
            let dup = contains_id(voter_ids.as_slice(), &b.voter_id);
            proof {
                if dup {
                    let k = choose|k: int| 0 <= k < voter_ids@.len() && voter_ids@[k]@ == b@.voter_id;
                    assert(0 <= k < i && new[k].voter_id == new[i as int].voter_id);
                } else {
                    assert forall|j: int| 0 <= j < i implies new[j].voter_id != new[i as int].voter_id by {
                        assert(voter_ids@[j]@ == new[j].voter_id);
                    }
                }
            }
            if dup {
                return Err(ChainError::DuplicateVoter { index: i });
            }
            voter_ids.push(b.voter_id.clone());
            i = i + 1;
        }
        Ok(())
    }

    /// Decides what to do with one block offered on top of the local chain (assumed
    /// valid): ignore it when its voter has already voted; on an empty chain add it
    /// when it is block 0 and valid; otherwise report a late addition when its index
    /// is not above the tip's or it points at another tip, add it when it is the next
    /// index and valid, and ignore it otherwise.
    pub fn validate_addition(
        seen_voter_ids: &[String],
        current_chain: &[Block],
        new_block: &Block,
    ) -> (r: ValidateChainRes)
        ensures
            r == addition_check(seen_voter_ids@, view_blocks(current_chain@), new_block@),
            (forall|k: int| 0 <= k < seen_voter_ids@.len() ==> seen_voter_ids@[k]@ != new_block@.voter_id)
                && current_chain@.len() > 0 && new_block.idx <= current_chain@[current_chain@.len() - 1].idx
                ==> r == ValidateChainRes::AttemptedLateAdd,
    {
        let ghost cur = view_blocks(current_chain@);
        proof {
            lemma_addition_by_position(seen_voter_ids@, cur, new_block@);
        }
        if contains_id(seen_voter_ids, &new_block.voter_id) {
            return ValidateChainRes::IgnoreBlock;
        }
        if current_chain.len() == 0 {
            if new_block.idx == 0 {
                if Block::validate(new_block) {
                    return ValidateChainRes::AddBlock;
                } else {
                    return ValidateChainRes::IgnoreBlock;
                }
            } else {
                return ValidateChainRes::IgnoreBlock;
            }
        }
        let last_block = &current_chain[current_chain.len() - 1];
        assert(last_block@ == cur.last());
        if new_block.idx <= last_block.idx {
            return ValidateChainRes::AttemptedLateAdd;
        }
        if new_block.idx == last_block.idx + 1 {
            if !bytes_eq(new_block.prev_hash.as_slice(), last_block.hash.as_slice()) {
                ValidateChainRes::AttemptedLateAdd
            } else {
                if Block::validate(new_block) {
                    ValidateChainRes::AddBlock
                } else {
                    ValidateChainRes::IgnoreBlock
                }
            }
        } else {
            ValidateChainRes::IgnoreBlock
        }
    }

    /// Whether the chain can be serialised (see `chain_fits`).
    pub fn fits(blocks: &[Block]) -> (ok: bool)
        ensures
            ok == chain_fits(view_blocks(blocks@)),
    {
        let ghost s = view_blocks(blocks@);
        let size = core::mem::size_of::<Block>();
        let n = blocks.len();
        assert((n as u128) * (size as u128) <= u128::MAX) by (nonlinear_arith)
            requires
                n <= usize::MAX,
                size <= usize::MAX,
                usize::MAX <= u64::MAX,
        ;
        if (n as u128) * (size as u128) > PREALLOCATION_LIMIT as u128 {
            return false;
        }
        let mut i: usize = 0;
        while i < blocks.len()
            invariant
                s == view_blocks(blocks@),
                i <= blocks.len(),
                forall|j: int| 0 <= j < i ==> #[trigger] s[j].fits(),
            decreases blocks.len() - i,
        {
            assert(blocks@[i as int]@ == s[i as int]);
            if !blocks[i].fits() {
                return false;
            }
            i = i + 1;
        }
        true
    }

    /// The serialised form of a list of blocks.
    pub fn encode_blocks(blocks: &[Block]) -> (bytes: Vec<u8>)
        requires
            chain_fits(view_blocks(blocks@)),
        ensures
            bytes@ == chain_bytes(view_blocks(blocks@)),
    {
        let ghost s = view_blocks(blocks@);
        let mut out: Vec<u8> = Vec::new();
        push_le(&mut out, blocks.len() as u128, 8);
        let ghost head = out@;
        let mut i: usize = 0;
        while i < blocks.len()
            invariant
                s == view_blocks(blocks@),
                chain_fits(s),
                i <= blocks.len(),
                head == enc_u64(s.len()),
                out@ == head + blocks_bytes(s.take(i as int)),
            decreases blocks.len() - i,
        {
            let enc = blocks[i].encode();
            assert(s[i as int].fits());
            let bytes = enc.unwrap();
            proof {
                assert(s.take((i + 1) as int).drop_last() =~= s.take(i as int));
            }
            crate::encoding::push_raw(&mut out, bytes.as_slice());
            assert(out@ =~= head + blocks_bytes(s.take((i + 1) as int)));
            i = i + 1;
        }
        assert(s.take(blocks.len() as int) =~= s);
        out
    }

    /// The chain digest: MD5 of the serialised blocks as lower-case hexadecimal.
    pub fn hash(&self) -> (h: String)
        requires
            chain_fits(self@),
        ensures
            h@ == chain_digest(self@),
            h@.len() == 32,
    {
        let bytes = Chain::encode_blocks(self.blocks.as_slice());
        let digest = md5_digest(bytes.as_slice());
        to_hex_lower(digest.as_slice())
    }
}

/// Whether two byte sequences are equal.
fn bytes_eq(a: &[u8], b: &[u8]) -> (eq: bool)
    ensures
        eq == (a@ == b@),
{
    crate::block::bytes_equal(a, b)
}

} // verus!
