//! Mining tasks and the mining of blocks on top of the chain tip.
use vstd::prelude::*;

use crate::block::{lemma_mined_block_valid, Block, BlockView, Candidate};
use crate::chain::{addition_check, ids_contain, ValidateChainRes};
use crate::external::spec_is_uuid;
use crate::encoding::len_fits;
use crate::external::random_below;

verus! {

/// A request to mine a block recording one vote.
pub struct MiningTask {
    pub voter_id: String,
    pub candidate: Candidate,
}

impl View for MiningTask {
    type V = (Seq<char>, Candidate);

    open spec fn view(&self) -> (Seq<char>, Candidate) {
        (self.voter_id@, self.candidate)
    }
}

impl Clone for MiningTask {
    fn clone(&self) -> (t: Self)
        ensures
            t@ == self@,
    {
        MiningTask { voter_id: self.voter_id.clone(), candidate: self.candidate }
    }
}

/// The index a block mined on top of `last` gets: 0 on an empty chain, otherwise one
/// past `last_idx`.
pub open spec fn next_index(has_last: bool, last_idx: usize) -> int {
    if has_last {
        last_idx + 1
    } else {
        0
    }
}

/// Mines a block recording the task's vote on top of `last_block` (whose index is
/// `last_idx`), or as the first block when there is none. `None` when the clock is
/// unreadable or no nonce exists.
pub fn mine_block(mining_task: &MiningTask, last_block: Option<&Block>, last_idx: usize) -> (block:
    Option<Block>)
    requires
        last_block is Some ==> last_idx < usize::MAX,
        last_block matches Some(b) ==> len_fits(b.hash@.len()),
        len_fits(vstd::utf8::encode_utf8(mining_task.voter_id@).len()),
    ensures
        block matches Some(b) ==> {
            &&& b@.idx == next_index(last_block is Some, last_idx)
            &&& b@.data == mining_task.candidate
            &&& b@.prev_hash == match last_block {
                Some(l) => l.hash@,
                None => Seq::<u8>::empty(),
            }
            &&& b@.voter_id == mining_task.voter_id@
            &&& b@.is_mined()
            &&& b@.hash.len() == 32
            &&& b@.preimage_fits()
        },
{
    let idx: usize = match last_block {
        None => 0,
        Some(_) => last_idx + 1,
    };
    let prev_hash: Vec<u8> = match last_block {
        Some(b) => crate::block::copy_bytes(b.hash.as_slice()),
        None => Vec::new(),
    };
    proof {
        if last_block is None {
            assert(prev_hash@ =~= Seq::<u8>::empty());
        }
    }
    Block::new(idx, mining_task.candidate, prev_hash, mining_task.voter_id.as_str())
}

/// Mines a block for a randomly drawn candidate, A or B, with an empty voter id, on
/// top of `last_block` (whose index is `last_idx`).
pub fn mine_random_block(last_block: Option<&Block>, last_idx: usize) -> (block: Option<Block>)
    requires
        last_block is Some ==> last_idx < usize::MAX,
        last_block matches Some(b) ==> len_fits(b.hash@.len()),
    ensures
        block matches Some(b) ==> {
            &&& b@.idx == next_index(last_block is Some, last_idx)
            &&& (b@.data == Candidate::A || b@.data == Candidate::B)
            &&& b@.prev_hash == match last_block {
                Some(l) => l.hash@,
                None => Seq::<u8>::empty(),
            }
            &&& b@.voter_id == Seq::<char>::empty()
            &&& b@.is_mined()
            &&& b@.hash.len() == 32
            &&& b@.preimage_fits()
        },
{
    let candidate_idx = random_below(2);
    let candidate = match Candidate::from_index(candidate_idx) {
        Some(c) => c,
        None => Candidate::A,
    };
    let task = MiningTask { voter_id: String::new(), candidate };
    proof {
        assert(vstd::utf8::encode_utf8(Seq::<char>::empty()).len() == 0);
    }
    mine_block(&task, last_block, last_idx)
}

/// A block mined for a voter that is a UUID and not yet seen, on top of the tip of
/// a chain whose blocks carry their positions as indices (with the tip's index as
/// `last_idx`), is added by `Chain::validate_addition`: what `mine_block` promises of
/// its block is all the check needs.
pub proof fn lemma_mined_block_added(seen: Seq<String>, cur: Seq<BlockView>, b: BlockView)
    requires
        cur.len() <= usize::MAX,
        forall|i: int| 0 <= i < cur.len() ==> #[trigger] cur[i].idx == i,
        spec_is_uuid(b.voter_id),
        !ids_contain(seen, b.voter_id),
        b.idx == next_index(
            cur.len() > 0,
            if cur.len() > 0 {
                (cur.len() - 1) as usize
            } else {
                0usize
            },
        ),
        b.prev_hash == if cur.len() > 0 {
            cur.last().hash
        } else {
            Seq::<u8>::empty()
        },
        b.is_mined(),
        b.hash.len() == 32,
        b.preimage_fits(),
    ensures
        addition_check(seen, cur, b) == ValidateChainRes::AddBlock,
{
    lemma_mined_block_valid(b);
    if cur.len() > 0 {
        assert(cur.last().idx == cur.len() - 1);
    }
}

} // verus!
