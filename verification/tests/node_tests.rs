use bk_rs::block::{Block, Candidate};
use bk_rs::chain::{Chain, ChainError, ValidateChainRes};
use bk_rs::known_peers::KnownPeers;
use bk_rs::miner::{mine_block, MiningTask};
use bk_rs::node::{MiningTaskOutcome, NodeState};
use bk_rs::peer::{Peer, PeerIp};

const V1: &str = "67e55044-10b1-426f-9247-bb680e5fe0c8";
const V2: &str = "0f8fad5b-d9cb-469f-a165-70867728950e";

fn fixed(name: &str) -> Block {
    let (idx, c, prev, voter, ts, nonce, hash): (usize, Candidate, &str, &str, u128, u128, &str) = match name {
        "b0" => (0, Candidate::A, "", "67e55044-10b1-426f-9247-bb680e5fe0c8", 10, 2228858, "00000cceee2cdb70837073b357da33c1d0e31dd90a017e054f479f00c83bd891"),
        "b1" => (1, Candidate::B, "00000cceee2cdb70837073b357da33c1d0e31dd90a017e054f479f00c83bd891", "0f8fad5b-d9cb-469f-a165-70867728950e", 20, 2333728, "00000dbe720ab2f76a9b542d98e7c9a5a003a234e46f7f2bf1ff39efa8d97a70"),
        "b2" => (2, Candidate::A, "00000dbe720ab2f76a9b542d98e7c9a5a003a234e46f7f2bf1ff39efa8d97a70", "7c9e6679-7425-40de-944b-e07fc1f90ae7", 30, 764249, "000003a88ae184440475d58140e0c961780dc4069efc2a0cdf43e9a41b6056b4"),
        "b2n" => (2, Candidate::C, "00000dbe720ab2f76a9b542d98e7c9a5a003a234e46f7f2bf1ff39efa8d97a70", "7c9e6679-7425-40de-944b-e07fc1f90ae7", 99, 124157, "0000094eb2416d9ffdbddb1411f108516f4cb3fe306efafc1e2ceef73494167c"),
        "d2" => (2, Candidate::B, "00000dbe720ab2f76a9b542d98e7c9a5a003a234e46f7f2bf1ff39efa8d97a70", "0f8fad5b-d9cb-469f-a165-70867728950e", 40, 2084863, "000007cc4079e0ef51a8d530e0754fb946d6265f07cb27cc4e33efda3a63bb8d"),
        "d1" => (1, Candidate::B, "00000cceee2cdb70837073b357da33c1d0e31dd90a017e054f479f00c83bd891", "67e55044-10b1-426f-9247-bb680e5fe0c8", 50, 350073, "000002caab764ce06370f866b2c257ea50e53c05fe934765e631d7b7d69f5865"),
        "other" => (1, Candidate::C, "0505050505050505050505050505050505050505050505050505050505050505", "7c9e6679-7425-40de-944b-e07fc1f90ae7", 60, 279338, "00000b579ca5697ae23abd4a4417f8953a0410ca632b5fde570ae289d892e14d"),
        "s0" => (0, Candidate::A, "", "67e55044-10b1-426f-9247-bb680e5fe0c8", 1, 48146, "00000d9757186a3c6977780f06516710fb082c0366775a87a848b6852fc5ef22"),
        "s1" => (1, Candidate::C, "00000d9757186a3c6977780f06516710fb082c0366775a87a848b6852fc5ef22", "0f8fad5b-d9cb-469f-a165-70867728950e", 2, 1240194, "0000065458e1e5648aca67f522d82d01aad6d4787fdeb7039fc60725aebb4ba6"),
        "t0" => (0, Candidate::E, "", "0f8fad5b-d9cb-469f-a165-70867728950e", 5, 1009202, "000001c8b2e4c80f48a34cf56c7bfbf9ab58566f821f7b26cf07170355b84438"),
        "nu" => (0, Candidate::B, "", "not-a-uuid", 7, 1554258, "000002cf5ce555b5d0d581c677bf063cdb9e8f2430a0899e50b337e7ac4ca6c4"),
        _ => unreachable!(),
    };
    Block {
        idx,
        data: c,
        prev_hash: hex::decode(prev).unwrap(),
        nonce: Some(nonce),
        hash: hex::decode(hash).unwrap(),
        voter_id: voter.to_string(),
        timestamp: ts,
    }
}

fn peer(last: u32, port: u16) -> Peer {
    Peer { ip: PeerIp::V4(0x0a000000 + last), port }
}

fn node() -> NodeState {
    NodeState::init(
        PeerIp::V4(0x0a000063),
        "node0".to_string(),
        peer(0, 4567),
        KnownPeers::new(),
        Chain::new(),
        Vec::new(),
    )
}

fn task(v: &str, c: Candidate) -> MiningTask {
    MiningTask { voter_id: v.to_string(), candidate: c }
}

#[test]
fn node_mining_flow() {
    let mut n = node();
    assert_eq!(n.add_mining_task(task(V1, Candidate::B)), MiningTaskOutcome::Queued);
    assert_eq!(n.add_mining_task(task(V1, Candidate::C)), MiningTaskOutcome::AlreadyQueued);
    let job = n.next_mining_job().unwrap();
    assert!(job.last_block.is_none());
    assert_eq!(job.last_idx, 0);
    assert_eq!(job.task.voter_id, V1);
    assert!(n.next_mining_job().is_none());
    let block = mine_block(&job.task, job.last_block.as_ref(), job.last_idx).unwrap();
    assert_eq!(n.on_block_mined(block), ValidateChainRes::AddBlock);
    assert_eq!(n.chain().len(), 1);
    assert_eq!(n.get_vote(V1), Some(Candidate::B));
    assert_eq!(n.get_total_votes(), 1);
    assert_eq!(n.tally_report(), "B:1");
    assert_eq!(n.get_tally(), vec![(Candidate::B, 1)]);
    assert_eq!(n.add_mining_task(task(V1, Candidate::A)), MiningTaskOutcome::AlreadyVoted);
}

#[test]
fn node_skips_voted_tasks_and_requeues_late_blocks() {
    let mut n = node();
    assert_eq!(n.add_mining_task(task(V2, Candidate::E)), MiningTaskOutcome::Queued);
    assert_eq!(n.add_mining_task(task(V1, Candidate::A)), MiningTaskOutcome::Queued);
    // mine the last queued task (V1) twice: the second copy loses the race
    let job = n.next_mining_job().unwrap();
    assert_eq!(job.task.voter_id, V1);
    let first = fixed("s0");
    assert_eq!(first.voter_id, job.task.voter_id);
    let late = first.clone();
    assert_eq!(n.on_block_mined(first), ValidateChainRes::AddBlock);
    assert_eq!(n.on_block_mined(late), ValidateChainRes::IgnoreBlock);
    // a block for V2 mined against an empty chain arrives late; V2's task is still
    // queued, so it is not queued a second time
    let stale = fixed("t0");
    assert_eq!(n.on_block_mined(stale.clone()), ValidateChainRes::AttemptedLateAdd);
    let job = n.next_mining_job().unwrap();
    assert_eq!(job.task.voter_id, V2);
    assert_eq!(job.last_idx, 0);
    assert!(job.last_block.is_some());
    assert!(n.next_mining_job().is_none());
    // with the queue empty, the late block's vote is queued again
    assert_eq!(n.on_block_mined(stale), ValidateChainRes::AttemptedLateAdd);
    let job2 = n.next_mining_job().unwrap();
    assert_eq!(job2.task.voter_id, V2);
    assert_eq!(job2.task.candidate, Candidate::E);
    assert!(n.next_mining_job().is_none());
    // a task whose voter got onto the chain meanwhile is dropped
    let mut m = node();
    assert_eq!(m.add_mining_task(task(V1, Candidate::A)), MiningTaskOutcome::Queued);
    assert_eq!(m.add_block_to_chain(fixed("s0")), ValidateChainRes::AddBlock);
    assert!(m.next_mining_job().is_none());
}

#[test]
fn node_sync_chain_accepts_and_lists_peers_to_skip() {
    let b0 = fixed("s0");
    let b1 = fixed("s1");
    let chain = vec![b0.clone(), b1.clone()];
    let mut c = Chain::new();
    c.extend(chain.clone());
    let digest = c.hash();

    let mut n = node();
    assert!(n.add_peer_serializable(peer(1, 1), "n1".to_string()));
    assert!(n.add_peer_serializable(peer(2, 2), "n2".to_string()));
    assert!(n.add_peer_serializable(peer(3, 3), "n3".to_string()));
    let ignore = n
        .sync_chain(chain.clone(), "n2".to_string(), vec!["n9".to_string()])
        .unwrap();
    assert_eq!(ignore, vec!["n2".to_string(), "n9".to_string()]);
    assert_eq!(n.chain().len(), 2);
    assert_eq!(n.get_vote(V2), Some(Candidate::C));
    assert_eq!(n.get_total_votes(), 2);
    for e in n.known_peers().as_entries_with_hash() {
        assert_eq!(e.2, digest);
    }
    let (peers, ids) = n.push_chain_targets(&ignore, &["n9".to_string()]);
    assert_eq!(peers, vec![peer(1, 1), peer(3, 3)]);
    // the ids passed on: this hop's targets, then those already sent to
    assert_eq!(ids, vec!["n1".to_string(), "n3".to_string(), "n9".to_string()]);
    assert_eq!(n.get_tally(), vec![(Candidate::A, 1), (Candidate::C, 1)]);
    // the same chain again is not newer
    assert_eq!(
        n.sync_chain(chain.clone(), "n1".to_string(), vec![]),
        Err(ChainError::NotNewer {
            len: 2,
            new_last_timestamp: Some(2),
            current_last_timestamp: Some(2)
        })
    );
    assert_eq!(n.chain().len(), 2);
    // a shorter one neither
    assert_eq!(
        n.sync_chain(vec![b0.clone()], "n1".to_string(), vec![]),
        Err(ChainError::Shorter { new_len: 1, current_len: 2 })
    );
    assert_eq!(n.add_mining_task(task(V2, Candidate::A)), MiningTaskOutcome::AlreadyVoted);
}

#[test]
fn node_peer_management() {
    let mut n = node();
    // the node itself is never added
    assert!(!n.add_peer_serializable(peer(0, 4567), "self".to_string()));
    assert!(n.add_peer_serializable(peer(1, 1), "n1".to_string()));
    assert!(!n.add_peer_serializable(peer(1, 1), "n1b".to_string()));
    let grew = n.add_multiple_peer(&[
        (peer(1, 1), "n1".to_string()),
        (peer(0, 4567), "self".to_string()),
        (peer(2, 2), "n2".to_string()),
        (peer(2, 2), "n2".to_string()),
    ]);
    assert!(grew);
    assert_eq!(n.get_known_peers(), vec![peer(1, 1), peer(2, 2)]);
    assert!(!n.add_multiple_peer(&[(peer(2, 2), "n2".to_string())]));
    assert!(n.remove_failed_peers(&[peer(2, 2), peer(7, 7), peer(2, 2)]));
    assert_eq!(n.get_known_peers(), vec![peer(1, 1)]);
    assert_eq!(n.known_peers().as_entries(), vec![(peer(1, 1), "n1".to_string())]);
    assert!(!n.remove_failed_peers(&[peer(7, 7)]));
    let (p, id) = n.discovery_announcement();
    assert_eq!(p, Peer { ip: PeerIp::V4(0x0a000063), port: 4567 });
    assert_eq!(id, "node0");
}

#[test]
fn node_sync_chain_checked_runs_the_sync() {
    let chain = vec![fixed("s0"), fixed("s1")];
    let mut n = node();
    assert!(n.add_peer_serializable(peer(1, 1), "n1".to_string()));
    let r = n.sync_chain_checked(chain.clone(), "n1".to_string(), vec!["n7".to_string()]);
    assert_eq!(r, Some(Ok(vec!["n1".to_string(), "n7".to_string()])));
    assert_eq!(n.chain().len(), 2);
    assert_eq!(n.get_tally(), vec![(Candidate::A, 1), (Candidate::C, 1)]);
    let r = n.sync_chain_checked(vec![fixed("s0")], "n1".to_string(), vec![]);
    assert_eq!(r, Some(Err(ChainError::Shorter { new_len: 1, current_len: 2 })));
    assert_eq!(n.chain().len(), 2);
}

#[test]
fn node_counts_follow_the_chain() {
    let mut n = node();
    assert_eq!(n.add_block_to_chain(fixed("s0")), ValidateChainRes::AddBlock);
    assert_eq!(n.get_tally(), vec![(Candidate::A, 1)]);
    // a refused block leaves the counts alone
    assert_eq!(n.add_block_to_chain(fixed("s0")), ValidateChainRes::IgnoreBlock);
    assert_eq!(n.get_tally(), vec![(Candidate::A, 1)]);
    assert_eq!(n.add_mining_task(task(V1, Candidate::B)), MiningTaskOutcome::AlreadyVoted);
    assert_eq!(n.get_tally(), vec![(Candidate::A, 1)]);
    assert_eq!(n.add_block_to_chain(fixed("s1")), ValidateChainRes::AddBlock);
    assert_eq!(n.get_tally(), vec![(Candidate::A, 1), (Candidate::C, 1)]);
    assert_eq!(n.tally_report(), "A:1,C:1");
    // a refused chain leaves them alone too
    assert!(n.sync_chain(vec![fixed("b0")], "x".to_string(), vec![]).is_err());
    assert_eq!(n.get_tally(), vec![(Candidate::A, 1), (Candidate::C, 1)]);
    assert_eq!(n.get_total_votes(), 2);
}

#[test]
fn node_new_peer_id_maps_to_it_with_empty_digest() {
    let mut n = node();
    assert!(n.add_peer_serializable(peer(1, 1), "n1".to_string()));
    assert!(n.add_peer_serializable(peer(2, 2), "n1".to_string()));
    // the id now maps to the newer address, once, with no digest yet
    let entries = n.known_peers().as_entries_with_hash();
    let for_n1: Vec<_> = entries.iter().filter(|e| e.1 == "n1").collect();
    assert_eq!(for_n1.len(), 1);
    assert_eq!(for_n1[0].0, peer(2, 2));
    assert_eq!(for_n1[0].2, "");
    assert_eq!(n.get_known_peers(), vec![peer(1, 1), peer(2, 2)]);
}

#[test]
fn node_starts_with_zero_counts_and_keeps_identity() {
    let mut n = node();
    assert_eq!(n.get_tally(), vec![]);
    assert_eq!(n.get_total_votes(), 0);
    assert_eq!(n.add_block_to_chain(fixed("s0")), ValidateChainRes::AddBlock);
    assert_eq!(n.get_vote(V1), Some(Candidate::A));
    assert!(n.add_peer_serializable(peer(1, 1), "n1".to_string()));
    assert!(n.remove_failed_peers(&[peer(1, 1)]));
    assert_eq!(n.node_id(), "node0");
    assert_eq!(n.self_as_peer(), peer(0, 4567));
    assert_eq!(n.public_ip(), PeerIp::V4(0x0a000063));
}
