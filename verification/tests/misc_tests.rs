use bk_rs::block::Candidate;
use bk_rs::gossip::{fan_out_count, pick_fan_out};
use bk_rs::known_peers::KnownPeers;
use bk_rs::miner::MiningTask;
use bk_rs::mining_pool::MiningPool;
use bk_rs::net::NetError;
use bk_rs::peer::{peer_exists, Peer, PeerIp};
use bk_rs::report::tally_report;
use bk_rs::vote_cache::VoteCache;

fn peer(last: u32, port: u16) -> Peer {
    Peer { ip: PeerIp::V4(0x7f000000 + last), port }
}

fn task(v: &str, c: Candidate) -> MiningTask {
    MiningTask { voter_id: v.to_string(), candidate: c }
}

#[test]
fn vote_cache_records_and_counts() {
    let mut c = VoteCache::new();
    assert_eq!(c.total_votes(), 0);
    assert!(c.tally().is_empty());
    c.record_vote("v1".to_string(), Candidate::A);
    c.record_vote("v2".to_string(), Candidate::C);
    c.record_vote("v3".to_string(), Candidate::A);
    assert_eq!(c.get_vote("v1"), Some(Candidate::A));
    assert_eq!(c.get_vote("v2"), Some(Candidate::C));
    assert_eq!(c.get_vote("nobody"), None);
    assert_eq!(c.total_votes(), 3);
    assert_eq!(c.tally(), vec![(Candidate::A, 2), (Candidate::C, 1)]);
    let sum: usize = c.tally().iter().map(|e| e.1).sum();
    assert_eq!(sum, c.total_votes());
}

#[test]
fn vote_cache_repeat_voter_keeps_first_vote() {
    let mut c = VoteCache::new();
    c.record_vote("v1".to_string(), Candidate::A);
    c.record_vote("v1".to_string(), Candidate::B);
    assert_eq!(c.get_vote("v1"), Some(Candidate::A));
    assert_eq!(c.total_votes(), 1);
    assert_eq!(c.tally(), vec![(Candidate::A, 1)]);
}

#[test]
fn tally_report_text() {
    assert_eq!(tally_report(&[]), "");
    assert_eq!(tally_report(&[(Candidate::A, 2), (Candidate::C, 1)]), "A:2,C:1");
    assert_eq!(tally_report(&[(Candidate::F, 1234567890)]), "F:1234567890");
    assert_eq!(tally_report(&[(Candidate::B, 10), (Candidate::D, 0)]), "B:10,D:0");
}

#[test]
fn mining_pool_queue() {
    let mut p = MiningPool::new();
    assert!(p.take_last().is_none());
    assert!(p.add_task(task("a", Candidate::A)));
    assert!(p.add_task(task("b", Candidate::B)));
    assert!(!p.add_task(task("a", Candidate::C)));
    assert!(p.contains_voter("a"));
    assert!(!p.contains_voter("c"));
    let t = p.take_last().unwrap();
    assert_eq!(t.voter_id, "b");
    p.requeue(task("z", Candidate::F));
    // a voter already queued is not queued twice
    p.requeue(task("a", Candidate::D));
    p.requeue(task("z", Candidate::E));
    let t = p.take_last().unwrap();
    assert_eq!(t.voter_id, "z");
    assert_eq!(t.candidate, Candidate::F);
    let t = p.take_last().unwrap();
    assert_eq!(t.voter_id, "a");
    assert_eq!(t.candidate, Candidate::A);
    assert!(p.take_last().is_none());
}

#[test]
fn peer_exists_examples() {
    let peers = vec![peer(1, 10), peer(2, 20)];
    assert!(peer_exists(&peers, &peer(2, 20)));
    assert!(!peer_exists(&peers, &peer(2, 21)));
    assert!(!peer_exists(&peers, &Peer { ip: PeerIp::V6(0x7f000002), port: 20 }));
    assert!(!peer_exists(&[], &peer(1, 10)));
}

#[test]
fn known_peers_table() {
    let mut k = KnownPeers::new();
    k.add_peer(peer(1, 10), "n1".to_string());
    k.add_peer(peer(2, 20), "n2".to_string());
    assert_eq!(k.peers(), &vec![peer(1, 10), peer(2, 20)]);
    assert_eq!(k.as_entries(), vec![(peer(1, 10), "n1".to_string()), (peer(2, 20), "n2".to_string())]);
    k.update_chain_hash("n2", "h2".to_string());
    k.update_chain_hash("unknown", "hx".to_string());
    assert_eq!(
        k.as_entries_with_hash(),
        vec![
            (peer(1, 10), "n1".to_string(), "".to_string()),
            (peer(2, 20), "n2".to_string(), "h2".to_string())
        ]
    );
    // re-adding an id points it at the new address with an empty digest
    k.add_peer(peer(3, 30), "n2".to_string());
    assert_eq!(k.peers().len(), 3);
    assert_eq!(
        k.as_entries_with_hash(),
        vec![
            (peer(1, 10), "n1".to_string(), "".to_string()),
            (peer(3, 30), "n2".to_string(), "".to_string())
        ]
    );
    k.update_chain_hash_all("all".to_string());
    assert!(k.as_entries_with_hash().iter().all(|e| e.2 == "all"));
    assert!(k.remove_peer_with_peer(&peer(1, 10)));
    assert!(!peer_exists(k.peers(), &peer(1, 10)));
    assert_eq!(k.as_entries(), vec![(peer(3, 30), "n2".to_string())]);
    assert!(!k.remove_peer_with_peer(&peer(1, 10)));
    assert!(k.remove_peer_with_peer(&peer(2, 20)));
    assert_eq!(k.peers(), &vec![peer(3, 30)]);
}

#[test]
fn net_error_text() {
    assert_eq!(NetError::Timeout.to_string(), "Timed out");
    let e = NetError::from_io(std::io::Error::new(std::io::ErrorKind::Other, "boom"));
    assert_eq!(e.to_string(), "boom");
}

#[test]
fn fan_out_is_two_fifths_rounded_up() {
    assert_eq!(fan_out_count(0), 0);
    assert_eq!(fan_out_count(1), 1);
    assert_eq!(fan_out_count(2), 1);
    assert_eq!(fan_out_count(3), 2);
    assert_eq!(fan_out_count(5), 2);
    assert_eq!(fan_out_count(6), 3);
    assert_eq!(fan_out_count(10), 4);
    assert_eq!(fan_out_count(11), 5);
}

#[test]
fn fan_out_picks_distinct_peers() {
    assert!(pick_fan_out(0).is_empty());
    for n in 1..40usize {
        let picked = pick_fan_out(n);
        assert_eq!(picked.len(), fan_out_count(n));
        for (i, a) in picked.iter().enumerate() {
            assert!(*a < n);
            for b in &picked[i + 1..] {
                assert_ne!(a, b);
            }
        }
    }
    let mut all = pick_fan_out(3);
    assert_eq!(all.len(), 2);
    all.sort();
    all.dedup();
    assert_eq!(all.len(), 2);
}
