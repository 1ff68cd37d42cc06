//! The decisions a node takes on the events it sees: votes to mine, blocks mined,
//! chains and peers announced by others. Each is a step from the node's state and
//! the event to the next state and what the caller has to send or do next; the
//! network, the clock and the mining threads stay with the caller.
use vstd::prelude::*;

use crate::block::{Block, BlockView, Candidate};
use crate::chain::{
    addition_check, chain_check, chain_digest, chain_fits, contains_id, ids_contain, view_blocks,
    well_linked, Chain, ChainError, ValidateChainRes,
};
use crate::known_peers::{
    find_id, insert_entry, other_entry, other_peer, KnownPeers, PeerEntryView,
};
use crate::miner::MiningTask;
use crate::mining_pool::MiningPool;
use crate::peer::{peer_exists, spec_peer_exists, Peer, PeerIp};
use crate::vote_cache::{vote_of, VoteCache};

verus! {

/// Some block of `s` is by voter `id`.
pub open spec fn chain_has_voter(s: Seq<BlockView>, id: Seq<char>) -> bool {
    exists|i: int| 0 <= i < s.len() && s[i].voter_id == id
}

/// The candidate of the first block of `s` by voter `id`: a voter counts once, with
/// the vote that reached the chain first.
pub open spec fn chain_vote(s: Seq<BlockView>, id: Seq<char>) -> Option<Candidate>
    decreases s.len(),
{
    if s.len() == 0 {
        None
    } else {
        match chain_vote(s.drop_last(), id) {
            Some(c) => Some(c),
            None => if s.last().voter_id == id {
                Some(s.last().data)
            } else {
                None
            },
        }
    }
}

/// The number of distinct voters on `s` whose vote (see `chain_vote`) is the
/// candidate with index `k`.
pub open spec fn chain_tally(s: Seq<BlockView>, k: int) -> nat
    decreases s.len(),
{
    if s.len() == 0 {
        0
    } else {
        chain_tally(s.drop_last(), k) + if !chain_has_voter(s.drop_last(), s.last().voter_id)
            && s.last().data.index() == k {
            1nat
        } else {
            0nat
        }
    }
}

/// A voter has a vote on a chain exactly when one of its blocks is theirs.
pub proof fn lemma_chain_vote_some(s: Seq<BlockView>, id: Seq<char>)
    ensures
        chain_vote(s, id) is Some <==> chain_has_voter(s, id),
    decreases s.len(),
{
    if s.len() > 0 {
        lemma_chain_vote_some(s.drop_last(), id);
        lemma_chain_push_voters(s.drop_last(), s.last());
        assert(s.drop_last().push(s.last()) =~= s);
    }
}

/// The voters of a chain with one more block are those before and the block's voter.
pub proof fn lemma_chain_push_voters(s: Seq<BlockView>, b: BlockView)
    ensures
        forall|id: Seq<char>| #[trigger] chain_has_voter(s.push(b), id) == (chain_has_voter(s, id)
            || id == b.voter_id),
{
    let t = s.push(b);
    assert forall|id: Seq<char>| #[trigger] chain_has_voter(t, id) == (chain_has_voter(s, id)
        || id == b.voter_id) by {
        if chain_has_voter(s, id) {
            let k = choose|k: int| 0 <= k < s.len() && s[k].voter_id == id;
            assert(t[k] == s[k]);
        }
        if id == b.voter_id {
            assert(t[s.len() as int] == b);
        }
        if chain_has_voter(t, id) {
            let k = choose|k: int| 0 <= k < t.len() && t[k].voter_id == id;
            if k < s.len() {
                assert(s[k] == t[k]);
            }
        }
    }
}

/// The voters on `s` whose vote (see `chain_vote`) is the candidate with index `k`.
pub open spec fn voters_for(s: Seq<BlockView>, k: int) -> Set<Seq<char>> {
    Set::new(|id: Seq<char>| chain_vote(s, id) matches Some(c) && c.index() == k)
}

/// Each count of a chain is the number of distinct voters on it whose vote is that
/// candidate.
pub proof fn lemma_chain_tally_counts_voters(s: Seq<BlockView>, k: int)
    ensures
        voters_for(s, k).finite(),
        chain_tally(s, k) == voters_for(s, k).len(),
    decreases s.len(),
{
    if s.len() == 0 {
        assert(voters_for(s, k) =~= Set::<Seq<char>>::empty());
    } else {
        let p = s.drop_last();
        let b = s.last();
        lemma_chain_tally_counts_voters(p, k);
        lemma_chain_vote_some(p, b.voter_id);
        if !chain_has_voter(p, b.voter_id) && b.data.index() == k {
            assert(voters_for(s, k) =~= voters_for(p, k).insert(b.voter_id));
            assert(!voters_for(p, k).contains(b.voter_id));
        } else {
            assert(voters_for(s, k) =~= voters_for(p, k));
        }
    }
}

/// What `next_mining_job` leaves in the queue and hands out: tasks are taken from
/// the end, those of voters already on the chain are dropped.
pub open spec fn skip_voted(pool: Seq<(Seq<char>, Candidate)>, seen: Seq<String>) -> (
    Seq<(Seq<char>, Candidate)>,
    Option<(Seq<char>, Candidate)>,
)
    decreases pool.len(),
{
    if pool.len() == 0 {
        (pool, None)
    } else if ids_contain(seen, pool.last().0) {
        skip_voted(pool.drop_last(), seen)
    } else {
        (pool.drop_last(), Some(pool.last()))
    }
}

/// Taking the next job skips exactly the voters already seen: nothing comes back only
/// when every queued voter is seen; otherwise what comes back is the most recently
/// queued task of an unseen voter, every task after it is of a seen voter, and the
/// queue keeps the tasks before it.
pub proof fn lemma_skip_voted_finds_unseen(pool: Seq<(Seq<char>, Candidate)>, seen: Seq<String>)
    ensures
        skip_voted(pool, seen).1 is None ==> forall|i: int| 0 <= i < pool.len() ==> ids_contain(
            seen,
            #[trigger] pool[i].0,
        ),
        skip_voted(pool, seen).1 matches Some(t) ==> exists|i: int|
            0 <= i < pool.len() && #[trigger] pool[i] == t && !ids_contain(seen, t.0) && skip_voted(
                pool,
                seen,
            ).0 == pool.take(i) && forall|j: int| i < j < pool.len() ==> ids_contain(seen, #[trigger] pool[j].0),
    decreases pool.len(),
{
    if pool.len() > 0 {
        let p = pool.drop_last();
        lemma_skip_voted_finds_unseen(p, seen);
        if ids_contain(seen, pool.last().0) {
            assert forall|i: int| 0 <= i < pool.len() - 1 implies #[trigger] p[i] == pool[i] by {}
            if skip_voted(p, seen).1 is None {
                assert forall|i: int| 0 <= i < pool.len() implies ids_contain(seen, #[trigger] pool[i].0) by {
                    if i < pool.len() - 1 {
                        assert(p[i] == pool[i]);
                    }
                }
            } else {
                let t = skip_voted(p, seen).1->0;
                let i = choose|i: int|
                    0 <= i < p.len() && #[trigger] p[i] == t && !ids_contain(seen, t.0) && skip_voted(p, seen).0
                        == p.take(i) && forall|j: int| i < j < p.len() ==> ids_contain(seen, #[trigger] p[j].0);
                assert(pool[i] == t);
                assert(p.take(i) =~= pool.take(i));
                assert forall|j: int| i < j < pool.len() implies ids_contain(seen, #[trigger] pool[j].0) by {
                    if j < pool.len() - 1 {
                        assert(p[j] == pool[j]);
                    }
                }
            }
        } else {
            let i = pool.len() - 1;
            assert(pool.take(i) =~= p);
        }
    }
}

/// The views of a sequence of strings.
pub open spec fn strings_view(s: Seq<String>) -> Seq<Seq<char>> {
    s.map_values(|x: String| x@)
}

/// The table with the digest of the entry for `id` (if any) set to `h`.
pub open spec fn set_digest(m: Seq<PeerEntryView>, id: Seq<char>, h: Seq<char>) -> Seq<PeerEntryView> {
    match find_id(m, id) {
        Some(i) => m.update(i, (m[i].0, m[i].1, h)),
        None => m,
    }
}

/// The ids of the entries whose digest is `h`, in table order.
pub open spec fn ids_with_digest(m: Seq<PeerEntryView>, h: Seq<char>) -> Seq<Seq<char>>
    decreases m.len(),
{
    if m.len() == 0 {
        Seq::empty()
    } else {
        let rest = ids_with_digest(m.drop_last(), h);
        if m.last().2 == h {
            rest.push(m.last().0)
        } else {
            rest
        }
    }
}

/// Peers and table after offering one announced peer: it is taken when it is not the
/// node itself and its address is not yet known.
pub open spec fn absorb(
    state: (Seq<Peer>, Seq<PeerEntryView>),
    self_peer: Peer,
    peer: Peer,
    id: Seq<char>,
) -> (Seq<Peer>, Seq<PeerEntryView>) {
    if peer != self_peer && !spec_peer_exists(state.0, peer) {
        (state.0.push(peer), insert_entry(state.1, id, peer))
    } else {
        state
    }
}

/// Peers and table after offering each announced peer in turn.
pub open spec fn absorb_all(
    state: (Seq<Peer>, Seq<PeerEntryView>),
    self_peer: Peer,
    list: Seq<(Peer, String)>,
) -> (Seq<Peer>, Seq<PeerEntryView>)
    decreases list.len(),
{
    if list.len() == 0 {
        state
    } else {
        absorb(absorb_all(state, self_peer, list.drop_last()), self_peer, list.last().0, list.last().1@)
    }
}

/// The table entries (address, id) whose id is not in `ignore`, in table order.
pub open spec fn push_targets(m: Seq<PeerEntryView>, ignore: Seq<String>) -> Seq<(Peer, Seq<char>)>
    decreases m.len(),
{
    if m.len() == 0 {
        Seq::empty()
    } else {
        let rest = push_targets(m.drop_last(), ignore);
        if ids_contain(ignore, m.last().0) {
            rest
        } else {
            rest.push((m.last().1, m.last().0))
        }
    }
}

/// The address list with every address in `failed` taken out.
pub open spec fn peers_without(s: Seq<Peer>, failed: Seq<Peer>) -> Seq<Peer>
    decreases failed.len(),
{
    if failed.len() == 0 {
        s
    } else {
        peers_without(s, failed.drop_last()).filter(other_peer(failed.last()))
    }
}

/// The table with every entry whose address is in `failed` taken out.
pub open spec fn entries_without(m: Seq<PeerEntryView>, failed: Seq<Peer>) -> Seq<PeerEntryView>
    decreases failed.len(),
{
    if failed.len() == 0 {
        m
    } else {
        entries_without(m, failed.drop_last()).filter(other_entry(failed.last()))
    }
}

proof fn lemma_filter_peer_exists(s: Seq<Peer>, t: Peer, p: Peer)
    ensures
        spec_peer_exists(s.filter(other_peer(t)), p) == (spec_peer_exists(s, p) && p != t),
{
    let f = other_peer(t);
    let r = s.filter(f);
    if spec_peer_exists(r, p) {
        let k = choose|k: int| 0 <= k < r.len() && r[k] == p;
        assert(r.contains(p));
        s.lemma_filter_contains_rev(f, p);
        s.lemma_filter_pred(f, k);
    }
    if spec_peer_exists(s, p) && p != t {
        let k = choose|k: int| 0 <= k < s.len() && s[k] == p;
        s.lemma_filter_contains(f, k);
    }
}

proof fn lemma_peers_without_exists(s: Seq<Peer>, failed: Seq<Peer>, p: Peer)
    ensures
        spec_peer_exists(peers_without(s, failed), p) == (spec_peer_exists(s, p) && !failed.contains(p)),
    decreases failed.len(),
{
    if failed.len() > 0 {
        lemma_peers_without_exists(s, failed.drop_last(), p);
        lemma_filter_peer_exists(peers_without(s, failed.drop_last()), failed.last(), p);
        assert(failed =~= failed.drop_last().push(failed.last()));
        if failed.drop_last().contains(p) {
            let k = choose|k: int| 0 <= k < failed.drop_last().len() && failed.drop_last()[k] == p;
            assert(failed[k] == p);
        }
        if failed.contains(p) && failed.last() != p {
            let k = choose|k: int| 0 <= k < failed.len() && failed[k] == p;
            assert(failed.drop_last()[k] == p);
        }
    }
}

/// The voters of a chain and its vote cache, built block by block: each voter marked
/// as seen, each first vote recorded and counted.
fn rebuild_voters(blocks: &Vec<Block>) -> (r: (Vec<String>, VoteCache))
    ensures
        r.1.wf(),
        forall|id: Seq<char>| ids_contain(r.0@, id) == chain_has_voter(view_blocks(blocks@), id),
        forall|id: Seq<char>| vote_of(r.1.votes(), id) == chain_vote(view_blocks(blocks@), id),
        r.1.counts().len() == 6,
        forall|k: int| 0 <= k < 6 ==> #[trigger] r.1.counts()[k] == chain_tally(view_blocks(blocks@), k),
        votes_within_seen(r.1.votes(), r.0@),
{
    let ghost nv = view_blocks(blocks@);
    let mut seen: Vec<String> = Vec::new();
    let mut cache = VoteCache::new();
    let mut i: usize = 0;
    while i < blocks.len()
        invariant
            i <= blocks@.len(),
            nv == view_blocks(blocks@),
            cache.wf(),
            cache.counts().len() == 6,
            forall|id: Seq<char>| ids_contain(seen@, id) == chain_has_voter(nv.take(i as int), id),
            forall|id: Seq<char>| vote_of(cache.votes(), id) == chain_vote(nv.take(i as int), id),
            forall|k: int| 0 <= k < 6 ==> #[trigger] cache.counts()[k] == chain_tally(nv.take(i as int), k),
        decreases blocks.len() - i,
    {
        let b = &blocks[i];
        let ghost prev_seen = seen@;
        let ghost prev_votes = cache.votes();
        let ghost prev_counts = cache.counts();
        let ghost pre = nv.take(i as int);
        let ghost post = nv.take((i + 1) as int);
        proof {
            assert(post.drop_last() =~= pre);
            assert(post.last() == b@);
            assert(pre.push(b@) =~= post);
            lemma_chain_push_voters(pre, b@);
            lemma_chain_vote_some(pre, b@.voter_id);
        }
        seen.push(b.voter_id.clone());
        cache.record_vote(b.voter_id.clone(), b.data);
        proof {
            assert forall|id: Seq<char>| ids_contain(seen@, id) == chain_has_voter(post, id) by {
                if ids_contain(prev_seen, id) {
                    let k = choose|k: int| 0 <= k < prev_seen.len() && prev_seen[k]@ == id;
                    assert(seen@[k] == prev_seen[k]);
                }
                if ids_contain(seen@, id) {
                    let k = choose|k: int| 0 <= k < seen@.len() && seen@[k]@ == id;
                    if k < prev_seen.len() {
                        assert(prev_seen[k] == seen@[k]);
                    }
                }
                if id == b@.voter_id {
                    assert(seen@[prev_seen.len() as int]@ == id);
                }
                assert(chain_has_voter(pre.push(b@), id) == (chain_has_voter(pre, id) || id == b@.voter_id));
            }
            assert forall|id: Seq<char>| vote_of(cache.votes(), id) == chain_vote(post, id) by {}
            assert forall|k: int| 0 <= k < 6 implies #[trigger] cache.counts()[k] == chain_tally(post, k) by {
                assert(chain_tally(post, k) == chain_tally(pre, k) + if !chain_has_voter(pre, b@.voter_id)
                    && b@.data.index() == k {
                    1nat
                } else {
                    0nat
                });
            }
        }
        i = i + 1;
    }
    assert(nv.take(blocks@.len() as int) =~= nv);
    proof {
        reveal(votes_within_seen);
        assert forall|id: Seq<char>| #[trigger] vote_of(cache.votes(), id) is Some implies ids_contain(
            seen@,
            id,
        ) by {
            lemma_chain_vote_some(nv, id);
        }
    }
    (seen, cache)
}

/// Every voter with a recorded vote is among the seen voters.
#[verifier::opaque]
pub open spec fn votes_within_seen(votes: Seq<(Seq<char>, Candidate)>, seen: Seq<String>) -> bool {
    forall|id: Seq<char>| #[trigger] vote_of(votes, id) is Some ==> ids_contain(seen, id)
}

/// What became of a vote handed to the node for mining.
#[derive(Clone, Copy, PartialEq, Eq, Structural, Debug)]
pub enum MiningTaskOutcome {
    /// The voter is already on the chain.
    AlreadyVoted,
    /// A task for the voter is already waiting.
    AlreadyQueued,
    /// The task was queued; the caller should drive the mining.
    Queued,
}

/// A vote to mine and the chain tip to mine it on.
pub struct MiningJob {
    pub task: MiningTask,
    pub last_block: Option<Block>,
    pub last_idx: usize,
}

/// The state of a node: who it is, whom it knows, its chain with the voters on it,
/// its queue of votes to mine and its cache of votes.
pub struct NodeState {
    self_as_peer: Peer,
    public_ip: PeerIp,
    node_id: String,
    known_peers: KnownPeers,
    chain: Chain,
    seen_voter_ids: Vec<String>,
    mining_pool: MiningPool,
    votes_cache: VoteCache,
}

impl NodeState {
    pub closed spec fn spec_chain(&self) -> Seq<BlockView> {
        self.chain@
    }

    pub closed spec fn seen(&self) -> Seq<String> {
        self.seen_voter_ids@
    }

    pub closed spec fn pool(&self) -> Seq<(Seq<char>, Candidate)> {
        self.mining_pool@
    }

    pub closed spec fn cached_votes(&self) -> Seq<(Seq<char>, Candidate)> {
        self.votes_cache.votes()
    }

    pub closed spec fn cached_counts(&self) -> Seq<usize> {
        self.votes_cache.counts()
    }

    pub closed spec fn peer_list(&self) -> Seq<Peer> {
        self.known_peers.spec_peers()
    }

    pub closed spec fn peer_entries(&self) -> Seq<crate::known_peers::PeerEntryView> {
        self.known_peers.entries()
    }

    pub closed spec fn spec_self_as_peer(&self) -> Peer {
        self.self_as_peer
    }

    pub closed spec fn spec_public_ip(&self) -> PeerIp {
        self.public_ip
    }

    pub closed spec fn spec_node_id(&self) -> Seq<char> {
        self.node_id@
    }

    /// The node's identity: its own address, its public IP and its id.
    pub open spec fn identity(&self) -> (Peer, PeerIp, Seq<char>) {
        (self.spec_self_as_peer(), self.spec_public_ip(), self.spec_node_id())
    }

    /// The invariants of the parts (peer ids unique, vote cache consistent), and every
    /// voter in the vote cache marked as seen.
    pub closed spec fn wf(&self) -> bool {
        &&& self.known_peers.wf()
        &&& self.votes_cache.wf()
        &&& votes_within_seen(self.cached_votes(), self.seen())
    }

    /// No two entries of the peer table share an id.
    pub proof fn lemma_peer_ids_unique(&self)
        requires
            self.wf(),
        ensures
            crate::known_peers::ids_unique(self.peer_entries()),
    {
    }

    /// Every voter with a cached vote is marked as seen; the vote cache holds six
    /// counts.
    pub proof fn lemma_cached_voters_seen(&self)
        requires
            self.wf(),
        ensures
            forall|id: Seq<char>| vote_of(self.cached_votes(), id) is Some ==> ids_contain(self.seen(), id),
            self.cached_counts().len() == 6,
    {
        reveal(votes_within_seen);
        crate::vote_cache::lemma_counts_match_votes(&self.votes_cache);
    }

    /// The voter sets and the vote cache agree with the chain: a voter is marked as
    /// seen exactly when some block is theirs, the cache holds, for each voter on the
    /// chain, the candidate of their first block, and each of the six counts is the
    /// number of distinct voters on the chain for its candidate.
    pub open spec fn consistent(&self) -> bool {
        &&& forall|id: Seq<char>| ids_contain(self.seen(), id) == chain_has_voter(self.spec_chain(), id)
        &&& forall|id: Seq<char>| vote_of(self.cached_votes(), id) == chain_vote(self.spec_chain(), id)
        &&& self.cached_counts().len() == 6
        &&& forall|k: int| 0 <= k < 6 ==> #[trigger] self.cached_counts()[k] == chain_tally(self.spec_chain(), k)
    }

    /// In a consistent state, the count kept for each candidate is the number of
    /// distinct voters on the chain whose vote is that candidate.
    pub proof fn lemma_counts_are_voters(&self)
        requires
            self.consistent(),
        ensures
            forall|c: Candidate| #[trigger] self.cached_counts()[c.index() as int] == voters_for(
                self.spec_chain(),
                c.index() as int,
            ).len(),
    {
        assert forall|c: Candidate| #[trigger] self.cached_counts()[c.index() as int] == voters_for(
            self.spec_chain(),
            c.index() as int,
        ).len() by {
            lemma_chain_tally_counts_voters(self.spec_chain(), c.index() as int);
            assert(0 <= c.index() < 6);
        }
    }

    /// A node with the given identity, peers, chain and seen voters, an empty mining
    /// queue and an empty vote cache.
    pub fn init(
        public_ip: PeerIp,
        node_id: String,
        self_as_peer: Peer,
        known_peers: KnownPeers,
        chain: Chain,
        seen_voter_ids: Vec<String>,
    ) -> (n: Self)
        requires
            known_peers.wf(),
        ensures
            n.wf(),
            n.spec_public_ip() == public_ip,
            n.spec_node_id() == node_id@,
            n.spec_self_as_peer() == self_as_peer,
            n.peer_list() == known_peers.spec_peers(),
            n.peer_entries() == known_peers.entries(),
            n.spec_chain() == chain@,
            n.seen() == seen_voter_ids@,
            n.pool() == Seq::<(Seq<char>, Candidate)>::empty(),
            n.cached_votes() == Seq::<(Seq<char>, Candidate)>::empty(),
            n.cached_counts() == seq![0usize, 0usize, 0usize, 0usize, 0usize, 0usize],
            chain@.len() == 0 && seen_voter_ids@.len() == 0 ==> n.consistent(),
    {
        let n = NodeState {
            self_as_peer,
            public_ip,
            node_id,
            known_peers,
            chain,
            seen_voter_ids,
            mining_pool: MiningPool::new(),
            votes_cache: VoteCache::new(),
        };
        proof {
            reveal(votes_within_seen);
            if n.spec_chain().len() == 0 {
                assert forall|k: int| 0 <= k < 6 implies #[trigger] n.cached_counts()[k] == chain_tally(
                    n.spec_chain(),
                    k,
                ) by {}
            }
        }
        n
    }

    pub fn self_as_peer(&self) -> (p: Peer)
        ensures
            p == self.spec_self_as_peer(),
    {
        self.self_as_peer
    }

    pub fn public_ip(&self) -> (ip: PeerIp)
        ensures
            ip == self.spec_public_ip(),
    {
        self.public_ip
    }

    pub fn node_id(&self) -> (id: &String)
        ensures
            id@ == self.spec_node_id(),
    {
        &self.node_id
    }

    /// The local chain.
    pub fn chain(&self) -> (c: &Chain)
        ensures
            c@ == self.spec_chain(),
    {
        &self.chain
    }

    /// The peer table.
    pub fn known_peers(&self) -> (k: &KnownPeers)
        ensures
            k.spec_peers() == self.peer_list(),
            k.entries() == self.peer_entries(),
    {
        &self.known_peers
    }

    /// The recorded vote of a voter.
    pub fn get_vote(&self, voter_id: &str) -> (c: Option<Candidate>)
        requires
            self.wf(),
        ensures
            c == vote_of(self.cached_votes(), voter_id@),
    {
        self.votes_cache.get_vote(voter_id)
    }

    /// The candidates with votes and their counts, in declaration order.
    pub fn get_tally(&self) -> (t: Vec<(Candidate, usize)>)
        requires
            self.wf(),
        ensures
            t@ == crate::vote_cache::tally_entries(self.cached_counts(), 6),
    {
        self.votes_cache.tally()
    }

    /// The tally as `candidate:count` entries joined by commas.
    pub fn tally_report(&self) -> (s: String)
        requires
            self.wf(),
        ensures
            s@ == crate::report::tally_text(crate::vote_cache::tally_entries(self.cached_counts(), 6)),
    {
        let t = self.votes_cache.tally();
        crate::report::tally_report(t.as_slice())
    }

    /// The number of distinct voters in the vote cache.
    pub fn get_total_votes(&self) -> (n: usize)
        ensures
            n == self.cached_votes().len(),
    {
        self.votes_cache.total_votes()
    }

    /// The known peer addresses.
    pub fn get_known_peers(&self) -> (v: Vec<Peer>)
        ensures
            v@ == self.peer_list(),
    {
        let peers = self.known_peers.peers();
        let mut v: Vec<Peer> = Vec::new();
        let mut i: usize = 0;
        while i < peers.len()
            invariant
                i <= peers@.len(),
                v@ == peers@.take(i as int),
            decreases peers.len() - i,
        {
            assert(peers@.take((i + 1) as int) =~= peers@.take(i as int).push(peers@[i as int]));
            v.push(peers[i]);
            i = i + 1;
        }
        assert(peers@.take(peers@.len() as int) =~= peers@);
        v
    }

    /// A vote handed to the node for mining: dropped when the voter is already on the
    /// chain or already queued, queued otherwise.
    pub fn add_mining_task(&mut self, mining_task: MiningTask) -> (outcome: MiningTaskOutcome)
        requires
            old(self).wf(),
        ensures
            final(self).wf(),
            final(self).identity() == old(self).identity(),
            outcome == if ids_contain(old(self).seen(), mining_task.voter_id@) {
                MiningTaskOutcome::AlreadyVoted
            } else if crate::mining_pool::has_voter(old(self).pool(), mining_task.voter_id@) {
                MiningTaskOutcome::AlreadyQueued
            } else {
                MiningTaskOutcome::Queued
            },
            outcome == MiningTaskOutcome::Queued ==> final(self).pool() == old(self).pool().push(
                mining_task@,
            ),
            outcome != MiningTaskOutcome::Queued ==> final(self).pool() == old(self).pool(),
            final(self).spec_chain() == old(self).spec_chain(),
            final(self).seen() == old(self).seen(),
            final(self).cached_votes() == old(self).cached_votes(),
            final(self).cached_counts() == old(self).cached_counts(),
            final(self).peer_entries() == old(self).peer_entries(),
            final(self).peer_list() == old(self).peer_list(),
    {
        if contains_id(self.seen_voter_ids.as_slice(), &mining_task.voter_id) {
            return MiningTaskOutcome::AlreadyVoted;
        }
        if self.mining_pool.add_task(mining_task) {
            MiningTaskOutcome::Queued
        } else {
            MiningTaskOutcome::AlreadyQueued
        }
    }

    /// Takes the next vote to mine, most recent first, dropping those whose voter is
    /// already on the chain, and pairs it with the chain tip.
    pub fn next_mining_job(&mut self) -> (job: Option<MiningJob>)
        requires
            old(self).wf(),
        ensures
            final(self).wf(),
            final(self).identity() == old(self).identity(),
            final(self).pool() == skip_voted(old(self).pool(), old(self).seen()).0,
            job is None <==> skip_voted(old(self).pool(), old(self).seen()).1 is None,
            job is None ==> forall|i: int| 0 <= i < old(self).pool().len() ==> ids_contain(
                old(self).seen(),
                #[trigger] old(self).pool()[i].0,
            ),
            job matches Some(j) ==> !ids_contain(old(self).seen(), j.task.voter_id@),
            job matches Some(j) ==> {
                &&& Some(j.task@) == skip_voted(old(self).pool(), old(self).seen()).1
                &&& (j.last_block is None <==> old(self).spec_chain().len() == 0)
                &&& (j.last_block matches Some(b) ==> b@ == old(self).spec_chain().last())
                &&& j.last_idx == if old(self).spec_chain().len() > 0 {
                    old(self).spec_chain().len() - 1
                } else {
                    0
                }
            },
            final(self).spec_chain() == old(self).spec_chain(),
            final(self).seen() == old(self).seen(),
            final(self).cached_votes() == old(self).cached_votes(),
            final(self).cached_counts() == old(self).cached_counts(),
            final(self).peer_entries() == old(self).peer_entries(),
            final(self).peer_list() == old(self).peer_list(),
    {
        loop
            invariant
                self.wf(),
                self.identity() == old(self).identity(),
                skip_voted(self.pool(), self.seen()) == skip_voted(old(self).pool(), old(self).seen()),
                self.spec_chain() == old(self).spec_chain(),
                self.seen() == old(self).seen(),
                self.cached_votes() == old(self).cached_votes(),
                self.cached_counts() == old(self).cached_counts(),
                self.peer_entries() == old(self).peer_entries(),
                self.peer_list() == old(self).peer_list(),
            decreases self.pool().len(),
        {
            let task = match self.mining_pool.take_last() {
                Some(t) => t,
                None => {
                    proof {
                        lemma_skip_voted_finds_unseen(old(self).pool(), old(self).seen());
                    }
                    return None;
                },
            };
            if contains_id(self.seen_voter_ids.as_slice(), &task.voter_id) {
                continue;
            }
            let len = self.chain.len();
            let last_block = match self.chain.last() {
                Some(b) => Some(b.clone()),
                None => None,
            };
            let last_idx = if len > 0 {
                len - 1
            } else {
                0
            };
            proof {
                lemma_skip_voted_finds_unseen(old(self).pool(), old(self).seen());
            }
            return Some(MiningJob { task, last_block, last_idx });
        }
    }

    /// Offers a block to the chain (see `Chain::validate_addition`); an accepted block
    /// is appended, its voter marked as seen and its vote cached and counted.
    pub fn add_block_to_chain(&mut self, block: Block) -> (r: ValidateChainRes)
        requires
            old(self).wf(),
        ensures
            final(self).wf(),
            final(self).identity() == old(self).identity(),
            r == addition_check(old(self).seen(), old(self).spec_chain(), block@),
            r == ValidateChainRes::AddBlock ==> {
                &&& final(self).spec_chain() == old(self).spec_chain().push(block@)
                &&& final(self).seen().len() == old(self).seen().len() + 1
                &&& forall|id: Seq<char>| ids_contain(final(self).seen(), id) == (ids_contain(
                    old(self).seen(),
                    id,
                ) || id == block@.voter_id)
                &&& vote_of(final(self).cached_votes(), block@.voter_id) == match vote_of(
                    old(self).cached_votes(),
                    block@.voter_id,
                ) {
                    Some(c) => Some(c),
                    None => Some(block@.data),
                }
                &&& forall|id: Seq<char>| id != block@.voter_id ==> vote_of(final(self).cached_votes(), id)
                    == vote_of(old(self).cached_votes(), id)
                &&& final(self).cached_counts().len() == 6
                &&& forall|k: int|
                    0 <= k < 6 ==> #[trigger] final(self).cached_counts()[k] == old(self).cached_counts()[k]
                        + if vote_of(old(self).cached_votes(), block@.voter_id) is None && block@.data.index()
                        == k {
                        1int
                    } else {
                        0int
                    }
            },
            r != ValidateChainRes::AddBlock ==> {
                &&& final(self).spec_chain() == old(self).spec_chain()
                &&& final(self).seen() == old(self).seen()
                &&& final(self).cached_votes() == old(self).cached_votes()
                &&& final(self).cached_counts() == old(self).cached_counts()
            },
            r == ValidateChainRes::AddBlock ==> vote_of(old(self).cached_votes(), block@.voter_id) is None,
            r == ValidateChainRes::AddBlock ==> vote_of(final(self).cached_votes(), block@.voter_id) == Some(
                block@.data,
            ),
            r == ValidateChainRes::AddBlock && old(self).consistent() ==> !chain_has_voter(
                old(self).spec_chain(),
                block@.voter_id,
            ),
            old(self).consistent() ==> final(self).consistent(),
            old(self).consistent() && well_linked(old(self).spec_chain()) ==> well_linked(
                final(self).spec_chain(),
            ),
            final(self).pool() == old(self).pool(),
            final(self).peer_entries() == old(self).peer_entries(),
            final(self).peer_list() == old(self).peer_list(),
    {
        let result = Chain::validate_addition(
            self.seen_voter_ids.as_slice(),
            self.chain.blocks(),
            &block,
        );
        proof {
            if result == ValidateChainRes::AddBlock {
                reveal(votes_within_seen);
                assert(!ids_contain(old(self).seen(), block@.voter_id));
            }
        }
        match result {
            ValidateChainRes::AddBlock => {
                let ghost bv = block@;
                let voter_id = block.voter_id.clone();
                let candidate = block.data;
                self.chain.push(block);
                self.seen_voter_ids.push(voter_id.clone());
                self.votes_cache.record_vote(voter_id, candidate);
                proof {
                    let old_seen = old(self).seen();
                    assert forall|id: Seq<char>| ids_contain(self.seen(), id) == (ids_contain(old_seen, id)
                        || id == bv.voter_id) by {
                        if ids_contain(old_seen, id) {
                            let k = choose|k: int| 0 <= k < old_seen.len() && old_seen[k]@ == id;
                            assert(self.seen()[k] == old_seen[k]);
                        }
                        if id == bv.voter_id {
                            assert(self.seen()[old_seen.len() as int]@ == id);
                        }
                        if ids_contain(self.seen(), id) {
                            let k = choose|k: int| 0 <= k < self.seen().len() && self.seen()[k]@ == id;
                            if k < old_seen.len() {
                                assert(old_seen[k] == self.seen()[k]);
                            }
                        }
                    }
                    assert(votes_within_seen(self.cached_votes(), self.seen())) by {
                        reveal(votes_within_seen);
                        assert forall|id: Seq<char>| #[trigger] vote_of(self.cached_votes(), id) is Some implies ids_contain(
                            self.seen(),
                            id,
                        ) by {
                            if id != bv.voter_id {
                                assert(vote_of(old(self).cached_votes(), id) is Some);
                            }
                        }
                    }
                    let old_chain = old(self).spec_chain();
                    let new_chain = self.spec_chain();
                    assert(new_chain.drop_last() =~= old_chain);
                    lemma_chain_push_voters(old_chain, bv);
                    if old(self).consistent() {
                        assert(!ids_contain(old_seen, bv.voter_id));
                        assert(!chain_has_voter(old_chain, bv.voter_id));
                        lemma_chain_vote_some(old_chain, bv.voter_id);
                        assert forall|id: Seq<char>| ids_contain(self.seen(), id) == chain_has_voter(
                            new_chain,
                            id,
                        ) by {
                            assert(chain_has_voter(old_chain.push(bv), id) == (chain_has_voter(old_chain, id)
                                || id == bv.voter_id));
                        }
                        assert forall|id: Seq<char>| vote_of(self.cached_votes(), id) == chain_vote(
                            new_chain,
                            id,
                        ) by {}
                        assert(new_chain.last() == bv);
                        assert forall|k: int| 0 <= k < 6 implies #[trigger] self.cached_counts()[k]
                            == chain_tally(new_chain, k) by {
                            assert(chain_tally(new_chain, k) == chain_tally(old_chain, k) + if bv.data.index()
                                == k {
                                1nat
                            } else {
                                0nat
                            });
                        }
                        if well_linked(old_chain) {
                            assert forall|j: int| 0 <= j < old_chain.len() implies ids_contain(
                                old_seen,
                                #[trigger] old_chain[j].voter_id,
                            ) by {
                                assert(chain_has_voter(old_chain, old_chain[j].voter_id));
                            }
                            crate::chain::lemma_addition_keeps_linked(old_seen, old_chain, bv);
                        }
                    }
                }
            },
            _ => {},
        }
        result
    }

    /// What syncing to an offered chain does, as a relation between the state before
    /// (`self`) and after (`post`), the offered chain, the sender, the ids the sender
    /// already sent it to, and the result (see `sync_chain`).
    pub open spec fn synced(
        self,
        post: NodeState,
        offered: Seq<BlockView>,
        sender: Seq<char>,
        already_sent: Seq<String>,
        r: Result<Vec<String>, ChainError>,
    ) -> bool {
        &&& post.wf()
        &&& post.identity() == self.identity()
        &&& (r matches Err(e) ==> chain_check(offered, self.spec_chain()) == Err::<(), ChainError>(e))
        &&& (r is Ok <==> chain_check(offered, self.spec_chain()) is Ok)
        &&& (r is Err ==> {
            &&& post.spec_chain() == self.spec_chain()
            &&& post.seen() == self.seen()
            &&& post.cached_votes() == self.cached_votes()
            &&& post.cached_counts() == self.cached_counts()
            &&& post.peer_entries() == self.peer_entries()
        })
        &&& (r matches Ok(ignore) ==> {
            let digest = chain_digest(offered);
            let updated = set_digest(self.peer_entries(), sender, digest);
            &&& post.spec_chain() == offered
            &&& post.consistent()
            &&& well_linked(post.spec_chain())
            &&& post.peer_entries().len() == updated.len()
            &&& forall|i: int| 0 <= i < updated.len() ==> #[trigger] post.peer_entries()[i] == (
                updated[i].0,
                updated[i].1,
                digest,
            )
            &&& strings_view(ignore@) == ids_with_digest(updated, digest) + strings_view(already_sent)
        })
        &&& post.pool() == self.pool()
        &&& post.peer_list() == self.peer_list()
    }

    /// A chain pushed by peer `sender_node_id`, which has already sent it on to the
    /// peers in `already_sent`. When `Chain::validate` accepts it, it replaces the local
    /// chain, the seen voters and the vote cache are rebuilt from it, the sender's
    /// entry and then every entry get the new chain digest, and the ids to skip when
    /// pushing the chain on are returned: those whose digest already was the new one
    /// (after the sender's update), followed by `already_sent`. A refused chain
    /// changes nothing.
    #[verifier::rlimit(40)]
    pub fn sync_chain(&mut self, new_chain: Vec<Block>, sender_node_id: String, already_sent: Vec<
        String,
    >) -> (r: Result<Vec<String>, ChainError>)
        requires
            old(self).wf(),
            chain_check(view_blocks(new_chain@), old(self).spec_chain()) is Ok ==> chain_fits(
                view_blocks(new_chain@),
            ),
        ensures
            old(self).synced(*final(self), view_blocks(new_chain@), sender_node_id@, already_sent@, r),
    {
        let validation = Chain::validate(new_chain.as_slice(), self.chain.blocks());
        match validation {
            Err(e) => {
                return Err(e);
            },
            Ok(()) => {},
        }
        let ghost nv = view_blocks(new_chain@);
        proof {
            crate::chain::lemma_accepted_chain_linked(nv, old(self).spec_chain());
        }
        let (seen, cache) = rebuild_voters(&new_chain);
        self.seen_voter_ids = seen;
        self.votes_cache = cache;
        self.chain.clear();
        self.chain.extend(new_chain);
        assert(self.chain@ =~= nv);
        let chain_hash = self.chain.hash();
        let ghost digest = chain_hash@;
        self.known_peers.update_chain_hash(sender_node_id.as_str(), chain_hash.clone());
        let ghost updated = self.known_peers.entries();
        assert(updated == set_digest(old(self).peer_entries(), sender_node_id@, digest));
        let entries = self.known_peers.as_entries_with_hash();
        let mut peers_to_ignore: Vec<String> = Vec::new();
        let mut j: usize = 0;
        while j < entries.len()
            invariant
                j <= entries@.len(),
                entries@.len() == updated.len(),
                forall|k: int| 0 <= k < entries@.len() ==> (#[trigger] entries@[k]).0 == updated[k].1
                    && entries@[k].1@ == updated[k].0 && entries@[k].2@ == updated[k].2,
                chain_hash@ == digest,
                strings_view(peers_to_ignore@) == ids_with_digest(updated.take(j as int), digest),
            decreases entries.len() - j,
        {
            let ghost before = peers_to_ignore@;
            proof {
                assert(updated.take((j + 1) as int).drop_last() =~= updated.take(j as int));
                assert(updated.take((j + 1) as int).last() == updated[j as int]);
            }
            if entries[j].2 == chain_hash {
                peers_to_ignore.push(entries[j].1.clone());
                assert(strings_view(peers_to_ignore@) =~= strings_view(before).push(updated[j as int].0));
            }
            j = j + 1;
        }
        assert(updated.take(entries@.len() as int) =~= updated);
        self.known_peers.update_chain_hash_all(chain_hash);
        let ghost listed = peers_to_ignore@;
        let mut rest = already_sent;
        let ghost sent = rest@;
        peers_to_ignore.append(&mut rest);
        assert(strings_view(peers_to_ignore@) =~= strings_view(listed) + strings_view(sent));
        Ok(peers_to_ignore)
    }

    /// Syncs to a pushed chain (see `sync_chain`) once it is known to be serialisable:
    /// a chain that `Chain::validate` accepts but that `Chain::fits` refuses is left
    /// aside, with nothing changed, and `None` comes back.
    pub fn sync_chain_checked(
        &mut self,
        new_chain: Vec<Block>,
        sender_node_id: String,
        already_sent: Vec<String>,
    ) -> (r: Option<Result<Vec<String>, ChainError>>)
        requires
            old(self).wf(),
        ensures
            r is None <==> (chain_check(view_blocks(new_chain@), old(self).spec_chain()) is Ok
                && !chain_fits(view_blocks(new_chain@))),
            r is None ==> *final(self) == *old(self),
            r matches Some(res) ==> old(self).synced(
                *final(self),
                view_blocks(new_chain@),
                sender_node_id@,
                already_sent@,
                res,
            ),
    {
        let accepted = match Chain::validate(new_chain.as_slice(), self.chain.blocks()) {
            Ok(()) => true,
            Err(_) => false,
        };
        if accepted && !Chain::fits(new_chain.as_slice()) {
            return None;
        }
        Some(self.sync_chain(new_chain, sender_node_id, already_sent))
    }

    /// The address and id the node announces itself with when joining: its public IP
    /// with the port it listens on, and its node id.
    pub fn discovery_announcement(&self) -> (a: (Peer, String))
        ensures
            a.0 == (Peer { ip: self.spec_public_ip(), port: self.spec_self_as_peer().port }),
            a.1@ == self.spec_node_id(),
    {
        (Peer { ip: self.public_ip, port: self.self_as_peer.port }, self.node_id.clone())
    }

    /// Records a peer learnt of (from a discovery request or answer): taken when it is
    /// not the node itself and its address is not known yet. Returns whether it was
    /// taken.
    pub fn add_peer_serializable(&mut self, peer: Peer, id: String) -> (added: bool)
        requires
            old(self).wf(),
        ensures
            final(self).wf(),
            final(self).identity() == old(self).identity(),
            added == (peer != old(self).spec_self_as_peer() && !spec_peer_exists(
                old(self).peer_list(),
                peer,
            )),
            (final(self).peer_list(), final(self).peer_entries()) == absorb(
                (old(self).peer_list(), old(self).peer_entries()),
                old(self).spec_self_as_peer(),
                peer,
                id@,
            ),
            added ==> final(self).peer_list() == old(self).peer_list().push(peer),
            added ==> (find_id(final(self).peer_entries(), id@) matches Some(i)
                && final(self).peer_entries()[i] == (id@, peer, Seq::<char>::empty())),
            crate::known_peers::ids_unique(final(self).peer_entries()),
            final(self).spec_chain() == old(self).spec_chain(),
            final(self).seen() == old(self).seen(),
            final(self).cached_votes() == old(self).cached_votes(),
            final(self).cached_counts() == old(self).cached_counts(),
            final(self).pool() == old(self).pool(),
            final(self).spec_self_as_peer() == old(self).spec_self_as_peer(),
    {
        proof {
            crate::known_peers::lemma_insert_entry_lookup(old(self).peer_entries(), id@, peer);
        }
        if peer == self.self_as_peer {
            return false;
        }
        if peer_exists(self.known_peers.peers().as_slice(), &peer) {
            return false;
        }
        self.known_peers.add_peer(peer, id);
        true
    }

    /// Records each peer of an announced list in turn (see `add_peer_serializable`).
    /// Returns whether the address list grew.
    pub fn add_multiple_peer(&mut self, peers: &[(Peer, String)]) -> (grew: bool)
        requires
            old(self).wf(),
        ensures
            final(self).wf(),
            final(self).identity() == old(self).identity(),
            (final(self).peer_list(), final(self).peer_entries()) == absorb_all(
                (old(self).peer_list(), old(self).peer_entries()),
                old(self).spec_self_as_peer(),
                peers@,
            ),
            grew == (final(self).peer_list().len() > old(self).peer_list().len()),
            final(self).spec_chain() == old(self).spec_chain(),
            final(self).seen() == old(self).seen(),
            final(self).cached_votes() == old(self).cached_votes(),
            final(self).cached_counts() == old(self).cached_counts(),
            final(self).pool() == old(self).pool(),
    {
        let old_len = self.known_peers.peers().len();
        let mut i: usize = 0;
        while i < peers.len()
            invariant
                self.wf(),
                self.identity() == old(self).identity(),
                i <= peers@.len(),
                self.spec_self_as_peer() == old(self).spec_self_as_peer(),
                (self.peer_list(), self.peer_entries()) == absorb_all(
                    (old(self).peer_list(), old(self).peer_entries()),
                    old(self).spec_self_as_peer(),
                    peers@.take(i as int),
                ),
                self.peer_list().len() >= old(self).peer_list().len(),
                old_len == old(self).peer_list().len(),
                self.spec_chain() == old(self).spec_chain(),
                self.seen() == old(self).seen(),
                self.cached_votes() == old(self).cached_votes(),
                self.cached_counts() == old(self).cached_counts(),
                self.pool() == old(self).pool(),
            decreases peers.len() - i,
        {
            proof {
                assert(peers@.take((i + 1) as int).drop_last() =~= peers@.take(i as int));
                assert(peers@.take((i + 1) as int).last() == peers@[i as int]);
            }
            let p = peers[i].0;
            let id = peers[i].1.clone();
            self.add_peer_serializable(p, id);
            i = i + 1;
        }
        assert(peers@.take(peers@.len() as int) =~= peers@);
        self.known_peers.peers().len() > old_len
    }

    /// The peers to push the chain to, the table entries whose id is not in
    /// `ignore_peers`, as the list of their addresses, and the list of ids to pass on
    /// as already sent: the ids of those entries followed by `already_sent`, so that
    /// the list grows at each hop.
    pub fn push_chain_targets(&self, ignore_peers: &[String], already_sent: &[String]) -> (t: (
        Vec<Peer>,
        Vec<String>,
    ))
        ensures
            t.0@.len() == push_targets(self.peer_entries(), ignore_peers@).len(),
            forall|i: int| 0 <= i < t.0@.len() ==> t.0@[i] == push_targets(self.peer_entries(), ignore_peers@)[i].0,
            strings_view(t.1@) == push_targets(self.peer_entries(), ignore_peers@).map_values(
                |e: (Peer, Seq<char>)| e.1,
            ) + strings_view(already_sent@),
    {
        let ghost m = self.known_peers.entries();
        let entries = self.known_peers.as_entries();
        let mut peers: Vec<Peer> = Vec::new();
        let mut ids: Vec<String> = Vec::new();
        let mut j: usize = 0;
        while j < entries.len()
            invariant
                j <= entries@.len(),
                m == self.peer_entries(),
                entries@.len() == m.len(),
                forall|k: int| 0 <= k < entries@.len() ==> (#[trigger] entries@[k]).0 == m[k].1
                    && entries@[k].1@ == m[k].0,
                peers@.len() == push_targets(m.take(j as int), ignore_peers@).len(),
                ids@.len() == push_targets(m.take(j as int), ignore_peers@).len(),
                forall|k: int| 0 <= k < peers@.len() ==> peers@[k] == push_targets(m.take(j as int), ignore_peers@)[k].0,
                forall|k: int| 0 <= k < ids@.len() ==> ids@[k]@ == push_targets(m.take(j as int), ignore_peers@)[k].1,
            decreases entries.len() - j,
        {
            proof {
                assert(m.take((j + 1) as int).drop_last() =~= m.take(j as int));
                assert(m.take((j + 1) as int).last() == m[j as int]);
            }
            if !contains_id(ignore_peers, &entries[j].1) {
                peers.push(entries[j].0);
                ids.push(entries[j].1.clone());
            }
            j = j + 1;
        }
        assert(m.take(m.len() as int) =~= m);
        let ghost targets = push_targets(m, ignore_peers@).map_values(|e: (Peer, Seq<char>)| e.1);
        assert(strings_view(ids@) =~= targets);
        let mut k: usize = 0;
        while k < already_sent.len()
            invariant
                k <= already_sent@.len(),
                strings_view(ids@) == targets + strings_view(already_sent@.take(k as int)),
            decreases already_sent.len() - k,
        {
            let ghost before = ids@;
            ids.push(already_sent[k].clone());
            assert(strings_view(already_sent@.take((k + 1) as int)) =~= strings_view(
                already_sent@.take(k as int),
            ).push(already_sent@[k as int]@));
            assert(strings_view(ids@) =~= strings_view(before).push(already_sent@[k as int]@));
            k = k + 1;
        }
        assert(already_sent@.take(already_sent@.len() as int) =~= already_sent@);
        (peers, ids)
    }

    /// Forgets every peer that could not be reached, by address. Returns whether any of
    /// them was known.
    pub fn remove_failed_peers(&mut self, failed: &[Peer]) -> (removed: bool)
        requires
            old(self).wf(),
        ensures
            final(self).wf(),
            final(self).identity() == old(self).identity(),
            final(self).peer_list() == peers_without(old(self).peer_list(), failed@),
            final(self).peer_entries() == entries_without(old(self).peer_entries(), failed@),
            removed == exists|i: int| 0 <= i < failed@.len() && spec_peer_exists(old(self).peer_list(), failed@[i]),
            final(self).spec_chain() == old(self).spec_chain(),
            final(self).seen() == old(self).seen(),
            final(self).cached_votes() == old(self).cached_votes(),
            final(self).cached_counts() == old(self).cached_counts(),
            final(self).pool() == old(self).pool(),
    {
        let ghost start = old(self).peer_list();
        let mut removed = false;
        let mut i: usize = 0;
        while i < failed.len()
            invariant
                self.wf(),
                self.identity() == old(self).identity(),
                i <= failed@.len(),
                start == old(self).peer_list(),
                self.peer_list() == peers_without(start, failed@.take(i as int)),
                self.peer_entries() == entries_without(old(self).peer_entries(), failed@.take(i as int)),
                removed == exists|j: int| 0 <= j < i && spec_peer_exists(start, failed@[j]),
                self.spec_chain() == old(self).spec_chain(),
                self.seen() == old(self).seen(),
                self.cached_votes() == old(self).cached_votes(),
                self.cached_counts() == old(self).cached_counts(),
                self.pool() == old(self).pool(),
            decreases failed.len() - i,
        {
            let f = failed[i];
            proof {
                assert(failed@.take((i + 1) as int).drop_last() =~= failed@.take(i as int));
                assert(failed@.take((i + 1) as int).last() == f);
                lemma_peers_without_exists(start, failed@.take(i as int), f);
            }
            let r = self.known_peers.remove_peer_with_peer(&f);
            proof {
                if spec_peer_exists(start, f) && failed@.take(i as int).contains(f) {
                    let k = choose|k: int| 0 <= k < i && failed@.take(i as int)[k] == f;
                    assert(failed@[k] == f);
                }
            }
            removed = removed || r;
            i = i + 1;
        }
        assert(failed@.take(failed@.len() as int) =~= failed@);
        removed
    }

    /// Handles a block that mining produced: offers it to the chain and, when it lost
    /// the race for its slot, queues its vote again.
    pub fn on_block_mined(&mut self, block: Block) -> (r: ValidateChainRes)
        requires
            old(self).wf(),
        ensures
            final(self).wf(),
            final(self).identity() == old(self).identity(),
            r == addition_check(old(self).seen(), old(self).spec_chain(), block@),
            r == ValidateChainRes::AttemptedLateAdd && crate::mining_pool::has_voter(
                old(self).pool(),
                block@.voter_id,
            ) ==> final(self).pool() == old(self).pool(),
            r == ValidateChainRes::AttemptedLateAdd && !crate::mining_pool::has_voter(
                old(self).pool(),
                block@.voter_id,
            ) ==> final(self).pool() == old(self).pool().push((block@.voter_id, block@.data)),
            r != ValidateChainRes::AttemptedLateAdd ==> final(self).pool() == old(self).pool(),
            r == ValidateChainRes::AddBlock ==> final(self).spec_chain() == old(self).spec_chain().push(
                block@,
            ),
            r == ValidateChainRes::AddBlock ==> final(self).cached_counts().len() == 6,
            r == ValidateChainRes::AddBlock ==> forall|k: int|
                0 <= k < 6 ==> #[trigger] final(self).cached_counts()[k] == old(self).cached_counts()[k]
                    + if vote_of(old(self).cached_votes(), block@.voter_id) is None && block@.data.index()
                    == k {
                    1int
                } else {
                    0int
                },
            r == ValidateChainRes::AddBlock ==> vote_of(old(self).cached_votes(), block@.voter_id) is None,
            r == ValidateChainRes::AddBlock ==> vote_of(final(self).cached_votes(), block@.voter_id) == Some(
                block@.data,
            ),
            r != ValidateChainRes::AddBlock ==> {
                &&& final(self).spec_chain() == old(self).spec_chain()
                &&& final(self).seen() == old(self).seen()
                &&& final(self).cached_votes() == old(self).cached_votes()
                &&& final(self).cached_counts() == old(self).cached_counts()
            },
            old(self).consistent() ==> final(self).consistent(),
            old(self).consistent() && well_linked(old(self).spec_chain()) ==> well_linked(
                final(self).spec_chain(),
            ),
            final(self).peer_entries() == old(self).peer_entries(),
            final(self).peer_list() == old(self).peer_list(),
    {
        let requeue_task = MiningTask { voter_id: block.voter_id.clone(), candidate: block.data };
        let r = self.add_block_to_chain(block);
        if r == ValidateChainRes::AttemptedLateAdd {
            self.mining_pool.requeue(requeue_task);
        }
        r
    }
}

} // verus!
