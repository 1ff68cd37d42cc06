//! Per-voter votes and per-candidate tallies, kept beside the chain so that lookups
//! need no scan of it.
use vstd::prelude::*;

use crate::block::Candidate;

verus! {

/// The position of the first entry for `id`, if any.
pub open spec fn find_voter(votes: Seq<(Seq<char>, Candidate)>, id: Seq<char>) -> Option<int>
    decreases votes.len(),
{
    if votes.len() == 0 {
        None
    } else {
        match find_voter(votes.drop_last(), id) {
            Some(i) => Some(i),
            None => if votes.last().0 == id {
                Some(votes.len() - 1)
            } else {
                None
            },
        }
    }
}

/// The vote recorded for `id`.
pub open spec fn vote_of(votes: Seq<(Seq<char>, Candidate)>, id: Seq<char>) -> Option<Candidate> {
    match find_voter(votes, id) {
        Some(i) => Some(votes[i].1),
        None => None,
    }
}

/// Sum of the first `n` counts.
pub open spec fn sum_counts(counts: Seq<usize>, n: nat) -> int
    decreases n,
{
    if n == 0 || n > counts.len() {
        0
    } else {
        sum_counts(counts, (n - 1) as nat) + counts[n - 1]
    }
}

/// The candidates with at least one vote, in declaration order, with their counts.
pub open spec fn tally_entries(counts: Seq<usize>, n: nat) -> Seq<(Candidate, usize)>
    decreases n,
{
    if n == 0 {
        Seq::empty()
    } else {
        let rest = tally_entries(counts, (n - 1) as nat);
        match Candidate::spec_from_index((n - 1) as nat) {
            Some(c) => if counts[n - 1] > 0 {
                rest.push((c, counts[n - 1]))
            } else {
                rest
            },
            None => rest,
        }
    }
}

/// Number of recorded votes for the candidate with index `k`.
pub open spec fn count_for(votes: Seq<(Seq<char>, Candidate)>, k: int) -> nat
    decreases votes.len(),
{
    if votes.len() == 0 {
        0
    } else {
        count_for(votes.drop_last(), k) + if votes.last().1.index() == k {
            1nat
        } else {
            0nat
        }
    }
}

/// Sum of the counts of tally entries.
pub open spec fn sum_entries(e: Seq<(Candidate, usize)>) -> int
    decreases e.len(),
{
    if e.len() == 0 {
        0
    } else {
        sum_entries(e.drop_last()) + e.last().1
    }
}

/// Cached votes: voter id to candidate (the first vote recorded for the voter), and
/// for each candidate the number of voters whose vote it is.
pub struct VoteCache {
    votes_by_voter: Vec<(String, Candidate)>,
    tally: Vec<usize>,
}

impl VoteCache {
    /// The recorded votes, one entry per voter.
    pub closed spec fn votes(&self) -> Seq<(Seq<char>, Candidate)> {
        self.votes_by_voter@.map_values(|e: (String, Candidate)| (e.0@, e.1))
    }

    /// The count kept for each candidate, indexed by `Candidate::index`.
    pub closed spec fn counts(&self) -> Seq<usize> {
        self.tally@
    }

    /// The cache's invariant: one entry per voter, six counts, each the number of
    /// recorded votes for its candidate, and the counts add up to the number of voters.
    pub closed spec fn wf(&self) -> bool {
        &&& self.tally@.len() == 6
        &&& forall|i: int, j: int|
            0 <= i < j < self.votes_by_voter@.len() ==> self.votes_by_voter@[i].0@
                != self.votes_by_voter@[j].0@
        &&& sum_counts(self.tally@, 6) == self.votes_by_voter@.len()
        &&& forall|k: int| 0 <= k < 6 ==> self.tally@[k] == count_for(self.votes(), k)
    }

    pub fn new() -> (c: Self)
        ensures
            c.wf(),
            c.votes() == Seq::<(Seq<char>, Candidate)>::empty(),
            c.counts() == seq![0usize, 0usize, 0usize, 0usize, 0usize, 0usize],
    {
        let mut tally: Vec<usize> = Vec::new();
        tally.push(0);
        tally.push(0);
        tally.push(0);
        tally.push(0);
        tally.push(0);
        tally.push(0);
        let c = VoteCache { votes_by_voter: Vec::new(), tally };
        proof {
            reveal_with_fuel(sum_counts, 7);
        }
        assert(c.votes() =~= Seq::<(Seq<char>, Candidate)>::empty());
        assert forall|k: int| 0 <= k < 6 implies c.tally@[k] == count_for(c.votes(), k) by {}
        assert(c.counts() =~= seq![0usize, 0usize, 0usize, 0usize, 0usize, 0usize]);
        c
    }

    /// Position of `voter_id` in the vote list.
    fn position(&self, voter_id: &String) -> (p: Option<usize>)
        requires
            self.wf(),
        ensures
            p matches Some(i) ==> find_voter(self.votes(), voter_id@) == Some(i as int),
            p matches Some(i) ==> i < self.votes_by_voter@.len(),
            p is None ==> find_voter(self.votes(), voter_id@) is None,
    {
        let mut i: usize = 0;
        while i < self.votes_by_voter.len()
            invariant
                i <= self.votes_by_voter.len(),
                find_voter(self.votes().take(i as int), voter_id@) is None,
            decreases self.votes_by_voter.len() - i,
        {
            proof {
                assert(self.votes().take((i + 1) as int).drop_last() =~= self.votes().take(i as int));
            }
            if self.votes_by_voter[i].0 == *voter_id {
                proof {
                    lemma_find_voter_prefix(self.votes(), voter_id@, (i + 1) as nat);
                }
                return Some(i);
            }
            i = i + 1;
        }
        assert(self.votes().take(i as int) =~= self.votes());
        None
    }

    /// Records a vote. A voter seen for the first time is stored and counted for the
    /// candidate; a voter already recorded keeps the first vote and nothing changes.
    pub fn record_vote(&mut self, voter_id: String, candidate: Candidate)
        requires
            old(self).wf(),
        ensures
            final(self).wf(),
            vote_of(final(self).votes(), voter_id@) == match vote_of(old(self).votes(), voter_id@) {
                Some(c) => Some(c),
                None => Some(candidate),
            },
            vote_of(old(self).votes(), voter_id@) is None ==> final(self).votes() == old(self).votes().push(
                (voter_id@, candidate),
            ),
            forall|id: Seq<char>| id != voter_id@ ==> vote_of(final(self).votes(), id) == vote_of(
                old(self).votes(),
                id,
            ),
            vote_of(old(self).votes(), voter_id@) is None ==> final(self).votes().len()
                == old(self).votes().len() + 1,
            vote_of(old(self).votes(), voter_id@) is Some ==> final(self).votes() == old(self).votes(),
            final(self).counts().len() == 6,
            forall|k: int|
                0 <= k < 6 ==> #[trigger] final(self).counts()[k] == old(self).counts()[k] + if vote_of(
                    old(self).votes(),
                    voter_id@,
                ) is None && candidate.index() == k {
                    1int
                } else {
                    0int
                },
    {
        proof {
            lemma_find_voter_in_range(self.votes(), voter_id@);
        }
        match self.position(&voter_id) {
            Some(_) => {},
            None => {
                let ghost old_votes = self.votes();
                let ghost id = voter_id@;
                let k = candidate.tag() as usize;
                let old_len = self.votes_by_voter.len();
                self.votes_by_voter.push((voter_id, candidate));
                proof {
                    assert(self.votes() =~= old_votes.push((id, candidate)));
                    lemma_find_voter_push(old_votes, id, candidate);
                    lemma_sum_counts_bound(self.tally@, 6, k as int);
                    assert forall|other: Seq<char>| other != id implies vote_of(self.votes(), other)
                        == vote_of(old_votes, other) by {
                        lemma_find_voter_in_range(old_votes, other);
                    }
                    lemma_find_voter_in_range(old_votes, id);
                    assert forall|a: int, b: int|
                        0 <= a < b < self.votes_by_voter@.len() implies self.votes_by_voter@[a].0@
                        != self.votes_by_voter@[b].0@ by {
                        assert(self.votes_by_voter@[a].0@ == self.votes()[a].0);
                        assert(self.votes_by_voter@[b].0@ == self.votes()[b].0);
                        if b < old_votes.len() {
                            assert(old_votes[a].0 == old(self).votes_by_voter@[a].0@);
                            assert(old_votes[b].0 == old(self).votes_by_voter@[b].0@);
                        }
                    }
                }
                let new_len = self.votes_by_voter.len();
                assert(new_len == old_len + 1);
                let count = self.tally[k];
                self.tally.set(k, count + 1);
                proof {
                    lemma_sum_counts_update(old(self).tally@, 6, k as int, (count + 1) as usize);
                    assert(old_votes.push((id, candidate)).drop_last() =~= old_votes);
                    assert forall|j: int| 0 <= j < 6 implies self.tally@[j] == count_for(self.votes(), j) by {
                        assert(count_for(self.votes(), j) == count_for(old_votes, j) + if candidate.index() == j {
                            1nat
                        } else {
                            0nat
                        });
                    }
                }
            },
        }
    }

    /// The candidate recorded for `voter_id`, if any.
    pub fn get_vote(&self, voter_id: &str) -> (c: Option<Candidate>)
        requires
            self.wf(),
        ensures
            c == vote_of(self.votes(), voter_id@),
    {
        let id = voter_id.to_owned();
        match self.position(&id) {
            Some(i) => {
                assert(self.votes()[i as int].1 == self.votes_by_voter@[i as int].1);
                Some(self.votes_by_voter[i].1)
            },
            None => None,
        }
    }

    /// The candidates that have votes, in declaration order, with their counts.
    pub fn tally(&self) -> (t: Vec<(Candidate, usize)>)
        requires
            self.wf(),
        ensures
            t@ == tally_entries(self.counts(), 6),
            forall|i: int| 0 <= i < t@.len() ==> #[trigger] t@[i].1 == count_for(self.votes(), t@[i].0.index() as int),
            forall|i: int| 0 <= i < t@.len() ==> #[trigger] t@[i].1 > 0,
    {
        proof {
            lemma_tally_entries_are_counts(self);
        }
        let mut t: Vec<(Candidate, usize)> = Vec::new();
        let mut i: usize = 0;
        while i < 6
            invariant
                i <= 6,
                self.tally@.len() == 6,
                t@ == tally_entries(self.counts(), i as nat),
            decreases 6 - i,
        {
            match Candidate::from_index(i) {
                Some(c) => {
                    if self.tally[i] > 0 {
                        t.push((c, self.tally[i]));
                    }
                },
                None => {},
            }
            i = i + 1;
        }
        t
    }

    /// The number of distinct voters recorded.
    pub fn total_votes(&self) -> (n: usize)
        ensures
            n == self.votes().len(),
    {
        self.votes_by_voter.len()
    }
}

proof fn lemma_find_voter_prefix(votes: Seq<(Seq<char>, Candidate)>, id: Seq<char>, n: nat)
    requires
        1 <= n <= votes.len(),
        find_voter(votes.take(n - 1), id) is None,
        votes[n - 1].0 == id,
    ensures
        find_voter(votes, id) == Some(n - 1),
    decreases votes.len(),
{
    assert(votes.take(n as int).drop_last() =~= votes.take(n - 1));
    if n < votes.len() {
        assert(votes.drop_last().take(n as int) =~= votes.take(n as int));
        assert(votes.drop_last().take(n - 1) =~= votes.take(n - 1));
        lemma_find_voter_prefix(votes.drop_last(), id, n);
    } else {
        assert(votes.take(n - 1) =~= votes.drop_last());
    }
}

proof fn lemma_find_voter_in_range(votes: Seq<(Seq<char>, Candidate)>, id: Seq<char>)
    ensures
        find_voter(votes, id) matches Some(i) ==> 0 <= i < votes.len() && votes[i].0 == id,
        find_voter(votes, id) is None ==> forall|j: int| 0 <= j < votes.len() ==> votes[j].0 != id,
    decreases votes.len(),
{
    if votes.len() > 0 {
        lemma_find_voter_in_range(votes.drop_last(), id);
        assert forall|j: int| 0 <= j < votes.len() - 1 implies votes.drop_last()[j] == votes[j] by {}
    }
}

proof fn lemma_find_voter_push(votes: Seq<(Seq<char>, Candidate)>, id: Seq<char>, c: Candidate)
    requires
        find_voter(votes, id) is None,
    ensures
        find_voter(votes.push((id, c)), id) == Some(votes.len() as int),
        forall|other: Seq<char>| other != id ==> find_voter(votes.push((id, c)), other) == find_voter(votes, other),
{
    assert(votes.push((id, c)).drop_last() =~= votes);
    assert forall|other: Seq<char>| other != id implies find_voter(votes.push((id, c)), other)
        == find_voter(votes, other) by {
        assert(votes.push((id, c)).drop_last() =~= votes);
    }
}

proof fn lemma_sum_counts_bound(counts: Seq<usize>, n: nat, k: int)
    requires
        n <= counts.len(),
        0 <= k < n,
    ensures
        counts[k] <= sum_counts(counts, n),
    decreases n,
{
    lemma_sum_counts_nonneg(counts, (n - 1) as nat);
    if k < n - 1 {
        lemma_sum_counts_bound(counts, (n - 1) as nat, k);
    }
}

proof fn lemma_sum_counts_nonneg(counts: Seq<usize>, n: nat)
    ensures
        sum_counts(counts, n) >= 0,
    decreases n,
{
    if n > 0 && n <= counts.len() {
        lemma_sum_counts_nonneg(counts, (n - 1) as nat);
    }
}

proof fn lemma_sum_counts_update(counts: Seq<usize>, n: nat, k: int, v: usize)
    requires
        n <= counts.len(),
        0 <= k < n,
    ensures
        sum_counts(counts.update(k, v), n) == sum_counts(counts, n) - counts[k] + v,
    decreases n,
{
    if k < n - 1 {
        lemma_sum_counts_update(counts, (n - 1) as nat, k, v);
    } else {
        lemma_sum_counts_same_prefix(counts, counts.update(k, v), (n - 1) as nat);
    }
}

proof fn lemma_sum_counts_same_prefix(a: Seq<usize>, b: Seq<usize>, n: nat)
    requires
        n <= a.len(),
        n <= b.len(),
        forall|i: int| 0 <= i < n ==> a[i] == b[i],
    ensures
        sum_counts(a, n) == sum_counts(b, n),
    decreases n,
{
    if n > 0 {
        lemma_sum_counts_same_prefix(a, b, (n - 1) as nat);
    }
}

/// The counts always add up to the number of distinct voters recorded.
pub proof fn lemma_tally_sums_to_total(c: &VoteCache)
    requires
        c.wf(),
    ensures
        sum_counts(c.counts(), 6) == c.votes().len(),
{
}

/// The six counts, each the number of recorded votes for its candidate.
pub proof fn lemma_counts_match_votes(c: &VoteCache)
    requires
        c.wf(),
    ensures
        c.counts().len() == 6,
        forall|k: int| 0 <= k < 6 ==> c.counts()[k] == count_for(c.votes(), k),
{
}

proof fn lemma_tally_entries_sum(counts: Seq<usize>, n: nat)
    requires
        n <= 6,
        n <= counts.len(),
    ensures
        sum_entries(tally_entries(counts, n)) == sum_counts(counts, n),
        forall|i: int| 0 <= i < tally_entries(counts, n).len() ==> #[trigger] tally_entries(counts, n)[i].1 > 0,
    decreases n,
{
    if n > 0 {
        lemma_tally_entries_sum(counts, (n - 1) as nat);
        let rest = tally_entries(counts, (n - 1) as nat);
        if counts[n - 1] > 0 {
            assert(rest.push((Candidate::spec_from_index((n - 1) as nat)->0, counts[n - 1])).drop_last() =~= rest);
        }
    }
}

proof fn lemma_tally_entries_exact(counts: Seq<usize>, n: nat)
    requires
        n <= 6,
        n <= counts.len(),
    ensures
        forall|i: int|
            0 <= i < tally_entries(counts, n).len() ==> {
                let e = #[trigger] tally_entries(counts, n)[i];
                &&& e.0.index() < n
                &&& e.1 == counts[e.0.index() as int]
                &&& e.1 > 0
            },
        forall|i: int, j: int|
            0 <= i < j < tally_entries(counts, n).len() ==> tally_entries(counts, n)[i].0.index()
                < tally_entries(counts, n)[j].0.index(),
        forall|c: Candidate|
            c.index() < n && counts[c.index() as int] > 0 ==> exists|i: int|
                0 <= i < tally_entries(counts, n).len() && #[trigger] tally_entries(counts, n)[i].0 == c,
    decreases n,
{
    if n > 0 {
        lemma_tally_entries_exact(counts, (n - 1) as nat);
        let rest = tally_entries(counts, (n - 1) as nat);
        let k = (n - 1) as nat;
        let c = Candidate::spec_from_index(k)->0;
        assert(c.index() == k);
        if counts[k as int] > 0 {
            let t = rest.push((c, counts[k as int]));
            assert(tally_entries(counts, n) == t);
            assert forall|d: Candidate| d.index() < n && counts[d.index() as int] > 0 implies exists|i: int|
                0 <= i < t.len() && #[trigger] t[i].0 == d by {
                if d.index() == k {
                    assert(d == c) by {
                        match d {
                            Candidate::A => {},
                            Candidate::B => {},
                            Candidate::C => {},
                            Candidate::D => {},
                            Candidate::E => {},
                            Candidate::F => {},
                        }
                    }
                    assert(t[rest.len() as int].0 == d);
                } else {
                    let i = choose|i: int| 0 <= i < rest.len() && #[trigger] rest[i].0 == d;
                    assert(t[i] == rest[i]);
                }
            }
        }
    }
}

/// Each entry of the tally is a candidate with the number of recorded votes for it,
/// none is zero, candidates come in declaration order, and every candidate with a
/// vote has an entry.
pub proof fn lemma_tally_entries_are_counts(c: &VoteCache)
    requires
        c.wf(),
    ensures
        forall|i: int|
            0 <= i < tally_entries(c.counts(), 6).len() ==> {
                let e = #[trigger] tally_entries(c.counts(), 6)[i];
                &&& e.1 == count_for(c.votes(), e.0.index() as int)
                &&& e.1 > 0
            },
        forall|i: int, j: int|
            0 <= i < j < tally_entries(c.counts(), 6).len() ==> tally_entries(c.counts(), 6)[i].0.index()
                < tally_entries(c.counts(), 6)[j].0.index(),
        forall|d: Candidate|
            count_for(c.votes(), d.index() as int) > 0 ==> exists|i: int|
                0 <= i < tally_entries(c.counts(), 6).len() && #[trigger] tally_entries(c.counts(), 6)[i].0 == d,
{
    lemma_tally_entries_exact(c.counts(), 6);
    assert forall|d: Candidate| count_for(c.votes(), d.index() as int) > 0 implies exists|i: int|
        0 <= i < tally_entries(c.counts(), 6).len() && #[trigger] tally_entries(c.counts(), 6)[i].0 == d by {
        assert(d.index() < 6);
        assert(c.counts()[d.index() as int] == count_for(c.votes(), d.index() as int));
    }
    assert forall|i: int| 0 <= i < tally_entries(c.counts(), 6).len() implies {
        let e = #[trigger] tally_entries(c.counts(), 6)[i];
        &&& e.1 == count_for(c.votes(), e.0.index() as int)
        &&& e.1 > 0
    } by {
        let e = tally_entries(c.counts(), 6)[i];
        assert(e.0.index() < 6);
    }
}

/// The tally lists only candidates with votes, and its counts add up to the number of
/// voters.
pub proof fn lemma_tally_law(c: &VoteCache)
    requires
        c.wf(),
    ensures
        sum_entries(tally_entries(c.counts(), 6)) == c.votes().len(),
        forall|i: int| 0 <= i < tally_entries(c.counts(), 6).len() ==> #[trigger] tally_entries(c.counts(), 6)[i].1 > 0,
{
    lemma_tally_entries_sum(c.counts(), 6);
}

/// No voter is recorded twice.
pub proof fn lemma_votes_unique(c: &VoteCache)
    requires
        c.wf(),
    ensures
        forall|i: int, j: int| 0 <= i < j < c.votes().len() ==> c.votes()[i].0 != c.votes()[j].0,
{
}

} // verus!
