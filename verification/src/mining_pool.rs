//! The queue of votes waiting to be mined.
use vstd::prelude::*;

use crate::miner::MiningTask;

verus! {

/// No two tasks in the queue are for the same voter.
pub open spec fn voters_unique(s: Seq<(Seq<char>, crate::block::Candidate)>) -> bool {
    forall|i: int, j: int| 0 <= i < j < s.len() ==> s[i].0 != s[j].0
}

/// Some task in the queue is for `voter_id`.
pub open spec fn has_voter(s: Seq<(Seq<char>, crate::block::Candidate)>, voter_id: Seq<char>) -> bool {
    exists|i: int| 0 <= i < s.len() && s[i].0 == voter_id
}

/// Pending mining tasks, at most one per voter when filled through `add_task`; the
/// most recently added task is taken first.
pub struct MiningPool {
    tasks: Vec<MiningTask>,
}

impl View for MiningPool {
    type V = Seq<(Seq<char>, crate::block::Candidate)>;

    closed spec fn view(&self) -> Seq<(Seq<char>, crate::block::Candidate)> {
        self.tasks@.map_values(|t: MiningTask| t@)
    }
}

impl MiningPool {
    pub fn new() -> (p: Self)
        ensures
            p@ == Seq::<(Seq<char>, crate::block::Candidate)>::empty(),
    {
        let p = MiningPool { tasks: Vec::new() };
        assert(p@ =~= Seq::<(Seq<char>, crate::block::Candidate)>::empty());
        p
    }

    /// Whether a task for `voter_id` is queued.
    pub fn contains_voter(&self, voter_id: &str) -> (found: bool)
        ensures
            found == has_voter(self@, voter_id@),
    {
        let wanted = voter_id.to_owned();
        let mut i: usize = 0;
        while i < self.tasks.len()
            invariant
                i <= self.tasks.len(),
                wanted@ == voter_id@,
                forall|j: int| 0 <= j < i ==> self@[j].0 != voter_id@,
            decreases self.tasks.len() - i,
        {
            assert(self@[i as int] == self.tasks@[i as int]@);
            if self.tasks[i].voter_id == wanted {
                return true;
            }
            i = i + 1;
        }
        false
    }

    /// Queues the task unless one for the same voter is already queued; returns
    /// whether it was queued.
    pub fn add_task(&mut self, task: MiningTask) -> (added: bool)
        ensures
            added == !has_voter(old(self)@, task.voter_id@),
            added ==> final(self)@ == old(self)@.push(task@),
            !added ==> final(self)@ == old(self)@,
            voters_unique(old(self)@) ==> voters_unique(final(self)@),
    {
        if self.contains_voter(task.voter_id.as_str()) {
            return false;
        }
        let ghost t = task@;
        self.tasks.push(task);
        assert(self@ =~= old(self)@.push(t));
        true
    }

    /// Removes and returns the most recently queued task.
    pub fn take_last(&mut self) -> (task: Option<MiningTask>)
        ensures
            old(self)@.len() == 0 ==> task is None && final(self)@ == old(self)@,
            old(self)@.len() > 0 ==> (task matches Some(t) && t@ == old(self)@.last()),
            old(self)@.len() > 0 ==> final(self)@ == old(self)@.drop_last(),
            voters_unique(old(self)@) ==> voters_unique(final(self)@),
    {
        let t = self.tasks.pop();
        assert(self@ =~= old(self)@.take(self.tasks@.len() as int));
        t
    }

    /// Puts a task back, e.g. after a mining attempt lost the race for its slot,
    /// unless a task for the same voter is queued already.
    pub fn requeue(&mut self, task: MiningTask)
        ensures
            has_voter(old(self)@, task.voter_id@) ==> final(self)@ == old(self)@,
            !has_voter(old(self)@, task.voter_id@) ==> final(self)@ == old(self)@.push(task@),
            voters_unique(old(self)@) ==> voters_unique(final(self)@),
    {
        if self.contains_voter(task.voter_id.as_str()) {
            return;
        }
        let ghost t = task@;
        self.tasks.push(task);
        assert(self@ =~= old(self)@.push(t));
    }
}

/// The task queued last is the one taken next.
pub proof fn lemma_take_last_returns_queued(s: Seq<(Seq<char>, crate::block::Candidate)>, t: (Seq<char>, crate::block::Candidate))
    ensures
        s.push(t).len() > 0,
        s.push(t).last() == t,
        s.push(t).drop_last() == s,
{
    assert(s.push(t).drop_last() =~= s);
}

} // verus!
