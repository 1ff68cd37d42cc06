//! The table of peers a node knows, with the chain digest last known for each.
use vstd::prelude::*;

use crate::peer::{spec_peer_exists, Peer};

verus! {

/// A peer id, the peer's address and the digest of its chain as last known.
pub type PeerEntryView = (Seq<char>, Peer, Seq<char>);

/// Position of the entry for `id`, if any.
pub open spec fn find_id(m: Seq<PeerEntryView>, id: Seq<char>) -> Option<int> {
    if exists|i: int| 0 <= i < m.len() && m[i].0 == id {
        Some(choose|i: int| 0 <= i < m.len() && m[i].0 == id)
    } else {
        None
    }
}

/// The address is not `target`.
pub open spec fn other_peer(target: Peer) -> spec_fn(Peer) -> bool {
    |p: Peer| p != target
}

/// The entry's address is not `target`.
pub open spec fn other_entry(target: Peer) -> spec_fn(PeerEntryView) -> bool {
    |e: PeerEntryView| e.1 != target
}

proof fn lemma_find_id(m: Seq<PeerEntryView>, id: Seq<char>)
    ensures
        find_id(m, id) matches Some(i) ==> 0 <= i < m.len() && m[i].0 == id,
        find_id(m, id) is None ==> forall|j: int| 0 <= j < m.len() ==> m[j].0 != id,
{
}

/// No two entries share an id.
pub open spec fn ids_unique(m: Seq<PeerEntryView>) -> bool {
    forall|i: int, j: int| 0 <= i < j < m.len() ==> m[i].0 != m[j].0
}

/// `add_peer`'s effect on the id table: the entry for `id` now holds `peer` and an
/// empty digest; a new id is appended.
pub open spec fn insert_entry(m: Seq<PeerEntryView>, id: Seq<char>, peer: Peer) -> Seq<PeerEntryView> {
    match find_id(m, id) {
        Some(i) => m.update(i, (id, peer, Seq::empty())),
        None => m.push((id, peer, Seq::empty())),
    }
}

/// After inserting `peer` under `id` into a table with unique ids, ids stay unique and
/// looking `id` up finds `peer` with an empty digest.
pub proof fn lemma_insert_entry_lookup(m: Seq<PeerEntryView>, id: Seq<char>, peer: Peer)
    requires
        ids_unique(m),
    ensures
        ids_unique(insert_entry(m, id, peer)),
        find_id(insert_entry(m, id, peer), id) matches Some(i) && insert_entry(m, id, peer)[i] == (
            id,
            peer,
            Seq::<char>::empty(),
        ),
{
    let r = insert_entry(m, id, peer);
    lemma_find_id(m, id);
    match find_id(m, id) {
        Some(k) => {
            assert forall|a: int, b: int| 0 <= a < b < r.len() implies r[a].0 != r[b].0 by {
                if a != k && b != k {
                    assert(r[a] == m[a] && r[b] == m[b]);
                } else if a == k {
                    assert(r[b] == m[b]);
                } else {
                    assert(r[a] == m[a]);
                }
            }
            assert(r[k].0 == id);
            let j = choose|j: int| 0 <= j < r.len() && r[j].0 == id;
            if j != k {
                assert(r[j] == m[j]);
            }
        },
        None => {
            assert forall|a: int, b: int| 0 <= a < b < r.len() implies r[a].0 != r[b].0 by {
                if b < m.len() {
                    assert(r[a] == m[a] && r[b] == m[b]);
                } else {
                    assert(r[a] == m[a]);
                }
            }
            assert(r[m.len() as int].0 == id);
            let j = choose|j: int| 0 <= j < r.len() && r[j].0 == id;
            if j < m.len() {
                assert(r[j] == m[j]);
            }
        },
    }
}

/// The peers known to a node: a list of addresses, and a table from peer id to
/// address and last known chain digest.
pub struct KnownPeers {
    peers: Vec<Peer>,
    id_map: Vec<(String, Peer, String)>,
}

impl KnownPeers {
    /// The address list, in insertion order.
    pub closed spec fn spec_peers(&self) -> Seq<Peer> {
        self.peers@
    }

    /// The id table, one entry per id.
    pub closed spec fn entries(&self) -> Seq<PeerEntryView> {
        self.id_map@.map_values(|e: (String, Peer, String)| (e.0@, e.1, e.2@))
    }

    /// The table's invariant: ids are unique.
    pub open spec fn wf(&self) -> bool {
        ids_unique(self.entries())
    }

    pub fn new() -> (k: Self)
        ensures
            k.wf(),
            k.spec_peers() == Seq::<Peer>::empty(),
            k.entries() == Seq::<PeerEntryView>::empty(),
    {
        let k = KnownPeers { peers: Vec::new(), id_map: Vec::new() };
        assert(k.entries() =~= Seq::<PeerEntryView>::empty());
        k
    }

    /// The known addresses.
    pub fn peers(&self) -> (p: &Vec<Peer>)
        ensures
            p@ == self.spec_peers(),
    {
        &self.peers
    }

    fn position(&self, id: &String) -> (p: Option<usize>)
        requires
            self.wf(),
        ensures
            p matches Some(i) ==> find_id(self.entries(), id@) == Some(i as int),
            p is None ==> find_id(self.entries(), id@) is None,
            p matches Some(i) ==> i < self.id_map@.len(),
    {
        let mut i: usize = 0;
        while i < self.id_map.len()
            invariant
                self.wf(),
                i <= self.id_map.len(),
                forall|j: int| 0 <= j < i ==> self.entries()[j].0 != id@,
            decreases self.id_map.len() - i,
        {
            assert(self.entries()[i as int].0 == self.id_map@[i as int].0@);
            if self.id_map[i].0 == *id {
                assert(self.entries()[i as int].0 == id@);
                let ghost k = choose|k: int| 0 <= k < self.entries().len() && self.entries()[k].0 == id@;
                assert(k == i) by {
                    if k != i {
                        if k < i {
                        } else {
                            assert(self.entries()[i as int].0 != self.entries()[k].0);
                        }
                    }
                }
                return Some(i);
            }
            i = i + 1;
        }
        None
    }

    /// Records a newly met peer: appends its address and sets the entry for `id` to
    /// the address with an empty chain digest (the digest is learnt on chain sync).
    pub fn add_peer(&mut self, peer: Peer, id: String)
        requires
            old(self).wf(),
        ensures
            final(self).wf(),
            final(self).spec_peers() == old(self).spec_peers().push(peer),
            final(self).entries() == insert_entry(old(self).entries(), id@, peer),
    {
        self.peers.push(peer);
        let ghost old_entries = self.entries();
        let ghost idv = id@;
        proof {
            lemma_find_id(old_entries, idv);
        }
        match self.position(&id) {
            Some(i) => {
                let empty = String::new();
                self.id_map.set(i, (id, peer, empty));
                proof {
                    assert(self.entries() =~= old_entries.update(i as int, (idv, peer, Seq::empty())));
                    assert forall|a: int, b: int| 0 <= a < b < self.entries().len() implies self.entries()[a].0
                        != self.entries()[b].0 by {
                        assert(old_entries[i as int].0 == idv);
                    }
                }
            },
            None => {
                let empty = String::new();
                self.id_map.push((id, peer, empty));
                proof {
                    assert(self.entries() =~= old_entries.push((idv, peer, Seq::empty())));
                    assert forall|a: int, b: int| 0 <= a < b < self.entries().len() implies self.entries()[a].0
                        != self.entries()[b].0 by {
                        if b == old_entries.len() {
                            assert(old_entries[a].0 != idv);
                        }
                    }
                }
            },
        }
    }

    /// Forgets a peer by address, in the list and in the table. Returns whether the
    /// address list shrank.
    pub fn remove_peer_with_peer(&mut self, peer: &Peer) -> (removed: bool)
        requires
            old(self).wf(),
        ensures
            final(self).wf(),
            final(self).spec_peers() == old(self).spec_peers().filter(other_peer(*peer)),
            final(self).entries() == old(self).entries().filter(other_entry(*peer)),
            removed == spec_peer_exists(old(self).spec_peers(), *peer),
            !spec_peer_exists(final(self).spec_peers(), *peer),
    {
        let ghost target = *peer;
        let ghost old_peers = self.peers@;
        let ghost old_entries = self.entries();
        let len_before = self.peers.len();
        let mut kept: Vec<Peer> = Vec::new();
        let mut i: usize = 0;
        assert(old_peers.take(0).filter(other_peer(target)) =~= Seq::<Peer>::empty()) by {
            reveal(Seq::filter);
        }
        while i < self.peers.len()
            invariant
                self.peers@ == old_peers,
                i <= old_peers.len(),
                kept@ == old_peers.take(i as int).filter(other_peer(target)),
                target == *peer,
            decreases self.peers.len() - i,
        {
            let p = self.peers[i];
            proof {
                assert(old_peers.take((i + 1) as int) =~= old_peers.take(i as int).push(p));
                old_peers.take(i as int).lemma_filter_push(p, other_peer(target));
            }
            if p != *peer {
                kept.push(p);
            }
            i = i + 1;
        }
        assert(old_peers.take(old_peers.len() as int) =~= old_peers);
        let mut kept_entries: Vec<(String, Peer, String)> = Vec::new();
        let mut j: usize = 0;
        assert(old_entries.take(0).filter(other_entry(target)) =~= Seq::<PeerEntryView>::empty()) by {
            reveal(Seq::filter);
        }
        assert(kept_entries@.map_values(|e: (String, Peer, String)| (e.0@, e.1, e.2@)) =~= Seq::<PeerEntryView>::empty());
        while j < self.id_map.len()
            invariant
                self.entries() == old_entries,
                j <= old_entries.len(),
                self.id_map@.len() == old_entries.len(),
                kept_entries@.map_values(|e: (String, Peer, String)| (e.0@, e.1, e.2@))
                    == old_entries.take(j as int).filter(other_entry(target)),
                target == *peer,
            decreases self.id_map.len() - j,
        {
            let e = &self.id_map[j];
            assert(old_entries[j as int] == (e.0@, e.1, e.2@));
            proof {
                assert(old_entries.take((j + 1) as int) =~= old_entries.take(j as int).push(
                    old_entries[j as int],
                ));
                old_entries.take(j as int).lemma_filter_push(old_entries[j as int], other_entry(target));
            }
            if e.1 != *peer {
                let ghost before = kept_entries@;
                kept_entries.push((e.0.clone(), e.1, e.2.clone()));
                assert(kept_entries@.map_values(|e: (String, Peer, String)| (e.0@, e.1, e.2@))
                    =~= before.map_values(|e: (String, Peer, String)| (e.0@, e.1, e.2@)).push(
                    old_entries[j as int],
                ));
            }
            j = j + 1;
        }
        assert(old_entries.take(old_entries.len() as int) =~= old_entries);
        self.peers = kept;
        self.id_map = kept_entries;
        proof {
            lemma_filter_keeps_unique(old_entries, target);
            lemma_filter_peers(old_peers, target);
        }
        len_before != self.peers.len()
    }

    /// The table as (address, id) pairs, in table order.
    pub fn as_entries(&self) -> (v: Vec<(Peer, String)>)
        ensures
            v@.len() == self.entries().len(),
            forall|i: int| 0 <= i < v@.len() ==> (#[trigger] v@[i]).0 == self.entries()[i].1 && v@[i].1@
                == self.entries()[i].0,
    {
        let mut v: Vec<(Peer, String)> = Vec::new();
        let mut i: usize = 0;
        while i < self.id_map.len()
            invariant
                i <= self.id_map.len(),
                v@.len() == i,
                forall|k: int| 0 <= k < i ==> (#[trigger] v@[k]).0 == self.entries()[k].1 && v@[k].1@
                    == self.entries()[k].0,
            decreases self.id_map.len() - i,
        {
            let e = &self.id_map[i];
            assert(self.entries()[i as int] == (e.0@, e.1, e.2@));
            v.push((e.1, e.0.clone()));
            i = i + 1;
        }
        v
    }

    /// The table as (address, id, chain digest) triples, in table order.
    pub fn as_entries_with_hash(&self) -> (v: Vec<(Peer, String, String)>)
        ensures
            v@.len() == self.entries().len(),
            forall|i: int| 0 <= i < v@.len() ==> (#[trigger] v@[i]).0 == self.entries()[i].1 && v@[i].1@
                == self.entries()[i].0 && v@[i].2@ == self.entries()[i].2,
    {
        let mut v: Vec<(Peer, String, String)> = Vec::new();
        let mut i: usize = 0;
        while i < self.id_map.len()
            invariant
                i <= self.id_map.len(),
                v@.len() == i,
                forall|k: int| 0 <= k < i ==> (#[trigger] v@[k]).0 == self.entries()[k].1 && v@[k].1@
                    == self.entries()[k].0 && v@[k].2@ == self.entries()[k].2,
            decreases self.id_map.len() - i,
        {
            let e = &self.id_map[i];
            assert(self.entries()[i as int] == (e.0@, e.1, e.2@));
            v.push((e.1, e.0.clone(), e.2.clone()));
            i = i + 1;
        }
        v
    }

    /// Sets the chain digest known for `id`; nothing happens for an unknown id.
    pub fn update_chain_hash(&mut self, id: &str, new_hash: String)
        requires
            old(self).wf(),
        ensures
            final(self).wf(),
            final(self).spec_peers() == old(self).spec_peers(),
            final(self).entries() == match find_id(old(self).entries(), id@) {
                Some(i) => old(self).entries().update(
                    i,
                    (old(self).entries()[i].0, old(self).entries()[i].1, new_hash@),
                ),
                None => old(self).entries(),
            },
    {
        let key = id.to_owned();
        let ghost old_entries = self.entries();
        proof {
            lemma_find_id(old_entries, id@);
        }
        match self.position(&key) {
            Some(i) => {
                let ghost h = new_hash@;
                let e_id = self.id_map[i].0.clone();
                let e_peer = self.id_map[i].1;
                self.id_map.set(i, (e_id, e_peer, new_hash));
                proof {
                    assert(self.entries() =~= old_entries.update(
                        i as int,
                        (old_entries[i as int].0, old_entries[i as int].1, h),
                    ));
                }
            },
            None => {},
        }
    }

    /// Sets the chain digest of every entry.
    pub fn update_chain_hash_all(&mut self, new_hash: String)
        requires
            old(self).wf(),
        ensures
            final(self).wf(),
            final(self).spec_peers() == old(self).spec_peers(),
            final(self).entries().len() == old(self).entries().len(),
            forall|i: int| 0 <= i < final(self).entries().len() ==> #[trigger] final(self).entries()[i] == (
                old(self).entries()[i].0,
                old(self).entries()[i].1,
                new_hash@,
            ),
    {
        let ghost old_entries = self.entries();
        let mut i: usize = 0;
        while i < self.id_map.len()
            invariant
                i <= self.id_map.len(),
                self.peers@ == old(self).peers@,
                old_entries == old(self).entries(),
                self.id_map@.len() == old_entries.len(),
                forall|k: int| 0 <= k < i ==> #[trigger] self.entries()[k] == (old_entries[k].0, old_entries[k].1, new_hash@),
                forall|k: int| i <= k < self.id_map@.len() ==> #[trigger] self.entries()[k] == old_entries[k],
            decreases self.id_map.len() - i,
        {
            let e_id = self.id_map[i].0.clone();
            let e_peer = self.id_map[i].1;
            let h = new_hash.clone();
            let ghost before = self.entries();
            assert(before[i as int] == old_entries[i as int]);
            assert(before[i as int].0 == e_id@ && before[i as int].1 == e_peer);
            self.id_map.set(i, (e_id, e_peer, h));
            proof {
                assert(self.entries() =~= before.update(i as int, (old_entries[i as int].0, old_entries[i as int].1, new_hash@)));
            }
            i = i + 1;
        }
        proof {
            assert forall|a: int, b: int| 0 <= a < b < self.entries().len() implies self.entries()[a].0
                != self.entries()[b].0 by {
                assert(self.entries()[a].0 == old_entries[a].0);
                assert(self.entries()[b].0 == old_entries[b].0);
            }
        }
    }
}

proof fn lemma_filter_keeps_unique(m: Seq<PeerEntryView>, target: Peer)
    requires
        ids_unique(m),
    ensures
        ids_unique(m.filter(other_entry(target))),
    decreases m.len(),
{
    let f = other_entry(target);
    if m.len() > 0 {
        let init = m.drop_last();
        assert(ids_unique(init));
        lemma_filter_keeps_unique(init, target);
        assert(m =~= init.push(m.last()));
        init.lemma_filter_push(m.last(), f);
        if f(m.last()) {
            let r = init.filter(f);
            assert forall|a: int, b: int| 0 <= a < b < r.len() + 1 implies r.push(m.last())[a].0
                != r.push(m.last())[b].0 by {
                if b == r.len() {
                    assert(r.contains(r[a]));
                    init.lemma_filter_contains_rev(f, r[a]);
                    assert(init.contains(r[a]));
                    let k = choose|k: int| 0 <= k < init.len() && init[k] == r[a];
                    assert(m[k] == r[a]);
                    assert(m[m.len() - 1] == m.last());
                }
            }
        }
    }
}

proof fn lemma_filter_peers(s: Seq<Peer>, target: Peer)
    ensures
        (s.filter(other_peer(target)).len() < s.len()) == spec_peer_exists(s, target),
        s.filter(other_peer(target)).len() <= s.len(),
        !spec_peer_exists(s.filter(other_peer(target)), target),
    decreases s.len(),
{
    let f = other_peer(target);
    if s.len() > 0 {
        let init = s.drop_last();
        lemma_filter_peers(init, target);
        assert(s =~= init.push(s.last()));
        init.lemma_filter_push(s.last(), f);
        if spec_peer_exists(init, target) {
            let k = choose|k: int| 0 <= k < init.len() && init[k] == target;
            assert(s[k] == target);
        }
        if spec_peer_exists(s, target) && s.last() != target {
            let k = choose|k: int| 0 <= k < s.len() && s[k] == target;
            assert(init[k] == target);
        }
        if s.last() != target {
            let r = init.filter(f);
            if spec_peer_exists(r.push(s.last()), target) {
                let k = choose|k: int| 0 <= k < r.len() + 1 && r.push(s.last())[k] == target;
                assert(r[k] == target);
            }
        }
    } else {
        assert(s.filter(f) =~= s) by {
            reveal(Seq::filter);
        }
    }
}

} // verus!
