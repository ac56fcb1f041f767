//! The certificates that were asked for and have not come: for each id the
//! peers that were asked, and the round at which the first request went out.

use crate::types::{Field, PeerAddr};
use vstd::prelude::*;

verus! {

/// What is known of a certificate that was asked for.
#[verifier::ext_equal]
pub struct PendingRequest {
    /// The peers that were asked for it.
    pub peers: Set<PeerAddr>,
    /// The committee's round when it was first asked for.
    pub round: u64,
}

#[derive(Debug)]
struct Entry {
    certificate_id: Field,
    peers: Vec<PeerAddr>,
    round: u64,
}

impl Entry {
    spec fn request(self) -> PendingRequest {
        PendingRequest { peers: self.peers@.to_set(), round: self.round }
    }
}

/// The requests for certificates that are still open.
#[derive(Debug)]
pub struct Pending {
    entries: Vec<Entry>,
}

spec fn listed(entries: Seq<Entry>, id: Field) -> bool {
    exists|i: int| 0 <= i < entries.len() && (#[trigger] entries[i]).certificate_id == id
}

spec fn place(entries: Seq<Entry>, id: Field) -> int {
    choose|i: int| 0 <= i < entries.len() && (#[trigger] entries[i]).certificate_id == id
}

spec fn distinct(entries: Seq<Entry>) -> bool {
    forall|i: int, j: int|
        0 <= i < entries.len() && 0 <= j < entries.len() && i != j ==> entries[i].certificate_id
            != entries[j].certificate_id
}

spec fn requests(entries: Seq<Entry>) -> Map<Field, PendingRequest> {
    Map::new(|id: Field| listed(entries, id), |id: Field| entries[place(entries, id)].request())
}

proof fn lemma_place(entries: Seq<Entry>, i: int)
    requires
        distinct(entries),
        0 <= i < entries.len(),
    ensures
        listed(entries, entries[i].certificate_id),
        place(entries, entries[i].certificate_id) == i,
        requests(entries)[entries[i].certificate_id] == entries[i].request(),
{
}

impl View for Pending {
    type V = Map<Field, PendingRequest>;

    closed spec fn view(&self) -> Map<Field, PendingRequest> {
        requests(self.entries@)
    }
}

/// Whether `peer` was asked for the certificate `id`.
pub open spec fn asked(pending: Map<Field, PendingRequest>, id: Field, peer: PeerAddr) -> bool {
    pending.contains_key(id) && pending[id].peers.contains(peer)
}

/// The requests once `peer` was asked for `id` at `round`: a new request
/// notes the round, one that was open keeps its round and gains the peer.
pub open spec fn with_request(
    pending: Map<Field, PendingRequest>,
    id: Field,
    peer: PeerAddr,
    round: u64,
) -> Map<Field, PendingRequest> {
    if pending.contains_key(id) {
        pending.insert(
            id,
            PendingRequest { peers: pending[id].peers.insert(peer), round: pending[id].round },
        )
    } else {
        pending.insert(id, PendingRequest { peers: set![peer], round })
    }
}

/// The requests that went out at `round` or later.
pub open spec fn requests_since(pending: Map<Field, PendingRequest>, round: u64) -> Map<
    Field,
    PendingRequest,
> {
    pending.restrict(Set::new(|id: Field| pending.contains_key(id) && pending[id].round >= round))
}

fn contains_peer(peers: &Vec<PeerAddr>, peer: PeerAddr) -> (found: bool)
    ensures
        found == peers@.to_set().contains(peer),
{
    let mut i: usize = 0;
    while i < peers.len()
        invariant
            0 <= i <= peers.len(),
            forall|k: int| 0 <= k < i ==> peers@[k] != peer,
        decreases peers.len() - i,
    {
        if peers[i] == peer {
            assert(peers@.contains(peer));
            return true;
        }
        i += 1;
    }
    assert(!peers@.contains(peer));
    false
}

proof fn lemma_push_to_set(before: Seq<PeerAddr>, peer: PeerAddr)
    ensures
        before.push(peer).to_set() == before.to_set().insert(peer),
{
    let after = before.push(peer);
    assert forall|x: PeerAddr| after.to_set().contains(x) <==> before.to_set().insert(
        peer,
    ).contains(x) by {
        if after.contains(x) {
            let k = choose|k: int| 0 <= k < after.len() && after[k] == x;
            if k < before.len() {
                assert(before[k] == x);
            }
        }
        if before.contains(x) {
            let k = choose|k: int| 0 <= k < before.len() && before[k] == x;
            assert(after[k] == x);
        }
        if x == peer {
            assert(after[before.len() as int] == x);
        }
    }
    assert(after.to_set() =~= before.to_set().insert(peer));
}

impl Pending {
    /// No certificate has two requests.
    pub closed spec fn wf(&self) -> bool {
        distinct(self.entries@)
    }

    /// No open requests.
    pub fn new() -> (pending: Pending)
        ensures
            pending.wf(),
            pending@ == Map::<Field, PendingRequest>::empty(),
    {
        let pending = Pending { entries: Vec::new() };
        assert(pending@ =~= Map::<Field, PendingRequest>::empty());
        pending
    }

    fn find(&self, id: Field) -> (found: Option<usize>)
        requires
            self.wf(),
        ensures
            found is Some <==> self@.contains_key(id),
            found is Some ==> {
                &&& found->0 < self.entries@.len()
                &&& self.entries@[found->0 as int].certificate_id == id
                &&& self@[id] == self.entries@[found->0 as int].request()
            },
    {
        let mut i: usize = 0;
        while i < self.entries.len()
            invariant
                0 <= i <= self.entries.len(),
                self.wf(),
                forall|k: int| 0 <= k < i ==> (#[trigger] self.entries@[k]).certificate_id != id,
            decreases self.entries.len() - i,
        {
            if self.entries[i].certificate_id == id {
                proof {
                    lemma_place(self.entries@, i as int);
                }
                return Some(i);
            }
            i += 1;
        }
        None
    }

    /// The number of open requests.
    pub fn len(&self) -> (count: usize)
        requires
            self.wf(),
        ensures
            count == self@.dom().len(),
            self@.dom().finite(),
    {
        proof {
            lemma_domain_size(self.entries@);
        }
        self.entries.len()
    }

    /// Whether the certificate `id` was asked for and has not come.
    pub fn contains(&self, id: Field) -> (found: bool)
        requires
            self.wf(),
        ensures
            found == self@.contains_key(id),
    {
        self.find(id).is_some()
    }

    /// Whether `peer` was asked for the certificate `id`.
    pub fn contains_peer(&self, id: Field, peer: PeerAddr) -> (found: bool)
        requires
            self.wf(),
        ensures
            found == asked(self@, id, peer),
    {
        match self.find(id) {
            Some(i) => contains_peer(&self.entries[i].peers, peer),
            None => false,
        }
    }

    /// Notes that `peer` was asked for the certificate `id` while the
    /// committee stood at `round`. Returns whether the request is new for
    /// this peer.
    pub fn insert(&mut self, id: Field, peer: PeerAddr, round: u64) -> (added: bool)
        requires
            old(self).wf(),
        ensures
            final(self).wf(),
            final(self)@ == with_request(old(self)@, id, peer, round),
            added == !asked(old(self)@, id, peer),
    {
        let ghost before = self.entries@;
        match self.find(id) {
            Some(i) => {
                if contains_peer(&self.entries[i].peers, peer) {
                    proof {
                        assert(self@[id].peers.insert(peer) =~= self@[id].peers);
                        assert(self@ =~= with_request(self@, id, peer, round));
                    }
                    false
                } else {
                    let mut peers: Vec<PeerAddr> = self.entries[i].peers.clone();
                    assert(peers@ =~= before[i as int].peers@);
                    peers.push(peer);
                    let entry = Entry { certificate_id: id, peers, round: self.entries[i].round };
                    self.entries.set(i, entry);
                    proof {
                        lemma_push_to_set(before[i as int].peers@, peer);
                        let after = self.entries@;
                        assert forall|key: Field| listed(after, key) <==> listed(
                            before,
                            key,
                        ) by {
                            if listed(after, key) {
                                let k = place(after, key);
                                assert(before[k].certificate_id == key);
                            }
                            if listed(before, key) {
                                let k = place(before, key);
                                assert(after[k].certificate_id == key);
                            }
                        }
                        assert forall|key: Field| listed(after, key) implies requests(after)[key]
                            == with_request(requests(before), id, peer, round)[key] by {
                            let k = place(after, key);
                            assert(before[k].certificate_id == key);
                            lemma_place(before, k);
                            lemma_place(after, k);
                        }
                        assert(requests(after) =~= with_request(requests(before), id, peer, round));
                    }
                    true
                }
            },
            None => {
                let mut peers: Vec<PeerAddr> = Vec::new();
                peers.push(peer);
                self.entries.push(Entry { certificate_id: id, peers, round });
                proof {
                    let after = self.entries@;
                    let last = before.len() as int;
                    lemma_push_to_set(Seq::<PeerAddr>::empty(), peer);
                    assert(Seq::<PeerAddr>::empty().to_set() =~= Set::<PeerAddr>::empty());
                    assert(after[last].peers@ =~= Seq::<PeerAddr>::empty().push(peer));
                    assert(after[last].certificate_id == id);
                    assert forall|i: int, j: int|
                        0 <= i < after.len() && 0 <= j < after.len() && i
                            != j implies after[i].certificate_id != after[j].certificate_id by {
                        if i < last {
                            assert(after[i] == before[i]);
                        }
                        if j < last {
                            assert(after[j] == before[j]);
                        }
                    }
                    assert forall|key: Field| listed(after, key) <==> (listed(before, key) || key
                        == id) by {
                        if listed(after, key) {
                            let k = place(after, key);
                            if k < last {
                                assert(before[k].certificate_id == key);
                            }
                        }
                        if listed(before, key) {
                            let k = place(before, key);
                            assert(after[k].certificate_id == key);
                        }
                    }
                    assert forall|key: Field| listed(after, key) implies requests(after)[key]
                        == with_request(requests(before), id, peer, round)[key] by {
                        let k = place(after, key);
                        lemma_place(after, k);
                        if k < last {
                            assert(before[k] == after[k]);
                            lemma_place(before, k);
                        }
                    }
                    assert(requests(after) =~= with_request(requests(before), id, peer, round));
                }
                true
            },
        }
    }

    /// Closes the request for the certificate `id`. Returns whether there was
    /// one.
    pub fn remove(&mut self, id: Field) -> (removed: bool)
        requires
            old(self).wf(),
        ensures
            final(self).wf(),
            final(self)@ == old(self)@.remove(id),
            removed == old(self)@.contains_key(id),
    {
        let ghost before = self.entries@;
        match self.find(id) {
            Some(i) => {
                self.entries.remove(i);
                proof {
                    let after = self.entries@;
                    assert forall|k: int| 0 <= k < after.len() implies (#[trigger] after[k]) == (
                    if k < i {
                        before[k]
                    } else {
                        before[k + 1]
                    }) by {}
                    assert forall|a: int, b: int|
                        0 <= a < after.len() && 0 <= b < after.len() && a
                            != b implies after[a].certificate_id != after[b].certificate_id by {
                        let a0 = if a < i { a } else { a + 1 };
                        let b0 = if b < i { b } else { b + 1 };
                        assert(after[a] == before[a0]);
                        assert(after[b] == before[b0]);
                    }
                    assert forall|key: Field| listed(after, key) <==> (listed(before, key) && key
                        != id) by {
                        if listed(after, key) {
                            let k = place(after, key);
                            let k0 = if k < i { k } else { k + 1 };
                            assert(after[k] == before[k0]);
                            assert(before[k0].certificate_id == key);
                        }
                        if listed(before, key) && key != id {
                            let k0 = place(before, key);
                            let k = if k0 < i { k0 } else { k0 - 1 };
                            assert(after[k] == before[k0]);
                        }
                    }
                    assert forall|key: Field| listed(after, key) implies requests(after)[key]
                        == requests(before)[key] by {
                        let k = place(after, key);
                        let k0 = if k < i { k } else { k + 1 };
                        assert(after[k] == before[k0]);
                        lemma_place(after, k);
                        lemma_place(before, k0);
                    }
                    assert(requests(after) =~= requests(before).remove(id));
                }
                true
            },
            None => {
                assert(self@ =~= self@.remove(id));
                false
            },
        }
    }

    /// Drops the requests that went out before `round`.
    pub fn discard_before(&mut self, round: u64)
        requires
            old(self).wf(),
        ensures
            final(self).wf(),
            final(self)@ == requests_since(old(self)@, round),
    {
        let ghost before = self.entries@;
        let mut kept: Vec<Entry> = Vec::new();
        let mut i: usize = 0;
        while i < self.entries.len()
            invariant
                0 <= i <= self.entries.len(),
                self.entries@ == before,
                distinct(before),
                distinct(kept@),
                forall|k: int|
                    0 <= k < kept@.len() ==> (#[trigger] kept@[k]).round >= round && exists|m: int|
                        0 <= m < i && before[m].certificate_id == kept@[k].certificate_id
                            && before[m].request() == kept@[k].request(),
                forall|m: int|
                    0 <= m < i && (#[trigger] before[m]).round >= round ==> listed(
                        kept@,
                        before[m].certificate_id,
                    ),
            decreases self.entries.len() - i,
        {
            if self.entries[i].round >= round {
                let ghost earlier = kept@;
                let peers: Vec<PeerAddr> = self.entries[i].peers.clone();
                assert(peers@ =~= before[i as int].peers@);
                kept.push(
                    Entry {
                        certificate_id: self.entries[i].certificate_id,
                        peers,
                        round: self.entries[i].round,
                    },
                );
                proof {
                    let last = earlier.len() as int;
                    assert(kept@[last].request() == before[i as int].request());
                    assert forall|k: int| 0 <= k < kept@.len() implies (#[trigger] kept@[k]).round
                        >= round && exists|m: int|
                        0 <= m < i + 1 && before[m].certificate_id == kept@[k].certificate_id
                            && before[m].request() == kept@[k].request() by {
                        if k < last {
                            assert(kept@[k] == earlier[k]);
                            let m = choose|m: int|
                                0 <= m < i && before[m].certificate_id == earlier[k].certificate_id
                                    && before[m].request() == earlier[k].request();
                            assert(before[m].certificate_id == kept@[k].certificate_id);
                        } else {
                            assert(before[i as int].certificate_id == kept@[k].certificate_id);
                        }
                    }
                    assert forall|a: int, b: int|
                        0 <= a < kept@.len() && 0 <= b < kept@.len() && a
                            != b implies kept@[a].certificate_id != kept@[b].certificate_id by {
                        if a < last && b < last {
                            assert(kept@[a] == earlier[a]);
                            assert(kept@[b] == earlier[b]);
                        } else {
                            let other = if a < last { a } else { b };
                            assert(kept@[other] == earlier[other]);
                            let m = choose|m: int|
                                0 <= m < i && before[m].certificate_id
                                    == earlier[other].certificate_id && before[m].request()
                                    == earlier[other].request();
                            assert(before[m].certificate_id != before[i as int].certificate_id);
                        }
                    }
                    assert forall|m: int|
                        0 <= m < i + 1 && (#[trigger] before[m]).round >= round implies listed(
                        kept@,
                        before[m].certificate_id,
                    ) by {
                        if m < i {
                            let k = place(earlier, before[m].certificate_id);
                            assert(kept@[k] == earlier[k]);
                        } else {
                            assert(kept@[last].certificate_id == before[m].certificate_id);
                        }
                    }
                }
            }
            i += 1;
        }
        self.entries = kept;
        proof {
            let after = self.entries@;
            let target = requests_since(requests(before), round);
            assert forall|key: Field| listed(after, key) <==> target.contains_key(key) by {
                if listed(after, key) {
                    let k = place(after, key);
                    let m = choose|m: int|
                        0 <= m < before.len() && before[m].certificate_id
                            == after[k].certificate_id && before[m].request()
                            == after[k].request();
                    lemma_place(before, m);
                }
                if target.contains_key(key) {
                    let m = place(before, key);
                    lemma_place(before, m);
                }
            }
            assert forall|key: Field| listed(after, key) implies requests(after)[key]
                == target[key] by {
                let k = place(after, key);
                lemma_place(after, k);
                let m = choose|m: int|
                    0 <= m < before.len() && before[m].certificate_id == after[k].certificate_id
                        && before[m].request() == after[k].request();
                lemma_place(before, m);
            }
            assert(requests(after) =~= target);
        }
    }
}

proof fn lemma_domain_size(entries: Seq<Entry>)
    requires
        distinct(entries),
    ensures
        requests(entries).dom().finite(),
        requests(entries).dom().len() == entries.len(),
    decreases entries.len(),
{
    if entries.len() == 0 {
        assert(requests(entries).dom() =~= Set::<Field>::empty());
    } else {
        let rest = entries.drop_last();
        let id = entries.last().certificate_id;
        lemma_domain_size(rest);
        assert forall|key: Field| requests(entries).dom().contains(key) <==> requests(
            rest,
        ).dom().insert(id).contains(key) by {
            if listed(entries, key) {
                let k = place(entries, key);
                if k < rest.len() {
                    assert(rest[k].certificate_id == key);
                }
            }
            if listed(rest, key) {
                let k = place(rest, key);
                assert(entries[k].certificate_id == key);
            }
            if key == id {
                assert(entries[entries.len() - 1].certificate_id == key);
            }
        }
        assert(requests(entries).dom() =~= requests(rest).dom().insert(id));
        if listed(rest, id) {
            let k = place(rest, id);
            assert(entries[k].certificate_id == id);
            assert(false);
        }
    }
}

} // verus!
