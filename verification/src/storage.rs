//! What the coordinator keeps: the certificates, the committee of each round,
//! and the ids of the transmissions at hand. Rounds that fall behind the
//! garbage-collection round are dropped.

use crate::batch::{BatchCertificate, BatchCertificateView};
use crate::committee::{Committee, CommitteeView};
use crate::error::PrimaryError;
use crate::seq_lemmas::{
    distinct_by, lemma_filter_keeps_distinct, lemma_filter_members, lemma_filter_step,
};
use crate::types::{Field, TransmissionId};
use vstd::prelude::*;

verus! {

/// The views of `certificates`, in their order.
pub open spec fn certificate_views(certificates: Seq<BatchCertificate>) -> Seq<
    BatchCertificateView,
> {
    certificates.map_values(|c: BatchCertificate| c@)
}

/// The views of `committees`, in their order.
pub open spec fn committee_views(committees: Seq<Committee>) -> Seq<CommitteeView> {
    committees.map_values(|c: Committee| c@)
}

/// The ids of `certificates`, in their order.
pub open spec fn certificate_ids(certificates: Seq<BatchCertificateView>) -> Seq<Field> {
    certificates.map_values(|c: BatchCertificateView| c.certificate_id())
}

/// The authors of `certificates`.
pub open spec fn certificate_authors(certificates: Seq<BatchCertificateView>) -> Set<
    crate::types::Address,
> {
    certificates.map_values(|c: BatchCertificateView| c.header.author).to_set()
}

/// The garbage-collection round once a committee of `round` is known: the
/// round that lies `max_gc_rounds` behind it, unless the mark stood further
/// on already.
pub open spec fn gc_round_after(gc_round: u64, max_gc_rounds: u64, round: u64) -> u64 {
    if round - max_gc_rounds > gc_round {
        (round - max_gc_rounds) as u64
    } else {
        gc_round
    }
}

/// What storage holds.
#[verifier::ext_equal]
pub struct StorageView {
    pub gc_round: u64,
    pub max_gc_rounds: u64,
    pub committees: Seq<CommitteeView>,
    pub certificates: Seq<BatchCertificateView>,
    pub transmissions: Set<TransmissionId>,
}

impl StorageView {
    /// Whether a certificate with this id is stored.
    pub open spec fn contains_certificate(self, id: Field) -> bool {
        exists|i: int|
            0 <= i < self.certificates.len() && (#[trigger] self.certificates[i]).certificate_id()
                == id
    }

    /// Whether a batch with this id is stored, within its certificate.
    pub open spec fn contains_batch(self, batch_id: Field) -> bool {
        self.contains_certificate(batch_id)
    }

    /// The certificate with this id, if it is stored.
    pub open spec fn get_certificate(self, id: Field) -> Option<BatchCertificateView> {
        if self.contains_certificate(id) {
            Some(
                self.certificates[choose|i: int|
                    0 <= i < self.certificates.len() && (
                    #[trigger] self.certificates[i]).certificate_id() == id],
            )
        } else {
            None
        }
    }

    /// The certificates of `round`, in the order in which they were stored.
    pub open spec fn certificates_for_round(self, round: u64) -> Seq<BatchCertificateView> {
        self.certificates.filter(|c: BatchCertificateView| c.header.round == round)
    }

    /// Whether a committee is stored for `round`.
    pub open spec fn contains_committee(self, round: u64) -> bool {
        exists|i: int|
            0 <= i < self.committees.len() && (#[trigger] self.committees[i]).round == round
    }

    /// The committee stored for `round`, if any.
    pub open spec fn get_committee_for_round(self, round: u64) -> Option<CommitteeView> {
        if self.contains_committee(round) {
            Some(
                self.committees[choose|i: int|
                    0 <= i < self.committees.len() && (#[trigger] self.committees[i]).round
                        == round],
            )
        } else {
            None
        }
    }

    /// No id and no round is stored twice, and every committee is valid.
    pub open spec fn wf(self) -> bool {
        &&& forall|i: int, j: int|
            0 <= i < self.certificates.len() && 0 <= j < self.certificates.len() && i != j
                ==> self.certificates[i].certificate_id() != self.certificates[j].certificate_id()
        &&& forall|i: int, j: int|
            0 <= i < self.committees.len() && 0 <= j < self.committees.len() && i != j
                ==> self.committees[i].round != self.committees[j].round
        &&& forall|i: int| 0 <= i < self.committees.len() ==> (#[trigger] self.committees[i]).wf()
    }

    /// Storage with `certificate` added last.
    pub open spec fn with_certificate(self, certificate: BatchCertificateView) -> StorageView {
        StorageView { certificates: self.certificates.push(certificate), ..self }
    }

    /// Storage with `id` among the transmissions.
    pub open spec fn with_transmission(self, id: TransmissionId) -> StorageView {
        StorageView { transmissions: self.transmissions.insert(id), ..self }
    }

    /// Storage once `committee` is stored: it takes the place of a committee
    /// of the same round, the garbage-collection round moves up to
    /// `max_gc_rounds` behind the committee's round, and the certificates and
    /// the other committees of rounds below it are dropped.
    pub open spec fn with_committee(self, committee: CommitteeView) -> StorageView {
        let gc_round = gc_round_after(self.gc_round, self.max_gc_rounds, committee.round);
        StorageView {
            gc_round,
            max_gc_rounds: self.max_gc_rounds,
            committees: self.committees.filter(
                |c: CommitteeView| c.round != committee.round && c.round >= gc_round,
            ).push(committee),
            certificates: self.certificates.filter(
                |c: BatchCertificateView| c.header.round >= gc_round,
            ),
            transmissions: self.transmissions,
        }
    }
}

/// Certificates, committees and transmission ids, kept in memory.
#[derive(Debug)]
pub struct Storage {
    gc_round: u64,
    max_gc_rounds: u64,
    committees: Vec<Committee>,
    certificates: Vec<BatchCertificate>,
    transmissions: Vec<TransmissionId>,
}

impl View for Storage {
    type V = StorageView;

    closed spec fn view(&self) -> StorageView {
        StorageView {
            gc_round: self.gc_round,
            max_gc_rounds: self.max_gc_rounds,
            committees: committee_views(self.committees@),
            certificates: certificate_views(self.certificates@),
            transmissions: self.transmissions@.to_set(),
        }
    }
}

impl Storage {
    /// No id and no round is stored twice, and every committee is valid.
    pub open spec fn wf(&self) -> bool {
        self@.wf()
    }

    /// An empty storage that keeps `max_gc_rounds` rounds behind the newest
    /// committee.
    pub fn new(max_gc_rounds: u64) -> (storage: Storage)
        ensures
            storage.wf(),
            storage@ == (StorageView {
                gc_round: 0,
                max_gc_rounds,
                committees: Seq::empty(),
                certificates: Seq::empty(),
                transmissions: Set::empty(),
            }),
    {
        let storage = Storage {
            gc_round: 0,
            max_gc_rounds,
            committees: Vec::new(),
            certificates: Vec::new(),
            transmissions: Vec::new(),
        };
        assert(storage@.committees =~= Seq::empty());
        assert(storage@.certificates =~= Seq::empty());
        assert(storage@.transmissions =~= Set::empty());
        storage
    }

    /// The round below which storage has dropped what it held.
    pub fn gc_round(&self) -> (round: u64)
        ensures
            round == self@.gc_round,
    {
        self.gc_round
    }

    /// How many rounds behind the newest committee storage keeps.
    pub fn max_gc_rounds(&self) -> (rounds: u64)
        ensures
            rounds == self@.max_gc_rounds,
    {
        self.max_gc_rounds
    }

    fn find_certificate(&self, id: Field) -> (place: Option<usize>)
        ensures
            place is Some <==> self@.contains_certificate(id),
            place is Some ==> place->0 < self.certificates@.len()
                && self.certificates@[place->0 as int]@.certificate_id() == id,
            place is Some && self.wf() ==> self@.get_certificate(id) == Some(
                self.certificates@[place->0 as int]@,
            ),
    {
        let mut i: usize = 0;
        while i < self.certificates.len()
            invariant
                0 <= i <= self.certificates.len(),
                forall|k: int|
                    0 <= k < i ==> (#[trigger] self@.certificates[k]).certificate_id() != id,
            decreases self.certificates.len() - i,
        {
            if self.certificates[i].certificate_id() == id {
                assert(self@.certificates[i as int].certificate_id() == id);
                return Some(i);
            }
            i += 1;
        }
        None
    }

    /// Whether a certificate with this id is stored.
    pub fn contains_certificate(&self, id: Field) -> (found: bool)
        ensures
            found == self@.contains_certificate(id),
    {
        self.find_certificate(id).is_some()
    }

    /// Whether a batch with this id is stored, within its certificate.
    pub fn contains_batch(&self, batch_id: Field) -> (found: bool)
        ensures
            found == self@.contains_batch(batch_id),
    {
        self.find_certificate(batch_id).is_some()
    }

    /// The certificate with this id, if it is stored.
    pub fn get_certificate(&self, id: Field) -> (certificate: Option<BatchCertificate>)
        requires
            self.wf(),
        ensures
            match certificate {
                Some(c) => self@.get_certificate(id) == Some(c@),
                None => self@.get_certificate(id) is None,
            },
    {
        match self.find_certificate(id) {
            Some(place) => Some(self.certificates[place].duplicate()),
            None => None,
        }
    }

    /// The certificates of `round`, in the order in which they were stored.
    pub fn get_certificates_for_round(&self, round: u64) -> (certificates: Vec<BatchCertificate>)
        ensures
            certificate_views(certificates@) == self@.certificates_for_round(round),
    {
        let ghost all = self@.certificates;
        let ghost pred = |c: BatchCertificateView| c.header.round == round;
        let mut found: Vec<BatchCertificate> = Vec::new();
        let mut i: usize = 0;
        proof {
            crate::seq_lemmas::lemma_filter_empty(all, pred);
            assert(certificate_views(found@) =~= all.take(0).filter(pred));
        }
        while i < self.certificates.len()
            invariant
                0 <= i <= self.certificates.len(),
                all == self@.certificates,
                pred == |c: BatchCertificateView| c.header.round == round,
                certificate_views(found@) == all.take(i as int).filter(pred),
            decreases self.certificates.len() - i,
        {
            proof {
                lemma_filter_step(all, pred, i as int);
            }
            if self.certificates[i].round() == round {
                let ghost before = found@;
                found.push(self.certificates[i].duplicate());
                assert(certificate_views(found@) =~= certificate_views(before).push(
                    all[i as int],
                ));
            }
            i += 1;
        }
        assert(all.take(all.len() as int) =~= all);
        found
    }

    /// Stores `certificate`, unless one with its id is stored already.
    pub fn insert_certificate(&mut self, certificate: BatchCertificate) -> (stored: Result<
        (),
        PrimaryError,
    >)
        requires
            old(self).wf(),
        ensures
            final(self).wf(),
            stored is Ok <==> !old(self)@.contains_certificate(certificate@.certificate_id()),
            stored is Ok ==> final(self)@ == old(self)@.with_certificate(certificate@),
            stored is Ok ==> final(self)@.get_certificate(certificate@.certificate_id()) == Some(
                certificate@,
            ),
            stored is Err ==> final(self)@ == old(self)@ && stored == Err::<(), PrimaryError>(
                PrimaryError::DuplicateCertificate {
                    certificate_id: certificate@.certificate_id(),
                },
            ),
    {
        let id: Field = certificate.certificate_id();
        if self.contains_certificate(id) {
            return Err(PrimaryError::DuplicateCertificate { certificate_id: id });
        }
        let ghost before = self@;
        self.certificates.push(certificate);
        proof {
            assert(self@.certificates =~= before.certificates.push(certificate@));
            assert(self@ =~= before.with_certificate(certificate@));
            let last = self@.certificates.len() - 1;
            assert(self@.certificates[last].certificate_id() == id);
            assert forall|i: int, j: int|
                0 <= i < self@.certificates.len() && 0 <= j < self@.certificates.len() && i
                    != j implies self@.certificates[i].certificate_id()
                != self@.certificates[j].certificate_id() by {
                if i < last && j < last {
                    assert(self@.certificates[i] == before.certificates[i]);
                    assert(self@.certificates[j] == before.certificates[j]);
                } else if i < last {
                    assert(self@.certificates[i] == before.certificates[i]);
                } else {
                    assert(self@.certificates[j] == before.certificates[j]);
                }
            }
            assert forall|i: int| 0 <= i < self@.committees.len() implies (
            #[trigger] self@.committees[i]).wf() by {
                assert(self@.committees[i] == before.committees[i]);
            }
        }
        Ok(())
    }

    fn find_committee(&self, round: u64) -> (place: Option<usize>)
        ensures
            place is Some <==> self@.contains_committee(round),
            place is Some ==> place->0 < self.committees@.len()
                && self.committees@[place->0 as int]@.round == round,
            place is Some && self.wf() ==> self@.get_committee_for_round(round) == Some(
                self.committees@[place->0 as int]@,
            ),
    {
        let mut i: usize = 0;
        while i < self.committees.len()
            invariant
                0 <= i <= self.committees.len(),
                forall|k: int| 0 <= k < i ==> (#[trigger] self@.committees[k]).round != round,
            decreases self.committees.len() - i,
        {
            if self.committees[i].round() == round {
                assert(self@.committees[i as int].round == round);
                return Some(i);
            }
            i += 1;
        }
        None
    }

    /// The committee stored for `round`, if any.
    pub fn get_committee_for_round(&self, round: u64) -> (committee: Option<Committee>)
        requires
            self.wf(),
        ensures
            match committee {
                Some(c) => self@.get_committee_for_round(round) == Some(c@) && c.wf(),
                None => self@.get_committee_for_round(round) is None,
            },
    {
        match self.find_committee(round) {
            Some(place) => {
                assert(self@.committees[place as int].wf());
                Some(self.committees[place].duplicate())
            },
            None => None,
        }
    }

    /// Stores `committee` for its round, in place of one stored for that round
    /// before, and drops what has fallen behind the garbage-collection round.
    pub fn insert_committee(&mut self, committee: Committee)
        requires
            old(self).wf(),
            committee.wf(),
        ensures
            final(self).wf(),
            final(self)@ == old(self)@.with_committee(committee@),
            final(self)@.get_committee_for_round(committee@.round) == Some(committee@),
    {
        let ghost before = self@;
        let round: u64 = committee.round();
        let gc_round: u64 = if round >= self.max_gc_rounds && round - self.max_gc_rounds
            > self.gc_round {
            round - self.max_gc_rounds
        } else {
            self.gc_round
        };
        assert(gc_round == gc_round_after(before.gc_round, before.max_gc_rounds, round));
        let ghost keep_committee = |c: CommitteeView| c.round != round && c.round >= gc_round;
        let ghost keep_certificate = |c: BatchCertificateView| c.header.round >= gc_round;

        let mut committees: Vec<Committee> = Vec::new();
        let mut i: usize = 0;
        proof {
            crate::seq_lemmas::lemma_filter_empty(before.committees, keep_committee);
            assert(committee_views(committees@) =~= before.committees.take(0).filter(
                keep_committee,
            ));
        }
        while i < self.committees.len()
            invariant
                0 <= i <= self.committees.len(),
                before == self@,
                keep_committee == |c: CommitteeView| c.round != round && c.round >= gc_round,
                committee_views(committees@) == before.committees.take(i as int).filter(
                    keep_committee,
                ),
            decreases self.committees.len() - i,
        {
            proof {
                lemma_filter_step(before.committees, keep_committee, i as int);
            }
            let r: u64 = self.committees[i].round();
            if r != round && r >= gc_round {
                let ghost earlier = committees@;
                committees.push(self.committees[i].duplicate());
                assert(committee_views(committees@) =~= committee_views(earlier).push(
                    before.committees[i as int],
                ));
            }
            i += 1;
        }
        assert(before.committees.take(before.committees.len() as int) =~= before.committees);

        let mut certificates: Vec<BatchCertificate> = Vec::new();
        let mut k: usize = 0;
        proof {
            crate::seq_lemmas::lemma_filter_empty(before.certificates, keep_certificate);
            assert(certificate_views(certificates@) =~= before.certificates.take(0).filter(
                keep_certificate,
            ));
        }
        while k < self.certificates.len()
            invariant
                0 <= k <= self.certificates.len(),
                before == self@,
                keep_certificate == |c: BatchCertificateView| c.header.round >= gc_round,
                certificate_views(certificates@) == before.certificates.take(k as int).filter(
                    keep_certificate,
                ),
            decreases self.certificates.len() - k,
        {
            proof {
                lemma_filter_step(before.certificates, keep_certificate, k as int);
            }
            if self.certificates[k].round() >= gc_round {
                let ghost earlier = certificates@;
                certificates.push(self.certificates[k].duplicate());
                assert(certificate_views(certificates@) =~= certificate_views(earlier).push(
                    before.certificates[k as int],
                ));
            }
            k += 1;
        }
        assert(before.certificates.take(before.certificates.len() as int) =~= before.certificates);

        let ghost kept_committees = committee_views(committees@);
        committees.push(committee);
        assert(committee_views(committees@) =~= kept_committees.push(committee@));
        self.committees = committees;
        self.certificates = certificates;
        self.gc_round = gc_round;
        proof {
            assert(self@ =~= before.with_committee(committee@));
            lemma_kept_distinct_rounds(before.committees, keep_committee);
            lemma_kept_distinct_ids(before.certificates, keep_certificate);
            lemma_filter_members(before.committees, keep_committee);
            let after = self@.committees;
            let last = after.len() - 1;
            assert(after[last] == committee@);
            assert forall|i: int| 0 <= i < after.len() implies (#[trigger] after[i]).wf() && (i
                < last ==> after[i].round != round) by {
                if i < last {
                    assert(kept_committees[i] == after[i]);
                    assert(kept_committees.contains(after[i]));
                    assert(before.committees.contains(after[i]));
                    let m = choose|m: int|
                        0 <= m < before.committees.len() && before.committees[m] == after[i];
                    assert(before.committees[m].wf());
                }
            }
            assert forall|i: int, j: int|
                0 <= i < after.len() && 0 <= j < after.len() && i != j implies after[i].round
                != after[j].round by {
                if i < last && j < last {
                    assert(kept_committees[i] == after[i]);
                    assert(kept_committees[j] == after[j]);
                }
            }
            assert(self@.contains_committee(round));
            let p = choose|i: int|
                0 <= i < self@.committees.len() && (#[trigger] self@.committees[i]).round == round;
            assert(p == last);
        }
    }

    /// Whether the transmission with this id is at hand.
    pub fn contains_transmission(&self, id: TransmissionId) -> (found: bool)
        ensures
            found == self@.transmissions.contains(id),
    {
        let mut i: usize = 0;
        while i < self.transmissions.len()
            invariant
                0 <= i <= self.transmissions.len(),
                forall|k: int| 0 <= k < i ==> self.transmissions@[k] != id,
            decreases self.transmissions.len() - i,
        {
            if self.transmissions[i] == id {
                assert(self.transmissions@.contains(id));
                return true;
            }
            i += 1;
        }
        assert(!self.transmissions@.contains(id));
        false
    }

    /// Notes that the transmission with this id is at hand.
    pub fn insert_transmission(&mut self, id: TransmissionId)
        requires
            old(self).wf(),
        ensures
            final(self).wf(),
            final(self)@ == old(self)@.with_transmission(id),
    {
        let ghost before = self@;
        let ghost ids = self.transmissions@;
        if !self.contains_transmission(id) {
            self.transmissions.push(id);
            proof {
                assert forall|x: TransmissionId|
                    self.transmissions@.to_set().contains(x) <==> ids.to_set().insert(
                        id,
                    ).contains(x) by {
                    if self.transmissions@.contains(x) {
                        let k = choose|k: int|
                            0 <= k < self.transmissions@.len() && self.transmissions@[k] == x;
                        if k < ids.len() {
                            assert(ids[k] == x);
                        }
                    }
                    if ids.contains(x) {
                        let k = choose|k: int| 0 <= k < ids.len() && ids[k] == x;
                        assert(self.transmissions@[k] == x);
                    }
                    if x == id {
                        assert(self.transmissions@[ids.len() as int] == x);
                    }
                }
            }
        }
        assert(self@.transmissions =~= before.transmissions.insert(id));
        assert(self@ =~= before.with_transmission(id));
    }
}

/// A certificate that is stored and whose round is not behind the
/// garbage-collection round is still there, under its id, once a committee
/// has been stored after it.
pub proof fn lemma_certificate_outlives_committee(
    storage: StorageView,
    certificate: BatchCertificateView,
    committee: CommitteeView,
)
    requires
        storage.wf(),
        !storage.contains_certificate(certificate.certificate_id()),
        certificate.header.round >= gc_round_after(
            storage.gc_round,
            storage.max_gc_rounds,
            committee.round,
        ),
    ensures
        storage.with_certificate(certificate).with_committee(committee).get_certificate(
            certificate.certificate_id(),
        ) == Some(certificate),
{
    let gc_round = gc_round_after(storage.gc_round, storage.max_gc_rounds, committee.round);
    let keep = |c: BatchCertificateView| c.header.round >= gc_round;
    let stored = storage.with_certificate(certificate);
    let all = stored.certificates;
    let last = all.len() - 1;
    assert(all[last] == certificate);
    assert forall|i: int, j: int|
        0 <= i < all.len() && 0 <= j < all.len() && i != j implies all[i].certificate_id()
        != all[j].certificate_id() by {
        if i < last {
            assert(all[i] == storage.certificates[i]);
        }
        if j < last {
            assert(all[j] == storage.certificates[j]);
        }
    }
    lemma_kept_distinct_ids(all, keep);
    lemma_filter_members(all, keep);
    let after = stored.with_committee(committee);
    assert(after.certificates == all.filter(keep));
    assert(all.contains(certificate));
    assert(after.certificates.contains(certificate));
    let k = choose|k: int|
        0 <= k < after.certificates.len() && after.certificates[k] == certificate;
    assert(after.certificates[k].certificate_id() == certificate.certificate_id());
    assert(after.contains_certificate(certificate.certificate_id()));
}

/// What is kept of committees of distinct rounds has distinct rounds.
proof fn lemma_kept_distinct_rounds(
    committees: Seq<CommitteeView>,
    keep: spec_fn(CommitteeView) -> bool,
)
    requires
        forall|i: int, j: int|
            0 <= i < committees.len() && 0 <= j < committees.len() && i != j
                ==> committees[i].round != committees[j].round,
    ensures
        forall|i: int, j: int|
            0 <= i < committees.filter(keep).len() && 0 <= j < committees.filter(keep).len() && i
                != j ==> committees.filter(keep)[i].round != committees.filter(keep)[j].round,
{
    let key = |c: CommitteeView| c.round;
    assert(distinct_by(committees, key));
    lemma_filter_keeps_distinct(committees, keep, key);
    let kept = committees.filter(keep);
    assert forall|i: int, j: int|
        0 <= i < kept.len() && 0 <= j < kept.len() && i != j implies kept[i].round
        != kept[j].round by {
        assert(key(kept[i]) != key(kept[j]));
    }
}

/// What is kept of certificates with distinct ids has distinct ids.
proof fn lemma_kept_distinct_ids(
    certificates: Seq<BatchCertificateView>,
    keep: spec_fn(BatchCertificateView) -> bool,
)
    requires
        forall|i: int, j: int|
            0 <= i < certificates.len() && 0 <= j < certificates.len() && i != j
                ==> certificates[i].certificate_id() != certificates[j].certificate_id(),
    ensures
        forall|i: int, j: int|
            0 <= i < certificates.filter(keep).len() && 0 <= j < certificates.filter(keep).len()
                && i != j ==> certificates.filter(keep)[i].certificate_id()
                != certificates.filter(keep)[j].certificate_id(),
{
    let key = |c: BatchCertificateView| c.certificate_id();
    assert(distinct_by(certificates, key));
    lemma_filter_keeps_distinct(certificates, keep, key);
    let kept = certificates.filter(keep);
    assert forall|i: int, j: int|
        0 <= i < kept.len() && 0 <= j < kept.len() && i != j implies kept[i].certificate_id()
        != kept[j].certificate_id() by {
        assert(key(kept[i]) != key(kept[j]));
    }
}

} // verus!
