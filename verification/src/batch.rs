//! Batches, their headers, the signatures on them and their certificates.

use crate::crypto::{
    batch_id_of, derive_batch_id, signature_address, signature_verifies, signer_of,
    verify_signature,
};
use crate::types::{Address, Field, Signature, TransmissionId};
use vstd::prelude::*;

verus! {

/// A transaction or a prover solution that waits for a batch.
#[derive(Debug, PartialEq, Eq)]
pub struct Transmission {
    pub id: TransmissionId,
    pub payload: Vec<u8>,
}

/// A transmission, its payload as a sequence of bytes.
pub struct TransmissionView {
    pub id: TransmissionId,
    pub payload: Seq<u8>,
}

impl View for Transmission {
    type V = TransmissionView;

    open spec fn view(&self) -> TransmissionView {
        TransmissionView { id: self.id, payload: self.payload@ }
    }
}

impl Transmission {
    /// A copy of the transmission.
    pub fn duplicate(&self) -> (copy: Transmission)
        ensures
            copy@ == self@,
    {
        let payload = self.payload.clone();
        assert(payload@ =~= self.payload@);
        Transmission { id: self.id, payload }
    }
}

/// The ids of `transmissions`, in their order.
pub open spec fn ids_of(transmissions: Seq<TransmissionView>) -> Seq<TransmissionId> {
    Seq::new(transmissions.len(), |i: int| transmissions[i].id)
}

/// The views of `transmissions`, in their order.
pub open spec fn transmission_views(transmissions: Seq<Transmission>) -> Seq<TransmissionView> {
    Seq::new(transmissions.len(), |i: int| transmissions[i]@)
}

/// What a batch says of itself: who made it, for which round, when and under
/// which committee, which transmissions it holds and on which certificates
/// of the round before it builds. The id is derived from all of that, and the
/// author signs the id and the timestamp.
#[derive(Debug, PartialEq, Eq)]
pub struct BatchHeader {
    pub batch_id: Field,
    pub author: Address,
    pub round: u64,
    pub timestamp: i64,
    pub committee_id: Field,
    pub transmission_ids: Vec<TransmissionId>,
    pub previous_certificate_ids: Vec<Field>,
    pub signature: Signature,
}

/// A header, its lists as sequences.
pub struct BatchHeaderView {
    pub batch_id: Field,
    pub author: Address,
    pub round: u64,
    pub timestamp: i64,
    pub committee_id: Field,
    pub transmission_ids: Seq<TransmissionId>,
    pub previous_certificate_ids: Seq<Field>,
    pub signature: Signature,
}

impl View for BatchHeader {
    type V = BatchHeaderView;

    open spec fn view(&self) -> BatchHeaderView {
        BatchHeaderView {
            batch_id: self.batch_id,
            author: self.author,
            round: self.round,
            timestamp: self.timestamp,
            committee_id: self.committee_id,
            transmission_ids: self.transmission_ids@,
            previous_certificate_ids: self.previous_certificate_ids@,
            signature: self.signature,
        }
    }
}

/// The id that derives from what `header` says, where one can be derived.
pub open spec fn header_id(header: BatchHeaderView) -> Option<Field> {
    batch_id_of(
        header.author,
        header.round,
        header.timestamp,
        header.committee_id,
        header.transmission_ids,
        header.previous_certificate_ids,
    )
}

/// The id of the header is the one that derives from what it says, and the
/// author's signature is valid for the id and the timestamp.
pub open spec fn header_well_formed(header: BatchHeaderView) -> bool {
    &&& header_id(header) == Some(header.batch_id)
    &&& signature_verifies(header.signature, header.author, header.batch_id, header.timestamp)
}

impl BatchHeader {
    /// A copy of the header.
    pub fn duplicate(&self) -> (copy: BatchHeader)
        ensures
            copy@ == self@,
    {
        let transmission_ids = self.transmission_ids.clone();
        let previous_certificate_ids = self.previous_certificate_ids.clone();
        assert(transmission_ids@ =~= self.transmission_ids@);
        assert(previous_certificate_ids@ =~= self.previous_certificate_ids@);
        BatchHeader {
            batch_id: self.batch_id,
            author: self.author,
            round: self.round,
            timestamp: self.timestamp,
            committee_id: self.committee_id,
            transmission_ids,
            previous_certificate_ids,
            signature: self.signature,
        }
    }

    /// The id that derives from what the header says, where one can be
    /// derived.
    pub fn derive_id(&self) -> (id: Option<Field>)
        ensures
            id == header_id(self@),
    {
        derive_batch_id(
            &self.author,
            self.round,
            self.timestamp,
            &self.committee_id,
            &self.transmission_ids,
            &self.previous_certificate_ids,
        )
    }

    /// Whether the id is the one that derives from what the header says and
    /// the author's signature is valid for the id and the timestamp.
    pub fn is_well_formed(&self) -> (valid: bool)
        ensures
            valid == header_well_formed(self@),
    {
        match self.derive_id() {
            Some(id) => id == self.batch_id && verify_signature(
                &self.signature,
                &self.author,
                &self.batch_id,
                self.timestamp,
            ),
            None => false,
        }
    }
}

/// A batch: its header and the transmissions that the header lists.
#[derive(Debug, PartialEq, Eq)]
pub struct Batch {
    header: BatchHeader,
    transmissions: Vec<Transmission>,
}

/// A batch, its lists as sequences.
pub struct BatchView {
    pub header: BatchHeaderView,
    pub transmissions: Seq<TransmissionView>,
}

impl View for Batch {
    type V = BatchView;

    closed spec fn view(&self) -> BatchView {
        BatchView { header: self.header@, transmissions: transmission_views(self.transmissions@) }
    }
}

/// Copies `transmissions`.
pub fn duplicate_transmissions(transmissions: &Vec<Transmission>) -> (copy: Vec<Transmission>)
    ensures
        transmission_views(copy@) == transmission_views(transmissions@),
{
    let mut copy: Vec<Transmission> = Vec::new();
    let mut i: usize = 0;
    while i < transmissions.len()
        invariant
            0 <= i <= transmissions.len(),
            copy@.len() == i,
            forall|k: int| 0 <= k < i ==> copy@[k]@ == transmissions@[k]@,
        decreases transmissions.len() - i,
    {
        copy.push(transmissions[i].duplicate());
        i += 1;
    }
    assert(transmission_views(copy@) =~= transmission_views(transmissions@));
    copy
}

impl Batch {
    /// A batch lists in its header the ids of its transmissions, in order.
    pub open spec fn wf(&self) -> bool {
        self@.header.transmission_ids == ids_of(self@.transmissions)
    }

    /// Puts `header` and `transmissions` together. `None` where the header
    /// does not list exactly the ids of the transmissions, in their order.
    pub fn new(header: BatchHeader, transmissions: Vec<Transmission>) -> (batch: Option<Batch>)
        ensures
            batch is Some <==> header@.transmission_ids == ids_of(
                transmission_views(transmissions@),
            ),
            batch is Some ==> batch->0.wf() && batch->0@ == (BatchView {
                header: header@,
                transmissions: transmission_views(transmissions@),
            }),
    {
        let ghost views = transmission_views(transmissions@);
        if header.transmission_ids.len() != transmissions.len() {
            assert(ids_of(views).len() != header@.transmission_ids.len());
            return None;
        }
        let mut i: usize = 0;
        while i < transmissions.len()
            invariant
                0 <= i <= transmissions.len(),
                header.transmission_ids.len() == transmissions.len(),
                views == transmission_views(transmissions@),
                forall|k: int| 0 <= k < i ==> header.transmission_ids@[k] == ids_of(views)[k],
            decreases transmissions.len() - i,
        {
            if header.transmission_ids[i] != transmissions[i].id {
                assert(header@.transmission_ids[i as int] != ids_of(views)[i as int]);
                return None;
            }
            i += 1;
        }
        assert(header@.transmission_ids =~= ids_of(views));
        Some(Batch { header, transmissions })
    }

    /// The id of the batch.
    pub fn batch_id(&self) -> (id: Field)
        ensures
            id == self@.header.batch_id,
    {
        self.header.batch_id
    }

    /// The round of the batch.
    pub fn round(&self) -> (round: u64)
        ensures
            round == self@.header.round,
    {
        self.header.round
    }

    /// The time at which the batch was made.
    pub fn timestamp(&self) -> (timestamp: i64)
        ensures
            timestamp == self@.header.timestamp,
    {
        self.header.timestamp
    }

    /// The header of the batch.
    pub fn to_header(&self) -> (header: BatchHeader)
        ensures
            header@ == self@.header,
    {
        self.header.duplicate()
    }

    /// The transmissions of the batch.
    pub fn transmissions(&self) -> (transmissions: Vec<Transmission>)
        ensures
            transmission_views(transmissions@) == self@.transmissions,
    {
        duplicate_transmissions(&self.transmissions)
    }

    /// A copy of the batch.
    pub fn duplicate(&self) -> (copy: Batch)
        ensures
            copy@ == self@,
            self.wf() ==> copy.wf(),
    {
        Batch {
            header: self.header.duplicate(),
            transmissions: duplicate_transmissions(&self.transmissions),
        }
    }
}

/// A validator's signature on another's batch, with the time of signing:
/// what a peer sends back for a proposal.
#[derive(Clone, Copy, Debug, PartialEq, Eq, Structural)]
pub struct BatchSignature {
    pub batch_id: Field,
    pub signature: Signature,
    pub timestamp: i64,
}

/// Whether a signature with its time of signing is valid for `batch_id`, under
/// the address of the key that it carries.
pub open spec fn cosignature_valid(batch_id: Field, signed: (Signature, i64)) -> bool {
    match signer_of(signed.0) {
        Some(signer) => signature_verifies(signed.0, signer, batch_id, signed.1),
        None => false,
    }
}

/// The addresses that made `signatures`.
pub open spec fn signers_of(signatures: Seq<(Signature, i64)>) -> Set<Address> {
    Set::new(
        |address: Address|
            exists|i: int|
                0 <= i < signatures.len() && signer_of((#[trigger] signatures[i]).0) == Some(
                    address,
                ),
    )
}

/// A header with the signatures of a quorum: a vertex of the DAG.
#[derive(Debug, PartialEq, Eq)]
pub struct BatchCertificate {
    header: BatchHeader,
    signatures: Vec<(Signature, i64)>,
}

/// A certificate, its lists as sequences.
pub struct BatchCertificateView {
    pub header: BatchHeaderView,
    pub signatures: Seq<(Signature, i64)>,
}

impl BatchCertificateView {
    /// The author of the batch and those who signed it.
    pub open spec fn signers(self) -> Set<Address> {
        signers_of(self.signatures).insert(self.header.author)
    }

    /// The id of the certificate: that of its batch.
    pub open spec fn certificate_id(self) -> Field {
        self.header.batch_id
    }

    /// The author's signature and every signature of a peer is valid.
    pub open spec fn well_formed(self) -> bool {
        &&& header_well_formed(self.header)
        &&& forall|i: int|
            0 <= i < self.signatures.len() ==> cosignature_valid(
                self.header.batch_id,
                #[trigger] self.signatures[i],
            )
    }
}

impl View for BatchCertificate {
    type V = BatchCertificateView;

    closed spec fn view(&self) -> BatchCertificateView {
        BatchCertificateView { header: self.header@, signatures: self.signatures@ }
    }
}

/// Whether the author's signature on `header` and each of `signatures` is
/// valid for the batch id and its time of signing.
pub fn signatures_valid(header: &BatchHeader, signatures: &Vec<(Signature, i64)>) -> (valid: bool)
    ensures
        valid == (BatchCertificateView { header: header@, signatures: signatures@ }).well_formed(),
{
    let ghost view = BatchCertificateView { header: header@, signatures: signatures@ };
    if !header.is_well_formed() {
        return false;
    }
    let mut i: usize = 0;
    while i < signatures.len()
        invariant
            0 <= i <= signatures.len(),
            view == (BatchCertificateView { header: header@, signatures: signatures@ }),
            forall|k: int|
                0 <= k < i ==> cosignature_valid(
                    view.header.batch_id,
                    #[trigger] view.signatures[k],
                ),
        decreases signatures.len() - i,
    {
        let signed: (Signature, i64) = signatures[i];
        let valid: bool = match signature_address(&signed.0) {
            Some(signer) => verify_signature(&signed.0, &signer, &header.batch_id, signed.1),
            None => false,
        };
        if !valid {
            assert(!cosignature_valid(view.header.batch_id, view.signatures[i as int]));
            return false;
        }
        i += 1;
    }
    true
}

impl BatchCertificate {
    /// A certificate exists only with valid signatures.
    #[verifier::type_invariant]
    spec fn valid(self) -> bool {
        self@.well_formed()
    }

    /// Makes the certificate of `header` from the signatures gathered.
    /// `None` where the author's signature or one of the others is not valid
    /// for the batch id and its time of signing.
    pub fn new(header: BatchHeader, signatures: Vec<(Signature, i64)>) -> (certificate: Option<
        BatchCertificate,
    >)
        ensures
            certificate is Some <==> (BatchCertificateView {
                header: header@,
                signatures: signatures@,
            }).well_formed(),
            certificate is Some ==> certificate->0@ == (BatchCertificateView {
                header: header@,
                signatures: signatures@,
            }),
    {
        if signatures_valid(&header, &signatures) {
            Some(BatchCertificate { header, signatures })
        } else {
            None
        }
    }

    /// The id of the certificate: that of its batch. A certificate at hand
    /// has valid signatures.
    pub fn certificate_id(&self) -> (id: Field)
        ensures
            id == self@.certificate_id(),
            self@.well_formed(),
    {
        proof {
            use_type_invariant(self);
        }
        self.header.batch_id
    }

    /// The id of the batch.
    pub fn batch_id(&self) -> (id: Field)
        ensures
            id == self@.header.batch_id,
    {
        self.header.batch_id
    }

    /// The round of the batch.
    pub fn round(&self) -> (round: u64)
        ensures
            round == self@.header.round,
    {
        self.header.round
    }

    /// The author of the batch.
    pub fn author(&self) -> (author: Address)
        ensures
            author == self@.header.author,
    {
        self.header.author
    }

    /// The header of the batch.
    pub fn batch_header(&self) -> (header: &BatchHeader)
        ensures
            header@ == self@.header,
    {
        &self.header
    }

    /// The signatures of the peers, each with its time of signing.
    pub fn signatures(&self) -> (signatures: Vec<(Signature, i64)>)
        ensures
            signatures@ == self@.signatures,
    {
        copy_signatures(&self.signatures)
    }

    /// The author followed by the signer of each signature, in order.
    pub fn signer_addresses(&self) -> (signers: Vec<Address>)
        ensures
            signers@.to_set() == self@.signers(),
    {
        let signers = collect_signers(self.header.author, &self.signatures);
        signers
    }

    /// A copy of the certificate.
    pub fn duplicate(&self) -> (copy: BatchCertificate)
        ensures
            copy@ == self@,
    {
        proof {
            use_type_invariant(self);
        }
        BatchCertificate {
            header: self.header.duplicate(),
            signatures: copy_signatures(&self.signatures),
        }
    }
}

/// Copies `signatures`.
pub fn copy_signatures(signatures: &Vec<(Signature, i64)>) -> (copy: Vec<(Signature, i64)>)
    ensures
        copy@ == signatures@,
{
    let mut copy: Vec<(Signature, i64)> = Vec::new();
    let mut i: usize = 0;
    while i < signatures.len()
        invariant
            0 <= i <= signatures.len(),
            copy@ == signatures@.take(i as int),
        decreases signatures.len() - i,
    {
        copy.push(signatures[i]);
        assert(copy@ =~= signatures@.take(i + 1));
        i += 1;
    }
    assert(signatures@.take(signatures@.len() as int) =~= signatures@);
    copy
}

/// The author followed by the signer of each of `signatures`, in order; a
/// signature that carries no address adds nothing.
pub fn collect_signers(author: Address, signatures: &Vec<(Signature, i64)>) -> (signers: Vec<
    Address,
>)
    ensures
        signers@.to_set() == signers_of(signatures@).insert(author),
{
    let mut signers: Vec<Address> = Vec::new();
    signers.push(author);
    proof {
        assert(signers@[0] == author);
        assert(signers@.to_set() =~= signers_of(signatures@.take(0)).insert(author));
    }
    let mut i: usize = 0;
    while i < signatures.len()
        invariant
            0 <= i <= signatures.len(),
            signers@.len() >= 1,
            signers@[0] == author,
            signers@.to_set() == signers_of(signatures@.take(i as int)).insert(author),
        decreases signatures.len() - i,
    {
        let ghost before = signers@;
        let ghost prefix = signatures@.take(i as int);
        let ghost longer = signatures@.take(i + 1);
        let found: Option<Address> = signature_address(&signatures[i].0);
        match found {
            Some(signer) => {
                signers.push(signer);
            },
            None => {},
        }
        proof {
            let target = signers_of(longer).insert(author);
            assert forall|a: Address| signers@.to_set().contains(a) <==> target.contains(
                a,
            ) by {
                if signers@.to_set().contains(a) {
                    let k = choose|k: int| 0 <= k < signers@.len() && signers@[k] == a;
                    if k < before.len() {
                        assert(before[k] == a);
                        assert(before.to_set().contains(a));
                        if a != author {
                            let j = choose|j: int|
                                0 <= j < prefix.len() && signer_of((#[trigger] prefix[j]).0)
                                    == Some(a);
                            assert(longer[j] == prefix[j]);
                        }
                    } else {
                        assert(signer_of(longer[i as int].0) == Some(a));
                    }
                }
                if target.contains(a) && a != author {
                    let j = choose|j: int|
                        0 <= j < longer.len() && signer_of((#[trigger] longer[j]).0) == Some(a);
                    if j < i {
                        assert(prefix[j] == longer[j]);
                        assert(signers_of(prefix).contains(a));
                        assert(before.to_set().contains(a));
                        let k = choose|k: int| 0 <= k < before.len() && before[k] == a;
                        assert(signers@[k] == a);
                    } else {
                        assert(signers@[signers@.len() - 1] == a);
                    }
                }
                if a == author {
                    assert(signers@[0] == a);
                }
            }
            assert(signers@.to_set() =~= target);
        }
        i += 1;
    }
    assert(signatures@.take(signatures@.len() as int) =~= signatures@);
    signers
}

} // verus!
