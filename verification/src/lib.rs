//! The coordinator of a validator in a round-based DAG mempool: it proposes
//! batches of transmissions, gathers the committee's signatures on them,
//! certifies them once a quorum has signed, and takes in the certificates of
//! the other validators.
//!
//! The coordinator is a state machine. Each handler takes the message that
//! arrived and returns what is to be sent or fetched; nothing here touches
//! the network. Batch ids are derived and signatures made and checked by
//! `snarkvm`, the time is read from the system clock by `time`, and the
//! signatures of a proposal and the transmissions of a batch are gathered in
//! the ordered maps of `indexmap`.
//!
//! [`primary::PrimaryView`] is the state as the contracts see it, and
//! [`primary::PrimaryView::inv`] what holds of it in every state reached;
//! [`laws`] states what follows for the protocol.

pub mod account;
pub mod batch;
mod clock;
pub mod committee;
pub mod crypto;
pub mod error;
pub mod laws;
pub mod ordered_map;
pub mod pending;
pub mod primary;
pub mod proposal;
pub mod seq_lemmas;
pub mod storage;
pub mod types;

pub use account::Account;
pub use batch::{Batch, BatchCertificate, BatchHeader, BatchSignature, Transmission};
pub use committee::{Committee, Member};
pub use error::PrimaryError;
pub use pending::Pending;
pub use primary::{Admission, Backfill, Primary, SignatureOutcome, SignatureVerdict};
pub use proposal::BatchDraft;
pub use storage::Storage;
pub use types::{Address, Field, PeerAddr, Scalar, Signature, TransmissionId};
