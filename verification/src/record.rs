//! Secret records: what a read operation hands back for each secret.
use vstd::prelude::*;

verus! {

/// Whether a vault entry was locked when the search found it.
#[derive(Clone, Copy, Debug, PartialEq, Eq, Structural)]
pub enum LockState {
    Locked,
    Unlocked,
}

/// One secret as read from the vault. It exists only for the length of a
/// read; the vault keeps the secret itself.
#[derive(Clone, Debug, PartialEq, Eq)]
pub struct SecretRecord {
    /// The key under which the secret is stored.
    pub key: String,
    /// The secret, as text.
    pub value: String,
    /// The entry's lock state at the time of the search, where the vault has one.
    pub lock: Option<LockState>,
}

/// A secret record with its texts as character sequences.
pub struct SecretRecordView {
    pub key: Seq<char>,
    pub value: Seq<char>,
    pub lock: Option<LockState>,
}

impl View for SecretRecord {
    type V = SecretRecordView;

    open spec fn view(&self) -> SecretRecordView {
        SecretRecordView { key: self.key@, value: self.value@, lock: self.lock }
    }
}

impl DeepView for SecretRecord {
    type V = SecretRecordView;

    open spec fn deep_view(&self) -> SecretRecordView {
        self@
    }
}

/// The key and value of each record, in order.
pub open spec fn record_pairs(records: Seq<SecretRecordView>) -> Seq<(Seq<char>, Seq<char>)> {
    records.map_values(|r: SecretRecordView| (r.key, r.value))
}

} // verus!
