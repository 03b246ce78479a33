//! The course of one store operation, as a mathematical state machine: from
//! the state of a session and the vault's reply to the next state and the
//! next step. The executable store is proved to follow it exactly.
use vstd::prelude::*;
use vstd::utf8::{decode_utf8, encode_utf8, valid_utf8};
use crate::blob::{blob_records, decode_blob, encode_blob};
use crate::entries::{insert, lookup, Entries};
use crate::error::StoreErrorView;
use crate::filter::KeyFilterView;
use crate::indexed::{
    candidates_of, entry_attributes, entry_label, locked_indices, secret_content_type,
    CandidateView,
};
use crate::key::{first_invalid, valid_key};
use crate::protocol::{OutcomeView, SearchScope, StepView, VaultCallView, VaultReplyView};
use crate::record::{LockState, SecretRecordView};

verus! {

/// Where the store keeps the secrets of a namespace.
#[derive(Clone, Copy, Debug, PartialEq, Eq, Structural)]
pub enum Backend {
    /// All secrets of a namespace in one serialized vault entry.
    Blob,
    /// One vault entry per secret, found by its attributes.
    Indexed,
}

/// What a session waits for.
pub enum PhaseView {
    /// The blob, to set `key` to `value` in it.
    AwaitBlobForSet { key: Seq<char>, value: Seq<char> },
    /// The blob, to look `key` up in it.
    AwaitBlobForGet { key: Seq<char> },
    /// The blob, to list the secrets that the filter lets through.
    AwaitBlobForList { filter: KeyFilterView },
    /// The vault's word that the blob was stored.
    AwaitStored,
    /// The vault's word that the entry was created.
    AwaitCreated,
    /// The result of the search. With a `target`, the session is after the
    /// secret of that one key; without, after all that the filter lets through.
    AwaitFound { filter: KeyFilterView, target: Option<Seq<char>> },
    /// The vault's word that the locked candidates were unlocked.
    AwaitUnlocked { candidates: Seq<CandidateView>, single: bool },
    /// The secret of the candidate that follows those already read.
    AwaitSecret { candidates: Seq<CandidateView>, records: Seq<SecretRecordView>, single: bool },
    /// Nothing: the operation has ended.
    Finished,
}

/// The state of a session.
pub struct SessionView {
    pub namespace: Seq<char>,
    pub phase: PhaseView,
}

impl SessionView {
    /// A session that waits for a secret has one left to read, and one that
    /// waits for an unlock has a locked candidate.
    pub open spec fn wf(self) -> bool {
        match self.phase {
            PhaseView::AwaitSecret { candidates, records, single } => records.len()
                < candidates.len(),
            PhaseView::AwaitUnlocked { candidates, single } => candidates.len() > 0,
            _ => true,
        }
    }
}

/// The error for a reply that does not answer the call that was made.
pub open spec fn unexpected_reply() -> StoreErrorView {
    StoreErrorView::VaultUnavailable("unexpected reply from the vault"@)
}

/// The session after its operation has ended.
pub open spec fn finished(namespace: Seq<char>) -> SessionView {
    SessionView { namespace, phase: PhaseView::Finished }
}

/// The operation ends in `error`.
pub open spec fn fail(namespace: Seq<char>, error: StoreErrorView) -> (SessionView, StepView) {
    (finished(namespace), StepView::Failed(error))
}

/// The operation ends in `outcome`.
pub open spec fn done(namespace: Seq<char>, outcome: OutcomeView) -> (SessionView, StepView) {
    (finished(namespace), StepView::Done(outcome))
}

/// The call that reads a candidate's secret.
pub open spec fn read_call(candidate: CandidateView) -> VaultCallView {
    VaultCallView::ReadSecret { locked: candidate.locked, index: candidate.index }
}

/// The record of a candidate whose secret was read as `value`.
pub open spec fn candidate_record(candidate: CandidateView, value: Seq<char>) -> SecretRecordView {
    SecretRecordView {
        key: candidate.key,
        value,
        lock: Some(
            if candidate.locked {
                LockState::Locked
            } else {
                LockState::Unlocked
            },
        ),
    }
}

/// The first step of `set`.
pub open spec fn begin_set(
    backend: Backend,
    namespace: Seq<char>,
    key: Seq<char>,
    value: Seq<char>,
) -> (SessionView, StepView) {
    if !valid_key(key) {
        fail(namespace, StoreErrorView::InvalidKey(key))
    } else {
        match backend {
            Backend::Blob => (
                SessionView { namespace, phase: PhaseView::AwaitBlobForSet { key, value } },
                StepView::Call(VaultCallView::FetchBlob { namespace }),
            ),
            Backend::Indexed => (
                SessionView { namespace, phase: PhaseView::AwaitCreated },
                StepView::Call(
                    VaultCallView::CreateEntry {
                        label: entry_label(namespace, key),
                        attributes: entry_attributes(namespace, Some(key)),
                        secret: encode_utf8(value),
                        replace: true,
                        content_type: secret_content_type(),
                    },
                ),
            ),
        }
    }
}

/// The first step of `get`. On the indexed backend the key's entry is
/// searched for in the default collection, where `set` creates it.
pub open spec fn begin_get(backend: Backend, namespace: Seq<char>, key: Seq<char>) -> (
    SessionView,
    StepView,
) {
    if !valid_key(key) {
        fail(namespace, StoreErrorView::InvalidKey(key))
    } else {
        match backend {
            Backend::Blob => (
                SessionView { namespace, phase: PhaseView::AwaitBlobForGet { key } },
                StepView::Call(VaultCallView::FetchBlob { namespace }),
            ),
            Backend::Indexed => (
                SessionView {
                    namespace,
                    phase: PhaseView::AwaitFound {
                        filter: KeyFilterView::Only(seq![key]),
                        target: Some(key),
                    },
                },
                StepView::Call(
                    VaultCallView::Search {
                        attributes: entry_attributes(namespace, Some(key)),
                        scope: SearchScope::DefaultCollection,
                    },
                ),
            ),
        }
    }
}

/// The first step of a listing through `filter`. On the indexed backend
/// one search over every collection finds the entries of the namespace.
pub open spec fn begin_list(backend: Backend, namespace: Seq<char>, filter: KeyFilterView) -> (
    SessionView,
    StepView,
) {
    match backend {
        Backend::Blob => (
            SessionView { namespace, phase: PhaseView::AwaitBlobForList { filter } },
            StepView::Call(VaultCallView::FetchBlob { namespace }),
        ),
        Backend::Indexed => (
            SessionView { namespace, phase: PhaseView::AwaitFound { filter, target: None } },
            StepView::Call(
                VaultCallView::Search {
                    attributes: entry_attributes(namespace, None),
                    scope: SearchScope::AllCollections,
                },
            ),
        ),
    }
}

/// The first step of `list_filtered`. No keys at all ask for every key.
pub open spec fn begin_list_filtered(
    backend: Backend,
    namespace: Seq<char>,
    keys: Seq<Seq<char>>,
) -> (SessionView, StepView) {
    match first_invalid(keys) {
        Some(key) => fail(namespace, StoreErrorView::InvalidKey(key)),
        None => begin_list(backend, namespace, KeyFilterView::from_keys(keys)),
    }
}

/// The first step of `list_all`.
pub open spec fn begin_list_all(backend: Backend, namespace: Seq<char>) -> (
    SessionView,
    StepView,
) {
    begin_list(backend, namespace, KeyFilterView::All)
}

/// `set` after the blob was fetched: the mapping with the key set is stored
/// in its place. A blob that does not read as a mapping, and a changed
/// mapping whose bytes would not read back as itself, end the operation
/// with `Corrupt` and nothing is stored.
pub open spec fn after_blob_for_set(
    namespace: Seq<char>,
    key: Seq<char>,
    value: Seq<char>,
    fetched: Option<Seq<u8>>,
) -> (SessionView, StepView) {
    match decode_blob(fetched) {
        None => fail(namespace, StoreErrorView::Corrupt(namespace)),
        Some(e) => match encode_blob(insert(e, key, value)) {
            None => fail(namespace, StoreErrorView::Corrupt(namespace)),
            Some(bytes) => (
                SessionView { namespace, phase: PhaseView::AwaitStored },
                StepView::Call(VaultCallView::StoreBlob { namespace, bytes }),
            ),
        },
    }
}

/// `get` after the blob was fetched: the value under the key, `NotFound`
/// where the mapping has none, `Corrupt` where the blob reads as no mapping.
pub open spec fn after_blob_for_get(
    namespace: Seq<char>,
    key: Seq<char>,
    fetched: Option<Seq<u8>>,
) -> (SessionView, StepView) {
    match decode_blob(fetched) {
        None => fail(namespace, StoreErrorView::Corrupt(namespace)),
        Some(e) => match lookup(e, key) {
            Some(value) => done(namespace, OutcomeView::Value(value)),
            None => fail(namespace, StoreErrorView::NotFound(key)),
        },
    }
}

/// A listing after the blob was fetched: the records of the secrets that
/// the filter lets through, or `Corrupt` where the blob reads as no mapping.
pub open spec fn after_blob_for_list(
    namespace: Seq<char>,
    filter: KeyFilterView,
    fetched: Option<Seq<u8>>,
) -> (SessionView, StepView) {
    match decode_blob(fetched) {
        None => fail(namespace, StoreErrorView::Corrupt(namespace)),
        Some(e) => done(namespace, OutcomeView::Records(blob_records(e, filter))),
    }
}

/// The reading of the candidates' secrets begins, or there is nothing to read.
pub open spec fn start_reading(
    namespace: Seq<char>,
    candidates: Seq<CandidateView>,
    single: bool,
) -> (SessionView, StepView) {
    if candidates.len() == 0 {
        done(namespace, OutcomeView::Records(Seq::empty()))
    } else {
        (
            SessionView {
                namespace,
                phase: PhaseView::AwaitSecret { candidates, records: Seq::empty(), single },
            },
            StepView::Call(read_call(candidates[0])),
        )
    }
}

/// With a locked candidate, all locked candidates are unlocked in one batch
/// before anything is read; without one, no unlock is asked for.
pub open spec fn unlock_or_read(
    namespace: Seq<char>,
    candidates: Seq<CandidateView>,
    single: bool,
) -> (SessionView, StepView) {
    if locked_indices(candidates).len() > 0 {
        (
            SessionView { namespace, phase: PhaseView::AwaitUnlocked { candidates, single } },
            StepView::Call(VaultCallView::Unlock { entries: locked_indices(candidates) }),
        )
    } else {
        start_reading(namespace, candidates, single)
    }
}

/// A search has answered. The candidates are chosen before anything is
/// unlocked; a `get` goes on with the first of them alone.
pub open spec fn after_found(
    namespace: Seq<char>,
    filter: KeyFilterView,
    target: Option<Seq<char>>,
    locked: Seq<Entries>,
    unlocked: Seq<Entries>,
) -> (SessionView, StepView) {
    let all = candidates_of(locked, unlocked, filter);
    match target {
        Some(key) => if all.len() == 0 {
            fail(namespace, StoreErrorView::NotFound(key))
        } else {
            unlock_or_read(namespace, all.take(1), true)
        },
        None => unlock_or_read(namespace, all, false),
    }
}

/// One secret was read. Bytes that are no UTF-8 text end the operation;
/// otherwise the next secret is read, or the operation ends with what it has.
pub open spec fn after_secret(
    namespace: Seq<char>,
    candidates: Seq<CandidateView>,
    records: Seq<SecretRecordView>,
    single: bool,
    bytes: Seq<u8>,
) -> (SessionView, StepView) {
    let candidate = candidates[records.len() as int];
    if !valid_utf8(bytes) {
        fail(namespace, StoreErrorView::Corrupt(candidate.key))
    } else {
        let record = candidate_record(candidate, decode_utf8(bytes));
        let read = records.push(record);
        if read.len() < candidates.len() {
            (
                SessionView {
                    namespace,
                    phase: PhaseView::AwaitSecret { candidates, records: read, single },
                },
                StepView::Call(read_call(candidates[read.len() as int])),
            )
        } else if single {
            done(namespace, OutcomeView::Value(record.value))
        } else {
            done(namespace, OutcomeView::Records(read))
        }
    }
}

/// The text of the error for a secret that the vault did not hand out: it
/// names the key of the entry, and gives the vault's own text after it.
pub open spec fn unreadable(key: Seq<char>, message: Seq<char>) -> Seq<char> {
    "Unable to get `"@ + key + "` secret: "@ + message
}

/// The next state and step of a session that gets `reply`. A vault that
/// fails ends the operation: in `UnlockFailed` where the unlock was refused,
/// in `VaultUnavailable` with the key of the entry where a secret could not
/// be read, and in `VaultUnavailable` with the vault's text alone elsewhere.
/// Nothing that was read before is handed out then.
pub open spec fn resume(session: SessionView, reply: VaultReplyView) -> (SessionView, StepView) {
    let namespace = session.namespace;
    match (session.phase, reply) {
        (PhaseView::AwaitUnlocked { .. }, VaultReplyView::Failed(message)) => fail(
            namespace,
            StoreErrorView::UnlockFailed(message),
        ),
        (
            PhaseView::AwaitSecret { candidates, records, single },
            VaultReplyView::Failed(message),
        ) => fail(
            namespace,
            StoreErrorView::VaultUnavailable(
                unreadable(candidates[records.len() as int].key, message),
            ),
        ),
        (_, VaultReplyView::Failed(message)) => fail(
            namespace,
            StoreErrorView::VaultUnavailable(message),
        ),
        (
            PhaseView::AwaitBlobForSet { key, value },
            VaultReplyView::Blob(fetched),
        ) => after_blob_for_set(namespace, key, value, fetched),
        (PhaseView::AwaitBlobForGet { key }, VaultReplyView::Blob(fetched)) => after_blob_for_get(
            namespace,
            key,
            fetched,
        ),
        (
            PhaseView::AwaitBlobForList { filter },
            VaultReplyView::Blob(fetched),
        ) => after_blob_for_list(namespace, filter, fetched),
        (PhaseView::AwaitStored, VaultReplyView::Stored) => done(namespace, OutcomeView::Stored),
        (PhaseView::AwaitCreated, VaultReplyView::Created) => done(namespace, OutcomeView::Stored),
        (
            PhaseView::AwaitFound { filter, target },
            VaultReplyView::Found { locked, unlocked },
        ) => after_found(namespace, filter, target, locked, unlocked),
        (
            PhaseView::AwaitUnlocked { candidates, single },
            VaultReplyView::Unlocked,
        ) => start_reading(namespace, candidates, single),
        (
            PhaseView::AwaitSecret { candidates, records, single },
            VaultReplyView::Secret(bytes),
        ) => after_secret(namespace, candidates, records, single, bytes),
        _ => fail(namespace, unexpected_reply()),
    }
}

/// Listing everything is listing for no keys in particular.
pub proof fn list_all_is_list_without_keys(backend: Backend, namespace: Seq<char>)
    ensures
        begin_list_all(backend, namespace) == begin_list_filtered(backend, namespace, Seq::empty()),
{
}

} // verus!
