//! The secret store: one interface over both backends. An operation is a
//! session. The store never talks to the vault itself: each step either
//! names the next call to make, whose reply resumes the session, or ends the
//! operation. Keys are checked before the first call.
use vstd::prelude::*;
use vstd::string::*;
use crate::blob::NamespaceBlob;
use crate::error::{StoreError, StoreErrorView};
use crate::filter::KeyFilter;
use crate::indexed::{
    collect_items, entry_attributes, entry_label, locked_entries, Candidate, CandidateView,
    FoundEntry,
};
use crate::key::{is_valid_key, valid_key, validate_keys};
use crate::protocol::{Outcome, SearchScope, Step, VaultCall, VaultReply};
use crate::record::{LockState, SecretRecord, SecretRecordView};
use crate::session::{
    after_blob_for_get, after_blob_for_list, after_blob_for_set, after_found, after_secret,
    begin_get, begin_list, begin_list_all, begin_list_filtered, begin_set, candidate_record, done,
    fail, finished, read_call, resume, start_reading, unlock_or_read, unreadable, Backend,
    PhaseView, SessionView,
};

verus! {

/// What a session waits for, with what it needs to go on.
enum Phase {
    AwaitBlobForSet { key: String, value: String },
    AwaitBlobForGet { key: String },
    AwaitBlobForList { filter: KeyFilter },
    AwaitStored,
    AwaitCreated,
    AwaitFound { filter: KeyFilter, target: Option<String> },
    AwaitUnlocked { candidates: Vec<Candidate>, single: bool },
    AwaitSecret { candidates: Vec<Candidate>, records: Vec<SecretRecord>, single: bool },
    Finished,
}

impl View for Phase {
    type V = PhaseView;

    closed spec fn view(&self) -> PhaseView {
        match self {
            Phase::AwaitBlobForSet { key, value } => PhaseView::AwaitBlobForSet {
                key: key@,
                value: value@,
            },
            Phase::AwaitBlobForGet { key } => PhaseView::AwaitBlobForGet { key: key@ },
            Phase::AwaitBlobForList { filter } => PhaseView::AwaitBlobForList { filter: filter@ },
            Phase::AwaitStored => PhaseView::AwaitStored,
            Phase::AwaitCreated => PhaseView::AwaitCreated,
            Phase::AwaitFound { filter, target } => PhaseView::AwaitFound {
                filter: filter@,
                target: target.deep_view(),
            },
            Phase::AwaitUnlocked { candidates, single } => PhaseView::AwaitUnlocked {
                candidates: candidates.deep_view(),
                single: *single,
            },
            Phase::AwaitSecret { candidates, records, single } => PhaseView::AwaitSecret {
                candidates: candidates.deep_view(),
                records: records.deep_view(),
                single: *single,
            },
            Phase::Finished => PhaseView::Finished,
        }
    }
}

/// One store operation under way.
pub struct Session {
    namespace: String,
    phase: Phase,
}

impl View for Session {
    type V = SessionView;

    closed spec fn view(&self) -> SessionView {
        SessionView { namespace: self.namespace@, phase: self.phase@ }
    }
}

/// The store of one namespace, on one backend.
#[derive(Clone, Debug, PartialEq, Eq)]
pub struct SecretStore {
    backend: Backend,
    namespace: String,
}

/// The session after its operation has ended.
fn finish(namespace: String) -> (r: Session)
    ensures
        r@ == finished(namespace@),
{
    Session { namespace, phase: Phase::Finished }
}

/// Ends the operation in `error`.
fn failed(namespace: String, error: StoreError) -> (r: (Session, Step))
    ensures
        (r.0@, r.1@) == fail(namespace@, error@),
{
    (finish(namespace), Step::Failed(error))
}

/// Ends the operation in `outcome`.
fn succeeded(namespace: String, outcome: Outcome) -> (r: (Session, Step))
    ensures
        (r.0@, r.1@) == done(namespace@, outcome@),
{
    (finish(namespace), Step::Done(outcome))
}

/// Ends the operation because the reply does not answer the call that was made.
fn unexpected(namespace: String) -> (r: (Session, Step))
    ensures
        (r.0@, r.1@) == fail(namespace@, crate::session::unexpected_reply()),
{
    failed(
        namespace,
        StoreError::VaultUnavailable(String::from_str("unexpected reply from the vault")),
    )
}

/// The attributes that tag the entries of a namespace and, with a key, the
/// one entry of that key.
fn attributes_for(namespace: &str, key: Option<&str>) -> (r: Vec<(String, String)>)
    ensures
        r.deep_view() == entry_attributes(
            namespace@,
            match key {
                Some(k) => Some(k@),
                None => None,
            },
        ),
{
    let mut out: Vec<(String, String)> = Vec::new();
    out.push((String::from_str("app"), String::from_str("env-secrets")));
    out.push((String::from_str("namespace"), String::from_str(namespace)));
    match key {
        Some(k) => {
            out.push((String::from_str("env"), String::from_str(k)));
            assert(out.deep_view() =~= entry_attributes(namespace@, Some(k@)));
        },
        None => {
            assert(out.deep_view() =~= entry_attributes(namespace@, None));
        },
    }
    out
}

/// The label of the entry that holds `key` in `namespace`.
fn label_for(namespace: &str, key: &str) -> (r: String)
    ensures
        r@ == entry_label(namespace@, key@),
{
    let mut out = String::from_str("env-secrets/");
    out.append(namespace);
    out.append("/");
    out.append(key);
    out
}

/// The text of the error for a secret that the vault did not hand out.
fn unreadable_text(key: &str, message: &str) -> (r: String)
    ensures
        r@ == unreadable(key@, message@),
{
    let mut out = String::from_str("Unable to get `");
    out.append(key);
    out.append("` secret: ");
    out.append(message);
    out
}

/// The call that reads a candidate's secret.
fn read_of(candidate: &Candidate) -> (r: VaultCall)
    ensures
        r@ == read_call(candidate@),
{
    VaultCall::ReadSecret { locked: candidate.locked, index: candidate.index }
}

/// Asks for the first candidate's secret, or ends where there is no candidate.
fn begin_reading(namespace: String, candidates: Vec<Candidate>, single: bool) -> (r: (
    Session,
    Step,
))
    ensures
        (r.0@, r.1@) == start_reading(namespace@, candidates.deep_view(), single),
        r.0@.wf(),
{
    if candidates.len() == 0 {
        let records: Vec<SecretRecord> = Vec::new();
        assert(records.deep_view() =~= Seq::<SecretRecordView>::empty());
        succeeded(namespace, Outcome::Records(records))
    } else {
        let call = read_of(&candidates[0]);
        let records: Vec<SecretRecord> = Vec::new();
        assert(records.deep_view() =~= Seq::<SecretRecordView>::empty());
        (
            Session { namespace, phase: Phase::AwaitSecret { candidates, records, single } },
            Step::Call(call),
        )
    }
}

/// Asks for one batch unlock of all locked candidates where there is one,
/// and goes on to the reading where there is none.
fn begin_unlock_or_read(namespace: String, candidates: Vec<Candidate>, single: bool) -> (r: (
    Session,
    Step,
))
    ensures
        (r.0@, r.1@) == unlock_or_read(namespace@, candidates.deep_view(), single),
        r.0@.wf(),
{
    let entries = locked_entries(&candidates);
    if entries.len() > 0 {
        assert(candidates.deep_view().len() > 0);
        (
            Session { namespace, phase: Phase::AwaitUnlocked { candidates, single } },
            Step::Call(VaultCall::Unlock { entries }),
        )
    } else {
        begin_reading(namespace, candidates, single)
    }
}

/// Takes the result of a search: picks the candidates, and with them goes
/// on to the unlock or to the reading.
fn on_found(
    namespace: String,
    filter: KeyFilter,
    target: Option<String>,
    locked: Vec<FoundEntry>,
    unlocked: Vec<FoundEntry>,
) -> (r: (Session, Step))
    ensures
        (r.0@, r.1@) == after_found(
            namespace@,
            filter@,
            target.deep_view(),
            locked.deep_view(),
            unlocked.deep_view(),
        ),
        r.0@.wf(),
{
    let mut all: Vec<Candidate> = Vec::new();
    assert(all.deep_view() =~= Seq::<CandidateView>::empty());
    collect_items(&mut all, &locked, &filter, true);
    collect_items(&mut all, &unlocked, &filter, false);
    let ghost found = all.deep_view();
    assert(found =~= crate::indexed::candidates_of(
        locked.deep_view(),
        unlocked.deep_view(),
        filter@,
    ));
    match target {
        Some(key) => {
            if all.len() == 0 {
                failed(namespace, StoreError::NotFound(key))
            } else {
                all.truncate(1);
                assert(all.deep_view() =~= found.take(1));
                begin_unlock_or_read(namespace, all, true)
            }
        },
        None => begin_unlock_or_read(namespace, all, false),
    }
}

/// Takes the secret of the candidate that was read, and goes on to the next
/// candidate or ends with what was read.
fn on_secret(
    namespace: String,
    candidates: Vec<Candidate>,
    records: Vec<SecretRecord>,
    single: bool,
    bytes: Vec<u8>,
) -> (r: (Session, Step))
    requires
        records.len() < candidates.len(),
    ensures
        (r.0@, r.1@) == after_secret(
            namespace@,
            candidates.deep_view(),
            records.deep_view(),
            single,
            bytes@,
        ),
        r.0@.wf(),
{
    let mut records = records;
    let ghost before = records.deep_view();
    let at = records.len();
    let ghost candidate = candidates[at as int]@;
    assert(candidates.deep_view()[at as int] == candidate);
    match String::from_utf8(bytes) {
        Err(_) => failed(namespace, StoreError::Corrupt(candidates[at].key.clone())),
        Ok(value) => {
            let lock = if candidates[at].locked {
                LockState::Locked
            } else {
                LockState::Unlocked
            };
            let record = SecretRecord {
                key: candidates[at].key.clone(),
                value: value.clone(),
                lock: Some(lock),
            };
            assert(record@ == candidate_record(candidate, value@));
            records.push(record);
            assert(records.deep_view() =~= before.push(candidate_record(candidate, value@)));
            if records.len() < candidates.len() {
                let call = read_of(&candidates[records.len()]);
                (
                    Session { namespace, phase: Phase::AwaitSecret { candidates, records, single } },
                    Step::Call(call),
                )
            } else if single {
                succeeded(namespace, Outcome::Value(value))
            } else {
                succeeded(namespace, Outcome::Records(records))
            }
        },
    }
}

/// Takes the fetched blob of a `set`: sets the key in its mapping and asks
/// for the changed mapping to be stored.
fn on_blob_for_set(namespace: String, key: String, value: String, fetched: Option<Vec<u8>>) -> (r:
    (Session, Step))
    ensures
        (r.0@, r.1@) == after_blob_for_set(
            namespace@,
            key@,
            value@,
            crate::blob::bytes_view(fetched),
        ),
        r.0@.wf(),
{
    match NamespaceBlob::decode(&fetched) {
        None => {
            let name = namespace.clone();
            failed(namespace, StoreError::Corrupt(name))
        },
        Some(blob) => {
            let blob = blob.insert(key, value);
            match blob.encode() {
                None => {
                    let name = namespace.clone();
                    failed(namespace, StoreError::Corrupt(name))
                },
                Some(bytes) => {
                    let target = namespace.clone();
                    (
                        Session { namespace, phase: Phase::AwaitStored },
                        Step::Call(VaultCall::StoreBlob { namespace: target, bytes }),
                    )
                },
            }
        },
    }
}

/// Takes the fetched blob of a `get` and looks the key up in its mapping.
fn on_blob_for_get(namespace: String, key: String, fetched: Option<Vec<u8>>) -> (r: (
    Session,
    Step,
))
    ensures
        (r.0@, r.1@) == after_blob_for_get(namespace@, key@, crate::blob::bytes_view(fetched)),
        r.0@.wf(),
{
    match NamespaceBlob::decode(&fetched) {
        None => {
            let name = namespace.clone();
            failed(namespace, StoreError::Corrupt(name))
        },
        Some(blob) => match blob.get(key.as_str()) {
            Some(value) => {
                let value = value.clone();
                succeeded(namespace, Outcome::Value(value))
            },
            None => failed(namespace, StoreError::NotFound(key)),
        },
    }
}

/// Takes the fetched blob of a listing and lists its mapping through the filter.
fn on_blob_for_list(namespace: String, filter: KeyFilter, fetched: Option<Vec<u8>>) -> (r: (
    Session,
    Step,
))
    ensures
        (r.0@, r.1@) == after_blob_for_list(
            namespace@,
            filter@,
            crate::blob::bytes_view(fetched),
        ),
        r.0@.wf(),
{
    match NamespaceBlob::decode(&fetched) {
        None => {
            let name = namespace.clone();
            failed(namespace, StoreError::Corrupt(name))
        },
        Some(blob) => {
            let records = blob.records(&filter);
            succeeded(namespace, Outcome::Records(records))
        },
    }
}

impl SecretStore {
    /// The store's backend.
    pub closed spec fn spec_backend(&self) -> Backend {
        self.backend
    }

    /// The store's namespace.
    pub closed spec fn spec_namespace(&self) -> Seq<char> {
        self.namespace@
    }

    /// The store of `namespace` on `backend`. A namespace is not empty: for
    /// an empty one there is no store.
    pub fn new(backend: Backend, namespace: String) -> (r: Option<SecretStore>)
        ensures
            namespace@.len() == 0 <==> r is None,
            r matches Some(store) ==> store.spec_backend() == backend && store.spec_namespace()
                == namespace@,
    {
        if namespace.as_str().is_empty() {
            None
        } else {
            Some(SecretStore { backend, namespace })
        }
    }

    /// The store's backend.
    pub fn backend(&self) -> (r: Backend)
        ensures
            r == self.spec_backend(),
    {
        self.backend
    }

    /// The store's namespace.
    pub fn namespace(&self) -> (r: &String)
        ensures
            r@ == self.spec_namespace(),
    {
        &self.namespace
    }

    /// Begins a listing through `filter`.
    fn begin_listing(&self, filter: KeyFilter) -> (r: (Session, Step))
        ensures
            (r.0@, r.1@) == begin_list(self.spec_backend(), self.spec_namespace(), filter@),
            r.0@.wf(),
    {
        let namespace = self.namespace.clone();
        match self.backend {
            Backend::Blob => {
                let target = namespace.clone();
                (
                    Session { namespace, phase: Phase::AwaitBlobForList { filter } },
                    Step::Call(VaultCall::FetchBlob { namespace: target }),
                )
            },
            Backend::Indexed => {
                let attributes = attributes_for(namespace.as_str(), None);
                (
                    Session { namespace, phase: Phase::AwaitFound { filter, target: None } },
                    Step::Call(
                        VaultCall::Search { attributes, scope: SearchScope::AllCollections },
                    ),
                )
            },
        }
    }

    /// Ends an operation on a key that does not match the key grammar, before
    /// anything else is looked at.
    pub(crate) fn refuse_key(&self, key: String) -> (r: (Session, Step))
        requires
            !valid_key(key@),
        ensures
            (r.0@, r.1@) == fail(self.spec_namespace(), StoreErrorView::InvalidKey(key@)),
            r.0@.wf(),
    {
        failed(self.namespace.clone(), StoreError::InvalidKey(key))
    }

    /// Begins to set `key` to `value`. An invalid key ends the operation at
    /// once. On the blob backend the namespace's blob is fetched, changed and
    /// stored whole; two such operations that overlap in time both start from
    /// the blob as it was, and the one that stores last undoes the other. On
    /// the indexed backend the key's entry is created, in place of one with
    /// the same attributes.
    pub fn set(&self, key: String, value: String) -> (r: (Session, Step))
        ensures
            (r.0@, r.1@) == begin_set(self.spec_backend(), self.spec_namespace(), key@, value@),
            r.0@.wf(),
    {
        let namespace = self.namespace.clone();
        if !is_valid_key(key.as_str()) {
            return failed(namespace, StoreError::InvalidKey(key));
        }
        match self.backend {
            Backend::Blob => {
                let target = namespace.clone();
                (
                    Session { namespace, phase: Phase::AwaitBlobForSet { key, value } },
                    Step::Call(VaultCall::FetchBlob { namespace: target }),
                )
            },
            Backend::Indexed => {
                let label = label_for(namespace.as_str(), key.as_str());
                let attributes = attributes_for(namespace.as_str(), Some(key.as_str()));
                let secret = value.as_str().as_bytes_vec();
                (
                    Session { namespace, phase: Phase::AwaitCreated },
                    Step::Call(
                        VaultCall::CreateEntry {
                            label,
                            attributes,
                            secret,
                            replace: true,
                            content_type: String::from_str("text/plain"),
                        },
                    ),
                )
            },
        }
    }

    /// Begins to read the secret under `key`. An invalid key ends the
    /// operation at once.
    pub fn get(&self, key: String) -> (r: (Session, Step))
        ensures
            (r.0@, r.1@) == begin_get(self.spec_backend(), self.spec_namespace(), key@),
            r.0@.wf(),
    {
        let namespace = self.namespace.clone();
        if !is_valid_key(key.as_str()) {
            return failed(namespace, StoreError::InvalidKey(key));
        }
        match self.backend {
            Backend::Blob => {
                let target = namespace.clone();
                (
                    Session { namespace, phase: Phase::AwaitBlobForGet { key } },
                    Step::Call(VaultCall::FetchBlob { namespace: target }),
                )
            },
            Backend::Indexed => {
                let attributes = attributes_for(namespace.as_str(), Some(key.as_str()));
                let mut only: Vec<String> = Vec::new();
                only.push(key.clone());
                assert(only.deep_view() =~= seq![key@]);
                (
                    Session {
                        namespace,
                        phase: Phase::AwaitFound {
                            filter: KeyFilter::Only(only),
                            target: Some(key),
                        },
                    },
                    Step::Call(
                        VaultCall::Search { attributes, scope: SearchScope::DefaultCollection },
                    ),
                )
            },
        }
    }

    /// Begins to list the secrets under the given keys, or all secrets of the
    /// namespace where no key is given. The first invalid key ends the
    /// operation at once.
    pub fn list_filtered(&self, keys: Vec<String>) -> (r: (Session, Step))
        ensures
            (r.0@, r.1@) == begin_list_filtered(
                self.spec_backend(),
                self.spec_namespace(),
                keys.deep_view(),
            ),
            r.0@.wf(),
    {
        let slice = keys.as_slice();
        assert(slice.deep_view() =~= keys.deep_view());
        match validate_keys(slice) {
            Err(error) => failed(self.namespace.clone(), error),
            Ok(()) => self.begin_listing(KeyFilter::from_keys(keys)),
        }
    }

    /// Begins to list all secrets of the namespace.
    pub fn list_all(&self) -> (r: (Session, Step))
        ensures
            (r.0@, r.1@) == begin_list_all(self.spec_backend(), self.spec_namespace()),
            r.0@.wf(),
    {
        self.begin_listing(KeyFilter::All)
    }
}

impl Session {
    /// A session is always in a state that its operation can be in.
    #[verifier::type_invariant]
    spec fn is_sound(self) -> bool {
        self@.wf()
    }

    /// Whether the operation has ended.
    pub fn is_finished(&self) -> (r: bool)
        ensures
            r == (self@.phase is Finished),
    {
        match self.phase {
            Phase::Finished => true,
            _ => false,
        }
    }

    /// Takes the vault's reply to the call of the last step and gives the
    /// next step. A reply that does not answer that call, and any reply to a
    /// session that has ended, ends the operation with an error.
    pub fn resume(self, reply: VaultReply) -> (r: (Session, Step))
        ensures
            (r.0@, r.1@) == resume(self@, reply@),
            r.0@.wf(),
    {
        proof {
            use_type_invariant(&self);
        }
        let Session { namespace, phase } = self;
        match reply {
            VaultReply::Failed(message) => match phase {
                Phase::AwaitUnlocked { .. } => failed(namespace, StoreError::UnlockFailed(message)),
                Phase::AwaitSecret { candidates, records, single } => {
                    let at = records.len();
                    assert(candidates.deep_view()[at as int] == candidates[at as int]@);
                    let text = unreadable_text(candidates[at].key.as_str(), message.as_str());
                    failed(namespace, StoreError::VaultUnavailable(text))
                },
                _ => failed(namespace, StoreError::VaultUnavailable(message)),
            },
            VaultReply::Blob(fetched) => match phase {
                Phase::AwaitBlobForSet { key, value } => on_blob_for_set(
                    namespace,
                    key,
                    value,
                    fetched,
                ),
                Phase::AwaitBlobForGet { key } => on_blob_for_get(namespace, key, fetched),
                Phase::AwaitBlobForList { filter } => on_blob_for_list(namespace, filter, fetched),
                _ => unexpected(namespace),
            },
            VaultReply::Stored => match phase {
                Phase::AwaitStored => succeeded(namespace, Outcome::Stored),
                _ => unexpected(namespace),
            },
            VaultReply::Created => match phase {
                Phase::AwaitCreated => succeeded(namespace, Outcome::Stored),
                _ => unexpected(namespace),
            },
            VaultReply::Found { locked, unlocked } => match phase {
                Phase::AwaitFound { filter, target } => on_found(
                    namespace,
                    filter,
                    target,
                    locked,
                    unlocked,
                ),
                _ => unexpected(namespace),
            },
            VaultReply::Unlocked => match phase {
                Phase::AwaitUnlocked { candidates, single } => begin_reading(
                    namespace,
                    candidates,
                    single,
                ),
                _ => unexpected(namespace),
            },
            VaultReply::Secret(bytes) => match phase {
                Phase::AwaitSecret { candidates, records, single } => on_secret(
                    namespace,
                    candidates,
                    records,
                    single,
                    bytes,
                ),
                _ => unexpected(namespace),
            },
        }
    }
}

} // verus!
