//! What passes between the store and whoever holds the vault: the calls
//! that the store asks for, the replies it takes, and what an operation ends in.
use vstd::prelude::*;
use crate::entries::Entries;
use crate::error::{StoreError, StoreErrorView};
use crate::indexed::FoundEntry;
use crate::record::{SecretRecord, SecretRecordView};

verus! {

/// Where a search looks.
#[derive(Clone, Copy, Debug, PartialEq, Eq, Structural)]
pub enum SearchScope {
    /// In the default collection alone.
    DefaultCollection,
    /// In every collection of the vault.
    AllCollections,
}

/// One request to the vault.
#[derive(Clone, Debug, PartialEq, Eq)]
pub enum VaultCall {
    /// Fetch the blob of a namespace.
    FetchBlob { namespace: String },
    /// Store the blob of a namespace, in place of the one that is there.
    StoreBlob { namespace: String, bytes: Vec<u8> },
    /// Create the entry of one secret; with `replace`, in place of an entry
    /// with the same attributes.
    CreateEntry {
        label: String,
        attributes: Vec<(String, String)>,
        secret: Vec<u8>,
        replace: bool,
        content_type: String,
    },
    /// Search, within the scope, for the entries that carry all of the attributes.
    Search { attributes: Vec<(String, String)>, scope: SearchScope },
    /// Unlock, in one batch, the entries at these indices of the locked part of the search.
    Unlock { entries: Vec<usize> },
    /// Read the secret of the entry at `index` of the locked or the unlocked part of the search.
    ReadSecret { locked: bool, index: usize },
}

/// A vault call with its texts and lists as sequences.
pub enum VaultCallView {
    FetchBlob { namespace: Seq<char> },
    StoreBlob { namespace: Seq<char>, bytes: Seq<u8> },
    CreateEntry {
        label: Seq<char>,
        attributes: Entries,
        secret: Seq<u8>,
        replace: bool,
        content_type: Seq<char>,
    },
    Search { attributes: Entries, scope: SearchScope },
    Unlock { entries: Seq<usize> },
    ReadSecret { locked: bool, index: usize },
}

impl View for VaultCall {
    type V = VaultCallView;

    open spec fn view(&self) -> VaultCallView {
        match self {
            VaultCall::FetchBlob { namespace } => VaultCallView::FetchBlob { namespace: namespace@ },
            VaultCall::StoreBlob { namespace, bytes } => VaultCallView::StoreBlob {
                namespace: namespace@,
                bytes: bytes@,
            },
            VaultCall::CreateEntry {
                label,
                attributes,
                secret,
                replace,
                content_type,
            } => VaultCallView::CreateEntry {
                label: label@,
                attributes: attributes.deep_view(),
                secret: secret@,
                replace: *replace,
                content_type: content_type@,
            },
            VaultCall::Search { attributes, scope } => VaultCallView::Search {
                attributes: attributes.deep_view(),
                scope: *scope,
            },
            VaultCall::Unlock { entries } => VaultCallView::Unlock { entries: entries@ },
            VaultCall::ReadSecret { locked, index } => VaultCallView::ReadSecret {
                locked: *locked,
                index: *index,
            },
        }
    }
}

/// The vault's answer to one call.
#[derive(Clone, Debug, PartialEq, Eq)]
pub enum VaultReply {
    /// The blob of the namespace, or `None` where the vault holds none.
    Blob(Option<Vec<u8>>),
    /// The blob was stored.
    Stored,
    /// The entry was created.
    Created,
    /// The entries that the search found, those that are locked apart from those that are not.
    Found { locked: Vec<FoundEntry>, unlocked: Vec<FoundEntry> },
    /// The batch was unlocked.
    Unlocked,
    /// The secret of the entry that was read.
    Secret(Vec<u8>),
    /// The vault could not be reached or refused the call; the text is the vault's own.
    Failed(String),
}

/// A vault reply with its texts and lists as sequences.
pub enum VaultReplyView {
    Blob(Option<Seq<u8>>),
    Stored,
    Created,
    Found { locked: Seq<Entries>, unlocked: Seq<Entries> },
    Unlocked,
    Secret(Seq<u8>),
    Failed(Seq<char>),
}

impl View for VaultReply {
    type V = VaultReplyView;

    open spec fn view(&self) -> VaultReplyView {
        match self {
            VaultReply::Blob(fetched) => VaultReplyView::Blob(
                match fetched {
                    Some(bytes) => Some(bytes@),
                    None => None,
                },
            ),
            VaultReply::Stored => VaultReplyView::Stored,
            VaultReply::Created => VaultReplyView::Created,
            VaultReply::Found { locked, unlocked } => VaultReplyView::Found {
                locked: locked.deep_view(),
                unlocked: unlocked.deep_view(),
            },
            VaultReply::Unlocked => VaultReplyView::Unlocked,
            VaultReply::Secret(bytes) => VaultReplyView::Secret(bytes@),
            VaultReply::Failed(message) => VaultReplyView::Failed(message@),
        }
    }
}

/// What a store operation hands back when it succeeds.
#[derive(Clone, Debug, PartialEq, Eq)]
pub enum Outcome {
    /// The secret was written.
    Stored,
    /// The secret that was asked for.
    Value(String),
    /// The secrets that were asked for.
    Records(Vec<SecretRecord>),
}

/// An outcome with its texts and lists as sequences.
pub enum OutcomeView {
    Stored,
    Value(Seq<char>),
    Records(Seq<SecretRecordView>),
}

impl View for Outcome {
    type V = OutcomeView;

    open spec fn view(&self) -> OutcomeView {
        match self {
            Outcome::Stored => OutcomeView::Stored,
            Outcome::Value(value) => OutcomeView::Value(value@),
            Outcome::Records(records) => OutcomeView::Records(records.deep_view()),
        }
    }
}

/// What comes next in an operation: one more call to the vault, or the end.
#[derive(Clone, Debug, PartialEq, Eq)]
pub enum Step {
    /// Make this call and resume the session with the vault's reply.
    Call(VaultCall),
    /// The operation succeeded.
    Done(Outcome),
    /// The operation failed.
    Failed(StoreError),
}

/// A step with its texts and lists as sequences.
pub enum StepView {
    Call(VaultCallView),
    Done(OutcomeView),
    Failed(StoreErrorView),
}

impl View for Step {
    type V = StepView;

    open spec fn view(&self) -> StepView {
        match self {
            Step::Call(call) => StepView::Call(call@),
            Step::Done(outcome) => StepView::Done(outcome@),
            Step::Failed(error) => StepView::Failed(error@),
        }
    }
}

} // verus!
