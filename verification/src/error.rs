//! The errors that a store operation can end in.
use vstd::prelude::*;
use vstd::string::*;

verus! {

/// Why a store operation failed.
#[derive(Clone, Debug, PartialEq, Eq)]
pub enum StoreError {
    /// The named key does not match the key grammar. Nothing was asked of the vault.
    InvalidKey(String),
    /// The namespace holds no secret under the named key.
    NotFound(String),
    /// The vault could not be reached or refused the request; the text is the vault's own.
    VaultUnavailable(String),
    /// What the vault holds under the given name (a key of an indexed entry, or
    /// the namespace of a blob) is not UTF-8 text, or not a serialized mapping.
    Corrupt(String),
    /// The vault refused the batch unlock; the text is the vault's own.
    UnlockFailed(String),
}

/// A store error with its texts as character sequences.
pub enum StoreErrorView {
    InvalidKey(Seq<char>),
    NotFound(Seq<char>),
    VaultUnavailable(Seq<char>),
    Corrupt(Seq<char>),
    UnlockFailed(Seq<char>),
}

impl View for StoreError {
    type V = StoreErrorView;

    open spec fn view(&self) -> StoreErrorView {
        match self {
            StoreError::InvalidKey(s) => StoreErrorView::InvalidKey(s@),
            StoreError::NotFound(s) => StoreErrorView::NotFound(s@),
            StoreError::VaultUnavailable(s) => StoreErrorView::VaultUnavailable(s@),
            StoreError::Corrupt(s) => StoreErrorView::Corrupt(s@),
            StoreError::UnlockFailed(s) => StoreErrorView::UnlockFailed(s@),
        }
    }
}

impl DeepView for StoreError {
    type V = StoreErrorView;

    open spec fn deep_view(&self) -> StoreErrorView {
        self@
    }
}

impl StoreErrorView {
    /// The line shown to the user for this error.
    pub open spec fn message(self) -> Seq<char> {
        match self {
            StoreErrorView::InvalidKey(k) => "Invalid key: `"@ + k + "`"@,
            StoreErrorView::NotFound(k) => "Secret not found: `"@ + k + "`"@,
            StoreErrorView::VaultUnavailable(m) => "Vault unavailable: "@ + m,
            StoreErrorView::Corrupt(n) => "Stored secret is corrupt: `"@ + n + "`"@,
            StoreErrorView::UnlockFailed(m) => "Unlock failed: "@ + m,
        }
    }
}

impl StoreError {
    /// The line shown to the user for this error.
    pub fn message(&self) -> (r: String)
        ensures
            r@ == self@.message(),
    {
        match self {
            StoreError::InvalidKey(k) => {
                let mut out = String::from_str("Invalid key: `");
                out.append(k.as_str());
                out.append("`");
                out
            },
            StoreError::NotFound(k) => {
                let mut out = String::from_str("Secret not found: `");
                out.append(k.as_str());
                out.append("`");
                out
            },
            StoreError::VaultUnavailable(m) => {
                let mut out = String::from_str("Vault unavailable: ");
                out.append(m.as_str());
                out
            },
            StoreError::Corrupt(n) => {
                let mut out = String::from_str("Stored secret is corrupt: `");
                out.append(n.as_str());
                out.append("`");
                out
            },
            StoreError::UnlockFailed(m) => {
                let mut out = String::from_str("Unlock failed: ");
                out.append(m.as_str());
                out
            },
        }
    }
}

} // verus!
