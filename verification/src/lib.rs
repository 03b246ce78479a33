//! A namespace-scoped store for secrets shaped like environment variables,
//! kept in the platform's vault.
//!
//! The library holds the rules and proves them; it never touches a vault
//! itself. A store operation is a [`store::Session`]: each step names the
//! next call to the vault, and the vault's reply resumes the session.
//!
//! - [`key`]: the grammar of key names.
//! - [`quote`] and [`shell`]: quoting for the shell, and why it is safe.
//! - [`record`], [`filter`], [`error`]: the values that operations deal in.
//! - [`entries`]: key/value lists as mathematics.
//! - [`blob`] and [`codec`]: the single-blob backend's mapping and its serialized form.
//! - [`indexed`]: the attribute-indexed backend's candidates.
//! - [`protocol`], [`session`], [`store`]: calls and replies, the state
//!   machine of an operation, and the store that runs it.
//! - [`command`]: what each command of the tool starts and ends in.
//! - [`vault`]: a model of a vault that works.
//! - [`outcomes`]: every operation ends in the kind of outcome it was begun for.
//! - [`unlocking`], [`blob_guarantees`], [`indexed_guarantees`], [`replay`],
//!   [`indexed_replay`]: what is proved of whole operations.
//! - [`strings`]: contracts for a few operations of `String`.
pub mod blob;
pub mod blob_guarantees;
pub mod codec;
pub mod command;
pub mod entries;
pub mod error;
pub mod filter;
pub mod indexed;
pub mod indexed_guarantees;
pub mod indexed_replay;
pub mod key;
pub mod outcomes;
pub mod protocol;
pub mod quote;
pub mod record;
pub mod replay;
pub mod session;
pub mod shell;
pub mod store;
pub mod strings;
pub mod unlocking;
pub mod vault;
