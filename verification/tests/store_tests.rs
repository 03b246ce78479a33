use std::collections::BTreeMap;

use env_secrets::command::recreation_commands;
use env_secrets::error::StoreError;
use env_secrets::indexed::FoundEntry;
use env_secrets::protocol::{Outcome, SearchScope, Step, VaultCall, VaultReply};
use env_secrets::record::{LockState, SecretRecord};
use env_secrets::session::Backend;
use env_secrets::store::{SecretStore, Session};

/// One entry of the vault that the tests run the store against.
struct Entry {
    attributes: Vec<(String, String)>,
    secret: Vec<u8>,
    locked: bool,
}

/// A vault in memory. It keeps every call that it was asked.
struct MemoryVault {
    blobs: BTreeMap<String, Vec<u8>>,
    entries: Vec<Entry>,
    found_locked: Vec<usize>,
    found_unlocked: Vec<usize>,
    refuse_unlock: bool,
    calls: Vec<VaultCall>,
}

fn has_all(have: &[(String, String)], want: &[(String, String)]) -> bool {
    want.iter().all(|w| have.iter().find(|h| h.0 == w.0).map(|h| &h.1) == Some(&w.1))
}

fn same_attributes(a: &[(String, String)], b: &[(String, String)]) -> bool {
    has_all(a, b) && has_all(b, a)
}

impl MemoryVault {
    fn new() -> MemoryVault {
        MemoryVault {
            blobs: BTreeMap::new(),
            entries: Vec::new(),
            found_locked: Vec::new(),
            found_unlocked: Vec::new(),
            refuse_unlock: false,
            calls: Vec::new(),
        }
    }

    fn lock_all(&mut self) {
        for entry in self.entries.iter_mut() {
            entry.locked = true;
        }
    }

    fn add(&mut self, attributes: &[(&str, &str)], secret: &[u8], locked: bool) {
        self.entries.push(Entry {
            attributes: attributes.iter().map(|a| (a.0.to_string(), a.1.to_string())).collect(),
            secret: secret.to_vec(),
            locked,
        });
    }

    fn unlock_calls(&self) -> usize {
        self.calls.iter().filter(|c| matches!(c, VaultCall::Unlock { .. })).count()
    }

    fn answer(&mut self, call: VaultCall) -> VaultReply {
        self.calls.push(call.clone());
        match call {
            VaultCall::FetchBlob { namespace } => VaultReply::Blob(self.blobs.get(&namespace).cloned()),
            VaultCall::StoreBlob { namespace, bytes } => {
                self.blobs.insert(namespace, bytes);
                VaultReply::Stored
            }
            VaultCall::CreateEntry { attributes, secret, replace, .. } => {
                if replace {
                    self.entries.retain(|e| !same_attributes(&e.attributes, &attributes));
                }
                self.entries.push(Entry { attributes, secret, locked: false });
                self.found_locked.clear();
                self.found_unlocked.clear();
                VaultReply::Created
            }
            VaultCall::Search { attributes, .. } => {
                self.found_locked.clear();
                self.found_unlocked.clear();
                for (i, entry) in self.entries.iter().enumerate() {
                    if has_all(&entry.attributes, &attributes) {
                        if entry.locked {
                            self.found_locked.push(i);
                        } else {
                            self.found_unlocked.push(i);
                        }
                    }
                }
                let found = |indices: &Vec<usize>| -> Vec<FoundEntry> {
                    indices
                        .iter()
                        .map(|i| FoundEntry { attributes: self.entries[*i].attributes.clone() })
                        .collect()
                };
                VaultReply::Found {
                    locked: found(&self.found_locked),
                    unlocked: found(&self.found_unlocked),
                }
            }
            VaultCall::Unlock { entries } => {
                if self.refuse_unlock || entries.is_empty() {
                    return VaultReply::Failed("the prompt was dismissed".to_string());
                }
                for index in entries {
                    let i = self.found_locked[index];
                    self.entries[i].locked = false;
                }
                VaultReply::Unlocked
            }
            VaultCall::ReadSecret { locked, index } => {
                let found = if locked { &self.found_locked } else { &self.found_unlocked };
                match found.get(index) {
                    Some(i) if !self.entries[*i].locked => VaultReply::Secret(self.entries[*i].secret.clone()),
                    _ => VaultReply::Failed("the entry is locked".to_string()),
                }
            }
        }
    }

    fn drive(&mut self, begun: (Session, Step)) -> Result<Outcome, StoreError> {
        let (mut session, mut step) = begun;
        loop {
            match step {
                Step::Call(call) => {
                    let reply = self.answer(call);
                    let next = session.resume(reply);
                    session = next.0;
                    step = next.1;
                }
                Step::Done(outcome) => {
                    assert!(session.is_finished());
                    return Ok(outcome);
                }
                Step::Failed(error) => {
                    assert!(session.is_finished());
                    return Err(error);
                }
            }
        }
    }

    fn set(&mut self, store: &SecretStore, key: &str, value: &str) -> Result<Outcome, StoreError> {
        self.drive(store.set(key.to_string(), value.to_string()))
    }

    fn get(&mut self, store: &SecretStore, key: &str) -> Result<Outcome, StoreError> {
        self.drive(store.get(key.to_string()))
    }

    fn list(&mut self, store: &SecretStore, keys: &[&str]) -> Result<Outcome, StoreError> {
        self.drive(store.list_filtered(keys.iter().map(|k| k.to_string()).collect()))
    }
}

fn store(backend: Backend, namespace: &str) -> SecretStore {
    SecretStore::new(backend, namespace.to_string()).expect("the namespace is not empty")
}

fn pairs(outcome: Result<Outcome, StoreError>) -> Vec<(String, String)> {
    match outcome {
        Ok(Outcome::Records(records)) => {
            let mut pairs: Vec<(String, String)> =
                records.into_iter().map(|r| (r.key, r.value)).collect();
            pairs.sort();
            pairs
        }
        other => panic!("no records: {other:?}"),
    }
}

fn pair(key: &str, value: &str) -> (String, String) {
    (key.to_string(), value.to_string())
}

fn text(s: &str) -> String {
    s.to_string()
}

fn tags(namespace: &str, key: Option<&str>) -> Vec<(String, String)> {
    let mut tags = vec![pair("app", "env-secrets"), pair("namespace", namespace)];
    if let Some(key) = key {
        tags.push(pair("env", key));
    }
    tags
}

#[test]
fn a_store_needs_a_namespace() {
    assert!(SecretStore::new(Backend::Blob, String::new()).is_none());
    assert!(SecretStore::new(Backend::Indexed, String::new()).is_none());
    let store = store(Backend::Indexed, "project/dev");
    assert_eq!(store.backend(), Backend::Indexed);
    assert_eq!(store.namespace(), "project/dev");
}

#[test]
fn blob_set_fetches_then_stores_the_whole_mapping() {
    let store = store(Backend::Blob, "ns");
    let (session, step) = store.set(text("KEY"), text("value"));
    assert_eq!(step, Step::Call(VaultCall::FetchBlob { namespace: text("ns") }));
    let (session, step) = session.resume(VaultReply::Blob(Some(br#"{"OLD":"1"}"#.to_vec())));
    assert_eq!(
        step,
        Step::Call(VaultCall::StoreBlob {
            namespace: text("ns"),
            bytes: br#"{"KEY":"value","OLD":"1"}"#.to_vec(),
        })
    );
    assert!(!session.is_finished());
    let (session, step) = session.resume(VaultReply::Stored);
    assert_eq!(step, Step::Done(Outcome::Stored));
    assert!(session.is_finished());
}

#[test]
fn blob_set_starts_from_nothing_where_the_blob_is_absent() {
    let store = store(Backend::Blob, "ns");
    let (session, _) = store.set(text("KEY"), text("it's"));
    let (_, step) = session.resume(VaultReply::Blob(None));
    assert_eq!(
        step,
        Step::Call(VaultCall::StoreBlob { namespace: text("ns"), bytes: br#"{"KEY":"it's"}"#.to_vec() })
    );
}

#[test]
fn blob_set_overwrites_the_key() {
    let store = store(Backend::Blob, "ns");
    let (session, _) = store.set(text("KEY"), text("new"));
    let (_, step) = session.resume(VaultReply::Blob(Some(br#"{"KEY":"old","Z":"z"}"#.to_vec())));
    assert_eq!(
        step,
        Step::Call(VaultCall::StoreBlob {
            namespace: text("ns"),
            bytes: br#"{"KEY":"new","Z":"z"}"#.to_vec(),
        })
    );
}

#[test]
fn blob_get_reads_the_key_from_the_mapping() {
    let store = store(Backend::Blob, "ns");
    let (session, step) = store.get(text("B"));
    assert_eq!(step, Step::Call(VaultCall::FetchBlob { namespace: text("ns") }));
    let (session, step) = session.resume(VaultReply::Blob(Some(br#"{"A":"1","B":"2"}"#.to_vec())));
    assert_eq!(step, Step::Done(Outcome::Value(text("2"))));
    assert!(session.is_finished());
}

#[test]
fn blob_get_of_a_missing_key_is_not_found() {
    let store = store(Backend::Blob, "ns");
    let (session, _) = store.get(text("C"));
    let (_, step) = session.resume(VaultReply::Blob(Some(br#"{"A":"1","B":"2"}"#.to_vec())));
    assert_eq!(step, Step::Failed(StoreError::NotFound(text("C"))));
    let (session, _) = store.get(text("C"));
    let (_, step) = session.resume(VaultReply::Blob(None));
    assert_eq!(step, Step::Failed(StoreError::NotFound(text("C"))));
}

#[test]
fn a_blob_that_is_no_mapping_is_corrupt() {
    let store = store(Backend::Blob, "ns");
    let (session, _) = store.get(text("A"));
    let (_, step) = session.resume(VaultReply::Blob(Some(b"\xff\xfe".to_vec())));
    assert_eq!(step, Step::Failed(StoreError::Corrupt(text("ns"))));
    let (session, _) = store.set(text("A"), text("1"));
    let (_, step) = session.resume(VaultReply::Blob(Some(b"[1,2]".to_vec())));
    assert_eq!(step, Step::Failed(StoreError::Corrupt(text("ns"))));
    let (session, _) = store.list_all();
    let (_, step) = session.resume(VaultReply::Blob(Some(b"{".to_vec())));
    assert_eq!(step, Step::Failed(StoreError::Corrupt(text("ns"))));
}

#[test]
fn invalid_keys_end_the_operation_before_any_call() {
    for backend in [Backend::Blob, Backend::Indexed] {
        let store = store(backend, "ns");
        let (session, step) = store.set(text("not valid"), text("v"));
        assert_eq!(step, Step::Failed(StoreError::InvalidKey(text("not valid"))));
        assert!(session.is_finished());
        let (_, step) = store.get(text("1A"));
        assert_eq!(step, Step::Failed(StoreError::InvalidKey(text("1A"))));
        let (_, step) = store.get(text(""));
        assert_eq!(step, Step::Failed(StoreError::InvalidKey(text(""))));
        let (_, step) = store.list_filtered(vec![text("OK"), text("no-good"), text("2bad")]);
        assert_eq!(step, Step::Failed(StoreError::InvalidKey(text("no-good"))));
    }
}

#[test]
fn a_failing_vault_is_unavailable() {
    for backend in [Backend::Blob, Backend::Indexed] {
        let store = store(backend, "ns");
        let (session, _) = store.get(text("A"));
        let (session, step) = session.resume(VaultReply::Failed(text("no session bus")));
        assert_eq!(step, Step::Failed(StoreError::VaultUnavailable(text("no session bus"))));
        assert!(session.is_finished());
        let (session, _) = store.set(text("A"), text("1"));
        let (_, step) = session.resume(VaultReply::Failed(text("denied")));
        assert_eq!(step, Step::Failed(StoreError::VaultUnavailable(text("denied"))));
        let (session, _) = store.list_all();
        let (_, step) = session.resume(VaultReply::Failed(text("denied")));
        assert_eq!(step, Step::Failed(StoreError::VaultUnavailable(text("denied"))));
    }
}

#[test]
fn a_reply_that_answers_another_call_ends_the_operation() {
    let unexpected = Step::Failed(StoreError::VaultUnavailable(text("unexpected reply from the vault")));
    let blob = store(Backend::Blob, "ns");
    let (session, _) = blob.get(text("A"));
    let (session, step) = session.resume(VaultReply::Stored);
    assert_eq!(step, unexpected);
    let (_, step) = session.resume(VaultReply::Blob(None));
    assert_eq!(step, unexpected);
    let indexed = store(Backend::Indexed, "ns");
    let (session, _) = indexed.list_all();
    let (_, step) = session.resume(VaultReply::Secret(b"x".to_vec()));
    assert_eq!(step, unexpected);
    let (session, _) = indexed.set(text("A"), text("1"));
    let (_, step) = session.resume(VaultReply::Unlocked);
    assert_eq!(step, unexpected);
}

#[test]
fn indexed_set_creates_the_tagged_entry() {
    let store = store(Backend::Indexed, "project/dev");
    let (session, step) = store.set(text("API_KEY"), text("s3cr\u{e9}t"));
    assert_eq!(
        step,
        Step::Call(VaultCall::CreateEntry {
            label: text("env-secrets/project/dev/API_KEY"),
            attributes: tags("project/dev", Some("API_KEY")),
            secret: "s3cr\u{e9}t".as_bytes().to_vec(),
            replace: true,
            content_type: text("text/plain"),
        })
    );
    let (session, step) = session.resume(VaultReply::Created);
    assert_eq!(step, Step::Done(Outcome::Stored));
    assert!(session.is_finished());
}

#[test]
fn indexed_get_searches_for_the_key_and_reads_the_first_entry() {
    let store = store(Backend::Indexed, "ns");
    let (session, step) = store.get(text("A"));
    assert_eq!(
        step,
        Step::Call(VaultCall::Search {
            attributes: tags("ns", Some("A")),
            scope: SearchScope::DefaultCollection,
        })
    );
    let found = VaultReply::Found {
        locked: vec![],
        unlocked: vec![
            FoundEntry { attributes: tags("ns", Some("A")) },
            FoundEntry { attributes: tags("ns", Some("A")) },
        ],
    };
    let (session, step) = session.resume(found);
    assert_eq!(step, Step::Call(VaultCall::ReadSecret { locked: false, index: 0 }));
    let (session, step) = session.resume(VaultReply::Secret(b"one".to_vec()));
    assert_eq!(step, Step::Done(Outcome::Value(text("one"))));
    assert!(session.is_finished());
}

#[test]
fn indexed_get_unlocks_a_locked_entry_first() {
    let store = store(Backend::Indexed, "ns");
    let (session, _) = store.get(text("A"));
    let found = VaultReply::Found {
        locked: vec![FoundEntry { attributes: tags("ns", Some("A")) }],
        unlocked: vec![],
    };
    let (session, step) = session.resume(found);
    assert_eq!(step, Step::Call(VaultCall::Unlock { entries: vec![0] }));
    let (session, step) = session.resume(VaultReply::Unlocked);
    assert_eq!(step, Step::Call(VaultCall::ReadSecret { locked: true, index: 0 }));
    let (_, step) = session.resume(VaultReply::Secret(b"opened".to_vec()));
    assert_eq!(step, Step::Done(Outcome::Value(text("opened"))));
}

#[test]
fn indexed_get_without_a_match_is_not_found() {
    let store = store(Backend::Indexed, "ns");
    let (session, _) = store.get(text("A"));
    let (session, step) = session.resume(VaultReply::Found { locked: vec![], unlocked: vec![] });
    assert_eq!(step, Step::Failed(StoreError::NotFound(text("A"))));
    assert!(session.is_finished());
    let (session, _) = store.get(text("A"));
    let strangers = VaultReply::Found {
        locked: vec![FoundEntry { attributes: tags("ns", None) }],
        unlocked: vec![FoundEntry { attributes: tags("ns", Some("B")) }],
    };
    let (_, step) = session.resume(strangers);
    assert_eq!(step, Step::Failed(StoreError::NotFound(text("A"))));
}

#[test]
fn indexed_listing_filters_then_unlocks_once_then_reads_in_order() {
    let store = store(Backend::Indexed, "ns");
    let (session, step) = store.list_filtered(vec![text("B"), text("C"), text("D")]);
    assert_eq!(
        step,
        Step::Call(VaultCall::Search {
            attributes: tags("ns", None),
            scope: SearchScope::AllCollections,
        })
    );
    let found = VaultReply::Found {
        locked: vec![
            FoundEntry { attributes: tags("ns", Some("A")) },
            FoundEntry { attributes: tags("ns", Some("B")) },
            FoundEntry { attributes: tags("ns", None) },
            FoundEntry { attributes: tags("ns", Some("D")) },
        ],
        unlocked: vec![
            FoundEntry { attributes: tags("ns", Some("C")) },
            FoundEntry { attributes: tags("ns", Some("E")) },
        ],
    };
    let (session, step) = session.resume(found);
    assert_eq!(step, Step::Call(VaultCall::Unlock { entries: vec![1, 3] }));
    let (session, step) = session.resume(VaultReply::Unlocked);
    assert_eq!(step, Step::Call(VaultCall::ReadSecret { locked: true, index: 1 }));
    let (session, step) = session.resume(VaultReply::Secret(b"b".to_vec()));
    assert_eq!(step, Step::Call(VaultCall::ReadSecret { locked: true, index: 3 }));
    let (session, step) = session.resume(VaultReply::Secret(b"d".to_vec()));
    assert_eq!(step, Step::Call(VaultCall::ReadSecret { locked: false, index: 0 }));
    let (session, step) = session.resume(VaultReply::Secret(b"c".to_vec()));
    assert_eq!(
        step,
        Step::Done(Outcome::Records(vec![
            SecretRecord { key: text("B"), value: text("b"), lock: Some(LockState::Locked) },
            SecretRecord { key: text("D"), value: text("d"), lock: Some(LockState::Locked) },
            SecretRecord { key: text("C"), value: text("c"), lock: Some(LockState::Unlocked) },
        ]))
    );
    assert!(session.is_finished());
}

#[test]
fn indexed_listing_of_nothing_makes_no_further_call() {
    let store = store(Backend::Indexed, "ns");
    let (session, _) = store.list_all();
    let (session, step) = session.resume(VaultReply::Found { locked: vec![], unlocked: vec![] });
    assert_eq!(step, Step::Done(Outcome::Records(vec![])));
    assert!(session.is_finished());
    let (session, _) = store.list_filtered(vec![text("WANTED")]);
    let others = VaultReply::Found {
        locked: vec![FoundEntry { attributes: tags("ns", Some("OTHER")) }],
        unlocked: vec![FoundEntry { attributes: vec![pair("app", "env-secrets")] }],
    };
    let (_, step) = session.resume(others);
    assert_eq!(step, Step::Done(Outcome::Records(vec![])));
}

#[test]
fn a_refused_unlock_fails_the_listing() {
    let store = store(Backend::Indexed, "ns");
    let (session, _) = store.list_all();
    let found = VaultReply::Found {
        locked: vec![FoundEntry { attributes: tags("ns", Some("A")) }],
        unlocked: vec![],
    };
    let (session, step) = session.resume(found);
    assert_eq!(step, Step::Call(VaultCall::Unlock { entries: vec![0] }));
    let (session, step) = session.resume(VaultReply::Failed(text("dismissed")));
    assert_eq!(step, Step::Failed(StoreError::UnlockFailed(text("dismissed"))));
    assert!(session.is_finished());
}

#[test]
fn a_secret_that_is_no_text_is_corrupt_and_ends_the_listing() {
    let store = store(Backend::Indexed, "ns");
    let (session, _) = store.list_all();
    let found = VaultReply::Found {
        locked: vec![],
        unlocked: vec![
            FoundEntry { attributes: tags("ns", Some("GOOD")) },
            FoundEntry { attributes: tags("ns", Some("BAD")) },
            FoundEntry { attributes: tags("ns", Some("NEVER_READ")) },
        ],
    };
    let (session, _) = session.resume(found);
    let (session, step) = session.resume(VaultReply::Secret(b"fine".to_vec()));
    assert_eq!(step, Step::Call(VaultCall::ReadSecret { locked: false, index: 1 }));
    let (session, step) = session.resume(VaultReply::Secret(vec![0xc3, 0x28]));
    assert_eq!(step, Step::Failed(StoreError::Corrupt(text("BAD"))));
    assert!(session.is_finished());
}

#[test]
fn a_failed_read_fails_the_listing() {
    let store = store(Backend::Indexed, "ns");
    let (session, _) = store.list_all();
    let found = VaultReply::Found {
        locked: vec![],
        unlocked: vec![FoundEntry { attributes: tags("ns", Some("A")) }],
    };
    let (session, _) = session.resume(found);
    let (session, step) = session.resume(VaultReply::Failed(text("gone")));
    assert_eq!(
        step,
        Step::Failed(StoreError::VaultUnavailable(text("Unable to get `A` secret: gone")))
    );
    assert!(session.is_finished());
}

#[test]
fn a_failed_read_names_the_key_of_the_entry_and_hands_out_nothing() {
    let store = store(Backend::Indexed, "ns");
    let (session, _) = store.list_all();
    let found = VaultReply::Found {
        locked: vec![FoundEntry { attributes: tags("ns", Some("LOCKED")) }],
        unlocked: vec![
            FoundEntry { attributes: tags("ns", Some("FIRST")) },
            FoundEntry { attributes: tags("ns", Some("SECOND")) },
        ],
    };
    let (session, _) = session.resume(found);
    let (session, _) = session.resume(VaultReply::Unlocked);
    let (session, _) = session.resume(VaultReply::Secret(b"l".to_vec()));
    let (session, step) = session.resume(VaultReply::Secret(b"1".to_vec()));
    assert_eq!(step, Step::Call(VaultCall::ReadSecret { locked: false, index: 1 }));
    let (session, step) = session.resume(VaultReply::Failed(text("timed out")));
    assert_eq!(
        step,
        Step::Failed(StoreError::VaultUnavailable(text("Unable to get `SECOND` secret: timed out")))
    );
    assert!(session.is_finished());
}

#[test]
fn a_failed_read_in_a_get_names_the_key() {
    let store = store(Backend::Indexed, "ns");
    let (session, _) = store.get(text("KEY"));
    let found = VaultReply::Found {
        locked: vec![],
        unlocked: vec![FoundEntry { attributes: tags("ns", Some("KEY")) }],
    };
    let (session, _) = session.resume(found);
    let (_, step) = session.resume(VaultReply::Failed(text("denied")));
    assert_eq!(
        step,
        Step::Failed(StoreError::VaultUnavailable(text("Unable to get `KEY` secret: denied")))
    );
}

#[test]
fn set_then_get_gives_the_value_back() {
    let values = ["value", "", "it's", "multi\nline", "\u{1f511} \"quoted\" \\", "{\"json\":1}"];
    for backend in [Backend::Blob, Backend::Indexed] {
        let store = store(backend, "project/prod");
        let mut vault = MemoryVault::new();
        for (i, value) in values.iter().enumerate() {
            let key = format!("KEY_{i}");
            assert_eq!(vault.set(&store, &key, value), Ok(Outcome::Stored));
            assert_eq!(vault.get(&store, &key), Ok(Outcome::Value(value.to_string())));
        }
        for (i, value) in values.iter().enumerate() {
            let key = format!("KEY_{i}");
            assert_eq!(vault.get(&store, &key), Ok(Outcome::Value(value.to_string())));
        }
    }
}

#[test]
fn set_again_replaces_the_value() {
    for backend in [Backend::Blob, Backend::Indexed] {
        let store = store(backend, "ns");
        let mut vault = MemoryVault::new();
        assert_eq!(vault.set(&store, "KEY", "first"), Ok(Outcome::Stored));
        assert_eq!(vault.set(&store, "KEY", "second"), Ok(Outcome::Stored));
        assert_eq!(vault.get(&store, "KEY"), Ok(Outcome::Value(text("second"))));
        assert_eq!(pairs(vault.list(&store, &[])), vec![pair("KEY", "second")]);
    }
}

#[test]
fn set_then_get_unlocks_what_was_locked_in_between() {
    let store = store(Backend::Indexed, "ns");
    let mut vault = MemoryVault::new();
    assert_eq!(vault.set(&store, "KEY", "value"), Ok(Outcome::Stored));
    vault.lock_all();
    vault.calls.clear();
    assert_eq!(vault.get(&store, "KEY"), Ok(Outcome::Value(text("value"))));
    assert_eq!(vault.unlock_calls(), 1);
}

#[test]
fn get_in_a_fresh_namespace_is_not_found() {
    for backend in [Backend::Blob, Backend::Indexed] {
        let mut vault = MemoryVault::new();
        let fresh = store(backend, "fresh");
        assert_eq!(vault.get(&fresh, "KEY"), Err(StoreError::NotFound(text("KEY"))));
        let other = store(backend, "other");
        assert_eq!(vault.set(&other, "KEY", "value"), Ok(Outcome::Stored));
        assert_eq!(vault.get(&fresh, "KEY"), Err(StoreError::NotFound(text("KEY"))));
        assert_eq!(pairs(vault.list(&fresh, &[])), vec![]);
    }
}

#[test]
fn listing_without_keys_gives_every_key_and_with_keys_the_intersection() {
    for backend in [Backend::Blob, Backend::Indexed] {
        let store = store(backend, "ns");
        let elsewhere = self::store(backend, "elsewhere");
        let mut vault = MemoryVault::new();
        for (key, value) in [("A", "1"), ("B", "2"), ("C", "3")] {
            assert_eq!(vault.set(&store, key, value), Ok(Outcome::Stored));
        }
        assert_eq!(vault.set(&elsewhere, "Z", "26"), Ok(Outcome::Stored));
        assert_eq!(
            pairs(vault.list(&store, &[])),
            vec![pair("A", "1"), pair("B", "2"), pair("C", "3")]
        );
        assert_eq!(
            pairs(vault.drive(store.list_all())),
            vec![pair("A", "1"), pair("B", "2"), pair("C", "3")]
        );
        assert_eq!(
            pairs(vault.list(&store, &["C", "MISSING", "A", "Z"])),
            vec![pair("A", "1"), pair("C", "3")]
        );
        assert_eq!(pairs(vault.list(&store, &["MISSING"])), vec![]);
    }
}

#[test]
fn a_listing_unlocks_once_when_a_wanted_entry_is_locked_and_never_otherwise() {
    let store = store(Backend::Indexed, "ns");
    let mut vault = MemoryVault::new();
    vault.add(&[("app", "env-secrets"), ("namespace", "ns"), ("env", "A")], b"1", true);
    vault.add(&[("app", "env-secrets"), ("namespace", "ns"), ("env", "B")], b"2", true);
    vault.add(&[("app", "env-secrets"), ("namespace", "ns"), ("env", "C")], b"3", false);
    vault.add(&[("app", "env-secrets"), ("namespace", "ns"), ("env", "D")], b"4", true);

    // Only unlocked entries are wanted: no unlock at all.
    assert_eq!(pairs(vault.list(&store, &["C"])), vec![pair("C", "3")]);
    assert_eq!(vault.unlock_calls(), 0);

    // Two of three locked entries are wanted: one unlock, for those two.
    vault.calls.clear();
    assert_eq!(
        pairs(vault.list(&store, &["A", "C", "D"])),
        vec![pair("A", "1"), pair("C", "3"), pair("D", "4")]
    );
    assert_eq!(vault.unlock_calls(), 1);
    assert!(vault.calls.contains(&VaultCall::Unlock { entries: vec![0, 2] }));
    assert!(vault.entries[1].locked);

    // The rest is still locked: one unlock for the one entry.
    vault.calls.clear();
    assert_eq!(
        pairs(vault.drive(store.list_all())),
        vec![pair("A", "1"), pair("B", "2"), pair("C", "3"), pair("D", "4")]
    );
    assert_eq!(vault.unlock_calls(), 1);

    // Nothing is locked any more.
    vault.calls.clear();
    assert_eq!(pairs(vault.drive(store.list_all())).len(), 4);
    assert_eq!(vault.unlock_calls(), 0);
}

#[test]
fn a_refused_unlock_reads_nothing() {
    let store = store(Backend::Indexed, "ns");
    let mut vault = MemoryVault::new();
    vault.add(&[("app", "env-secrets"), ("namespace", "ns"), ("env", "A")], b"1", true);
    vault.refuse_unlock = true;
    assert_eq!(
        vault.drive(store.list_all()),
        Err(StoreError::UnlockFailed(text("the prompt was dismissed")))
    );
    assert!(!vault.calls.iter().any(|c| matches!(c, VaultCall::ReadSecret { .. })));
}

#[test]
fn entries_without_a_key_are_passed_over() {
    let store = store(Backend::Indexed, "ns");
    let mut vault = MemoryVault::new();
    vault.add(&[("app", "env-secrets"), ("namespace", "ns")], b"foreign", true);
    vault.add(&[("app", "env-secrets"), ("namespace", "ns"), ("env", "A")], b"1", false);
    assert_eq!(pairs(vault.drive(store.list_all())), vec![pair("A", "1")]);
    assert_eq!(vault.unlock_calls(), 0);
}

#[test]
fn overlapping_blob_sets_lose_the_first_update() {
    let store = store(Backend::Blob, "ns");
    let mut vault = MemoryVault::new();
    assert_eq!(vault.set(&store, "BASE", "0"), Ok(Outcome::Stored));

    let (first, fetch_first) = store.set(text("A"), text("1"));
    let (second, fetch_second) = store.set(text("B"), text("2"));
    let (Step::Call(fetch_first), Step::Call(fetch_second)) = (fetch_first, fetch_second) else {
        panic!("both sets begin with a fetch");
    };
    // Both fetch before either stores.
    let fetched_first = vault.answer(fetch_first);
    let fetched_second = vault.answer(fetch_second);
    let (first, store_first) = first.resume(fetched_first);
    let (second, store_second) = second.resume(fetched_second);
    let (Step::Call(store_first), Step::Call(store_second)) = (store_first, store_second) else {
        panic!("both sets go on to store");
    };
    let stored = vault.answer(store_first);
    assert_eq!(first.resume(stored).1, Step::Done(Outcome::Stored));
    let stored = vault.answer(store_second);
    assert_eq!(second.resume(stored).1, Step::Done(Outcome::Stored));

    assert_eq!(vault.get(&store, "A"), Err(StoreError::NotFound(text("A"))));
    assert_eq!(vault.get(&store, "B"), Ok(Outcome::Value(text("2"))));
    assert_eq!(vault.get(&store, "BASE"), Ok(Outcome::Value(text("0"))));
}

/// Splits a command line into words as a POSIX shell does for single quotes,
/// backslashes outside quotes and spaces.
fn words_of(line: &str) -> Vec<String> {
    let mut words = Vec::new();
    let mut word: Option<String> = None;
    let mut in_quote = false;
    let mut chars = line.chars();
    while let Some(c) = chars.next() {
        if in_quote {
            if c == '\'' {
                in_quote = false;
            } else {
                word.get_or_insert_with(String::new).push(c);
            }
        } else if c == '\'' {
            in_quote = true;
            word.get_or_insert_with(String::new);
        } else if c == '\\' {
            let next = chars.next().expect("a character after the backslash");
            word.get_or_insert_with(String::new).push(next);
        } else if c == ' ' {
            if let Some(w) = word.take() {
                words.push(w);
            }
        } else {
            word.get_or_insert_with(String::new).push(c);
        }
    }
    assert!(!in_quote, "the quote is closed");
    if let Some(w) = word {
        words.push(w);
    }
    words
}

#[test]
fn replaying_an_export_reproduces_the_namespace_in_another_vault() {
    let secrets = [
        ("PLAIN", "value"),
        ("QUOTE", "it's 'quoted'"),
        ("SHELL", "$(reboot); `id` > /tmp/x"),
        ("EMPTY", ""),
        ("UNICODE", "\u{1f511} sch\u{f6}n"),
    ];
    for backend in [Backend::Blob, Backend::Indexed] {
        let namespace = "team's project/prod";
        let source_store = store(backend, namespace);
        let mut source = MemoryVault::new();
        for (key, value) in secrets {
            assert_eq!(source.set(&source_store, key, value), Ok(Outcome::Stored));
        }
        source.lock_all();
        let Ok(Outcome::Records(records)) = source.drive(source_store.list_all()) else {
            panic!("the export lists the records");
        };
        let lines = recreation_commands("env-secrets", namespace, &records);
        assert_eq!(lines.len(), secrets.len());

        let mut target = MemoryVault::new();
        for line in &lines {
            let words = words_of(line);
            assert_eq!(words.len(), 6, "line {line:?}");
            assert_eq!((words[0].as_str(), words[2].as_str(), words[4].as_str()), ("env-secrets", "set", "-v"));
            let replayed = store(backend, &words[1]);
            assert_eq!(target.set(&replayed, &words[3], &words[5]), Ok(Outcome::Stored));
        }
        let mut expected: Vec<(String, String)> = secrets.iter().map(|s| pair(s.0, s.1)).collect();
        expected.sort();
        assert_eq!(pairs(target.drive(store(backend, namespace).list_all())), expected);
    }
}
