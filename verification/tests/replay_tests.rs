use env_secrets::blob::NamespaceBlob;
use env_secrets::command::{recreation_commands, Cmd};
use env_secrets::protocol::{Outcome, Step, VaultCall, VaultReply};
use env_secrets::session::Backend;
use env_secrets::store::SecretStore;

/// Splits a command line into words as a POSIX shell does for single quotes,
/// backslashes outside quotes and blanks.
fn shell_words(line: &str) -> Vec<String> {
    let mut words = Vec::new();
    let mut word: Option<String> = None;
    let mut in_quote = false;
    let mut chars = line.chars();
    while let Some(c) = chars.next() {
        if in_quote {
            if c == '\'' {
                in_quote = false;
            } else {
                word.get_or_insert_with(String::new).push(c);
            }
        } else if c == '\'' {
            in_quote = true;
            word.get_or_insert_with(String::new);
        } else if c == '\\' {
            let next = chars.next().expect("a character after the backslash");
            word.get_or_insert_with(String::new).push(next);
        } else if c == ' ' {
            if let Some(w) = word.take() {
                words.push(w);
            }
        } else {
            word.get_or_insert_with(String::new).push(c);
        }
    }
    assert!(!in_quote, "the quote is closed");
    if let Some(w) = word {
        words.push(w);
    }
    words
}

/// Runs one blob `set` against the stored bytes and gives the new bytes.
fn blob_set(stored: Option<Vec<u8>>, namespace: &str, key: &str, value: &str) -> Vec<u8> {
    let store = SecretStore::new(Backend::Blob, namespace.to_string()).expect("a namespace");
    let (session, _) = store.set(key.to_string(), value.to_string());
    match session.resume(VaultReply::Blob(stored)).1 {
        Step::Call(VaultCall::StoreBlob { bytes, .. }) => bytes,
        other => panic!("the set does not store: {other:?}"),
    }
}

#[test]
fn export_then_replay_reproduces_the_namespace() {
    let namespace = "bob's project/dev";
    let secrets = [
        ("PLAIN", "value"),
        ("QUOTE", "it's a 'quoted' thing"),
        ("SHELL", "$(echo pwned); `id` && rm -rf ~ | cat > /dev/null #"),
        ("SPACES", "  two  spaces  "),
        ("BACKSLASH", "a\\'b\\\\"),
        ("EMPTY", ""),
        ("UNICODE", "gr\u{fc}\u{df}e \u{1f511}"),
        ("DASH", "-v"),
    ];
    let mut stored = None;
    for (key, value) in secrets {
        stored = Some(blob_set(stored, namespace, key, value));
    }

    let store = SecretStore::new(Backend::Blob, namespace.to_string()).expect("a namespace");
    let (session, _) = Cmd::Export.begin(&store, None).expect("export begins");
    let Step::Done(Outcome::Records(records)) = session.resume(VaultReply::Blob(stored.clone())).1
    else {
        panic!("the export lists the records");
    };
    assert_eq!(records.len(), secrets.len());
    let lines = recreation_commands("env-secrets", namespace, &records);

    let mut replayed = None;
    for line in &lines {
        let words = shell_words(line);
        assert_eq!(words.len(), 6, "line {line:?}");
        assert_eq!(words[0], "env-secrets");
        assert_eq!(words[1], namespace);
        assert_eq!(words[2], "set");
        assert_eq!(words[4], "-v");
        replayed = Some(blob_set(replayed, &words[1], &words[3], &words[5]));
    }

    let kept = NamespaceBlob::decode(&stored).expect("a mapping");
    let copy = NamespaceBlob::decode(&replayed).expect("a mapping");
    assert!(kept.same_mapping(&copy));
    for (key, value) in secrets {
        assert_eq!(copy.get(key), Some(&value.to_string()));
    }
    assert_eq!(copy.len(), secrets.len());
}

#[test]
fn export_of_an_empty_namespace_prints_nothing() {
    let store = SecretStore::new(Backend::Blob, "empty".to_string()).expect("a namespace");
    let (session, _) = Cmd::Export.begin(&store, None).expect("export begins");
    let (_, step) = session.resume(VaultReply::Blob(None));
    assert_eq!(step, Step::Done(Outcome::Records(vec![])));
    assert_eq!(recreation_commands("env-secrets", "empty", &vec![]), Vec::<String>::new());
}
