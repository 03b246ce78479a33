use env_secrets::command::{
    environment, exit_code, export_statement, export_statements, recreation_command,
    recreation_commands, App, Cmd, CommandError, Env, Get, Output, Run, SetSecret,
};
use env_secrets::error::StoreError;
use env_secrets::protocol::{Outcome, SearchScope, Step, VaultCall};
use env_secrets::record::{LockState, SecretRecord};
use env_secrets::session::Backend;
use env_secrets::store::SecretStore;

fn text(s: &str) -> String {
    s.to_string()
}

fn record(key: &str, value: &str) -> SecretRecord {
    SecretRecord { key: text(key), value: text(value), lock: None }
}

fn store(backend: Backend) -> SecretStore {
    SecretStore::new(backend, text("ns")).expect("the namespace is not empty")
}

fn first_call(cmd: &Cmd, backend: Backend, prompted: Option<&str>) -> Result<Step, CommandError> {
    cmd.begin(&store(backend), prompted.map(text)).map(|begun| begun.1)
}

#[test]
fn export_statement_quotes_the_value() {
    assert_eq!(export_statement(&record("KEY", "value")), "export KEY='value'");
    assert_eq!(export_statement(&record("KEY", "it's")), "export KEY='it'\\''s'");
    assert_eq!(export_statement(&record("A_1", "")), "export A_1=''");
    assert_eq!(export_statement(&record("K", "a b; $(c)")), "export K='a b; $(c)'");
}

#[test]
fn recreation_command_quotes_namespace_and_value() {
    assert_eq!(
        recreation_command("env-secrets", "project/dev", &record("KEY", "value")),
        "env-secrets 'project/dev' set KEY -v 'value'"
    );
    assert_eq!(
        recreation_command("env-secrets", "bob's box", &record("KEY", "it's")),
        "env-secrets 'bob'\\''s box' set KEY -v 'it'\\''s'"
    );
}

#[test]
fn statements_come_one_per_record_in_order() {
    let records = vec![record("B", "2"), record("A", "1")];
    assert_eq!(export_statements(&records), vec![text("export B='2'"), text("export A='1'")]);
    assert_eq!(
        recreation_commands("es", "ns", &records),
        vec![text("es 'ns' set B -v '2'"), text("es 'ns' set A -v '1'")]
    );
    assert_eq!(export_statements(&vec![]), Vec::<String>::new());
    assert_eq!(recreation_commands("es", "ns", &vec![]), Vec::<String>::new());
}

#[test]
fn environment_pairs_keys_with_secrets() {
    let records = vec![
        SecretRecord { key: text("A"), value: text("1"), lock: Some(LockState::Locked) },
        record("B", "two words"),
    ];
    assert_eq!(
        environment(&records),
        vec![(text("A"), text("1")), (text("B"), text("two words"))]
    );
}

#[test]
fn exit_code_is_the_childs_or_one() {
    assert_eq!(exit_code(Some(0)), 0);
    assert_eq!(exit_code(Some(3)), 3);
    assert_eq!(exit_code(Some(-1)), -1);
    assert_eq!(exit_code(None), 1);
}

#[test]
fn the_namespace_is_the_given_one_or_the_directory() {
    let given = App { cmd: Cmd::Export, namespace: Some(text("project/dev")) };
    assert_eq!(given.namespace(Some(text("here"))), Ok(text("project/dev")));
    assert_eq!(given.namespace(None), Ok(text("project/dev")));
    let bare = App { cmd: Cmd::Export, namespace: None };
    assert_eq!(bare.namespace(Some(text("here"))), Ok(text("here")));
    assert_eq!(bare.namespace(None), Err(CommandError::NoDirectory));
}

#[test]
fn an_empty_namespace_is_refused() {
    let given = App { cmd: Cmd::Export, namespace: Some(String::new()) };
    assert_eq!(given.namespace(Some(text("here"))), Err(CommandError::EmptyNamespace));
    assert_eq!(given.namespace(None), Err(CommandError::EmptyNamespace));
    let bare = App { cmd: Cmd::Export, namespace: None };
    assert_eq!(bare.namespace(Some(String::new())), Err(CommandError::EmptyNamespace));
}

#[test]
fn the_store_of_an_invocation() {
    let app = App { cmd: Cmd::Export, namespace: Some(text("project/dev")) };
    let store = app.store(Backend::Indexed, None).expect("a namespace was given");
    assert_eq!(store.namespace(), "project/dev");
    assert_eq!(store.backend(), Backend::Indexed);
    let empty = App { cmd: Cmd::Export, namespace: Some(String::new()) };
    assert_eq!(empty.store(Backend::Blob, Some(text("here"))), Err(CommandError::EmptyNamespace));
    let bare = App { cmd: Cmd::Export, namespace: None };
    assert_eq!(bare.store(Backend::Blob, None), Err(CommandError::NoDirectory));
    assert_eq!(bare.store(Backend::Blob, Some(text("dir"))).map(|s| s.namespace().clone()), Ok(text("dir")));
}

#[test]
fn only_a_set_without_value_needs_the_prompt() {
    assert!(Cmd::SetSecret(SetSecret { key: text("K"), value: None }).needs_secret());
    assert!(!Cmd::SetSecret(SetSecret { key: text("K"), value: Some(text("v")) }).needs_secret());
    assert!(!Cmd::Get(Get { key: text("K") }).needs_secret());
    assert!(!Cmd::Env(Env { keys: vec![] }).needs_secret());
    assert!(!Cmd::Run(Run { command: vec![text("true")] }).needs_secret());
    assert!(!Cmd::Export.needs_secret());
}

#[test]
fn a_set_of_an_invalid_key_asks_for_no_secret() {
    for key in ["1bad", "", "a-b", "with space"] {
        let without = Cmd::SetSecret(SetSecret { key: text(key), value: None });
        assert!(!without.needs_secret(), "key {key:?}");
        let with = Cmd::SetSecret(SetSecret { key: text(key), value: Some(text("v")) });
        assert!(!with.needs_secret(), "key {key:?}");
    }
}

#[test]
fn a_set_checks_its_key_before_it_looks_for_its_secret() {
    let invalid = Ok(Step::Failed(StoreError::InvalidKey(text("1bad"))));
    let without = Cmd::SetSecret(SetSecret { key: text("1bad"), value: None });
    let with = Cmd::SetSecret(SetSecret { key: text("1bad"), value: Some(text("v")) });
    for backend in [Backend::Blob, Backend::Indexed] {
        assert_eq!(first_call(&without, backend, None), invalid);
        assert_eq!(first_call(&without, backend, Some("typed")), invalid);
        assert_eq!(first_call(&with, backend, None), invalid);
        let begun = without.begin(&store(backend), None).expect("the command begins");
        assert!(begun.0.is_finished());
    }
}

#[test]
fn set_takes_its_value_from_the_command_or_the_prompt() {
    let stores = |bytes: &str| {
        Ok(Step::Call(VaultCall::CreateEntry {
            label: text("env-secrets/ns/K"),
            attributes: vec![
                (text("app"), text("env-secrets")),
                (text("namespace"), text("ns")),
                (text("env"), text("K")),
            ],
            secret: bytes.as_bytes().to_vec(),
            replace: true,
            content_type: text("text/plain"),
        }))
    };
    let with_value = Cmd::SetSecret(SetSecret { key: text("K"), value: Some(text("flag")) });
    assert_eq!(first_call(&with_value, Backend::Indexed, None), stores("flag"));
    assert_eq!(first_call(&with_value, Backend::Indexed, Some("typed")), stores("flag"));
    let without = Cmd::SetSecret(SetSecret { key: text("K"), value: None });
    assert_eq!(first_call(&without, Backend::Indexed, Some("typed")), stores("typed"));
    assert_eq!(first_call(&without, Backend::Indexed, None), Err(CommandError::NoValue));
    assert_eq!(
        first_call(&with_value, Backend::Blob, None),
        Ok(Step::Call(VaultCall::FetchBlob { namespace: text("ns") }))
    );
}

#[test]
fn commands_begin_the_store_operation_they_stand_for() {
    let search_all = Step::Call(VaultCall::Search {
        attributes: vec![(text("app"), text("env-secrets")), (text("namespace"), text("ns"))],
        scope: SearchScope::AllCollections,
    });
    let get = Cmd::Get(Get { key: text("K") });
    assert_eq!(
        first_call(&get, Backend::Indexed, None),
        Ok(Step::Call(VaultCall::Search {
            attributes: vec![
                (text("app"), text("env-secrets")),
                (text("namespace"), text("ns")),
                (text("env"), text("K")),
            ],
            scope: SearchScope::DefaultCollection,
        }))
    );
    let env = Cmd::Env(Env { keys: vec![text("A"), text("B")] });
    assert_eq!(first_call(&env, Backend::Indexed, None), Ok(search_all.clone()));
    let all = Cmd::Env(Env { keys: vec![] });
    assert_eq!(first_call(&all, Backend::Indexed, None), Ok(search_all.clone()));
    let run = Cmd::Run(Run { command: vec![text("make"), text("test")] });
    assert_eq!(first_call(&run, Backend::Indexed, None), Ok(search_all.clone()));
    assert_eq!(first_call(&Cmd::Export, Backend::Indexed, None), Ok(search_all));
    assert_eq!(
        first_call(&Cmd::Export, Backend::Blob, None),
        Ok(Step::Call(VaultCall::FetchBlob { namespace: text("ns") }))
    );
}

#[test]
fn invalid_keys_fail_the_command_at_its_first_step() {
    let get = Cmd::Get(Get { key: text("bad key") });
    assert_eq!(
        first_call(&get, Backend::Blob, None),
        Ok(Step::Failed(StoreError::InvalidKey(text("bad key"))))
    );
    let env = Cmd::Env(Env { keys: vec![text("GOOD"), text("9")] });
    assert_eq!(
        first_call(&env, Backend::Indexed, None),
        Ok(Step::Failed(StoreError::InvalidKey(text("9"))))
    );
    let set = Cmd::SetSecret(SetSecret { key: text("a-b"), value: Some(text("v")) });
    assert_eq!(
        first_call(&set, Backend::Indexed, None),
        Ok(Step::Failed(StoreError::InvalidKey(text("a-b"))))
    );
}

#[test]
fn run_without_a_command_fails_before_the_store_is_asked() {
    let run = Cmd::Run(Run { command: vec![] });
    assert_eq!(first_call(&run, Backend::Blob, None), Err(CommandError::NoCommand));
    assert_eq!(first_call(&run, Backend::Indexed, None), Err(CommandError::NoCommand));
}

#[test]
fn commands_finish_with_what_they_print_or_run() {
    let records = Outcome::Records(vec![record("A", "1"), record("B", "it's")]);
    let set = Cmd::SetSecret(SetSecret { key: text("K"), value: Some(text("v")) });
    assert_eq!(set.finish("es", "ns", &Outcome::Stored), Some(Output::Nothing));
    let get = Cmd::Get(Get { key: text("K") });
    assert_eq!(
        get.finish("es", "ns", &Outcome::Value(text("raw 'value'"))),
        Some(Output::Lines(vec![text("raw 'value'")]))
    );
    let env = Cmd::Env(Env { keys: vec![] });
    assert_eq!(
        env.finish("es", "ns", &records),
        Some(Output::Lines(vec![text("export A='1'"), text("export B='it'\\''s'")]))
    );
    let run = Cmd::Run(Run { command: vec![text("make"), text("-j4")] });
    assert_eq!(
        run.finish("es", "ns", &records),
        Some(Output::Spawn {
            command: vec![text("make"), text("-j4")],
            environment: vec![(text("A"), text("1")), (text("B"), text("it's"))],
        })
    );
    assert_eq!(
        Cmd::Export.finish("es", "my ns", &records),
        Some(Output::Lines(vec![
            text("es 'my ns' set A -v '1'"),
            text("es 'my ns' set B -v 'it'\\''s'"),
        ]))
    );
}

#[test]
fn an_outcome_of_another_operation_finishes_nothing() {
    let get = Cmd::Get(Get { key: text("K") });
    assert_eq!(get.finish("es", "ns", &Outcome::Stored), None);
    assert_eq!(get.finish("es", "ns", &Outcome::Records(vec![])), None);
    let set = Cmd::SetSecret(SetSecret { key: text("K"), value: None });
    assert_eq!(set.finish("es", "ns", &Outcome::Value(text("v"))), None);
    assert_eq!(Cmd::Export.finish("es", "ns", &Outcome::Stored), None);
    let env = Cmd::Env(Env { keys: vec![] });
    assert_eq!(env.finish("es", "ns", &Outcome::Value(text("v"))), None);
    let run = Cmd::Run(Run { command: vec![text("x")] });
    assert_eq!(run.finish("es", "ns", &Outcome::Stored), None);
}

#[test]
fn errors_have_their_messages() {
    assert_eq!(StoreError::InvalidKey(text("a b")).message(), "Invalid key: `a b`");
    assert_eq!(StoreError::NotFound(text("KEY")).message(), "Secret not found: `KEY`");
    assert_eq!(StoreError::VaultUnavailable(text("no bus")).message(), "Vault unavailable: no bus");
    assert_eq!(StoreError::Corrupt(text("KEY")).message(), "Stored secret is corrupt: `KEY`");
    assert_eq!(StoreError::UnlockFailed(text("dismissed")).message(), "Unlock failed: dismissed");
    assert_eq!(
        CommandError::Store(StoreError::NotFound(text("K"))).message(),
        "Secret not found: `K`"
    );
    assert_eq!(CommandError::NoDirectory.message(), "Unable to get current directory");
    assert_eq!(CommandError::EmptyNamespace.message(), "The namespace is empty");
    assert_eq!(CommandError::NoCommand.message(), "No command provided");
    assert_eq!(CommandError::NoValue.message(), "No secret provided");
}
