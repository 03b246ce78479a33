//! The commands of the tool: which store operation each one starts, and what
//! it prints or runs once the operation has ended.
use vstd::prelude::*;
use vstd::string::*;
use crate::entries::Entries;
use crate::error::{StoreError, StoreErrorView};
use crate::key::{is_valid_key, valid_key};
use crate::protocol::{Outcome, OutcomeView, Step, StepView};
use crate::quote::{quote, quoted};
use crate::record::{record_pairs, SecretRecord, SecretRecordView};
use crate::session::{
    begin_get, begin_list_all, begin_list_filtered, begin_set, fail, Backend, SessionView,
};
use crate::store::{SecretStore, Session};

verus! {

/// Write a secret to the store.
#[derive(Clone, Debug, PartialEq, Eq)]
pub struct SetSecret {
    /// The name of the environment variable.
    pub key: String,
    /// The secret. Without it, the secret is asked for at the terminal.
    pub value: Option<String>,
}

/// Read a secret from the store.
#[derive(Clone, Debug, PartialEq, Eq)]
pub struct Get {
    pub key: String,
}

/// Print `export` lines for secrets of the namespace.
#[derive(Clone, Debug, PartialEq, Eq)]
pub struct Env {
    /// The environment variables to export. Without any, all secrets of the
    /// namespace are exported.
    pub keys: Vec<String>,
}

/// Run a command with all secrets of the namespace in its environment.
#[derive(Clone, Debug, PartialEq, Eq)]
pub struct Run {
    /// The command to run and its arguments.
    pub command: Vec<String>,
}

/// A command of the tool.
#[derive(Clone, Debug, PartialEq, Eq)]
pub enum Cmd {
    SetSecret(SetSecret),
    Get(Get),
    Env(Env),
    Run(Run),
    /// Print, for every secret of the namespace, the command that writes it.
    Export,
}

/// One invocation of the tool.
#[derive(Clone, Debug, PartialEq, Eq)]
pub struct App {
    pub cmd: Cmd,
    /// The namespace that groups the secrets. Without it, the name of the
    /// current directory is the namespace.
    pub namespace: Option<String>,
}

/// A command with its texts and lists as sequences.
pub enum CmdView {
    SetSecret { key: Seq<char>, value: Option<Seq<char>> },
    Get { key: Seq<char> },
    Env { keys: Seq<Seq<char>> },
    Run { command: Seq<Seq<char>> },
    Export,
}

impl View for Cmd {
    type V = CmdView;

    open spec fn view(&self) -> CmdView {
        match self {
            Cmd::SetSecret(set) => CmdView::SetSecret { key: set.key@, value: set.value.deep_view() },
            Cmd::Get(get) => CmdView::Get { key: get.key@ },
            Cmd::Env(env) => CmdView::Env { keys: env.keys.deep_view() },
            Cmd::Run(run) => CmdView::Run { command: run.command.deep_view() },
            Cmd::Export => CmdView::Export,
        }
    }
}

/// Why a command could not be carried out.
#[derive(Clone, Debug, PartialEq, Eq)]
pub enum CommandError {
    /// The store operation failed.
    Store(StoreError),
    /// No namespace was given and the current directory has no name.
    NoDirectory,
    /// The namespace is empty.
    EmptyNamespace,
    /// `run` was given no command.
    NoCommand,
    /// `set` was given no secret, neither with the command nor at the terminal.
    NoValue,
}

/// A command error with its texts as character sequences.
pub enum CommandErrorView {
    Store(StoreErrorView),
    NoDirectory,
    EmptyNamespace,
    NoCommand,
    NoValue,
}

impl View for CommandError {
    type V = CommandErrorView;

    open spec fn view(&self) -> CommandErrorView {
        match self {
            CommandError::Store(error) => CommandErrorView::Store(error@),
            CommandError::NoDirectory => CommandErrorView::NoDirectory,
            CommandError::EmptyNamespace => CommandErrorView::EmptyNamespace,
            CommandError::NoCommand => CommandErrorView::NoCommand,
            CommandError::NoValue => CommandErrorView::NoValue,
        }
    }
}

impl CommandErrorView {
    /// The line shown to the user for this error.
    pub open spec fn message(self) -> Seq<char> {
        match self {
            CommandErrorView::Store(error) => error.message(),
            CommandErrorView::NoDirectory => "Unable to get current directory"@,
            CommandErrorView::EmptyNamespace => "The namespace is empty"@,
            CommandErrorView::NoCommand => "No command provided"@,
            CommandErrorView::NoValue => "No secret provided"@,
        }
    }
}

impl CommandError {
    /// The line shown to the user for this error.
    pub fn message(&self) -> (r: String)
        ensures
            r@ == self@.message(),
    {
        match self {
            CommandError::Store(error) => error.message(),
            CommandError::NoDirectory => String::from_str("Unable to get current directory"),
            CommandError::EmptyNamespace => String::from_str("The namespace is empty"),
            CommandError::NoCommand => String::from_str("No command provided"),
            CommandError::NoValue => String::from_str("No secret provided"),
        }
    }
}

/// What a command asks of its surroundings once its store operation has ended.
#[derive(Clone, Debug, PartialEq, Eq)]
pub enum Output {
    /// Nothing.
    Nothing,
    /// Print these lines.
    Lines(Vec<String>),
    /// Run this command with these variables added to its environment, and
    /// end with its exit code.
    Spawn { command: Vec<String>, environment: Vec<(String, String)> },
}

/// An output with its texts and lists as sequences.
pub enum OutputView {
    Nothing,
    Lines(Seq<Seq<char>>),
    Spawn { command: Seq<Seq<char>>, environment: Entries },
}

impl View for Output {
    type V = OutputView;

    open spec fn view(&self) -> OutputView {
        match self {
            Output::Nothing => OutputView::Nothing,
            Output::Lines(lines) => OutputView::Lines(lines.deep_view()),
            Output::Spawn { command, environment } => OutputView::Spawn {
                command: command.deep_view(),
                environment: environment.deep_view(),
            },
        }
    }
}

/// The `export` statement for one secret, its value quoted for the shell.
pub open spec fn export_line(record: SecretRecordView) -> Seq<char> {
    "export "@ + record.key + "="@ + quoted(record.value)
}

/// The command line that writes one secret again: the program, the quoted
/// namespace, `set`, the key, `-v` and the quoted value.
pub open spec fn recreation_line(
    program: Seq<char>,
    namespace: Seq<char>,
    record: SecretRecordView,
) -> Seq<char> {
    program + " "@ + quoted(namespace) + " set "@ + record.key + " -v "@ + quoted(record.value)
}

/// The `export` statements for the records, in order.
pub open spec fn export_lines(records: Seq<SecretRecordView>) -> Seq<Seq<char>> {
    records.map_values(|r: SecretRecordView| export_line(r))
}

/// The command lines that write the records again, in order.
pub open spec fn recreation_lines(
    program: Seq<char>,
    namespace: Seq<char>,
    records: Seq<SecretRecordView>,
) -> Seq<Seq<char>> {
    records.map_values(|r: SecretRecordView| recreation_line(program, namespace, r))
}

/// The secret of a `set`: the one given with the command, else the one that
/// was asked for at the terminal.
pub open spec fn chosen_secret(given: Option<Seq<char>>, prompted: Option<Seq<char>>) -> Option<
    Seq<char>,
> {
    match given {
        Some(secret) => Some(secret),
        None => prompted,
    }
}

/// Whether the secret must be asked for at the terminal: the command is a
/// `set` of a valid key without a value.
pub open spec fn asks_for_secret(cmd: CmdView) -> bool {
    match cmd {
        CmdView::SetSecret { key, value } => value is None && valid_key(key),
        _ => false,
    }
}

/// The namespace of an invocation: the one given, else the name of the
/// current directory.
pub open spec fn chosen_namespace(given: Option<Seq<char>>, directory: Option<Seq<char>>) -> Option<
    Seq<char>,
> {
    match given {
        Some(namespace) => Some(namespace),
        None => directory,
    }
}

/// The namespace that an invocation works on: the chosen one, which must not
/// be empty. Without a given namespace and without a directory name there is
/// `NoDirectory`; an empty namespace, given or taken from the directory, is
/// `EmptyNamespace`.
pub open spec fn namespace_of(given: Option<Seq<char>>, directory: Option<Seq<char>>) -> Result<
    Seq<char>,
    CommandErrorView,
> {
    match chosen_namespace(given, directory) {
        Some(namespace) => if namespace.len() == 0 {
            Err(CommandErrorView::EmptyNamespace)
        } else {
            Ok(namespace)
        },
        None => Err(CommandErrorView::NoDirectory),
    }
}

/// The first step of a command's store operation, or the reason why there is
/// none. `prompted` is the secret that was asked for at the terminal. A `set`
/// checks its key before it looks for its secret: with an invalid key it
/// ends in `InvalidKey` whether or not there is a secret.
pub open spec fn begin_command(
    cmd: CmdView,
    backend: Backend,
    namespace: Seq<char>,
    prompted: Option<Seq<char>>,
) -> Result<(SessionView, StepView), CommandErrorView> {
    match cmd {
        CmdView::SetSecret { key, value } => if !valid_key(key) {
            Ok(fail(namespace, StoreErrorView::InvalidKey(key)))
        } else {
            match chosen_secret(value, prompted) {
                Some(secret) => Ok(begin_set(backend, namespace, key, secret)),
                None => Err(CommandErrorView::NoValue),
            }
        },
        CmdView::Get { key } => Ok(begin_get(backend, namespace, key)),
        CmdView::Env { keys } => Ok(begin_list_filtered(backend, namespace, keys)),
        CmdView::Run { command } => if command.len() == 0 {
            Err(CommandErrorView::NoCommand)
        } else {
            Ok(begin_list_filtered(backend, namespace, Seq::empty()))
        },
        CmdView::Export => Ok(begin_list_all(backend, namespace)),
    }
}

/// What a command asks for when its store operation has ended in `outcome`;
/// `None` where the outcome is not one that the command's operation ends in.
pub open spec fn render(
    cmd: CmdView,
    program: Seq<char>,
    namespace: Seq<char>,
    outcome: OutcomeView,
) -> Option<OutputView> {
    match (cmd, outcome) {
        (CmdView::SetSecret { .. }, OutcomeView::Stored) => Some(OutputView::Nothing),
        (CmdView::Get { .. }, OutcomeView::Value(value)) => Some(OutputView::Lines(seq![value])),
        (CmdView::Env { .. }, OutcomeView::Records(records)) => Some(
            OutputView::Lines(export_lines(records)),
        ),
        (CmdView::Run { command }, OutcomeView::Records(records)) => Some(
            OutputView::Spawn { command, environment: record_pairs(records) },
        ),
        (CmdView::Export, OutcomeView::Records(records)) => Some(
            OutputView::Lines(recreation_lines(program, namespace, records)),
        ),
        _ => None,
    }
}

fn clone_strings(items: &Vec<String>) -> (r: Vec<String>)
    ensures
        r.deep_view() == items.deep_view(),
{
    let mut out: Vec<String> = Vec::new();
    let mut i: usize = 0;
    while i < items.len()
        invariant
            i <= items.len(),
            out.deep_view() == items.deep_view().take(i as int),
        decreases items.len() - i,
    {
        let ghost before = out.deep_view();
        out.push(items[i].clone());
        assert(out.deep_view() =~= before.push(items[i as int]@));
        assert(items.deep_view().take(i + 1) =~= before.push(items[i as int]@));
        i += 1;
    }
    assert(items.deep_view().take(i as int) =~= items.deep_view());
    out
}

/// The `export` statement for one secret.
pub fn export_statement(record: &SecretRecord) -> (r: String)
    ensures
        r@ == export_line(record@),
{
    let mut out = String::from_str("export ");
    out.append(record.key.as_str());
    out.append("=");
    let value = quote(record.value.as_str());
    out.append(value.as_str());
    out
}

/// The command line that writes one secret again.
pub fn recreation_command(program: &str, namespace: &str, record: &SecretRecord) -> (r: String)
    ensures
        r@ == recreation_line(program@, namespace@, record@),
{
    let mut out = String::from_str(program);
    out.append(" ");
    let quoted_namespace = quote(namespace);
    out.append(quoted_namespace.as_str());
    out.append(" set ");
    out.append(record.key.as_str());
    out.append(" -v ");
    let value = quote(record.value.as_str());
    out.append(value.as_str());
    out
}

/// The `export` statements for the records, in order.
pub fn export_statements(records: &Vec<SecretRecord>) -> (r: Vec<String>)
    ensures
        r.deep_view() == export_lines(records.deep_view()),
{
    let mut out: Vec<String> = Vec::new();
    let mut i: usize = 0;
    while i < records.len()
        invariant
            i <= records.len(),
            out.deep_view() == export_lines(records.deep_view().take(i as int)),
        decreases records.len() - i,
    {
        let ghost before = out.deep_view();
        let line = export_statement(&records[i]);
        out.push(line);
        assert(out.deep_view() =~= before.push(export_line(records[i as int]@)));
        assert(export_lines(records.deep_view().take(i + 1)) =~= before.push(
            export_line(records[i as int]@),
        ));
        i += 1;
    }
    assert(records.deep_view().take(i as int) =~= records.deep_view());
    out
}

/// The command lines that write the records again, in order.
pub fn recreation_commands(program: &str, namespace: &str, records: &Vec<SecretRecord>) -> (r: Vec<
    String,
>)
    ensures
        r.deep_view() == recreation_lines(program@, namespace@, records.deep_view()),
{
    let mut out: Vec<String> = Vec::new();
    let mut i: usize = 0;
    while i < records.len()
        invariant
            i <= records.len(),
            out.deep_view() == recreation_lines(
                program@,
                namespace@,
                records.deep_view().take(i as int),
            ),
        decreases records.len() - i,
    {
        let ghost before = out.deep_view();
        let line = recreation_command(program, namespace, &records[i]);
        out.push(line);
        assert(out.deep_view() =~= before.push(
            recreation_line(program@, namespace@, records[i as int]@),
        ));
        assert(recreation_lines(program@, namespace@, records.deep_view().take(i + 1))
            =~= before.push(recreation_line(program@, namespace@, records[i as int]@)));
        i += 1;
    }
    assert(records.deep_view().take(i as int) =~= records.deep_view());
    out
}

/// The variables that the records add to an environment: each key with its secret.
pub fn environment(records: &Vec<SecretRecord>) -> (r: Vec<(String, String)>)
    ensures
        r.deep_view() == record_pairs(records.deep_view()),
{
    let mut out: Vec<(String, String)> = Vec::new();
    let mut i: usize = 0;
    while i < records.len()
        invariant
            i <= records.len(),
            out.deep_view() == record_pairs(records.deep_view().take(i as int)),
        decreases records.len() - i,
    {
        let ghost before = out.deep_view();
        out.push((records[i].key.clone(), records[i].value.clone()));
        assert(out.deep_view() =~= before.push((records[i as int]@.key, records[i as int]@.value)));
        assert(record_pairs(records.deep_view().take(i + 1)) =~= before.push(
            (records[i as int]@.key, records[i as int]@.value),
        ));
        i += 1;
    }
    assert(records.deep_view().take(i as int) =~= records.deep_view());
    out
}

/// The exit code of this process after the command it ran has ended: the
/// command's own code, or 1 where it has none because a signal ended it.
pub fn exit_code(child: Option<i32>) -> (r: i32)
    ensures
        r == match child {
            Some(code) => code,
            None => 1i32,
        },
{
    match child {
        Some(code) => code,
        None => 1,
    }
}

impl App {
    /// The namespace of this invocation: the one given, else the name of
    /// the current directory, which the caller hands in if there is one. A
    /// namespace is never empty: an empty one is refused.
    pub fn namespace(&self, current_directory: Option<String>) -> (r: Result<String, CommandError>)
        ensures
            match namespace_of(self.namespace.deep_view(), current_directory.deep_view()) {
                Ok(namespace) => r matches Ok(n) && n@ == namespace,
                Err(error) => r matches Err(e) && e@ == error,
            },
            r matches Ok(n) ==> n@.len() > 0,
    {
        let chosen = match &self.namespace {
            Some(namespace) => Some(namespace.clone()),
            None => current_directory,
        };
        match chosen {
            Some(namespace) => {
                if namespace.as_str().is_empty() {
                    Err(CommandError::EmptyNamespace)
                } else {
                    Ok(namespace)
                }
            },
            None => Err(CommandError::NoDirectory),
        }
    }

    /// The store that this invocation works on. An empty namespace has none.
    pub fn store(&self, backend: Backend, current_directory: Option<String>) -> (r: Result<
        SecretStore,
        CommandError,
    >)
        ensures
            match namespace_of(self.namespace.deep_view(), current_directory.deep_view()) {
                Ok(namespace) => r matches Ok(store) && store.spec_backend() == backend
                    && store.spec_namespace() == namespace,
                Err(error) => r matches Err(e) && e@ == error,
            },
    {
        match self.namespace(current_directory) {
            Err(error) => Err(error),
            Ok(namespace) => match SecretStore::new(backend, namespace) {
                Some(store) => Ok(store),
                None => Err(CommandError::EmptyNamespace),
            },
        }
    }
}

impl Cmd {
    /// Whether the secret must be asked for at the terminal before the
    /// command can begin: it is a `set` of a valid key without a value. A
    /// `set` of an invalid key asks for nothing: it fails on its key.
    pub fn needs_secret(&self) -> (r: bool)
        ensures
            r == asks_for_secret(self@),
    {
        match self {
            Cmd::SetSecret(set) => set.value.is_none() && is_valid_key(set.key.as_str()),
            _ => false,
        }
    }

    /// Begins the command's store operation. `set` checks its key first and
    /// then takes its secret from the command, else from `prompted`; `run`
    /// without a command fails before the store is asked anything.
    pub fn begin(&self, store: &SecretStore, prompted: Option<String>) -> (r: Result<
        (Session, Step),
        CommandError,
    >)
        ensures
            match begin_command(
                self@,
                store.spec_backend(),
                store.spec_namespace(),
                prompted.deep_view(),
            ) {
                Ok(first) => r matches Ok(begun) && (begun.0@, begun.1@) == first && begun.0@.wf(),
                Err(error) => r matches Err(e) && e@ == error,
            },
    {
        match self {
            Cmd::SetSecret(set) => {
                if !is_valid_key(set.key.as_str()) {
                    return Ok(store.refuse_key(set.key.clone()));
                }
                let secret = match &set.value {
                    Some(value) => Some(value.clone()),
                    None => prompted,
                };
                match secret {
                    Some(secret) => Ok(store.set(set.key.clone(), secret)),
                    None => Err(CommandError::NoValue),
                }
            },
            Cmd::Get(get) => Ok(store.get(get.key.clone())),
            Cmd::Env(env) => Ok(store.list_filtered(clone_strings(&env.keys))),
            Cmd::Run(run) => {
                if run.command.len() == 0 {
                    Err(CommandError::NoCommand)
                } else {
                    let none: Vec<String> = Vec::new();
                    assert(none.deep_view() =~= Seq::<Seq<char>>::empty());
                    Ok(store.list_filtered(none))
                }
            },
            Cmd::Export => Ok(store.list_all()),
        }
    }

    /// What the command asks for now that its store operation has ended in
    /// `outcome`: nothing after `set`, the bare secret after `get`, `export`
    /// statements after `env`, the command to run with its added environment
    /// after `run`, and the recreation commands after `export`.
    pub fn finish(&self, program: &str, namespace: &str, outcome: &Outcome) -> (r: Option<Output>)
        ensures
            match render(self@, program@, namespace@, outcome@) {
                Some(output) => r matches Some(o) && o@ == output,
                None => r is None,
            },
    {
        match self {
            Cmd::SetSecret(_) => match outcome {
                Outcome::Stored => Some(Output::Nothing),
                _ => None,
            },
            Cmd::Get(_) => match outcome {
                Outcome::Value(value) => {
                    let mut lines: Vec<String> = Vec::new();
                    lines.push(value.clone());
                    assert(lines.deep_view() =~= seq![value@]);
                    Some(Output::Lines(lines))
                },
                _ => None,
            },
            Cmd::Env(_) => match outcome {
                Outcome::Records(records) => Some(Output::Lines(export_statements(records))),
                _ => None,
            },
            Cmd::Run(run) => match outcome {
                Outcome::Records(records) => Some(
                    Output::Spawn {
                        command: clone_strings(&run.command),
                        environment: environment(records),
                    },
                ),
                _ => None,
            },
            Cmd::Export => match outcome {
                Outcome::Records(records) => Some(
                    Output::Lines(recreation_commands(program, namespace, records)),
                ),
                _ => None,
            },
        }
    }
}

} // verus!
