//! What the shell makes of the lines that the commands print, and what
//! comes of running the printed recreation commands again.
use vstd::prelude::*;
use crate::blob::{blob_records, decode_blob, encode_blob, entry_record, reads_back};
use crate::blob_guarantees::{get_run, lemma_decoded_distinct, lemma_get_run, stored_blob};
use crate::command::{export_line, recreation_line, recreation_lines};
use crate::entries::{
    collect, distinct_keys, insert, lemma_collect_distinct_is_same, lemma_mapping_insert,
    lemma_same_mapping, mapping, Entries,
};
use crate::filter::KeyFilterView;
use crate::key::{is_key_char, valid_key};
use crate::protocol::{OutcomeView, StepView};
use crate::quote::quoted;
use crate::record::SecretRecordView;
use crate::session::{begin_list_all, begin_set, Backend};
use crate::shell::{
    is_plain, is_plain_word, lemma_read_plain, lemma_read_quoted, lemma_read_space, read_words,
    shell_words,
};
use crate::vault::{run, VaultModel};

verus! {

/// A valid key is a word that the shell reads as it stands.
pub proof fn lemma_key_is_plain(key: Seq<char>)
    requires
        valid_key(key),
    ensures
        is_plain_word(key),
{
    assert forall|i: int| 0 <= i < key.len() implies is_plain(#[trigger] key[i]) by {
        assert(is_key_char(key[i]));
    }
}

/// The shell reads a recreation command as six words: the program, the
/// namespace, `set`, the key, `-v` and the value. Namespace and value come
/// out as they were before quoting, whatever they hold.
pub proof fn recreation_line_words(
    program: Seq<char>,
    namespace: Seq<char>,
    record: SecretRecordView,
)
    requires
        is_plain_word(program),
        valid_key(record.key),
    ensures
        shell_words(recreation_line(program, namespace, record)) == Some(
            seq![program, namespace, "set"@, record.key, "-v"@, record.value],
        ),
{
    reveal_strlit(" ");
    reveal_strlit(" set ");
    reveal_strlit(" -v ");
    reveal_strlit("set");
    reveal_strlit("-v");
    let space = seq![' '];
    let set = "set"@;
    let flag = "-v"@;
    let empty = Seq::<char>::empty();
    let line = recreation_line(program, namespace, record);
    assert(" "@ =~= space);
    assert(" set "@ =~= space + set + space);
    assert(" -v "@ =~= space + flag + space);
    assert(is_plain_word(set));
    assert(is_plain_word(flag));
    lemma_key_is_plain(record.key);
    // The line, piece by piece, from each piece onwards.
    let r10 = quoted(record.value);
    let r9 = space + r10;
    let r8 = flag + r9;
    let r7 = space + r8;
    let r6 = record.key + r7;
    let r5 = space + r6;
    let r4 = set + r5;
    let r3 = space + r4;
    let r2 = quoted(namespace) + r3;
    let r1 = space + r2;
    assert(line =~= program + r1);
    // Reading from the back.
    lemma_read_quoted(record.value, None, empty);
    assert(r10 + empty =~= r10);
    assert(empty + record.value =~= record.value);
    assert(read_words(r10, false, None) == Some(seq![record.value]));
    lemma_read_space(flag, r10);
    lemma_read_plain(flag, None, r9);
    assert(empty + flag =~= flag);
    assert(read_words(r8, false, None) == Some(seq![flag] + seq![record.value]));
    lemma_read_space(record.key, r8);
    lemma_read_plain(record.key, None, r7);
    assert(empty + record.key =~= record.key);
    assert(read_words(r6, false, None) == Some(
        seq![record.key] + (seq![flag] + seq![record.value]),
    ));
    lemma_read_space(set, r6);
    lemma_read_plain(set, None, r5);
    assert(empty + set =~= set);
    let w4 = seq![set] + (seq![record.key] + (seq![flag] + seq![record.value]));
    assert(read_words(r4, false, None) == Some(w4));
    lemma_read_space(namespace, r4);
    lemma_read_quoted(namespace, None, r3);
    assert(empty + namespace =~= namespace);
    let w2 = seq![namespace] + w4;
    assert(read_words(r2, false, None) == Some(w2));
    lemma_read_space(program, r2);
    lemma_read_plain(program, None, r1);
    assert(empty + program =~= program);
    assert(read_words(line, false, None) == Some(seq![program] + w2));
    assert(seq![program] + w2 =~= seq![
        program,
        namespace,
        set,
        record.key,
        flag,
        record.value,
    ]);
}

/// The shell reads an `export` statement as two words: `export`, and the
/// assignment of the value, as it was before quoting, to the key.
pub proof fn export_line_words(record: SecretRecordView)
    requires
        valid_key(record.key),
    ensures
        shell_words(export_line(record)) == Some(
            seq!["export"@, record.key + seq!['='] + record.value],
        ),
{
    reveal_strlit("export ");
    reveal_strlit("export");
    reveal_strlit("=");
    let space = seq![' '];
    let export = "export"@;
    let equals = seq!['='];
    let empty = Seq::<char>::empty();
    let line = export_line(record);
    assert("export "@ =~= export + space);
    assert("="@ =~= equals);
    assert(is_plain_word(export));
    assert(is_plain_word(equals));
    lemma_key_is_plain(record.key);
    let r4 = quoted(record.value);
    let r3 = equals + r4;
    let r2 = record.key + r3;
    let r1 = space + r2;
    assert(line =~= export + r1);
    lemma_read_plain(record.key, None, r3);
    assert(empty + record.key =~= record.key);
    lemma_read_plain(equals, Some(record.key), r4);
    lemma_read_quoted(record.value, Some(record.key + equals), empty);
    assert(r4 + empty =~= r4);
    assert(read_words(r2, false, None) == Some(seq![record.key + equals + record.value]));
    lemma_read_space(export, r2);
    lemma_read_plain(export, None, r1);
    assert(empty + export =~= export);
    assert(seq![export] + seq![record.key + equals + record.value] =~= seq![
        export,
        record.key + equals + record.value,
    ]);
}

/// What a command line asks to be set, where the shell reads it as a `set`
/// command with a value: the namespace, the key and the value.
pub open spec fn read_recreation(line: Seq<char>) -> Option<(Seq<char>, Seq<char>, Seq<char>)> {
    match shell_words(line) {
        Some(words) => if words.len() == 6 && words[2] == "set"@ && words[4] == "-v"@ {
            Some((words[1], words[3], words[5]))
        } else {
            None
        },
        None => None,
    }
}

/// The vault after each of the lines has been run in turn as a `set`
/// command on the given backend; `None` where a line is no such command, or
/// a `set` did not succeed.
pub open spec fn replay(backend: Backend, vault: VaultModel, lines: Seq<Seq<char>>) -> Option<
    VaultModel,
>
    decreases lines.len(),
{
    if lines.len() == 0 {
        Some(vault)
    } else {
        match replay(backend, vault, lines.drop_last()) {
            None => None,
            Some(before) => match read_recreation(lines.last()) {
                None => None,
                Some((namespace, key, value)) => {
                    let first = begin_set(backend, namespace, key, value);
                    let ended = run(before, first.0, first.1, 2);
                    if ended.1 == StepView::Done(OutcomeView::Stored) {
                        Some(ended.0)
                    } else {
                        None
                    }
                },
            },
        }
    }
}

/// The records of all entries of a mapping.
pub proof fn lemma_all_records(e: Entries)
    ensures
        blob_records(e, KeyFilterView::All) == e.map_values(
            |p: (Seq<char>, Seq<char>)| entry_record(p),
        ),
    decreases e.len(),
{
    let f = |p: (Seq<char>, Seq<char>)| entry_record(p);
    if e.len() > 0 {
        lemma_all_records(e.drop_last());
        assert(e.drop_last().map_values(f).push(entry_record(e.last())) =~= e.map_values(f));
    } else {
        assert(blob_records(e, KeyFilterView::All) =~= e.map_values(f));
    }
}

/// Replaying the recreation commands of a mapping's entries on the blob
/// backend sets each entry in turn: where the replay succeeds, the namespace
/// holds the mapping that its blob held before with these entries set.
pub proof fn lemma_replay_blob(
    target: VaultModel,
    program: Seq<char>,
    namespace: Seq<char>,
    e: Entries,
)
    requires
        is_plain_word(program),
        forall|i: int| 0 <= i < e.len() ==> valid_key((#[trigger] e[i]).0),
        decode_blob(stored_blob(target, namespace)) is Some,
    ensures
        ({
            let lines = recreation_lines(
                program,
                namespace,
                e.map_values(|p: (Seq<char>, Seq<char>)| entry_record(p)),
            );
            let start = decode_blob(stored_blob(target, namespace))->Some_0;
            replay(Backend::Blob, target, lines) matches Some(result) ==> (decode_blob(
                stored_blob(result, namespace),
            ) matches Some(held) && mapping(held) == mapping(set_all(start, e)))
        }),
    decreases e.len(),
{
    let f = |p: (Seq<char>, Seq<char>)| entry_record(p);
    let records = e.map_values(f);
    let lines = recreation_lines(program, namespace, records);
    let start = decode_blob(stored_blob(target, namespace))->Some_0;
    if e.len() > 0 {
        let init = e.drop_last();
        let last = e.last();
        assert(init.map_values(f) =~= records.drop_last());
        assert(recreation_lines(program, namespace, init.map_values(f)) =~= lines.drop_last());
        assert forall|i: int| 0 <= i < init.len() implies valid_key((#[trigger] init[i]).0) by {
            assert(init[i] == e[i]);
        }
        lemma_replay_blob(target, program, namespace, init);
        match replay(Backend::Blob, target, lines) {
            Some(result) => {
                let before = replay(Backend::Blob, target, lines.drop_last())->Some_0;
                let held_before = decode_blob(stored_blob(before, namespace))->Some_0;
                assert(lines.last() == recreation_line(program, namespace, entry_record(last)));
                assert(valid_key(e[e.len() - 1].0));
                recreation_line_words(program, namespace, entry_record(last));
                assert(read_recreation(lines.last()) == Some((namespace, last.0, last.1)));
                crate::blob_guarantees::lemma_set_run(before, namespace, last.0, last.1);
                let changed = insert(held_before, last.0, last.1);
                let bytes = encode_blob(changed)->Some_0;
                assert(result.blobs.contains_key(namespace));
                assert(stored_blob(result, namespace) == Some(bytes));
                assert(reads_back(bytes, changed));
                let held = decode_blob(stored_blob(result, namespace))->Some_0;
                lemma_mapping_insert(held_before, last.0, last.1);
                lemma_mapping_insert(set_all(start, init), last.0, last.1);
            },
            None => {},
        }
    }
}

/// The entries with each of the pairs set in turn.
pub open spec fn set_all(start: Entries, pairs: Entries) -> Entries
    decreases pairs.len(),
{
    if pairs.len() == 0 {
        start
    } else {
        insert(set_all(start, pairs.drop_last()), pairs.last().0, pairs.last().1)
    }
}

/// Setting pairs from nothing is collecting them.
pub proof fn lemma_set_all_from_nothing(pairs: Entries)
    ensures
        set_all(Seq::empty(), pairs) == collect(pairs),
    decreases pairs.len(),
{
    if pairs.len() > 0 {
        lemma_set_all_from_nothing(pairs.drop_last());
    }
}

/// Export, then replay: `export` prints one recreation command for each key
/// of the namespace, and these commands, run again on a vault that holds
/// nothing for that namespace, leave there exactly the keys and values of
/// the exported namespace: every `get` ends in the target as it ends in the
/// source. This is said of a namespace whose keys are all valid, of a
/// program name that the shell reads as one word, and of a replay in which
/// every `set` succeeds.
pub proof fn export_then_replay(
    source: VaultModel,
    target: VaultModel,
    program: Seq<char>,
    namespace: Seq<char>,
)
    requires
        is_plain_word(program),
        !target.blobs.contains_key(namespace),
        decode_blob(stored_blob(source, namespace)) matches Some(e) && forall|i: int|
            0 <= i < e.len() ==> valid_key((#[trigger] e[i]).0),
    ensures
        ({
            let first = begin_list_all(Backend::Blob, namespace);
            let exported = run(source, first.0, first.1, 1).1;
            let kept = decode_blob(stored_blob(source, namespace))->Some_0;
            let lines = recreation_lines(program, namespace, exported->Done_0->Records_0);
            &&& exported matches StepView::Done(OutcomeView::Records(records))
            &&& lines.len() == kept.len()
            &&& distinct_keys(kept)
            &&& replay(Backend::Blob, target, lines) matches Some(result) ==> {
                &&& decode_blob(stored_blob(result, namespace)) matches Some(held) && mapping(held)
                    == mapping(kept)
                &&& forall|key: Seq<char>|
                    valid_key(key) ==> (#[trigger] get_run(result, namespace, key)).1 == get_run(
                        source,
                        namespace,
                        key,
                    ).1
            }
        }),
{
    reveal_with_fuel(run, 2);
    let first = begin_list_all(Backend::Blob, namespace);
    let exported = run(source, first.0, first.1, 1).1;
    let kept = decode_blob(stored_blob(source, namespace))->Some_0;
    let lines = recreation_lines(program, namespace, exported->Done_0->Records_0);
    lemma_all_records(kept);
    lemma_decoded_distinct(stored_blob(source, namespace));
    lemma_replay_blob(target, program, namespace, kept);
    lemma_set_all_from_nothing(kept);
    lemma_collect_distinct_is_same(kept);
    match replay(Backend::Blob, target, lines) {
        Some(result) => {
            let held = decode_blob(stored_blob(result, namespace))->Some_0;
            assert forall|key: Seq<char>| valid_key(key) implies (#[trigger] get_run(
                result,
                namespace,
                key,
            )).1 == get_run(source, namespace, key).1 by {
                lemma_get_run(result, namespace, key);
                lemma_get_run(source, namespace, key);
                lemma_same_mapping(held, kept, key);
            }
        },
        None => {},
    }
}

} // verus!
