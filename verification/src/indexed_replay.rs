//! Export, then replay, on the attribute-indexed backend.
use vstd::prelude::*;
use vstd::utf8::{encode_utf8, valid_utf8};
use crate::command::{recreation_line, recreation_lines};
use crate::entries::{lemma_same_mapping, lookup, mapping, Entries};
use crate::filter::KeyFilterView;
use crate::indexed::{entry_attributes, key_attribute};
use crate::indexed_guarantees::{
    entry_record_of, get_run, holds_record, is_wanted_entry, lemma_entry_attributes,
    lemma_get_one, lemma_listing, lemma_set_run, listing_run, lists_entries, lists_entry,
    vault_after_set,
};
use crate::key::valid_key;
use crate::protocol::{OutcomeView, StepView};
use crate::record::SecretRecordView;
use crate::replay::{read_recreation, recreation_line_words, replay};
use crate::session::{begin_set, Backend};
use crate::shell::is_plain_word;
use crate::vault::{has_attributes, run, without_same, EntryModel, VaultModel};

verus! {

/// The entry that a `set` of the record's key to its value makes.
pub open spec fn entry_made(namespace: Seq<char>, record: SecretRecordView) -> EntryModel {
    EntryModel {
        attributes: entry_attributes(namespace, Some(record.key)),
        secret: encode_utf8(record.value),
        locked: false,
    }
}

/// The entries that `set`s of the records make, in order.
pub open spec fn entries_made(namespace: Seq<char>, records: Seq<SecretRecordView>) -> Seq<
    EntryModel,
> {
    records.map_values(|r: SecretRecordView| entry_made(namespace, r))
}

/// No two records share a key.
pub open spec fn distinct_records(records: Seq<SecretRecordView>) -> bool {
    forall|i: int, j: int|
        0 <= i < j < records.len() ==> (#[trigger] records[i]).key != (#[trigger] records[j]).key
}

/// The vault holds no entry of the namespace.
pub open spec fn is_fresh(vault: VaultModel, namespace: Seq<char>) -> bool {
    forall|i: int|
        0 <= i < vault.entries.len() ==> !has_attributes(
            (#[trigger] vault.entries[i]).attributes,
            entry_attributes(namespace, None),
        )
}

/// Where no entry carries exactly the attributes, a replacement removes nothing.
pub proof fn lemma_without_same_keeps_all(entries: Seq<EntryModel>, attributes: Entries)
    requires
        forall|i: int|
            0 <= i < entries.len() ==> mapping((#[trigger] entries[i]).attributes) != mapping(
                attributes,
            ),
    ensures
        without_same(entries, attributes) == entries,
    decreases entries.len(),
{
    if entries.len() > 0 {
        let init = entries.drop_last();
        assert forall|i: int| 0 <= i < init.len() implies mapping(
            (#[trigger] init[i]).attributes,
        ) != mapping(attributes) by {
            assert(init[i] == entries[i]);
        }
        lemma_without_same_keeps_all(init, attributes);
        assert(entries[entries.len() - 1] == entries.last());
        assert(init.push(entries.last()) =~= entries);
    } else {
        assert(without_same(entries, attributes) =~= entries);
    }
}

/// Replaying the recreation commands of records with valid, distinct keys on
/// a vault that is fresh in the namespace succeeds, and adds to the vault
/// one unlocked entry for each record, in order.
pub proof fn lemma_replay_indexed(
    target: VaultModel,
    program: Seq<char>,
    namespace: Seq<char>,
    records: Seq<SecretRecordView>,
)
    requires
        is_plain_word(program),
        forall|j: int| 0 <= j < records.len() ==> valid_key((#[trigger] records[j]).key),
        distinct_records(records),
        is_fresh(target, namespace),
    ensures
        replay(Backend::Indexed, target, recreation_lines(program, namespace, records)) matches Some(
            result,
        ) && result.entries == target.entries + entries_made(namespace, records),
    decreases records.len(),
{
    let lines = recreation_lines(program, namespace, records);
    if records.len() > 0 {
        let init = records.drop_last();
        let last = records.last();
        assert(recreation_lines(program, namespace, init) =~= lines.drop_last());
        assert forall|j: int| 0 <= j < init.len() implies valid_key((#[trigger] init[j]).key) by {
            assert(init[j] == records[j]);
        }
        assert forall|i: int, j: int| 0 <= i < j < init.len() implies (#[trigger] init[i]).key != (
        #[trigger] init[j]).key by {
            assert(init[i] == records[i] && init[j] == records[j]);
        }
        lemma_replay_indexed(target, program, namespace, init);
        let before = replay(Backend::Indexed, target, lines.drop_last())->Some_0;
        assert(records[records.len() - 1] == last);
        assert(lines.last() == recreation_line(program, namespace, last));
        recreation_line_words(program, namespace, last);
        assert(read_recreation(lines.last()) == Some((namespace, last.key, last.value)));
        let tags = entry_attributes(namespace, Some(last.key));
        let base = entry_attributes(namespace, None);
        lemma_entry_attributes(namespace, last.key);
        assert forall|i: int| 0 <= i < before.entries.len() implies mapping(
            (#[trigger] before.entries[i]).attributes,
        ) != mapping(tags) by {
            let have = before.entries[i].attributes;
            if mapping(have) == mapping(tags) {
                if i < target.entries.len() {
                    assert(before.entries[i] == target.entries[i]);
                    assert forall|m: int| 0 <= m < base.len() implies lookup(
                        have,
                        (#[trigger] base[m]).0,
                    ) == Some(base[m].1) by {
                        lemma_same_mapping(have, tags, base[m].0);
                    }
                    assert(has_attributes(target.entries[i].attributes, base));
                } else {
                    let j = i - target.entries.len();
                    assert(before.entries[i] == entry_made(namespace, init[j]));
                    assert(init[j] == records[j]);
                    lemma_entry_attributes(namespace, init[j].key);
                    lemma_same_mapping(have, tags, key_attribute());
                }
            }
        }
        lemma_without_same_keeps_all(before.entries, tags);
        lemma_set_run(before, namespace, last.key, last.value);
        let first = begin_set(Backend::Indexed, namespace, last.key, last.value);
        assert(run(before, first.0, first.1, 2) == (
            vault_after_set(before, namespace, last.key, last.value),
            StepView::Done(OutcomeView::Stored),
        )) by {
            reveal_with_fuel(run, 3);
        }
        let result = replay(Backend::Indexed, target, lines)->Some_0;
        assert(result.entries =~= target.entries + entries_made(namespace, records));
    } else {
        assert(target.entries + entries_made(namespace, records) =~= target.entries);
    }
}

/// Some record has this key and this value.
#[verifier::opaque]
pub open spec fn has_pair(records: Seq<SecretRecordView>, key: Seq<char>, value: Seq<char>) -> bool {
    exists|j: int| 0 <= j < records.len() && (#[trigger] records[j]).key == key && records[j].value == value
}

/// The two listings hold the same keys with the same values.
pub open spec fn same_pairs(a: Seq<SecretRecordView>, b: Seq<SecretRecordView>) -> bool {
    &&& forall|j: int| 0 <= j < a.len() ==> has_pair(b, (#[trigger] a[j]).key, a[j].value)
    &&& forall|j: int| 0 <= j < b.len() ==> has_pair(a, (#[trigger] b[j]).key, b[j].value)
}

/// The recreation commands of records with valid, distinct keys, run on a
/// vault that holds no entry of the namespace, all succeed, and a listing of
/// the namespace in that vault then gives exactly the records' keys and values.
pub proof fn lemma_replay_lists_the_same(
    target: VaultModel,
    program: Seq<char>,
    namespace: Seq<char>,
    records: Seq<SecretRecordView>,
)
    requires
        is_plain_word(program),
        forall|j: int| 0 <= j < records.len() ==> valid_key((#[trigger] records[j]).key),
        distinct_records(records),
        is_fresh(target, namespace),
        target.entries.len() + records.len() <= usize::MAX,
    ensures
        replay(Backend::Indexed, target, recreation_lines(program, namespace, records)) matches Some(
            result,
        ) && (listing_run(result, namespace, KeyFilterView::All).1 matches StepView::Done(
            OutcomeView::Records(copies),
        ) && same_pairs(records, copies)) && forall|j: int|
            0 <= j < records.len() ==> (#[trigger] get_run(result, namespace, records[j].key)).1
                == StepView::Done(OutcomeView::Value(records[j].value)),
        recreation_lines(program, namespace, records).len() == records.len(),
{
    let filter = KeyFilterView::All;
    let lines = recreation_lines(program, namespace, records);
    lemma_replay_indexed(target, program, namespace, records);
    let result = replay(Backend::Indexed, target, lines)->Some_0;
    let t = target.entries.len() as int;
    let base = entry_attributes(namespace, None);
    // The entries of the namespace are the new ones, and each is wanted.
    assert forall|i: int| is_wanted_entry(result, namespace, filter, i) implies t <= i
        < result.entries.len() by {
        if i < t {
            assert(result.entries[i] == target.entries[i]);
        }
    }
    assert forall|j: int| 0 <= j < records.len() implies {
        let entry = #[trigger] result.entries[t + j];
        &&& is_wanted_entry(result, namespace, filter, t + j)
        &&& entry == entry_made(namespace, records[j])
        &&& valid_utf8(entry.secret)
        &&& entry_record_of(entry).key == records[j].key
        &&& entry_record_of(entry).value == records[j].value
    } by {
        lemma_entry_attributes(namespace, records[j].key);
        vstd::utf8::encode_utf8_valid_utf8(records[j].value);
        vstd::utf8::encode_utf8_decode_utf8(records[j].value);
    }
    assert forall|i: int| is_wanted_entry(result, namespace, filter, i) implies valid_utf8(
        (#[trigger] result.entries[i]).secret,
    ) by {
        assert(result.entries[i] == result.entries[t + (i - t)]);
    }
    assert forall|j: int| 0 <= j < records.len() implies (#[trigger] get_run(
        result,
        namespace,
        records[j].key,
    )).1 == StepView::Done(OutcomeView::Value(records[j].value)) by {
        let tags = entry_attributes(namespace, Some(records[j].key));
        lemma_entry_attributes(namespace, records[j].key);
        assert(result.entries[t + j] == entry_made(namespace, records[j]));
        assert forall|i: int| 0 <= i < result.entries.len() implies (has_attributes(
            (#[trigger] result.entries[i]).attributes,
            tags,
        ) <==> i == t + j) by {
            let have = result.entries[i].attributes;
            if has_attributes(have, tags) && i != t + j {
                if i < t {
                    assert(result.entries[i] == target.entries[i]);
                    assert(base[0] == tags[0] && base[1] == tags[1]);
                    assert forall|m: int| 0 <= m < base.len() implies lookup(
                        have,
                        (#[trigger] base[m]).0,
                    ) == Some(base[m].1) by {
                        assert(base[m] == tags[m]);
                    }
                    assert(has_attributes(target.entries[i].attributes, base));
                } else {
                    let other = i - t;
                    assert(result.entries[i] == entry_made(namespace, records[other]));
                    lemma_entry_attributes(namespace, records[other].key);
                    assert(tags[2] == (key_attribute(), records[j].key));
                    assert(lookup(have, tags[2].0) == Some(tags[2].1));
                    assert(records[other].key == records[j].key);
                }
            }
        }
        lemma_get_one(result, namespace, records[j].key, records[j].value, t + j);
    }
    lemma_listing(result, namespace, filter);
    let copies = listing_run(result, namespace, filter).1->Done_0->Records_0;
    assert(lists_entries(copies, result, namespace, filter));
    assert forall|j: int| 0 <= j < records.len() implies has_pair(
        copies,
        (#[trigger] records[j]).key,
        records[j].value,
    ) by {
        reveal(has_pair);
        reveal(lists_entry);
        assert(is_wanted_entry(result, namespace, filter, t + j));
        assert(lists_entry(copies, result.entries[t + j]));
    }
    assert forall|m: int| 0 <= m < copies.len() implies has_pair(
        records,
        (#[trigger] copies[m]).key,
        copies[m].value,
    ) by {
        reveal(has_pair);
        reveal(holds_record);
        assert(holds_record(result, namespace, filter, copies[m]));
        let i = choose|i: int| #[trigger]
            is_wanted_entry(result, namespace, filter, i) && copies[m] == entry_record_of(
                result.entries[i],
            );
        assert(result.entries[i] == result.entries[t + (i - t)]);
        assert(records[i - t].key == copies[m].key);
    }
}

/// Export, then replay: `export` prints one recreation command for each
/// record, and these commands, run again on a vault that holds no entry of
/// that namespace, all succeed; a listing of the namespace in that vault
/// then gives exactly the keys and values that were exported, and a `get` of
/// each exported key gives its exported value. This is said of an export
/// whose keys are valid and distinct, and of a program name that the shell
/// reads as one word.
pub proof fn export_then_replay(
    source: VaultModel,
    target: VaultModel,
    program: Seq<char>,
    namespace: Seq<char>,
)
    requires
        is_plain_word(program),
        is_fresh(target, namespace),
        listing_run(source, namespace, KeyFilterView::All).1 matches StepView::Done(
            OutcomeView::Records(records),
        ) && distinct_records(records) && target.entries.len() + records.len() <= usize::MAX
            && forall|j: int| 0 <= j < records.len() ==> valid_key((#[trigger] records[j]).key),
    ensures
        ({
            let exported = listing_run(source, namespace, KeyFilterView::All).1->Done_0->Records_0;
            replay(
                Backend::Indexed,
                target,
                recreation_lines(program, namespace, exported),
            ) matches Some(result) && (listing_run(result, namespace, KeyFilterView::All).1 matches StepView::Done(
                OutcomeView::Records(copies),
            ) && same_pairs(exported, copies)) && forall|j: int|
                0 <= j < exported.len() ==> (#[trigger] get_run(
                    result,
                    namespace,
                    exported[j].key,
                )).1 == StepView::Done(OutcomeView::Value(exported[j].value))
        }),
        ({
            let exported = listing_run(source, namespace, KeyFilterView::All).1->Done_0->Records_0;
            recreation_lines(program, namespace, exported).len() == exported.len()
        }),
{
    let exported = listing_run(source, namespace, KeyFilterView::All).1->Done_0->Records_0;
    lemma_replay_lists_the_same(target, program, namespace, exported);
}

} // verus!
