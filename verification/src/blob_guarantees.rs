//! What the store guarantees on the single-blob backend, proved of sessions
//! that run against a vault that works.
use vstd::prelude::*;
use crate::blob::{blob_records, decode_blob, encode_blob, entry_record, reads_back};
use crate::entries::{
    distinct_keys, insert, lemma_collect_distinct, lemma_lookup_insert, lemma_lookup_push,
    lemma_same_mapping, lookup, mapping, Entries,
};
use crate::error::StoreErrorView;
use crate::filter::KeyFilterView;
use crate::key::{all_valid, lemma_first_invalid, valid_key};
use crate::protocol::{OutcomeView, StepView, VaultCallView};
use crate::record::SecretRecordView;
use crate::session::{
    after_blob_for_get, after_blob_for_set, begin_get, begin_list_all, begin_list_filtered,
    begin_set, Backend,
};
use crate::vault::{answer, run, VaultModel};

verus! {

/// The blob that the vault holds for a namespace, if it holds one.
pub open spec fn stored_blob(vault: VaultModel, namespace: Seq<char>) -> Option<Seq<u8>> {
    if vault.blobs.contains_key(namespace) {
        Some(vault.blobs[namespace])
    } else {
        None
    }
}

/// Where a `set` stands after its two calls.
pub open spec fn set_run(vault: VaultModel, namespace: Seq<char>, key: Seq<char>, value: Seq<char>) -> (
    VaultModel,
    StepView,
) {
    let first = begin_set(Backend::Blob, namespace, key, value);
    run(vault, first.0, first.1, 2)
}

/// Where a `get` stands after its one call.
pub open spec fn get_run(vault: VaultModel, namespace: Seq<char>, key: Seq<char>) -> (
    VaultModel,
    StepView,
) {
    let first = begin_get(Backend::Blob, namespace, key);
    run(vault, first.0, first.1, 1)
}

/// Where a listing stands after its one call.
pub open spec fn list_run(vault: VaultModel, namespace: Seq<char>, keys: Seq<Seq<char>>) -> (
    VaultModel,
    StepView,
) {
    let first = begin_list_filtered(Backend::Blob, namespace, keys);
    run(vault, first.0, first.1, 1)
}

/// The records are exactly the secrets of `present` that the filter lets
/// through: each record is such a secret, each such secret has a record, and
/// no key has two.
pub open spec fn lists_exactly(
    records: Seq<SecretRecordView>,
    present: Map<Seq<char>, Seq<char>>,
    filter: KeyFilterView,
) -> bool {
    &&& forall|i: int|
        0 <= i < records.len() ==> {
            let r = #[trigger] records[i];
            present.contains_key(r.key) && present[r.key] == r.value && filter.accepts(r.key)
        }
    &&& forall|k: Seq<char>|
        #[trigger] present.contains_key(k) && filter.accepts(k) ==> exists|i: int|
            0 <= i < records.len() && (#[trigger] records[i]).key == k
    &&& forall|i: int, j: int|
        0 <= i < j < records.len() ==> (#[trigger] records[i]).key != (#[trigger] records[j]).key
}

/// What a `set` does to a vault: it ends in `Stored` exactly when the blob
/// that is there reads as a mapping and the changed mapping can be stored,
/// and then the vault holds the changed mapping's bytes for the namespace.
pub proof fn lemma_set_run(vault: VaultModel, namespace: Seq<char>, key: Seq<char>, value: Seq<char>)
    requires
        valid_key(key),
    ensures
        ({
            let ended = set_run(vault, namespace, key, value);
            match decode_blob(stored_blob(vault, namespace)) {
                None => ended == (vault, StepView::Failed(StoreErrorView::Corrupt(namespace))),
                Some(e) => match encode_blob(insert(e, key, value)) {
                    None => ended == (vault, StepView::Failed(StoreErrorView::Corrupt(namespace))),
                    Some(bytes) => ended == (
                        VaultModel { blobs: vault.blobs.insert(namespace, bytes), ..vault },
                        StepView::Done(OutcomeView::Stored),
                    ),
                },
            }
        }),
{
    reveal_with_fuel(run, 3);
}

/// What a `get` finds in a vault.
pub proof fn lemma_get_run(vault: VaultModel, namespace: Seq<char>, key: Seq<char>)
    requires
        valid_key(key),
    ensures
        get_run(vault, namespace, key) == (
            vault,
            after_blob_for_get(namespace, key, stored_blob(vault, namespace)).1,
        ),
{
    reveal_with_fuel(run, 2);
}

/// Set, then get: after a `set` that succeeded, a `get` of the same key in
/// the same namespace gives the value that was set, and leaves the vault as
/// the `set` left it.
pub proof fn set_then_get(
    vault: VaultModel,
    namespace: Seq<char>,
    key: Seq<char>,
    value: Seq<char>,
)
    ensures
        ({
            let written = set_run(vault, namespace, key, value);
            written.1 == StepView::Done(OutcomeView::Stored) ==> get_run(written.0, namespace, key)
                == (written.0, StepView::Done(OutcomeView::Value(value)))
        }),
{
    let written = set_run(vault, namespace, key, value);
    if written.1 == StepView::Done(OutcomeView::Stored) {
        if !valid_key(key) {
            reveal_with_fuel(run, 3);
        } else {
            lemma_set_run(vault, namespace, key, value);
            lemma_get_run(written.0, namespace, key);
            let e = decode_blob(stored_blob(vault, namespace))->Some_0;
            let changed = insert(e, key, value);
            let bytes = encode_blob(changed)->Some_0;
            assert(written.0.blobs.contains_key(namespace));
            assert(stored_blob(written.0, namespace) == Some(bytes));
            assert(reads_back(bytes, changed));
            let back = decode_blob(Some(bytes))->Some_0;
            lemma_same_mapping(back, changed, key);
            lemma_lookup_insert(e, key, value, key);
        }
    }
}

/// A `set` leaves every other key of the namespace as it was: a `get` of
/// another key ends after the `set` as it ended before.
pub proof fn set_keeps_other_keys(
    vault: VaultModel,
    namespace: Seq<char>,
    key: Seq<char>,
    value: Seq<char>,
    other: Seq<char>,
)
    requires
        other != key,
        valid_key(other),
    ensures
        ({
            let written = set_run(vault, namespace, key, value);
            written.1 == StepView::Done(OutcomeView::Stored) ==> get_run(
                written.0,
                namespace,
                other,
            ).1 == get_run(vault, namespace, other).1
        }),
{
    let written = set_run(vault, namespace, key, value);
    if written.1 == StepView::Done(OutcomeView::Stored) {
        if !valid_key(key) {
            reveal_with_fuel(run, 3);
        } else {
            lemma_set_run(vault, namespace, key, value);
            lemma_get_run(written.0, namespace, other);
            lemma_get_run(vault, namespace, other);
            let e = decode_blob(stored_blob(vault, namespace))->Some_0;
            let changed = insert(e, key, value);
            let bytes = encode_blob(changed)->Some_0;
            assert(written.0.blobs.contains_key(namespace));
            assert(stored_blob(written.0, namespace) == Some(bytes));
            assert(reads_back(bytes, changed));
            let back = decode_blob(Some(bytes))->Some_0;
            lemma_same_mapping(back, changed, other);
            lemma_lookup_insert(e, key, value, other);
        }
    }
}

/// A `set` in one namespace leaves every other namespace's blob untouched.
pub proof fn set_keeps_other_namespaces(
    vault: VaultModel,
    namespace: Seq<char>,
    key: Seq<char>,
    value: Seq<char>,
    other: Seq<char>,
)
    requires
        other != namespace,
    ensures
        stored_blob(set_run(vault, namespace, key, value).0, other) == stored_blob(vault, other),
{
    if valid_key(key) {
        lemma_set_run(vault, namespace, key, value);
    } else {
        reveal_with_fuel(run, 3);
    }
}

/// In a namespace for which the vault holds nothing, a `get` of any valid
/// key fails with `NotFound`.
pub proof fn get_in_fresh_namespace(vault: VaultModel, namespace: Seq<char>, key: Seq<char>)
    requires
        valid_key(key),
        !vault.blobs.contains_key(namespace),
    ensures
        get_run(vault, namespace, key).1 == StepView::Failed(StoreErrorView::NotFound(key)),
{
    lemma_get_run(vault, namespace, key);
}

/// The records of a mapping with distinct keys are exactly its secrets that
/// the filter lets through.
pub proof fn lemma_blob_records_exact(e: Entries, filter: KeyFilterView)
    requires
        distinct_keys(e),
    ensures
        lists_exactly(blob_records(e, filter), mapping(e), filter),
        forall|i: int|
            0 <= i < blob_records(e, filter).len() ==> exists|j: int|
                0 <= j < e.len() && (#[trigger] blob_records(e, filter)[i]) == entry_record(e[j]),
    decreases e.len(),
{
    let records = blob_records(e, filter);
    let present = mapping(e);
    if e.len() > 0 {
        let init = e.drop_last();
        let last = e.last();
        assert(init.push(last) =~= e);
        assert forall|i: int, j: int| 0 <= i < j < init.len() implies (#[trigger] init[i]).0 != (
        #[trigger] init[j]).0 by {
            assert(init[i] == e[i] && init[j] == e[j]);
        }
        lemma_blob_records_exact(init, filter);
        let before = blob_records(init, filter);
        assert forall|k: Seq<char>| lookup(init, k) is Some implies k != last.0 by {
            crate::entries::lemma_lookup_witness(init, k);
            let p = crate::entries::position(init, k);
            assert(init[p] == e[p]);
            assert(e[e.len() - 1] == last);
        }
        assert forall|i: int| 0 <= i < records.len() implies {
            let r = #[trigger] records[i];
            present.contains_key(r.key) && present[r.key] == r.value && filter.accepts(r.key)
        } by {
            let r = records[i];
            lemma_lookup_push(init, last, r.key);
            if i < before.len() {
                assert(records[i] == before[i]);
                assert(mapping(init).contains_key(r.key));
            }
        }
        assert forall|k: Seq<char>| #[trigger]
            present.contains_key(k) && filter.accepts(k) implies exists|i: int|
            0 <= i < records.len() && (#[trigger] records[i]).key == k by {
            lemma_lookup_push(init, last, k);
            if lookup(init, k) is Some {
                assert(mapping(init).contains_key(k));
                let i = choose|i: int| 0 <= i < before.len() && (#[trigger] before[i]).key == k;
                assert(records[i] == before[i]);
            } else {
                assert(records[records.len() - 1].key == k);
            }
        }
        assert forall|i: int, j: int| 0 <= i < j < records.len() implies (#[trigger] records[i]).key
            != (#[trigger] records[j]).key by {
            if j < before.len() {
                assert(records[i] == before[i] && records[j] == before[j]);
            } else {
                assert(records[i] == before[i]);
                assert(mapping(init).contains_key(before[i].key));
            }
        }
        assert forall|i: int| 0 <= i < records.len() implies exists|j: int|
            0 <= j < e.len() && (#[trigger] records[i]) == entry_record(e[j]) by {
            if i < before.len() {
                assert(records[i] == before[i]);
                let j = choose|j: int| 0 <= j < init.len() && before[i] == entry_record(init[j]);
                assert(init[j] == e[j]);
            } else {
                assert(records[i] == entry_record(e[e.len() - 1]));
            }
        }
    }
}

/// A listing gives exactly the secrets that the namespace holds and the
/// request asks for: with no keys asked for, every secret of the namespace;
/// with keys, the secrets under those of them that the namespace holds, none
/// left out and none twice.
pub proof fn listing_is_exact(vault: VaultModel, namespace: Seq<char>, keys: Seq<Seq<char>>)
    requires
        all_valid(keys),
    ensures
        match decode_blob(stored_blob(vault, namespace)) {
            Some(e) => list_run(vault, namespace, keys).1 matches StepView::Done(
                OutcomeView::Records(records),
            ) && lists_exactly(records, mapping(e), KeyFilterView::from_keys(keys)),
            None => list_run(vault, namespace, keys).1 == StepView::Failed(
                StoreErrorView::Corrupt(namespace),
            ),
        },
{
    reveal_with_fuel(run, 2);
    lemma_first_invalid(keys);
    match decode_blob(stored_blob(vault, namespace)) {
        Some(e) => {
            lemma_decoded_distinct(stored_blob(vault, namespace));
            lemma_blob_records_exact(e, KeyFilterView::from_keys(keys));
        },
        None => {},
    }
}

/// A listing of everything gives exactly the secrets that the namespace holds.
pub proof fn listing_all_is_exact(vault: VaultModel, namespace: Seq<char>)
    ensures
        ({
            let first = begin_list_all(Backend::Blob, namespace);
            let ended = run(vault, first.0, first.1, 1);
            match decode_blob(stored_blob(vault, namespace)) {
                Some(e) => ended.1 matches StepView::Done(OutcomeView::Records(records))
                    && lists_exactly(records, mapping(e), KeyFilterView::All),
                None => ended.1 == StepView::Failed(StoreErrorView::Corrupt(namespace)),
            }
        }),
{
    reveal_with_fuel(run, 2);
    match decode_blob(stored_blob(vault, namespace)) {
        Some(e) => {
            lemma_decoded_distinct(stored_blob(vault, namespace));
            lemma_blob_records_exact(e, KeyFilterView::All);
        },
        None => {},
    }
}

/// A blob that reads as a mapping reads as one with distinct keys.
pub proof fn lemma_decoded_distinct(fetched: Option<Seq<u8>>)
    ensures
        decode_blob(fetched) matches Some(e) ==> distinct_keys(e),
{
    match fetched {
        Some(bytes) => match crate::codec::json_object_entries(bytes) {
            Some(raw) => {
                lemma_collect_distinct(raw);
            },
            None => {},
        },
        None => {},
    }
}

/// The known race of this backend. Two `set`s of different keys that both
/// fetch the blob before either stores its own both succeed, and yet the
/// one that stores first is undone by the other: its key is afterwards as
/// it was before. Nothing in the store prevents this; only the vault could.
pub proof fn overlapping_sets_lose_an_update(
    vault: VaultModel,
    namespace: Seq<char>,
    first_key: Seq<char>,
    first_value: Seq<char>,
    second_key: Seq<char>,
    second_value: Seq<char>,
)
    requires
        valid_key(first_key),
        valid_key(second_key),
        first_key != second_key,
    ensures
        ({
            let fetched = answer(vault, VaultCallView::FetchBlob { namespace }).1->Blob_0;
            let first = after_blob_for_set(namespace, first_key, first_value, fetched);
            let second = after_blob_for_set(namespace, second_key, second_value, fetched);
            first.1 is Call && second.1 is Call ==> {
                let after_first = answer(vault, first.1->Call_0).0;
                let after_both = answer(after_first, second.1->Call_0).0;
                get_run(after_both, namespace, first_key).1 == get_run(vault, namespace, first_key).1
            }
        }),
{
    let fetched = answer(vault, VaultCallView::FetchBlob { namespace }).1->Blob_0;
    assert(fetched == stored_blob(vault, namespace));
    let first = after_blob_for_set(namespace, first_key, first_value, fetched);
    let second = after_blob_for_set(namespace, second_key, second_value, fetched);
    if first.1 is Call && second.1 is Call {
        let after_first = answer(vault, first.1->Call_0).0;
        let after_both = answer(after_first, second.1->Call_0).0;
        let e = decode_blob(fetched)->Some_0;
        let changed = insert(e, second_key, second_value);
        let bytes = encode_blob(changed)->Some_0;
        assert(after_both.blobs.contains_key(namespace));
        assert(stored_blob(after_both, namespace) == Some(bytes));
        lemma_get_run(after_both, namespace, first_key);
        lemma_get_run(vault, namespace, first_key);
        assert(reads_back(bytes, changed));
        let back = decode_blob(Some(bytes))->Some_0;
        lemma_same_mapping(back, changed, first_key);
        lemma_lookup_insert(e, second_key, second_value, first_key);
    }
}

} // verus!
