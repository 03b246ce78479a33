//! What the store guarantees on the attribute-indexed backend, proved of
//! sessions that run against a vault that works.
use vstd::prelude::*;
use vstd::utf8::{decode_utf8, encode_utf8, valid_utf8};
use crate::entries::{lemma_position_is, lookup, mapping, Entries};
use crate::error::StoreErrorView;
use crate::filter::KeyFilterView;
use crate::indexed::{
    application_attribute, application_id, candidates_of, collected, entry_attributes, is_wanted,
    key_attribute, locked_indices, namespace_attribute, CandidateView,
};
use crate::protocol::{OutcomeView, StepView, VaultCallView, VaultReplyView};
use crate::record::SecretRecordView;
use crate::key::{all_valid, lemma_first_invalid, valid_key};
use crate::session::{
    begin_get, begin_list, begin_list_all, begin_list_filtered, begin_set, candidate_record,
    read_call, resume, start_reading, Backend, PhaseView, SessionView,
};
use crate::vault::{
    answer, attributes_at, batch_in_range, batch_targets, has_attributes, lemma_matching, matching,
    run, unlocked_at, without_same, EntryModel, VaultModel,
};

verus! {

/// What holds of the candidates among `items`: each is one of the wanted
/// items, with that item's key; each wanted item is a candidate; and the
/// candidates come in the items' order.
pub proof fn lemma_collected(items: Seq<Entries>, filter: KeyFilterView, locked: bool)
    requires
        items.len() <= usize::MAX,
    ensures
        forall|j: int|
            0 <= j < collected(items, filter, locked).len() ==> {
                let c = #[trigger] collected(items, filter, locked)[j];
                &&& c.locked == locked
                &&& c.index < items.len()
                &&& is_wanted(items[c.index as int], filter)
                &&& lookup(items[c.index as int], key_attribute()) == Some(c.key)
            },
        forall|i: int|
            0 <= i < items.len() && is_wanted(#[trigger] items[i], filter) ==> exists|j: int|
                0 <= j < collected(items, filter, locked).len() && (#[trigger] collected(
                    items,
                    filter,
                    locked,
                )[j]).index == i,
        forall|j: int, k: int|
            0 <= j < k < collected(items, filter, locked).len() ==> (#[trigger] collected(
                items,
                filter,
                locked,
            )[j]).index < (#[trigger] collected(items, filter, locked)[k]).index,
    decreases items.len(),
{
    if items.len() > 0 {
        let init = items.drop_last();
        lemma_collected(init, filter, locked);
        let before = collected(init, filter, locked);
        let all = collected(items, filter, locked);
        assert forall|j: int| 0 <= j < all.len() implies {
            let c = #[trigger] all[j];
            &&& c.locked == locked
            &&& c.index < items.len()
            &&& is_wanted(items[c.index as int], filter)
            &&& lookup(items[c.index as int], key_attribute()) == Some(c.key)
        } by {
            if j < before.len() {
                assert(all[j] == before[j]);
                assert(init[before[j].index as int] == items[before[j].index as int]);
            }
        }
        assert forall|i: int| 0 <= i < items.len() && is_wanted(#[trigger] items[i], filter) implies (
        exists|j: int| 0 <= j < all.len() && (#[trigger] all[j]).index == i) by {
            if i < init.len() {
                assert(init[i] == items[i]);
                let j = choose|j: int| 0 <= j < before.len() && (#[trigger] before[j]).index == i;
                assert(all[j] == before[j]);
            } else {
                assert(all[all.len() - 1].index == i);
            }
        }
        assert forall|j: int, k: int| 0 <= j < k < all.len() implies (#[trigger] all[j]).index < (
        #[trigger] all[k]).index by {
            if k < before.len() {
                assert(all[j] == before[j] && all[k] == before[k]);
            } else {
                assert(all[j] == before[j]);
            }
        }
    }
}

/// Some locked candidate was reported at `index` of the locked part of the search.
pub open spec fn is_locked_candidate(candidates: Seq<CandidateView>, index: usize) -> bool {
    exists|j: int|
        0 <= j < candidates.len() && (#[trigger] candidates[j]).locked && candidates[j].index
            == index
}

/// The batch to unlock names exactly the locked candidates.
pub proof fn lemma_locked_indices(candidates: Seq<CandidateView>)
    ensures
        forall|j: int|
            0 <= j < candidates.len() && (#[trigger] candidates[j]).locked ==> locked_indices(
                candidates,
            ).contains(candidates[j].index),
        forall|b: int|
            0 <= b < locked_indices(candidates).len() ==> is_locked_candidate(
                candidates,
                #[trigger] locked_indices(candidates)[b],
            ),
    decreases candidates.len(),
{
    if candidates.len() > 0 {
        let init = candidates.drop_last();
        lemma_locked_indices(init);
        let before = locked_indices(init);
        let all = locked_indices(candidates);
        assert forall|j: int| 0 <= j < candidates.len() && (#[trigger] candidates[j]).locked implies (
        all.contains(candidates[j].index)) by {
            if j < init.len() {
                assert(init[j] == candidates[j]);
                let b = choose|b: int| 0 <= b < before.len() && before[b] == init[j].index;
                assert(all[b] == before[b]);
            } else {
                assert(all[all.len() - 1] == candidates[j].index);
            }
        }
        assert forall|b: int| 0 <= b < all.len() implies is_locked_candidate(
            candidates,
            #[trigger] all[b],
        ) by {
            if b < before.len() {
                assert(all[b] == before[b]);
                assert(is_locked_candidate(init, before[b]));
                let j = choose|j: int|
                    0 <= j < init.len() && (#[trigger] init[j]).locked && init[j].index
                        == before[b];
                assert(candidates[j] == init[j]);
            } else {
                assert(candidates[candidates.len() - 1].locked);
            }
        }
    }
}

/// The entry of the vault that a candidate of the last search stands for.
pub open spec fn entry_index(vault: VaultModel, candidate: CandidateView) -> int {
    if candidate.locked {
        vault.found_locked[candidate.index as int]
    } else {
        vault.found_unlocked[candidate.index as int]
    }
}

/// The vault hands out the secret of each of the candidates.
pub open spec fn all_readable(vault: VaultModel, candidates: Seq<CandidateView>) -> bool {
    forall|j: int|
        0 <= j < candidates.len() ==> {
            let c = #[trigger] candidates[j];
            &&& c.index < (if c.locked {
                vault.found_locked
            } else {
                vault.found_unlocked
            }).len()
            &&& 0 <= entry_index(vault, c) < vault.entries.len()
            &&& !vault.entries[entry_index(vault, c)].locked
        }
}

/// The secret that the vault holds for a candidate.
pub open spec fn secret_of(vault: VaultModel, candidate: CandidateView) -> Seq<u8> {
    vault.entries[entry_index(vault, candidate)].secret
}

/// How the reading of the candidates' secrets ends, given the records of
/// those already read: at the first secret that is no UTF-8 text, or with a
/// record for every candidate.
pub open spec fn reading_ends(
    vault: VaultModel,
    candidates: Seq<CandidateView>,
    records: Seq<SecretRecordView>,
) -> StepView
    decreases candidates.len() - records.len(),
{
    if records.len() >= candidates.len() {
        StepView::Done(OutcomeView::Records(records))
    } else {
        let c = candidates[records.len() as int];
        if !valid_utf8(secret_of(vault, c)) {
            StepView::Failed(StoreErrorView::Corrupt(c.key))
        } else {
            reading_ends(
                vault,
                candidates,
                records.push(candidate_record(c, decode_utf8(secret_of(vault, c)))),
            )
        }
    }
}

/// A session that reads the secrets of readable candidates from the vault
/// ends as `reading_ends` says, and leaves the vault as it is.
pub proof fn lemma_reading(
    vault: VaultModel,
    namespace: Seq<char>,
    candidates: Seq<CandidateView>,
    records: Seq<SecretRecordView>,
    fuel: nat,
)
    requires
        all_readable(vault, candidates),
        records.len() < candidates.len(),
        fuel >= candidates.len() - records.len(),
    ensures
        run(
            vault,
            SessionView {
                namespace,
                phase: PhaseView::AwaitSecret { candidates, records, single: false },
            },
            StepView::Call(read_call(candidates[records.len() as int])),
            fuel,
        ) == (vault, reading_ends(vault, candidates, records)),
    decreases candidates.len() - records.len(),
{
    let c = candidates[records.len() as int];
    let session = SessionView {
        namespace,
        phase: PhaseView::AwaitSecret { candidates, records, single: false },
    };
    let step = StepView::Call(read_call(c));
    let answered = answer(vault, read_call(c));
    assert(answered == (vault, VaultReplyView::Secret(secret_of(vault, c))));
    let next = resume(session, answered.1);
    crate::vault::lemma_run_step(vault, session, step, fuel);
    if valid_utf8(secret_of(vault, c)) {
        let read = records.push(candidate_record(c, decode_utf8(secret_of(vault, c))));
        if read.len() < candidates.len() {
            lemma_reading(vault, namespace, candidates, read, (fuel - 1) as nat);
        } else {
            assert(reading_ends(vault, candidates, read) == StepView::Done(
                OutcomeView::Records(read),
            ));
        }
    }
}

/// The record that the reading makes of a candidate.
pub open spec fn record_of(vault: VaultModel, candidate: CandidateView) -> SecretRecordView {
    candidate_record(candidate, decode_utf8(secret_of(vault, candidate)))
}

/// Where the reading ends well, there is one record for each candidate, in
/// order; where it fails, it names the key of a candidate whose secret is
/// no UTF-8 text; and it ends well where every secret is UTF-8 text.
pub proof fn lemma_reading_ends(
    vault: VaultModel,
    candidates: Seq<CandidateView>,
    records: Seq<SecretRecordView>,
)
    requires
        records.len() <= candidates.len(),
        forall|j: int| 0 <= j < records.len() ==> #[trigger] records[j] == record_of(vault, candidates[j]),
    ensures
        match reading_ends(vault, candidates, records) {
            StepView::Done(OutcomeView::Records(all)) => {
                &&& all.len() == candidates.len()
                &&& forall|j: int|
                    0 <= j < all.len() ==> #[trigger] all[j] == record_of(vault, candidates[j])
            },
            StepView::Failed(StoreErrorView::Corrupt(key)) => exists|j: int|
                0 <= j < candidates.len() && (#[trigger] candidates[j]).key == key && !valid_utf8(
                    secret_of(vault, candidates[j]),
                ),
            _ => false,
        },
        (forall|j: int|
            0 <= j < candidates.len() ==> valid_utf8(secret_of(vault, #[trigger] candidates[j])))
            ==> reading_ends(vault, candidates, records) is Done,
    decreases candidates.len() - records.len(),
{
    if records.len() < candidates.len() {
        let c = candidates[records.len() as int];
        if valid_utf8(secret_of(vault, c)) {
            let read = records.push(record_of(vault, c));
            lemma_reading_ends(vault, candidates, read);
        }
    }
}

/// The entry at `i` belongs to the namespace and to the listing: it carries
/// the namespace's attributes, names its key, and the filter lets that key through.
pub open spec fn is_wanted_entry(
    vault: VaultModel,
    namespace: Seq<char>,
    filter: KeyFilterView,
    i: int,
) -> bool {
    &&& 0 <= i < vault.entries.len()
    &&& has_attributes(vault.entries[i].attributes, entry_attributes(namespace, None))
    &&& is_wanted(vault.entries[i].attributes, filter)
}

/// The record that a listing makes of an entry: its key, its secret as
/// text, and the lock state in which the search found it.
pub open spec fn entry_record_of(entry: EntryModel) -> SecretRecordView {
    SecretRecordView {
        key: lookup(entry.attributes, key_attribute())->Some_0,
        value: decode_utf8(entry.secret),
        lock: Some(
            if entry.locked {
                crate::record::LockState::Locked
            } else {
                crate::record::LockState::Unlocked
            },
        ),
    }
}

/// Some candidate stands for the entry at `i`.
#[verifier::opaque]
pub open spec fn stands_for(after: VaultModel, candidates: Seq<CandidateView>, i: int) -> bool {
    exists|j: int| 0 <= j < candidates.len() && entry_index(after, #[trigger] candidates[j]) == i
}

/// The vault right after it has answered a search for `want`.
pub open spec fn searched(vault: VaultModel, want: Entries) -> VaultModel {
    VaultModel {
        found_locked: matching(vault.entries, want, true),
        found_unlocked: matching(vault.entries, want, false),
        ..vault
    }
}

/// The candidates that a session makes of the vault's answer to a search.
pub open spec fn candidates_found(vault: VaultModel, want: Entries, filter: KeyFilterView) -> Seq<
    CandidateView,
> {
    candidates_of(
        attributes_at(vault.entries, matching(vault.entries, want, true)),
        attributes_at(vault.entries, matching(vault.entries, want, false)),
        filter,
    )
}

/// There are no more matching entries than entries.
pub proof fn lemma_matching_len(entries: Seq<EntryModel>, want: Entries)
    ensures
        matching(entries, want, true).len() + matching(entries, want, false).len() <= entries.len(),
    decreases entries.len(),
{
    if entries.len() > 0 {
        lemma_matching_len(entries.drop_last(), want);
    }
}

/// There are no more candidates than items.
pub proof fn lemma_collected_len(items: Seq<Entries>, filter: KeyFilterView, locked: bool)
    ensures
        collected(items, filter, locked).len() <= items.len(),
    decreases items.len(),
{
    if items.len() > 0 {
        lemma_collected_len(items.drop_last(), filter, locked);
    }
}

/// After a search, each candidate stands for a wanted entry of the vault in
/// the candidate's lock state and under the candidate's key, and each wanted
/// entry has its candidate.
pub proof fn lemma_candidates_found(vault: VaultModel, want: Entries, filter: KeyFilterView)
    requires
        vault.entries.len() <= usize::MAX,
    ensures
        ({
            let after = searched(vault, want);
            let candidates = candidates_found(vault, want, filter);
            &&& candidates.len() <= vault.entries.len()
            &&& forall|j: int|
                0 <= j < candidates.len() ==> {
                    let c = #[trigger] candidates[j];
                    let i = entry_index(after, c);
                    &&& c.index < (if c.locked {
                        after.found_locked
                    } else {
                        after.found_unlocked
                    }).len()
                    &&& 0 <= i < vault.entries.len()
                    &&& has_attributes(vault.entries[i].attributes, want)
                    &&& vault.entries[i].locked == c.locked
                    &&& is_wanted(vault.entries[i].attributes, filter)
                    &&& lookup(vault.entries[i].attributes, key_attribute()) == Some(c.key)
                }
            &&& forall|i: int|
                0 <= i < vault.entries.len() && has_attributes(
                    (#[trigger] vault.entries[i]).attributes,
                    want,
                ) && is_wanted(vault.entries[i].attributes, filter) ==> stands_for(
                    after,
                    candidates,
                    i,
                )
        }),
{
    let entries = vault.entries;
    let after = searched(vault, want);
    let fl = after.found_locked;
    let fu = after.found_unlocked;
    let l = attributes_at(entries, fl);
    let u = attributes_at(entries, fu);
    let cl = collected(l, filter, true);
    let cu = collected(u, filter, false);
    let candidates = candidates_found(vault, want, filter);
    assert(candidates == cl + cu);
    lemma_matching(entries, want, true);
    lemma_matching(entries, want, false);
    lemma_matching_len(entries, want);
    lemma_collected_len(l, filter, true);
    lemma_collected_len(u, filter, false);
    lemma_collected(l, filter, true);
    lemma_collected(u, filter, false);
    assert forall|j: int| 0 <= j < candidates.len() implies {
        let c = #[trigger] candidates[j];
        let i = entry_index(after, c);
        &&& c.index < (if c.locked {
            after.found_locked
        } else {
            after.found_unlocked
        }).len()
        &&& 0 <= i < vault.entries.len()
        &&& has_attributes(vault.entries[i].attributes, want)
        &&& vault.entries[i].locked == c.locked
        &&& is_wanted(vault.entries[i].attributes, filter)
        &&& lookup(vault.entries[i].attributes, key_attribute()) == Some(c.key)
    } by {
        if j < cl.len() {
            let c = cl[j];
            assert(candidates[j] == c);
            assert(l[c.index as int] == entries[fl[c.index as int]].attributes);
        } else {
            let c = cu[j - cl.len()];
            assert(candidates[j] == c);
            assert(u[c.index as int] == entries[fu[c.index as int]].attributes);
        }
    }
    assert forall|i: int|
        0 <= i < vault.entries.len() && has_attributes(
            (#[trigger] vault.entries[i]).attributes,
            want,
        ) && is_wanted(vault.entries[i].attributes, filter) implies stands_for(
        after,
        candidates,
        i,
    ) by {
        reveal(stands_for);
        if entries[i].locked {
            assert(fl.contains(i));
            let m = choose|m: int| 0 <= m < fl.len() && fl[m] == i;
            assert(l[m] == entries[i].attributes);
            let j = choose|j: int| 0 <= j < cl.len() && (#[trigger] cl[j]).index == m;
            assert(candidates[j] == cl[j]);
            assert(entry_index(after, candidates[j]) == i);
        } else {
            assert(fu.contains(i));
            let m = choose|m: int| 0 <= m < fu.len() && fu[m] == i;
            assert(u[m] == entries[i].attributes);
            let j = choose|j: int| 0 <= j < cu.len() && (#[trigger] cu[j]).index == m;
            assert(candidates[cl.len() + j] == cu[j]);
            assert(entry_index(after, candidates[cl.len() + j]) == i);
        }
    }
}

/// The vault takes the batch that names the locked candidates, and
/// afterwards hands out the secret of every candidate. Unlocking changes no
/// attribute and no secret.
pub proof fn lemma_unlock_candidates(vault: VaultModel, want: Entries, filter: KeyFilterView)
    requires
        vault.entries.len() <= usize::MAX,
    ensures
        ({
            let after = searched(vault, want);
            let candidates = candidates_found(vault, want, filter);
            let batch = locked_indices(candidates);
            let unlocked = VaultModel {
                entries: unlocked_at(after.entries, batch_targets(after.found_locked, batch)),
                ..after
            };
            &&& answer(after, VaultCallView::Unlock { entries: batch }) == (
                unlocked,
                VaultReplyView::Unlocked,
            )
            &&& all_readable(unlocked, candidates)
            &&& batch.len() == 0 ==> all_readable(after, candidates)
            &&& forall|j: int|
                0 <= j < candidates.len() ==> secret_of(unlocked, #[trigger] candidates[j])
                    == secret_of(after, candidates[j])
        }),
{
    let after = searched(vault, want);
    let candidates = candidates_found(vault, want, filter);
    let batch = locked_indices(candidates);
    let targets = batch_targets(after.found_locked, batch);
    let unlocked = VaultModel { entries: unlocked_at(after.entries, targets), ..after };
    lemma_candidates_found(vault, want, filter);
    lemma_locked_indices(candidates);
    assert forall|b: int| 0 <= b < batch.len() implies #[trigger] batch[b]
        < after.found_locked.len() by {
        assert(is_locked_candidate(candidates, batch[b]));
    }
    assert(batch_in_range(after.found_locked, batch));
    assert forall|j: int| 0 <= j < candidates.len() implies {
        let c = #[trigger] candidates[j];
        &&& c.index < (if c.locked {
            unlocked.found_locked
        } else {
            unlocked.found_unlocked
        }).len()
        &&& 0 <= entry_index(unlocked, c) < unlocked.entries.len()
        &&& !unlocked.entries[entry_index(unlocked, c)].locked
    } by {
        let c = candidates[j];
        let i = entry_index(after, c);
        if c.locked {
            assert(batch.contains(c.index));
            let b = choose|b: int| 0 <= b < batch.len() && batch[b] == c.index;
            assert(batch[b] < after.found_locked.len() && after.found_locked[batch[b] as int] == i);
            assert(targets.contains(i));
        }
    }
    if batch.len() == 0 {
        assert forall|j: int| 0 <= j < candidates.len() implies !(#[trigger] candidates[j]).locked by {
            if candidates[j].locked {
                assert(batch.contains(candidates[j].index));
            }
        }
    }
}

/// Where a listing through `filter` stands after as many calls as it can need.
pub open spec fn listing_run(vault: VaultModel, namespace: Seq<char>, filter: KeyFilterView) -> (
    VaultModel,
    StepView,
) {
    let first = begin_list(Backend::Indexed, namespace, filter);
    run(vault, first.0, first.1, vault.entries.len() + 2)
}

/// Some record is the record of this entry.
#[verifier::opaque]
pub open spec fn lists_entry(records: Seq<SecretRecordView>, entry: EntryModel) -> bool {
    exists|j: int| 0 <= j < records.len() && #[trigger] records[j] == entry_record_of(entry)
}

/// The record is that of some entry that belongs to the namespace and to the listing.
#[verifier::opaque]
pub open spec fn holds_record(
    vault: VaultModel,
    namespace: Seq<char>,
    filter: KeyFilterView,
    record: SecretRecordView,
) -> bool {
    exists|i: int| #[trigger]
        is_wanted_entry(vault, namespace, filter, i) && record == entry_record_of(vault.entries[i])
}

/// The records are exactly those of the entries that belong to the
/// namespace and to the listing: each record is the record of such an
/// entry, and each such entry has its record.
pub open spec fn lists_entries(
    records: Seq<SecretRecordView>,
    vault: VaultModel,
    namespace: Seq<char>,
    filter: KeyFilterView,
) -> bool {
    &&& forall|j: int|
        0 <= j < records.len() ==> holds_record(vault, namespace, filter, #[trigger] records[j])
    &&& forall|i: int| #[trigger]
        is_wanted_entry(vault, namespace, filter, i) ==> lists_entry(records, vault.entries[i])
}

/// The entry at `i` belongs to the listing, under `key`, and its secret is
/// no UTF-8 text.
pub open spec fn is_corrupt_entry(
    vault: VaultModel,
    namespace: Seq<char>,
    filter: KeyFilterView,
    key: Seq<char>,
    i: int,
) -> bool {
    &&& is_wanted_entry(vault, namespace, filter, i)
    &&& lookup(vault.entries[i].attributes, key_attribute()) == Some(key)
    &&& !valid_utf8(vault.entries[i].secret)
}

/// The vault from which a listing reads the secrets: the vault after the
/// search and, where a candidate is locked, after the batch unlock.
pub open spec fn reading_vault(vault: VaultModel, want: Entries, filter: KeyFilterView) -> VaultModel {
    let after = searched(vault, want);
    let batch = locked_indices(candidates_found(vault, want, filter));
    if batch.len() > 0 {
        VaultModel {
            entries: unlocked_at(after.entries, batch_targets(after.found_locked, batch)),
            ..after
        }
    } else {
        after
    }
}

/// A listing searches, unlocks where it must, and reads the candidates' secrets.
pub proof fn lemma_listing_run(vault: VaultModel, namespace: Seq<char>, filter: KeyFilterView)
    requires
        vault.entries.len() <= usize::MAX,
    ensures
        ({
            let want = entry_attributes(namespace, None);
            listing_run(vault, namespace, filter).1 == reading_ends(
                reading_vault(vault, want, filter),
                candidates_found(vault, want, filter),
                Seq::empty(),
            )
        }),
{
    let n = vault.entries.len();
    let want = entry_attributes(namespace, None);
    let first = begin_list(Backend::Indexed, namespace, filter);
    let after = searched(vault, want);
    let candidates = candidates_found(vault, want, filter);
    let batch = locked_indices(candidates);
    let reading = reading_vault(vault, want, filter);
    let none = Seq::<SecretRecordView>::empty();
    let found = VaultReplyView::Found {
        locked: attributes_at(vault.entries, after.found_locked),
        unlocked: attributes_at(vault.entries, after.found_unlocked),
    };
    assert(answer(vault, first.1->Call_0) == (after, found));
    let second = resume(first.0, found);
    assert(second == crate::session::unlock_or_read(namespace, candidates, false));
    assert(listing_run(vault, namespace, filter) == run(after, second.0, second.1, (n + 1) as nat))
        by {
        crate::vault::lemma_run_step(vault, first.0, first.1, n + 2);
    }
    assert(candidates.len() <= n) by {
        lemma_candidates_found(vault, want, filter);
    }
    assert(all_readable(reading, candidates) && answer(
        after,
        VaultCallView::Unlock { entries: batch },
    ) == (
        VaultModel {
            entries: unlocked_at(after.entries, batch_targets(after.found_locked, batch)),
            ..after
        },
        VaultReplyView::Unlocked,
    )) by {
        lemma_unlock_candidates(vault, want, filter);
    }
    if batch.len() > 0 {
        assert(candidates.len() > 0) by {
            lemma_locked_indices(candidates);
            assert(is_locked_candidate(candidates, batch[0]));
        }
        let third = resume(second.0, VaultReplyView::Unlocked);
        assert(third == start_reading(namespace, candidates, false));
        assert(run(after, second.0, second.1, (n + 1) as nat) == run(reading, third.0, third.1, n))
            by {
            crate::vault::lemma_run_step(after, second.0, second.1, (n + 1) as nat);
        }
        lemma_reading(reading, namespace, candidates, none, n);
    } else if candidates.len() > 0 {
        assert(second == start_reading(namespace, candidates, false));
        lemma_reading(reading, namespace, candidates, none, (n + 1) as nat);
    } else {
        assert(second.1 == StepView::Done(OutcomeView::Records(none)));
    }
}

/// Each candidate of a listing stands for an entry that belongs to the
/// listing, and the record read for it is that entry's record.
pub proof fn lemma_candidate_records(vault: VaultModel, namespace: Seq<char>, filter: KeyFilterView)
    requires
        vault.entries.len() <= usize::MAX,
    ensures
        ({
            let want = entry_attributes(namespace, None);
            let after = searched(vault, want);
            let reading = reading_vault(vault, want, filter);
            let candidates = candidates_found(vault, want, filter);
            &&& forall|j: int|
                0 <= j < candidates.len() ==> {
                    let i = entry_index(after, #[trigger] candidates[j]);
                    &&& is_wanted_entry(vault, namespace, filter, i)
                    &&& record_of(reading, candidates[j]) == entry_record_of(vault.entries[i])
                    &&& secret_of(reading, candidates[j]) == vault.entries[i].secret
                    &&& lookup(vault.entries[i].attributes, key_attribute()) == Some(
                        candidates[j].key,
                    )
                }
            &&& forall|i: int| #[trigger]
                is_wanted_entry(vault, namespace, filter, i) ==> stands_for(after, candidates, i)
        }),
{
    let want = entry_attributes(namespace, None);
    let after = searched(vault, want);
    let reading = reading_vault(vault, want, filter);
    let candidates = candidates_found(vault, want, filter);
    lemma_candidates_found(vault, want, filter);
    assert forall|j: int| 0 <= j < candidates.len() implies {
        let i = entry_index(after, #[trigger] candidates[j]);
        &&& is_wanted_entry(vault, namespace, filter, i)
        &&& record_of(reading, candidates[j]) == entry_record_of(vault.entries[i])
        &&& secret_of(reading, candidates[j]) == vault.entries[i].secret
        &&& lookup(vault.entries[i].attributes, key_attribute()) == Some(candidates[j].key)
    } by {
        let c = candidates[j];
        let i = entry_index(after, c);
        assert(entry_index(reading, c) == i);
        assert(reading.entries[i].secret == vault.entries[i].secret);
    }
    assert forall|i: int| #[trigger]
        is_wanted_entry(vault, namespace, filter, i) implies stands_for(after, candidates, i) by {
        assert(has_attributes(vault.entries[i].attributes, want));
    }
}

/// A listing against a vault that works ends in one of two ways. Either it
/// gives exactly the secrets of the entries that belong to the namespace and
/// that the filter lets through, locked or not, none left out; or it fails
/// with `Corrupt` and the key of such an entry whose secret is no UTF-8
/// text. It gives the secrets whenever all of them are UTF-8 text.
pub proof fn lemma_listing(vault: VaultModel, namespace: Seq<char>, filter: KeyFilterView)
    requires
        vault.entries.len() <= usize::MAX,
    ensures
        match listing_run(vault, namespace, filter).1 {
            StepView::Done(OutcomeView::Records(records)) => lists_entries(
                records,
                vault,
                namespace,
                filter,
            ),
            StepView::Failed(StoreErrorView::Corrupt(key)) => exists|i: int|
                is_corrupt_entry(vault, namespace, filter, key, i),
            _ => false,
        },
        (forall|i: int|
            is_wanted_entry(vault, namespace, filter, i) ==> valid_utf8(
                (#[trigger] vault.entries[i]).secret,
            )) ==> listing_run(vault, namespace, filter).1 is Done,
{
    let want = entry_attributes(namespace, None);
    let after = searched(vault, want);
    let candidates = candidates_found(vault, want, filter);
    let reading = reading_vault(vault, want, filter);
    let none = Seq::<SecretRecordView>::empty();
    let ended = listing_run(vault, namespace, filter).1;
    lemma_listing_run(vault, namespace, filter);
    lemma_reading_ends(reading, candidates, none);
    lemma_candidate_records(vault, namespace, filter);
    match ended {
        StepView::Done(OutcomeView::Records(records)) => {
            assert forall|j: int| 0 <= j < records.len() implies holds_record(
                vault,
                namespace,
                filter,
                #[trigger] records[j],
            ) by {
                reveal(holds_record);
                let i = entry_index(after, candidates[j]);
                assert(records[j] == record_of(reading, candidates[j]));
                assert(is_wanted_entry(vault, namespace, filter, i) && records[j]
                    == entry_record_of(vault.entries[i]));
            }
            assert forall|i: int| #[trigger]
                is_wanted_entry(vault, namespace, filter, i) implies lists_entry(
                records,
                vault.entries[i],
            ) by {
                reveal(lists_entry);
                reveal(stands_for);
                assert(stands_for(after, candidates, i));
                let j = choose|j: int|
                    0 <= j < candidates.len() && entry_index(after, #[trigger] candidates[j]) == i;
                assert(records[j] == record_of(reading, candidates[j]));
            }
        },
        StepView::Failed(StoreErrorView::Corrupt(key)) => {
            let j = choose|j: int|
                0 <= j < candidates.len() && (#[trigger] candidates[j]).key == key && !valid_utf8(
                    secret_of(reading, candidates[j]),
                );
            let i = entry_index(after, candidates[j]);
            assert(is_corrupt_entry(vault, namespace, filter, key, i));
        },
        _ => {},
    }
    if forall|i: int|
        is_wanted_entry(vault, namespace, filter, i) ==> valid_utf8(
            (#[trigger] vault.entries[i]).secret,
        ) {
        assert forall|j: int| 0 <= j < candidates.len() implies valid_utf8(
            secret_of(reading, #[trigger] candidates[j]),
        ) by {
            let i = entry_index(after, candidates[j]);
            assert(is_wanted_entry(vault, namespace, filter, i));
            assert(valid_utf8(vault.entries[i].secret));
        }
    }
}

/// A listing for the given keys gives exactly the secrets that the namespace
/// holds and the request asks for: with no keys asked for, every secret of
/// the namespace; with keys, the secrets under those of them that the
/// namespace holds, none left out.
pub proof fn listing_is_exact(vault: VaultModel, namespace: Seq<char>, keys: Seq<Seq<char>>)
    requires
        all_valid(keys),
        vault.entries.len() <= usize::MAX,
    ensures
        ({
            let first = begin_list_filtered(Backend::Indexed, namespace, keys);
            let filter = KeyFilterView::from_keys(keys);
            let ended = run(vault, first.0, first.1, vault.entries.len() + 2).1;
            &&& match ended {
                StepView::Done(OutcomeView::Records(records)) => lists_entries(
                    records,
                    vault,
                    namespace,
                    filter,
                ),
                StepView::Failed(StoreErrorView::Corrupt(key)) => exists|i: int|
                    is_corrupt_entry(vault, namespace, filter, key, i),
                _ => false,
            }
            &&& (forall|i: int|
                is_wanted_entry(vault, namespace, filter, i) ==> valid_utf8(
                    (#[trigger] vault.entries[i]).secret,
                )) ==> ended is Done
        }),
{
    lemma_first_invalid(keys);
    lemma_listing(vault, namespace, KeyFilterView::from_keys(keys));
}

/// A listing of everything gives exactly the secrets that the namespace holds.
pub proof fn listing_all_is_exact(vault: VaultModel, namespace: Seq<char>)
    requires
        vault.entries.len() <= usize::MAX,
    ensures
        ({
            let first = begin_list_all(Backend::Indexed, namespace);
            let ended = run(vault, first.0, first.1, vault.entries.len() + 2).1;
            &&& match ended {
                StepView::Done(OutcomeView::Records(records)) => lists_entries(
                    records,
                    vault,
                    namespace,
                    KeyFilterView::All,
                ),
                StepView::Failed(StoreErrorView::Corrupt(key)) => exists|i: int|
                    is_corrupt_entry(vault, namespace, KeyFilterView::All, key, i),
                _ => false,
            }
            &&& (forall|i: int|
                is_wanted_entry(vault, namespace, KeyFilterView::All, i) ==> valid_utf8(
                    (#[trigger] vault.entries[i]).secret,
                )) ==> ended is Done
        }),
{
    lemma_listing(vault, namespace, KeyFilterView::All);
}

/// The attributes of a key's entry name the application, the namespace and
/// the key, each under its own name.
pub proof fn lemma_entry_attributes(namespace: Seq<char>, key: Seq<char>)
    ensures
        ({
            let tags = entry_attributes(namespace, Some(key));
            &&& lookup(tags, application_attribute()) == Some(application_id())
            &&& lookup(tags, namespace_attribute()) == Some(namespace)
            &&& lookup(tags, key_attribute()) == Some(key)
            &&& has_attributes(tags, tags)
            &&& has_attributes(tags, entry_attributes(namespace, None))
        }),
{
    reveal_strlit("app");
    reveal_strlit("namespace");
    reveal_strlit("env");
    let tags = entry_attributes(namespace, Some(key));
    assert("app"@[0] == 'a' && "env"@[0] == 'e' && "namespace"@[0] == 'n');
    assert(application_attribute() != namespace_attribute());
    assert(application_attribute() != key_attribute());
    assert(namespace_attribute() != key_attribute());
    lemma_position_is(tags, application_attribute(), 0);
    lemma_position_is(tags, namespace_attribute(), 1);
    lemma_position_is(tags, key_attribute(), 2);
    let base = entry_attributes(namespace, None);
    assert(base[0] == tags[0] && base[1] == tags[1]);
}

/// What stays after a replacement stood in the vault before, and does not
/// carry exactly the replaced attributes.
pub proof fn lemma_without_same(entries: Seq<EntryModel>, attributes: Entries)
    ensures
        forall|i: int|
            0 <= i < without_same(entries, attributes).len() ==> {
                let kept = #[trigger] without_same(entries, attributes)[i];
                entries.contains(kept) && mapping(kept.attributes) != mapping(attributes)
            },
    decreases entries.len(),
{
    if entries.len() > 0 {
        let init = entries.drop_last();
        lemma_without_same(init, attributes);
        let before = without_same(init, attributes);
        let all = without_same(entries, attributes);
        assert forall|i: int| 0 <= i < all.len() implies {
            let kept = #[trigger] all[i];
            entries.contains(kept) && mapping(kept.attributes) != mapping(attributes)
        } by {
            if i < before.len() {
                assert(all[i] == before[i]);
                let j = choose|j: int| 0 <= j < init.len() && init[j] == before[i];
                assert(entries[j] == init[j]);
            } else {
                assert(all[i] == entries[entries.len() - 1]);
            }
        }
    }
}

/// The vault after a `set` on this backend: the key's entry is there,
/// unlocked, in place of any entry with exactly its attributes.
pub open spec fn vault_after_set(
    vault: VaultModel,
    namespace: Seq<char>,
    key: Seq<char>,
    value: Seq<char>,
) -> VaultModel {
    let tags = entry_attributes(namespace, Some(key));
    VaultModel {
        blobs: vault.blobs,
        entries: without_same(vault.entries, tags).push(
            EntryModel { attributes: tags, secret: encode_utf8(value), locked: false },
        ),
        found_locked: Seq::empty(),
        found_unlocked: Seq::empty(),
    }
}

/// A `set` of a valid key succeeds with its one call.
pub proof fn lemma_set_run(vault: VaultModel, namespace: Seq<char>, key: Seq<char>, value: Seq<char>)
    requires
        valid_key(key),
    ensures
        ({
            let first = begin_set(Backend::Indexed, namespace, key, value);
            run(vault, first.0, first.1, 1) == (
                vault_after_set(vault, namespace, key, value),
                StepView::Done(OutcomeView::Stored),
            )
        }),
{
    reveal_with_fuel(run, 2);
}

/// The two vaults hold the same entries, but for which of them are locked.
pub open spec fn same_but_locks(a: VaultModel, b: VaultModel) -> bool {
    &&& a.entries.len() == b.entries.len()
    &&& forall|i: int|
        0 <= i < a.entries.len() ==> (#[trigger] a.entries[i]).attributes == b.entries[i].attributes
            && a.entries[i].secret == b.entries[i].secret
}

/// Every entry that carries the attributes of the key's entry carries no
/// others: no entry of another maker passes for the key's entry.
pub open spec fn no_foreign_entry(vault: VaultModel, namespace: Seq<char>, key: Seq<char>) -> bool {
    forall|i: int|
        0 <= i < vault.entries.len() && has_attributes(
            (#[trigger] vault.entries[i]).attributes,
            entry_attributes(namespace, Some(key)),
        ) ==> mapping(vault.entries[i].attributes) == mapping(
            entry_attributes(namespace, Some(key)),
        )
}

/// Where exactly one entry carries the attributes, a search finds that
/// entry and no other, in the part that its lock state puts it in.
pub proof fn lemma_matching_one(entries: Seq<EntryModel>, want: Entries, only: int)
    requires
        0 <= only < entries.len(),
        forall|i: int|
            0 <= i < entries.len() ==> (has_attributes((#[trigger] entries[i]).attributes, want)
                <==> i == only),
    ensures
        matching(entries, want, entries[only].locked) == seq![only],
        matching(entries, want, !entries[only].locked) == Seq::<int>::empty(),
{
    let here = matching(entries, want, entries[only].locked);
    let there = matching(entries, want, !entries[only].locked);
    lemma_matching(entries, want, entries[only].locked);
    lemma_matching(entries, want, !entries[only].locked);
    if there.len() > 0 {
        assert(there[0] == only);
    }
    assert(here.contains(only));
    if here.len() > 1 {
        assert(here[0] == only && here[1] == only);
    }
    assert(here[0] == only);
    assert(here =~= seq![only]);
    assert(there =~= Seq::<int>::empty());
}

/// Where no entry carries the attributes, a search finds nothing.
pub proof fn lemma_matching_none(entries: Seq<EntryModel>, want: Entries, locked: bool)
    requires
        forall|i: int|
            0 <= i < entries.len() ==> !has_attributes((#[trigger] entries[i]).attributes, want),
    ensures
        matching(entries, want, locked) == Seq::<int>::empty(),
{
    let found = matching(entries, want, locked);
    lemma_matching(entries, want, locked);
    if found.len() > 0 {
        assert(has_attributes(entries[found[0]].attributes, want));
    }
    assert(found =~= Seq::<int>::empty());
}

/// After a `set`, whatever was locked since, exactly the last entry of the
/// vault carries the attributes of the key's entry.
pub proof fn lemma_one_entry_after_set(
    vault: VaultModel,
    later: VaultModel,
    namespace: Seq<char>,
    key: Seq<char>,
    value: Seq<char>,
)
    requires
        no_foreign_entry(vault, namespace, key),
        same_but_locks(vault_after_set(vault, namespace, key, value), later),
    ensures
        later.entries.len() > 0,
        later.entries.last().attributes == entry_attributes(namespace, Some(key)),
        later.entries.last().secret == encode_utf8(value),
        forall|i: int|
            0 <= i < later.entries.len() ==> (has_attributes(
                (#[trigger] later.entries[i]).attributes,
                entry_attributes(namespace, Some(key)),
            ) <==> i == later.entries.len() - 1),
{
    let tags = entry_attributes(namespace, Some(key));
    let written = vault_after_set(vault, namespace, key, value);
    let kept = without_same(vault.entries, tags);
    let n = later.entries.len() - 1;
    assert(written.entries.len() == kept.len() + 1);
    assert(written.entries[n].attributes == tags);
    assert(written.entries[n].secret == encode_utf8(value));
    lemma_entry_attributes(namespace, key);
    lemma_without_same(vault.entries, tags);
    assert forall|i: int| 0 <= i < later.entries.len() implies (has_attributes(
        (#[trigger] later.entries[i]).attributes,
        tags,
    ) <==> i == n) by {
        assert(later.entries[i].attributes == written.entries[i].attributes);
        if i < n {
            assert(written.entries[i] == kept[i]);
            let j = choose|j: int| 0 <= j < vault.entries.len() && vault.entries[j] == kept[i];
            assert(mapping(vault.entries[j].attributes) != mapping(tags));
        }
    }
}

/// The candidates of a search that found one entry, which carries the
/// attributes of the key's entry.
pub proof fn lemma_one_candidate(namespace: Seq<char>, key: Seq<char>, locked: bool)
    ensures
        ({
            let tags = entry_attributes(namespace, Some(key));
            let filter = KeyFilterView::Only(seq![key]);
            let one = seq![CandidateView { locked, key, index: 0 }];
            &&& collected(seq![tags], filter, locked) == one
            &&& collected(Seq::<Entries>::empty(), filter, !locked) == Seq::<CandidateView>::empty()
            &&& locked_indices(one) == if locked {
                seq![0usize]
            } else {
                Seq::<usize>::empty()
            }
        }),
{
    let tags = entry_attributes(namespace, Some(key));
    let filter = KeyFilterView::Only(seq![key]);
    let one = seq![CandidateView { locked, key, index: 0 }];
    lemma_entry_attributes(namespace, key);
    assert(seq![key][0] == key);
    assert(is_wanted(tags, filter));
    let items = seq![tags];
    assert(items.drop_last() =~= Seq::<Entries>::empty());
    assert(collected(items.drop_last(), filter, locked) =~= Seq::<CandidateView>::empty());
    assert(collected(items, filter, locked) =~= one);
    assert(one.drop_last() =~= Seq::<CandidateView>::empty());
    assert(locked_indices(one.drop_last()) =~= Seq::<usize>::empty());
    if locked {
        assert(locked_indices(one) =~= seq![0usize]);
    } else {
        assert(locked_indices(one) =~= Seq::<usize>::empty());
    }
}

/// Where a `get` stands after as many calls as it can need.
pub open spec fn get_run(vault: VaultModel, namespace: Seq<char>, key: Seq<char>) -> (
    VaultModel,
    StepView,
) {
    let first = begin_get(Backend::Indexed, namespace, key);
    run(vault, first.0, first.1, 3)
}

/// Where a `set` stands after its one call.
pub open spec fn set_run(vault: VaultModel, namespace: Seq<char>, key: Seq<char>, value: Seq<char>) -> (
    VaultModel,
    StepView,
) {
    let first = begin_set(Backend::Indexed, namespace, key, value);
    run(vault, first.0, first.1, 1)
}

/// A `get` in a vault where exactly one entry carries the attributes of the
/// key's entry gives that entry's secret as text, after unlocking the entry
/// where it is locked.
pub proof fn lemma_get_one(
    vault: VaultModel,
    namespace: Seq<char>,
    key: Seq<char>,
    value: Seq<char>,
    only: int,
)
    requires
        valid_key(key),
        0 <= only < vault.entries.len(),
        vault.entries[only].attributes == entry_attributes(namespace, Some(key)),
        vault.entries[only].secret == encode_utf8(value),
        forall|i: int|
            0 <= i < vault.entries.len() ==> (has_attributes(
                (#[trigger] vault.entries[i]).attributes,
                entry_attributes(namespace, Some(key)),
            ) <==> i == only),
    ensures
        get_run(vault, namespace, key).1 == StepView::Done(OutcomeView::Value(value)),
        same_but_locks(vault, get_run(vault, namespace, key).0),
        get_run(vault, namespace, key).0.blobs == vault.blobs,
{
    let tags = entry_attributes(namespace, Some(key));
    let filter = KeyFilterView::Only(seq![key]);
    let n = only;
    let locked = vault.entries[n].locked;
    let first = begin_get(Backend::Indexed, namespace, key);
    lemma_matching_one(vault.entries, tags, n);
    lemma_one_candidate(namespace, key, locked);
    vstd::utf8::encode_utf8_valid_utf8(value);
    vstd::utf8::encode_utf8_decode_utf8(value);
    let after = searched(vault, tags);
    let one = seq![CandidateView { locked, key, index: 0 }];
    let found_here = seq![n];
    assert(attributes_at(vault.entries, found_here) =~= seq![tags]);
    assert(attributes_at(vault.entries, Seq::<int>::empty()) =~= Seq::<Entries>::empty());
    let found = answer(vault, first.1->Call_0).1;
    assert(answer(vault, first.1->Call_0).0 == after);
    let all = if locked {
        candidates_of(seq![tags], Seq::empty(), filter)
    } else {
        candidates_of(Seq::empty(), seq![tags], filter)
    };
    assert(all =~= one);
    assert(all.take(1) =~= one);
    let second = resume(first.0, found);
    assert(second == crate::session::unlock_or_read(namespace, one, true));
    crate::vault::lemma_run_step(vault, first.0, first.1, 3);
    assert(get_run(vault, namespace, key) == run(after, second.0, second.1, 2));
    let record = candidate_record(one[0], value);
    if locked {
        let batch = seq![0usize];
        assert(batch_in_range(after.found_locked, batch));
        let targets = batch_targets(after.found_locked, batch);
        assert(batch[0] < after.found_locked.len() && after.found_locked[batch[0] as int] == n);
        assert(targets.contains(n));
        let opened = VaultModel { entries: unlocked_at(after.entries, targets), ..after };
        assert(answer(after, second.1->Call_0) == (opened, VaultReplyView::Unlocked));
        let third = resume(second.0, VaultReplyView::Unlocked);
        assert(third == start_reading(namespace, one, true));
        crate::vault::lemma_run_step(after, second.0, second.1, 2);
        assert(answer(opened, third.1->Call_0) == (
            opened,
            VaultReplyView::Secret(encode_utf8(value)),
        ));
        let fourth = resume(third.0, VaultReplyView::Secret(encode_utf8(value)));
        assert(Seq::<SecretRecordView>::empty().push(record).len() == 1);
        assert(fourth.1 == StepView::Done(OutcomeView::Value(value)));
        crate::vault::lemma_run_step(opened, third.0, third.1, 1);
        assert(get_run(vault, namespace, key).0 == opened);
    } else {
        assert(second == start_reading(namespace, one, true));
        assert(answer(after, second.1->Call_0) == (
            after,
            VaultReplyView::Secret(encode_utf8(value)),
        ));
        let third = resume(second.0, VaultReplyView::Secret(encode_utf8(value)));
        assert(Seq::<SecretRecordView>::empty().push(record).len() == 1);
        assert(third.1 == StepView::Done(OutcomeView::Value(value)));
        crate::vault::lemma_run_step(after, second.0, second.1, 2);
        assert(get_run(vault, namespace, key).0 == after);
    }
}

/// Set, then get: a `set` of a valid key succeeds, and a `get` of the same
/// key in the same namespace then gives the value that was set, even where
/// the vault has locked its entries in between. The `get` leaves every
/// entry's attributes and secret as they were; it changes at most which
/// entries are locked. The vault must hold no entry of another maker that
/// carries the attributes of the key's entry and more: a search would find
/// such an entry too, and the `get` might read its secret.
pub proof fn set_then_get(
    vault: VaultModel,
    later: VaultModel,
    namespace: Seq<char>,
    key: Seq<char>,
    value: Seq<char>,
)
    requires
        valid_key(key),
        no_foreign_entry(vault, namespace, key),
        same_but_locks(set_run(vault, namespace, key, value).0, later),
    ensures
        set_run(vault, namespace, key, value).1 == StepView::Done(OutcomeView::Stored),
        get_run(later, namespace, key).1 == StepView::Done(OutcomeView::Value(value)),
        same_but_locks(later, get_run(later, namespace, key).0),
        get_run(later, namespace, key).0.blobs == later.blobs,
{
    lemma_set_run(vault, namespace, key, value);
    lemma_one_entry_after_set(vault, later, namespace, key, value);
    lemma_get_one(later, namespace, key, value, later.entries.len() - 1);
}

/// In a namespace of which the vault holds no entry, a `get` of any valid
/// key fails with `NotFound`.
pub proof fn get_in_fresh_namespace(vault: VaultModel, namespace: Seq<char>, key: Seq<char>)
    requires
        valid_key(key),
        forall|i: int|
            0 <= i < vault.entries.len() ==> !has_attributes(
                (#[trigger] vault.entries[i]).attributes,
                entry_attributes(namespace, None),
            ),
    ensures
        get_run(vault, namespace, key).1 == StepView::Failed(StoreErrorView::NotFound(key)),
{
    let tags = entry_attributes(namespace, Some(key));
    let base = entry_attributes(namespace, None);
    let filter = KeyFilterView::Only(seq![key]);
    assert forall|i: int| 0 <= i < vault.entries.len() implies !has_attributes(
        (#[trigger] vault.entries[i]).attributes,
        tags,
    ) by {
        if has_attributes(vault.entries[i].attributes, tags) {
            assert(base[0] == tags[0] && base[1] == tags[1]);
            assert forall|m: int| 0 <= m < base.len() implies lookup(
                vault.entries[i].attributes,
                (#[trigger] base[m]).0,
            ) == Some(base[m].1) by {
                assert(base[m] == tags[m]);
            }
        }
    }
    lemma_matching_none(vault.entries, tags, true);
    lemma_matching_none(vault.entries, tags, false);
    assert(attributes_at(vault.entries, Seq::<int>::empty()) =~= Seq::<Entries>::empty());
    assert(candidates_of(Seq::<Entries>::empty(), Seq::<Entries>::empty(), filter)
        =~= Seq::<CandidateView>::empty());
    reveal_with_fuel(run, 2);
}

} // verus!
