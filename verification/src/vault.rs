//! A model of a vault that works: it keeps what it is given, finds what it
//! keeps, and refuses only to read a locked entry. The guarantees of the
//! store are stated of sessions that run against it.
use vstd::prelude::*;
use crate::entries::{lookup, mapping, Entries};
use crate::protocol::{StepView, VaultCallView, VaultReplyView};
use crate::session::{resume, SessionView};

verus! {

/// One entry of the indexed kind.
pub struct EntryModel {
    pub attributes: Entries,
    pub secret: Seq<u8>,
    pub locked: bool,
}

/// All that a vault holds: the blobs by their namespace, the entries, and
/// which entries its last search reported, locked and unlocked.
pub struct VaultModel {
    pub blobs: Map<Seq<char>, Seq<u8>>,
    pub entries: Seq<EntryModel>,
    pub found_locked: Seq<int>,
    pub found_unlocked: Seq<int>,
}

/// The attributes `have` include every attribute of `want`, with its value.
pub open spec fn has_attributes(have: Entries, want: Entries) -> bool {
    forall|i: int| 0 <= i < want.len() ==> lookup(have, (#[trigger] want[i]).0) == Some(want[i].1)
}

/// The indices of the entries that carry the attributes and are in the
/// given lock state, in ascending order.
pub open spec fn matching(entries: Seq<EntryModel>, want: Entries, locked: bool) -> Seq<int>
    decreases entries.len(),
{
    if entries.len() == 0 {
        Seq::empty()
    } else {
        let before = matching(entries.drop_last(), want, locked);
        let entry = entries.last();
        if has_attributes(entry.attributes, want) && entry.locked == locked {
            before.push(entries.len() - 1)
        } else {
            before
        }
    }
}

/// The attributes of the entries at the given indices.
pub open spec fn attributes_at(entries: Seq<EntryModel>, indices: Seq<int>) -> Seq<Entries> {
    indices.map_values(|i: int| entries[i].attributes)
}

/// The entries without those that carry exactly the given attributes.
pub open spec fn without_same(entries: Seq<EntryModel>, attributes: Entries) -> Seq<EntryModel>
    decreases entries.len(),
{
    if entries.len() == 0 {
        Seq::empty()
    } else {
        let before = without_same(entries.drop_last(), attributes);
        if mapping(entries.last().attributes) == mapping(attributes) {
            before
        } else {
            before.push(entries.last())
        }
    }
}

/// The entries with those at the given indices unlocked.
pub open spec fn unlocked_at(entries: Seq<EntryModel>, targets: Set<int>) -> Seq<EntryModel> {
    Seq::new(
        entries.len(),
        |i: int|
            if targets.contains(i) {
                EntryModel { locked: false, ..entries[i] }
            } else {
                entries[i]
            },
    )
}

/// The entries that a batch names, as indices into the vault's entries.
pub open spec fn batch_targets(found_locked: Seq<int>, batch: Seq<usize>) -> Set<int> {
    Set::new(|i: int| exists|j: int| 0 <= j < batch.len() && #[trigger] batch[j] < found_locked.len()
        && found_locked[batch[j] as int] == i)
}

/// Every index of the batch names an entry of the locked part of the last search.
pub open spec fn batch_in_range(found_locked: Seq<int>, batch: Seq<usize>) -> bool {
    forall|j: int| 0 <= j < batch.len() ==> #[trigger] batch[j] < found_locked.len()
}

/// What the vault's text is when it refuses a call.
pub open spec fn refusal() -> Seq<char> {
    "refused"@
}

/// The vault after a call, and its reply. The vault has one collection, so
/// that a search finds the same in either scope.
pub open spec fn answer(vault: VaultModel, call: VaultCallView) -> (VaultModel, VaultReplyView) {
    match call {
        VaultCallView::FetchBlob { namespace } => (
            vault,
            VaultReplyView::Blob(
                if vault.blobs.contains_key(namespace) {
                    Some(vault.blobs[namespace])
                } else {
                    None
                },
            ),
        ),
        VaultCallView::StoreBlob { namespace, bytes } => (
            VaultModel { blobs: vault.blobs.insert(namespace, bytes), ..vault },
            VaultReplyView::Stored,
        ),
        VaultCallView::CreateEntry { label, attributes, secret, replace, content_type } => {
            let kept = if replace {
                without_same(vault.entries, attributes)
            } else {
                vault.entries
            };
            (
                VaultModel {
                    blobs: vault.blobs,
                    entries: kept.push(EntryModel { attributes, secret, locked: false }),
                    found_locked: Seq::empty(),
                    found_unlocked: Seq::empty(),
                },
                VaultReplyView::Created,
            )
        },
        VaultCallView::Search { attributes, scope } => {
            let found_locked = matching(vault.entries, attributes, true);
            let found_unlocked = matching(vault.entries, attributes, false);
            (
                VaultModel { found_locked, found_unlocked, ..vault },
                VaultReplyView::Found {
                    locked: attributes_at(vault.entries, found_locked),
                    unlocked: attributes_at(vault.entries, found_unlocked),
                },
            )
        },
        VaultCallView::Unlock { entries } => if batch_in_range(vault.found_locked, entries) {
            (
                VaultModel {
                    entries: unlocked_at(
                        vault.entries,
                        batch_targets(vault.found_locked, entries),
                    ),
                    ..vault
                },
                VaultReplyView::Unlocked,
            )
        } else {
            (vault, VaultReplyView::Failed(refusal()))
        },
        VaultCallView::ReadSecret { locked, index } => {
            let found = if locked {
                vault.found_locked
            } else {
                vault.found_unlocked
            };
            if index < found.len() && 0 <= found[index as int] < vault.entries.len()
                && !vault.entries[found[index as int]].locked {
                (vault, VaultReplyView::Secret(vault.entries[found[index as int]].secret))
            } else {
                (vault, VaultReplyView::Failed(refusal()))
            }
        },
    }
}

/// Runs a session against the vault for at most `fuel` calls: the vault as
/// it is then, and the step at which the session stands.
pub open spec fn run(vault: VaultModel, session: SessionView, step: StepView, fuel: nat) -> (
    VaultModel,
    StepView,
)
    decreases fuel,
{
    match step {
        StepView::Call(call) => if fuel == 0 {
            (vault, step)
        } else {
            let answered = answer(vault, call);
            let next = resume(session, answered.1);
            run(answered.0, next.0, next.1, (fuel - 1) as nat)
        },
        _ => (vault, step),
    }
}

/// One call of a run, spelled out.
pub proof fn lemma_run_step(vault: VaultModel, session: SessionView, step: StepView, fuel: nat)
    requires
        step is Call,
        fuel > 0,
    ensures
        run(vault, session, step, fuel) == ({
            let answered = answer(vault, step->Call_0);
            let next = resume(session, answered.1);
            run(answered.0, next.0, next.1, (fuel - 1) as nat)
        }),
{
}

/// An index is among the matching ones exactly when its entry carries the
/// attributes and is in the lock state asked for; and the matching indices
/// are entries of the vault, each listed once, in ascending order.
pub proof fn lemma_matching(entries: Seq<EntryModel>, want: Entries, locked: bool)
    ensures
        forall|j: int|
            0 <= j < matching(entries, want, locked).len() ==> {
                let i = #[trigger] matching(entries, want, locked)[j];
                &&& 0 <= i < entries.len()
                &&& has_attributes(entries[i].attributes, want)
                &&& entries[i].locked == locked
            },
        forall|i: int|
            0 <= i < entries.len() && has_attributes((#[trigger] entries[i]).attributes, want)
                && entries[i].locked == locked ==> matching(entries, want, locked).contains(i),
        forall|j: int, k: int|
            0 <= j < k < matching(entries, want, locked).len() ==> matching(entries, want, locked)[j]
                < matching(entries, want, locked)[k],
    decreases entries.len(),
{
    if entries.len() > 0 {
        let init = entries.drop_last();
        lemma_matching(init, want, locked);
        let before = matching(init, want, locked);
        let all = matching(entries, want, locked);
        assert forall|j: int| 0 <= j < all.len() implies {
            let i = #[trigger] all[j];
            &&& 0 <= i < entries.len()
            &&& has_attributes(entries[i].attributes, want)
            &&& entries[i].locked == locked
        } by {
            if j < before.len() {
                assert(all[j] == before[j]);
                assert(entries[before[j]] == init[before[j]]);
            }
        }
        assert forall|i: int|
            0 <= i < entries.len() && has_attributes((#[trigger] entries[i]).attributes, want)
                && entries[i].locked == locked implies all.contains(i) by {
            if i < init.len() {
                assert(init[i] == entries[i]);
                assert(before.contains(i));
                let j = choose|j: int| 0 <= j < before.len() && before[j] == i;
                assert(all[j] == i);
            } else {
                assert(all[all.len() - 1] == i);
            }
        }
        assert forall|j: int, k: int| 0 <= j < k < all.len() implies all[j] < all[k] by {
            if k < before.len() {
                assert(all[j] == before[j] && all[k] == before[k]);
            } else {
                assert(all[j] == before[j]);
                assert(before[j] < init.len());
            }
        }
    }
}

} // verus!
