//! How often a session asks the vault to unlock: never more than once, and
//! only for entries that the listing needs.
use vstd::prelude::*;
use crate::filter::KeyFilterView;
use crate::indexed::{candidates_of, locked_indices};
use crate::protocol::{StepView, VaultCallView, VaultReplyView};
use crate::session::{begin_list, resume, Backend, SessionView};

verus! {

/// The calls that a session makes, in order, when it stands at `step` and
/// the replies are handed to it one after the other.
pub open spec fn calls_made(
    session: SessionView,
    step: StepView,
    replies: Seq<VaultReplyView>,
) -> Seq<VaultCallView>
    decreases replies.len(),
{
    match step {
        StepView::Call(call) => if replies.len() == 0 {
            seq![call]
        } else {
            let next = resume(session, replies[0]);
            seq![call] + calls_made(next.0, next.1, replies.drop_first())
        },
        _ => Seq::empty(),
    }
}

/// The number of unlock calls among `calls`.
pub open spec fn unlock_count(calls: Seq<VaultCallView>) -> nat
    decreases calls.len(),
{
    if calls.len() == 0 {
        0
    } else if calls.last() is Unlock {
        unlock_count(calls.drop_last()) + 1
    } else {
        unlock_count(calls.drop_last())
    }
}

/// Counting unlock calls in a sequence that begins with one more call.
pub proof fn lemma_unlock_count_first(call: VaultCallView, rest: Seq<VaultCallView>)
    ensures
        unlock_count(seq![call] + rest) == unlock_count(rest) + if call is Unlock {
            1nat
        } else {
            0nat
        },
    decreases rest.len(),
{
    let all = seq![call] + rest;
    if rest.len() == 0 {
        assert(all.drop_last() =~= Seq::<VaultCallView>::empty());
        assert(unlock_count(all.drop_last()) == 0);
    } else {
        assert(all.drop_last() =~= seq![call] + rest.drop_last());
        assert(all.last() == rest.last());
        lemma_unlock_count_first(call, rest.drop_last());
    }
}

/// A session that does not wait for a search never asks for an unlock again.
pub proof fn lemma_no_unlock_later(
    session: SessionView,
    step: StepView,
    replies: Seq<VaultReplyView>,
)
    requires
        !(session.phase is AwaitFound),
        !(step matches StepView::Call(VaultCallView::Unlock { .. })),
    ensures
        unlock_count(calls_made(session, step, replies)) == 0,
    decreases replies.len(),
{
    match step {
        StepView::Call(call) => {
            if replies.len() == 0 {
                lemma_unlock_count_first(call, Seq::empty());
                assert(seq![call] + Seq::<VaultCallView>::empty() =~= seq![call]);
            } else {
                let next = resume(session, replies[0]);
                lemma_no_unlock_later(next.0, next.1, replies.drop_first());
                lemma_unlock_count_first(call, calls_made(next.0, next.1, replies.drop_first()));
            }
        },
        _ => {},
    }
}

/// An unlock is followed by no second one, whatever the vault replies.
pub proof fn lemma_one_unlock(session: SessionView, step: StepView, replies: Seq<VaultReplyView>)
    requires
        session.phase is AwaitUnlocked,
        step matches StepView::Call(VaultCallView::Unlock { .. }),
    ensures
        unlock_count(calls_made(session, step, replies)) == 1,
{
    let call = step->Call_0;
    if replies.len() == 0 {
        lemma_unlock_count_first(call, Seq::empty());
        assert(seq![call] + Seq::<VaultCallView>::empty() =~= seq![call]);
    } else {
        let next = resume(session, replies[0]);
        lemma_no_unlock_later(next.0, next.1, replies.drop_first());
        lemma_unlock_count_first(call, calls_made(next.0, next.1, replies.drop_first()));
    }
}

/// A listing on the indexed backend asks for exactly one batch unlock when
/// the search reports at least one locked entry that the listing wants, and
/// for none when it reports no such entry, whatever the vault replies later.
/// The one unlock follows the search at once and names all the wanted locked
/// entries, and no others.
pub proof fn listing_unlocks_once(
    namespace: Seq<char>,
    filter: KeyFilterView,
    locked: Seq<crate::entries::Entries>,
    unlocked: Seq<crate::entries::Entries>,
    later: Seq<VaultReplyView>,
)
    ensures
        ({
            let first = begin_list(Backend::Indexed, namespace, filter);
            let replies = seq![VaultReplyView::Found { locked, unlocked }] + later;
            let wanted = locked_indices(candidates_of(locked, unlocked, filter));
            let calls = calls_made(first.0, first.1, replies);
            &&& wanted.len() > 0 ==> unlock_count(calls) == 1 && calls[1]
                == VaultCallView::Unlock { entries: wanted }
            &&& wanted.len() == 0 ==> unlock_count(calls) == 0
        }),
{
    let first = begin_list(Backend::Indexed, namespace, filter);
    let found = VaultReplyView::Found { locked, unlocked };
    let replies = seq![found] + later;
    assert(replies[0] == found);
    assert(replies.drop_first() =~= later);
    let search = first.1->Call_0;
    let next = resume(first.0, found);
    let rest = calls_made(next.0, next.1, later);
    assert(calls_made(first.0, first.1, replies) == seq![search] + rest);
    lemma_unlock_count_first(search, rest);
    let wanted = locked_indices(candidates_of(locked, unlocked, filter));
    if wanted.len() > 0 {
        lemma_one_unlock(next.0, next.1, later);
        assert(rest[0] == next.1->Call_0);
    } else {
        lemma_no_unlock_later(next.0, next.1, later);
    }
}

/// Before the search has answered, a listing has asked for no unlock.
pub proof fn listing_unlocks_nothing_unasked(namespace: Seq<char>, filter: KeyFilterView)
    ensures
        ({
            let first = begin_list(Backend::Indexed, namespace, filter);
            unlock_count(calls_made(first.0, first.1, Seq::empty())) == 0
        }),
{
    let first = begin_list(Backend::Indexed, namespace, filter);
    let search = first.1->Call_0;
    lemma_unlock_count_first(search, Seq::empty());
    assert(seq![search] + Seq::<VaultCallView>::empty() =~= seq![search]);
}

/// No operation of the store asks for more than one unlock, and none on the
/// blob backend or in a `set` asks for any.
pub proof fn at_most_one_unlock(session: SessionView, step: StepView, replies: Seq<VaultReplyView>)
    requires
        step is Call,
        session.phase is AwaitUnlocked <==> step matches StepView::Call(
            VaultCallView::Unlock { .. },
        ),
    ensures
        unlock_count(calls_made(session, step, replies)) <= 1,
        !(session.phase is AwaitFound) && !(session.phase is AwaitUnlocked) ==> unlock_count(
            calls_made(session, step, replies),
        ) == 0,
{
    let call = step->Call_0;
    if session.phase is AwaitUnlocked {
        lemma_one_unlock(session, step, replies);
    } else if session.phase is AwaitFound {
        if replies.len() == 0 {
            lemma_unlock_count_first(call, Seq::empty());
            assert(seq![call] + Seq::<VaultCallView>::empty() =~= seq![call]);
        } else {
            let next = resume(session, replies[0]);
            let rest = calls_made(next.0, next.1, replies.drop_first());
            lemma_unlock_count_first(call, rest);
            if next.1 matches StepView::Call(VaultCallView::Unlock { .. }) {
                lemma_one_unlock(next.0, next.1, replies.drop_first());
            } else {
                lemma_no_unlock_later(next.0, next.1, replies.drop_first());
            }
        }
    } else {
        lemma_no_unlock_later(session, step, replies);
    }
}

/// An unlock that names no entry.
pub open spec fn is_empty_unlock(call: VaultCallView) -> bool {
    call matches VaultCallView::Unlock { entries } && entries.len() == 0
}

/// No session asks the vault to unlock nothing: a batch that would be
/// empty is never sent, whatever the vault replies.
pub proof fn unlock_is_never_empty(
    session: SessionView,
    step: StepView,
    replies: Seq<VaultReplyView>,
)
    requires
        !(step matches StepView::Call(call) && is_empty_unlock(call)),
    ensures
        forall|i: int|
            0 <= i < calls_made(session, step, replies).len() ==> !is_empty_unlock(
                #[trigger] calls_made(session, step, replies)[i],
            ),
    decreases replies.len(),
{
    match step {
        StepView::Call(call) => {
            if replies.len() > 0 {
                let next = resume(session, replies[0]);
                unlock_is_never_empty(next.0, next.1, replies.drop_first());
                let rest = calls_made(next.0, next.1, replies.drop_first());
                let all = calls_made(session, step, replies);
                assert forall|i: int| 0 <= i < all.len() implies !is_empty_unlock(
                    #[trigger] all[i],
                ) by {
                    if i > 0 {
                        assert(all[i] == rest[i - 1]);
                    }
                }
            }
        },
        _ => {},
    }
}

/// Once a session waits for the unlock or for a secret, every call that it
/// still makes reads a secret: nothing is read before the unlock was asked
/// for, and nothing else is asked after it.
pub proof fn only_reads_follow(session: SessionView, step: StepView, replies: Seq<VaultReplyView>)
    requires
        session.phase is AwaitUnlocked || session.phase is AwaitSecret,
    ensures
        forall|i: int|
            1 <= i < calls_made(session, step, replies).len() ==> (#[trigger] calls_made(
                session,
                step,
                replies,
            )[i]) is ReadSecret,
    decreases replies.len(),
{
    match step {
        StepView::Call(call) => {
            if replies.len() > 0 {
                let next = resume(session, replies[0]);
                let rest = calls_made(next.0, next.1, replies.drop_first());
                let all = calls_made(session, step, replies);
                if next.0.phase is AwaitSecret {
                    only_reads_follow(next.0, next.1, replies.drop_first());
                } else {
                    assert(!(next.1 is Call));
                    assert(rest.len() == 0);
                }
                assert forall|i: int| 1 <= i < all.len() implies (#[trigger] all[i]) is ReadSecret by {
                    assert(all[i] == rest[i - 1]);
                }
            }
        },
        _ => {},
    }
}

} // verus!
