//! Every operation ends in the kind of outcome that it was begun for, so
//! that a command always has something to make of the outcome of its own
//! operation.
use vstd::prelude::*;
use crate::command::{asks_for_secret, begin_command, render, CmdView, CommandErrorView};
use crate::error::StoreErrorView;
use crate::key::{first_invalid, valid_key};
use crate::protocol::VaultCallView;
use crate::unlocking::calls_made;
use crate::protocol::{OutcomeView, StepView, VaultReplyView};
use crate::session::{
    begin_get, begin_list_all, begin_list_filtered, begin_set, fail, resume, Backend, PhaseView,
    SessionView,
};

verus! {

/// The kinds of outcome.
pub enum OutcomeKind {
    Stored,
    Value,
    Records,
}

/// The kind of an outcome.
pub open spec fn kind_of(outcome: OutcomeView) -> OutcomeKind {
    match outcome {
        OutcomeView::Stored => OutcomeKind::Stored,
        OutcomeView::Value(_) => OutcomeKind::Value,
        OutcomeView::Records(_) => OutcomeKind::Records,
    }
}

/// The kind of outcome that a session in this phase is after.
pub open spec fn awaited(phase: PhaseView) -> Option<OutcomeKind> {
    match phase {
        PhaseView::AwaitBlobForSet { .. } => Some(OutcomeKind::Stored),
        PhaseView::AwaitStored => Some(OutcomeKind::Stored),
        PhaseView::AwaitCreated => Some(OutcomeKind::Stored),
        PhaseView::AwaitBlobForGet { .. } => Some(OutcomeKind::Value),
        PhaseView::AwaitBlobForList { .. } => Some(OutcomeKind::Records),
        PhaseView::AwaitFound { filter, target } => if target is Some {
            Some(OutcomeKind::Value)
        } else {
            Some(OutcomeKind::Records)
        },
        PhaseView::AwaitUnlocked { candidates, single } => if single {
            Some(OutcomeKind::Value)
        } else {
            Some(OutcomeKind::Records)
        },
        PhaseView::AwaitSecret { candidates, records, single } => if single {
            Some(OutcomeKind::Value)
        } else {
            Some(OutcomeKind::Records)
        },
        PhaseView::Finished => None,
    }
}

/// The session at this step is on its way to an outcome of the given kind,
/// or has ended in one, or has failed.
pub open spec fn heads_for(session: SessionView, step: StepView, kind: OutcomeKind) -> bool {
    match step {
        StepView::Call(_) => session.wf() && awaited(session.phase) == Some(kind),
        StepView::Done(outcome) => kind_of(outcome) == kind,
        StepView::Failed(_) => true,
    }
}

/// Where a session stands after the replies have been handed to it in order.
pub open spec fn after_replies(
    session: SessionView,
    step: StepView,
    replies: Seq<VaultReplyView>,
) -> (SessionView, StepView)
    decreases replies.len(),
{
    match step {
        StepView::Call(_) => if replies.len() == 0 {
            (session, step)
        } else {
            let next = resume(session, replies[0]);
            after_replies(next.0, next.1, replies.drop_first())
        },
        _ => (session, step),
    }
}

/// A reply keeps a session on its way.
pub proof fn lemma_resume_heads_on(session: SessionView, reply: VaultReplyView, kind: OutcomeKind)
    requires
        session.wf(),
        awaited(session.phase) == Some(kind),
    ensures
        heads_for(resume(session, reply).0, resume(session, reply).1, kind),
{
}

/// Replies keep a session on its way.
pub proof fn lemma_heads_on(
    session: SessionView,
    step: StepView,
    replies: Seq<VaultReplyView>,
    kind: OutcomeKind,
)
    requires
        heads_for(session, step, kind),
    ensures
        heads_for(
            after_replies(session, step, replies).0,
            after_replies(session, step, replies).1,
            kind,
        ),
    decreases replies.len(),
{
    if step is Call && replies.len() > 0 {
        let next = resume(session, replies[0]);
        lemma_resume_heads_on(session, replies[0], kind);
        lemma_heads_on(next.0, next.1, replies.drop_first(), kind);
    }
}

/// The kind of outcome that a command's operation is begun for.
pub open spec fn kind_for(cmd: CmdView) -> OutcomeKind {
    match cmd {
        CmdView::SetSecret { .. } => OutcomeKind::Stored,
        CmdView::Get { .. } => OutcomeKind::Value,
        _ => OutcomeKind::Records,
    }
}

/// Whatever the vault replies, a `set` ends in `Stored`, a `get` in a value
/// and a listing in records, unless they fail.
pub proof fn operations_end_in_their_kind(
    backend: Backend,
    namespace: Seq<char>,
    key: Seq<char>,
    value: Seq<char>,
    keys: Seq<Seq<char>>,
    replies: Seq<VaultReplyView>,
)
    ensures
        ({
            let begun = begin_set(backend, namespace, key, value);
            heads_for(
                after_replies(begun.0, begun.1, replies).0,
                after_replies(begun.0, begun.1, replies).1,
                OutcomeKind::Stored,
            )
        }),
        ({
            let begun = begin_get(backend, namespace, key);
            heads_for(
                after_replies(begun.0, begun.1, replies).0,
                after_replies(begun.0, begun.1, replies).1,
                OutcomeKind::Value,
            )
        }),
        ({
            let begun = begin_list_filtered(backend, namespace, keys);
            heads_for(
                after_replies(begun.0, begun.1, replies).0,
                after_replies(begun.0, begun.1, replies).1,
                OutcomeKind::Records,
            )
        }),
        ({
            let begun = begin_list_all(backend, namespace);
            heads_for(
                after_replies(begun.0, begun.1, replies).0,
                after_replies(begun.0, begun.1, replies).1,
                OutcomeKind::Records,
            )
        }),
{
    let set = begin_set(backend, namespace, key, value);
    lemma_heads_on(set.0, set.1, replies, OutcomeKind::Stored);
    let get = begin_get(backend, namespace, key);
    lemma_heads_on(get.0, get.1, replies, OutcomeKind::Value);
    let some = begin_list_filtered(backend, namespace, keys);
    lemma_heads_on(some.0, some.1, replies, OutcomeKind::Records);
    let all = begin_list_all(backend, namespace);
    lemma_heads_on(all.0, all.1, replies, OutcomeKind::Records);
}

/// A command always has something to make of the outcome of its own
/// operation: where the operation that the command began ends in an
/// outcome, whatever the vault replied, the command finishes with an output.
pub proof fn command_finishes(
    cmd: CmdView,
    backend: Backend,
    namespace: Seq<char>,
    prompted: Option<Seq<char>>,
    program: Seq<char>,
    replies: Seq<VaultReplyView>,
)
    ensures
        begin_command(cmd, backend, namespace, prompted) matches Ok(begun) ==> (after_replies(
            begun.0,
            begun.1,
            replies,
        ).1 matches StepView::Done(outcome) ==> render(cmd, program, namespace, outcome) is Some),
{
    match begin_command(cmd, backend, namespace, prompted) {
        Ok(begun) => {
            let kind = kind_for(cmd);
            assert(heads_for(begun.0, begun.1, kind));
            lemma_heads_on(begun.0, begun.1, replies, kind);
        },
        Err(_) => {},
    }
}

/// The keys that a command names.
pub open spec fn keys_of(cmd: CmdView) -> Seq<Seq<char>> {
    match cmd {
        CmdView::SetSecret { key, value } => seq![key],
        CmdView::Get { key } => seq![key],
        CmdView::Env { keys } => keys,
        _ => Seq::empty(),
    }
}

/// A command that names an invalid key ends at once in `InvalidKey` of the
/// first such key: whether or not a secret is at hand, no secret is asked
/// for, no call is made to the vault whatever it would reply, and a vault
/// that the session runs against stays as it is.
pub proof fn invalid_key_ends_at_once(
    cmd: CmdView,
    backend: Backend,
    namespace: Seq<char>,
    prompted: Option<Seq<char>>,
    vault: crate::vault::VaultModel,
    replies: Seq<VaultReplyView>,
    fuel: nat,
)
    ensures
        first_invalid(keys_of(cmd)) matches Some(bad) ==> {
            let ended = fail(namespace, StoreErrorView::InvalidKey(bad));
            &&& begin_command(cmd, backend, namespace, prompted) == Ok::<
                (SessionView, StepView),
                CommandErrorView,
            >(ended)
            &&& !asks_for_secret(cmd)
            &&& calls_made(ended.0, ended.1, replies) == Seq::<VaultCallView>::empty()
            &&& crate::vault::run(vault, ended.0, ended.1, fuel) == (vault, ended.1)
        },
{
    match cmd {
        CmdView::SetSecret { key, value } => {
            reveal_with_fuel(first_invalid, 3);
            assert(seq![key].len() == 1 && seq![key][0] == key);
            assert(seq![key].drop_first() =~= Seq::<Seq<char>>::empty());
            assert(first_invalid(seq![key]) == if valid_key(key) {
                None
            } else {
                Some(key)
            });
        },
        CmdView::Get { key } => {
            reveal_with_fuel(first_invalid, 3);
            assert(seq![key].len() == 1 && seq![key][0] == key);
            assert(seq![key].drop_first() =~= Seq::<Seq<char>>::empty());
            assert(first_invalid(seq![key]) == if valid_key(key) {
                None
            } else {
                Some(key)
            });
        },
        _ => {},
    }
}

} // verus!
