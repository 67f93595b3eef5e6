//! Directories that come from where nothing is known, and are to be discovered.

use vstd::prelude::*;

use crate::db::table::{comes_to, has_fh, sound, Table};
use crate::db::{answer, one_row, Ask, Error, Failure};
use crate::watcher::batch::{BatchAct, Batching, Stage};
use crate::watcher::effect::{
    effect, known, lemma_lookup, lemma_not_ambiguous, located, runs, Known, Ran,
};
use crate::watcher::event::Change;
use crate::watcher::task::{Act, Doing, MoveState, Moving, Spot};
use crate::watcher::writes::{batch_runs, lemma_split, lemma_works, works};

verus! {

/// The directories that a move asks to have discovered when its statements come to what is
/// in `log`.
pub open spec fn sent(m: Moving, log: Seq<Ran>) -> Seq<Seq<u8>>
    decreases log.len(), (if m.action() is Discover { 1int } else { 0int }),
{
    match m.action() {
        Act::Done => Seq::empty(),
        Act::Discover(fh) => if m.discovered().action() is Discover {
            seq![fh]
        } else {
            seq![fh] + sent(m.discovered(), log)
        },
        Act::Run(_) => if log.len() == 0 {
            Seq::empty()
        } else {
            sent(m.step(log[0].x), log.skip(1))
        },
    }
}

/// The directories that a task asks to have discovered.
pub open spec fn task_sent(task: Doing, log: Seq<Ran>) -> Seq<Seq<u8>> {
    match task {
        Doing::Move(m) => sent(m, log),
        Doing::Discover(_) => Seq::empty(),
    }
}

/// The directories that a batch asks to have discovered.
pub open spec fn batch_sent(b: Batching, log: Seq<Ran>) -> Seq<Seq<u8>>
    decreases log.len(), (if b.action() is Discover { 1int } else { 0int }),
{
    match b.action() {
        BatchAct::Done => Seq::empty(),
        BatchAct::Discover(fh) => if b.discovered().action() is Discover {
            seq![fh]
        } else {
            seq![fh] + batch_sent(b.discovered(), log)
        },
        _ => if log.len() == 0 {
            Seq::empty()
        } else {
            batch_sent(b.step(log[0].x), log.skip(1))
        },
    }
}

/// What comes with a change that nothing is known of: a directory that was renamed from a
/// directory that is not in the table to one that is.
pub open spec fn newcomers(t: Table, change: Change) -> Seq<Seq<u8>> {
    match change {
        Change::Rename { old_p_fh, new_p_fh, fh, old_name, new_name, is_dir } => {
            let from = Some(Spot { name: old_name, p_fh: old_p_fh });
            let to = Some(Spot { name: new_name, p_fh: new_p_fh });
            if is_dir && located(t, from, None) && exists|dir: Known| #[trigger]
                located(t, to, Some(dir)) {
                seq![fh]
            } else {
                Seq::empty()
            }
        },
        _ => Seq::empty(),
    }
}

/// The directories have been looked up.
spec fn is_late(state: MoveState) -> bool {
    match state {
        MoveState::Write { .. } => true,
        MoveState::FindTaken { .. } => true,
        MoveState::DropTaken { .. } => true,
        MoveState::Finished(_) => true,
        _ => false,
    }
}

/// Nothing is to be discovered any more.
proof fn lemma_late(m: Moving, log: Seq<Ran>)
    requires
        is_late(m.state),
    ensures
        sent(m, log) == Seq::<Seq<u8>>::empty(),
    decreases log.len(),
{
    if m.action() is Run && log.len() > 0 {
        lemma_late(m.step(log[0].x), log.skip(1));
    }
}

/// What is known of a place is all that is known of it.
proof fn lemma_one_place(t: Table, spot: Spot, dir: Known)
    requires
        located(t, Some(spot), Some(dir)),
    ensures
        !located(t, Some(spot), None),
{
    assert(has_fh(t, spot.p_fh, dir.p_id));
}

/// Looking up the directory that a move goes to.
proof fn lemma_sought(m: Moving, t: Table, log: Seq<Ran>, end: Moving, t2: Table)
    requires
        m.to is Some,
        m.state matches MoveState::FindTo { from } && (from is Some ==> m.from is Some),
        runs(m, t, log, end, t2),
    ensures
        sent(m, log) == (if m.is_dir && m.from is Some && m.state->FindTo_from is None && exists|
            dir: Known,
        | #[trigger] located(t, m.to, Some(dir)) {
            seq![m.fh]
        } else {
            Seq::empty()
        }),
{
    let from = m.state->FindTo_from;
    let x = log[0].x;
    let next = m.step(x);
    let to = m.to->0;
    assert(m.action() == Act::Run(Ask::GetDirId { fh: to.p_fh }));
    assert(comes_to(t, Ask::GetDirId { fh: to.p_fh }, x, t));
    lemma_lookup(t, to, x);
    match one_row(x) {
        Ok(id) => {
            let dir = Known { name: to.name, p_id: id };
            assert(located(t, m.to, Some(dir)));
            if m.is_dir && m.from is Some && from is None {
                let after = next.discovered();
                assert(next.action() == Act::Discover(m.fh));
                lemma_late(after, log.skip(1));
                assert(sent(next, log.skip(1)) =~= seq![m.fh]);
            } else {
                lemma_late(next, log.skip(1));
            }
        },
        Err(Error::NoFile) => {
            lemma_late(next, log.skip(1));
            if exists|dir: Known| #[trigger] located(t, m.to, Some(dir)) {
                let dir = choose|dir: Known| #[trigger] located(t, m.to, Some(dir));
                lemma_one_place(t, to, dir);
            }
        },
        Err(_) => {
            lemma_late(next, log.skip(1));
            if exists|dir: Known| #[trigger] located(t, m.to, Some(dir)) {
                let dir = choose|dir: Known| #[trigger] located(t, m.to, Some(dir));
                lemma_not_ambiguous(t, m.to, Some(dir));
            }
        },
    }
}

/// A task asks to have discovered just what comes with its change that nothing is known of.
pub proof fn law_newcomers_discovered(
    change: Change,
    t: Table,
    log: Seq<Ran>,
    end: Doing,
    t2: Table,
)
    requires
        works(change.task(), t, log, end, t2),
    ensures
        task_sent(change.task(), log) == newcomers(t, change),
{
    match change {
        Change::Create { .. } => {
            lemma_sought(change.task()->Move_0, t, log, end->Move_0, t2);
        },
        Change::Delete { p_fh, name, .. } => {
            let m = change.task()->Move_0;
            let next = m.step(log[0].x);
            assert(is_late(next.state));
            lemma_late(next, log.skip(1));
        },
        Change::Rename { old_p_fh, old_name, .. } => {
            let m = change.task()->Move_0;
            let from = Spot { name: old_name, p_fh: old_p_fh };
            let x = log[0].x;
            let next = m.step(x);
            assert(m.action() == Act::Run(Ask::GetDirId { fh: old_p_fh }));
            assert(comes_to(t, Ask::GetDirId { fh: old_p_fh }, x, t));
            lemma_lookup(t, from, x);
            match one_row(x) {
                Ok(id) => {
                    lemma_sought(next, t, log.skip(1), end->Move_0, t2);
                    lemma_one_place(t, from, Known { name: old_name, p_id: id });
                },
                Err(Error::NoFile) => {
                    lemma_sought(next, t, log.skip(1), end->Move_0, t2);
                },
                Err(_) => {
                    lemma_late(next, log.skip(1));
                    if located(t, Some(from), None) {
                        lemma_not_ambiguous(t, Some(from), None);
                    }
                },
            }
        },
        Change::Discover { .. } => {},
    }
}

/// The changes are made one after the other, up to the first one that fails, and `found` is
/// what comes with them that nothing is known of, in their order.
pub open spec fn made_with(
    t: Table,
    changes: Seq<Change>,
    r: Result<(), Error>,
    t2: Table,
    found: Seq<Seq<u8>>,
) -> bool
    decreases changes.len(),
{
    if changes.len() == 0 {
        r is Ok && t2 == t && found.len() == 0
    } else {
        exists|r1: Result<(), Error>, t1: Table, later: Seq<Seq<u8>>|
            {
                &&& #[trigger] effect(t, changes[0], r1, t1)
                &&& found == #[trigger] (newcomers(t, changes[0]) + later)
                &&& match r1 {
                    Ok(_) => made_with(t1, changes.drop_first(), r, t2, later),
                    Err(e) => r == Err::<(), Error>(e) && t2 == t1 && later.len() == 0,
                }
            }
    }
}

proof fn lemma_turns_with(b: Batching, t: Table, log: Seq<Ran>, end: Batching, t2: Table)
    requires
        sound(t),
        batch_runs(b.turn(), t, log, end, t2),
    ensures
        exists|r: Result<(), Error>| #[trigger]
            made_with(t, b.rest, r, t2, batch_sent(b.turn(), log)),
    decreases b.rest.len(),
{
    let next = b.turn();
    let found = batch_sent(next, log);
    if b.rest.len() == 0 {
        let done = next.step(log[0].x);
        assert(batch_runs(done, t, log.skip(1), end, t2));
        assert(batch_sent(done, log.skip(1)) =~= Seq::<Seq<u8>>::empty());
        assert(made_with(t, b.rest, Ok(()), t2, found));
    } else {
        let change = b.rest[0];
        let task = change.task();
        assert(task.result() is None);
        let r = lemma_split(next, task, t, log, end, t2);
        lemma_works(change, t, log.take(r.0), r.1, r.2);
        law_newcomers_discovered(change, t, log.take(r.0), r.1, r.2);
        let after = next.after(r.1);
        let rest = log.skip(r.0);
        let later = batch_sent(after, rest);
        assert(found == newcomers(t, change) + later);
        match r.1.result()->0 {
            Ok(_) => {
                assert(after == next.turn());
                lemma_turns_with(next, r.2, rest, end, t2);
                let r2 = choose|r2: Result<(), Error>| #[trigger]
                    made_with(r.2, next.rest, r2, t2, later);
                assert(effect(t, change, Ok(()), r.2));
                assert(made_with(t, b.rest, r2, t2, found));
            },
            Err(e) => {
                assert(batch_runs(after, r.2, rest, end, t2));
                assert(later =~= Seq::<Seq<u8>>::empty());
                assert(effect(t, change, Err(e), r.2));
                assert(made_with(t, b.rest, Err(e), t2, found));
            },
        }
    }
}

/// A batch asks to have discovered just the directories that come with its changes and that
/// nothing is known of, in the order of the changes.
pub proof fn law_batch_discovers(
    changes: Seq<Change>,
    t: Table,
    log: Seq<Ran>,
    end: Batching,
    t2: Table,
)
    requires
        sound(t),
        batch_runs(Batching::new(changes), t, log, end, t2),
    ensures
        log[0].x is Err ==> batch_sent(Batching::new(changes), log).len() == 0,
        log[0].x is Ok ==> exists|r: Result<(), Error>| #[trigger]
            made_with(t, changes, r, t2, batch_sent(Batching::new(changes), log)),
{
    let begun = Batching::new(changes);
    let next = begun.step(log[0].x);
    assert(batch_runs(next, t, log.skip(1), end, t2));
    assert(batch_sent(begun, log) == batch_sent(next, log.skip(1)));
    if log[0].x is Ok {
        lemma_turns_with(begun, t, log.skip(1), end, t2);
    }
}

/// Whatever is asked of the database for a batch, a failure that does not come from what
/// the table holds ends the batch with this failure, and so does a parent that is not there.
pub proof fn law_failure_ends_batch(b: Batching, failure: Failure)
    requires
        b.action() is Begin || b.action() is Run || b.action() is Commit,
        b.stage matches Stage::Work(Doing::Move(m)) ==> m.valid(),
        failure.kind is ForeignKey || failure.kind is Interrupted || failure.kind is Other,
    ensures
        b.step(Err(failure)).result() == Some(Err::<(), Error>(Error::SQLite(failure))),
        b.step(Err(failure)).action() is Done,
{
}

/// What is told of a request that a task has run is never passed over, but for a directory
/// or a source that is not there and a name that is taken: any other failure ends the task
/// and is what the task comes to, and so does any failure to find or remove the entry that
/// has the name. A discovery comes to every failure but a name that is taken.
pub proof fn law_failures_end_task(task: Doing, ask: Ask, x: Result<i64, Failure>)
    requires
        task matches Doing::Move(m) ==> m.valid(),
        task.action() == Act::Run(ask),
        answer(ask, x) is Err,
    ensures
        ({
            let e = answer(ask, x)->Err_0;
            let passed_over = e is NameTaken || (task is Move && e is NoFile && !(ask is GetDirentId)
                && !(ask is DeleteWithId));
            !passed_over ==> task.step(x).result() == Some(Err::<(), Error>(e))
        }),
        task is Discover && answer(ask, x)->Err_0 is NameTaken ==> task.step(x).result() == Some(
            Ok::<(), Error>(()),
        ),
{
}

} // verus!
