//! What a batch of changes does to the table of files.

use vstd::prelude::*;

use crate::db::table::{comes_to, sound, Table};
use crate::db::{Error, Failure};
use crate::watcher::batch::{BatchAct, Batching, Stage};
use crate::watcher::effect::{effect, explores, law_discover, law_move, runs, Ran};
use crate::watcher::event::Change;
use crate::watcher::newcomers::{batch_sent, task_sent};
use crate::watcher::task::{Act, Doing, Spot};

verus! {

/// Doing what the task asks for, starting with the table `t`, the statements in `log` are
/// run, and the task ends as `end` with the table `t2`.
pub open spec fn works(task: Doing, t: Table, log: Seq<Ran>, end: Doing, t2: Table) -> bool {
    match (task, end) {
        (Doing::Move(m), Doing::Move(e)) => runs(m, t, log, e, t2),
        (Doing::Discover(d), Doing::Discover(e)) => explores(d, t, log, e, t2),
        _ => false,
    }
}

/// Doing what the batch asks for, starting with the table `t`, the statements in `log` are
/// run, and the batch ends as `end` with the table `t2`. To begin and to commit a
/// transaction are statements that leave the table as it is.
pub open spec fn batch_runs(b: Batching, t: Table, log: Seq<Ran>, end: Batching, t2: Table) -> bool
    decreases log.len(), (if b.action() is Discover { 1int } else { 0int }),
{
    match b.action() {
        BatchAct::Done => log.len() == 0 && end == b && t2 == t,
        BatchAct::Discover(_) => {
            &&& !(b.discovered().action() is Discover)
            &&& batch_runs(b.discovered(), t, log, end, t2)
        },
        BatchAct::Run(ask) => {
            &&& log.len() > 0
            &&& comes_to(t, ask, log[0].x, log[0].table)
            &&& batch_runs(b.step(log[0].x), log[0].table, log.skip(1), end, t2)
        },
        _ => {
            &&& log.len() > 0
            &&& log[0].table == t
            &&& batch_runs(b.step(log[0].x), t, log.skip(1), end, t2)
        },
    }
}

/// The changes are made one after the other, up to the first one that fails; `r` is the
/// failure.
pub open spec fn made(t: Table, changes: Seq<Change>, r: Result<(), Error>, t2: Table) -> bool
    decreases changes.len(),
{
    if changes.len() == 0 {
        r is Ok && t2 == t
    } else {
        exists|r1: Result<(), Error>, t1: Table| #[trigger]
            effect(t, changes[0], r1, t1) && match r1 {
                Ok(_) => made(t1, changes.drop_first(), r, t2),
                Err(e) => r == Err::<(), Error>(e) && t2 == t1,
            }
    }
}

/// A task that runs to its end does what is done for the change.
pub proof fn lemma_works(change: Change, t: Table, log: Seq<Ran>, end: Doing, t2: Table)
    requires
        sound(t),
        works(change.task(), t, log, end, t2),
    ensures
        sound(t2),
        log.len() <= 7,
        end.result() is Some,
        effect(t, change, end.result()->0, t2),
{
    match change {
        Change::Create { p_fh, fh, name, is_dir } => {
            law_move(fh, None, Some(Spot { name, p_fh }), is_dir, t, log, end->Move_0, t2);
        },
        Change::Delete { p_fh, fh, name, is_dir } => {
            law_move(fh, Some(Spot { name, p_fh }), None, is_dir, t, log, end->Move_0, t2);
        },
        Change::Rename { old_p_fh, new_p_fh, fh, old_name, new_name, is_dir } => {
            law_move(
                fh,
                Some(Spot { name: old_name, p_fh: old_p_fh }),
                Some(Spot { name: new_name, p_fh: new_p_fh }),
                is_dir,
                t,
                log,
                end->Move_0,
                t2,
            );
        },
        Change::Discover { p_fh, fh, name } => {
            law_discover(fh, Spot { name, p_fh }, t, log, end->Discover_0, t2);
        },
    }
}

/// What a batch runs while it works on a task is what the task runs, and then what the
/// batch runs after the task.
pub proof fn lemma_split(
    b: Batching,
    task: Doing,
    t: Table,
    log: Seq<Ran>,
    end: Batching,
    t2: Table,
) -> (r: (int, Doing, Table))
    requires
        b.stage == Stage::Work(task),
        batch_runs(b, t, log, end, t2),
        task matches Doing::Move(m) ==> m.valid(),
        task.result() is None,
    ensures
        0 <= r.0 <= log.len(),
        works(task, t, log.take(r.0), r.1, r.2),
        r.1.result() is Some,
        batch_runs(b.after(r.1), r.2, log.skip(r.0), end, t2),
        batch_sent(b, log) == task_sent(task, log.take(r.0)) + batch_sent(
            b.after(r.1),
            log.skip(r.0),
        ),
    decreases log.len(), (if b.action() is Discover { 1int } else { 0int }),
{
    match task.action() {
        Act::Done => {
            assert(false);
            arbitrary()
        },
        Act::Discover(_) => {
            let next = task.discovered();
            let b2 = b.discovered();
            assert(b2 == b.after(next));
            assert(next.result() is None);
            let r = lemma_split(b2, next, t, log, end, t2);
            assert(b2.after(r.1) == b.after(r.1));
            assert(batch_sent(b, log) =~= task_sent(task, log.take(r.0)) + batch_sent(
                b.after(r.1),
                log.skip(r.0),
            ));
            r
        },
        Act::Run(ask) => {
            let ran = log[0];
            let next = task.step(ran.x);
            let b2 = b.step(ran.x);
            assert(b2 == b.after(next));
            assert(batch_runs(b2, ran.table, log.skip(1), end, t2));
            if next.result() is Some {
                assert(log.take(1).skip(1) =~= Seq::<Ran>::empty());
                assert(log.take(1)[0] == ran);
                assert(works(next, ran.table, log.take(1).skip(1), next, ran.table));
                assert(task_sent(next, log.take(1).skip(1)) =~= Seq::<Seq<u8>>::empty());
                assert(batch_sent(b, log) =~= task_sent(task, log.take(1)) + batch_sent(
                    b.after(next),
                    log.skip(1),
                ));
                (1, next, ran.table)
            } else {
                let r = lemma_split(b2, next, ran.table, log.skip(1), end, t2);
                assert(log.take(r.0 + 1).skip(1) =~= log.skip(1).take(r.0));
                assert(log.take(r.0 + 1)[0] == ran);
                assert(log.skip(1).skip(r.0) =~= log.skip(r.0 + 1));
                assert(b2.after(r.1) == b.after(r.1));
                (r.0 + 1, r.1, r.2)
            }
        },
    }
}

/// Once the transaction has begun.
proof fn lemma_turns(b: Batching, t: Table, log: Seq<Ran>, end: Batching, t2: Table)
    requires
        sound(t),
        batch_runs(b.turn(), t, log, end, t2),
    ensures
        sound(t2),
        log.len() <= 7 * b.rest.len() + 1,
        end.result() is Some,
        exists|r: Result<(), Error>| #[trigger]
            made(t, b.rest, r, t2) && match r {
                Ok(_) => log.len() > 0 && end.result()->0 == committed(log.last().x),
                Err(e) => end.result()->0 == Err::<(), Error>(e),
            },
    decreases b.rest.len(),
{
    let next = b.turn();
    if b.rest.len() == 0 {
        assert(batch_runs(next.step(log[0].x), t, log.skip(1), end, t2));
        assert(made(t, b.rest, Ok(()), t2));
    } else {
        let change = b.rest[0];
        let task = change.task();
        assert(task.result() is None);
        let r = lemma_split(next, task, t, log, end, t2);
        lemma_works(change, t, log.take(r.0), r.1, r.2);
        let after = next.after(r.1);
        let rest = log.skip(r.0);
        let r1 = r.1.result()->0;
        match r1 {
            Ok(_) => {
                assert(after == next.turn());
                lemma_turns(next, r.2, rest, end, t2);
                let r2 = choose|r2: Result<(), Error>| #[trigger]
                    made(r.2, next.rest, r2, t2) && match r2 {
                        Ok(_) => rest.len() > 0 && end.result()->0 == committed(rest.last().x),
                        Err(e) => end.result()->0 == Err::<(), Error>(e),
                    };
                assert(made(t, b.rest, r2, t2));
            },
            Err(e) => {
                assert(batch_runs(after, r.2, rest, end, t2));
                assert(made(t, b.rest, Err(e), t2));
            },
        }
    }
}

/// What a batch comes to, given what the commit came to.
pub open spec fn committed(x: Result<i64, Failure>) -> Result<(), Error> {
    match x {
        Ok(_) => Ok(()),
        Err(failure) => Err(Error::SQLite(failure)),
    }
}

/// What a batch does. It makes the changes in the order in which they came, up to the
/// first one that fails, with no more than seven statements for each, and succeeds only
/// once all of them are made and committed. The constraints of the table are kept.
pub proof fn law_batch(changes: Seq<Change>, t: Table, log: Seq<Ran>, end: Batching, t2: Table)
    requires
        sound(t),
        batch_runs(Batching::new(changes), t, log, end, t2),
    ensures
        sound(t2),
        0 < log.len() <= 7 * changes.len() + 2,
        end.result() is Some,
        match log[0].x {
            Err(failure) => end.result()->0 == Err::<(), Error>(Error::SQLite(failure)) && t2 == t,
            Ok(_) => exists|r: Result<(), Error>| #[trigger]
                made(t, changes, r, t2) && match r {
                    Ok(_) => end.result()->0 == committed(log.last().x),
                    Err(e) => end.result()->0 == Err::<(), Error>(e),
                },
        },
{
    let begun = Batching::new(changes);
    let ran = log[0];
    assert(batch_runs(begun.step(ran.x), t, log.skip(1), end, t2));
    if ran.x is Ok {
        lemma_turns(begun, t, log.skip(1), end, t2);
        let rest = log.skip(1);
        let r = choose|r: Result<(), Error>| #[trigger]
            made(t, begun.rest, r, t2) && match r {
                Ok(_) => rest.len() > 0 && end.result()->0 == committed(rest.last().x),
                Err(e) => end.result()->0 == Err::<(), Error>(e),
            };
        assert(made(t, changes, r, t2));
    }
}

/// The table that is left behind when the statements in `log` are run: what was changed
/// within the transaction stays once it is committed, and else is undone. `saved` is what
/// is left behind without a commit.
pub open spec fn left_behind(b: Batching, saved: Table, t: Table, log: Seq<Ran>) -> Table
    decreases log.len(), (if b.action() is Discover { 1int } else { 0int }),
{
    match b.action() {
        BatchAct::Done => saved,
        BatchAct::Discover(_) => if b.discovered().action() is Discover {
            saved
        } else {
            left_behind(b.discovered(), saved, t, log)
        },
        BatchAct::Commit => if log.len() == 0 {
            saved
        } else if log[0].x is Ok {
            left_behind(b.step(log[0].x), t, t, log.skip(1))
        } else {
            left_behind(b.step(log[0].x), saved, t, log.skip(1))
        },
        _ => if log.len() == 0 {
            saved
        } else {
            left_behind(b.step(log[0].x), saved, log[0].table, log.skip(1))
        },
    }
}

proof fn lemma_left_behind(
    b: Batching,
    saved: Table,
    t: Table,
    log: Seq<Ran>,
    end: Batching,
    t2: Table,
)
    requires
        batch_runs(b, t, log, end, t2),
        b.stage !is Finished,
    ensures
        left_behind(b, saved, t, log) == (if end.result() matches Some(Ok(_)) {
            t2
        } else {
            saved
        }),
    decreases log.len(), (if b.action() is Discover { 1int } else { 0int }),
{
    reveal_with_fuel(left_behind, 2);
    reveal_with_fuel(batch_runs, 2);
    match b.action() {
        BatchAct::Done => {},
        BatchAct::Discover(_) => {
            let next = b.discovered();
            if next.stage !is Finished {
                lemma_left_behind(next, saved, t, log, end, t2);
            }
        },
        BatchAct::Commit => {
            assert(batch_runs(b.step(log[0].x), t, log.skip(1), end, t2));
        },
        _ => {
            let next = b.step(log[0].x);
            if next.stage !is Finished {
                lemma_left_behind(next, saved, log[0].table, log.skip(1), end, t2);
            } else {
                assert(batch_runs(next, log[0].table, log.skip(1), end, t2));
            }
        },
    }
}

/// A batch is written whole or not at all: where it succeeds, the table that is left behind
/// is that with all changes made, one after the other; where it fails, whatever was done
/// before is undone. A batch without changes leaves the table as it was.
pub proof fn law_batch_whole(
    changes: Seq<Change>,
    t: Table,
    log: Seq<Ran>,
    end: Batching,
    t2: Table,
)
    requires
        sound(t),
        batch_runs(Batching::new(changes), t, log, end, t2),
    ensures
        ({
            let left = left_behind(Batching::new(changes), t, t, log);
            &&& sound(left)
            &&& end.result() matches Some(r)
            &&& r is Ok ==> made(t, changes, Ok(()), left)
            &&& r is Err ==> left == t
            &&& changes.len() == 0 ==> left == t
        }),
{
    law_batch(changes, t, log, end, t2);
    lemma_left_behind(Batching::new(changes), t, t, log, end, t2);
    if log[0].x is Ok {
        let r = choose|r: Result<(), Error>| #[trigger]
            made(t, changes, r, t2) && match r {
                Ok(_) => end.result()->0 == committed(log.last().x),
                Err(e) => end.result()->0 == Err::<(), Error>(e),
            };
        if end.result()->0 is Ok {
            assert(r is Ok);
            assert(r == Ok::<(), Error>(r->Ok_0));
        }
    }
}

} // verus!
