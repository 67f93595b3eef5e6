//! What a move does to the table of files.

use vstd::prelude::*;

use crate::db::table::{
    below, climbs, comes_to, finds, has_fh, is_empty, is_entry, is_entry_with,
    law_requests_keep_sound, lemma_one_entry, lemma_update, lemma_without, sound, without, Row,
    Table,
};
use crate::db::{one_row, Ask, Error, Failure, FailureKind, ROOT_ID};
use crate::watcher::event::Change;
use crate::watcher::task::{writing, Act, Discovering, MoveState, Moving, Spot};

verus! {

/// What a statement came to, and the table after it.
pub struct Ran {
    pub x: Result<i64, Failure>,
    pub table: Table,
}

/// Doing what the move asks for, starting with the table `t`, the statements in `log` are
/// run, and the move ends as `end` with the table `t2`.
pub open spec fn runs(m: Moving, t: Table, log: Seq<Ran>, end: Moving, t2: Table) -> bool
    decreases log.len(), (if m.action() is Discover { 1int } else { 0int }),
{
    match m.action() {
        Act::Done => log.len() == 0 && end == m && t2 == t,
        Act::Discover(_) => m.state is Discover && runs(m.discovered(), t, log, end, t2),
        Act::Run(ask) => {
            &&& log.len() > 0
            &&& comes_to(t, ask, log[0].x, log[0].table)
            &&& runs(m.step(log[0].x), log[0].table, log.skip(1), end, t2)
        },
    }
}

/// A name in a directory that is known.
pub struct Known {
    pub name: Seq<u8>,
    pub p_id: i64,
}

/// `id` is what moves: it is in the place that the move goes from, and has the handle.
pub open spec fn is_source(t: Table, fh: Seq<u8>, from: Option<Known>, id: i64) -> bool {
    from matches Some(from) && is_entry_with(t, fh, from.name, from.p_id, id)
}

/// `id` is in the place that the move goes to, and is not what moves.
pub open spec fn in_the_way(
    t: Table,
    fh: Seq<u8>,
    from: Option<Known>,
    to: Known,
    id: i64,
) -> bool {
    is_entry(t, to.name, to.p_id, id) && !is_source(t, fh, from, id)
}

/// The table without what is in the way of the move.
pub open spec fn cleared(t: Table, fh: Seq<u8>, from: Option<Known>, to: Known) -> Table {
    if exists|id: i64| in_the_way(t, fh, from, to, id) {
        without(t, choose|id: i64| in_the_way(t, fh, from, to, id))
    } else {
        t
    }
}

/// The statement failed because the parent is not there.
pub open spec fn is_orphan(e: Error) -> bool {
    e matches Error::SQLite(failure) && failure.kind == FailureKind::ForeignKey
}

/// A new row in the directory `p_id` can get the identifier `id`.
pub open spec fn is_new(t: Table, p_id: i64, id: i64) -> bool {
    &&& !t.contains_key(id)
    &&& t.contains_key(p_id) || id == p_id
    &&& is_empty(t) ==> id == ROOT_ID
}

/// With nothing in the way, the entry is put in its place.
///
/// What moves keeps its identifier, and all other rows stay as they are. What is new
/// gets an identifier of its own. Where the directory went with what was in the way,
/// nothing can be put there, for a foreign key is broken; only a new row can happen to get
/// the identifier of the directory. It does so in place of the root directory, for the
/// first row of an empty table gets the identifier of the root directory.
pub open spec fn put(
    t: Table,
    fh: Seq<u8>,
    from: Option<Known>,
    to: Known,
    r: Result<(), Error>,
    t2: Table,
) -> bool {
    let row = Row { fh, name: to.name, parent: to.p_id };
    if exists|id: i64| is_source(t, fh, from, id) {
        if t.contains_key(to.p_id) {
            r is Ok && t2 == t.insert(choose|id: i64| is_source(t, fh, from, id), row)
        } else {
            r is Err && is_orphan(r->Err_0) && t2 == t
        }
    } else {
        match r {
            Ok(_) => exists|id: i64| is_new(t, to.p_id, id) && t2 == #[trigger] t.insert(id, row),
            Err(e) => {
                &&& is_orphan(e)
                &&& t2 == t
                &&& !t.contains_key(to.p_id)
                &&& !(is_empty(t) && to.p_id == ROOT_ID)
            },
        }
    }
}

/// What a move does, given the directories that are known: with none known, nothing;
/// with nowhere to go, what moves is removed with all that is below it; else what is in
/// the way is removed with all that is below it, and the entry is put in its place.
pub open spec fn moved(
    t: Table,
    fh: Seq<u8>,
    from: Option<Known>,
    to: Option<Known>,
    r: Result<(), Error>,
    t2: Table,
) -> bool {
    match to {
        None => {
            &&& r is Ok
            &&& if exists|id: i64| is_source(t, fh, from, id) {
                t2 == without(t, choose|id: i64| is_source(t, fh, from, id))
            } else {
                t2 == t
            }
        },
        Some(to) => put(cleared(t, fh, from, to), fh, from, to, r, t2),
    }
}

/// What is known of a place: its directory is the only row with the handle, or there is no
/// such row and nothing is known.
pub open spec fn located(t: Table, spot: Option<Spot>, known: Option<Known>) -> bool {
    match (spot, known) {
        (None, None) => true,
        (None, Some(_)) => false,
        (Some(spot), None) => forall|id: i64| !#[trigger] has_fh(t, spot.p_fh, id),
        (Some(spot), Some(known)) => known.name == spot.name && has_fh(t, spot.p_fh, known.p_id)
            && forall|id: i64| #[trigger] has_fh(t, spot.p_fh, id) ==> id == known.p_id,
    }
}

/// Several rows have the handle of the directory.
pub open spec fn ambiguous(t: Table, spot: Option<Spot>) -> bool {
    spot matches Some(spot) && exists|a: i64, b: i64|
        a != b && #[trigger] has_fh(t, spot.p_fh, a) && #[trigger] has_fh(t, spot.p_fh, b)
}

/// What a move does: it fails without a change to the table where several rows have the
/// handle of a directory that it names; else it does what [`moved`] says, given the
/// directories that are known.
pub open spec fn shifted(
    t: Table,
    fh: Seq<u8>,
    from: Option<Spot>,
    to: Option<Spot>,
    r: Result<(), Error>,
    t2: Table,
) -> bool {
    if ambiguous(t, from) || ambiguous(t, to) {
        r == Err::<(), Error>(Error::ManyFiles) && t2 == t
    } else {
        exists|a: Option<Known>, b: Option<Known>| #[trigger]
            located(t, from, a) && #[trigger] located(t, to, b) && moved(t, fh, a, b, r, t2)
    }
}

/// What a discovery does: it fails without a change to the table unless one row has the
/// handle of the directory; else the entry is added unless there is one already.
pub open spec fn found(
    t: Table,
    fh: Seq<u8>,
    at: Spot,
    r: Result<(), Error>,
    t2: Table,
) -> bool {
    if ambiguous(t, Some(at)) {
        r == Err::<(), Error>(Error::ManyFiles) && t2 == t
    } else if located(t, Some(at), None) {
        r == Err::<(), Error>(Error::NoFile) && t2 == t
    } else {
        exists|dir: Known| #[trigger]
            located(t, Some(at), Some(dir)) && r is Ok && if exists|id: i64|
                is_entry(t, dir.name, dir.p_id, id) {
                t2 == t
            } else {
                exists|id: i64|
                    !t.contains_key(id) && t2 == #[trigger] t.insert(
                        id,
                        Row { fh, name: dir.name, parent: dir.p_id },
                    )
            }
    }
}

/// What is done for a change.
pub open spec fn effect(t: Table, change: Change, r: Result<(), Error>, t2: Table) -> bool {
    match change {
        Change::Create { p_fh, fh, name, .. } => shifted(
            t,
            fh,
            None,
            Some(Spot { name, p_fh }),
            r,
            t2,
        ),
        Change::Delete { p_fh, fh, name, .. } => shifted(
            t,
            fh,
            Some(Spot { name, p_fh }),
            None,
            r,
            t2,
        ),
        Change::Rename { old_p_fh, new_p_fh, fh, old_name, new_name, .. } => shifted(
            t,
            fh,
            Some(Spot { name: old_name, p_fh: old_p_fh }),
            Some(Spot { name: new_name, p_fh: new_p_fh }),
            r,
            t2,
        ),
        Change::Discover { p_fh, fh, name } => found(t, fh, Spot { name, p_fh }, r, t2),
    }
}

/// The place of a move in a directory.
pub open spec fn known(spot: Option<Spot>, p_id: Option<i64>) -> Option<Known> {
    match p_id {
        Some(p_id) => Some(Known { name: spot->0.name, p_id }),
        None => None,
    }
}

/// How many statements it takes at most to write the entry.
spec fn cost(t: Table, m: Moving, from: Option<i64>, to: Option<i64>) -> nat {
    let way = to is Some && exists|id: i64|
        in_the_way(t, m.fh, known(m.from, from), known(m.to, to)->0, id);
    (if from is Some { 1nat } else { 0nat }) + (if way { 3nat } else { 0nat }) + 1
}

/// Writing the entry with nowhere to go.
proof fn lemma_remove(m: Moving, t: Table, log: Seq<Ran>, end: Moving, t2: Table, from: i64)
    requires
        sound(t),
        m.valid(),
        m.state == (MoveState::Write { from: Some(from), to: None }),
        runs(m, t, log, end, t2),
    ensures
        end.state is Finished,
        moved(t, m.fh, known(m.from, Some(from)), None, end.state->Finished_0, t2),
        log.len() == 1,
{
    let ran = log[0];
    let next = m.step(ran.x);
    let source = known(m.from, Some(from));
    let matching = |id: i64| is_entry_with(t, m.fh, m.from->0.name, from, id);
    assert(runs(next, ran.table, log.skip(1), end, t2));
    assert(next.state is Finished);
    if ran.x == Ok::<i64, Failure>(0) {
        assert forall|id: i64| !is_source(t, m.fh, source, id) by {
            assert(!matching(id));
        }
    } else {
        let id = choose|id: i64| #[trigger] matching(id);
        assert(matching(id));
        assert(is_source(t, m.fh, source, id));
        let chosen = choose|id: i64| is_source(t, m.fh, source, id);
        lemma_one_entry(t, m.from->0.name, from, id, chosen);
    }
}

/// Removing who has the name: the entry is written again.
proof fn lemma_drop(
    m: Moving,
    t: Table,
    log: Seq<Ran>,
    end: Moving,
    t2: Table,
    from: Option<i64>,
    to: i64,
    taken: i64,
)
    requires
        sound(t),
        m.state == (MoveState::FindTaken { from, to }),
        is_entry(t, m.to->0.name, to, taken),
        runs(m, t, log, end, t2),
    ensures
        log.len() >= 2,
        runs(
            m.at(MoveState::Write { from, to: Some(to) }),
            without(t, taken),
            log.skip(2),
            end,
            t2,
        ),
{
    let ran = log[0];
    let matching = |id: i64| is_entry(t, m.to->0.name, to, id);
    assert(finds(matching, ran.x));
    assert(matching(taken));
    match ran.x {
        Ok(id) => {
            assert(id == taken);
        },
        Err(failure) => {
            if failure.kind == FailureKind::ManyRows {
                let (a, b) = choose|a: i64, b: i64|
                    a != b && #[trigger] matching(a) && #[trigger] matching(b);
                lemma_one_entry(t, m.to->0.name, to, a, b);
            }
        },
    }
    let next = m.step(ran.x);
    let rest = log.skip(1);
    assert(next == m.at(MoveState::DropTaken { from, to, id: taken }));
    assert(runs(next, t, rest, end, t2));
    let gone = |other: i64| t.contains_key(other) && other == taken;
    assert(gone(taken));
    assert(rest[0].x == Ok::<i64, Failure>(1));
    assert(rest[0].table == without(t, taken));
    assert(rest.skip(1) =~= log.skip(2));
    assert(next.step(rest[0].x) == m.at(MoveState::Write { from, to: Some(to) }));
}

/// Writing the entry with nothing in the way.
proof fn lemma_put(
    m: Moving,
    t: Table,
    log: Seq<Ran>,
    end: Moving,
    t2: Table,
    from: Option<i64>,
    to: i64,
)
    requires
        sound(t),
        m.valid(),
        m.state == (MoveState::Write { from, to: Some(to) }),
        runs(m, t, log, end, t2),
        forall|id: i64|
            !in_the_way(t, m.fh, known(m.from, from), known(m.to, Some(to))->0, id),
    ensures
        end.state is Finished,
        put(t, m.fh, known(m.from, from), known(m.to, Some(to))->0, end.state->Finished_0, t2),
        log.len() <= (if from is Some { 2int } else { 1int }),
    decreases (if from is Some { 1int } else { 0int }),
{
    let ran = log[0];
    let next = m.step(ran.x);
    let rest = log.skip(1);
    let source = known(m.from, from);
    let target = known(m.to, Some(to))->0;
    assert(runs(next, ran.table, rest, end, t2));
    assert(comes_to(t, m.write(from, Some(to)), ran.x, ran.table));
    match from {
        None => {
            assert forall|id: i64| !is_entry(t, target.name, to, id) by {
                assert(!in_the_way(t, m.fh, source, target, id));
            }
            assert forall|id: i64| !is_source(t, m.fh, source, id) by {}
            assert(m.write(from, Some(to)) == (Ask::Create {
                fh: m.fh,
                name: target.name,
                p_id: to,
            }));
        },
        Some(old) => {
            let name = m.from->0.name;
            assert(m.write(from, Some(to)) == (Ask::Update {
                fh: m.fh,
                old_name: name,
                old_p_id: old,
                new_name: target.name,
                new_p_id: to,
            }));
            if forall|id: i64| !#[trigger] is_entry_with(t, m.fh, name, old, id) {
                assert forall|id: i64| !is_source(t, m.fh, source, id) by {
                    assert(!is_entry_with(t, m.fh, name, old, id));
                }
                assert forall|id: i64| !in_the_way(t, m.fh, known(m.from, None), target, id) by {
                    assert(!in_the_way(t, m.fh, source, target, id));
                    assert(!is_source(t, m.fh, source, id));
                }
                lemma_put(next, t, rest, end, t2, None, to);
            } else {
                let id = choose|id: i64| #[trigger] is_entry_with(t, m.fh, name, old, id);
                lemma_update(t, m.fh, name, old, target.name, to, ran.x, ran.table, id);
                assert(is_source(t, m.fh, source, id));
                let chosen = choose|id: i64| is_source(t, m.fh, source, id);
                lemma_one_entry(t, name, old, id, chosen);
                assert forall|other: i64| other != id implies !is_entry(
                    t,
                    target.name,
                    to,
                    other,
                ) by {
                    assert(!in_the_way(t, m.fh, source, target, other));
                    if is_entry(t, target.name, to, other) {
                        lemma_one_entry(t, name, old, id, other);
                    }
                }
            }
        },
    }
}

/// What is left has nothing in the way.
proof fn lemma_cleared(t: Table, fh: Seq<u8>, from: Option<Known>, to: Known, taken: i64)
    requires
        sound(t),
        in_the_way(t, fh, from, to, taken),
    ensures
        cleared(t, fh, from, to) == without(t, taken),
        sound(without(t, taken)),
        forall|id: i64| !in_the_way(without(t, taken), fh, from, to, id),
        forall|id: i64| !is_entry(without(t, taken), to.name, to.p_id, id),
        forall|id: i64| #[trigger]
            is_source(without(t, taken), fh, from, id) ==> is_source(t, fh, from, id),
{
    let chosen = choose|id: i64| in_the_way(t, fh, from, to, id);
    lemma_one_entry(t, to.name, to.p_id, taken, chosen);
    lemma_without(t, taken);
    let t1 = without(t, taken);
    assert forall|id: i64| !is_entry(t1, to.name, to.p_id, id) by {
        if is_entry(t1, to.name, to.p_id, id) {
            assert(t1.contains_key(id));
            lemma_one_entry(t, to.name, to.p_id, taken, id);
        }
    }
    assert forall|id: i64| #[trigger] is_source(t1, fh, from, id) implies is_source(
        t,
        fh,
        from,
        id,
    ) by {
        assert(t1.contains_key(id));
    }
    assert forall|id: i64| !in_the_way(t1, fh, from, to, id) by {
        assert(!is_entry(t1, to.name, to.p_id, id));
    }
}

/// Writing the entry with somewhere to go.
proof fn lemma_write(
    m: Moving,
    t: Table,
    log: Seq<Ran>,
    end: Moving,
    t2: Table,
    from: Option<i64>,
    to: i64,
)
    requires
        sound(t),
        m.valid(),
        m.state == (MoveState::Write { from, to: Some(to) }),
        runs(m, t, log, end, t2),
    ensures
        end.state is Finished,
        moved(t, m.fh, known(m.from, from), known(m.to, Some(to)), end.state->Finished_0, t2),
        log.len() <= cost(t, m, from, Some(to)),
    decreases (if from is Some { 1int } else { 0int }),
{
    let source = known(m.from, from);
    let target = known(m.to, Some(to))->0;
    if exists|id: i64| in_the_way(t, m.fh, source, target, id) {
        let taken = choose|id: i64| in_the_way(t, m.fh, source, target, id);
        let ran = log[0];
        let next = m.step(ran.x);
        let rest = log.skip(1);
        assert(runs(next, ran.table, rest, end, t2));
        assert(comes_to(t, m.write(from, Some(to)), ran.x, ran.table));
        lemma_cleared(t, m.fh, source, target, taken);
        let t1 = without(t, taken);
        if from is Some && forall|id: i64|
            !#[trigger] is_entry_with(t, m.fh, m.from->0.name, from->0, id) {
            assert forall|id: i64| !is_source(t, m.fh, source, id) by {
                assert(!is_entry_with(t, m.fh, m.from->0.name, from->0, id));
            }
            let nowhere = known(m.from, None);
            assert(in_the_way(t, m.fh, nowhere, target, taken));
            lemma_cleared(t, m.fh, nowhere, target, taken);
            lemma_write(next, t, rest, end, t2, None, to);
            assert forall|id: i64| !is_source(t1, m.fh, source, id) by {}
            assert forall|id: i64| !is_source(t1, m.fh, nowhere, id) by {}
        } else {
            if from is Some {
                let name = m.from->0.name;
                assert(m.write(from, Some(to)) == (Ask::Update {
                    fh: m.fh,
                    old_name: name,
                    old_p_id: from->0,
                    new_name: target.name,
                    new_p_id: to,
                }));
                let id = choose|id: i64| #[trigger] is_entry_with(t, m.fh, name, from->0, id);
                lemma_update(t, m.fh, name, from->0, target.name, to, ran.x, ran.table, id);
                assert(is_source(t, m.fh, source, id));
                assert(taken != id && is_entry(t, target.name, to, taken));
            } else {
                assert(m.write(from, Some(to)) == (Ask::Create {
                    fh: m.fh,
                    name: target.name,
                    p_id: to,
                }));
                assert(is_entry(t, target.name, to, taken));
            }
            assert(next.state == (MoveState::FindTaken { from, to }));
            lemma_drop(next, t, rest, end, t2, from, to, taken);
            let again = next.at(MoveState::Write { from, to: Some(to) });
            assert(again == m);
            assert(rest.skip(2) =~= log.skip(3));
            lemma_put(m, t1, rest.skip(2), end, t2, from, to);
        }
    } else {
        lemma_put(m, t, log, end, t2, from, to);
    }
}

/// Writing the entry.
proof fn lemma_writing(
    m: Moving,
    t: Table,
    log: Seq<Ran>,
    end: Moving,
    t2: Table,
    from: Option<i64>,
    to: Option<i64>,
)
    requires
        sound(t),
        m.valid(),
        m.state == writing(from, to),
        runs(m, t, log, end, t2),
    ensures
        end.state is Finished,
        moved(t, m.fh, known(m.from, from), known(m.to, to), end.state->Finished_0, t2),
        log.len() <= 5,
{
    match to {
        Some(to) => lemma_write(m, t, log, end, t2, from, to),
        None => match from {
            Some(from) => lemma_remove(m, t, log, end, t2, from),
            None => {},
        },
    }
}

/// Looking up a directory.
pub proof fn lemma_lookup(t: Table, spot: Spot, x: Result<i64, Failure>)
    requires
        comes_to(t, Ask::GetDirId { fh: spot.p_fh }, x, t),
    ensures
        match one_row(x) {
            Ok(id) => located(t, Some(spot), known(Some(spot), Some(id))),
            Err(Error::NoFile) => located(t, Some(spot), None),
            Err(e) => e == Error::ManyFiles && ambiguous(t, Some(spot)),
        },
{
    let matching = |id: i64| has_fh(t, spot.p_fh, id);
    assert(finds(matching, x));
    match x {
        Ok(id) => {
            assert(matching(id));
            assert forall|other: i64| #[trigger] has_fh(t, spot.p_fh, other) implies other == id by {
                assert(matching(other));
            }
        },
        Err(failure) => {
            if failure.kind == FailureKind::ManyRows {
                let (a, b) = choose|a: i64, b: i64|
                    a != b && #[trigger] matching(a) && #[trigger] matching(b);
                assert(has_fh(t, spot.p_fh, a) && has_fh(t, spot.p_fh, b));
            } else {
                assert forall|id: i64| !#[trigger] has_fh(t, spot.p_fh, id) by {
                    assert(!matching(id));
                }
            }
        },
    }
}

/// Running statements keeps the constraints of the table.
proof fn lemma_runs_sound(m: Moving, t: Table, log: Seq<Ran>, end: Moving, t2: Table)
    requires
        sound(t),
        runs(m, t, log, end, t2),
    ensures
        sound(t2),
    decreases log.len(), (if m.action() is Discover { 1int } else { 0int }),
{
    match m.action() {
        Act::Done => {},
        Act::Discover(_) => lemma_runs_sound(m.discovered(), t, log, end, t2),
        Act::Run(ask) => {
            law_requests_keep_sound(t, ask, log[0].x, log[0].table);
            lemma_runs_sound(m.step(log[0].x), log[0].table, log.skip(1), end, t2);
        },
    }
}

/// Once both directories have been looked up.
proof fn lemma_sought_to(
    m: Moving,
    t: Table,
    log: Seq<Ran>,
    end: Moving,
    t2: Table,
    from: Option<i64>,
    to: Option<i64>,
)
    requires
        sound(t),
        from is Some ==> m.from is Some,
        to is Some ==> m.to is Some,
        runs(m.sought_to(from, to), t, log, end, t2),
    ensures
        end.state is Finished,
        moved(t, m.fh, known(m.from, from), known(m.to, to), end.state->Finished_0, t2),
        log.len() <= 5,
{
    let next = m.sought_to(from, to);
    if next.state is Discover {
        lemma_writing(next.discovered(), t, log, end, t2, from, to);
    } else {
        lemma_writing(next, t, log, end, t2, from, to);
    }
}

/// Once the directory that the move goes from has been looked up.
proof fn lemma_sought_from(
    m: Moving,
    t: Table,
    log: Seq<Ran>,
    end: Moving,
    t2: Table,
    from: Option<i64>,
)
    requires
        sound(t),
        from is Some ==> m.from is Some,
        runs(m.sought_from(from), t, log, end, t2),
    ensures
        end.state is Finished,
        log.len() <= 6,
        if ambiguous(t, m.to) {
            end.state->Finished_0 == Err::<(), Error>(Error::ManyFiles) && t2 == t
        } else {
            exists|to: Option<Known>| #[trigger]
                located(t, m.to, to) && moved(
                    t,
                    m.fh,
                    known(m.from, from),
                    to,
                    end.state->Finished_0,
                    t2,
                )
        },
{
    if m.to is None {
        lemma_sought_to(m, t, log, end, t2, from, None);
        assert(located(t, m.to, known(m.to, None)));
    } else {
        let find = m.sought_from(from);
        let ran = log[0];
        let next = find.step(ran.x);
        assert(find.action() == Act::Run(Ask::GetDirId { fh: m.to->0.p_fh }));
        assert(comes_to(t, Ask::GetDirId { fh: m.to->0.p_fh }, ran.x, ran.table));
        lemma_lookup(t, m.to->0, ran.x);
        match one_row(ran.x) {
            Ok(id) => {
                assert(next == find.sought_to(from, Some(id)));
                lemma_sought_to(find, t, log.skip(1), end, t2, from, Some(id));
                assert(located(t, m.to, known(m.to, Some(id))));
            },
            Err(Error::NoFile) => {
                assert(next == find.sought_to(from, None));
                lemma_sought_to(find, t, log.skip(1), end, t2, from, None);
                assert(located(t, m.to, known(m.to, None)));
            },
            Err(e) => {
                assert(next == find.at(MoveState::Finished(Err(e))));
                assert(runs(next, t, log.skip(1), end, t2));
            },
        }
    }
}

/// What a move does, whatever the table holds. It runs no more than seven statements,
/// however much is below what moves, and does what [`shifted`] says. The constraints of
/// the table are kept.
pub proof fn law_move(
    fh: Seq<u8>,
    from: Option<Spot>,
    to: Option<Spot>,
    is_dir: bool,
    t: Table,
    log: Seq<Ran>,
    end: Moving,
    t2: Table,
)
    requires
        sound(t),
        runs(Moving::new(fh, from, to, is_dir), t, log, end, t2),
    ensures
        end.state is Finished,
        log.len() <= 7,
        sound(t2),
        shifted(t, fh, from, to, end.state->Finished_0, t2),
{
    let begun = Moving::new(fh, from, to, is_dir);
    lemma_runs_sound(begun, t, log, end, t2);
    if from is None {
        let m = Moving { fh, from, to, is_dir, state: MoveState::FindFrom };
        lemma_sought_from(m, t, log, end, t2, None);
        assert(located(t, from, known(from, None)));
    } else {
        let ran = log[0];
        let next = begun.step(ran.x);
        assert(begun.action() == Act::Run(Ask::GetDirId { fh: from->0.p_fh }));
        assert(comes_to(t, Ask::GetDirId { fh: from->0.p_fh }, ran.x, ran.table));
        lemma_lookup(t, from->0, ran.x);
        match one_row(ran.x) {
            Ok(id) => {
                assert(next == begun.sought_from(Some(id)));
                lemma_sought_from(begun, t, log.skip(1), end, t2, Some(id));
                assert(located(t, from, known(from, Some(id))));
                lemma_not_ambiguous(t, from, known(from, Some(id)));
            },
            Err(Error::NoFile) => {
                assert(next == begun.sought_from(None));
                lemma_sought_from(begun, t, log.skip(1), end, t2, None);
                assert(located(t, from, known(from, None)));
                lemma_not_ambiguous(t, from, known(from, None));
            },
            Err(e) => {
                assert(next == begun.at(MoveState::Finished(Err(e))));
                assert(runs(next, t, log.skip(1), end, t2));
            },
        }
    }
}

/// A directory that has been found is not ambiguous.
pub proof fn lemma_not_ambiguous(t: Table, spot: Option<Spot>, known: Option<Known>)
    requires
        located(t, spot, known),
    ensures
        !ambiguous(t, spot),
{
    if ambiguous(t, spot) {
        let (a, b) = choose|a: i64, b: i64|
            a != b && #[trigger] has_fh(t, spot->0.p_fh, a) && #[trigger] has_fh(t, spot->0.p_fh, b);
        assert(has_fh(t, spot->0.p_fh, a));
        assert(has_fh(t, spot->0.p_fh, b));
    }
}

/// Where neither directory is known, a move changes nothing.
pub proof fn law_unknown_directories(t: Table, fh: Seq<u8>, r: Result<(), Error>, t2: Table)
    requires
        moved(t, fh, None, None, r, t2),
    ensures
        r is Ok,
        t2 == t,
{
    assert forall|id: i64| !is_source(t, fh, None, id) by {}
}

/// Once a move has succeeded, the entry is where it went to, and no longer where it came
/// from.
pub proof fn law_moved_entry(
    t: Table,
    fh: Seq<u8>,
    from: Option<Known>,
    to: Option<Known>,
    t2: Table,
)
    requires
        sound(t),
        moved(t, fh, from, to, Ok(()), t2),
    ensures
        to matches Some(to) ==> exists|id: i64|
            is_entry_with(t2, fh, to.name, to.p_id, id),
        from is Some && from != to ==> forall|id: i64| !is_source(t2, fh, from, id),
{
    match to {
        None => {
            if exists|id: i64| is_source(t, fh, from, id) {
                let gone = choose|id: i64| is_source(t, fh, from, id);
                lemma_without(t, gone);
                assert forall|id: i64| !is_source(t2, fh, from, id) by {
                    if is_source(t2, fh, from, id) {
                        assert(t2.contains_key(id));
                        lemma_one_entry(t, from->0.name, from->0.p_id, gone, id);
                    }
                }
            }
        },
        Some(to) => {
            let t1 = cleared(t, fh, from, to);
            let row = Row { fh, name: to.name, parent: to.p_id };
            if exists|id: i64| in_the_way(t, fh, from, to, id) {
                lemma_without(t, choose|id: i64| in_the_way(t, fh, from, to, id));
            }
            let id = if exists|id: i64| is_source(t1, fh, from, id) {
                choose|id: i64| is_source(t1, fh, from, id)
            } else {
                choose|id: i64|
                    !t1.contains_key(id) && (t1.contains_key(to.p_id) || id == to.p_id) && t2
                        == #[trigger] t1.insert(id, row)
            };
            assert(t2 == t1.insert(id, row));
            assert(is_entry_with(t2, fh, to.name, to.p_id, id));
            if from is Some && from != Some(to) {
                assert forall|other: i64| !is_source(t2, fh, from, other) by {
                    if is_source(t2, fh, from, other) && other != id {
                        assert(is_source(t1, fh, from, other));
                        lemma_one_entry(t1, from->0.name, from->0.p_id, id, other);
                    }
                }
            }
        },
    }
}

/// A rename between known directories with nothing in the way changes one row, however
/// much is below it: what moves keeps its identifier and its handle, and all other rows
/// stay as they are.
pub proof fn law_rename_changes_one_row(
    t: Table,
    fh: Seq<u8>,
    from: Known,
    to: Known,
    id: i64,
    r: Result<(), Error>,
    t2: Table,
)
    requires
        sound(t),
        is_source(t, fh, Some(from), id),
        t.contains_key(to.p_id),
        forall|other: i64| !in_the_way(t, fh, Some(from), to, other),
        moved(t, fh, Some(from), Some(to), r, t2),
    ensures
        r is Ok,
        t2.dom() == t.dom(),
        t2[id] == (Row { fh, name: to.name, parent: to.p_id }),
        forall|other: i64| other != id ==> #[trigger] t2[other] == t[other],
{
    let chosen = choose|id: i64| is_source(t, fh, Some(from), id);
    lemma_one_entry(t, from.name, from.p_id, id, chosen);
    assert(t2.dom() =~= t.dom());
}

/// Nothing is below a row that was just added.
proof fn lemma_new_row(t: Table, id: i64, row: Row, other: i64, n: nat)
    requires
        sound(t),
        !t.contains_key(id),
        t.contains_key(other),
    ensures
        !climbs(t.insert(id, row), id, other, n),
    decreases n,
{
    if n > 0 {
        assert(t.contains_key(t[other].parent));
        lemma_new_row(t, id, row, t[other].parent, (n - 1) as nat);
    }
}

/// To create an entry where there is none and delete it again has no net effect.
pub proof fn law_create_delete(
    t: Table,
    fh: Seq<u8>,
    at: Known,
    r1: Result<(), Error>,
    t1: Table,
    r2: Result<(), Error>,
    t2: Table,
)
    requires
        sound(t),
        t.contains_key(at.p_id),
        forall|id: i64| !is_entry(t, at.name, at.p_id, id),
        moved(t, fh, None, Some(at), r1, t1),
        moved(t1, fh, Some(at), None, r2, t2),
    ensures
        r1 is Ok,
        r2 is Ok,
        t2 == t,
{
    let row = Row { fh, name: at.name, parent: at.p_id };
    assert forall|id: i64| !in_the_way(t, fh, None, at, id) by {
        assert(!is_entry(t, at.name, at.p_id, id));
    }
    assert forall|id: i64| !is_source(t, fh, None, id) by {}
    let id = choose|id: i64|
        !t.contains_key(id) && (t.contains_key(at.p_id) || id == at.p_id) && t1
            == #[trigger] t.insert(id, row);
    assert(is_source(t1, fh, Some(at), id));
    assert forall|other: i64| is_source(t1, fh, Some(at), other) implies other == id by {
        if other != id {
            assert(!is_entry(t, at.name, at.p_id, other));
        }
    }
    assert(climbs(t1, id, id, 0));
    assert forall|other: i64| t.contains_key(other) implies !below(t1, id, other) by {
        if below(t1, id, other) {
            let n = choose|n: nat| climbs(t1, id, other, n);
            lemma_new_row(t, id, row, other, n);
        }
    }
    assert(t2 =~= t);
}

/// Doing what the discovery asks for, starting with the table `t`, the statements in `log`
/// are run, and the discovery ends as `end` with the table `t2`.
pub open spec fn explores(
    d: Discovering,
    t: Table,
    log: Seq<Ran>,
    end: Discovering,
    t2: Table,
) -> bool
    decreases log.len(),
{
    match d.action() {
        Act::Run(ask) => {
            &&& log.len() > 0
            &&& comes_to(t, ask, log[0].x, log[0].table)
            &&& explores(d.step(log[0].x), log[0].table, log.skip(1), end, t2)
        },
        _ => log.len() == 0 && end == d && t2 == t,
    }
}

/// What a discovery does, whatever the table holds: it runs no more than two statements,
/// and does what [`found`] says. The constraints of the table are kept.
pub proof fn law_discover(
    fh: Seq<u8>,
    at: Spot,
    t: Table,
    log: Seq<Ran>,
    end: Discovering,
    t2: Table,
)
    requires
        sound(t),
        explores(Discovering::new(fh, at), t, log, end, t2),
    ensures
        end.state is Finished,
        log.len() <= 2,
        sound(t2),
        found(t, fh, at, end.state->Finished_0, t2),
{
    reveal_with_fuel(explores, 3);
    let begun = Discovering::new(fh, at);
    let ran = log[0];
    let next = begun.step(ran.x);
    assert(comes_to(t, Ask::GetDirId { fh: at.p_fh }, ran.x, ran.table));
    lemma_lookup(t, at, ran.x);
    match one_row(ran.x) {
        Ok(p_id) => {
            let dir = Known { name: at.name, p_id };
            lemma_not_ambiguous(t, Some(at), Some(dir));
            assert(has_fh(t, at.p_fh, p_id));
            assert(located(t, Some(at), Some(dir)));
            let rest = log.skip(1);
            let ask = Ask::Create { fh, name: at.name, p_id };
            assert(comes_to(t, ask, rest[0].x, rest[0].table));
            law_requests_keep_sound(t, ask, rest[0].x, rest[0].table);
            assert(explores(next.step(rest[0].x), rest[0].table, rest.skip(1), end, t2));
        },
        Err(Error::NoFile) => {
            lemma_not_ambiguous(t, Some(at), None);
        },
        Err(_) => {},
    }
}

/// What moves is to be discovered exactly if it is a directory that came from a directory
/// that is not known to one that is. It is then added like any other file.
pub proof fn law_discovers(m: Moving, from: Option<i64>, to: Option<i64>)
    requires
        to is Some ==> m.to is Some,
    ensures
        ({
            let next = m.sought_to(from, to);
            if m.is_dir && m.from is Some && from is None && to is Some {
                &&& next.action() == Act::Discover(m.fh)
                &&& next.discovered().action() == Act::Run(
                    Ask::Create { fh: m.fh, name: m.to->0.name, p_id: to->0 },
                )
            } else {
                next.action() !is Discover
            }
        }),
{
}

/// What was discovered once can be discovered again, and nothing changes. Only where a file
/// has the handle of its own directory is that handle ambiguous once the file is there.
pub proof fn law_discovered_twice(
    t: Table,
    fh: Seq<u8>,
    at: Spot,
    t2: Table,
    r: Result<(), Error>,
    t3: Table,
)
    requires
        fh != at.p_fh,
        found(t, fh, at, Ok(()), t2),
        found(t2, fh, at, r, t3),
    ensures
        r is Ok,
        t3 == t2,
{
    let dir = choose|dir: Known| #[trigger]
        located(t, Some(at), Some(dir)) && if exists|id: i64|
            is_entry(t, dir.name, dir.p_id, id) {
            t2 == t
        } else {
            exists|id: i64|
                !t.contains_key(id) && t2 == #[trigger] t.insert(
                    id,
                    Row { fh, name: dir.name, parent: dir.p_id },
                )
        };
    if t2 != t {
        let row = Row { fh, name: dir.name, parent: dir.p_id };
        let id = choose|id: i64| !t.contains_key(id) && t2 == #[trigger] t.insert(id, row);
        assert(is_entry(t2, dir.name, dir.p_id, id));
    }
    assert forall|id: i64| has_fh(t2, at.p_fh, id) <==> #[trigger] has_fh(t, at.p_fh, id) by {}
    assert forall|id: i64| #[trigger] has_fh(t2, at.p_fh, id) implies id == dir.p_id by {
        assert(has_fh(t, at.p_fh, id));
    }
    assert(has_fh(t2, at.p_fh, dir.p_id));
    assert(located(t2, Some(at), Some(dir)));
}

} // verus!
