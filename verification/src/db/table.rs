//! What the requests do to the table of files.

use vstd::prelude::*;

use crate::db::{answer, Ask, Error, Failure, FailureKind};

verus! {

/// A row of the table of files.
pub struct Row {
    pub fh: Seq<u8>,
    pub name: Seq<u8>,
    pub parent: i64,
}

/// The table of files: rows by their identifiers.
pub type Table = Map<i64, Row>;

/// `id` is the entry `name` of the directory `p_id`.
pub open spec fn is_entry(t: Table, name: Seq<u8>, p_id: i64, id: i64) -> bool {
    t.contains_key(id) && t[id].parent == p_id && t[id].name == name
}

/// `id` has the handle `fh`.
pub open spec fn has_fh(t: Table, fh: Seq<u8>, id: i64) -> bool {
    t.contains_key(id) && t[id].fh == fh
}

/// `id` is the entry `name` of the directory `p_id`, and has the handle `fh`.
pub open spec fn is_entry_with(t: Table, fh: Seq<u8>, name: Seq<u8>, p_id: i64, id: i64) -> bool {
    is_entry(t, name, p_id, id) && has_fh(t, fh, id)
}

/// The table keeps its constraints: no two entries of a directory have one name, and
/// every parent is there.
pub open spec fn sound(t: Table) -> bool {
    &&& forall|a: i64, b: i64|
        t.contains_key(a) && t.contains_key(b) && #[trigger] t[a].parent == #[trigger] t[b].parent
            && t[a].name == t[b].name ==> a == b
    &&& forall|a: i64| t.contains_key(a) ==> t.contains_key(#[trigger] t[a].parent)
}

/// Going up from `id`, `top` is reached within `n` steps.
pub open spec fn climbs(t: Table, top: i64, id: i64, n: nat) -> bool
    decreases n,
{
    id == top || (n > 0 && t.contains_key(id) && climbs(t, top, t[id].parent, (n - 1) as nat))
}

/// `id` is `top`, or somewhere below it.
pub open spec fn below(t: Table, top: i64, id: i64) -> bool {
    exists|n: nat| climbs(t, top, id, n)
}

/// The table without `top` and all that is below it.
pub open spec fn without(t: Table, top: i64) -> Table {
    Map::new(|id: i64| t.contains_key(id) && !below(t, top, id), |id: i64| t[id])
}

/// A statement that wants the identifier of the only row for which `matching` holds
/// comes to `x`.
pub open spec fn finds(matching: spec_fn(i64) -> bool, x: Result<i64, Failure>) -> bool {
    match x {
        Ok(id) => matching(id) && forall|other: i64| #[trigger] matching(other) ==> other == id,
        Err(failure) => if exists|id: i64| #[trigger] matching(id) {
            failure.kind == FailureKind::ManyRows && (exists|a: i64, b: i64|
                a != b && #[trigger] matching(a) && #[trigger] matching(b))
        } else {
            failure.kind == FailureKind::NoRows
        },
    }
}

/// The statement failed because a row has the parent and the name already.
pub open spec fn taken(x: Result<i64, Failure>) -> bool {
    x matches Err(failure) && failure.kind == FailureKind::Unique
}

/// The statement failed because the parent is not there.
pub open spec fn orphaned(x: Result<i64, Failure>) -> bool {
    x matches Err(failure) && failure.kind == FailureKind::ForeignKey
}

/// The table has no rows.
pub open spec fn is_empty(t: Table) -> bool {
    forall|id: i64| !#[trigger] t.contains_key(id)
}

/// The statement of a request can come to `x` and turn the table `t` into `t2`, where
/// nothing fails but for what the table holds. Rows are removed with all that is below
/// them, and a row can be its own parent. Which identifier a new row gets is left open,
/// but for the first row of an empty table, which gets 1.
pub open spec fn comes_to(t: Table, ask: Ask, x: Result<i64, Failure>, t2: Table) -> bool {
    match ask {
        Ask::GetDirId { fh } => t2 == t && finds(|id: i64| has_fh(t, fh, id), x),
        Ask::GetDirentId { name, p_id } => t2 == t && finds(
            |id: i64| is_entry(t, name, p_id, id),
            x,
        ),
        Ask::Create { fh, name, p_id } => {
            if exists|id: i64| is_entry(t, name, p_id, id) {
                taken(x) && t2 == t
            } else {
                match x {
                    Ok(id) => {
                        &&& !t.contains_key(id)
                        &&& is_empty(t) ==> id == 1
                        &&& t.contains_key(p_id) || p_id == id
                        &&& t2 == t.insert(id, Row { fh, name, parent: p_id })
                    },
                    Err(_) => {
                        &&& orphaned(x)
                        &&& !t.contains_key(p_id)
                        &&& !(is_empty(t) && p_id == 1)
                        &&& t2 == t
                    },
                }
            }
        },
        Ask::Delete { fh, name, p_id } => removes(
            t,
            |id: i64| is_entry_with(t, fh, name, p_id, id),
            x,
            t2,
        ),
        Ask::DeleteWithId { id } => removes(
            t,
            |other: i64| t.contains_key(other) && other == id,
            x,
            t2,
        ),
        Ask::Update { fh, old_name, old_p_id, new_name, new_p_id } => {
            if exists|id: i64| is_entry_with(t, fh, old_name, old_p_id, id) {
                let id = choose|id: i64| is_entry_with(t, fh, old_name, old_p_id, id);
                moves(t, id, new_name, new_p_id, x, t2)
            } else {
                x == Ok::<i64, Failure>(0) && t2 == t
            }
        },
    }
}

/// A statement that moves the row `id` to the name `name` of the directory `p_id` comes
/// to `x` and turns the table `t` into `t2`.
pub open spec fn moves(
    t: Table,
    id: i64,
    name: Seq<u8>,
    p_id: i64,
    x: Result<i64, Failure>,
    t2: Table,
) -> bool {
    if exists|other: i64| other != id && is_entry(t, name, p_id, other) {
        taken(x) && t2 == t
    } else if !t.contains_key(p_id) {
        orphaned(x) && t2 == t
    } else {
        x == Ok::<i64, Failure>(1) && t2 == t.insert(id, Row { fh: t[id].fh, name, parent: p_id })
    }
}

/// A statement that removes the rows for which `matching` holds, of which there is at
/// most one, comes to `x` and turns the table `t` into `t2`.
pub open spec fn removes(
    t: Table,
    matching: spec_fn(i64) -> bool,
    x: Result<i64, Failure>,
    t2: Table,
) -> bool {
    if exists|id: i64| #[trigger] matching(id) {
        x == Ok::<i64, Failure>(1) && t2 == without(t, choose|id: i64| #[trigger] matching(id))
    } else {
        x == Ok::<i64, Failure>(0) && t2 == t
    }
}

/// What is left of a sound table is sound.
pub proof fn lemma_without(t: Table, top: i64)
    requires
        sound(t),
    ensures
        sound(without(t, top)),
        !without(t, top).contains_key(top),
        forall|id: i64| #[trigger]
            without(t, top).contains_key(id) ==> t.contains_key(id) && without(t, top)[id] == t[id],
{
    let t2 = without(t, top);
    assert(climbs(t, top, top, 0));
    assert forall|a: i64| t2.contains_key(a) implies t2.contains_key(#[trigger] t2[a].parent) by {
        assert(t.contains_key(a));
        let p = t[a].parent;
        if below(t, top, p) {
            let n = choose|n: nat| climbs(t, top, p, n);
            assert(climbs(t, top, a, n + 1));
        }
    }
}

/// Every request keeps the constraints of the table.
pub proof fn law_requests_keep_sound(t: Table, ask: Ask, x: Result<i64, Failure>, t2: Table)
    requires
        sound(t),
        comes_to(t, ask, x, t2),
    ensures
        sound(t2),
{
    match ask {
        Ask::GetDirId { .. } => {},
        Ask::GetDirentId { .. } => {},
        Ask::Create { fh, name, p_id } => {
            if let Ok(id) = x {
                assert forall|a: i64, b: i64|
                    t2.contains_key(a) && t2.contains_key(b) && #[trigger] t2[a].parent
                        == #[trigger] t2[b].parent && t2[a].name == t2[b].name implies a == b by {
                    if a != b {
                        assert(a != id ==> t.contains_key(a));
                        assert(b != id ==> t.contains_key(b));
                        assert(!is_entry(t, name, p_id, a));
                        assert(!is_entry(t, name, p_id, b));
                    }
                }
            }
        },
        Ask::Delete { fh, name, p_id } => {
            lemma_removes(t, |id: i64| is_entry_with(t, fh, name, p_id, id), x, t2);
        },
        Ask::DeleteWithId { id } => {
            lemma_removes(t, |other: i64| t.contains_key(other) && other == id, x, t2);
        },
        Ask::Update { fh, old_name, old_p_id, new_name, new_p_id } => {
            if x == Ok::<i64, Failure>(1) {
                let id = choose|id: i64| is_entry_with(t, fh, old_name, old_p_id, id);
                assert forall|a: i64, b: i64|
                    t2.contains_key(a) && t2.contains_key(b) && #[trigger] t2[a].parent
                        == #[trigger] t2[b].parent && t2[a].name == t2[b].name implies a == b by {
                    if a != b {
                        assert(t.contains_key(a) && t.contains_key(b));
                        assert(a != id ==> !is_entry(t, new_name, new_p_id, a));
                        assert(b != id ==> !is_entry(t, new_name, new_p_id, b));
                    }
                }
            }
        },
    }
}

/// A name is reported as taken exactly if the directory has another entry of that name.
/// Whatever fails leaves the table as it was.
pub proof fn law_name_taken(t: Table, ask: Ask, x: Result<i64, Failure>, t2: Table)
    requires
        sound(t),
        comes_to(t, ask, x, t2),
    ensures
        answer(ask, x) is Err ==> t2 == t,
        ask matches Ask::Create { name, p_id, .. } ==> (answer(ask, x) == Err::<i64, Error>(
            Error::NameTaken,
        ) <==> exists|id: i64| is_entry(t, name, p_id, id)),
        ask matches Ask::Update { fh, old_name, old_p_id, new_name, new_p_id } ==> (answer(ask, x)
            == Err::<i64, Error>(Error::NameTaken) <==> exists|id: i64, other: i64|
            id != other && #[trigger] is_entry_with(t, fh, old_name, old_p_id, id)
                && #[trigger] is_entry(t, new_name, new_p_id, other)),
{
    if let Ask::Update { fh, old_name, old_p_id, new_name, new_p_id } = ask {
        if exists|id: i64| is_entry_with(t, fh, old_name, old_p_id, id) {
            let source = choose|id: i64| is_entry_with(t, fh, old_name, old_p_id, id);
            assert forall|id: i64| is_entry_with(t, fh, old_name, old_p_id, id) implies id
                == source by {
                lemma_one_entry(t, old_name, old_p_id, id, source);
            }
        }
    }
}

/// No directory has two entries of one name.
pub proof fn lemma_one_entry(t: Table, name: Seq<u8>, p_id: i64, a: i64, b: i64)
    requires
        sound(t),
        is_entry(t, name, p_id, a),
        is_entry(t, name, p_id, b),
    ensures
        a == b,
{
    assert(t[a].parent == t[b].parent);
}

/// Moving an entry that is there moves its row.
pub proof fn lemma_update(
    t: Table,
    fh: Seq<u8>,
    old_name: Seq<u8>,
    old_p_id: i64,
    new_name: Seq<u8>,
    new_p_id: i64,
    x: Result<i64, Failure>,
    t2: Table,
    id: i64,
)
    requires
        sound(t),
        comes_to(t, Ask::Update { fh, old_name, old_p_id, new_name, new_p_id }, x, t2),
        is_entry_with(t, fh, old_name, old_p_id, id),
    ensures
        moves(t, id, new_name, new_p_id, x, t2),
{
    let other = choose|id: i64| is_entry_with(t, fh, old_name, old_p_id, id);
    lemma_one_entry(t, old_name, old_p_id, id, other);
}

proof fn lemma_removes(
    t: Table,
    matching: spec_fn(i64) -> bool,
    x: Result<i64, Failure>,
    t2: Table,
)
    requires
        sound(t),
        removes(t, matching, x, t2),
    ensures
        sound(t2),
{
    if t2 != t {
        lemma_without(t, choose|id: i64| #[trigger] matching(id));
    }
}

} // verus!
