//! From a row to the path of its file.

use vstd::prelude::*;

use crate::db::table::Table;
use crate::db::{Error, Failure, ROOT_ID};

verus! {

/// The statement for the name and the parent of a row.
pub const ENTRY_SQL: &'static str = "SELECT f.name, parent_id FROM files AS f WHERE f.id = ?1";

/// The separator between the names in a path.
pub const SEPARATOR: u8 = 47;

/// The path `path` with `name` below it: `name` alone if it starts at the root of the
/// filesystem, and else both with a separator between them where there is none.
pub open spec fn pushed(path: Seq<u8>, name: Seq<u8>) -> Seq<u8> {
    if name.len() > 0 && name[0] == SEPARATOR {
        name
    } else if path.len() > 0 && path.last() != SEPARATOR {
        path.push(SEPARATOR) + name
    } else {
        path + name
    }
}

/// The path through all names.
pub open spec fn path_through(names: Seq<Seq<u8>>) -> Seq<u8>
    decreases names.len(),
{
    if names.len() == 0 {
        Seq::empty()
    } else {
        pushed(path_through(names.drop_last()), names.last())
    }
}

/// The meaning of a sequence of names.
pub open spec fn names_of(names: Seq<Vec<u8>>) -> Seq<Seq<u8>> {
    names.map_values(|name: Vec<u8>| name@)
}

/// Puts a name below a path.
pub fn push_name(path: &mut Vec<u8>, name: &[u8])
    ensures
        final(path)@ == pushed(old(path)@, name@),
{
    let ghost before = path@;
    if name.len() > 0 && name[0] == SEPARATOR {
        path.clear();
    } else if path.len() > 0 && path[path.len() - 1] != SEPARATOR {
        path.push(SEPARATOR);
    }
    let mut i: usize = 0;
    let ghost start = path@;
    while i < name.len()
        invariant
            i <= name.len(),
            path@ == start + name@.take(i as int),
        decreases name.len() - i,
    {
        path.push(name[i]);
        i += 1;
        assert(name@.take(i as int) =~= name@.take(i - 1).push(name@[i - 1]));
    }
    assert(name@.take(i as int) =~= name@);
    assert(path@ =~= pushed(before, name@));
}

/// How far it has come.
pub enum PathState {
    /// The row with the identifier is looked up.
    Find { id: i64 },
    /// The row below the root directory has been reached, or a lookup failed.
    Finished(Result<(), Error>),
}

/// Goes up from a row to the root directory.
pub struct GetPath {
    /// The names so far, the last one first.
    names: Vec<Vec<u8>>,
    state: PathState,
}

/// The meaning of a [`GetPath`].
pub struct Climbing {
    /// The names so far, in the order of the path.
    pub names: Seq<Seq<u8>>,
    pub state: PathState,
}

impl View for GetPath {
    type V = Climbing;

    closed spec fn view(&self) -> Climbing {
        Climbing { names: names_of(self.names@).reverse(), state: self.state }
    }
}

impl Climbing {
    /// Begins with the row `id`.
    pub open spec fn new(id: i64) -> Climbing {
        Climbing { names: Seq::empty(), state: PathState::Find { id } }
    }

    /// Which row to look up next, if any.
    pub open spec fn wanted(self) -> Option<i64> {
        match self.state {
            PathState::Find { id } => Some(id),
            PathState::Finished(_) => None,
        }
    }

    /// Once the lookup of the name and the parent of the row has come to `x`.
    pub open spec fn step(self, x: Result<(Seq<u8>, i64), Failure>) -> Climbing {
        match (self.state, x) {
            (PathState::Find { .. }, Ok((name, parent))) => Climbing {
                names: seq![name] + self.names,
                state: if parent == ROOT_ID {
                    PathState::Finished(Ok(()))
                } else {
                    PathState::Find { id: parent }
                },
            },
            (PathState::Find { .. }, Err(failure)) => Climbing {
                state: PathState::Finished(Err(Error::SQLite(failure))),
                ..self
            },
            (PathState::Finished(_), _) => self,
        }
    }
}

/// What came of a lookup.
pub open spec fn looked_up(x: Result<(Vec<u8>, i64), Failure>) -> Result<
    (Seq<u8>, i64),
    Failure,
> {
    match x {
        Ok((name, parent)) => Ok((name@, parent)),
        Err(failure) => Err(failure),
    }
}

/// The path of the row `id`.
pub fn get_path(id: i64) -> (r: GetPath)
    ensures
        r@ == Climbing::new(id),
{
    let r = GetPath { names: Vec::new(), state: PathState::Find { id } };
    assert(r@.names =~= Seq::<Seq<u8>>::empty());
    r
}

impl GetPath {
    /// Which row to look up next with [`ENTRY_SQL`], if any.
    pub fn wanted(&self) -> (r: Option<i64>)
        ensures
            r == self@.wanted(),
    {
        match &self.state {
            PathState::Find { id } => Some(*id),
            PathState::Finished(_) => None,
        }
    }

    /// Goes on once the lookup of the name and the parent of the row has come to `x`.
    pub fn step(&mut self, x: Result<(Vec<u8>, i64), Failure>)
        ensures
            final(self)@ == old(self)@.step(looked_up(x)),
    {
        if let PathState::Finished(_) = &self.state {
            return;
        }
        match x {
            Ok((name, parent)) => {
                let ghost before = names_of(self.names@);
                let ghost added = name@;
                self.names.push(name);
                assert(names_of(self.names@) =~= before.push(added));
                assert(before.push(added).reverse() =~= seq![added] + before.reverse());
                self.state = if parent == ROOT_ID {
                    PathState::Finished(Ok(()))
                } else {
                    PathState::Find { id: parent }
                };
            },
            Err(failure) => {
                self.state = PathState::Finished(Err(Error::SQLite(failure)));
            },
        }
    }

    /// The path, with the names in `below` put below it; or why it could not be found.
    /// While rows are still to be looked up there is no answer.
    pub fn finish(self, below: &[Vec<u8>]) -> (r: Option<Result<Vec<u8>, Error>>)
        ensures
            match self@.state {
                PathState::Find { .. } => r is None,
                PathState::Finished(Ok(_)) => r matches Some(Ok(path)) && path@ == path_through(
                    self@.names + names_of(below@),
                ),
                PathState::Finished(Err(e)) => r == Some(Err::<Vec<u8>, Error>(e)),
            },
    {
        let GetPath { names, state } = self;
        let ghost up = names_of(names@);
        let ghost down = names_of(below@);
        match state {
            PathState::Find { .. } => None,
            PathState::Finished(Err(e)) => Some(Err(e)),
            PathState::Finished(Ok(_)) => {
                let mut path: Vec<u8> = Vec::new();
                let mut i: usize = names.len();
                assert(up.reverse().take(0) =~= Seq::<Seq<u8>>::empty());
                while i > 0
                    invariant
                        i <= names.len(),
                        up == names_of(names@),
                        path@ == path_through(up.reverse().take(names.len() - i)),
                    decreases i,
                {
                    i -= 1;
                    push_name(&mut path, names[i].as_slice());
                    let ghost next = up.reverse().take(names.len() - i);
                    assert(next.drop_last() =~= up.reverse().take(names.len() - i - 1));
                    assert(next.last() == names[i as int]@);
                }
                assert(up.reverse().take(names.len() as int) =~= up.reverse());
                assert(up.reverse() + down.take(0) =~= up.reverse());
                let mut j: usize = 0;
                while j < below.len()
                    invariant
                        j <= below.len(),
                        down == names_of(below@),
                        path@ == path_through(up.reverse() + down.take(j as int)),
                    decreases below.len() - j,
                {
                    push_name(&mut path, below[j].as_slice());
                    j += 1;
                    let ghost next = up.reverse() + down.take(j as int);
                    assert(next.drop_last() =~= up.reverse() + down.take(j - 1));
                    assert(next.last() == below[j - 1]@);
                }
                assert(down.take(j as int) =~= down);
                Some(Ok(path))
            },
        }
    }
}

/// The names lead from the root directory to the row `id`.
pub open spec fn leads(t: Table, names: Seq<Seq<u8>>, id: i64) -> bool
    decreases names.len(),
{
    &&& names.len() > 0
    &&& t.contains_key(id)
    &&& names.last() == t[id].name
    &&& if t[id].parent == ROOT_ID {
        names.len() == 1
    } else {
        leads(t, names.drop_last(), t[id].parent)
    }
}

/// Once `n` rows have been looked up in the table.
pub open spec fn climbed(t: Table, c: Climbing, n: nat) -> Climbing
    decreases n,
{
    match c.wanted() {
        Some(id) => if n > 0 && t.contains_key(id) {
            climbed(t, c.step(Ok((t[id].name, t[id].parent))), (n - 1) as nat)
        } else {
            c
        },
        None => c,
    }
}

proof fn lemma_climbed(t: Table, names: Seq<Seq<u8>>, id: i64, so_far: Seq<Seq<u8>>)
    requires
        leads(t, names, id),
    ensures
        climbed(
            t,
            Climbing { names: so_far, state: PathState::Find { id } },
            names.len(),
        ) == (Climbing { names: names + so_far, state: PathState::Finished(Ok(())) }),
    decreases names.len(),
{
    reveal_with_fuel(climbed, 2);
    if t[id].parent == ROOT_ID {
        assert(names =~= seq![t[id].name]);
    } else {
        lemma_climbed(t, names.drop_last(), t[id].parent, seq![t[id].name] + so_far);
        assert(names.drop_last() + (seq![t[id].name] + so_far) =~= names + so_far);
    }
}

/// Where names lead from the root directory to a row, going up from the row finds just
/// these names, with one lookup for each.
pub proof fn law_get_path(t: Table, names: Seq<Seq<u8>>, id: i64)
    requires
        leads(t, names, id),
    ensures
        climbed(t, Climbing::new(id), names.len()) == (Climbing {
            names,
            state: PathState::Finished(Ok(())),
        }),
{
    lemma_climbed(t, names, id, Seq::empty());
    assert(names + Seq::<Seq<u8>>::empty() =~= names);
}

/// A name as files have it.
pub open spec fn is_plain_name(name: Seq<u8>) -> bool {
    name.len() > 0 && !name.contains(SEPARATOR)
}

/// The names with separators between them.
pub open spec fn separated(names: Seq<Seq<u8>>) -> Seq<u8>
    decreases names.len(),
{
    if names.len() == 0 {
        Seq::empty()
    } else if names.len() == 1 {
        names[0]
    } else {
        separated(names.drop_last()).push(SEPARATOR) + names.last()
    }
}

/// The path through names as files have them is the names with separators between them.
pub proof fn law_plain_path(names: Seq<Seq<u8>>)
    requires
        forall|i: int| 0 <= i < names.len() ==> is_plain_name(#[trigger] names[i]),
    ensures
        path_through(names) == separated(names),
    decreases names.len(),
{
    if names.len() > 0 {
        let name = names.last();
        let front = names.drop_last();
        assert(is_plain_name(names[names.len() - 1]));
        assert(name[0] != SEPARATOR) by {
            assert(name.contains(name[0]));
        }
        assert forall|i: int| 0 <= i < front.len() implies is_plain_name(#[trigger] front[i]) by {
            assert(is_plain_name(names[i]));
        }
        law_plain_path(front);
        if front.len() == 0 {
            assert(pushed(Seq::empty(), name) =~= name);
        } else {
            let before = front.last();
            assert(is_plain_name(names[names.len() - 2]));
            assert(before.last() != SEPARATOR) by {
                assert(before.contains(before.last()));
            }
            assert(separated(front).last() == before.last());
        }
    }
}

/// The names of the rows.
pub open spec fn names_at(t: Table, ids: Seq<i64>) -> Seq<Seq<u8>> {
    ids.map_values(|id: i64| t[id].name)
}

/// Where names lead to the first row of a chain, each row the parent of the next, the
/// names with those of the rows after it lead to the last row. So the path of a chain is
/// that of its last file.
pub proof fn law_chain_path(t: Table, names: Seq<Seq<u8>>, ids: Seq<i64>)
    requires
        ids.len() > 0,
        leads(t, names, ids[0]),
        forall|i: int| 0 <= i < ids.len() - 1 ==> #[trigger] ids[i] != ROOT_ID,
        forall|i: int|
            1 <= i < ids.len() ==> t.contains_key(#[trigger] ids[i]) && t[ids[i]].parent == ids[i
                - 1],
    ensures
        leads(t, names + names_at(t, ids.drop_first()), ids.last()),
    decreases ids.len(),
{
    let all = names + names_at(t, ids.drop_first());
    if ids.len() == 1 {
        assert(all =~= names);
    } else {
        let front = ids.drop_last();
        law_chain_path(t, names, front);
        let id = ids.last();
        assert(ids[ids.len() - 1] == id);
        assert(front.last() == ids[ids.len() - 2]);
        assert(front.drop_first() =~= ids.drop_first().drop_last());
        assert(all.drop_last() =~= names + names_at(t, front.drop_first()));
        assert(all.last() == t[id].name);
    }
}

} // verus!
