//! Making sure that the database has the right root directory.

use vstd::prelude::*;

use crate::db;
use crate::db::table::{
    comes_to, finds, has_fh, is_empty, is_entry, law_requests_keep_sound, sound, Row, Table,
};
use crate::db::{added, one_row, Ask, Error, Failure, FailureKind, Request, ROOT_ID};
use crate::file_handle::{FileHan, FileHandle};

verus! {

/// How far it has come.
pub enum RootState {
    /// The root directory is looked up.
    Find,
    /// The root directory is added.
    Create,
    /// Nothing is left to do.
    Finished(Result<(), Error>),
}

/// Makes sure that a directory is the root directory of the database.
pub struct EnsureRoot {
    fh: FileHandle,
    state: RootState,
}

/// The meaning of an [`EnsureRoot`].
pub struct Ensuring {
    pub fh: Seq<u8>,
    pub state: RootState,
}

impl View for EnsureRoot {
    type V = Ensuring;

    closed spec fn view(&self) -> Ensuring {
        Ensuring { fh: self.fh@, state: self.state }
    }
}

/// What it comes to when the directory has the identifier `id`.
pub open spec fn rooted(id: i64) -> RootState {
    if id == ROOT_ID {
        RootState::Finished(Ok(()))
    } else {
        RootState::Finished(Err(Error::BadRoot))
    }
}

impl Ensuring {
    /// It begins.
    pub open spec fn new(fh: Seq<u8>) -> Ensuring {
        Ensuring { fh, state: RootState::Find }
    }

    /// The request to run next, if there is one. The root directory has no name, and is
    /// its own parent.
    pub open spec fn request(self) -> Option<Ask> {
        match self.state {
            RootState::Find => Some(Ask::GetDirId { fh: self.fh }),
            RootState::Create => Some(
                Ask::Create { fh: self.fh, name: Seq::empty(), p_id: ROOT_ID },
            ),
            RootState::Finished(_) => None,
        }
    }

    /// What is left to do once the statement has come to `x`. Where the place of the root
    /// directory is taken, another directory is the root.
    pub open spec fn step(self, x: Result<i64, Failure>) -> Ensuring {
        let state = match self.state {
            RootState::Find => match one_row(x) {
                Ok(id) => rooted(id),
                Err(Error::NoFile) => RootState::Create,
                Err(e) => RootState::Finished(Err(e)),
            },
            RootState::Create => match added(x) {
                Ok(id) => rooted(id),
                Err(Error::NameTaken) => RootState::Finished(Err(Error::BadRoot)),
                Err(e) => RootState::Finished(Err(e)),
            },
            state => state,
        };
        Ensuring { state, ..self }
    }

    /// What it came to, once nothing is left to do.
    pub open spec fn result(self) -> Option<Result<(), Error>> {
        match self.state {
            RootState::Finished(r) => Some(r),
            _ => None,
        }
    }
}

/// What it comes to when the directory has the identifier `id`.
fn root_state(id: i64) -> (r: RootState)
    ensures
        r == rooted(id),
{
    if id == ROOT_ID {
        RootState::Finished(Ok(()))
    } else {
        RootState::Finished(Err(Error::BadRoot))
    }
}

/// Makes sure that the directory with the handle is the root directory.
pub fn ensure_root(fh: &FileHan<'_>) -> (r: EnsureRoot)
    ensures
        r@ == Ensuring::new(fh@),
{
    EnsureRoot { fh: fh.to_owned(), state: RootState::Find }
}

impl EnsureRoot {
    /// The request to run next, if there is one.
    pub fn request(&self) -> (r: Option<Request>)
        ensures
            match r {
                Some(request) => self@.request() == Some(request@),
                None => self@.request() is None,
            },
    {
        match &self.state {
            RootState::Find => Some(db::get_dir_id(&self.fh.deref())),
            RootState::Create => {
                let name: Vec<u8> = Vec::new();
                let request = db::create(&self.fh.deref(), name.as_slice(), ROOT_ID);
                assert(name@ =~= Seq::<u8>::empty());
                Some(request)
            },
            RootState::Finished(_) => None,
        }
    }

    /// Goes on once the statement of the request has come to `x`.
    pub fn step(&mut self, x: Result<i64, Failure>)
        ensures
            final(self)@ == old(self)@.step(x),
    {
        let next: RootState = match &self.state {
            RootState::Find => match db::transform_query_one_err(x) {
                Ok(id) => root_state(id),
                Err(Error::NoFile) => RootState::Create,
                Err(e) => RootState::Finished(Err(e)),
            },
            RootState::Create => match db::transform_create_err(x) {
                Ok(id) => root_state(id),
                Err(Error::NameTaken) => RootState::Finished(Err(Error::BadRoot)),
                Err(e) => RootState::Finished(Err(e)),
            },
            RootState::Finished(_) => {
                return;
            },
        };
        self.state = next;
    }

    /// What it came to, or what is left to do.
    pub fn finish(self) -> (r: Result<Result<(), Error>, EnsureRoot>)
        ensures
            match r {
                Ok(result) => self@.result() == Some(result),
                Err(rest) => self@.result() is None && rest@ == self@,
            },
    {
        let EnsureRoot { fh, state } = self;
        match state {
            RootState::Finished(r) => Ok(r),
            state => Err(EnsureRoot { fh, state }),
        }
    }
}

/// Where nothing is left to be done, the table is as it is; else a request is run.
pub open spec fn goes_on(e: Ensuring, t: Table, x: Result<i64, Failure>, t2: Table) -> bool {
    match e.request() {
        Some(ask) => comes_to(t, ask, x, t2),
        None => t2 == t,
    }
}

/// Making sure of the root directory takes at most two requests, and keeps the constraints
/// of the table.
///
/// Where one row has the handle, it must be the root directory, and nothing changes. Where
/// several have it, that is an error. Where none has it, and there is another root directory,
/// the given one is not the root, and nothing changes. Where there is none, but its
/// identifier is in use, a row is added that is not the root directory, which is an error,
/// too. Else the root directory is added, unless a row of another identifier was tried.
pub proof fn law_ensure_root(
    fh: Seq<u8>,
    t: Table,
    x1: Result<i64, Failure>,
    t1: Table,
    x2: Result<i64, Failure>,
    t2: Table,
)
    requires
        sound(t),
        goes_on(Ensuring::new(fh), t, x1, t1),
        goes_on(Ensuring::new(fh).step(x1), t1, x2, t2),
    ensures
        ({
            let end = Ensuring::new(fh).step(x1).step(x2);
            let row = Row { fh, name: Seq::empty(), parent: ROOT_ID };
            &&& sound(t2)
            &&& end.result() matches Some(r)
            &&& if exists|a: i64, b: i64|
                a != b && #[trigger] has_fh(t, fh, a) && #[trigger] has_fh(t, fh, b) {
                r == Err::<(), Error>(Error::ManyFiles) && t2 == t
            } else if has_fh(t, fh, ROOT_ID) {
                r is Ok && t2 == t
            } else if exists|id: i64| has_fh(t, fh, id) {
                r == Err::<(), Error>(Error::BadRoot) && t2 == t
            } else if exists|id: i64| is_entry(t, Seq::empty(), ROOT_ID, id) {
                r == Err::<(), Error>(Error::BadRoot) && t2 == t
            } else if t.contains_key(ROOT_ID) {
                r == Err::<(), Error>(Error::BadRoot) && exists|id: i64|
                    !t.contains_key(id) && t2 == #[trigger] t.insert(id, row)
            } else {
                match r {
                    Ok(_) => t2 == t.insert(ROOT_ID, row),
                    Err(Error::SQLite(failure)) => {
                        &&& failure.kind == FailureKind::ForeignKey
                        &&& !is_empty(t)
                        &&& t2 == t
                    },
                    Err(_) => false,
                }
            }
        }),
{
    let begun = Ensuring::new(fh);
    let after = begun.step(x1);
    let matching = |id: i64| has_fh(t, fh, id);
    assert(finds(matching, x1));
    match x1 {
        Ok(id) => {
            assert(matching(id));
            assert forall|other: i64| has_fh(t, fh, other) implies other == id by {
                assert(matching(other));
            }
        },
        Err(failure) => {
            if failure.kind == FailureKind::ManyRows {
                let (a, b) = choose|a: i64, b: i64|
                    a != b && #[trigger] matching(a) && #[trigger] matching(b);
                assert(has_fh(t, fh, a) && has_fh(t, fh, b));
            } else {
                assert forall|id: i64| !has_fh(t, fh, id) by {
                    assert(!matching(id));
                }
            }
        },
    }
    if after.request() is Some {
        law_requests_keep_sound(t, after.request()->0, x2, t2);
    }
}

/// In a database without rows the root directory is added, and is the only row; to make
/// sure of it again changes nothing.
pub proof fn law_fresh_root(
    fh: Seq<u8>,
    t: Table,
    x1: Result<i64, Failure>,
    t1: Table,
    x2: Result<i64, Failure>,
    t2: Table,
    x3: Result<i64, Failure>,
    t3: Table,
)
    requires
        is_empty(t),
        goes_on(Ensuring::new(fh), t, x1, t1),
        goes_on(Ensuring::new(fh).step(x1), t1, x2, t2),
        goes_on(Ensuring::new(fh), t2, x3, t3),
    ensures
        Ensuring::new(fh).step(x1).step(x2).result() == Some(Ok::<(), Error>(())),
        t2 == map![ROOT_ID => Row { fh, name: Seq::empty(), parent: ROOT_ID }],
        Ensuring::new(fh).step(x3).result() == Some(Ok::<(), Error>(())),
        t3 == t2,
{
    assert forall|id: i64| !is_entry(t, Seq::empty(), ROOT_ID, id) by {
        assert(!t.contains_key(id));
    }
    assert forall|id: i64| !has_fh(t, fh, id) by {
        assert(!t.contains_key(id));
    }
    assert(!t.contains_key(ROOT_ID));
    assert forall|a: i64| t.contains_key(a) implies t.contains_key(#[trigger] t[a].parent) by {}
    law_ensure_root(fh, t, x1, t1, x2, t2);
    assert(t2 =~= map![ROOT_ID => Row { fh, name: Seq::empty(), parent: ROOT_ID }]);
    let matching = |id: i64| has_fh(t2, fh, id);
    assert(finds(matching, x3));
    assert(matching(ROOT_ID));
    if let Err(failure) = x3 {
        let (a, b) = choose|a: i64, b: i64|
            a != b && #[trigger] matching(a) && #[trigger] matching(b);
        assert(has_fh(t2, fh, a) && has_fh(t2, fh, b));
    }
}

/// Whatever the statements come to, it succeeds just if the directory turns out to have the
/// first identifier; a directory that is not there is added, and every failure is told but
/// that the place of the root directory is taken, which means that another one is the root.
pub proof fn law_root_told(fh: Seq<u8>, x: Result<i64, Failure>)
    ensures
        ({
            let sought = (Ensuring { fh, state: RootState::Find }).step(x);
            let made = (Ensuring { fh, state: RootState::Create }).step(x);
            let told = match x {
                Ok(id) => if id == 1 {
                    Ok(())
                } else {
                    Err(Error::BadRoot)
                },
                Err(failure) => Err(Error::SQLite(failure)),
            };
            &&& x is Ok ==> sought.result() == Some(told) && made.result() == Some(told)
            &&& x matches Err(failure) ==> match failure.kind {
                FailureKind::NoRows => sought.request() == Some(
                    Ask::Create { fh, name: Seq::empty(), p_id: 1 },
                ),
                FailureKind::ManyRows => sought.result() == Some(
                    Err::<(), Error>(Error::ManyFiles),
                ),
                _ => sought.result() == Some(told),
            }
            &&& x matches Err(failure) ==> made.result() == Some(
                if failure.kind is Unique {
                    Err::<(), Error>(Error::BadRoot)
                } else {
                    told
                },
            )
        }),
{
}

} // verus!
