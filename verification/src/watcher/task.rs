//! What is asked of the database for a change, one statement after the other.

use vstd::prelude::*;

use crate::db;
use crate::db::{added, answer, one_row, removed, Ask, Error, Failure, Request};
use crate::file_handle::FileHandle;

verus! {

/// An entry of a directory: its name, and the handle of the directory.
pub struct Place {
    pub name: Vec<u8>,
    pub p_fh: FileHandle,
}

/// The meaning of a [`Place`].
pub struct Spot {
    pub name: Seq<u8>,
    pub p_fh: Seq<u8>,
}

impl View for Place {
    type V = Spot;

    open spec fn view(&self) -> Spot {
        Spot { name: self.name@, p_fh: self.p_fh@ }
    }
}

/// The meaning of a place that may be missing.
pub open spec fn spot(place: Option<Place>) -> Option<Spot> {
    match place {
        Some(place) => Some(place@),
        None => None,
    }
}

/// How far a move has come. `from` and `to` are the directories that it goes from and to,
/// where they are known.
#[allow(inconsistent_fields)]
pub enum MoveState {
    /// The directory that it goes from is looked up.
    FindFrom,
    /// The directory that it goes to is looked up.
    FindTo { from: Option<i64> },
    /// What came from an unknown directory is to be discovered.
    Discover { to: i64 },
    /// The entry is written.
    Write { from: Option<i64>, to: Option<i64> },
    /// The entry that has the name already is looked up.
    FindTaken { from: Option<i64>, to: i64 },
    /// The entry that has the name already is removed.
    DropTaken { from: Option<i64>, to: i64, id: i64 },
    /// Nothing is left to do.
    Finished(Result<(), Error>),
}

/// A file that moves from a place to another. Without a place to go from it is new, and
/// without a place to go to it is gone.
pub struct Move {
    fh: FileHandle,
    from: Option<Place>,
    to: Option<Place>,
    is_dir: bool,
    state: MoveState,
}

/// The meaning of a [`Move`].
pub struct Moving {
    pub fh: Seq<u8>,
    pub from: Option<Spot>,
    pub to: Option<Spot>,
    pub is_dir: bool,
    pub state: MoveState,
}

/// What is to be done next.
pub enum Action {
    /// To run the statement of a request.
    Run(Request),
    /// To have a directory discovered.
    Discover(FileHandle),
    /// Nothing.
    Done,
}

/// The meaning of an [`Action`].
pub enum Act {
    Run(Ask),
    Discover(Seq<u8>),
    Done,
}

impl View for Action {
    type V = Act;

    open spec fn view(&self) -> Act {
        match *self {
            Action::Run(request) => Act::Run(request@),
            Action::Discover(fh) => Act::Discover(fh@),
            Action::Done => Act::Done,
        }
    }
}

impl View for Move {
    type V = Moving;

    closed spec fn view(&self) -> Moving {
        Moving {
            fh: self.fh@,
            from: spot(self.from),
            to: spot(self.to),
            is_dir: self.is_dir,
            state: self.state,
        }
    }
}

/// The state in which the entry is written, given the known directories. With none known
/// there is nothing to do.
pub open spec fn writing(from: Option<i64>, to: Option<i64>) -> MoveState {
    if from is None && to is None {
        MoveState::Finished(Ok(()))
    } else {
        MoveState::Write { from, to }
    }
}

impl Moving {
    /// A move that begins.
    pub open spec fn new(
        fh: Seq<u8>,
        from: Option<Spot>,
        to: Option<Spot>,
        is_dir: bool,
    ) -> Moving {
        let begun = Moving { fh, from, to, is_dir, state: MoveState::FindFrom };
        if from is Some {
            begun
        } else {
            begun.sought_from(None)
        }
    }

    /// The move with another state.
    pub open spec fn at(self, state: MoveState) -> Moving {
        Moving { state, ..self }
    }

    /// The move once the directory that it goes from has been looked up.
    pub open spec fn sought_from(self, from: Option<i64>) -> Moving {
        if self.to is Some {
            self.at(MoveState::FindTo { from })
        } else {
            self.sought_to(from, None)
        }
    }

    /// The move once both directories have been looked up. A directory that came from a
    /// directory that is not known may hold files that are not known.
    pub open spec fn sought_to(self, from: Option<i64>, to: Option<i64>) -> Moving {
        if self.is_dir && self.from is Some && from is None && self.to is Some && to is Some {
            self.at(MoveState::Discover { to: to->0 })
        } else {
            self.at(writing(from, to))
        }
    }

    /// The state is one that the move can be in.
    pub open spec fn valid(self) -> bool {
        match self.state {
            MoveState::FindFrom => self.from is Some,
            MoveState::FindTo { from } => self.to is Some && (from is Some ==> self.from is Some),
            MoveState::Discover { .. } => self.from is Some && self.to is Some,
            MoveState::Write { from, to } => (from is Some || to is Some) && (from is Some
                ==> self.from is Some) && (to is Some ==> self.to is Some),
            MoveState::FindTaken { from, .. } => self.to is Some && (from is Some
                ==> self.from is Some),
            MoveState::DropTaken { from, .. } => self.to is Some && (from is Some
                ==> self.from is Some),
            MoveState::Finished(_) => true,
        }
    }

    /// The request by which the entry is written: with both directories known it is
    /// moved, with one it is removed or added.
    pub open spec fn write(self, from: Option<i64>, to: Option<i64>) -> Ask {
        match (from, to) {
            (Some(old_p_id), Some(new_p_id)) => Ask::Update {
                fh: self.fh,
                old_name: self.from->0.name,
                old_p_id,
                new_name: self.to->0.name,
                new_p_id,
            },
            (Some(p_id), None) => Ask::Delete { fh: self.fh, name: self.from->0.name, p_id },
            (None, Some(p_id)) => Ask::Create { fh: self.fh, name: self.to->0.name, p_id },
            (None, None) => arbitrary(),
        }
    }

    /// What is to be done next.
    pub open spec fn action(self) -> Act {
        match self.state {
            MoveState::FindFrom => Act::Run(Ask::GetDirId { fh: self.from->0.p_fh }),
            MoveState::FindTo { .. } => Act::Run(Ask::GetDirId { fh: self.to->0.p_fh }),
            MoveState::Discover { .. } => Act::Discover(self.fh),
            MoveState::Write { from, to } => Act::Run(self.write(from, to)),
            MoveState::FindTaken { to, .. } => Act::Run(
                Ask::GetDirentId { name: self.to->0.name, p_id: to },
            ),
            MoveState::DropTaken { id, .. } => Act::Run(Ask::DeleteWithId { id }),
            MoveState::Finished(_) => Act::Done,
        }
    }

    /// The move once the statement has come to `x`.
    ///
    /// A directory that is not there is as good as none. A missing source is as good as
    /// none, too. An entry that has the name already gives way.
    pub open spec fn step(self, x: Result<i64, Failure>) -> Moving {
        match self.state {
            MoveState::FindFrom => match one_row(x) {
                Ok(id) => self.sought_from(Some(id)),
                Err(Error::NoFile) => self.sought_from(None),
                Err(e) => self.at(MoveState::Finished(Err(e))),
            },
            MoveState::FindTo { from } => match one_row(x) {
                Ok(id) => self.sought_to(from, Some(id)),
                Err(Error::NoFile) => self.sought_to(from, None),
                Err(e) => self.at(MoveState::Finished(Err(e))),
            },
            MoveState::Write { from, to } => match (answer(self.write(from, to), x), to) {
                (Ok(_), _) => self.at(MoveState::Finished(Ok(()))),
                (Err(Error::NoFile), _) => self.at(writing(None, to)),
                (Err(Error::NameTaken), Some(to)) => self.at(MoveState::FindTaken { from, to }),
                (Err(e), _) => self.at(MoveState::Finished(Err(e))),
            },
            MoveState::FindTaken { from, to } => match one_row(x) {
                Ok(id) => self.at(MoveState::DropTaken { from, to, id }),
                Err(e) => self.at(MoveState::Finished(Err(e))),
            },
            MoveState::DropTaken { from, to, .. } => match removed(x) {
                Ok(_) => self.at(MoveState::Write { from, to: Some(to) }),
                Err(e) => self.at(MoveState::Finished(Err(e))),
            },
            _ => self,
        }
    }

    /// The move once the directory will be discovered.
    pub open spec fn discovered(self) -> Moving {
        match self.state {
            MoveState::Discover { to } => self.at(MoveState::Write { from: None, to: Some(to) }),
            _ => self,
        }
    }
}

/// The state in which the entry is written.
fn write_state(from: Option<i64>, to: Option<i64>) -> (r: MoveState)
    ensures
        r == writing(from, to),
{
    if from.is_none() && to.is_none() {
        MoveState::Finished(Ok(()))
    } else {
        MoveState::Write { from, to }
    }
}

impl Move {
    #[verifier::type_invariant]
    closed spec fn inv(self) -> bool {
        self@.valid()
    }

    /// Begins a move.
    pub fn new(fh: FileHandle, from: Option<Place>, to: Option<Place>, is_dir: bool) -> (r: Self)
        ensures
            r@ == Moving::new(fh@, spot(from), spot(to), is_dir),
    {
        let state = if from.is_some() {
            MoveState::FindFrom
        } else if to.is_some() {
            MoveState::FindTo { from: None }
        } else {
            MoveState::Finished(Ok(()))
        };
        Move { fh, from, to, is_dir, state }
    }

    /// The state once both directories have been looked up.
    fn seek_to(&self, from: Option<i64>, to: Option<i64>) -> (r: MoveState)
        ensures
            self@.at(r) == self@.sought_to(from, to),
    {
        if self.is_dir && self.from.is_some() && from.is_none() && self.to.is_some() {
            if let Some(to) = to {
                return MoveState::Discover { to };
            }
        }
        write_state(from, to)
    }

    /// The state once the directory that the move goes from has been looked up.
    fn seek_from(&self, from: Option<i64>) -> (r: MoveState)
        ensures
            self@.at(r) == self@.sought_from(from),
    {
        if self.to.is_some() {
            MoveState::FindTo { from }
        } else {
            self.seek_to(from, None)
        }
    }

    /// What is to be done next.
    pub fn action(&self) -> (r: Action)
        ensures
            r@ == self@.action(),
    {
        proof {
            use_type_invariant(self);
        }
        match &self.state {
            MoveState::FindFrom => match &self.from {
                Some(place) => Action::Run(db::get_dir_id(&place.p_fh.deref())),
                None => Action::Done,
            },
            MoveState::FindTo { .. } => match &self.to {
                Some(place) => Action::Run(db::get_dir_id(&place.p_fh.deref())),
                None => Action::Done,
            },
            MoveState::Discover { .. } => Action::Discover(self.fh.clone()),
            MoveState::Write { from, to } => match (from, &self.from, to, &self.to) {
                (Some(old_p_id), Some(old), Some(new_p_id), Some(new)) => Action::Run(
                    db::update(
                        &self.fh.deref(),
                        old.name.as_slice(),
                        *old_p_id,
                        new.name.as_slice(),
                        *new_p_id,
                    ),
                ),
                (Some(p_id), Some(old), None, _) => Action::Run(
                    db::delete(&self.fh.deref(), old.name.as_slice(), *p_id),
                ),
                (None, _, Some(p_id), Some(new)) => Action::Run(
                    db::create(&self.fh.deref(), new.name.as_slice(), *p_id),
                ),
                _ => Action::Done,
            },
            MoveState::FindTaken { to, .. } => match &self.to {
                Some(place) => Action::Run(db::get_dirent_id(place.name.as_slice(), *to)),
                None => Action::Done,
            },
            MoveState::DropTaken { id, .. } => Action::Run(db::delete_with_id(*id)),
            MoveState::Finished(_) => Action::Done,
        }
    }

    /// Goes on once the statement of the request has come to `x`.
    pub fn step(&mut self, x: Result<i64, Failure>)
        ensures
            final(self)@ == old(self)@.step(x),
    {
        proof {
            use_type_invariant(&*self);
        }
        let next: MoveState = match &self.state {
            MoveState::FindFrom => match db::transform_query_one_err(x) {
                Ok(id) => self.seek_from(Some(id)),
                Err(Error::NoFile) => self.seek_from(None),
                Err(e) => MoveState::Finished(Err(e)),
            },
            MoveState::FindTo { from } => match db::transform_query_one_err(x) {
                Ok(id) => self.seek_to(*from, Some(id)),
                Err(Error::NoFile) => self.seek_to(*from, None),
                Err(e) => MoveState::Finished(Err(e)),
            },
            MoveState::Write { from, to } => {
                let result = match (from, to) {
                    (Some(_), Some(_)) => db::transform_update_err(x),
                    (Some(_), None) => db::transform_delete_err(x),
                    (None, _) => db::transform_create_err(x),
                };
                match (result, to) {
                    (Ok(_), _) => MoveState::Finished(Ok(())),
                    (Err(Error::NoFile), _) => write_state(None, *to),
                    (Err(Error::NameTaken), Some(to)) => MoveState::FindTaken {
                        from: *from,
                        to: *to,
                    },
                    (Err(e), _) => MoveState::Finished(Err(e)),
                }
            },
            MoveState::FindTaken { from, to } => match db::transform_query_one_err(x) {
                Ok(id) => MoveState::DropTaken { from: *from, to: *to, id },
                Err(e) => MoveState::Finished(Err(e)),
            },
            MoveState::DropTaken { from, to, .. } => match db::transform_delete_err(x) {
                Ok(_) => MoveState::Write { from: *from, to: Some(*to) },
                Err(e) => MoveState::Finished(Err(e)),
            },
            _ => {
                return;
            },
        };
        self.state = next;
    }

    /// Goes on once the directory will be discovered.
    pub fn discovered(&mut self)
        ensures
            final(self)@ == old(self)@.discovered(),
    {
        proof {
            use_type_invariant(&*self);
        }
        let next: MoveState = match &self.state {
            MoveState::Discover { to } => MoveState::Write { from: None, to: Some(*to) },
            _ => {
                return;
            },
        };
        self.state = next;
    }
}

/// How far a discovery has come.
pub enum DiscoverState {
    /// The directory is looked up.
    Find,
    /// The entry is added.
    Create { p_id: i64 },
    /// Nothing is left to do.
    Finished(Result<(), Error>),
}

/// A file that was discovered at a place.
pub struct Discover {
    fh: FileHandle,
    at: Place,
    state: DiscoverState,
}

/// The meaning of a [`Discover`].
pub struct Discovering {
    pub fh: Seq<u8>,
    pub at: Spot,
    pub state: DiscoverState,
}

impl View for Discover {
    type V = Discovering;

    closed spec fn view(&self) -> Discovering {
        Discovering { fh: self.fh@, at: self.at@, state: self.state }
    }
}

impl Discovering {
    /// A discovery that begins.
    pub open spec fn new(fh: Seq<u8>, at: Spot) -> Discovering {
        Discovering { fh, at, state: DiscoverState::Find }
    }

    /// What is to be done next.
    pub open spec fn action(self) -> Act {
        match self.state {
            DiscoverState::Find => Act::Run(Ask::GetDirId { fh: self.at.p_fh }),
            DiscoverState::Create { p_id } => Act::Run(
                Ask::Create { fh: self.fh, name: self.at.name, p_id },
            ),
            DiscoverState::Finished(_) => Act::Done,
        }
    }

    /// The discovery once the statement has come to `x`. An entry that is known already
    /// stays as it is.
    pub open spec fn step(self, x: Result<i64, Failure>) -> Discovering {
        let state = match self.state {
            DiscoverState::Find => match one_row(x) {
                Ok(p_id) => DiscoverState::Create { p_id },
                Err(e) => DiscoverState::Finished(Err(e)),
            },
            DiscoverState::Create { .. } => match added(x) {
                Ok(_) => DiscoverState::Finished(Ok(())),
                Err(Error::NameTaken) => DiscoverState::Finished(Ok(())),
                Err(e) => DiscoverState::Finished(Err(e)),
            },
            state => state,
        };
        Discovering { state, ..self }
    }
}

impl Discover {
    /// Begins a discovery.
    pub fn new(fh: FileHandle, at: Place) -> (r: Self)
        ensures
            r@ == Discovering::new(fh@, at@),
    {
        Discover { fh, at, state: DiscoverState::Find }
    }

    /// What is to be done next.
    pub fn action(&self) -> (r: Action)
        ensures
            r@ == self@.action(),
    {
        match &self.state {
            DiscoverState::Find => Action::Run(db::get_dir_id(&self.at.p_fh.deref())),
            DiscoverState::Create { p_id } => Action::Run(
                db::create(&self.fh.deref(), self.at.name.as_slice(), *p_id),
            ),
            DiscoverState::Finished(_) => Action::Done,
        }
    }

    /// Goes on once the statement of the request has come to `x`.
    pub fn step(&mut self, x: Result<i64, Failure>)
        ensures
            final(self)@ == old(self)@.step(x),
    {
        let next: DiscoverState = match &self.state {
            DiscoverState::Find => match db::transform_query_one_err(x) {
                Ok(p_id) => DiscoverState::Create { p_id },
                Err(e) => DiscoverState::Finished(Err(e)),
            },
            DiscoverState::Create { .. } => match db::transform_create_err(x) {
                Ok(_) => DiscoverState::Finished(Ok(())),
                Err(Error::NameTaken) => DiscoverState::Finished(Ok(())),
                Err(e) => DiscoverState::Finished(Err(e)),
            },
            DiscoverState::Finished(_) => {
                return;
            },
        };
        self.state = next;
    }
}

/// What is done for a change.
pub enum Task {
    Move(Move),
    Discover(Discover),
}

/// The meaning of a [`Task`].
pub enum Doing {
    Move(Moving),
    Discover(Discovering),
}

impl View for Task {
    type V = Doing;

    open spec fn view(&self) -> Doing {
        match *self {
            Task::Move(m) => Doing::Move(m@),
            Task::Discover(d) => Doing::Discover(d@),
        }
    }
}

impl Doing {
    /// What is to be done next.
    pub open spec fn action(self) -> Act {
        match self {
            Doing::Move(m) => m.action(),
            Doing::Discover(d) => d.action(),
        }
    }

    /// The task once the statement has come to `x`.
    pub open spec fn step(self, x: Result<i64, Failure>) -> Doing {
        match self {
            Doing::Move(m) => Doing::Move(m.step(x)),
            Doing::Discover(d) => Doing::Discover(d.step(x)),
        }
    }

    /// The task once the directory will be discovered.
    pub open spec fn discovered(self) -> Doing {
        match self {
            Doing::Move(m) => Doing::Move(m.discovered()),
            Doing::Discover(d) => Doing::Discover(d),
        }
    }

    /// What the task came to, once nothing is left to do.
    pub open spec fn result(self) -> Option<Result<(), Error>> {
        match self {
            Doing::Move(m) => match m.state {
                MoveState::Finished(r) => Some(r),
                _ => None,
            },
            Doing::Discover(d) => match d.state {
                DiscoverState::Finished(r) => Some(r),
                _ => None,
            },
        }
    }
}

impl Task {
    /// What is to be done next.
    pub fn action(&self) -> (r: Action)
        ensures
            r@ == self@.action(),
    {
        match self {
            Task::Move(m) => m.action(),
            Task::Discover(d) => d.action(),
        }
    }

    /// Goes on once the statement of the request has come to `x`.
    pub fn step(self, x: Result<i64, Failure>) -> (r: Task)
        ensures
            r@ == self@.step(x),
    {
        match self {
            Task::Move(m) => {
                let mut m = m;
                m.step(x);
                Task::Move(m)
            },
            Task::Discover(d) => {
                let mut d = d;
                d.step(x);
                Task::Discover(d)
            },
        }
    }

    /// Goes on once the directory will be discovered.
    pub fn discovered(self) -> (r: Task)
        ensures
            r@ == self@.discovered(),
    {
        match self {
            Task::Move(m) => {
                let mut m = m;
                m.discovered();
                Task::Move(m)
            },
            Task::Discover(d) => Task::Discover(d),
        }
    }

    /// What the task came to, or the task itself if something is left to do.
    pub fn finish(self) -> (r: Result<Result<(), Error>, Task>)
        ensures
            match r {
                Ok(result) => self@.result() == Some(result),
                Err(task) => self@.result() is None && task@ == self@,
            },
    {
        match self {
            Task::Move(m) => {
                proof {
                    use_type_invariant(&m);
                }
                let Move { fh, from, to, is_dir, state } = m;
                match state {
                    MoveState::Finished(r) => Ok(r),
                    state => Err(Task::Move(Move { fh, from, to, is_dir, state })),
                }
            },
            Task::Discover(d) => {
                let Discover { fh, at, state } = d;
                match state {
                    DiscoverState::Finished(r) => Ok(r),
                    state => Err(Task::Discover(Discover { fh, at, state })),
                }
            },
        }
    }
}

} // verus!
