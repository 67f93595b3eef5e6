//! Finding the files below a directory.
//!
//! A walk opens every file below the directory, which makes fanotify report that it was
//! opened, in one sequence with all other events. Such an event tells neither the
//! directory of the file nor its name, so the walk leaves hints, from which both are
//! reconstructed.

pub mod tours;

use vstd::prelude::*;

use crate::file_handle::{FileHan, FileHandle};
use crate::util;

verus! {

/// What a walk tells about what it does.
#[derive(Debug)]
pub enum Hints {
    /// The directory that the walk begins with was opened.
    Begin,
    /// The entry with the name was opened.
    PushChildren(Vec<u8>),
    /// The walk is done with what it opened last.
    PopChildren,
}

/// The meaning of [`Hints`].
pub enum Hint {
    Begin,
    PushChildren(Seq<u8>),
    PopChildren,
}

impl View for Hints {
    type V = Hint;

    open spec fn view(&self) -> Hint {
        match *self {
            Hints::Begin => Hint::Begin,
            Hints::PushChildren(name) => Hint::PushChildren(name@),
            Hints::PopChildren => Hint::PopChildren,
        }
    }
}

/// Reconstructs where files are that were opened by a walk.
pub struct Reconstructer {
    stack: Vec<FileHandle>,
}

/// The meaning of a sequence of handles.
pub open spec fn handles(stack: Seq<FileHandle>) -> Seq<Seq<u8>> {
    stack.map_values(|fh: FileHandle| fh@)
}

impl View for Reconstructer {
    type V = Seq<Seq<u8>>;

    closed spec fn view(&self) -> Seq<Seq<u8>> {
        handles(self.stack@)
    }
}

/// What the next hint says about a file that was opened.
pub enum Submitted {
    /// The walk began with it.
    Root,
    /// It is the entry with the name of the directory with the handle.
    Entry(FileHandle, Vec<u8>),
    /// Nothing: the hint after it is wanted.
    Again,
}

/// The meaning of a [`Submitted`].
pub enum Place {
    Root,
    Entry(Seq<u8>, Seq<u8>),
    Again,
}

impl View for Submitted {
    type V = Place;

    open spec fn view(&self) -> Place {
        match *self {
            Submitted::Root => Place::Root,
            Submitted::Entry(p_fh, name) => Place::Entry(p_fh@, name@),
            Submitted::Again => Place::Again,
        }
    }
}

/// What a hint says about a file that was opened, given the files that the walk is not
/// done with.
pub open spec fn told(stack: Seq<Seq<u8>>, hint: Hint) -> Place {
    match hint {
        Hint::Begin => Place::Root,
        Hint::PushChildren(name) => Place::Entry(stack.last(), name),
        Hint::PopChildren => Place::Again,
    }
}

/// The files that the walk is not done with, after a hint.
pub open spec fn follow(stack: Seq<Seq<u8>>, hint: Hint, fh: Seq<u8>) -> Seq<Seq<u8>> {
    match hint {
        Hint::Begin => stack.push(fh),
        Hint::PushChildren(_) => stack.push(fh),
        Hint::PopChildren => stack.drop_last(),
    }
}

impl Reconstructer {
    /// No walk has begun.
    pub fn new() -> (r: Self)
        ensures
            r@ == Seq::<Seq<u8>>::empty(),
    {
        let r = Reconstructer { stack: Vec::new() };
        assert(r@ =~= Seq::<Seq<u8>>::empty());
        r
    }

    /// Tells whether the walk is not done with some file.
    pub fn inside(&self) -> (r: bool)
        ensures
            r == (self@.len() > 0),
    {
        self.stack.len() > 0
    }

    /// Takes the next hint to place the file with the handle `fh`.
    pub fn submit(&mut self, hint: Hints, fh: &FileHan<'_>) -> (r: Submitted)
        requires
            hint@ is Begin || old(self)@.len() > 0,
        ensures
            r@ == told(old(self)@, hint@),
            final(self)@ == follow(old(self)@, hint@, fh@),
    {
        let ghost before = self.stack@;
        match hint {
            Hints::Begin => {
                self.stack.push(fh.to_owned());
                assert(self@ =~= handles(before).push(fh@));
                Submitted::Root
            },
            Hints::PushChildren(name) => {
                let parent = self.stack[self.stack.len() - 1].clone();
                self.stack.push(fh.to_owned());
                assert(self@ =~= handles(before).push(fh@));
                Submitted::Entry(parent, name)
            },
            Hints::PopChildren => {
                self.stack.pop();
                assert(self@ =~= handles(before).drop_last());
                Submitted::Again
            },
        }
    }
}

/// Why a file could not be opened.
#[derive(Debug, Clone, Copy, PartialEq, Eq, Structural)]
pub enum Errno {
    /// The file with the handle is gone.
    Stale,
    /// The file is not a directory.
    NotDirectory,
    /// There is no such entry.
    NoEntry,
    /// The entry is a symbolic link.
    Loop,
    /// Anything else.
    Other(i32),
}

/// How far a walk has come. Files that are open are given by their descriptors.
pub enum WalkState {
    /// The directory that the walk begins with is opened.
    OpenRoot,
    /// The hint for it is sent.
    Begin { fd: i32 },
    /// The file is opened as a directory.
    Enter { fd: i32 },
    /// The file, which could not be opened as a directory, is closed.
    CloseFile { fd: i32, result: Result<(), Errno> },
    /// The next entry of the current directory is read.
    Read,
    /// An entry of the current directory is opened.
    Open { name: Vec<u8> },
    /// The hint for the entry is sent.
    Push { name: Vec<u8>, fd: i32 },
    /// The walk is done with what it opened last; the hint for that is sent.
    Pop,
    /// The current directory, in which an entry could not be opened, is closed.
    Abandon { error: Errno },
    /// The current directory, of which all entries were read, is closed.
    CloseDir,
    /// Nothing is left to do.
    Finished(Result<(), Errno>),
}

/// The meaning of a [`WalkState`].
pub enum Walking {
    OpenRoot,
    Begin { fd: i32 },
    Enter { fd: i32 },
    CloseFile { fd: i32, result: Result<(), Errno> },
    Read,
    Open { name: Seq<u8> },
    Push { name: Seq<u8>, fd: i32 },
    Pop,
    Abandon { error: Errno },
    CloseDir,
    Finished(Result<(), Errno>),
}

impl View for WalkState {
    type V = Walking;

    open spec fn view(&self) -> Walking {
        match *self {
            WalkState::OpenRoot => Walking::OpenRoot,
            WalkState::Begin { fd } => Walking::Begin { fd },
            WalkState::Enter { fd } => Walking::Enter { fd },
            WalkState::CloseFile { fd, result } => Walking::CloseFile { fd, result },
            WalkState::Read => Walking::Read,
            WalkState::Open { name } => Walking::Open { name: name@ },
            WalkState::Push { name, fd } => Walking::Push { name: name@, fd },
            WalkState::Pop => Walking::Pop,
            WalkState::Abandon { error } => Walking::Abandon { error },
            WalkState::CloseDir => Walking::CloseDir,
            WalkState::Finished(result) => Walking::Finished(result),
        }
    }
}

/// A walk through all that is below a directory.
pub struct Walk {
    fh: FileHandle,
    /// The directories that are open, the current one last.
    dirs: Vec<i32>,
    state: WalkState,
}

/// The meaning of a [`Walk`].
pub struct Walked {
    pub fh: Seq<u8>,
    pub dirs: Seq<i32>,
    pub state: Walking,
}

impl View for Walk {
    type V = Walked;

    closed spec fn view(&self) -> Walked {
        Walked { fh: self.fh@, dirs: self.dirs@, state: self.state@ }
    }
}

/// What is to be done next.
pub enum WalkAction {
    /// To open the file with the handle; [`Walk::opened`] takes what came of it.
    OpenByHandle(FileHandle),
    /// To open an entry of a directory; [`Walk::opened`] takes what came of it.
    OpenAt(i32, Vec<u8>),
    /// To open a file as a directory; [`Walk::dir_opened`] takes what came of it.
    OpenDir(i32),
    /// To read the name of the next entry of a directory; [`Walk::entry`] takes it.
    ReadDir(i32),
    /// To close a file; then [`Walk::done`].
    Close(i32),
    /// To close a file and what is kept for it as a directory; then [`Walk::done`].
    CloseDir(i32),
    /// To send a hint; then [`Walk::done`].
    Send(Hints),
    /// Nothing.
    Done,
}

/// The meaning of a [`WalkAction`].
pub enum WalkAct {
    OpenByHandle(Seq<u8>),
    OpenAt(i32, Seq<u8>),
    OpenDir(i32),
    ReadDir(i32),
    Close(i32),
    CloseDir(i32),
    Send(Hint),
    Done,
}

impl View for WalkAction {
    type V = WalkAct;

    open spec fn view(&self) -> WalkAct {
        match *self {
            WalkAction::OpenByHandle(fh) => WalkAct::OpenByHandle(fh@),
            WalkAction::OpenAt(fd, name) => WalkAct::OpenAt(fd, name@),
            WalkAction::OpenDir(fd) => WalkAct::OpenDir(fd),
            WalkAction::ReadDir(fd) => WalkAct::ReadDir(fd),
            WalkAction::Close(fd) => WalkAct::Close(fd),
            WalkAction::CloseDir(fd) => WalkAct::CloseDir(fd),
            WalkAction::Send(hint) => WalkAct::Send(hint@),
            WalkAction::Done => WalkAct::Done,
        }
    }
}

/// The directory itself, or the one above it.
pub open spec fn is_dot(name: Seq<u8>) -> bool {
    name == seq![46u8] || name == seq![46u8, 46u8]
}

impl Walked {
    /// The state is one that the walk can be in: there is a current directory where one
    /// is needed, and none is open in the end.
    pub open spec fn valid(self) -> bool {
        match self.state {
            Walking::OpenRoot => self.dirs.len() == 0,
            Walking::Begin { .. } => self.dirs.len() == 0,
            Walking::Enter { .. } => true,
            Walking::CloseFile { .. } => true,
            Walking::Finished(_) => self.dirs.len() == 0,
            _ => self.dirs.len() > 0,
        }
    }

    /// What is to be done next.
    pub open spec fn action(self) -> WalkAct {
        match self.state {
            Walking::OpenRoot => WalkAct::OpenByHandle(self.fh),
            Walking::Begin { .. } => WalkAct::Send(Hint::Begin),
            Walking::Enter { fd } => WalkAct::OpenDir(fd),
            Walking::CloseFile { fd, .. } => WalkAct::Close(fd),
            Walking::Read => WalkAct::ReadDir(self.dirs.last()),
            Walking::Open { name } => WalkAct::OpenAt(self.dirs.last(), name),
            Walking::Push { name, .. } => WalkAct::Send(Hint::PushChildren(name)),
            Walking::Pop => WalkAct::Send(Hint::PopChildren),
            Walking::Abandon { .. } => WalkAct::Close(self.dirs.last()),
            Walking::CloseDir => WalkAct::CloseDir(self.dirs.last()),
            Walking::Finished(_) => WalkAct::Done,
        }
    }

    /// The walk in another state.
    pub open spec fn at(self, state: Walking) -> Walked {
        Walked { state, ..self }
    }

    /// The walk when it is done with what it opened last. What could not be walked
    /// through ends the walk only if the walk began with it.
    pub open spec fn leave(self, result: Result<(), Errno>) -> Walked {
        if self.dirs.len() == 0 {
            self.at(Walking::Finished(result))
        } else {
            self.at(Walking::Pop)
        }
    }

    /// The walk without the current directory.
    pub open spec fn up(self) -> Walked {
        Walked { dirs: self.dirs.drop_last(), ..self }
    }

    /// Once it was tried to open a file. A directory that is gone before the walk begins
    /// is no failure. Entries that are gone and symbolic links are left aside.
    pub open spec fn opened(self, x: Result<i32, Errno>) -> Walked {
        match (self.state, x) {
            (Walking::OpenRoot, Ok(fd)) => self.at(Walking::Begin { fd }),
            (Walking::OpenRoot, Err(Errno::Stale)) => self.at(Walking::Finished(Ok(()))),
            (Walking::OpenRoot, Err(e)) => self.at(Walking::Finished(Err(e))),
            (Walking::Open { name }, Ok(fd)) => self.at(Walking::Push { name, fd }),
            (Walking::Open { .. }, Err(Errno::NoEntry)) => self.at(Walking::Read),
            (Walking::Open { .. }, Err(Errno::Loop)) => self.at(Walking::Read),
            (Walking::Open { .. }, Err(error)) => self.at(Walking::Abandon { error }),
            _ => self,
        }
    }

    /// Once it was tried to open a file as a directory. A file that is none has no
    /// entries.
    pub open spec fn dir_opened(self, x: Result<(), Errno>) -> Walked {
        match (self.state, x) {
            (Walking::Enter { fd }, Ok(_)) => Walked {
                dirs: self.dirs.push(fd),
                state: Walking::Read,
                ..self
            },
            (Walking::Enter { fd }, Err(Errno::NotDirectory)) => self.at(
                Walking::CloseFile { fd, result: Ok(()) },
            ),
            (Walking::Enter { fd }, Err(e)) => self.at(Walking::CloseFile { fd, result: Err(e) }),
            _ => self,
        }
    }

    /// Once the next entry of the current directory was read; `None` after the last one.
    pub open spec fn entry(self, x: Option<Seq<u8>>) -> Walked {
        match (self.state, x) {
            (Walking::Read, Some(name)) => if is_dot(name) {
                self
            } else {
                self.at(Walking::Open { name })
            },
            (Walking::Read, None) => self.at(Walking::CloseDir),
            _ => self,
        }
    }

    /// Once a file was closed or a hint was sent.
    pub open spec fn done(self) -> Walked {
        match self.state {
            Walking::Begin { fd } => self.at(Walking::Enter { fd }),
            Walking::Push { fd, .. } => self.at(Walking::Enter { fd }),
            Walking::Pop => self.at(Walking::Read),
            Walking::CloseFile { result, .. } => self.leave(result),
            Walking::Abandon { error } => self.up().leave(Err(error)),
            Walking::CloseDir => self.up().leave(Ok(())),
            _ => self,
        }
    }
}

/// Tells whether a name is that of the directory itself, or the one above it.
fn holds_dot(name: &Vec<u8>) -> (r: bool)
    ensures
        r == is_dot(name@),
{
    let r = (name.len() == 1 && name[0] == 46u8) || (name.len() == 2 && name[0] == 46u8 && name[1]
        == 46u8);
    proof {
        if r {
            assert(name@ =~= seq![46u8] || name@ =~= seq![46u8, 46u8]);
        }
    }
    r
}

/// Walks through all that is below the directory with the handle.
pub fn walk_fh(fh: &FileHan<'_>) -> (r: Walk)
    ensures
        r@ == (Walked { fh: fh@, dirs: Seq::empty(), state: Walking::OpenRoot }),
{
    Walk { fh: fh.to_owned(), dirs: Vec::new(), state: WalkState::OpenRoot }
}

impl Walk {
    #[verifier::type_invariant]
    closed spec fn inv(self) -> bool {
        self@.valid()
    }

    /// What is to be done next.
    pub fn action(&self) -> (r: WalkAction)
        ensures
            r@ == self@.action(),
    {
        proof {
            use_type_invariant(self);
        }
        match &self.state {
            WalkState::OpenRoot => WalkAction::OpenByHandle(self.fh.clone()),
            WalkState::Begin { .. } => WalkAction::Send(Hints::Begin),
            WalkState::Enter { fd } => WalkAction::OpenDir(*fd),
            WalkState::CloseFile { fd, .. } => WalkAction::Close(*fd),
            WalkState::Read => WalkAction::ReadDir(self.dirs[self.dirs.len() - 1]),
            WalkState::Open { name } => WalkAction::OpenAt(
                self.dirs[self.dirs.len() - 1],
                util::copy_bytes(name.as_slice()),
            ),
            WalkState::Push { name, .. } => WalkAction::Send(
                Hints::PushChildren(util::copy_bytes(name.as_slice())),
            ),
            WalkState::Pop => WalkAction::Send(Hints::PopChildren),
            WalkState::Abandon { .. } => WalkAction::Close(self.dirs[self.dirs.len() - 1]),
            WalkState::CloseDir => WalkAction::CloseDir(self.dirs[self.dirs.len() - 1]),
            WalkState::Finished(_) => WalkAction::Done,
        }
    }

    /// Goes on once it was tried to open a file.
    pub fn opened(self, x: Result<i32, Errno>) -> (r: Self)
        ensures
            r@ == self@.opened(x),
    {
        proof {
            use_type_invariant(&self);
        }
        let Walk { fh, dirs, state } = self;
        let next: WalkState = match (state, x) {
            (WalkState::OpenRoot, Ok(fd)) => WalkState::Begin { fd },
            (WalkState::OpenRoot, Err(Errno::Stale)) => WalkState::Finished(Ok(())),
            (WalkState::OpenRoot, Err(e)) => WalkState::Finished(Err(e)),
            (WalkState::Open { name }, Ok(fd)) => WalkState::Push { name, fd },
            (WalkState::Open { .. }, Err(Errno::NoEntry)) => WalkState::Read,
            (WalkState::Open { .. }, Err(Errno::Loop)) => WalkState::Read,
            (WalkState::Open { .. }, Err(error)) => WalkState::Abandon { error },
            (state, _) => state,
        };
        Walk { fh, dirs, state: next }
    }

    /// Goes on once it was tried to open a file as a directory.
    pub fn dir_opened(self, x: Result<(), Errno>) -> (r: Self)
        ensures
            r@ == self@.dir_opened(x),
    {
        proof {
            use_type_invariant(&self);
        }
        let Walk { fh, dirs, state } = self;
        let mut dirs = dirs;
        let next: WalkState = match (state, x) {
            (WalkState::Enter { fd }, Ok(_)) => {
                dirs.push(fd);
                WalkState::Read
            },
            (WalkState::Enter { fd }, Err(Errno::NotDirectory)) => WalkState::CloseFile {
                fd,
                result: Ok(()),
            },
            (WalkState::Enter { fd }, Err(e)) => WalkState::CloseFile { fd, result: Err(e) },
            (state, _) => state,
        };
        Walk { fh, dirs, state: next }
    }

    /// Goes on once the next entry of the current directory was read; `None` after the
    /// last one.
    pub fn entry(self, x: Option<Vec<u8>>) -> (r: Self)
        ensures
            r@ == self@.entry(
                match x {
                    Some(name) => Some(name@),
                    None => None,
                },
            ),
    {
        proof {
            use_type_invariant(&self);
        }
        let Walk { fh, dirs, state } = self;
        let next: WalkState = match (state, x) {
            (WalkState::Read, Some(name)) => if holds_dot(&name) {
                WalkState::Read
            } else {
                WalkState::Open { name }
            },
            (WalkState::Read, None) => WalkState::CloseDir,
            (state, _) => state,
        };
        Walk { fh, dirs, state: next }
    }

    /// Goes on once a file was closed or a hint was sent.
    pub fn done(self) -> (r: Self)
        ensures
            r@ == self@.done(),
    {
        proof {
            use_type_invariant(&self);
        }
        let Walk { fh, dirs, state } = self;
        let mut dirs = dirs;
        let result: Result<(), Errno> = match state {
            WalkState::Begin { fd } => {
                return Walk { fh, dirs, state: WalkState::Enter { fd } };
            },
            WalkState::Push { fd, .. } => {
                return Walk { fh, dirs, state: WalkState::Enter { fd } };
            },
            WalkState::Pop => {
                return Walk { fh, dirs, state: WalkState::Read };
            },
            WalkState::CloseFile { result, .. } => result,
            WalkState::Abandon { error } => {
                dirs.pop();
                Err(error)
            },
            WalkState::CloseDir => {
                dirs.pop();
                Ok(())
            },
            state => {
                return Walk { fh, dirs, state };
            },
        };
        if dirs.len() == 0 {
            Walk { fh, dirs, state: WalkState::Finished(result) }
        } else {
            Walk { fh, dirs, state: WalkState::Pop }
        }
    }

    /// What the walk came to, once nothing is left to do.
    pub fn result(&self) -> (r: Option<Result<(), Errno>>)
        ensures
            r == (match self@.state {
                Walking::Finished(result) => Some(result),
                _ => None,
            }),
    {
        match &self.state {
            WalkState::Finished(result) => Some(*result),
            _ => None,
        }
    }
}

/// A walk, with the handles of what it opened, and what is reconstructed from its hints.
pub struct Survey {
    pub walk: Walked,
    /// The handles of the directories that are open.
    pub opened: Seq<Seq<u8>>,
    /// The handle of the file that was opened last, or that the walk was done with last.
    pub last: Seq<u8>,
    /// What the reconstruction has on its stack.
    pub stack: Seq<Seq<u8>>,
}

impl Survey {
    /// A walk that begins, with `base` on the stack.
    pub open spec fn new(fh: Seq<u8>, base: Seq<Seq<u8>>) -> Survey {
        Survey {
            walk: Walked { fh, dirs: Seq::empty(), state: Walking::OpenRoot },
            opened: Seq::empty(),
            last: Seq::empty(),
            stack: base,
        }
    }

    /// Whether the walk is not done with the file that was opened last.
    pub open spec fn holds_last(self) -> bool {
        match self.walk.state {
            Walking::Enter { .. } => true,
            Walking::CloseFile { .. } => true,
            Walking::Pop => true,
            _ => false,
        }
    }

    /// The reconstruction has just those files on its stack that the walk is not done
    /// with: the directories that are open, and the file that was opened last. Once the
    /// walk has ended, what it began with may be left.
    pub open spec fn in_step(self, base: Seq<Seq<u8>>) -> bool {
        &&& self.walk.valid()
        &&& self.opened.len() == self.walk.dirs.len()
        &&& match self.walk.state {
            Walking::Finished(_) => self.stack == base || self.stack == base.push(self.last),
            _ => self.stack == base + self.opened + (if self.holds_last() {
                seq![self.last]
            } else {
                Seq::empty()
            }),
        }
    }

    /// After a hint was sent and a file was closed. `fh` is the handle of the file that
    /// was opened before the hint was sent, if any was.
    pub open spec fn done(self, fh: Seq<u8>) -> Survey {
        let walk = self.walk.done();
        match self.walk.state {
            Walking::Begin { .. } => Survey {
                walk,
                last: fh,
                stack: follow(self.stack, Hint::Begin, fh),
                ..self
            },
            Walking::Push { name, .. } => Survey {
                walk,
                last: fh,
                stack: follow(self.stack, Hint::PushChildren(name), fh),
                ..self
            },
            Walking::Pop => Survey {
                walk,
                stack: follow(self.stack, Hint::PopChildren, fh),
                ..self
            },
            Walking::Abandon { .. } => Survey {
                walk,
                last: self.opened.last(),
                opened: self.opened.drop_last(),
                ..self
            },
            Walking::CloseDir => Survey {
                walk,
                last: self.opened.last(),
                opened: self.opened.drop_last(),
                ..self
            },
            _ => Survey { walk, ..self },
        }
    }

    /// After it was tried to open a file.
    pub open spec fn opened(self, x: Result<i32, Errno>) -> Survey {
        Survey { walk: self.walk.opened(x), ..self }
    }

    /// After it was tried to open a file as a directory.
    pub open spec fn dir_opened(self, x: Result<(), Errno>) -> Survey {
        Survey {
            walk: self.walk.dir_opened(x),
            opened: if self.walk.state is Enter && x is Ok {
                self.opened.push(self.last)
            } else {
                self.opened
            },
            ..self
        }
    }

    /// After an entry was read.
    pub open spec fn entry(self, x: Option<Seq<u8>>) -> Survey {
        Survey { walk: self.walk.entry(x), ..self }
    }
}

/// The reconstruction is in step with the walk when it begins.
pub proof fn law_walk_begins_in_step(fh: Seq<u8>, base: Seq<Seq<u8>>)
    ensures
        Survey::new(fh, base).in_step(base),
{
    let s = Survey::new(fh, base);
    assert(s.stack =~= base + s.opened + Seq::<Seq<u8>>::empty());
}

/// The reconstruction stays in step with the walk, whatever the walk meets.
pub proof fn law_walk_stays_in_step(
    s: Survey,
    base: Seq<Seq<u8>>,
    fh: Seq<u8>,
    fd: Result<i32, Errno>,
    dir: Result<(), Errno>,
    name: Option<Seq<u8>>,
)
    requires
        s.in_step(base),
    ensures
        s.opened(fd).in_step(base),
        s.dir_opened(dir).in_step(base),
        s.entry(name).in_step(base),
        s.done(fh).in_step(base),
{
    let none = Seq::<Seq<u8>>::empty();
    assert(base + none + none =~= base);
    if s.walk.state is Enter && dir is Ok {
        let next = s.dir_opened(dir);
        assert(next.stack =~= base + next.opened + none);
    }
    let next = s.done(fh);
    match s.walk.state {
        Walking::Begin { .. } => {
            assert(next.stack =~= base + next.opened + seq![fh]);
        },
        Walking::Push { .. } => {
            assert(next.stack =~= base + next.opened + seq![fh]);
        },
        Walking::Pop => {
            assert(next.stack =~= base + next.opened + none);
        },
        Walking::CloseFile { .. } => {
            if s.walk.dirs.len() == 0 {
                assert(s.opened =~= none);
                assert(next.stack =~= base.push(next.last));
            }
        },
        Walking::Abandon { .. } => {
            lemma_up(s, base);
        },
        Walking::CloseDir => {
            lemma_up(s, base);
        },
        _ => {},
    }
}

/// Without the current directory, it is what the walk was done with last.
proof fn lemma_up(s: Survey, base: Seq<Seq<u8>>)
    requires
        s.in_step(base),
        s.walk.state is Abandon || s.walk.state is CloseDir,
    ensures
        s.done(arbitrary()).in_step(base),
{
    let next = s.done(arbitrary());
    assert(s.stack =~= base + s.opened);
    assert(s.opened =~= s.opened.drop_last().push(s.opened.last()));
    if next.walk.dirs.len() == 0 {
        assert(next.stack =~= base.push(next.last));
    } else {
        assert(next.stack =~= base + next.opened + seq![next.last]);
    }
}

/// While the reconstruction is in step with the walk, a file is reported as an entry of
/// the directory in which the walk found it, and the stack never bottoms out.
pub proof fn law_reconstructed(s: Survey, base: Seq<Seq<u8>>, hint: Hint)
    requires
        s.in_step(base),
        s.walk.action() == WalkAct::Send(hint),
    ensures
        hint is Begin || s.stack.len() > 0,
        hint matches Hint::PushChildren(name) ==> s.opened.len() > 0 && told(s.stack, hint)
            == Place::Entry(s.opened.last(), name),
{
}

} // verus!
