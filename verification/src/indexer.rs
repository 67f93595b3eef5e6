//! Adding all files of a filesystem to the database.

use vstd::prelude::*;
use vstd::string::*;

use crate::db;
use crate::db::table::{
    comes_to, finds, has_fh, is_entry, law_requests_keep_sound, sound, Row, Table,
};
use crate::db::{added, error_text, one_row, Ask, Error, Failure, Request};
use crate::file_handle::FileHandle;
use crate::text::{between, decode_lossy, utf8_lossy};
use crate::util;

verus! {

/// A path, its parent and its last name, where it has them.
pub struct IndexedPath {
    pub path: Vec<u8>,
    pub parent: Option<Vec<u8>>,
    pub filename: Option<Vec<u8>>,
}

/// The meaning of an [`IndexedPath`].
pub struct Indexed {
    pub path: Seq<u8>,
    pub parent: Option<Seq<u8>>,
    pub filename: Option<Seq<u8>>,
}

/// The meaning of bytes that may be missing.
pub open spec fn bytes_of(bytes: Option<Vec<u8>>) -> Option<Seq<u8>> {
    match bytes {
        Some(bytes) => Some(bytes@),
        None => None,
    }
}

impl View for IndexedPath {
    type V = Indexed;

    open spec fn view(&self) -> Indexed {
        Indexed {
            path: self.path@,
            parent: bytes_of(self.parent),
            filename: bytes_of(self.filename),
        }
    }
}

/// How far it has come.
pub enum IndexState {
    /// The handle of the file is looked for.
    GetFh,
    /// The handle of the directory is looked for.
    GetParentFh { fh: FileHandle },
    /// The directory is looked up in the database.
    FindParent { fh: FileHandle, p_fh: FileHandle },
    /// The entry is added.
    Create { fh: FileHandle, p_id: i64 },
    /// Nothing is left to do; why it failed, if it did.
    Finished(Result<(), String>),
}

/// The meaning of an [`IndexState`].
pub enum Stage {
    GetFh,
    GetParentFh { fh: Seq<u8> },
    FindParent { fh: Seq<u8>, p_fh: Seq<u8> },
    Create { fh: Seq<u8>, p_id: i64 },
    Finished(Result<(), Seq<char>>),
}

/// What it came to.
pub open spec fn outcome(r: Result<(), String>) -> Result<(), Seq<char>> {
    match r {
        Ok(_) => Ok(()),
        Err(text) => Err(text@),
    }
}

impl View for IndexState {
    type V = Stage;

    open spec fn view(&self) -> Stage {
        match *self {
            IndexState::GetFh => Stage::GetFh,
            IndexState::GetParentFh { fh } => Stage::GetParentFh { fh: fh@ },
            IndexState::FindParent { fh, p_fh } => Stage::FindParent { fh: fh@, p_fh: p_fh@ },
            IndexState::Create { fh, p_id } => Stage::Create { fh: fh@, p_id },
            IndexState::Finished(r) => Stage::Finished(outcome(r)),
        }
    }
}

/// Adds the file at a path to the database.
pub struct IndexPath {
    at: IndexedPath,
    state: IndexState,
}

/// The meaning of an [`IndexPath`].
pub struct Indexing {
    pub at: Indexed,
    pub stage: Stage,
}

impl View for IndexPath {
    type V = Indexing;

    closed spec fn view(&self) -> Indexing {
        Indexing { at: self.at@, stage: self.state@ }
    }
}

/// What is to be done next.
pub enum IndexAction {
    /// To get the handle of the file at a path; [`IndexPath::handle`] takes it.
    GetFh(Vec<u8>),
    /// To run the statement of a request; [`IndexPath::step`] takes what came of it.
    Run(Request),
    /// Nothing.
    Done,
}

/// The meaning of an [`IndexAction`].
pub enum IndexAct {
    GetFh(Seq<u8>),
    Run(Ask),
    Done,
}

impl View for IndexAction {
    type V = IndexAct;

    open spec fn view(&self) -> IndexAct {
        match *self {
            IndexAction::GetFh(path) => IndexAct::GetFh(path@),
            IndexAction::Run(request) => IndexAct::Run(request@),
            IndexAction::Done => IndexAct::Done,
        }
    }
}

/// A failure at a path.
pub open spec fn failure_at(what: Seq<char>, path: Seq<u8>) -> Seq<char> {
    what + " `"@ + utf8_lossy(path) + "`"@
}

/// Writes down a failure at a path.
fn write_failure(what: &str, path: &[u8]) -> (r: String)
    ensures
        r@ == failure_at(what@, path@),
{
    let quoted = between(" `", decode_lossy(path).as_str(), "`");
    let mut r = String::from_str(what);
    r.append(quoted.as_str());
    assert(r@ =~= failure_at(what@, path@));
    r
}

impl Indexing {
    /// Begins with a path. A path without a parent or a last name cannot be indexed.
    pub open spec fn new(at: Indexed) -> Indexing {
        let stage = if at.parent is None {
            Stage::Finished(Err(failure_at("Failed to get parent of path"@, at.path)))
        } else if at.filename is None {
            Stage::Finished(Err(failure_at("Failed to get filename of path"@, at.path)))
        } else {
            Stage::GetFh
        };
        Indexing { at, stage }
    }

    /// The stage is one that can be reached.
    pub open spec fn valid(self) -> bool {
        self.stage is Finished || (self.at.parent is Some && self.at.filename is Some)
    }

    /// At another stage.
    pub open spec fn to(self, stage: Stage) -> Indexing {
        Indexing { stage, ..self }
    }

    /// What is to be done next.
    pub open spec fn action(self) -> IndexAct {
        match self.stage {
            Stage::GetFh => IndexAct::GetFh(self.at.path),
            Stage::GetParentFh { .. } => IndexAct::GetFh(self.at.parent->0),
            Stage::FindParent { p_fh, .. } => IndexAct::Run(Ask::GetDirId { fh: p_fh }),
            Stage::Create { fh, p_id } => IndexAct::Run(
                Ask::Create { fh, name: self.at.filename->0, p_id },
            ),
            Stage::Finished(_) => IndexAct::Done,
        }
    }

    /// Once the handle was looked for.
    pub open spec fn handle(self, fh: Option<Seq<u8>>) -> Indexing {
        match (self.stage, fh) {
            (Stage::GetFh, Some(fh)) => self.to(Stage::GetParentFh { fh }),
            (Stage::GetFh, None) => self.to(
                Stage::Finished(Err(failure_at("Failed to get file handle of"@, self.at.path))),
            ),
            (Stage::GetParentFh { fh }, Some(p_fh)) => self.to(Stage::FindParent { fh, p_fh }),
            (Stage::GetParentFh { .. }, None) => self.to(
                Stage::Finished(
                    Err(failure_at("Failed to get file handle of"@, self.at.parent->0)),
                ),
            ),
            _ => self,
        }
    }

    /// Once the statement has come to `x`. An entry that is there already stays as it is.
    pub open spec fn step(self, x: Result<i64, Failure>) -> Indexing {
        match self.stage {
            Stage::FindParent { fh, .. } => match one_row(x) {
                Ok(p_id) => self.to(Stage::Create { fh, p_id }),
                Err(_) => self.to(
                    Stage::Finished(
                        Err(failure_at("Failed to get database ID of"@, self.at.parent->0)),
                    ),
                ),
            },
            Stage::Create { .. } => match added(x) {
                Ok(_) => self.to(Stage::Finished(Ok(()))),
                Err(Error::NameTaken) => self.to(Stage::Finished(Ok(()))),
                Err(e) => self.to(Stage::Finished(Err(error_text(e)))),
            },
            _ => self,
        }
    }
}

/// Adds the file at a path to the database.
pub fn index_path(at: IndexedPath) -> (r: IndexPath)
    ensures
        r@ == Indexing::new(at@),
{
    let state = if at.parent.is_none() {
        IndexState::Finished(Err(write_failure("Failed to get parent of path", at.path.as_slice())))
    } else if at.filename.is_none() {
        IndexState::Finished(
            Err(write_failure("Failed to get filename of path", at.path.as_slice())),
        )
    } else {
        IndexState::GetFh
    };
    IndexPath { at, state }
}

/// The bytes, or none where they are missing.
fn present(bytes: &Option<Vec<u8>>) -> (r: &[u8])
    requires
        *bytes is Some,
    ensures
        r@ == (*bytes)->0@,
{
    match bytes {
        Some(bytes) => bytes.as_slice(),
        None => &[],
    }
}

impl IndexPath {
    #[verifier::type_invariant]
    closed spec fn inv(self) -> bool {
        self@.valid()
    }

    /// What is to be done next.
    pub fn action(&self) -> (r: IndexAction)
        ensures
            r@ == self@.action(),
    {
        proof {
            use_type_invariant(self);
        }
        match &self.state {
            IndexState::GetFh => IndexAction::GetFh(util::copy_bytes(self.at.path.as_slice())),
            IndexState::GetParentFh { .. } => IndexAction::GetFh(
                util::copy_bytes(present(&self.at.parent)),
            ),
            IndexState::FindParent { p_fh, .. } => IndexAction::Run(
                db::get_dir_id(&p_fh.deref()),
            ),
            IndexState::Create { fh, p_id } => IndexAction::Run(
                db::create(&fh.deref(), present(&self.at.filename), *p_id),
            ),
            IndexState::Finished(_) => IndexAction::Done,
        }
    }

    /// Goes on once the handle was looked for.
    pub fn handle(self, fh: Option<FileHandle>) -> (r: Self)
        ensures
            r@ == self@.handle(
                match fh {
                    Some(fh) => Some(fh@),
                    None => None,
                },
            ),
    {
        proof {
            use_type_invariant(&self);
        }
        let IndexPath { at, state } = self;
        let next: IndexState = match (state, fh) {
            (IndexState::GetFh, Some(fh)) => IndexState::GetParentFh { fh },
            (IndexState::GetFh, None) => IndexState::Finished(
                Err(write_failure("Failed to get file handle of", at.path.as_slice())),
            ),
            (IndexState::GetParentFh { fh }, Some(p_fh)) => IndexState::FindParent { fh, p_fh },
            (IndexState::GetParentFh { .. }, None) => IndexState::Finished(
                Err(write_failure("Failed to get file handle of", present(&at.parent))),
            ),
            (state, _) => state,
        };
        IndexPath { at, state: next }
    }

    /// Goes on once the statement of the request has come to `x`.
    pub fn step(self, x: Result<i64, Failure>) -> (r: Self)
        ensures
            r@ == self@.step(x),
    {
        proof {
            use_type_invariant(&self);
        }
        let IndexPath { at, state } = self;
        let next: IndexState = match state {
            IndexState::FindParent { fh, .. } => match db::transform_query_one_err(x) {
                Ok(p_id) => IndexState::Create { fh, p_id },
                Err(_) => IndexState::Finished(
                    Err(write_failure("Failed to get database ID of", present(&at.parent))),
                ),
            },
            IndexState::Create { .. } => match db::transform_create_err(x) {
                Ok(_) => IndexState::Finished(Ok(())),
                Err(Error::NameTaken) => IndexState::Finished(Ok(())),
                Err(e) => IndexState::Finished(Err(e.message())),
            },
            state => state,
        };
        IndexPath { at, state: next }
    }

    /// What it came to, or what is left to do.
    pub fn finish(self) -> (r: Result<Result<(), String>, IndexPath>)
        ensures
            match r {
                Ok(result) => self@.stage == Stage::Finished(outcome(result)),
                Err(rest) => self@.stage !is Finished && rest@ == self@,
            },
    {
        proof {
            use_type_invariant(&self);
        }
        let IndexPath { at, state } = self;
        match state {
            IndexState::Finished(r) => Ok(r),
            state => Err(IndexPath { at, state }),
        }
    }
}

/// What was met on a walk through the filesystem.
#[derive(Debug, Clone, Copy, PartialEq, Eq, Structural)]
pub enum Visit {
    /// Something that could not be read.
    Unreadable,
    /// The directory that the walk began with.
    Root,
    /// A file.
    Entry,
}

/// What to do about it.
#[derive(Debug, Clone, Copy, PartialEq, Eq, Structural)]
pub struct Steps {
    /// To add the file.
    pub index: bool,
    /// To report how far the walk has come.
    pub report: bool,
    /// To commit the transaction, and begin another one.
    pub commit: bool,
}

/// What to do about what was met after `i` others: files are added, every thousandth is
/// reported, and the transaction is committed at every ten thousandth.
pub fn index(i: usize, visit: Visit) -> (r: Steps)
    ensures
        r.index == (visit == Visit::Entry),
        r.report == (visit == Visit::Entry && i % 1000 == 0),
        r.commit == (visit == Visit::Entry && i % 10000 == 0),
{
    match visit {
        Visit::Entry => Steps { index: true, report: i % 1000 == 0, commit: i % 10000 == 0 },
        _ => Steps { index: false, report: false, commit: false },
    }
}

/// Where the directory of a file is known, the file is in the database once it was
/// indexed, and indexing succeeds. The constraints of the table are kept.
pub proof fn law_index_path(
    at: Indexed,
    fh: Seq<u8>,
    p_fh: Seq<u8>,
    t: Table,
    p_id: i64,
    x1: Result<i64, Failure>,
    x2: Result<i64, Failure>,
    t2: Table,
)
    requires
        sound(t),
        at.parent is Some,
        at.filename is Some,
        has_fh(t, p_fh, p_id),
        forall|id: i64| #[trigger] has_fh(t, p_fh, id) ==> id == p_id,
        comes_to(t, Ask::GetDirId { fh: p_fh }, x1, t),
        comes_to(t, Ask::Create { fh, name: at.filename->0, p_id }, x2, t2),
    ensures
        ({
            let found = Indexing::new(at).handle(Some(fh)).handle(Some(p_fh)).step(x1);
            &&& found.action() == IndexAct::Run(Ask::Create { fh, name: at.filename->0, p_id })
            &&& found.step(x2).stage == Stage::Finished(Ok(()))
        }),
        sound(t2),
        exists|id: i64| is_entry(t2, at.filename->0, p_id, id),
{
    let matching = |id: i64| has_fh(t, p_fh, id);
    assert(finds(matching, x1));
    assert(matching(p_id));
    match x1 {
        Ok(id) => {
            assert(matching(id));
        },
        Err(_) => {
            let (a, b) = choose|a: i64, b: i64|
                a != b && #[trigger] matching(a) && #[trigger] matching(b);
            assert(has_fh(t, p_fh, a) && has_fh(t, p_fh, b));
        },
    }
    law_requests_keep_sound(t, Ask::Create { fh, name: at.filename->0, p_id }, x2, t2);
    match x2 {
        Ok(id) => {
            assert(is_entry(t2, at.filename->0, p_id, id));
        },
        Err(_) => {
            assert(exists|id: i64| is_entry(t, at.filename->0, p_id, id));
        },
    }
}

/// Doing what it asks for within `n` steps, starting with the table `t`: handles are those
/// that `handle_of` gives for paths, the statements come to what is in `log`, and it ends
/// as `end` with the table `t2`.
pub open spec fn index_runs(
    i: Indexing,
    handle_of: spec_fn(Seq<u8>) -> Option<Seq<u8>>,
    t: Table,
    log: Seq<(Result<i64, Failure>, Table)>,
    end: Indexing,
    t2: Table,
    n: nat,
) -> bool
    decreases n,
{
    match i.action() {
        IndexAct::Done => log.len() == 0 && end == i && t2 == t,
        IndexAct::GetFh(path) => n > 0 && index_runs(
            i.handle(handle_of(path)),
            handle_of,
            t,
            log,
            end,
            t2,
            (n - 1) as nat,
        ),
        IndexAct::Run(ask) => {
            &&& n > 0
            &&& log.len() > 0
            &&& comes_to(t, ask, log[0].0, log[0].1)
            &&& index_runs(
                i.step(log[0].0),
                handle_of,
                log[0].1,
                log.skip(1),
                end,
                t2,
                (n - 1) as nat,
            )
        },
    }
}

/// A path with what is said about it.
pub open spec fn said_of(what: Seq<char>, path: Seq<u8>) -> Seq<char> {
    what + " `"@ + utf8_lossy(path) + "`"@
}

/// Indexing a path adds the file that is there as an entry of the directory above it: the
/// row has the handle of the path and its last name, and its parent is the only row that has
/// the handle of the path above it. Where there is such an entry, where a handle is missing,
/// and where the directory is not known or not the only one, the table stays as it is; all
/// but the first are failures, which name the path that they are about.
pub proof fn law_indexed(
    at: Indexed,
    handle_of: spec_fn(Seq<u8>) -> Option<Seq<u8>>,
    t: Table,
    log: Seq<(Result<i64, Failure>, Table)>,
    end: Indexing,
    t2: Table,
    n: nat,
)
    requires
        sound(t),
        index_runs(Indexing::new(at), handle_of, t, log, end, t2, n),
    ensures
        ({
            let (path, up, name) = (at.path, at.parent->0, at.filename->0);
            let (fh, p_fh) = (handle_of(path)->0, handle_of(up)->0);
            let failed = |text: Seq<char>|
                end.stage == Stage::Finished(Err::<(), Seq<char>>(text)) && t2 == t;
            if at.parent is None {
                failed(said_of("Failed to get parent of path"@, path))
            } else if at.filename is None {
                failed(said_of("Failed to get filename of path"@, path))
            } else if handle_of(path) is None {
                failed(said_of("Failed to get file handle of"@, path))
            } else if handle_of(up) is None {
                failed(said_of("Failed to get file handle of"@, up))
            } else if exists|p_id: i64|
                has_fh(t, p_fh, p_id) && forall|other: i64| #[trigger]
                    has_fh(t, p_fh, other) ==> other == p_id {
                exists|p_id: i64|
                    {
                        &&& #[trigger] has_fh(t, p_fh, p_id)
                        &&& end.stage == Stage::Finished(Ok::<(), Seq<char>>(()))
                        &&& if exists|id: i64| is_entry(t, name, p_id, id) {
                            t2 == t
                        } else {
                            exists|id: i64|
                                !t.contains_key(id) && t2 == #[trigger] t.insert(
                                    id,
                                    Row { fh, name, parent: p_id },
                                )
                        }
                    }
            } else {
                failed(said_of("Failed to get database ID of"@, up))
            }
        }),
        sound(t2),
{
    reveal_with_fuel(index_runs, 5);
    let begun = Indexing::new(at);
    if at.parent is Some && at.filename is Some {
        let (path, up, name) = (at.path, at.parent->0, at.filename->0);
        let (fh, p_fh) = (handle_of(path)->0, handle_of(up)->0);
        if handle_of(path) is Some && handle_of(up) is Some {
            let found = begun.handle(Some(fh)).handle(Some(p_fh));
            assert(found.action() == IndexAct::Run(Ask::GetDirId { fh: p_fh }));
            let (x1, t1) = log[0];
            let matching = |id: i64| has_fh(t, p_fh, id);
            assert(finds(matching, x1));
            match x1 {
                Ok(p_id) => {
                    assert(matching(p_id));
                    assert forall|other: i64| #[trigger] has_fh(t, p_fh, other) implies other
                        == p_id by {
                        assert(matching(other));
                    }
                    let rest = log.skip(1);
                    let (x2, last) = rest[0];
                    let ask = Ask::Create { fh, name, p_id };
                    assert(found.step(x1).action() == IndexAct::Run(ask));
                    assert(comes_to(t, ask, x2, last));
                    law_requests_keep_sound(t, ask, x2, last);
                    assert(t2 == last);
                    assert(has_fh(t, p_fh, p_id));
                },
                Err(failure) => {
                    if exists|id: i64| #[trigger] matching(id) {
                        let (a, b) = choose|a: i64, b: i64|
                            a != b && #[trigger] matching(a) && #[trigger] matching(b);
                        assert(has_fh(t, p_fh, a) && has_fh(t, p_fh, b));
                    } else {
                        assert forall|id: i64| !has_fh(t, p_fh, id) by {
                            assert(!matching(id));
                        }
                    }
                },
            }
        }
    }
}

/// Whatever keeps the directory from being looked up is told as a failure about it. A file
/// that was added, and one whose name is taken, are no failures; any other failure of adding
/// it is told in the words that came with it.
pub proof fn law_index_failures(
    at: Indexed,
    fh: Seq<u8>,
    p_fh: Seq<u8>,
    p_id: i64,
    x: Result<i64, Failure>,
)
    ensures
        ({
            let found = (Indexing { at, stage: Stage::FindParent { fh, p_fh } }).step(x);
            &&& x is Ok ==> found.stage == (Stage::Create { fh, p_id: x->Ok_0 })
            &&& x is Err ==> found.stage == Stage::Finished(
                Err::<(), Seq<char>>(said_of("Failed to get database ID of"@, at.parent->0)),
            )
        }),
        ({
            let end = (Indexing { at, stage: Stage::Create { fh, p_id } }).step(x);
            end.stage == Stage::Finished(
                if x is Ok || x->Err_0.kind is Unique {
                    Ok::<(), Seq<char>>(())
                } else {
                    Err("Misc DB errror: "@ + x->Err_0.text@)
                },
            )
        }),
{
}

} // verus!
