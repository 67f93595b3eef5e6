//! The database of files: what it is asked, and what its answers mean.
//!
//! The database itself is not here. A [`Request`] says which statement to run and
//! with which values, and takes what came of it for an answer.

pub mod collation;
pub mod meaning;
pub mod path;
pub mod query;
pub mod results;
pub mod root;
pub mod schema;
pub mod select;
pub mod sql;
pub mod suffix_index;
pub mod table;

pub use path::get_path;
pub use query::{estimate_specifity, prepare_query};
pub use root::ensure_root;

use vstd::prelude::*;
use vstd::string::*;

use crate::file_handle::{FileHan, FileHandle};
use crate::text::between;
use crate::util;

verus! {

/// The identifier of the root directory, which is its own parent.
pub const ROOT_ID: i64 = 1;

/// The statements that set up the tables, and the triggers that keep the suffixes of all
/// names. Names need not be text, for the entries below them are kept all the same.
pub const MIGRATION: &'static str =
    "CREATE TABLE files (\
        id INTEGER PRIMARY KEY,\
        file_handle BLOB,\
        name BLOB,\
        parent_id INTEGER REFERENCES files(id) ON DELETE CASCADE,\
        UNIQUE(parent_id, name)\
    );\
    CREATE INDEX fanotify_lookup_idx ON files(file_handle, name);\
    CREATE TABLE suffix_array (\
        suffix TEXT COLLATE NOCASE,\
        id INTEGER,\
        PRIMARY KEY (suffix, id)\
    ) WITHOUT ROWID;\
    CREATE TRIGGER add_suffixes AFTER INSERT ON files BEGIN \
        INSERT INTO suffix_array \
        SELECT suffix, NEW.id FROM gen_suffixes(NEW.name); \
    END;\
    CREATE TRIGGER delete_suffixes AFTER DELETE ON files BEGIN \
        DELETE FROM suffix_array \
        WHERE suffix IN (SELECT suffix FROM gen_suffixes(OLD.name)) \
        AND id = OLD.id; \
    END;\
    CREATE TRIGGER update_suffixes AFTER UPDATE ON files WHEN OLD.name != NEW.name BEGIN \
        DELETE FROM suffix_array \
        WHERE suffix IN (SELECT suffix FROM gen_suffixes(OLD.name)) \
        AND id = OLD.id; \
        INSERT INTO suffix_array \
        SELECT suffix, NEW.id FROM gen_suffixes(NEW.name); \
    END;";

/// The value of a setting of the database.
#[derive(Debug, Clone, Copy)]
pub enum Setting {
    Text(&'static str),
    Number(i64),
    Flag(bool),
}

/// A setting of the database.
#[derive(Debug, Clone, Copy)]
pub struct Pragma {
    pub name: &'static str,
    pub setting: Setting,
}

/// How long to wait for a lock, in milliseconds; a negative number means not at all.
pub const BUSY_TIMEOUT: i64 = -2000;

/// The size of the page cache; a negative number is in kibibytes.
pub const CACHE_SIZE: i64 = -65536;

/// How much of the database is mapped into memory, in bytes.
pub const MMAP_SIZE: i64 = 1073741824;

/// The settings for every connection, in the order in which they are made. Foreign keys
/// are what removes rows along with what is below them.
pub fn prepare_db() -> (r: Vec<Pragma>)
    ensures
        r@ == seq![
            Pragma { name: "journal_mode", setting: Setting::Text("WAL") },
            Pragma { name: "synchronous", setting: Setting::Text("normal") },
            Pragma { name: "busy_timeout", setting: Setting::Number(BUSY_TIMEOUT) },
            Pragma { name: "cache_size", setting: Setting::Number(CACHE_SIZE) },
            Pragma { name: "mmap_size", setting: Setting::Number(MMAP_SIZE) },
            Pragma { name: "foreign_keys", setting: Setting::Flag(true) },
        ],
{
    let mut pragmas: Vec<Pragma> = Vec::new();
    pragmas.push(Pragma { name: "journal_mode", setting: Setting::Text("WAL") });
    pragmas.push(Pragma { name: "synchronous", setting: Setting::Text("normal") });
    pragmas.push(Pragma { name: "busy_timeout", setting: Setting::Number(BUSY_TIMEOUT) });
    pragmas.push(Pragma { name: "cache_size", setting: Setting::Number(CACHE_SIZE) });
    pragmas.push(Pragma { name: "mmap_size", setting: Setting::Number(MMAP_SIZE) });
    pragmas.push(Pragma { name: "foreign_keys", setting: Setting::Flag(true) });
    pragmas
}

/// Kinds of failures of a statement.
#[derive(Debug, Clone, Copy, PartialEq, Eq, Structural)]
pub enum FailureKind {
    /// One row was wanted, and there was none.
    NoRows,
    /// One row was wanted, and there were more.
    ManyRows,
    /// A row with the same parent and name is there already.
    Unique,
    /// The parent is not there.
    ForeignKey,
    /// The statement was interrupted.
    Interrupted,
    /// Anything else.
    Other,
}

/// A failure of a statement.
#[derive(Debug)]
pub struct Failure {
    pub kind: FailureKind,
    /// What the database says about it.
    pub text: String,
}

/// Why an operation on the database failed.
#[derive(Debug)]
pub enum Error {
    /// A statement failed.
    SQLite(Failure),
    /// The tables could not be set up.
    Migration(String),
    /// Several files match where one is wanted.
    ManyFiles,
    /// No file matches.
    NoFile,
    /// The directory has an entry with the name.
    NameTaken,
    /// The root directory is not the root of the file tree.
    BadRoot,
}

/// How an error is reported.
pub open spec fn error_text(e: Error) -> Seq<char> {
    match e {
        Error::SQLite(failure) => "Misc DB errror: "@ + failure.text@,
        Error::Migration(text) => "Migration error: "@ + text@,
        Error::ManyFiles => "Multiple files matching the criteria already exist"@,
        Error::NoFile => "No files matching the criteria exist"@,
        Error::NameTaken => "A file with the same parent and name already exists"@,
        Error::BadRoot => "Provided file is not root of file tree"@,
    }
}

impl Error {
    /// How the error is reported.
    pub fn message(&self) -> (r: String)
        ensures
            r@ == error_text(*self),
    {
        proof {
            reveal_strlit("");
        }
        match self {
            Error::SQLite(failure) => {
                let r = between("Misc DB errror: ", failure.text.as_str(), "");
                assert(r@ =~= error_text(*self));
                r
            },
            Error::Migration(text) => {
                let r = between("Migration error: ", text.as_str(), "");
                assert(r@ =~= error_text(*self));
                r
            },
            Error::ManyFiles => String::from_str(
                "Multiple files matching the criteria already exist",
            ),
            Error::NoFile => String::from_str("No files matching the criteria exist"),
            Error::NameTaken => String::from_str(
                "A file with the same parent and name already exists",
            ),
            Error::BadRoot => String::from_str("Provided file is not root of file tree"),
        }
    }
}

/// What a statement that wants one row comes to.
pub open spec fn one_row<T>(x: Result<T, Failure>) -> Result<T, Error> {
    match x {
        Ok(row) => Ok(row),
        Err(failure) => match failure.kind {
            FailureKind::ManyRows => Err(Error::ManyFiles),
            FailureKind::NoRows => Err(Error::NoFile),
            _ => Err(Error::SQLite(failure)),
        },
    }
}

/// What a statement that wants one row comes to.
pub fn transform_query_one_err<T>(x: Result<T, Failure>) -> (r: Result<T, Error>)
    ensures
        r == one_row(x),
{
    match x {
        Ok(row) => Ok(row),
        Err(failure) => match failure.kind {
            FailureKind::ManyRows => Err(Error::ManyFiles),
            FailureKind::NoRows => Err(Error::NoFile),
            _ => Err(Error::SQLite(failure)),
        },
    }
}

/// What is asked of the database.
pub enum Request {
    /// The identifier of the directory with a handle. Only files can share handles; the
    /// handles of directories are unique.
    GetDirId { fh: FileHandle },
    /// The identifier of an entry of a directory.
    GetDirentId { name: Vec<u8>, p_id: i64 },
    /// To add an entry to a directory.
    Create { fh: FileHandle, name: Vec<u8>, p_id: i64 },
    /// To remove an entry from a directory, and all that is below it.
    Delete { fh: FileHandle, name: Vec<u8>, p_id: i64 },
    /// To remove an entry, and all that is below it.
    DeleteWithId { id: i64 },
    /// To move an entry to another directory or name.
    Update {
        fh: FileHandle,
        old_name: Vec<u8>,
        old_p_id: i64,
        new_name: Vec<u8>,
        new_p_id: i64,
    },
}

/// The meaning of a [`Request`].
pub enum Ask {
    GetDirId { fh: Seq<u8> },
    GetDirentId { name: Seq<u8>, p_id: i64 },
    Create { fh: Seq<u8>, name: Seq<u8>, p_id: i64 },
    Delete { fh: Seq<u8>, name: Seq<u8>, p_id: i64 },
    DeleteWithId { id: i64 },
    Update {
        fh: Seq<u8>,
        old_name: Seq<u8>,
        old_p_id: i64,
        new_name: Seq<u8>,
        new_p_id: i64,
    },
}

/// A value in a statement.
pub enum Value {
    Blob(Vec<u8>),
    Int(i64),
}

/// The meaning of a [`Value`].
pub enum Bound {
    Blob(Seq<u8>),
    Int(i64),
}

/// What number a statement comes to.
#[derive(Debug, Clone, Copy, PartialEq, Eq, Structural)]
pub enum Yield {
    /// The number in the only row.
    OneRow,
    /// The identifier of the row that was added.
    RowId,
    /// How many rows were changed.
    Changes,
}

/// A statement to run.
pub struct Statement {
    pub sql: &'static str,
    pub values: Vec<Value>,
    pub yields: Yield,
}

impl View for Value {
    type V = Bound;

    open spec fn view(&self) -> Bound {
        match *self {
            Value::Blob(bytes) => Bound::Blob(bytes@),
            Value::Int(n) => Bound::Int(n),
        }
    }
}

/// The values of a statement.
pub open spec fn bound(values: Seq<Value>) -> Seq<Bound> {
    values.map_values(|v: Value| v@)
}

impl View for Request {
    type V = Ask;

    open spec fn view(&self) -> Ask {
        match *self {
            Request::GetDirId { fh } => Ask::GetDirId { fh: fh@ },
            Request::GetDirentId { name, p_id } => Ask::GetDirentId { name: name@, p_id },
            Request::Create { fh, name, p_id } => Ask::Create { fh: fh@, name: name@, p_id },
            Request::Delete { fh, name, p_id } => Ask::Delete { fh: fh@, name: name@, p_id },
            Request::DeleteWithId { id } => Ask::DeleteWithId { id },
            Request::Update { fh, old_name, old_p_id, new_name, new_p_id } => Ask::Update {
                fh: fh@,
                old_name: old_name@,
                old_p_id,
                new_name: new_name@,
                new_p_id,
            },
        }
    }
}

/// The statement of a request.
pub open spec fn sql_of(ask: Ask) -> Seq<char> {
    match ask {
        Ask::GetDirId { .. } => "SELECT id FROM files WHERE file_handle = ?1"@,
        Ask::GetDirentId { .. } => "SELECT id FROM files WHERE name = ?1 AND parent_id = ?2"@,
        Ask::Create { .. } =>
            "INSERT INTO files (file_handle, name, parent_id) VALUES(?1, ?2, ?3)"@,
        Ask::Delete { .. } =>
            "DELETE FROM files WHERE file_handle = ?1 AND name = ?2 AND parent_id = ?3"@,
        Ask::DeleteWithId { .. } => "DELETE FROM files WHERE id = ?1"@,
        Ask::Update { .. } =>
            "UPDATE files SET name = ?1, parent_id = ?2 WHERE file_handle = ?3 AND name = ?4 AND parent_id = ?5"@,
    }
}

/// The values of a request, in the order of their numbers in the statement.
pub open spec fn values_of(ask: Ask) -> Seq<Bound> {
    match ask {
        Ask::GetDirId { fh } => seq![Bound::Blob(fh)],
        Ask::GetDirentId { name, p_id } => seq![Bound::Blob(name), Bound::Int(p_id)],
        Ask::Create { fh, name, p_id } => seq![
            Bound::Blob(fh),
            Bound::Blob(name),
            Bound::Int(p_id),
        ],
        Ask::Delete { fh, name, p_id } => seq![
            Bound::Blob(fh),
            Bound::Blob(name),
            Bound::Int(p_id),
        ],
        Ask::DeleteWithId { id } => seq![Bound::Int(id)],
        Ask::Update { fh, old_name, old_p_id, new_name, new_p_id } => seq![
            Bound::Blob(new_name),
            Bound::Int(new_p_id),
            Bound::Blob(fh),
            Bound::Blob(old_name),
            Bound::Int(old_p_id),
        ],
    }
}

/// What number the statement of a request comes to.
pub open spec fn yields_of(ask: Ask) -> Yield {
    match ask {
        Ask::GetDirId { .. } => Yield::OneRow,
        Ask::GetDirentId { .. } => Yield::OneRow,
        Ask::Create { .. } => Yield::RowId,
        _ => Yield::Changes,
    }
}

/// What a statement that adds a row comes to.
pub open spec fn added(x: Result<i64, Failure>) -> Result<i64, Error> {
    match x {
        Ok(id) => Ok(id),
        Err(failure) => if failure.kind == FailureKind::Unique {
            Err(Error::NameTaken)
        } else {
            Err(Error::SQLite(failure))
        },
    }
}

/// What a statement that removes one row comes to.
pub open spec fn removed(x: Result<i64, Failure>) -> Result<i64, Error> {
    match x {
        Ok(n) => if n == 0 {
            Err(Error::NoFile)
        } else if n == 1 {
            Ok(1)
        } else {
            Err(Error::ManyFiles)
        },
        Err(failure) => Err(Error::SQLite(failure)),
    }
}

/// What a statement that moves a row comes to.
pub open spec fn updated(x: Result<i64, Failure>) -> Result<i64, Error> {
    match x {
        Ok(n) => if n == 0 {
            Err(Error::NoFile)
        } else {
            Ok(n)
        },
        Err(failure) => if failure.kind == FailureKind::Unique {
            Err(Error::NameTaken)
        } else {
            Err(Error::SQLite(failure))
        },
    }
}

/// The answer to a request, given what its statement came to.
pub open spec fn answer(ask: Ask, x: Result<i64, Failure>) -> Result<i64, Error> {
    match ask {
        Ask::GetDirId { .. } => one_row(x),
        Ask::GetDirentId { .. } => one_row(x),
        Ask::Create { .. } => added(x),
        Ask::Delete { .. } => removed(x),
        Ask::DeleteWithId { .. } => removed(x),
        Ask::Update { .. } => updated(x),
    }
}

/// What a statement that adds a row comes to.
pub fn transform_create_err(x: Result<i64, Failure>) -> (r: Result<i64, Error>)
    ensures
        r == added(x),
{
    match x {
        Ok(id) => Ok(id),
        Err(failure) => if failure.kind == FailureKind::Unique {
            Err(Error::NameTaken)
        } else {
            Err(Error::SQLite(failure))
        },
    }
}

/// What a statement that removes one row comes to.
pub fn transform_delete_err(x: Result<i64, Failure>) -> (r: Result<i64, Error>)
    ensures
        r == removed(x),
{
    match x {
        Ok(n) => if n == 0 {
            Err(Error::NoFile)
        } else if n == 1 {
            Ok(1)
        } else {
            Err(Error::ManyFiles)
        },
        Err(failure) => Err(Error::SQLite(failure)),
    }
}

/// What a statement that moves a row comes to.
pub fn transform_update_err(x: Result<i64, Failure>) -> (r: Result<i64, Error>)
    ensures
        r == updated(x),
{
    match x {
        Ok(n) => if n == 0 {
            Err(Error::NoFile)
        } else {
            Ok(n)
        },
        Err(failure) => if failure.kind == FailureKind::Unique {
            Err(Error::NameTaken)
        } else {
            Err(Error::SQLite(failure))
        },
    }
}

/// Asks for the directory with a handle.
pub fn get_dir_id(fh: &FileHan<'_>) -> (r: Request)
    ensures
        r@ == (Ask::GetDirId { fh: fh@ }),
{
    Request::GetDirId { fh: fh.to_owned() }
}

/// Asks for an entry of a directory.
pub fn get_dirent_id(name: &[u8], p_id: i64) -> (r: Request)
    ensures
        r@ == (Ask::GetDirentId { name: name@, p_id }),
{
    Request::GetDirentId { name: util::copy_bytes(name), p_id }
}

/// Asks to add an entry to a directory.
pub fn create(fh: &FileHan<'_>, name: &[u8], p_id: i64) -> (r: Request)
    ensures
        r@ == (Ask::Create { fh: fh@, name: name@, p_id }),
{
    Request::Create { fh: fh.to_owned(), name: util::copy_bytes(name), p_id }
}

/// Asks to remove an entry from a directory.
pub fn delete(fh: &FileHan<'_>, name: &[u8], p_id: i64) -> (r: Request)
    ensures
        r@ == (Ask::Delete { fh: fh@, name: name@, p_id }),
{
    Request::Delete { fh: fh.to_owned(), name: util::copy_bytes(name), p_id }
}

/// Asks to remove an entry.
pub fn delete_with_id(id: i64) -> (r: Request)
    ensures
        r@ == (Ask::DeleteWithId { id }),
{
    Request::DeleteWithId { id }
}

/// Asks to move an entry to another directory or name.
pub fn update(
    fh: &FileHan<'_>,
    old_name: &[u8],
    old_p_id: i64,
    new_name: &[u8],
    new_p_id: i64,
) -> (r: Request)
    ensures
        r@ == (Ask::Update {
            fh: fh@,
            old_name: old_name@,
            old_p_id,
            new_name: new_name@,
            new_p_id,
        }),
{
    Request::Update {
        fh: fh.to_owned(),
        old_name: util::copy_bytes(old_name),
        old_p_id,
        new_name: util::copy_bytes(new_name),
        new_p_id,
    }
}

impl Request {
    /// The statement to run.
    pub fn statement(&self) -> (r: Statement)
        ensures
            r.sql@ == sql_of(self@),
            bound(r.values@) == values_of(self@),
            r.yields == yields_of(self@),
    {
        let mut values: Vec<Value> = Vec::new();
        let sql: &'static str;
        let yields: Yield;
        match self {
            Request::GetDirId { fh } => {
                sql = "SELECT id FROM files WHERE file_handle = ?1";
                yields = Yield::OneRow;
                values.push(Value::Blob(util::copy_bytes(fh.deref().bytes())));
            },
            Request::GetDirentId { name, p_id } => {
                sql = "SELECT id FROM files WHERE name = ?1 AND parent_id = ?2";
                yields = Yield::OneRow;
                values.push(Value::Blob(util::copy_bytes(name.as_slice())));
                values.push(Value::Int(*p_id));
            },
            Request::Create { fh, name, p_id } => {
                sql = "INSERT INTO files (file_handle, name, parent_id) VALUES(?1, ?2, ?3)";
                yields = Yield::RowId;
                values.push(Value::Blob(util::copy_bytes(fh.deref().bytes())));
                values.push(Value::Blob(util::copy_bytes(name.as_slice())));
                values.push(Value::Int(*p_id));
            },
            Request::Delete { fh, name, p_id } => {
                sql = "DELETE FROM files WHERE file_handle = ?1 AND name = ?2 AND parent_id = ?3";
                yields = Yield::Changes;
                values.push(Value::Blob(util::copy_bytes(fh.deref().bytes())));
                values.push(Value::Blob(util::copy_bytes(name.as_slice())));
                values.push(Value::Int(*p_id));
            },
            Request::DeleteWithId { id } => {
                sql = "DELETE FROM files WHERE id = ?1";
                yields = Yield::Changes;
                values.push(Value::Int(*id));
            },
            Request::Update { fh, old_name, old_p_id, new_name, new_p_id } => {
                sql =
                "UPDATE files SET name = ?1, parent_id = ?2 WHERE file_handle = ?3 AND name = ?4 AND parent_id = ?5";
                yields = Yield::Changes;
                values.push(Value::Blob(util::copy_bytes(new_name.as_slice())));
                values.push(Value::Int(*new_p_id));
                values.push(Value::Blob(util::copy_bytes(fh.deref().bytes())));
                values.push(Value::Blob(util::copy_bytes(old_name.as_slice())));
                values.push(Value::Int(*old_p_id));
            },
        }
        assert(bound(values@) =~= values_of(self@));
        Statement { sql, values, yields }
    }

    /// The answer to the request, given what its statement came to.
    pub fn answer(&self, x: Result<i64, Failure>) -> (r: Result<i64, Error>)
        ensures
            r == answer(self@, x),
    {
        match self {
            Request::GetDirId { .. } => transform_query_one_err(x),
            Request::GetDirentId { .. } => transform_query_one_err(x),
            Request::Create { .. } => transform_create_err(x),
            Request::Delete { .. } => transform_delete_err(x),
            Request::DeleteWithId { .. } => transform_delete_err(x),
            Request::Update { .. } => transform_update_err(x),
        }
    }
}

} // verus!
