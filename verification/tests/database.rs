//! Requests, run by a database in memory.

use sqsearch::db;
use sqsearch::db::path::{push_name, ENTRY_SQL};
use sqsearch::db::{Error, Failure, FailureKind, Request, Setting, Value, Yield, ROOT_ID};
use sqsearch::file_handle::{FileHan, FileHandle};
use sqsearch::gen_suffixes_vtab::{Column, SuffixesVtab, COLUMN_SUFFIX};

fn memory_db() -> rusqlite::Connection {
    let conn = rusqlite::Connection::open_in_memory().unwrap();
    for pragma in db::prepare_db() {
        match pragma.setting {
            Setting::Text(text) => conn.pragma_update(None, pragma.name, text).unwrap(),
            Setting::Number(n) => conn.pragma_update(None, pragma.name, n).unwrap(),
            Setting::Flag(flag) => conn.pragma_update(None, pragma.name, flag).unwrap(),
        }
    }
    let tables = db::MIGRATION.split("CREATE TRIGGER").next().unwrap();
    conn.execute_batch(tables).unwrap();
    conn
}

fn make_fh(id: i64) -> FileHandle {
    let mut buf = 24u32.to_le_bytes().to_vec();
    buf.extend_from_slice(&0u32.to_le_bytes());
    buf.extend_from_slice(&id.to_le_bytes());
    buf.extend_from_slice(&[0; 16]);
    FileHan::read_from_buf(&buf).unwrap().to_owned()
}

fn failure(e: rusqlite::Error) -> Failure {
    let kind = match &e {
        rusqlite::Error::QueryReturnedNoRows => FailureKind::NoRows,
        rusqlite::Error::QueryReturnedMoreThanOneRow => FailureKind::ManyRows,
        rusqlite::Error::SqliteFailure(err, _) => match err.extended_code {
            rusqlite::ffi::SQLITE_CONSTRAINT_UNIQUE => FailureKind::Unique,
            rusqlite::ffi::SQLITE_CONSTRAINT_FOREIGNKEY => FailureKind::ForeignKey,
            _ => FailureKind::Other,
        },
        _ => FailureKind::Other,
    };
    Failure { kind, text: e.to_string() }
}

fn raw(conn: &rusqlite::Connection, request: &Request) -> Result<i64, Failure> {
    let statement = request.statement();
    let values = statement.values.into_iter().map(|value| match value {
        Value::Blob(bytes) => rusqlite::types::Value::Blob(bytes),
        Value::Int(n) => rusqlite::types::Value::Integer(n),
    });
    let values = rusqlite::params_from_iter(values);
    let mut stmt = conn.prepare_cached(statement.sql).unwrap();
    match statement.yields {
        Yield::OneRow => stmt.query_one(values, |row| row.get(0)),
        Yield::RowId => stmt.insert(values),
        Yield::Changes => stmt.execute(values).map(|n| n as i64),
    }
    .map_err(failure)
}

fn run(conn: &rusqlite::Connection, request: Request) -> Result<i64, Error> {
    request.answer(raw(conn, &request))
}

fn count_rows(conn: &rusqlite::Connection, name: &str) -> usize {
    let mut stmt = conn.prepare(&format!("SELECT * FROM {name}")).unwrap();
    stmt.query_map((), |_| Ok(())).unwrap().count()
}

fn with_root() -> rusqlite::Connection {
    let conn = memory_db();
    assert!(ensure_root(&conn, &make_fh(100)).is_ok());
    conn
}

fn ensure_root(conn: &rusqlite::Connection, fh: &FileHandle) -> Result<(), Error> {
    let mut root = db::ensure_root(&fh.deref());
    while let Some(request) = root.request() {
        root.step(raw(conn, &request));
    }
    match root.finish() {
        Ok(result) => result,
        Err(_) => panic!("not finished"),
    }
}

#[test]
fn make_db() {
    memory_db();
    let conn = rusqlite::Connection::open_in_memory().unwrap();
    conn.execute_batch(db::MIGRATION).unwrap();
    assert_eq!(count_rows(&conn, "sqlite_schema WHERE type = 'trigger'"), 3);
}

/// A database with the triggers. The suffixes of the names are in a table, as the cursor
/// gives them, rather than in a virtual table.
fn with_triggers(names: &[&[u8]]) -> rusqlite::Connection {
    let conn = memory_db();
    conn.execute("CREATE TABLE suffixes (string BLOB, suffix TEXT)", ()).unwrap();
    for name in names {
        let mut cursor = SuffixesVtab.open();
        cursor.filter(name);
        while !cursor.eof() {
            if let Column::Text(suffix) = cursor.column(COLUMN_SUFFIX) {
                conn.execute("INSERT INTO suffixes VALUES(?1, ?2)", (name, suffix)).unwrap();
            }
            cursor.next();
        }
    }
    let start = db::MIGRATION.find("CREATE TRIGGER").unwrap();
    let mut triggers = db::MIGRATION[start..].to_string();
    for name in ["NEW.name", "OLD.name"] {
        triggers = triggers.replace(
            &format!("gen_suffixes({name})"),
            &format!("(SELECT suffix FROM suffixes WHERE string = {name})"),
        );
    }
    conn.execute_batch(&triggers).unwrap();
    conn
}

#[test]
fn triggers_test() {
    let conn = with_triggers(&[b"test1", b"test2", b"long-name"]);

    let mut create = conn
        .prepare_cached("INSERT INTO files (file_handle, name, parent_id) VALUES(?1, ?2, ?3)")
        .unwrap();
    let mut delete = conn.prepare_cached("DELETE FROM files WHERE id = ?1").unwrap();
    let mut rename = conn
        .prepare_cached("UPDATE files SET parent_id = ?1, name = ?2 WHERE id = ?3")
        .unwrap();

    let fh1 = make_fh(1);
    let fh2 = make_fh(2);
    let root = create.insert((fh1.deref().bytes(), "".as_bytes(), None::<i64>)).unwrap();

    let id1 = create.insert((fh1.deref().bytes(), "test1".as_bytes(), root)).unwrap();
    assert_eq!(count_rows(&conn, "suffix_array"), 5);

    let id2 = create.insert((fh2.deref().bytes(), "test2".as_bytes(), root)).unwrap();
    assert_eq!(count_rows(&conn, "suffix_array"), 10);

    delete.execute((id1,)).unwrap();
    assert_eq!(count_rows(&conn, "suffix_array"), 5);

    rename.execute((root, "long-name".as_bytes(), id2)).unwrap();
    assert_eq!(count_rows(&conn, "suffix_array"), 9);
}

#[test]
fn suffixes_go_with_what_is_below() {
    let conn = with_triggers(&[b"aA", b"bcd"]);
    assert!(ensure_root(&conn, &make_fh(100)).is_ok());
    let a = run(&conn, db::create(&make_fh(1).deref(), b"aA", ROOT_ID)).unwrap();
    run(&conn, db::create(&make_fh(2).deref(), b"bcd", a)).unwrap();
    assert_eq!(count_rows(&conn, "suffix_array"), 5);
    assert!(run(&conn, db::delete_with_id(a)).is_ok());
    assert_eq!(count_rows(&conn, "suffix_array"), 0);
}

#[test]
fn ripple_delete() {
    let conn = memory_db();
    let mut create = conn
        .prepare_cached("INSERT INTO files (file_handle, name, parent_id) VALUES(?1, ?2, ?3)")
        .unwrap();
    let mut delete = conn.prepare_cached("DELETE FROM files WHERE id = ?1").unwrap();

    let fh1 = make_fh(1);
    let fh2 = make_fh(2);
    let root =
        create.insert((fh1.deref().bytes(), "".as_bytes(), None::<i64>)).unwrap();
    let id1 = create.insert((fh1.deref().bytes(), "test1".as_bytes(), root)).unwrap();
    create.insert((fh2.deref().bytes(), "test2".as_bytes(), id1)).unwrap();

    assert_eq!(count_rows(&conn, "files"), 3);

    delete.execute((root,)).unwrap();
    assert_eq!(count_rows(&conn, "files"), 0);
}

#[test]
fn root_is_made_once() {
    let conn = with_root();
    assert_eq!(count_rows(&conn, "files"), 1);
    assert!(ensure_root(&conn, &make_fh(100)).is_ok());
    assert_eq!(count_rows(&conn, "files"), 1);
    assert!(matches!(run(&conn, db::get_dir_id(&make_fh(100).deref())), Ok(ROOT_ID)));
}

#[test]
fn first_row_of_a_fresh_database_is_the_root() {
    let conn = memory_db();
    assert!(ensure_root(&conn, &make_fh(100)).is_ok());
    let row = conn.query_one("SELECT id, name, parent_id FROM files", (), |row| {
        Ok((row.get(0)?, row.get(1)?, row.get(2)?))
    });
    let (id, name, parent): (i64, Vec<u8>, i64) = row.unwrap();
    assert_eq!((id, &name[..], parent), (ROOT_ID, &b""[..], ROOT_ID));
}

#[test]
fn other_root_is_refused() {
    let conn = with_root();
    assert!(matches!(ensure_root(&conn, &make_fh(101)), Err(Error::BadRoot)));
    assert_eq!(count_rows(&conn, "files"), 1);
    run(&conn, db::create(&make_fh(5).deref(), b"a", ROOT_ID)).unwrap();
    assert!(matches!(ensure_root(&conn, &make_fh(5)), Err(Error::BadRoot)));
}

#[test]
fn identifier_of_the_root_can_be_in_use() {
    let conn = memory_db();
    conn.execute("INSERT INTO files (id, name, parent_id) VALUES(1, ?1, 1)", (b"x",)).unwrap();
    assert!(matches!(ensure_root(&conn, &make_fh(100)), Err(Error::BadRoot)));
    assert_eq!(count_rows(&conn, "files"), 2);
    assert_eq!(run(&conn, db::get_dirent_id(b"", ROOT_ID)).unwrap(), 2);
}

#[test]
fn entries_are_created_and_found() {
    let conn = with_root();
    let id = run(&conn, db::create(&make_fh(1).deref(), b"a", ROOT_ID)).unwrap();
    assert_eq!(run(&conn, db::get_dir_id(&make_fh(1).deref())).unwrap(), id);
    assert_eq!(run(&conn, db::get_dirent_id(b"a", ROOT_ID)).unwrap(), id);
    assert!(matches!(run(&conn, db::get_dirent_id(b"b", ROOT_ID)), Err(Error::NoFile)));
    assert!(matches!(run(&conn, db::get_dir_id(&make_fh(2).deref())), Err(Error::NoFile)));
}

#[test]
fn names_are_taken_once() {
    let conn = with_root();
    run(&conn, db::create(&make_fh(1).deref(), b"a", ROOT_ID)).unwrap();
    assert!(matches!(
        run(&conn, db::create(&make_fh(2).deref(), b"a", ROOT_ID)),
        Err(Error::NameTaken)
    ));
}

#[test]
fn missing_parent_is_no_taken_name() {
    let conn = with_root();
    assert!(matches!(
        run(&conn, db::create(&make_fh(2).deref(), b"a", 77)),
        Err(Error::SQLite(Failure { kind: FailureKind::ForeignKey, .. }))
    ));
    assert_eq!(count_rows(&conn, "files"), 1);
}

#[test]
fn shared_handles_are_ambiguous() {
    let conn = with_root();
    run(&conn, db::create(&make_fh(1).deref(), b"a", ROOT_ID)).unwrap();
    run(&conn, db::create(&make_fh(1).deref(), b"b", ROOT_ID)).unwrap();
    assert!(matches!(run(&conn, db::get_dir_id(&make_fh(1).deref())), Err(Error::ManyFiles)));
}

#[test]
fn entries_are_deleted_with_what_is_below() {
    let conn = with_root();
    let a = run(&conn, db::create(&make_fh(1).deref(), b"a", ROOT_ID)).unwrap();
    let b = run(&conn, db::create(&make_fh(2).deref(), b"b", a)).unwrap();
    run(&conn, db::create(&make_fh(3).deref(), b"c", b)).unwrap();
    assert!(matches!(
        run(&conn, db::delete(&make_fh(9).deref(), b"a", ROOT_ID)),
        Err(Error::NoFile)
    ));
    assert!(run(&conn, db::delete(&make_fh(1).deref(), b"a", ROOT_ID)).is_ok());
    assert_eq!(count_rows(&conn, "files"), 1);
    assert!(matches!(run(&conn, db::delete_with_id(a)), Err(Error::NoFile)));
}

#[test]
fn entries_are_moved() {
    let conn = with_root();
    let a = run(&conn, db::create(&make_fh(1).deref(), b"a", ROOT_ID)).unwrap();
    let b = run(&conn, db::create(&make_fh(2).deref(), b"b", ROOT_ID)).unwrap();
    let update = |old: &[u8], new: &[u8], new_p_id: i64| {
        run(&conn, db::update(&make_fh(2).deref(), old, ROOT_ID, new, new_p_id))
    };
    assert!(matches!(update(b"x", b"y", ROOT_ID), Err(Error::NoFile)));
    assert!(matches!(update(b"b", b"a", ROOT_ID), Err(Error::NameTaken)));
    assert!(matches!(
        update(b"b", b"b", 77),
        Err(Error::SQLite(Failure { kind: FailureKind::ForeignKey, .. }))
    ));
    assert!(update(b"b", b"b", ROOT_ID).is_ok());
    assert!(update(b"b", b"c", a).is_ok());
    assert_eq!(run(&conn, db::get_dirent_id(b"c", a)).unwrap(), b);
    assert!(run(&conn, db::delete_with_id(b)).is_ok());
}

#[test]
fn answers_to_what_statements_come_to() {
    let other = |kind: FailureKind| Err(Failure { kind, text: "t".to_string() });
    let get = db::get_dir_id(&make_fh(1).deref());
    assert!(matches!(get.answer(other(FailureKind::NoRows)), Err(Error::NoFile)));
    assert!(matches!(get.answer(other(FailureKind::ManyRows)), Err(Error::ManyFiles)));
    assert!(matches!(get.answer(other(FailureKind::Unique)), Err(Error::SQLite(_))));
    let create = db::create(&make_fh(1).deref(), b"a", 1);
    assert!(matches!(create.answer(Ok(9)), Ok(9)));
    assert!(matches!(create.answer(other(FailureKind::Unique)), Err(Error::NameTaken)));
    assert!(matches!(create.answer(other(FailureKind::ForeignKey)), Err(Error::SQLite(_))));
    assert!(matches!(create.answer(other(FailureKind::NoRows)), Err(Error::SQLite(_))));
    let delete = db::delete_with_id(1);
    assert!(matches!(delete.answer(Ok(0)), Err(Error::NoFile)));
    assert!(delete.answer(Ok(1)).is_ok());
    assert!(matches!(delete.answer(Ok(2)), Err(Error::ManyFiles)));
    assert!(matches!(delete.answer(other(FailureKind::Unique)), Err(Error::SQLite(_))));
    let update = db::update(&make_fh(1).deref(), b"a", 1, b"b", 1);
    assert!(matches!(update.answer(Ok(0)), Err(Error::NoFile)));
    assert!(update.answer(Ok(2)).is_ok());
    assert!(matches!(update.answer(other(FailureKind::Unique)), Err(Error::NameTaken)));
    assert!(matches!(update.answer(other(FailureKind::ForeignKey)), Err(Error::SQLite(_))));
    assert!(matches!(update.answer(other(FailureKind::Other)), Err(Error::SQLite(_))));
}

#[test]
fn error_messages() {
    let failure = Failure { kind: FailureKind::Other, text: "disk full".to_string() };
    assert_eq!(Error::SQLite(failure).message(), "Misc DB errror: disk full");
    assert_eq!(Error::Migration("bad".to_string()).message(), "Migration error: bad");
    assert_eq!(
        Error::ManyFiles.message(),
        "Multiple files matching the criteria already exist"
    );
    assert_eq!(Error::NoFile.message(), "No files matching the criteria exist");
    assert_eq!(
        Error::NameTaken.message(),
        "A file with the same parent and name already exists"
    );
    assert_eq!(Error::BadRoot.message(), "Provided file is not root of file tree");
}

fn path_of(conn: &rusqlite::Connection, id: i64, below: &[Vec<u8>]) -> Result<Vec<u8>, Error> {
    let mut path = db::get_path(id);
    while let Some(id) = path.wanted() {
        let mut stmt = conn.prepare_cached(ENTRY_SQL).unwrap();
        path.step(stmt.query_one((id,), |row| Ok((row.get(0)?, row.get(1)?))).map_err(failure));
    }
    path.finish(below).unwrap()
}

#[test]
fn paths_start_below_the_root() {
    let conn = with_root();
    let a = run(&conn, db::create(&make_fh(1).deref(), b"a", ROOT_ID)).unwrap();
    let b = run(&conn, db::create(&make_fh(2).deref(), b"b\xff", a)).unwrap();
    let c = run(&conn, db::create(&make_fh(3).deref(), b"c", b)).unwrap();
    assert_eq!(path_of(&conn, a, &[]).unwrap(), b"a");
    assert_eq!(path_of(&conn, c, &[]).unwrap(), b"a/b\xff/c");
    let below = [b"x".to_vec(), b"y".to_vec()];
    assert_eq!(path_of(&conn, b, &below).unwrap(), b"a/b\xff/x/y");
    assert_eq!(path_of(&conn, ROOT_ID, &below).unwrap(), b"x/y");
    assert!(matches!(
        path_of(&conn, 99, &[]),
        Err(Error::SQLite(Failure { kind: FailureKind::NoRows, .. }))
    ));
    assert!(db::get_path(1).finish(&[]).is_none());
}

#[test]
fn names_are_pushed_like_std() {
    let names = ["", "a", "/", "/b", "c/", "한"];
    for first in names {
        for second in names {
            for third in names {
                let mut path = vec![];
                let mut expected = std::path::PathBuf::new();
                for name in [first, second, third] {
                    push_name(&mut path, name.as_bytes());
                    expected.push(name);
                }
                assert_eq!(path, expected.to_str().unwrap().as_bytes());
            }
        }
    }
}
