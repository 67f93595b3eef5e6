//! Changes, written to a database in memory.

use sqsearch::db;
use sqsearch::db::{Error, Failure, FailureKind, Request, Value, Yield, ROOT_ID};
use sqsearch::file_handle::{FileHan, FileHandle, FileHandleOps};
use sqsearch::watcher::batch::{BatchAction, Wait, DEBOUNCE_MS};
use sqsearch::watcher::task::{Action, Move, Place, Task};
use sqsearch::watcher::{Batch, Debounce, Event};

fn make_fh(id: i64) -> FileHandle {
    let mut buf = 8u32.to_le_bytes().to_vec();
    buf.extend_from_slice(&0u32.to_le_bytes());
    buf.extend_from_slice(&id.to_le_bytes());
    FileHan::read_from_buf(&buf).unwrap().to_owned()
}

fn failure(e: rusqlite::Error) -> Failure {
    let kind = match &e {
        rusqlite::Error::QueryReturnedNoRows => FailureKind::NoRows,
        rusqlite::Error::QueryReturnedMoreThanOneRow => FailureKind::ManyRows,
        rusqlite::Error::SqliteFailure(err, _) => match err.extended_code {
            rusqlite::ffi::SQLITE_CONSTRAINT_UNIQUE => FailureKind::Unique,
            rusqlite::ffi::SQLITE_CONSTRAINT_FOREIGNKEY => FailureKind::ForeignKey,
            _ => FailureKind::Other,
        },
        _ => FailureKind::Other,
    };
    Failure { kind, text: e.to_string() }
}

fn raw(conn: &rusqlite::Connection, request: &Request) -> Result<i64, Failure> {
    let statement = request.statement();
    let values = statement.values.into_iter().map(|value| match value {
        Value::Blob(bytes) => rusqlite::types::Value::Blob(bytes),
        Value::Int(n) => rusqlite::types::Value::Integer(n),
    });
    let values = rusqlite::params_from_iter(values);
    let mut stmt = conn.prepare_cached(statement.sql).unwrap();
    match statement.yields {
        Yield::OneRow => stmt.query_one(values, |row| row.get(0)),
        Yield::RowId => stmt.insert(values),
        Yield::Changes => stmt.execute(values).map(|n| n as i64),
    }
    .map_err(failure)
}

/// A database with the root directory, which has the handle 1.
fn with_root() -> rusqlite::Connection {
    let conn = rusqlite::Connection::open_in_memory().unwrap();
    conn.pragma_update(None, "foreign_keys", true).unwrap();
    let tables = db::MIGRATION.split("CREATE TRIGGER").next().unwrap();
    conn.execute_batch(tables).unwrap();
    let mut root = db::ensure_root(&make_fh(1).deref());
    while let Some(request) = root.request() {
        root.step(raw(&conn, &request));
    }
    conn
}

struct Outcome {
    result: Result<(), Error>,
    statements: usize,
    discovered: Vec<Vec<u8>>,
}

fn handle_events(conn: &rusqlite::Connection, events: Vec<Event>) -> Outcome {
    let mut batch = Batch::new(events);
    let mut statements = 0;
    let mut discovered = vec![];
    loop {
        batch = match batch.action() {
            BatchAction::Begin => {
                batch.step(conn.execute_batch("BEGIN").map(|_| 0).map_err(failure))
            }
            BatchAction::Commit => {
                batch.step(conn.execute_batch("COMMIT").map(|_| 0).map_err(failure))
            }
            BatchAction::Run(request) => {
                statements += 1;
                batch.step(raw(conn, &request))
            }
            BatchAction::Discover(fh) => {
                discovered.push(fh.buf().to_vec());
                batch.discovered()
            }
            BatchAction::Done => match batch.finish() {
                Ok(result) => {
                    if result.is_err() {
                        conn.execute_batch("ROLLBACK").unwrap();
                    }
                    return Outcome { result, statements, discovered };
                }
                Err(_) => panic!("not finished"),
            },
        };
    }
}

fn ok(conn: &rusqlite::Connection, event: Event) {
    assert!(handle_events(conn, vec![event]).result.is_ok());
}

/// The names, parents and handles of all rows but the root directory.
fn rows(conn: &rusqlite::Connection) -> Vec<(String, i64, i64)> {
    let mut stmt = conn
        .prepare("SELECT name, parent_id, file_handle FROM files WHERE id != 1 ORDER BY name")
        .unwrap();
    let rows = stmt.query_map((), |row| {
        let name: Vec<u8> = row.get(0)?;
        let fh: Vec<u8> = row.get(2)?;
        let mut id = [0; 8];
        id.copy_from_slice(&fh[8..16]);
        Ok((String::from_utf8(name).unwrap(), row.get(1)?, i64::from_le_bytes(id)))
    });
    rows.unwrap().map(|row| row.unwrap()).collect()
}

fn id_of(conn: &rusqlite::Connection, fh: i64) -> i64 {
    let request = db::get_dir_id(&make_fh(fh).deref());
    request.answer(raw(conn, &request)).unwrap()
}

fn create(p: i64, fh: i64, name: &str, is_dir: bool) -> Event {
    Event::Create { p_fh: make_fh(p), fh: make_fh(fh), name: name.into(), is_dir }
}

fn delete(p: i64, fh: i64, name: &str) -> Event {
    Event::Delete { p_fh: make_fh(p), fh: make_fh(fh), name: name.into(), is_dir: false }
}

fn rename(old_p: i64, old: &str, new_p: i64, new: &str, fh: i64, is_dir: bool) -> Event {
    Event::Rename {
        old_p_fh: make_fh(old_p),
        new_p_fh: make_fh(new_p),
        fh: make_fh(fh),
        old_name: old.into(),
        new_name: new.into(),
        is_dir,
    }
}

fn discover(p: i64, fh: i64, name: &str) -> Event {
    Event::Discover { p_fh: make_fh(p), fh: make_fh(fh), name: name.into() }
}

#[test]
fn changes_in_known_directories_are_written() {
    let conn = with_root();
    ok(&conn, create(1, 2, "dir", true));
    ok(&conn, create(2, 3, "file", false));
    let dir = id_of(&conn, 2);
    assert_eq!(rows(&conn), vec![("dir".into(), ROOT_ID, 2), ("file".into(), dir, 3)]);
    ok(&conn, delete(1, 2, "dir"));
    assert_eq!(rows(&conn), vec![]);
}

#[test]
fn changes_in_unknown_directories_are_left_aside() {
    let conn = with_root();
    let outcome = handle_events(
        &conn,
        vec![create(50, 2, "a", false), delete(50, 2, "a"), rename(50, "a", 51, "b", 2, true)],
    );
    assert!(outcome.result.is_ok());
    assert!(outcome.discovered.is_empty());
    assert_eq!(outcome.statements, 4);
    assert_eq!(rows(&conn), vec![]);
}

#[test]
fn rename_changes_one_row() {
    let conn = with_root();
    ok(&conn, create(1, 2, "a", true));
    ok(&conn, create(1, 3, "b", true));
    for i in 0..100 {
        ok(&conn, create(3, 100 + i, &format!("f{i}"), false));
    }
    let b = id_of(&conn, 3);
    let outcome = handle_events(&conn, vec![rename(1, "b", 2, "c", 3, true)]);
    assert!(outcome.result.is_ok());
    assert_eq!(outcome.statements, 3);
    assert!(outcome.discovered.is_empty());
    assert_eq!(id_of(&conn, 3), b);
    let below = rows(&conn).iter().filter(|row| row.1 == b).count();
    assert_eq!(below, 100);
    assert!(rows(&conn).contains(&("c".into(), id_of(&conn, 2), 3)));
}

#[test]
fn rename_overwrites() {
    let conn = with_root();
    ok(&conn, create(1, 2, "a", false));
    ok(&conn, create(1, 3, "b", true));
    ok(&conn, create(3, 4, "below", false));
    let a = id_of(&conn, 2);
    ok(&conn, rename(1, "a", 1, "b", 2, false));
    assert_eq!(rows(&conn), vec![("b".into(), ROOT_ID, 2)]);
    assert_eq!(id_of(&conn, 2), a);
}

#[test]
fn rename_out_of_known_directories_removes() {
    let conn = with_root();
    ok(&conn, create(1, 2, "a", true));
    ok(&conn, create(2, 3, "b", false));
    let outcome = handle_events(&conn, vec![rename(1, "a", 50, "a", 2, true)]);
    assert!(outcome.result.is_ok());
    assert!(outcome.discovered.is_empty());
    assert_eq!(rows(&conn), vec![]);
}

#[test]
fn rename_into_known_directories_adds_and_discovers() {
    let conn = with_root();
    let outcome = handle_events(&conn, vec![rename(50, "x", 1, "a", 2, true)]);
    assert!(outcome.result.is_ok());
    assert_eq!(outcome.discovered, vec![make_fh(2).buf().to_vec()]);
    let outcome = handle_events(&conn, vec![rename(50, "y", 1, "b", 3, false)]);
    assert!(outcome.discovered.is_empty());
    assert_eq!(rows(&conn), vec![("a".into(), ROOT_ID, 2), ("b".into(), ROOT_ID, 3)]);
}

#[test]
fn missing_source_is_created() {
    let conn = with_root();
    ok(&conn, rename(1, "a", 1, "b", 2, false));
    assert_eq!(rows(&conn), vec![("b".into(), ROOT_ID, 2)]);
    ok(&conn, rename(1, "x", 1, "b", 3, false));
    assert_eq!(rows(&conn), vec![("b".into(), ROOT_ID, 3)]);
    ok(&conn, delete(1, 9, "nothing"));
    assert_eq!(rows(&conn), vec![("b".into(), ROOT_ID, 3)]);
}

#[test]
fn create_overwrites() {
    let conn = with_root();
    ok(&conn, create(1, 2, "a", false));
    let outcome = handle_events(&conn, vec![create(1, 3, "a", false)]);
    assert!(outcome.result.is_ok());
    assert_eq!(outcome.statements, 5);
    assert_eq!(rows(&conn), vec![("a".into(), ROOT_ID, 3)]);
}

#[test]
fn root_directory_is_overwritten_by_its_own_entry() {
    let conn = with_root();
    ok(&conn, create(1, 2, "a", true));
    ok(&conn, create(1, 9, "", true));
    assert_eq!(rows(&conn), vec![]);
    assert_eq!(id_of(&conn, 9), ROOT_ID);
}

#[test]
fn longest_move_takes_seven_statements() {
    let conn = with_root();
    ok(&conn, create(1, 2, "a", true));
    ok(&conn, create(2, 3, "b", true));
    ok(&conn, create(3, 4, "c", false));
    // What moves is below what is in the way, and its target goes with it.
    let outcome = handle_events(&conn, vec![rename(3, "c", 1, "a", 4, false)]);
    assert!(outcome.result.is_ok());
    assert_eq!(outcome.statements, 7);
    assert_eq!(rows(&conn), vec![("a".into(), ROOT_ID, 4)]);
}

#[test]
fn create_and_delete_have_no_net_effect() {
    let conn = with_root();
    ok(&conn, create(1, 2, "a", true));
    let before = rows(&conn);
    let outcome =
        handle_events(&conn, vec![create(2, 3, "b", true), delete(2, 3, "b")]);
    assert!(outcome.result.is_ok());
    assert_eq!(rows(&conn), before);
}

#[test]
fn discovered_entries_do_not_overwrite() {
    let conn = with_root();
    ok(&conn, create(1, 2, "a", true));
    ok(&conn, discover(1, 9, "a"));
    ok(&conn, discover(2, 3, "b"));
    assert_eq!(rows(&conn), vec![("a".into(), ROOT_ID, 2), ("b".into(), id_of(&conn, 2), 3)]);
    let outcome = handle_events(&conn, vec![discover(50, 4, "c")]);
    assert!(matches!(outcome.result, Err(Error::NoFile)));
}

#[test]
fn second_discovery_changes_nothing() {
    let conn = with_root();
    ok(&conn, discover(1, 2, "a"));
    let before = rows(&conn);
    ok(&conn, discover(1, 2, "a"));
    assert_eq!(rows(&conn), before);
    // A file with the handle of its directory makes the handle ambiguous.
    ok(&conn, discover(1, 1, "b"));
    let outcome = handle_events(&conn, vec![discover(1, 1, "b")]);
    assert!(matches!(outcome.result, Err(Error::ManyFiles)));
}

#[test]
fn first_failure_undoes_the_batch() {
    let conn = with_root();
    let outcome = handle_events(
        &conn,
        vec![create(1, 2, "a", false), discover(50, 4, "c"), create(1, 3, "b", false)],
    );
    assert!(matches!(outcome.result, Err(Error::NoFile)));
    assert_eq!(outcome.statements, 3);
    assert_eq!(rows(&conn), vec![]);
}

#[test]
fn failed_commit_undoes_the_batch() {
    let conn = with_root();
    ok(&conn, create(1, 2, "a", false));
    let before = rows(&conn);
    let mut batch = Batch::new(vec![create(1, 3, "b", false), delete(1, 2, "a")]);
    loop {
        batch = match batch.action() {
            BatchAction::Begin => {
                batch.step(conn.execute_batch("BEGIN").map(|_| 0).map_err(failure))
            }
            BatchAction::Run(request) => batch.step(raw(&conn, &request)),
            BatchAction::Commit => {
                let busy = Failure { kind: FailureKind::Other, text: "busy".to_string() };
                batch.step(Err(busy))
            }
            BatchAction::Discover(_) => batch.discovered(),
            BatchAction::Done => break,
        };
    }
    assert!(matches!(batch.finish(), Ok(Err(Error::SQLite(_)))));
    conn.execute_batch("ROLLBACK").unwrap();
    assert_eq!(rows(&conn), before);
}

#[test]
fn shared_handle_of_a_directory_fails() {
    let conn = with_root();
    ok(&conn, create(1, 2, "a", false));
    ok(&conn, create(1, 2, "b", false));
    let outcome = handle_events(&conn, vec![create(2, 3, "c", false)]);
    assert!(matches!(outcome.result, Err(Error::ManyFiles)));
    let outcome = handle_events(&conn, vec![rename(2, "c", 1, "d", 3, false)]);
    assert!(matches!(outcome.result, Err(Error::ManyFiles)));
    let outcome = handle_events(&conn, vec![discover(2, 3, "c")]);
    assert!(matches!(outcome.result, Err(Error::ManyFiles)));
}

#[test]
fn begin_and_commit_can_fail() {
    let fail = || Err(Failure { kind: FailureKind::Other, text: "busy".to_string() });
    let batch = Batch::new(vec![]).step(fail());
    assert!(matches!(batch.finish(), Ok(Err(Error::SQLite(_)))));
    let batch = Batch::new(vec![]).step(Ok(0));
    assert!(matches!(batch.action(), BatchAction::Commit));
    assert!(matches!(batch.step(fail()).finish(), Ok(Err(Error::SQLite(_)))));
    let batch = Batch::new(vec![create(1, 2, "a", false)]).step(Ok(0)).step(fail());
    assert!(matches!(batch.finish(), Ok(Err(Error::SQLite(_)))));
}

#[test]
fn move_without_places_is_done() {
    let task = Task::Move(Move::new(make_fh(1), None, None, true));
    assert!(matches!(task.action(), Action::Done));
    assert!(matches!(task.finish(), Ok(Ok(()))));
    let place = Place { name: b"a".to_vec(), p_fh: make_fh(1) };
    let task = Task::Move(Move::new(make_fh(2), None, Some(place), false));
    assert!(matches!(task.action(), Action::Run(Request::GetDirId { .. })));
    assert!(task.finish().is_err());
}

#[test]
fn events_are_gathered_in_order() {
    let mut debounce = Debounce::new();
    assert_eq!(debounce.wait(), Wait::Forever);
    debounce.push(create(1, 2, "a", false));
    assert_eq!(debounce.wait(), Wait::Ms(100));
    assert_eq!(DEBOUNCE_MS, 100);
    debounce.push(delete(1, 2, "a"));
    let events = debounce.timeout();
    assert!(matches!(&events[..], [Event::Create { .. }, Event::Delete { .. }]));
    assert_eq!(debounce.wait(), Wait::Forever);
    assert!(debounce.timeout().is_empty());
}
