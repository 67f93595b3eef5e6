//! Adding files to the database.

use sqsearch::db::{Failure, FailureKind, Request};
use sqsearch::file_handle::{FileHan, FileHandle, FileHandleOps};
use sqsearch::indexer::{index, index_path, IndexAction, IndexPath, IndexedPath, Steps, Visit};

fn make_fh(id: i32) -> FileHandle {
    let mut buf = 4u32.to_le_bytes().to_vec();
    buf.extend_from_slice(&0u32.to_le_bytes());
    buf.extend_from_slice(&id.to_le_bytes());
    FileHan::read_from_buf(&buf).unwrap().to_owned()
}

fn at(path: &[u8], parent: Option<&[u8]>, filename: Option<&[u8]>) -> IndexedPath {
    IndexedPath {
        path: path.to_vec(),
        parent: parent.map(|x| x.to_vec()),
        filename: filename.map(|x| x.to_vec()),
    }
}

fn begun() -> IndexPath {
    index_path(at(b"/mnt/a", Some(b"/mnt"), Some(b"a")))
}

fn message(path: IndexPath) -> String {
    assert!(matches!(path.action(), IndexAction::Done));
    match path.finish() {
        Ok(Err(message)) => message,
        _ => panic!("not a failure"),
    }
}

fn failed(kind: FailureKind) -> Failure {
    Failure { kind, text: "reason".to_string() }
}

#[test]
fn file_is_added_to_its_directory() {
    let path = begun();
    assert!(matches!(path.action(), IndexAction::GetFh(path) if path == b"/mnt/a"));
    let path = path.handle(Some(make_fh(7)));
    assert!(matches!(path.action(), IndexAction::GetFh(path) if path == b"/mnt"));
    let path = path.handle(Some(make_fh(8)));
    match path.action() {
        IndexAction::Run(Request::GetDirId { fh }) => assert_eq!(fh.buf(), make_fh(8).buf()),
        _ => panic!("not a lookup"),
    }
    let path = path.step(Ok(3));
    match path.action() {
        IndexAction::Run(Request::Create { fh, name, p_id }) => {
            assert_eq!(fh.buf(), make_fh(7).buf());
            assert_eq!(name, b"a");
            assert_eq!(p_id, 3);
        }
        _ => panic!("not a create"),
    }
    assert!(matches!(path.step(Ok(4)).finish(), Ok(Ok(()))));
    assert!(begun().finish().is_err());
}

#[test]
fn known_file_is_no_failure() {
    let path = begun().handle(Some(make_fh(7))).handle(Some(make_fh(8))).step(Ok(3));
    assert!(matches!(path.step(Err(failed(FailureKind::Unique))).finish(), Ok(Ok(()))));
    let path = begun().handle(Some(make_fh(7))).handle(Some(make_fh(8))).step(Ok(3));
    assert!(matches!(path.step(Err(failed(FailureKind::ForeignKey))).finish(), Ok(Err(_))));
}

#[test]
fn failures_name_the_path() {
    assert_eq!(
        message(index_path(at(b"/", None, None))),
        "Failed to get parent of path `/`"
    );
    assert_eq!(
        message(index_path(at(b"a/..", Some(b"a"), None))),
        "Failed to get filename of path `a/..`"
    );
    assert_eq!(message(begun().handle(None)), "Failed to get file handle of `/mnt/a`");
    assert_eq!(
        message(begun().handle(Some(make_fh(7))).handle(None)),
        "Failed to get file handle of `/mnt`"
    );
    let found = || begun().handle(Some(make_fh(7))).handle(Some(make_fh(8)));
    assert_eq!(
        message(found().step(Err(failed(FailureKind::NoRows)))),
        "Failed to get database ID of `/mnt`"
    );
    assert_eq!(
        message(found().step(Ok(3)).step(Err(failed(FailureKind::Other)))),
        "Misc DB errror: reason"
    );
    assert_eq!(
        message(index_path(at(b"\xff", None, None))),
        "Failed to get parent of path `\u{fffd}`"
    );
}

#[test]
fn files_are_reported_and_committed_now_and_then() {
    let nothing = Steps { index: false, report: false, commit: false };
    assert_eq!(index(0, Visit::Root), nothing);
    assert_eq!(index(10000, Visit::Unreadable), nothing);
    assert_eq!(index(1, Visit::Entry), Steps { index: true, report: false, commit: false });
    assert_eq!(index(3000, Visit::Entry), Steps { index: true, report: true, commit: false });
    assert_eq!(index(20000, Visit::Entry), Steps { index: true, report: true, commit: true });
}
