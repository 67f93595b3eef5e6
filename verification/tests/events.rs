//! Events of a fanotify group, read and decoded.

use sqsearch::fanotify::{
    holds_handle, holds_name, read_create_delete, read_fh, read_metadata, read_name, read_open,
    read_rename, try_read_create_delete, try_read_open, try_read_rename, FAN_CREATE, FAN_DELETE,
    FAN_EVENT_INFO_TYPE_DFID, FAN_EVENT_INFO_TYPE_DFID_NAME, FAN_EVENT_INFO_TYPE_FID,
    FAN_EVENT_INFO_TYPE_NEW_DFID_NAME, FAN_EVENT_INFO_TYPE_OLD_DFID_NAME, FAN_ONDIR, FAN_OPEN,
    FAN_RENAME,
};
use sqsearch::fanotify_reader;
use sqsearch::fanotify_reader::Reader;
use sqsearch::file_handle::FileHandleOps;
use sqsearch::watcher::decode::read_event;
use sqsearch::watcher::{Decoded, Event, FanotifyState};
use sqsearch::watchpath::Filter;

fn handle(id: u64) -> Vec<u8> {
    let mut bytes = 20u32.to_le_bytes().to_vec();
    bytes.extend_from_slice(&1i32.to_le_bytes());
    bytes.extend_from_slice(&id.to_le_bytes());
    bytes.extend_from_slice(&(id % 10).to_le_bytes());
    bytes.extend_from_slice(&0u32.to_le_bytes());
    bytes
}

fn record(kind: u8, fh: &[u8], name: Option<&[u8]>) -> Vec<u8> {
    let mut body = vec![0xee; 8];
    body.extend_from_slice(fh);
    if let Some(name) = name {
        body.extend_from_slice(name);
        body.push(0);
    }
    while (body.len() + 4) % 4 != 0 {
        body.push(0);
    }
    let mut bytes = vec![kind, 0];
    bytes.extend_from_slice(&((body.len() + 4) as u16).to_le_bytes());
    bytes.extend_from_slice(&body);
    bytes
}

fn event(mask: u64, pid: i32, records: &[Vec<u8>]) -> Vec<u8> {
    let len: usize = records.iter().map(|r| r.len()).sum();
    let mut bytes = ((24 + len) as u32).to_le_bytes().to_vec();
    bytes.extend_from_slice(&[3, 0]);
    bytes.extend_from_slice(&24u16.to_le_bytes());
    bytes.extend_from_slice(&mask.to_le_bytes());
    bytes.extend_from_slice(&(-1i32).to_le_bytes());
    bytes.extend_from_slice(&pid.to_le_bytes());
    for record in records {
        bytes.extend_from_slice(record);
    }
    bytes
}

fn fid(id: u64) -> Vec<u8> {
    record(FAN_EVENT_INFO_TYPE_FID, &handle(id), None)
}

fn dfid_name(kind: u8, id: u64, name: &[u8]) -> Vec<u8> {
    record(kind, &handle(id), Some(name))
}

fn created(mask: u64, id: u64, p_id: u64, name: &[u8]) -> Vec<u8> {
    event(mask, 1, &[dfid_name(FAN_EVENT_INFO_TYPE_DFID_NAME, p_id, name), fid(id)])
}

fn renamed(mask: u64) -> Vec<u8> {
    event(
        mask,
        1,
        &[
            dfid_name(FAN_EVENT_INFO_TYPE_OLD_DFID_NAME, 21, b"old"),
            dfid_name(FAN_EVENT_INFO_TYPE_NEW_DFID_NAME, 32, b"new"),
            fid(11),
        ],
    )
}

#[test]
fn metadata_fields() {
    let bytes = event(FAN_CREATE | FAN_ONDIR, -5, &[fid(1)]);
    let metadata = read_metadata(&bytes);
    assert_eq!(metadata.event_len as usize, bytes.len());
    assert_eq!(metadata.vers, 3);
    assert_eq!(metadata.reserved, 0);
    assert_eq!(metadata.metadata_len, 24);
    assert_eq!(metadata.mask, FAN_CREATE | FAN_ONDIR);
    assert_eq!(metadata.fd, -1);
    assert_eq!(metadata.pid, -5);
}

#[test]
fn record_with_handle_and_name() {
    let bytes = dfid_name(FAN_EVENT_INFO_TYPE_DFID_NAME, 4, b"name");
    assert!(holds_handle(&bytes, 0));
    assert!(holds_name(&bytes, 0));
    assert_eq!(read_fh(&bytes).bytes(), &handle(4)[..]);
    assert_eq!(read_name(&bytes), b"name");
    assert!(!holds_handle(&bytes[..30], 0));
    assert!(!holds_name(&bytes[..44], 0));
    assert!(!holds_handle(&bytes, bytes.len()));
    assert!(!holds_handle(&bytes, usize::MAX));
}

#[test]
fn create_event() {
    let bytes = created(FAN_CREATE, 1, 2, b"a");
    let (fh, (p_fh, name)) = read_create_delete(&bytes, &read_metadata(&bytes));
    assert_eq!(fh.bytes(), &handle(1)[..]);
    assert_eq!(p_fh.bytes(), &handle(2)[..]);
    assert_eq!(name, b"a");
}

#[test]
fn last_record_of_a_type_counts() {
    let bytes = event(
        FAN_DELETE,
        1,
        &[
            fid(1),
            dfid_name(FAN_EVENT_INFO_TYPE_DFID_NAME, 2, b"a"),
            fid(3),
            dfid_name(FAN_EVENT_INFO_TYPE_DFID_NAME, 4, b"b"),
            record(200, &handle(5), None),
        ],
    );
    let (fh, (p_fh, name)) = read_create_delete(&bytes, &read_metadata(&bytes));
    assert_eq!(fh.bytes(), &handle(3)[..]);
    assert_eq!(p_fh.bytes(), &handle(4)[..]);
    assert_eq!(name, b"b");
}

#[test]
fn events_without_their_records_are_not_whole() {
    let bytes = event(FAN_CREATE, 1, &[fid(1)]);
    assert!(try_read_create_delete(&bytes, &read_metadata(&bytes)).is_none());
    assert!(try_read_rename(&bytes, &read_metadata(&bytes)).is_none());
    assert!(try_read_open(&bytes, &read_metadata(&bytes)).is_some());
    let bytes = created(FAN_CREATE, 1, 2, b"a");
    let metadata = read_metadata(&bytes);
    assert!(try_read_create_delete(&bytes[..bytes.len() - 1], &metadata).is_none());
}

#[test]
fn rename_event() {
    let bytes = renamed(FAN_RENAME);
    let (fh, old, new) = read_rename(&bytes, &read_metadata(&bytes));
    assert_eq!(fh.bytes(), &handle(11)[..]);
    assert_eq!(old.0.bytes(), &handle(21)[..]);
    assert_eq!(old.1, b"old");
    assert_eq!(new.0.bytes(), &handle(32)[..]);
    assert_eq!(new.1, b"new");
}

#[test]
fn open_event_of_a_directory() {
    let records = [record(FAN_EVENT_INFO_TYPE_DFID, &handle(8), None)];
    let bytes = event(FAN_OPEN | FAN_ONDIR, 1, &records);
    assert_eq!(read_open(&bytes, &read_metadata(&bytes)).bytes(), &handle(8)[..]);
    let bytes = event(FAN_OPEN, 1, &records);
    assert!(try_read_open(&bytes, &read_metadata(&bytes)).is_none());
}

#[test]
fn open_event_of_a_directory_by_its_own_name() {
    let own = dfid_name(FAN_EVENT_INFO_TYPE_DFID_NAME, 8, b".");
    let other = dfid_name(FAN_EVENT_INFO_TYPE_DFID_NAME, 9, b"a");
    let bytes = event(FAN_OPEN | FAN_ONDIR, 1, &[own.clone()]);
    assert_eq!(read_open(&bytes, &read_metadata(&bytes)).bytes(), &handle(8)[..]);
    let bytes = event(FAN_OPEN, 1, &[own.clone()]);
    assert!(try_read_open(&bytes, &read_metadata(&bytes)).is_none());
    let bytes = event(FAN_OPEN | FAN_ONDIR, 1, &[other.clone()]);
    assert!(try_read_open(&bytes, &read_metadata(&bytes)).is_none());
    let bytes = event(FAN_OPEN | FAN_ONDIR, 1, &[own, other]);
    assert_eq!(read_open(&bytes, &read_metadata(&bytes)).bytes(), &handle(8)[..]);
}

fn changes(bytes: &[u8], filter: &Filter) -> Vec<Event> {
    match read_event(bytes, filter, 77).unwrap() {
        Decoded::Changes(events) => events,
        Decoded::Opened(_) => panic!("not a change"),
    }
}

#[test]
fn decoded_create() {
    let events = changes(&created(FAN_CREATE | FAN_ONDIR, 1, 2, b"dir"), &Filter::All);
    assert_eq!(events.len(), 1);
    match &events[0] {
        Event::Create { p_fh, fh, name, is_dir } => {
            assert_eq!(p_fh.buf(), &handle(2)[..]);
            assert_eq!(fh.buf(), &handle(1)[..]);
            assert_eq!(name, b"dir");
            assert!(*is_dir);
        }
        _ => panic!("not a create"),
    }
}

#[test]
fn decoded_delete_and_rename() {
    let events = changes(&created(FAN_DELETE, 1, 2, b"file"), &Filter::All);
    assert!(matches!(&events[..], [Event::Delete { is_dir: false, .. }]));
    let events = changes(&renamed(FAN_RENAME), &Filter::All);
    match &events[..] {
        [Event::Rename { old_p_fh, new_p_fh, fh, old_name, new_name, is_dir }] => {
            assert_eq!(old_p_fh.buf(), &handle(21)[..]);
            assert_eq!(new_p_fh.buf(), &handle(32)[..]);
            assert_eq!(fh.buf(), &handle(11)[..]);
            assert_eq!(old_name, b"old");
            assert_eq!(new_name, b"new");
            assert!(!*is_dir);
        }
        _ => panic!("not a rename"),
    }
}

#[test]
fn created_and_deleted_again_is_nothing() {
    let events = changes(&created(FAN_CREATE | FAN_DELETE | FAN_ONDIR, 1, 2, b"x"), &Filter::All);
    assert!(events.is_empty());
}

#[test]
fn several_changes_in_one_event() {
    let bytes = event(
        FAN_CREATE | FAN_DELETE | FAN_RENAME,
        1,
        &[
            dfid_name(FAN_EVENT_INFO_TYPE_DFID_NAME, 2, b"a"),
            dfid_name(FAN_EVENT_INFO_TYPE_OLD_DFID_NAME, 3, b"b"),
            dfid_name(FAN_EVENT_INFO_TYPE_NEW_DFID_NAME, 4, b"c"),
            fid(1),
        ],
    );
    let events = changes(&bytes, &Filter::All);
    assert!(matches!(
        &events[..],
        [Event::Create { .. }, Event::Delete { .. }, Event::Rename { .. }]
    ));
    let events = changes(&bytes, &Filter::Subvol { root_objectid: 2 });
    assert!(events.is_empty());
}

#[test]
fn only_watched_files_are_reported() {
    let filter = Filter::Subvol { root_objectid: 3 };
    assert_eq!(changes(&created(FAN_CREATE, 13, 2, b"x"), &filter).len(), 1);
    assert_eq!(changes(&created(FAN_CREATE, 14, 2, b"x"), &filter).len(), 0);
    let short = record(FAN_EVENT_INFO_TYPE_FID, &[0, 0, 0, 0, 1, 0, 0, 0], None);
    let bytes = event(
        FAN_CREATE,
        1,
        &[dfid_name(FAN_EVENT_INFO_TYPE_DFID_NAME, 2, b"x"), short],
    );
    assert!(read_event(&bytes, &filter, 77).is_none());
}

#[test]
fn only_opens_by_the_discoverer_count() {
    let bytes = event(FAN_OPEN, 77, &[fid(5)]);
    match read_event(&bytes, &Filter::All, 77).unwrap() {
        Decoded::Opened(fh) => assert_eq!(fh.buf(), &handle(5)[..]),
        Decoded::Changes(_) => panic!("not opened"),
    }
    let bytes = event(FAN_OPEN, 78, &[fid(5)]);
    assert!(changes(&bytes, &Filter::All).is_empty());
}

#[test]
fn all_events_in_a_buffer_are_read() {
    let mut buf = vec![0; 4096];
    let first = created(FAN_CREATE, 1, 2, b"a");
    let second = created(FAN_DELETE, 3, 4, b"bcdefgh");
    buf[..first.len()].copy_from_slice(&first);
    buf[first.len()..first.len() + second.len()].copy_from_slice(&second);
    let mut state = FanotifyState::new(Filter::All, 77);
    assert!(state.wants_read());
    state.filled(first.len() + second.len());
    assert!(!state.wants_read());
    assert!(state.holds_event(&buf));
    assert!(matches!(
        &state.next(&buf),
        Some(Decoded::Changes(events)) if matches!(&events[..], [Event::Create { .. }])
    ));
    assert!(!state.wants_read());
    assert!(state.holds_event(&buf));
    assert!(matches!(
        &state.next(&buf),
        Some(Decoded::Changes(events)) if matches!(&events[..], [Event::Delete { .. }])
    ));
    assert!(state.wants_read());
    state.filled(0);
    assert!(state.wants_read());
    assert!(!state.holds_event(&buf[..23]));
}

#[test]
fn discovered_files_are_reported_if_watched() {
    let state = FanotifyState::new(Filter::Subvol { root_objectid: 3 }, 77);
    let read = |id: u64| {
        let bytes = event(FAN_OPEN, 77, &[fid(id)]);
        match read_event(&bytes, &Filter::All, 77).unwrap() {
            Decoded::Opened(fh) => fh,
            Decoded::Changes(_) => panic!("not opened"),
        }
    };
    match state.discovered(&read(13).deref(), read(2), b"n".to_vec()) {
        Some(Event::Discover { p_fh, fh, name }) => {
            assert_eq!(p_fh.buf(), &handle(2)[..]);
            assert_eq!(fh.buf(), &handle(13)[..]);
            assert_eq!(name, b"n");
        }
        _ => panic!("not discovered"),
    }
    assert!(state.discovered(&read(14).deref(), read(2), b"n".to_vec()).is_none());
}

#[test]
fn reader_takes_known_records_only() {
    let mut reader = Reader::new();
    assert_eq!(reader.buf.len(), 4096);
    let first = created(FAN_CREATE, 1, 2, b"a");
    let second = renamed(FAN_RENAME);
    let third = event(FAN_DELETE, 1, &[record(200, &handle(5), None), fid(6)]);
    let mut len = 0;
    for bytes in [&first, &second, &third] {
        reader.buf[len..len + bytes.len()].copy_from_slice(bytes);
        len += bytes.len();
    }
    let (events, outcome) = reader.map_events(len);
    assert!(matches!(outcome, Some(Err(fanotify_reader::Error::Logic))));
    assert_eq!(events.len(), 2);
    let create = events[0].as_create().unwrap().unwrap();
    assert_eq!(create.p_fh().bytes(), &handle(2)[..]);
    assert_eq!(create.name(), b"a");
    assert_eq!(events[0].fh().bytes(), &handle(1)[..]);
    assert!(events[0].as_delete().unwrap().is_none());
    assert!(events[0].as_move().unwrap().is_none());
    let moved = events[1].as_move().unwrap().unwrap();
    assert_eq!(moved.old_p_fh().bytes(), &handle(21)[..]);
    assert_eq!(moved.old_name(), b"old");
    assert_eq!(moved.new_p_fh().bytes(), &handle(32)[..]);
    assert_eq!(moved.new_name(), b"new");
    let (events, outcome) = reader.map_events(first.len() + second.len());
    assert_eq!(events.len(), 2);
    assert!(matches!(outcome, Some(Ok(()))));
}

#[test]
fn reader_hands_over_what_comes_before_a_cut_event() {
    let mut reader = Reader::new();
    let first = created(FAN_CREATE, 1, 2, b"a");
    let mut second = event(FAN_DELETE, 1, &[fid(3)]);
    second[..4].copy_from_slice(&5000u32.to_le_bytes());
    second[26..28].copy_from_slice(&4900u16.to_le_bytes());
    let len = first.len() + second.len();
    reader.buf[..first.len()].copy_from_slice(&first);
    reader.buf[first.len()..len].copy_from_slice(&second);
    let (events, outcome) = reader.map_events(len);
    assert!(outcome.is_none());
    assert_eq!(events.len(), 1);
    assert_eq!(events[0].as_create().unwrap().unwrap().name(), b"a");
}

#[test]
fn reader_refuses_half_of_a_rename() {
    let bytes = event(
        FAN_RENAME,
        1,
        &[fid(1), dfid_name(FAN_EVENT_INFO_TYPE_OLD_DFID_NAME, 2, b"a")],
    );
    assert!(matches!(
        fanotify_reader::Event::from_slice(&bytes),
        Err(fanotify_reader::Error::Logic)
    ));
    assert!(fanotify_reader::Event::try_from_slice(&bytes[..30]).is_none());
    let bytes = event(FAN_CREATE | FAN_DELETE | FAN_RENAME, 1, &[fid(1)]);
    let (event, len) = fanotify_reader::Event::from_slice(&bytes).unwrap();
    assert_eq!(len, bytes.len());
    assert!(event.as_create().is_err());
    assert!(event.as_delete().is_err());
    assert!(event.as_move().is_err());
}

#[test]
fn reader_error_messages() {
    assert_eq!(fanotify_reader::Error::Logic.message(), "Logic error");
    assert_eq!(
        fanotify_reader::Error::Read("no such device".to_string()).message(),
        "Read error: no such device"
    );
}
