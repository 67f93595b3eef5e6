//! File handles, and what is filtered by them.

use sqsearch::file_handle::{read_header, FileHan, FileHandle, FileHandleInvalidError, FileHandleOps};
use sqsearch::filter;
use sqsearch::watchpath::{
    get_root_objectid, holds_subvol, prepare_fanotify, Filter, WatchPathArgs,
};

fn handle(kind: i32, payload: &[u8]) -> Vec<u8> {
    let mut bytes = (payload.len() as u32).to_le_bytes().to_vec();
    bytes.extend_from_slice(&kind.to_le_bytes());
    bytes.extend_from_slice(payload);
    bytes
}

fn btrfs_handle(objectid: u64, root_objectid: u64) -> Vec<u8> {
    let mut payload = objectid.to_le_bytes().to_vec();
    payload.extend_from_slice(&root_objectid.to_le_bytes());
    payload.extend_from_slice(&7u32.to_le_bytes());
    handle(0x4d, &payload)
}

#[test]
fn handle_ends_where_its_header_says() {
    let mut buf = handle(5, &[1, 2, 3]);
    buf.extend_from_slice(&[0xaa, 0xbb]);
    let fh = FileHan::read_from_buf(&buf).unwrap();
    assert_eq!(fh.bytes(), &buf[..11]);
    assert_eq!(fh.buf(), &buf[..11]);
    assert_eq!(fh.f_handle(), &[1, 2, 3]);
    assert_eq!(fh.size(), 11);
    let header = read_header(&buf);
    assert_eq!(header.handle_bytes, 3);
    assert_eq!(header.handle_type, 5);
}

#[test]
fn cut_handle_is_invalid() {
    let buf = handle(5, &[1, 2, 3]);
    assert!(matches!(FileHan::read_from_buf(&buf[..10]), Err(FileHandleInvalidError)));
    assert!(FileHan::read_from_buf(&buf).is_ok());
}

#[test]
fn owned_handle_keeps_the_bytes() {
    let buf = handle(-1, &[4, 5, 6, 7]);
    let fh = FileHan::read_from_buf(&buf).unwrap();
    let owned = FileHandle::new(&fh);
    assert_eq!(owned.buf(), &buf[..]);
    assert_eq!(owned.clone().buf(), &buf[..]);
    assert_eq!(owned.borrow().bytes(), &buf[..]);
    assert_eq!(owned.deref().to_owned().f_handle(), &[4, 5, 6, 7]);
    assert_eq!(owned.size(), 12);
    assert_eq!(FileHan::unchecked(&buf).bytes(), &buf[..]);
    assert_eq!(read_header(&buf).handle_type, -1);
}

#[test]
fn subvolume_comes_after_the_object() {
    let bytes = btrfs_handle(300, 5);
    let fh = FileHan::read_from_buf(&bytes).unwrap();
    assert!(holds_subvol(&fh));
    assert_eq!(get_root_objectid(&fh), 5);
    let short = handle(1, &[0; 19]);
    assert!(!holds_subvol(&FileHan::read_from_buf(&short).unwrap()));
}

#[test]
fn watched_path_without_subvolume() {
    let args = WatchPathArgs { path: b"/mnt/data".to_vec(), btrfs_root: None };
    let (path, filter) = prepare_fanotify(&args, None);
    assert_eq!(path, b"/mnt/data");
    assert_eq!(filter, Filter::All);
    let short = handle(1, &[]);
    let fh = FileHan::read_from_buf(&short).unwrap();
    assert!(filter.applies(&fh));
    assert!(filter.apply(&fh));
}

#[test]
fn watched_subvolume() {
    let args = WatchPathArgs {
        path: b"/mnt/data".to_vec(),
        btrfs_root: Some(b"/mnt/root".to_vec()),
    };
    let child = btrfs_handle(256, 257);
    let (path, filter) = prepare_fanotify(&args, Some(FileHan::read_from_buf(&child).unwrap()));
    assert_eq!(path, b"/mnt/root");
    assert_eq!(filter, Filter::Subvol { root_objectid: 257 });
    let inside = btrfs_handle(1000, 257);
    let outside = btrfs_handle(1000, 258);
    assert!(filter.apply(&FileHan::read_from_buf(&inside).unwrap()));
    assert!(!filter.apply(&FileHan::read_from_buf(&outside).unwrap()));
    let short = handle(1, &[]);
    assert!(!filter.applies(&FileHan::read_from_buf(&short).unwrap()));
}

#[test]
fn ignored_names_are_left_out() {
    let config = filter::Config { ignores: vec!["node_modules".to_string(), "한국어".to_string()] };
    let filter = filter::Filter::load(&config);
    let bytes = handle(1, &[1]);
    let fh = FileHan::read_from_buf(&bytes).unwrap();
    let with = |name: &'static [u8]| {
        filter.allow(&fh, Some((FileHan::read_from_buf(&bytes).unwrap(), name)))
    };
    assert!(!with(b"node_modules"));
    assert!(!with("한국어".as_bytes()));
    assert!(with(b"node_module"));
    assert!(with(b"Node_modules"));
    assert!(with(b""));
    assert!(filter.allow(&fh, None));
}

#[test]
fn other_subvolumes_are_left_out() {
    let mut filter = filter::Filter::load(&filter::Config { ignores: vec!["a".to_string()] });
    let subvol = btrfs_handle(1, 9);
    filter.add_btrfs_subvol(&FileHan::read_from_buf(&subvol).unwrap());
    let inside = btrfs_handle(2, 9);
    let inside = FileHan::read_from_buf(&inside).unwrap();
    let outside = btrfs_handle(2, 8);
    let outside = FileHan::read_from_buf(&outside).unwrap();
    assert!(filter.allow(&inside, None));
    assert!(!filter.allow(&outside, None));
    let parent = FileHan::read_from_buf(&subvol).unwrap();
    assert!(!filter.allow(&inside, Some((parent, b"a"))));
    let parent = FileHan::read_from_buf(&subvol).unwrap();
    assert!(filter.allow(&inside, Some((parent, b"b"))));
}
