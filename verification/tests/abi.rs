//! The numbers that the kernel uses, held against those of libc.

use std::mem::size_of;

use sqsearch::fanotify;
use sqsearch::file_handle;
use sqsearch::util;

#[test]
fn event_masks_are_those_of_libc() {
    assert_eq!(fanotify::FAN_OPEN, libc::FAN_OPEN);
    assert_eq!(fanotify::FAN_CREATE, libc::FAN_CREATE);
    assert_eq!(fanotify::FAN_DELETE, libc::FAN_DELETE);
    assert_eq!(fanotify::FAN_RENAME, libc::FAN_RENAME);
    assert_eq!(fanotify::FAN_ONDIR, libc::FAN_ONDIR);
}

#[test]
fn record_types_are_those_of_libc() {
    assert_eq!(fanotify::FAN_EVENT_INFO_TYPE_FID, libc::FAN_EVENT_INFO_TYPE_FID);
    assert_eq!(fanotify::FAN_EVENT_INFO_TYPE_DFID_NAME, libc::FAN_EVENT_INFO_TYPE_DFID_NAME);
    assert_eq!(fanotify::FAN_EVENT_INFO_TYPE_DFID, libc::FAN_EVENT_INFO_TYPE_DFID);
    assert_eq!(
        fanotify::FAN_EVENT_INFO_TYPE_OLD_DFID_NAME,
        libc::FAN_EVENT_INFO_TYPE_OLD_DFID_NAME
    );
    assert_eq!(
        fanotify::FAN_EVENT_INFO_TYPE_NEW_DFID_NAME,
        libc::FAN_EVENT_INFO_TYPE_NEW_DFID_NAME
    );
}

#[test]
fn lengths_are_those_of_libc() {
    assert_eq!(fanotify::METADATA_LEN, size_of::<libc::fanotify_event_metadata>());
    assert_eq!(fanotify::INFO_HEADER_LEN, size_of::<libc::fanotify_event_info_header>());
    assert_eq!(fanotify::INFO_FID_LEN, size_of::<libc::fanotify_event_info_fid>());
    assert_eq!(file_handle::HEADER_LEN, size_of::<libc::file_handle>());
}

#[test]
fn numbers_are_little_endian() {
    let buf = [9u8, 1, 2, 3, 4, 5, 6, 7, 8];
    assert_eq!(util::read_u16(&buf, 1), u16::from_le_bytes([1, 2]));
    assert_eq!(util::read_u32(&buf, 1), u32::from_le_bytes([1, 2, 3, 4]));
    assert_eq!(util::read_u64(&buf, 1), u64::from_le_bytes([1, 2, 3, 4, 5, 6, 7, 8]));
    assert_eq!(util::read_u64(&[0xff; 8], 0), u64::MAX);
}
