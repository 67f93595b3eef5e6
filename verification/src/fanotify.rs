//! Reading the events of a fanotify group that reports file handles and names.
//!
//! An event is a metadata record followed by information records. Of the
//! information records only those that carry a handle are of interest here: an
//! information record starts with its type and length, then the filesystem's
//! identifier, the handle, and for some types a name that ends with a zero byte.

pub mod written;

use vstd::prelude::*;
use vstd::slice::slice_subrange;

use crate::file_handle::{handle_len, is_handle, FileHan, HEADER_LEN};
use crate::util;

verus! {

/// A file was opened.
pub const FAN_OPEN: u64 = 0x20;

/// An entry was created in a directory.
pub const FAN_CREATE: u64 = 0x100;

/// An entry was deleted from a directory.
pub const FAN_DELETE: u64 = 0x200;

/// An entry was renamed.
pub const FAN_RENAME: u64 = 0x1000_0000;

/// The subject of the event is a directory.
pub const FAN_ONDIR: u64 = 0x4000_0000;

/// The record holds the handle of the subject.
pub const FAN_EVENT_INFO_TYPE_FID: u8 = 1;

/// The record holds the handle of a directory and the name of an entry.
pub const FAN_EVENT_INFO_TYPE_DFID_NAME: u8 = 2;

/// The record holds the handle of a directory.
pub const FAN_EVENT_INFO_TYPE_DFID: u8 = 3;

/// The record holds the directory and the name before a rename.
pub const FAN_EVENT_INFO_TYPE_OLD_DFID_NAME: u8 = 10;

/// The record holds the directory and the name after a rename.
pub const FAN_EVENT_INFO_TYPE_NEW_DFID_NAME: u8 = 12;

/// The length of the metadata record.
pub const METADATA_LEN: usize = 24;

/// The length of the type and length fields of an information record.
pub const INFO_HEADER_LEN: usize = 4;

/// Where the handle starts in an information record.
pub const INFO_FID_LEN: usize = 12;

/// The metadata record of an event.
#[derive(Debug, Clone, Copy, PartialEq, Eq, Structural)]
pub struct EventMetadata {
    pub event_len: u32,
    pub vers: u8,
    pub reserved: u8,
    pub metadata_len: u16,
    pub mask: u64,
    pub fd: i32,
    pub pid: i32,
}

/// The metadata record that `buf` starts with.
pub open spec fn metadata_of(buf: Seq<u8>) -> EventMetadata {
    EventMetadata {
        event_len: util::u32_at(buf, 0),
        vers: buf[4],
        reserved: buf[5],
        metadata_len: util::u16_at(buf, 6),
        mask: util::u64_at(buf, 8),
        fd: util::u32_at(buf, 16) as i32,
        pid: util::u32_at(buf, 20) as i32,
    }
}

/// Reads the metadata record at the start of `buf`.
pub fn read_metadata(buf: &[u8]) -> (r: EventMetadata)
    requires
        METADATA_LEN <= buf@.len(),
    ensures
        r == metadata_of(buf@),
{
    EventMetadata {
        event_len: util::read_u32(buf, 0),
        vers: buf[4],
        reserved: buf[5],
        metadata_len: util::read_u16(buf, 6),
        mask: util::read_u64(buf, 8),
        fd: util::read_u32(buf, 16) as i32,
        pid: util::read_u32(buf, 20) as i32,
    }
}

/// The type of the information record at `start`.
pub open spec fn info_type(buf: Seq<u8>, start: int) -> u8 {
    buf[start]
}

/// The length of the information record at `start`.
pub open spec fn info_len(buf: Seq<u8>, start: int) -> int {
    util::u16_at(buf, start + 2) as int
}

/// Where the information records from `ptr` up to `end` start, each following
/// the one before it; `None` if they cannot be told apart, because a record is
/// cut off by the end of the buffer or has no length.
pub open spec fn records(buf: Seq<u8>, ptr: int, end: int) -> Option<Seq<int>>
    decreases
        if ptr < end {
            end - ptr
        } else {
            0
        },
{
    if ptr >= end {
        Some(Seq::empty())
    } else if ptr + INFO_HEADER_LEN > buf.len() || info_len(buf, ptr) <= 0 {
        None
    } else {
        match records(buf, ptr + info_len(buf, ptr), end) {
            Some(rest) => Some(seq![ptr] + rest),
            None => None,
        }
    }
}

/// The information records of the event that `buf` starts with.
pub open spec fn info_records(buf: Seq<u8>, metadata: EventMetadata) -> Option<Seq<int>> {
    records(buf, metadata.metadata_len as int, metadata.event_len as int)
}

/// The last record of the type `kind`.
pub open spec fn last_of(buf: Seq<u8>, starts: Seq<int>, kind: u8) -> Option<int>
    decreases starts.len(),
{
    if starts.len() == 0 {
        None
    } else if info_type(buf, starts.last()) == kind {
        Some(starts.last())
    } else {
        last_of(buf, starts.drop_last(), kind)
    }
}

/// Whether the record at `start` holds a whole handle.
pub open spec fn has_handle(buf: Seq<u8>, start: int) -> bool {
    let at = start + INFO_FID_LEN;
    &&& at + HEADER_LEN <= buf.len()
    &&& at + handle_len(buf.subrange(at, buf.len() as int)) <= buf.len()
}

/// Where the handle of the record at `start` ends.
pub open spec fn handle_end(buf: Seq<u8>, start: int) -> int {
    let at = start + INFO_FID_LEN;
    at + handle_len(buf.subrange(at, buf.len() as int))
}

/// The handle of the record at `start`.
pub open spec fn handle_at(buf: Seq<u8>, start: int) -> Seq<u8> {
    buf.subrange(start + INFO_FID_LEN, handle_end(buf, start))
}

/// The place of the first zero byte at or after `from`, or the end of `buf`.
pub open spec fn first_nul(buf: Seq<u8>, from: int) -> int
    decreases buf.len() - from,
{
    if from >= buf.len() || buf[from] == 0 {
        from
    } else {
        first_nul(buf, from + 1)
    }
}

/// Whether the record at `start` holds a whole handle and, after it, a name
/// that ends with a zero byte.
pub open spec fn has_name(buf: Seq<u8>, start: int) -> bool {
    &&& has_handle(buf, start)
    &&& first_nul(buf, handle_end(buf, start)) < buf.len()
}

/// The name in the record at `start`, without the zero byte.
pub open spec fn name_at(buf: Seq<u8>, start: int) -> Seq<u8> {
    buf.subrange(handle_end(buf, start), first_nul(buf, handle_end(buf, start)))
}

/// Whether every record of the type `kind` holds a whole handle.
pub open spec fn handles_whole(buf: Seq<u8>, starts: Seq<int>, kind: u8) -> bool {
    forall|i: int|
        0 <= i < starts.len() && info_type(buf, #[trigger] starts[i]) == kind ==> has_handle(
            buf,
            starts[i],
        )
}

/// Whether every record of the type `kind` holds a whole handle and a name.
pub open spec fn names_whole(buf: Seq<u8>, starts: Seq<int>, kind: u8) -> bool {
    forall|i: int|
        0 <= i < starts.len() && info_type(buf, #[trigger] starts[i]) == kind ==> has_name(
            buf,
            starts[i],
        )
}

/// The numbers in `s`, as integers.
pub open spec fn ints(s: Seq<usize>) -> Seq<int> {
    s.map_values(|x: usize| x as int)
}

/// Whether the records are sound: each has its type and length inside `buf`.
pub open spec fn inside(buf: Seq<u8>, starts: Seq<int>) -> bool {
    forall|i: int|
        0 <= i < starts.len() ==> 0 <= #[trigger] starts[i] && starts[i] + INFO_HEADER_LEN
            <= buf.len()
}

/// Finds where the information records start.
fn find_records(buf: &[u8], metadata: &EventMetadata) -> (r: Option<Vec<usize>>)
    ensures
        r is Some <==> info_records(buf@, *metadata) is Some,
        r matches Some(starts) ==> {
            &&& info_records(buf@, *metadata) == Some(ints(starts@))
            &&& inside(buf@, ints(starts@))
        },
{
    let len: usize = buf.len();
    let end: u64 = metadata.event_len as u64;
    let mut ptr: u64 = metadata.metadata_len as u64;
    let mut starts: Vec<usize> = Vec::new();
    assert(ints(starts@) =~= Seq::<int>::empty());
    proof {
        if let Some(all) = info_records(buf@, *metadata) {
            assert(Seq::<int>::empty() + all =~= all);
        }
    }
    while ptr < end
        invariant
            len == buf@.len(),
            end == metadata.event_len,
            ptr <= 0x1_0001_0000,
            inside(buf@, ints(starts@)),
            info_records(buf@, *metadata) == (match records(buf@, ptr as int, end as int) {
                Some(rest) => Some(ints(starts@) + rest),
                None => None,
            }),
        decreases 0x1_0001_0000 - ptr,
    {
        if ptr + INFO_HEADER_LEN as u64 > len as u64 {
            return None;
        }
        let info_len: u16 = util::read_u16(buf, ptr as usize + 2);
        if info_len == 0 {
            return None;
        }
        let ghost before = ints(starts@);
        starts.push(ptr as usize);
        assert(ints(starts@) =~= before.push(ptr as int));
        proof {
            let next = ptr as int + info_len as int;
            if let Some(rest) = records(buf@, next, end as int) {
                assert(before + (seq![ptr as int] + rest) =~= before.push(ptr as int) + rest);
            }
        }
        ptr = ptr + info_len as u64;
    }
    assert(ints(starts@) + Seq::<int>::empty() =~= ints(starts@));
    Some(starts)
}

/// Finds the last record of a type.
fn find_last(buf: &[u8], starts: &Vec<usize>, kind: u8) -> (r: Option<usize>)
    requires
        inside(buf@, ints(starts@)),
    ensures
        r is Some <==> last_of(buf@, ints(starts@), kind) is Some,
        r matches Some(start) ==> {
            &&& last_of(buf@, ints(starts@), kind) == Some(start as int)
            &&& exists|i: int| 0 <= i < starts@.len() && #[trigger] starts@[i] == start
            &&& info_type(buf@, start as int) == kind
        },
{
    let mut n: usize = starts.len();
    assert(ints(starts@).take(n as int) =~= ints(starts@));
    while n > 0
        invariant
            n <= starts@.len(),
            inside(buf@, ints(starts@)),
            last_of(buf@, ints(starts@), kind) == last_of(
                buf@,
                ints(starts@).take(n as int),
                kind,
            ),
        decreases n,
    {
        let start: usize = starts[n - 1];
        assert(ints(starts@)[n - 1] == start);
        assert(ints(starts@).take(n as int).last() == start as int);
        assert(ints(starts@).take(n as int).drop_last() =~= ints(starts@).take(n - 1));
        if buf[start] == kind {
            return Some(start);
        }
        n -= 1;
    }
    None
}

/// Reads the handle of the record at `start`.
pub(crate) fn try_read_fh<'a>(buf: &'a [u8], start: usize) -> (r: Option<FileHan<'a>>)
    requires
        start <= buf@.len(),
    ensures
        r is Some <==> has_handle(buf@, start as int),
        r matches Some(h) ==> h@ == handle_at(buf@, start as int) && is_handle(h@),
{
    if buf.len() - start < INFO_FID_LEN + HEADER_LEN {
        return None;
    }
    let after_fid = slice_subrange(buf, start + INFO_FID_LEN, buf.len());
    match FileHan::read_from_buf(after_fid) {
        Ok(h) => {
            assert(h@ =~= handle_at(buf@, start as int));
            Some(h)
        },
        Err(_) => None,
    }
}

/// Reads the handle of the record that `buf` starts with.
pub fn read_fh<'a>(buf: &'a [u8]) -> (r: FileHan<'a>)
    requires
        has_handle(buf@, 0),
    ensures
        r@ == handle_at(buf@, 0),
        is_handle(r@),
{
    try_read_fh(buf, 0).unwrap()
}

/// Reads the name in the record at `start`.
pub(crate) fn try_read_name<'a>(buf: &'a [u8], start: usize) -> (r: Option<&'a [u8]>)
    requires
        start <= buf@.len(),
    ensures
        r is Some <==> has_name(buf@, start as int),
        r matches Some(name) ==> name@ == name_at(buf@, start as int),
{
    let fh = match try_read_fh(buf, start) {
        Some(fh) => fh,
        None => {
            return None;
        },
    };
    let len: usize = buf.len();
    let size: usize = fh.bytes().len();
    assert(handle_end(buf@, start as int) <= len);
    let name_start: usize = start + INFO_FID_LEN + size;
    assert(name_start == handle_end(buf@, start as int));
    let mut end: usize = name_start;
    while end < len
        invariant
            len == buf@.len(),
            has_handle(buf@, start as int),
            name_start == handle_end(buf@, start as int),
            name_start <= end <= len,
            first_nul(buf@, name_start as int) == first_nul(buf@, end as int),
        decreases len - end,
    {
        if buf[end] == 0 {
            assert(first_nul(buf@, end as int) == end);
            return Some(slice_subrange(buf, name_start, end));
        }
        end += 1;
    }
    None
}

/// Reads the name in the record that `buf` starts with.
pub fn read_name<'a>(buf: &'a [u8]) -> (r: &'a [u8])
    requires
        has_name(buf@, 0),
    ensures
        r@ == name_at(buf@, 0),
{
    try_read_name(buf, 0).unwrap()
}

/// Tells whether the record at `start` holds a whole handle.
pub fn holds_handle(buf: &[u8], start: usize) -> (r: bool)
    ensures
        r == has_handle(buf@, start as int),
{
    start <= buf.len() && try_read_fh(buf, start).is_some()
}

/// Tells whether the record at `start` holds a whole handle and a name.
pub fn holds_name(buf: &[u8], start: usize) -> (r: bool)
    ensures
        r == has_name(buf@, start as int),
{
    start <= buf.len() && try_read_name(buf, start).is_some()
}

/// Checks that every record of the type `kind` holds a whole handle.
fn check_handles(buf: &[u8], starts: &Vec<usize>, kind: u8) -> (r: bool)
    requires
        inside(buf@, ints(starts@)),
    ensures
        r == handles_whole(buf@, ints(starts@), kind),
{
    let mut i: usize = 0;
    while i < starts.len()
        invariant
            i <= starts@.len(),
            inside(buf@, ints(starts@)),
            handles_whole(buf@, ints(starts@).take(i as int), kind),
        decreases starts@.len() - i,
    {
        let start: usize = starts[i];
        assert(ints(starts@)[i as int] == start);
        if buf[start] == kind && try_read_fh(buf, start).is_none() {
            return false;
        }
        assert(ints(starts@).take(i + 1) =~= ints(starts@).take(i as int).push(start as int));
        i += 1;
    }
    assert(ints(starts@).take(i as int) =~= ints(starts@));
    true
}

/// Checks that every record of the type `kind` holds a whole handle and a name.
fn check_names(buf: &[u8], starts: &Vec<usize>, kind: u8) -> (r: bool)
    requires
        inside(buf@, ints(starts@)),
    ensures
        r == names_whole(buf@, ints(starts@), kind),
{
    let mut i: usize = 0;
    while i < starts.len()
        invariant
            i <= starts@.len(),
            inside(buf@, ints(starts@)),
            names_whole(buf@, ints(starts@).take(i as int), kind),
        decreases starts@.len() - i,
    {
        let start: usize = starts[i];
        assert(ints(starts@)[i as int] == start);
        if buf[start] == kind && try_read_name(buf, start).is_none() {
            return false;
        }
        assert(ints(starts@).take(i + 1) =~= ints(starts@).take(i as int).push(start as int));
        i += 1;
    }
    assert(ints(starts@).take(i as int) =~= ints(starts@));
    true
}

/// Whether `buf` holds a whole create or delete event: the records can be told
/// apart, those with the subject's handle and those with a directory and a name
/// are whole, and there is one of each.
pub open spec fn create_delete_whole(buf: Seq<u8>, metadata: EventMetadata) -> bool {
    &&& info_records(buf, metadata) matches Some(starts)
    &&& handles_whole(buf, starts, FAN_EVENT_INFO_TYPE_FID)
    &&& names_whole(buf, starts, FAN_EVENT_INFO_TYPE_DFID_NAME)
    &&& last_of(buf, starts, FAN_EVENT_INFO_TYPE_FID) is Some
    &&& last_of(buf, starts, FAN_EVENT_INFO_TYPE_DFID_NAME) is Some
}

/// The last record of the type `kind` in an event.
pub open spec fn record_of(buf: Seq<u8>, metadata: EventMetadata, kind: u8) -> int {
    last_of(buf, info_records(buf, metadata)->0, kind)->0
}

/// Reads a create or delete event: the subject's handle, and the directory and
/// name of the entry. `None` if the event is not whole.
pub fn try_read_create_delete<'a>(buf: &'a [u8], metadata: &EventMetadata) -> (r: Option<
    (FileHan<'a>, (FileHan<'a>, &'a [u8])),
>)
    ensures
        r is Some <==> create_delete_whole(buf@, *metadata),
        r matches Some((fh, (p_fh, name))) ==> {
            let fid = record_of(buf@, *metadata, FAN_EVENT_INFO_TYPE_FID);
            let dfid_name = record_of(buf@, *metadata, FAN_EVENT_INFO_TYPE_DFID_NAME);
            &&& fh@ == handle_at(buf@, fid)
            &&& p_fh@ == handle_at(buf@, dfid_name)
            &&& name@ == name_at(buf@, dfid_name)
        },
{
    let starts = match find_records(buf, metadata) {
        Some(starts) => starts,
        None => {
            return None;
        },
    };
    if !check_handles(buf, &starts, FAN_EVENT_INFO_TYPE_FID) {
        return None;
    }
    if !check_names(buf, &starts, FAN_EVENT_INFO_TYPE_DFID_NAME) {
        return None;
    }
    let fid = find_last(buf, &starts, FAN_EVENT_INFO_TYPE_FID);
    let dfid_name = find_last(buf, &starts, FAN_EVENT_INFO_TYPE_DFID_NAME);
    match (fid, dfid_name) {
        (Some(fid), Some(dfid_name)) => {
            proof {
                lemma_found(buf@, starts@, fid);
                lemma_found(buf@, starts@, dfid_name);
            }
            let fh = try_read_fh(buf, fid).unwrap();
            let p_fh = try_read_fh(buf, dfid_name).unwrap();
            let name = try_read_name(buf, dfid_name).unwrap();
            Some((fh, (p_fh, name)))
        },
        _ => None,
    }
}

/// Reads a whole create or delete event.
pub fn read_create_delete<'a>(buf: &'a [u8], metadata: &EventMetadata) -> (r: (
    FileHan<'a>,
    (FileHan<'a>, &'a [u8]),
))
    requires
        create_delete_whole(buf@, *metadata),
    ensures
        r.0@ == handle_at(buf@, record_of(buf@, *metadata, FAN_EVENT_INFO_TYPE_FID)),
        r.1.0@ == handle_at(buf@, record_of(buf@, *metadata, FAN_EVENT_INFO_TYPE_DFID_NAME)),
        r.1.1@ == name_at(buf@, record_of(buf@, *metadata, FAN_EVENT_INFO_TYPE_DFID_NAME)),
{
    try_read_create_delete(buf, metadata).unwrap()
}

/// Whether `buf` holds a whole rename event.
pub open spec fn rename_whole(buf: Seq<u8>, metadata: EventMetadata) -> bool {
    &&& info_records(buf, metadata) matches Some(starts)
    &&& handles_whole(buf, starts, FAN_EVENT_INFO_TYPE_FID)
    &&& names_whole(buf, starts, FAN_EVENT_INFO_TYPE_OLD_DFID_NAME)
    &&& names_whole(buf, starts, FAN_EVENT_INFO_TYPE_NEW_DFID_NAME)
    &&& last_of(buf, starts, FAN_EVENT_INFO_TYPE_FID) is Some
    &&& last_of(buf, starts, FAN_EVENT_INFO_TYPE_OLD_DFID_NAME) is Some
    &&& last_of(buf, starts, FAN_EVENT_INFO_TYPE_NEW_DFID_NAME) is Some
}

/// Reads a rename event: the subject's handle, then the directory and name
/// before, and those after. `None` if the event is not whole.
pub fn try_read_rename<'a>(buf: &'a [u8], metadata: &EventMetadata) -> (r: Option<
    (FileHan<'a>, (FileHan<'a>, &'a [u8]), (FileHan<'a>, &'a [u8])),
>)
    ensures
        r is Some <==> rename_whole(buf@, *metadata),
        r matches Some((fh, (old_p_fh, old_name), (new_p_fh, new_name))) ==> {
            let fid = record_of(buf@, *metadata, FAN_EVENT_INFO_TYPE_FID);
            let old_dfid_name = record_of(buf@, *metadata, FAN_EVENT_INFO_TYPE_OLD_DFID_NAME);
            let new_dfid_name = record_of(buf@, *metadata, FAN_EVENT_INFO_TYPE_NEW_DFID_NAME);
            &&& fh@ == handle_at(buf@, fid)
            &&& old_p_fh@ == handle_at(buf@, old_dfid_name)
            &&& old_name@ == name_at(buf@, old_dfid_name)
            &&& new_p_fh@ == handle_at(buf@, new_dfid_name)
            &&& new_name@ == name_at(buf@, new_dfid_name)
        },
{
    let starts = match find_records(buf, metadata) {
        Some(starts) => starts,
        None => {
            return None;
        },
    };
    if !check_handles(buf, &starts, FAN_EVENT_INFO_TYPE_FID) {
        return None;
    }
    if !check_names(buf, &starts, FAN_EVENT_INFO_TYPE_OLD_DFID_NAME) {
        return None;
    }
    if !check_names(buf, &starts, FAN_EVENT_INFO_TYPE_NEW_DFID_NAME) {
        return None;
    }
    let fid = find_last(buf, &starts, FAN_EVENT_INFO_TYPE_FID);
    let old_dfid_name = find_last(buf, &starts, FAN_EVENT_INFO_TYPE_OLD_DFID_NAME);
    let new_dfid_name = find_last(buf, &starts, FAN_EVENT_INFO_TYPE_NEW_DFID_NAME);
    match (fid, old_dfid_name, new_dfid_name) {
        (Some(fid), Some(old_dfid_name), Some(new_dfid_name)) => {
            proof {
                lemma_found(buf@, starts@, fid);
                lemma_found(buf@, starts@, old_dfid_name);
                lemma_found(buf@, starts@, new_dfid_name);
            }
            let fh = try_read_fh(buf, fid).unwrap();
            let old_p_fh = try_read_fh(buf, old_dfid_name).unwrap();
            let old_name = try_read_name(buf, old_dfid_name).unwrap();
            let new_p_fh = try_read_fh(buf, new_dfid_name).unwrap();
            let new_name = try_read_name(buf, new_dfid_name).unwrap();
            Some((fh, (old_p_fh, old_name), (new_p_fh, new_name)))
        },
        _ => None,
    }
}

/// Reads a whole rename event.
pub fn read_rename<'a>(buf: &'a [u8], metadata: &EventMetadata) -> (r: (
    FileHan<'a>,
    (FileHan<'a>, &'a [u8]),
    (FileHan<'a>, &'a [u8]),
))
    requires
        rename_whole(buf@, *metadata),
    ensures
        r.0@ == handle_at(buf@, record_of(buf@, *metadata, FAN_EVENT_INFO_TYPE_FID)),
        r.1.0@ == handle_at(buf@, record_of(buf@, *metadata, FAN_EVENT_INFO_TYPE_OLD_DFID_NAME)),
        r.1.1@ == name_at(buf@, record_of(buf@, *metadata, FAN_EVENT_INFO_TYPE_OLD_DFID_NAME)),
        r.2.0@ == handle_at(buf@, record_of(buf@, *metadata, FAN_EVENT_INFO_TYPE_NEW_DFID_NAME)),
        r.2.1@ == name_at(buf@, record_of(buf@, *metadata, FAN_EVENT_INFO_TYPE_NEW_DFID_NAME)),
{
    try_read_rename(buf, metadata).unwrap()
}

/// Whether the record at `start` names a directory as the entry `.` of itself.
pub open spec fn is_dot_record(buf: Seq<u8>, start: int) -> bool {
    &&& info_type(buf, start) == FAN_EVENT_INFO_TYPE_DFID_NAME
    &&& has_name(buf, start)
    &&& name_at(buf, start) == seq![46u8]
}

/// Whether the record at `start` holds the handle of what was opened. A directory that was
/// opened is reported as a directory rather than as a subject, with or without a name.
pub open spec fn holds_opened(buf: Seq<u8>, start: int, metadata: EventMetadata) -> bool {
    ||| info_type(buf, start) == FAN_EVENT_INFO_TYPE_FID
    ||| metadata.mask & FAN_ONDIR != 0 && (info_type(buf, start) == FAN_EVENT_INFO_TYPE_DFID
        || is_dot_record(buf, start))
}

/// The last record that holds the handle of what was opened.
pub open spec fn last_opened(
    buf: Seq<u8>,
    starts: Seq<int>,
    metadata: EventMetadata,
) -> Option<int>
    decreases starts.len(),
{
    if starts.len() == 0 {
        None
    } else if holds_opened(buf, starts.last(), metadata) {
        Some(starts.last())
    } else {
        last_opened(buf, starts.drop_last(), metadata)
    }
}

/// Whether `buf` holds a whole open event.
pub open spec fn open_whole(buf: Seq<u8>, metadata: EventMetadata) -> bool {
    &&& info_records(buf, metadata) matches Some(starts)
    &&& handles_whole(buf, starts, FAN_EVENT_INFO_TYPE_FID)
    &&& metadata.mask & FAN_ONDIR != 0 ==> handles_whole(buf, starts, FAN_EVENT_INFO_TYPE_DFID)
    &&& last_opened(buf, starts, metadata) is Some
}

/// The record with the handle of what was opened.
pub open spec fn open_record(buf: Seq<u8>, metadata: EventMetadata) -> int {
    last_opened(buf, info_records(buf, metadata)->0, metadata)->0
}

/// Tells whether the record at `start` names a directory as the entry `.` of itself.
fn check_dot_record(buf: &[u8], start: usize) -> (r: bool)
    requires
        start + INFO_HEADER_LEN <= buf@.len(),
    ensures
        r == is_dot_record(buf@, start as int),
{
    if buf[start] != FAN_EVENT_INFO_TYPE_DFID_NAME {
        return false;
    }
    match try_read_name(buf, start) {
        Some(name) => {
            let r = name.len() == 1 && name[0] == 46u8;
            proof {
                if r {
                    assert(name@ =~= seq![46u8]);
                }
            }
            r
        },
        None => false,
    }
}

/// Finds the last record that holds the handle of what was opened.
fn find_last_opened(buf: &[u8], starts: &Vec<usize>, metadata: &EventMetadata) -> (r: Option<usize>)
    requires
        inside(buf@, ints(starts@)),
    ensures
        r is Some <==> last_opened(buf@, ints(starts@), *metadata) is Some,
        r matches Some(start) ==> {
            &&& last_opened(buf@, ints(starts@), *metadata) == Some(start as int)
            &&& exists|i: int| 0 <= i < starts@.len() && #[trigger] starts@[i] == start
            &&& holds_opened(buf@, start as int, *metadata)
        },
{
    let on_dir: bool = metadata.mask & FAN_ONDIR != 0;
    let mut n: usize = starts.len();
    assert(ints(starts@).take(n as int) =~= ints(starts@));
    while n > 0
        invariant
            n <= starts@.len(),
            on_dir == (metadata.mask & FAN_ONDIR != 0),
            inside(buf@, ints(starts@)),
            last_opened(buf@, ints(starts@), *metadata) == last_opened(
                buf@,
                ints(starts@).take(n as int),
                *metadata,
            ),
        decreases n,
    {
        let start: usize = starts[n - 1];
        assert(ints(starts@)[n - 1] == start);
        assert(ints(starts@).take(n as int).last() == start as int);
        assert(ints(starts@).take(n as int).drop_last() =~= ints(starts@).take(n - 1));
        let kind: u8 = buf[start];
        if kind == FAN_EVENT_INFO_TYPE_FID || (on_dir && (kind == FAN_EVENT_INFO_TYPE_DFID
            || check_dot_record(buf, start))) {
            return Some(start);
        }
        n -= 1;
    }
    None
}

/// Reads the handle from an open event. `None` if the event is not whole.
pub fn try_read_open<'a>(buf: &'a [u8], metadata: &EventMetadata) -> (r: Option<FileHan<'a>>)
    ensures
        r is Some <==> open_whole(buf@, *metadata),
        r matches Some(fh) ==> fh@ == handle_at(buf@, open_record(buf@, *metadata)),
{
    let starts = match find_records(buf, metadata) {
        Some(starts) => starts,
        None => {
            return None;
        },
    };
    if !check_handles(buf, &starts, FAN_EVENT_INFO_TYPE_FID) {
        return None;
    }
    if metadata.mask & FAN_ONDIR != 0 && !check_handles(buf, &starts, FAN_EVENT_INFO_TYPE_DFID) {
        return None;
    }
    match find_last_opened(buf, &starts, metadata) {
        Some(fid) => {
            proof {
                lemma_found(buf@, starts@, fid);
            }
            try_read_fh(buf, fid)
        },
        None => None,
    }
}

/// The handle of a directory that was opened is read from a record that names it as the
/// entry `.` of itself, if that is the only record.
pub proof fn law_open_directory(buf: Seq<u8>, metadata: EventMetadata, start: int)
    requires
        metadata.mask & FAN_ONDIR != 0,
        info_records(buf, metadata) == Some(seq![start]),
        is_dot_record(buf, start),
    ensures
        open_whole(buf, metadata),
        open_record(buf, metadata) == start,
{
    let starts = seq![start];
    assert(starts.last() == start);
    assert(holds_opened(buf, start, metadata));
}

/// Reads the handle from a whole open event.
pub fn read_open<'a>(buf: &'a [u8], metadata: &EventMetadata) -> (r: FileHan<'a>)
    requires
        open_whole(buf@, *metadata),
    ensures
        r@ == handle_at(buf@, open_record(buf@, *metadata)),
{
    try_read_open(buf, metadata).unwrap()
}

/// A record that was found is one of the records, and inside the buffer.
proof fn lemma_found(buf: Seq<u8>, starts: Seq<usize>, start: usize)
    requires
        inside(buf, ints(starts)),
        exists|i: int| 0 <= i < starts.len() && #[trigger] starts[i] == start,
    ensures
        start + INFO_HEADER_LEN <= buf.len(),
        exists|i: int| 0 <= i < ints(starts).len() && #[trigger] ints(starts)[i] == start,
{
    let i = choose|i: int| 0 <= i < starts.len() && #[trigger] starts[i] == start;
    assert(ints(starts)[i] == start);
}

} // verus!
