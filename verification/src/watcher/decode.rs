//! From the events of a fanotify group to changes to the filesystem.

use vstd::prelude::*;
use vstd::slice::slice_subrange;

use crate::fanotify::{
    create_delete_whole, handle_at, metadata_of, name_at, open_record, open_whole, read_metadata,
    record_of, rename_whole, try_read_create_delete, try_read_open, try_read_rename, EventMetadata,
    FAN_CREATE, FAN_DELETE, FAN_EVENT_INFO_TYPE_DFID_NAME, FAN_EVENT_INFO_TYPE_FID,
    FAN_EVENT_INFO_TYPE_NEW_DFID_NAME, FAN_EVENT_INFO_TYPE_OLD_DFID_NAME, FAN_ONDIR, FAN_OPEN,
    FAN_RENAME, METADATA_LEN,
};
use crate::file_handle::{FileHan, FileHandle};
use crate::util;
use crate::watcher::event::{changes, Change, Event};
use crate::watchpath::{can_judge, selects, Filter};

verus! {

/// What an event of a fanotify group comes to.
pub enum Decoded {
    /// Changes, in order.
    Changes(Vec<Event>),
    /// The discoverer opened the file with the handle.
    Opened(FileHandle),
}

/// The meaning of a [`Decoded`].
pub enum Reading {
    Changes(Seq<Change>),
    Opened(Seq<u8>),
}

impl View for Decoded {
    type V = Reading;

    open spec fn view(&self) -> Reading {
        match *self {
            Decoded::Changes(events) => Reading::Changes(changes(events@)),
            Decoded::Opened(fh) => Reading::Opened(fh@),
        }
    }
}

/// The kinds of changes that an event reports.
pub open spec fn stripped(mask: u64) -> u64 {
    mask & (FAN_CREATE | FAN_DELETE | FAN_RENAME | FAN_OPEN)
}

/// A change to the file with the handle `fh`, if it is to be reported, and those that
/// follow it. A file that is not watched is not reported, nor is what follows. `None` if
/// the filter cannot judge the file.
pub open spec fn reported(
    filter: Filter,
    fh: Seq<u8>,
    change: Change,
    rest: Option<Seq<Change>>,
) -> Option<Seq<Change>> {
    if !can_judge(filter, fh) {
        None
    } else if !selects(filter, fh) {
        Some(Seq::empty())
    } else {
        match rest {
            Some(rest) => Some(seq![change] + rest),
            None => None,
        }
    }
}

/// The handle of the subject of the event.
pub open spec fn subject(here: Seq<u8>) -> Seq<u8> {
    handle_at(here, record_of(here, metadata_of(here), FAN_EVENT_INFO_TYPE_FID))
}

/// Where the record of the type `kind` starts in the event.
pub open spec fn place_of(here: Seq<u8>, kind: u8) -> int {
    record_of(here, metadata_of(here), kind)
}

/// The subject of the event is a directory.
pub open spec fn is_dir(here: Seq<u8>) -> bool {
    metadata_of(here).mask & FAN_ONDIR != 0
}

/// What the event reports as renamed.
pub open spec fn renamed(here: Seq<u8>, filter: Filter) -> Option<Seq<Change>> {
    if stripped(metadata_of(here).mask) & FAN_RENAME == 0 {
        Some(Seq::empty())
    } else if !rename_whole(here, metadata_of(here)) {
        None
    } else {
        let before = place_of(here, FAN_EVENT_INFO_TYPE_OLD_DFID_NAME);
        let after = place_of(here, FAN_EVENT_INFO_TYPE_NEW_DFID_NAME);
        reported(
            filter,
            subject(here),
            Change::Rename {
                old_p_fh: handle_at(here, before),
                new_p_fh: handle_at(here, after),
                fh: subject(here),
                old_name: name_at(here, before),
                new_name: name_at(here, after),
                is_dir: is_dir(here),
            },
            Some(Seq::empty()),
        )
    }
}

/// What the event reports as deleted, and after that as renamed.
pub open spec fn deleted(here: Seq<u8>, filter: Filter) -> Option<Seq<Change>> {
    if stripped(metadata_of(here).mask) & FAN_DELETE == 0 {
        renamed(here, filter)
    } else if !create_delete_whole(here, metadata_of(here)) {
        None
    } else {
        let at = place_of(here, FAN_EVENT_INFO_TYPE_DFID_NAME);
        reported(
            filter,
            subject(here),
            Change::Delete {
                p_fh: handle_at(here, at),
                fh: subject(here),
                name: name_at(here, at),
                is_dir: is_dir(here),
            },
            renamed(here, filter),
        )
    }
}

/// What the event reports as created, and after that as deleted and renamed.
pub open spec fn created(here: Seq<u8>, filter: Filter) -> Option<Seq<Change>> {
    if stripped(metadata_of(here).mask) & FAN_CREATE == 0 {
        deleted(here, filter)
    } else if !create_delete_whole(here, metadata_of(here)) {
        None
    } else {
        let at = place_of(here, FAN_EVENT_INFO_TYPE_DFID_NAME);
        reported(
            filter,
            subject(here),
            Change::Create {
                p_fh: handle_at(here, at),
                fh: subject(here),
                name: name_at(here, at),
                is_dir: is_dir(here),
            },
            deleted(here, filter),
        )
    }
}

/// What the event that `here` starts with comes to; `None` if the event is not whole or
/// the filter cannot judge it. A file that was opened is of interest only if the
/// discoverer, the thread `discover_tid`, opened it. What was created and deleted again
/// has no net effect.
pub open spec fn reading(here: Seq<u8>, filter: Filter, discover_tid: i32) -> Option<Reading> {
    let metadata = metadata_of(here);
    let mask = stripped(metadata.mask);
    if mask == FAN_OPEN {
        if metadata.pid != discover_tid {
            Some(Reading::Changes(Seq::empty()))
        } else if open_whole(here, metadata) {
            Some(Reading::Opened(handle_at(here, open_record(here, metadata))))
        } else {
            None
        }
    } else if mask == FAN_CREATE | FAN_DELETE {
        Some(Reading::Changes(Seq::empty()))
    } else {
        match created(here, filter) {
            Some(changes) => Some(Reading::Changes(changes)),
            None => None,
        }
    }
}

/// Reads the events of a fanotify group, out of a buffer that the group fills.
pub struct FanotifyState {
    filter: Filter,
    discover_tid: i32,
    /// Where the next event starts in the buffer.
    ptr: u128,
    /// How much of the buffer is filled.
    len: u128,
}

/// The meaning of a [`FanotifyState`].
pub struct Position {
    pub filter: Filter,
    pub discover_tid: i32,
    pub ptr: int,
    pub len: int,
}

impl View for FanotifyState {
    type V = Position;

    closed spec fn view(&self) -> Position {
        Position {
            filter: self.filter,
            discover_tid: self.discover_tid,
            ptr: self.ptr as int,
            len: self.len as int,
        }
    }
}

/// Puts a change to the file with the handle `fh` before those that follow it.
fn report(filter: &Filter, fh: &FileHan<'_>, event: Event, rest: Option<Vec<Event>>) -> (r: Option<
    Vec<Event>,
>)
    ensures
        listed(r) == reported(*filter, fh@, event@, listed(rest)),
{
    if !filter.applies(fh) {
        return None;
    }
    if !filter.apply(fh) {
        let none: Vec<Event> = Vec::new();
        assert(changes(none@) =~= Seq::<Change>::empty());
        return Some(none);
    }
    match rest {
        Some(rest) => {
            let mut all = rest;
            let ghost before = all@;
            all.insert(0, event);
            assert(changes(all@) =~= seq![event@] + changes(before));
            Some(all)
        },
        None => None,
    }
}

/// The changes in a list of events, if there is one.
spec fn listed(events: Option<Vec<Event>>) -> Option<Seq<Change>> {
    match events {
        Some(events) => Some(changes(events@)),
        None => None,
    }
}

/// Reads what the event reports as renamed.
fn read_renamed(here: &[u8], metadata: &EventMetadata, filter: &Filter) -> (r: Option<Vec<Event>>)
    requires
        *metadata == metadata_of(here@),
    ensures
        listed(r) == renamed(here@, *filter),
{
    let none: Vec<Event> = Vec::new();
    assert(changes(none@) =~= Seq::<Change>::empty());
    let mask: u64 = metadata.mask & (FAN_CREATE | FAN_DELETE | FAN_RENAME | FAN_OPEN);
    if mask & FAN_RENAME == 0 {
        return Some(none);
    }
    match try_read_rename(here, metadata) {
        Some((fh, (old_p_fh, old_name), (new_p_fh, new_name))) => {
            let event = Event::Rename {
                old_p_fh: old_p_fh.to_owned(),
                new_p_fh: new_p_fh.to_owned(),
                fh: fh.to_owned(),
                old_name: util::copy_bytes(old_name),
                new_name: util::copy_bytes(new_name),
                is_dir: metadata.mask & FAN_ONDIR != 0,
            };
            report(filter, &fh, event, Some(none))
        },
        None => None,
    }
}

/// Reads what the event reports as deleted, and after that as renamed.
fn read_deleted(here: &[u8], metadata: &EventMetadata, filter: &Filter) -> (r: Option<Vec<Event>>)
    requires
        *metadata == metadata_of(here@),
    ensures
        listed(r) == deleted(here@, *filter),
{
    let rest = read_renamed(here, metadata, filter);
    let mask: u64 = metadata.mask & (FAN_CREATE | FAN_DELETE | FAN_RENAME | FAN_OPEN);
    if mask & FAN_DELETE == 0 {
        return rest;
    }
    match try_read_create_delete(here, metadata) {
        Some((fh, (p_fh, name))) => {
            let event = Event::Delete {
                p_fh: p_fh.to_owned(),
                fh: fh.to_owned(),
                name: util::copy_bytes(name),
                is_dir: metadata.mask & FAN_ONDIR != 0,
            };
            report(filter, &fh, event, rest)
        },
        None => None,
    }
}

/// Reads what the event reports as created, and after that as deleted and renamed.
fn read_created(here: &[u8], metadata: &EventMetadata, filter: &Filter) -> (r: Option<Vec<Event>>)
    requires
        *metadata == metadata_of(here@),
    ensures
        listed(r) == created(here@, *filter),
{
    let rest = read_deleted(here, metadata, filter);
    let mask: u64 = metadata.mask & (FAN_CREATE | FAN_DELETE | FAN_RENAME | FAN_OPEN);
    if mask & FAN_CREATE == 0 {
        return rest;
    }
    match try_read_create_delete(here, metadata) {
        Some((fh, (p_fh, name))) => {
            let event = Event::Create {
                p_fh: p_fh.to_owned(),
                fh: fh.to_owned(),
                name: util::copy_bytes(name),
                is_dir: metadata.mask & FAN_ONDIR != 0,
            };
            report(filter, &fh, event, rest)
        },
        None => None,
    }
}

/// Reads the event that `here` starts with; `None` if it is not whole or the filter
/// cannot judge it.
pub fn read_event(here: &[u8], filter: &Filter, discover_tid: i32) -> (r: Option<Decoded>)
    requires
        METADATA_LEN <= here@.len(),
    ensures
        match r {
            Some(decoded) => reading(here@, *filter, discover_tid) == Some(decoded@),
            None => reading(here@, *filter, discover_tid) is None,
        },
{
    let metadata = read_metadata(here);
    let none: Vec<Event> = Vec::new();
    assert(changes(none@) =~= Seq::<Change>::empty());
    let mask: u64 = metadata.mask & (FAN_CREATE | FAN_DELETE | FAN_RENAME | FAN_OPEN);
    if mask == FAN_OPEN {
        if metadata.pid != discover_tid {
            return Some(Decoded::Changes(none));
        }
        return match try_read_open(here, &metadata) {
            Some(fh) => Some(Decoded::Opened(fh.to_owned())),
            None => None,
        };
    }
    if mask == FAN_CREATE | FAN_DELETE {
        return Some(Decoded::Changes(none));
    }
    match read_created(here, &metadata, filter) {
        Some(events) => Some(Decoded::Changes(events)),
        None => None,
    }
}

impl FanotifyState {
    /// Nothing was read into the buffer yet.
    pub fn new(filter: Filter, discover_tid: i32) -> (r: Self)
        ensures
            r@ == (Position { filter, discover_tid, ptr: 0, len: 0 }),
    {
        FanotifyState { filter, discover_tid, ptr: 0, len: 0 }
    }

    /// Tells whether all events in the buffer have been read, so that it has to be
    /// filled again.
    pub fn wants_read(&self) -> (r: bool)
        ensures
            r == (self@.ptr >= self@.len),
    {
        self.ptr >= self.len
    }

    /// Starts over once the buffer was filled with `len` bytes.
    pub fn filled(&mut self, len: usize)
        ensures
            final(self)@ == (Position { ptr: 0, len: len as int, ..old(self)@ }),
    {
        self.ptr = 0;
        self.len = len as u128;
    }

    /// Tells whether the metadata record of the next event is inside the buffer.
    pub fn holds_event(&self, buf: &[u8]) -> (r: bool)
        ensures
            r == (self@.ptr + METADATA_LEN <= buf@.len()),
    {
        let len: usize = buf.len();
        self.ptr <= len as u128 && len - self.ptr as usize >= METADATA_LEN
    }

    /// Reads the next event in the buffer, and goes past it.
    pub fn next(&mut self, buf: &[u8]) -> (r: Option<Decoded>)
        requires
            old(self)@.ptr + METADATA_LEN <= buf@.len(),
        ensures
            ({
                let before = old(self)@;
                let here = buf@.skip(before.ptr);
                &&& match r {
                    Some(decoded) => reading(here, before.filter, before.discover_tid) == Some(
                        decoded@,
                    ),
                    None => reading(here, before.filter, before.discover_tid) is None,
                }
                &&& final(self)@ == (Position {
                    ptr: before.ptr + metadata_of(here).event_len,
                    ..before
                })
            }),
    {
        let len: usize = buf.len();
        let start: usize = self.ptr as usize;
        assert(start as int == self.ptr as int);
        let here = slice_subrange(buf, start, len);
        assert(here@ =~= buf@.skip(start as int));
        let metadata = read_metadata(here);
        let decoded = read_event(here, &self.filter, self.discover_tid);
        self.ptr = start as u128 + metadata.event_len as u128;
        decoded
    }

    /// Reports a file that the discoverer opened as the entry `name` of the directory
    /// `p_fh`, if it is watched.
    pub fn discovered(&self, fh: &FileHan<'_>, p_fh: FileHandle, name: Vec<u8>) -> (r: Option<
        Event,
    >)
        requires
            can_judge(self@.filter, fh@),
        ensures
            match r {
                Some(event) => selects(self@.filter, fh@) && event@ == (Change::Discover {
                    p_fh: p_fh@,
                    fh: fh@,
                    name: name@,
                }),
                None => !selects(self@.filter, fh@),
            },
    {
        if self.filter.apply(fh) {
            Some(Event::Discover { p_fh, fh: fh.to_owned(), name })
        } else {
            None
        }
    }
}

/// The file that a change is about.
pub open spec fn file_of(change: Change) -> Seq<u8> {
    match change {
        Change::Create { fh, .. } => fh,
        Change::Delete { fh, .. } => fh,
        Change::Rename { fh, .. } => fh,
        Change::Discover { fh, .. } => fh,
    }
}

/// Only changes to files that are watched are reported.
pub proof fn law_watched_only(here: Seq<u8>, filter: Filter, discover_tid: i32, i: int)
    requires
        reading(here, filter, discover_tid) matches Some(Reading::Changes(changes)) && 0 <= i
            < changes.len(),
    ensures
        selects(filter, file_of(reading(here, filter, discover_tid)->0->Changes_0[i])),
{
    let all = created(here, filter)->0;
    assert(forall|j: int|
        renamed(here, filter) is Some && 0 <= j < renamed(here, filter)->0.len() ==> selects(
            filter,
            file_of(#[trigger] renamed(here, filter)->0[j]),
        ));
    assert(forall|j: int|
        deleted(here, filter) is Some && 0 <= j < deleted(here, filter)->0.len() ==> selects(
            filter,
            file_of(#[trigger] deleted(here, filter)->0[j]),
        ));
    assert(selects(filter, file_of(all[i])));
}

} // verus!
