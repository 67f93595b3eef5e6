//! A stricter reader of fanotify events, which accepts only events made of
//! known records.

use vstd::prelude::*;
use vstd::slice::slice_subrange;
use vstd::string::*;

use crate::fanotify::written::{law_metadata_read, law_record_read, lemma_start, Written};
use crate::fanotify::{
    has_handle, has_name, handle_at, info_len, info_type, metadata_of, name_at, read_metadata,
    try_read_fh, try_read_name, FAN_CREATE, FAN_DELETE, FAN_EVENT_INFO_TYPE_DFID_NAME,
    FAN_EVENT_INFO_TYPE_FID, FAN_EVENT_INFO_TYPE_NEW_DFID_NAME, FAN_EVENT_INFO_TYPE_OLD_DFID_NAME,
    FAN_RENAME, INFO_HEADER_LEN, METADATA_LEN,
};
use crate::file_handle::FileHan;
use crate::util;

verus! {

/// The length of the buffer that events are read into.
pub const BUF_LEN: usize = 4096;

/// Why events could not be read.
#[derive(Debug)]
pub enum Error {
    /// The group could not be read from, for the given reason.
    Read(String),
    /// An event holds an unknown record, or lacks a record that it must have.
    Logic,
}

/// How an error is reported.
pub open spec fn error_text(e: Error) -> Seq<char> {
    match e {
        Error::Read(reason) => "Read error: "@ + reason@,
        Error::Logic => "Logic error"@,
    }
}

impl Error {
    /// How the error is reported.
    pub fn message(&self) -> (r: String)
        ensures
            r@ == error_text(*self),
    {
        match self {
            Error::Read(reason) => {
                let mut r = String::from_str("Read error: ");
                r.append(reason.as_str());
                r
            },
            Error::Logic => String::from_str("Logic error"),
        }
    }
}

/// An event, and where its records start.
#[derive(Debug)]
pub struct Event<'a> {
    pub buf: &'a [u8],
    pub mask: u64,
    pub fid: usize,
    pub dfid: Option<usize>,
    pub move_dfids: Option<(usize, usize)>,
}

/// A created entry; a deleted one has the same parts.
pub struct Create<'a> {
    pub buf: &'a [u8],
    pub dfid: usize,
}

/// A deleted entry.
pub type Delete<'a> = Create<'a>;

/// A renamed entry.
pub struct Move<'a> {
    pub buf: &'a [u8],
    pub old_dfid: usize,
    pub new_dfid: usize,
}

/// Where the last record of each known type starts.
pub struct Found {
    pub fid: Option<int>,
    pub dfid: Option<int>,
    pub old_dfid: Option<int>,
    pub new_dfid: Option<int>,
}

/// What a walk through the records of an event comes to.
pub enum Scan {
    /// A record is cut off by the end of the buffer, or has no length.
    Cut,
    /// A record has an unknown type.
    Unknown,
    /// All records have known types.
    Known(Found),
}

impl Found {
    /// Nothing found yet.
    pub open spec fn nothing() -> Found {
        Found { fid: None, dfid: None, old_dfid: None, new_dfid: None }
    }

    /// The record at `ptr` is found to have the type `kind`.
    pub open spec fn note(self, kind: u8, ptr: int) -> Option<Found> {
        if kind == FAN_EVENT_INFO_TYPE_FID {
            Some(Found { fid: Some(ptr), ..self })
        } else if kind == FAN_EVENT_INFO_TYPE_DFID_NAME {
            Some(Found { dfid: Some(ptr), ..self })
        } else if kind == FAN_EVENT_INFO_TYPE_OLD_DFID_NAME {
            Some(Found { old_dfid: Some(ptr), ..self })
        } else if kind == FAN_EVENT_INFO_TYPE_NEW_DFID_NAME {
            Some(Found { new_dfid: Some(ptr), ..self })
        } else {
            None
        }
    }
}

/// Walks through the records from `ptr` up to `end`, and stops at the first that
/// is cut off or unknown.
pub open spec fn scan(buf: Seq<u8>, ptr: int, end: int, found: Found) -> Scan
    decreases
        if ptr < end {
            end - ptr
        } else {
            0
        },
{
    if ptr >= end {
        Scan::Known(found)
    } else if ptr + INFO_HEADER_LEN > buf.len() {
        Scan::Cut
    } else {
        match found.note(info_type(buf, ptr), ptr) {
            None => Scan::Unknown,
            Some(more) => if info_len(buf, ptr) <= 0 {
                Scan::Cut
            } else {
                scan(buf, ptr + info_len(buf, ptr), end, more)
            },
        }
    }
}

/// The length of the event that `buf` starts with.
pub open spec fn event_len(buf: Seq<u8>) -> int {
    metadata_of(buf).event_len as int
}

/// The records of the event that `buf` starts with.
pub open spec fn event_scan(buf: Seq<u8>) -> Scan {
    scan(buf, METADATA_LEN as int, event_len(buf), Found::nothing())
}

/// Whether the event that `buf` starts with is accepted: all its records are
/// known, one holds the subject's handle, and the two directories of a rename
/// come together or not at all.
pub open spec fn acceptable(buf: Seq<u8>) -> bool {
    &&& event_scan(buf) matches Scan::Known(found)
    &&& found.fid is Some
    &&& found.old_dfid is Some <==> found.new_dfid is Some
}

/// Whether the event that `buf` starts with can be judged: its metadata is there,
/// no record is cut off before an unknown one, and if it is accepted, `buf` holds
/// all of it.
pub open spec fn judgeable(buf: Seq<u8>) -> bool {
    &&& METADATA_LEN <= buf.len()
    &&& event_scan(buf) !is Cut
    &&& acceptable(buf) ==> event_len(buf) <= buf.len()
}

/// The place of a record, as an integer.
pub open spec fn place(at: Option<usize>) -> Option<int> {
    match at {
        Some(p) => Some(p as int),
        None => None,
    }
}

impl<'a> Event<'a> {
    /// Whether this is the event that `buf` starts with.
    pub open spec fn is_event_of(self, buf: Seq<u8>) -> bool {
        &&& event_scan(buf) matches Scan::Known(found)
        &&& self.buf@ == buf.subrange(0, event_len(buf))
        &&& self.mask == metadata_of(buf).mask
        &&& Some(self.fid as int) == found.fid
        &&& place(self.dfid) == found.dfid
        &&& match self.move_dfids {
            Some((old_dfid, new_dfid)) => {
                &&& found.old_dfid == Some(old_dfid as int)
                &&& found.new_dfid == Some(new_dfid as int)
            },
            None => found.old_dfid is None && found.new_dfid is None,
        }
    }

    /// Reads the event that `buf` starts with, and gives its length too. `None`
    /// if the event cannot be judged.
    pub fn try_from_slice(buf: &'a [u8]) -> (r: Option<Result<(Event<'a>, usize), Error>>)
        ensures
            r is Some <==> judgeable(buf@),
            r matches Some(Ok((event, len))) ==> {
                &&& acceptable(buf@)
                &&& event.is_event_of(buf@)
                &&& len == event_len(buf@)
                &&& METADATA_LEN < len
            },
            r matches Some(Err(e)) ==> !acceptable(buf@) && e is Logic,
    {
        let len: usize = buf.len();
        if len < METADATA_LEN {
            return None;
        }
        let metadata = read_metadata(buf);
        let end: u64 = metadata.event_len as u64;
        let mut ptr: u64 = METADATA_LEN as u64;
        let mut fid: Option<usize> = None;
        let mut dfid: Option<usize> = None;
        let mut old_dfid: Option<usize> = None;
        let mut new_dfid: Option<usize> = None;
        let ghost mut found = Found::nothing();
        while ptr < end
            invariant
                len == buf@.len(),
                METADATA_LEN <= len,
                end == event_len(buf@),
                METADATA_LEN <= ptr <= 0x1_0001_0000,
                place(fid) == found.fid,
                place(dfid) == found.dfid,
                place(old_dfid) == found.old_dfid,
                place(new_dfid) == found.new_dfid,
                found.fid is Some ==> METADATA_LEN < end,
                event_scan(buf@) == scan(buf@, ptr as int, end as int, found),
            decreases 0x1_0001_0000 - ptr,
        {
            if ptr + INFO_HEADER_LEN as u64 > len as u64 {
                return None;
            }
            let at: usize = ptr as usize;
            let kind: u8 = buf[at];
            let ghost before = found;
            if kind == FAN_EVENT_INFO_TYPE_FID {
                fid = Some(at);
            } else if kind == FAN_EVENT_INFO_TYPE_DFID_NAME {
                dfid = Some(at);
            } else if kind == FAN_EVENT_INFO_TYPE_OLD_DFID_NAME {
                old_dfid = Some(at);
            } else if kind == FAN_EVENT_INFO_TYPE_NEW_DFID_NAME {
                new_dfid = Some(at);
            } else {
                return Some(Err(Error::Logic));
            }
            proof {
                found = before.note(kind, ptr as int)->0;
            }
            let info_len: u16 = util::read_u16(buf, at + 2);
            if info_len == 0 {
                return None;
            }
            ptr = ptr + info_len as u64;
        }
        let fid: usize = match fid {
            Some(fid) => fid,
            None => {
                return Some(Err(Error::Logic));
            },
        };
        let move_dfids: Option<(usize, usize)> = match (old_dfid, new_dfid) {
            (Some(old_dfid), Some(new_dfid)) => Some((old_dfid, new_dfid)),
            (None, None) => None,
            _ => {
                return Some(Err(Error::Logic));
            },
        };
        if end > len as u64 {
            return None;
        }
        let event = Event {
            buf: slice_subrange(buf, 0, end as usize),
            mask: metadata.mask,
            fid,
            dfid,
            move_dfids,
        };
        Some(Ok((event, end as usize)))
    }

    /// Reads the event that `buf` starts with, and gives its length too.
    pub fn from_slice(buf: &'a [u8]) -> (r: Result<(Event<'a>, usize), Error>)
        requires
            judgeable(buf@),
        ensures
            r is Ok <==> acceptable(buf@),
            r matches Err(e) ==> e is Logic,
            r matches Ok((event, len)) ==> {
                &&& event.is_event_of(buf@)
                &&& len == event_len(buf@)
                &&& METADATA_LEN < len
            },
    {
        Event::try_from_slice(buf).unwrap()
    }

    /// The created entry, if the event reports one.
    pub fn as_create(&self) -> (r: Result<Option<Create<'a>>, Error>)
        ensures
            r is Err <==> self.mask & FAN_CREATE != 0 && self.dfid is None,
            r matches Err(e) ==> e is Logic,
            r matches Ok(None) ==> self.mask & FAN_CREATE == 0,
            r matches Ok(Some(create)) ==> {
                &&& self.mask & FAN_CREATE != 0
                &&& create.buf == self.buf
                &&& self.dfid == Some(create.dfid)
            },
    {
        if self.mask & FAN_CREATE == 0 {
            return Ok(None);
        }
        match self.dfid {
            Some(dfid) => Ok(Some(Create { buf: self.buf, dfid })),
            None => Err(Error::Logic),
        }
    }

    /// The deleted entry, if the event reports one.
    pub fn as_delete(&self) -> (r: Result<Option<Delete<'a>>, Error>)
        ensures
            r is Err <==> self.mask & FAN_DELETE != 0 && self.dfid is None,
            r matches Err(e) ==> e is Logic,
            r matches Ok(None) ==> self.mask & FAN_DELETE == 0,
            r matches Ok(Some(delete)) ==> {
                &&& self.mask & FAN_DELETE != 0
                &&& delete.buf == self.buf
                &&& self.dfid == Some(delete.dfid)
            },
    {
        if self.mask & FAN_DELETE == 0 {
            return Ok(None);
        }
        match self.dfid {
            Some(dfid) => Ok(Some(Create { buf: self.buf, dfid })),
            None => Err(Error::Logic),
        }
    }

    /// The renamed entry, if the event reports one.
    pub fn as_move(&self) -> (r: Result<Option<Move<'a>>, Error>)
        ensures
            r is Err <==> self.mask & FAN_RENAME != 0 && self.move_dfids is None,
            r matches Err(e) ==> e is Logic,
            r matches Ok(None) ==> self.mask & FAN_RENAME == 0,
            r matches Ok(Some(moved)) ==> {
                &&& self.mask & FAN_RENAME != 0
                &&& moved.buf == self.buf
                &&& self.move_dfids == Some((moved.old_dfid, moved.new_dfid))
            },
    {
        if self.mask & FAN_RENAME == 0 {
            return Ok(None);
        }
        match self.move_dfids {
            Some((old_dfid, new_dfid)) => Ok(Some(Move { buf: self.buf, old_dfid, new_dfid })),
            None => Err(Error::Logic),
        }
    }

    /// The subject's handle.
    pub fn fh(&self) -> (r: FileHan<'a>)
        requires
            has_handle(self.buf@, self.fid as int),
        ensures
            r@ == handle_at(self.buf@, self.fid as int),
    {
        try_read_fh(self.buf, self.fid).unwrap()
    }
}

impl<'a> Create<'a> {
    /// The handle of the entry's directory.
    pub fn p_fh(&self) -> (r: FileHan<'a>)
        requires
            has_handle(self.buf@, self.dfid as int),
        ensures
            r@ == handle_at(self.buf@, self.dfid as int),
    {
        try_read_fh(self.buf, self.dfid).unwrap()
    }

    /// The entry's name.
    pub fn name(&self) -> (r: &'a [u8])
        requires
            has_name(self.buf@, self.dfid as int),
        ensures
            r@ == name_at(self.buf@, self.dfid as int),
    {
        try_read_name(self.buf, self.dfid).unwrap()
    }
}

impl<'a> Move<'a> {
    /// The handle of the directory that the entry left.
    pub fn old_p_fh(&self) -> (r: FileHan<'a>)
        requires
            has_handle(self.buf@, self.old_dfid as int),
        ensures
            r@ == handle_at(self.buf@, self.old_dfid as int),
    {
        try_read_fh(self.buf, self.old_dfid).unwrap()
    }

    /// The name that the entry had.
    pub fn old_name(&self) -> (r: &'a [u8])
        requires
            has_name(self.buf@, self.old_dfid as int),
        ensures
            r@ == name_at(self.buf@, self.old_dfid as int),
    {
        try_read_name(self.buf, self.old_dfid).unwrap()
    }

    /// The handle of the directory that the entry went to.
    pub fn new_p_fh(&self) -> (r: FileHan<'a>)
        requires
            has_handle(self.buf@, self.new_dfid as int),
        ensures
            r@ == handle_at(self.buf@, self.new_dfid as int),
    {
        try_read_fh(self.buf, self.new_dfid).unwrap()
    }

    /// The name that the entry got.
    pub fn new_name(&self) -> (r: &'a [u8])
        requires
            has_name(self.buf@, self.new_dfid as int),
        ensures
            r@ == name_at(self.buf@, self.new_dfid as int),
    {
        try_read_name(self.buf, self.new_dfid).unwrap()
    }
}

/// What the events from `ptr` up to `len` come to: where the accepted ones start, and
/// whether all were accepted. The walk ends at the first that is not, or that cannot be
/// judged; then it is not known whether all were.
pub open spec fn event_starts(buf: Seq<u8>, ptr: int, len: int) -> (Seq<int>, Option<bool>)
    decreases
        if ptr < len {
            len - ptr
        } else {
            0
        },
{
    if ptr >= len {
        (Seq::empty(), Some(true))
    } else {
        let here = buf.subrange(ptr, buf.len() as int);
        if !judgeable(here) {
            (Seq::empty(), None)
        } else if !acceptable(here) {
            (Seq::empty(), Some(false))
        } else {
            let (rest, all) = event_starts(buf, ptr + event_len(here), len);
            (seq![ptr] + rest, all)
        }
    }
}

/// The buffer that events are read into.
pub struct Reader {
    pub buf: Vec<u8>,
}

impl Reader {
    /// An empty buffer.
    pub fn new() -> (r: Reader)
        ensures
            r.buf@ == Seq::new(BUF_LEN as nat, |i: int| 0u8),
    {
        let buf: Vec<u8> = vec![0u8; BUF_LEN];
        assert(buf@ =~= Seq::new(BUF_LEN as nat, |i: int| 0u8));
        Reader { buf }
    }

    /// The events in the first `len` bytes of the buffer, in order, up to the first that is
    /// not accepted or cannot be judged, and whether all were accepted. `None` if one cannot
    /// be judged.
    pub fn map_events(&self, len: usize) -> (r: (Vec<Event<'_>>, Option<Result<(), Error>>))
        requires
            len <= self.buf@.len(),
        ensures
            ({
                let (events, outcome) = r;
                let (starts, all) = event_starts(self.buf@, 0, len as int);
                &&& events@.len() == starts.len()
                &&& forall|i: int|
                    0 <= i < starts.len() ==> {
                        &&& 0 <= #[trigger] starts[i] <= self.buf@.len()
                        &&& events@[i].is_event_of(
                            self.buf@.subrange(starts[i], self.buf@.len() as int),
                        )
                    }
                &&& match outcome {
                    Some(Ok(_)) => all == Some(true),
                    Some(Err(e)) => all == Some(false) && e is Logic,
                    None => all is None,
                }
            }),
    {
        let buf = self.buf.as_slice();
        let mut events: Vec<Event<'_>> = Vec::new();
        let mut ptr: usize = 0;
        let ghost mut starts: Seq<int> = Seq::empty();
        let ghost all = event_starts(buf@, 0, len as int).0;
        assert(starts + all =~= all);
        while ptr < len
            invariant
                buf@ == self.buf@,
                len <= buf@.len(),
                ptr <= buf@.len(),
                events@.len() == starts.len(),
                forall|i: int|
                    0 <= i < starts.len() ==> {
                        &&& 0 <= #[trigger] starts[i] <= buf@.len()
                        &&& events@[i].is_event_of(buf@.subrange(starts[i], buf@.len() as int))
                    },
                event_starts(buf@, 0, len as int).0 == starts + event_starts(
                    buf@,
                    ptr as int,
                    len as int,
                ).0,
                event_starts(buf@, 0, len as int).1 == event_starts(buf@, ptr as int, len as int).1,
            decreases buf@.len() - ptr,
        {
            let here = slice_subrange(buf, ptr, buf.len());
            match Event::try_from_slice(here) {
                None => {
                    assert(starts + Seq::<int>::empty() =~= starts);
                    return (events, None);
                },
                Some(Err(e)) => {
                    assert(starts + Seq::<int>::empty() =~= starts);
                    return (events, Some(Err(e)));
                },
                Some(Ok((event, event_len))) => {
                    let ghost before = starts;
                    proof {
                        starts = starts.push(ptr as int);
                        let rest = event_starts(buf@, ptr + event_len, len as int).0;
                        assert(before + (seq![ptr as int] + rest) =~= starts + rest);
                    }
                    events.push(event);
                    assert(forall|i: int| 0 <= i < before.len() ==> starts[i] == before[i]);
                    ptr += event_len;
                },
            }
        }
        assert(starts + Seq::<int>::empty() =~= starts);
        (events, Some(Ok(())))
    }
}

/// The place of the last of the first `n` records that has the type, if one has it.
pub open spec fn is_last_place(e: Written, n: int, kind: u8, at: Option<int>) -> bool {
    match at {
        Some(at) => exists|i: int| #[trigger]
            e.start(i) == at && 0 <= i < n && e.infos[i].kind == kind && forall|j: int|
                i < j < n ==> (#[trigger] e.infos[j]).kind != kind,
        None => forall|j: int| 0 <= j < n ==> (#[trigger] e.infos[j]).kind != kind,
    }
}

/// The places are those of the last records of each type among the first `n`.
pub open spec fn are_last_places(e: Written, n: int, found: Found) -> bool {
    &&& is_last_place(e, n, FAN_EVENT_INFO_TYPE_FID, found.fid)
    &&& is_last_place(e, n, FAN_EVENT_INFO_TYPE_DFID_NAME, found.dfid)
    &&& is_last_place(e, n, FAN_EVENT_INFO_TYPE_OLD_DFID_NAME, found.old_dfid)
    &&& is_last_place(e, n, FAN_EVENT_INFO_TYPE_NEW_DFID_NAME, found.new_dfid)
}

/// The type is one that the reader knows.
pub open spec fn is_known(kind: u8) -> bool {
    ||| kind == FAN_EVENT_INFO_TYPE_FID
    ||| kind == FAN_EVENT_INFO_TYPE_DFID_NAME
    ||| kind == FAN_EVENT_INFO_TYPE_OLD_DFID_NAME
    ||| kind == FAN_EVENT_INFO_TYPE_NEW_DFID_NAME
}

proof fn lemma_one_more_record(e: Written, n: int, kind: u8, at: Option<int>)
    requires
        0 <= n < e.infos.len(),
        is_last_place(e, n, kind, at),
    ensures
        e.infos[n].kind != kind ==> is_last_place(e, n + 1, kind, at),
        e.infos[n].kind == kind ==> is_last_place(e, n + 1, kind, Some(e.start(n))),
{
    if e.infos[n].kind == kind {
        assert(e.start(n) == e.start(n));
    } else if let Some(p) = at {
        let i = choose|i: int| #[trigger]
            e.start(i) == p && 0 <= i < n && e.infos[i].kind == kind && forall|j: int|
                i < j < n ==> (#[trigger] e.infos[j]).kind != kind;
        assert(e.start(i) == p);
    }
}

proof fn lemma_scanned(e: Written, rest: Seq<u8>, n: int, found: Found)
    requires
        e.is_written(),
        0 <= n <= e.infos.len(),
        are_last_places(e, n, found),
    ensures
        match scan(e.bytes() + rest, e.start(n), e.len() as int, found) {
            Scan::Cut => false,
            Scan::Unknown => exists|i: int|
                n <= i < e.infos.len() && !is_known((#[trigger] e.infos[i]).kind),
            Scan::Known(all) => are_last_places(e, e.infos.len() as int, all) && forall|i: int|
                n <= i < e.infos.len() ==> is_known((#[trigger] e.infos[i]).kind),
        },
    decreases e.infos.len() - n,
{
    let buf = e.bytes() + rest;
    law_metadata_read(e, rest);
    if n == e.infos.len() {
        assert(e.infos.take(n) =~= e.infos);
    } else {
        lemma_start(e, rest, n);
        law_record_read(buf, e.start(n), e.infos[n]);
        lemma_one_more_record(e, n, FAN_EVENT_INFO_TYPE_FID, found.fid);
        lemma_one_more_record(e, n, FAN_EVENT_INFO_TYPE_DFID_NAME, found.dfid);
        lemma_one_more_record(e, n, FAN_EVENT_INFO_TYPE_OLD_DFID_NAME, found.old_dfid);
        lemma_one_more_record(e, n, FAN_EVENT_INFO_TYPE_NEW_DFID_NAME, found.new_dfid);
        match found.note(e.infos[n].kind, e.start(n)) {
            None => {
                assert(!is_known(e.infos[n].kind));
            },
            Some(more) => {
                lemma_scanned(e, rest, n + 1, more);
            },
        }
    }
}

/// Some record has the type.
pub open spec fn has_kind(e: Written, kind: u8) -> bool {
    exists|i: int| 0 <= i < e.infos.len() && (#[trigger] e.infos[i]).kind == kind
}

proof fn lemma_has_kind(e: Written, kind: u8, at: Option<int>)
    requires
        is_last_place(e, e.infos.len() as int, kind, at),
    ensures
        at is Some <==> has_kind(e, kind),
{
    if let Some(p) = at {
        let i = choose|i: int| #[trigger]
            e.start(i) == p && 0 <= i < e.infos.len() && e.infos[i].kind == kind && forall|j: int|
                i < j < e.infos.len() ==> (#[trigger] e.infos[j]).kind != kind;
        assert(e.infos[i].kind == kind);
    }
}

/// Every event that the kernel writes can be judged, whatever follows it. It is accepted
/// exactly if all its records are of known types, one of them holds the subject, and those
/// of a rename come together; and then the places are those of the last record of each type.
pub proof fn law_events_judged(e: Written, rest: Seq<u8>)
    requires
        e.is_written(),
    ensures
        judgeable(e.bytes() + rest),
        event_len(e.bytes() + rest) == e.bytes().len(),
        metadata_of(e.bytes() + rest).mask == e.mask,
        acceptable(e.bytes() + rest) <==> {
            &&& forall|i: int| 0 <= i < e.infos.len() ==> is_known((#[trigger] e.infos[i]).kind)
            &&& has_kind(e, FAN_EVENT_INFO_TYPE_FID)
            &&& has_kind(e, FAN_EVENT_INFO_TYPE_OLD_DFID_NAME) <==> has_kind(
                e,
                FAN_EVENT_INFO_TYPE_NEW_DFID_NAME,
            )
        },
        event_scan(e.bytes() + rest) matches Scan::Known(found) ==> are_last_places(
            e,
            e.infos.len() as int,
            found,
        ),
{
    law_metadata_read(e, rest);
    assert(e.infos.take(0) =~= Seq::empty());
    lemma_scanned(e, rest, 0, Found::nothing());
    if let Scan::Known(found) = event_scan(e.bytes() + rest) {
        lemma_has_kind(e, FAN_EVENT_INFO_TYPE_FID, found.fid);
        lemma_has_kind(e, FAN_EVENT_INFO_TYPE_OLD_DFID_NAME, found.old_dfid);
        lemma_has_kind(e, FAN_EVENT_INFO_TYPE_NEW_DFID_NAME, found.new_dfid);
    }
}

/// Handles and names are read back from the places of the records in an event.
pub proof fn law_places_read(e: Written, i: int)
    requires
        e.is_written(),
        0 <= i < e.infos.len(),
    ensures
        e.infos[i].held !is Other ==> has_handle(e.bytes(), e.start(i)) && handle_at(
            e.bytes(),
            e.start(i),
        ) == e.infos[i].fh(),
        e.infos[i].held is Named ==> has_name(e.bytes(), e.start(i)) && name_at(
            e.bytes(),
            e.start(i),
        ) == e.infos[i].name(),
{
    let none = Seq::<u8>::empty();
    assert(e.bytes() + none =~= e.bytes());
    law_metadata_read(e, none);
    lemma_start(e, none, i);
    law_record_read(e.bytes(), e.start(i), e.infos[i]);
}

/// The events as they are written, one after the other.
pub open spec fn events_bytes(events: Seq<Written>) -> Seq<u8>
    decreases events.len(),
{
    if events.len() == 0 {
        Seq::empty()
    } else {
        events_bytes(events.drop_last()) + events.last().bytes()
    }
}

/// The event is one that the reader accepts.
pub open spec fn is_accepted(e: Written) -> bool {
    &&& e.is_written()
    &&& forall|i: int| 0 <= i < e.infos.len() ==> is_known((#[trigger] e.infos[i]).kind)
    &&& has_kind(e, FAN_EVENT_INFO_TYPE_FID)
    &&& has_kind(e, FAN_EVENT_INFO_TYPE_OLD_DFID_NAME) <==> has_kind(
        e,
        FAN_EVENT_INFO_TYPE_NEW_DFID_NAME,
    )
}

/// What comes before an event, the event, and what comes after it.
pub proof fn lemma_events_apart(events: Seq<Written>, k: int)
    requires
        0 <= k < events.len(),
    ensures
        ({
            let before = events_bytes(events.take(k));
            let upto = events_bytes(events.take(k + 1));
            &&& upto == before + events[k].bytes()
            &&& upto.len() <= events_bytes(events).len()
            &&& events_bytes(events).take(upto.len() as int) == upto
        }),
    decreases events.len(),
{
    assert(events.take(k + 1).drop_last() =~= events.take(k));
    let upto = events_bytes(events.take(k + 1));
    if k + 1 == events.len() {
        assert(events.take(k + 1) =~= events);
        assert(upto.take(upto.len() as int) =~= upto);
    } else {
        let front = events.drop_last();
        lemma_events_apart(front, k);
        assert(front.take(k) =~= events.take(k));
        assert(front.take(k + 1) =~= events.take(k + 1));
        assert(events_bytes(events).take(upto.len() as int) =~= events_bytes(front).take(
            upto.len() as int,
        ));
    }
}

proof fn lemma_events_found(events: Seq<Written>, rest: Seq<u8>, k: int)
    requires
        0 <= k <= events.len(),
        forall|i: int| 0 <= i < events.len() ==> is_accepted(#[trigger] events[i]),
    ensures
        event_starts(
            events_bytes(events) + rest,
            events_bytes(events.take(k)).len() as int,
            events_bytes(events).len() as int,
        ) == (
            Seq::new(
                (events.len() - k) as nat,
                |i: int| events_bytes(events.take(k + i)).len() as int,
            ),
            Some(true),
        ),
    decreases events.len() - k,
{
    let all = events_bytes(events);
    let buf = all + rest;
    let ptr = events_bytes(events.take(k)).len() as int;
    let found = Seq::new(
        (events.len() - k) as nat,
        |i: int| events_bytes(events.take(k + i)).len() as int,
    );
    if k == events.len() {
        assert(events.take(k) =~= events);
        assert(found =~= Seq::<int>::empty());
    } else {
        let e = events[k];
        let upto = events_bytes(events.take(k + 1));
        lemma_events_apart(events, k);
        let here = buf.subrange(ptr, buf.len() as int);
        let after = buf.skip(upto.len() as int);
        assert(here =~= e.bytes() + after) by {
            assert(all.take(upto.len() as int).subrange(ptr, upto.len() as int) =~= e.bytes());
        }
        assert(is_accepted(e));
        law_events_judged(e, after);
        law_metadata_read(e, after);
        lemma_events_found(events, rest, k + 1);
        let later = Seq::new(
            (events.len() - (k + 1)) as nat,
            |i: int| events_bytes(events.take(k + 1 + i)).len() as int,
        );
        assert(found =~= seq![ptr] + later);
    }
}

/// All events that were read at once are found, one after the other.
pub proof fn law_all_events_found(events: Seq<Written>, rest: Seq<u8>)
    requires
        forall|i: int| 0 <= i < events.len() ==> is_accepted(#[trigger] events[i]),
    ensures
        event_starts(events_bytes(events) + rest, 0, events_bytes(events).len() as int) == (
            Seq::new(events.len(), |i: int| events_bytes(events.take(i)).len() as int),
            Some(true),
        ),
{
    lemma_events_found(events, rest, 0);
    assert(events.take(0) =~= Seq::empty());
    assert(Seq::new(events.len(), |i: int| events_bytes(events.take(i)).len() as int) =~= Seq::new(
        (events.len() - 0) as nat,
        |i: int| events_bytes(events.take(0 + i)).len() as int,
    ));
}

/// A failed read is told with its whole reason, and no reason makes it look like an event
/// that was not accepted.
pub proof fn law_errors_told(reason: String)
    ensures
        error_text(Error::Read(reason)) == "Read error: "@ + reason@,
        error_text(Error::Logic) == "Logic error"@,
        error_text(Error::Read(reason)) != error_text(Error::Logic),
{
    reveal_strlit("Read error: ");
    reveal_strlit("Logic error");
    assert(error_text(Error::Read(reason))[0] == 'R');
    assert(error_text(Error::Logic)[0] == 'L');
}

} // verus!
