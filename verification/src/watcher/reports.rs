//! What is reported for the events that the kernel writes.

use vstd::prelude::*;

use crate::fanotify::written::{
    law_metadata_read, law_records_found, le_bytes, lemma_last_of, Written,
};
use crate::fanotify::{
    create_delete_whole, handle_at, holds_opened, info_type, last_of, last_opened, metadata_of,
    name_at, open_whole, record_of, rename_whole, FAN_CREATE, FAN_DELETE,
    FAN_EVENT_INFO_TYPE_DFID, FAN_EVENT_INFO_TYPE_DFID_NAME, FAN_EVENT_INFO_TYPE_FID,
    FAN_EVENT_INFO_TYPE_NEW_DFID_NAME, FAN_EVENT_INFO_TYPE_OLD_DFID_NAME, FAN_ONDIR, FAN_OPEN,
    FAN_RENAME,
};
use crate::fanotify_reader::{events_bytes, lemma_events_apart};
use crate::watcher::decode::{created, deleted, reading, renamed, stripped, subject, Reading};
use crate::watcher::event::Change;
use crate::watchpath::{law_subvolume, Filter};

verus! {

/// The handle is of what is watched: of the subvolume, where only one is watched.
pub open spec fn is_watched(filter: Filter, fh: Seq<u8>) -> bool {
    match filter {
        Filter::All => true,
        Filter::Subvol { root_objectid } => fh.len() >= 28 && fh.subrange(16, 24) == le_bytes(
            root_objectid as nat,
            8,
        ),
    }
}

/// The handle is of another subvolume than the one that is watched.
pub open spec fn is_elsewhere(filter: Filter, fh: Seq<u8>) -> bool {
    filter is Subvol && fh.len() >= 28 && !is_watched(filter, fh)
}

/// The change, if the event reports changes of this kind.
pub open spec fn if_any(mask: u64, kind: u64, change: Change) -> Seq<Change> {
    if mask & kind != 0 {
        seq![change]
    } else {
        Seq::empty()
    }
}

/// What happened, as far as it is of interest.
proof fn lemma_mask(mask: u64)
    ensures
        stripped(mask) & FAN_CREATE == mask & FAN_CREATE,
        stripped(mask) & FAN_DELETE == mask & FAN_DELETE,
        stripped(mask) & FAN_RENAME == mask & FAN_RENAME,
        stripped(mask) == FAN_OPEN <==> mask & FAN_OPEN != 0 && mask & FAN_CREATE == 0 && mask
            & FAN_DELETE == 0 && mask & FAN_RENAME == 0,
        stripped(mask) == FAN_CREATE | FAN_DELETE <==> mask & FAN_CREATE != 0 && mask & FAN_DELETE
            != 0 && mask & FAN_RENAME == 0 && mask & FAN_OPEN == 0,
{
    let all: u64 = 0x1000_0320;
    assert(0x100u64 | 0x200u64 | 0x1000_0000u64 | 0x20u64 == 0x1000_0320u64) by (bit_vector);
    assert(mask & all == stripped(mask));
    assert((mask & 0x1000_0320) & 0x100 == mask & 0x100) by (bit_vector);
    assert((mask & 0x1000_0320) & 0x200 == mask & 0x200) by (bit_vector);
    assert((mask & 0x1000_0320) & 0x1000_0000 == mask & 0x1000_0000) by (bit_vector);
    assert(mask & 0x1000_0320 == 0x20 <==> mask & 0x20 != 0 && mask & 0x100 == 0 && mask & 0x200
        == 0 && mask & 0x1000_0000 == 0) by (bit_vector);
    assert(mask & 0x1000_0320 == 0x100u64 | 0x200u64 <==> mask & 0x100 != 0 && mask & 0x200 != 0
        && mask & 0x1000_0000 == 0 && mask & 0x20 == 0) by (bit_vector);
}

/// The records that tell what was created, deleted or renamed.
pub open spec fn tells_changes(e: Written, fid: int, at: int, before: int, after: int) -> bool {
    &&& e.is_written()
    &&& e.is_last(fid, FAN_EVENT_INFO_TYPE_FID)
    &&& e.mask & FAN_CREATE != 0 || e.mask & FAN_DELETE != 0 ==> e.is_last(
        at,
        FAN_EVENT_INFO_TYPE_DFID_NAME,
    )
    &&& e.mask & FAN_RENAME != 0 ==> e.is_last(before, FAN_EVENT_INFO_TYPE_OLD_DFID_NAME)
        && e.is_last(after, FAN_EVENT_INFO_TYPE_NEW_DFID_NAME)
    &&& e.mask & FAN_CREATE != 0 || e.mask & FAN_DELETE != 0 || e.mask & FAN_RENAME != 0
    &&& !(e.mask & FAN_CREATE != 0 && e.mask & FAN_DELETE != 0 && e.mask & FAN_RENAME == 0
        && e.mask & FAN_OPEN == 0)
}

proof fn lemma_taken(e: Written, rest: Seq<u8>, kind: u8, i: int)
    requires
        e.is_written(),
        e.is_last(i, kind),
    ensures
        ({
            let buf = e.bytes() + rest;
            let at = record_of(buf, metadata_of(buf), kind);
            &&& e.infos[i].held !is Other ==> handle_at(buf, at) == e.infos[i].fh()
            &&& e.infos[i].held is Named ==> name_at(buf, at) == e.infos[i].name()
        }),
{
    let buf = e.bytes() + rest;
    law_records_found(e, rest);
    let starts = Seq::new(e.infos.len(), |i: int| e.start(i));
    assert(starts[i] == e.start(i));
    assert forall|j: int| i < j < starts.len() implies info_type(
        buf,
        #[trigger] starts[j],
    ) != kind by {
        assert(e.infos[j].kind != kind);
    }
    lemma_last_of(buf, starts, kind, i);
}

proof fn lemma_whole(e: Written, rest: Seq<u8>, fid: int, at: int, before: int, after: int)
    requires
        tells_changes(e, fid, at, before, after),
    ensures
        ({
            let buf = e.bytes() + rest;
            let m = metadata_of(buf);
            &&& e.mask & FAN_CREATE != 0 || e.mask & FAN_DELETE != 0 ==> create_delete_whole(buf, m)
            &&& e.mask & FAN_RENAME != 0 ==> rename_whole(buf, m)
            &&& subject(buf) == e.infos[fid].fh()
        }),
{
    let buf = e.bytes() + rest;
    law_metadata_read(e, rest);
    law_records_found(e, rest);
    let starts = Seq::new(e.infos.len(), |i: int| e.start(i));
    assert forall|i: int| 0 <= i < e.infos.len() implies (#[trigger] e.infos[i]).is_written() by {}
    assert forall|kind: u8, i: int| #[trigger] e.is_last(i, kind) implies
        last_of(buf, starts, kind) == Some(starts[i]) by {
        assert forall|j: int| i < j < starts.len() implies info_type(
            buf,
            #[trigger] starts[j],
        ) != kind by {
            assert(e.infos[j].kind != kind);
        }
        assert(starts[i] == e.start(i));
        lemma_last_of(buf, starts, kind, i);
    }
    lemma_taken(e, rest, FAN_EVENT_INFO_TYPE_FID, fid);
    assert(e.infos[fid].is_written());
}

/// Whatever was created, deleted or renamed is reported, once each and in this order, for
/// files and for directories, as far as it is watched: with the handle, the directories and
/// the names that the event has in the last record of each type.
pub proof fn law_changes_reported(
    e: Written,
    rest: Seq<u8>,
    filter: Filter,
    discover_tid: i32,
    fid: int,
    at: int,
    before: int,
    after: int,
)
    requires
        tells_changes(e, fid, at, before, after),
        is_watched(filter, e.infos[fid].fh()),
    ensures
        ({
            let fh = e.infos[fid].fh();
            let is_dir = e.mask & FAN_ONDIR != 0;
            reading(e.bytes() + rest, filter, discover_tid) == Some(
                Reading::Changes(
                    if_any(
                        e.mask,
                        FAN_CREATE,
                        Change::Create {
                            p_fh: e.infos[at].fh(),
                            fh,
                            name: e.infos[at].name(),
                            is_dir,
                        },
                    ) + if_any(
                        e.mask,
                        FAN_DELETE,
                        Change::Delete {
                            p_fh: e.infos[at].fh(),
                            fh,
                            name: e.infos[at].name(),
                            is_dir,
                        },
                    ) + if_any(
                        e.mask,
                        FAN_RENAME,
                        Change::Rename {
                            old_p_fh: e.infos[before].fh(),
                            new_p_fh: e.infos[after].fh(),
                            fh,
                            old_name: e.infos[before].name(),
                            new_name: e.infos[after].name(),
                            is_dir,
                        },
                    ),
                ),
            )
        }),
{
    let buf = e.bytes() + rest;
    let fh = e.infos[fid].fh();
    lemma_mask(e.mask);
    law_metadata_read(e, rest);
    lemma_whole(e, rest, fid, at, before, after);
    if let Filter::Subvol { root_objectid } = filter {
        law_subvolume(fh, root_objectid);
    } else {
        law_subvolume(fh, 0);
    }
    if e.mask & FAN_CREATE != 0 || e.mask & FAN_DELETE != 0 {
        lemma_taken(e, rest, FAN_EVENT_INFO_TYPE_DFID_NAME, at);
        assert(e.infos[at].is_written());
    }
    if e.mask & FAN_RENAME != 0 {
        lemma_taken(e, rest, FAN_EVENT_INFO_TYPE_OLD_DFID_NAME, before);
        lemma_taken(e, rest, FAN_EVENT_INFO_TYPE_NEW_DFID_NAME, after);
        assert(e.infos[before].is_written());
        assert(e.infos[after].is_written());
    }
    let all = reading(buf, filter, discover_tid)->0->Changes_0;
    assert(renamed(buf, filter) is Some);
    assert(deleted(buf, filter) is Some);
    assert(created(buf, filter) == Some(all));
    let is_dir = e.mask & FAN_ONDIR != 0;
    let third = if_any(
        e.mask,
        FAN_RENAME,
        Change::Rename {
            old_p_fh: e.infos[before].fh(),
            new_p_fh: e.infos[after].fh(),
            fh,
            old_name: e.infos[before].name(),
            new_name: e.infos[after].name(),
            is_dir,
        },
    );
    let second = if_any(
        e.mask,
        FAN_DELETE,
        Change::Delete { p_fh: e.infos[at].fh(), fh, name: e.infos[at].name(), is_dir },
    );
    let first = if_any(
        e.mask,
        FAN_CREATE,
        Change::Create { p_fh: e.infos[at].fh(), fh, name: e.infos[at].name(), is_dir },
    );
    assert(renamed(buf, filter)->0 =~= third);
    assert(deleted(buf, filter)->0 =~= second + third);
    assert(all =~= first + (second + third));
    assert(all =~= first + second + third);
}

/// What happens in another subvolume is not reported.
pub proof fn law_elsewhere_not_reported(
    e: Written,
    rest: Seq<u8>,
    filter: Filter,
    discover_tid: i32,
    fid: int,
    at: int,
    before: int,
    after: int,
)
    requires
        tells_changes(e, fid, at, before, after),
        is_elsewhere(filter, e.infos[fid].fh()),
    ensures
        reading(e.bytes() + rest, filter, discover_tid) == Some(
            Reading::Changes(Seq::<Change>::empty()),
        ),
{
    lemma_mask(e.mask);
    law_metadata_read(e, rest);
    lemma_whole(e, rest, fid, at, before, after);
    law_subvolume(e.infos[fid].fh(), filter->root_objectid);
}

/// Nothing is reported for what was created and deleted again, for what another thread
/// opened, and for anything else that happened.
pub proof fn law_nothing_reported(
    e: Written,
    rest: Seq<u8>,
    filter: Filter,
    discover_tid: i32,
)
    requires
        e.is_written(),
        ({
            let (c, d) = (e.mask & FAN_CREATE != 0, e.mask & FAN_DELETE != 0);
            let (r, o) = (e.mask & FAN_RENAME != 0, e.mask & FAN_OPEN != 0);
            !r && (c == d) && (c ==> !o) && (o ==> e.pid != discover_tid)
        }),
    ensures
        reading(e.bytes() + rest, filter, discover_tid) == Some(
            Reading::Changes(Seq::<Change>::empty()),
        ),
{
    lemma_mask(e.mask);
    law_metadata_read(e, rest);
}

/// The record holds the handle of what was opened. A directory that was opened is reported
/// as a directory, or as the entry `.` of itself.
pub open spec fn tells_opened(e: Written, i: int) -> bool {
    ||| e.infos[i].kind == FAN_EVENT_INFO_TYPE_FID
    ||| e.mask & FAN_ONDIR != 0 && e.infos[i].kind == FAN_EVENT_INFO_TYPE_DFID
    ||| e.mask & FAN_ONDIR != 0 && e.infos[i].kind == FAN_EVENT_INFO_TYPE_DFID_NAME
        && e.infos[i].name() == seq![46u8]
}

proof fn lemma_last_opened(e: Written, rest: Seq<u8>, i: int, n: int)
    requires
        e.is_written(),
        0 <= i < n <= e.infos.len(),
        tells_opened(e, i),
        forall|j: int| i < j < n ==> !#[trigger] tells_opened(e, j),
    ensures
        ({
            let buf = e.bytes() + rest;
            let starts = Seq::new(n as nat, |i: int| e.start(i));
            last_opened(buf, starts, metadata_of(buf)) == Some(e.start(i))
        }),
    decreases n,
{
    let buf = e.bytes() + rest;
    let all = Seq::new(e.infos.len(), |i: int| e.start(i));
    let starts = Seq::new(n as nat, |i: int| e.start(i));
    law_metadata_read(e, rest);
    law_records_found(e, rest);
    let last = n - 1;
    assert(all[last] == e.start(last));
    assert(e.infos[last].is_written());
    assert(holds_opened(buf, e.start(last), metadata_of(buf)) <==> tells_opened(e, last));
    assert(starts.drop_last() =~= Seq::new((n - 1) as nat, |i: int| e.start(i)));
    if i < last {
        assert(!tells_opened(e, last));
        lemma_last_opened(e, rest, i, n - 1);
    }
}

/// What the discoverer opened is told by the handle in the last record that has it.
pub proof fn law_opened_reported(
    e: Written,
    rest: Seq<u8>,
    filter: Filter,
    discover_tid: i32,
    i: int,
)
    requires
        e.is_written(),
        e.mask & FAN_OPEN != 0,
        e.mask & FAN_CREATE == 0,
        e.mask & FAN_DELETE == 0,
        e.mask & FAN_RENAME == 0,
        e.pid == discover_tid,
        0 <= i < e.infos.len(),
        tells_opened(e, i),
        forall|j: int| i < j < e.infos.len() ==> !#[trigger] tells_opened(e, j),
    ensures
        reading(e.bytes() + rest, filter, discover_tid) == Some(
            Reading::Opened(e.infos[i].fh()),
        ),
{
    let buf = e.bytes() + rest;
    let starts = Seq::new(e.infos.len(), |i: int| e.start(i));
    lemma_mask(e.mask);
    law_metadata_read(e, rest);
    law_records_found(e, rest);
    lemma_last_opened(e, rest, i, e.infos.len() as int);
    assert forall|j: int| 0 <= j < e.infos.len() implies (#[trigger] e.infos[j]).is_written() by {}
    assert(starts[i] == e.start(i));
    assert(e.infos[i].is_written());
    assert(open_whole(buf, metadata_of(buf)));
}

/// Events that are read at once are read one after the other: each stands where the one
/// before it ends, and is read as if it stood alone.
pub proof fn law_events_in_turn(events: Seq<Written>, rest: Seq<u8>, k: int)
    requires
        0 <= k < events.len(),
        forall|i: int| 0 <= i < events.len() ==> (#[trigger] events[i]).is_written(),
    ensures
        ({
            let buf = events_bytes(events) + rest;
            let ptr = events_bytes(events.take(k)).len() as int;
            let here = buf.skip(ptr);
            &&& ptr + metadata_of(here).event_len == events_bytes(events.take(k + 1)).len()
            &&& exists|later: Seq<u8>| here == #[trigger] (events[k].bytes() + later)
        }),
{
    let all = events_bytes(events);
    let buf = all + rest;
    let ptr = events_bytes(events.take(k)).len() as int;
    let upto = events_bytes(events.take(k + 1));
    lemma_events_apart(events, k);
    let later = buf.skip(upto.len() as int);
    assert(buf.skip(ptr) =~= events[k].bytes() + later) by {
        assert(all.take(upto.len() as int).subrange(ptr, upto.len() as int)
            =~= events[k].bytes());
    }
    law_metadata_read(events[k], later);
}

} // verus!
