//! Events as the kernel writes them, and that they are read back.

use vstd::prelude::*;

use crate::fanotify::{
    first_nul, handle_at, handle_end, has_handle, has_name, info_len, info_records, info_type,
    last_of, metadata_of, name_at, records, FAN_EVENT_INFO_TYPE_DFID,
    FAN_EVENT_INFO_TYPE_DFID_NAME, FAN_EVENT_INFO_TYPE_FID, FAN_EVENT_INFO_TYPE_NEW_DFID_NAME,
    FAN_EVENT_INFO_TYPE_OLD_DFID_NAME, INFO_FID_LEN, METADATA_LEN,
};
use crate::file_handle::{handle_len, header_of, is_handle};
use crate::util;

verus! {

/// A number in `len` bytes, the least significant one first.
pub open spec fn le_bytes(n: nat, len: nat) -> Seq<u8>
    decreases len,
{
    if len == 0 {
        Seq::empty()
    } else {
        seq![(n % 256) as u8] + le_bytes(n / 256, (len - 1) as nat)
    }
}

/// The number that bytes write, the least significant one first.
pub open spec fn le_value(bytes: Seq<u8>) -> nat
    decreases bytes.len(),
{
    if bytes.len() == 0 {
        0
    } else {
        (bytes[0] + 256 * le_value(bytes.skip(1))) as nat
    }
}

/// How many numbers can be written in `len` bytes.
pub open spec fn le_numbers(len: nat) -> nat
    decreases len,
{
    if len == 0 {
        1
    } else {
        256 * le_numbers((len - 1) as nat)
    }
}

/// A number is read back from the bytes that write it.
pub proof fn law_number_read_back(n: nat, len: nat)
    requires
        n < le_numbers(len),
    ensures
        le_bytes(n, len).len() == len,
        le_value(le_bytes(n, len)) == n,
    decreases len,
{
    if len > 0 {
        let less = (len - 1) as nat;
        law_number_read_back(n / 256, less);
        assert(le_bytes(n, len).skip(1) =~= le_bytes(n / 256, less));
    }
}

/// Bytes are those of the number that they write.
pub proof fn law_bytes_of_number(bytes: Seq<u8>)
    ensures
        le_bytes(le_value(bytes), bytes.len()) == bytes,
        le_value(bytes) < le_numbers(bytes.len()),
    decreases bytes.len(),
{
    if bytes.len() > 0 {
        law_bytes_of_number(bytes.skip(1));
        let high = le_value(bytes.skip(1));
        assert(le_value(bytes) % 256 == bytes[0]);
        assert(le_value(bytes) / 256 == high);
        assert(le_bytes(le_value(bytes), bytes.len()) =~= seq![bytes[0]] + bytes.skip(1));
    } else {
        assert(le_bytes(le_value(bytes), bytes.len()) =~= bytes);
    }
}

/// The fields of a record are the numbers that their bytes write.
pub proof fn law_fields(buf: Seq<u8>, at: int)
    requires
        0 <= at,
    ensures
        at + 2 <= buf.len() ==> util::u16_at(buf, at) == le_value(buf.subrange(at, at + 2)),
        at + 4 <= buf.len() ==> util::u32_at(buf, at) == le_value(buf.subrange(at, at + 4)),
        at + 8 <= buf.len() ==> util::u64_at(buf, at) == le_value(buf.subrange(at, at + 8)),
{
    reveal_with_fuel(le_value, 9);
    if at + 2 <= buf.len() {
        lemma_skips(buf, at, at + 2);
    }
    if at + 4 <= buf.len() {
        lemma_value4(buf, at);
    }
    if at + 8 <= buf.len() {
        lemma_value4(buf, at);
        lemma_value4(buf, at + 4);
        lemma_skips(buf, at, at + 8);
        lemma_skips(buf, at + 1, at + 8);
        lemma_skips(buf, at + 2, at + 8);
        lemma_skips(buf, at + 3, at + 8);
    }
}

/// Without its first element, a part begins one later.
proof fn lemma_skips(buf: Seq<u8>, from: int, to: int)
    requires
        0 <= from < to <= buf.len(),
    ensures
        buf.subrange(from, to).skip(1) == buf.subrange(from + 1, to),
        buf.subrange(from, to)[0] == buf[from],
        le_value(buf.subrange(from, to)) == buf[from] + 256 * le_value(buf.subrange(from + 1, to)),
{
    assert(buf.subrange(from, to).skip(1) =~= buf.subrange(from + 1, to));
}

proof fn lemma_value4(buf: Seq<u8>, at: int)
    requires
        0 <= at,
        at + 4 <= buf.len(),
    ensures
        le_value(buf.subrange(at, at + 4)) == util::u32_at(buf, at),
{
    lemma_skips(buf, at, at + 4);
    lemma_skips(buf, at + 1, at + 4);
    lemma_skips(buf, at + 2, at + 4);
    lemma_skips(buf, at + 3, at + 4);
}

/// A handle as it is written: how many bytes come after the header, their type, and the
/// bytes.
pub open spec fn handle_bytes(kind: u32, body: Seq<u8>) -> Seq<u8> {
    le_bytes(body.len(), 4) + le_bytes(kind as nat, 4) + body
}

/// The bytes are a handle as it is written.
pub open spec fn is_written_handle(fh: Seq<u8>) -> bool {
    &&& 8 <= fh.len() < le_numbers(4)
    &&& fh.take(4) == le_bytes((fh.len() - 8) as nat, 4)
}

/// Handles are told by their own bytes, and their parts are read back.
pub proof fn law_handles(kind: u32, body: Seq<u8>, fh: Seq<u8>)
    requires
        body.len() + 8 < le_numbers(4),
    ensures
        is_written_handle(handle_bytes(kind, body)),
        header_of(handle_bytes(kind, body)).handle_bytes == body.len(),
        header_of(handle_bytes(kind, body)).handle_type == kind as i32,
        handle_bytes(kind, body).skip(8) == body,
        is_written_handle(fh) ==> is_handle(fh),
        is_handle(fh) && fh.len() < le_numbers(4) ==> is_written_handle(fh),
{
    reveal_with_fuel(le_numbers, 5);
    let h = handle_bytes(kind, body);
    law_number_read_back(body.len(), 4);
    law_number_read_back(kind as nat, 4);
    law_fields(h, 0);
    law_fields(h, 4);
    assert(h.subrange(0, 4) =~= le_bytes(body.len(), 4));
    assert(h.take(4) =~= le_bytes(body.len(), 4));
    assert(h.subrange(4, 8) =~= le_bytes(kind as nat, 4));
    assert(h.skip(8) =~= body);
    if 8 <= fh.len() < le_numbers(4) {
        let n = (fh.len() - 8) as nat;
        law_fields(fh, 0);
        law_number_read_back(n, 4);
        law_bytes_of_number(fh.take(4));
        assert(fh.subrange(0, 4) =~= fh.take(4));
    }
}

/// What an information record holds after its type and length.
pub enum Held {
    /// The filesystem's identifier and a handle.
    Handle { fsid: Seq<u8>, fh: Seq<u8>, pad: Seq<u8> },
    /// A name, too.
    Named { fsid: Seq<u8>, fh: Seq<u8>, name: Seq<u8>, pad: Seq<u8> },
    /// Something else.
    Other { bytes: Seq<u8> },
}

/// An information record.
pub struct Info {
    pub kind: u8,
    pub reserved: u8,
    pub held: Held,
}

impl Info {
    /// What comes after the type and length.
    pub open spec fn held_bytes(self) -> Seq<u8> {
        match self.held {
            Held::Handle { fsid, fh, pad } => fsid + fh + pad,
            Held::Named { fsid, fh, name, pad } => fsid + fh + name.push(0) + pad,
            Held::Other { bytes } => bytes,
        }
    }

    /// The record as it is written.
    pub open spec fn bytes(self) -> Seq<u8> {
        seq![self.kind, self.reserved] + le_bytes((4 + self.held_bytes().len()) as nat, 2)
            + self.held_bytes()
    }

    /// The handle that the record holds.
    pub open spec fn fh(self) -> Seq<u8> {
        match self.held {
            Held::Handle { fh, .. } => fh,
            Held::Named { fh, .. } => fh,
            Held::Other { .. } => Seq::empty(),
        }
    }

    /// The name that the record holds.
    pub open spec fn name(self) -> Seq<u8> {
        match self.held {
            Held::Named { name, .. } => name,
            _ => Seq::empty(),
        }
    }

    /// The record is one that the kernel writes: it is short enough, and holds what records
    /// of its type hold. No name holds a zero byte.
    pub open spec fn is_written(self) -> bool {
        &&& 4 + self.held_bytes().len() < le_numbers(2)
        &&& match self.held {
            Held::Handle { fsid, fh, .. } => fsid.len() == 8 && is_written_handle(fh),
            Held::Named { fsid, fh, name, .. } => {
                &&& fsid.len() == 8
                &&& is_written_handle(fh)
                &&& !name.contains(0)
            },
            Held::Other { .. } => true,
        }
        &&& self.kind == FAN_EVENT_INFO_TYPE_FID || self.kind == FAN_EVENT_INFO_TYPE_DFID
            ==> self.held is Handle
        &&& self.kind == FAN_EVENT_INFO_TYPE_DFID_NAME || self.kind
            == FAN_EVENT_INFO_TYPE_OLD_DFID_NAME || self.kind == FAN_EVENT_INFO_TYPE_NEW_DFID_NAME
            ==> self.held is Named
    }
}

/// A name that is written with a zero byte after it ends before that byte.
proof fn lemma_name_ends(buf: Seq<u8>, from: int, name: Seq<u8>)
    requires
        0 <= from,
        from + name.len() < buf.len(),
        buf.subrange(from, from + name.len()) == name,
        buf[from + name.len()] == 0,
        !name.contains(0),
    ensures
        first_nul(buf, from) == from + name.len(),
    decreases name.len(),
{
    if name.len() > 0 {
        assert(name[0] == buf[from]);
        assert(name.contains(name[0]));
        let rest = name.skip(1);
        assert(buf.subrange(from + 1, from + 1 + rest.len()) =~= rest);
        assert(!rest.contains(0)) by {
            if rest.contains(0) {
                let i = choose|i: int| 0 <= i < rest.len() && rest[i] == 0;
                assert(name[i + 1] == 0);
            }
        }
        lemma_name_ends(buf, from + 1, rest);
    }
}

/// What a record holds is read back wherever the record stands.
pub proof fn law_record_read(buf: Seq<u8>, start: int, info: Info)
    requires
        info.is_written(),
        0 <= start,
        start + info.bytes().len() <= buf.len(),
        buf.subrange(start, start + info.bytes().len()) == info.bytes(),
    ensures
        info.bytes().len() == 4 + info.held_bytes().len(),
        info_type(buf, start) == info.kind,
        info_len(buf, start) == info.bytes().len(),
        info.held !is Other ==> has_handle(buf, start) && handle_at(buf, start) == info.fh(),
        info.held is Named ==> has_name(buf, start) && name_at(buf, start) == info.name(),
{
    reveal_with_fuel(le_numbers, 5);
    let bytes = info.bytes();
    let held = info.held_bytes();
    let n = (4 + held.len()) as nat;
    let here = buf.subrange(start, start + bytes.len());
    law_number_read_back(n, 2);
    assert(here[0] == info.kind);
    law_fields(buf, start + 2);
    assert(buf.subrange(start + 2, start + 4) =~= le_bytes(n, 2)) by {
        assert(here.subrange(2, 4) =~= le_bytes(n, 2));
        assert(buf.subrange(start + 2, start + 4) =~= here.subrange(2, 4));
    }
    if info.held !is Other {
        let fh = info.fh();
        let at = start + INFO_FID_LEN;
        let sub = buf.subrange(at, buf.len() as int);
        assert(here.subrange(12, 12int + fh.len()) =~= fh);
        assert(buf.subrange(at, at + fh.len()) =~= here.subrange(12, 12int + fh.len()));
        let m = (fh.len() - 8) as nat;
        law_number_read_back(m, 4);
        law_fields(sub, 0);
        assert(sub.subrange(0, 4) =~= fh.take(4)) by {
            assert(buf.subrange(at, at + fh.len()).take(4) =~= sub.subrange(0, 4));
        }
        assert(handle_len(sub) == fh.len());
        assert(handle_end(buf, start) == at + fh.len());
        if let Held::Named { name, .. } = info.held {
            let from = at + fh.len();
            assert(here.subrange(12int + fh.len(), 12int + fh.len() + name.len() + 1) =~= name.push(0));
            assert(buf.subrange(from, from + name.len() + 1) =~= name.push(0));
            assert(buf.subrange(from, from + name.len()) =~= name) by {
                assert(name.push(0).take(name.len() as int) =~= name);
                assert(buf.subrange(from, from + name.len() + 1).take(name.len() as int)
                    =~= buf.subrange(from, from + name.len()));
            }
            assert(buf.subrange(from, from + name.len() + 1)[name.len() as int] == 0);
            lemma_name_ends(buf, from, name);
        }
    }
}

/// The records as they are written, one after the other.
pub open spec fn infos_bytes(infos: Seq<Info>) -> Seq<u8>
    decreases infos.len(),
{
    if infos.len() == 0 {
        Seq::empty()
    } else {
        infos_bytes(infos.drop_last()) + infos.last().bytes()
    }
}

/// An event as the kernel writes it.
pub struct Written {
    pub vers: u8,
    pub reserved: u8,
    pub mask: u64,
    pub fd: i32,
    pub pid: i32,
    pub infos: Seq<Info>,
}

/// A number that may be negative in four bytes.
pub open spec fn signed_bytes(n: i32) -> Seq<u8> {
    le_bytes((n as u32) as nat, 4)
}

impl Written {
    /// The length of the event.
    pub open spec fn len(self) -> nat {
        (24 + infos_bytes(self.infos).len()) as nat
    }

    /// The event as it is written: its length, a version, the length of the metadata, what
    /// happened, a descriptor, who did it, and the records.
    pub open spec fn bytes(self) -> Seq<u8> {
        le_bytes(self.len(), 4) + seq![self.vers, self.reserved] + le_bytes(24, 2) + le_bytes(
            self.mask as nat,
            8,
        ) + signed_bytes(self.fd) + signed_bytes(self.pid) + infos_bytes(self.infos)
    }

    /// The event is one that the kernel writes.
    pub open spec fn is_written(self) -> bool {
        &&& self.len() < le_numbers(4)
        &&& forall|i: int| 0 <= i < self.infos.len() ==> (#[trigger] self.infos[i]).is_written()
    }

    /// Where a record starts.
    pub open spec fn start(self, i: int) -> int {
        24int + infos_bytes(self.infos.take(i)).len()
    }

    /// The record is the last one of its type.
    pub open spec fn is_last(self, i: int, kind: u8) -> bool {
        &&& 0 <= i < self.infos.len()
        &&& self.infos[i].kind == kind
        &&& forall|j: int| i < j < self.infos.len() ==> (#[trigger] self.infos[j]).kind != kind
    }
}

/// The metadata of an event is read back, whatever follows the event.
pub proof fn law_metadata_read(e: Written, rest: Seq<u8>)
    requires
        e.is_written(),
    ensures
        ({
            let m = metadata_of(e.bytes() + rest);
            &&& e.bytes().len() == e.len()
            &&& m.event_len == e.len()
            &&& m.vers == e.vers
            &&& m.reserved == e.reserved
            &&& m.metadata_len == METADATA_LEN
            &&& m.mask == e.mask
            &&& m.fd == e.fd
            &&& m.pid == e.pid
        }),
{
    reveal_with_fuel(le_numbers, 9);
    let buf = e.bytes() + rest;
    let (fd, pid) = (e.fd, e.pid);
    law_number_read_back(e.len(), 4);
    law_number_read_back(24, 2);
    law_number_read_back(e.mask as nat, 8);
    law_number_read_back((fd as u32) as nat, 4);
    law_number_read_back((pid as u32) as nat, 4);
    law_fields(buf, 0);
    law_fields(buf, 6);
    law_fields(buf, 8);
    law_fields(buf, 16);
    law_fields(buf, 20);
    assert(buf.subrange(0, 4) =~= le_bytes(e.len(), 4));
    assert(buf.subrange(6, 8) =~= le_bytes(24, 2));
    assert(buf.subrange(8, 16) =~= le_bytes(e.mask as nat, 8));
    assert(buf.subrange(16, 20) =~= signed_bytes(fd));
    assert(buf.subrange(20, 24) =~= signed_bytes(pid));
    assert((fd as u32) as i32 == fd) by (bit_vector);
    assert((pid as u32) as i32 == pid) by (bit_vector);
}

/// Where a record starts, and that it stands there.
pub proof fn lemma_start(e: Written, rest: Seq<u8>, i: int)
    requires
        e.is_written(),
        0 <= i < e.infos.len(),
    ensures
        24 <= e.start(i),
        e.start(i) + e.infos[i].bytes().len() == e.start(i + 1) <= e.len(),
        (e.bytes() + rest).subrange(e.start(i), e.start(i + 1)) == e.infos[i].bytes(),
{
    let buf = e.bytes() + rest;
    law_metadata_read(e, rest);
    lemma_prefix(e.infos, i + 1);
    let upto = e.infos.take(i + 1);
    assert(upto.drop_last() =~= e.infos.take(i));
    assert(upto.last() == e.infos[i]);
    let all = infos_bytes(e.infos);
    let n = infos_bytes(e.infos.take(i)).len();
    assert(infos_bytes(upto).subrange(n as int, infos_bytes(upto).len() as int)
        =~= e.infos[i].bytes());
    assert(buf.subrange(24, 24int + all.len()) =~= all) by {
        reveal_with_fuel(le_numbers, 9);
        law_number_read_back(e.len(), 4);
        law_number_read_back(24, 2);
        law_number_read_back(e.mask as nat, 8);
        law_number_read_back((e.fd as u32) as nat, 4);
        law_number_read_back((e.pid as u32) as nat, 4);
    }
    assert(buf.subrange(e.start(i), e.start(i + 1)) =~= all.subrange(
        n as int,
        infos_bytes(upto).len() as int,
    )) by {
        assert forall|k: int| 0 <= k < all.len() implies buf[24 + k] == all[k] by {
            assert(buf.subrange(24, 24int + all.len())[k] == all[k]);
        }
    }
    assert(all.subrange(n as int, infos_bytes(upto).len() as int) =~= infos_bytes(upto).subrange(
        n as int,
        infos_bytes(upto).len() as int,
    ));
}

/// The first records are what the records begin with.
proof fn lemma_prefix(infos: Seq<Info>, i: int)
    requires
        0 <= i <= infos.len(),
    ensures
        infos_bytes(infos.take(i)).len() <= infos_bytes(infos).len(),
        infos_bytes(infos).take(infos_bytes(infos.take(i)).len() as int) == infos_bytes(
            infos.take(i),
        ),
    decreases infos.len(),
{
    if i == infos.len() {
        assert(infos.take(i) =~= infos);
        assert(infos_bytes(infos).take(infos_bytes(infos).len() as int) =~= infos_bytes(infos));
    } else {
        let front = infos.drop_last();
        lemma_prefix(front, i);
        assert(front.take(i) =~= infos.take(i));
        let n = infos_bytes(infos.take(i)).len() as int;
        assert(infos_bytes(infos).take(n) =~= infos_bytes(front).take(n));
    }
}

/// The records from the `k`-th on are found where they start.
proof fn lemma_records(e: Written, rest: Seq<u8>, k: int)
    requires
        e.is_written(),
        0 <= k <= e.infos.len(),
    ensures
        records(e.bytes() + rest, e.start(k), e.len() as int) == Some(
            Seq::new((e.infos.len() - k) as nat, |j: int| e.start(k + j)),
        ),
    decreases e.infos.len() - k,
{
    let buf = e.bytes() + rest;
    let found = Seq::new((e.infos.len() - k) as nat, |j: int| e.start(k + j));
    law_metadata_read(e, rest);
    if k == e.infos.len() {
        assert(e.infos.take(k) =~= e.infos);
        assert(found =~= Seq::<int>::empty());
    } else {
        lemma_start(e, rest, k);
        law_record_read(buf, e.start(k), e.infos[k]);
        lemma_records(e, rest, k + 1);
        let later = Seq::new((e.infos.len() - (k + 1)) as nat, |j: int| e.start(k + 1 + j));
        assert(found =~= seq![e.start(k)] + later);
    }
}

/// The records of an event are found where they start, whatever follows the event.
pub proof fn law_records_found(e: Written, rest: Seq<u8>)
    requires
        e.is_written(),
    ensures
        ({
            let buf = e.bytes() + rest;
            let starts = Seq::new(e.infos.len(), |i: int| e.start(i));
            &&& info_records(buf, metadata_of(buf)) == Some(starts)
            &&& forall|i: int|
                0 <= i < e.infos.len() ==> {
                    &&& info_type(buf, #[trigger] starts[i]) == e.infos[i].kind
                    &&& e.infos[i].held !is Other ==> has_handle(buf, starts[i]) && handle_at(
                        buf,
                        starts[i],
                    ) == e.infos[i].fh()
                    &&& e.infos[i].held is Named ==> has_name(buf, starts[i]) && name_at(
                        buf,
                        starts[i],
                    ) == e.infos[i].name()
                }
        }),
{
    let buf = e.bytes() + rest;
    let starts = Seq::new(e.infos.len(), |i: int| e.start(i));
    law_metadata_read(e, rest);
    lemma_records(e, rest, 0);
    assert(e.infos.take(0) =~= Seq::<Info>::empty());
    assert(starts =~= Seq::new((e.infos.len() - 0) as nat, |j: int| e.start(0 + j)));
    assert forall|i: int| 0 <= i < e.infos.len() implies {
        &&& info_type(buf, #[trigger] starts[i]) == e.infos[i].kind
        &&& e.infos[i].held !is Other ==> has_handle(buf, starts[i]) && handle_at(buf, starts[i])
            == e.infos[i].fh()
        &&& e.infos[i].held is Named ==> has_name(buf, starts[i]) && name_at(buf, starts[i])
            == e.infos[i].name()
    } by {
        lemma_start(e, rest, i);
        law_record_read(buf, e.start(i), e.infos[i]);
    }
}

/// The last record of a type is the one that is taken.
pub proof fn lemma_last_of(buf: Seq<u8>, starts: Seq<int>, kind: u8, i: int)
    requires
        0 <= i < starts.len(),
        info_type(buf, starts[i]) == kind,
        forall|j: int| i < j < starts.len() ==> info_type(buf, #[trigger] starts[j]) != kind,
    ensures
        last_of(buf, starts, kind) == Some(starts[i]),
    decreases starts.len(),
{
    if i < starts.len() - 1 {
        assert(info_type(buf, starts[starts.len() - 1]) != kind);
        lemma_last_of(buf, starts.drop_last(), kind, i);
    }
}

} // verus!
