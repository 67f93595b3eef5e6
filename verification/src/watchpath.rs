//! What to watch: a whole filesystem, or one subvolume of a BTRFS filesystem.

use vstd::prelude::*;

use crate::fanotify::written::{
    law_bytes_of_number, law_fields, law_number_read_back, le_bytes, le_numbers, le_value,
};
use crate::file_handle::{FileHan, FileHandleOps, HEADER_LEN};
use crate::util;

verus! {

/// What the user asks to watch.
#[derive(Debug, Clone)]
pub struct WatchPathArgs {
    /// Any path within the filesystem or subvolume to watch.
    pub path: Vec<u8>,
    /// The mount point of the root subvolume, to watch a BTRFS subvolume.
    pub btrfs_root: Option<Vec<u8>>,
}

/// Which handles belong to what is watched.
#[derive(Debug, Clone, Copy, PartialEq, Eq, Structural)]
pub enum Filter {
    /// Every handle does.
    All,
    /// Those of one subvolume do.
    Subvol { root_objectid: u64 },
}

/// The length of the fixed part of a BTRFS handle, after the header: the object's
/// identifier, the subvolume's, and a generation number.
pub const BTRFS_FID_LEN: usize = 20;

/// Whether a handle is long enough to name a subvolume.
pub open spec fn names_subvol(handle: Seq<u8>) -> bool {
    HEADER_LEN + BTRFS_FID_LEN <= handle.len()
}

/// The subvolume that a BTRFS handle names.
pub open spec fn root_objectid_of(handle: Seq<u8>) -> u64 {
    util::u64_at(handle, HEADER_LEN + 8)
}

/// Whether a handle belongs to what `filter` selects.
pub open spec fn selects(filter: Filter, handle: Seq<u8>) -> bool {
    match filter {
        Filter::All => true,
        Filter::Subvol { root_objectid } => root_objectid_of(handle) == root_objectid,
    }
}

/// Whether `filter` can judge a handle.
pub open spec fn can_judge(filter: Filter, handle: Seq<u8>) -> bool {
    filter is Subvol ==> names_subvol(handle)
}

/// Tells whether a handle is long enough to name a subvolume.
pub fn holds_subvol(handle: &FileHan<'_>) -> (r: bool)
    ensures
        r == names_subvol(handle@),
{
    handle.bytes().len() >= HEADER_LEN + BTRFS_FID_LEN
}

/// Reads the subvolume that a BTRFS handle names.
pub fn get_root_objectid(handle: &FileHan<'_>) -> (r: u64)
    requires
        names_subvol(handle@),
    ensures
        r == root_objectid_of(handle@),
{
    let fid = handle.f_handle();
    proof {
        util::lemma_fields_of_subrange(handle@, HEADER_LEN as int, handle@.len() as int, 8);
    }
    util::read_u64(fid, 8)
}

impl Filter {
    /// Tells whether the filter can judge a handle.
    pub fn applies(&self, handle: &FileHan<'_>) -> (r: bool)
        ensures
            r == can_judge(*self, handle@),
    {
        match self {
            Filter::All => true,
            Filter::Subvol { .. } => holds_subvol(handle),
        }
    }

    /// Tells whether a handle belongs to what is watched.
    pub fn apply(&self, handle: &FileHan<'_>) -> (r: bool)
        requires
            can_judge(*self, handle@),
        ensures
            r == selects(*self, handle@),
    {
        match self {
            Filter::All => true,
            Filter::Subvol { root_objectid } => get_root_objectid(handle) == *root_objectid,
        }
    }
}

/// Chooses the path to mark and the filter for its events. To watch a subvolume,
/// the root subvolume is marked and the handle of the given path tells which
/// subvolume is meant.
pub fn prepare_fanotify(args: &WatchPathArgs, child_fh: Option<FileHan<'_>>) -> (r: (
    Vec<u8>,
    Filter,
))
    requires
        args.btrfs_root is Some ==> child_fh is Some && names_subvol(child_fh->0@),
    ensures
        match args.btrfs_root {
            None => r.0@ == args.path@ && r.1 == Filter::All,
            Some(root) => {
                &&& r.0@ == root@
                &&& r.1 == (Filter::Subvol { root_objectid: root_objectid_of(child_fh->0@) })
            },
        },
{
    match &args.btrfs_root {
        None => (util::copy_bytes(args.path.as_slice()), Filter::All),
        Some(root) => {
            let child_fh = child_fh.unwrap();
            let root_objectid: u64 = get_root_objectid(&child_fh);
            (util::copy_bytes(root.as_slice()), Filter::Subvol { root_objectid })
        },
    }
}

/// Without a subvolume everything is watched. With one, it is told by the second number of
/// eight bytes after the header of a handle, and handles that are too short for that cannot
/// be judged.
pub proof fn law_subvolume(fh: Seq<u8>, subvol: u64)
    ensures
        can_judge(Filter::All, fh),
        selects(Filter::All, fh),
        can_judge(Filter::Subvol { root_objectid: subvol }, fh) <==> fh.len() >= 28,
        fh.len() >= 28 ==> (selects(Filter::Subvol { root_objectid: subvol }, fh) <==> fh.subrange(
            16,
            24,
        ) == le_bytes(subvol as nat, 8)),
{
    if fh.len() >= 28 {
        let field = fh.subrange(16, 24);
        reveal_with_fuel(le_numbers, 9);
        law_fields(fh, 16);
        law_bytes_of_number(field);
        law_number_read_back(subvol as nat, 8);
        assert(le_value(field) == root_objectid_of(fh));
    }
}

/// A file is watched with the subvolume of another one exactly if both are of the same
/// subvolume.
pub proof fn law_same_subvolume(fh: Seq<u8>, other: Seq<u8>)
    requires
        fh.len() >= 28,
        other.len() >= 28,
    ensures
        selects(Filter::Subvol { root_objectid: root_objectid_of(other) }, fh) <==> fh.subrange(
            16,
            24,
        ) == other.subrange(16, 24),
{
    law_subvolume(fh, root_objectid_of(other));
    law_subvolume(other, root_objectid_of(other));
}

} // verus!
