//! Which entries are left out of the database.

use vstd::prelude::*;
use vstd::string::*;
use vstd::utf8::encode_utf8;

use crate::fanotify::written::le_bytes;
use crate::file_handle::FileHan;
use crate::util;
use crate::watchpath::{get_root_objectid, law_subvolume, names_subvol, root_objectid_of};

verus! {

/// What a configuration file says.
pub struct Config {
    /// The names of entries to leave out.
    pub ignores: Vec<String>,
}

/// A filter on entries, by name and by subvolume.
#[derive(Debug)]
pub struct Filter {
    ignores: Vec<Vec<u8>>,
    btrfs_subvol: Option<u64>,
}

/// The meaning of a [`Filter`].
pub struct Rules {
    /// The names of entries to leave out.
    pub ignores: Set<Seq<u8>>,
    /// The only subvolume whose entries are kept, if there is such a limit.
    pub btrfs_subvol: Option<u64>,
}

/// The names in a list.
pub open spec fn names_in(list: Seq<Vec<u8>>) -> Set<Seq<u8>> {
    Set::new(|name: Seq<u8>| exists|i: int| 0 <= i < list.len() && #[trigger] list[i]@ == name)
}

/// The names that a configuration lists, as bytes.
pub open spec fn ignored_names(config: Config) -> Set<Seq<u8>> {
    Set::new(
        |name: Seq<u8>|
            exists|i: int|
                0 <= i < config.ignores@.len() && encode_utf8(#[trigger] config.ignores@[i]@)
                    == name,
    )
}

/// Whether `rules` keep an entry with the handle `fh` and, where it is known, the
/// name `name`.
pub open spec fn keeps(rules: Rules, fh: Seq<u8>, name: Option<Seq<u8>>) -> bool {
    &&& rules.btrfs_subvol matches Some(subvol) ==> root_objectid_of(fh) == subvol
    &&& name matches Some(n) ==> !rules.ignores.contains(n)
}

impl View for Filter {
    type V = Rules;

    closed spec fn view(&self) -> Rules {
        Rules { ignores: names_in(self.ignores@), btrfs_subvol: self.btrfs_subvol }
    }
}

impl Filter {
    /// The filter that a configuration asks for.
    pub fn load(config: &Config) -> (r: Filter)
        ensures
            r@ == (Rules { ignores: ignored_names(*config), btrfs_subvol: None }),
    {
        let mut ignores: Vec<Vec<u8>> = Vec::new();
        let mut i: usize = 0;
        while i < config.ignores.len()
            invariant
                i <= config.ignores@.len(),
                ignores@.len() == i,
                forall|j: int|
                    0 <= j < i ==> #[trigger] ignores@[j]@ == encode_utf8(config.ignores@[j]@),
            decreases config.ignores@.len() - i,
        {
            ignores.push(util::copy_bytes(config.ignores[i].as_str().as_bytes()));
            i += 1;
        }
        let filter = Filter { ignores, btrfs_subvol: None };
        proof {
            assert forall|name: Seq<u8>|
                names_in(ignores@).contains(name) == ignored_names(*config).contains(name) by {
                if names_in(ignores@).contains(name) {
                    let j = choose|j: int| 0 <= j < ignores@.len() && #[trigger] ignores@[j]@ == name;
                    assert(encode_utf8(config.ignores@[j]@) == name);
                }
                if ignored_names(*config).contains(name) {
                    let j = choose|j: int|
                        0 <= j < config.ignores@.len() && encode_utf8(
                            #[trigger] config.ignores@[j]@,
                        ) == name;
                    assert(ignores@[j]@ == name);
                }
            }
            assert(names_in(ignores@) =~= ignored_names(*config));
        }
        filter
    }

    /// Keeps only the entries of the subvolume that `subvol` belongs to.
    pub fn add_btrfs_subvol(&mut self, subvol: &FileHan<'_>)
        requires
            names_subvol(subvol@),
        ensures
            final(self)@ == (Rules {
                ignores: old(self)@.ignores,
                btrfs_subvol: Some(root_objectid_of(subvol@)),
            }),
    {
        self.btrfs_subvol = Some(get_root_objectid(subvol));
    }

    /// Tells whether entries with this name are left out.
    fn ignores_name(&self, name: &[u8]) -> (r: bool)
        ensures
            r == self@.ignores.contains(name@),
    {
        let mut i: usize = 0;
        while i < self.ignores.len()
            invariant
                i <= self.ignores@.len(),
                forall|j: int| 0 <= j < i ==> #[trigger] self.ignores@[j]@ != name@,
            decreases self.ignores@.len() - i,
        {
            if util::same_bytes(self.ignores[i].as_slice(), name) {
                assert(self.ignores@[i as int]@ == name@);
                return true;
            }
            i += 1;
        }
        false
    }

    /// Tells whether an entry is kept.
    pub fn allow(&self, fh: &FileHan<'_>, p: Option<(FileHan<'_>, &[u8])>) -> (r: bool)
        requires
            self@.btrfs_subvol is Some ==> names_subvol(fh@),
        ensures
            r == keeps(
                self@,
                fh@,
                match p {
                    Some((_, name)) => Some(name@),
                    None => None,
                },
            ),
    {
        if let Some(root_objectid) = self.btrfs_subvol {
            if get_root_objectid(fh) != root_objectid {
                return false;
            }
        }
        if let Some((_, name)) = p {
            if self.ignores_name(name) {
                return false;
            }
        }
        true
    }
}

/// An entry is kept unless it is of another subvolume than the one whose entries are kept,
/// or its name is known and is one of those that are left out.
pub proof fn law_kept(config: Config, fh: Seq<u8>, name: Seq<u8>, subvol: u64)
    requires
        fh.len() >= 28,
    ensures
        ({
            let all = Rules { ignores: ignored_names(config), btrfs_subvol: None };
            let some = Rules { btrfs_subvol: Some(subvol), ..all };
            let ignored = exists|i: int|
                0 <= i < config.ignores@.len() && encode_utf8(#[trigger] config.ignores@[i]@)
                    == name;
            let inside = fh.subrange(16, 24) == le_bytes(subvol as nat, 8);
            &&& keeps(all, fh, None)
            &&& keeps(all, fh, Some(name)) <==> !ignored
            &&& keeps(some, fh, None) <==> inside
            &&& keeps(some, fh, Some(name)) <==> inside && !ignored
        }),
{
    law_subvolume(fh, subvol);
}

} // verus!
