//! Changes to the filesystem.

use vstd::prelude::*;

use crate::file_handle::FileHandle;
use crate::util;
use crate::watcher::task::{Discover, Discovering, Doing, Move, Moving, Place, Spot, Task};

verus! {

/// A change to the filesystem.
#[derive(Debug, Clone)]
pub enum Event {
    Create { p_fh: FileHandle, fh: FileHandle, name: Vec<u8>, is_dir: bool },
    Delete { p_fh: FileHandle, fh: FileHandle, name: Vec<u8>, is_dir: bool },
    Rename {
        old_p_fh: FileHandle,
        new_p_fh: FileHandle,
        fh: FileHandle,
        old_name: Vec<u8>,
        new_name: Vec<u8>,
        is_dir: bool,
    },
    /// A file that was there before was found.
    Discover { p_fh: FileHandle, fh: FileHandle, name: Vec<u8> },
}

/// The meaning of an [`Event`].
pub enum Change {
    Create { p_fh: Seq<u8>, fh: Seq<u8>, name: Seq<u8>, is_dir: bool },
    Delete { p_fh: Seq<u8>, fh: Seq<u8>, name: Seq<u8>, is_dir: bool },
    Rename {
        old_p_fh: Seq<u8>,
        new_p_fh: Seq<u8>,
        fh: Seq<u8>,
        old_name: Seq<u8>,
        new_name: Seq<u8>,
        is_dir: bool,
    },
    Discover { p_fh: Seq<u8>, fh: Seq<u8>, name: Seq<u8> },
}

impl View for Event {
    type V = Change;

    open spec fn view(&self) -> Change {
        match *self {
            Event::Create { p_fh, fh, name, is_dir } => Change::Create {
                p_fh: p_fh@,
                fh: fh@,
                name: name@,
                is_dir,
            },
            Event::Delete { p_fh, fh, name, is_dir } => Change::Delete {
                p_fh: p_fh@,
                fh: fh@,
                name: name@,
                is_dir,
            },
            Event::Rename { old_p_fh, new_p_fh, fh, old_name, new_name, is_dir } => Change::Rename {
                old_p_fh: old_p_fh@,
                new_p_fh: new_p_fh@,
                fh: fh@,
                old_name: old_name@,
                new_name: new_name@,
                is_dir,
            },
            Event::Discover { p_fh, fh, name } => Change::Discover {
                p_fh: p_fh@,
                fh: fh@,
                name: name@,
            },
        }
    }
}

/// The meaning of a sequence of events.
pub open spec fn changes(events: Seq<Event>) -> Seq<Change> {
    events.map_values(|e: Event| e@)
}

impl Change {
    /// What is done for the change. What is created comes from nowhere, and what is
    /// deleted goes nowhere.
    pub open spec fn task(self) -> Doing {
        match self {
            Change::Create { p_fh, fh, name, is_dir } => Doing::Move(
                Moving::new(fh, None, Some(Spot { name, p_fh }), is_dir),
            ),
            Change::Delete { p_fh, fh, name, is_dir } => Doing::Move(
                Moving::new(fh, Some(Spot { name, p_fh }), None, is_dir),
            ),
            Change::Rename { old_p_fh, new_p_fh, fh, old_name, new_name, is_dir } => Doing::Move(
                Moving::new(
                    fh,
                    Some(Spot { name: old_name, p_fh: old_p_fh }),
                    Some(Spot { name: new_name, p_fh: new_p_fh }),
                    is_dir,
                ),
            ),
            Change::Discover { p_fh, fh, name } => Doing::Discover(
                Discovering::new(fh, Spot { name, p_fh }),
            ),
        }
    }
}

impl Event {
    /// What is done for the event.
    pub fn task(&self) -> (r: Task)
        ensures
            r@ == self@.task(),
    {
        match self {
            Event::Create { p_fh, fh, name, is_dir } => Task::Move(
                Move::new(fh.clone(), None, Some(place(name, p_fh)), *is_dir),
            ),
            Event::Delete { p_fh, fh, name, is_dir } => Task::Move(
                Move::new(fh.clone(), Some(place(name, p_fh)), None, *is_dir),
            ),
            Event::Rename { old_p_fh, new_p_fh, fh, old_name, new_name, is_dir } => Task::Move(
                Move::new(
                    fh.clone(),
                    Some(place(old_name, old_p_fh)),
                    Some(place(new_name, new_p_fh)),
                    *is_dir,
                ),
            ),
            Event::Discover { p_fh, fh, name } => Task::Discover(
                Discover::new(fh.clone(), place(name, p_fh)),
            ),
        }
    }
}

/// The entry `name` of a directory.
fn place(name: &Vec<u8>, p_fh: &FileHandle) -> (r: Place)
    ensures
        r@ == (Spot { name: name@, p_fh: p_fh@ }),
{
    Place { name: util::copy_bytes(name.as_slice()), p_fh: p_fh.clone() }
}

} // verus!
