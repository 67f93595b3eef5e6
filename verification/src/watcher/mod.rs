//! Keeping the database in step with the filesystem.

pub mod batch;
pub mod decode;
pub mod effect;
pub mod event;
pub mod newcomers;
pub mod reports;
pub mod task;
pub mod tree;
pub mod writes;

pub use batch::{Batch, Debounce};
pub use decode::{Decoded, FanotifyState};
pub use event::Event;

use vstd::prelude::*;

use crate::watchpath::WatchPathArgs;

verus! {

/// What to watch.
#[derive(Debug, Clone)]
pub struct WatchArgs {
    pub watch_path: WatchPathArgs,
}

} // verus!
