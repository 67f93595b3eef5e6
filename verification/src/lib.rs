//! The logic of a small file database: reading filesystem events, keeping the
//! table of files up to date with them, and answering path queries.

pub mod db;
pub mod discoverer;
pub mod fanotify;
pub mod fanotify_reader;
pub mod file_handle;
pub mod filter;
pub mod gen_suffixes_vtab;
pub mod indexer;
pub mod queryer;
pub mod text;
pub mod util;
pub mod watcher;
pub mod watchpath;
