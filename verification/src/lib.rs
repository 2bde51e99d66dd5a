//! A filesystem-tree substring search, split into a verified core and thin
//! plumbing.  The core models a directory tree, the shared frontier of
//! directories awaiting a scan, the per-worker activity slots, and the
//! case-insensitive name matching, and proves that a search over a tree
//! returns exactly the set of entry paths whose final component matches the
//! pattern.

pub mod frontier;
pub mod matching;
pub mod search;
pub mod tree;
pub mod workers;

pub use frontier::Frontier;
pub use matching::entry_matches;
pub use search::{search, EntryKind, SearchData, DIRS_PER_TICK};
pub use tree::{join_str, FsEntry, FsNode};
pub use workers::{is_someone_working, set_state};
