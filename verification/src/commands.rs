//! The options of the `index`, `search` and `watch` commands, and the
//! watcher's answer to a change on disk.

use vstd::prelude::*;
use crate::text::{chars_of, contains, contains_text};

verus! {

/// What the `index` command was called with.
#[derive(Debug)]
pub struct IndexOptions {
    pub path: Option<String>,
    pub db_path: Option<String>,
    pub update: bool,
    pub force: bool,
    pub workspace: String,
    pub batch_size: Option<usize>,
    pub threads: Option<usize>,
}

/// What the `search` command was called with.
#[derive(Debug)]
pub struct SearchOptions {
    pub limit: Option<usize>,
    pub db_path: Option<String>,
    pub html: bool,
    pub json: bool,
    pub ext: Option<String>,
    pub dir: Option<String>,
    pub no_rerank: bool,
    pub workspace: Option<String>,
    pub max_tokens: Option<usize>,
    pub expand: bool,
}

/// The batch size that an indexing run uses where none is given.
pub const DEFAULT_BATCH_SIZE: usize = 256;

impl IndexOptions {
    /// The batch size of the run: the one given, else the default.
    pub fn batch_size_or_default(&self) -> (size: usize)
        ensures
            size == match self.batch_size {
                Some(size) => size,
                None => DEFAULT_BATCH_SIZE,
            },
    {
        match self.batch_size {
            Some(size) => size,
            None => DEFAULT_BATCH_SIZE,
        }
    }
}

/// What the watcher does on a change of a path.
#[derive(Clone, Copy, Debug, PartialEq, Eq, Structural)]
pub enum WatchAction {
    /// The path lies in a place that is never indexed.
    Ignore,
    /// The path exists: delete what the stores hold of it, then chunk,
    /// embed and add it.
    Index,
    /// The path is gone: delete what the stores hold of it.
    Remove,
}

/// Whether a path lies in a place that the watcher never indexes: under
/// version control data, installed packages, build output or the store
/// itself.
pub open spec fn is_watch_excluded(path: Seq<char>) -> bool {
    contains_text(path, ".git"@) || contains_text(path, "node_modules"@) || contains_text(
        path,
        "target"@,
    ) || contains_text(path, ".lancedb"@)
}

/// What the watcher does on a change of `path`, which exists or not.
pub open spec fn watch_action_of(path: Seq<char>, exists: bool) -> WatchAction {
    if is_watch_excluded(path) {
        WatchAction::Ignore
    } else if exists {
        WatchAction::Index
    } else {
        WatchAction::Remove
    }
}

/// Computes `watch_action_of`.
pub fn watch_action(path: &str, exists: bool) -> (action: WatchAction)
    ensures
        action == watch_action_of(path@, exists),
{
    let chars = chars_of(path);
    if contains(&chars, &chars_of(".git")) || contains(&chars, &chars_of("node_modules"))
        || contains(&chars, &chars_of("target")) || contains(&chars, &chars_of(".lancedb")) {
        WatchAction::Ignore
    } else if exists {
        WatchAction::Index
    } else {
        WatchAction::Remove
    }
}

} // verus!
