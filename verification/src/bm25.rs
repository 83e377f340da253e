//! The merge policies of the lexical store.

use vstd::prelude::*;
use crate::text::same_text;

verus! {

/// How the lexical store compacts its segments.
#[derive(Clone, Copy, Debug, PartialEq, Eq, Structural)]
pub enum MergePolicy {
    /// The store's own default, which favours searches.
    Default,
    /// Logarithmic merging with this minimum layer size.
    Log { min_layer_size: u32 },
}

/// The policy that a name selects: `fast-search` the default, `fast-write`
/// logarithmic merging with layers of at least 10, `log` and every other
/// name logarithmic merging with layers of at least 8.
pub open spec fn merge_policy_of(name: Seq<char>) -> MergePolicy {
    if name == "fast-search"@ {
        MergePolicy::Default
    } else if name == "fast-write"@ {
        MergePolicy::Log { min_layer_size: 10 }
    } else {
        MergePolicy::Log { min_layer_size: 8 }
    }
}

/// Computes `merge_policy_of`.
pub fn merge_policy(name: &str) -> (policy: MergePolicy)
    ensures
        policy == merge_policy_of(name@),
{
    if same_text(name, "fast-search") {
        MergePolicy::Default
    } else if same_text(name, "fast-write") {
        MergePolicy::Log { min_layer_size: 10 }
    } else {
        MergePolicy::Log { min_layer_size: 8 }
    }
}

/// The memory, in bytes, that the writer of the lexical store may use.
pub const WRITER_MEMORY_BYTES: usize = 200_000_000;

/// The name of the directory of the lexical store under the database path.
pub fn lexical_directory() -> (name: String)
    ensures
        name@ == "bm25_index"@,
{
    "bm25_index".to_owned()
}

} // verus!
