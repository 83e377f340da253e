//! The modes a process of the search engine runs in.

use vstd::prelude::*;

verus! {

/// Whether the process serves one command or runs as a service.
#[derive(Clone, Copy, Debug, PartialEq, Eq, Structural)]
pub enum AppMode {
    Cli,
    Server,
}

} // verus!
