//! Sizes of a study book's collections.
use vstd::prelude::*;

verus! {

/// How many words and sentences are in the backlog and how many are achieved.
#[derive(Clone, Copy, Debug, PartialEq, Eq, Structural)]
pub struct Status {
    pub w_archived: usize,
    pub w_backlog: usize,
    pub s_archived: usize,
    pub s_backlog: usize,
}

} // verus!
