//! The choices offered to the learner between study sessions.
use vstd::prelude::*;

verus! {

/// What to do next: study the backlog, or add more content first.
#[derive(Clone, Copy, Debug, PartialEq, Eq, Structural)]
pub enum NextStep {
    Study,
    AddMore,
}

impl NextStep {
    /// The text shown for the choice.
    pub fn label(&self) -> (r: &'static str)
        ensures
            *self == NextStep::Study ==> r@ == "Yes"@,
            *self == NextStep::AddMore ==> r@ == "No, let's add more contents"@,
    {
        match self {
            NextStep::Study => "Yes",
            NextStep::AddMore => "No, let's add more contents",
        }
    }
}

} // verus!
