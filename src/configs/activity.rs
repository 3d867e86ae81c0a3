//! Scripts that are told of platform activity.
use vstd::prelude::*;

verus! {

/// A kind of activity that scripts can subscribe to.
#[derive(Debug, Clone, Copy, PartialEq, Eq, Structural)]
pub enum ActivityKind {
    Solved,
}

impl ActivityKind {
    /// The name of the script function called for this kind of activity.
    pub fn function_name(&self) -> (r: &'static str)
        ensures
            *self == ActivityKind::Solved ==> r@ == "solved"@,
    {
        match self {
            ActivityKind::Solved => "solved",
        }
    }
}

/// A script, by its path, and the kinds of activity it is told of.
#[derive(Debug)]
pub struct Script {
    pub path: String,
    pub kinds: Vec<ActivityKind>,
}

impl Script {
    /// Whether the script is told of activity of `kind`.
    pub fn subscribes(&self, kind: ActivityKind) -> (r: bool)
        ensures
            r == self.kinds@.contains(kind),
    {
        let mut i: usize = 0;
        while i < self.kinds.len()
            invariant
                i <= self.kinds@.len(),
                forall|j: int| 0 <= j < i ==> self.kinds@[j] != kind,
            decreases self.kinds@.len() - i,
        {
            if self.kinds[i] == kind {
                proof {
                    assert(self.kinds@.contains(kind));
                }
                return true;
            }
            i = i + 1;
        }
        false
    }
}

} // verus!
