//! The single step goal: empty until first set, then replaced wholesale.
use vstd::prelude::*;

verus! {

/// A daily step target.
#[derive(Clone, Copy, Debug, PartialEq, Eq, Structural)]
pub struct Goal {
    pub goal: i32,
}

/// Holds at most one goal.
pub struct GoalSlot {
    current: Option<Goal>,
}

impl View for GoalSlot {
    type V = Option<Goal>;

    closed spec fn view(&self) -> Option<Goal> {
        self.current
    }
}

impl GoalSlot {
    /// A slot with no goal set.
    pub fn new() -> (r: GoalSlot)
        ensures
            r@ == None::<Goal>,
    {
        GoalSlot { current: None }
    }

    /// Replaces the goal, whatever was there before.
    pub fn save(&mut self, goal: Goal)
        ensures
            final(self)@ == Some(goal),
    {
        self.current = Some(goal);
    }

    /// The goal currently held, if one was ever set.
    pub fn current(&self) -> (r: Option<Goal>)
        ensures
            r == self@,
    {
        self.current
    }
}

} // verus!
