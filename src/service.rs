//! What each request does to the shared state, apart from reading the
//! request and writing the response. Each takes the one collection its
//! request touches, so a caller holds one lock per request.
use vstd::prelude::*;
use vstd::string::StringExecFns;
use crate::goal::{Goal, GoalSlot};
use crate::steps::{StepData, StepLog, StepView, upsert, records_in_range};
use crate::tokens::{TokenRegistry, hyphenated, is_random_v4};

verus! {

/// A submitted step record.
pub struct StepInput {
    pub date: String,
    pub steps: i32,
    pub is_goal: bool,
}

/// A submitted goal.
pub struct GoalInput {
    pub goal: i32,
}

/// The reply to a step submission.
pub open spec fn steps_saved_reply() -> Seq<char> {
    "Steps saved or updated"@
}

/// The reply to a goal submission.
pub open spec fn goal_saved_reply() -> Seq<char> {
    "Goal saved"@
}

/// Issues a new token, the hyphenated form of a random version 4 UUID, keeps
/// it, and returns it.
pub fn generate_token(tokens: &mut TokenRegistry) -> (r: String)
    ensures
        exists|id: u128| r@ == #[trigger] hyphenated(id) && is_random_v4(id),
        final(tokens)@ == old(tokens)@.insert(r@),
{
    tokens.issue()
}

/// Stores the submitted record under its date, replacing any record of that
/// date, and returns the confirmation.
pub fn save_steps(steps: &mut StepLog, item: StepInput) -> (r: String)
    ensures
        old(steps).wf() ==> final(steps).wf(),
        final(steps)@ == upsert(
            old(steps)@,
            StepView { date: item.date@, steps: item.steps, is_goal: item.is_goal },
        ),
        r@ == steps_saved_reply(),
{
    steps.save(StepData::new(item.date, item.steps, item.is_goal));
    proof {
        reveal_strlit("Steps saved or updated");
    }
    String::from_str("Steps saved or updated")
}

/// The stored records whose date lies in `[start_date, end_date]`, both ends
/// included, where dates are compared as text. They come in stored order.
pub fn get_steps_range(steps: &StepLog, start_date: &str, end_date: &str) -> (r: Vec<StepData>)
    ensures
        r@.map_values(|x: StepData| x@) == records_in_range(steps@, start_date@, end_date@),
{
    steps.range(start_date, end_date)
}

/// Replaces the goal with the submitted one and returns the confirmation.
pub fn save_goal(goal: &mut GoalSlot, item: GoalInput) -> (r: String)
    ensures
        final(goal)@ == Some(Goal { goal: item.goal }),
        r@ == goal_saved_reply(),
{
    goal.save(Goal { goal: item.goal });
    proof {
        reveal_strlit("Goal saved");
    }
    String::from_str("Goal saved")
}

} // verus!
