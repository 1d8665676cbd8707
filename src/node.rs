//! One day's record of one habit, and the status it is in.
use vstd::prelude::*;

verus! {

/// Where a day stands for a habit.
#[derive(Clone, Copy, Debug, PartialEq, Eq, Hash, Structural)]
pub enum NodeStatus {
    IDLE,
    SKIPPED,
    PARTIAL,
    FAILED,
    COMPLETE,
}

/// One day's progress on one habit.
#[derive(Clone, Copy, Debug, PartialEq, Eq, Structural)]
pub struct HabitNode {
    /// Progress made that day.
    pub value: i32,
    /// The habit's goal when the record was made.
    pub goal: i32,
    pub status: NodeStatus,
}

/// The record of a day first touched, for a habit with goal `goal`.
pub open spec fn fresh_node(goal: i32) -> HabitNode {
    HabitNode { value: 0, goal, status: NodeStatus::IDLE }
}

/// The status that a record's value earns against its goal.
pub open spec fn earned_status(n: HabitNode) -> NodeStatus {
    if n.value < n.goal {
        NodeStatus::PARTIAL
    } else {
        NodeStatus::COMPLETE
    }
}

impl HabitNode {
    pub fn new(value: i32, goal: i32, status: NodeStatus) -> (r: HabitNode)
        ensures
            r == (HabitNode { value, goal, status }),
    {
        HabitNode { value, goal, status }
    }

    pub fn idle_node(&mut self)
        ensures
            *final(self) == (HabitNode { status: NodeStatus::IDLE, ..*old(self) }),
    {
        self.status = NodeStatus::IDLE;
    }

    pub fn skip_node(&mut self)
        ensures
            *final(self) == (HabitNode { status: NodeStatus::SKIPPED, ..*old(self) }),
    {
        self.status = NodeStatus::SKIPPED;
    }

    pub fn fail_node(&mut self)
        ensures
            *final(self) == (HabitNode { status: NodeStatus::FAILED, ..*old(self) }),
    {
        self.status = NodeStatus::FAILED;
    }

    /// Completing a day fills its goal, whatever the value was.
    pub fn complete_node(&mut self)
        ensures
            *final(self) == (HabitNode { status: NodeStatus::COMPLETE, value: old(self).goal, ..*old(self) }),
    {
        self.status = NodeStatus::COMPLETE;
        self.value = self.goal;
    }

    /// Sets the status from the value alone: PARTIAL below the goal, else COMPLETE.
    pub fn calculate_status(&mut self) -> (r: NodeStatus)
        ensures
            *final(self) == (HabitNode { status: earned_status(*old(self)), ..*old(self) }),
            r == final(self).status,
    {
        if self.value < self.goal {
            self.status = NodeStatus::PARTIAL;
            NodeStatus::PARTIAL
        } else {
            self.status = NodeStatus::COMPLETE;
            NodeStatus::COMPLETE
        }
    }
}

} // verus!
