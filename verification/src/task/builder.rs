//! The settings that a task is spawned with.
use vstd::prelude::*;

verus! {

/// The priority of a task.
#[derive(Debug, Clone, Copy, PartialEq, Eq, Structural)]
pub enum PriorityLevel {
    /// Absolute high priority.
    AbsHigh,
    /// High priority.
    High,
    /// Low priority.
    Low,
    /// Absolute low priority.
    AbsLow,
}

/// The settings of the tasks spawned through it: a name, a priority, whether
/// statistics are kept, and whether the task goes to the front of the queue.
#[derive(Clone, Debug)]
pub struct TaskBuilder {
    /// The task's name.
    pub name: Option<String>,
    /// The task's priority.
    pub pri: Option<PriorityLevel>,
    /// Whether statistics are kept for the task.
    pub is_stat: bool,
    /// Whether the task is put at the front of the queue.
    pub is_insert_front: bool,
}

impl TaskBuilder {
    /// Settings with no name, no priority, no statistics, and the task put at
    /// the back of the queue.
    pub fn new() -> (b: TaskBuilder)
        ensures
            b.name is None,
            b.pri is None,
            !b.is_stat,
            !b.is_insert_front,
    {
        TaskBuilder { name: None, pri: None, is_stat: false, is_insert_front: false }
    }

    /// Names the task.
    pub fn name(self, name: String) -> (b: TaskBuilder)
        ensures
            b.name == Some(name),
            b.pri == self.pri,
            b.is_stat == self.is_stat,
            b.is_insert_front == self.is_insert_front,
    {
        TaskBuilder { name: Some(name), ..self }
    }

    /// Sets the task's priority.
    pub fn priority(self, pri_level: PriorityLevel) -> (b: TaskBuilder)
        ensures
            b.pri == Some(pri_level),
            b.name == self.name,
            b.is_stat == self.is_stat,
            b.is_insert_front == self.is_insert_front,
    {
        TaskBuilder { pri: Some(pri_level), ..self }
    }

    /// Sets whether statistics are kept.
    pub fn stat(self, is_stat: bool) -> (b: TaskBuilder)
        ensures
            b.is_stat == is_stat,
            b.name == self.name,
            b.pri == self.pri,
            b.is_insert_front == self.is_insert_front,
    {
        TaskBuilder { is_stat, ..self }
    }

    /// Sets whether the task goes to the front of the queue.
    pub fn insert_front(self, is_insert_front: bool) -> (b: TaskBuilder)
        ensures
            b.is_insert_front == is_insert_front,
            b.name == self.name,
            b.pri == self.pri,
            b.is_stat == self.is_stat,
    {
        TaskBuilder { is_insert_front, ..self }
    }
}

impl Default for TaskBuilder {
    fn default() -> (b: TaskBuilder)
        ensures
            b.name is None,
            b.pri is None,
            !b.is_stat,
            !b.is_insert_front,
    {
        TaskBuilder::new()
    }
}

} // verus!
