//! A first-in, first-out executor that ignores priorities.
use vstd::prelude::*;
use std::collections::VecDeque;
use crate::task::TaskId;

verus! {

/// Runs tasks in the order they became ready: the driver takes the front
/// task, polls it, and puts it at the back when it is still pending.
pub struct SimpleExecutor {
    task_queue: VecDeque<TaskId>,
}

impl SimpleExecutor {
    pub closed spec fn view(&self) -> Seq<TaskId> {
        self.task_queue@
    }

    pub fn new() -> (r: SimpleExecutor)
        ensures
            r@ == Seq::<TaskId>::empty(),
    {
        SimpleExecutor { task_queue: VecDeque::new() }
    }

    /// Puts `task` at the back of the queue.
    pub fn spawn(&mut self, task: TaskId)
        ensures
            final(self)@ == old(self)@.push(task),
    {
        self.task_queue.push_back(task)
    }

    /// Takes the task at the front of the queue.
    pub fn next_task(&mut self) -> (r: Option<TaskId>)
        ensures
            old(self)@.len() == 0 ==> r is None && final(self)@ == old(self)@,
            old(self)@.len() > 0 ==> r == Some(old(self)@[0]) && final(self)@ == old(self)@.drop_first(),
    {
        self.task_queue.pop_front()
    }

    pub fn is_empty(&self) -> (r: bool)
        ensures
            r == (self@.len() == 0),
    {
        self.task_queue.len() == 0
    }
}

} // verus!
