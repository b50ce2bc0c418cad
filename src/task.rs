use vstd::prelude::*;
use vstd::string::StringExecFns;
use std::collections::VecDeque;

use crate::position::Position;
use crate::work_id::GlobalWorkID;
use crate::world::AgentId;

verus! {

/// A walk in progress: the tiles still to step on, in order, and where it
/// ends.
#[derive(Debug)]
pub struct MoveTask {
    pub path: VecDeque<Position>,
    pub target: Position,
}

impl Clone for MoveTask {
    fn clone(&self) -> (r: Self)
        ensures
            r.path@ == self.path@,
            r.target == self.target,
    {
        let path = self.path.clone();
        assert(path@ =~= self.path@);
        MoveTask { path, target: self.target }
    }
}

/// A task as a mathematical value.
pub enum TaskView {
    Idle,
    Move { path: Seq<Position>, target: Position },
    Attack(AgentId),
    Mine { target: Position, id: Seq<char> },
}

/// What an agent does on its turn.
#[derive(Debug)]
pub enum Task {
    Idle,
    Move(MoveTask),
    /// Accepted but not acted upon.
    Attack(AgentId),
    /// Mine the tile at the position, under the job of the identifier.
    Mine((Position, GlobalWorkID)),
}

impl View for Task {
    type V = TaskView;

    open spec fn view(&self) -> TaskView {
        match self {
            Task::Idle => TaskView::Idle,
            Task::Move(m) => TaskView::Move { path: m.path@, target: m.target },
            Task::Attack(a) => TaskView::Attack(*a),
            Task::Mine((p, id)) => TaskView::Mine { target: *p, id: id.text() },
        }
    }
}

impl Clone for Task {
    fn clone(&self) -> (r: Self)
        ensures
            r@ == self@,
    {
        match self {
            Task::Idle => Task::Idle,
            Task::Move(m) => Task::Move(m.clone()),
            Task::Attack(a) => Task::Attack(*a),
            Task::Mine((p, id)) => Task::Mine((*p, id.clone())),
        }
    }
}

impl Task {
    /// Name of the task's kind; an idle agent's task is called "None".
    pub fn name(&self) -> (r: String)
        ensures
            r@ == match self {
                Task::Idle => "None"@,
                Task::Move(_) => "Move"@,
                Task::Attack(_) => "Attack"@,
                Task::Mine(_) => "Mine"@,
            },
    {
        match self {
            Task::Idle => String::from_str("None"),
            Task::Move(_) => String::from_str("Move"),
            Task::Attack(_) => String::from_str("Attack"),
            Task::Mine(_) => String::from_str("Mine"),
        }
    }
}

/// The active task of an agent and those waiting behind it.
pub struct TaskQueue {
    pub queue: VecDeque<Task>,
    pub active: Task,
}

impl TaskQueue {
    /// An idle queue.
    pub fn new() -> (r: Self)
        ensures
            r.active is Idle,
            r.queue@.len() == 0,
    {
        TaskQueue { queue: VecDeque::new(), active: Task::Idle }
    }

    /// Makes the front of the queue the active task, or `Idle` when the queue
    /// is empty.
    pub fn next_tast(&mut self)
        ensures
            old(self).queue@.len() == 0 ==> final(self).active is Idle && final(self).queue@
                == old(self).queue@,
            old(self).queue@.len() > 0 ==> final(self).active == old(self).queue@[0]
                && final(self).queue@ == old(self).queue@.drop_first(),
    {
        if let Some(task) = self.queue.pop_front() {
            self.active = task;
        } else {
            self.active = Task::Idle;
        }
    }
}

} // verus!
