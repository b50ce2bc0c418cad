use vstd::prelude::*;

use crate::position::Position;
use crate::task::{Task, TaskView};
use crate::work_id::GlobalWorkID;

verus! {

/// A job as a mathematical value.
pub struct GlobalWorkView {
    pub id: Seq<char>,
    pub task: TaskView,
    pub position: Position,
}

/// A job that any worker may take up.
#[derive(Debug)]
pub struct GlobalWork {
    pub id: GlobalWorkID,
    pub task: Task,
    pub position: Position,
}

impl View for GlobalWork {
    type V = GlobalWorkView;

    open spec fn view(&self) -> GlobalWorkView {
        GlobalWorkView { id: self.id.text(), task: self.task@, position: self.position }
    }
}

impl GlobalWork {
    pub fn new(task: Task, id: GlobalWorkID, position: Position) -> (r: Self)
        ensures
            r.id == id,
            r.task == task,
            r.position == position,
    {
        Self { id, task, position }
    }
}

impl Clone for GlobalWork {
    fn clone(&self) -> (r: Self)
        ensures
            r@ == self@,
    {
        GlobalWork { id: self.id.clone(), task: self.task.clone(), position: self.position }
    }
}

/// The shared registry of jobs: for each job, whether a worker has claimed it.
pub struct GlobalWorkValidator {
    works: Vec<(GlobalWorkID, bool)>,
    map: Ghost<Map<Seq<char>, bool>>,
}

impl View for GlobalWorkValidator {
    type V = Map<Seq<char>, bool>;

    closed spec fn view(&self) -> Map<Seq<char>, bool> {
        self.map@
    }
}

impl GlobalWorkValidator {
    pub closed spec fn wf(&self) -> bool {
        &&& forall|i: int|
            0 <= i < self.works@.len() ==> self.map@.contains_key(
                (#[trigger] self.works@[i]).0.text(),
            ) && self.map@[self.works@[i].0.text()] == self.works@[i].1
        &&& forall|k: Seq<char>|
            #[trigger] self.map@.contains_key(k) ==> exists|i: int|
                0 <= i < self.works@.len() && (#[trigger] self.works@[i]).0.text() == k
        &&& forall|i: int, j: int|
            0 <= i < self.works@.len() && 0 <= j < self.works@.len() && i != j
                ==> (#[trigger] self.works@[i]).0.text() != (#[trigger] self.works@[j]).0.text()
    }

    /// An empty registry.
    pub fn new() -> (r: Self)
        ensures
            r.wf(),
            r@ == Map::<Seq<char>, bool>::empty(),
    {
        GlobalWorkValidator { works: Vec::new(), map: Ghost(Map::empty()) }
    }

    /// Index of the entry of `id`.
    fn find(&self, id: &GlobalWorkID) -> (r: Option<usize>)
        requires
            self.wf(),
        ensures
            r matches Some(i) ==> i < self.works@.len() && self.works@[i as int].0.text()
                == id.text(),
            r is None ==> !self@.contains_key(id.text()),
    {
        let mut i: usize = 0;
        while i < self.works.len()
            invariant
                i <= self.works@.len(),
                forall|j: int| 0 <= j < i ==> (#[trigger] self.works@[j]).0.text() != id.text(),
            decreases self.works@.len() - i,
        {
            if self.works[i].0 == *id {
                return Some(i);
            }
            i = i + 1;
        }
        None
    }

    /// Whether the job is claimed, or `None` when it is not registered.
    pub fn validate(&self, id: &GlobalWorkID) -> (r: Option<bool>)
        requires
            self.wf(),
        ensures
            r == (if self@.contains_key(id.text()) {
                Some(self@[id.text()])
            } else {
                None::<bool>
            }),
    {
        match self.find(id) {
            Some(i) => Some(self.works[i].1),
            None => None,
        }
    }

    /// Sets whether a registered job is claimed; an unregistered one stays
    /// unregistered. The result is always `false`.
    pub fn set_occupied(&mut self, id: &GlobalWorkID, occupied: bool) -> (r: bool)
        requires
            old(self).wf(),
        ensures
            final(self).wf(),
            !r,
            final(self)@ == if old(self)@.contains_key(id.text()) {
                old(self)@.insert(id.text(), occupied)
            } else {
                old(self)@
            },
    {
        match self.find(id) {
            Some(i) => {
                let entry_id = self.works[i].0.clone();
                self.works.set(i, (entry_id, occupied));
                self.map = Ghost(self.map@.insert(id.text(), occupied));
                assert forall|k: Seq<char>| #[trigger] self.map@.contains_key(k) implies exists|j: int|
                    0 <= j < self.works@.len() && (#[trigger] self.works@[j]).0.text() == k by {
                    if k != id.text() {
                        let j = choose|j: int|
                            0 <= j < old(self).works@.len() && (#[trigger] old(
                                self,
                            ).works@[j]).0.text() == k;
                        assert(self.works@[j].0.text() == k);
                    } else {
                        assert(self.works@[i as int].0.text() == k);
                    }
                }
            },
            None => {},
        }
        false
    }

    /// Removes a job; returns whether it was claimed, or `None` when it was not
    /// registered.
    pub fn remove_work(&mut self, id: &GlobalWorkID) -> (r: Option<bool>)
        requires
            old(self).wf(),
        ensures
            final(self).wf(),
            r == (if old(self)@.contains_key(id.text()) {
                Some(old(self)@[id.text()])
            } else {
                None::<bool>
            }),
            final(self)@ == old(self)@.remove(id.text()),
    {
        match self.find(id) {
            Some(i) => {
                let (_, occupied) = self.works.remove(i);
                self.map = Ghost(self.map@.remove(id.text()));
                assert forall|k: Seq<char>| #[trigger] self.map@.contains_key(k) implies exists|j: int|
                    0 <= j < self.works@.len() && (#[trigger] self.works@[j]).0.text() == k by {
                    let j = choose|j: int|
                        0 <= j < old(self).works@.len() && (#[trigger] old(self).works@[j]).0.text()
                            == k;
                    if j < i {
                        assert(self.works@[j].0.text() == k);
                    } else {
                        assert(j != i);
                        assert(self.works@[j - 1].0.text() == k);
                    }
                }
                assert forall|a: int, b: int|
                    0 <= a < self.works@.len() && 0 <= b < self.works@.len() && a != b
                        implies (#[trigger] self.works@[a]).0.text() != (
                    #[trigger] self.works@[b]).0.text() by {
                    let a0 = if a < i { a } else { a + 1 };
                    let b0 = if b < i { b } else { b + 1 };
                    assert(self.works@[a] == old(self).works@[a0]);
                    assert(self.works@[b] == old(self).works@[b0]);
                }
                assert forall|a: int| 0 <= a < self.works@.len() implies self.map@.contains_key(
                    (#[trigger] self.works@[a]).0.text(),
                ) && self.map@[self.works@[a].0.text()] == self.works@[a].1 by {
                    let a0 = if a < i { a } else { a + 1 };
                    assert(self.works@[a] == old(self).works@[a0]);
                    assert(a0 != i);
                }
                Some(occupied)
            },
            None => {
                assert(self.map@.remove(id.text()) =~= self.map@);
                None
            },
        }
    }

    /// Registers a job as unclaimed. A job that is already registered keeps
    /// its entry, and with it any claim on it.
    pub fn push_work(&mut self, work: &GlobalWork)
        requires
            old(self).wf(),
        ensures
            final(self).wf(),
            final(self)@ == if old(self)@.contains_key(work.id.text()) {
                old(self)@
            } else {
                old(self)@.insert(work.id.text(), false)
            },
    {
        if self.find(&work.id).is_none() {
            self.works.push((work.id.clone(), false));
            self.map = Ghost(self.map@.insert(work.id.text(), false));
            assert forall|k: Seq<char>| #[trigger] self.map@.contains_key(k) implies exists|j: int|
                0 <= j < self.works@.len() && (#[trigger] self.works@[j]).0.text() == k by {
                if k != work.id.text() {
                    let j = choose|j: int|
                        0 <= j < old(self).works@.len() && (#[trigger] old(self).works@[j]).0.text()
                            == k;
                    assert(self.works@[j].0.text() == k);
                } else {
                    assert(self.works@[old(self).works@.len() as int].0.text() == k);
                }
            }
        }
    }
}

/// Asks for a job to be registered.
pub struct RegisterGlobalWorkEvent {
    pub work: GlobalWork,
}

impl RegisterGlobalWorkEvent {
    pub fn new(work: GlobalWork) -> (r: Self)
        ensures
            r.work == work,
    {
        Self { work }
    }
}

/// Asks for a job to be cancelled.
pub struct RemoveGlobalWorkEvent {
    pub id: GlobalWorkID,
}

impl RemoveGlobalWorkEvent {
    pub fn new(id: GlobalWorkID) -> (r: Self)
        ensures
            r.id == id,
    {
        Self { id }
    }
}

/// Raised when a worker has mined the tile at the position.
#[derive(Clone, Copy, Debug, PartialEq, Eq, Structural)]
pub struct MineTileEvent(pub Position);

} // verus!
