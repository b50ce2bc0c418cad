use vstd::prelude::*;

use crate::path::{find_path_result, is_walk, move_pawn, path_tail, pawn_find_path, reachable};
use crate::position::{dist_sq, Position};
use crate::task::{MoveTask, Task, TaskQueue, TaskView};
use crate::work::{GlobalWorkValidator, MineTileEvent};
use crate::world::{AgentId, World};

verus! {

/// `new` is `old` after the front of the queue became the active task (or the
/// agent fell idle on an empty queue).
pub open spec fn advanced(old: TaskQueue, new: TaskQueue) -> bool {
    if old.queue@.len() == 0 {
        new.active is Idle && new.queue@ == old.queue@
    } else {
        new.active == old.queue@[0] && new.queue@ == old.queue@.drop_first()
    }
}

/// The cell of `p`, when both coordinates are non-negative.
fn to_cell(p: Position) -> (r: Option<(usize, usize)>)
    ensures
        r matches Some(c) ==> 0 <= p.x && 0 <= p.y && c.0 == p.x && c.1 == p.y,
        r is None ==> p.x < 0 || p.y < 0,
{
    if p.x >= 0 && p.y >= 0 {
        Some((p.x as usize, p.y as usize))
    } else {
        None
    }
}

/// The planar distance between two cells exceeds the square root of two: the
/// cells do not touch.
pub fn out_of_reach(a: &Position, b: &Position) -> (r: bool)
    ensures
        r == (dist_sq(*a, *b) > 2),
{
    a.distance(b) > 2
}

/// One turn of an agent. The agent acts on its active task:
/// - idle or attacking: it goes on to the next task;
/// - moving: it steps onto the next cell of the path and keeps the task; when
///   that cell is no longer free, it searches a new path to the task's target
///   and keeps the task with that path, or drops the task when there is none;
/// - mining: when the job is no longer registered the task is dropped; when the
///   agent is not next to the tile it gives up its claim on the job; otherwise
///   the job is removed and the mined tile is returned.
pub fn pawn_act_turn(
    entity: AgentId,
    task_queue: &mut TaskQueue,
    position: &mut Position,
    world: &mut World,
    gw_validator: &mut GlobalWorkValidator,
) -> (r: Option<MineTileEvent>)
    requires
        old(world).wf(),
        old(world).in_bounds(*old(position)),
        old(gw_validator).wf(),
    ensures
        final(world).wf(),
        final(world).width == old(world).width,
        final(world).height == old(world).height,
        final(world).grid == old(world).grid,
        final(world).tiles == old(world).tiles,
        final(world).in_bounds(*final(position)),
        final(gw_validator).wf(),
        match old(task_queue).active@ {
            TaskView::Idle | TaskView::Attack(_) => {
                &&& advanced(*old(task_queue), *final(task_queue))
                &&& *final(position) == *old(position)
                &&& final(world).entities == old(world).entities
                &&& final(gw_validator)@ == old(gw_validator)@
                &&& r is None
            },
            TaskView::Move { path, target } => {
                &&& final(gw_validator)@ == old(gw_validator)@
                &&& r is None
                &&& if path.len() == 0 {
                    &&& advanced(*old(task_queue), *final(task_queue))
                    &&& *final(position) == *old(position)
                    &&& final(world).entities == old(world).entities
                } else if old(world).passable(path[0]) {
                    &&& *final(position) == path[0]
                    &&& final(world).entities@ == old(world).entities@.update(
                        old(world).index_of(*old(position)),
                        None,
                    ).update(old(world).index_of(path[0]), Some(entity))
                    &&& final(task_queue).active@ == (TaskView::Move {
                        path: path.drop_first(),
                        target,
                    })
                    &&& final(task_queue).queue@ == old(task_queue).queue@
                } else {
                    &&& *final(position) == *old(position)
                    &&& final(world).entities == old(world).entities
                    &&& if reachable(*old(world), *old(position), target) {
                        &&& final(task_queue).queue@ == old(task_queue).queue@
                        &&& find_path_result(*old(world), *old(position), target) matches Some((p, _))
                            && final(task_queue).active@ == (TaskView::Move {
                            path: p.drop_first(),
                            target,
                        })
                        &&& final(task_queue).active@ matches TaskView::Move { path: p, target: t }
                            && t == target && is_walk(
                            *old(world),
                            seq![*old(position)] + p,
                            *old(position),
                            target,
                        )
                    } else {
                        advanced(*old(task_queue), *final(task_queue))
                    }
                }
            },
            TaskView::Mine { target, id } => {
                &&& advanced(*old(task_queue), *final(task_queue))
                &&& *final(position) == *old(position)
                &&& final(world).entities == old(world).entities
                &&& if !old(gw_validator)@.contains_key(id) {
                    final(gw_validator)@ == old(gw_validator)@ && r is None
                } else if dist_sq(*old(position), target) > 2 {
                    final(gw_validator)@ == old(gw_validator)@.insert(id, false) && r is None
                } else {
                    final(gw_validator)@ == old(gw_validator)@.remove(id) && r == Some(
                        MineTileEvent(target),
                    )
                }
            },
        },
{
    let mut active = Task::Idle;
    std::mem::swap(&mut active, &mut task_queue.active);
    proof {
        assert(old(task_queue).active == active);
    }
    let mut mined: Option<MineTileEvent> = None;
    match active {
        Task::Idle => {},
        Task::Attack(_) => {},
        Task::Move(mut move_task) => {
            if let Some(next) = move_task.path.pop_front() {
                let moved = match to_cell(next) {
                    Some(cell) => move_pawn(cell, entity, position, world),
                    None => false,
                };
                if moved {
                    task_queue.active = Task::Move(move_task);
                    return mined;
                }
                match pawn_find_path(*position, move_task.target, world) {
                    Some((path, _)) => {
                        let queue = path_tail(&path);
                        assert(seq![*position] + queue@ =~= path@);
                        task_queue.active = Task::Move(
                            MoveTask { path: queue, target: move_task.target },
                        );
                        return mined;
                    },
                    None => {},
                }
            }
        },
        Task::Mine((target, id)) => {
            if gw_validator.validate(&id).is_some() {
                if out_of_reach(position, &target) {
                    gw_validator.set_occupied(&id, false);
                } else {
                    gw_validator.remove_work(&id);
                    mined = Some(MineTileEvent(target));
                }
            }
        },
    }
    task_queue.next_tast();
    mined
}

} // verus!
