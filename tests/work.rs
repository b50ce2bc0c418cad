use std::collections::VecDeque;

use dungeon_core::orders::{
    cancel_mine_order, mine_order, mine_tile_event, mine_work, move_order, register_and_file_work,
    register_global_work_event, remove_global_work_event,
};
use dungeon_core::position::Position;
use dungeon_core::resource::PlayerResources;
use dungeon_core::task::{MoveTask, Task, TaskQueue};
use dungeon_core::turn::{out_of_reach, pawn_act_turn};
use dungeon_core::work::{GlobalWorkValidator, MineTileEvent, RegisterGlobalWorkEvent, RemoveGlobalWorkEvent};
use dungeon_core::work_id::{GlobalWorkID, MINE_WORK_IDENTIFIER};
use dungeon_core::worker::{check_inaccessible_works, distance_to_work, worker_behaviour, Worker};
use dungeon_core::world::{AgentId, ResourceMaterial, Resource, TileData, TileState, World};

fn mine_id(x: i32, y: i32) -> GlobalWorkID {
    GlobalWorkID::new(MINE_WORK_IDENTIFIER, &Position::new(x, y))
}

#[test]
fn work_id_text() {
    assert_eq!(mine_id(3, 4).as_str(), "m3,4");
    assert_eq!(mine_id(-12, 0).as_str(), "m-12,0");
    assert_eq!(mine_id(1, 23).as_str(), "m1,23");
    assert_ne!(mine_id(1, 23), mine_id(12, 3));
    assert_eq!(mine_id(5, 5), mine_id(5, 5));
}

#[test]
fn registry_lifecycle() {
    let mut reg = GlobalWorkValidator::new();
    let work = mine_work(Position::new(2, 2));
    assert_eq!(reg.validate(&work.id), None);
    reg.push_work(&work);
    assert_eq!(reg.validate(&work.id), Some(false));
    assert!(!reg.set_occupied(&work.id, true));
    assert_eq!(reg.validate(&work.id), Some(true));
    reg.push_work(&work);
    assert_eq!(reg.validate(&work.id), Some(true));
    assert_eq!(reg.remove_work(&work.id), Some(true));
    assert_eq!(reg.validate(&work.id), None);
    assert_eq!(reg.remove_work(&work.id), None);
    assert!(!reg.set_occupied(&work.id, true));
}

#[test]
fn task_names() {
    assert_eq!(Task::Idle.name(), "None");
    assert_eq!(Task::Attack(AgentId(1)).name(), "Attack");
    assert_eq!(mine_work(Position::new(0, 0)).task.name(), "Mine");
    let mv = Task::Move(MoveTask { path: VecDeque::new(), target: Position::new(0, 0) });
    assert_eq!(mv.name(), "Move");
}

#[test]
fn next_task_pops_front() {
    let mut tq = TaskQueue::new();
    tq.queue.push_back(Task::Attack(AgentId(4)));
    tq.next_tast();
    assert!(matches!(tq.active, Task::Attack(AgentId(4))));
    assert!(tq.queue.is_empty());
    tq.next_tast();
    assert!(matches!(tq.active, Task::Idle));
}

fn open_world_with_rock(w: usize, h: usize, rock: (usize, usize)) -> World {
    let mut world = World::new(w, h);
    world.make_solid(rock);
    world
}

#[test]
fn worker_takes_nearest_free_job() {
    let mut world = World::new(12, 12);
    world.make_solid((9, 9));
    world.make_solid((3, 3));
    world.set_entity((0, 0), Some(AgentId(1)));
    let mut reg = GlobalWorkValidator::new();
    let far = mine_work(Position::new(9, 9));
    let near = mine_work(Position::new(3, 3));
    let mut worker = Worker::new();
    for job in [&far, &near] {
        reg.push_work(job);
        worker.file_work(&Position::new(0, 0), job, &world);
    }
    assert_eq!(worker.accessible.len(), 2);
    let mut tq = TaskQueue::new();
    worker_behaviour(&Position::new(0, 0), &mut tq, &mut worker, &mut reg, &world);
    assert_eq!(tq.queue.len(), 2);
    match &tq.queue[0] {
        Task::Move(mt) => {
            assert!((mt.target.x - 3).abs() <= 1 && (mt.target.y - 3).abs() <= 1);
        }
        _ => panic!("expected a walk first"),
    }
    match &tq.queue[1] {
        Task::Mine((p, id)) => {
            assert_eq!(*p, Position::new(3, 3));
            assert_eq!(*id, near.id);
        }
        _ => panic!("expected the mining task second"),
    }
    assert_eq!(reg.validate(&near.id), Some(true));
    assert_eq!(reg.validate(&far.id), Some(false));
}

#[test]
fn second_worker_skips_claimed_job() {
    let mut world = open_world_with_rock(10, 10, (5, 5));
    world.set_entity((0, 0), Some(AgentId(1)));
    world.set_entity((9, 9), Some(AgentId(2)));
    let mut reg = GlobalWorkValidator::new();
    let job = mine_work(Position::new(5, 5));
    reg.push_work(&job);
    let mut a = Worker::new();
    let mut b = Worker::new();
    a.file_work(&Position::new(0, 0), &job, &world);
    b.file_work(&Position::new(9, 9), &job, &world);
    let mut ta = TaskQueue::new();
    let mut tb = TaskQueue::new();
    worker_behaviour(&Position::new(0, 0), &mut ta, &mut a, &mut reg, &world);
    worker_behaviour(&Position::new(9, 9), &mut tb, &mut b, &mut reg, &world);
    assert_eq!(ta.queue.len(), 2);
    assert!(tb.queue.is_empty());
    assert_eq!(reg.validate(&job.id), Some(true));
}

#[test]
fn cancelled_job_is_never_picked() {
    let mut world = open_world_with_rock(8, 8, (4, 4));
    world.set_entity((0, 0), Some(AgentId(1)));
    let mut reg = GlobalWorkValidator::new();
    let job = mine_work(Position::new(4, 4));
    let mut worker = Worker::new();
    register_global_work_event(&RegisterGlobalWorkEvent::new(job.clone()), &mut reg);
    worker.file_work(&Position::new(0, 0), &job, &world);
    remove_global_work_event(&RemoveGlobalWorkEvent::new(job.id.clone()), &mut reg);
    assert_eq!(reg.validate(&job.id), None);
    let mut tq = TaskQueue::new();
    worker_behaviour(&Position::new(0, 0), &mut tq, &mut worker, &mut reg, &world);
    assert!(tq.queue.is_empty());
    assert!(matches!(tq.active, Task::Idle));
    assert!(worker.accessible.is_empty());
}

#[test]
fn busy_worker_does_not_look_for_work() {
    let world = open_world_with_rock(8, 8, (4, 4));
    let mut reg = GlobalWorkValidator::new();
    let job = mine_work(Position::new(4, 4));
    reg.push_work(&job);
    let mut worker = Worker::new();
    worker.file_work(&Position::new(0, 0), &job, &world);
    let mut tq = TaskQueue::new();
    tq.active = Task::Attack(AgentId(5));
    worker_behaviour(&Position::new(0, 0), &mut tq, &mut worker, &mut reg, &world);
    assert!(tq.queue.is_empty());
    assert_eq!(reg.validate(&job.id), Some(false));
}

#[test]
fn distant_miner_releases_claim() {
    let mut world = open_world_with_rock(10, 10, (8, 8));
    world.set_entity((0, 0), Some(AgentId(1)));
    let mut reg = GlobalWorkValidator::new();
    let job = mine_work(Position::new(8, 8));
    reg.push_work(&job);
    reg.set_occupied(&job.id, true);
    let mut tq = TaskQueue::new();
    tq.active = job.task.clone();
    let mut pos = Position::new(0, 0);
    let mined = pawn_act_turn(AgentId(1), &mut tq, &mut pos, &mut world, &mut reg);
    assert!(mined.is_none());
    assert_eq!(reg.validate(&job.id), Some(false));
    assert!(matches!(tq.active, Task::Idle));
}

#[test]
fn adjacent_miner_completes_job() {
    let mut world = open_world_with_rock(10, 10, (5, 5));
    world.set_entity((4, 4), Some(AgentId(1)));
    let mut reg = GlobalWorkValidator::new();
    let job = mine_work(Position::new(5, 5));
    reg.push_work(&job);
    reg.set_occupied(&job.id, true);
    let mut tq = TaskQueue::new();
    tq.active = job.task.clone();
    let mut pos = Position::new(4, 4);
    let mined = pawn_act_turn(AgentId(1), &mut tq, &mut pos, &mut world, &mut reg);
    assert_eq!(mined, Some(MineTileEvent(Position::new(5, 5))));
    assert_eq!(reg.validate(&job.id), None);
}

#[test]
fn mining_a_cancelled_job_is_skipped() {
    let mut world = open_world_with_rock(10, 10, (5, 5));
    world.set_entity((4, 4), Some(AgentId(1)));
    let mut reg = GlobalWorkValidator::new();
    let job = mine_work(Position::new(5, 5));
    let mut tq = TaskQueue::new();
    tq.active = job.task.clone();
    tq.queue.push_back(Task::Attack(AgentId(2)));
    let mut pos = Position::new(4, 4);
    let mined = pawn_act_turn(AgentId(1), &mut tq, &mut pos, &mut world, &mut reg);
    assert!(mined.is_none());
    assert!(matches!(tq.active, Task::Attack(AgentId(2))));
}

#[test]
fn out_of_reach_beyond_diagonal() {
    assert!(!out_of_reach(&Position::new(0, 0), &Position::new(1, 1)));
    assert!(!out_of_reach(&Position::new(0, 0), &Position::new(0, 1)));
    assert!(out_of_reach(&Position::new(0, 0), &Position::new(2, 0)));
    assert!(out_of_reach(&Position::new(0, 0), &Position::new(2, 1)));
}

#[test]
fn walk_steps_then_ends() {
    let mut world = World::new(6, 6);
    world.set_entity((0, 0), Some(AgentId(1)));
    let mut reg = GlobalWorkValidator::new();
    let mut tq = TaskQueue::new();
    let mut pos = Position::new(0, 0);
    move_order(&mut tq, &pos, Position::new(2, 0), &world, &mut reg);
    assert_eq!(tq.queue.len(), 1);
    tq.next_tast();
    pawn_act_turn(AgentId(1), &mut tq, &mut pos, &mut world, &mut reg);
    assert_eq!(pos, Position::new(1, 0));
    assert!(matches!(tq.active, Task::Move(_)));
    pawn_act_turn(AgentId(1), &mut tq, &mut pos, &mut world, &mut reg);
    assert_eq!(pos, Position::new(2, 0));
    assert_eq!(world.get_entity((2, 0)), Some(AgentId(1)));
    assert_eq!(world.get_entity((0, 0)), None);
    pawn_act_turn(AgentId(1), &mut tq, &mut pos, &mut world, &mut reg);
    assert!(matches!(tq.active, Task::Idle));
}

#[test]
fn blocked_walk_finds_new_path() {
    let mut world = World::new(5, 5);
    world.set_entity((0, 2), Some(AgentId(1)));
    let mut reg = GlobalWorkValidator::new();
    let mut tq = TaskQueue::new();
    let mut path = VecDeque::new();
    path.push_back(Position::new(1, 2));
    path.push_back(Position::new(2, 2));
    tq.active = Task::Move(MoveTask { path, target: Position::new(2, 2) });
    world.make_solid((1, 2));
    let mut pos = Position::new(0, 2);
    pawn_act_turn(AgentId(1), &mut tq, &mut pos, &mut world, &mut reg);
    assert_eq!(pos, Position::new(0, 2));
    match &tq.active {
        Task::Move(mt) => {
            assert_eq!(mt.target, Position::new(2, 2));
            assert_eq!(mt.path.back(), Some(&Position::new(2, 2)));
            assert!(!mt.path.contains(&Position::new(1, 2)));
        }
        _ => panic!("the walk should go on"),
    }
}

#[test]
fn blocked_walk_without_path_is_dropped() {
    let mut world = World::new(5, 5);
    world.set_entity((0, 2), Some(AgentId(1)));
    let mut reg = GlobalWorkValidator::new();
    let mut tq = TaskQueue::new();
    let mut path = VecDeque::new();
    path.push_back(Position::new(1, 2));
    tq.active = Task::Move(MoveTask { path, target: Position::new(4, 4) });
    world.make_solid((4, 4));
    world.make_solid((1, 2));
    let mut pos = Position::new(0, 2);
    pawn_act_turn(AgentId(1), &mut tq, &mut pos, &mut world, &mut reg);
    assert!(matches!(tq.active, Task::Idle));
}

#[test]
fn move_order_releases_active_claim() {
    let world = open_world_with_rock(8, 8, (6, 6));
    let mut reg = GlobalWorkValidator::new();
    let job = mine_work(Position::new(6, 6));
    reg.push_work(&job);
    reg.set_occupied(&job.id, true);
    let mut tq = TaskQueue::new();
    tq.active = job.task.clone();
    tq.queue.push_back(Task::Attack(AgentId(3)));
    move_order(&mut tq, &Position::new(0, 0), Position::new(3, 0), &world, &mut reg);
    assert_eq!(reg.validate(&job.id), Some(false));
    assert!(matches!(tq.active, Task::Idle));
    assert_eq!(tq.queue.len(), 2);
    assert!(matches!(tq.queue[0], Task::Move(_)));
    assert!(matches!(tq.queue[1], Task::Attack(AgentId(3))));
}

#[test]
fn move_order_to_unreachable_cell_only_clears_active() {
    let world = open_world_with_rock(8, 8, (6, 6));
    let mut reg = GlobalWorkValidator::new();
    let mut tq = TaskQueue::new();
    tq.active = Task::Attack(AgentId(3));
    move_order(&mut tq, &Position::new(0, 0), Position::new(6, 6), &world, &mut reg);
    assert!(matches!(tq.active, Task::Idle));
    assert!(tq.queue.is_empty());
}

#[test]
fn recheck_cursor_wraps() {
    let mut world = World::new(20, 20);
    let mut reg = GlobalWorkValidator::new();
    let mut worker = Worker::new();
    // A sealed room: the jobs inside cannot be reached from the corner.
    for i in 0..20 {
        world.make_solid((10, i));
    }
    for k in 0..45 {
        let p = Position::new(11 + (k % 9), (k / 9) * 3 + 1);
        world.make_solid((p.x as usize, p.y as usize));
        let job = mine_work(p);
        reg.push_work(&job);
        worker.file_work(&Position::new(0, 0), &job, &world);
    }
    assert_eq!(worker.inaccessible.len(), 45);
    let pos = Position::new(0, 0);
    check_inaccessible_works(&pos, &mut worker, &reg, &world);
    assert_eq!(worker.iterator, 20);
    check_inaccessible_works(&pos, &mut worker, &reg, &world);
    assert_eq!(worker.iterator, 40);
    check_inaccessible_works(&pos, &mut worker, &reg, &world);
    assert_eq!(worker.iterator, 0);
    assert_eq!(worker.inaccessible.len(), 45);
    assert!(worker.accessible.is_empty());
}

#[test]
fn recheck_promotes_and_drops() {
    let mut world = World::new(10, 10);
    let mut reg = GlobalWorkValidator::new();
    let mut worker = Worker::new();
    for i in 0..10 {
        world.make_solid((5, i));
    }
    world.make_solid((8, 5));
    world.make_solid((8, 2));
    let open_later = mine_work(Position::new(8, 5));
    let cancelled = mine_work(Position::new(8, 2));
    for job in [&open_later, &cancelled] {
        reg.push_work(job);
        worker.file_work(&Position::new(0, 0), job, &world);
    }
    assert_eq!(worker.inaccessible.len(), 2);
    reg.remove_work(&cancelled.id);
    world.grid.remove_vertex((5, 5));
    check_inaccessible_works(&Position::new(0, 0), &mut worker, &reg, &world);
    assert!(worker.inaccessible.is_empty());
    assert_eq!(worker.accessible.len(), 1);
    assert_eq!(worker.accessible[0].id, open_later.id);
    assert_eq!(worker.iterator, 0);
}

#[test]
fn distance_to_work_is_squared() {
    let job = mine_work(Position::new(4, 6));
    assert_eq!(distance_to_work(&Position::new(1, 2), &job), 25);
}

#[test]
fn mined_tiles_are_cleared_and_credited() {
    let mut world = World::new(6, 6);
    world.make_solid((2, 2));
    world.set_tile(
        (2, 2),
        TileData {
            state: TileState::Solid,
            resource: Resource { material: ResourceMaterial::Gold, quantity: 1 },
            marked: true,
        },
    );
    let mut res = PlayerResources::default();
    let cleared = mine_tile_event(&mut world, &mut res, &vec![MineTileEvent(Position::new(2, 2))]);
    assert_eq!(cleared, vec![Position::new(2, 2)]);
    assert!(!world.is_solid_tile((2, 2)));
    let tile = world.get_tile((2, 2));
    assert_eq!(tile.state, TileState::Empty);
    assert!(!tile.marked);
    assert_eq!(res.resources[ResourceMaterial::Gold.index()].quantity, 1);
    assert_eq!(res.resources[ResourceMaterial::Dirt.index()].quantity, 0);
}

#[test]
fn mine_order_marks_solid_tiles_once() {
    let mut world = World::new(6, 6);
    world.make_solid((1, 1));
    world.make_solid((2, 1));
    let cells = vec![(0, 1), (1, 1), (2, 1), (9, 9)];
    let jobs = mine_order(&mut world, &cells);
    assert_eq!(jobs.len(), 2);
    assert_eq!(jobs[0].position, Position::new(1, 1));
    assert_eq!(jobs[0].id.as_str(), "m1,1");
    assert!(world.get_tile((1, 1)).marked);
    assert!(!world.get_tile((0, 1)).marked);
    assert!(mine_order(&mut world, &cells).is_empty());
    let ids = cancel_mine_order(&mut world, &vec![(1, 1)]);
    assert_eq!(ids.len(), 1);
    assert_eq!(ids[0].as_str(), "m1,1");
    assert!(!world.get_tile((1, 1)).marked);
}

#[test]
fn mining_leaves_other_tiles_and_counts_each_event() {
    let mut world = World::new(6, 6);
    for (x, y) in [(1, 1), (2, 1), (4, 4)] {
        world.make_solid((x, y));
        world.set_tile(
            (x, y),
            TileData {
                state: TileState::Solid,
                resource: Resource { material: ResourceMaterial::Coal, quantity: 1 },
                marked: true,
            },
        );
    }
    let mut res = PlayerResources::default();
    let events = vec![MineTileEvent(Position::new(1, 1)), MineTileEvent(Position::new(2, 1))];
    mine_tile_event(&mut world, &mut res, &events);
    assert_eq!(res.resources[ResourceMaterial::Coal.index()].quantity, 2);
    assert!(!world.get_tile((2, 1)).marked);
    let untouched = world.get_tile((4, 4));
    assert!(untouched.marked);
    assert_eq!(untouched.state, TileState::Solid);
    assert!(world.is_solid_tile((4, 4)));
}

#[test]
fn mine_order_skips_marked_tiles_and_duplicates() {
    let mut world = World::new(6, 6);
    world.make_solid((1, 1));
    world.make_solid((2, 2));
    let mut marked = world.get_tile((2, 2));
    marked.marked = true;
    world.set_tile((2, 2), marked);
    let jobs = mine_order(&mut world, &vec![(1, 1), (1, 1), (2, 2), (3, 3)]);
    assert_eq!(jobs.len(), 1);
    assert_eq!(jobs[0].position, Position::new(1, 1));
    assert!(!world.get_tile((3, 3)).marked);
}

#[test]
fn filing_a_known_job_twice_keeps_one_copy() {
    let mut world = World::new(10, 10);
    for y in 0..10 {
        world.make_solid((5, y));
    }
    world.make_solid((8, 8));
    let job = mine_work(Position::new(8, 8));
    let mut worker = Worker::new();
    worker.file_work(&Position::new(0, 0), &job, &world);
    worker.file_work(&Position::new(0, 0), &job, &world);
    assert_eq!(worker.inaccessible.len(), 1);
    world.grid.remove_vertex((5, 5));
    worker.file_work(&Position::new(0, 0), &job, &world);
    assert!(worker.accessible.is_empty());
    assert_eq!(worker.inaccessible.len(), 1);
}

#[test]
fn registration_files_with_every_worker() {
    let mut world = World::new(10, 10);
    for y in 0..10 {
        world.make_solid((5, y));
    }
    world.make_solid((8, 8));
    let job = mine_work(Position::new(8, 8));
    let mut reg = GlobalWorkValidator::new();
    let mut workers = vec![Worker::new(), Worker::new()];
    let positions = vec![Position::new(0, 0), Position::new(9, 0)];
    register_and_file_work(&RegisterGlobalWorkEvent::new(job.clone()), &mut reg, &mut workers, &positions, &world);
    assert_eq!(reg.validate(&job.id), Some(false));
    assert_eq!(workers[0].inaccessible.len(), 1);
    assert!(workers[0].accessible.is_empty());
    assert_eq!(workers[1].accessible.len(), 1);
    assert!(workers[1].inaccessible.is_empty());
}

#[test]
fn cancel_touches_only_the_mark() {
    let mut world = World::new(6, 6);
    world.make_solid((1, 1));
    world.set_tile(
        (1, 1),
        TileData {
            state: TileState::Solid,
            resource: Resource { material: ResourceMaterial::Iron, quantity: 1 },
            marked: true,
        },
    );
    let ids = cancel_mine_order(&mut world, &vec![(1, 1), (2, 2)]);
    assert_eq!(ids.len(), 1);
    let tile = world.get_tile((1, 1));
    assert!(!tile.marked);
    assert_eq!(tile.state, TileState::Solid);
    assert_eq!(tile.resource, Resource { material: ResourceMaterial::Iron, quantity: 1 });
    assert!(world.is_solid_tile((1, 1)));
}
