use dungeon_core::path::{find_best_path_to_target, move_pawn, path_tail, pawn_find_path};
use dungeon_core::position::Position;
use dungeon_core::world::{AgentId, World};

fn touching(a: Position, b: Position) -> bool {
    a != b && (a.x - b.x).abs() <= 1 && (a.y - b.y).abs() <= 1
}

fn assert_walk(path: &[Position], start: Position, goal: Position) {
    assert_eq!(path[0], start);
    assert_eq!(*path.last().unwrap(), goal);
    for w in path.windows(2) {
        assert!(touching(w[0], w[1]), "{:?} and {:?} do not touch", w[0], w[1]);
    }
}

#[test]
fn distance_is_squared_euclidean() {
    assert_eq!(Position::new(0, 0).distance(&Position::new(3, 4)), 25);
    assert_eq!(Position::new(-2, 5).distance(&Position::new(1, 1)), 25);
    assert_eq!(Position::new(7, 7).distance(&Position::new(7, 7)), 0);
}

#[test]
fn distance_saturates_far_apart() {
    let a = Position::new(i32::MIN, i32::MIN);
    let b = Position::new(i32::MAX, i32::MAX);
    assert_eq!(a.distance(&b), u32::MAX);
}

#[test]
fn successors_of_open_cell() {
    let world = World::new(5, 5);
    let s = Position::new(2, 2).successors(&world);
    assert_eq!(s.len(), 8);
    assert!(s.iter().all(|(p, c)| *c == 1 && touching(Position::new(2, 2), *p)));
}

#[test]
fn successors_skip_edges_solid_and_occupied() {
    let mut world = World::new(5, 5);
    world.make_solid((1, 0));
    world.set_entity((1, 1), Some(AgentId(7)));
    let s = Position::new(0, 0).successors(&world);
    let cells: Vec<Position> = s.iter().map(|(p, _)| *p).collect();
    assert_eq!(cells, vec![Position::new(0, 1)]);
}

#[test]
fn move_order_path_on_empty_grid() {
    let mut world = World::new(10, 10);
    world.set_entity((0, 0), Some(AgentId(1)));
    let (path, cost) = pawn_find_path(Position::new(0, 0), Position::new(5, 5), &world).unwrap();
    assert_eq!(path.len(), 6);
    assert_eq!(cost, 5);
    assert_walk(&path, Position::new(0, 0), Position::new(5, 5));
    let queue = path_tail(&path);
    assert_eq!(queue.len(), 5);
    assert!(!queue.contains(&Position::new(0, 0)));
    assert_eq!(queue.back(), Some(&Position::new(5, 5)));
}

#[test]
fn path_goes_around_a_wall() {
    let mut world = World::new(6, 6);
    for y in 0..5 {
        world.make_solid((2, y));
    }
    let (path, cost) = pawn_find_path(Position::new(0, 0), Position::new(4, 0), &world).unwrap();
    assert_walk(&path, Position::new(0, 0), Position::new(4, 0));
    assert_eq!(cost as usize, path.len() - 1);
    assert!(path.contains(&Position::new(2, 5)));
}

#[test]
fn no_path_to_solid_goal() {
    let mut world = World::new(6, 6);
    world.make_solid((4, 4));
    assert!(pawn_find_path(Position::new(0, 0), Position::new(4, 4), &world).is_none());
}

#[test]
fn no_path_to_occupied_goal() {
    let mut world = World::new(6, 6);
    world.set_entity((4, 4), Some(AgentId(3)));
    assert!(pawn_find_path(Position::new(0, 0), Position::new(4, 4), &world).is_none());
}

#[test]
fn no_path_to_walled_off_goal() {
    let mut world = World::new(6, 6);
    for y in 0..6 {
        world.make_solid((3, y));
    }
    assert!(pawn_find_path(Position::new(0, 0), Position::new(5, 5), &world).is_none());
}

#[test]
fn no_path_outside_the_world() {
    let world = World::new(6, 6);
    assert!(pawn_find_path(Position::new(0, 0), Position::new(6, 2), &world).is_none());
    assert!(pawn_find_path(Position::new(0, 0), Position::new(-1, 2), &world).is_none());
}

#[test]
fn path_to_own_cell_is_the_start() {
    let world = World::new(4, 4);
    let (path, cost) = pawn_find_path(Position::new(1, 1), Position::new(1, 1), &world).unwrap();
    assert_eq!(path, vec![Position::new(1, 1)]);
    assert_eq!(cost, 0);
}

#[test]
fn approach_through_the_only_free_neighbour() {
    let mut world = World::new(7, 7);
    world.make_solid((3, 3));
    for (x, y) in [(2, 2), (3, 2), (4, 2), (4, 3), (2, 4), (3, 4), (4, 4)] {
        world.make_solid((x, y));
    }
    world.set_entity((0, 3), Some(AgentId(1)));
    let mt = find_best_path_to_target(&Position::new(0, 3), &Position::new(3, 3), &world).unwrap();
    assert_eq!(mt.target, Position::new(2, 3));
    assert_eq!(mt.path.len(), 2);
    assert_eq!(mt.path.back(), Some(&Position::new(2, 3)));
    assert!(!mt.path.contains(&Position::new(0, 3)));
}

#[test]
fn approach_fails_when_enclosed() {
    let mut world = World::new(7, 7);
    for x in 2..5 {
        for y in 2..5 {
            world.make_solid((x, y));
        }
    }
    assert!(find_best_path_to_target(&Position::new(0, 0), &Position::new(3, 3), &world).is_none());
}

#[test]
fn approach_at_the_map_edge() {
    let mut world = World::new(5, 5);
    world.make_solid((0, 0));
    let mt = find_best_path_to_target(&Position::new(4, 4), &Position::new(0, 0), &world).unwrap();
    assert!(touching(mt.target, Position::new(0, 0)));
}

#[test]
fn successors_come_in_scan_order() {
    let world = World::new(3, 3);
    let cells: Vec<Position> = Position::new(1, 1).successors(&world).iter().map(|(p, _)| *p).collect();
    let expected = vec![
        Position::new(0, 0),
        Position::new(1, 0),
        Position::new(2, 0),
        Position::new(0, 1),
        Position::new(2, 1),
        Position::new(0, 2),
        Position::new(1, 2),
        Position::new(2, 2),
    ];
    assert_eq!(cells, expected);
}

#[test]
fn found_path_repeats_no_cell() {
    let mut world = World::new(8, 8);
    for y in 1..8 {
        world.make_solid((4, y));
    }
    let (path, _) = pawn_find_path(Position::new(0, 7), Position::new(7, 7), &world).unwrap();
    let mut seen = path.clone();
    seen.sort();
    seen.dedup();
    assert_eq!(seen.len(), path.len());
}

#[test]
fn move_pawn_updates_occupancy() {
    let mut world = World::new(4, 4);
    let mut pos = Position::new(1, 1);
    world.set_entity((1, 1), Some(AgentId(9)));
    assert!(move_pawn((2, 1), AgentId(9), &mut pos, &mut world));
    assert_eq!(pos, Position::new(2, 1));
    assert_eq!(world.get_entity((1, 1)), None);
    assert_eq!(world.get_entity((2, 1)), Some(AgentId(9)));
    world.make_solid((3, 1));
    assert!(!move_pawn((3, 1), AgentId(9), &mut pos, &mut world));
    assert!(!move_pawn((9, 1), AgentId(9), &mut pos, &mut world));
    assert_eq!(pos, Position::new(2, 1));
}
