use vstd::prelude::*;
use std::collections::VecDeque;
use pathfinding::directed::astar::astar;

use crate::position::{adjacent, Position};
use crate::task::MoveTask;
use crate::world::{grid_vertices, lemma_cell_index_injective, AgentId, World};
use vstd::set_lib::{lemma_int_range, lemma_len_subset, set_int_range};

verus! {

/// One move of an agent: onto a touching cell that it may stand on.
pub open spec fn is_step(w: World, a: Position, b: Position) -> bool {
    adjacent(a, b) && w.passable(b)
}

/// The move from the `i`-th to the next cell of `p` is a step.
pub open spec fn step_at(w: World, p: Seq<Position>, i: int) -> bool {
    is_step(w, p[i], p[i + 1])
}

/// `p` leads from `start` to `goal` by steps; its first cell is `start`.
pub open spec fn is_walk(w: World, p: Seq<Position>, start: Position, goal: Position) -> bool {
    &&& p.len() >= 1
    &&& p[0] == start
    &&& p.last() == goal
    &&& forall|i: int| 0 <= i < p.len() - 1 ==> #[trigger] step_at(w, p, i)
}

pub open spec fn reachable(w: World, start: Position, goal: Position) -> bool {
    exists|p: Seq<Position>| is_walk(w, p, start, goal)
}

/// A cell other than the start that no agent may step onto cannot be reached.
pub proof fn lemma_blocked_goal_unreachable(w: World, start: Position, goal: Position)
    requires
        goal != start,
        !w.passable(goal),
    ensures
        !reachable(w, start, goal),
{
    assert forall|p: Seq<Position>| !is_walk(w, p, start, goal) by {
        if is_walk(w, p, start, goal) {
            assert(p.len() >= 2);
            assert(step_at(w, p, p.len() - 2));
        }
    }
}

/// The cell at offset `(dx, dy)` from `p` with cost 1, when it lies in the
/// world and an agent may step onto it.
pub open spec fn step_entry(w: World, p: Position, dx: int, dy: int) -> Seq<(Position, u32)> {
    if 0 <= p.x + dx < w.width && 0 <= p.y + dy < w.height && w.passable(
        Position { x: (p.x + dx) as i32, y: (p.y + dy) as i32 },
    ) {
        seq![(Position { x: (p.x + dx) as i32, y: (p.y + dy) as i32 }, 1u32)]
    } else {
        Seq::empty()
    }
}

/// The successors of `p` in scan order: rows from `y - 1` to `y + 1`, within a
/// row from `x - 1` to `x + 1`, skipping `p` itself.
pub open spec fn successor_list(w: World, p: Position) -> Seq<(Position, u32)> {
    step_entry(w, p, -1, -1) + step_entry(w, p, 0, -1) + step_entry(w, p, 1, -1) + step_entry(
        w,
        p,
        -1,
        0,
    ) + step_entry(w, p, 1, 0) + step_entry(w, p, -1, 1) + step_entry(w, p, 0, 1) + step_entry(
        w,
        p,
        1,
        1,
    )
}

impl Position {
    /// Adds the cell at offset `(dx, dy)` when an agent may step onto it.
    fn push_successor(&self, world: &World, dx: i64, dy: i64, out: &mut Vec<(Position, u32)>)
        requires
            world.wf(),
            -1 <= dx <= 1,
            -1 <= dy <= 1,
        ensures
            forall|e: (Position, u32)|
                final(out)@.contains(e) <==> (old(out)@.contains(e) || (e.1 == 1 && e.0.x
                    == self.x + dx && e.0.y == self.y + dy && world.passable(e.0))),
            final(out)@ == old(out)@ + step_entry(*world, *self, dx as int, dy as int),
    {
        let x: i64 = self.x as i64 + dx;
        let y: i64 = self.y as i64 + dy;
        if 0 <= x && x < world.width as i64 && 0 <= y && y < world.height as i64 {
            let cell: (usize, usize) = (x as usize, y as usize);
            let p = Position { x: x as i32, y: y as i32 };
            if !world.is_solid_tile(cell) && world.get_entity(cell).is_none() {
                out.push((p, 1));
            }
            assert forall|e: (Position, u32)|
                final(out)@.contains(e) <==> (old(out)@.contains(e) || (e.1 == 1 && e.0.x
                    == self.x + dx && e.0.y == self.y + dy && world.passable(e.0))) by {
                if e.0.x == self.x + dx && e.0.y == self.y + dy {
                    assert(e.0 == p);
                }
                if final(out)@.len() > old(out)@.len() {
                    if final(out)@.contains(e) && !old(out)@.contains(e) {
                        let k = choose|k: int| 0 <= k < final(out)@.len() && final(out)@[k] == e;
                        assert(k == old(out)@.len());
                    }
                    if old(out)@.contains(e) {
                        let k = choose|k: int| 0 <= k < old(out)@.len() && old(out)@[k] == e;
                        assert(final(out)@[k] == e);
                    }
                    if e == (p, 1u32) {
                        assert(final(out)@[old(out)@.len() as int] == e);
                    }
                }
            }
            assert(final(out)@ =~= old(out)@ + step_entry(*world, *self, dx as int, dy as int));
        } else {
            assert(final(out)@ =~= old(out)@ + step_entry(*world, *self, dx as int, dy as int));
        }
    }

    /// The cells an agent standing here may step onto, each with a cost of 1.
    pub fn successors(&self, world: &World) -> (r: Vec<(Position, u32)>)
        requires
            world.wf(),
        ensures
            forall|e: (Position, u32)|
                r@.contains(e) <==> (e.1 == 1 && is_step(*world, *self, e.0)),
            r@ == successor_list(*world, *self),
    {
        let mut vec: Vec<(Position, u32)> = Vec::with_capacity(8);
        self.push_successor(world, -1, -1, &mut vec);
        self.push_successor(world, 0, -1, &mut vec);
        self.push_successor(world, 1, -1, &mut vec);
        self.push_successor(world, -1, 0, &mut vec);
        self.push_successor(world, 1, 0, &mut vec);
        self.push_successor(world, -1, 1, &mut vec);
        self.push_successor(world, 0, 1, &mut vec);
        self.push_successor(world, 1, 1, &mut vec);
        assert(vec@ =~= successor_list(*world, *self));
        vec
    }
}

/// What `astar` returns, searching from `start` to `goal` with the step rule
/// of `Position::successors` on a grid of `width` by `height` cells whose solid
/// cells are `solid` and whose cells free of agents are marked in `free` (row
/// by row), with the squared distance to `goal` as heuristic.
pub uninterp spec fn astar_result(
    solid: Set<(usize, usize)>,
    free: Seq<bool>,
    width: nat,
    height: nat,
    start: Position,
    goal: Position,
) -> Option<(Seq<Position>, u32)>;

/// The search result for `w`, from `start` to `goal`.
pub open spec fn search_result(w: World, start: Position, goal: Position) -> Option<
    (Seq<Position>, u32),
> {
    astar_result(
        grid_vertices(w.grid),
        w.free_cells(),
        w.width as nat,
        w.height as nat,
        start,
        goal,
    )
}

/// Relies on `pathfinding::directed::astar::astar`, searching with the step
/// rule of `Position::successors`: the search is deterministic; a result is a
/// path of successors from `start` to `goal` (both included) that holds no
/// cell twice, and there is none only when no such path exists.
#[verifier::external_body]
fn astar_search(world: &World, start: &Position, goal: &Position) -> (r: Option<
    (Vec<Position>, u32),
>)
    requires
        world.wf(),
        world.in_bounds(*goal),
    ensures
        r matches Some((p, c)) ==> astar_result(
            grid_vertices(world.grid),
            world.free_cells(),
            world.width as nat,
            world.height as nat,
            *start,
            *goal,
        ) == Some((p@, c)),
        r is None ==> astar_result(
            grid_vertices(world.grid),
            world.free_cells(),
            world.width as nat,
            world.height as nat,
            *start,
            *goal,
        ) is None,
        r matches Some((p, _)) ==> is_walk(*world, p@, *start, *goal) && p@.no_duplicates(),
        r is None ==> !reachable(*world, *start, *goal),
{
    astar(start, |p| p.successors(world), |p| p.distance(goal), |p| p.is_at(goal))
}

/// The cells of a path after its first, as a movement queue.
pub fn path_tail(path: &Vec<Position>) -> (r: VecDeque<Position>)
    requires
        path@.len() >= 1,
    ensures
        r@ == path@.drop_first(),
{
    let mut queue: VecDeque<Position> = VecDeque::new();
    let mut i: usize = 1;
    while i < path.len()
        invariant
            1 <= i <= path@.len(),
            queue@ == path@.subrange(1, i as int),
        decreases path@.len() - i,
    {
        queue.push_back(path[i]);
        i = i + 1;
    }
    queue
}

/// A walk that holds no cell twice has at most one step per cell of the
/// world: every cell after the start lies in the world.
pub proof fn lemma_walk_len(w: World, p: Seq<Position>, start: Position, goal: Position)
    requires
        w.wf(),
        is_walk(w, p, start, goal),
        p.no_duplicates(),
    ensures
        p.len() - 1 <= w.width * w.height,
{
    let tail = p.drop_first();
    let q = tail.map_values(|x: Position| w.index_of(x));
    assert forall|i: int| 0 <= i < tail.len() implies w.in_bounds(#[trigger] tail[i]) by {
        assert(step_at(w, p, i));
        assert(tail[i] == p[i + 1]);
    }
    assert(q.no_duplicates()) by {
        assert forall|i: int, j: int| 0 <= i < q.len() && 0 <= j < q.len() && i != j implies q[i]
            != q[j] by {
            let a = tail[i];
            let b = tail[j];
            assert(w.in_bounds(a) && w.in_bounds(b));
            assert(tail[i] == p[i + 1] && tail[j] == p[j + 1]);
            if q[i] == q[j] {
                lemma_cell_index_injective(w.width as nat, a.x as nat, a.y as nat, b.x as nat, b.y as nat);
                assert(a == b);
            }
        }
    }
    q.unique_seq_to_set();
    lemma_int_range(0, w.width * w.height);
    assert forall|v: int| q.to_set().contains(v) implies set_int_range(0, w.width * w.height).contains(
        v,
    ) by {
        let i = choose|i: int| 0 <= i < q.len() && q[i] == v;
        w.lemma_index_in_bounds(tail[i]);
    }
    lemma_len_subset(q.to_set(), set_int_range(0, w.width * w.height));
}

/// What `pawn_find_path` returns: the path of the search for a goal inside
/// the world (outside it, the start alone when the goal is the start, else
/// nothing), with its number of steps as cost.
pub open spec fn find_path_result(w: World, start: Position, goal: Position) -> Option<
    (Seq<Position>, u32),
> {
    if w.in_bounds(goal) {
        match search_result(w, start, goal) {
            Some((p, _)) => Some((p, (p.len() - 1) as u32)),
            None => None,
        }
    } else if start == goal {
        Some((seq![start], 0u32))
    } else {
        None
    }
}

/// A shortest-first search from `position` to `target` over the cells agents
/// may step onto, with the squared distance as heuristic. The path holds the
/// start as its first cell; the number is the search's cost.
pub fn pawn_find_path(position: Position, target: Position, world: &World) -> (r: Option<
    (Vec<Position>, u32),
>)
    requires
        world.wf(),
    ensures
        r is Some <==> reachable(*world, position, target),
        r matches Some((p, _)) ==> is_walk(*world, p@, position, target) && p@.no_duplicates(),
        r matches Some((p, c)) ==> c == p@.len() - 1,
        r matches Some((p, c)) ==> find_path_result(*world, position, target) == Some((p@, c)),
        r is None ==> find_path_result(*world, position, target) is None,
{
    if 0 <= target.x && (target.x as i64) < world.width as i64 && 0 <= target.y && (target.y as i64)
        < world.height as i64 {
        match astar_search(world, &position, &target) {
            Some((path, _)) => {
                proof {
                    lemma_walk_len(*world, path@, position, target);
                    world.lemma_area_fits();
                }
                let cost = (path.len() - 1) as u32;
                Some((path, cost))
            },
            None => None,
        }
    } else if position == target {
        let path = vec![position];
        assert(is_walk(*world, path@, position, target));
        assert(path@ =~= seq![position]);
        Some((path, 0))
    } else {
        proof {
            lemma_blocked_goal_unreachable(*world, position, target);
        }
        None
    }
}

/// The cell at offset `(dx, dy)` from `p`, when it lies in the world.
fn offset_in_world(world: &World, p: &Position, dx: i64, dy: i64) -> (r: Option<Position>)
    requires
        world.wf(),
        -1 <= dx <= 1,
        -1 <= dy <= 1,
    ensures
        r matches Some(q) ==> q.x == p.x + dx && q.y == p.y + dy && world.in_bounds(q),
        r is None ==> !(0 <= p.x + dx < world.width && 0 <= p.y + dy < world.height),
{
    let x: i64 = p.x as i64 + dx;
    let y: i64 = p.y as i64 + dy;
    if 0 <= x && x < world.width as i64 && 0 <= y && y < world.height as i64 {
        Some(Position { x: x as i32, y: y as i32 })
    } else {
        None
    }
}

/// The cells touching `target` that an agent may step onto.
pub open spec fn approach_cells(w: World, target: Position) -> Set<Position> {
    Set::new(|q: Position| adjacent(target, q) && w.passable(q))
}

/// Scan slot of the neighbour `q` of `target`: rows from `y - 1` to `y + 1`,
/// within a row from `x - 1` to `x + 1`, so `target` itself is slot 4.
pub open spec fn scan_slot(target: Position, q: Position) -> int {
    (q.y - target.y + 1) * 3 + (q.x - target.x + 1)
}

/// The cell in scan slot `k` around `target`.
pub open spec fn slot_cell(target: Position, k: int) -> Position {
    Position { x: (target.x + k % 3 - 1) as i32, y: (target.y + k / 3 - 1) as i32 }
}

/// The search result from `pos` to the neighbour of `target` in scan slot `k`,
/// with that neighbour, when the slot is not `target` itself and the neighbour
/// lies in the world, is free and can be reached.
pub open spec fn approach_candidate(w: World, pos: Position, target: Position, k: int) -> Option<
    (Seq<Position>, u32, Position),
> {
    let q = slot_cell(target, k);
    if k != 4 && 0 <= target.x + k % 3 - 1 < w.width && 0 <= target.y + k / 3 - 1 < w.height
        && w.passable(q) {
        match find_path_result(w, pos, q) {
            Some((p, c)) => Some((p, c, q)),
            None => None,
        }
    } else {
        None
    }
}

/// The best of the first `n` scan slots: the lowest search cost, the first
/// scanned among equals.
pub open spec fn best_approach_upto(w: World, pos: Position, target: Position, n: nat) -> Option<
    (Seq<Position>, u32, Position),
>
    decreases n,
{
    if n == 0 {
        None
    } else {
        let best = best_approach_upto(w, pos, target, (n - 1) as nat);
        match approach_candidate(w, pos, target, n - 1) {
            None => best,
            Some(c) => match best {
                None => Some(c),
                Some(b) => if c.1 < b.1 {
                    Some(c)
                } else {
                    best
                },
            },
        }
    }
}

/// The search result to the best free neighbour of `target`, and that
/// neighbour.
pub open spec fn best_approach(w: World, pos: Position, target: Position) -> Option<
    (Seq<Position>, u32, Position),
> {
    best_approach_upto(w, pos, target, 9)
}

/// A walk from `position` to a free cell touching `target`, for an agent that
/// must stand next to a tile rather than on it; the path leaves out the start.
/// The neighbours are scanned row by row from `y - 1` to `y + 1`, each row from
/// `x - 1` to `x + 1`; of those that can be reached, the one with the lowest
/// search cost is taken, the first scanned among equals.
pub fn find_best_path_to_target(position: &Position, target: &Position, world: &World) -> (r: Option<
    MoveTask,
>)
    requires
        world.wf(),
    ensures
        r matches Some(mt) ==> approach_cells(*world, *target).contains(mt.target) && is_walk(
            *world,
            seq![*position] + mt.path@,
            *position,
            mt.target,
        ),
        r matches Some(mt) ==> best_approach(*world, *position, *target) matches Some((p, _, q))
            && mt.target == q && mt.path@ == p.drop_first(),
        r is None ==> best_approach(*world, *position, *target) is None,
        r is None <==> forall|q: Position|
            #[trigger] approach_cells(*world, *target).contains(q) ==> !reachable(
                *world,
                *position,
                q,
            ),
{
    let mut best: Option<(Vec<Position>, u32, Position)> = None;
    let mut k: usize = 0;
    while k < 9
        invariant
            world.wf(),
            k <= 9,
            best matches Some((p, c, q)) ==> approach_cells(*world, *target).contains(q)
                && is_walk(*world, p@, *position, q) && best_approach_upto(
                *world,
                *position,
                *target,
                k as nat,
            ) == Some((p@, c, q)),
            best is None ==> best_approach_upto(*world, *position, *target, k as nat) is None,
            best is None ==> forall|q: Position|
                #[trigger] approach_cells(*world, *target).contains(q) && scan_slot(*target, q) < k
                    ==> !reachable(*world, *position, q),
        decreases 9 - k,
    {
        let dx: i64 = (k % 3) as i64 - 1;
        let dy: i64 = (k / 3) as i64 - 1;
        let ghost prev = best_approach_upto(*world, *position, *target, k as nat);
        assert(best_approach_upto(*world, *position, *target, (k + 1) as nat) == match approach_candidate(
            *world,
            *position,
            *target,
            k as int,
        ) {
            None => prev,
            Some(c) => match prev {
                None => Some(c),
                Some(b) => if c.1 < b.1 {
                    Some(c)
                } else {
                    prev
                },
            },
        });
        if k != 4 {
            match offset_in_world(world, target, dx, dy) {
                Some(cell) => {
                    assert(cell == slot_cell(*target, k as int));
                    let c: (usize, usize) = (cell.x as usize, cell.y as usize);
                    if !world.is_solid_tile(c) && world.get_entity(c).is_none() {
                        assert(approach_cells(*world, *target).contains(cell));
                        match pawn_find_path(*position, cell, world) {
                            Some((path, cost)) => {
                                let better = match &best {
                                    Some((_, best_cost, _)) => cost < *best_cost,
                                    None => true,
                                };
                                if better {
                                    best = Some((path, cost, cell));
                                }
                            },
                            None => {},
                        }
                    } else {
                        assert(!approach_cells(*world, *target).contains(cell));
                        assert(!world.passable(cell));
                    }
                },
                None => {
                    assert forall|q: Position|
                        scan_slot(*target, q) == k && adjacent(*target, q) implies !approach_cells(
                            *world,
                            *target,
                        ).contains(q) by {}
                },
            }
        } else {
            assert forall|q: Position|
                scan_slot(*target, q) == 4 && adjacent(*target, q) implies false by {}
        }
        k = k + 1;
    }
    assert forall|q: Position| #[trigger]
        approach_cells(*world, *target).contains(q) implies scan_slot(*target, q) < 9 by {}
    match best {
        Some((path, _, cell)) => {
            let queue = path_tail(&path);
            assert(seq![*position] + queue@ =~= path@);
            Some(MoveTask { path: queue, target: cell })
        },
        None => None,
    }
}

/// Moves an agent from `position` onto `target` when that cell is in the
/// world, not solid and free; says whether it moved.
pub fn move_pawn(
    target: (usize, usize),
    entity: AgentId,
    position: &mut Position,
    world: &mut World,
) -> (r: bool)
    requires
        old(world).wf(),
        old(world).in_bounds(*old(position)),
    ensures
        final(world).wf(),
        final(world).width == old(world).width,
        final(world).height == old(world).height,
        final(world).grid == old(world).grid,
        final(world).tiles == old(world).tiles,
        r == (target.0 < old(world).width && target.1 < old(world).height && old(world).passable(
            Position { x: target.0 as i32, y: target.1 as i32 },
        )),
        r ==> *final(position) == (Position { x: target.0 as i32, y: target.1 as i32 })
            && final(world).entities@ == old(world).entities@.update(
            old(world).index_of(*old(position)),
            None,
        ).update(
            old(world).index_of(*final(position)),
            Some(entity),
        ),
        !r ==> *final(position) == *old(position) && final(world).entities == old(world).entities,
{
    if target.0 < world.width && target.1 < world.height && !world.is_solid_tile(target)
        && world.get_entity(target).is_none() {
        world.set_entity((position.x as usize, position.y as usize), None);
        world.set_entity(target, Some(entity));
        position.x = target.0 as i32;
        position.y = target.1 as i32;
        true
    } else {
        false
    }
}

} // verus!
