use vstd::prelude::*;

use crate::path::{find_path_result, is_walk, pawn_find_path, path_tail, reachable};
use crate::position::Position;
use crate::resource::{PlayerResources, ResourceStat};
use crate::task::{MoveTask, Task, TaskQueue, TaskView};
use crate::work::{
    GlobalWork, GlobalWorkValidator, MineTileEvent, RegisterGlobalWorkEvent, RemoveGlobalWorkEvent,
};
use crate::worker::{filed, Worker};
use crate::work_id::{work_id_text, GlobalWorkID, MINE_WORK_IDENTIFIER};
use crate::world::{
    ResourceMaterial, cell_index, grid_vertices, lemma_cell_index_bound, lemma_cell_index_injective, material_index,
    TileData, TileState, World,
};

verus! {

/// Registers a job; workers file it themselves with `Worker::file_work`.
pub fn register_global_work_event(e: &RegisterGlobalWorkEvent, gw_validator: &mut GlobalWorkValidator)
    requires
        old(gw_validator).wf(),
    ensures
        final(gw_validator).wf(),
        final(gw_validator)@ == if old(gw_validator)@.contains_key(e.work.id.text()) {
            old(gw_validator)@
        } else {
            old(gw_validator)@.insert(e.work.id.text(), false)
        },
{
    gw_validator.push_work(&e.work);
}

/// Registers a job and files it with each worker, the `i`-th worker standing
/// at `positions[i]`.
pub fn register_and_file_work(
    e: &RegisterGlobalWorkEvent,
    gw_validator: &mut GlobalWorkValidator,
    workers: &mut Vec<Worker>,
    positions: &Vec<Position>,
    world: &World,
)
    requires
        old(gw_validator).wf(),
        world.wf(),
        old(workers)@.len() == positions@.len(),
        forall|i: int| 0 <= i < old(workers)@.len() ==> (#[trigger] old(workers)@[i]).wf(),
    ensures
        final(gw_validator).wf(),
        final(gw_validator)@ == if old(gw_validator)@.contains_key(e.work.id.text()) {
            old(gw_validator)@
        } else {
            old(gw_validator)@.insert(e.work.id.text(), false)
        },
        final(workers)@.len() == old(workers)@.len(),
        forall|i: int|
            0 <= i < old(workers)@.len() ==> (#[trigger] final(workers)@[i]).wf() && filed(
                old(workers)@[i],
                final(workers)@[i],
                positions@[i],
                e.work@,
                *world,
            ),
{
    let mut i: usize = 0;
    while i < workers.len()
        invariant
            world.wf(),
            i <= workers@.len(),
            workers@.len() == old(workers)@.len(),
            workers@.len() == positions@.len(),
            forall|j: int| 0 <= j < workers@.len() ==> (#[trigger] workers@[j]).wf(),
            forall|j: int| i <= j < workers@.len() ==> #[trigger] workers@[j] == old(workers)@[j],
            forall|j: int|
                0 <= j < i ==> #[trigger] filed(
                    old(workers)@[j],
                    workers@[j],
                    positions@[j],
                    e.work@,
                    *world,
                ),
        decreases workers@.len() - i,
    {
        let ghost ws0 = workers@;
        let mut w = workers.remove(i);
        w.file_work(&positions[i], &e.work, world);
        workers.insert(i, w);
        assert forall|j: int| 0 <= j < workers@.len() implies (#[trigger] workers@[j]) == if j
            == i {
            w
        } else {
            ws0[j]
        } by {}
        i = i + 1;
    }
    gw_validator.push_work(&e.work);
}

/// Cancels a job. Workers drop it from their lists when they next look at it.
pub fn remove_global_work_event(e: &RemoveGlobalWorkEvent, gw_validator: &mut GlobalWorkValidator)
    requires
        old(gw_validator).wf(),
    ensures
        final(gw_validator).wf(),
        final(gw_validator)@ == old(gw_validator)@.remove(e.id.text()),
{
    gw_validator.remove_work(&e.id);
}

/// Clears a mined tile: it is no longer solid nor marked, and the player gains
/// one unit of its material.
pub fn mine_tile(world: &mut World, resources: &mut PlayerResources, target: Position)
    requires
        old(world).wf(),
        old(world).in_bounds(target),
        old(resources).wf(),
    ensures
        final(world).wf(),
        final(world).width == old(world).width,
        final(world).height == old(world).height,
        final(world).entities == old(world).entities,
        grid_vertices(final(world).grid) == grid_vertices(old(world).grid).remove(
            (target.x as usize, target.y as usize),
        ),
        final(world).tiles@ == old(world).tiles@.update(
            old(world).index_of(target),
            TileData { state: TileState::Empty, marked: false, ..old(world).tile(target) },
        ),
        final(resources).wf(),
        final(resources).resources@ == old(resources).resources@.update(
            material_index(old(world).tile(target).resource.material) as int,
            ResourceStat {
                material: old(world).tile(target).resource.material,
                quantity: if old(resources).quantity_of(old(world).tile(target).resource.material)
                    < usize::MAX {
                    (old(resources).quantity_of(old(world).tile(target).resource.material)
                        + 1) as usize
                } else {
                    usize::MAX
                },
            },
        ),
{
    let cell: (usize, usize) = (target.x as usize, target.y as usize);
    let mut tile = world.get_tile(cell);
    tile.state = TileState::Empty;
    tile.marked = false;
    world.set_tile(cell, tile);
    resources.add_one(tile.resource.material);
    proof {
        world.lemma_area_fits();
    }
    world.grid.remove_vertex(cell);
}

/// A mined tile: empty and no longer marked, with its resource kept.
pub open spec fn cleared(t: TileData) -> TileData {
    TileData { state: TileState::Empty, marked: false, ..t }
}

/// One of the first `n` events is on the cell of index `i` in `w`.
pub open spec fn mined_cell(w: World, events: Seq<MineTileEvent>, n: int, i: int) -> bool {
    exists|j: int| 0 <= j < n && w.index_of((#[trigger] events[j]).0) == i
}

/// Number of events on tiles of material `m` in `w`.
pub open spec fn mined_count(w: World, events: Seq<MineTileEvent>, m: ResourceMaterial) -> nat
    decreases events.len(),
{
    if events.len() == 0 {
        0
    } else {
        mined_count(w, events.drop_last(), m) + if w.tile(events.last().0).resource.material == m {
            1nat
        } else {
            0nat
        }
    }
}

/// `a + b`, or `usize::MAX` when that is larger.
pub open spec fn saturating_sum(a: nat, b: nat) -> nat {
    if a + b <= usize::MAX {
        a + b
    } else {
        usize::MAX as nat
    }
}

/// Applies the mined tiles of one turn, in order, and returns their positions
/// (the mine order markers to take down). Each mined tile becomes empty and
/// unmarked, and the player gains one unit of its material per event; other
/// tiles do not change.
pub fn mine_tile_event(
    world: &mut World,
    resources: &mut PlayerResources,
    events: &Vec<MineTileEvent>,
) -> (r: Vec<Position>)
    requires
        old(world).wf(),
        old(resources).wf(),
        forall|i: int| 0 <= i < events@.len() ==> old(world).in_bounds((#[trigger] events@[i]).0),
    ensures
        final(world).wf(),
        final(resources).wf(),
        final(world).width == old(world).width,
        final(world).height == old(world).height,
        final(world).entities == old(world).entities,
        r@.len() == events@.len(),
        forall|i: int| 0 <= i < events@.len() ==> r@[i] == (#[trigger] events@[i]).0,
        forall|i: int|
            0 <= i < events@.len() ==> !grid_vertices(final(world).grid).contains(
                ((#[trigger] events@[i]).0.x as usize, events@[i].0.y as usize),
            ) && final(world).tile(events@[i].0).state == TileState::Empty,
        forall|v: (usize, usize)|
            grid_vertices(final(world).grid).contains(v) <==> grid_vertices(
                old(world).grid,
            ).contains(v) && !exists|i: int|
                0 <= i < events@.len() && #[trigger] events@[i].0 == (Position {
                    x: v.0 as i32,
                    y: v.1 as i32,
                }) && v.0 < old(world).width && v.1 < old(world).height,
        final(world).tiles@.len() == old(world).tiles@.len(),
        forall|i: int|
            0 <= i < old(world).tiles@.len() ==> (#[trigger] final(world).tiles@[i]) == if mined_cell(
                *old(world),
                events@,
                events@.len() as int,
                i,
            ) {
                cleared(old(world).tiles@[i])
            } else {
                old(world).tiles@[i]
            },
        forall|m: ResourceMaterial|
            #[trigger] final(resources).quantity_of(m) == saturating_sum(
                old(resources).quantity_of(m),
                mined_count(*old(world), events@, m),
            ),
{
    let mut targets: Vec<Position> = Vec::new();
    let mut i: usize = 0;
    while i < events.len()
        invariant
            i <= events@.len(),
            old(world).wf(),
            world.wf(),
            resources.wf(),
            world.width == old(world).width,
            world.height == old(world).height,
            world.entities == old(world).entities,
            forall|j: int| 0 <= j < events@.len() ==> old(world).in_bounds((#[trigger] events@[j]).0),
            targets@.len() == i,
            forall|j: int| 0 <= j < i ==> targets@[j] == (#[trigger] events@[j]).0,
            forall|j: int|
                0 <= j < i ==> !grid_vertices(world.grid).contains(
                    ((#[trigger] events@[j]).0.x as usize, events@[j].0.y as usize),
                ) && world.tile(events@[j].0).state == TileState::Empty,
            forall|v: (usize, usize)|
                grid_vertices(world.grid).contains(v) <==> grid_vertices(old(world).grid).contains(v)
                    && !exists|j: int|
                    0 <= j < i && #[trigger] events@[j].0 == (Position {
                        x: v.0 as i32,
                        y: v.1 as i32,
                    }) && v.0 < old(world).width && v.1 < old(world).height,
            world.tiles@.len() == old(world).tiles@.len(),
            forall|t: int|
                0 <= t < old(world).tiles@.len() ==> (#[trigger] world.tiles@[t]) == if mined_cell(
                    *old(world),
                    events@,
                    i as int,
                    t,
                ) {
                    cleared(old(world).tiles@[t])
                } else {
                    old(world).tiles@[t]
                },
            forall|m: ResourceMaterial|
                #[trigger] resources.quantity_of(m) == saturating_sum(
                    old(resources).quantity_of(m),
                    mined_count(*old(world), events@.subrange(0, i as int), m),
                ),
        decreases events@.len() - i,
    {
        let target = events[i].0;
        let ghost w0 = *world;
        let ghost r0 = *resources;
        mine_tile(world, resources, target);
        proof {
            old(world).lemma_index_in_bounds(target);
            let ti = old(world).index_of(target);
            assert(w0.index_of(target) == ti);
            assert(w0.tiles@[ti].resource == old(world).tiles@[ti].resource);
            let mat = old(world).tile(target).resource.material;
            assert forall|t: int| 0 <= t < old(world).tiles@.len() implies (#[trigger] world.tiles@[t])
                == if mined_cell(*old(world), events@, i + 1, t) {
                cleared(old(world).tiles@[t])
            } else {
                old(world).tiles@[t]
            } by {
                if t == ti {
                    assert(old(world).index_of(events@[i as int].0) == t);
                } else {
                    assert(world.tiles@[t] == w0.tiles@[t]);
                    if mined_cell(*old(world), events@, i + 1, t) {
                        let j = choose|j: int|
                            0 <= j < i + 1 && old(world).index_of((#[trigger] events@[j]).0) == t;
                        assert(j != i);
                        assert(mined_cell(*old(world), events@, i as int, t));
                    }
                    if mined_cell(*old(world), events@, i as int, t) {
                        let j = choose|j: int|
                            0 <= j < i && old(world).index_of((#[trigger] events@[j]).0) == t;
                        assert(mined_cell(*old(world), events@, i + 1, t));
                    }
                }
            }
            let sub = events@.subrange(0, i + 1);
            assert(sub.drop_last() =~= events@.subrange(0, i as int));
            assert(sub.last() == events@[i as int]);
            assert forall|m: ResourceMaterial| #[trigger] resources.quantity_of(m) == saturating_sum(
                old(resources).quantity_of(m),
                mined_count(*old(world), events@.subrange(0, i + 1), m),
            ) by {
                assert(r0.quantity_of(m) == saturating_sum(
                    old(resources).quantity_of(m),
                    mined_count(*old(world), events@.subrange(0, i as int), m),
                ));
                if m != mat {
                    assert(material_index(m) != material_index(mat));
                }
            }
        }
        proof {
            assert forall|j: int| 0 <= j < i + 1 implies !grid_vertices(world.grid).contains(
                ((#[trigger] events@[j]).0.x as usize, events@[j].0.y as usize),
            ) && world.tile(events@[j].0).state == TileState::Empty by {
                let p = events@[j].0;
                w0.lemma_index_in_bounds(p);
                w0.lemma_index_in_bounds(target);
                if w0.index_of(p) == w0.index_of(target) {
                    lemma_cell_index_injective(
                        w0.width as nat,
                        p.x as nat,
                        p.y as nat,
                        target.x as nat,
                        target.y as nat,
                    );
                    assert(p == target);
                }
            }
            assert forall|v: (usize, usize)|
                grid_vertices(world.grid).contains(v) <==> grid_vertices(old(world).grid).contains(v)
                    && !exists|j: int|
                    0 <= j < i + 1 && #[trigger] events@[j].0 == (Position {
                        x: v.0 as i32,
                        y: v.1 as i32,
                    }) && v.0 < old(world).width && v.1 < old(world).height by {
                if v == (target.x as usize, target.y as usize) {
                    assert(events@[i as int].0 == (Position { x: v.0 as i32, y: v.1 as i32 }));
                }
                if exists|j: int|
                    0 <= j < i + 1 && #[trigger] events@[j].0 == (Position {
                        x: v.0 as i32,
                        y: v.1 as i32,
                    }) && v.0 < old(world).width && v.1 < old(world).height {
                    let j = choose|j: int|
                        0 <= j < i + 1 && #[trigger] events@[j].0 == (Position {
                            x: v.0 as i32,
                            y: v.1 as i32,
                        }) && v.0 < old(world).width && v.1 < old(world).height;
                    if j == i {
                        assert(v == (target.x as usize, target.y as usize));
                    }
                }
            }
        }
        targets.push(target);
        i = i + 1;
    }
    assert(events@.subrange(0, events@.len() as int) =~= events@);
    targets
}

/// A move order given to an agent: the new walk goes to the front of its queue
/// and replaces its active task; the rest of the queue stays. An active mining
/// task gives its claim back. When `target` cannot be reached, only the active
/// task is dropped.
pub fn move_order(
    task_queue: &mut TaskQueue,
    position: &Position,
    target: Position,
    world: &World,
    gw_validator: &mut GlobalWorkValidator,
)
    requires
        world.wf(),
        old(gw_validator).wf(),
    ensures
        final(gw_validator).wf(),
        final(task_queue).active is Idle,
        old(task_queue).active@ matches TaskView::Mine { id, .. } ==> final(gw_validator)@ == if old(
            gw_validator,
        )@.contains_key(id) {
            old(gw_validator)@.insert(id, false)
        } else {
            old(gw_validator)@
        },
        !(old(task_queue).active@ is Mine) ==> final(gw_validator)@ == old(gw_validator)@,
        reachable(*world, *position, target) ==> final(task_queue).queue@.len() == old(
            task_queue,
        ).queue@.len() + 1 && final(task_queue).queue@.drop_first() == old(task_queue).queue@ && (
        final(task_queue).queue@[0]@ matches TaskView::Move { path: p, target: t } && t == target
            && is_walk(*world, seq![*position] + p, *position, target)),
        reachable(*world, *position, target) ==> (find_path_result(*world, *position, target) matches Some(
            (p, _),
        ) && final(task_queue).queue@[0]@ == (TaskView::Move { path: p.drop_first(), target })),
        !reachable(*world, *position, target) ==> final(task_queue).queue@ == old(
            task_queue,
        ).queue@,
{
    let mut active = Task::Idle;
    std::mem::swap(&mut active, &mut task_queue.active);
    proof {
        assert(old(task_queue).active == active);
    }
    match &active {
        Task::Mine((_, id)) => {
            gw_validator.set_occupied(id, false);
        },
        _ => {},
    }
    match pawn_find_path(*position, target, world) {
        Some((path, _)) => {
            let tail = path_tail(&path);
            assert(seq![*position] + tail@ =~= path@);
            task_queue.queue.push_front(Task::Move(MoveTask { path: tail, target }));
            assert(task_queue.queue@.drop_first() =~= old(task_queue).queue@);
        },
        None => {},
    }
}

/// The job of mining the tile at `p`.
pub fn mine_work(p: Position) -> (r: GlobalWork)
    ensures
        r.position == p,
        r.id.text() == work_id_text(MINE_WORK_IDENTIFIER@, p),
        r.task@ == (TaskView::Mine { target: p, id: work_id_text(MINE_WORK_IDENTIFIER@, p) }),
{
    let id = GlobalWorkID::new(MINE_WORK_IDENTIFIER, &p);
    let task_id = id.clone();
    GlobalWork::new(Task::Mine((p, task_id)), id, p)
}

/// Some job of `jobs` is at the cell `c`.
pub open spec fn has_job_at(jobs: Seq<GlobalWork>, c: (usize, usize)) -> bool {
    exists|i: int|
        0 <= i < jobs.len() && (#[trigger] jobs[i]).position == (Position {
            x: c.0 as i32,
            y: c.1 as i32,
        })
}

/// Some identifier of `ids` names the mining job at the cell `c`.
pub open spec fn has_id_for(ids: Seq<GlobalWorkID>, c: (usize, usize)) -> bool {
    exists|i: int|
        0 <= i < ids.len() && (#[trigger] ids[i]).text() == work_id_text(
            MINE_WORK_IDENTIFIER@,
            Position { x: c.0 as i32, y: c.1 as i32 },
        )
}

/// The tile of an in-bounds cell was marked before the call.
pub open spec fn was_marked(w: World, c: (usize, usize)) -> bool {
    w.tiles@[cell_index(w.width as nat, c.0 as nat, c.1 as nat) as int].marked
}

/// A tile with the mining mark set.
pub open spec fn marked_tile(t: TileData) -> TileData {
    TileData { marked: true, ..t }
}

/// `c` is a solid cell inside `w`.
pub open spec fn solid_cell(w: World, c: (usize, usize)) -> bool {
    c.0 < w.width && c.1 < w.height && grid_vertices(w.grid).contains(c)
}

/// The tile of index `t` of `w` is unmarked and one of the first `n` cells of
/// `positions` is solid and on it: a mine order over `positions` marks it.
pub open spec fn newly_marked(w: World, positions: Seq<(usize, usize)>, n: int, t: int) -> bool {
    &&& !w.tiles@[t].marked
    &&& exists|k: int|
        0 <= k < n && solid_cell(w, #[trigger] positions[k]) && cell_index(
            w.width as nat,
            positions[k].0 as nat,
            positions[k].1 as nat,
        ) == t
}

proof fn lemma_newly_marked_step(w: World, positions: Seq<(usize, usize)>, k: int, t: int)
    requires
        0 <= k < positions.len(),
    ensures
        newly_marked(w, positions, k + 1, t) == (newly_marked(w, positions, k, t) || (
        !w.tiles@[t].marked && solid_cell(w, positions[k]) && cell_index(
            w.width as nat,
            positions[k].0 as nat,
            positions[k].1 as nat,
        ) == t)),
{
    if newly_marked(w, positions, k + 1, t) {
        let j = choose|j: int|
            0 <= j < k + 1 && solid_cell(w, #[trigger] positions[j]) && cell_index(
                w.width as nat,
                positions[j].0 as nat,
                positions[j].1 as nat,
            ) == t;
        if j < k {
            assert(newly_marked(w, positions, k, t));
        }
    }
    if newly_marked(w, positions, k, t) {
        let j = choose|j: int|
            0 <= j < k && solid_cell(w, #[trigger] positions[j]) && cell_index(
                w.width as nat,
                positions[j].0 as nat,
                positions[j].1 as nat,
            ) == t;
        assert(newly_marked(w, positions, k + 1, t));
    }
    if !w.tiles@[t].marked && solid_cell(w, positions[k]) && cell_index(
        w.width as nat,
        positions[k].0 as nat,
        positions[k].1 as nat,
    ) == t {
        assert(newly_marked(w, positions, k + 1, t));
    }
}

/// Marks for mining the solid, unmarked tiles among `positions` that lie in
/// the world, and returns one mining job per newly marked tile: a mining task
/// on the tile under its own identifier. Already marked tiles get no job, and
/// no other tile changes.
pub fn mine_order(world: &mut World, positions: &Vec<(usize, usize)>) -> (r: Vec<GlobalWork>)
    requires
        old(world).wf(),
    ensures
        final(world).wf(),
        final(world).width == old(world).width,
        final(world).height == old(world).height,
        final(world).grid == old(world).grid,
        final(world).entities == old(world).entities,
        forall|i: int|
            0 <= i < r@.len() ==> grid_vertices(old(world).grid).contains(
                ((#[trigger] r@[i]).position.x as usize, r@[i].position.y as usize),
            ) && final(world).tile(r@[i].position).marked && r@[i].id.text() == work_id_text(
                MINE_WORK_IDENTIFIER@,
                r@[i].position,
            ) && old(world).in_bounds(r@[i].position),
        forall|k: int|
            0 <= k < positions@.len() && (#[trigger] positions@[k]).0 < old(world).width
                && positions@[k].1 < old(world).height ==> final(world).tiles@[cell_index(
                old(world).width as nat,
                positions@[k].0 as nat,
                positions@[k].1 as nat,
            ) as int].marked || !grid_vertices(old(world).grid).contains(positions@[k]),
        forall|k: int|
            0 <= k < positions@.len() && (#[trigger] positions@[k]).0 < old(world).width
                && positions@[k].1 < old(world).height && grid_vertices(old(world).grid).contains(
                positions@[k],
            ) && !was_marked(*old(world), positions@[k]) ==> has_job_at(r@, positions@[k]),
        final(world).tiles@.len() == old(world).tiles@.len(),
        forall|t: int|
            0 <= t < old(world).tiles@.len() ==> (#[trigger] final(world).tiles@[t]) == if newly_marked(
                *old(world),
                positions@,
                positions@.len() as int,
                t,
            ) {
                marked_tile(old(world).tiles@[t])
            } else {
                old(world).tiles@[t]
            },
        forall|i: int| 0 <= i < r@.len() ==> !old(world).tile((#[trigger] r@[i]).position).marked,
        forall|i: int|
            0 <= i < r@.len() ==> (#[trigger] r@[i]).task@ == (TaskView::Mine {
                target: r@[i].position,
                id: r@[i].id.text(),
            }),
        forall|i: int, j: int|
            0 <= i < r@.len() && 0 <= j < r@.len() && i != j ==> (#[trigger] r@[i]).position
                != (#[trigger] r@[j]).position,
{
    let mut jobs: Vec<GlobalWork> = Vec::new();
    let mut k: usize = 0;
    while k < positions.len()
        invariant
            k <= positions@.len(),
            world.wf(),
            world.width == old(world).width,
            world.height == old(world).height,
            world.grid == old(world).grid,
            world.entities == old(world).entities,
            forall|i: int|
                0 <= i < world.tiles@.len() && old(world).tiles@[i].marked ==> (#[trigger] world.tiles@[i]).marked,
            forall|i: int|
                0 <= i < jobs@.len() ==> grid_vertices(old(world).grid).contains(
                    ((#[trigger] jobs@[i]).position.x as usize, jobs@[i].position.y as usize),
                ) && world.tile(jobs@[i].position).marked && jobs@[i].id.text() == work_id_text(
                    MINE_WORK_IDENTIFIER@,
                    jobs@[i].position,
                ) && old(world).in_bounds(jobs@[i].position),
            forall|j: int|
                0 <= j < k && (#[trigger] positions@[j]).0 < old(world).width && positions@[j].1
                    < old(world).height ==> world.tiles@[cell_index(
                    old(world).width as nat,
                    positions@[j].0 as nat,
                    positions@[j].1 as nat,
                ) as int].marked || !grid_vertices(old(world).grid).contains(positions@[j]),
            forall|j: int|
                0 <= j < k && (#[trigger] positions@[j]).0 < old(world).width && positions@[j].1
                    < old(world).height && grid_vertices(old(world).grid).contains(positions@[j])
                    && !was_marked(*old(world), positions@[j]) ==> has_job_at(jobs@, positions@[j]),
            forall|c: (usize, usize)|
                c.0 < old(world).width && c.1 < old(world).height && #[trigger] was_marked(
                    *world,
                    c,
                ) && !was_marked(*old(world), c) ==> has_job_at(jobs@, c),
            old(world).wf(),
            world.tiles@.len() == old(world).tiles@.len(),
            forall|t: int|
                0 <= t < old(world).tiles@.len() ==> (#[trigger] world.tiles@[t]) == if newly_marked(
                    *old(world),
                    positions@,
                    k as int,
                    t,
                ) {
                    marked_tile(old(world).tiles@[t])
                } else {
                    old(world).tiles@[t]
                },
            forall|i: int|
                0 <= i < jobs@.len() ==> !old(world).tile((#[trigger] jobs@[i]).position).marked,
            forall|i: int|
                0 <= i < jobs@.len() ==> (#[trigger] jobs@[i]).task@ == (TaskView::Mine {
                    target: jobs@[i].position,
                    id: jobs@[i].id.text(),
                }),
            forall|i: int, j: int|
                0 <= i < jobs@.len() && 0 <= j < jobs@.len() && i != j ==> (
                #[trigger] jobs@[i]).position != (#[trigger] jobs@[j]).position,
        decreases positions@.len() - k,
    {
        let cell = positions[k];
        let ghost jobs_before = jobs@;
        let ghost wk = *world;
        if cell.0 < world.width && cell.1 < world.height && world.is_solid_tile(cell) {
            let mut tile = world.get_tile(cell);
            if !tile.marked {
                let ghost w0 = *world;
                proof {
                    lemma_cell_index_bound(w0.width as nat, w0.height as nat, cell.0 as nat, cell.1 as nat);
                }
                let ghost idx = cell_index(world.width as nat, cell.0 as nat, cell.1 as nat) as int;
                tile.marked = true;
                world.set_tile(cell, tile);
                let p = Position { x: cell.0 as i32, y: cell.1 as i32 };
                assert(world.index_of(p) == idx);
                assert(world.tiles@[idx].marked);
                let work = mine_work(p);
                let ghost jobs0 = jobs@;
                jobs.push(work);
                assert forall|i: int| 0 <= i < jobs@.len() implies world.tile(
                    (#[trigger] jobs@[i]).position,
                ).marked by {
                    if i < jobs0.len() {
                        assert(jobs@[i] == jobs0[i]);
                        assert(w0.tile(jobs0[i].position).marked);
                        w0.lemma_index_in_bounds(jobs0[i].position);
                    }
                }
                assert forall|c: (usize, usize)|
                    c.0 < old(world).width && c.1 < old(world).height && #[trigger] was_marked(
                        *world,
                        c,
                    ) && !was_marked(*old(world), c) implies has_job_at(jobs@, c) by {
                    if c == cell {
                        assert(jobs@[jobs0.len() as int].position == (Position {
                            x: c.0 as i32,
                            y: c.1 as i32,
                        }));
                    } else {
                        lemma_cell_index_bound(w0.width as nat, w0.height as nat, c.0 as nat, c.1 as nat);
                        if cell_index(w0.width as nat, c.0 as nat, c.1 as nat) == cell_index(
                            w0.width as nat,
                            cell.0 as nat,
                            cell.1 as nat,
                        ) {
                            lemma_cell_index_injective(
                                w0.width as nat,
                                c.0 as nat,
                                c.1 as nat,
                                cell.0 as nat,
                                cell.1 as nat,
                            );
                        }
                        assert(was_marked(w0, c));
                        let i = choose|i: int|
                            0 <= i < jobs0.len() && (#[trigger] jobs0[i]).position == (Position {
                                x: c.0 as i32,
                                y: c.1 as i32,
                            });
                        assert(jobs@[i] == jobs0[i]);
                    }
                }
            }
        }
        proof {
            assert forall|j: int|
                0 <= j < k + 1 && (#[trigger] positions@[j]).0 < old(world).width && positions@[j].1
                    < old(world).height && grid_vertices(old(world).grid).contains(positions@[j])
                    && !was_marked(*old(world), positions@[j]) implies has_job_at(
                jobs@,
                positions@[j],
            ) by {
                if j < k {
                    let i = choose|i: int|
                        0 <= i < jobs_before.len() && (#[trigger] jobs_before[i]).position == (
                        Position { x: positions@[j].0 as i32, y: positions@[j].1 as i32 });
                    assert(jobs@[i] == jobs_before[i]);
                } else {
                    lemma_cell_index_bound(
                        old(world).width as nat,
                        old(world).height as nat,
                        cell.0 as nat,
                        cell.1 as nat,
                    );
                    assert(positions@[j] == cell);
                    if jobs@.len() > jobs_before.len() {
                        assert(jobs@[jobs_before.len() as int].position == (Position {
                            x: cell.0 as i32,
                            y: cell.1 as i32,
                        }));
                    } else {
                        assert(was_marked(*world, cell));
                    }
                }
            }
            assert forall|j: int|
                0 <= j < k + 1 && (#[trigger] positions@[j]).0 < old(world).width && positions@[j].1
                    < old(world).height implies world.tiles@[cell_index(
                    old(world).width as nat,
                    positions@[j].0 as nat,
                    positions@[j].1 as nat,
                ) as int].marked || !grid_vertices(old(world).grid).contains(positions@[j]) by {
                lemma_cell_index_bound(
                    old(world).width as nat,
                    old(world).height as nat,
                    positions@[j].0 as nat,
                    positions@[j].1 as nat,
                );
            }
        }
        proof {
            let w = *old(world);
            let inb = cell.0 < w.width && cell.1 < w.height;
            if inb {
                lemma_cell_index_bound(w.width as nat, w.height as nat, cell.0 as nat, cell.1 as nat);
            }
            let ci = cell_index(w.width as nat, cell.0 as nat, cell.1 as nat) as int;
            assert(positions@[k as int] == cell);
            assert forall|t: int| 0 <= t < w.tiles@.len() implies (#[trigger] world.tiles@[t])
                == if newly_marked(w, positions@, k + 1, t) {
                marked_tile(w.tiles@[t])
            } else {
                w.tiles@[t]
            } by {
                lemma_newly_marked_step(w, positions@, k as int, t);
                assert(wk.tiles@[t] == if newly_marked(w, positions@, k as int, t) {
                    marked_tile(w.tiles@[t])
                } else {
                    w.tiles@[t]
                });
            }
            if jobs@.len() > jobs_before.len() {
                let p = jobs@[jobs_before.len() as int].position;
                assert(p == Position { x: cell.0 as i32, y: cell.1 as i32 });
                assert(w.index_of(p) == ci);
                assert(!wk.tiles@[ci].marked);
                assert forall|i: int, j: int|
                    0 <= i < jobs@.len() && 0 <= j < jobs@.len() && i != j implies (
                    #[trigger] jobs@[i]).position != (#[trigger] jobs@[j]).position by {
                    if i < jobs_before.len() && j < jobs_before.len() {
                        assert(jobs@[i] == jobs_before[i]);
                        assert(jobs@[j] == jobs_before[j]);
                    } else if i < jobs_before.len() {
                        assert(jobs@[i] == jobs_before[i]);
                        assert(wk.tile(jobs_before[i].position).marked);
                    } else {
                        assert(jobs@[j] == jobs_before[j]);
                        assert(wk.tile(jobs_before[j].position).marked);
                    }
                }
                assert forall|i: int|
                    0 <= i < jobs@.len() implies !w.tile((#[trigger] jobs@[i]).position).marked by {
                    if i < jobs_before.len() {
                        assert(jobs@[i] == jobs_before[i]);
                    }
                }
            } else {
                assert(jobs@ =~= jobs_before);
            }
        }
        k = k + 1;
    }
    jobs
}

/// A tile with the mining mark taken off.
pub open spec fn unmarked_tile(t: TileData) -> TileData {
    TileData { marked: false, ..t }
}

/// The tile of index `t` of `w` is marked and one of the first `n` cells of
/// `positions` lies in the world on it: cancelling over `positions` unmarks it.
pub open spec fn newly_unmarked(w: World, positions: Seq<(usize, usize)>, n: int, t: int) -> bool {
    &&& w.tiles@[t].marked
    &&& exists|k: int|
        0 <= k < n && (#[trigger] positions[k]).0 < w.width && positions[k].1 < w.height
            && cell_index(w.width as nat, positions[k].0 as nat, positions[k].1 as nat) == t
}

proof fn lemma_newly_unmarked_step(w: World, positions: Seq<(usize, usize)>, k: int, t: int)
    requires
        0 <= k < positions.len(),
    ensures
        newly_unmarked(w, positions, k + 1, t) == (newly_unmarked(w, positions, k, t) || (
        w.tiles@[t].marked && positions[k].0 < w.width && positions[k].1 < w.height && cell_index(
            w.width as nat,
            positions[k].0 as nat,
            positions[k].1 as nat,
        ) == t)),
{
    if newly_unmarked(w, positions, k + 1, t) {
        let j = choose|j: int|
            0 <= j < k + 1 && (#[trigger] positions[j]).0 < w.width && positions[j].1 < w.height
                && cell_index(w.width as nat, positions[j].0 as nat, positions[j].1 as nat) == t;
        if j < k {
            assert(newly_unmarked(w, positions, k, t));
        }
    }
    if newly_unmarked(w, positions, k, t) {
        let j = choose|j: int|
            0 <= j < k && (#[trigger] positions[j]).0 < w.width && positions[j].1 < w.height
                && cell_index(w.width as nat, positions[j].0 as nat, positions[j].1 as nat) == t;
        assert(newly_unmarked(w, positions, k + 1, t));
    }
    if w.tiles@[t].marked && positions[k].0 < w.width && positions[k].1 < w.height && cell_index(
        w.width as nat,
        positions[k].0 as nat,
        positions[k].1 as nat,
    ) == t {
        assert(newly_unmarked(w, positions, k + 1, t));
    }
}

/// `id` names the mining job of one of `positions`.
pub open spec fn mine_id_among(id: Seq<char>, positions: Seq<(usize, usize)>) -> bool {
    exists|k: int|
        0 <= k < positions.len() && id == work_id_text(
            MINE_WORK_IDENTIFIER@,
            Position { x: (#[trigger] positions[k]).0 as i32, y: positions[k].1 as i32 },
        )
}

/// Takes the mining mark off the marked tiles among `positions` that lie in
/// the world, and returns the jobs to cancel, one per unmarked tile, in order.
pub fn cancel_mine_order(world: &mut World, positions: &Vec<(usize, usize)>) -> (r: Vec<
    GlobalWorkID,
>)
    requires
        old(world).wf(),
    ensures
        final(world).wf(),
        final(world).width == old(world).width,
        final(world).height == old(world).height,
        final(world).grid == old(world).grid,
        final(world).entities == old(world).entities,
        forall|k: int|
            0 <= k < positions@.len() && (#[trigger] positions@[k]).0 < old(world).width
                && positions@[k].1 < old(world).height ==> !final(world).tiles@[cell_index(
                old(world).width as nat,
                positions@[k].0 as nat,
                positions@[k].1 as nat,
            ) as int].marked,
        forall|i: int| 0 <= i < r@.len() ==> mine_id_among((#[trigger] r@[i]).text(), positions@),
        final(world).tiles@.len() == old(world).tiles@.len(),
        forall|t: int|
            0 <= t < old(world).tiles@.len() ==> (#[trigger] final(world).tiles@[t]) == if newly_unmarked(
                *old(world),
                positions@,
                positions@.len() as int,
                t,
            ) {
                unmarked_tile(old(world).tiles@[t])
            } else {
                old(world).tiles@[t]
            },
        forall|k: int|
            0 <= k < positions@.len() && (#[trigger] positions@[k]).0 < old(world).width
                && positions@[k].1 < old(world).height && was_marked(*old(world), positions@[k])
                ==> has_id_for(r@, positions@[k]),
{
    let mut ids: Vec<GlobalWorkID> = Vec::new();
    let mut k: usize = 0;
    while k < positions.len()
        invariant
            k <= positions@.len(),
            world.wf(),
            world.width == old(world).width,
            world.height == old(world).height,
            world.grid == old(world).grid,
            world.entities == old(world).entities,
            forall|i: int|
                0 <= i < world.tiles@.len() && !old(world).tiles@[i].marked ==> !(#[trigger] world.tiles@[i]).marked,
            forall|j: int|
                0 <= j < k && (#[trigger] positions@[j]).0 < old(world).width && positions@[j].1
                    < old(world).height ==> !world.tiles@[cell_index(
                    old(world).width as nat,
                    positions@[j].0 as nat,
                    positions@[j].1 as nat,
                ) as int].marked,
            forall|i: int|
                0 <= i < ids@.len() ==> mine_id_among((#[trigger] ids@[i]).text(), positions@),
            old(world).wf(),
            world.tiles@.len() == old(world).tiles@.len(),
            forall|t: int|
                0 <= t < old(world).tiles@.len() ==> (#[trigger] world.tiles@[t]) == if newly_unmarked(
                    *old(world),
                    positions@,
                    k as int,
                    t,
                ) {
                    unmarked_tile(old(world).tiles@[t])
                } else {
                    old(world).tiles@[t]
                },
            forall|j: int|
                0 <= j < k && (#[trigger] positions@[j]).0 < old(world).width && positions@[j].1
                    < old(world).height && was_marked(*old(world), positions@[j]) ==> has_id_for(
                    ids@,
                    positions@[j],
                ),
            forall|c: (usize, usize)|
                c.0 < old(world).width && c.1 < old(world).height && !#[trigger] was_marked(
                    *world,
                    c,
                ) && was_marked(*old(world), c) ==> has_id_for(ids@, c),
        decreases positions@.len() - k,
    {
        let cell = positions[k];
        let ghost ids_before = ids@;
        let ghost wk = *world;
        if cell.0 < world.width && cell.1 < world.height {
            let mut tile = world.get_tile(cell);
            let ghost world_before = *world;
            if tile.marked {
                tile.marked = false;
                world.set_tile(cell, tile);
                let p = Position { x: cell.0 as i32, y: cell.1 as i32 };
                let ghost ids0 = ids@;
                ids.push(GlobalWorkID::new(MINE_WORK_IDENTIFIER, &p));
                assert forall|i: int| 0 <= i < ids@.len() implies mine_id_among(
                    (#[trigger] ids@[i]).text(),
                    positions@,
                ) by {
                    if i < ids0.len() {
                        assert(ids@[i] == ids0[i]);
                    } else {
                        assert(positions@[k as int] == cell);
                    }
                }
                let ghost w0 = world_before;
                assert forall|c: (usize, usize)|
                    c.0 < old(world).width && c.1 < old(world).height && !#[trigger] was_marked(
                        *world,
                        c,
                    ) && was_marked(*old(world), c) implies has_id_for(ids@, c) by {
                    if c == cell {
                        assert(ids@[ids0.len() as int].text() == work_id_text(
                            MINE_WORK_IDENTIFIER@,
                            Position { x: c.0 as i32, y: c.1 as i32 },
                        ));
                    } else {
                        lemma_cell_index_bound(w0.width as nat, w0.height as nat, c.0 as nat, c.1 as nat);
                        lemma_cell_index_bound(w0.width as nat, w0.height as nat, cell.0 as nat, cell.1 as nat);
                        if cell_index(w0.width as nat, c.0 as nat, c.1 as nat) == cell_index(
                            w0.width as nat,
                            cell.0 as nat,
                            cell.1 as nat,
                        ) {
                            lemma_cell_index_injective(
                                w0.width as nat,
                                c.0 as nat,
                                c.1 as nat,
                                cell.0 as nat,
                                cell.1 as nat,
                            );
                        }
                        assert(!was_marked(w0, c));
                        let i = choose|i: int|
                            0 <= i < ids0.len() && (#[trigger] ids0[i]).text() == work_id_text(
                                MINE_WORK_IDENTIFIER@,
                                Position { x: c.0 as i32, y: c.1 as i32 },
                            );
                        assert(ids@[i] == ids0[i]);
                    }
                }
            }
        }
        proof {
            assert forall|j: int|
                0 <= j < k + 1 && (#[trigger] positions@[j]).0 < old(world).width && positions@[j].1
                    < old(world).height && was_marked(*old(world), positions@[j]) implies has_id_for(
                ids@,
                positions@[j],
            ) by {
                if j < k {
                    let i = choose|i: int|
                        0 <= i < ids_before.len() && (#[trigger] ids_before[i]).text() == work_id_text(
                            MINE_WORK_IDENTIFIER@,
                            Position { x: positions@[j].0 as i32, y: positions@[j].1 as i32 },
                        );
                    assert(ids@[i] == ids_before[i]);
                } else {
                    assert(positions@[j] == cell);
                    lemma_cell_index_bound(
                        old(world).width as nat,
                        old(world).height as nat,
                        cell.0 as nat,
                        cell.1 as nat,
                    );
                    if ids@.len() > ids_before.len() {
                        assert(ids@[ids_before.len() as int].text() == work_id_text(
                            MINE_WORK_IDENTIFIER@,
                            Position { x: cell.0 as i32, y: cell.1 as i32 },
                        ));
                    } else {
                        assert(!was_marked(*world, cell));
                    }
                }
            }
            assert forall|j: int|
                0 <= j < k + 1 && (#[trigger] positions@[j]).0 < old(world).width && positions@[j].1
                    < old(world).height implies !world.tiles@[cell_index(
                    old(world).width as nat,
                    positions@[j].0 as nat,
                    positions@[j].1 as nat,
                ) as int].marked by {
                lemma_cell_index_bound(
                    old(world).width as nat,
                    old(world).height as nat,
                    positions@[j].0 as nat,
                    positions@[j].1 as nat,
                );
            }
        }
        proof {
            let w = *old(world);
            if cell.0 < w.width && cell.1 < w.height {
                lemma_cell_index_bound(w.width as nat, w.height as nat, cell.0 as nat, cell.1 as nat);
            }
            assert(positions@[k as int] == cell);
            assert forall|t: int| 0 <= t < w.tiles@.len() implies (#[trigger] world.tiles@[t])
                == if newly_unmarked(w, positions@, k + 1, t) {
                unmarked_tile(w.tiles@[t])
            } else {
                w.tiles@[t]
            } by {
                lemma_newly_unmarked_step(w, positions@, k as int, t);
                assert(wk.tiles@[t] == if newly_unmarked(w, positions@, k as int, t) {
                    unmarked_tile(w.tiles@[t])
                } else {
                    w.tiles@[t]
                });
            }
        }
        k = k + 1;
    }
    ids
}

/// The cells of a snapped selection: `size.x` by `size.y` cells from
/// `origin`, row by row, leaving out those with a negative coordinate.
pub fn selection_cells(origin: Position, size: Position) -> (r: Vec<(usize, usize)>)
    ensures
        forall|c: (usize, usize)|
            r@.contains(c) <==> (origin.x <= c.0 < origin.x + size.x && origin.y <= c.1
                < origin.y + size.y),
{
    let mut out: Vec<(usize, usize)> = Vec::new();
    let mut y: i64 = 0;
    while y < size.y as i64
        invariant
            0 <= y,
            y <= size.y || y == 0,
            forall|c: (usize, usize)|
                out@.contains(c) <==> (origin.x <= c.0 < origin.x + size.x && origin.y <= c.1
                    < origin.y + y),
        decreases size.y - y,
    {
        let mut x: i64 = 0;
        while x < size.x as i64
            invariant
                0 <= y < size.y,
                0 <= x,
                x <= size.x || x == 0,
                forall|c: (usize, usize)|
                    out@.contains(c) <==> ((origin.x <= c.0 < origin.x + size.x && origin.y <= c.1
                        < origin.y + y) || (c.1 == origin.y + y && origin.x <= c.0 < origin.x + x)),
            decreases size.x - x,
        {
            let cx: i64 = origin.x as i64 + x;
            let cy: i64 = origin.y as i64 + y;
            let ghost before = out@;
            if cx >= 0 && cy >= 0 {
                let cell: (usize, usize) = (cx as usize, cy as usize);
                out.push(cell);
                assert forall|c: (usize, usize)|
                    out@.contains(c) <==> ((origin.x <= c.0 < origin.x + size.x && origin.y <= c.1
                        < origin.y + y) || (c.1 == origin.y + y && origin.x <= c.0 < origin.x + x
                        + 1)) by {
                    if out@.contains(c) && c != cell {
                        let k = choose|k: int| 0 <= k < out@.len() && out@[k] == c;
                        assert(before[k] == c);
                        assert(before.contains(c));
                    }
                    if before.contains(c) {
                        let k = choose|k: int| 0 <= k < before.len() && before[k] == c;
                        assert(out@[k] == c);
                    }
                    if c == cell {
                        assert(out@[before.len() as int] == c);
                    }
                    if c.1 == origin.y + y && c.0 == origin.x + x {
                        assert(c == cell);
                    }
                }
            } else {
                assert forall|c: (usize, usize)|
                    out@.contains(c) <==> ((origin.x <= c.0 < origin.x + size.x && origin.y <= c.1
                        < origin.y + y) || (c.1 == origin.y + y && origin.x <= c.0 < origin.x + x
                        + 1)) by {
                    assert(before.contains(c) == out@.contains(c));
                }
            }
            x = x + 1;
        }
        y = y + 1;
    }
    out
}

} // verus!
