use vstd::prelude::*;

use crate::path::{approach_cells, best_approach, find_best_path_to_target, is_walk, reachable};
use crate::position::{dist_sq, Position};
use crate::task::{Task, TaskQueue, TaskView};
use crate::work::{GlobalWork, GlobalWorkValidator, GlobalWorkView};
use crate::work_id::GlobalWorkID;
use crate::world::World;

verus! {

/// Number of unreachable jobs that a worker rechecks on one turn.
pub const MAX_WORK_RECHECK_COUNT: usize = 20;

/// Above this many reachable jobs a worker does not recheck the others.
pub const MAX_ACCESSIBLE_WORK_TRESHOLD: usize = 300;

/// The jobs of a list, as values.
pub open spec fn works_view(v: Seq<GlobalWork>) -> Seq<GlobalWorkView> {
    v.map_values(|w: GlobalWork| w@)
}

/// The jobs of `ws` that satisfy `f`, in order.
pub open spec fn select(ws: Seq<GlobalWorkView>, f: spec_fn(GlobalWorkView) -> bool) -> Seq<
    GlobalWorkView,
>
    decreases ws.len(),
{
    if ws.len() == 0 {
        Seq::empty()
    } else {
        let rest = select(ws.drop_last(), f);
        if f(ws.last()) {
            rest.push(ws.last())
        } else {
            rest
        }
    }
}

/// No two jobs of `ws` share an identifier.
pub open spec fn ids_unique(ws: Seq<GlobalWorkView>) -> bool {
    forall|i: int, j: int|
        0 <= i < ws.len() && 0 <= j < ws.len() && i != j ==> (#[trigger] ws[i]).id != (
        #[trigger] ws[j]).id
}

/// No job of `a` shares an identifier with a job of `b`.
pub open spec fn ids_disjoint(a: Seq<GlobalWorkView>, b: Seq<GlobalWorkView>) -> bool {
    forall|i: int, j: int|
        0 <= i < a.len() && 0 <= j < b.len() ==> (#[trigger] a[i]).id != (#[trigger] b[j]).id
}

/// Some job of `ws` has the identifier `id`.
pub open spec fn holds_id(ws: Seq<GlobalWorkView>, id: Seq<char>) -> bool {
    exists|i: int| 0 <= i < ws.len() && (#[trigger] ws[i]).id == id
}

/// Every job of `s` is a job of `ws`.
pub open spec fn drawn_from(s: Seq<GlobalWorkView>, ws: Seq<GlobalWorkView>) -> bool {
    forall|i: int| 0 <= i < s.len() ==> exists|j: int| 0 <= j < ws.len() && #[trigger] s[i] == ws[j]
}

/// What `select` keeps is drawn from its input, satisfies the filter, and
/// keeps identifiers unique.
pub proof fn lemma_select_from(ws: Seq<GlobalWorkView>, f: spec_fn(GlobalWorkView) -> bool)
    ensures
        forall|i: int|
            0 <= i < select(ws, f).len() ==> f(#[trigger] select(ws, f)[i]) && exists|j: int|
                0 <= j < ws.len() && select(ws, f)[i] == ws[j],
        ids_unique(ws) ==> ids_unique(select(ws, f)),
    decreases ws.len(),
{
    if ws.len() > 0 {
        let rest = select(ws.drop_last(), f);
        lemma_select_from(ws.drop_last(), f);
        assert forall|i: int|
            0 <= i < select(ws, f).len() implies f(#[trigger] select(ws, f)[i]) && exists|j: int|
                0 <= j < ws.len() && select(ws, f)[i] == ws[j] by {
            if i < rest.len() {
                assert(select(ws, f)[i] == rest[i]);
                let j = choose|j: int| 0 <= j < ws.drop_last().len() && rest[i] == ws.drop_last()[j];
                assert(ws[j] == ws.drop_last()[j]);
            } else {
                assert(select(ws, f)[i] == ws[ws.len() - 1]);
            }
        }
        if ids_unique(ws) {
            assert(ids_unique(ws.drop_last())) by {
                assert forall|i: int, j: int|
                    0 <= i < ws.drop_last().len() && 0 <= j < ws.drop_last().len() && i != j
                        implies (#[trigger] ws.drop_last()[i]).id != (
                    #[trigger] ws.drop_last()[j]).id by {
                    assert(ws.drop_last()[i] == ws[i]);
                    assert(ws.drop_last()[j] == ws[j]);
                }
            }
            if f(ws.last()) {
                assert forall|i: int, j: int|
                    0 <= i < select(ws, f).len() && 0 <= j < select(ws, f).len() && i != j
                        implies (#[trigger] select(ws, f)[i]).id != (#[trigger] select(ws, f)[j]).id by {
                    if i < rest.len() && j < rest.len() {
                        assert(select(ws, f)[i] == rest[i]);
                        assert(select(ws, f)[j] == rest[j]);
                    } else if i < rest.len() {
                        assert(select(ws, f)[i] == rest[i]);
                        let k = choose|k: int|
                            0 <= k < ws.drop_last().len() && rest[i] == ws.drop_last()[k];
                        assert(ws[k] == ws.drop_last()[k]);
                        assert(select(ws, f)[j] == ws[ws.len() - 1]);
                    } else {
                        assert(select(ws, f)[j] == rest[j]);
                        let k = choose|k: int|
                            0 <= k < ws.drop_last().len() && rest[j] == ws.drop_last()[k];
                        assert(ws[k] == ws.drop_last()[k]);
                        assert(select(ws, f)[i] == ws[ws.len() - 1]);
                    }
                }
            }
        }
    }
}

/// The jobs of `ws` that are still registered.
pub open spec fn live_works(ws: Seq<GlobalWorkView>, reg: Map<Seq<char>, bool>) -> Seq<
    GlobalWorkView,
> {
    select(ws, |w: GlobalWorkView| reg.contains_key(w.id))
}

/// A registered job that nobody has claimed.
pub open spec fn is_free(reg: Map<Seq<char>, bool>, w: GlobalWorkView) -> bool {
    reg.contains_key(w.id) && !reg[w.id]
}

/// Among the first `n` jobs of `ws`, the `i`-th is a free one nearest to `p`,
/// and the first such.
pub open spec fn is_nearest_free_in(
    ws: Seq<GlobalWorkView>,
    reg: Map<Seq<char>, bool>,
    p: Position,
    i: int,
    n: int,
) -> bool {
    &&& 0 <= i < n <= ws.len()
    &&& is_free(reg, ws[i])
    &&& forall|j: int|
        0 <= j < n && is_free(reg, #[trigger] ws[j]) ==> dist_sq(p, ws[i].position) <= dist_sq(
            p,
            ws[j].position,
        )
    &&& forall|j: int|
        0 <= j < i && is_free(reg, #[trigger] ws[j]) ==> dist_sq(p, ws[i].position) < dist_sq(
            p,
            ws[j].position,
        )
}

pub open spec fn is_nearest_free(
    ws: Seq<GlobalWorkView>,
    reg: Map<Seq<char>, bool>,
    p: Position,
    i: int,
) -> bool {
    is_nearest_free_in(ws, reg, p, i, ws.len() as int)
}

/// A worker at `p` can reach a free cell next to `target`.
pub open spec fn job_reachable(w: World, p: Position, target: Position) -> bool {
    exists|q: Position| #[trigger] approach_cells(w, target).contains(q) && reachable(w, p, q)
}

/// The squared distance between a worker and a job.
pub fn distance_to_work(position: &Position, work: &GlobalWork) -> (r: u128)
    ensures
        r == dist_sq(*position, work.position),
{
    let dx: i128 = work.position.x as i128 - position.x as i128;
    let dy: i128 = work.position.y as i128 - position.y as i128;
    assert(0 <= dx * dx <= 0x1_0000_0000_0000_0000) by (nonlinear_arith)
        requires
            -0x1_0000_0000 <= dx <= 0x1_0000_0000,
    ;
    assert(0 <= dy * dy <= 0x1_0000_0000_0000_0000) by (nonlinear_arith)
        requires
            -0x1_0000_0000 <= dy <= 0x1_0000_0000,
    ;
    assert(dist_sq(*position, work.position) == dx * dx + dy * dy) by (nonlinear_arith)
        requires
            dx == work.position.x - position.x,
            dy == work.position.y - position.y,
    ;
    (dx * dx + dy * dy) as u128
}

/// What a worker knows of the jobs: those it can reach, those it could not,
/// and where the next recheck of the latter starts.
pub struct Worker {
    pub accessible: Vec<GlobalWork>,
    pub inaccessible: Vec<GlobalWork>,
    /// Where the next recheck of the unreachable jobs starts.
    pub iterator: usize,
}

/// `after` is `before` with `work` filed from `position`: unchanged when the
/// job is already known, else appended to the reachable or the unreachable
/// jobs.
pub open spec fn filed(before: Worker, after: Worker, position: Position, work: GlobalWorkView, w: World) -> bool {
    &&& after.iterator == before.iterator
    &&& before.knows(work.id) ==> after.accessible == before.accessible && after.inaccessible
        == before.inaccessible
    &&& !before.knows(work.id) && job_reachable(w, position, work.position) ==> works_view(
        after.accessible@,
    ) == works_view(before.accessible@).push(work) && after.inaccessible == before.inaccessible
    &&& !before.knows(work.id) && !job_reachable(w, position, work.position) ==> works_view(
        after.inaccessible@,
    ) == works_view(before.inaccessible@).push(work) && after.accessible == before.accessible
}

impl Worker {
    /// Each job is known once: no identifier twice in a list, none in both.
    pub open spec fn wf(&self) -> bool {
        &&& ids_unique(works_view(self.accessible@))
        &&& ids_unique(works_view(self.inaccessible@))
        &&& ids_disjoint(works_view(self.accessible@), works_view(self.inaccessible@))
    }

    /// Whether the worker already knows a job of identifier `id`.
    pub open spec fn knows(&self, id: Seq<char>) -> bool {
        holds_id(works_view(self.accessible@), id) || holds_id(works_view(self.inaccessible@), id)
    }

    /// A worker that knows no job.
    pub fn new() -> (r: Self)
        ensures
            r.wf(),
            r.accessible@.len() == 0,
            r.inaccessible@.len() == 0,
            r.iterator == 0,
    {
        Worker { accessible: Vec::new(), inaccessible: Vec::new(), iterator: 0 }
    }

    /// Files a newly registered job under the reachable or the unreachable
    /// jobs, as seen from `position`. A job the worker already knows, by its
    /// identifier, is not filed twice.
    pub fn file_work(&mut self, position: &Position, work: &GlobalWork, world: &World)
        requires
            world.wf(),
            old(self).wf(),
        ensures
            final(self).wf(),
            filed(*old(self), *final(self), *position, work@, *world),
            final(self).iterator == old(self).iterator,
            old(self).knows(work.id.text()) ==> final(self).accessible == old(self).accessible
                && final(self).inaccessible == old(self).inaccessible,
            !old(self).knows(work.id.text()) && job_reachable(*world, *position, work.position) ==> works_view(
                final(self).accessible@,
            ) == works_view(old(self).accessible@).push(work@) && final(self).inaccessible
                == old(self).inaccessible,
            !old(self).knows(work.id.text()) && !job_reachable(*world, *position, work.position)
                ==> works_view(final(self).inaccessible@,
            ) == works_view(old(self).inaccessible@).push(work@) && final(self).accessible
                == old(self).accessible,
    {
        if holds_work(&self.accessible, &work.id) || holds_work(&self.inaccessible, &work.id) {
            return;
        }
        let ghost acc0 = works_view(self.accessible@);
        let ghost ina0 = works_view(self.inaccessible@);
        let found = find_best_path_to_target(position, &work.position, world);
        if found.is_some() {
            let c = work.clone();
            self.accessible.push(c);
            assert(works_view(self.accessible@) =~= acc0.push(work@));
            let ghost acc = works_view(self.accessible@);
            assert forall|i: int, j: int|
                0 <= i < acc.len() && 0 <= j < acc.len() && i != j implies (#[trigger] acc[i]).id != (
                #[trigger] acc[j]).id by {
                if i < acc0.len() && j < acc0.len() {
                    assert(acc[i] == acc0[i] && acc[j] == acc0[j]);
                } else if i < acc0.len() {
                    assert(acc[i] == acc0[i]);
                } else {
                    assert(acc[j] == acc0[j]);
                }
            }
            assert forall|i: int, j: int|
                0 <= i < acc.len() && 0 <= j < ina0.len() implies (#[trigger] acc[i]).id != (
                #[trigger] ina0[j]).id by {
                if i < acc0.len() {
                    assert(acc[i] == acc0[i]);
                }
            }
        } else {
            let c = work.clone();
            self.inaccessible.push(c);
            assert(works_view(self.inaccessible@) =~= ina0.push(work@));
            let ghost ina = works_view(self.inaccessible@);
            assert forall|i: int, j: int|
                0 <= i < ina.len() && 0 <= j < ina.len() && i != j implies (#[trigger] ina[i]).id != (
                #[trigger] ina[j]).id by {
                if i < ina0.len() && j < ina0.len() {
                    assert(ina[i] == ina0[i] && ina[j] == ina0[j]);
                } else if i < ina0.len() {
                    assert(ina[i] == ina0[i]);
                } else {
                    assert(ina[j] == ina0[j]);
                }
            }
            assert forall|i: int, j: int|
                0 <= i < acc0.len() && 0 <= j < ina.len() implies (#[trigger] acc0[i]).id != (
                #[trigger] ina[j]).id by {
                if j < ina0.len() {
                    assert(ina[j] == ina0[j]);
                }
            }
        }
    }
}

/// Whether some job of `v` has the identifier `id`.
fn holds_work(v: &Vec<GlobalWork>, id: &GlobalWorkID) -> (r: bool)
    ensures
        r == holds_id(works_view(v@), id.text()),
{
    let mut i: usize = 0;
    while i < v.len()
        invariant
            i <= v@.len(),
            forall|j: int| 0 <= j < i ==> (#[trigger] works_view(v@)[j]).id != id.text(),
        decreases v@.len() - i,
    {
        if v[i].id == *id {
            assert(works_view(v@)[i as int].id == id.text());
            return true;
        }
        i = i + 1;
    }
    false
}

/// The jobs of `v` that are registered in `reg`, cloned in order.
fn keep_live(v: &Vec<GlobalWork>, reg: &GlobalWorkValidator) -> (r: Vec<GlobalWork>)
    requires
        reg.wf(),
    ensures
        works_view(r@) == live_works(works_view(v@), reg@),
{
    let mut out: Vec<GlobalWork> = Vec::new();
    let mut i: usize = 0;
    while i < v.len()
        invariant
            reg.wf(),
            i <= v@.len(),
            works_view(out@) == live_works(works_view(v@).subrange(0, i as int), reg@),
        decreases v@.len() - i,
    {
        let ghost before = works_view(out@);
        proof {
            assert(works_view(v@).subrange(0, i + 1).drop_last() =~= works_view(v@).subrange(
                0,
                i as int,
            ));
        }
        if reg.validate(&v[i].id).is_some() {
            out.push(v[i].clone());
            assert(works_view(out@) =~= before.push(v@[i as int]@));
        }
        i = i + 1;
    }
    assert(works_view(v@).subrange(0, v@.len() as int) =~= works_view(v@));
    out
}

/// One worker's turn of looking for a job. An idle worker with nothing queued
/// takes, among its reachable jobs that are registered and unclaimed, the one
/// nearest to it (the first among equals); when it can reach a free cell next
/// to that job, it queues a walk there and then the job's task, and claims the
/// job. Jobs that are no longer registered leave its list.
pub fn worker_behaviour(
    position: &Position,
    tq: &mut TaskQueue,
    worker: &mut Worker,
    gw_validator: &mut GlobalWorkValidator,
    world: &World,
)
    requires
        world.wf(),
        old(gw_validator).wf(),
        old(worker).wf(),
    ensures
        final(gw_validator).wf(),
        final(worker).wf(),
        claim_step(old(gw_validator)@, final(gw_validator)@),
        final(worker).inaccessible == old(worker).inaccessible,
        final(worker).iterator == old(worker).iterator,
        !(old(tq).active is Idle && old(tq).queue@.len() == 0) ==> *final(tq) == *old(tq)
            && final(worker).accessible == old(worker).accessible && final(gw_validator)@ == old(
            gw_validator,
        )@,
        old(tq).active is Idle && old(tq).queue@.len() == 0 ==> {
            let ws = works_view(old(worker).accessible@);
            let reg = old(gw_validator)@;
            &&& works_view(final(worker).accessible@) == live_works(ws, reg)
            &&& (forall|i: int| 0 <= i < ws.len() ==> !is_free(reg, #[trigger] ws[i])) ==> (
            *final(tq) == *old(tq) && final(gw_validator)@ == reg)
            &&& forall|i: int| #[trigger]
                is_nearest_free(ws, reg, *position, i) ==> if job_reachable(
                    *world,
                    *position,
                    ws[i].position,
                ) {
                    &&& final(gw_validator)@ == reg.insert(ws[i].id, true)
                    &&& final(tq).active is Idle
                    &&& final(tq).queue@.len() == 2
                    &&& final(tq).queue@[0]@ matches TaskView::Move { path, target } && approach_cells(
                        *world,
                        ws[i].position,
                    ).contains(target) && is_walk(
                        *world,
                        seq![*position] + path,
                        *position,
                        target,
                    )
                    &&& best_approach(*world, *position, ws[i].position) matches Some((p, _, q))
                        && final(tq).queue@[0]@ == (TaskView::Move { path: p.drop_first(), target: q })
                    &&& final(tq).queue@[1]@ == ws[i].task
                } else {
                    *final(tq) == *old(tq) && final(gw_validator)@ == reg
                }
        },
{
    let idle = match tq.active {
        Task::Idle => true,
        _ => false,
    };
    if !idle || tq.queue.len() != 0 {
        return;
    }
    let ghost ws = works_view(worker.accessible@);
    let ghost reg = gw_validator@;
    let mut best: Option<usize> = None;
    let mut close: u128 = 0;
    let mut i: usize = 0;
    while i < worker.accessible.len()
        invariant
            gw_validator.wf(),
            gw_validator@ == reg,
            ws == works_view(worker.accessible@),
            i <= ws.len(),
            best matches Some(b) ==> is_nearest_free_in(ws, reg, *position, b as int, i as int)
                && close == dist_sq(*position, ws[b as int].position),
            best is None ==> forall|j: int| 0 <= j < i ==> !is_free(reg, #[trigger] ws[j]),
        decreases ws.len() - i,
    {
        let work = &worker.accessible[i];
        assert(ws[i as int] == work@);
        match gw_validator.validate(&work.id) {
            Some(false) => {
                let d = distance_to_work(position, work);
                let better = match best {
                    Some(_) => d < close,
                    None => true,
                };
                if better {
                    best = Some(i);
                    close = d;
                }
            },
            _ => {},
        }
        i = i + 1;
    }
    assert(works_view(worker.accessible@).len() == worker.accessible@.len());
    let chosen: Option<GlobalWork> = match best {
        Some(b) => Some(worker.accessible[b].clone()),
        None => None,
    };
    worker.accessible = keep_live(&worker.accessible, gw_validator);
    proof {
        let f = |w: GlobalWorkView| reg.contains_key(w.id);
        lemma_select_from(ws, f);
        let acc = works_view(worker.accessible@);
        let ina = works_view(worker.inaccessible@);
        assert(acc == select(ws, f));
        assert forall|i: int, j: int|
            0 <= i < acc.len() && 0 <= j < ina.len() implies (#[trigger] acc[i]).id != (
            #[trigger] ina[j]).id by {
            let k = choose|k: int| 0 <= k < ws.len() && select(ws, f)[i] == ws[k];
        }
    }
    match chosen {
        Some(work) => {
            proof {
                let b = best->Some_0 as int;
                assert forall|k: int| #[trigger]
                    is_nearest_free(ws, reg, *position, k) implies k == b by {
                    if k < b {
                        assert(dist_sq(*position, ws[b].position) <= dist_sq(*position, ws[k].position));
                    } else if k > b {
                        assert(dist_sq(*position, ws[k].position) <= dist_sq(*position, ws[b].position));
                    }
                }
            }
            match find_best_path_to_target(position, &work.position, world) {
                Some(mt) => {
                    tq.queue.push_back(Task::Move(mt));
                    tq.queue.push_back(work.task.clone());
                    gw_validator.set_occupied(&work.id, true);
                },
                None => {},
            }
        },
        None => {},
    }
}

/// Number of unreachable jobs examined on one recheck that starts at `cursor`
/// in a list of `len` jobs.
pub open spec fn recheck_count(cursor: int, len: int) -> int {
    if cursor >= len {
        0
    } else if len - cursor < MAX_WORK_RECHECK_COUNT {
        len - cursor
    } else {
        MAX_WORK_RECHECK_COUNT as int
    }
}

/// A registered job that a worker at `p` still cannot reach.
pub open spec fn stays_unreachable(w: World, p: Position, reg: Map<Seq<char>, bool>) -> spec_fn(
    GlobalWorkView,
) -> bool {
    |v: GlobalWorkView| reg.contains_key(v.id) && !job_reachable(w, p, v.position)
}

/// A registered job that a worker at `p` can now reach.
pub open spec fn became_reachable(w: World, p: Position, reg: Map<Seq<char>, bool>) -> spec_fn(
    GlobalWorkView,
) -> bool {
    |v: GlobalWorkView| reg.contains_key(v.id) && job_reachable(w, p, v.position)
}

/// Selecting from jobs that all qualify keeps them all.
pub proof fn lemma_select_all(ws: Seq<GlobalWorkView>, f: spec_fn(GlobalWorkView) -> bool)
    requires
        forall|i: int| 0 <= i < ws.len() ==> f(#[trigger] ws[i]),
    ensures
        select(ws, f) == ws,
    decreases ws.len(),
{
    if ws.len() > 0 {
        lemma_select_all(ws.drop_last(), f);
        assert(f(ws[ws.len() - 1]));
        assert(ws.drop_last().push(ws.last()) =~= ws);
    }
}

/// Clones `v[from..to]` onto the end of `out`.
fn append_range(out: &mut Vec<GlobalWork>, v: &Vec<GlobalWork>, from: usize, to: usize)
    requires
        from <= to <= v@.len(),
    ensures
        works_view(final(out)@) == works_view(old(out)@) + works_view(v@).subrange(
            from as int,
            to as int,
        ),
{
    let mut j: usize = from;
    while j < to
        invariant
            from <= j <= to <= v@.len(),
            works_view(out@) == works_view(old(out)@) + works_view(v@).subrange(
                from as int,
                j as int,
            ),
        decreases to - j,
    {
        let c = v[j].clone();
        let ghost before = works_view(out@);
        out.push(c);
        assert(works_view(out@) =~= before.push(v@[j as int]@));
        assert(works_view(v@).subrange(from as int, j + 1) =~= works_view(v@).subrange(
            from as int,
            j as int,
        ).push(v@[j as int]@));
        j = j + 1;
    }
}

/// The identifier of the `i`-th job of `ws[..c] + select(ws[c..c + k], f) +
/// ws[c + k..]` is that of some job of `ws`, found in the same part.
proof fn lemma_spliced_origin(
    ws: Seq<GlobalWorkView>,
    c: int,
    k: int,
    f: spec_fn(GlobalWorkView) -> bool,
    i: int,
) -> (m: int)
    requires
        0 <= c <= c + k <= ws.len(),
        0 <= i < ws.subrange(0, c).len() + select(ws.subrange(c, c + k), f).len() + ws.subrange(
            c + k,
            ws.len() as int,
        ).len(),
    ensures
        0 <= m < ws.len(),
        (ws.subrange(0, c) + select(ws.subrange(c, c + k), f) + ws.subrange(c + k, ws.len() as int))[i]
            == ws[m],
        i < c ==> m == i,
        c <= i < c + select(ws.subrange(c, c + k), f).len() ==> c <= m < c + k && f(ws[m]),
        i >= c + select(ws.subrange(c, c + k), f).len() ==> m >= c + k && m == i - select(
            ws.subrange(c, c + k),
            f,
        ).len() + k,
{
    let win = ws.subrange(c, c + k);
    let sel = select(win, f);
    lemma_select_from(win, f);
    let all = ws.subrange(0, c) + sel + ws.subrange(c + k, ws.len() as int);
    if i < c {
        i
    } else if i < c + sel.len() {
        assert(all[i] == sel[i - c]);
        let j = choose|j: int| 0 <= j < win.len() && sel[i - c] == win[j];
        assert(f(sel[i - c]));
        c + j
    } else {
        assert(all[i] == ws.subrange(c + k, ws.len() as int)[i - c - sel.len()]);
        i - sel.len() + k
    }
}

/// A recheck keeps each job known once: the rest of the unreachable list and
/// the jobs kept from the window stay apart, and the promoted jobs join the
/// reachable ones without repeating an identifier.
proof fn lemma_recheck_keeps_wf(
    acc: Seq<GlobalWorkView>,
    ws: Seq<GlobalWorkView>,
    c: int,
    k: int,
    still: spec_fn(GlobalWorkView) -> bool,
    now: spec_fn(GlobalWorkView) -> bool,
)
    requires
        ids_unique(acc),
        ids_unique(ws),
        ids_disjoint(acc, ws),
        0 <= c <= c + k <= ws.len(),
        forall|x: GlobalWorkView| !(#[trigger] still(x) && now(x)),
    ensures
        ids_unique(
            ws.subrange(0, c) + select(ws.subrange(c, c + k), still) + ws.subrange(
                c + k,
                ws.len() as int,
            ),
        ),
        ids_unique(acc + select(ws.subrange(c, c + k), now)),
        ids_disjoint(
            acc + select(ws.subrange(c, c + k), now),
            ws.subrange(0, c) + select(ws.subrange(c, c + k), still) + ws.subrange(
                c + k,
                ws.len() as int,
            ),
        ),
{
    let win = ws.subrange(c, c + k);
    let kept = select(win, still);
    let moved = select(win, now);
    let rest = ws.subrange(0, c) + kept + ws.subrange(c + k, ws.len() as int);
    let grown = acc + moved;
    lemma_select_from(win, still);
    lemma_select_from(win, now);
    assert(ids_unique(win)) by {
        assert forall|i: int, j: int|
            0 <= i < win.len() && 0 <= j < win.len() && i != j implies (#[trigger] win[i]).id != (
            #[trigger] win[j]).id by {
            assert(win[i] == ws[c + i] && win[j] == ws[c + j]);
        }
    }
    assert forall|i: int, j: int|
        0 <= i < rest.len() && 0 <= j < rest.len() && i != j implies (#[trigger] rest[i]).id != (
        #[trigger] rest[j]).id by {
        let mi = lemma_spliced_origin(ws, c, k, still, i);
        let mj = lemma_spliced_origin(ws, c, k, still, j);
        if c <= i < c + kept.len() && c <= j < c + kept.len() {
            assert(rest[i] == kept[i - c] && rest[j] == kept[j - c]);
        } else {
            assert(mi != mj);
        }
    }
    // Each promoted job is a job of the window.
    assert forall|i: int| 0 <= i < moved.len() implies exists|m: int|
        c <= m < c + k && #[trigger] moved[i] == ws[m] && now(ws[m]) by {
        let j = choose|j: int| 0 <= j < win.len() && moved[i] == win[j];
        assert(win[j] == ws[c + j]);
    }
    assert forall|i: int, j: int|
        0 <= i < grown.len() && 0 <= j < grown.len() && i != j implies (#[trigger] grown[i]).id != (
        #[trigger] grown[j]).id by {
        if i < acc.len() && j < acc.len() {
            assert(grown[i] == acc[i] && grown[j] == acc[j]);
        } else if i >= acc.len() && j >= acc.len() {
            assert(grown[i] == moved[i - acc.len()] && grown[j] == moved[j - acc.len()]);
        } else if i < acc.len() {
            assert(grown[i] == acc[i] && grown[j] == moved[j - acc.len()]);
            let m = choose|m: int| c <= m < c + k && moved[j - acc.len()] == ws[m] && now(ws[m]);
        } else {
            assert(grown[j] == acc[j] && grown[i] == moved[i - acc.len()]);
            let m = choose|m: int| c <= m < c + k && moved[i - acc.len()] == ws[m] && now(ws[m]);
        }
    }
    assert forall|i: int, j: int|
        0 <= i < grown.len() && 0 <= j < rest.len() implies (#[trigger] grown[i]).id != (
        #[trigger] rest[j]).id by {
        let mj = lemma_spliced_origin(ws, c, k, still, j);
        if i < acc.len() {
            assert(grown[i] == acc[i]);
        } else {
            assert(grown[i] == moved[i - acc.len()]);
            let m = choose|m: int| c <= m < c + k && moved[i - acc.len()] == ws[m] && now(ws[m]);
            if m == mj {
                assert(still(ws[mj]));
                assert(!(still(ws[m]) && now(ws[m])));
            }
        }
    }
}

/// One worker's recheck of its unreachable jobs, unless it already knows more
/// than `MAX_ACCESSIBLE_WORK_TRESHOLD` reachable ones. From the cursor on, up to
/// `MAX_WORK_RECHECK_COUNT` jobs are examined: those no longer registered are
/// dropped, those now reachable move to the reachable jobs. The cursor then
/// advances by the number examined, and goes back to the start once it reaches
/// the end of the list.
pub fn check_inaccessible_works(
    position: &Position,
    worker: &mut Worker,
    gw_validator: &GlobalWorkValidator,
    world: &World,
)
    requires
        world.wf(),
        gw_validator.wf(),
        old(worker).wf(),
    ensures
        final(worker).wf(),
        old(worker).accessible@.len() > MAX_ACCESSIBLE_WORK_TRESHOLD ==> *final(worker) == *old(
            worker,
        ),
        old(worker).accessible@.len() <= MAX_ACCESSIBLE_WORK_TRESHOLD ==> {
            let ws = works_view(old(worker).inaccessible@);
            let c = old(worker).iterator as int;
            let k = recheck_count(c, ws.len() as int);
            let window = ws.subrange(c, c + k);
            if c >= ws.len() {
                &&& final(worker).accessible == old(worker).accessible
                &&& final(worker).inaccessible == old(worker).inaccessible
                &&& final(worker).iterator == 0
            } else {
                &&& works_view(final(worker).inaccessible@) == ws.subrange(0, c) + select(
                    window,
                    stays_unreachable(*world, *position, gw_validator@),
                ) + ws.subrange(c + k, ws.len() as int)
                &&& works_view(final(worker).accessible@) == works_view(old(worker).accessible@)
                    + select(window, became_reachable(*world, *position, gw_validator@))
                &&& final(worker).iterator == if c + k >= final(worker).inaccessible@.len() {
                    0
                } else {
                    c + k
                }
                &&& (forall|i: int|
                    c <= i < c + k ==> stays_unreachable(*world, *position, gw_validator@)(
                        #[trigger] ws[i],
                    )) ==> works_view(final(worker).inaccessible@) == ws
                    && final(worker).iterator == next_cursor(c, ws.len() as int)
            }
        },
{
    if worker.accessible.len() > MAX_ACCESSIBLE_WORK_TRESHOLD {
        return;
    }
    let n = worker.inaccessible.len();
    let c = worker.iterator;
    if c >= n {
        worker.iterator = 0;
        return;
    }
    let k: usize = if n - c < MAX_WORK_RECHECK_COUNT {
        n - c
    } else {
        MAX_WORK_RECHECK_COUNT
    };
    let ghost ws = works_view(worker.inaccessible@);
    let ghost acc0 = works_view(worker.accessible@);
    let ghost still = stays_unreachable(*world, *position, gw_validator@);
    let ghost now = became_reachable(*world, *position, gw_validator@);
    let mut kept: Vec<GlobalWork> = Vec::new();
    append_range(&mut kept, &worker.inaccessible, 0, c);
    assert(works_view(kept@) =~= ws.subrange(0, c as int));
    let mut j: usize = c;
    while j < c + k
        invariant
            world.wf(),
            gw_validator.wf(),
            c <= j <= c + k <= n,
            n == worker.inaccessible@.len(),
            ws == works_view(worker.inaccessible@),
            still == stays_unreachable(*world, *position, gw_validator@),
            now == became_reachable(*world, *position, gw_validator@),
            works_view(kept@) == ws.subrange(0, c as int) + select(
                ws.subrange(c as int, j as int),
                still,
            ),
            works_view(worker.accessible@) == acc0 + select(ws.subrange(c as int, j as int), now),
        decreases c + k - j,
    {
        let work = worker.inaccessible[j].clone();
        assert(work@ == ws[j as int]);
        let ghost kept0 = works_view(kept@);
        let ghost acc1 = works_view(worker.accessible@);
        proof {
            assert(ws.subrange(c as int, j + 1).drop_last() =~= ws.subrange(c as int, j as int));
            assert(ws.subrange(c as int, j + 1).last() == ws[j as int]);
        }
        if gw_validator.validate(&work.id).is_some() {
            if find_best_path_to_target(position, &work.position, world).is_some() {
                worker.accessible.push(work);
                assert(works_view(worker.accessible@) =~= acc1.push(ws[j as int]));
            } else {
                kept.push(work);
                assert(works_view(kept@) =~= kept0.push(ws[j as int]));
            }
        }
        j = j + 1;
    }
    append_range(&mut kept, &worker.inaccessible, c + k, n);
    assert(ws.subrange(c as int, (c + k) as int) == ws.subrange(c as int, j as int));
    assert(works_view(worker.inaccessible@).subrange((c + k) as int, n as int) == ws.subrange(
        (c + k) as int,
        ws.len() as int,
    ));
    proof {
        if forall|i: int|
            c <= i < c + k ==> stays_unreachable(*world, *position, gw_validator@)(#[trigger] ws[i]) {
            let window = ws.subrange(c as int, (c + k) as int);
            assert forall|i: int| 0 <= i < window.len() implies still(#[trigger] window[i]) by {
                assert(window[i] == ws[c + i]);
            }
            lemma_select_all(window, still);
            assert(works_view(kept@) =~= ws);
        }
    }
    proof {
        assert forall|x: GlobalWorkView| !(#[trigger] still(x) && now(x)) by {}
        lemma_recheck_keeps_wf(acc0, ws, c as int, k as int, still, now);
        assert(works_view(kept@) == ws.subrange(0, c as int) + select(
            ws.subrange(c as int, (c + k) as int),
            still,
        ) + ws.subrange((c + k) as int, ws.len() as int));
    }
    worker.inaccessible = kept;
    let next = c + k;
    worker.iterator = if next >= worker.inaccessible.len() {
        0
    } else {
        next
    };
}

/// The registry after a job of identifier `id` is registered.
pub open spec fn after_registration(reg: Map<Seq<char>, bool>, id: Seq<char>) -> Map<
    Seq<char>,
    bool,
> {
    if reg.contains_key(id) {
        reg
    } else {
        reg.insert(id, false)
    }
}

/// A job that is registered and then cancelled is not in the registry, no
/// worker's search for a job picks it, and it leaves the worker's list of
/// reachable jobs on that search.
pub proof fn lemma_cancelled_work_not_selected(
    reg: Map<Seq<char>, bool>,
    id: Seq<char>,
    ws: Seq<GlobalWorkView>,
    p: Position,
)
    ensures
        !after_registration(reg, id).remove(id).contains_key(id),
        forall|i: int| #[trigger]
            is_nearest_free(ws, after_registration(reg, id).remove(id), p, i) ==> ws[i].id != id,
        forall|i: int|
            0 <= i < live_works(ws, after_registration(reg, id).remove(id)).len() ==> (
            #[trigger] live_works(ws, after_registration(reg, id).remove(id))[i]).id != id,
{
    let reg2 = after_registration(reg, id).remove(id);
    lemma_live_works_registered(ws, reg2);
}

/// Every job kept by `live_works` is registered.
pub proof fn lemma_live_works_registered(ws: Seq<GlobalWorkView>, reg: Map<Seq<char>, bool>)
    ensures
        forall|i: int|
            0 <= i < live_works(ws, reg).len() ==> reg.contains_key(
                (#[trigger] live_works(ws, reg)[i]).id,
            ),
    decreases ws.len(),
{
    if ws.len() > 0 {
        lemma_live_works_registered(ws.drop_last(), reg);
        let rest = live_works(ws.drop_last(), reg);
        assert(live_works(ws, reg) == if reg.contains_key(ws.last().id) {
            rest.push(ws.last())
        } else {
            rest
        });
        assert forall|i: int| 0 <= i < live_works(ws, reg).len() implies reg.contains_key(
            (#[trigger] live_works(ws, reg)[i]).id,
        ) by {
            if i < rest.len() {
                assert(live_works(ws, reg)[i] == rest[i]);
            }
        }
    }
}

/// The registry after one worker's search for a job: unchanged, or one job
/// that was free is now claimed.
pub open spec fn claim_step(before: Map<Seq<char>, bool>, after: Map<Seq<char>, bool>) -> bool {
    after == before || exists|id: Seq<char>|
        before.contains_key(id) && !before[id] && after == #[trigger] before.insert(id, true)
}

/// Step `t` of `regs` claims the job `id`.
pub open spec fn claims_at(regs: Seq<Map<Seq<char>, bool>>, t: int, id: Seq<char>) -> bool {
    &&& 0 <= t < regs.len() - 1
    &&& regs[t].contains_key(id)
    &&& !regs[t][id]
    &&& regs[t + 1] == regs[t].insert(id, true)
}

proof fn lemma_claim_persists(regs: Seq<Map<Seq<char>, bool>>, t1: int, id: Seq<char>, t: int)
    requires
        forall|s: int| 0 <= s < regs.len() - 1 ==> #[trigger] claim_step(regs[s], regs[s + 1]),
        claims_at(regs, t1, id),
        t1 < t < regs.len(),
    ensures
        regs[t].contains_key(id) && regs[t][id],
    decreases t - t1,
{
    if t > t1 + 1 {
        lemma_claim_persists(regs, t1, id, t - 1);
        let s = t - 1;
        assert(claim_step(regs[s], regs[s + 1]));
        assert(s + 1 == t);
    }
}

/// In a pass in which workers look for jobs one after another, each search
/// leaving the registry unchanged or claiming one free job, no job is claimed
/// twice: at most one worker holds the claim on a job.
pub proof fn lemma_claims_exclusive(
    regs: Seq<Map<Seq<char>, bool>>,
    t1: int,
    t2: int,
    id: Seq<char>,
)
    requires
        forall|s: int| 0 <= s < regs.len() - 1 ==> #[trigger] claim_step(regs[s], regs[s + 1]),
        claims_at(regs, t1, id),
        claims_at(regs, t2, id),
    ensures
        t1 == t2,
{
    if t1 < t2 {
        lemma_claim_persists(regs, t1, id, t2);
    } else if t2 < t1 {
        lemma_claim_persists(regs, t2, id, t1);
    }
}

/// Where the recheck of the unreachable jobs goes next, from `cursor` in a list
/// of `len` jobs none of which leaves it.
pub open spec fn next_cursor(cursor: int, len: int) -> int {
    if cursor + recheck_count(cursor, len) >= len {
        0
    } else {
        cursor + recheck_count(cursor, len)
    }
}

/// The cursor after `t` rechecks from the start of a list of `len` jobs none
/// of which leaves it.
pub open spec fn cursor_after(len: int, t: nat) -> int
    decreases t,
{
    if t == 0 {
        0
    } else {
        next_cursor(cursor_after(len, (t - 1) as nat), len)
    }
}

proof fn lemma_cursor_steps(len: int, t: nat)
    requires
        MAX_WORK_RECHECK_COUNT * t < len,
    ensures
        cursor_after(len, t) == MAX_WORK_RECHECK_COUNT * t,
    decreases t,
{
    if t > 0 {
        lemma_cursor_steps(len, (t - 1) as nat);
    }
}

/// Rechecking from the start of a list of `len` unreachable jobs, none of
/// which becomes reachable or is cancelled meanwhile, examines every job within
/// `ceil(len / MAX_WORK_RECHECK_COUNT)` turns, and the cursor is then back at
/// the start.
pub proof fn lemma_recheck_covers_all(len: int, i: int)
    requires
        0 <= i < len,
    ensures
        exists|t: nat|
            t < (len + MAX_WORK_RECHECK_COUNT - 1) / (MAX_WORK_RECHECK_COUNT as int)
                && #[trigger] cursor_after(len, t) <= i < cursor_after(len, t) + recheck_count(
                cursor_after(len, t),
                len,
            ),
        cursor_after(len, ((len + MAX_WORK_RECHECK_COUNT - 1) / (MAX_WORK_RECHECK_COUNT as int)) as nat)
            == 0,
{
    let t = (i / 20) as nat;
    assert(20 * t <= i < 20 * t + 20);
    lemma_cursor_steps(len, t);
    assert(t < (len + 19) / 20);
    assert(cursor_after(len, t) <= i < cursor_after(len, t) + recheck_count(cursor_after(len, t), len));
    let last = ((len + 19) / 20 - 1) as nat;
    assert(20 * last < len <= 20 * last + 20);
    lemma_cursor_steps(len, last);
    assert(((len + 19) / 20) as nat == last + 1);
}

} // verus!
