//! Breadth-first flood fill that picks the next step of a move order.
use vstd::prelude::*;
use crate::tile::TVec2;

verus! {

/// A cell waiting in the flood-fill queue: where it is, which cell reached it,
/// and its distance from the source (the source itself has distance 1).
#[derive(Clone, Copy)]
pub struct GrowPoint {
    pub p: TVec2<usize>,
    pub prev_p: TVec2<usize>,
    pub val: i32,
}

/// Scratch space of the flood fill, sized to a `w` by `h` grid.
///
/// `data` holds the distance of each visited cell (0 means not visited),
/// `prev_point` the cell it was reached from, `walls` the impassable cells.
pub struct Pathfinder {
    pub data: Vec<i32>,
    pub walls: Vec<bool>,
    pub prev_point: Vec<TVec2<usize>>,
    pub w: usize,
    pub h: usize,
}

/// State of a flood fill between two expansions.
pub struct BfsState {
    pub data: Seq<i32>,
    pub prev: Seq<TVec2<usize>>,
    pub queue: Seq<GrowPoint>,
    pub nearest: TVec2<usize>,
    pub nearest_d: int,
}

pub open spec fn in_grid(p: TVec2<usize>, w: usize, h: usize) -> bool {
    p.x < w && p.y < h
}

/// Row-major index of `p`.
pub open spec fn cell(w: usize, p: TVec2<usize>) -> int {
    p.y * w + p.x
}

/// Squared Euclidean distance.
pub open spec fn sq_dist(a: TVec2<usize>, b: TVec2<usize>) -> int {
    (a.x - b.x) * (a.x - b.x) + (a.y - b.y) * (a.y - b.y)
}

pub open spec fn count_zero(s: Seq<i32>) -> nat
    decreases s.len(),
{
    if s.len() == 0 {
        0
    } else {
        count_zero(s.drop_last()) + if s.last() == 0 { 1nat } else { 0nat }
    }
}

/// Number of cells the fill has reached.
pub open spec fn visited(s: BfsState) -> int {
    s.data.len() - count_zero(s.data)
}

pub open spec fn grow(gp: GrowPoint, x: usize, y: usize) -> GrowPoint {
    GrowPoint { p: TVec2 { x, y }, prev_p: gp.p, val: (gp.val + 1) as i32 }
}

/// The queue after the four neighbours of `gp` are appended: left, up, right, down.
pub open spec fn push_neighbours(q: Seq<GrowPoint>, gp: GrowPoint, w: usize, h: usize) -> Seq<GrowPoint> {
    let p = gp.p;
    let q1 = if p.x > 0 { q.push(grow(gp, (p.x - 1) as usize, p.y)) } else { q };
    let q2 = if p.y > 0 { q1.push(grow(gp, p.x, (p.y - 1) as usize)) } else { q1 };
    let q3 = if p.x + 1 < w { q2.push(grow(gp, (p.x + 1) as usize, p.y)) } else { q2 };
    if p.y + 1 < h { q3.push(grow(gp, p.x, (p.y + 1) as usize)) } else { q3 }
}

/// One expansion: take the head of the queue; if it is unvisited and passable
/// (the source always is), record it, keep it as the nearest cell to `dst` when
/// it is strictly nearer than the one kept so far, and queue its neighbours.
pub open spec fn bfs_step(walls: Seq<bool>, w: usize, h: usize, dst: TVec2<usize>, s: BfsState) -> BfsState {
    let gp = s.queue[0];
    let rest = s.queue.drop_first();
    let i = cell(w, gp.p);
    if s.data[i] == 0 && (!walls[i] || gp.val == 1) {
        let d = sq_dist(gp.p, dst);
        BfsState {
            data: s.data.update(i, gp.val),
            prev: s.prev.update(i, gp.prev_p),
            queue: push_neighbours(rest, gp, w, h),
            nearest: if d < s.nearest_d { gp.p } else { s.nearest },
            nearest_d: if d < s.nearest_d { d } else { s.nearest_d },
        }
    } else {
        BfsState { data: s.data, prev: s.prev, queue: rest, nearest: s.nearest, nearest_d: s.nearest_d }
    }
}

/// Expansions until the queue is empty or `dst` is reached.
pub open spec fn bfs_run(walls: Seq<bool>, w: usize, h: usize, dst: TVec2<usize>, s: BfsState, fuel: nat) -> BfsState
    decreases fuel,
{
    if fuel == 0 || s.queue.len() == 0 || s.data[cell(w, dst)] != 0 {
        s
    } else {
        bfs_run(walls, w, h, dst, bfs_step(walls, w, h, dst, s), (fuel - 1) as nat)
    }
}

pub open spec fn origin() -> TVec2<usize> {
    TVec2 { x: 0, y: 0 }
}

pub open spec fn bfs_start(w: usize, h: usize, src: TVec2<usize>, dst: TVec2<usize>) -> BfsState {
    BfsState {
        data: Seq::new((w * h) as nat, |i: int| 0i32),
        prev: Seq::new((w * h) as nat, |i: int| origin()),
        queue: seq![GrowPoint { p: src, prev_p: src, val: 1 }],
        nearest: src,
        nearest_d: sq_dist(src, dst),
    }
}

/// Follows the recorded predecessors back from `p` to a cell at distance 2 or less.
pub open spec fn walk_back(data: Seq<i32>, prev: Seq<TVec2<usize>>, w: usize, p: TVec2<usize>, fuel: nat) -> TVec2<usize>
    decreases fuel,
{
    if fuel == 0 || data[cell(w, p)] <= 2 {
        p
    } else {
        walk_back(data, prev, w, prev[cell(w, p)], (fuel - 1) as nat)
    }
}

/// The filled state of a search from `src` toward `dst`.
pub open spec fn bfs_fill(walls: Seq<bool>, w: usize, h: usize, src: TVec2<usize>, dst: TVec2<usize>) -> BfsState {
    bfs_run(walls, w, h, dst, bfs_start(w, h, src, dst), (5 * (w * h) + 1) as nat)
}

/// The step taken from `src` toward `dst`: the first cell of the shortest path
/// from `src` to `dst`, or, when `dst` cannot be reached, to the first reached
/// cell nearest to it.
pub open spec fn path_step(walls: Seq<bool>, w: usize, h: usize, src: TVec2<usize>, dst: TVec2<usize>) -> TVec2<usize> {
    let f = bfs_fill(walls, w, h, src, dst);
    walk_back(f.data, f.prev, w, f.nearest, (w * h) as nat)
}

pub open spec fn queued_ok(g: GrowPoint, s: BfsState, w: usize, h: usize) -> bool {
    &&& in_grid(g.p, w, h)
    &&& 1 <= g.val <= visited(s) + 1
    &&& g.val > 1 ==> in_grid(g.prev_p, w, h) && s.data[cell(w, g.prev_p)] == g.val - 1
}

/// What holds of every state of a fill on a `w` by `h` grid.
pub open spec fn bfs_inv(s: BfsState, w: usize, h: usize) -> bool {
    &&& s.data.len() == w * h
    &&& s.prev.len() == w * h
    &&& in_grid(s.nearest, w, h)
    &&& forall|i: int| 0 <= i < s.data.len() ==> 0 <= #[trigger] s.data[i] <= visited(s)
    &&& forall|i: int|
        0 <= i < s.data.len() && s.data[i] > 1 ==> in_grid(#[trigger] s.prev[i], w, h) && s.data[cell(w, s.prev[i])]
            == s.data[i] - 1
    &&& forall|k: int| 0 <= k < s.queue.len() ==> queued_ok(#[trigger] s.queue[k], s, w, h)
}

pub open spec fn measure(s: BfsState) -> int {
    (5 * count_zero(s.data) + s.queue.len()) as int
}

proof fn lemma_count_zero_update(s: Seq<i32>, i: int, v: i32)
    requires
        0 <= i < s.len(),
        s[i] == 0,
        v != 0,
    ensures
        count_zero(s.update(i, v)) + 1 == count_zero(s),
    decreases s.len(),
{
    if i == s.len() - 1 {
        assert(s.update(i, v).drop_last() =~= s.drop_last());
    } else {
        assert(s.update(i, v).drop_last() =~= s.drop_last().update(i, v));
        lemma_count_zero_update(s.drop_last(), i, v);
    }
}

proof fn lemma_count_zero_le(s: Seq<i32>)
    ensures
        count_zero(s) <= s.len(),
    decreases s.len(),
{
    if s.len() > 0 {
        lemma_count_zero_le(s.drop_last());
    }
}

proof fn lemma_count_zero_all(n: nat)
    ensures
        count_zero(Seq::new(n, |i: int| 0i32)) == n,
    decreases n,
{
    if n > 0 {
        assert(Seq::new(n, |i: int| 0i32).drop_last() =~= Seq::new((n - 1) as nat, |i: int| 0i32));
        lemma_count_zero_all((n - 1) as nat);
    }
}

proof fn lemma_cell_in_range(w: usize, h: usize, p: TVec2<usize>)
    requires
        in_grid(p, w, h),
    ensures
        0 <= cell(w, p) < w * h,
{
    assert(p.y * w + p.x < w * h) by (nonlinear_arith)
        requires
            p.x < w,
            p.y < h,
    ;
}

proof fn lemma_push_neighbours(q: Seq<GrowPoint>, gp: GrowPoint, w: usize, h: usize)
    requires
        in_grid(gp.p, w, h),
    ensures
        ({
            let r = push_neighbours(q, gp, w, h);
            &&& q.len() <= r.len()
            &&& forall|k: int| 0 <= k < q.len() ==> r[k] == q[k]
            &&& forall|k: int|
                q.len() <= k < r.len() ==> in_grid(#[trigger] r[k].p, w, h) && r[k].prev_p == gp.p && r[k].val == (
                gp.val + 1) as i32
        }),
{
}

proof fn lemma_step(walls: Seq<bool>, w: usize, h: usize, dst: TVec2<usize>, s: BfsState)
    requires
        bfs_inv(s, w, h),
        s.queue.len() > 0,
        walls.len() == w * h,
        w * h < i32::MAX,
    ensures
        bfs_inv(bfs_step(walls, w, h, dst, s), w, h),
        measure(bfs_step(walls, w, h, dst, s)) < measure(s),
{
    let gp = s.queue[0];
    let rest = s.queue.drop_first();
    let i = cell(w, gp.p);
    assert(queued_ok(s.queue[0], s, w, h));
    lemma_cell_in_range(w, h, gp.p);
    let t = bfs_step(walls, w, h, dst, s);
    if s.data[i] == 0 && (!walls[i] || gp.val == 1) {
        lemma_count_zero_update(s.data, i, gp.val);
        lemma_count_zero_le(t.data);
        assert(visited(t) == visited(s) + 1);
        assert(gp.val + 1 <= i32::MAX);
        lemma_push_neighbours(rest, gp, w, h);
        assert forall|j: int| 0 <= j < t.data.len() implies 0 <= #[trigger] t.data[j] <= visited(t) by {
            if j != i {
                assert(s.data[j] == t.data[j]);
            }
        }
        assert forall|j: int| 0 <= j < t.data.len() && t.data[j] > 1 implies in_grid(#[trigger] t.prev[j], w, h)
            && t.data[cell(w, t.prev[j])] == t.data[j] - 1 by {
            if j != i {
                assert(s.data[j] == t.data[j]);
                assert(s.prev[j] == t.prev[j]);
                lemma_cell_in_range(w, h, s.prev[j]);
                assert(s.data[cell(w, s.prev[j])] > 0);
            } else {
                lemma_cell_in_range(w, h, gp.prev_p);
            }
        }
        assert forall|k: int| 0 <= k < t.queue.len() implies queued_ok(#[trigger] t.queue[k], t, w, h) by {
            let p = gp.p;
            let q1 = if p.x > 0 { rest.push(grow(gp, (p.x - 1) as usize, p.y)) } else { rest };
            let q2 = if p.y > 0 { q1.push(grow(gp, p.x, (p.y - 1) as usize)) } else { q1 };
            let q3 = if p.x + 1 < w { q2.push(grow(gp, (p.x + 1) as usize, p.y)) } else { q2 };
            if k < rest.len() {
                assert(t.queue[k] == rest[k]);
                assert(queued_ok(s.queue[k + 1], s, w, h));
                let g = rest[k];
                if g.val > 1 {
                    lemma_cell_in_range(w, h, g.prev_p);
                    assert(s.data[cell(w, g.prev_p)] > 0);
                }
            } else {
                assert(t.data[i] == gp.val);
                assert(t.queue[k].prev_p == gp.p);
            }
        }
        assert(measure(t) < measure(s));
    } else {
        assert forall|k: int| 0 <= k < t.queue.len() implies queued_ok(#[trigger] t.queue[k], t, w, h) by {
            assert(t.queue[k] == s.queue[k + 1]);
            assert(queued_ok(s.queue[k + 1], s, w, h));
        }
    }
}

/// `p` and `q` are orthogonal neighbours.
pub open spec fn adjacent(p: TVec2<usize>, q: TVec2<usize>) -> bool {
    (p.x == q.x && (p.y == q.y + 1 || q.y == p.y + 1)) || (p.y == q.y && (p.x == q.x + 1 || q.x == p.x + 1))
}

/// How each reached cell was reached: only the source has distance 1, every
/// other reached cell is passable and next to the cell it was reached from.
pub open spec fn reach_inv(s: BfsState, w: usize, h: usize, src: TVec2<usize>, walls: Seq<bool>) -> bool {
    &&& forall|i: int| 0 <= i < s.data.len() && #[trigger] s.data[i] == 1 ==> i == cell(w, src)
    &&& forall|i: int| 0 <= i < s.data.len() && #[trigger] s.data[i] > 1 ==> !walls[i]
    &&& forall|p: TVec2<usize>|
        in_grid(p, w, h) && #[trigger] s.data[cell(w, p)] > 1 ==> adjacent(p, s.prev[cell(w, p)])
    &&& forall|k: int| 0 <= k < s.queue.len() && (#[trigger] s.queue[k]).val == 1 ==> s.queue[k].p == src
    &&& forall|k: int|
        0 <= k < s.queue.len() && (#[trigger] s.queue[k]).val > 1 ==> adjacent(s.queue[k].p, s.queue[k].prev_p)
    &&& s.data[cell(w, s.nearest)] >= 1 || s.nearest == src
    &&& s.data[cell(w, src)] == 0 ==> count_zero(s.data) == s.data.len() && s.queue.len() >= 1 && s.queue[0]
        == (GrowPoint { p: src, prev_p: src, val: 1 })
}

proof fn lemma_cell_injective(w: usize, h: usize, p: TVec2<usize>, q: TVec2<usize>)
    requires
        in_grid(p, w, h),
        in_grid(q, w, h),
        cell(w, p) == cell(w, q),
    ensures
        p == q,
{
    vstd::arithmetic::div_mod::lemma_fundamental_div_mod_converse(cell(w, p), w as int, p.y as int, p.x as int);
    vstd::arithmetic::div_mod::lemma_fundamental_div_mod_converse(cell(w, q), w as int, q.y as int, q.x as int);
}

proof fn lemma_count_zero_full(s: Seq<i32>, i: int)
    requires
        count_zero(s) == s.len(),
        0 <= i < s.len(),
    ensures
        s[i] == 0,
    decreases s.len(),
{
    lemma_count_zero_le(s.drop_last());
    if i < s.len() - 1 {
        lemma_count_zero_full(s.drop_last(), i);
    }
}

proof fn lemma_step_reach(walls: Seq<bool>, w: usize, h: usize, src: TVec2<usize>, dst: TVec2<usize>, s: BfsState)
    requires
        bfs_inv(s, w, h),
        reach_inv(s, w, h, src, walls),
        in_grid(src, w, h),
        s.queue.len() > 0,
        walls.len() == w * h,
        w * h < i32::MAX,
    ensures
        reach_inv(bfs_step(walls, w, h, dst, s), w, h, src, walls),
{
    let gp = s.queue[0];
    let rest = s.queue.drop_first();
    let i = cell(w, gp.p);
    assert(queued_ok(s.queue[0], s, w, h));
    lemma_cell_in_range(w, h, gp.p);
    lemma_cell_in_range(w, h, src);
    lemma_cell_in_range(w, h, s.nearest);
    let t = bfs_step(walls, w, h, dst, s);
    if s.data[i] == 0 && (!walls[i] || gp.val == 1) {
        lemma_count_zero_update(s.data, i, gp.val);
        lemma_count_zero_le(t.data);
        lemma_count_zero_le(s.data);
        lemma_push_neighbours(rest, gp, w, h);
        assert forall|p: TVec2<usize>| in_grid(p, w, h) && #[trigger] t.data[cell(w, p)] > 1 implies adjacent(
            p,
            t.prev[cell(w, p)],
        ) by {
            lemma_cell_in_range(w, h, p);
            if cell(w, p) == i {
                lemma_cell_injective(w, h, p, gp.p);
            } else {
                assert(s.data[cell(w, p)] > 1);
            }
        }
        if s.data[cell(w, src)] == 0 {
            if i != cell(w, src) {
                assert(gp == (GrowPoint { p: src, prev_p: src, val: 1 }));
            }
            assert(gp.p == src) by {
                if gp.p != src {
                    lemma_count_zero_full(s.data, cell(w, src));
                }
            }
        }
        assert forall|k: int| 0 <= k < t.queue.len() && (#[trigger] t.queue[k]).val == 1 implies t.queue[k].p
            == src by {
            if k < rest.len() {
                assert(t.queue[k] == s.queue[k + 1]);
            }
        }
        assert forall|k: int| 0 <= k < t.queue.len() && (#[trigger] t.queue[k]).val > 1 implies adjacent(
            t.queue[k].p,
            t.queue[k].prev_p,
        ) by {
            if k < rest.len() {
                assert(t.queue[k] == s.queue[k + 1]);
            } else {
                let g = t.queue[k];
                assert(g.prev_p == gp.p);
            }
        }
        assert(t.data[cell(w, src)] != 0);
    } else {
        assert forall|k: int| 0 <= k < t.queue.len() && (#[trigger] t.queue[k]).val == 1 implies t.queue[k].p
            == src by {
            assert(t.queue[k] == s.queue[k + 1]);
        }
        assert forall|k: int| 0 <= k < t.queue.len() && (#[trigger] t.queue[k]).val > 1 implies adjacent(
            t.queue[k].p,
            t.queue[k].prev_p,
        ) by {
            assert(t.queue[k] == s.queue[k + 1]);
        }
        if s.data[cell(w, src)] == 0 {
            lemma_count_zero_full(s.data, i);
        }
    }
}

impl Pathfinder {
    pub open spec fn wf(&self) -> bool {
        &&& self.data@.len() == self.w * self.h
        &&& self.walls@.len() == self.w * self.h
        &&& self.prev_point@.len() == self.w * self.h
    }

    #[inline(always)]
    pub fn get_idx(&self, x: usize, y: usize) -> (r: usize)
        requires
            x < self.w,
            y < self.h,
            self.w * self.h <= usize::MAX,
        ensures
            r == y * self.w + x,
    {
        proof {
            lemma_cell_in_range(self.w, self.h, TVec2 { x, y });
        }
        y * self.w + x
    }

    /// Runs the fill from `src` toward `dst` over `walls` and returns the step
    /// to take from `src`.
    pub fn find_path(&mut self, src: &TVec2<usize>, dst: &TVec2<usize>) -> (r: TVec2<usize>)
        requires
            old(self).wf(),
            old(self).w * old(self).h < i32::MAX,
            in_grid(*src, old(self).w, old(self).h),
            in_grid(*dst, old(self).w, old(self).h),
        ensures
            final(self).wf(),
            final(self).w == old(self).w,
            final(self).h == old(self).h,
            final(self).walls@ == old(self).walls@,
            in_grid(r, old(self).w, old(self).h),
            r == *src || (adjacent(r, *src) && !old(self).walls@[cell(old(self).w, r)]),
            r == path_step(old(self).walls@, old(self).w, old(self).h, *src, *dst),
    {
        let w = self.w;
        let h = self.h;
        let ghost walls = self.walls@;
        let n = self.data.len();
        let mut i: usize = 0;
        while i < n
            invariant
                self.wf(),
                self.w == w,
                self.h == h,
                self.walls@ == walls,
                n == w * h,
                0 <= i <= n,
                forall|j: int| 0 <= j < i ==> self.data@[j] == 0i32,
                forall|j: int| 0 <= j < i ==> self.prev_point@[j] == origin(),
            decreases n - i,
        {
            self.data.set(i, 0);
            self.prev_point.set(i, TVec2 { x: 0, y: 0 });
            i = i + 1;
        }
        assert(w < 0x8000_0000) by (nonlinear_arith)
            requires
                w * h < 0x7fff_ffff,
                src.y < h,
        ;
        assert(h < 0x8000_0000) by (nonlinear_arith)
            requires
                w * h < 0x7fff_ffff,
                src.x < w,
        ;
        let ghost start = bfs_start(w, h, *src, *dst);
        assert(self.data@ =~= start.data);
        assert(self.prev_point@ =~= start.prev);
        proof {
            lemma_count_zero_all((w * h) as nat);
        }
        let mut queue: Vec<GrowPoint> = Vec::new();
        queue.push(GrowPoint { p: *src, prev_p: *src, val: 1 });
        let mut head: usize = 0;
        let mut nearest_point = *src;
        let mut nearest_dist = dist_sq(src, dst);
        let ghost fuel: nat = (5 * (w * h) + 1) as nat;
        let dst_idx = self.get_idx(dst.x, dst.y);
        proof {
            lemma_cell_in_range(w, h, *dst);
            let s0 = BfsState {
                data: self.data@,
                prev: self.prev_point@,
                queue: queue@.subrange(0, queue.len() as int),
                nearest: nearest_point,
                nearest_d: nearest_dist as int,
            };
            assert(s0.queue =~= start.queue);
            assert(s0 == start);
            assert(queued_ok(s0.queue[0], s0, w, h));
            assert(bfs_inv(s0, w, h));
            assert(measure(s0) <= fuel);
            lemma_cell_in_range(w, h, *src);
            assert(s0.data == start.data);
            assert(s0.queue[0] == (GrowPoint { p: *src, prev_p: *src, val: 1 }));
            assert(count_zero(s0.data) == s0.data.len());
            assert forall|p: TVec2<usize>| in_grid(p, w, h) && #[trigger] s0.data[cell(w, p)] > 1 implies adjacent(
                p,
                s0.prev[cell(w, p)],
            ) by {
                lemma_cell_in_range(w, h, p);
            }
            assert(reach_inv(s0, w, h, *src, walls));
        }
        while head < queue.len() && self.data[dst_idx] == 0
            invariant
                self.wf(),
                self.w == w,
                self.h == h,
                self.walls@ == walls,
                w < 0x8000_0000,
                h < 0x8000_0000,
                w * h < i32::MAX,
                in_grid(*dst, w, h),
                in_grid(*src, w, h),
                dst_idx == cell(w, *dst),
                dst_idx < w * h,
                head <= queue.len(),
                ({
                    let s = BfsState {
                        data: self.data@,
                        prev: self.prev_point@,
                        queue: queue@.subrange(head as int, queue.len() as int),
                        nearest: nearest_point,
                        nearest_d: nearest_dist as int,
                    };
                    &&& bfs_inv(s, w, h)
                    &&& reach_inv(s, w, h, *src, walls)
                    &&& measure(s) <= fuel
                    &&& bfs_run(walls, w, h, *dst, start, (5 * (w * h) + 1) as nat) == bfs_run(walls, w, h, *dst, s, fuel)
                }),
            decreases 5 * count_zero(self.data@) + queue.len() - head,
        {
            let ghost s = BfsState {
                data: self.data@,
                prev: self.prev_point@,
                queue: queue@.subrange(head as int, queue.len() as int),
                nearest: nearest_point,
                nearest_d: nearest_dist as int,
            };
            proof {
                lemma_step(walls, w, h, *dst, s);
                lemma_step_reach(walls, w, h, *src, *dst, s);
                assert(s.queue[0] == queue@[head as int]);
            }
            let ghost t = bfs_step(walls, w, h, *dst, s);
            let gp = queue[head];
            head = head + 1;
            assert(queued_ok(s.queue[0], s, w, h));
            proof {
                lemma_cell_in_range(w, h, gp.p);
            }
            let idx = self.get_idx(gp.p.x, gp.p.y);
            if self.data[idx] == 0 && (!self.walls[idx] || gp.val == 1) {
                proof {
                    lemma_count_zero_le(self.data@);
                }
                self.data.set(idx, gp.val);
                self.prev_point.set(idx, gp.prev_p);
                let d = dist_sq(&gp.p, dst);
                if d < nearest_dist {
                    nearest_dist = d;
                    nearest_point = gp.p;
                }
                let nv = gp.val + 1;
                if gp.p.x > 0 {
                    queue.push(GrowPoint { p: TVec2 { x: gp.p.x - 1, y: gp.p.y }, prev_p: gp.p, val: nv });
                }
                if gp.p.y > 0 {
                    queue.push(GrowPoint { p: TVec2 { x: gp.p.x, y: gp.p.y - 1 }, prev_p: gp.p, val: nv });
                }
                if gp.p.x < w - 1 {
                    queue.push(GrowPoint { p: TVec2 { x: gp.p.x + 1, y: gp.p.y }, prev_p: gp.p, val: nv });
                }
                if gp.p.y < h - 1 {
                    queue.push(GrowPoint { p: TVec2 { x: gp.p.x, y: gp.p.y + 1 }, prev_p: gp.p, val: nv });
                }
            }
            proof {
                assert(queue@.subrange(head as int, queue.len() as int) =~= t.queue);
                assert(self.data@ =~= t.data);
                assert(self.prev_point@ =~= t.prev);
                fuel = (fuel - 1) as nat;
            }
        }
        let ghost fin = BfsState {
            data: self.data@,
            prev: self.prev_point@,
            queue: queue@.subrange(head as int, queue.len() as int),
            nearest: nearest_point,
            nearest_d: nearest_dist as int,
        };
        assert(fin == bfs_fill(walls, w, h, *src, *dst));
        proof {
            lemma_cell_in_range(w, h, *src);
            lemma_cell_in_range(w, h, *dst);
            if fin.data[cell(w, *src)] == 0 {
                lemma_count_zero_full(fin.data, cell(w, *dst));
            }
            assert(fin.data[cell(w, *src)] >= 1);
        }
        let mut tmp_point = nearest_point;
        let ghost steps: nat = (w * h) as nat;
        proof {
            lemma_count_zero_le(self.data@);
            lemma_cell_in_range(w, h, tmp_point);
        }
        let mut cur_val = self.data[self.get_idx(tmp_point.x, tmp_point.y)];
        while cur_val > 2
            invariant
                self.wf(),
                self.w == w,
                self.h == h,
                self.walls@ == walls,
                w * h < i32::MAX,
                bfs_inv(fin, w, h),
                reach_inv(fin, w, h, *src, walls),
                in_grid(*src, w, h),
                cur_val >= 1,
                fin.data == self.data@,
                fin.prev == self.prev_point@,
                in_grid(tmp_point, w, h),
                0 <= cell(w, tmp_point) < w * h,
                cur_val == self.data@[cell(w, tmp_point)],
                cur_val <= steps,
                walk_back(fin.data, fin.prev, w, fin.nearest, (w * h) as nat) == walk_back(
                    fin.data,
                    fin.prev,
                    w,
                    tmp_point,
                    steps,
                ),
            decreases cur_val,
        {
            proof {
                lemma_cell_in_range(w, h, tmp_point);
            }
            let pi = self.get_idx(tmp_point.x, tmp_point.y);
            tmp_point = self.prev_point[pi];
            proof {
                lemma_cell_in_range(w, h, tmp_point);
                steps = (steps - 1) as nat;
            }
            cur_val = self.data[self.get_idx(tmp_point.x, tmp_point.y)];
        }
        proof {
            lemma_cell_in_range(w, h, tmp_point);
            if cur_val == 1 {
                lemma_cell_injective(w, h, tmp_point, *src);
            } else {
                let q = fin.prev[cell(w, tmp_point)];
                assert(fin.data[cell(w, tmp_point)] > 1);
                assert(in_grid(q, w, h));
                lemma_cell_in_range(w, h, q);
                assert(fin.data[cell(w, q)] == 1);
                lemma_cell_injective(w, h, q, *src);
            }
        }
        tmp_point
    }

    pub fn new(w: usize, h: usize) -> (r: Pathfinder)
        requires
            w * h <= usize::MAX,
        ensures
            r.wf(),
            r.w == w,
            r.h == h,
            forall|i: int| 0 <= i < w * h ==> r.data@[i] == 0 && !r.walls@[i] && r.prev_point@[i] == origin(),
    {
        let n = w * h;
        let mut prev_point: Vec<TVec2<usize>> = Vec::new();
        let mut i: usize = 0;
        while i < n
            invariant
                i <= n,
                prev_point@.len() == i,
                forall|j: int| 0 <= j < i ==> prev_point@[j] == origin(),
            decreases n - i,
        {
            prev_point.push(TVec2 { x: 0, y: 0 });
            i = i + 1;
        }
        Pathfinder { w, h, data: vec![0; n], walls: vec![false; n], prev_point }
    }
}

/// Squared Euclidean distance between two cells of a grid under 2^31 on a side.
fn dist_sq(a: &TVec2<usize>, b: &TVec2<usize>) -> (r: u64)
    requires
        a.x < 0x8000_0000,
        a.y < 0x8000_0000,
        b.x < 0x8000_0000,
        b.y < 0x8000_0000,
    ensures
        r == sq_dist(*a, *b),
{
    let dx: u64 = if a.x > b.x { (a.x - b.x) as u64 } else { (b.x - a.x) as u64 };
    let dy: u64 = if a.y > b.y { (a.y - b.y) as u64 } else { (b.y - a.y) as u64 };
    assert(dx * dx < 0x4000_0000_0000_0000) by (nonlinear_arith)
        requires
            dx < 0x8000_0000,
    ;
    assert(dy * dy < 0x4000_0000_0000_0000) by (nonlinear_arith)
        requires
            dy < 0x8000_0000,
    ;
    assert(dx * dx == (a.x - b.x) * (a.x - b.x)) by (nonlinear_arith)
        requires
            dx == a.x - b.x || dx == b.x - a.x,
    ;
    assert(dy * dy == (a.y - b.y) * (a.y - b.y)) by (nonlinear_arith)
        requires
            dy == a.y - b.y || dy == b.y - a.y,
    ;
    dx * dx + dy * dy
}

} // verus!
