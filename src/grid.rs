//! The grid and the phases of a turn.
use vstd::prelude::*;
use crate::tile::{TileOwner, Tile, Action, TVec2};
use crate::pathfinder::{Pathfinder, path_step, cell, in_grid};
use crate::text::{split, field, cell_ok, tile_of, parse_grid, load_text, split_ranges, record_field, tile_at};

verus! {

/// Scrap a recycler costs.
pub const BUILD_COST: i32 = 10;

/// Scrap one spawned unit costs.
pub const UNIT_COST: i64 = 10;

/// Scrap each player earns at the end of every turn.
pub const TURN_INCOME: i32 = 10;

/// Largest unit count or pending change of a cell at the start of a turn: the
/// range of `i32`, which is what the text form gives.
pub const UNIT_LIMIT: i64 = 0x8000_0000;

/// Largest number of orders of one player in one turn.
///
/// Each order changes a cell's pending change by at most `UNIT_LIMIT` (a move
/// by the units of one cell, a spawn by what one bank pays for), so with both
/// players' orders together a pending change stays within
/// `UNIT_LIMIT * (1 + 2 * MAX_ORDERS)` = 2^62 + 2^31, and units plus pending
/// change fit in `i64`.
pub const MAX_ORDERS: usize = 0x4000_0000;

/// A `w` by `h` grid of cells stored row by row, the players' scrap banks,
/// the recycler reach of each player and the pathfinder's scratch space.
pub struct Grid {
    pub data: Vec<Tile>,
    pub recycle_me: Vec<bool>,
    pub recycle_enemy: Vec<bool>,
    pub w: usize,
    pub h: usize,
    pub my_scrap: i32,
    pub enemy_scrap: i32,
    pub pathfinder: Pathfinder,
}

/// The game state of a grid: its cells and both scrap banks.
pub struct GridState {
    pub tiles: Seq<Tile>,
    pub my_scrap: int,
    pub enemy_scrap: int,
}

impl View for Grid {
    type V = GridState;

    open spec fn view(&self) -> GridState {
        GridState { tiles: self.data@, my_scrap: self.my_scrap as int, enemy_scrap: self.enemy_scrap as int }
    }
}

/// `v` counted from the side of `player`: positive means units of `player`.
pub open spec fn signed(player: TileOwner, v: int) -> int {
    if player == TileOwner::Me {
        v
    } else {
        -v
    }
}

pub open spec fn at(w: usize, x: usize, y: usize) -> int {
    y * w + x
}

pub open spec fn with_delta(t: Tile, d: int) -> Tile {
    Tile { scrap_amount: t.scrap_amount, recycler: t.recycler, units: t.units, delta_units: d as i64, owner: t.owner }
}

pub open spec fn with_recycler(t: Tile) -> Tile {
    Tile { scrap_amount: t.scrap_amount, recycler: true, units: t.units, delta_units: t.delta_units, owner: t.owner }
}

pub open spec fn bank(s: GridState, player: TileOwner) -> int {
    if player == TileOwner::Me {
        s.my_scrap
    } else {
        s.enemy_scrap
    }
}

pub open spec fn with_bank(s: GridState, player: TileOwner, tiles: Seq<Tile>, b: int) -> GridState {
    if player == TileOwner::Me {
        GridState { tiles, my_scrap: b, enemy_scrap: s.enemy_scrap }
    } else {
        GridState { tiles, my_scrap: s.my_scrap, enemy_scrap: b }
    }
}

// ---------------------------------------------------------------- build

/// One order of the build phase: a `Build` on an in-grid cell of `player`
/// with no units makes it a recycler and costs `BUILD_COST`.
pub open spec fn build_step(tiles: Seq<Tile>, b: int, a: Action, player: TileOwner, w: usize, h: usize) -> (Seq<Tile>, int) {
    match a {
        Action::Build(o) => {
            let i = at(w, o.x, o.y);
            if o.x < w && o.y < h && tiles[i].owner == player && tiles[i].units == 0 {
                (tiles.update(i, with_recycler(tiles[i])), b - BUILD_COST)
            } else {
                (tiles, b)
            }
        },
        _ => (tiles, b),
    }
}

/// The build phase of one player: orders in turn, until the bank is below
/// `BUILD_COST`; from then on no order of the batch is looked at.
pub open spec fn build_run(tiles: Seq<Tile>, b: int, acts: Seq<Action>, player: TileOwner, w: usize, h: usize) -> (Seq<Tile>, int)
    decreases acts.len(),
{
    if acts.len() == 0 || b < BUILD_COST {
        (tiles, b)
    } else {
        let r = build_step(tiles, b, acts[0], player, w, h);
        build_run(r.0, r.1, acts.drop_first(), player, w, h)
    }
}

pub open spec fn build_player(s: GridState, acts: Seq<Action>, player: TileOwner, w: usize, h: usize) -> GridState {
    let r = build_run(s.tiles, bank(s, player), acts, player, w, h);
    with_bank(s, player, r.0, r.1)
}

pub open spec fn build_phase(s: GridState, my: Seq<Action>, en: Seq<Action>, w: usize, h: usize) -> GridState {
    build_player(build_player(s, my, TileOwner::Me, w, h), en, TileOwner::Enemy, w, h)
}

// ---------------------------------------------------------------- move and spawn

/// Cells the pathfinder may not enter: recyclers and cells without scrap.
pub open spec fn walls_of(tiles: Seq<Tile>) -> Seq<bool> {
    Seq::new(tiles.len(), |i: int| tiles[i].recycler || tiles[i].scrap_amount == 0)
}

/// One order of the move-and-spawn phase.
///
/// A `Move` from an in-grid cell of `player` holding units of `player`, to an
/// in-grid cell, takes the smaller of those units and the amount asked for off
/// the source's pending change and adds them to the pending change of the
/// pathfinder's step. A `Spawn` of a positive amount that the bank covers adds
/// the units to the cell's pending change and costs `UNIT_COST` each.
pub open spec fn move_step(
    tiles: Seq<Tile>,
    b: int,
    a: Action,
    player: TileOwner,
    walls: Seq<bool>,
    w: usize,
    h: usize,
) -> (Seq<Tile>, int) {
    match a {
        Action::Move(o) => {
            let i = at(w, o.fromX, o.fromY);
            if o.fromX < w && o.fromY < h && o.toX < w && o.toY < h && tiles[i].owner == player
                && signed(player, tiles[i].units as int) > 0 {
                let avail = signed(player, tiles[i].units as int);
                let m = if avail < o.amount { avail } else { o.amount as int };
                let st = path_step(walls, w, h, TVec2 { x: o.fromX, y: o.fromY }, TVec2 { x: o.toX, y: o.toY });
                let j = cell(w, st);
                let t1 = tiles.update(i, with_delta(tiles[i], tiles[i].delta_units - signed(player, m)));
                (t1.update(j, with_delta(t1[j], t1[j].delta_units + signed(player, m))), b)
            } else {
                (tiles, b)
            }
        },
        Action::Spawn(o) => {
            let i = at(w, o.x, o.y);
            if o.amount > 0 && b >= o.amount * UNIT_COST && o.x < w && o.y < h {
                (
                    tiles.update(i, with_delta(tiles[i], tiles[i].delta_units + signed(player, o.amount as int))),
                    b - o.amount * UNIT_COST,
                )
            } else {
                (tiles, b)
            }
        },
        Action::Build(_) => (tiles, b),
    }
}

/// The move-and-spawn phase of one player: every order in turn.
pub open spec fn move_run(
    tiles: Seq<Tile>,
    b: int,
    acts: Seq<Action>,
    player: TileOwner,
    walls: Seq<bool>,
    w: usize,
    h: usize,
) -> (Seq<Tile>, int)
    decreases acts.len(),
{
    if acts.len() == 0 {
        (tiles, b)
    } else {
        let r = move_step(tiles, b, acts[0], player, walls, w, h);
        move_run(r.0, r.1, acts.drop_first(), player, walls, w, h)
    }
}

pub open spec fn move_player(s: GridState, acts: Seq<Action>, player: TileOwner, walls: Seq<bool>, w: usize, h: usize) -> GridState {
    let r = move_run(s.tiles, bank(s, player), acts, player, walls, w, h);
    with_bank(s, player, r.0, r.1)
}

/// Both players' moves and spawns, over the walls of the grid as it was when
/// the phase began.
pub open spec fn move_phase(s: GridState, my: Seq<Action>, en: Seq<Action>, w: usize, h: usize) -> GridState {
    let walls = walls_of(s.tiles);
    move_player(move_player(s, my, TileOwner::Me, walls, w, h), en, TileOwner::Enemy, walls, w, h)
}

// ---------------------------------------------------------------- resolve

/// A cell after its pending change is folded into its units; the owner follows
/// the sign of the units and stays as it was when they are zero.
pub open spec fn resolve_tile(t: Tile) -> Tile {
    let u = t.units + t.delta_units;
    Tile {
        scrap_amount: t.scrap_amount,
        recycler: t.recycler,
        units: u as i64,
        delta_units: 0,
        owner: if u > 0 {
            TileOwner::Me
        } else if u < 0 {
            TileOwner::Enemy
        } else {
            t.owner
        },
    }
}

pub open spec fn resolve_phase(s: GridState) -> GridState {
    GridState {
        tiles: Seq::new(s.tiles.len(), |i: int| resolve_tile(s.tiles[i])),
        my_scrap: s.my_scrap,
        enemy_scrap: s.enemy_scrap,
    }
}

// ---------------------------------------------------------------- recyclers

/// `(x, y)` is in the grid and holds a recycler of `player`.
pub open spec fn recycler_at(tiles: Seq<Tile>, w: usize, h: usize, x: int, y: int, player: TileOwner) -> bool {
    0 <= x < w && 0 <= y < h && tiles[y * w + x].recycler && tiles[y * w + x].owner == player
}

/// `(x, y)` holds a recycler of `player` or is orthogonally next to one.
pub open spec fn near_recycler(tiles: Seq<Tile>, w: usize, h: usize, x: int, y: int, player: TileOwner) -> bool {
    recycler_at(tiles, w, h, x, y, player) || recycler_at(tiles, w, h, x - 1, y, player) || recycler_at(
        tiles,
        w,
        h,
        x + 1,
        y,
        player,
    ) || recycler_at(tiles, w, h, x, y - 1, player) || recycler_at(tiles, w, h, x, y + 1, player)
}

/// The reach of `player`'s recyclers, cell by cell.
pub open spec fn reach(tiles: Seq<Tile>, w: usize, h: usize, player: TileOwner) -> Seq<bool> {
    Seq::new(tiles.len(), |i: int| near_recycler(tiles, w, h, i % (w as int), i / (w as int), player))
}

/// A cell in reach of some recycler loses one scrap if it has any; a cell whose
/// scrap runs out this way is cleared.
pub open spec fn recycle_tile(t: Tile, in_reach: bool) -> Tile {
    if in_reach && t.scrap_amount > 0 {
        if t.scrap_amount == 1 {
            Tile { scrap_amount: 0, recycler: false, units: 0, delta_units: 0, owner: TileOwner::No }
        } else {
            Tile {
                scrap_amount: (t.scrap_amount - 1) as i32,
                recycler: t.recycler,
                units: t.units,
                delta_units: t.delta_units,
                owner: t.owner,
            }
        }
    } else {
        t
    }
}

/// Number of cells among the first `n` that are in `reach` and still hold scrap.
pub open spec fn income(tiles: Seq<Tile>, reach: Seq<bool>, n: int) -> int
    decreases n,
{
    if n <= 0 {
        0
    } else {
        income(tiles, reach, n - 1) + if reach[n - 1] && tiles[n - 1].scrap_amount > 0 {
            1int
        } else {
            0int
        }
    }
}

/// Recyclers consume scrap: each player earns one per cell of its reach that
/// holds scrap, and each such cell loses one, once, whoever reaches it.
pub open spec fn recycle_phase(s: GridState, w: usize, h: usize) -> GridState {
    let me = reach(s.tiles, w, h, TileOwner::Me);
    let en = reach(s.tiles, w, h, TileOwner::Enemy);
    let n = s.tiles.len() as int;
    GridState {
        tiles: Seq::new(s.tiles.len(), |i: int| recycle_tile(s.tiles[i], me[i] || en[i])),
        my_scrap: s.my_scrap + income(s.tiles, me, n),
        enemy_scrap: s.enemy_scrap + income(s.tiles, en, n),
    }
}

// ---------------------------------------------------------------- turn

/// A whole turn: build, move and spawn, resolve, recyclers, income.
pub open spec fn turn(s: GridState, my: Seq<Action>, en: Seq<Action>, w: usize, h: usize) -> GridState {
    let c = recycle_phase(resolve_phase(move_phase(build_phase(s, my, en, w, h), my, en, w, h)), w, h);
    GridState { tiles: c.tiles, my_scrap: c.my_scrap + TURN_INCOME, enemy_scrap: c.enemy_scrap + TURN_INCOME }
}

/// The cells of a turn as the recycler phase finds them.
pub open spec fn resolved_cells(s: GridState, my: Seq<Action>, en: Seq<Action>, w: usize, h: usize) -> Seq<Tile> {
    resolve_phase(move_phase(build_phase(s, my, en, w, h), my, en, w, h)).tiles
}

/// Unit counts and pending changes of every cell are within `bound`.
pub open spec fn units_within(tiles: Seq<Tile>, bound: int) -> bool {
    forall|i: int|
        0 <= i < tiles.len() ==> -UNIT_LIMIT <= #[trigger] tiles[i].units <= UNIT_LIMIT && -bound
            <= tiles[i].delta_units <= bound
}

/// Only the pending changes of the cells may differ.
pub open spec fn same_but_delta(a: Seq<Tile>, b: Seq<Tile>) -> bool {
    &&& a.len() == b.len()
    &&& forall|i: int|
        0 <= i < a.len() ==> (#[trigger] a[i]).units == b[i].units && a[i].owner == b[i].owner && a[i].scrap_amount
            == b[i].scrap_amount && a[i].recycler == b[i].recycler
}

proof fn lemma_at_in_range(w: usize, h: usize, x: usize, y: usize)
    requires
        x < w,
        y < h,
    ensures
        0 <= at(w, x, y) < w * h,
{
    assert(y * w + x < w * h) by (nonlinear_arith)
        requires
            x < w,
            y < h,
    ;
}

proof fn lemma_coords(idx: int, w: int, h: int)
    requires
        0 <= idx < w * h,
        0 <= w,
        0 <= h,
    ensures
        w > 0,
        0 <= idx / w < h,
        0 <= idx % w < w,
{
    assert(w > 0) by (nonlinear_arith)
        requires
            0 <= idx < w * h,
            0 <= w,
            0 <= h,
    ;
    vstd::arithmetic::div_mod::lemma_fundamental_div_mod(idx, w);
    let q = idx / w;
    let r = idx % w;
    assert(0 <= q < h) by (nonlinear_arith)
        requires
            idx == w * q + r,
            0 <= r < w,
            0 <= idx < w * h,
            w > 0,
    ;
}

impl Grid {
    /// No recycler reach recorded yet, and the pathfinder's scratch space zeroed.
    pub open spec fn starts_clear(&self) -> bool {
        &&& forall|i: int| 0 <= i < self.w * self.h ==> !#[trigger] self.recycle_me@[i] && !self.recycle_enemy@[i]
        &&& forall|i: int|
            0 <= i < self.w * self.h ==> #[trigger] self.pathfinder.data@[i] == 0 && !self.pathfinder.walls@[i]
                && self.pathfinder.prev_point@[i] == (TVec2 { x: 0usize, y: 0usize })
    }

    pub open spec fn wf(&self) -> bool {
        &&& self.data@.len() == self.w * self.h
        &&& self.recycle_me@.len() == self.w * self.h
        &&& self.recycle_enemy@.len() == self.w * self.h
        &&& self.w * self.h < i32::MAX
        &&& self.pathfinder.wf()
        &&& self.pathfinder.w == self.w
        &&& self.pathfinder.h == self.h
    }

    fn get_bank(&self, player: TileOwner) -> (r: i32)
        ensures
            r == bank(self@, player),
    {
        if player == TileOwner::Me {
            self.my_scrap
        } else {
            self.enemy_scrap
        }
    }

    fn set_bank(&mut self, player: TileOwner, b: i32)
        ensures
            final(self)@ == with_bank(old(self)@, player, old(self).data@, b as int),
            final(self).data == old(self).data,
            final(self).recycle_me == old(self).recycle_me,
            final(self).recycle_enemy == old(self).recycle_enemy,
            final(self).w == old(self).w,
            final(self).h == old(self).h,
            final(self).pathfinder == old(self).pathfinder,
    {
        if player == TileOwner::Me {
            self.my_scrap = b;
        } else {
            self.enemy_scrap = b;
        }
    }

    /// The build orders of `player`, until its bank runs below `BUILD_COST`.
    fn build_player(&mut self, acts: &Vec<Action>, player: TileOwner)
        requires
            old(self).wf(),
        ensures
            final(self).wf(),
            final(self).w == old(self).w,
            final(self).h == old(self).h,
            final(self).pathfinder == old(self).pathfinder,
            final(self).recycle_me == old(self).recycle_me,
            final(self).recycle_enemy == old(self).recycle_enemy,
            final(self)@ == build_player(old(self)@, acts@, player, old(self).w, old(self).h),
            bank(final(self)@, player) <= bank(old(self)@, player),
            forall|i: int|
                0 <= i < old(self).data@.len() ==> (#[trigger] final(self).data@[i]).units == old(self).data@[i].units
                    && final(self).data@[i].delta_units == old(self).data@[i].delta_units,
    {
        let ghost t0 = self.data@;
        let ghost b0 = bank(self@, player);
        let n = acts.len();
        let mut b = self.get_bank(player);
        let mut i: usize = 0;
        assert(acts@.subrange(0, n as int) =~= acts@);
        while i < n && b >= BUILD_COST
            invariant
                self.wf(),
                self.w == old(self).w,
                self.h == old(self).h,
                self.pathfinder == old(self).pathfinder,
                self.recycle_me == old(self).recycle_me,
                self.recycle_enemy == old(self).recycle_enemy,
                self.my_scrap == old(self).my_scrap,
                self.enemy_scrap == old(self).enemy_scrap,
                n == acts@.len(),
                0 <= i <= n,
                b <= b0,
                self.data@.len() == t0.len(),
                forall|j: int|
                    0 <= j < t0.len() ==> (#[trigger] self.data@[j]).units == t0[j].units && self.data@[j].delta_units
                        == t0[j].delta_units,
                build_run(t0, b0, acts@, player, self.w, self.h) == build_run(
                    self.data@,
                    b as int,
                    acts@.subrange(i as int, n as int),
                    player,
                    self.w,
                    self.h,
                ),
            decreases n - i,
        {
            let ghost rest = acts@.subrange(i as int, n as int);
            assert(rest.drop_first() =~= acts@.subrange(i + 1, n as int));
            assert(rest[0] == acts@[i as int]);
            let a = &acts[i];
            match a {
                Action::Build(o) => {
                    if o.x < self.w && o.y < self.h {
                        proof {
                            lemma_at_in_range(self.w, self.h, o.x, o.y);
                        }
                        let idx = o.y * self.w + o.x;
                        let t = self.data[idx];
                        if t.owner == player && t.units == 0 {
                            let mut t2 = t;
                            t2.recycler = true;
                            self.data.set(idx, t2);
                            b = b - BUILD_COST;
                        }
                    }
                },
                _ => {},
            }
            i = i + 1;
        }
        self.set_bank(player, b);
    }

    /// The build phase: each player's build orders, the first player's first.
    pub fn build(&mut self, my_actions: &Vec<Action>, enemy_actions: &Vec<Action>)
        requires
            old(self).wf(),
        ensures
            final(self).wf(),
            final(self).w == old(self).w,
            final(self).h == old(self).h,
            final(self).pathfinder == old(self).pathfinder,
            final(self).recycle_me == old(self).recycle_me,
            final(self).recycle_enemy == old(self).recycle_enemy,
            final(self)@ == build_phase(old(self)@, my_actions@, enemy_actions@, old(self).w, old(self).h),
            final(self).my_scrap <= old(self).my_scrap,
            final(self).enemy_scrap <= old(self).enemy_scrap,
            forall|i: int|
                0 <= i < old(self).data@.len() ==> (#[trigger] final(self).data@[i]).units == old(self).data@[i].units
                    && final(self).data@[i].delta_units == old(self).data@[i].delta_units,
    {
        self.build_player(my_actions, TileOwner::Me);
        self.build_player(enemy_actions, TileOwner::Enemy);
    }

    /// One move or spawn order of `player`, whose bank holds `b`; returns the
    /// bank after the order.
    fn move_order(&mut self, a: &Action, player: TileOwner, b: i32, Ghost(bound): Ghost<int>) -> (nb: i32)
        requires
            old(self).wf(),
            player != TileOwner::No,
            UNIT_LIMIT <= bound <= UNIT_LIMIT * (1 + 2 * MAX_ORDERS),
            units_within(old(self).data@, bound),
            old(self).pathfinder.walls@.len() == old(self).data@.len(),
        ensures
            final(self).wf(),
            final(self).w == old(self).w,
            final(self).h == old(self).h,
            final(self).my_scrap == old(self).my_scrap,
            final(self).enemy_scrap == old(self).enemy_scrap,
            final(self).pathfinder.walls@ == old(self).pathfinder.walls@,
            final(self).recycle_me == old(self).recycle_me,
            final(self).recycle_enemy == old(self).recycle_enemy,
            (final(self).data@, nb as int) == move_step(
                old(self).data@,
                b as int,
                *a,
                player,
                old(self).pathfinder.walls@,
                old(self).w,
                old(self).h,
            ),
            nb <= b,
            same_but_delta(old(self).data@, final(self).data@),
            units_within(final(self).data@, bound + UNIT_LIMIT),
    {
        let ghost cur = self.data@;
        let ghost walls = self.pathfinder.walls@;
        let ghost nbound = bound + UNIT_LIMIT;
        let w = self.w;
        let h = self.h;
        match a {
            Action::Move(o) => {
                if o.fromX < w && o.fromY < h && o.toX < w && o.toY < h {
                    proof {
                        lemma_at_in_range(w, h, o.fromX, o.fromY);
                    }
                    let idx = o.fromY * w + o.fromX;
                    let t = self.data[idx];
                    let avail: i64 = if player == TileOwner::Me { t.units } else { -t.units };
                    if t.owner == player && avail > 0 {
                        let m: i64 = if avail < o.amount as i64 { avail } else { o.amount as i64 };
                        let sm: i64 = if player == TileOwner::Me { m } else { -m };
                        let st = self.pathfinder.find_path(&TVec2::new(o.fromX, o.fromY), &TVec2::new(o.toX, o.toY));
                        let mut ts = t;
                        ts.delta_units = t.delta_units - sm;
                        self.data.set(idx, ts);
                        proof {
                            lemma_at_in_range(w, h, st.x, st.y);
                        }
                        let j = st.y * w + st.x;
                        let mut td = self.data[j];
                        td.delta_units = td.delta_units + sm;
                        self.data.set(j, td);
                        assert(self.data@ =~= move_step(cur, b as int, *a, player, walls, w, h).0);
                        assert forall|q: int| 0 <= q < self.data@.len() implies -UNIT_LIMIT
                            <= #[trigger] self.data@[q].units <= UNIT_LIMIT && -nbound <= self.data@[q].delta_units
                            <= nbound by {
                            assert(-UNIT_LIMIT <= cur[q].units <= UNIT_LIMIT);
                            if q != j as int && q != idx as int {
                                assert(self.data@[q] == cur[q]);
                            }
                        }
                    }
                }
                assert forall|q: int| 0 <= q < self.data@.len() implies -UNIT_LIMIT
                    <= #[trigger] self.data@[q].units <= UNIT_LIMIT && -nbound <= self.data@[q].delta_units
                    <= nbound by {
                    assert(-UNIT_LIMIT <= cur[q].units <= UNIT_LIMIT);
                }
                assert(units_within(self.data@, nbound));
                b
            },
            Action::Spawn(o) => {
                let cost: i64 = o.amount as i64 * UNIT_COST;
                if o.amount > 0 && b as i64 >= cost && o.x < w && o.y < h {
                    proof {
                        lemma_at_in_range(w, h, o.x, o.y);
                    }
                    let idx = o.y * w + o.x;
                    let mut t = self.data[idx];
                    let sa: i64 = if player == TileOwner::Me { o.amount as i64 } else { -(o.amount as i64) };
                    t.delta_units = t.delta_units + sa;
                    self.data.set(idx, t);
                    assert(self.data@ =~= move_step(cur, b as int, *a, player, walls, w, h).0);
                    assert forall|q: int| 0 <= q < self.data@.len() implies -UNIT_LIMIT
                        <= #[trigger] self.data@[q].units <= UNIT_LIMIT && -nbound <= self.data@[q].delta_units
                        <= nbound by {
                        assert(-UNIT_LIMIT <= cur[q].units <= UNIT_LIMIT);
                        if q != idx as int {
                            assert(self.data@[q] == cur[q]);
                        }
                    }
                    (b as i64 - cost) as i32
                } else {
                    b
                }
            },
            Action::Build(_) => b,
        }
    }

    /// The move and spawn orders of `player`, in turn.
    fn move_player(&mut self, acts: &Vec<Action>, player: TileOwner, Ghost(k): Ghost<int>)
        requires
            old(self).wf(),
            player != TileOwner::No,
            0 <= k <= MAX_ORDERS,
            acts@.len() <= MAX_ORDERS,
            units_within(old(self).data@, UNIT_LIMIT * (1 + k)),
            old(self).pathfinder.walls@ == walls_of(old(self).data@),
        ensures
            final(self).wf(),
            final(self).w == old(self).w,
            final(self).h == old(self).h,
            final(self).pathfinder.walls@ == old(self).pathfinder.walls@,
            final(self).recycle_me == old(self).recycle_me,
            final(self).recycle_enemy == old(self).recycle_enemy,
            final(self)@ == move_player(
                old(self)@,
                acts@,
                player,
                walls_of(old(self).data@),
                old(self).w,
                old(self).h,
            ),
            bank(final(self)@, player) <= bank(old(self)@, player),
            same_but_delta(old(self).data@, final(self).data@),
            units_within(final(self).data@, UNIT_LIMIT * (1 + k + acts@.len())),
    {
        let ghost t0 = self.data@;
        let ghost b0 = bank(self@, player);
        let ghost walls = walls_of(t0);
        let n = acts.len();
        let w = self.w;
        let h = self.h;
        let mut b = self.get_bank(player);
        let mut i: usize = 0;
        assert(acts@.subrange(0, n as int) =~= acts@);
        while i < n
            invariant
                self.wf(),
                self.w == w,
                self.h == h,
                w == old(self).w,
                h == old(self).h,
                self.pathfinder.walls@ == walls,
                walls.len() == t0.len(),
                self.recycle_me == old(self).recycle_me,
                self.recycle_enemy == old(self).recycle_enemy,
                self.my_scrap == old(self).my_scrap,
                self.enemy_scrap == old(self).enemy_scrap,
                player != TileOwner::No,
                0 <= k <= MAX_ORDERS,
                n == acts@.len(),
                n <= MAX_ORDERS,
                0 <= i <= n,
                b <= b0,
                same_but_delta(t0, self.data@),
                units_within(self.data@, UNIT_LIMIT * (1 + k + i)),
                move_run(t0, b0, acts@, player, walls, w, h) == move_run(
                    self.data@,
                    b as int,
                    acts@.subrange(i as int, n as int),
                    player,
                    walls,
                    w,
                    h,
                ),
            decreases n - i,
        {
            let ghost rest = acts@.subrange(i as int, n as int);
            let ghost before = self.data@;
            assert(rest.drop_first() =~= acts@.subrange(i + 1, n as int));
            assert(rest[0] == acts@[i as int]);
            b = self.move_order(&acts[i], player, b, Ghost(UNIT_LIMIT * (1 + k + i)));
            assert(same_but_delta(t0, self.data@)) by {
                assert forall|q: int| 0 <= q < t0.len() implies (#[trigger] t0[q]).units == self.data@[q].units
                    && t0[q].owner == self.data@[q].owner && t0[q].scrap_amount == self.data@[q].scrap_amount
                    && t0[q].recycler == self.data@[q].recycler by {
                    assert(before[q].units == self.data@[q].units);
                }
            }
            i = i + 1;
        }
        self.set_bank(player, b);
    }

    /// The move-and-spawn phase: the walls are set from the grid as it is now,
    /// then each player's moves and spawns are applied, the first player's first.
    pub fn move_spawn(&mut self, my_actions: &Vec<Action>, enemy_actions: &Vec<Action>)
        requires
            old(self).wf(),
            my_actions@.len() <= MAX_ORDERS,
            enemy_actions@.len() <= MAX_ORDERS,
            units_within(old(self).data@, UNIT_LIMIT as int),
        ensures
            final(self).wf(),
            final(self).w == old(self).w,
            final(self).h == old(self).h,
            final(self)@ == move_phase(old(self)@, my_actions@, enemy_actions@, old(self).w, old(self).h),
            final(self).pathfinder.walls@ == walls_of(old(self).data@),
            final(self).recycle_me == old(self).recycle_me,
            final(self).recycle_enemy == old(self).recycle_enemy,
            final(self).my_scrap <= old(self).my_scrap,
            final(self).enemy_scrap <= old(self).enemy_scrap,
            same_but_delta(old(self).data@, final(self).data@),
            units_within(final(self).data@, UNIT_LIMIT * (1 + 2 * MAX_ORDERS)),
    {
        let n = self.data.len();
        let mut idx: usize = 0;
        while idx < n
            invariant
                self.wf(),
                self.w == old(self).w,
                self.h == old(self).h,
                self.data == old(self).data,
                self.recycle_me == old(self).recycle_me,
                self.recycle_enemy == old(self).recycle_enemy,
                self.my_scrap == old(self).my_scrap,
                self.enemy_scrap == old(self).enemy_scrap,
                n == self.data@.len(),
                0 <= idx <= n,
                forall|i: int|
                    0 <= i < idx ==> #[trigger] self.pathfinder.walls@[i] == (self.data@[i].recycler
                        || self.data@[i].scrap_amount == 0),
            decreases n - idx,
        {
            let tile = self.data[idx];
            let wall = tile.recycler || tile.scrap_amount == 0;
            self.pathfinder.walls.set(idx, wall);
            idx = idx + 1;
        }
        assert(self.pathfinder.walls@ =~= walls_of(self.data@));
        let ghost s0 = self@;
        self.move_player(my_actions, TileOwner::Me, Ghost(0));
        let ghost s1 = self@;
        assert(walls_of(s1.tiles) =~= walls_of(s0.tiles));
        self.move_player(enemy_actions, TileOwner::Enemy, Ghost(my_actions@.len() as int));
    }

    fn recycler_at(&self, x: usize, y: usize, player: TileOwner) -> (r: bool)
        requires
            self.wf(),
            x < self.w,
            y < self.h,
        ensures
            r == recycler_at(self.data@, self.w, self.h, x as int, y as int, player),
    {
        proof {
            lemma_at_in_range(self.w, self.h, x, y);
        }
        let t = self.data[y * self.w + x];
        t.recycler && t.owner == player
    }

    fn near_recycler(&self, x: usize, y: usize, player: TileOwner) -> (r: bool)
        requires
            self.wf(),
            x < self.w,
            y < self.h,
        ensures
            r == near_recycler(self.data@, self.w, self.h, x as int, y as int, player),
    {
        let mut r = self.recycler_at(x, y, player);
        if x > 0 && self.recycler_at(x - 1, y, player) {
            r = true;
        }
        if x + 1 < self.w && self.recycler_at(x + 1, y, player) {
            r = true;
        }
        if y > 0 && self.recycler_at(x, y - 1, player) {
            r = true;
        }
        if y + 1 < self.h && self.recycler_at(x, y + 1, player) {
            r = true;
        }
        r
    }

    /// The recycler phase: each player's reach is computed afresh; every cell
    /// in some reach that holds scrap loses one, each player whose reach holds
    /// it earns one, and a cell whose scrap runs out is cleared.
    pub fn recycler_process(&mut self)
        requires
            old(self).wf(),
            old(self).my_scrap + old(self).w * old(self).h <= i32::MAX,
            old(self).enemy_scrap + old(self).w * old(self).h <= i32::MAX,
        ensures
            final(self).wf(),
            final(self).w == old(self).w,
            final(self).h == old(self).h,
            final(self)@ == recycle_phase(old(self)@, old(self).w, old(self).h),
            final(self).recycle_me@ == reach(old(self).data@, old(self).w, old(self).h, TileOwner::Me),
            final(self).recycle_enemy@ == reach(old(self).data@, old(self).w, old(self).h, TileOwner::Enemy),
            final(self).pathfinder == old(self).pathfinder,
            forall|i: int|
                #![trigger final(self).data@[i]]
                0 <= i < old(self).data@.len() ==> final(self).data@[i].scrap_amount == (if old(self).data@[i].scrap_amount
                    > 0 && (final(self).recycle_me@[i] || final(self).recycle_enemy@[i]) {
                    old(self).data@[i].scrap_amount - 1
                } else {
                    old(self).data@[i].scrap_amount as int
                }),
            final(self).my_scrap <= old(self).my_scrap + old(self).w * old(self).h,
            final(self).enemy_scrap <= old(self).enemy_scrap + old(self).w * old(self).h,
    {
        let ghost t0 = self.data@;
        let w = self.w;
        let h = self.h;
        let n = self.data.len();
        let ghost me = reach(t0, w, h, TileOwner::Me);
        let ghost en = reach(t0, w, h, TileOwner::Enemy);
        let mut idx: usize = 0;
        while idx < n
            invariant
                self.wf(),
                self.w == w,
                self.h == h,
                self.data@ == t0,
                self.pathfinder == old(self).pathfinder,
                self.my_scrap == old(self).my_scrap,
                self.enemy_scrap == old(self).enemy_scrap,
                n == t0.len(),
                n == w * h,
                0 <= idx <= n,
                me == reach(t0, w, h, TileOwner::Me),
                en == reach(t0, w, h, TileOwner::Enemy),
                forall|i: int| 0 <= i < idx ==> #[trigger] self.recycle_me@[i] == me[i],
                forall|i: int| 0 <= i < idx ==> #[trigger] self.recycle_enemy@[i] == en[i],
            decreases n - idx,
        {
            proof {
                lemma_coords(idx as int, w as int, h as int);
            }
            let x = idx % w;
            let y = idx / w;
            let rm = self.near_recycler(x, y, TileOwner::Me);
            let re = self.near_recycler(x, y, TileOwner::Enemy);
            assert(me[idx as int] == rm);
            assert(en[idx as int] == re);
            self.recycle_me.set(idx, rm);
            self.recycle_enemy.set(idx, re);
            idx = idx + 1;
        }
        assert(self.recycle_me@ =~= me);
        assert(self.recycle_enemy@ =~= en);
        idx = 0;
        while idx < n
            invariant
                self.wf(),
                self.w == w,
                self.h == h,
                self.recycle_me@ == me,
                self.recycle_enemy@ == en,
                self.pathfinder == old(self).pathfinder,
                me == reach(t0, w, h, TileOwner::Me),
                en == reach(t0, w, h, TileOwner::Enemy),
                n == t0.len(),
                n == w * h,
                self.data@.len() == n,
                0 <= idx <= n,
                old(self).my_scrap + n <= i32::MAX,
                old(self).enemy_scrap + n <= i32::MAX,
                self.my_scrap == old(self).my_scrap + income(t0, me, idx as int),
                self.enemy_scrap == old(self).enemy_scrap + income(t0, en, idx as int),
                0 <= income(t0, me, idx as int) <= idx,
                0 <= income(t0, en, idx as int) <= idx,
                forall|i: int| 0 <= i < idx ==> #[trigger] self.data@[i] == recycle_tile(t0[i], me[i] || en[i]),
                forall|i: int| idx <= i < n ==> #[trigger] self.data@[i] == t0[i],
            decreases n - idx,
        {
            let mut tile = self.data[idx];
            let r_me = self.recycle_me[idx];
            let r_enemy = self.recycle_enemy[idx];
            if (r_me || r_enemy) && tile.scrap_amount > 0 {
                tile.scrap_amount = tile.scrap_amount - 1;
                if r_me {
                    self.my_scrap = self.my_scrap + 1;
                }
                if r_enemy {
                    self.enemy_scrap = self.enemy_scrap + 1;
                }
                if tile.scrap_amount == 0 {
                    tile.owner = TileOwner::No;
                    tile.units = 0;
                    tile.delta_units = 0;
                    tile.recycler = false;
                }
                self.data.set(idx, tile);
            }
            idx = idx + 1;
        }
        assert(self.data@ =~= recycle_phase(old(self)@, w, h).tiles);
    }

    /// Plays one turn: the build phase, the move-and-spawn phase, the units
    /// folded in and owners set, the recyclers, then each player's income.
    pub fn next_turn(&mut self, my_actions: &Vec<Action>, enemy_actions: &Vec<Action>)
        requires
            old(self).wf(),
            units_within(old(self).data@, UNIT_LIMIT as int),
            my_actions@.len() <= MAX_ORDERS,
            enemy_actions@.len() <= MAX_ORDERS,
            old(self).my_scrap + old(self).w * old(self).h + TURN_INCOME <= i32::MAX,
            old(self).enemy_scrap + old(self).w * old(self).h + TURN_INCOME <= i32::MAX,
        ensures
            final(self).wf(),
            final(self).w == old(self).w,
            final(self).h == old(self).h,
            final(self)@ == turn(old(self)@, my_actions@, enemy_actions@, old(self).w, old(self).h),
            final(self).recycle_me@ == reach(
                resolved_cells(old(self)@, my_actions@, enemy_actions@, old(self).w, old(self).h),
                old(self).w,
                old(self).h,
                TileOwner::Me,
            ),
            final(self).recycle_enemy@ == reach(
                resolved_cells(old(self)@, my_actions@, enemy_actions@, old(self).w, old(self).h),
                old(self).w,
                old(self).h,
                TileOwner::Enemy,
            ),
            final(self).pathfinder.walls@ == walls_of(
                build_phase(old(self)@, my_actions@, enemy_actions@, old(self).w, old(self).h).tiles,
            ),
    {
        self.build(my_actions, enemy_actions);
        assert(units_within(self.data@, UNIT_LIMIT as int)) by {
            assert forall|i: int| 0 <= i < self.data@.len() implies -UNIT_LIMIT <= #[trigger] self.data@[i].units
                <= UNIT_LIMIT && -UNIT_LIMIT <= self.data@[i].delta_units <= UNIT_LIMIT by {
                assert(old(self).data@[i].units == self.data@[i].units);
            }
        }
        self.move_spawn(my_actions, enemy_actions);
        assert forall|i: int| 0 <= i < self.data@.len() implies i64::MIN <= #[trigger] self.data@[i].units
            + self.data@[i].delta_units <= i64::MAX by {
            assert(-UNIT_LIMIT <= self.data@[i].units <= UNIT_LIMIT);
        }
        self.tile_process();
        self.recycler_process();
        self.my_scrap = self.my_scrap + TURN_INCOME;
        self.enemy_scrap = self.enemy_scrap + TURN_INCOME;
    }

    /// The grid a text describes; `None` for a text that describes none.
    pub fn load(data: String) -> (r: Option<Grid>)
        ensures
            load_text(data@) is None ==> r is None,
            load_text(data@) is Some ==> r is Some && {
                let g = load_text(data@).unwrap();
                let m = r.unwrap();
                &&& m.wf()
                &&& m.w == g.w
                &&& m.h == g.h
                &&& m@ == (GridState { tiles: g.tiles, my_scrap: g.my_scrap as int, enemy_scrap: g.enemy_scrap as int })
                &&& m.starts_clear()
            },
    {
        let s = data.as_str();
        if !s.is_ascii() {
            return None;
        }
        let t = s.as_bytes();
        proof {
            vstd::string::is_ascii_spec_bytes(s);
            assert(t@ =~= Seq::new(data@.len(), |i: int| data@[i] as u8));
        }
        Grid::from_text(t)
    }

    fn from_text(t: &[u8]) -> (r: Option<Grid>)
        ensures
            parse_grid(t@) is None ==> r is None,
            parse_grid(t@) is Some ==> r is Some && {
                let g = parse_grid(t@).unwrap();
                let m = r.unwrap();
                &&& m.wf()
                &&& m.w == g.w
                &&& m.h == g.h
                &&& m@ == (GridState { tiles: g.tiles, my_scrap: g.my_scrap as int, enemy_scrap: g.enemy_scrap as int })
                &&& m.starts_clear()
            },
    {
        let ghost rs = split(t@, 59);
        assert(t@.subrange(0, t@.len() as int) =~= t@);
        let recs = split_ranges(t, 0, t.len(), 59);
        if recs.len() < 2 {
            return None;
        }
        let (a0, b0) = recs[0];
        let (a1, b1) = recs[1];
        assert(recs@[0] == (a0, b0) && recs@[1] == (a1, b1));
        let ow = record_field(t, a0, b0, 0);
        let oh = record_field(t, a0, b0, 1);
        let oa = record_field(t, a1, b1, 0);
        let ob = record_field(t, a1, b1, 1);
        let (w, h, my_scrap, enemy_scrap) = match (ow, oh, oa, ob) {
            (Some(w), Some(h), Some(a), Some(b)) => (w, h, a, b),
            _ => {
                return None;
            },
        };
        if w < 0 || h < 0 {
            return None;
        }
        assert(0 <= w as i64 * h as i64 <= 0x4000_0000_0000_0000) by (nonlinear_arith)
            requires
                0 <= w <= i32::MAX,
                0 <= h <= i32::MAX,
        ;
        let n64 = w as i64 * h as i64;
        if n64 >= i32::MAX as i64 {
            return None;
        }
        let n = n64 as usize;
        if recs.len() - 2 < n {
            return None;
        }
        proof {
            assert(rs[0] == t@.subrange(a0 as int, b0 as int));
            assert(rs[1] == t@.subrange(a1 as int, b1 as int));
            assert(field(rs[0], 0) == Some(w as int));
            assert(field(rs[0], 1) == Some(h as int));
            assert(field(rs[1], 0) == Some(my_scrap as int));
            assert(field(rs[1], 1) == Some(enemy_scrap as int));
        }
        let wu = w as usize;
        let hu = h as usize;
        let mut data: Vec<Tile> = Vec::new();
        let mut i: usize = 0;
        while i < n
            invariant
                i <= n,
                n == w * h,
                0 <= w,
                0 <= h,
                n < i32::MAX,
                2 + n <= recs.len(),
                field(rs[0], 0) == Some(w as int),
                field(rs[0], 1) == Some(h as int),
                field(rs[1], 0) == Some(my_scrap as int),
                field(rs[1], 1) == Some(enemy_scrap as int),
                recs@.len() == rs.len(),
                rs == split(t@, 59),
                forall|k: int|
                    0 <= k < recs@.len() ==> (#[trigger] recs@[k]).0 <= recs@[k].1 <= t@.len() && t@.subrange(
                        recs@[k].0 as int,
                        recs@[k].1 as int,
                    ) == rs[k],
                data@.len() == i,
                forall|k: int| 0 <= k < i ==> cell_ok(#[trigger] rs[2 + k]) && data@[k] == tile_of(rs[2 + k]),
            decreases n - i,
        {
            let j = i + 2;
            let (lo, hi) = recs[j];
            assert(recs@[j as int] == (lo, hi));
            match tile_at(t, lo, hi) {
                Some(tile) => {
                    data.push(tile);
                },
                None => {
                    assert(!cell_ok(rs[2 + i]));
                    assert(0 <= i < w * h);
                    assert(exists|k: int| 0 <= k < w * h && !cell_ok(#[trigger] rs[2 + k]));
                    assert(parse_grid(t@) is None);
                    return None;
                },
            }
            i = i + 1;
        }
        assert(data@ =~= parse_grid(t@).unwrap().tiles);
        let pathfinder = Pathfinder::new(wu, hu);
        Some(
            Grid {
                data,
                recycle_me: vec![false; n],
                recycle_enemy: vec![false; n],
                w: wu,
                h: hu,
                my_scrap,
                enemy_scrap,
                pathfinder,
            },
        )
    }

    /// Folds every cell's pending change into its units and sets its owner
    /// from their sign.
    pub fn tile_process(&mut self)
        requires
            old(self).wf(),
            forall|i: int|
                0 <= i < old(self).data@.len() ==> i64::MIN <= #[trigger] old(self).data@[i].units
                    + old(self).data@[i].delta_units <= i64::MAX,
        ensures
            final(self).wf(),
            final(self).w == old(self).w,
            final(self).h == old(self).h,
            final(self)@ == resolve_phase(old(self)@),
            final(self).recycle_me == old(self).recycle_me,
            final(self).recycle_enemy == old(self).recycle_enemy,
            final(self).pathfinder == old(self).pathfinder,
            forall|i: int|
                #![trigger final(self).data@[i]]
                0 <= i < final(self).data@.len() ==> (final(self).data@[i].units > 0 ==> final(self).data@[i].owner
                    == TileOwner::Me) && (final(self).data@[i].units < 0 ==> final(self).data@[i].owner
                    == TileOwner::Enemy),
    {
        let ghost d0 = self.data@;
        let n = self.data.len();
        let mut idx: usize = 0;
        while idx < n
            invariant
                self.wf(),
                self.w == old(self).w,
                self.h == old(self).h,
                self.my_scrap == old(self).my_scrap,
                self.enemy_scrap == old(self).enemy_scrap,
                self.recycle_me == old(self).recycle_me,
                self.recycle_enemy == old(self).recycle_enemy,
                self.pathfinder == old(self).pathfinder,
                n == d0.len(),
                self.data@.len() == n,
                0 <= idx <= n,
                forall|i: int| 0 <= i < n ==> i64::MIN <= #[trigger] d0[i].units + d0[i].delta_units <= i64::MAX,
                forall|i: int| 0 <= i < idx ==> self.data@[i] == resolve_tile(#[trigger] d0[i]),
                forall|i: int| idx <= i < n ==> self.data@[i] == d0[i],
            decreases n - idx,
        {
            let mut tile = self.data[idx];
            assert(tile == d0[idx as int]);
            tile.units = tile.units + tile.delta_units;
            tile.delta_units = 0;
            if tile.units > 0 {
                tile.owner = TileOwner::Me;
            } else if tile.units < 0 {
                tile.owner = TileOwner::Enemy;
            }
            self.data.set(idx, tile);
            idx = idx + 1;
        }
        assert(self.data@ =~= resolve_phase(old(self)@).tiles);
    }
}

} // verus!
