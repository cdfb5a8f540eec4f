//! Facts that hold of every turn.
use vstd::prelude::*;
use crate::tile::{TileOwner, Tile, Action};
use crate::grid::{
    GridState, resolve_phase, recycler_at, near_recycler, recycle_phase, reach, income, turn, build_phase, move_phase, TURN_INCOME,
};

verus! {

/// After units are resolved, a cell with units belongs to the player their
/// sign names, and a cell that belongs to nobody holds no units.
pub proof fn resolve_owner_follows_units(s: GridState)
    requires
        forall|i: int|
            0 <= i < s.tiles.len() ==> i64::MIN <= #[trigger] s.tiles[i].units + s.tiles[i].delta_units <= i64::MAX,
    ensures
        forall|i: int|
            0 <= i < s.tiles.len() ==> {
                let t = #[trigger] resolve_phase(s).tiles[i];
                &&& t.units > 0 ==> t.owner == TileOwner::Me
                &&& t.units < 0 ==> t.owner == TileOwner::Enemy
                &&& t.owner == TileOwner::No ==> t.units == 0
            },
{
}

/// A cell without scrap holds no units, no recycler and no owner.
pub open spec fn barren_is_clear(tiles: Seq<Tile>) -> bool {
    forall|i: int|
        0 <= i < tiles.len() && #[trigger] tiles[i].scrap_amount == 0 ==> tiles[i].units == 0 && !tiles[i].recycler
            && tiles[i].owner == TileOwner::No
}

/// The recycler phase keeps every barren cell clear: those it empties it
/// clears, and it leaves the others as they were.
pub proof fn recycle_keeps_barren_clear(s: GridState, w: usize, h: usize)
    requires
        barren_is_clear(s.tiles),
    ensures
        barren_is_clear(recycle_phase(s, w, h).tiles),
{
    let me = reach(s.tiles, w, h, TileOwner::Me);
    let en = reach(s.tiles, w, h, TileOwner::Enemy);
    let t = recycle_phase(s, w, h).tiles;
    assert forall|i: int| 0 <= i < t.len() && #[trigger] t[i].scrap_amount == 0 implies t[i].units == 0
        && !t[i].recycler && t[i].owner == TileOwner::No by {
        assert(s.tiles[i].scrap_amount == 0 ==> s.tiles[i].units == 0);
    }
}

/// A turn is a function of the grid's state and the two batches of orders.
pub proof fn turn_is_deterministic(
    s1: GridState,
    s2: GridState,
    my1: Seq<Action>,
    my2: Seq<Action>,
    en1: Seq<Action>,
    en2: Seq<Action>,
    w: usize,
    h: usize,
)
    requires
        s1 == s2,
        my1 == my2,
        en1 == en2,
    ensures
        turn(s1, my1, en1, w, h) == turn(s2, my2, en2, w, h),
{
}

/// A cell with scrap in reach of both players' recyclers loses exactly one
/// scrap and pays exactly one to each bank.
pub proof fn shared_cell_pays_each_once(s: GridState, w: usize, h: usize, i: int)
    requires
        0 <= i < s.tiles.len(),
        reach(s.tiles, w, h, TileOwner::Me)[i],
        reach(s.tiles, w, h, TileOwner::Enemy)[i],
        s.tiles[i].scrap_amount > 0,
    ensures
        recycle_phase(s, w, h).tiles[i].scrap_amount == s.tiles[i].scrap_amount - 1,
        income(s.tiles, reach(s.tiles, w, h, TileOwner::Me), i + 1) == income(
            s.tiles,
            reach(s.tiles, w, h, TileOwner::Me),
            i,
        ) + 1,
        income(s.tiles, reach(s.tiles, w, h, TileOwner::Enemy), i + 1) == income(
            s.tiles,
            reach(s.tiles, w, h, TileOwner::Enemy),
            i,
        ) + 1,
{
}

proof fn lemma_no_income(tiles: Seq<Tile>, r: Seq<bool>, n: int)
    requires
        0 <= n <= r.len(),
        forall|i: int| 0 <= i < r.len() ==> !#[trigger] r[i],
    ensures
        income(tiles, r, n) == 0,
    decreases n,
{
    if n > 0 {
        lemma_no_income(tiles, r, n - 1);
    }
}

proof fn lemma_no_recycler_at(tiles: Seq<Tile>, w: usize, h: usize, x: int, y: int, player: TileOwner)
    requires
        tiles.len() == w * h,
        forall|i: int| 0 <= i < tiles.len() ==> !(#[trigger] tiles[i]).recycler,
    ensures
        !recycler_at(tiles, w, h, x, y, player),
{
    if 0 <= x < w && 0 <= y < h {
        assert(0 <= y * w + x < w * h) by (nonlinear_arith)
            requires
                0 <= x < w,
                0 <= y < h,
        ;
    }
}

proof fn lemma_no_recycler_near(tiles: Seq<Tile>, w: usize, h: usize, x: int, y: int, player: TileOwner)
    requires
        tiles.len() == w * h,
        forall|i: int| 0 <= i < tiles.len() ==> !(#[trigger] tiles[i]).recycler,
    ensures
        !near_recycler(tiles, w, h, x, y, player),
{
    lemma_no_recycler_at(tiles, w, h, x, y, player);
    lemma_no_recycler_at(tiles, w, h, x - 1, y, player);
    lemma_no_recycler_at(tiles, w, h, x + 1, y, player);
    lemma_no_recycler_at(tiles, w, h, x, y - 1, player);
    lemma_no_recycler_at(tiles, w, h, x, y + 1, player);
}

/// A turn without orders on a grid with no recycler and no pending change
/// only pays each bank its income and sets each cell's owner from the sign of
/// its units.
pub proof fn quiet_turn_only_pays(s: GridState, w: usize, h: usize)
    requires
        s.tiles.len() == w * h,
        forall|i: int| 0 <= i < s.tiles.len() ==> !(#[trigger] s.tiles[i]).recycler && s.tiles[i].delta_units == 0,
    ensures
        ({
            let e = Seq::<Action>::empty();
            let r = turn(s, e, e, w, h);
            &&& r.my_scrap == s.my_scrap + TURN_INCOME
            &&& r.enemy_scrap == s.enemy_scrap + TURN_INCOME
            &&& r.tiles.len() == s.tiles.len()
            &&& forall|i: int|
                0 <= i < s.tiles.len() ==> {
                    let a = #[trigger] s.tiles[i];
                    let b = r.tiles[i];
                    &&& b.scrap_amount == a.scrap_amount
                    &&& b.recycler == a.recycler
                    &&& b.units == a.units
                    &&& b.delta_units == 0
                    &&& b.owner == if a.units > 0 {
                        TileOwner::Me
                    } else if a.units < 0 {
                        TileOwner::Enemy
                    } else {
                        a.owner
                    }
                }
        }),
{
    let e = Seq::<Action>::empty();
    let b = build_phase(s, e, e, w, h);
    assert(b == s);
    let m = move_phase(b, e, e, w, h);
    assert(m == s);
    let rs = resolve_phase(m);
    let me = reach(rs.tiles, w, h, TileOwner::Me);
    let en = reach(rs.tiles, w, h, TileOwner::Enemy);
    assert forall|i: int| 0 <= i < me.len() implies !#[trigger] me[i] && !en[i] by {
        let x = i % (w as int);
        let y = i / (w as int);
        lemma_no_recycler_near(rs.tiles, w, h, x, y, TileOwner::Me);
        lemma_no_recycler_near(rs.tiles, w, h, x, y, TileOwner::Enemy);
    }
    assert forall|i: int| 0 <= i < en.len() implies !#[trigger] en[i] by {
        assert(!me[i] && !en[i]);
    }
    lemma_no_income(rs.tiles, me, rs.tiles.len() as int);
    lemma_no_income(rs.tiles, en, rs.tiles.len() as int);
}

} // verus!
