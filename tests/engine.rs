#![allow(non_snake_case)]

use tile_war::{Action, BuildAction, Grid, MoveAction, Padding, Pathfinder, SpawnAction, TVec2, Tile, TileOwner};

fn grid(text: &str) -> Grid {
    Grid::load(String::from(text)).expect("a well-formed grid")
}

fn build(x: usize, y: usize) -> Action {
    Action::Build(BuildAction { x, y })
}

fn spawn(amount: u32, x: usize, y: usize) -> Action {
    Action::Spawn(SpawnAction { amount, x, y })
}

fn mv(amount: u32, fromX: usize, fromY: usize, toX: usize, toY: usize) -> Action {
    Action::Move(MoveAction { amount, fromX, fromY, toX, toY })
}

#[test]
fn test_load_map() {
    let g = Grid::load(String::from("14 7;10 10;9 -1 0 0 0 0 0;6 -1 0 0 0 0 0;8 -1 0 0 0 0 0;8 -1 0 0 0 0 0;4 -1 0 0 0 0 0;4 -1 0 0 0 0 0;8 -1 0 0 0 0 0;10 -1 0 0 0 0 0;6 -1 0 0 0 0 0;6 -1 0 0 0 0 0;10 -1 0 0 0 0 0;4 -1 0 0 0 0 0;8 -1 0 0 0 0 0;6 -1 0 0 0 0 0;8 -1 0 0 0 0 0;0 -1 0 0 0 0 0;6 -1 0 0 0 0 0;9 -1 0 0 0 0 0;6 -1 0 0 0 0 0;8 -1 0 0 0 0 0;8 -1 0 0 0 0 0;8 -1 0 0 0 0 0;4 -1 0 0 0 0 0;9 0 1 0 0 0 0;4 -1 0 0 0 0 0;6 -1 0 0 0 0 0;8 -1 0 0 0 0 0;9 -1 0 0 0 0 0;0 -1 0 0 0 0 0;0 -1 0 0 0 0 0;9 -1 0 0 0 0 0;8 -1 0 0 0 0 0;6 -1 0 0 0 0 0;9 -1 0 0 0 0 0;9 -1 0 0 0 0 0;9 -1 0 0 0 0 0;8 0 1 0 0 0 0;10 0 0 0 0 0 0;10 0 1 0 0 0 0;9 -1 0 0 0 0 0;4 -1 0 0 0 0 0;8 -1 0 0 0 0 0;8 -1 0 0 0 0 0;6 -1 0 0 0 0 0;4 -1 0 0 0 0 0;8 -1 0 0 0 0 0;8 1 1 0 0 1 0;8 -1 0 0 0 0 0;8 -1 0 0 0 0 0;8 -1 0 0 0 0 0;8 -1 0 0 0 0 0;8 0 1 0 0 0 0;8 -1 0 0 0 0 0;4 -1 0 0 0 0 0;6 -1 0 0 0 0 0;8 -1 0 0 0 0 0;8 -1 0 0 0 0 0;4 -1 0 0 0 0 0;9 -1 0 0 0 0 0;10 1 1 0 0 1 0;10 1 0 0 1 1 0;8 1 1 0 0 1 0;9 -1 0 0 0 0 0;9 -1 0 0 0 0 0;9 -1 0 0 0 0 0;6 -1 0 0 0 0 0;8 -1 0 0 0 0 0;9 -1 0 0 0 0 0;0 -1 0 0 0 0 0;0 -1 0 0 0 0 0;9 -1 0 0 0 0 0;8 -1 0 0 0 0 0;6 -1 0 0 0 0 0;4 -1 0 0 0 0 0;9 1 1 0 0 1 0;4 -1 0 0 0 0 0;8 -1 0 0 0 0 0;8 -1 0 0 0 0 0;8 -1 0 0 0 0 0;6 -1 0 0 0 0 0;9 -1 0 0 0 0 0;6 -1 0 0 0 0 0;0 -1 0 0 0 0 0;8 -1 0 0 0 0 0;6 -1 0 0 0 0 0;8 -1 0 0 0 0 0;4 -1 0 0 0 0 0;10 -1 0 0 0 0 0;6 -1 0 0 0 0 0;6 -1 0 0 0 0 0;10 -1 0 0 0 0 0;8 -1 0 0 0 0 0;4 -1 0 0 0 0 0;4 -1 0 0 0 0 0;8 -1 0 0 0 0 0;8 -1 0 0 0 0 0;6 -1 0 0 0 0 0;9 -1 0 0 0 0 0"));
    let g = g.expect("the sample map loads");
    assert_eq!(g.w, 14);
    assert_eq!(g.h, 7);
    assert_eq!(g.my_scrap, 10);
    assert_eq!(g.enemy_scrap, 10);
    assert_eq!(g.data.len(), 98);
}

#[test]
fn test_dummy_pathfinder() {
    let mut pathfinder = Pathfinder::new(32, 32);
    let res = pathfinder.find_path(&TVec2::new(0, 0), &TVec2::new(0, 10));

    assert_eq!(res, TVec2::new(0, 1));
}

#[test]
fn load_reads_cells_and_negates_second_player_units() {
    let g = grid("2 1;7 8;5 1 3 0 0 1 0;6 0 2 1 0 0 0");
    assert_eq!(g.data[0], Tile { scrap_amount: 5, recycler: false, units: 3, delta_units: 0, owner: TileOwner::Me });
    assert_eq!(g.data[1], Tile { scrap_amount: 6, recycler: true, units: -2, delta_units: 0, owner: TileOwner::Enemy });
    assert_eq!(g.my_scrap, 7);
    assert_eq!(g.enemy_scrap, 8);
}

#[test]
fn load_neutral_owner_code() {
    let g = grid("1 1;0 0;4 -1 0 0 0 0 0");
    assert_eq!(g.data[0].owner, TileOwner::No);
    assert_eq!(g.data[0].units, 0);
}

#[test]
fn load_refuses_missing_cell_record() {
    assert!(Grid::load(String::from("2 1;0 0;5 1 3 0 0 0 0")).is_none());
}

#[test]
fn load_refuses_short_cell_record() {
    assert!(Grid::load(String::from("1 1;0 0;5 1 3 0 0 0")).is_none());
}

#[test]
fn load_refuses_non_number() {
    assert!(Grid::load(String::from("1 1;0 x;5 1 3 0 0 0 0")).is_none());
    assert!(Grid::load(String::from("1 1;0 0;5 1 3a 0 0 0 0")).is_none());
}

#[test]
fn load_refuses_missing_header() {
    assert!(Grid::load(String::from("1 1")).is_none());
    assert!(Grid::load(String::from("")).is_none());
}

#[test]
fn load_refuses_negative_size() {
    assert!(Grid::load(String::from("-1 1;0 0;5 1 3 0 0 0 0")).is_none());
}

#[test]
fn load_refuses_out_of_range_number() {
    assert!(Grid::load(String::from("1 1;0 0;5 1 2147483648 0 0 0 0")).is_none());
    assert!(Grid::load(String::from("1 1;0 0;5 1 -2147483648 0 0 0 0")).is_some());
}

#[test]
fn load_refuses_non_ascii() {
    assert!(Grid::load(String::from("1 1;0 0;5 1 3 0 0 0 0\u{e9}")).is_none());
}

#[test]
fn pathfinder_step_from_destination_is_source() {
    let mut p = Pathfinder::new(4, 4);
    assert_eq!(p.find_path(&TVec2::new(2, 1), &TVec2::new(2, 1)), TVec2::new(2, 1));
}

#[test]
fn pathfinder_neighbour_destination() {
    let mut p = Pathfinder::new(4, 4);
    assert_eq!(p.find_path(&TVec2::new(1, 1), &TVec2::new(2, 1)), TVec2::new(2, 1));
}

#[test]
fn pathfinder_goes_around_a_wall() {
    let mut p = Pathfinder::new(3, 3);
    // wall in the middle of the top row: from (0,0) to (2,0) the way goes down first
    p.walls[1] = true;
    assert_eq!(p.find_path(&TVec2::new(0, 0), &TVec2::new(2, 0)), TVec2::new(0, 1));
}

#[test]
fn pathfinder_enclosed_destination_approaches_nearest_reachable() {
    let mut p = Pathfinder::new(5, 5);
    for (x, y) in [(1usize, 2usize), (3, 2), (2, 1), (2, 3)] {
        p.walls[y * 5 + x] = true;
    }
    let step = p.find_path(&TVec2::new(0, 2), &TVec2::new(2, 2));
    assert_eq!(step, TVec2::new(0, 1));
    assert_ne!(step, TVec2::new(2, 2));
}

#[test]
fn pathfinder_walled_source_still_leaves() {
    let mut p = Pathfinder::new(3, 1);
    p.walls[0] = true;
    assert_eq!(p.find_path(&TVec2::new(0, 0), &TVec2::new(2, 0)), TVec2::new(1, 0));
}

#[test]
fn build_batch_halts_when_bank_runs_low() {
    let mut g = grid("3 1;15 0;5 1 0 0 0 0 0;5 1 0 0 0 0 0;5 1 0 0 0 0 0");
    g.build(&vec![build(0, 0), build(1, 0), build(2, 0)], &vec![]);
    assert!(g.data[0].recycler);
    assert!(!g.data[1].recycler);
    assert!(!g.data[2].recycler);
    assert_eq!(g.my_scrap, 5);
}

#[test]
fn build_skips_illegal_cell_without_halting() {
    let mut g = grid("3 1;25 0;5 1 2 0 0 0 0;5 0 0 0 0 0 0;5 1 0 0 0 0 0");
    // a cell with units, an enemy cell, then a legal one
    g.build(&vec![build(0, 0), build(1, 0), build(2, 0)], &vec![]);
    assert!(!g.data[0].recycler);
    assert!(!g.data[1].recycler);
    assert!(g.data[2].recycler);
    assert_eq!(g.my_scrap, 15);
}

#[test]
fn build_for_second_player() {
    let mut g = grid("2 1;0 12;5 0 0 0 0 0 0;5 1 0 0 0 0 0");
    g.build(&vec![], &vec![build(1, 0), build(0, 0)]);
    assert!(g.data[0].recycler);
    assert!(!g.data[1].recycler);
    assert_eq!(g.enemy_scrap, 2);
}

#[test]
fn spawn_batch_does_not_halt() {
    let mut g = grid("2 1;15 0;5 1 0 0 0 0 0;5 1 0 0 0 0 0");
    g.move_spawn(&vec![spawn(2, 0, 0), spawn(1, 1, 0)], &vec![]);
    assert_eq!(g.data[0].delta_units, 0);
    assert_eq!(g.data[1].delta_units, 1);
    assert_eq!(g.my_scrap, 5);
}

#[test]
fn spawn_of_zero_is_ignored() {
    let mut g = grid("1 1;50 50;5 1 0 0 0 0 0");
    g.move_spawn(&vec![spawn(0, 0, 0)], &vec![spawn(3, 0, 0)]);
    assert_eq!(g.my_scrap, 50);
    assert_eq!(g.enemy_scrap, 20);
    assert_eq!(g.data[0].delta_units, -3);
}

#[test]
fn move_takes_one_step_and_resolves() {
    let mut g = grid("3 1;0 0;5 1 5 0 0 0 0;5 -1 0 0 0 0 0;5 -1 0 0 0 0 0");
    g.next_turn(&vec![mv(3, 0, 0, 2, 0)], &vec![]);
    assert_eq!(g.data[0].units, 2);
    assert_eq!(g.data[0].owner, TileOwner::Me);
    assert_eq!(g.data[1].units, 3);
    assert_eq!(g.data[1].owner, TileOwner::Me);
    assert_eq!(g.data[2].units, 0);
    assert_eq!(g.data[2].owner, TileOwner::No);
    assert_eq!(g.my_scrap, 10);
}

#[test]
fn move_is_capped_by_available_units() {
    let mut g = grid("2 1;0 0;5 0 4 0 0 0 0;5 -1 0 0 0 0 0");
    g.next_turn(&vec![], &vec![mv(10, 0, 0, 1, 0)]);
    assert_eq!(g.data[0].units, 0);
    assert_eq!(g.data[0].owner, TileOwner::Enemy);
    assert_eq!(g.data[1].units, -4);
    assert_eq!(g.data[1].owner, TileOwner::Enemy);
}

#[test]
fn move_from_foreign_or_outside_cell_is_ignored() {
    let mut g = grid("2 1;0 0;5 0 4 0 0 0 0;5 -1 0 0 0 0 0");
    g.next_turn(&vec![mv(2, 0, 0, 1, 0), mv(2, 5, 0, 1, 0)], &vec![mv(1, 0, 0, 9, 9)]);
    assert_eq!(g.data[0].units, -4);
    assert_eq!(g.data[1].units, 0);
}

#[test]
fn resolve_sets_owner_from_sign() {
    let mut g = grid("3 1;0 0;5 1 3 0 0 0 0;5 1 3 0 0 0 0;5 -1 0 0 0 0 0");
    g.data[0].delta_units = -3;
    g.data[1].delta_units = -5;
    g.data[2].delta_units = 7;
    g.tile_process();
    assert_eq!(g.data[0].units, 0);
    assert_eq!(g.data[0].owner, TileOwner::Me);
    assert_eq!(g.data[1].units, -2);
    assert_eq!(g.data[1].owner, TileOwner::Enemy);
    assert_eq!(g.data[2].units, 7);
    assert_eq!(g.data[2].owner, TileOwner::Me);
    for t in &g.data {
        assert_eq!(t.delta_units, 0);
    }
}

#[test]
fn recycler_shared_cell_pays_each_bank_once() {
    let mut g = grid("3 1;0 0;3 1 0 1 0 0 0;5 -1 0 0 0 0 0;3 0 0 1 0 0 0");
    g.recycler_process();
    assert_eq!(g.data[0].scrap_amount, 2);
    assert_eq!(g.data[1].scrap_amount, 4);
    assert_eq!(g.data[2].scrap_amount, 2);
    assert_eq!(g.my_scrap, 2);
    assert_eq!(g.enemy_scrap, 2);
    assert_eq!(g.recycle_me, vec![true, true, false]);
    assert_eq!(g.recycle_enemy, vec![false, true, true]);
}

#[test]
fn recycler_clears_exhausted_cells() {
    let mut g = grid("2 2;0 0;1 1 0 1 0 0 0;1 1 4 0 0 0 0;0 -1 0 0 0 0 0;9 1 2 0 0 0 0");
    g.recycler_process();
    assert_eq!(g.data[0], Tile { scrap_amount: 0, recycler: false, units: 0, delta_units: 0, owner: TileOwner::No });
    assert_eq!(g.data[1], Tile { scrap_amount: 0, recycler: false, units: 0, delta_units: 0, owner: TileOwner::No });
    assert_eq!(g.data[2], Tile { scrap_amount: 0, recycler: false, units: 0, delta_units: 0, owner: TileOwner::No });
    assert_eq!(g.data[3].scrap_amount, 9);
    assert_eq!(g.my_scrap, 2);
    for t in &g.data {
        if t.scrap_amount == 0 {
            assert_eq!(t.units, 0);
            assert!(!t.recycler);
            assert_eq!(t.owner, TileOwner::No);
        }
    }
}

#[test]
fn recycler_ignores_unowned_recycler() {
    let mut g = grid("2 1;0 0;3 -1 0 1 0 0 0;3 -1 0 0 0 0 0");
    g.recycler_process();
    assert_eq!(g.data[0].scrap_amount, 3);
    assert_eq!(g.data[1].scrap_amount, 3);
    assert_eq!(g.my_scrap, 0);
    assert_eq!(g.enemy_scrap, 0);
}

#[test]
fn turn_is_reproducible() {
    let text = "3 2;40 40;5 1 4 0 0 0 0;5 -1 0 0 0 0 0;5 0 3 0 0 0 0;5 1 0 0 0 0 0;5 -1 0 0 0 0 0;5 0 0 0 0 0 0";
    let orders_a = || vec![mv(2, 0, 0, 2, 1), spawn(1, 0, 1), build(0, 1)];
    let orders_b = || vec![mv(1, 2, 0, 0, 0), build(2, 1), spawn(2, 2, 1)];
    let mut g1 = grid(text);
    let mut g2 = grid(text);
    g1.next_turn(&orders_a(), &orders_b());
    g2.next_turn(&orders_a(), &orders_b());
    assert_eq!(g1.data, g2.data);
    assert_eq!(g1.my_scrap, g2.my_scrap);
    assert_eq!(g1.enemy_scrap, g2.enemy_scrap);
}

#[test]
fn quiet_turn_only_pays_income() {
    let mut g = grid("2 1;7 8;5 1 3 0 0 0 0;6 0 2 0 0 0 0");
    let before = g.data.clone();
    g.next_turn(&vec![], &vec![]);
    assert_eq!(g.data, before);
    assert_eq!(g.my_scrap, 17);
    assert_eq!(g.enemy_scrap, 18);
}

#[test]
fn full_turn_with_build_and_recycler() {
    let mut g = grid("2 1;10 0;3 1 0 0 0 0 0;4 -1 0 0 0 0 0");
    g.next_turn(&vec![build(0, 0)], &vec![]);
    assert!(g.data[0].recycler);
    assert_eq!(g.data[0].scrap_amount, 2);
    assert_eq!(g.data[1].scrap_amount, 3);
    assert_eq!(g.my_scrap, 0 + 2 + 10);
    assert_eq!(g.enemy_scrap, 10);
}

#[test]
fn tile_default_is_empty() {
    let t = Tile::default();
    assert_eq!(t, Tile { scrap_amount: 0, recycler: false, units: 0, delta_units: 0, owner: TileOwner::No });
}

#[test]
fn tvec2_new_keeps_coordinates() {
    let v = TVec2::new(3usize, 8usize);
    assert_eq!(v.x, 3);
    assert_eq!(v.y, 8);
}

#[test]
fn padding_new_keeps_sizes() {
    let p = Padding::new(2, 1);
    assert_eq!(p.pad_w, 2);
    assert_eq!(p.pad_h, 1);
}

#[test]
fn pathfinder_index_is_row_major() {
    let p = Pathfinder::new(5, 3);
    assert_eq!(p.get_idx(4, 2), 14);
    assert_eq!(p.get_idx(1, 0), 1);
    assert_eq!(p.data.len(), 15);
}

#[test]
fn load_ignores_white_space_around_fields() {
    let g = grid("2 1;\n7 8\r\n;5 1 3 0 0 0 0;\t6 0 +2 0 0 0 0\n");
    assert_eq!(g.my_scrap, 7);
    assert_eq!(g.enemy_scrap, 8);
    assert_eq!(g.data[0].units, 3);
    assert_eq!(g.data[1].units, -2);
    assert_eq!(g.data[1].owner, TileOwner::Enemy);
}

#[test]
fn load_sample_map_with_final_newline() {
    let text = format!("{}\n", "14 7;10 10;9 -1 0 0 0 0 0;6 -1 0 0 0 0 0;8 -1 0 0 0 0 0;8 -1 0 0 0 0 0;4 -1 0 0 0 0 0;4 -1 0 0 0 0 0;8 -1 0 0 0 0 0;10 -1 0 0 0 0 0;6 -1 0 0 0 0 0;6 -1 0 0 0 0 0;10 -1 0 0 0 0 0;4 -1 0 0 0 0 0;8 -1 0 0 0 0 0;6 -1 0 0 0 0 0;8 -1 0 0 0 0 0;0 -1 0 0 0 0 0;6 -1 0 0 0 0 0;9 -1 0 0 0 0 0;6 -1 0 0 0 0 0;8 -1 0 0 0 0 0;8 -1 0 0 0 0 0;8 -1 0 0 0 0 0;4 -1 0 0 0 0 0;9 0 1 0 0 0 0;4 -1 0 0 0 0 0;6 -1 0 0 0 0 0;8 -1 0 0 0 0 0;9 -1 0 0 0 0 0;0 -1 0 0 0 0 0;0 -1 0 0 0 0 0;9 -1 0 0 0 0 0;8 -1 0 0 0 0 0;6 -1 0 0 0 0 0;9 -1 0 0 0 0 0;9 -1 0 0 0 0 0;9 -1 0 0 0 0 0;8 0 1 0 0 0 0;10 0 0 0 0 0 0;10 0 1 0 0 0 0;9 -1 0 0 0 0 0;4 -1 0 0 0 0 0;8 -1 0 0 0 0 0;8 -1 0 0 0 0 0;6 -1 0 0 0 0 0;4 -1 0 0 0 0 0;8 -1 0 0 0 0 0;8 1 1 0 0 1 0;8 -1 0 0 0 0 0;8 -1 0 0 0 0 0;8 -1 0 0 0 0 0;8 -1 0 0 0 0 0;8 0 1 0 0 0 0;8 -1 0 0 0 0 0;4 -1 0 0 0 0 0;6 -1 0 0 0 0 0;8 -1 0 0 0 0 0;8 -1 0 0 0 0 0;4 -1 0 0 0 0 0;9 -1 0 0 0 0 0;10 1 1 0 0 1 0;10 1 0 0 1 1 0;8 1 1 0 0 1 0;9 -1 0 0 0 0 0;9 -1 0 0 0 0 0;9 -1 0 0 0 0 0;6 -1 0 0 0 0 0;8 -1 0 0 0 0 0;9 -1 0 0 0 0 0;0 -1 0 0 0 0 0;0 -1 0 0 0 0 0;9 -1 0 0 0 0 0;8 -1 0 0 0 0 0;6 -1 0 0 0 0 0;4 -1 0 0 0 0 0;9 1 1 0 0 1 0;4 -1 0 0 0 0 0;8 -1 0 0 0 0 0;8 -1 0 0 0 0 0;8 -1 0 0 0 0 0;6 -1 0 0 0 0 0;9 -1 0 0 0 0 0;6 -1 0 0 0 0 0;0 -1 0 0 0 0 0;8 -1 0 0 0 0 0;6 -1 0 0 0 0 0;8 -1 0 0 0 0 0;4 -1 0 0 0 0 0;10 -1 0 0 0 0 0;6 -1 0 0 0 0 0;6 -1 0 0 0 0 0;10 -1 0 0 0 0 0;8 -1 0 0 0 0 0;4 -1 0 0 0 0 0;4 -1 0 0 0 0 0;8 -1 0 0 0 0 0;8 -1 0 0 0 0 0;6 -1 0 0 0 0 0;9 -1 0 0 0 0 0");
    let g = grid(&text);
    assert_eq!(g.data.len(), 98);
    assert_eq!(g.data[97].scrap_amount, 9);
}

#[test]
fn load_refuses_space_inside_number() {
    assert!(Grid::load(String::from("1 1;0 0;5 1 3\n4 0 0 0 0")).is_none());
    assert!(Grid::load(String::from("1 1;0 0;5 1 + 0 0 0 0")).is_none());
}

#[test]
fn load_starts_with_clear_reach_and_walls() {
    let g = grid("2 1;0 0;3 1 0 1 0 0 0;3 -1 0 0 0 0 0");
    assert_eq!(g.recycle_me, vec![false, false]);
    assert_eq!(g.recycle_enemy, vec![false, false]);
    assert_eq!(g.pathfinder.walls, vec![false, false]);
    assert_eq!(g.pathfinder.w, 2);
    assert_eq!(g.pathfinder.h, 1);
    assert_eq!(g.pathfinder.prev_point, vec![TVec2::new(0, 0), TVec2::new(0, 0)]);
}

#[test]
fn move_spawn_sets_walls_from_cells() {
    let mut g = grid("3 1;0 0;0 -1 0 0 0 0 0;3 1 0 1 0 0 0;3 -1 0 0 0 0 0");
    g.move_spawn(&vec![], &vec![]);
    assert_eq!(g.pathfinder.walls, vec![true, true, false]);
}

#[test]
fn tile_process_leaves_reach_alone() {
    let mut g = grid("2 1;0 0;3 1 0 1 0 0 0;3 -1 0 0 0 0 0");
    g.recycler_process();
    let me = g.recycle_me.clone();
    g.tile_process();
    assert_eq!(g.recycle_me, me);
}
