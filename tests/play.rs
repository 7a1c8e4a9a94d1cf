use minesweeper_board::{
    input_handling, state_handling, trigger_event_handler, uncover_tiles, AppState, Board, BoardAction,
    Coordinates, MouseButton, Rect, TIleTriggerEvent, Tile, TileMap,
};

fn c(x: u16, y: u16) -> Coordinates {
    Coordinates { x, y }
}

/// A board over the given bombs, every cell covered by handle `100 + y * w + x`.
fn board_with(w: u16, h: u16, bombs: Vec<Coordinates>, ts: u16) -> Board {
    let mut m = TileMap::empty(w, h).unwrap();
    m.set_bombs_at(&bombs).unwrap();
    let mut b = Board::new(m, 0, 0, ts);
    for y in 0..h {
        for x in 0..w {
            assert!(b.register(c(x, y), 100 + (y * w + x) as u64));
        }
    }
    b
}

fn revealed_cells(r: &minesweeper_board::Cascade) -> Vec<Coordinates> {
    r.revealed.iter().map(|t| t.coordinates).collect()
}

#[test]
fn single_cell_board_wins_at_once() {
    let mut b = board_with(1, 1, vec![], 32);
    assert_eq!(b.tile_map.tile_at(c(0, 0)), Tile::Empty);
    assert!(!b.is_won());
    let r = uncover_tiles(&mut b, c(0, 0));
    assert_eq!(revealed_cells(&r), vec![c(0, 0)]);
    assert_eq!(r.revealed[0].entity, 100);
    assert!(!r.detonated);
    assert!(b.is_won());
    assert_eq!(b.tile_to_uncover(&c(0, 0)), None);
}

#[test]
fn two_cell_board_reveals_only_the_number() {
    let mut b = board_with(2, 1, vec![c(0, 0)], 32);
    assert_eq!(b.tile_map.tile_at(c(1, 0)), Tile::BombNeighbor(1));
    let r = uncover_tiles(&mut b, c(1, 0));
    assert_eq!(revealed_cells(&r), vec![c(1, 0)]);
    assert!(!r.detonated);
    assert!(b.is_won());
    assert_eq!(b.tile_to_uncover(&c(0, 0)), Some(100));
}

#[test]
fn revealing_twice_is_a_no_op() {
    let mut b = board_with(2, 1, vec![c(0, 0)], 32);
    let first = uncover_tiles(&mut b, c(1, 0));
    assert_eq!(first.revealed.len(), 1);
    let second = uncover_tiles(&mut b, c(1, 0));
    assert!(second.revealed.is_empty());
    assert!(!second.detonated);
    assert_eq!(b.try_uncover_tile(&c(1, 0)), None);
}

#[test]
fn cascade_reveals_region_and_border() {
    // Row 0: ' ', ' ', 1, *
    let mut b = board_with(4, 1, vec![c(3, 0)], 32);
    let r = uncover_tiles(&mut b, c(0, 0));
    let mut cells = revealed_cells(&r);
    assert_eq!(cells[0], c(0, 0));
    cells.sort();
    assert_eq!(cells, vec![c(0, 0), c(1, 0), c(2, 0)]);
    assert!(!r.detonated);
    assert_eq!(b.tile_to_uncover(&c(3, 0)), Some(103));
    assert!(b.is_won());
}

#[test]
fn cascade_stops_at_numbers_in_two_dimensions() {
    // 5 x 5, one bomb in the top right corner, a wall of numbers round it.
    let mut b = board_with(5, 5, vec![c(4, 4)], 32);
    let r = uncover_tiles(&mut b, c(0, 0));
    assert_eq!(r.revealed.len(), 24);
    assert!(b.is_won());
    // A board split by a column of bombs: the far side stays covered.
    let mut b = board_with(5, 3, vec![c(2, 0), c(2, 1), c(2, 2)], 32);
    let r = uncover_tiles(&mut b, c(0, 1));
    let mut cells = revealed_cells(&r);
    cells.sort();
    assert_eq!(cells, vec![c(0, 0), c(0, 1), c(0, 2), c(1, 0), c(1, 1), c(1, 2)]);
    assert!(!b.is_won());
}

#[test]
fn revealing_a_bomb_detonates() {
    let mut b = board_with(2, 1, vec![c(0, 0)], 32);
    let r = uncover_tiles(&mut b, c(0, 0));
    assert_eq!(revealed_cells(&r), vec![c(0, 0)]);
    assert!(r.detonated);
    assert!(b.detonated);
    assert!(!b.is_won());
}

#[test]
fn cover_table_operations() {
    let m = TileMap::empty(2, 2).unwrap();
    let mut b = Board::new(m, 0, 0, 10);
    assert!(b.register(c(1, 1), 7));
    assert!(!b.register(c(1, 1), 8));
    assert!(!b.register(c(2, 0), 9));
    assert!(b.register(c(0, 0), 5));
    assert_eq!(b.tile_to_uncover(&c(1, 1)), Some(7));
    assert_eq!(b.adjacent_covered_tiles(c(1, 0)), vec![5, 7]);
    assert_eq!(b.try_uncover_tile(&c(1, 1)), Some(7));
    assert_eq!(b.try_uncover_tile(&c(1, 1)), None);
    assert_eq!(b.adjacent_covered_tiles(c(1, 0)), vec![5]);
}

#[test]
fn mouse_position_maps_pixels_to_cells() {
    let b = board_with(20, 20, vec![], 32);
    assert_eq!(b.bounds, Rect { min_x: 0, min_y: 0, max_x: 640, max_y: 640 });
    assert_eq!(b.mouse_position(0, 0, 16, 16), Some(c(0, 0)));
    assert_eq!(b.mouse_position(0, 0, 320, 320), Some(c(10, 10)));
    assert_eq!(b.mouse_position(0, 0, -1, 0), None);
    assert_eq!(b.mouse_position(0, 0, 31, 32), Some(c(0, 1)));
    assert_eq!(b.mouse_position(0, 0, 639, 639), Some(c(19, 19)));
    assert_eq!(b.mouse_position(0, 0, 640, 0), None);
}

#[test]
fn mouse_position_centres_the_window() {
    // A 2 x 2 board of 10-unit tiles centred on the origin, in an 800 x 600 window.
    let mut m = TileMap::empty(2, 2).unwrap();
    m.set_bombs_at(&vec![]).unwrap();
    let b = Board::new(m, -10, -10, 10);
    assert_eq!(b.mouse_position(800, 600, 400, 300), Some(c(1, 1)));
    assert_eq!(b.mouse_position(800, 600, 390, 290), Some(c(0, 0)));
    assert_eq!(b.mouse_position(800, 600, 389, 300), None);
    assert_eq!(b.mouse_position(801, 600, 391, 300), Some(c(0, 1)));
    assert_eq!(b.mouse_position(801, 600, 390, 300), None);
}

#[test]
fn trigger_events_name_covered_cells() {
    let mut b = board_with(2, 1, vec![c(0, 0)], 32);
    b.try_uncover_tile(&c(1, 0));
    let events = vec![TIleTriggerEvent(c(0, 0)), TIleTriggerEvent(c(1, 0)), TIleTriggerEvent(c(5, 5))];
    assert_eq!(trigger_event_handler(&b, &events), vec![100]);
}

#[test]
fn input_handling_maps_buttons() {
    let b = board_with(20, 20, vec![], 32);
    assert_eq!(
        input_handling(&b, MouseButton::Left, true, 0, 0, Some((16, 16))),
        Some(BoardAction::Uncover(c(0, 0)))
    );
    assert_eq!(
        input_handling(&b, MouseButton::Right, true, 0, 0, Some((320, 320))),
        Some(BoardAction::Mark(c(10, 10)))
    );
    assert_eq!(input_handling(&b, MouseButton::Left, false, 0, 0, Some((16, 16))), None);
    assert_eq!(input_handling(&b, MouseButton::Other, true, 0, 0, Some((16, 16))), None);
    assert_eq!(input_handling(&b, MouseButton::Left, true, 0, 0, None), None);
    assert_eq!(input_handling(&b, MouseButton::Left, true, 0, 0, Some((-1, 0))), None);
}

#[test]
fn state_handling_cycles() {
    assert_eq!(state_handling(AppState::Unloading, false), Some(AppState::Loading));
    assert_eq!(state_handling(AppState::Loading, true), Some(AppState::InGame));
    assert_eq!(state_handling(AppState::InGame, false), None);
    assert_eq!(state_handling(AppState::InGame, true), Some(AppState::Unloading));
    assert!(AppState::InGame.is_in_game());
}
