use minesweeper_board::{ConfigError, Coordinates, Tile, TileMap};

fn c(x: u16, y: u16) -> Coordinates {
    Coordinates { x, y }
}

fn tile(m: &TileMap, x: u16, y: u16) -> Tile {
    m.tile_at(c(x, y))
}

fn bombs_around(m: &TileMap, x: u16, y: u16) -> u8 {
    let mut n = 0;
    for dy in -1i32..=1 {
        for dx in -1i32..=1 {
            if dx == 0 && dy == 0 {
                continue;
            }
            let (nx, ny) = (x as i32 + dx, y as i32 + dy);
            if nx >= 0 && ny >= 0 && m.is_bomb_at(c(nx as u16, ny as u16)) {
                n += 1;
            }
        }
    }
    n
}

#[test]
fn empty_map_is_all_empty() {
    let m = TileMap::empty(3, 2).unwrap();
    assert_eq!(m.width(), 3);
    assert_eq!(m.height(), 2);
    assert_eq!(m.bomb_count(), 0);
    for y in 0..2 {
        for x in 0..3 {
            assert_eq!(tile(&m, x, y), Tile::Empty);
        }
    }
}

#[test]
fn empty_map_rejects_zero_side() {
    assert_eq!(TileMap::empty(0, 4).unwrap_err(), ConfigError::EmptyDimension);
    assert_eq!(TileMap::empty(4, 0).unwrap_err(), ConfigError::EmptyDimension);
}

#[test]
fn generated_board_has_exact_bombs_and_labels() {
    for _ in 0..20 {
        let m = TileMap::generate(8, 6, 10).unwrap();
        let mut bombs = 0;
        for y in 0..6 {
            for x in 0..8 {
                match tile(&m, x, y) {
                    Tile::Bomb => bombs += 1,
                    Tile::Empty => assert_eq!(bombs_around(&m, x, y), 0),
                    Tile::BombNeighbor(n) => {
                        assert!(n >= 1 && n <= 8);
                        assert_eq!(bombs_around(&m, x, y), n);
                    }
                }
            }
        }
        assert_eq!(bombs, 10);
        assert_eq!(m.bomb_count(), 10);
    }
}

#[test]
fn set_bombs_fills_all_but_one_cell() {
    let mut m = TileMap::empty(3, 3).unwrap();
    m.set_bombs(8).unwrap();
    let mut bombs = 0;
    let mut free = None;
    for y in 0..3 {
        for x in 0..3 {
            if m.is_bomb_at(c(x, y)) {
                bombs += 1;
            } else {
                free = Some((x, y));
            }
        }
    }
    assert_eq!(bombs, 8);
    let (x, y) = free.unwrap();
    assert_eq!(tile(&m, x, y), Tile::BombNeighbor(bombs_around(&m, x, y)));
}

#[test]
fn set_bombs_rejects_as_many_bombs_as_cells() {
    let mut m = TileMap::empty(2, 2).unwrap();
    assert_eq!(m.set_bombs(4), Err(ConfigError::TooManyBombs));
    assert_eq!(m.bomb_count(), 0);
    assert_eq!(TileMap::generate(2, 2, 5).unwrap_err(), ConfigError::TooManyBombs);
    assert_eq!(TileMap::generate(0, 2, 1).unwrap_err(), ConfigError::EmptyDimension);
}

#[test]
fn set_bombs_at_places_and_labels() {
    let mut m = TileMap::empty(3, 3).unwrap();
    m.set_bombs_at(&vec![c(0, 0), c(2, 2)]).unwrap();
    assert_eq!(m.bomb_count(), 2);
    assert_eq!(tile(&m, 0, 0), Tile::Bomb);
    assert_eq!(tile(&m, 2, 2), Tile::Bomb);
    assert_eq!(tile(&m, 1, 1), Tile::BombNeighbor(2));
    assert_eq!(tile(&m, 1, 0), Tile::BombNeighbor(1));
    assert_eq!(tile(&m, 2, 0), Tile::Empty);
    assert_eq!(tile(&m, 0, 2), Tile::Empty);
}

#[test]
fn set_bombs_at_counts_a_repeated_cell_once() {
    let mut m = TileMap::empty(3, 1).unwrap();
    m.set_bombs_at(&vec![c(1, 0), c(1, 0)]).unwrap();
    assert_eq!(m.bomb_count(), 1);
    assert_eq!(tile(&m, 0, 0), Tile::BombNeighbor(1));
}

#[test]
fn set_bombs_at_rejects_bad_positions() {
    let mut m = TileMap::empty(2, 2).unwrap();
    assert_eq!(m.set_bombs_at(&vec![c(2, 0)]), Err(ConfigError::OutOfBounds));
    assert_eq!(
        m.set_bombs_at(&vec![c(0, 0), c(1, 0), c(0, 1), c(1, 1)]),
        Err(ConfigError::TooManyBombs)
    );
    assert_eq!(tile(&m, 0, 0), Tile::Empty);
}

#[test]
fn is_bomb_at_is_false_off_the_grid() {
    let mut m = TileMap::empty(2, 1).unwrap();
    m.set_bombs_at(&vec![c(0, 0), ]).unwrap();
    assert!(m.is_bomb_at(c(0, 0)));
    assert!(!m.is_bomb_at(c(1, 0)));
    assert!(!m.is_bomb_at(c(2, 0)));
    assert!(!m.is_bomb_at(c(0, 1)));
    assert!(!m.is_bomb_at(c(u16::MAX, u16::MAX)));
}

#[test]
fn bomb_count_at_counts_neighbours() {
    let mut m = TileMap::empty(3, 3).unwrap();
    m.set_bombs_at(&vec![c(0, 0), c(1, 0), c(2, 0), c(0, 1), c(2, 1), c(0, 2), c(1, 2), c(2, 2)]).unwrap();
    assert_eq!(m.bomb_count_at(c(1, 1)), 8);
    assert_eq!(m.bomb_count_at(c(0, 0)), 0);
    assert_eq!(tile(&m, 1, 1), Tile::BombNeighbor(8));
}

#[test]
fn safe_square_at_clips_to_the_grid_in_order() {
    let m = TileMap::empty(3, 3).unwrap();
    assert_eq!(m.safe_square_at(c(0, 0)), vec![c(1, 0), c(0, 1), c(1, 1)]);
    assert_eq!(
        m.safe_square_at(c(1, 1)),
        vec![c(0, 0), c(1, 0), c(2, 0), c(0, 1), c(2, 1), c(0, 2), c(1, 2), c(2, 2)]
    );
    assert_eq!(m.safe_square_at(c(2, 2)), vec![c(1, 1), c(2, 1), c(1, 2)]);
}

#[test]
fn neighbor_is_none_off_the_grid() {
    let m = TileMap::empty(2, 2).unwrap();
    assert_eq!(m.neighbor(c(0, 0), 0), None);
    assert_eq!(m.neighbor(c(0, 0), 7), Some(c(1, 1)));
    assert_eq!(m.neighbor(c(1, 1), 7), None);
}

#[test]
fn safe_start_is_first_empty_cell() {
    let mut m = TileMap::empty(3, 2).unwrap();
    m.set_bombs_at(&vec![c(0, 0)]).unwrap();
    // Row 0: *, 1, ' '
    assert_eq!(m.safe_start(), Some(c(2, 0)));
    let mut full = TileMap::empty(2, 1).unwrap();
    full.set_bombs_at(&vec![c(0, 0)]).unwrap();
    assert_eq!(full.safe_start(), None);
}

#[test]
fn tile_variant_queries() {
    assert!(Tile::Bomb.is_bomb());
    assert!(Tile::Empty.is_empty());
    assert!(Tile::BombNeighbor(3).is_bomb_neighbor());
    assert!(!Tile::Empty.is_bomb());
    assert_eq!(Tile::default(), Tile::Empty);
}
