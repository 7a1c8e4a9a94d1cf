use minesweeper_board::{Coordinates, Tile, TileMap};

#[test]
fn console_output_plain_and_coloured() {
    colored::control::set_override(false);
    assert_eq!(Tile::Empty.console_output(), " ");
    assert_eq!(Tile::Bomb.console_output(), "*");
    assert_eq!(Tile::BombNeighbor(3).console_output(), "3");
    assert_eq!(Tile::BombNeighbor(7).console_output(), "7");
    assert_eq!(Tile::BombNeighbor(12).console_output(), "12");
    assert_eq!(Tile::BombNeighbor(255).console_output(), "255");
    colored::control::set_override(true);
    assert_eq!(Tile::Bomb.console_output(), "\x1b[91m*\x1b[0m");
    assert_eq!(Tile::BombNeighbor(1).console_output(), "\x1b[36m1\x1b[0m");
    assert_eq!(Tile::BombNeighbor(2).console_output(), "\x1b[32m2\x1b[0m");
    assert_eq!(Tile::BombNeighbor(3).console_output(), "\x1b[33m3\x1b[0m");
    assert_eq!(Tile::BombNeighbor(4).console_output(), "\x1b[31m4\x1b[0m");
    assert_eq!(Tile::Empty.console_output(), " ");
}

#[test]
fn map_console_output_layout() {
    colored::control::set_override(false);
    let mut m = TileMap::empty(2, 2).unwrap();
    m.set_bombs_at(&vec![Coordinates { x: 0, y: 0 }]).unwrap();
    assert_eq!(
        m.console_output(),
        "Map (2, 2) with 1 bombs:\n----\n|11|\n|*1|\n----"
    );
}

#[test]
fn map_console_output_large_numbers() {
    colored::control::set_override(false);
    let m = TileMap::empty(12, 1).unwrap();
    assert_eq!(
        m.console_output(),
        "Map (12, 1) with 0 bombs:\n--------------\n|            |\n--------------"
    );
}
