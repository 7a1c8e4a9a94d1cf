use vstd::prelude::*;

use colored::Colorize;

use crate::text::{decimal, push_decimal};

verus! {

/// One cell of a minesweeper grid.
#[derive(Clone, Copy, Debug, PartialEq, Eq, Structural, Default)]
pub enum Tile {
    /// No bomb here and none around.
    #[default]
    Empty,
    /// A bomb.
    Bomb,
    /// No bomb here, and this many (1 to 8) bombs around.
    BombNeighbor(u8),
}

/// The tile that a non-bomb cell with `n` bombs around it holds.
pub open spec fn label(n: int) -> Tile {
    if n == 0 {
        Tile::Empty
    } else {
        Tile::BombNeighbor(n as u8)
    }
}

/// A foreground colour of the terminal.
#[derive(Clone, Copy, Debug, PartialEq, Eq, Structural)]
pub enum Shade {
    BrightRed,
    Cyan,
    Green,
    Yellow,
    Red,
}

/// The code that selects `s` as the foreground colour.
pub open spec fn fg_code(s: Shade) -> Seq<char> {
    match s {
        Shade::BrightRed => seq!['9', '1'],
        Shade::Cyan => seq!['3', '6'],
        Shade::Green => seq!['3', '2'],
        Shade::Yellow => seq!['3', '3'],
        Shade::Red => seq!['3', '1'],
    }
}

/// `text` between the escape that selects `s` and the escape that resets.
pub open spec fn painted(s: Shade, text: Seq<char>) -> Seq<char> {
    seq!['\u{1b}', '['] + fg_code(s) + seq!['m'] + text + seq!['\u{1b}', '[', '0', 'm']
}

/// Relies on colored's `Colorize::color` on a `&str` and on the `Display` of the
/// `ColoredString` it returns: the text as it is where colouring is off, else
/// the text between the escape of the colour and the reset escape (for text
/// that holds no escape itself).
#[verifier::external_body]
fn paint(text: &str, shade: Shade) -> (r: String)
    requires
        forall|i: int| 0 <= i < text@.len() ==> text@[i] != '\u{1b}',
    ensures
        r@ == text@ || r@ == painted(shade, text@),
{
    let color = match shade {
        Shade::BrightRed => colored::Color::BrightRed,
        Shade::Cyan => colored::Color::Cyan,
        Shade::Green => colored::Color::Green,
        Shade::Yellow => colored::Color::Yellow,
        Shade::Red => colored::Color::Red,
    };
    format!("{}", text.color(color))
}

/// The character that stands for a tile in a dump of the grid.
pub open spec fn glyph(t: Tile) -> Seq<char> {
    match t {
        Tile::Bomb => seq!['*'],
        Tile::BombNeighbor(v) => decimal(v as nat),
        Tile::Empty => seq![' '],
    }
}

/// The colour a tile is dumped in, if any.
pub open spec fn shade_of(t: Tile) -> Option<Shade> {
    match t {
        Tile::Bomb => Some(Shade::BrightRed),
        Tile::BombNeighbor(v) => Some(
            if v == 1 {
                Shade::Cyan
            } else if v == 2 {
                Shade::Green
            } else if v == 3 {
                Shade::Yellow
            } else {
                Shade::Red
            },
        ),
        Tile::Empty => None,
    }
}

/// `s` shows tile `t`: its glyph, plain or in its colour.
pub open spec fn renders(t: Tile, s: Seq<char>) -> bool {
    match shade_of(t) {
        Some(sh) => s == glyph(t) || s == painted(sh, glyph(t)),
        None => s == glyph(t),
    }
}

/// Decimal text holds no escape character.
proof fn lemma_decimal_plain(n: nat)
    ensures
        forall|i: int| 0 <= i < decimal(n).len() ==> decimal(n)[i] != '\u{1b}',
    decreases n,
{
    if n >= 10 {
        lemma_decimal_plain(n / 10);
        assert forall|i: int| 0 <= i < decimal(n).len() implies decimal(n)[i] != '\u{1b}' by {
            if i < decimal(n / 10).len() {
                assert(decimal(n)[i] == decimal(n / 10)[i]);
            }
        }
    }
}

impl Tile {
    /// The tile as a dump of the grid shows it: `*` for a bomb, the count for a
    /// numbered cell, a blank for an empty one; coloured where the terminal
    /// takes colours.
    pub fn console_output(&self) -> (r: String)
        ensures
            renders(*self, r@),
    {
        match *self {
            Tile::Bomb => {
                proof {
                    reveal_strlit("*");
                    assert("*"@ =~= seq!['*']);
                }
                paint("*", Shade::BrightRed)
            },
            Tile::BombNeighbor(v) => {
                let mut digits = String::new();
                push_decimal(&mut digits, v as u16);
                proof {
                    lemma_decimal_plain(v as nat);
                }
                let shade = if v == 1 {
                    Shade::Cyan
                } else if v == 2 {
                    Shade::Green
                } else if v == 3 {
                    Shade::Yellow
                } else {
                    Shade::Red
                };
                paint(digits.as_str(), shade)
            },
            Tile::Empty => {
                proof {
                    reveal_strlit(" ");
                    assert(" "@ =~= seq![' ']);
                }
                String::from_str(" ")
            },
        }
    }

    pub fn is_bomb(&self) -> (r: bool)
        ensures
            r == (*self is Bomb),
    {
        matches!(*self, Tile::Bomb)
    }

    pub fn is_empty(&self) -> (r: bool)
        ensures
            r == (*self is Empty),
    {
        matches!(*self, Tile::Empty)
    }

    pub fn is_bomb_neighbor(&self) -> (r: bool)
        ensures
            r == (*self is BombNeighbor),
    {
        matches!(*self, Tile::BombNeighbor(_))
    }
}

} // verus!
