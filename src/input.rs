use vstd::prelude::*;

use crate::board::{locate, Board};
use crate::coordinates::Coordinates;

verus! {

/// A pointer button.
#[derive(Clone, Copy, Debug, PartialEq, Eq, Structural)]
pub enum MouseButton {
    Left,
    Right,
    Other,
}

/// What a click asks of the board.
#[derive(Clone, Copy, Debug, PartialEq, Eq, Structural)]
pub enum BoardAction {
    /// Reveal this cell.
    Uncover(Coordinates),
    /// Flag this cell.
    Mark(Coordinates),
}

/// What a button event asks of the board: a release of the left button over a
/// cell reveals it, of the right button flags it; anything else asks nothing.
pub open spec fn action_for(
    b: Board,
    button: MouseButton,
    released: bool,
    ww: int,
    wh: int,
    cursor: Option<(i32, i32)>,
) -> Option<BoardAction> {
    if !released || button is Other || cursor is None {
        None
    } else {
        match locate(b, ww, wh, cursor->Some_0.0 as int, cursor->Some_0.1 as int) {
            None => None,
            Some(p) => {
                let c = Coordinates { x: p.0 as u16, y: p.1 as u16 };
                Some(
                    if button is Left {
                        BoardAction::Uncover(c)
                    } else {
                        BoardAction::Mark(c)
                    },
                )
            },
        }
    }
}

/// Turns a button event, with the cursor where the window last saw it, into
/// the action it asks of the board.
pub fn input_handling(
    board: &Board,
    button: MouseButton,
    released: bool,
    window_width: u32,
    window_height: u32,
    cursor: Option<(i32, i32)>,
) -> (r: Option<BoardAction>)
    requires
        board.wf(),
    ensures
        r == action_for(*board, button, released, window_width as int, window_height as int, cursor),
        r matches Some(a) ==> match a {
            BoardAction::Uncover(c) => board.grid().in_bounds(c.x as int, c.y as int),
            BoardAction::Mark(c) => board.grid().in_bounds(c.x as int, c.y as int),
        },
{
    if !released {
        return None;
    }
    if let MouseButton::Other = button {
        return None;
    }
    let (px, py) = match cursor {
        Some(p) => p,
        None => {
            return None;
        },
    };
    let coordinates = match board.mouse_position(window_width, window_height, px, py) {
        Some(c) => c,
        None => {
            return None;
        },
    };
    match button {
        MouseButton::Left => Some(BoardAction::Uncover(coordinates)),
        _ => Some(BoardAction::Mark(coordinates)),
    }
}

} // verus!
