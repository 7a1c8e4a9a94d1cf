use vstd::prelude::*;

use crate::coordinates::{step, Coordinates};
use crate::tile_map::{GridView, TileMap};

verus! {

/// An axis-aligned rectangle in world units: `min` inclusive, `max` exclusive.
#[derive(Clone, Copy, Debug, PartialEq, Eq, Structural)]
pub struct Rect {
    pub min_x: i64,
    pub min_y: i64,
    pub max_x: i64,
    pub max_y: i64,
}

/// A grid in play: its tiles, where it stands in the world, and the handle of
/// the cover that still hides each concealed cell.
#[derive(Debug)]
pub struct Board {
    pub tile_map: TileMap,
    /// The board's rectangle in world units.
    pub bounds: Rect,
    /// The edge of one tile, in world units.
    pub tile_size: u16,
    /// `covered_tiles[y][x]` is the handle of the cover over `(x, y)`, if concealed.
    pub covered_tiles: Vec<Vec<Option<u64>>>,
    /// Whether a bomb has been revealed.
    pub detonated: bool,
}

/// The handles of the covered cells among the first `k` neighbours of `(x, y)`, in order.
pub open spec fn covered_around(b: Board, x: int, y: int, k: int) -> Seq<u64>
    decreases k,
{
    if k <= 0 {
        Seq::empty()
    } else {
        let n = step(x, y, k - 1);
        covered_around(b, x, y, k - 1) + if b.covered(n.0, n.1) {
            seq![b.cover(n.0, n.1)->Some_0]
        } else {
            Seq::empty()
        }
    }
}

/// Where a pointer at `(px, py)` in a window of `ww` by `wh` falls on the board,
/// as a cell `(x, y)`; the window's centre is the world's origin. Computed on
/// doubled coordinates so that half a window stays whole.
pub open spec fn locate(b: Board, ww: int, wh: int, px: int, py: int) -> Option<(int, int)> {
    let wx = 2 * px - ww;
    let wy = 2 * py - wh;
    if 2 * b.bounds.min_x <= wx < 2 * b.bounds.max_x && 2 * b.bounds.min_y <= wy < 2 * b.bounds.max_y {
        Some(((wx - 2 * b.bounds.min_x) / (2 * b.tile_size as int), (wy - 2 * b.bounds.min_y) / (2
            * b.tile_size as int)))
    } else {
        None
    }
}

/// What taking the cover off `c` does: the handle comes back if `c` was covered,
/// `c` is covered no more, and nothing else changes.
pub open spec fn take_post(pre: Board, post: Board, c: Coordinates, r: Option<u64>) -> bool {
    &&& r == if pre.covered(c.x as int, c.y as int) {
        pre.cover(c.x as int, c.y as int)
    } else {
        None
    }
    &&& post.same_frame(pre)
    &&& post.detonated == pre.detonated
    &&& forall|a: int, b: int|
        #![trigger post.cover(a, b)]
        post.grid().in_bounds(a, b) ==> post.cover(a, b) == if a == c.x && b == c.y {
            None
        } else {
            pre.cover(a, b)
        }
    &&& post.covered_set() == pre.covered_set().remove(c.pos())
}

impl Board {
    pub open spec fn grid(self) -> GridView {
        self.tile_map@
    }

    pub open spec fn cover(self, x: int, y: int) -> Option<u64> {
        self.covered_tiles@[y]@[x]
    }

    pub open spec fn covered(self, x: int, y: int) -> bool {
        self.grid().in_bounds(x, y) && self.cover(x, y) is Some
    }

    /// The cells still concealed.
    pub open spec fn covered_set(self) -> Set<(int, int)> {
        Set::new(|p: (int, int)| self.covered(p.0, p.1))
    }

    /// The same tiles, at the same place, at the same scale.
    pub open spec fn same_frame(self, other: Board) -> bool {
        &&& self.grid() == other.grid()
        &&& self.bounds == other.bounds
        &&& self.tile_size == other.tile_size
    }

    pub open spec fn wf(self) -> bool {
        &&& self.grid().valid()
        &&& self.covered_tiles@.len() == self.grid().height
        &&& forall|y: int|
            0 <= y < self.grid().height ==> (#[trigger] self.covered_tiles@[y])@.len() == self.grid().width
        &&& self.covered_set().finite()
        &&& self.tile_size > 0
        &&& i32::MIN <= self.bounds.min_x <= i32::MAX
        &&& i32::MIN <= self.bounds.min_y <= i32::MAX
        &&& self.bounds.max_x == self.bounds.min_x + self.grid().width * self.tile_size
        &&& self.bounds.max_y == self.bounds.min_y + self.grid().height * self.tile_size
    }

    /// Won: no bomb went off, and every cell that is no bomb has been revealed.
    pub open spec fn won(self) -> bool {
        &&& !self.detonated
        &&& forall|x: int, y: int|
            self.grid().in_bounds(x, y) && !self.grid().bomb_at(x, y) ==> !(#[trigger] self.covered(x, y))
    }

    /// A board over a finished grid whose lower left corner is at `(origin_x,
    /// origin_y)`, with tiles `tile_size` wide, and no cover registered yet.
    pub fn new(tile_map: TileMap, origin_x: i32, origin_y: i32, tile_size: u16) -> (r: Board)
        requires
            tile_map@.valid(),
            tile_size > 0,
        ensures
            r.wf(),
            r.grid() == tile_map@,
            r.bounds.min_x == origin_x,
            r.bounds.min_y == origin_y,
            r.tile_size == tile_size,
            r.covered_set() == Set::<(int, int)>::empty(),
            forall|x: int, y: int| !(#[trigger] r.covered(x, y)),
            !r.detonated,
    {
        let w = tile_map.width();
        let h = tile_map.height();
        let mut covered_tiles: Vec<Vec<Option<u64>>> = Vec::new();
        let mut y: u16 = 0;
        while y < h
            invariant
                y <= h,
                covered_tiles@.len() == y,
                forall|j: int| 0 <= j < y ==> (#[trigger] covered_tiles@[j])@ == Seq::new(w as nat, |i: int| None::<u64>),
            decreases h - y,
        {
            let mut row: Vec<Option<u64>> = Vec::new();
            let mut x: u16 = 0;
            while x < w
                invariant
                    x <= w,
                    row@ == Seq::new(x as nat, |i: int| None::<u64>),
                decreases w - x,
            {
                row.push(None);
                x = x + 1;
                assert(row@ =~= Seq::new(x as nat, |i: int| None::<u64>));
            }
            covered_tiles.push(row);
            y = y + 1;
        }
        proof {
            assert(0 <= w * tile_size <= 0xFFFF * 0xFFFF) by (nonlinear_arith)
                requires
                    0 <= w <= 0xFFFF,
                    0 <= tile_size <= 0xFFFF,
            ;
            assert(0 <= h * tile_size <= 0xFFFF * 0xFFFF) by (nonlinear_arith)
                requires
                    0 <= h <= 0xFFFF,
                    0 <= tile_size <= 0xFFFF,
            ;
        }
        let bounds = Rect {
            min_x: origin_x as i64,
            min_y: origin_y as i64,
            max_x: origin_x as i64 + w as i64 * tile_size as i64,
            max_y: origin_y as i64 + h as i64 * tile_size as i64,
        };
        let b = Board { tile_map, bounds, tile_size, covered_tiles, detonated: false };
        assert(b.covered_set() =~= Set::<(int, int)>::empty());
        b
    }

    fn set_cover(&mut self, c: Coordinates, v: Option<u64>)
        requires
            old(self).wf(),
            old(self).grid().in_bounds(c.x as int, c.y as int),
        ensures
            final(self).same_frame(*old(self)),
            final(self).detonated == old(self).detonated,
            final(self).covered_tiles@.len() == old(self).covered_tiles@.len(),
            forall|y: int|
                0 <= y < final(self).grid().height ==> (#[trigger] final(self).covered_tiles@[y])@.len()
                    == final(self).grid().width,
            forall|a: int, b: int|
                #![trigger final(self).cover(a, b)]
                final(self).grid().in_bounds(a, b) ==> final(self).cover(a, b) == if a == c.x && b == c.y {
                    v
                } else {
                    old(self).cover(a, b)
                },
    {
        let ghost pre = *self;
        assert(pre.covered_tiles@[c.y as int]@.len() == pre.grid().width);
        self.covered_tiles[c.y as usize][c.x as usize] = v;
        assert forall|y: int| 0 <= y < self.grid().height implies (#[trigger] self.covered_tiles@[y])@.len()
            == self.grid().width by {
            assert(pre.covered_tiles@[y]@.len() == pre.grid().width);
        }
        assert forall|a: int, b: int| self.grid().in_bounds(a, b) implies #[trigger] self.cover(a, b) == if a == c.x
            && b == c.y {
            v
        } else {
            pre.cover(a, b)
        } by {
            assert(pre.covered_tiles@[b]@.len() == pre.grid().width);
        }
    }

    /// Records `handle` as the cover over `coordinates`. Refused (false, nothing
    /// changed) for a cell off the grid or one that already has a cover.
    pub fn register(&mut self, coordinates: Coordinates, handle: u64) -> (r: bool)
        requires
            old(self).wf(),
        ensures
            final(self).wf(),
            r == (old(self).grid().in_bounds(coordinates.x as int, coordinates.y as int) && !old(self).covered(
                coordinates.x as int,
                coordinates.y as int,
            )),
            !r ==> *final(self) == *old(self),
            r ==> {
                &&& final(self).same_frame(*old(self))
                &&& final(self).detonated == old(self).detonated
                &&& forall|a: int, b: int|
                    #![trigger final(self).cover(a, b)]
                    final(self).grid().in_bounds(a, b) ==> final(self).cover(a, b) == if a == coordinates.x && b
                        == coordinates.y {
                        Some(handle)
                    } else {
                        old(self).cover(a, b)
                    }
                &&& final(self).covered_set() == old(self).covered_set().insert(coordinates.pos())
            },
    {
        if coordinates.x >= self.tile_map.width() || coordinates.y >= self.tile_map.height() {
            return false;
        }
        assert(self.covered_tiles@[coordinates.y as int]@.len() == self.grid().width);
        if self.covered_tiles[coordinates.y as usize][coordinates.x as usize].is_some() {
            return false;
        }
        let ghost pre = *self;
        self.set_cover(coordinates, Some(handle));
        assert(self.covered_set() =~= pre.covered_set().insert(coordinates.pos()));
        true
    }

    /// The handle of the cover over `coords`, if it is still concealed.
    pub fn tile_to_uncover(&self, coords: &Coordinates) -> (r: Option<u64>)
        requires
            self.wf(),
        ensures
            r == if self.covered(coords.x as int, coords.y as int) {
                self.cover(coords.x as int, coords.y as int)
            } else {
                None
            },
    {
        if coords.x >= self.tile_map.width() || coords.y >= self.tile_map.height() {
            return None;
        }
        assert(self.covered_tiles@[coords.y as int]@.len() == self.grid().width);
        self.covered_tiles[coords.y as usize][coords.x as usize]
    }

    /// Takes the cover off `coords`: its handle if it was concealed, else `None`.
    pub fn try_uncover_tile(&mut self, coords: &Coordinates) -> (r: Option<u64>)
        requires
            old(self).wf(),
        ensures
            final(self).wf(),
            take_post(*old(self), *final(self), *coords, r),
    {
        let r = self.tile_to_uncover(coords);
        let ghost pre = *self;
        match r {
            None => {
                assert(self.covered_set() =~= pre.covered_set().remove(coords.pos()));
            },
            Some(_) => {
                self.set_cover(*coords, None);
                assert(self.covered_set() =~= pre.covered_set().remove(coords.pos()));
            },
        }
        r
    }

    /// The handles of the covers still over the neighbours of `coord`, in the
    /// fixed order of neighbours.
    pub fn adjacent_covered_tiles(&self, coord: Coordinates) -> (r: Vec<u64>)
        requires
            self.wf(),
        ensures
            r@ == covered_around(*self, coord.x as int, coord.y as int, 8),
    {
        let mut r: Vec<u64> = Vec::new();
        let mut k: usize = 0;
        while k < 8
            invariant
                self.wf(),
                k <= 8,
                r@ == covered_around(*self, coord.x as int, coord.y as int, k as int),
            decreases 8 - k,
        {
            match self.tile_map.neighbor(coord, k) {
                Some(n) => {
                    match self.tile_to_uncover(&n) {
                        Some(e) => {
                            r.push(e);
                        },
                        None => {},
                    }
                },
                None => {},
            }
            k = k + 1;
            assert(r@ =~= covered_around(*self, coord.x as int, coord.y as int, k as int));
        }
        r
    }

    /// The cell under a pointer at `(px, py)` in a window of `window_width` by
    /// `window_height`, or `None` where the pointer is off the board.
    pub fn mouse_position(&self, window_width: u32, window_height: u32, px: i32, py: i32) -> (r: Option<
        Coordinates,
    >)
        requires
            self.wf(),
        ensures
            match r {
                Some(c) => {
                    &&& locate(*self, window_width as int, window_height as int, px as int, py as int) == Some(
                        c.pos(),
                    )
                    &&& self.grid().in_bounds(c.x as int, c.y as int)
                },
                None => locate(*self, window_width as int, window_height as int, px as int, py as int) is None,
            },
    {
        proof {
            let (w, h, ts) = (self.grid().width as int, self.grid().height as int, self.tile_size as int);
            assert(0 <= w * ts <= 0xFFFF * 0xFFFF) by (nonlinear_arith)
                requires
                    0 <= w <= 0xFFFF,
                    0 <= ts <= 0xFFFF,
            ;
            assert(0 <= h * ts <= 0xFFFF * 0xFFFF) by (nonlinear_arith)
                requires
                    0 <= h <= 0xFFFF,
                    0 <= ts <= 0xFFFF,
            ;
        }
        let wx: i64 = 2 * px as i64 - window_width as i64;
        let wy: i64 = 2 * py as i64 - window_height as i64;
        if 2 * self.bounds.min_x <= wx && wx < 2 * self.bounds.max_x && 2 * self.bounds.min_y <= wy && wy < 2
            * self.bounds.max_y {
            let dx: u64 = (wx - 2 * self.bounds.min_x) as u64;
            let dy: u64 = (wy - 2 * self.bounds.min_y) as u64;
            let cell: u64 = 2 * self.tile_size as u64;
            let x: u64 = dx / cell;
            let y: u64 = dy / cell;
            proof {
                lemma_cell_index(dx as int, self.grid().width as int, self.tile_size as int);
                lemma_cell_index(dy as int, self.grid().height as int, self.tile_size as int);
            }
            Some(Coordinates { x: x as u16, y: y as u16 })
        } else {
            None
        }
    }

    /// Whether the game is won: no bomb went off and every cell that is no bomb
    /// has been revealed.
    pub fn is_won(&self) -> (r: bool)
        requires
            self.wf(),
        ensures
            r == self.won(),
    {
        if self.detonated {
            return false;
        }
        let mut y: u16 = 0;
        while y < self.tile_map.height()
            invariant
                self.wf(),
                !self.detonated,
                y <= self.grid().height,
                forall|a: int, b: int|
                    self.grid().in_bounds(a, b) && b < y && !self.grid().bomb_at(a, b) ==> !(#[trigger] self.covered(a, b)),
            decreases self.grid().height - y,
        {
            let mut x: u16 = 0;
            while x < self.tile_map.width()
                invariant
                    self.wf(),
                    !self.detonated,
                    y < self.grid().height,
                    x <= self.grid().width,
                    forall|a: int, b: int|
                        self.grid().in_bounds(a, b) && (b < y || (b == y && a < x)) && !self.grid().bomb_at(a, b)
                            ==> !(#[trigger] self.covered(a, b)),
                decreases self.grid().width - x,
            {
                let c = Coordinates { x, y };
                if !self.tile_map.is_bomb_at(c) && self.tile_to_uncover(&c).is_some() {
                    return false;
                }
                x = x + 1;
            }
            y = y + 1;
        }
        true
    }
}

/// Once every cell that is no bomb has been revealed, with no bomb set off,
/// the game is won; on a board without bombs no cover is left at all.
pub proof fn lemma_win(b: Board)
    requires
        b.wf(),
        !b.detonated,
        forall|x: int, y: int|
            b.grid().in_bounds(x, y) && !b.grid().bomb_at(x, y) ==> !(#[trigger] b.covered(x, y)),
    ensures
        b.won(),
        b.grid().bomb_count == 0 ==> b.covered_set() == Set::<(int, int)>::empty(),
{
    if b.grid().bomb_count == 0 {
        b.grid().bombs().lemma_len0_is_empty();
        assert forall|x: int, y: int| b.grid().in_bounds(x, y) implies !b.grid().bomb_at(x, y) by {
            assert(!b.grid().bombs().contains((x, y)));
        }
        assert(b.covered_set() =~= Set::<(int, int)>::empty());
    }
}

/// Every point of a tile maps back to that tile: a pointer at offset `(ox, oy)`
/// from the lower left corner of cell `(x, y)`, in a window whose centre is
/// the world's origin, is located on `(x, y)`.
pub proof fn lemma_locate_round_trip(b: Board, x: int, y: int, ox: int, oy: int, ww: int, wh: int)
    requires
        b.wf(),
        b.grid().in_bounds(x, y),
        0 <= ox < b.tile_size,
        0 <= oy < b.tile_size,
    ensures
        ({
            let px2 = 2 * (b.bounds.min_x + x * b.tile_size + ox) + ww;
            let py2 = 2 * (b.bounds.min_y + y * b.tile_size + oy) + wh;
            px2 % 2 == 0 && py2 % 2 == 0 ==> locate(b, ww, wh, px2 / 2, py2 / 2) == Some((x, y))
        }),
{
    let ts = b.tile_size as int;
    let w = b.grid().width as int;
    let h = b.grid().height as int;
    let px2 = 2 * (b.bounds.min_x + x * ts + ox) + ww;
    let py2 = 2 * (b.bounds.min_y + y * ts + oy) + wh;
    if px2 % 2 == 0 && py2 % 2 == 0 {
        let dx = 2 * (x * ts + ox);
        let dy = 2 * (y * ts + oy);
        assert(2 * (px2 / 2) - ww - 2 * b.bounds.min_x == dx);
        assert(2 * (py2 / 2) - wh - 2 * b.bounds.min_y == dy);
        lemma_tile_offset(x, ox, ts, w);
        lemma_tile_offset(y, oy, ts, h);
    }
}

/// Offset `o` into tile `i` of size `ts`, doubled, lies inside `n` tiles and
/// divides back to `i`.
proof fn lemma_tile_offset(i: int, o: int, ts: int, n: int)
    requires
        0 <= i < n,
        0 <= o < ts,
    ensures
        0 <= 2 * (i * ts + o) < 2 * (n * ts),
        (2 * (i * ts + o)) / (2 * ts) == i,
{
    assert(0 <= 2 * (i * ts + o) < 2 * (n * ts)) by (nonlinear_arith)
        requires
            0 <= i < n,
            0 <= o < ts,
    ;
    assert((2 * (i * ts + o)) / (2 * ts) == i) by (nonlinear_arith)
        requires
            0 <= i,
            0 <= o < ts,
    ;
}

/// A doubled offset inside `n` tiles of size `ts` falls in one of them.
proof fn lemma_cell_index(d: int, n: int, ts: int)
    requires
        0 <= d < 2 * (n * ts),
        ts > 0,
        n >= 0,
    ensures
        0 <= d / (2 * ts) < n,
        d / (2 * ts) <= 0xFFFF || n > 0xFFFF,
{
    assert(0 <= d / (2 * ts) < n) by (nonlinear_arith)
        requires
            0 <= d < 2 * (n * ts),
            ts > 0,
            n >= 0,
    ;
}

} // verus!
