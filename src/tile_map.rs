use vstd::prelude::*;

use crate::coordinates::{delta, step, Coordinates};
use crate::random::draw_below;
use crate::text::{concat, decimal, push_decimal, push_str, repeat};
use crate::tile::{label, renders, Tile};

verus! {

/// Why a grid could not be built.
#[derive(Clone, Copy, Debug, PartialEq, Eq, Structural)]
pub enum ConfigError {
    /// A width or a height of zero.
    EmptyDimension,
    /// At least as many bombs as cells.
    TooManyBombs,
    /// A bomb position off the grid.
    OutOfBounds,
}

/// What a grid holds, as mathematical values: `tiles[y][x]` is the cell `(x, y)`.
pub struct GridView {
    pub width: nat,
    pub height: nat,
    pub bomb_count: nat,
    pub tiles: Seq<Seq<Tile>>,
}

impl GridView {
    pub open spec fn in_bounds(self, x: int, y: int) -> bool {
        0 <= x < self.width && 0 <= y < self.height
    }

    pub open spec fn tile(self, x: int, y: int) -> Tile {
        self.tiles[y][x]
    }

    /// A bomb at `(x, y)`; nothing off the grid is a bomb.
    pub open spec fn bomb_at(self, x: int, y: int) -> bool {
        self.in_bounds(x, y) && self.tile(x, y) is Bomb
    }

    /// Bombs among the first `k` neighbours of `(x, y)`.
    pub open spec fn bombs_among(self, x: int, y: int, k: int) -> int
        decreases k,
    {
        if k <= 0 {
            0
        } else {
            self.bombs_among(x, y, k - 1) + if self.bomb_at(step(x, y, k - 1).0, step(x, y, k - 1).1) {
                1int
            } else {
                0int
            }
        }
    }

    /// Bombs among the up to eight neighbours of `(x, y)` that lie on the grid.
    pub open spec fn neighbor_bombs(self, x: int, y: int) -> int {
        self.bombs_among(x, y, 8)
    }

    /// The set of bomb cells.
    pub open spec fn bombs(self) -> Set<(int, int)> {
        Set::new(|p: (int, int)| self.bomb_at(p.0, p.1))
    }

    pub open spec fn shaped(self) -> bool {
        &&& 0 < self.width <= u16::MAX
        &&& 0 < self.height <= u16::MAX
        &&& self.tiles.len() == self.height
        &&& forall|y: int| 0 <= y < self.height ==> #[trigger] self.tiles[y].len() == self.width
    }

    /// Every cell that is no bomb holds the count of bombs around it.
    pub open spec fn labelled(self) -> bool {
        forall|x: int, y: int|
            self.in_bounds(x, y) && !(#[trigger] self.tile(x, y) is Bomb) ==> self.tile(x, y) == label(
                self.neighbor_bombs(x, y),
            )
    }

    /// No bomb has been placed yet.
    pub open spec fn blank(self) -> bool {
        &&& self.bomb_count == 0
        &&& forall|x: int, y: int| self.in_bounds(x, y) ==> #[trigger] self.tile(x, y) == Tile::Empty
    }

    /// A finished grid: its shape, exactly `bomb_count` bombs, and every label right.
    pub open spec fn valid(self) -> bool {
        &&& self.shaped()
        &&& self.bombs().finite()
        &&& self.bombs().len() == self.bomb_count
        &&& self.labelled()
    }
}

/// The `k` first neighbours of `(x, y)` in their fixed order, those off the grid left out.
pub open spec fn square_upto(g: GridView, x: int, y: int, k: int) -> Seq<Coordinates>
    decreases k,
{
    if k <= 0 {
        Seq::empty()
    } else {
        let n = step(x, y, k - 1);
        square_upto(g, x, y, k - 1) + if g.in_bounds(n.0, n.1) {
            seq![Coordinates { x: n.0 as u16, y: n.1 as u16 }]
        } else {
            Seq::empty()
        }
    }
}

/// Bombs among the first `k` neighbours is at most `k`, and none of them is a
/// bomb where that count is zero.
pub proof fn lemma_bombs_among(g: GridView, x: int, y: int, k: int)
    requires
        0 <= k <= 8,
    ensures
        0 <= g.bombs_among(x, y, k) <= k,
        g.bombs_among(x, y, k) == 0 ==> forall|j: int|
            0 <= j < k ==> !g.bomb_at(#[trigger] step(x, y, j).0, step(x, y, j).1),
    decreases k,
{
    if k > 0 {
        lemma_bombs_among(g, x, y, k - 1);
    }
}

/// Two grids with the same bombs have the same counts around every cell.
pub proof fn lemma_same_bombs_same_counts(g: GridView, h: GridView, x: int, y: int, k: int)
    requires
        forall|a: int, b: int| g.bomb_at(a, b) == #[trigger] h.bomb_at(a, b),
    ensures
        g.bombs_among(x, y, k) == h.bombs_among(x, y, k),
    decreases k,
{
    if k > 0 {
        lemma_same_bombs_same_counts(g, h, x, y, k - 1);
    }
}

/// The cells named in `s`.
pub open spec fn cells_of(s: Seq<Coordinates>) -> Set<(int, int)> {
    Set::new(|p: (int, int)| exists|i: int| 0 <= i < s.len() && #[trigger] s[i].pos() == p)
}

/// The number of cells of a grid of `width` by `height`.
pub open spec fn cell_count(width: nat, height: nat) -> int {
    (width * height) as int
}

/// One row of a dump: the pieces that show its cells, between bars.
pub open spec fn row_text(row: Seq<Seq<char>>) -> Seq<char> {
    "|"@ + concat(row) + "|\n"@
}

/// The rows `h - 1` down to `k` of a dump, the top row first.
pub open spec fn rows_between(cells: Seq<Seq<Seq<char>>>, k: int, h: int) -> Seq<char>
    decreases h - k,
{
    if k >= h {
        Seq::empty()
    } else {
        rows_between(cells, k + 1, h) + row_text(cells[k])
    }
}

/// `cells[y][x]` shows the tile at `(x, y)` for every cell of `g`.
pub open spec fn shows(g: GridView, cells: Seq<Seq<Seq<char>>>) -> bool {
    &&& cells.len() == g.height
    &&& forall|y: int| 0 <= y < g.height ==> (#[trigger] cells[y]).len() == g.width
    &&& forall|x: int, y: int| g.in_bounds(x, y) ==> renders(g.tile(x, y), #[trigger] cells[y][x])
}

/// A dump of `g` whose cells are shown by `cells`: a header with the size and
/// the bomb count, then the rows from the top, framed by dashes and bars.
pub open spec fn dump_text(g: GridView, cells: Seq<Seq<Seq<char>>>) -> Seq<char> {
    let line = repeat('-', g.width + 2);
    "Map ("@ + decimal(g.width) + ", "@ + decimal(g.height) + ") with "@ + decimal(g.bomb_count) + " bombs:\n"@
        + line + "\n"@ + rows_between(cells, 0, g.height as int) + line
}

proof fn lemma_rows_between_frame(c1: Seq<Seq<Seq<char>>>, c2: Seq<Seq<Seq<char>>>, k: int, h: int)
    requires
        forall|y: int| k <= y < h ==> c1[y] == c2[y],
    ensures
        rows_between(c1, k, h) == rows_between(c2, k, h),
    decreases h - k,
{
    if k < h {
        lemma_rows_between_frame(c1, c2, k + 1, h);
    }
}

/// A rectangular grid of tiles with its bomb count.
#[derive(Clone, Debug)]
pub struct TileMap {
    bomb_count: u16,
    height: u16,
    width: u16,
    map: Vec<Vec<Tile>>,
}

impl View for TileMap {
    type V = GridView;

    closed spec fn view(&self) -> GridView {
        GridView {
            width: self.width as nat,
            height: self.height as nat,
            bomb_count: self.bomb_count as nat,
            tiles: self.map@.map_values(|r: Vec<Tile>| r@),
        }
    }
}

impl TileMap {
    /// A grid whose cells are all `Empty`, with no bomb; both sides must be positive.
    pub fn empty(width: u16, height: u16) -> (r: Result<TileMap, ConfigError>)
        ensures
            (width == 0 || height == 0) <==> r == Err::<TileMap, ConfigError>(ConfigError::EmptyDimension),
            (width > 0 && height > 0) <==> r is Ok,
            r matches Ok(m) ==> {
                &&& m@.width == width
                &&& m@.height == height
                &&& m@.shaped()
                &&& m@.blank()
                &&& m@.valid()
            },
    {
        if width == 0 || height == 0 {
            return Err(ConfigError::EmptyDimension);
        }
        let mut map: Vec<Vec<Tile>> = Vec::new();
        let mut y: u16 = 0;
        while y < height
            invariant
                y <= height,
                map@.len() == y,
                forall|j: int| 0 <= j < y ==> (#[trigger] map@[j])@ == Seq::new(width as nat, |i: int| Tile::Empty),
            decreases height - y,
        {
            let mut row: Vec<Tile> = Vec::new();
            let mut x: u16 = 0;
            while x < width
                invariant
                    x <= width,
                    row@ == Seq::new(x as nat, |i: int| Tile::Empty),
                decreases width - x,
            {
                row.push(Tile::Empty);
                x = x + 1;
                assert(row@ =~= Seq::new(x as nat, |i: int| Tile::Empty));
            }
            map.push(row);
            y = y + 1;
        }
        let m = TileMap { bomb_count: 0, height, width, map };
        proof {
            assert(m@.bombs() =~= Set::empty());
            assert forall|x: int, y: int| m@.in_bounds(x, y) && !(#[trigger] m@.tile(x, y) is Bomb)
                implies m@.tile(x, y) == label(m@.neighbor_bombs(x, y)) by {
                assert forall|a: int, b: int| !m@.bomb_at(a, b) by {
                    if m@.in_bounds(a, b) {
                        assert(m@.tile(a, b) == Tile::Empty);
                    }
                }
                lemma_no_bombs_no_count(m@, x, y, 8);
            }
        }
        Ok(m)
    }

    /// A finished grid of `width` by `height` with `bomb_count` bombs placed at
    /// random. Refused where a side is zero, then where there are not more
    /// cells than bombs.
    pub fn generate(width: u16, height: u16, bomb_count: u16) -> (r: Result<TileMap, ConfigError>)
        ensures
            (width == 0 || height == 0) <==> r == Err::<TileMap, ConfigError>(ConfigError::EmptyDimension),
            (width > 0 && height > 0 && bomb_count >= cell_count(width as nat, height as nat)) <==> r == Err::<
                TileMap,
                ConfigError,
            >(ConfigError::TooManyBombs),
            r is Err ==> r == Err::<TileMap, ConfigError>(ConfigError::EmptyDimension) || r == Err::<
                TileMap,
                ConfigError,
            >(ConfigError::TooManyBombs),
            r matches Ok(m) ==> {
                &&& m@.width == width
                &&& m@.height == height
                &&& m@.bomb_count == bomb_count
                &&& m@.valid()
            },
    {
        let mut map = match TileMap::empty(width, height) {
            Ok(m) => m,
            Err(e) => {
                return Err(e);
            },
        };
        match map.set_bombs(bomb_count) {
            Ok(()) => Ok(map),
            Err(e) => Err(e),
        }
    }

    /// The first `Empty` cell, scanning rows from the bottom and each row from
    /// the left, if there is one: the cell to reveal at the start.
    pub fn safe_start(&self) -> (r: Option<Coordinates>)
        requires
            self@.shaped(),
        ensures
            match r {
                Some(c) => {
                    &&& self@.in_bounds(c.x as int, c.y as int)
                    &&& self@.tile(c.x as int, c.y as int) is Empty
                    &&& forall|a: int, b: int|
                        self@.in_bounds(a, b) && (b < c.y || (b == c.y && a < c.x)) ==> !(#[trigger] self@.tile(
                            a,
                            b,
                        ) is Empty)
                },
                None => forall|a: int, b: int| self@.in_bounds(a, b) ==> !(#[trigger] self@.tile(a, b) is Empty),
            },
    {
        let mut y: u16 = 0;
        while y < self.height
            invariant
                self@.shaped(),
                y <= self@.height,
                forall|a: int, b: int| self@.in_bounds(a, b) && b < y ==> !(#[trigger] self@.tile(a, b) is Empty),
            decreases self@.height - y,
        {
            let mut x: u16 = 0;
            while x < self.width
                invariant
                    self@.shaped(),
                    y < self@.height,
                    x <= self@.width,
                    forall|a: int, b: int|
                        self@.in_bounds(a, b) && (b < y || (b == y && a < x)) ==> !(#[trigger] self@.tile(a, b) is Empty),
                decreases self@.width - x,
            {
                let c = Coordinates { x, y };
                if self.tile_at(c).is_empty() {
                    return Some(c);
                }
                x = x + 1;
            }
            y = y + 1;
        }
        None
    }

    /// Getter for `width`
    pub fn width(&self) -> (r: u16)
        ensures
            r == self@.width,
    {
        self.width
    }

    /// Getter for `height`
    pub fn height(&self) -> (r: u16)
        ensures
            r == self@.height,
    {
        self.height
    }

    /// Getter for `bomb_count`
    pub fn bomb_count(&self) -> (r: u16)
        ensures
            r == self@.bomb_count,
    {
        self.bomb_count
    }

    /// The tile at `c`.
    pub fn tile_at(&self, c: Coordinates) -> (r: Tile)
        requires
            self@.shaped(),
            self@.in_bounds(c.x as int, c.y as int),
        ensures
            r == self@.tile(c.x as int, c.y as int),
    {
        self.map[c.y as usize][c.x as usize]
    }

    /// The `k`-th neighbour of `c`, or `None` where it lies off the grid.
    pub fn neighbor(&self, c: Coordinates, k: usize) -> (r: Option<Coordinates>)
        requires
            k < 8,
        ensures
            ({
                let n = step(c.x as int, c.y as int, k as int);
                if self@.in_bounds(n.0, n.1) {
                    r == Some(Coordinates { x: n.0 as u16, y: n.1 as u16 })
                } else {
                    r is None
                }
            }),
    {
        let (dx, dy) = Coordinates::delta_of(k);
        let nx: i32 = c.x as i32 + dx;
        let ny: i32 = c.y as i32 + dy;
        if 0 <= nx && nx < self.width as i32 && 0 <= ny && ny < self.height as i32 {
            Some(Coordinates { x: nx as u16, y: ny as u16 })
        } else {
            None
        }
    }

    /// The neighbours of `coordinates` that lie on the grid, in the fixed order.
    pub fn safe_square_at(&self, coordinates: Coordinates) -> (r: Vec<Coordinates>)
        ensures
            r@ == square_upto(self@, coordinates.x as int, coordinates.y as int, 8),
    {
        let mut r: Vec<Coordinates> = Vec::new();
        let mut k: usize = 0;
        while k < 8
            invariant
                k <= 8,
                r@ == square_upto(self@, coordinates.x as int, coordinates.y as int, k as int),
            decreases 8 - k,
        {
            match self.neighbor(coordinates, k) {
                Some(n) => {
                    r.push(n);
                },
                None => {},
            }
            k = k + 1;
            assert(r@ =~= square_upto(self@, coordinates.x as int, coordinates.y as int, k as int));
        }
        r
    }

    /// Whether a bomb lies at the given cell; false for any cell off the grid.
    pub fn is_bomb_at(&self, coordinates: Coordinates) -> (r: bool)
        requires
            self@.shaped(),
        ensures
            r == self@.bomb_at(coordinates.x as int, coordinates.y as int),
    {
        if coordinates.x >= self.width || coordinates.y >= self.height {
            return false;
        }
        assert(self@.tiles[coordinates.y as int].len() == self.width);
        self.map[coordinates.y as usize][coordinates.x as usize].is_bomb()
    }

    fn cells(&self) -> (r: u64)
        ensures
            r == cell_count(self@.width, self@.height),
    {
        proof {
            let (w, h) = (self.width as int, self.height as int);
            assert(0 <= w * h <= 0xFFFF * 0xFFFF) by (nonlinear_arith)
                requires
                    0 <= w <= 0xFFFF,
                    0 <= h <= 0xFFFF,
            ;
        }
        self.width as u64 * self.height as u64
    }

    fn set_tile(&mut self, c: Coordinates, t: Tile)
        requires
            old(self)@.shaped(),
            old(self)@.in_bounds(c.x as int, c.y as int),
        ensures
            final(self)@.width == old(self)@.width,
            final(self)@.height == old(self)@.height,
            final(self)@.bomb_count == old(self)@.bomb_count,
            final(self)@.shaped(),
            forall|a: int, b: int|
                #![trigger final(self)@.tile(a, b)]
                final(self)@.in_bounds(a, b) ==> final(self)@.tile(a, b) == if a == c.x && b == c.y {
                    t
                } else {
                    old(self)@.tile(a, b)
                },
    {
        let ghost g = self@;
        assert(g.tiles[c.y as int].len() == g.width);
        self.map[c.y as usize][c.x as usize] = t;
        assert forall|y: int| 0 <= y < self@.height implies #[trigger] self@.tiles[y].len() == self@.width by {
            assert(g.tiles[y].len() == g.width);
        }
        assert forall|a: int, b: int| self@.in_bounds(a, b) implies #[trigger] self@.tile(a, b) == if a == c.x && b
            == c.y {
            t
        } else {
            g.tile(a, b)
        } by {
            assert(g.tiles[b].len() == g.width);
        }
    }

    /// Puts a bomb on each cell of `positions` (a cell named twice holds one
    /// bomb), then labels every other cell with the count of bombs around it.
    /// Refused, with the grid unchanged: as many positions as cells or more
    /// than `u16::MAX`, then a position off the grid.
    pub fn set_bombs_at(&mut self, positions: &Vec<Coordinates>) -> (r: Result<(), ConfigError>)
        requires
            old(self)@.shaped(),
            old(self)@.blank(),
        ensures
            (positions@.len() >= cell_count(old(self)@.width, old(self)@.height) || positions@.len() > u16::MAX)
                <==> r == Err::<(), ConfigError>(ConfigError::TooManyBombs),
            r == Err::<(), ConfigError>(ConfigError::OutOfBounds) <==> (positions@.len() < cell_count(
                old(self)@.width,
                old(self)@.height,
            ) && positions@.len() <= u16::MAX && exists|i: int|
                0 <= i < positions@.len() && !old(self)@.in_bounds(
                    #[trigger] positions@[i].x as int,
                    positions@[i].y as int,
                )),
            r is Err ==> *final(self) == *old(self) && (r == Err::<(), ConfigError>(ConfigError::TooManyBombs)
                || r == Err::<(), ConfigError>(ConfigError::OutOfBounds)),
            r is Ok ==> {
                &&& final(self)@.width == old(self)@.width
                &&& final(self)@.height == old(self)@.height
                &&& final(self)@.valid()
                &&& final(self)@.bombs() == cells_of(positions@)
                &&& positions@.no_duplicates() ==> final(self)@.bomb_count == positions@.len()
            },
    {
        let cells = self.cells();
        if positions.len() as u64 >= cells || positions.len() > 0xFFFF {
            return Err(ConfigError::TooManyBombs);
        }
        let mut i: usize = 0;
        while i < positions.len()
            invariant
                i <= positions@.len(),
                positions@.len() < cell_count(self@.width, self@.height),
                positions@.len() <= u16::MAX,
                forall|j: int| 0 <= j < i ==> self@.in_bounds(#[trigger] positions@[j].x as int, positions@[j].y as int),
            decreases positions@.len() - i,
        {
            if positions[i].x >= self.width || positions[i].y >= self.height {
                assert(!self@.in_bounds(positions@[i as int].x as int, positions@[i as int].y as int));
                return Err(ConfigError::OutOfBounds);
            }
            i = i + 1;
        }
        // Place the bombs.
        let ghost g0 = self@;
        let ghost mut placed_set: Set<(int, int)> = Set::empty();
        let mut placed: u16 = 0;
        let mut i: usize = 0;
        while i < positions.len()
            invariant
                positions@.len() <= u16::MAX,
                i <= positions@.len(),
                forall|j: int| 0 <= j < positions@.len() ==> g0.in_bounds(#[trigger] positions@[j].x as int, positions@[j].y as int),
                self@.shaped(),
                self@.width == g0.width,
                self@.height == g0.height,
                self@.bomb_count == g0.bomb_count,
                forall|a: int, b: int| self@.in_bounds(a, b) ==> (#[trigger] self@.tile(a, b) == Tile::Empty || self@.tile(a, b) == Tile::Bomb),
                forall|a: int, b: int| self@.bomb_at(a, b) <==> #[trigger] placed_set.contains((a, b)),
                placed_set == cells_of(positions@.take(i as int)),
                placed_set.finite(),
                placed_set.len() == placed,
                placed <= i,
                positions@.no_duplicates() ==> placed == i,
            decreases positions@.len() - i,
        {
            let c = positions[i];
            if !self.is_bomb_at(c) {
                self.set_tile(c, Tile::Bomb);
                placed = placed + 1;
                proof {
                    placed_set = placed_set.insert(c.pos());
                }
            }
            proof {
                if positions@.no_duplicates() && !placed_set.contains(c.pos()) {
                    assert(false);
                }
            }
            i = i + 1;
            proof {
                let s = positions@.take(i as int);
                assert(placed_set =~= cells_of(s)) by {
                    assert forall|p: (int, int)| placed_set.contains(p) implies cells_of(s).contains(p) by {
                        if p == c.pos() {
                            assert(s[i - 1].pos() == p);
                        } else {
                            let j = choose|j: int| 0 <= j < i - 1 && #[trigger] positions@.take(i - 1)[j].pos() == p;
                            assert(s[j].pos() == p);
                        }
                    }
                    assert forall|p: (int, int)| cells_of(s).contains(p) implies placed_set.contains(p) by {
                        let j = choose|j: int| 0 <= j < i && #[trigger] s[j].pos() == p;
                        if j < i - 1 {
                            assert(positions@.take(i - 1)[j].pos() == p);
                        }
                    }
                }
            }
        }
        proof {
            assert(positions@.take(positions@.len() as int) =~= positions@);
        }
        // Label the other cells.
        let ghost g1 = self@;
        let mut y: u16 = 0;
        while y < self.height
            invariant
                self@.shaped(),
                self@.width == g1.width,
                self@.height == g1.height,
                self@.bomb_count == g1.bomb_count,
                y <= self@.height,
                forall|a: int, b: int| self@.bomb_at(a, b) == #[trigger] g1.bomb_at(a, b),
                forall|a: int, b: int|
                    self@.in_bounds(a, b) && !(#[trigger] self@.tile(a, b) is Bomb) ==> if b < y {
                        self@.tile(a, b) == label(g1.neighbor_bombs(a, b))
                    } else {
                        self@.tile(a, b) == Tile::Empty
                    },
            decreases g1.height - y,
        {
            let mut x: u16 = 0;
            while x < self.width
                invariant
                    self@.shaped(),
                    self@.width == g1.width,
                    self@.height == g1.height,
                    self@.bomb_count == g1.bomb_count,
                    y < self@.height,
                    x <= self@.width,
                    forall|a: int, b: int| self@.bomb_at(a, b) == #[trigger] g1.bomb_at(a, b),
                    forall|a: int, b: int|
                        self@.in_bounds(a, b) && !(#[trigger] self@.tile(a, b) is Bomb) ==> if b < y || (b == y && a < x) {
                            self@.tile(a, b) == label(g1.neighbor_bombs(a, b))
                        } else {
                            self@.tile(a, b) == Tile::Empty
                        },
                decreases g1.width - x,
            {
                let c = Coordinates { x, y };
                if !self.is_bomb_at(c) {
                    let num = self.bomb_count_at(c);
                    proof {
                        lemma_same_bombs_same_counts(self@, g1, x as int, y as int, 8);
                    }
                    if num != 0 {
                        self.set_tile(c, Tile::BombNeighbor(num));
                    }
                }
                x = x + 1;
            }
            y = y + 1;
        }
        let ghost g2 = self@;
        self.bomb_count = placed;
        proof {
            assert(self@.tiles == g2.tiles);
            assert forall|a: int, b: int| self@.bomb_at(a, b) == #[trigger] g1.bomb_at(a, b) by {
                assert(self@.bomb_at(a, b) == g2.bomb_at(a, b));
            }
            assert(self@.bombs() =~= placed_set);
            assert forall|a: int, b: int| self@.in_bounds(a, b) && !(#[trigger] self@.tile(a, b) is Bomb) implies self@.tile(
                a,
                b,
            ) == label(self@.neighbor_bombs(a, b)) by {
                assert(self@.tile(a, b) == g2.tile(a, b));
                lemma_same_bombs_same_counts(self@, g1, a, b, 8);
            }
        }
        Ok(())
    }

    /// Places `bomb_count` bombs on cells drawn at random, each draw uniform
    /// over the cells still free, then labels every other cell with the count
    /// of bombs around it. Refused, with the grid unchanged, where there are
    /// not more cells than bombs.
    pub fn set_bombs(&mut self, bomb_count: u16) -> (r: Result<(), ConfigError>)
        requires
            old(self)@.shaped(),
            old(self)@.blank(),
        ensures
            bomb_count >= cell_count(old(self)@.width, old(self)@.height) <==> r == Err::<(), ConfigError>(
                ConfigError::TooManyBombs,
            ),
            r is Err ==> r == Err::<(), ConfigError>(ConfigError::TooManyBombs) && *final(self) == *old(self),
            r is Ok ==> {
                &&& final(self)@.width == old(self)@.width
                &&& final(self)@.height == old(self)@.height
                &&& final(self)@.bomb_count == bomb_count
                &&& final(self)@.valid()
            },
    {
        let cells = self.cells();
        if bomb_count as u64 >= cells {
            return Err(ConfigError::TooManyBombs);
        }
        let chosen = self.draw_cells(bomb_count);
        self.set_bombs_at(&chosen)
    }

    /// `count` distinct cells of the grid, each drawn uniformly among those not drawn before.
    fn draw_cells(&self, count: u16) -> (r: Vec<Coordinates>)
        requires
            self@.shaped(),
            count < cell_count(self@.width, self@.height),
        ensures
            r@.len() == count,
            r@.no_duplicates(),
            forall|i: int| 0 <= i < r@.len() ==> self@.in_bounds(#[trigger] r@[i].x as int, r@[i].y as int),
    {
        let mut free: Vec<Coordinates> = Vec::new();
        let mut y: u16 = 0;
        while y < self.height
            invariant
                self@.shaped(),
                y <= self@.height,
                free@.len() == y * self@.width,
                free@.no_duplicates(),
                forall|i: int| 0 <= i < free@.len() ==> (#[trigger] free@[i]).y < y && free@[i].x < self@.width,
            decreases self@.height - y,
        {
            let mut x: u16 = 0;
            while x < self.width
                invariant
                    self@.shaped(),
                    y < self@.height,
                    x <= self@.width,
                    free@.len() == y * self@.width + x,
                    free@.no_duplicates(),
                    forall|i: int| 0 <= i < free@.len() ==> ((#[trigger] free@[i]).y < y || (free@[i].y == y && free@[i].x < x)) && free@[i].x < self@.width,
                decreases self@.width - x,
            {
                free.push(Coordinates { x, y });
                x = x + 1;
            }
            proof {
                assert((y + 1) * self@.width == y * self@.width + self@.width) by (nonlinear_arith);
            }
            y = y + 1;
        }
        proof {
            assert(self@.height * self@.width == cell_count(self@.width, self@.height)) by (nonlinear_arith);
        }
        let mut rng = rand::thread_rng();
        let mut chosen: Vec<Coordinates> = Vec::new();
        while chosen.len() < count as usize
            invariant
                self@.shaped(),
                chosen@.len() + free@.len() == cell_count(self@.width, self@.height),
                chosen@.len() <= count,
                count < cell_count(self@.width, self@.height),
                free@.no_duplicates(),
                chosen@.no_duplicates(),
                forall|i: int, j: int| 0 <= i < chosen@.len() && 0 <= j < free@.len() ==> chosen@[i] != free@[j],
                forall|i: int| 0 <= i < free@.len() ==> self@.in_bounds(#[trigger] free@[i].x as int, free@[i].y as int),
                forall|i: int| 0 <= i < chosen@.len() ==> self@.in_bounds(#[trigger] chosen@[i].x as int, chosen@[i].y as int),
            decreases count - chosen@.len(),
        {
            let ghost f0 = free@;
            let k = draw_below(&mut rng, free.len());
            let c = free.swap_remove(k);
            proof {
                assert forall|i: int| 0 <= i < free@.len() implies #[trigger] free@[i] != c && exists|j: int| 0 <= j < f0.len() && f0[j] == free@[i] by {
                    if i == k {
                        assert(f0[f0.len() - 1] == free@[i]);
                    } else {
                        assert(f0[i] == free@[i]);
                    }
                }
            }
            chosen.push(c);
        }
        chosen
    }

    /// A dump of the grid for a terminal: a header with its size and bomb
    /// count, then its rows from the top, each tile shown as its own dump shows
    /// it, in a frame of dashes and bars.
    pub fn console_output(&self) -> (r: String)
        requires
            self@.shaped(),
        ensures
            exists|cells: Seq<Seq<Seq<char>>>| shows(self@, cells) && r@ == dump_text(self@, cells),
    {
        let mut buffer = String::new();
        push_str(&mut buffer, "Map (");
        push_decimal(&mut buffer, self.width);
        push_str(&mut buffer, ", ");
        push_decimal(&mut buffer, self.height);
        push_str(&mut buffer, ") with ");
        push_decimal(&mut buffer, self.bomb_count);
        push_str(&mut buffer, " bombs:\n");
        let mut line = String::new();
        let mut i: u32 = 0;
        while i < self.width as u32 + 2
            invariant
                i <= self.width + 2,
                line@ == repeat('-', i as nat),
            decreases self.width + 2 - i,
        {
            proof {
                reveal_strlit("-");
            }
            push_str(&mut line, "-");
            i = i + 1;
            assert(line@ =~= repeat('-', i as nat));
        }
        push_str(&mut buffer, line.as_str());
        push_str(&mut buffer, "\n");
        let ghost prefix = buffer@;
        let ghost mut cells: Seq<Seq<Seq<char>>> = Seq::new(
            self@.height,
            |y: int| Seq::new(self@.width, |x: int| crate::tile::glyph(self@.tile(x, y))),
        );
        let mut y: u16 = self.height;
        while y > 0
            invariant
                self@.shaped(),
                y <= self@.height,
                buffer@ == prefix + rows_between(cells, y as int, self@.height as int),
                shows(self@, cells),
            decreases y,
        {
            y = y - 1;
            let ghost before = buffer@;
            push_str(&mut buffer, "|");
            let ghost mut row: Seq<Seq<char>> = Seq::empty();
            assert(self@.tiles[y as int].len() == self@.width);
            let mut x: u16 = 0;
            while x < self.width
                invariant
                    self@.shaped(),
                    y < self@.height,
                    x <= self@.width,
                    row.len() == x,
                    forall|i: int| 0 <= i < x ==> renders(self@.tile(i, y as int), #[trigger] row[i]),
                    buffer@ == before + "|"@ + concat(row),
                decreases self@.width - x,
            {
                let t = self.map[y as usize][x as usize].console_output();
                push_str(&mut buffer, t.as_str());
                proof {
                    let r0 = row;
                    row = row.push(t@);
                    assert(row.drop_last() =~= r0);
                }
                x = x + 1;
            }
            push_str(&mut buffer, "|\n");
            proof {
                let c0 = cells;
                cells = cells.update(y as int, row);
                lemma_rows_between_frame(c0, cells, y + 1, self@.height as int);
                assert forall|a: int, b: int| self@.in_bounds(a, b) implies renders(
                    self@.tile(a, b),
                    #[trigger] cells[b][a],
                ) by {
                    if b != y {
                        assert(cells[b] == c0[b]);
                    }
                }
            }
        }
        push_str(&mut buffer, line.as_str());
        buffer
    }

    /// The number of bombs around a cell that is no bomb, and 0 for a bomb.
    pub fn bomb_count_at(&self, coordinates: Coordinates) -> (r: u8)
        requires
            self@.shaped(),
        ensures
            self@.bomb_at(coordinates.x as int, coordinates.y as int) ==> r == 0,
            !self@.bomb_at(coordinates.x as int, coordinates.y as int) ==> r == self@.neighbor_bombs(
                coordinates.x as int,
                coordinates.y as int,
            ),
            r <= 8,
    {
        if self.is_bomb_at(coordinates) {
            return 0;
        }
        let mut count: u8 = 0;
        let mut k: usize = 0;
        while k < 8
            invariant
                self@.shaped(),
                k <= 8,
                count == self@.bombs_among(coordinates.x as int, coordinates.y as int, k as int),
            decreases 8 - k,
        {
            proof {
                lemma_bombs_among(self@, coordinates.x as int, coordinates.y as int, k as int);
            }
            match self.neighbor(coordinates, k) {
                Some(n) => {
                    if self.is_bomb_at(n) {
                        count = count + 1;
                    }
                },
                None => {},
            }
            k = k + 1;
        }
        proof {
            lemma_bombs_among(self@, coordinates.x as int, coordinates.y as int, 8);
        }
        count
    }
}

/// With no bomb anywhere, no cell has a bomb around it.
proof fn lemma_no_bombs_no_count(g: GridView, x: int, y: int, k: int)
    requires
        forall|a: int, b: int| !g.bomb_at(a, b),
    ensures
        g.bombs_among(x, y, k) == 0,
    decreases k,
{
    if k > 0 {
        lemma_no_bombs_no_count(g, x, y, k - 1);
    }
}

} // verus!
