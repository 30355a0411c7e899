//! The grid itself: a dense row-major block of tiles with checked access.

use vstd::prelude::*;
use crate::tile::{MyError, Point, Tile};

verus! {

/// What a grid is, mathematically: its dimensions and its tiles in row-major order.
pub struct GridView {
    pub width: nat,
    pub height: nat,
    pub cells: Seq<Tile>,
}

impl GridView {
    /// The tiles fill the rectangle exactly, and both dimensions are ones
    /// that a coordinate can reach.
    pub open spec fn wf(self) -> bool {
        &&& self.cells.len() == self.width * self.height
        &&& self.width <= usize::MAX
        &&& self.height <= usize::MAX
    }

    pub open spec fn in_bounds(self, x: int, y: int) -> bool {
        0 <= x < self.width && 0 <= y < self.height
    }

    pub open spec fn contains(self, p: Point) -> bool {
        self.in_bounds(p.x as int, p.y as int)
    }

    /// Row-major position of column `x`, row `y`.
    pub open spec fn index_of(self, x: int, y: int) -> int {
        y * self.width + x
    }

    pub open spec fn tile(self, x: int, y: int) -> Tile {
        self.cells[self.index_of(x, y)]
    }

    pub open spec fn tile_at(self, p: Point) -> Tile {
        self.tile(p.x as int, p.y as int)
    }

    /// The grid after the tile at column `x`, row `y` is replaced.
    pub open spec fn with_tile(self, x: int, y: int, tile: Tile) -> GridView {
        GridView { cells: self.cells.update(self.index_of(x, y), tile), ..self }
    }
}

/// Every in-bounds coordinate has a row-major position inside the tile block.
pub proof fn lemma_index_in_range(x: int, y: int, width: int, height: int)
    requires
        0 <= x < width,
        0 <= y < height,
    ensures
        0 <= y * width + x < width * height,
{
    assert(y * width + x < width * height) by (nonlinear_arith)
        requires
            0 <= x < width,
            0 <= y < height,
    ;
    assert(0 <= y * width) by (nonlinear_arith)
        requires
            0 <= y,
            0 <= width,
    ;
}

/// Two in-bounds coordinates share a row-major position only if they are equal.
pub proof fn lemma_index_injective(x1: int, y1: int, x2: int, y2: int, width: int)
    requires
        0 <= x1 < width,
        0 <= x2 < width,
        0 <= y1,
        0 <= y2,
        y1 * width + x1 == y2 * width + x2,
    ensures
        x1 == x2,
        y1 == y2,
{
    assert(y1 == y2) by (nonlinear_arith)
        requires
            0 <= x1 < width,
            0 <= x2 < width,
            0 <= y1,
            0 <= y2,
            y1 * width + x1 == y2 * width + x2,
    ;
}

pub struct Grid {
    width: usize,
    height: usize,
    map: Vec<Tile>,
}

impl View for Grid {
    type V = GridView;

    closed spec fn view(&self) -> GridView {
        GridView { width: self.width as nat, height: self.height as nat, cells: self.map@ }
    }
}

impl Grid {
    pub open spec fn wf(&self) -> bool {
        self@.wf()
    }

    /// A grid never holds more tiles than the machine can index.
    pub proof fn lemma_cells_fit(&self)
        ensures
            self@.cells.len() <= usize::MAX,
    {
        assert(self.map.len() == self.map@.len());
    }

    /// A grid of the given size with every cell set to the same tile.
    pub fn new(width: usize, height: usize, default_char: char, default_weight: usize) -> (grid:
        Grid)
        requires
            width * height <= usize::MAX,
        ensures
            grid.wf(),
            grid@.width == width,
            grid@.height == height,
            grid@.cells == Seq::new(
                (width * height) as nat,
                |i: int| (Tile { id: default_char, weight: default_weight }),
            ),
    {
        let tile = Tile::new(default_char, default_weight);
        let map = vec![tile; width * height];
        assert(map@ =~= Seq::new(
            (width * height) as nat,
            |i: int| (Tile { id: default_char, weight: default_weight }),
        ));
        Grid { width, height, map }
    }

    /// A grid of the given size over tiles that are already in row-major order.
    pub fn from_tiles(width: usize, height: usize, tiles: Vec<Tile>) -> (grid: Grid)
        requires
            tiles.len() == width * height,
        ensures
            grid.wf(),
            grid@ == (GridView { width: width as nat, height: height as nat, cells: tiles@ }),
    {
        Grid { width, height, map: tiles }
    }

    pub fn width(&self) -> (width: usize)
        ensures
            width == self@.width,
    {
        self.width
    }

    pub fn height(&self) -> (height: usize)
        ensures
            height == self@.height,
    {
        self.height
    }

    /// All tiles in row-major order.
    pub fn tiles(&self) -> (tiles: &Vec<Tile>)
        ensures
            tiles@ == self@.cells,
    {
        &self.map
    }

    /// The row-major position of column `x`, row `y`, when that cell exists.
    pub fn at_xy(&self, x: usize, y: usize) -> (index: Option<usize>)
        requires
            self.wf(),
        ensures
            index is Some <==> self@.in_bounds(x as int, y as int),
            index is Some ==> index->0 == self@.index_of(x as int, y as int),
            index is Some ==> index->0 < self@.cells.len(),
    {
        if x >= self.width || y >= self.height {
            return None;
        }
        proof {
            lemma_index_in_range(x as int, y as int, self.width as int, self.height as int);
            self.lemma_cells_fit();
        }
        Some(self.at_xy_raw(&Point::new(x, y)))
    }

    /// The row-major position of `loc`, when `loc` lies inside the grid.
    pub fn is_valid_loc(&self, loc: &Point) -> (index: Option<usize>)
        requires
            self.wf(),
        ensures
            index is Some <==> self@.contains(*loc),
            index is Some ==> index->0 == self@.index_of(loc.x as int, loc.y as int),
            index is Some ==> index->0 < self@.cells.len(),
    {
        self.at_xy(loc.x, loc.y)
    }

    /// The tile at `loc`, or nothing when `loc` lies outside the grid.
    pub fn at(&self, loc: &Point) -> (tile: Option<&Tile>)
        requires
            self.wf(),
        ensures
            tile == (if self@.contains(*loc) {
                Some(&self@.tile_at(*loc))
            } else {
                None
            }),
    {
        if let Some(index) = self.is_valid_loc(loc) {
            return Some(&self.map[index]);
        }
        None
    }

    /// Replaces the tile at `loc`. A `loc` outside the grid is refused and
    /// leaves every cell as it was.
    pub fn set_at(&mut self, loc: &Point, tile: Tile) -> (done: Result<(), MyError>)
        requires
            old(self).wf(),
        ensures
            final(self).wf(),
            done is Ok <==> old(self)@.contains(*loc),
            done is Ok ==> final(self)@ == old(self)@.with_tile(loc.x as int, loc.y as int, tile),
            done is Ok ==> final(self)@.tile_at(*loc) == tile,
            done is Err ==> final(self)@ == old(self)@,
    {
        if let Some(index) = self.is_valid_loc(loc) {
            self.map.set(index, tile);
            Ok(())
        } else {
            Err(MyError {  })
        }
    }

    /// Row-major position of `loc`, computed without a bounds check.
    pub fn at_xy_raw(&self, loc: &Point) -> (index: usize)
        requires
            self@.index_of(loc.x as int, loc.y as int) <= usize::MAX,
        ensures
            index == self@.index_of(loc.x as int, loc.y as int),
    {
        assert(loc.y * self.width <= loc.y * self.width + loc.x);
        loc.y * self.width + loc.x
    }

    /// Column and row of a row-major position.
    pub fn coords(&self, index: usize) -> (at: (usize, usize))
        requires
            self@.width > 0,
        ensures
            at.0 == index as int % self@.width as int,
            at.1 == index as int / self@.width as int,
    {
        (index % self.width, index / self.width)
    }
}

/// Reading a cell after writing it gives back the tile that was written, and
/// every other cell keeps its tile.
pub proof fn lemma_get_after_set(grid: GridView, x: int, y: int, tile: Tile, ox: int, oy: int)
    requires
        grid.wf(),
        grid.in_bounds(x, y),
        grid.in_bounds(ox, oy),
    ensures
        grid.with_tile(x, y, tile).wf(),
        grid.with_tile(x, y, tile).tile(x, y) == tile,
        (ox != x || oy != y) ==> grid.with_tile(x, y, tile).tile(ox, oy) == grid.tile(ox, oy),
{
    lemma_index_in_range(x, y, grid.width as int, grid.height as int);
    lemma_index_in_range(ox, oy, grid.width as int, grid.height as int);
    if ox != x || oy != y {
        if grid.index_of(x, y) == grid.index_of(ox, oy) {
            lemma_index_injective(x, y, ox, oy, grid.width as int);
        }
    }
}

/// Splitting a row-major position into column and row inverts `index_of`.
pub proof fn lemma_coords_of_index(grid: GridView, x: int, y: int)
    requires
        grid.in_bounds(x, y),
    ensures
        grid.index_of(x, y) % grid.width as int == x,
        grid.index_of(x, y) / grid.width as int == y,
{
    let w = grid.width as int;
    vstd::arithmetic::div_mod::lemma_fundamental_div_mod_converse(y * w + x, w, y, x);
}

} // verus!
