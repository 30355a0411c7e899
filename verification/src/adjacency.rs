//! Eight-way adjacency: which cells touch a given cell, and in what order
//! they are enumerated.

use vstd::prelude::*;
use crate::grid::{Grid, GridView};
use crate::tile::Point;

verus! {

/// How many neighbour offsets there are.
pub const DIRECTIONS: usize = 8;

/// The neighbour offsets `(dx, dy)` in enumeration order: upper left, up,
/// upper right, left, right, lower left, down, lower right.
pub open spec fn offset_of(k: int) -> (int, int) {
    if k == 0 {
        (-1, -1)
    } else if k == 1 {
        (0, -1)
    } else if k == 2 {
        (1, -1)
    } else if k == 3 {
        (-1, 0)
    } else if k == 4 {
        (1, 0)
    } else if k == 5 {
        (-1, 1)
    } else if k == 6 {
        (0, 1)
    } else {
        (1, 1)
    }
}

/// The cell reached from `loc` by the `k`-th offset, with the weight of its
/// tile, or nothing when that cell lies outside the grid.
pub open spec fn neighbor(grid: GridView, loc: Point, k: int) -> Option<(Point, usize)> {
    let x = loc.x + offset_of(k).0;
    let y = loc.y + offset_of(k).1;
    if grid.in_bounds(x, y) {
        Some((Point { x: x as usize, y: y as usize }, grid.tile(x, y).weight))
    } else {
        None
    }
}

/// The first offset at or after `from` that leads to a cell of the grid, or
/// `DIRECTIONS` when there is none.
pub open spec fn next_hit(grid: GridView, loc: Point, from: int) -> int
    decreases DIRECTIONS - from,
{
    if from >= DIRECTIONS {
        DIRECTIONS as int
    } else if neighbor(grid, loc, from) is Some {
        from
    } else {
        next_hit(grid, loc, from + 1)
    }
}

/// The neighbours of `loc` reached by the offsets from `from` on, in order.
pub open spec fn neighbors_from(grid: GridView, loc: Point, from: int) -> Seq<(Point, usize)>
    decreases DIRECTIONS - from,
{
    if from >= DIRECTIONS {
        Seq::empty()
    } else {
        match neighbor(grid, loc, from) {
            Some(entry) => seq![entry] + neighbors_from(grid, loc, from + 1),
            None => neighbors_from(grid, loc, from + 1),
        }
    }
}

/// All neighbours of `loc` inside the grid, in enumeration order.
pub open spec fn neighbors(grid: GridView, loc: Point) -> Seq<(Point, usize)> {
    neighbors_from(grid, loc, 0)
}

/// Two distinct cells touch when they differ by at most one column and one row.
pub open spec fn touches(a: Point, b: Point) -> bool {
    &&& a != b
    &&& a.x - b.x <= 1
    &&& b.x - a.x <= 1
    &&& a.y - b.y <= 1
    &&& b.y - a.y <= 1
}

/// How many of the columns `x - 1`, `x`, `x + 1` exist in a row of `width`
/// cells (likewise for rows).
pub open spec fn span(x: int, width: int) -> int {
    1 + (if x > 0 { 1int } else { 0int }) + (if x + 1 < width { 1int } else { 0int })
}

/// The neighbours from `from` on are the next one that exists, followed by
/// the neighbours after it.
pub proof fn lemma_neighbors_from_hit(grid: GridView, loc: Point, from: int)
    requires
        0 <= from <= DIRECTIONS,
    ensures
        from <= next_hit(grid, loc, from) <= DIRECTIONS,
        next_hit(grid, loc, from) < DIRECTIONS ==> neighbor(
            grid,
            loc,
            next_hit(grid, loc, from),
        ) is Some,
        neighbors_from(grid, loc, from) == (if next_hit(grid, loc, from) < DIRECTIONS {
            seq![neighbor(grid, loc, next_hit(grid, loc, from))->0] + neighbors_from(
                grid,
                loc,
                next_hit(grid, loc, from) + 1,
            )
        } else {
            Seq::empty()
        }),
    decreases DIRECTIONS - from,
{
    if from < DIRECTIONS && neighbor(grid, loc, from) is None {
        lemma_neighbors_from_hit(grid, loc, from + 1);
    }
}

/// Every enumerated neighbour lies inside the grid, touches `loc`, and is
/// paired with the weight of its own tile; at most one is listed per offset.
pub proof fn lemma_neighbors_from_sound(grid: GridView, loc: Point, from: int)
    requires
        grid.wf(),
        0 <= from <= DIRECTIONS,
    ensures
        neighbors_from(grid, loc, from).len() <= DIRECTIONS - from,
        forall|i: int|
            0 <= i < neighbors_from(grid, loc, from).len() ==> {
                let entry = #[trigger] neighbors_from(grid, loc, from)[i];
                &&& grid.contains(entry.0)
                &&& touches(loc, entry.0)
                &&& entry.1 == grid.tile_at(entry.0).weight
            },
    decreases DIRECTIONS - from,
{
    if from < DIRECTIONS {
        lemma_neighbors_from_sound(grid, loc, from + 1);
        let rest = neighbors_from(grid, loc, from + 1);
        match neighbor(grid, loc, from) {
            Some(entry) => {
                assert forall|i: int| 0 <= i < neighbors_from(grid, loc, from).len() implies {
                    let e = #[trigger] neighbors_from(grid, loc, from)[i];
                    &&& grid.contains(e.0)
                    &&& touches(loc, e.0)
                    &&& e.1 == grid.tile_at(e.0).weight
                } by {
                    if i > 0 {
                        assert(neighbors_from(grid, loc, from)[i] == rest[i - 1]);
                    }
                }
            },
            None => {},
        }
    }
}

/// A neighbour that the `k`-th offset leads to is listed among the
/// neighbours from any offset up to `k` on.
pub proof fn lemma_neighbor_listed(grid: GridView, loc: Point, from: int, k: int)
    requires
        0 <= from <= k < DIRECTIONS,
        neighbor(grid, loc, k) is Some,
    ensures
        neighbors_from(grid, loc, from).contains(neighbor(grid, loc, k)->0),
    decreases k - from,
{
    let entry = neighbor(grid, loc, k)->0;
    let rest = neighbors_from(grid, loc, from + 1);
    if from == k {
        assert(neighbors_from(grid, loc, from)[0] == entry);
    } else {
        lemma_neighbor_listed(grid, loc, from + 1, k);
        let i = choose|i: int| 0 <= i < rest.len() && rest[i] == entry;
        match neighbor(grid, loc, from) {
            Some(first) => {
                assert(neighbors_from(grid, loc, from)[i + 1] == entry);
            },
            None => {},
        }
    }
}

/// The neighbours of a cell are exactly the cells of the grid that touch it.
pub proof fn lemma_neighbors_are_touching(grid: GridView, loc: Point, other: Point)
    requires
        grid.wf(),
    ensures
        (grid.contains(other) && touches(loc, other)) <==> neighbors(grid, loc).contains(
            (other, grid.tile_at(other).weight),
        ),
{
    let entry = (other, grid.tile_at(other).weight);
    lemma_neighbors_from_sound(grid, loc, 0);
    if grid.contains(other) && touches(loc, other) {
        let dx = other.x - loc.x;
        let dy = other.y - loc.y;
        let k: int = if dy == -1 {
            dx + 1
        } else if dy == 0 {
            if dx == -1 {
                3
            } else {
                4
            }
        } else {
            dx + 6
        };
        assert(offset_of(k) == (dx, dy));
        assert(neighbor(grid, loc, k) == Some(entry));
        lemma_neighbor_listed(grid, loc, 0, k);
    }
    if neighbors(grid, loc).contains(entry) {
        let i = choose|i: int| 0 <= i < neighbors(grid, loc).len() && neighbors(grid, loc)[i] == entry;
        assert(grid.contains(neighbors(grid, loc)[i].0));
    }
}

/// A cell has at most eight neighbours, all of them inside the grid and
/// touching it. A cell of the grid has one neighbour for every cell of the
/// block of columns and rows around it that exists, itself excepted: three
/// at a corner (two columns, two rows), five on an edge (three of one, two
/// of the other), eight in the interior (three columns, three rows).
pub proof fn lemma_neighbor_count(grid: GridView, loc: Point)
    requires
        grid.wf(),
    ensures
        neighbors(grid, loc).len() <= DIRECTIONS,
        forall|i: int|
            0 <= i < neighbors(grid, loc).len() ==> {
                let entry = #[trigger] neighbors(grid, loc)[i];
                &&& grid.contains(entry.0)
                &&& touches(loc, entry.0)
                &&& entry.1 == grid.tile_at(entry.0).weight
            },
        grid.contains(loc) ==> neighbors(grid, loc).len() == span(loc.x as int, grid.width as int)
            * span(loc.y as int, grid.height as int) - 1,
        grid.contains(loc) && span(loc.x as int, grid.width as int) == 2 && span(
            loc.y as int,
            grid.height as int,
        ) == 2 ==> neighbors(grid, loc).len() == 3,
        grid.contains(loc) && span(loc.x as int, grid.width as int) + span(
            loc.y as int,
            grid.height as int,
        ) == 5 ==> neighbors(grid, loc).len() == 5,
        grid.contains(loc) && span(loc.x as int, grid.width as int) == 3 && span(
            loc.y as int,
            grid.height as int,
        ) == 3 ==> neighbors(grid, loc).len() == 8,
{
    lemma_neighbors_from_sound(grid, loc, 0);
    if grid.contains(loc) {
        reveal_with_fuel(neighbors_from, 9);
        let sx = span(loc.x as int, grid.width as int);
        let sy = span(loc.y as int, grid.height as int);
        assert(1 <= sx <= 3 && 1 <= sy <= 3);
        assert(sx * sy == if sx == 1 {
            sy
        } else if sx == 2 {
            2 * sy
        } else {
            3 * sy
        }) by (nonlinear_arith)
            requires
                1 <= sx <= 3,
        ;
    }
}

/// The `index`-th neighbour offset.
pub fn offset(index: usize) -> (delta: (isize, isize))
    requires
        index < DIRECTIONS,
    ensures
        delta.0 == offset_of(index as int).0,
        delta.1 == offset_of(index as int).1,
{
    if index == 0 {
        (-1, -1)
    } else if index == 1 {
        (0, -1)
    } else if index == 2 {
        (1, -1)
    } else if index == 3 {
        (-1, 0)
    } else if index == 4 {
        (1, 0)
    } else if index == 5 {
        (-1, 1)
    } else if index == 6 {
        (0, 1)
    } else {
        (1, 1)
    }
}

/// A single pass over the neighbours of one cell.
pub struct CoordIterator<'a> {
    map: &'a Grid,
    loc: Point,
    index: usize,
}

impl<'a> CoordIterator<'a> {
    pub closed spec fn grid(&self) -> GridView {
        self.map@
    }

    pub closed spec fn center(&self) -> Point {
        self.loc
    }

    /// The offset that the next step starts looking from.
    pub closed spec fn position(&self) -> int {
        self.index as int
    }

    pub open spec fn wf(&self) -> bool {
        &&& self.grid().wf()
        &&& 0 <= self.position() <= DIRECTIONS
    }

    /// What is still to come, in order.
    pub open spec fn remaining(&self) -> Seq<(Point, usize)> {
        neighbors_from(self.grid(), self.center(), self.position())
    }

    /// `base + delta`, or nothing when the sum is negative or too large to hold.
    pub fn math_is_hard(base: usize, delta: isize) -> (sum: Option<usize>)
        ensures
            sum is Some <==> 0 <= base + delta <= usize::MAX,
            sum is Some ==> sum->0 == base + delta,
    {
        if delta < 0 {
            let below: usize = (-(delta + 1)) as usize;
            if base > below {
                Some(base - below - 1)
            } else {
                None
            }
        } else {
            let above: usize = delta as usize;
            if base <= usize::MAX - above {
                Some(base + above)
            } else {
                None
            }
        }
    }

    pub fn new(map: &'a Grid, loc: Point) -> (iter: Self)
        requires
            map.wf(),
        ensures
            iter.wf(),
            iter.grid() == map@,
            iter.center() == loc,
            iter.position() == 0,
            iter.remaining() == neighbors(map@, loc),
    {
        Self { map, loc, index: 0 }
    }

    /// Steps to the next neighbour that lies inside the grid and returns it
    /// with its weight, or returns nothing once all offsets are used up.
    pub fn next(&mut self) -> (item: Option<(Point, usize)>)
        requires
            old(self).wf(),
        ensures
            final(self).wf(),
            final(self).grid() == old(self).grid(),
            final(self).center() == old(self).center(),
            ({
                let hit = next_hit(old(self).grid(), old(self).center(), old(self).position());
                if hit < DIRECTIONS {
                    &&& item == neighbor(old(self).grid(), old(self).center(), hit)
                    &&& item is Some
                    &&& final(self).position() == hit + 1
                } else {
                    &&& item is None
                    &&& final(self).position() == DIRECTIONS
                }
            }),
            old(self).remaining() == (match item {
                Some(entry) => seq![entry] + final(self).remaining(),
                None => Seq::empty(),
            }),
            item is None ==> final(self).remaining() == Seq::<(Point, usize)>::empty(),
            item is Some ==> old(self).position() < final(self).position(),
    {
        let ghost grid = self.map@;
        let ghost loc = self.loc;
        let ghost start = self.index as int;
        proof {
            lemma_neighbors_from_hit(grid, loc, start);
        }
        while self.index < DIRECTIONS
            invariant
                self.map@ == grid,
                self.loc == loc,
                grid == old(self).grid(),
                loc == old(self).center(),
                start == old(self).position(),
                grid.wf(),
                start <= self.index <= DIRECTIONS,
                next_hit(grid, loc, start) == next_hit(grid, loc, self.index as int),
            decreases DIRECTIONS - self.index,
        {
            let (dx, dy) = offset(self.index);
            self.index += 1;
            if let Some(nx) = Self::math_is_hard(self.loc.x, dx) {
                if let Some(ny) = Self::math_is_hard(self.loc.y, dy) {
                    let new_loc = Point::new(nx, ny);
                    if let Some(tile) = self.map.at(&new_loc) {
                        proof {
                            lemma_neighbors_from_hit(grid, loc, start);
                        }
                        return Some((new_loc, tile.weight));
                    }
                }
            }
        }
        None
    }
}

impl Grid {
    /// The neighbours of `loc` that lie inside the grid, each with the weight
    /// of its tile, in enumeration order.
    pub fn adjacent_ats(&self, loc: Point) -> (found: Vec<(Point, usize)>)
        requires
            self.wf(),
        ensures
            found@ == neighbors(self@, loc),
    {
        let mut found: Vec<(Point, usize)> = Vec::new();
        let mut iter = CoordIterator::new(self, loc);
        loop
            invariant
                iter.wf(),
                iter.grid() == self@,
                iter.center() == loc,
                neighbors(self@, loc) == found@ + iter.remaining(),
            ensures
                found@ == neighbors(self@, loc),
            decreases DIRECTIONS - iter.position(),
        {
            let ghost before = found@;
            match iter.next() {
                Some(entry) => {
                    found.push(entry);
                    assert(found@ + iter.remaining() =~= before + (seq![entry]
                        + iter.remaining()));
                },
                None => {
                    assert(found@ + iter.remaining() =~= found@);
                    break ;
                },
            }
        }
        found
    }
}

} // verus!
