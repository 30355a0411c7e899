//! Lowest-cost route search between two cells, moving in eight directions
//! through passable cells. The search itself is the A* of the `pathfinding`
//! crate; everything it reports is checked here before it is handed on.

use vstd::prelude::*;
use crate::adjacency::{
    lemma_neighbors_are_touching,
    lemma_neighbors_from_sound,
    neighbors,
    touches,
};
use crate::grid::{Grid, GridView};
use crate::tile::{Point, Tile};

verus! {

/// Manhattan distance: the column difference plus the row difference.
pub open spec fn manhattan(a: Point, b: Point) -> int {
    (if a.x < b.x {
        b.x - a.x
    } else {
        a.x - b.x
    }) + (if a.y < b.y {
        b.y - a.y
    } else {
        a.y - b.y
    })
}

/// The sum of the weights of all tiles.
pub open spec fn total_weight(cells: Seq<Tile>) -> nat
    decreases cells.len(),
{
    if cells.len() == 0 {
        0
    } else {
        total_weight(cells.drop_last()) + cells.last().weight as nat
    }
}

impl GridView {
    /// The cells that a search may move to from `loc`: its neighbours with a
    /// passable tile, each with the cost of entering it, in enumeration order.
    pub open spec fn successors(self, loc: Point) -> Seq<(Point, usize)> {
        neighbors(self, loc).filter(|entry: (Point, usize)| self.tile_at(entry.0).passable())
    }

    /// One move of a route: to a touching cell of the grid that is passable.
    pub open spec fn is_step(self, from: Point, to: Point) -> bool {
        &&& touches(from, to)
        &&& self.contains(to)
        &&& self.tile_at(to).passable()
    }

    /// `path` leads from `start` to `end` by moves alone.
    pub open spec fn is_route(self, start: Point, end: Point, path: Seq<Point>) -> bool {
        &&& path.len() >= 1
        &&& path.first() == start
        &&& path.last() == end
        &&& forall|i: int| 0 < i < path.len() ==> self.is_step(path[i - 1], #[trigger] path[i])
    }

    /// What a route costs: the weight of every cell on it but the first.
    pub open spec fn route_cost(self, path: Seq<Point>) -> nat
        decreases path.len(),
    {
        if path.len() <= 1 {
            0
        } else {
            self.route_cost(path.drop_last()) + self.tile_at(path.last()).weight as nat
        }
    }

    /// No sum of costs and estimates that a search can form exceeds what a
    /// `usize` holds.
    pub open spec fn search_fits(self) -> bool {
        2 * total_weight(self.cells) + self.width + self.height <= usize::MAX
    }

    /// A reported route is kept, with its cost counted afresh, when it is a
    /// route from `start` to `end` whose cost a `usize` holds; otherwise it
    /// is dropped.
    pub open spec fn confirmed(
        self,
        start: Point,
        end: Point,
        found: Option<(Seq<Point>, nat)>,
    ) -> Option<(Seq<Point>, nat)> {
        match found {
            Some((path, _)) => if self.is_route(start, end, path) && self.route_cost(path)
                <= usize::MAX {
                Some((path, self.route_cost(path)))
            } else {
                None
            },
            None => None,
        }
    }

    /// The result of a search from `start` to `end`. Nothing is found from or
    /// to a cell outside the grid; a cell of the grid reaches itself at no
    /// cost; every other route is the reported one, confirmed.
    pub open spec fn shortest_path(self, start: Point, end: Point) -> Option<(Seq<Point>, nat)> {
        if !self.contains(start) || !self.contains(end) {
            None
        } else if start == end {
            Some((seq![start], 0nat))
        } else {
            self.confirmed(start, end, astar_route(self, start, end))
        }
    }
}

/// A found route as mathematics: its cells in order, and its cost.
pub open spec fn route_view(found: Option<(Vec<Point>, usize)>) -> Option<(Seq<Point>, nat)> {
    match found {
        Some((path, cost)) => Some((path@, cost as nat)),
        None => None,
    }
}

/// What `pathfinding::directed::astar::astar` returns when it searches `grid`
/// from `start` for `end`, given the passable neighbours of a cell as its
/// successors, each at the weight of its tile, and the Manhattan distance to
/// `end` as the estimate. The search keeps its frontier in a binary heap and
/// its nodes in the order it met them, and takes nothing from chance, time
/// or the machine: the same grid and end points always give the same route.
pub uninterp spec fn astar_route(grid: GridView, start: Point, end: Point) -> Option<
    (Seq<Point>, nat),
>;

/// Calls `pathfinding::utils::absdiff`, which subtracts the smaller of its
/// two arguments from the larger.
#[verifier::external_body]
fn absdiff(a: usize, b: usize) -> (diff: usize)
    ensures
        diff == (if a < b {
            b - a
        } else {
            a - b
        }),
{
    pathfinding::utils::absdiff(a, b)
}

/// Calls `pathfinding::directed::astar::astar` from `start`, with
/// `Grid::passable_ats` as successors, `Grid::distance` to `end` as estimate
/// and equality with `end` as goal. The contract only names what comes back.
/// The search adds a tile weight to the cost of a route without repeated
/// cells, and an estimate to that sum; `search_fits` keeps both additions
/// inside a `usize`, and both end points inside the grid keep the estimate
/// itself there.
#[verifier::external_body]
fn astar_search(map: &Grid, start: &Point, end: &Point) -> (found: Option<(Vec<Point>, usize)>)
    requires
        map.wf(),
        map@.search_fits(),
        map@.contains(*start),
        map@.contains(*end),
    ensures
        route_view(found) == astar_route(map@, *start, *end),
{
    pathfinding::directed::astar::astar(
        start,
        |loc| map.passable_ats(loc),
        |loc| Grid::distance(loc, end),
        |loc| loc.same(end),
    )
}

/// The cost of a route grows by the weight of each cell that is appended.
pub proof fn lemma_route_cost_step(grid: GridView, path: Seq<Point>, n: int)
    requires
        1 <= n < path.len(),
    ensures
        grid.route_cost(path.take(n + 1)) == grid.route_cost(path.take(n)) + grid.tile_at(
            path[n],
        ).weight,
{
    assert(path.take(n + 1).drop_last() =~= path.take(n));
}

/// A prefix of a route never costs more than the whole.
pub proof fn lemma_route_cost_prefix(grid: GridView, path: Seq<Point>, n: int)
    requires
        0 <= n <= path.len(),
    ensures
        grid.route_cost(path.take(n)) <= grid.route_cost(path),
    decreases path.len() - n,
{
    if n == path.len() {
        assert(path.take(n) =~= path);
    } else if n == 0 {
    } else {
        lemma_route_cost_step(grid, path, n);
        lemma_route_cost_prefix(grid, path, n + 1);
    }
}

impl Grid {
    /// Manhattan distance between two cells.
    pub fn distance(from: &Point, to: &Point) -> (steps: usize)
        requires
            manhattan(*from, *to) <= usize::MAX,
        ensures
            steps == manhattan(*from, *to),
    {
        absdiff(from.x, to.x) + absdiff(from.y, to.y)
    }

    /// The neighbours of `loc` that can be walked into, each with the cost of
    /// entering it, in enumeration order.
    pub fn passable_ats(&self, loc: &Point) -> (open: Vec<(Point, usize)>)
        requires
            self.wf(),
        ensures
            open@ == self@.successors(*loc),
    {
        let all = self.adjacent_ats(*loc);
        let ghost keep = |entry: (Point, usize)| self@.tile_at(entry.0).passable();
        let mut open: Vec<(Point, usize)> = Vec::new();
        let mut i: usize = 0;
        proof {
            lemma_neighbors_from_sound(self@, *loc, 0);
            assert(all@.take(0).filter(keep) =~= Seq::<(Point, usize)>::empty());
        }
        while i < all.len()
            invariant
                self.wf(),
                i <= all.len(),
                all@ == neighbors(self@, *loc),
                forall|k: int| 0 <= k < all.len() ==> self@.contains((#[trigger] all@[k]).0),
                keep == |entry: (Point, usize)| self@.tile_at(entry.0).passable(),
                open@ == all@.take(i as int).filter(keep),
            decreases all.len() - i,
        {
            let entry = all[i];
            proof {
                assert(all@.take(i + 1).drop_last() =~= all@.take(i as int));
                reveal(Seq::filter);
            }
            match self.at(&entry.0) {
                Some(tile) => {
                    if tile.is_passable() {
                        open.push(entry);
                    }
                },
                None => {},
            }
            i += 1;
        }
        proof {
            assert(all@.take(i as int) =~= all@);
        }
        open
    }

    /// Whether one move leads from `from` to `to`.
    pub fn is_step(&self, from: &Point, to: &Point) -> (ok: bool)
        requires
            self.wf(),
        ensures
            ok == self@.is_step(*from, *to),
    {
        let near = absdiff(from.x, to.x) <= 1 && absdiff(from.y, to.y) <= 1 && !from.same(to);
        match self.at(to) {
            Some(tile) => near && tile.is_passable(),
            None => false,
        }
    }

    /// Whether the weights are small enough for a search to add them up.
    pub fn search_fits(&self) -> (fits: bool)
        requires
            self.wf(),
        ensures
            fits == self@.search_fits(),
    {
        let mut sum: usize = 0;
        let mut i: usize = 0;
        let tiles = self.tiles();
        while i < tiles.len()
            invariant
                i <= tiles.len(),
                tiles@ == self@.cells,
                sum == total_weight(tiles@.take(i as int)),
            decreases tiles.len() - i,
        {
            proof {
                assert(tiles@.take(i + 1).drop_last() =~= tiles@.take(i as int));
                lemma_total_weight_prefix(tiles@, i + 1);
            }
            match sum.checked_add(tiles[i].weight) {
                Some(more) => {
                    sum = more;
                },
                None => {
                    return false;
                },
            }
            i += 1;
        }
        proof {
            assert(tiles@.take(i as int) =~= tiles@);
        }
        match sum.checked_add(sum) {
            Some(twice) => match twice.checked_add(self.width()) {
                Some(wide) => wide.checked_add(self.height()).is_some(),
                None => false,
            },
            None => false,
        }
    }

    /// Keeps a reported route when it is a route from `start` to `end`, and
    /// pairs it with its cost counted afresh; drops anything else.
    pub fn confirm_route(
        &self,
        start: &Point,
        end: &Point,
        found: Option<(Vec<Point>, usize)>,
    ) -> (route: Option<(Vec<Point>, usize)>)
        requires
            self.wf(),
        ensures
            route_view(route) == self@.confirmed(*start, *end, route_view(found)),
    {
        let ghost reported = route_view(found);
        match found {
            None => None,
            Some((path, _)) => {
                let n = path.len();
                if n == 0 {
                    return None;
                }
                if !path[0].same(start) || !path[n - 1].same(end) {
                    return None;
                }
                let mut cost: usize = 0;
                let mut i: usize = 1;
                while i < n
                    invariant
                        self.wf(),
                        n == path.len(),
                        1 <= i <= n,
                        reported == route_view(found),
                        reported matches Some(pair) && pair.0 == path@,
                        path@.first() == *start,
                        path@.last() == *end,
                        forall|k: int| 0 < k < i ==> self@.is_step(path@[k - 1], #[trigger] path@[k]),
                        cost == self@.route_cost(path@.take(i as int)),
                    decreases n - i,
                {
                    if !self.is_step(&path[i - 1], &path[i]) {
                        return None;
                    }
                    proof {
                        lemma_route_cost_step(self@, path@, i as int);
                        lemma_route_cost_prefix(self@, path@, i + 1);
                    }
                    match self.at(&path[i]) {
                        Some(tile) => match cost.checked_add(tile.weight) {
                            Some(more) => {
                                cost = more;
                            },
                            None => {
                                return None;
                            },
                        },
                        None => {
                            return None;
                        },
                    }
                    i += 1;
                }
                proof {
                    assert(path@.take(i as int) =~= path@);
                }
                Some((path, cost))
            },
        }
    }

    /// Searches for a route from `start` to `end` through passable cells.
    /// The route lists every cell from `start` to `end`; its cost is the
    /// weight of every cell on it but `start`. Whether `start` and `end`
    /// themselves are passable does not matter.
    ///
    /// Which route is found is up to the A* search of the `pathfinding`
    /// crate, which is given the Manhattan distance as its estimate. Of two
    /// frontier cells with the same estimated total it takes the one with
    /// the larger cost so far first, not the one it met first. A diagonal
    /// move costs no more than a straight one, so the estimate can exceed the
    /// true cost, and the route found need not be the cheapest there is.
    pub fn shortest_path(&self, start: &Point, end: &Point) -> (route: Option<(Vec<Point>, usize)>)
        requires
            self.wf(),
            self@.search_fits(),
        ensures
            route_view(route) == self@.shortest_path(*start, *end),
            !self@.contains(*start) || !self@.contains(*end) ==> route is None,
            self@.contains(*start) && *start == *end ==> route_view(route) == Some(
                (seq![*start], 0nat),
            ),
            route matches Some(found) ==> {
                &&& self@.is_route(*start, *end, found.0@)
                &&& found.1 == self@.route_cost(found.0@)
            },
    {
        proof {
            match self@.shortest_path(*start, *end) {
                Some((path, cost)) => {
                    lemma_found_is_route(self@, *start, *end, path, cost);
                },
                None => {},
            }
        }
        if self.at(start).is_none() || self.at(end).is_none() {
            return None;
        }
        if start.same(end) {
            let mut path: Vec<Point> = Vec::new();
            path.push(*start);
            assert(path@ =~= seq![*start]);
            return Some((path, 0));
        }
        let found = astar_search(self, start, end);
        self.confirm_route(start, end, found)
    }
}

/// What a filter keeps was there before, and meets the condition.
proof fn lemma_kept_was_there<A>(all: Seq<A>, keep: spec_fn(A) -> bool, entry: A)
    requires
        all.filter(keep).contains(entry),
    ensures
        all.contains(entry),
        keep(entry),
    decreases all.len(),
{
    reveal(Seq::filter);
    if all.len() > 0 {
        let front = all.drop_last().filter(keep);
        if front.contains(entry) {
            lemma_kept_was_there(all.drop_last(), keep, entry);
            let i = choose|i: int| 0 <= i < all.drop_last().len() && all.drop_last()[i] == entry;
            assert(all[i] == entry);
        } else {
            let i = choose|i: int| 0 <= i < all.filter(keep).len() && all.filter(keep)[i] == entry;
            if keep(all.last()) {
                if i < front.len() {
                    assert(front[i] == entry);
                }
                assert(all[all.len() - 1] == entry);
            } else {
                assert(front[i] == entry);
            }
        }
    }
}

/// The moves of a route are exactly what the search is offered as
/// successors: one can move from a cell to another exactly when the other
/// is among the successors of the first, at the weight of its tile.
pub proof fn lemma_step_is_successor(grid: GridView, from: Point, to: Point)
    requires
        grid.wf(),
    ensures
        grid.is_step(from, to) <==> grid.successors(from).contains(
            (to, grid.tile_at(to).weight),
        ),
{
    let entry = (to, grid.tile_at(to).weight);
    let keep = |entry: (Point, usize)| grid.tile_at(entry.0).passable();
    let all = neighbors(grid, from);
    lemma_neighbors_are_touching(grid, from, to);
    if grid.is_step(from, to) {
        let i = choose|i: int| 0 <= i < all.len() && all[i] == entry;
        all.lemma_filter_contains(keep, i);
    }
    if grid.successors(from).contains(entry) {
        lemma_kept_was_there(all, keep, entry);
    }
}

/// The total weight of a prefix never exceeds the total weight of the whole.
pub proof fn lemma_total_weight_prefix(cells: Seq<Tile>, n: int)
    requires
        0 <= n <= cells.len(),
    ensures
        total_weight(cells.take(n)) <= total_weight(cells),
    decreases cells.len() - n,
{
    if n == cells.len() {
        assert(cells.take(n) =~= cells);
    } else {
        assert(cells.take(n + 1).drop_last() =~= cells.take(n));
        lemma_total_weight_prefix(cells, n + 1);
    }
}

/// Tiles that all weigh the same weigh together as much as one of them
/// times their number.
pub proof fn lemma_total_weight_uniform(cells: Seq<Tile>, weight: usize)
    requires
        forall|i: int| 0 <= i < cells.len() ==> (#[trigger] cells[i]).weight == weight,
    ensures
        total_weight(cells) == cells.len() * weight,
    decreases cells.len(),
{
    if cells.len() > 0 {
        lemma_total_weight_uniform(cells.drop_last(), weight);
        assert(cells.len() * weight == (cells.len() - 1) * weight + weight) by (nonlinear_arith);
    }
}

/// A search from a cell of the grid to itself finds that cell alone, at no cost.
pub proof fn lemma_route_to_self(grid: GridView, p: Point)
    requires
        grid.contains(p),
    ensures
        grid.shortest_path(p, p) == Some((seq![p], 0nat)),
{
}

/// Where every cell of the grid that touches `start` is impassable, a search
/// from `start` to any other cell finds nothing.
pub proof fn lemma_enclosed_start(grid: GridView, start: Point, end: Point)
    requires
        start != end,
        forall|p: Point| grid.contains(p) && touches(start, p) ==> !grid.tile_at(p).passable(),
    ensures
        grid.shortest_path(start, end) is None,
{
    match grid.shortest_path(start, end) {
        Some((path, _)) => {
            assert(grid.is_route(start, end, path));
            assert(grid.is_step(path[0], path[1]));
        },
        None => {},
    }
}

/// Whatever a search finds is a route from `start` to `end`: it begins at
/// `start`, ends at `end`, moves only between touching cells, enters only
/// passable cells of the grid, and its cost is the weight of the cells entered.
pub proof fn lemma_found_is_route(
    grid: GridView,
    start: Point,
    end: Point,
    path: Seq<Point>,
    cost: nat,
)
    requires
        grid.shortest_path(start, end) == Some((path, cost)),
    ensures
        grid.is_route(start, end, path),
        cost == grid.route_cost(path),
        forall|i: int| 0 < i < path.len() ==> grid.tile_at(#[trigger] path[i]).passable(),
{
    if start == end {
        assert(path =~= seq![start]);
        assert(grid.route_cost(seq![start]) == 0);
    }
    assert forall|i: int| 0 < i < path.len() implies grid.tile_at(#[trigger] path[i]).passable() by {
        assert(grid.is_step(path[i - 1], path[i]));
    }
}

} // verus!
