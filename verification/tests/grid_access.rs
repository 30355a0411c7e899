use bountiful::adjacency::offset;
use bountiful::{CoordIterator, Grid, Point, Tile};

#[test]
fn new_grid_repeats_the_default_tile() {
    let map = Grid::new(3, 2, '~', 7);
    assert_eq!(map.width(), 3);
    assert_eq!(map.height(), 2);
    assert_eq!(map.tiles().len(), 6);
    for y in 0..2 {
        for x in 0..3 {
            assert_eq!(map.at(&Point::new(x, y)), Some(&Tile::new('~', 7)));
        }
    }
}

#[test]
fn from_tiles_keeps_row_major_order() {
    let tiles = vec![
        Tile::new('a', 1),
        Tile::new('b', 2),
        Tile::new('c', 3),
        Tile::new('d', 4),
        Tile::new('e', 5),
        Tile::new('f', 6),
    ];
    let map = Grid::from_tiles(3, 2, tiles);
    assert_eq!(map.at(&Point::new(0, 0)).unwrap().id, 'a');
    assert_eq!(map.at(&Point::new(2, 0)).unwrap().id, 'c');
    assert_eq!(map.at(&Point::new(0, 1)).unwrap().id, 'd');
    assert_eq!(map.at(&Point::new(2, 1)), Some(&Tile::new('f', 6)));
}

#[test]
fn get_after_set_returns_what_was_written() {
    let mut map = Grid::new(4, 3, '.', 1);
    for y in 0..3 {
        for x in 0..4 {
            let tile = Tile::new('#', x * 10 + y);
            assert!(map.set_at(&Point::new(x, y), tile).is_ok());
            assert_eq!(map.at(&Point::new(x, y)), Some(&tile));
        }
    }
}

#[test]
fn set_leaves_other_cells_alone() {
    let mut map = Grid::new(4, 3, '.', 1);
    map.set_at(&Point::new(2, 1), Tile::new('#', 9)).unwrap();
    for y in 0..3 {
        for x in 0..4 {
            let expected = if (x, y) == (2, 1) { Tile::new('#', 9) } else { Tile::new('.', 1) };
            assert_eq!(map.at(&Point::new(x, y)), Some(&expected));
        }
    }
}

#[test]
fn out_of_range_reads_and_writes_are_refused() {
    let mut map = Grid::new(4, 3, '.', 1);
    let outside = [
        Point::new(4, 0),
        Point::new(0, 3),
        Point::new(4, 3),
        Point::new(usize::MAX, 0),
        Point::new(0, usize::MAX),
        Point::new(usize::MAX, usize::MAX),
    ];
    for p in outside.iter() {
        assert_eq!(map.at(p), None);
        assert_eq!(map.is_valid_loc(p), None);
        assert!(map.set_at(p, Tile::new('#', 5)).is_err());
    }
    assert!(map.tiles().iter().all(|t| *t == Tile::new('.', 1)));
}

#[test]
fn out_of_range_write_reports_my_error() {
    let mut map = Grid::new(1, 1, '.', 1);
    let refused = map.set_at(&Point::new(1, 0), Tile::new('#', 1));
    assert_eq!(format!("{:?}", refused), "Err(MyError)");
}

#[test]
fn index_formula_is_row_times_width_plus_column() {
    let map = Grid::new(5, 10, '.', 1);
    assert_eq!(map.at_xy(3, 2), Some(13));
    assert_eq!(map.at_xy(4, 9), Some(49));
    assert_eq!(map.at_xy_raw(&Point::new(3, 2)), 13);
    assert_eq!(map.is_valid_loc(&Point::new(4, 9)), Some(49));
    assert_eq!(map.at_xy(5, 0), None);
}

#[test]
fn coords_inverts_the_index_formula() {
    let map = Grid::new(5, 10, '.', 1);
    for y in 0..10 {
        for x in 0..5 {
            let index = map.at_xy(x, y).unwrap();
            assert_eq!(map.coords(index), (x, y));
        }
    }
    assert_eq!(map.coords(13), (3, 2));
}

#[test]
fn empty_grids_hold_no_cell() {
    let map = Grid::new(0, 5, '.', 1);
    assert_eq!(map.tiles().len(), 0);
    assert_eq!(map.at(&Point::new(0, 0)), None);
    assert!(map.adjacent_ats(Point::new(0, 0)).is_empty());
    let map = Grid::new(5, 0, '.', 1);
    assert_eq!(map.at(&Point::new(0, 0)), None);
}

#[test]
fn signed_offsets_never_wrap() {
    assert_eq!(CoordIterator::math_is_hard(0, -1), None);
    assert_eq!(CoordIterator::math_is_hard(0, 0), Some(0));
    assert_eq!(CoordIterator::math_is_hard(0, 1), Some(1));
    assert_eq!(CoordIterator::math_is_hard(5, -1), Some(4));
    assert_eq!(CoordIterator::math_is_hard(5, -5), Some(0));
    assert_eq!(CoordIterator::math_is_hard(5, -6), None);
    assert_eq!(CoordIterator::math_is_hard(usize::MAX, 1), None);
    assert_eq!(CoordIterator::math_is_hard(usize::MAX, 0), Some(usize::MAX));
    assert_eq!(CoordIterator::math_is_hard(usize::MAX, -1), Some(usize::MAX - 1));
    assert_eq!(CoordIterator::math_is_hard(0, isize::MIN), None);
    assert_eq!(CoordIterator::math_is_hard(usize::MAX, isize::MIN), Some(usize::MAX - (1usize << (usize::BITS - 1))));
    assert_eq!(CoordIterator::math_is_hard(7, isize::MAX), Some(7 + isize::MAX as usize));
}

#[test]
fn offsets_come_in_the_fixed_order() {
    let all: Vec<(isize, isize)> = (0..8).map(offset).collect();
    assert_eq!(
        all,
        vec![(-1, -1), (0, -1), (1, -1), (-1, 0), (1, 0), (-1, 1), (0, 1), (1, 1)]
    );
}

#[test]
fn neighbour_counts_at_corner_edge_and_interior() {
    let map = Grid::new(5, 10, '.', 1);
    for p in [Point::new(0, 0), Point::new(4, 0), Point::new(0, 9), Point::new(4, 9)] {
        assert_eq!(map.adjacent_ats(p).len(), 3);
    }
    for p in [Point::new(2, 0), Point::new(0, 4), Point::new(4, 5), Point::new(3, 9)] {
        assert_eq!(map.adjacent_ats(p).len(), 5);
    }
    for p in [Point::new(1, 1), Point::new(2, 5), Point::new(3, 8)] {
        assert_eq!(map.adjacent_ats(p).len(), 8);
    }
}

#[test]
fn neighbours_are_in_bounds_and_touching() {
    let map = Grid::new(3, 4, '.', 1);
    for y in 0..4usize {
        for x in 0..3usize {
            let found = map.adjacent_ats(Point::new(x, y));
            assert!(found.len() <= 8);
            for (p, _) in found {
                assert!(p.x < 3 && p.y < 4);
                assert!(p != Point::new(x, y));
                assert!(p.x.abs_diff(x) <= 1 && p.y.abs_diff(y) <= 1);
            }
        }
    }
}

#[test]
fn neighbours_in_narrow_grids() {
    let single = Grid::new(1, 1, '.', 1);
    assert!(single.adjacent_ats(Point::new(0, 0)).is_empty());
    let row = Grid::new(3, 1, '.', 1);
    let found: Vec<Point> = row.adjacent_ats(Point::new(1, 0)).into_iter().map(|e| e.0).collect();
    assert_eq!(found, vec![Point::new(0, 0), Point::new(2, 0)]);
}

#[test]
fn neighbours_carry_the_weight_of_their_own_tile() {
    let mut map = Grid::new(3, 3, '.', 1);
    map.set_at(&Point::new(0, 0), Tile::new('.', 11)).unwrap();
    map.set_at(&Point::new(2, 1), Tile::new('#', 22)).unwrap();
    map.set_at(&Point::new(1, 1), Tile::new('.', 99)).unwrap();
    let found = map.adjacent_ats(Point::new(1, 1));
    let weights: Vec<usize> = found.iter().map(|e| e.1).collect();
    assert_eq!(weights, vec![11, 1, 1, 1, 22, 1, 1, 1]);
}

#[test]
fn neighbours_of_a_cell_just_outside() {
    let map = Grid::new(5, 10, '.', 1);
    let found: Vec<Point> = map.adjacent_ats(Point::new(5, 0)).into_iter().map(|e| e.0).collect();
    assert_eq!(found, vec![Point::new(4, 0), Point::new(4, 1)]);
    assert!(map.adjacent_ats(Point::new(usize::MAX, usize::MAX)).is_empty());
}

#[test]
fn iterator_steps_through_neighbours_once() {
    let map = Grid::new(5, 10, '.', 3);
    let mut iter = CoordIterator::new(&map, Point::new(0, 0));
    assert_eq!(iter.next(), Some((Point::new(1, 0), 3)));
    assert_eq!(iter.next(), Some((Point::new(0, 1), 3)));
    assert_eq!(iter.next(), Some((Point::new(1, 1), 3)));
    assert_eq!(iter.next(), None);
    assert_eq!(iter.next(), None);
}

#[test]
fn points_compare_by_both_coordinates() {
    assert!(Point::new(3, 4).same(&Point::new(3, 4)));
    assert!(!Point::new(3, 4).same(&Point::new(4, 3)));
    assert!(!Point::new(3, 4).same(&Point::new(3, 5)));
}

#[test]
fn only_the_floor_marker_is_passable() {
    assert!(Tile::new('.', 1).is_passable());
    assert!(Tile::new('.', 0).is_passable());
    assert!(!Tile::new('#', 1).is_passable());
    assert!(!Tile::new(' ', 1).is_passable());
    assert!(!Tile::new('x', 1).is_passable());
}
