use bountiful::{generate_ascii_map, Grid, Point, Tile};

fn assert_walkable(map: &Grid, start: Point, end: Point, path: &[Point], cost: usize) {
    assert_eq!(path.first(), Some(&start));
    assert_eq!(path.last(), Some(&end));
    let mut sum = 0;
    for pair in path.windows(2) {
        let (a, b) = (pair[0], pair[1]);
        assert!(a != b);
        assert!(a.x.abs_diff(b.x) <= 1 && a.y.abs_diff(b.y) <= 1);
        let tile = map.at(&b).unwrap();
        assert_eq!(tile.id, '.');
        sum += tile.weight;
    }
    assert_eq!(sum, cost);
}

#[test]
fn distance_is_manhattan() {
    assert_eq!(Grid::distance(&Point::new(3, 9), &Point::new(7, 2)), 11);
    assert_eq!(Grid::distance(&Point::new(7, 2), &Point::new(3, 9)), 11);
    assert_eq!(Grid::distance(&Point::new(4, 4), &Point::new(4, 4)), 0);
    assert_eq!(Grid::distance(&Point::new(0, 0), &Point::new(4, 9)), 13);
}

#[test]
fn a_cell_reaches_itself_at_no_cost() {
    let map = Grid::new(5, 10, '.', 4);
    assert!(map.search_fits());
    for p in [Point::new(0, 0), Point::new(4, 9), Point::new(2, 3)] {
        assert_eq!(map.shortest_path(&p, &p), Some((vec![p], 0)));
    }
}

#[test]
fn an_impassable_cell_reaches_itself_too() {
    let map = Grid::new(3, 3, '#', 1);
    assert!(map.search_fits());
    let p = Point::new(1, 1);
    assert_eq!(map.shortest_path(&p, &p), Some((vec![p], 0)));
}

#[test]
fn nothing_is_found_outside_the_grid() {
    let map = Grid::new(5, 10, '.', 1);
    assert!(map.search_fits());
    let inside = Point::new(1, 1);
    for outside in [Point::new(5, 0), Point::new(0, 10), Point::new(usize::MAX, usize::MAX)] {
        assert_eq!(map.shortest_path(&inside, &outside), None);
        assert_eq!(map.shortest_path(&outside, &inside), None);
        assert_eq!(map.shortest_path(&outside, &outside), None);
    }
}

#[test]
fn enclosed_start_finds_nothing() {
    let map = generate_ascii_map(".....\n.###.\n.#.#.\n.###.\n.....").unwrap();
    assert!(map.search_fits());
    let start = Point::new(2, 2);
    for y in 0..5 {
        for x in 0..5 {
            let end = Point::new(x, y);
            if end != start {
                assert_eq!(map.shortest_path(&start, &end), None);
            }
        }
    }
}

#[test]
fn enclosed_end_finds_nothing() {
    let map = generate_ascii_map(".....\n.###.\n.#.#.\n.###.\n.....").unwrap();
    assert!(map.search_fits());
    assert_eq!(map.shortest_path(&Point::new(0, 0), &Point::new(2, 2)), None);
}

#[test]
fn open_grid_takes_the_diagonal() {
    let map = Grid::new(5, 10, '.', 1);
    assert!(map.search_fits());
    let (start, end) = (Point::new(0, 0), Point::new(4, 9));
    let (path, cost) = map.shortest_path(&start, &end).unwrap();
    assert_eq!(path.len() - 1, 9);
    assert_eq!(cost, 9);
    assert_walkable(&map, start, end, &path, cost);
}

#[test]
fn corridor_is_followed_step_by_step() {
    let text = "##############\n\
                #.####.......#\n\
                #.####.#####.#\n\
                #.####.#####.#\n\
                #......#####.#\n\
                ##############";
    let map = generate_ascii_map(text).unwrap();
    assert_eq!((map.width(), map.height()), (14, 6));
    assert!(map.search_fits());
    let (start, end) = (Point::new(1, 1), Point::new(12, 4));
    let (path, cost) = map.shortest_path(&start, &end).unwrap();
    assert_eq!(cost, 16);
    assert_eq!(path.len(), 17);
    assert_walkable(&map, start, end, &path, cost);
}

#[test]
fn straight_corridor_has_one_route() {
    let map = generate_ascii_map("#######\n#.....#\n#######").unwrap();
    assert!(map.search_fits());
    let found = map.shortest_path(&Point::new(1, 1), &Point::new(5, 1));
    let expected: Vec<Point> = (1..=5).map(|x| Point::new(x, 1)).collect();
    assert_eq!(found, Some((expected, 4)));
    let back = map.shortest_path(&Point::new(5, 1), &Point::new(1, 1));
    let expected: Vec<Point> = (1..=5).rev().map(|x| Point::new(x, 1)).collect();
    assert_eq!(back, Some((expected, 4)));
}

#[test]
fn cost_is_the_weight_of_every_cell_entered() {
    let mut map = generate_ascii_map("#####\n#...#\n#####").unwrap();
    map.set_at(&Point::new(1, 1), Tile::new('.', 100)).unwrap();
    map.set_at(&Point::new(2, 1), Tile::new('.', 5)).unwrap();
    map.set_at(&Point::new(3, 1), Tile::new('.', 7)).unwrap();
    assert!(map.search_fits());
    let found = map.shortest_path(&Point::new(1, 1), &Point::new(3, 1));
    assert_eq!(
        found,
        Some((vec![Point::new(1, 1), Point::new(2, 1), Point::new(3, 1)], 12))
    );
}

#[test]
fn heavy_cells_are_avoided() {
    let mut map = Grid::new(3, 3, '.', 1);
    map.set_at(&Point::new(1, 1), Tile::new('.', 50)).unwrap();
    map.set_at(&Point::new(1, 0), Tile::new('#', 1)).unwrap();
    assert!(map.search_fits());
    let (start, end) = (Point::new(0, 0), Point::new(2, 0));
    let (path, cost) = map.shortest_path(&start, &end).unwrap();
    assert_walkable(&map, start, end, &path, cost);
    assert!(!path.contains(&Point::new(1, 1)));
    assert_eq!(cost, 4);
}

#[test]
fn walls_at_the_ends_do_not_matter() {
    let map = generate_ascii_map("#.#").unwrap();
    assert!(map.search_fits());
    let found = map.shortest_path(&Point::new(0, 0), &Point::new(1, 0));
    assert_eq!(found, Some((vec![Point::new(0, 0), Point::new(1, 0)], 1)));
    assert_eq!(map.shortest_path(&Point::new(1, 0), &Point::new(2, 0)), None);
}

#[test]
fn passable_neighbours_keep_the_order() {
    let map = generate_ascii_map(".#.\n#..\n..#").unwrap();
    let open: Vec<Point> = map.passable_ats(&Point::new(1, 1)).into_iter().map(|e| e.0).collect();
    assert_eq!(
        open,
        vec![Point::new(0, 0), Point::new(2, 0), Point::new(2, 1), Point::new(0, 2), Point::new(1, 2)]
    );
    let walled = generate_ascii_map("###\n#.#\n###").unwrap();
    assert!(walled.passable_ats(&Point::new(1, 1)).is_empty());
}

#[test]
fn steps_need_a_touching_passable_cell() {
    let map = generate_ascii_map("..#\n...").unwrap();
    assert!(map.is_step(&Point::new(0, 0), &Point::new(1, 1)));
    assert!(map.is_step(&Point::new(0, 0), &Point::new(1, 0)));
    assert!(!map.is_step(&Point::new(0, 0), &Point::new(0, 0)));
    assert!(!map.is_step(&Point::new(0, 0), &Point::new(2, 1)));
    assert!(!map.is_step(&Point::new(1, 0), &Point::new(2, 0)));
    assert!(!map.is_step(&Point::new(2, 1), &Point::new(3, 1)));
    assert!(map.is_step(&Point::new(3, 1), &Point::new(2, 1)));
}

#[test]
fn reported_routes_are_checked_and_costed() {
    let mut map = Grid::new(3, 3, '.', 1);
    map.set_at(&Point::new(1, 1), Tile::new('.', 4)).unwrap();
    map.set_at(&Point::new(2, 0), Tile::new('#', 1)).unwrap();
    let (a, b, c) = (Point::new(0, 0), Point::new(1, 1), Point::new(2, 2));
    let good = vec![a, b, c];
    assert_eq!(map.confirm_route(&a, &c, Some((good.clone(), 77))), Some((good.clone(), 5)));
    assert_eq!(map.confirm_route(&a, &c, None), None);
    assert_eq!(map.confirm_route(&a, &c, Some((vec![], 0))), None);
    assert_eq!(map.confirm_route(&a, &c, Some((vec![a, c], 1))), None);
    assert_eq!(map.confirm_route(&b, &c, Some((good.clone(), 5))), None);
    assert_eq!(map.confirm_route(&a, &b, Some((good.clone(), 5))), None);
    assert_eq!(map.confirm_route(&a, &a, Some((vec![a], 9))), Some((vec![a], 0)));
    let wall = Point::new(2, 0);
    assert_eq!(map.confirm_route(&a, &wall, Some((vec![a, Point::new(1, 0), wall], 2))), None);
    let out = Point::new(3, 1);
    assert_eq!(map.confirm_route(&c, &out, Some((vec![c, out], 1))), None);
}

#[test]
fn a_route_that_costs_too_much_is_dropped() {
    let map = Grid::new(3, 1, '.', usize::MAX);
    let path = vec![Point::new(0, 0), Point::new(1, 0), Point::new(2, 0)];
    assert_eq!(map.confirm_route(&path[0], &path[2], Some((path.clone(), 0))), None);
    let short = vec![Point::new(0, 0), Point::new(1, 0)];
    assert_eq!(
        map.confirm_route(&short[0], &short[1], Some((short.clone(), 0))),
        Some((short, usize::MAX))
    );
}

#[test]
fn weights_must_fit_for_a_search() {
    assert!(Grid::new(80, 24, '.', 1).search_fits());
    assert!(Grid::new(0, 0, '.', usize::MAX).search_fits());
    assert!(!Grid::new(2, 2, '.', usize::MAX).search_fits());
    assert!(!Grid::new(1, 1, '.', usize::MAX / 2).search_fits());
    assert!(Grid::new(1, 1, '.', usize::MAX / 2 - 1).search_fits());
    assert!(Grid::new(2, 1, '.', usize::MAX / 4).search_fits());
    assert!(!Grid::new(2, 2, '.', usize::MAX / 4).search_fits());
}

#[test]
fn corridor_map_route_stays_on_the_floor() {
    let text = "##############\n\
                #..#......#..#\n\
                #...##.#.....#\n\
                #..##...#.#..#\n\
                #..######.#..#\n\
                #............#\n\
                ##############";
    let map = generate_ascii_map(text).unwrap();
    assert!(map.search_fits());
    let (start, end) = (Point::new(1, 1), Point::new(12, 1));
    let (path, cost) = map.shortest_path(&start, &end).unwrap();
    assert_walkable(&map, start, end, &path, cost);
    assert_eq!(cost, path.len() - 1);
    let again = map.shortest_path(&start, &end).unwrap();
    assert_eq!(again, (path, cost));
}
