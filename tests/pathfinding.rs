use tilebound::astar::{astar, obstructed_coords, Tile};
use tilebound::hex::{get_neighbors, hex_distance, HexCoord};

fn assert_is_walk(path: &[HexCoord], start: HexCoord, goal: HexCoord) {
    assert_eq!(path[0], start);
    assert_eq!(*path.last().unwrap(), goal);
    for w in path.windows(2) {
        assert_eq!(hex_distance(&w[0], &w[1]), 1);
    }
}

#[test]
fn five_by_five_open_grid_path() {
    let start = HexCoord::new(0, 0);
    let goal = HexCoord::new(3, 2);
    let path = astar(start, goal, &vec![]).unwrap();
    assert_eq!(path.len() as i32, hex_distance(&start, &goal) + 1);
    assert_eq!(path.len(), 5);
    assert_is_walk(&path, start, goal);
}

#[test]
fn open_grid_paths_are_shortest() {
    let start = HexCoord::new(0, 0);
    for q in 0..5 {
        for r in 0..5 {
            let goal = HexCoord::new(q, r);
            let path = astar(start, goal, &vec![]).unwrap();
            assert_eq!(path.len() as i32, hex_distance(&start, &goal) + 1);
            assert_is_walk(&path, start, goal);
        }
    }
}

#[test]
fn start_equal_to_goal() {
    let c = HexCoord::new(2, 2);
    assert_eq!(astar(c, c, &vec![]), Some(vec![c]));
}

#[test]
fn enclosed_goal_is_unreachable() {
    let goal = HexCoord::new(2, 2);
    let walls = get_neighbors(&goal);
    assert_eq!(astar(HexCoord::new(0, 0), goal, &walls), None);
}

#[test]
fn enclosed_start_cannot_leave() {
    let start = HexCoord::new(1, 1);
    let walls = get_neighbors(&start);
    assert_eq!(astar(start, HexCoord::new(4, 4), &walls), None);
}

#[test]
fn path_goes_round_a_wall() {
    let start = HexCoord::new(0, 2);
    let goal = HexCoord::new(4, 2);
    let wall = vec![HexCoord::new(2, 0), HexCoord::new(2, 1), HexCoord::new(2, 2), HexCoord::new(2, 3)];
    let path = astar(start, goal, &wall).unwrap();
    assert_is_walk(&path, start, goal);
    for c in &path[..path.len() - 1] {
        assert!(!wall.contains(c));
    }
    assert!(path.len() > 5);
}

#[test]
fn obstructed_goal_can_be_entered() {
    let start = HexCoord::new(0, 0);
    let goal = HexCoord::new(2, 0);
    let path = astar(start, goal, &vec![goal]).unwrap();
    assert_eq!(path.len(), 3);
    assert_is_walk(&path, start, goal);
}

#[test]
fn search_is_deterministic() {
    let start = HexCoord::new(0, 0);
    let goal = HexCoord::new(4, 3);
    let walls = vec![HexCoord::new(2, 1), HexCoord::new(2, 2), HexCoord::new(1, 3)];
    let first = astar(start, goal, &walls);
    let second = astar(start, goal, &walls);
    assert!(first.is_some());
    assert_eq!(first, second);
}

#[test]
fn obstructed_coords_keeps_tile_order() {
    let tiles = vec![Tile::new(0, 0, false), Tile::new(1, 0, true), Tile::new(2, 0, false), Tile::new(0, 1, true)];
    assert_eq!(obstructed_coords(&tiles), vec![HexCoord::new(1, 0), HexCoord::new(0, 1)]);
    let t = Tile::new(3, 4, true);
    assert_eq!(t.coord, HexCoord::new(3, 4));
    assert!(t.is_obstructed && !t.is_hovered && !t.is_clicked && !t.can_be_clicked);
}

#[test]
fn long_open_path_is_shortest() {
    let start = HexCoord::new(-40, -35);
    let goal = HexCoord::new(45, 38);
    let path = astar(start, goal, &vec![]).unwrap();
    assert_eq!(path.len() as i32, hex_distance(&start, &goal) + 1);
    assert_is_walk(&path, start, goal);
}

#[test]
fn long_wall_with_gap() {
    let start = HexCoord::new(0, 0);
    let goal = HexCoord::new(0, 30);
    let mut wall = vec![];
    for q in -30..30 {
        if q != 25 {
            wall.push(HexCoord::new(q, 15));
        }
    }
    let path = astar(start, goal, &wall).unwrap();
    assert_is_walk(&path, start, goal);
    assert!(path.contains(&HexCoord::new(25, 15)));
}
