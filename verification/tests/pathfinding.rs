use jordquest::enemy::{a_star, find_next, find_pivot_points, heuristic, is_valid_position, V2};
use jordquest::map::{Biome, MAPSIZE};

fn v(x: usize, y: usize) -> V2 {
    V2 { x, y }
}

fn open_rows(n: usize) -> Vec<[i32; MAPSIZE]> {
    vec![[0; MAPSIZE]; n]
}

#[test]
fn heuristic_is_manhattan_distance() {
    assert_eq!(heuristic(v(1, 2), v(4, 0)), 5);
    assert_eq!(heuristic(v(3, 3), v(3, 3)), 0);
}

#[test]
fn valid_positions_are_inside_and_not_walls() {
    let mut map = open_rows(2);
    map[1][3] = 1;
    assert!(is_valid_position(&map, v(0, 0)));
    assert!(!is_valid_position(&map, v(3, 1)));
    assert!(!is_valid_position(&map, v(0, 2)));
    assert!(!is_valid_position(&map, v(MAPSIZE, 0)));
}

#[test]
fn a_star_walks_a_corridor() {
    let map = open_rows(1);
    let path = a_star(&map, v(0, 0), v(3, 0));
    assert_eq!(path, vec![v(0, 0), v(1, 0), v(2, 0), v(3, 0)]);
}

#[test]
fn a_star_to_itself() {
    let map = open_rows(1);
    assert_eq!(a_star(&map, v(2, 0), v(2, 0)), vec![v(2, 0)]);
}

#[test]
fn a_star_goes_around_a_wall() {
    let mut map = open_rows(3);
    map[0][2] = 1;
    map[1][2] = 1;
    let path = a_star(&map, v(0, 0), v(4, 0));
    assert_eq!(path.first(), Some(&v(0, 0)));
    assert_eq!(path.last(), Some(&v(4, 0)));
    for w in path.windows(2) {
        let (a, b) = (w[0], w[1]);
        assert!(a != b && a.x.abs_diff(b.x) <= 1 && a.y.abs_diff(b.y) <= 1);
        assert!(is_valid_position(&map, b));
    }
    assert!(path.iter().any(|p| p.y == 2));
}

#[test]
fn a_star_finds_nothing_behind_a_wall() {
    let mut map = open_rows(3);
    for row in map.iter_mut() {
        row[2] = 1;
    }
    assert!(a_star(&map, v(0, 1), v(4, 1)).is_empty());
    // a target that is itself a wall cannot be reached
    assert!(a_star(&map, v(0, 1), v(2, 1)).is_empty());
}

#[test]
fn pivots_keep_bends_and_ends() {
    let path = vec![v(0, 0), v(1, 0), v(2, 0), v(3, 1), v(4, 2)];
    assert_eq!(find_pivot_points(path), vec![v(2, 0), v(4, 2)]);
    let short = vec![v(0, 0), v(1, 1)];
    assert_eq!(find_pivot_points(short.clone()), short);
    let straight = vec![v(0, 0), v(1, 0), v(2, 0), v(3, 0)];
    assert_eq!(find_pivot_points(straight), vec![v(3, 0)]);
}

#[test]
fn find_next_heads_for_target_or_bend() {
    let mut map = Box::new([[Biome::Ground; MAPSIZE]; MAPSIZE]);
    assert_eq!(find_next(&map, v(10, 10), v(14, 10)), v(14, 10));
    for y in 0..MAPSIZE {
        map[y][20] = Biome::Wall;
    }
    // no way through: the target itself
    assert_eq!(find_next(&map, v(10, 10), v(30, 10)), v(30, 10));
}
