use jordquest::map::{
    add_outer_walls, carve_camp_circle, extra_nodes, get_biome_from_map, get_surrounding_tiles, get_tile_at_pos,
    select_camp_nodes, set_num_camps, set_seed, simplify_coordinates, tile_blend_color, truncate_camps, Biome,
    TileColor, CAMP_RADIUS, EXTRANODES, MAPSIZE,
};
use jordquest::minimap::{minimap_mode, minimap_pixels, respawn_tile};
use jordquest::text::{parse_u16, parse_u64, parse_u8};

type Grid = [[Biome; MAPSIZE]; MAPSIZE];

fn grid(b: Biome) -> Box<Grid> {
    Box::new([[b; MAPSIZE]; MAPSIZE])
}

fn far_apart(v: &[(usize, usize)]) -> bool {
    for i in 0..v.len() {
        for j in 0..i {
            let dx = v[i].0 as i64 - v[j].0 as i64;
            let dy = v[i].1 as i64 - v[j].1 as i64;
            if dx * dx + dy * dy <= 100 {
                return false;
            }
        }
    }
    true
}

#[test]
fn biome_lookup_is_wall_off_the_map() {
    let mut map = grid(Biome::Ground);
    map[3][4] = Biome::Camp;
    assert_eq!(get_biome_from_map(3, 4, &map), Biome::Camp);
    assert_eq!(get_biome_from_map(-1, 4, &map), Biome::Wall);
    assert_eq!(get_biome_from_map(3, MAPSIZE as isize, &map), Biome::Wall);
    let around = get_surrounding_tiles(0, 0, &map);
    assert_eq!(around[0], [Biome::Wall; 3]);
    assert_eq!(around[1], [Biome::Wall, Biome::Ground, Biome::Ground]);
    let around = get_surrounding_tiles(4, 5, &map);
    assert_eq!(around[0][0], Biome::Camp);
}

#[test]
fn tile_at_pos_clamps() {
    let mut map = grid(Biome::Ground);
    map[MAPSIZE - 1][MAPSIZE - 1] = Biome::Path;
    map[2][MAPSIZE - 1] = Biome::Camp;
    assert_eq!(get_tile_at_pos(9999, 9999, &map), Biome::Path);
    assert_eq!(get_tile_at_pos(2, 300, &map), Biome::Camp);
    assert_eq!(get_tile_at_pos(2, 3, &map), Biome::Ground);
}

#[test]
fn ground_next_to_path_is_blended() {
    let mut map = grid(Biome::Ground);
    assert_eq!(tile_blend_color(10, 10, &map), TileColor::Ground);
    map[9][10] = Biome::Camp;
    assert_eq!(tile_blend_color(10, 10, &map), TileColor::Ground);
    map[10][11] = Biome::Path;
    assert_eq!(tile_blend_color(10, 10, &map), TileColor::GroundPathBlend);
    // diagonal neighbours do not count
    let mut map = grid(Biome::Ground);
    map[11][11] = Biome::Path;
    assert_eq!(tile_blend_color(10, 10, &map), TileColor::Ground);
}

#[test]
fn thinning_keeps_far_points_in_order() {
    let mut v = vec![(0, 0), (5, 5), (10, 0), (11, 0), (0, 11), (30, 30)];
    simplify_coordinates(&mut v);
    // (5,5) is too close to (0,0); (10,0) is exactly 10 away, which is not more than 10
    assert_eq!(v, vec![(0, 0), (11, 0), (0, 11), (30, 30)]);
    assert!(far_apart(&v));
    let mut empty: Vec<(usize, usize)> = vec![];
    simplify_coordinates(&mut empty);
    assert!(empty.is_empty());
}

#[test]
fn thinning_handles_coordinates_of_any_size() {
    let big = usize::MAX;
    let mut v = vec![(big, 0), (big - 5, 3), (0, big), (big, big), (big - 11, 0)];
    simplify_coordinates(&mut v);
    assert_eq!(v, vec![(big, 0), (0, big), (big, big), (big - 11, 0)]);
}

#[test]
fn truncation_keeps_a_prefix() {
    let mut v = vec![(1, 1), (2, 2), (3, 3)];
    truncate_camps(&mut v, 2);
    assert_eq!(v, vec![(1, 1), (2, 2)]);
    truncate_camps(&mut v, 10);
    assert_eq!(v, vec![(1, 1), (2, 2)]);
}

#[test]
fn camp_selection_is_a_shuffled_prefix_of_the_thinned_nodes() {
    let nodes: Vec<(usize, usize)> = (0..20).map(|i| (i * 12, (i * 37) % 200)).collect();
    let mut thinned = nodes.clone();
    simplify_coordinates(&mut thinned);
    let mut chosen = nodes.clone();
    select_camp_nodes(&mut chosen, 1234, 5);
    assert_eq!(chosen.len(), 5.min(thinned.len()));
    for c in &chosen {
        assert!(thinned.contains(c));
    }
    let mut again = nodes.clone();
    select_camp_nodes(&mut again, 1234, 5);
    assert_eq!(chosen, again);
    let mut all = nodes.clone();
    select_camp_nodes(&mut all, 99, 255);
    // the shuffle does move the nodes around
    assert_ne!(all, thinned);
    let mut sorted_all = all.clone();
    sorted_all.sort();
    let mut sorted_thinned = thinned.clone();
    sorted_thinned.sort();
    assert_eq!(sorted_all, sorted_thinned);
}

#[test]
fn extra_nodes_are_on_the_map() {
    let n = extra_nodes(42);
    assert_eq!(n.len(), EXTRANODES);
    assert!(n.iter().all(|&(x, y)| x < MAPSIZE && y < MAPSIZE));
    assert_eq!(n, extra_nodes(42));
    let (x0, y0) = n[0];
    assert_eq!(x0, y0);
    assert!(n.iter().all(|&p| p == (x0, x0)));
}

#[test]
fn camp_circle_is_carved() {
    let mut map = grid(Biome::Wall);
    carve_camp_circle(&mut map, 100, 50);
    let r = CAMP_RADIUS;
    assert_eq!(map[100][50], Biome::Camp);
    assert_eq!(map[100 + r][50], Biome::Camp);
    assert_eq!(map[100][50 - r], Biome::Camp);
    assert_eq!(map[100 + r][50 + 1], Biome::Wall);
    assert_eq!(map[100 + r + 1][50], Biome::Wall);
    let count = map.iter().flatten().filter(|b| **b == Biome::Camp).count();
    let mut expected = 0;
    for dr in -8i64..=8 {
        for dc in -8i64..=8 {
            if dr * dr + dc * dc <= 64 {
                expected += 1;
            }
        }
    }
    assert_eq!(count, expected);
    // a circle at the corner is cut by the map's edge
    let mut map = grid(Biome::Ground);
    carve_camp_circle(&mut map, 0, 0);
    assert_eq!(map[0][0], Biome::Camp);
    assert_eq!(map[8][0], Biome::Camp);
    assert_eq!(map[6][6], Biome::Ground);
}

#[test]
fn outer_walls_ring_the_map() {
    let mut map = grid(Biome::Ground);
    add_outer_walls(&mut map);
    for i in 0..MAPSIZE {
        assert_eq!(map[0][i], Biome::Wall);
        assert_eq!(map[MAPSIZE - 1][i], Biome::Wall);
        assert_eq!(map[i][0], Biome::Wall);
        assert_eq!(map[i][MAPSIZE - 1], Biome::Wall);
    }
    assert_eq!(map[1][1], Biome::Ground);
    assert_eq!(map[128][200], Biome::Ground);
}

#[test]
fn numbers_read_like_str_parse() {
    assert_eq!(parse_u64("0"), Some(0));
    assert_eq!(parse_u64("+17"), Some(17));
    assert_eq!(parse_u64("18446744073709551615"), Some(u64::MAX));
    assert_eq!(parse_u64("18446744073709551616"), None);
    assert_eq!(parse_u64(""), None);
    assert_eq!(parse_u64("+"), None);
    assert_eq!(parse_u64("-1"), None);
    assert_eq!(parse_u64(" 1"), None);
    assert_eq!(parse_u16("8085"), Some(8085));
    assert_eq!(parse_u16("65536"), None);
    assert_eq!(parse_u8("255"), Some(255));
    assert_eq!(parse_u8("256"), None);
    assert_eq!(parse_u8("007"), Some(7));
    assert_eq!(parse_u8("WIP"), None);
    for s in ["12", "+3", "0009", "255", "256", "x", "", "1.5"] {
        assert_eq!(parse_u8(s), s.parse::<u8>().ok());
    }
}

#[test]
fn seed_and_camp_count_take_the_last_number() {
    assert_eq!(set_seed(&vec![]), 0);
    assert_eq!(set_seed(&vec!["123".to_string(), "abc".to_string()]), 123);
    assert_eq!(set_seed(&vec!["1".to_string(), "2".to_string()]), 2);
    assert_eq!(set_num_camps(&vec![]), 10);
    assert_eq!(set_num_camps(&vec!["300".to_string()]), 10);
    assert_eq!(set_num_camps(&vec!["4".to_string(), "x".to_string()]), 4);
}

#[test]
fn minimap_colours_each_tile() {
    let mut map = grid(Biome::Ground);
    map[0][1] = Biome::Wall;
    map[1][0] = Biome::Path;
    map[255][255] = Biome::Camp;
    let px = minimap_pixels(&map);
    assert_eq!(px.len(), 4 * MAPSIZE * MAPSIZE);
    assert_eq!(&px[0..4], &[182, 136, 66, 255]);
    assert_eq!(&px[4..8], &[87, 53, 0, 255]);
    assert_eq!(&px[4 * MAPSIZE..4 * MAPSIZE + 4], &[241, 213, 166, 255]);
    assert_eq!(&px[px.len() - 4..], &[131, 91, 20, 255]);
    let free = grid(Biome::Free);
    assert_eq!(&minimap_pixels(&free)[0..4], &[255, 255, 255, 255]);
}

#[test]
fn respawn_click_picks_a_tile() {
    let mut map = grid(Biome::Ground);
    // window pixel 384 is the left edge of the respawn map; two pixels per tile
    assert_eq!(respawn_tile(384, 104, &map), Some((0, 0)));
    assert_eq!(respawn_tile(394, 124, &map), Some((5, 10)));
    assert_eq!(respawn_tile(896, 616, &map), Some((255, 255)));
    map[10][5] = Biome::Wall;
    assert_eq!(respawn_tile(394, 124, &map), None);
    assert_eq!(minimap_mode(1, 1), Some(true));
    assert_eq!(minimap_mode(0, 2), Some(false));
    assert_eq!(minimap_mode(0, 0), None);
}
