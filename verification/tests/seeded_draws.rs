use jordquest::camp::{plan_camps, CAMP_ENEMIES, POWERUP_DROP_CHANCE};
use jordquest::map::{extra_nodes, extra_path_end, perlin_seed, select_camp_nodes, simplify_coordinates, MAPSIZE};
use jordquest::noise::{shuffle, P};
use rand::seq::SliceRandom;
use rand::Rng;
use rand_chacha::rand_core::SeedableRng;
use rand_chacha::{ChaCha8Rng, ChaChaRng};

#[test]
fn noise_shuffle_follows_one_seeded_stream() {
    for seed in [0u64, 3, 77, 123456789] {
        let mut rng = ChaChaRng::seed_from_u64(seed);
        let mut t = P;
        for i in 0..256 {
            let j: usize = rng.gen_range(0..256);
            t.swap(i, j);
        }
        assert_eq!(shuffle(seed), t);
    }
}

#[test]
fn camp_plans_follow_one_seeded_stream() {
    for seed in [0u64, 7, 4242] {
        let plans = plan_camps(seed, 10);
        let mut rng = ChaChaRng::seed_from_u64(seed);
        for p in &plans {
            let grade: u8 = rng.gen_range(1..=5);
            assert_eq!(p.grade, grade);
            let special: u8 = rng.gen_range(0..CAMP_ENEMIES);
            for (n, e) in p.enemies.iter().enumerate() {
                let draw: u32 = rng.gen_range(0..100);
                assert_eq!(e.is_special, n == special as usize);
                assert_eq!(e.chance_drop_powerup, e.is_special || draw < POWERUP_DROP_CHANCE);
            }
        }
    }
}

#[test]
fn camp_plans_are_fixed_by_the_seed() {
    let a = plan_camps(99, 10);
    let b = plan_camps(99, 10);
    for (x, y) in a.iter().zip(b.iter()) {
        assert_eq!(x.grade, y.grade);
        assert_eq!(x.decorations, y.decorations);
        assert_eq!(x.enemies, y.enemies);
    }
    let grades = |s: u64| plan_camps(s, 10).iter().map(|p| p.grade).collect::<Vec<u8>>();
    let first = grades(0);
    assert!((1..20).any(|s| grades(s) != first));
}

#[test]
fn camp_sites_follow_the_seeded_shuffle() {
    let nodes: Vec<(usize, usize)> = (0..30).map(|i| (i * 12, (i * 37) % 200)).collect();
    let mut expected = nodes.clone();
    simplify_coordinates(&mut expected);
    expected.shuffle(&mut ChaCha8Rng::seed_from_u64(2024));
    expected.truncate(6);
    let mut chosen = nodes.clone();
    select_camp_nodes(&mut chosen, 2024, 6);
    assert_eq!(chosen, expected);
}

#[test]
fn extra_nodes_and_paths_use_the_first_seeded_draw() {
    for seed in [1u64, 500, 31337] {
        let v: usize = ChaCha8Rng::seed_from_u64(seed).gen_range(0..MAPSIZE);
        assert!(extra_nodes(seed).iter().all(|&p| p == (v, v)));
        let n = 13;
        let e: usize = ChaCha8Rng::seed_from_u64(seed).gen_range(0..n);
        assert_eq!(extra_path_end(seed, n), e);
        assert!(extra_path_end(seed, n) < n);
    }
}

#[test]
fn perlin_seed_is_the_first_seeded_word() {
    for seed in [0u64, 8, 1 << 40] {
        let w: u64 = ChaCha8Rng::seed_from_u64(seed).gen();
        assert_eq!(perlin_seed(seed), w);
        assert_ne!(perlin_seed(seed), seed);
    }
}
