use jordquest::buffers::{CircularBuffer, BUFFER_LEN};
use jordquest::camp::{get_prefab_data, handle_camp_clear, plan_camps, CampEnemies, CampStatus, CAMP_ENEMIES};
use jordquest::combat::{
    apply_enemy_tick, award_camp_clears, award_enemy_kill, dropped_powerups, enemy_killed, enemy_max_hp,
    enemy_powerups, next_aggro, regen, CampState,
};
use jordquest::components::{coord_to_index, move_index, Health, PowerUpType, Stats, StoredPowerUps};
use jordquest::noise::{constant_vec, corner_values, shuffle, shuffle_with, P};
use jordquest::packets::{EnemyTick, EnemyTickEvent, PlayerTick, PlayerTickEvent, UserCmd, UserCmdEvent, WireVec2};
use jordquest::player::{
    after_hit, apply_player_tick, apply_usercmd, break_chest, draw_tick, health_step, host_attack,
    is_attacking, local_player_dead, mark_attack, next_attack_frame, respawn, strike, sword_damage,
    with_attack_flag, AttackEvent, LifeEvent, SpawnEvent, PLAYER_DEFAULT_HP,
};

fn stats() -> Stats {
    Stats { score: 0, enemies_killed: 0, players_killed: 3, camps_captured: 0, deaths: 0, kd_ratio: 0 }
}

#[test]
fn ring_reads_back_what_was_set() {
    let mut b: CircularBuffer<Option<u8>> = CircularBuffer::new();
    assert_eq!(*b.get(5), None);
    b.set(5, Some(9));
    assert_eq!(*b.get(5), Some(9));
    // ticks a ring apart share a slot
    assert_eq!(*b.get(5 + BUFFER_LEN as u16), Some(9));
    assert_eq!(*b.get(6), None);
    b.set(5 + BUFFER_LEN as u16, Some(1));
    assert_eq!(*b.get(5), Some(1));
    let f: CircularBuffer<u16> = CircularBuffer::new_from(7);
    assert_eq!(*f.get(0), 7);
    assert_eq!(*f.get(65535), 7);
}

#[test]
fn timed_store_only_takes_newer_data() {
    let mut b: CircularBuffer<u8> = CircularBuffer::new();
    b.set_with_time(3, 10, 3);
    assert_eq!(b.get_both(3), (&10, 3));
    b.set_with_time(3, 20, 2);
    assert_eq!(b.get_both(3), (&10, 3));
    b.set_with_time(3, 30, 3);
    assert_eq!(b.get_both(3), (&10, 3));
    b.set_with_time(35, 40, 35);
    assert_eq!(b.get_both(3), (&40, 35));
    // a plain store keeps the stamp
    b.set(3, 50);
    assert_eq!(b.get_both(3), (&50, 35));
}

#[test]
fn attack_bits() {
    assert_eq!(with_attack_flag(None), 1);
    assert_eq!(with_attack_flag(Some(2)), 3);
    assert_eq!(with_attack_flag(Some(1)), 1);
    let mut eb: CircularBuffer<Option<u8>> = CircularBuffer::new();
    assert_eq!(host_attack(&eb, 4), None);
    eb.set(4, Some(2));
    assert_eq!(host_attack(&eb, 4), None);
    mark_attack(&mut eb, 4);
    assert_eq!(*eb.get(4), Some(3));
    assert_eq!(host_attack(&eb, 4), Some(AttackEvent { seq_num: 4, id: 0 }));
    assert!(is_attacking(Some(3)));
    assert!(!is_attacking(Some(2)));
    assert!(!is_attacking(None));
    assert_eq!(draw_tick(true, 1), 1);
    assert_eq!(draw_tick(false, 10), 8);
    assert_eq!(draw_tick(false, 1), 0);
}

#[test]
fn sword_damage_and_hits() {
    assert_eq!(sword_damage(0), 40);
    assert_eq!(sword_damage(3), 70);
    assert_eq!(sword_damage(21), 250);
    assert_eq!(sword_damage(22), 255);
    assert_eq!(sword_damage(255), 255);
    assert_eq!(after_hit(100, 40), 60);
    assert_eq!(after_hit(30, 40), 0);
    let mut hb: CircularBuffer<Option<u8>> = CircularBuffer::new_from(Some(100));
    strike(&mut hb, 7, 40);
    assert_eq!(*hb.get(7), Some(60));
    strike(&mut hb, 7, 200);
    assert_eq!(*hb.get(7), Some(0));
    assert_eq!(*hb.get(8), Some(100));
    let mut chest = Health { current: 3, max: 3, dead: false };
    assert!(break_chest(&mut chest));
    assert_eq!(chest.current, 0);
    assert!(!break_chest(&mut chest));
}

#[test]
fn spawning_and_dying() {
    let mut hb: CircularBuffer<Option<u8>> = CircularBuffer::new();
    respawn(&mut hb, 12);
    assert_eq!(*hb.get(12), Some(PLAYER_DEFAULT_HP));
    let mut hp = Health { current: 0, max: 0, dead: true };
    let mut st = stats();
    assert_eq!(health_step(&mut hp, &mut st, None), LifeEvent::Unchanged);
    assert_eq!(hp, Health { current: 0, max: 0, dead: true });
    assert_eq!(health_step(&mut hp, &mut st, Some(100)), LifeEvent::Spawned);
    assert_eq!(hp, Health { current: 100, max: 100, dead: false });
    assert_eq!(health_step(&mut hp, &mut st, Some(40)), LifeEvent::Unchanged);
    assert_eq!(health_step(&mut hp, &mut st, Some(0)), LifeEvent::Died);
    assert!(hp.dead);
    assert_eq!(st.deaths, 1);
    assert_eq!(health_step(&mut hp, &mut st, Some(0)), LifeEvent::Unchanged);
    assert_eq!(st.deaths, 1);
    let mut st = Stats { deaths: 255, ..stats() };
    let mut hp = Health { current: 5, max: 100, dead: false };
    assert_eq!(health_step(&mut hp, &mut st, Some(0)), LifeEvent::Died);
    assert_eq!(st.deaths, 255);
    assert!(local_player_dead(Some(hp)));
    assert!(!local_player_dead(None));
}

#[test]
fn network_ticks_fill_the_rings() {
    let mut pb: CircularBuffer<Option<WireVec2>> = CircularBuffer::new();
    let mut hb: CircularBuffer<Option<u8>> = CircularBuffer::new();
    let mut db: CircularBuffer<Option<u32>> = CircularBuffer::new();
    let mut eb: CircularBuffer<Option<u8>> = CircularBuffer::new();
    let ev = PlayerTickEvent {
        seq_num: 3,
        tick: PlayerTick {
            id: 1,
            pos: WireVec2 { x: 1, y: 2 },
            hp: 77,
            dir: 9,
            events: 2,
            stats: stats(),
            powerups: StoredPowerUps { power_ups: [0; 5] },
        },
    };
    apply_player_tick(&mut pb, &mut hb, &mut db, &mut eb, 10, &ev);
    assert_eq!(*pb.get(3), Some(WireVec2 { x: 1, y: 2 }));
    assert_eq!(*hb.get(10), Some(77));
    assert_eq!(*hb.get(3), None);
    assert_eq!(*db.get(3), Some(9));
    assert_eq!(*eb.get(3), Some(2));
    let cmd = UserCmdEvent { seq_num: 5, id: 2, tick: UserCmd { pos: WireVec2 { x: 4, y: 4 }, dir: 1, events: 3 } };
    let (attack, spawn) = apply_usercmd(&mut pb, &mut db, &mut eb, &cmd);
    assert_eq!(attack, Some(AttackEvent { seq_num: 5, id: 2 }));
    assert_eq!(spawn, Some(SpawnEvent { id: 2 }));
    assert_eq!(pb.get_both(5), (&Some(WireVec2 { x: 4, y: 4 }), 5));
    // an older input for the same slot does not move the player back
    let old = UserCmdEvent { seq_num: 5, id: 2, tick: UserCmd { pos: WireVec2 { x: 0, y: 0 }, dir: 1, events: 0 } };
    assert_eq!(apply_usercmd(&mut pb, &mut db, &mut eb, &old), (None, None));
    assert_eq!(*pb.get(5), Some(WireVec2 { x: 4, y: 4 }));
    let mut epb: CircularBuffer<Option<WireVec2>> = CircularBuffer::new();
    apply_enemy_tick(&mut epb, &EnemyTickEvent { seq_num: 8, tick: EnemyTick { id: 1, pos: WireVec2 { x: 5, y: 6 }, hp: 1, events: 0 } });
    assert_eq!(*epb.get(8), Some(WireVec2 { x: 5, y: 6 }));
}

#[test]
fn attack_frames_cycle() {
    assert_eq!(next_attack_frame(-1, true), 0);
    assert_eq!(next_attack_frame(-1, false), -1);
    assert_eq!(next_attack_frame(0, true), 1);
    assert_eq!(next_attack_frame(30, false), 31);
    assert_eq!(next_attack_frame(31, false), -30);
    assert_eq!(next_attack_frame(-30, true), -29);
    assert_eq!(next_attack_frame(-2, true), -1);
}

#[test]
fn enemies_carry_and_drop_powerups() {
    assert_eq!(enemy_max_hp(false), 100);
    assert_eq!(enemy_max_hp(true), 150);
    let spu = enemy_powerups(PowerUpType::DamageReductionUp);
    assert_eq!(spu.power_ups, [0, 0, 1, 0, 0]);
    assert_eq!(dropped_powerups(&spu, true), vec![PowerUpType::DamageReductionUp]);
    assert_eq!(dropped_powerups(&spu, false), vec![]);
    let many = StoredPowerUps { power_ups: [1, 2, 0, 1, 1] };
    assert_eq!(
        dropped_powerups(&many, true),
        vec![PowerUpType::Meat, PowerUpType::AttackSpeedUp, PowerUpType::MovementSpeedUp]
    );
}

#[test]
fn aggro_and_regen() {
    assert_eq!(next_aggro(None, Some(2), true), (Some(2), true));
    assert_eq!(next_aggro(Some(1), Some(2), true), (Some(1), false));
    assert_eq!(next_aggro(Some(1), Some(2), false), (None, false));
    assert_eq!(next_aggro(Some(1), None, true), (None, false));
    let mut hp = Health { current: 95, max: 100, dead: false };
    regen(&mut hp);
    assert_eq!(hp.current, 105);
    regen(&mut hp);
    assert_eq!(hp.current, 105);
}

#[test]
fn kills_and_cleared_camps_score() {
    let camp = |id: u8, n: u8, active: bool| CampState {
        camp: id,
        enemies: CampEnemies { max_enemies: 5, current_enemies: n },
        status: CampStatus(active),
    };
    let mut camps = vec![camp(0, 2, true), camp(1, 1, true), camp(2, 0, false)];
    assert_eq!(enemy_killed(&mut camps, 1), 1);
    assert_eq!(camps[1].enemies.current_enemies, 0);
    assert_eq!(camps[0].enemies.current_enemies, 2);
    // a cleared camp that is still active is counted again on the next kill
    assert_eq!(enemy_killed(&mut camps, 0), 1);
    let mut status = camps[1].status;
    handle_camp_clear(&camps[1].enemies, &mut status);
    assert_eq!(status, CampStatus(false));
    let mut status = CampStatus(true);
    handle_camp_clear(&camps[0].enemies, &mut status);
    assert_eq!(status, CampStatus(true));
    let mut st = stats();
    award_enemy_kill(&mut st);
    award_camp_clears(&mut st, 2);
    assert_eq!((st.score, st.enemies_killed, st.camps_captured), (11, 1, 2));
    award_camp_clears(&mut st, 0);
    assert_eq!(st.score, 11);
}

#[test]
fn camp_plans_follow_their_grade() {
    assert_eq!(get_prefab_data(1), vec![0, 7, -5, -3, 3, -2, -3, 4, -2, -1, 3, 2, 6, 1, 0, -5]);
    assert_eq!(get_prefab_data(9), get_prefab_data(5));
    let plans = plan_camps(7, 10);
    assert_eq!(plans.len(), 10);
    for (k, p) in plans.iter().enumerate() {
        assert_eq!(p.camp_id as usize, k);
        assert!((1..=5).contains(&p.grade));
        let pd = get_prefab_data(p.grade);
        assert_eq!(p.decorations, vec![(pd[0], pd[1]), (pd[2], pd[3]), (pd[4], pd[5])]);
        assert_eq!(p.enemies.len(), CAMP_ENEMIES as usize);
        assert_eq!(p.enemies.iter().filter(|e| e.is_special).count(), 1);
        for (n, e) in p.enemies.iter().enumerate() {
            assert_eq!(e.id as usize, 5 * k + n);
            assert_eq!(e.offset, (pd[6 + 2 * n], pd[7 + 2 * n]));
            assert_eq!(e.power_up.to_u8() + 1, p.grade);
            assert!(!e.is_special || e.chance_drop_powerup);
        }
    }
    let again = plan_camps(7, 10);
    assert_eq!(again[3].grade, plans[3].grade);
}

#[test]
fn noise_table_shuffle() {
    let identity: Vec<usize> = (0..256).collect();
    let t = shuffle_with(&identity);
    assert_eq!(t, P);
    // each step swaps two slots of the table being shuffled
    let mut draws: Vec<usize> = (0..256).collect();
    draws[0] = 1;
    let t = shuffle_with(&draws);
    assert_eq!(t[0], P[1]);
    assert_eq!(t[1], P[0]);
    assert_eq!(&t[2..], &P[2..]);
    // with every draw 0 the table is still a permutation of 0..=255
    let t = shuffle_with(&vec![0usize; 256]);
    let mut sorted = t.to_vec();
    sorted.sort();
    assert_eq!(sorted, (0..256).collect::<Vec<usize>>());
    let s = shuffle(3);
    let mut sorted = s.to_vec();
    sorted.sort();
    assert_eq!(sorted, (0..256).collect::<Vec<usize>>());
    assert_ne!(s, P);
    assert_eq!(s, shuffle(3));
    assert_eq!(constant_vec(0), (1, 1));
    assert_eq!(constant_vec(4), (-1, 1));
    assert_eq!(constant_vec(5), (-1, -1));
    let (tr, tl, br, bl) = corner_values(&P, 0, 0);
    assert_eq!(tr, P[(P[1] + 1) % 256]);
    assert_eq!(tl, P[(P[0] + 1) % 256]);
    assert_eq!(br, P[P[1] % 256]);
    assert_eq!(bl, P[P[0] % 256]);
}

#[test]
fn sheet_index_and_move_index() {
    assert_eq!(coord_to_index(0, 0), 0);
    assert_eq!(coord_to_index(3, 1), 7);
    assert_eq!(coord_to_index(0, 5), 20);
    assert_eq!(coord_to_index(0, 6), 23);
    assert_eq!(coord_to_index(-1, 0), 23);
    assert_eq!(move_index(true, false, false, false), 1);
    assert_eq!(move_index(false, true, true, false), 6);
    assert_eq!(move_index(true, true, true, true), 15);
    assert_eq!(PowerUpType::from_u8(3), Some(PowerUpType::AttackSpeedUp));
    assert_eq!(PowerUpType::from_u8(5), None);
}
