//! Camp layout: the placement of a camp's decorations and enemies, the
//! random choices made for each camp, and the clearing of a camp.

use vstd::prelude::*;
use crate::components::PowerUpType;
use crate::rng::{
    chacha20_gen_range_inclusive_u8, chacha20_gen_range_u32, chacha20_gen_range_u8, chacha20_u32_below,
    chacha20_u8_below, chacha20_u8_through,
};

verus! {

/// Enemies spawned in each camp.
pub const CAMP_ENEMIES: u8 = 5;
/// Number of camp grades; grades run from 1 to `NUM_GRADES`.
pub const NUM_GRADES: u8 = 5;
/// Percent chance that an ordinary enemy drops its power-up.
pub const POWERUP_DROP_CHANCE: u32 = 50;

/// The layout of a camp of the given grade, as tile offsets from its centre:
/// x then y for each of three decorations, then for each of five enemies.
/// Grades other than 1 to 4 share the last layout.
pub open spec fn prefab(grade: u8) -> Seq<i8> {
    if grade == 1 {
        seq![0i8, 7i8, -5i8, -3i8, 3i8, -2i8, -3i8, 4i8, -2i8, -1i8, 3i8, 2i8, 6i8, 1i8, 0i8, -5i8]
    } else if grade == 2 {
        seq![-5i8, 4i8, 0i8, 1i8, 3i8, -4i8, -2i8, 7i8, -6i8, -3i8, -3i8, -6i8, 2i8, -3i8, 4i8, 3i8]
    } else if grade == 3 {
        seq![-1i8, 5i8, -3i8, -2i8, 3i8, -2i8, -4i8, 5i8, -2i8, 1i8, -6i8, 0i8, 4i8, 0i8, -4i8, -4i8]
    } else if grade == 4 {
        seq![-3i8, 4i8, 3i8, 2i8, 5i8, -1i8, 2i8, 6i8, -5i8, 1i8, -2i8, 1i8, -4i8, -3i8, 1i8, -6i8]
    } else {
        seq![3i8, 3i8, 2i8, -2i8, -5i8, -5i8, 4i8, 6i8, -3i8, 4i8, 5i8, 0i8, -6i8, -2i8, -1i8, -4i8]
    }
}

/// The layout of a camp of the given grade (see `prefab`).
pub fn get_prefab_data(grade: u8) -> (pd: Vec<i8>)
    ensures
        pd@ == prefab(grade),
{
    let pd = if grade == 1 {
        vec![0i8, 7i8, -5i8, -3i8, 3i8, -2i8, -3i8, 4i8, -2i8, -1i8, 3i8, 2i8, 6i8, 1i8, 0i8, -5i8]
    } else if grade == 2 {
        vec![-5i8, 4i8, 0i8, 1i8, 3i8, -4i8, -2i8, 7i8, -6i8, -3i8, -3i8, -6i8, 2i8, -3i8, 4i8, 3i8]
    } else if grade == 3 {
        vec![-1i8, 5i8, -3i8, -2i8, 3i8, -2i8, -4i8, 5i8, -2i8, 1i8, -6i8, 0i8, 4i8, 0i8, -4i8, -4i8]
    } else if grade == 4 {
        vec![-3i8, 4i8, 3i8, 2i8, 5i8, -1i8, 2i8, 6i8, -5i8, 1i8, -2i8, 1i8, -4i8, -3i8, 1i8, -6i8]
    } else {
        vec![3i8, 3i8, 2i8, -2i8, -5i8, -5i8, 4i8, 6i8, -3i8, 4i8, 5i8, 0i8, -6i8, -2i8, -1i8, -4i8]
    };
    assert(pd@ =~= prefab(grade));
    pd
}

/// The power-up that the enemies of a camp of the given grade carry.
pub open spec fn grade_powerup(grade: u8) -> PowerUpType {
    if grade == 1 {
        PowerUpType::Meat
    } else if grade == 2 {
        PowerUpType::DamageDealtUp
    } else if grade == 3 {
        PowerUpType::DamageReductionUp
    } else if grade == 4 {
        PowerUpType::AttackSpeedUp
    } else {
        PowerUpType::MovementSpeedUp
    }
}

/// What is spawned for one enemy of a camp.
#[derive(Clone, Copy, PartialEq, Eq, Debug)]
pub struct EnemyPlan {
    pub id: u8,
    pub camp_id: u8,
    /// Tile offset from the camp centre.
    pub offset: (i8, i8),
    pub power_up: PowerUpType,
    pub chance_drop_powerup: bool,
    pub is_special: bool,
}

/// What is spawned for one camp.
#[derive(Debug)]
pub struct CampPlan {
    pub camp_id: u8,
    pub grade: u8,
    /// Tile offsets of the three decorations from the camp centre.
    pub decorations: Vec<(i8, i8)>,
    pub enemies: Vec<EnemyPlan>,
}

/// Enemy `s` is the only special one.
pub open spec fn only_special(enemies: Seq<EnemyPlan>, s: int) -> bool {
    forall|n: int| 0 <= n < enemies.len() ==> (#[trigger] enemies[n]).is_special == (n == s)
}

/// The plan of camp number `k` agrees with its grade and with the ids it gets.
pub open spec fn camp_plan_ok(plan: CampPlan, k: int) -> bool {
    let pd = prefab(plan.grade);
    &&& plan.camp_id == k
    &&& 1 <= plan.grade <= NUM_GRADES
    &&& plan.decorations@.len() == 3
    &&& forall|n: int| 0 <= n < 3 ==> #[trigger] plan.decorations@[n] == (pd[2 * n], pd[2 * n + 1])
    &&& plan.enemies@.len() == CAMP_ENEMIES
    &&& exists|s: int| 0 <= s < CAMP_ENEMIES && #[trigger] only_special(plan.enemies@, s)
    &&& forall|n: int| 0 <= n < CAMP_ENEMIES ==> {
        let e = #[trigger] plan.enemies@[n];
        &&& e.id == CAMP_ENEMIES * k + n
        &&& e.camp_id == k
        &&& e.offset == (pd[6 + 2 * n], pd[7 + 2 * n])
        &&& e.power_up == grade_powerup(plan.grade)
        &&& e.is_special ==> e.chance_drop_powerup
    }
}

/// The grade drawn for a camp whose draws start at word `w` of the generator
/// seeded with `seed`, with the word after it.
pub open spec fn grade_draw(seed: u64, w: u128) -> (u8, u128) {
    chacha20_u8_through(seed, w, 1, NUM_GRADES)
}

/// The index of the special enemy, drawn right after the grade.
pub open spec fn special_draw(seed: u64, w: u128) -> (u8, u128) {
    chacha20_u8_below(seed, grade_draw(seed, w).1, 0, CAMP_ENEMIES)
}

/// The word before the drop draw of enemy `n` of the camp whose draws start
/// at word `w`.
pub open spec fn drop_word(seed: u64, w: u128, n: nat) -> u128
    decreases n,
{
    if n == 0 {
        special_draw(seed, w).1
    } else {
        chacha20_u32_below(seed, drop_word(seed, w, (n - 1) as nat), 0, 100).1
    }
}

/// The drop draw (out of 100) of enemy `n` of the camp whose draws start at `w`.
pub open spec fn drop_draw(seed: u64, w: u128, n: nat) -> u32 {
    chacha20_u32_below(seed, drop_word(seed, w, n), 0, 100).0
}

/// The word at which the draws of camp number `k` start.
pub open spec fn camp_word(seed: u64, k: nat) -> u128
    decreases k,
{
    if k == 0 {
        0
    } else {
        drop_word(seed, camp_word(seed, (k - 1) as nat), CAMP_ENEMIES as nat)
    }
}

/// The random choices of a plan are those drawn from word `w` of the
/// generator seeded with `seed`: the grade, the special enemy, and for each
/// enemy whether it drops its power-up (the special one always does).
pub open spec fn camp_plan_drawn(plan: CampPlan, seed: u64, w: u128) -> bool {
    let special = special_draw(seed, w).0 as int;
    &&& plan.grade == grade_draw(seed, w).0
    &&& only_special(plan.enemies@, special)
    &&& forall|n: int|
        0 <= n < plan.enemies@.len() ==> (#[trigger] plan.enemies@[n]).chance_drop_powerup == (n
            == special || drop_draw(seed, w, n as nat) < POWERUP_DROP_CHANCE)
}

/// The camps to spawn, one for each camp position, with the random choices
/// drawn in order from the generator seeded with `seed`: for each camp its
/// grade in 1..=5 and the index of its special enemy, then for each enemy
/// whether it drops its power-up (a draw below 50 out of 100; the special
/// enemy always drops). The plans are fixed by the seed, so every machine
/// that knows the seed plans the same camps.
pub fn plan_camps(seed: u64, num_camps: usize) -> (plans: Vec<CampPlan>)
    requires
        num_camps * CAMP_ENEMIES <= 256,
    ensures
        plans@.len() == num_camps,
        forall|k: int| 0 <= k < num_camps ==> camp_plan_ok(#[trigger] plans@[k], k),
        forall|k: int|
            0 <= k < num_camps ==> camp_plan_drawn(#[trigger] plans@[k], seed, camp_word(seed, k as nat)),
{
    let mut word: u128 = 0;
    let mut plans: Vec<CampPlan> = Vec::new();
    let mut campid: u8 = 0;
    let mut id: u8 = 0;
    let mut k: usize = 0;
    while k < num_camps
        invariant
            num_camps * CAMP_ENEMIES <= 256,
            0 <= k <= num_camps,
            plans@.len() == k,
            campid == k,
            id == CAMP_ENEMIES * k,
            word == camp_word(seed, k as nat),
            forall|j: int| 0 <= j < k ==> camp_plan_ok(#[trigger] plans@[j], j),
            forall|j: int|
                0 <= j < k ==> camp_plan_drawn(#[trigger] plans@[j], seed, camp_word(seed, j as nat)),
        decreases num_camps - k,
    {
        let ghost w0 = word;
        let (camp_grade, w1) = chacha20_gen_range_inclusive_u8(seed, word, 1, NUM_GRADES);
        let prefab_data = get_prefab_data(camp_grade);
        let (special_enemy_index, w2) = chacha20_gen_range_u8(seed, w1, 0, CAMP_ENEMIES);
        word = w2;
        let mut decorations: Vec<(i8, i8)> = Vec::new();
        let mut n: usize = 0;
        while n < 3
            invariant
                0 <= n <= 3,
                prefab_data@ == prefab(camp_grade),
                decorations@.len() == n,
                forall|m: int| 0 <= m < n ==> #[trigger] decorations@[m] == (prefab_data@[2 * m], prefab_data@[2 * m + 1]),
            decreases 3 - n,
        {
            decorations.push((prefab_data[2 * n], prefab_data[2 * n + 1]));
            n = n + 1;
        }
        let power_up_to_drop = match camp_grade {
            1 => PowerUpType::Meat,
            2 => PowerUpType::DamageDealtUp,
            3 => PowerUpType::DamageReductionUp,
            4 => PowerUpType::AttackSpeedUp,
            _ => PowerUpType::MovementSpeedUp,
        };
        let mut enemies: Vec<EnemyPlan> = Vec::new();
        let mut n: u8 = 0;
        assert(k < num_camps);
        assert(CAMP_ENEMIES * (k + 1) <= 256) by (nonlinear_arith)
            requires k < num_camps, num_camps * 5 <= 256;
        while n < CAMP_ENEMIES
            invariant
                0 <= n <= CAMP_ENEMIES,
                prefab_data@ == prefab(camp_grade),
                1 <= camp_grade <= NUM_GRADES,
                special_enemy_index < CAMP_ENEMIES,
                special_enemy_index == special_draw(seed, w0).0,
                word == drop_word(seed, w0, n as nat),
                power_up_to_drop == grade_powerup(camp_grade),
                campid == k,
                id == CAMP_ENEMIES * k + n,
                CAMP_ENEMIES * (k + 1) <= 256,
                enemies@.len() == n,
                forall|m: int| 0 <= m < n ==> {
                    let e = #[trigger] enemies@[m];
                    &&& e.id == CAMP_ENEMIES * k + m
                    &&& e.camp_id == k
                    &&& e.offset == (prefab_data@[6 + 2 * m], prefab_data@[7 + 2 * m])
                    &&& e.power_up == power_up_to_drop
                    &&& e.is_special == (m == special_enemy_index)
                    &&& e.is_special ==> e.chance_drop_powerup
                    &&& e.chance_drop_powerup == (m == special_enemy_index || drop_draw(
                        seed,
                        w0,
                        m as nat,
                    ) < POWERUP_DROP_CHANCE)
                },
            decreases CAMP_ENEMIES - n,
        {
            let is_special = n == special_enemy_index;
            let (draw, next) = chacha20_gen_range_u32(seed, word, 0, 100);
            word = next;
            let mut chance_drop_powerup = draw < POWERUP_DROP_CHANCE;
            if is_special {
                chance_drop_powerup = true;
            }
            let i = 6 + 2 * (n as usize);
            enemies.push(EnemyPlan {
                id,
                camp_id: campid,
                offset: (prefab_data[i], prefab_data[i + 1]),
                power_up: power_up_to_drop,
                chance_drop_powerup,
                is_special,
            });
            id = id + 1;
            n = n + 1;
        }
        let plan = CampPlan { camp_id: campid, grade: camp_grade, decorations, enemies };
        proof {
            let s = special_enemy_index as int;
            assert(only_special(plan.enemies@, s));
            assert(camp_plan_ok(plan, k as int));
            assert(camp_plan_drawn(plan, seed, w0));
        }
        plans.push(plan);
        campid = campid + 1;
        k = k + 1;
        assert(forall|j: int| 0 <= j < k - 1 ==> plans@[j] == plans@.drop_last()[j]);
    }
    plans
}

/// Two plannings from one seed agree camp by camp: the same ids, grades,
/// decorations and enemies. This is what lets the host and every client,
/// which plan from the seed the host sends, spawn the same camps.
pub proof fn law_camp_plans_fixed_by_seed(seed: u64, num_camps: nat, a: Seq<CampPlan>, b: Seq<CampPlan>)
    requires
        a.len() == num_camps,
        b.len() == num_camps,
        forall|k: int| 0 <= k < num_camps ==> camp_plan_ok(#[trigger] a[k], k),
        forall|k: int| 0 <= k < num_camps ==> camp_plan_ok(#[trigger] b[k], k),
        forall|k: int|
            0 <= k < num_camps ==> camp_plan_drawn(#[trigger] a[k], seed, camp_word(seed, k as nat)),
        forall|k: int|
            0 <= k < num_camps ==> camp_plan_drawn(#[trigger] b[k], seed, camp_word(seed, k as nat)),
    ensures
        forall|k: int|
            0 <= k < num_camps ==> (#[trigger] a[k]).camp_id == b[k].camp_id && a[k].grade
                == b[k].grade && a[k].decorations@ == b[k].decorations@ && a[k].enemies@
                == b[k].enemies@,
{
    assert forall|k: int| 0 <= k < num_camps implies (#[trigger] a[k]).camp_id == b[k].camp_id
        && a[k].grade == b[k].grade && a[k].decorations@ == b[k].decorations@ && a[k].enemies@
        == b[k].enemies@ by {
        let (x, y) = (a[k], b[k]);
        assert(camp_plan_ok(x, k) && camp_plan_ok(y, k));
        assert(camp_plan_drawn(x, seed, camp_word(seed, k as nat)));
        assert(camp_plan_drawn(y, seed, camp_word(seed, k as nat)));
        assert forall|n: int| 0 <= n < 3 implies #[trigger] x.decorations@[n] == y.decorations@[n] by {}
        assert(x.decorations@ =~= y.decorations@);
        assert forall|n: int| 0 <= n < CAMP_ENEMIES implies #[trigger] x.enemies@[n] == y.enemies@[n] by {
            let (ex, ey) = (x.enemies@[n], y.enemies@[n]);
            assert(ex.id == ey.id && ex.camp_id == ey.camp_id && ex.offset == ey.offset);
            assert(ex.power_up == ey.power_up && ex.is_special == ey.is_special);
            assert(ex.chance_drop_powerup == ey.chance_drop_powerup);
        }
        assert(x.enemies@ =~= y.enemies@);
    }
}

/// Whether a camp is still active (true until all of its enemies are dead).
#[derive(Clone, Copy, PartialEq, Eq, Structural, Debug)]
pub struct CampStatus(pub bool);

/// How many enemies a camp started with and how many are left.
#[derive(Clone, Copy, PartialEq, Eq, Structural, Debug)]
pub struct CampEnemies {
    pub max_enemies: u8,
    pub current_enemies: u8,
}

/// Marks an active camp cleared once no enemy of it is left.
pub fn handle_camp_clear(enemies_in_camp: &CampEnemies, camp_status: &mut CampStatus)
    ensures
        final(camp_status).0 == (old(camp_status).0 && enemies_in_camp.current_enemies != 0),
{
    if camp_status.0 {
        if enemies_in_camp.current_enemies == 0 {
            camp_status.0 = false;
        }
    }
}

} // verus!
