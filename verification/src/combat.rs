//! Enemy bookkeeping: health at spawn, what an enemy carries and drops,
//! aggro, regeneration, and the score a kill or a cleared camp gives.

use vstd::prelude::*;
use crate::buffers::{CircularBuffer, slot};
use crate::camp::{CampEnemies, CampStatus};
use crate::components::{Health, NUM_POWERUPS, PowerUpType, Stats, StoredPowerUps};
use crate::packets::{EnemyTickEvent, WireVec2};

verus! {

/// Health of an ordinary enemy.
pub const ENEMY_MAX_HP: u8 = 100;
/// Health of a special enemy (half as much again as an ordinary one).
pub const SPECIAL_ENEMY_MAX_HP: u8 = 150;
/// Health an idle enemy at home regains per second.
pub const ENEMY_REGEN: u8 = 10;
/// Damage of an enemy's area attack before damage reduction.
pub const CIRCLE_DAMAGE: u8 = 15;
/// Points for a killed enemy.
pub const KILL_POINTS: u8 = 1;
/// Points for a cleared camp.
pub const CAMP_POINTS: u8 = 5;

/// Health an enemy spawns with.
pub fn enemy_max_hp(is_special: bool) -> (r: u8)
    ensures
        r == (if is_special {
            SPECIAL_ENEMY_MAX_HP
        } else {
            ENEMY_MAX_HP
        }),
{
    if is_special {
        SPECIAL_ENEMY_MAX_HP
    } else {
        ENEMY_MAX_HP
    }
}

/// What an enemy carries: one power-up of kind `t` and nothing else.
pub fn enemy_powerups(t: PowerUpType) -> (r: StoredPowerUps)
    ensures
        forall|k: int| 0 <= k < NUM_POWERUPS ==> #[trigger] r.power_ups@[k] == (if k == t.code_of() {
            1u8
        } else {
            0u8
        }),
{
    let mut pu = [0u8; NUM_POWERUPS];
    let i = t.to_u8() as usize;
    pu[i] = 1;
    StoredPowerUps { power_ups: pu }
}

/// The power-ups a dead enemy leaves, in kind order: those it holds exactly
/// one of, when it was chosen to drop any; none otherwise.
pub open spec fn drops(spu: Seq<u8>, chance_drop: bool) -> Seq<PowerUpType>
    decreases spu.len(),
{
    if !chance_drop || spu.len() == 0 {
        Seq::empty()
    } else {
        let rest = drops(spu.drop_last(), chance_drop);
        if spu.last() == 1 {
            rest.push(PowerUpType::of_code((spu.len() - 1) as u8))
        } else {
            rest
        }
    }
}

/// The power-ups a dead enemy leaves on the ground.
pub fn dropped_powerups(spu: &StoredPowerUps, chance_drop: bool) -> (r: Vec<PowerUpType>)
    ensures
        r@ == drops(spu.power_ups@, chance_drop),
{
    let mut r: Vec<PowerUpType> = Vec::new();
    if !chance_drop {
        return r;
    }
    let mut k: usize = 0;
    while k < NUM_POWERUPS
        invariant
            k <= NUM_POWERUPS,
            chance_drop,
            spu.power_ups@.len() == NUM_POWERUPS,
            r@ == drops(spu.power_ups@.take(k as int), chance_drop),
        decreases NUM_POWERUPS - k,
    {
        assert(spu.power_ups@.take(k + 1).drop_last() =~= spu.power_ups@.take(k as int));
        if spu.power_ups[k] == 1 {
            let t = PowerUpType::from_u8(k as u8);
            match t {
                Some(t) => r.push(t),
                None => {},
            }
        }
        k = k + 1;
    }
    assert(spu.power_ups@.take(NUM_POWERUPS as int) =~= spu.power_ups@);
    r
}

/// The aggro target of an enemy after a tick: none when no living player is
/// within range, otherwise the one it already has, or else the closest
/// player. `closest` is the closest living player and `in_range` whether it
/// is within aggro range. The flag is set when the enemy has just noticed
/// a player.
pub fn next_aggro(current: Option<u8>, closest: Option<u8>, in_range: bool) -> (r: (Option<u8>, bool))
    ensures
        closest is None || !in_range ==> r == (None::<u8>, false),
        closest is Some && in_range && current is None ==> r == (closest, true),
        closest is Some && in_range && current is Some ==> r == (current, false),
{
    match closest {
        None => (None, false),
        Some(p) => {
            if !in_range {
                (None, false)
            } else if current.is_none() {
                (Some(p), true)
            } else {
                (current, false)
            }
        },
    }
}

/// One second of regeneration of an idle enemy at home: below its maximum
/// it gains `ENEMY_REGEN`.
pub fn regen(hp: &mut Health)
    requires
        old(hp).current < old(hp).max ==> old(hp).current + ENEMY_REGEN <= 255,
    ensures
        *final(hp) == (if old(hp).current < old(hp).max {
            Health { current: (old(hp).current + ENEMY_REGEN) as u8, ..*old(hp) }
        } else {
            *old(hp)
        }),
{
    if hp.current < hp.max {
        hp.current = hp.current + ENEMY_REGEN;
    }
}

/// Stores the position of an enemy received from the host at the tick of
/// the record.
pub fn apply_enemy_tick(pos: &mut CircularBuffer<Option<WireVec2>>, ev: &EnemyTickEvent)
    ensures
        final(pos)@.0 == old(pos)@.0.update(slot(ev.seq_num), Some(ev.tick.pos)),
        final(pos)@.1 == old(pos)@.1,
{
    pos.set(ev.seq_num, Some(ev.tick.pos));
}

/// A camp as the host tracks it: its number, its enemies, and whether it
/// is still active.
#[derive(Clone, Copy, PartialEq, Eq, Structural, Debug)]
pub struct CampState {
    pub camp: u8,
    pub enemies: CampEnemies,
    pub status: CampStatus,
}

/// A camp after one of the enemies of camp `camp` died.
pub open spec fn after_death(c: CampState, camp: u8) -> CampState {
    if c.camp == camp {
        CampState {
            enemies: CampEnemies {
                current_enemies: (c.enemies.current_enemies - 1) as u8,
                ..c.enemies
            },
            ..c
        }
    } else {
        c
    }
}

/// The camp is empty and still active: its clearing is rewarded.
pub open spec fn rewards_clear(c: CampState) -> bool {
    c.enemies.current_enemies == 0 && c.status.0
}

/// Number of camps in `s` whose clearing is rewarded.
pub open spec fn count_rewarded(s: Seq<CampState>) -> nat
    decreases s.len(),
{
    if s.len() == 0 {
        0
    } else {
        count_rewarded(s.drop_last()) + if rewards_clear(s.last()) {
            1nat
        } else {
            0nat
        }
    }
}

proof fn lemma_count_rewarded_bound(s: Seq<CampState>)
    ensures
        count_rewarded(s) <= s.len(),
    decreases s.len(),
{
    if s.len() > 0 {
        lemma_count_rewarded_bound(s.drop_last());
    }
}

/// An enemy of camp `camp` died: each camp of that number has one enemy
/// less. The result is the number of camps, of all of them, that are empty
/// and still active afterwards: the killer is rewarded once for each.
pub fn enemy_killed(camps: &mut Vec<CampState>, camp: u8) -> (cleared: usize)
    requires
        forall|k: int|
            0 <= k < old(camps)@.len() && (#[trigger] old(camps)@[k]).camp == camp ==> old(
                camps,
            )@[k].enemies.current_enemies > 0,
    ensures
        final(camps)@ == old(camps)@.map_values(|c: CampState| after_death(c, camp)),
        cleared == count_rewarded(final(camps)@),
{
    let ghost s0 = camps@;
    let mut k: usize = 0;
    let mut cleared: usize = 0;
    while k < camps.len()
        invariant
            k <= camps@.len(),
            camps@.len() == s0.len(),
            s0 == old(camps)@,
            forall|j: int|
                0 <= j < s0.len() && (#[trigger] s0[j]).camp == camp ==> s0[j].enemies.current_enemies
                    > 0,
            forall|j: int| 0 <= j < k ==> #[trigger] camps@[j] == after_death(s0[j], camp),
            forall|j: int| k <= j < s0.len() ==> #[trigger] camps@[j] == s0[j],
            cleared == count_rewarded(camps@.take(k as int)),
        decreases s0.len() - k,
    {
        let mut c = camps[k];
        if c.camp == camp {
            c.enemies.current_enemies = c.enemies.current_enemies - 1;
        }
        let ghost before = camps@;
        camps.set(k, c);
        proof {
            assert(camps@.take(k as int) =~= before.take(k as int));
            let t = camps@.take(k + 1);
            assert(t.drop_last() =~= camps@.take(k as int));
            assert(t.last() == c);
            assert(count_rewarded(t) == count_rewarded(camps@.take(k as int)) + if rewards_clear(c) {
                1nat
            } else {
                0nat
            });
            lemma_count_rewarded_bound(camps@.take(k as int));
            assert(camps@.take(k as int).len() == k);
        }
        if c.enemies.current_enemies == 0 && c.status.0 {
            cleared = cleared + 1;
        }
        k = k + 1;
    }
    assert(camps@.take(k as int) =~= camps@);
    assert(camps@ =~= s0.map_values(|c: CampState| after_death(c, camp)));
    cleared
}

/// The killer of an enemy gains a point and a kill.
pub fn award_enemy_kill(stats: &mut Stats)
    requires
        old(stats).score + KILL_POINTS <= 255,
        old(stats).enemies_killed + 1 <= 255,
    ensures
        *final(stats) == (Stats {
            score: (old(stats).score + KILL_POINTS) as u8,
            enemies_killed: (old(stats).enemies_killed + 1) as u8,
            ..*old(stats)
        }),
{
    stats.score = stats.score + KILL_POINTS;
    stats.enemies_killed = stats.enemies_killed + 1;
}

/// The player who cleared `cleared` camps gains `CAMP_POINTS` and a
/// captured camp for each.
pub fn award_camp_clears(stats: &mut Stats, cleared: usize)
    requires
        old(stats).score + CAMP_POINTS * cleared <= 255,
        old(stats).camps_captured + cleared <= 255,
    ensures
        *final(stats) == (Stats {
            score: (old(stats).score + CAMP_POINTS * cleared) as u8,
            camps_captured: (old(stats).camps_captured + cleared) as u8,
            ..*old(stats)
        }),
{
    let mut k: usize = 0;
    while k < cleared
        invariant
            k <= cleared,
            old(stats).score + CAMP_POINTS * cleared <= 255,
            old(stats).camps_captured + cleared <= 255,
            *stats == (Stats {
                score: (old(stats).score + CAMP_POINTS * k) as u8,
                camps_captured: (old(stats).camps_captured + k) as u8,
                ..*old(stats)
            }),
        decreases cleared - k,
    {
        assert(CAMP_POINTS * (k + 1) <= CAMP_POINTS * cleared) by (nonlinear_arith)
            requires
                k < cleared,
        ;
        stats.score = stats.score + CAMP_POINTS;
        stats.camps_captured = stats.camps_captured + 1;
        k = k + 1;
    }
}

} // verus!
