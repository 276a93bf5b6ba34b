//! Player rules: attacks, damage, spawning, life and death, and how the
//! per-tick buffers of a player are filled from the network.

use vstd::prelude::*;
use crate::buffers::{CircularBuffer, slot};
use crate::components::{DAMAGE_DEALT_UP, Health, Stats};
use crate::net::DELAY;
use crate::packets::{PlayerTickEvent, UserCmdEvent, WireVec2};

verus! {

/// Health of a player that has just spawned.
pub const PLAYER_DEFAULT_HP: u8 = 100;
/// Damage of a sword hit without power-ups.
pub const SWORD_DAMAGE: u8 = 40;
/// Event bit: the player attacks on this tick.
pub const ATTACK_BITFLAG: u8 = 1;
/// Event bit: the player spawns on this tick.
pub const SPAWN_BITFLAG: u8 = 2;

/// Sets the player id of this client once the host has answered.
#[derive(Clone, Copy, PartialEq, Eq, Structural, Debug)]
pub struct SetIdEvent(pub u8);

/// Player `id` attacks on tick `seq_num`.
#[derive(Clone, Copy, PartialEq, Eq, Structural, Debug)]
pub struct AttackEvent {
    pub seq_num: u16,
    pub id: u8,
}

/// Player `id` spawns.
#[derive(Clone, Copy, PartialEq, Eq, Structural, Debug)]
pub struct SpawnEvent {
    pub id: u8,
}

/// The events of a tick with the attack bit added; a tick with no events
/// yet gets the attack bit alone.
pub open spec fn with_attack(events: Option<u8>) -> u8 {
    match events {
        None => ATTACK_BITFLAG,
        Some(e) => e | ATTACK_BITFLAG,
    }
}

/// Whether the events of a tick hold the bit `flag`.
pub open spec fn has_flag(events: u8, flag: u8) -> bool {
    events & flag != 0
}

/// The events of a tick with the attack bit added.
pub fn with_attack_flag(events: Option<u8>) -> (r: u8)
    ensures
        r == with_attack(events),
        has_flag(r, ATTACK_BITFLAG),
{
    match events {
        None => {
            assert(1u8 & 1u8 != 0) by (bit_vector);
            ATTACK_BITFLAG
        },
        Some(e) => {
            let r = e | ATTACK_BITFLAG;
            assert(r & 1 != 0) by (bit_vector)
                requires
                    r == e | 1u8,
            ;
            r
        },
    }
}

/// Records an attack of the local player on tick `tick` in its event ring.
pub fn mark_attack(events: &mut CircularBuffer<Option<u8>>, tick: u16)
    ensures
        final(events)@.0 == old(events)@.0.update(slot(tick), Some(with_attack(old(events).read(tick)))),
        final(events)@.1 == old(events)@.1,
{
    let current = *events.get(tick);
    let marked = with_attack_flag(current);
    events.set(tick, Some(marked));
}

/// The attack event of the host's own player (id 0) on tick `tick`, when its
/// events for that tick hold the attack bit.
pub fn host_attack(events: &CircularBuffer<Option<u8>>, tick: u16) -> (r: Option<AttackEvent>)
    ensures
        r == (match events.read(tick) {
            Some(e) => if has_flag(e, ATTACK_BITFLAG) {
                Some(AttackEvent { seq_num: tick, id: 0 })
            } else {
                None
            },
            None => None,
        }),
{
    match *events.get(tick) {
        Some(e) => {
            if e & ATTACK_BITFLAG != 0 {
                Some(AttackEvent { seq_num: tick, id: 0 })
            } else {
                None
            }
        },
        None => None,
    }
}

/// The tick whose attack is drawn for a player: the present one for the
/// local player, `DELAY` ticks back (at least 0) for the others.
pub fn draw_tick(is_local: bool, tick: u16) -> (r: u16)
    ensures
        is_local ==> r == tick,
        !is_local ==> r == (if tick >= DELAY {
            (tick - DELAY) as u16
        } else {
            0
        }),
{
    if is_local {
        tick
    } else {
        tick.saturating_sub(DELAY)
    }
}

/// Whether a tick's events (if any) hold the attack bit.
pub fn is_attacking(events: Option<u8>) -> (r: bool)
    ensures
        r == (match events {
            Some(e) => has_flag(e, ATTACK_BITFLAG),
            None => false,
        }),
{
    match events {
        Some(e) => e & ATTACK_BITFLAG != 0,
        None => false,
    }
}

/// A value capped at 255.
pub open spec fn cap_u8(v: int) -> u8 {
    if v > 255 {
        255
    } else {
        v as u8
    }
}

/// Sword damage with `stacks` damage-up power-ups: each adds
/// `DAMAGE_DEALT_UP`, and the total stops at 255.
pub fn sword_damage(stacks: u8) -> (r: u8)
    ensures
        r == cap_u8(SWORD_DAMAGE + cap_u8(stacks * DAMAGE_DEALT_UP)),
{
    assert(stacks as u16 * DAMAGE_DEALT_UP as u16 <= 2550) by (nonlinear_arith)
        requires
            stacks <= 255,
            DAMAGE_DEALT_UP == 10,
    ;
    let product: u16 = stacks as u16 * DAMAGE_DEALT_UP as u16;
    let bonus: u8 = if product > 255 {
        255
    } else {
        product as u8
    };
    SWORD_DAMAGE.saturating_add(bonus)
}

/// Health after a hit of `damage`, never below 0.
pub fn after_hit(hp: u8, damage: u8) -> (r: u8)
    ensures
        r == (if hp >= damage {
            (hp - damage) as u8
        } else {
            0
        }),
{
    hp.saturating_sub(damage)
}

/// An enemy hit by a sword on tick `tick`: the health it has on that tick
/// drops by `damage`, never below 0.
pub fn strike(hp: &mut CircularBuffer<Option<u8>>, tick: u16, damage: u8)
    requires
        old(hp).read(tick) is Some,
    ensures
        final(hp)@.0 == old(hp)@.0.update(
            slot(tick),
            Some(
                (if old(hp).read(tick)->0 >= damage {
                    (old(hp).read(tick)->0 - damage) as u8
                } else {
                    0
                }),
            ),
        ),
        final(hp)@.1 == old(hp)@.1,
{
    let current = *hp.get(tick);
    match current {
        Some(h) => {
            let left = after_hit(h, damage);
            hp.set(tick, Some(left));
        },
        None => {},
    }
}

/// A chest hit by a sword is emptied; `true` when it was not empty yet.
pub fn break_chest(chest: &mut Health) -> (r: bool)
    ensures
        r == (old(chest).current != 0),
        final(chest).current == 0,
        final(chest).max == old(chest).max,
        final(chest).dead == old(chest).dead,
{
    if chest.current != 0 {
        chest.current = 0;
        true
    } else {
        false
    }
}

/// A player spawning on tick `tick` has full health on that tick.
pub fn respawn(hp: &mut CircularBuffer<Option<u8>>, tick: u16)
    ensures
        final(hp)@.0 == old(hp)@.0.update(slot(tick), Some(PLAYER_DEFAULT_HP)),
        final(hp)@.1 == old(hp)@.1,
{
    hp.set(tick, Some(PLAYER_DEFAULT_HP));
}

/// What a tick of health bookkeeping did to a player.
#[derive(Clone, Copy, PartialEq, Eq, Structural, Debug)]
pub enum LifeEvent {
    Unchanged,
    Spawned,
    Died,
}

/// The health, statistics and life event after applying the health a
/// player has on this tick (if the ring holds one): a dead player with
/// health comes back, a living player at 0 dies and counts one more death
/// (at most 255).
pub open spec fn life_step(hp: Health, stats: Stats, next_hp: Option<u8>) -> (Health, Stats, LifeEvent) {
    match next_hp {
        None => (hp, stats, LifeEvent::Unchanged),
        Some(h) => {
            let hp1 = Health { current: h, max: PLAYER_DEFAULT_HP, ..hp };
            if h > 0 && hp.dead {
                (Health { dead: false, ..hp1 }, stats, LifeEvent::Spawned)
            } else if h == 0 && !hp.dead {
                (
                    Health { dead: true, ..hp1 },
                    Stats { deaths: cap_u8(stats.deaths + 1), ..stats },
                    LifeEvent::Died,
                )
            } else {
                (hp1, stats, LifeEvent::Unchanged)
            }
        },
    }
}

/// Applies the health a player has on this tick (see `life_step`).
pub fn health_step(hp: &mut Health, stats: &mut Stats, next_hp: Option<u8>) -> (r: LifeEvent)
    ensures
        (*final(hp), *final(stats), r) == life_step(*old(hp), *old(stats), next_hp),
{
    match next_hp {
        None => LifeEvent::Unchanged,
        Some(h) => {
            hp.current = h;
            hp.max = PLAYER_DEFAULT_HP;
            if hp.current > 0 && hp.dead {
                hp.dead = false;
                LifeEvent::Spawned
            } else if hp.current == 0 && !hp.dead {
                hp.dead = true;
                stats.deaths = stats.deaths.saturating_add(1);
                LifeEvent::Died
            } else {
                LifeEvent::Unchanged
            }
        },
    }
}

/// A tick that carries health `h` sets the player's health to `h` (with the
/// default maximum), whatever the player's state: the player is dead after
/// it exactly when `h` is 0; it dies on this tick exactly when it was alive
/// and `h` is 0, and only then counts one more death (at most 255); it comes
/// back exactly when it was dead and `h` is above 0. A tick without health
/// changes nothing.
pub proof fn law_health_follows_the_ring(hp: Health, stats: Stats, next_hp: Option<u8>)
    ensures
        ({
            let (hp1, st1, e) = life_step(hp, stats, next_hp);
            match next_hp {
                None => hp1 == hp && st1 == stats && e == LifeEvent::Unchanged,
                Some(h) => {
                    &&& hp1.current == h
                    &&& hp1.max == PLAYER_DEFAULT_HP
                    &&& hp1.dead == (h == 0)
                    &&& (e == LifeEvent::Died) == (h == 0 && !hp.dead)
                    &&& (e == LifeEvent::Spawned) == (h > 0 && hp.dead)
                    &&& st1.deaths == (if e == LifeEvent::Died {
                        if stats.deaths == 255 { 255 } else { stats.deaths + 1 }
                    } else {
                        stats.deaths as int
                    })
                    &&& st1.score == stats.score && st1.enemies_killed == stats.enemies_killed
                    &&& st1.players_killed == stats.players_killed
                    &&& st1.camps_captured == stats.camps_captured
                    &&& st1.kd_ratio == stats.kd_ratio
                },
            }
        }),
{
}

/// A player at 0 health dies once: the first tick at 0 counts a death, the
/// following ones at 0 change nothing; a later tick with health brings the
/// player back without touching the statistics.
pub proof fn law_death_counted_once(hp: Health, stats: Stats, back: u8)
    requires
        !hp.dead,
        back > 0,
    ensures
        ({
            let (hp1, st1, e1) = life_step(hp, stats, Some(0));
            let (hp2, st2, e2) = life_step(hp1, st1, Some(0));
            let (hp3, st3, e3) = life_step(hp2, st2, Some(back));
            &&& e1 == LifeEvent::Died && hp1.dead && st1.deaths == cap_u8(stats.deaths + 1)
            &&& e2 == LifeEvent::Unchanged && hp2.dead && st2 == st1
            &&& e3 == LifeEvent::Spawned && !hp3.dead && hp3.current == back && st3 == st1
        }),
{
}

/// Fills a player's rings from a host tick received on local tick `tick`:
/// position, facing and events go to the tick of the record, health to the
/// local tick.
pub fn apply_player_tick(
    pos: &mut CircularBuffer<Option<WireVec2>>,
    hp: &mut CircularBuffer<Option<u8>>,
    dir: &mut CircularBuffer<Option<u32>>,
    events: &mut CircularBuffer<Option<u8>>,
    tick: u16,
    ev: &PlayerTickEvent,
)
    ensures
        final(pos)@.0 == old(pos)@.0.update(slot(ev.seq_num), Some(ev.tick.pos)),
        final(pos)@.1 == old(pos)@.1,
        final(hp)@.0 == old(hp)@.0.update(slot(tick), Some(ev.tick.hp)),
        final(hp)@.1 == old(hp)@.1,
        final(dir)@.0 == old(dir)@.0.update(slot(ev.seq_num), Some(ev.tick.dir)),
        final(dir)@.1 == old(dir)@.1,
        final(events)@.0 == old(events)@.0.update(slot(ev.seq_num), Some(ev.tick.events)),
        final(events)@.1 == old(events)@.1,
{
    pos.set(ev.seq_num, Some(ev.tick.pos));
    hp.set(tick, Some(ev.tick.hp));
    dir.set(ev.seq_num, Some(ev.tick.dir));
    events.set(ev.seq_num, Some(ev.tick.events));
}

/// What the host makes of a client's input: the position is stored unless a
/// newer one is already there, facing and events are stored, and the event
/// bits become an attack and a spawn event.
pub fn apply_usercmd(
    pos: &mut CircularBuffer<Option<WireVec2>>,
    dir: &mut CircularBuffer<Option<u32>>,
    events: &mut CircularBuffer<Option<u8>>,
    ev: &UserCmdEvent,
) -> (r: (Option<AttackEvent>, Option<SpawnEvent>))
    ensures
        ev.seq_num > old(pos).stamp(ev.seq_num) ==> final(pos)@ == (
            old(pos)@.0.update(slot(ev.seq_num), Some(ev.tick.pos)),
            old(pos)@.1.update(slot(ev.seq_num), ev.seq_num),
        ),
        ev.seq_num <= old(pos).stamp(ev.seq_num) ==> final(pos)@ == old(pos)@,
        final(dir)@.0 == old(dir)@.0.update(slot(ev.seq_num), Some(ev.tick.dir)),
        final(dir)@.1 == old(dir)@.1,
        final(events)@.0 == old(events)@.0.update(slot(ev.seq_num), Some(ev.tick.events)),
        final(events)@.1 == old(events)@.1,
        r.0 == (if has_flag(ev.tick.events, ATTACK_BITFLAG) {
            Some(AttackEvent { seq_num: ev.seq_num, id: ev.id })
        } else {
            None
        }),
        r.1 == (if has_flag(ev.tick.events, SPAWN_BITFLAG) {
            Some(SpawnEvent { id: ev.id })
        } else {
            None
        }),
{
    pos.set_with_time(ev.seq_num, Some(ev.tick.pos), ev.seq_num);
    dir.set(ev.seq_num, Some(ev.tick.dir));
    events.set(ev.seq_num, Some(ev.tick.events));
    let attack = if ev.tick.events & ATTACK_BITFLAG != 0 {
        Some(AttackEvent { seq_num: ev.seq_num, id: ev.id })
    } else {
        None
    };
    let spawn = if ev.tick.events & SPAWN_BITFLAG != 0 {
        Some(SpawnEvent { id: ev.id })
    } else {
        None
    };
    (attack, spawn)
}

/// Whether the local player is dead; `false` when there is no local player.
pub fn local_player_dead(health: Option<Health>) -> (r: bool)
    ensures
        r == (match health {
            Some(h) => h.dead,
            None => false,
        }),
{
    match health {
        Some(h) => h.dead,
        None => false,
    }
}

/// Frames an attack lasts.
pub const ATTACK_LEN: isize = 30;
/// Frames of cool-down after an attack.
pub const ATTACK_COOLDOWN: isize = 30;

/// The attack frame after `frame`: -1 means ready, below -1 cooling down,
/// 0 and up attacking. A ready player who attacks starts at 0, and stays
/// ready without an attack; past the last attack frame the cool-down
/// starts; otherwise the frame advances by one.
pub open spec fn next_frame(frame: int, attack: bool) -> int {
    if frame == -1 {
        if attack {
            0
        } else {
            -1
        }
    } else if frame > ATTACK_LEN {
        -ATTACK_COOLDOWN
    } else {
        frame + 1
    }
}

/// The next attack frame (see `next_frame`).
pub fn next_attack_frame(atk_frame: isize, attack: bool) -> (r: isize)
    ensures
        r == next_frame(atk_frame as int, attack),
{
    if atk_frame == -1 {
        if attack {
            0
        } else {
            -1
        }
    } else if atk_frame > ATTACK_LEN {
        -ATTACK_COOLDOWN
    } else {
        atk_frame + 1
    }
}

/// Every frame of an attack and of a cool-down other than the ready frame
/// -1 and the frame past the last attack frame steps by exactly one; the
/// frame past the last attack frame starts the cool-down; a ready player
/// starts an attack at frame 0 exactly when it attacks.
pub proof fn law_attack_frame_steps(frame: int, attack: bool)
    ensures
        -ATTACK_COOLDOWN <= frame <= ATTACK_LEN && frame != -1 ==> next_frame(frame, attack) == frame
            + 1,
        frame == ATTACK_LEN + 1 ==> next_frame(frame, attack) == -ATTACK_COOLDOWN,
        frame == -1 ==> next_frame(frame, attack) == (if attack {
            0int
        } else {
            -1int
        }),
{
}

/// The frame after `n` frames without attack input, from `frame`.
pub open spec fn frames_later(frame: int, n: nat) -> int
    decreases n,
{
    if n == 0 {
        frame
    } else {
        next_frame(frames_later(frame, (n - 1) as nat), false)
    }
}

/// An attack, once started, runs through frames 0 to `ATTACK_LEN + 1`, one
/// per tick, and the cool-down starts `ATTACK_LEN + 2` frames after the
/// start; the player is ready again `ATTACK_COOLDOWN - 1` frames later, and
/// stays ready while it does not attack.
pub proof fn law_attack_cycle(k: nat, m: nat)
    ensures
        k <= ATTACK_LEN + 1 ==> frames_later(0, k) == k,
        frames_later(0, (ATTACK_LEN + 2) as nat) == -ATTACK_COOLDOWN,
        m < ATTACK_COOLDOWN ==> frames_later(-ATTACK_COOLDOWN, m) == -ATTACK_COOLDOWN + m,
        frames_later(-1, m) == -1,
{
    if k <= ATTACK_LEN + 1 {
        lemma_frames_from_start(k);
    }
    lemma_frames_from_start((ATTACK_LEN + 1) as nat);
    if m < ATTACK_COOLDOWN {
        lemma_frames_cooling(m);
    }
    lemma_frames_ready(m);
}

proof fn lemma_frames_from_start(k: nat)
    requires
        k <= ATTACK_LEN + 1,
    ensures
        frames_later(0, k) == k,
    decreases k,
{
    if k > 0 {
        lemma_frames_from_start((k - 1) as nat);
    }
}

proof fn lemma_frames_cooling(m: nat)
    requires
        m < ATTACK_COOLDOWN,
    ensures
        frames_later(-ATTACK_COOLDOWN, m) == -ATTACK_COOLDOWN + m,
    decreases m,
{
    if m > 0 {
        lemma_frames_cooling((m - 1) as nat);
    }
}

proof fn lemma_frames_ready(m: nat)
    ensures
        frames_later(-1, m) == -1,
    decreases m,
{
    if m > 0 {
        lemma_frames_ready((m - 1) as nat);
    }
}

/// Frames stay between the end of the cool-down and one past the last
/// attack frame: a frame in that range steps to a frame in that range, and
/// a ready player without an attack stays ready.
pub proof fn law_attack_frame_stays_in_range(frame: int, attack: bool)
    requires
        -ATTACK_COOLDOWN <= frame <= ATTACK_LEN + 1,
    ensures
        -ATTACK_COOLDOWN <= next_frame(frame, attack) <= ATTACK_LEN + 1,
        frame == -1 && !attack ==> next_frame(frame, attack) == -1,
{
}

} // verus!
