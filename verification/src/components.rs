//! Data shared by the gameplay modules: health, power-ups, score statistics.

use vstd::prelude::*;

verus! {

/// Number of kinds of power-up.
pub const NUM_POWERUPS: usize = 5;
/// Extra sword damage granted by each stack of `DamageDealtUp`.
pub const DAMAGE_DEALT_UP: u8 = 10;
/// Health restored by eating a piece of meat.
pub const MEAT_VALUE: u8 = 30;
/// Extra movement speed granted by each stack of `MovementSpeedUp`.
pub const MOVEMENT_SPEED_UP: u8 = 15;
/// Number of items a chest holds.
pub const CHEST_CONTENTS: usize = 5;

/// Current and maximum hit points of a player, an enemy or a chest.
#[derive(Clone, Copy, PartialEq, Eq, Structural, Debug)]
pub struct Health {
    pub current: u8,
    pub max: u8,
    pub dead: bool,
}

/// The kinds of power-up, numbered 0 to 4 in this order on the wire.
#[derive(Debug, Copy, Clone, Eq, PartialEq, Structural, Hash)]
pub enum PowerUpType {
    Meat,
    DamageDealtUp,
    DamageReductionUp,
    AttackSpeedUp,
    MovementSpeedUp,
}

impl PowerUpType {
    /// The number of a power-up kind.
    pub open spec fn code_of(self) -> u8 {
        match self {
            PowerUpType::Meat => 0,
            PowerUpType::DamageDealtUp => 1,
            PowerUpType::DamageReductionUp => 2,
            PowerUpType::AttackSpeedUp => 3,
            PowerUpType::MovementSpeedUp => 4,
        }
    }

    /// The power-up kind with number `c`, for `c` at most 4.
    pub open spec fn of_code(c: u8) -> PowerUpType {
        if c == 0 {
            PowerUpType::Meat
        } else if c == 1 {
            PowerUpType::DamageDealtUp
        } else if c == 2 {
            PowerUpType::DamageReductionUp
        } else if c == 3 {
            PowerUpType::AttackSpeedUp
        } else {
            PowerUpType::MovementSpeedUp
        }
    }

    /// The number of this kind (its index in `StoredPowerUps::power_ups`).
    pub fn to_u8(&self) -> (r: u8)
        ensures
            r == self.code_of(),
            r < NUM_POWERUPS,
    {
        match self {
            PowerUpType::Meat => 0,
            PowerUpType::DamageDealtUp => 1,
            PowerUpType::DamageReductionUp => 2,
            PowerUpType::AttackSpeedUp => 3,
            PowerUpType::MovementSpeedUp => 4,
        }
    }

    /// The kind with number `c`; `None` when `c` is not a kind's number.
    pub fn from_u8(c: u8) -> (r: Option<PowerUpType>)
        ensures
            c < NUM_POWERUPS ==> r == Some(PowerUpType::of_code(c)),
            c >= NUM_POWERUPS ==> r is None,
    {
        if c == 0 {
            Some(PowerUpType::Meat)
        } else if c == 1 {
            Some(PowerUpType::DamageDealtUp)
        } else if c == 2 {
            Some(PowerUpType::DamageReductionUp)
        } else if c == 3 {
            Some(PowerUpType::AttackSpeedUp)
        } else if c == 4 {
            Some(PowerUpType::MovementSpeedUp)
        } else {
            None
        }
    }
}

/// Decoding the number of a kind gives the kind back.
pub proof fn law_powerup_code_roundtrip(t: PowerUpType)
    ensures
        PowerUpType::of_code(t.code_of()) == t,
        t.code_of() < NUM_POWERUPS,
{
}

/// Stacks of each power-up that an entity holds, indexed by kind number.
#[derive(Clone, Copy, PartialEq, Eq, Debug)]
pub struct StoredPowerUps {
    pub power_ups: [u8; NUM_POWERUPS],
}

/// The score board line of a player. `kd_ratio` holds the IEEE-754 bit
/// pattern of the kill/death ratio, which this library only carries.
#[derive(Clone, Copy, PartialEq, Eq, Structural, Debug)]
pub struct Stats {
    pub score: u8,
    pub enemies_killed: u8,
    pub players_killed: u8,
    pub camps_captured: u8,
    pub deaths: u8,
    pub kd_ratio: u32,
}

/// Columns of the entity sprite sheet.
pub const SHEET_COLUMNS: i32 = 4;
/// Number of cells of the entity sprite sheet (six rows of four).
pub const SHEET_CELLS: i32 = 24;

/// The sprite-sheet cell at column `x` of row `y`, counted row by row; a
/// cell outside the sheet falls back to the last one.
pub fn coord_to_index(x: i32, y: i32) -> (r: usize)
    requires
        -0x10_0000 < x < 0x10_0000,
        -0x10_0000 < y < 0x10_0000,
    ensures
        ({
            let i = y * SHEET_COLUMNS + x;
            r == if 0 <= i < SHEET_CELLS {
                i
            } else {
                SHEET_CELLS - 1
            }
        }),
{
    let index: i32 = y * SHEET_COLUMNS + x;
    if index < 0 || index > SHEET_CELLS - 1 {
        (SHEET_CELLS - 1) as usize
    } else {
        index as usize
    }
}

/// The index into the table of movement directions: one bit for each
/// direction key held (up 1, down 2, left 4, right 8).
pub fn move_index(up: bool, down: bool, left: bool, right: bool) -> (r: usize)
    ensures
        r == (if up {
            1int
        } else {
            0
        }) + (if down {
            2int
        } else {
            0
        }) + (if left {
            4int
        } else {
            0
        }) + (if right {
            8int
        } else {
            0
        }),
        r < 16,
{
    let mut mv: usize = 0;
    if up {
        mv = mv + 1;
    }
    if down {
        mv = mv + 2;
    }
    if left {
        mv = mv + 4;
    }
    if right {
        mv = mv + 8;
    }
    mv
}

} // verus!
