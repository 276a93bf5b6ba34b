//! The datagrams exchanged between the host and its clients, and their byte
//! layout. Every datagram starts with the magic number and a packet-type
//! byte; `from_buf` reads the bytes after those three.
//!
//! Floating-point fields (positions, facing, the kill/death ratio) travel as
//! the big-endian bytes of their IEEE-754 bit patterns, which is what this
//! module carries for them.

use vstd::prelude::*;
use crate::components::{NUM_POWERUPS, PowerUpType, Stats, StoredPowerUps};
use crate::wire::{
    be16, be32, be64, concat_map, lemma_be16_read, lemma_be32_read, lemma_be64_read,
    lemma_concat_map, lemma_concat_map_take, lemma_sub_sub, lemma_subrange_left, lemma_subrange_right,
    push_u16,
    push_u32, push_u64, read_u16, read_u32, read_u64, u16_at, u32_at, u64_at,
};

verus! {

/// First two bytes of every datagram of the game.
pub const MAGIC_NUMBER: u16 = 24835;
/// Number of chest records that a `HostTick` carries.
pub const MAXCHESTS: usize = 10;

/// The kinds of datagram, numbered 0 to 5 in this order on the wire.
#[derive(Clone, Copy, PartialEq, Eq, Structural, Debug)]
pub enum PacketType {
    ServerFull,
    Disconnect,
    ConnectionRequest,
    ConnectionResponse,
    HostTick,
    ClientTick,
}

impl PacketType {
    /// The number of a packet type.
    pub open spec fn code_of(self) -> u8 {
        match self {
            PacketType::ServerFull => 0,
            PacketType::Disconnect => 1,
            PacketType::ConnectionRequest => 2,
            PacketType::ConnectionResponse => 3,
            PacketType::HostTick => 4,
            PacketType::ClientTick => 5,
        }
    }

    /// The number of this packet type.
    pub fn to_u8(&self) -> (r: u8)
        ensures
            r == self.code_of(),
    {
        match self {
            PacketType::ServerFull => 0,
            PacketType::Disconnect => 1,
            PacketType::ConnectionRequest => 2,
            PacketType::ConnectionResponse => 3,
            PacketType::HostTick => 4,
            PacketType::ClientTick => 5,
        }
    }

    /// The packet type numbered `c`, if any.
    pub fn from_u8(c: u8) -> (r: Option<PacketType>)
        ensures
            r matches Some(t) ==> t.code_of() == c,
            r is None <==> c > 5,
    {
        if c == 0 {
            Some(PacketType::ServerFull)
        } else if c == 1 {
            Some(PacketType::Disconnect)
        } else if c == 2 {
            Some(PacketType::ConnectionRequest)
        } else if c == 3 {
            Some(PacketType::ConnectionResponse)
        } else if c == 4 {
            Some(PacketType::HostTick)
        } else if c == 5 {
            Some(PacketType::ClientTick)
        } else {
            None
        }
    }
}

/// Each packet type has its own number, from 0 to 5.
pub proof fn law_packet_type_codes(a: PacketType, b: PacketType)
    ensures
        a.code_of() <= 5,
        a.code_of() == b.code_of() ==> a == b,
{
}

/// The three bytes that open a datagram of type `pt`.
pub open spec fn header(pt: PacketType) -> Seq<u8> {
    be16(MAGIC_NUMBER) + seq![pt.code_of()]
}

/// The bytes of a datagram that carries nothing but its header.
pub fn empty_packet(pt: PacketType) -> (bytes: Vec<u8>)
    ensures
        bytes@ == header(pt),
{
    let mut bytes: Vec<u8> = Vec::new();
    push_u16(&mut bytes, MAGIC_NUMBER);
    bytes.push(pt.to_u8());
    assert(bytes@ =~= header(pt));
    bytes
}

/// A 2D vector as the bit patterns of its two `f32` components.
#[derive(Clone, Copy, PartialEq, Eq, Structural, Debug)]
pub struct WireVec2 {
    pub x: u32,
    pub y: u32,
}

/// The eight bytes of a vector.
pub open spec fn vec2_bytes(v: WireVec2) -> Seq<u8> {
    be32(v.x) + be32(v.y)
}

/// The vector whose bytes start at `i`.
pub open spec fn vec2_at(b: Seq<u8>, i: int) -> WireVec2 {
    WireVec2 { x: u32_at(b, i), y: u32_at(b, i + 4) }
}

/// Sent over the network to describe an enemy.
#[derive(Clone, Copy, PartialEq, Eq, Structural, Debug)]
pub struct EnemyTick {
    pub id: u8,
    pub pos: WireVec2,
    pub hp: u8,
    pub events: u8,
}

/// Sent over the network to describe a player.
#[derive(Clone, Copy, Debug)]
pub struct PlayerTick {
    pub id: u8,
    pub pos: WireVec2,
    pub hp: u8,
    /// Bit pattern of the `f32` facing angle.
    pub dir: u32,
    pub events: u8,
    pub stats: Stats,
    pub powerups: StoredPowerUps,
}

/// What a client reports of its player on each tick.
#[derive(Clone, Copy, PartialEq, Eq, Structural, Debug)]
pub struct UserCmd {
    pub pos: WireVec2,
    /// Bit pattern of the `f32` facing angle.
    pub dir: u32,
    pub events: u8,
}

/// Enemy information received from the host, with the tick it belongs to.
#[derive(Clone, Copy, PartialEq, Eq, Structural, Debug)]
pub struct EnemyTickEvent {
    pub seq_num: u16,
    pub tick: EnemyTick,
}

/// Player information received from the host, with the tick it belongs to.
#[derive(Clone, Copy, Debug)]
pub struct PlayerTickEvent {
    pub seq_num: u16,
    pub tick: PlayerTick,
}

/// A client's input received by the host, with the tick and the player it belongs to.
#[derive(Clone, Copy, PartialEq, Eq, Structural, Debug)]
pub struct UserCmdEvent {
    pub seq_num: u16,
    pub id: u8,
    pub tick: UserCmd,
}

/// The record of a player for a host tick, when its rings hold a position,
/// a health, a facing and events for the tick; players missing any of them
/// are left out.
pub fn player_record(
    id: u8,
    pos: Option<WireVec2>,
    hp: Option<u8>,
    dir: Option<u32>,
    events: Option<u8>,
    stats: Stats,
    powerups: StoredPowerUps,
) -> (r: Option<PlayerTick>)
    ensures
        r is Some <==> (pos is Some && hp is Some && dir is Some && events is Some),
        r matches Some(p) ==> p.id == id && Some(p.pos) == pos && Some(p.hp) == hp && Some(p.dir)
            == dir && Some(p.events) == events && p.stats == stats && p.powerups == powerups,
{
    match (pos, hp, dir, events) {
        (Some(pos), Some(hp), Some(dir), Some(events)) => Some(
            PlayerTick { id, pos, hp, dir, events, stats, powerups },
        ),
        _ => None,
    }
}

/// The record of an enemy for a host tick; an enemy with no events for the
/// tick is sent with none.
pub fn enemy_record(id: u8, pos: WireVec2, hp: u8, events: Option<u8>) -> (r: EnemyTick)
    ensures
        r == (EnemyTick {
            id,
            pos,
            hp,
            events: match events {
                Some(e) => e,
                None => 0,
            },
        }),
{
    EnemyTick {
        id,
        pos,
        hp,
        events: match events {
            Some(e) => e,
            None => 0,
        },
    }
}

/// Two facts about a fixed-layout packet: which byte sequences `from_buf` can
/// read without running off the end, and what it reads from them.
pub trait Packet: Sized {
    /// `buf` is long enough (and well-formed enough) for `from_buf`.
    spec fn fits(buf: Seq<u8>) -> bool;

    /// `self` is what the bytes of `buf` describe.
    spec fn decoded_from(&self, buf: Seq<u8>) -> bool;

    /// The whole datagram that `to_buf` writes, header included.
    spec fn encoding(&self) -> Seq<u8>;

    /// Reads a packet from the bytes that follow the header.
    fn from_buf(buf: &[u8]) -> (r: Self)
        requires
            Self::fits(buf@),
        ensures
            r.decoded_from(buf@),
    ;

    /// Appends the whole datagram, header included.
    fn to_buf(&self, bytes: &mut Vec<u8>)
        ensures
            final(bytes)@ == old(bytes)@ + self.encoding(),
    ;
}

/// Sent by the host to a client that asked to connect.
#[derive(Clone, Copy, PartialEq, Eq, Structural, Debug)]
pub struct ConnectionResponse {
    pub player_id: u8,
    pub seed: u64,
}

impl Packet for ConnectionResponse {
    open spec fn fits(buf: Seq<u8>) -> bool {
        buf.len() >= 9
    }

    open spec fn decoded_from(&self, buf: Seq<u8>) -> bool {
        &&& self.player_id == buf[0]
        &&& self.seed == u64_at(buf, 1)
    }

    open spec fn encoding(&self) -> Seq<u8> {
        header(PacketType::ConnectionResponse) + seq![self.player_id] + be64(self.seed)
    }

    fn from_buf(buf: &[u8]) -> (r: Self) {
        let player_id = buf[0];
        let seed = read_u64(buf, 1);
        ConnectionResponse { player_id, seed }
    }

    fn to_buf(&self, bytes: &mut Vec<u8>) {
        let ghost b0 = bytes@;
        push_u16(bytes, MAGIC_NUMBER);
        bytes.push(PacketType::ConnectionResponse.to_u8());
        bytes.push(self.player_id);
        push_u64(bytes, self.seed);
        assert(bytes@ =~= b0 + self.encoding());
    }
}

/// Sent by a client to the host on every tick.
#[derive(Clone, Copy, PartialEq, Eq, Structural, Debug)]
pub struct ClientTick {
    pub seq_num: u16,
    pub rmt_num: u16,
    pub ack: u32,
    pub tick: UserCmd,
}

impl Packet for ClientTick {
    open spec fn fits(buf: Seq<u8>) -> bool {
        buf.len() >= 21
    }

    open spec fn decoded_from(&self, buf: Seq<u8>) -> bool {
        &&& self.seq_num == u16_at(buf, 0)
        &&& self.rmt_num == u16_at(buf, 2)
        &&& self.ack == u32_at(buf, 4)
        &&& self.tick.pos == vec2_at(buf, 8)
        &&& self.tick.dir == u32_at(buf, 16)
        &&& self.tick.events == buf[20]
    }

    open spec fn encoding(&self) -> Seq<u8> {
        header(PacketType::ClientTick) + be16(self.seq_num) + be16(self.rmt_num) + be32(self.ack)
            + vec2_bytes(self.tick.pos) + be32(self.tick.dir) + seq![self.tick.events]
    }

    fn from_buf(buf: &[u8]) -> (r: Self) {
        let seq_num = read_u16(buf, 0);
        let rmt_num = read_u16(buf, 2);
        let ack = read_u32(buf, 4);
        let pos = WireVec2 { x: read_u32(buf, 8), y: read_u32(buf, 12) };
        let dir = read_u32(buf, 16);
        let events = buf[20];
        ClientTick { seq_num, rmt_num, ack, tick: UserCmd { pos, dir, events } }
    }

    fn to_buf(&self, bytes: &mut Vec<u8>) {
        let ghost b0 = bytes@;
        push_u16(bytes, MAGIC_NUMBER);
        bytes.push(PacketType::ClientTick.to_u8());
        push_u16(bytes, self.seq_num);
        push_u16(bytes, self.rmt_num);
        push_u32(bytes, self.ack);
        push_u32(bytes, self.tick.pos.x);
        push_u32(bytes, self.tick.pos.y);
        push_u32(bytes, self.tick.dir);
        bytes.push(self.tick.events);
        assert(bytes@ =~= b0 + self.encoding());
    }
}

/// What `from_buf` reads back from the bytes that `to_buf` wrote, past the
/// three header bytes, is the connection response that was written.
pub proof fn law_connection_response_roundtrip(x: ConnectionResponse, y: ConnectionResponse)
    requires
        y.decoded_from(x.encoding().skip(3)),
    ensures
        ConnectionResponse::fits(x.encoding().skip(3)),
        y == x,
{
    let b = x.encoding().skip(3);
    assert(b =~= seq![x.player_id] + be64(x.seed));
    assert(b.subrange(1, 9) =~= be64(x.seed));
    lemma_be64_read(b, 1, x.seed);
}

/// What `from_buf` reads back from the bytes that `to_buf` wrote, past the
/// three header bytes, is the client tick that was written.
pub proof fn law_client_tick_roundtrip(x: ClientTick, y: ClientTick)
    requires
        y.decoded_from(x.encoding().skip(3)),
    ensures
        ClientTick::fits(x.encoding().skip(3)),
        y == x,
{
    let b = x.encoding().skip(3);
    assert(b =~= be16(x.seq_num) + be16(x.rmt_num) + be32(x.ack) + vec2_bytes(x.tick.pos) + be32(
        x.tick.dir,
    ) + seq![x.tick.events]);
    assert(b.subrange(0, 2) =~= be16(x.seq_num));
    assert(b.subrange(2, 4) =~= be16(x.rmt_num));
    assert(b.subrange(4, 8) =~= be32(x.ack));
    assert(b.subrange(8, 12) =~= be32(x.tick.pos.x));
    assert(b.subrange(12, 16) =~= be32(x.tick.pos.y));
    assert(b.subrange(16, 20) =~= be32(x.tick.dir));
    lemma_be16_read(b, 0, x.seq_num);
    lemma_be16_read(b, 2, x.rmt_num);
    lemma_be32_read(b, 4, x.ack);
    lemma_be32_read(b, 8, x.tick.pos.x);
    lemma_be32_read(b, 12, x.tick.pos.y);
    lemma_be32_read(b, 16, x.tick.dir);
}

} // verus!

verus! {

/// The eleven bytes of an enemy record.
pub open spec fn enemy_bytes(e: EnemyTick) -> Seq<u8> {
    seq![e.id] + vec2_bytes(e.pos) + seq![e.hp, e.events]
}

/// The enemy record whose bytes start at `i`.
pub open spec fn enemy_at(b: Seq<u8>, i: int) -> EnemyTick {
    EnemyTick { id: b[i], pos: vec2_at(b, i + 1), hp: b[i + 9], events: b[i + 10] }
}

/// The twenty-nine bytes of a player record.
pub open spec fn player_bytes(p: PlayerTick) -> Seq<u8> {
    seq![p.id] + vec2_bytes(p.pos) + seq![p.hp] + be32(p.dir) + seq![
        p.events,
        p.stats.score,
        p.stats.enemies_killed,
        p.stats.players_killed,
        p.stats.camps_captured,
        p.stats.deaths,
    ] + be32(p.stats.kd_ratio) + p.powerups.power_ups@
}

/// `p` is the player record whose bytes start at `i`.
pub open spec fn player_read_from(p: PlayerTick, b: Seq<u8>, i: int) -> bool {
    &&& p.id == b[i]
    &&& p.pos == vec2_at(b, i + 1)
    &&& p.hp == b[i + 9]
    &&& p.dir == u32_at(b, i + 10)
    &&& p.events == b[i + 14]
    &&& p.stats == Stats {
        score: b[i + 15],
        enemies_killed: b[i + 16],
        players_killed: b[i + 17],
        camps_captured: b[i + 18],
        deaths: b[i + 19],
        kd_ratio: u32_at(b, i + 20),
    }
    &&& p.powerups.power_ups@ == b.subrange(i + 24, i + 29)
}

/// The nine bytes of a dropped power-up record.
pub open spec fn powerup_bytes(pu: (PowerUpType, WireVec2)) -> Seq<u8> {
    seq![pu.0.code_of()] + vec2_bytes(pu.1)
}

/// The power-up record whose bytes start at `i`.
pub open spec fn powerup_at(b: Seq<u8>, i: int) -> (PowerUpType, WireVec2) {
    (PowerUpType::of_code(b[i]), vec2_at(b, i + 1))
}

/// The two bytes of a chest record (chest id, chest hit points).
pub open spec fn chest_bytes(c: (u8, u8)) -> Seq<u8> {
    seq![c.0, c.1]
}

/// `enemy_bytes` as a function value.
pub open spec fn enemy_bytes_fn() -> spec_fn(EnemyTick) -> Seq<u8> {
    |e: EnemyTick| enemy_bytes(e)
}

/// `player_bytes` as a function value.
pub open spec fn player_bytes_fn() -> spec_fn(PlayerTick) -> Seq<u8> {
    |p: PlayerTick| player_bytes(p)
}

/// `powerup_bytes` as a function value.
pub open spec fn powerup_bytes_fn() -> spec_fn((PowerUpType, WireVec2)) -> Seq<u8> {
    |pu: (PowerUpType, WireVec2)| powerup_bytes(pu)
}

/// `chest_bytes` as a function value.
pub open spec fn chest_bytes_fn() -> spec_fn((u8, u8)) -> Seq<u8> {
    |c: (u8, u8)| chest_bytes(c)
}

proof fn lemma_record_lens()
    ensures
        forall|e: EnemyTick| #[trigger] enemy_bytes_fn()(e).len() == 11,
        forall|p: PlayerTick| #[trigger] player_bytes_fn()(p).len() == 29,
        forall|pu: (PowerUpType, WireVec2)| #[trigger] powerup_bytes_fn()(pu).len() == 9,
        forall|c: (u8, u8)| #[trigger] chest_bytes_fn()(c).len() == 2,
{
    assert forall|e: EnemyTick| #[trigger] enemy_bytes_fn()(e).len() == 11 by {
        assert(enemy_bytes_fn()(e) == enemy_bytes(e));
    }
    assert forall|p: PlayerTick| #[trigger] player_bytes_fn()(p).len() == 29 by {
        assert(player_bytes_fn()(p) == player_bytes(p));
        assert(p.powerups.power_ups@.len() == 5);
    }
    assert forall|pu: (PowerUpType, WireVec2)| #[trigger] powerup_bytes_fn()(pu).len() == 9 by {
        assert(powerup_bytes_fn()(pu) == powerup_bytes(pu));
    }
    assert forall|c: (u8, u8)| #[trigger] chest_bytes_fn()(c).len() == 2 by {
        assert(chest_bytes_fn()(c) == chest_bytes(c));
    }
}

proof fn lemma_byte(b: Seq<u8>, i: int, r: Seq<u8>, k: int)
    requires
        0 <= i,
        i + r.len() <= b.len(),
        b.subrange(i, i + r.len()) == r,
        0 <= k < r.len(),
    ensures
        b[i + k] == r[k],
{
    assert(b.subrange(i, i + r.len())[k] == r[k]);
}

proof fn lemma_enemy_read(b: Seq<u8>, i: int, e: EnemyTick)
    requires
        0 <= i,
        i + 11 <= b.len(),
        b.subrange(i, i + 11) == enemy_bytes(e),
    ensures
        enemy_at(b, i) == e,
{
    let r = enemy_bytes(e);
    assert(r.subrange(1, 5) =~= be32(e.pos.x));
    assert(r.subrange(5, 9) =~= be32(e.pos.y));
    lemma_sub_sub(b, i, r, 1, 5);
    lemma_sub_sub(b, i, r, 5, 9);
    lemma_be32_read(b, i + 1, e.pos.x);
    lemma_be32_read(b, i + 5, e.pos.y);
    lemma_byte(b, i, r, 0);
    lemma_byte(b, i, r, 9);
    lemma_byte(b, i, r, 10);
}

proof fn lemma_player_read(b: Seq<u8>, i: int, p: PlayerTick)
    requires
        0 <= i,
        i + 29 <= b.len(),
        b.subrange(i, i + 29) == player_bytes(p),
    ensures
        player_read_from(p, b, i),
{
    let r = player_bytes(p);
    assert(p.powerups.power_ups@.len() == 5);
    assert(r.subrange(1, 5) =~= be32(p.pos.x));
    assert(r.subrange(5, 9) =~= be32(p.pos.y));
    assert(r.subrange(10, 14) =~= be32(p.dir));
    assert(r.subrange(20, 24) =~= be32(p.stats.kd_ratio));
    assert(r.subrange(24, 29) =~= p.powerups.power_ups@);
    lemma_sub_sub(b, i, r, 1, 5);
    lemma_sub_sub(b, i, r, 5, 9);
    lemma_sub_sub(b, i, r, 10, 14);
    lemma_sub_sub(b, i, r, 20, 24);
    lemma_sub_sub(b, i, r, 24, 29);
    lemma_be32_read(b, i + 1, p.pos.x);
    lemma_be32_read(b, i + 5, p.pos.y);
    lemma_be32_read(b, i + 10, p.dir);
    lemma_be32_read(b, i + 20, p.stats.kd_ratio);
    lemma_byte(b, i, r, 0);
    lemma_byte(b, i, r, 9);
    lemma_byte(b, i, r, 14);
    lemma_byte(b, i, r, 15);
    lemma_byte(b, i, r, 16);
    lemma_byte(b, i, r, 17);
    lemma_byte(b, i, r, 18);
    lemma_byte(b, i, r, 19);
}

proof fn lemma_powerup_read(b: Seq<u8>, i: int, pu: (PowerUpType, WireVec2))
    requires
        0 <= i,
        i + 9 <= b.len(),
        b.subrange(i, i + 9) == powerup_bytes(pu),
    ensures
        powerup_at(b, i) == pu,
        b[i] < NUM_POWERUPS,
{
    let r = powerup_bytes(pu);
    assert(r.subrange(1, 5) =~= be32(pu.1.x));
    assert(r.subrange(5, 9) =~= be32(pu.1.y));
    lemma_sub_sub(b, i, r, 1, 5);
    lemma_sub_sub(b, i, r, 5, 9);
    lemma_be32_read(b, i + 1, pu.1.x);
    lemma_be32_read(b, i + 5, pu.1.y);
    assert(b[i] == b.subrange(i, i + 9)[0]);
    crate::components::law_powerup_code_roundtrip(pu.0);
}

fn push_enemy(bytes: &mut Vec<u8>, e: &EnemyTick)
    ensures
        final(bytes)@ == old(bytes)@ + enemy_bytes(*e),
{
    let ghost b0 = bytes@;
    bytes.push(e.id);
    push_u32(bytes, e.pos.x);
    push_u32(bytes, e.pos.y);
    bytes.push(e.hp);
    bytes.push(e.events);
    assert(bytes@ =~= b0 + enemy_bytes(*e));
}

fn push_player(bytes: &mut Vec<u8>, p: &PlayerTick)
    ensures
        final(bytes)@ == old(bytes)@ + player_bytes(*p),
{
    let ghost b0 = bytes@;
    bytes.push(p.id);
    push_u32(bytes, p.pos.x);
    push_u32(bytes, p.pos.y);
    bytes.push(p.hp);
    push_u32(bytes, p.dir);
    bytes.push(p.events);
    bytes.push(p.stats.score);
    bytes.push(p.stats.enemies_killed);
    bytes.push(p.stats.players_killed);
    bytes.push(p.stats.camps_captured);
    bytes.push(p.stats.deaths);
    push_u32(bytes, p.stats.kd_ratio);
    let ghost b1 = bytes@;
    let mut k: usize = 0;
    while k < NUM_POWERUPS
        invariant
            k <= NUM_POWERUPS,
            p.powerups.power_ups@.len() == NUM_POWERUPS,
            bytes@ == b1 + p.powerups.power_ups@.take(k as int),
        decreases NUM_POWERUPS - k,
    {
        bytes.push(p.powerups.power_ups[k]);
        assert(p.powerups.power_ups@.take(k + 1) =~= p.powerups.power_ups@.take(k as int).push(
            p.powerups.power_ups@[k as int],
        ));
        k = k + 1;
    }
    assert(p.powerups.power_ups@.take(NUM_POWERUPS as int) =~= p.powerups.power_ups@);
    assert(bytes@ =~= b0 + player_bytes(*p));
}

fn push_powerup(bytes: &mut Vec<u8>, pu: &(PowerUpType, WireVec2))
    ensures
        final(bytes)@ == old(bytes)@ + powerup_bytes(*pu),
{
    let ghost b0 = bytes@;
    bytes.push(pu.0.to_u8());
    push_u32(bytes, pu.1.x);
    push_u32(bytes, pu.1.y);
    assert(bytes@ =~= b0 + powerup_bytes(*pu));
}

fn read_enemy(buf: &[u8], i: usize) -> (r: EnemyTick)
    requires
        i + 11 <= buf@.len(),
    ensures
        r == enemy_at(buf@, i as int),
{
    let n = buf.len();
    EnemyTick {
        id: buf[i],
        pos: WireVec2 { x: read_u32(buf, i + 1), y: read_u32(buf, i + 5) },
        hp: buf[i + 9],
        events: buf[i + 10],
    }
}

fn read_player(buf: &[u8], i: usize) -> (r: PlayerTick)
    requires
        i + 29 <= buf@.len(),
    ensures
        player_read_from(r, buf@, i as int),
{
    let n = buf.len();
    let power_ups = [buf[i + 24], buf[i + 25], buf[i + 26], buf[i + 27], buf[i + 28]];
    assert(power_ups@ =~= buf@.subrange(i + 24, i + 29));
    PlayerTick {
        id: buf[i],
        pos: WireVec2 { x: read_u32(buf, i + 1), y: read_u32(buf, i + 5) },
        hp: buf[i + 9],
        dir: read_u32(buf, i + 10),
        events: buf[i + 14],
        stats: Stats {
            score: buf[i + 15],
            enemies_killed: buf[i + 16],
            players_killed: buf[i + 17],
            camps_captured: buf[i + 18],
            deaths: buf[i + 19],
            kd_ratio: read_u32(buf, i + 20),
        },
        powerups: StoredPowerUps { power_ups },
    }
}

} // verus!

verus! {

/// The state of the game as the host sends it to one client on one tick.
pub struct HostTick {
    pub seq_num: u16,
    pub rmt_num: u16,
    pub ack: u32,
    pub enemies: Vec<EnemyTick>,
    pub players: Vec<PlayerTick>,
    pub powerups: Vec<(PowerUpType, WireVec2)>,
    pub chests: Vec<(u8, u8)>,
}

impl HostTick {
    /// Where the player records start: after the eleven fixed bytes and the
    /// enemy records, whose number is byte 8.
    pub open spec fn players_offset(buf: Seq<u8>) -> int {
        11 + 11 * buf[8]
    }

    /// Where the power-up records start; the number of player records is byte 9.
    pub open spec fn powerups_offset(buf: Seq<u8>) -> int {
        Self::players_offset(buf) + 29 * buf[9]
    }

    /// Where the chest records start; the number of power-up records is byte 10.
    pub open spec fn chests_offset(buf: Seq<u8>) -> int {
        Self::powerups_offset(buf) + 9 * buf[10]
    }

    /// The bytes that follow the header.
    pub open spec fn body(&self) -> Seq<u8> {
        be16(self.seq_num) + be16(self.rmt_num) + be32(self.ack) + seq![
            self.enemies@.len() as u8,
            self.players@.len() as u8,
            self.powerups@.len() as u8,
        ] + concat_map(self.enemies@, enemy_bytes_fn()) + concat_map(
            self.players@,
            player_bytes_fn(),
        ) + concat_map(self.powerups@, powerup_bytes_fn()) + concat_map(
            self.chests@,
            chest_bytes_fn(),
        )
    }

    /// Whether `from_buf` can read `buf`: it is checked before a call, as
    /// `from_buf` reads past the end of a short buffer and cannot decode a
    /// power-up kind above 4.
    pub fn fits_buf(buf: &[u8]) -> (r: bool)
        ensures
            r == Self::fits(buf@),
    {
        let n = buf.len();
        if n < 11 {
            return false;
        }
        let end = 11 + 11 * (buf[8] as usize) + 29 * (buf[9] as usize) + 9 * (buf[10] as usize) + 2
            * MAXCHESTS;
        if n < end {
            return false;
        }
        let start = 11 + 11 * (buf[8] as usize) + 29 * (buf[9] as usize);
        let count = buf[10] as usize;
        let mut k: usize = 0;
        while k < count
            invariant
                n == buf@.len(),
                count == buf@[10],
                start == Self::powerups_offset(buf@),
                start + 9 * count <= n,
                k <= count,
                forall|j: int| 0 <= j < k ==> #[trigger] buf@[start + 9 * j] < NUM_POWERUPS,
            decreases count - k,
        {
            if buf[start + 9 * k] >= 5 {
                return false;
            }
            k = k + 1;
        }
        true
    }
}

impl Packet for HostTick {
    open spec fn fits(buf: Seq<u8>) -> bool {
        &&& buf.len() >= 11
        &&& buf.len() >= Self::chests_offset(buf) + 2 * MAXCHESTS
        &&& forall|k: int|
            0 <= k < buf[10] ==> #[trigger] buf[Self::powerups_offset(buf) + 9 * k]
                < NUM_POWERUPS
    }

    open spec fn decoded_from(&self, buf: Seq<u8>) -> bool {
        &&& self.seq_num == u16_at(buf, 0)
        &&& self.rmt_num == u16_at(buf, 2)
        &&& self.ack == u32_at(buf, 4)
        &&& self.enemies@.len() == buf[8]
        &&& forall|k: int|
            0 <= k < self.enemies@.len() ==> #[trigger] self.enemies@[k] == enemy_at(
                buf,
                11 + 11 * k,
            )
        &&& self.players@.len() == buf[9]
        &&& forall|k: int|
            0 <= k < self.players@.len() ==> player_read_from(
                #[trigger] self.players@[k],
                buf,
                Self::players_offset(buf) + 29 * k,
            )
        &&& self.powerups@.len() == buf[10]
        &&& forall|k: int|
            0 <= k < self.powerups@.len() ==> #[trigger] self.powerups@[k] == powerup_at(
                buf,
                Self::powerups_offset(buf) + 9 * k,
            )
        &&& self.chests@.len() == MAXCHESTS
        &&& forall|k: int|
            0 <= k < MAXCHESTS ==> #[trigger] self.chests@[k] == (
                buf[Self::chests_offset(buf) + 2 * k],
                buf[Self::chests_offset(buf) + 2 * k + 1],
            )
    }

    open spec fn encoding(&self) -> Seq<u8> {
        header(PacketType::HostTick) + self.body()
    }

    fn from_buf(buf: &[u8]) -> (r: Self) {
        let n = buf.len();
        let seq_num = read_u16(buf, 0);
        let rmt_num = read_u16(buf, 2);
        let ack = read_u32(buf, 4);
        let enemy_count = buf[8] as usize;
        let player_count = buf[9] as usize;
        let powerup_count = buf[10] as usize;
        let mut i: usize = 11;
        let mut enemies: Vec<EnemyTick> = Vec::new();
        let mut k: usize = 0;
        while k < enemy_count
            invariant
                n == buf@.len(),
                HostTick::fits(buf@),
                enemy_count == buf@[8],
                k <= enemy_count,
                i == 11 + 11 * k,
                enemies@.len() == k,
                forall|j: int| 0 <= j < k ==> #[trigger] enemies@[j] == enemy_at(buf@, 11 + 11 * j),
            decreases enemy_count - k,
        {
            enemies.push(read_enemy(buf, i));
            i = i + 11;
            k = k + 1;
        }
        let mut players: Vec<PlayerTick> = Vec::new();
        let mut k: usize = 0;
        while k < player_count
            invariant
                n == buf@.len(),
                HostTick::fits(buf@),
                player_count == buf@[9],
                k <= player_count,
                i == HostTick::players_offset(buf@) + 29 * k,
                players@.len() == k,
                forall|j: int|
                    0 <= j < k ==> player_read_from(
                        #[trigger] players@[j],
                        buf@,
                        HostTick::players_offset(buf@) + 29 * j,
                    ),
            decreases player_count - k,
        {
            players.push(read_player(buf, i));
            i = i + 29;
            k = k + 1;
        }
        let mut powerups: Vec<(PowerUpType, WireVec2)> = Vec::new();
        let mut k: usize = 0;
        while k < powerup_count
            invariant
                n == buf@.len(),
                HostTick::fits(buf@),
                powerup_count == buf@[10],
                k <= powerup_count,
                i == HostTick::powerups_offset(buf@) + 9 * k,
                powerups@.len() == k,
                forall|j: int|
                    0 <= j < k ==> #[trigger] powerups@[j] == powerup_at(
                        buf@,
                        HostTick::powerups_offset(buf@) + 9 * j,
                    ),
            decreases powerup_count - k,
        {
            assert(buf@[HostTick::powerups_offset(buf@) + 9 * (k as int)] < NUM_POWERUPS);
            let ptype = match PowerUpType::from_u8(buf[i]) {
                Some(t) => t,
                None => PowerUpType::Meat,
            };
            let pos = WireVec2 { x: read_u32(buf, i + 1), y: read_u32(buf, i + 5) };
            powerups.push((ptype, pos));
            i = i + 9;
            k = k + 1;
        }
        let mut chests: Vec<(u8, u8)> = Vec::new();
        let mut k: usize = 0;
        while k < MAXCHESTS
            invariant
                n == buf@.len(),
                HostTick::fits(buf@),
                k <= MAXCHESTS,
                i == HostTick::chests_offset(buf@) + 2 * k,
                chests@.len() == k,
                forall|j: int|
                    0 <= j < k ==> #[trigger] chests@[j] == (
                        buf@[HostTick::chests_offset(buf@) + 2 * j],
                        buf@[HostTick::chests_offset(buf@) + 2 * j + 1],
                    ),
            decreases MAXCHESTS - k,
        {
            chests.push((buf[i], buf[i + 1]));
            i = i + 2;
            k = k + 1;
        }
        HostTick { seq_num, rmt_num, ack, enemies, players, powerups, chests }
    }

    #[verifier::spinoff_prover]
    #[verifier::rlimit(40)]
    fn to_buf(&self, bytes: &mut Vec<u8>) {
        let ghost b0 = bytes@;
        push_u16(bytes, MAGIC_NUMBER);
        bytes.push(PacketType::HostTick.to_u8());
        push_u16(bytes, self.seq_num);
        push_u16(bytes, self.rmt_num);
        push_u32(bytes, self.ack);
        bytes.push(self.enemies.len() as u8);
        bytes.push(self.players.len() as u8);
        bytes.push(self.powerups.len() as u8);
        let ghost b1 = bytes@;
        assert(b1 =~= b0 + header(PacketType::HostTick) + be16(self.seq_num) + be16(self.rmt_num)
            + be32(self.ack) + seq![
            self.enemies@.len() as u8,
            self.players@.len() as u8,
            self.powerups@.len() as u8,
        ]);
        let mut k: usize = 0;
        while k < self.enemies.len()
            invariant
                k <= self.enemies@.len(),
                bytes@ == b1 + concat_map(self.enemies@.take(k as int), enemy_bytes_fn()),
            decreases self.enemies@.len() - k,
        {
            push_enemy(bytes, &self.enemies[k]);
            proof {
                lemma_concat_map_take(self.enemies@, enemy_bytes_fn(), k as int);
            }
            k = k + 1;
        }
        assert(self.enemies@.take(self.enemies@.len() as int) =~= self.enemies@);
        let ghost b2 = bytes@;
        let mut k: usize = 0;
        while k < self.players.len()
            invariant
                k <= self.players@.len(),
                bytes@ == b2 + concat_map(self.players@.take(k as int), player_bytes_fn()),
            decreases self.players@.len() - k,
        {
            push_player(bytes, &self.players[k]);
            proof {
                lemma_concat_map_take(self.players@, player_bytes_fn(), k as int);
            }
            k = k + 1;
        }
        assert(self.players@.take(self.players@.len() as int) =~= self.players@);
        let ghost b3 = bytes@;
        let mut k: usize = 0;
        while k < self.powerups.len()
            invariant
                k <= self.powerups@.len(),
                bytes@ == b3 + concat_map(self.powerups@.take(k as int), powerup_bytes_fn()),
            decreases self.powerups@.len() - k,
        {
            push_powerup(bytes, &self.powerups[k]);
            proof {
                lemma_concat_map_take(self.powerups@, powerup_bytes_fn(), k as int);
            }
            k = k + 1;
        }
        assert(self.powerups@.take(self.powerups@.len() as int) =~= self.powerups@);
        let ghost b4 = bytes@;
        let mut k: usize = 0;
        while k < self.chests.len()
            invariant
                k <= self.chests@.len(),
                bytes@ == b4 + concat_map(self.chests@.take(k as int), chest_bytes_fn()),
            decreases self.chests@.len() - k,
        {
            let ghost bb = bytes@;
            bytes.push(self.chests[k].0);
            bytes.push(self.chests[k].1);
            proof {
                assert(bytes@ =~= bb + chest_bytes(self.chests@[k as int]));
                lemma_concat_map_take(self.chests@, chest_bytes_fn(), k as int);
            }
            k = k + 1;
        }
        assert(self.chests@.take(self.chests@.len() as int) =~= self.chests@);
        assert(bytes@ =~= b0 + self.encoding());
    }
}

} // verus!

verus! {

/// Splits the body of a host tick into its five parts and reads off the
/// offsets of the record segments.
proof fn lemma_host_tick_layout(x: HostTick)
    requires
        x.enemies@.len() <= 255,
        x.players@.len() <= 255,
        x.powerups@.len() <= 255,
        x.chests@.len() == MAXCHESTS,
    ensures
        ({
            let b = x.body();
            let fixed = be16(x.seq_num) + be16(x.rmt_num) + be32(x.ack) + seq![
                x.enemies@.len() as u8,
                x.players@.len() as u8,
                x.powerups@.len() as u8,
            ];
            let e = concat_map(x.enemies@, enemy_bytes_fn());
            let p = concat_map(x.players@, player_bytes_fn());
            let u = concat_map(x.powerups@, powerup_bytes_fn());
            let c = concat_map(x.chests@, chest_bytes_fn());
            &&& b == fixed + e + p + u + c
            &&& fixed.len() == 11
            &&& e.len() == 11 * x.enemies@.len()
            &&& p.len() == 29 * x.players@.len()
            &&& u.len() == 9 * x.powerups@.len()
            &&& c.len() == 2 * MAXCHESTS
            &&& b[8] == x.enemies@.len()
            &&& b[9] == x.players@.len()
            &&& b[10] == x.powerups@.len()
            &&& HostTick::players_offset(b) == 11 + e.len()
            &&& HostTick::powerups_offset(b) == 11 + e.len() + p.len()
            &&& HostTick::chests_offset(b) == 11 + e.len() + p.len() + u.len()
            &&& b.len() == HostTick::chests_offset(b) + 2 * MAXCHESTS
        }),
{
    lemma_record_lens();
    lemma_concat_map(x.enemies@, enemy_bytes_fn(), 11);
    lemma_concat_map(x.players@, player_bytes_fn(), 29);
    lemma_concat_map(x.powerups@, powerup_bytes_fn(), 9);
    lemma_concat_map(x.chests@, chest_bytes_fn(), 2);
    let b = x.body();
    let fixed = be16(x.seq_num) + be16(x.rmt_num) + be32(x.ack) + seq![
        x.enemies@.len() as u8,
        x.players@.len() as u8,
        x.powerups@.len() as u8,
    ];
    assert(fixed.len() == 11);
    assert(b[8] == fixed[8]);
    assert(b[9] == fixed[9]);
    assert(b[10] == fixed[10]);
}

/// What `from_buf` reads back from the bytes that `to_buf` wrote, past the
/// three header bytes, is the host tick that was written, for a tick with at
/// most 255 records of each counted kind and `MAXCHESTS` chests.
pub proof fn law_host_tick_roundtrip(x: HostTick, y: HostTick)
    requires
        x.enemies@.len() <= 255,
        x.players@.len() <= 255,
        x.powerups@.len() <= 255,
        x.chests@.len() == MAXCHESTS,
        y.decoded_from(x.encoding().skip(3)),
    ensures
        HostTick::fits(x.encoding().skip(3)),
        y.seq_num == x.seq_num,
        y.rmt_num == x.rmt_num,
        y.ack == x.ack,
        y.enemies@ == x.enemies@,
        y.players@ == x.players@,
        y.powerups@ == x.powerups@,
        y.chests@ == x.chests@,
{
    assert(x.encoding().skip(3) =~= x.body());
    lemma_host_tick_fits(x);
    lemma_roundtrip_fixed(x, y);
    lemma_roundtrip_enemies(x, y);
    lemma_roundtrip_players(x, y);
    lemma_roundtrip_powerups(x, y);
    lemma_roundtrip_chests(x, y);
}

/// The five parts of a host tick's body: the fixed fields, then the
/// enemy, player, power-up and chest records.
pub open spec fn host_tick_parts(x: HostTick) -> (Seq<u8>, Seq<u8>, Seq<u8>, Seq<u8>, Seq<u8>) {
    (
        be16(x.seq_num) + be16(x.rmt_num) + be32(x.ack) + seq![
            x.enemies@.len() as u8,
            x.players@.len() as u8,
            x.powerups@.len() as u8,
        ],
        concat_map(x.enemies@, enemy_bytes_fn()),
        concat_map(x.players@, player_bytes_fn()),
        concat_map(x.powerups@, powerup_bytes_fn()),
        concat_map(x.chests@, chest_bytes_fn()),
    )
}

/// A host tick whose record counts fit their count bytes and that carries
/// `MAXCHESTS` chests.
pub open spec fn host_tick_bounded(x: HostTick) -> bool {
    &&& x.enemies@.len() <= 255
    &&& x.players@.len() <= 255
    &&& x.powerups@.len() <= 255
    &&& x.chests@.len() == MAXCHESTS
}

#[verifier::spinoff_prover]
proof fn lemma_roundtrip_fixed(x: HostTick, y: HostTick)
    requires
        host_tick_bounded(x),
        y.decoded_from(x.body()),
    ensures
        y.seq_num == x.seq_num,
        y.rmt_num == x.rmt_num,
        y.ack == x.ack,
{
    lemma_host_tick_layout(x);
    let b = x.body();
    let (fixed, e, p, u, c) = host_tick_parts(x);
    assert(fixed.subrange(0, 2) =~= be16(x.seq_num));
    assert(fixed.subrange(2, 4) =~= be16(x.rmt_num));
    assert(fixed.subrange(4, 8) =~= be32(x.ack));
    lemma_subrange_left(fixed + e + p + u, c, 0, 11);
    lemma_subrange_left(fixed + e + p, u, 0, 11);
    lemma_subrange_left(fixed + e, p, 0, 11);
    lemma_subrange_left(fixed, e, 0, 11);
    assert(b.subrange(0, 11) == fixed);
    lemma_sub_sub(b, 0, fixed, 0, 2);
    lemma_sub_sub(b, 0, fixed, 2, 4);
    lemma_sub_sub(b, 0, fixed, 4, 8);
    lemma_be16_read(b, 0, x.seq_num);
    lemma_be16_read(b, 2, x.rmt_num);
    lemma_be32_read(b, 4, x.ack);
}

#[verifier::spinoff_prover]
proof fn lemma_roundtrip_enemies(x: HostTick, y: HostTick)
    requires
        host_tick_bounded(x),
        y.decoded_from(x.body()),
    ensures
        y.enemies@ == x.enemies@,
{
    lemma_host_tick_layout(x);
    lemma_record_lens();
    let b = x.body();
    let (fixed, e, p, u, c) = host_tick_parts(x);
    lemma_concat_map(x.enemies@, enemy_bytes_fn(), 11);
    assert forall|k: int| 0 <= k < x.enemies@.len() implies y.enemies@[k] == x.enemies@[k] by {
        let lo = 11 * k;
        lemma_subrange_left(fixed + e + p + u, c, 11 + lo, 11 + lo + 11);
        lemma_subrange_left(fixed + e + p, u, 11 + lo, 11 + lo + 11);
        lemma_subrange_left(fixed + e, p, 11 + lo, 11 + lo + 11);
        lemma_subrange_right(fixed, e, lo, lo + 11);
        assert(e.subrange(11 * k, 11 * k + 11) == enemy_bytes_fn()(x.enemies@[k]));
        lemma_enemy_read(b, 11 + lo, x.enemies@[k]);
    }
    assert(y.enemies@ =~= x.enemies@);
}

#[verifier::spinoff_prover]
proof fn lemma_roundtrip_players(x: HostTick, y: HostTick)
    requires
        host_tick_bounded(x),
        y.decoded_from(x.body()),
    ensures
        y.players@ == x.players@,
{
    lemma_host_tick_layout(x);
    lemma_record_lens();
    let b = x.body();
    let (fixed, e, p, u, c) = host_tick_parts(x);
    lemma_concat_map(x.players@, player_bytes_fn(), 29);
    assert forall|k: int| 0 <= k < x.players@.len() implies y.players@[k] == x.players@[k] by {
        let lo = 29 * k;
        let at = 11 + e.len() + lo;
        lemma_subrange_left(fixed + e + p + u, c, at, at + 29);
        lemma_subrange_left(fixed + e + p, u, at, at + 29);
        lemma_subrange_right(fixed + e, p, lo, lo + 29);
        assert(p.subrange(29 * k, 29 * k + 29) == player_bytes_fn()(x.players@[k]));
        lemma_player_read(b, at, x.players@[k]);
        let yp = y.players@[k];
        let xp = x.players@[k];
        assert(yp.powerups.power_ups@ == xp.powerups.power_ups@);
        assert(yp.powerups.power_ups =~= xp.powerups.power_ups);
    }
    assert(y.players@ =~= x.players@);
}

#[verifier::spinoff_prover]
proof fn lemma_roundtrip_powerups(x: HostTick, y: HostTick)
    requires
        host_tick_bounded(x),
        y.decoded_from(x.body()),
    ensures
        y.powerups@ == x.powerups@,
{
    lemma_host_tick_layout(x);
    lemma_record_lens();
    let b = x.body();
    let (fixed, e, p, u, c) = host_tick_parts(x);
    lemma_concat_map(x.powerups@, powerup_bytes_fn(), 9);
    assert forall|k: int| 0 <= k < x.powerups@.len() implies y.powerups@[k] == x.powerups@[k] by {
        let lo = 9 * k;
        let at = 11 + e.len() + p.len() + lo;
        lemma_subrange_left(fixed + e + p + u, c, at, at + 9);
        lemma_subrange_right(fixed + e + p, u, lo, lo + 9);
        assert(u.subrange(9 * k, 9 * k + 9) == powerup_bytes_fn()(x.powerups@[k]));
        lemma_powerup_read(b, at, x.powerups@[k]);
    }
    assert(y.powerups@ =~= x.powerups@);
}

#[verifier::spinoff_prover]
proof fn lemma_roundtrip_chests(x: HostTick, y: HostTick)
    requires
        host_tick_bounded(x),
        y.decoded_from(x.body()),
    ensures
        y.chests@ == x.chests@,
{
    lemma_host_tick_layout(x);
    lemma_record_lens();
    let b = x.body();
    let (fixed, e, p, u, c) = host_tick_parts(x);
    lemma_concat_map(x.chests@, chest_bytes_fn(), 2);
    assert forall|k: int| 0 <= k < MAXCHESTS implies y.chests@[k] == x.chests@[k] by {
        let lo = 2 * k;
        let at = 11 + e.len() + p.len() + u.len() + lo;
        lemma_subrange_right(fixed + e + p + u, c, lo, lo + 2);
        assert(c.subrange(2 * k, 2 * k + 2) == chest_bytes_fn()(x.chests@[k]));
        assert(b[at] == b.subrange(at, at + 2)[0]);
        assert(b[at + 1] == b.subrange(at, at + 2)[1]);
    }
    assert(y.chests@ =~= x.chests@);
}

/// Bytes after the end of a host tick's body change nothing that `from_buf`
/// reads: a buffer that starts with the body reads as the body does.
pub proof fn lemma_host_tick_prefix(x: HostTick, y: HostTick, b: Seq<u8>)
    requires
        host_tick_bounded(x),
        b.len() >= x.body().len(),
        b.take(x.body().len() as int) == x.body(),
        y.decoded_from(b),
    ensures
        y.decoded_from(x.body()),
        HostTick::fits(b),
{
    lemma_host_tick_layout(x);
    lemma_host_tick_fits(x);
    let body = x.body();
    let n = body.len() as int;
    assert forall|i: int| 0 <= i < n implies #[trigger] b[i] == body[i] by {
        assert(b.take(n)[i] == b[i]);
    }
    assert(b[8] == body[8] && b[9] == body[9] && b[10] == body[10]);
    let ne = y.enemies@.len() as int;
    let np = y.players@.len() as int;
    let nu = y.powerups@.len() as int;
    assert forall|k: int| 0 <= k < ne implies #[trigger] y.enemies@[k] == enemy_at(body, 11 + 11 * k) by {
        let at = 11 + 11 * k;
        assert(at + 11 <= 11 + 11 * ne);
        assert(b[at] == body[at]);
        assert(b[at + 1] == body[at + 1] && b[at + 2] == body[at + 2] && b[at + 3] == body[at + 3]
            && b[at + 4] == body[at + 4]);
        assert(b[at + 5] == body[at + 5] && b[at + 6] == body[at + 6] && b[at + 7] == body[at + 7]
            && b[at + 8] == body[at + 8]);
        assert(b[at + 9] == body[at + 9] && b[at + 10] == body[at + 10]);
    }
    assert forall|k: int| 0 <= k < np implies player_read_from(
        #[trigger] y.players@[k],
        body,
        HostTick::players_offset(body) + 29 * k,
    ) by {
        let at = HostTick::players_offset(body) + 29 * k;
        assert(at + 29 <= HostTick::players_offset(body) + 29 * np);
        assert forall|j: int| 0 <= j < 29 implies #[trigger] b[at + j] == body[at + j] by {}
        assert(b.subrange(at + 24, at + 29) =~= body.subrange(at + 24, at + 29));
        assert(b[at + 1] == body[at + 1] && b[at + 2] == body[at + 2] && b[at + 3] == body[at + 3]
            && b[at + 4] == body[at + 4]);
        assert(b[at + 5] == body[at + 5] && b[at + 6] == body[at + 6] && b[at + 7] == body[at + 7]
            && b[at + 8] == body[at + 8]);
        assert(b[at + 10] == body[at + 10] && b[at + 11] == body[at + 11] && b[at + 12] == body[at
            + 12] && b[at + 13] == body[at + 13]);
        assert(b[at + 20] == body[at + 20] && b[at + 21] == body[at + 21] && b[at + 22] == body[at
            + 22] && b[at + 23] == body[at + 23]);
    }
    assert forall|k: int| 0 <= k < nu implies #[trigger] y.powerups@[k] == powerup_at(
        body,
        HostTick::powerups_offset(body) + 9 * k,
    ) by {
        let at = HostTick::powerups_offset(body) + 9 * k;
        assert(at + 9 <= HostTick::powerups_offset(body) + 9 * nu);
        assert forall|j: int| 0 <= j < 9 implies #[trigger] b[at + j] == body[at + j] by {}
        assert(b[at] == body[at]);
        assert(b[at + 1] == body[at + 1] && b[at + 2] == body[at + 2] && b[at + 3] == body[at + 3]
            && b[at + 4] == body[at + 4]);
        assert(b[at + 5] == body[at + 5] && b[at + 6] == body[at + 6] && b[at + 7] == body[at + 7]
            && b[at + 8] == body[at + 8]);
    }
    assert forall|k: int| 0 <= k < MAXCHESTS implies #[trigger] y.chests@[k] == (
        body[HostTick::chests_offset(body) + 2 * k],
        body[HostTick::chests_offset(body) + 2 * k + 1],
    ) by {
        let at = HostTick::chests_offset(body) + 2 * k;
        assert(b[at] == body[at] && b[at + 1] == body[at + 1]);
    }
    assert(b[0] == body[0] && b[1] == body[1] && b[2] == body[2] && b[3] == body[3]);
    assert(b[4] == body[4] && b[5] == body[5] && b[6] == body[6] && b[7] == body[7]);
    assert forall|k: int| 0 <= k < b[10] implies #[trigger] b[HostTick::powerups_offset(b) + 9 * k]
        < NUM_POWERUPS by {
        let at = HostTick::powerups_offset(body) + 9 * k;
        assert(body[at] < NUM_POWERUPS);
    }
}

/// The bytes that `to_buf` writes past the header can be read by `from_buf`,
/// for a tick with at most 255 records of each counted kind and `MAXCHESTS`
/// chests.
pub proof fn lemma_host_tick_fits(x: HostTick)
    requires
        x.enemies@.len() <= 255,
        x.players@.len() <= 255,
        x.powerups@.len() <= 255,
        x.chests@.len() == MAXCHESTS,
    ensures
        HostTick::fits(x.body()),
{
    lemma_host_tick_layout(x);
    lemma_record_lens();
    let b = x.body();
    let fixed = be16(x.seq_num) + be16(x.rmt_num) + be32(x.ack) + seq![
        x.enemies@.len() as u8,
        x.players@.len() as u8,
        x.powerups@.len() as u8,
    ];
    let e = concat_map(x.enemies@, enemy_bytes_fn());
    let p = concat_map(x.players@, player_bytes_fn());
    let u = concat_map(x.powerups@, powerup_bytes_fn());
    let c = concat_map(x.chests@, chest_bytes_fn());
    lemma_concat_map(x.powerups@, powerup_bytes_fn(), 9);
    assert forall|k: int| 0 <= k < b[10] implies #[trigger] b[HostTick::powerups_offset(b) + 9
        * k] < NUM_POWERUPS by {
        let lo = 9 * k;
        let at = 11 + e.len() + p.len() + lo;
        lemma_subrange_left(fixed + e + p + u, c, at, at + 9);
        lemma_subrange_right(fixed + e + p, u, lo, lo + 9);
        assert(u.subrange(9 * k, 9 * k + 9) == powerup_bytes_fn()(x.powerups@[k]));
        lemma_powerup_read(b, at, x.powerups@[k]);
    }
}

/// Bytes after a readable host tick change nothing that `from_buf` reads:
/// the longer buffer is readable too, and both decode to the same tick.
#[verifier::spinoff_prover]
pub proof fn law_host_tick_trailing_bytes(buf: Seq<u8>, extra: Seq<u8>, y: HostTick, z: HostTick)
    requires
        HostTick::fits(buf),
        y.decoded_from(buf + extra),
        z.decoded_from(buf),
    ensures
        HostTick::fits(buf + extra),
        y.seq_num == z.seq_num,
        y.rmt_num == z.rmt_num,
        y.ack == z.ack,
        y.enemies@ == z.enemies@,
        y.players@ == z.players@,
        y.powerups@ == z.powerups@,
        y.chests@ == z.chests@,
{
    let b = buf + extra;
    let n = buf.len() as int;
    assert forall|i: int| 0 <= i < n implies #[trigger] b[i] == buf[i] by {}
    assert(b[0] == buf[0] && b[1] == buf[1] && b[2] == buf[2] && b[3] == buf[3]);
    assert(b[4] == buf[4] && b[5] == buf[5] && b[6] == buf[6] && b[7] == buf[7]);
    assert(b[8] == buf[8] && b[9] == buf[9] && b[10] == buf[10]);
    let ne = z.enemies@.len() as int;
    let np = z.players@.len() as int;
    let nu = z.powerups@.len() as int;
    assert forall|k: int| 0 <= k < ne implies y.enemies@[k] == z.enemies@[k] by {
        let at = 11 + 11 * k;
        assert(at + 11 <= 11 + 11 * ne);
        assert(b[at] == buf[at]);
        assert(b[at + 1] == buf[at + 1] && b[at + 2] == buf[at + 2] && b[at + 3] == buf[at + 3]
            && b[at + 4] == buf[at + 4]);
        assert(b[at + 5] == buf[at + 5] && b[at + 6] == buf[at + 6] && b[at + 7] == buf[at + 7]
            && b[at + 8] == buf[at + 8]);
        assert(b[at + 9] == buf[at + 9] && b[at + 10] == buf[at + 10]);
    }
    assert(y.enemies@ =~= z.enemies@);
    assert forall|k: int| 0 <= k < np implies y.players@[k] == z.players@[k] by {
        let at = HostTick::players_offset(buf) + 29 * k;
        assert(at + 29 <= HostTick::players_offset(buf) + 29 * np);
        assert forall|j: int| 0 <= j < 29 implies #[trigger] b[at + j] == buf[at + j] by {}
        assert(b.subrange(at + 24, at + 29) =~= buf.subrange(at + 24, at + 29));
        assert(b[at] == buf[at]);
        assert(b[at + 1] == buf[at + 1] && b[at + 2] == buf[at + 2] && b[at + 3] == buf[at + 3]
            && b[at + 4] == buf[at + 4]);
        assert(b[at + 5] == buf[at + 5] && b[at + 6] == buf[at + 6] && b[at + 7] == buf[at + 7]
            && b[at + 8] == buf[at + 8]);
        assert(b[at + 9] == buf[at + 9] && b[at + 14] == buf[at + 14]);
        assert(b[at + 10] == buf[at + 10] && b[at + 11] == buf[at + 11] && b[at + 12] == buf[at
            + 12] && b[at + 13] == buf[at + 13]);
        assert(b[at + 15] == buf[at + 15] && b[at + 16] == buf[at + 16] && b[at + 17] == buf[at
            + 17] && b[at + 18] == buf[at + 18] && b[at + 19] == buf[at + 19]);
        assert(b[at + 20] == buf[at + 20] && b[at + 21] == buf[at + 21] && b[at + 22] == buf[at
            + 22] && b[at + 23] == buf[at + 23]);
        let yp = y.players@[k];
        let zp = z.players@[k];
        assert(yp.powerups.power_ups@ == zp.powerups.power_ups@);
        assert(yp.powerups.power_ups =~= zp.powerups.power_ups);
    }
    assert(y.players@ =~= z.players@);
    assert forall|k: int| 0 <= k < nu implies y.powerups@[k] == z.powerups@[k] by {
        let at = HostTick::powerups_offset(buf) + 9 * k;
        assert(at + 9 <= HostTick::powerups_offset(buf) + 9 * nu);
        assert(b[at] == buf[at]);
        assert(b[at + 1] == buf[at + 1] && b[at + 2] == buf[at + 2] && b[at + 3] == buf[at + 3]
            && b[at + 4] == buf[at + 4]);
        assert(b[at + 5] == buf[at + 5] && b[at + 6] == buf[at + 6] && b[at + 7] == buf[at + 7]
            && b[at + 8] == buf[at + 8]);
    }
    assert(y.powerups@ =~= z.powerups@);
    assert forall|k: int| 0 <= k < MAXCHESTS implies y.chests@[k] == z.chests@[k] by {
        let at = HostTick::chests_offset(buf) + 2 * k;
        assert(b[at] == buf[at] && b[at + 1] == buf[at + 1]);
    }
    assert(y.chests@ =~= z.chests@);
    assert forall|k: int| 0 <= k < b[10] implies #[trigger] b[HostTick::powerups_offset(b) + 9 * k]
        < NUM_POWERUPS by {
        let at = HostTick::powerups_offset(buf) + 9 * k;
        assert(buf[at] < NUM_POWERUPS);
    }
}

} // verus!
