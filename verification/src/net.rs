//! Networking rules: the tick clock, the host's table of connected clients,
//! and what the host and a client do with each datagram they receive.

use vstd::prelude::*;
use crate::packets::{
    ClientTick, ConnectionResponse, EnemyTickEvent, HostTick, MAGIC_NUMBER, Packet, PacketType,
    PlayerTickEvent, UserCmd, UserCmdEvent, header, host_tick_bounded, law_client_tick_roundtrip,
    law_host_tick_roundtrip, lemma_host_tick_prefix, vec2_at,
};
use crate::wire::{be16, be64, lemma_be16_read, lemma_be64_read, read_u16, u16_at, u32_at, u64_at};

verus! {

/// Simulation ticks per second.
pub const TICKRATE: u8 = 10;
/// Ticks by which remote entities are shown behind the present.
pub const DELAY: u16 = 2;
/// Largest datagram the game sends.
pub const MAX_PACKET_LEN: usize = 4096;
/// Size of the buffer that datagrams are received into.
pub const MAX_DATAGRAM_SIZE: usize = 4096;
/// Ticks in thirty seconds: how long a client may stay silent.
pub const TIMEOUT: u16 = 300;
/// Largest number of players in a game, the host included.
pub const MAX_PLAYERS: usize = 4;
/// Number of client slots of the host.
pub const CLIENT_SLOTS: usize = 3;

/// The next tick number.
pub fn increment_tick(tick_num: u16) -> (r: u16)
    requires
        tick_num < u16::MAX,
    ensures
        r == tick_num + 1,
{
    tick_num + 1
}

/// The two ticks between which remote entities are shown: `DELAY + 1` and
/// `DELAY` ticks back, counted modulo 2^16.
pub fn playback_ticks(tick_num: u16) -> (r: (u16, u16))
    ensures
        r.0 == (tick_num as int - DELAY - 1) % 0x10000,
        r.1 == (tick_num as int - DELAY) % 0x10000,
{
    (tick_num.wrapping_sub(DELAY + 1), tick_num.wrapping_sub(DELAY))
}

/// The tick before `tick_num`, counted modulo 2^16.
pub fn previous_tick(tick_num: u16) -> (r: u16)
    ensures
        r == (tick_num as int - 1) % 0x10000,
{
    tick_num.wrapping_sub(1)
}

/// Systems that only the host runs.
pub fn is_host(hosting: bool) -> (r: bool)
    ensures
        r == hosting,
{
    hosting
}

/// Systems that only a client runs.
pub fn is_client(hosting: bool) -> (r: bool)
    ensures
        r == !hosting,
{
    !hosting
}

/// A socket address, by value: IPv4 address and port, or IPv6 address,
/// port, flow information and scope.
#[derive(Clone, Copy, PartialEq, Eq, Structural, Debug)]
pub enum PeerAddr {
    V4 { ip: u32, port: u16 },
    V6 { ip6: u128, port: u16, flowinfo: u32, scope_id: u32 },
}

/// A client connected to the host.
#[derive(Clone, Copy, PartialEq, Eq, Structural, Debug)]
pub struct Connection {
    pub addr: PeerAddr,
    pub player_id: u8,
    /// Latest tick number received from the client.
    pub rmt_num: u16,
    pub ack: u32,
}

/// The host's client slots (the host itself takes none).
pub struct Connections(pub [Option<Connection>; CLIENT_SLOTS]);

/// The player id of the first connection from `origin` among `slots`.
pub open spec fn id_of_origin(slots: Seq<Option<Connection>>, origin: PeerAddr) -> Option<u8>
    decreases slots.len(),
{
    if slots.len() == 0 {
        None
    } else {
        match slots[0] {
            Some(c) => if c.addr == origin {
                Some(c.player_id)
            } else {
                id_of_origin(slots.drop_first(), origin)
            },
            None => id_of_origin(slots.drop_first(), origin),
        }
    }
}

/// Some connection holds player id `id`.
pub open spec fn id_in_use(slots: Seq<Option<Connection>>, id: u8) -> bool {
    exists|k: int| 0 <= k < slots.len() && (#[trigger] slots[k]) is Some && slots[k]->0.player_id == id
}

/// The id a new client gets: the least of 1, 2 and 3 that no connection
/// holds, or 4 when all three are taken.
pub open spec fn fresh_id(slots: Seq<Option<Connection>>) -> u8 {
    if !id_in_use(slots, 1) {
        1
    } else if !id_in_use(slots, 2) {
        2
    } else if !id_in_use(slots, 3) {
        3
    } else {
        4
    }
}

impl Connections {
    pub open spec fn slots(&self) -> Seq<Option<Connection>> {
        self.0@
    }

    /// No client is connected.
    pub fn new() -> (r: Connections)
        ensures
            forall|k: int| 0 <= k < CLIENT_SLOTS ==> #[trigger] r.slots()[k] is None,
            r.slots().len() == CLIENT_SLOTS,
    {
        Connections([None; CLIENT_SLOTS])
    }
}

/// The player id of the client at `origin`, if it is connected.
pub fn get_id_of_origin(conns: &Connections, origin: &PeerAddr) -> (r: Option<u8>)
    ensures
        r == id_of_origin(conns.slots(), *origin),
{
    let mut k: usize = 0;
    assert(conns.slots().skip(0) =~= conns.slots());
    while k < CLIENT_SLOTS
        invariant
            0 <= k <= CLIENT_SLOTS,
            conns.slots().len() == CLIENT_SLOTS,
            id_of_origin(conns.slots(), *origin) == id_of_origin(conns.slots().skip(k as int), *origin),
        decreases CLIENT_SLOTS - k,
    {
        let ghost rest = conns.slots().skip(k as int);
        assert(rest[0] == conns.slots()[k as int]);
        assert(rest.drop_first() =~= conns.slots().skip(k + 1));
        if let Some(conn) = conns.0[k] {
            if conn.addr == *origin {
                return Some(conn.player_id);
            }
        }
        k = k + 1;
    }
    assert(conns.slots().skip(CLIENT_SLOTS as int) =~= Seq::<Option<Connection>>::empty());
    None
}

/// Index of the first free slot, or the number of slots when none is free.
pub open spec fn first_free(slots: Seq<Option<Connection>>) -> int {
    if slots[0] is None {
        0
    } else if slots[1] is None {
        1
    } else if slots[2] is None {
        2
    } else {
        3
    }
}

/// The connection a new client at `origin` gets.
pub open spec fn new_connection(origin: PeerAddr, id: u8) -> Connection {
    Connection { addr: origin, player_id: id, rmt_num: 0, ack: 0 }
}

/// Connects a client at `origin`: it takes the first free slot with the
/// id given by `fresh_id`. `None`, with the table unchanged, when no slot
/// is free.
pub fn add_connection(conns: &mut Connections, origin: &PeerAddr) -> (r: Option<u8>)
    ensures
        first_free(old(conns).slots()) == CLIENT_SLOTS ==> r is None && final(conns).slots()
            == old(conns).slots(),
        first_free(old(conns).slots()) < CLIENT_SLOTS ==> r == Some(fresh_id(old(conns).slots()))
            && final(conns).slots() == old(conns).slots().update(
            first_free(old(conns).slots()),
            Some(new_connection(*origin, fresh_id(old(conns).slots()))),
        ),
{
    let ghost s0 = conns.slots();
    let mut unused = [false; MAX_PLAYERS];
    let mut k: usize = 0;
    while k < CLIENT_SLOTS
        invariant
            0 <= k <= CLIENT_SLOTS,
            conns.slots() == s0,
            s0.len() == CLIENT_SLOTS,
            unused@.len() == MAX_PLAYERS,
            forall|id: int|
                0 <= id < MAX_PLAYERS ==> #[trigger] unused@[id] == exists|j: int|
                    0 <= j < k && (#[trigger] s0[j]) is Some && s0[j]->0.player_id == id,
        decreases CLIENT_SLOTS - k,
    {
        if let Some(conn) = conns.0[k] {
            assert(s0[k as int] is Some);
            let i = conn.player_id as usize;
            if i < MAX_PLAYERS {
                unused[i] = true;
            }
        }
        k = k + 1;
    }
    assert forall|id: int| 0 <= id < MAX_PLAYERS implies #[trigger] unused@[id] == id_in_use(s0, id as u8) by {
        if unused@[id] {
            let j = choose|j: int| 0 <= j < CLIENT_SLOTS && (#[trigger] s0[j]) is Some && s0[j]->0.player_id == id;
            assert(s0[j]->0.player_id == id as u8);
        }
        if id_in_use(s0, id as u8) {
            let j = choose|j: int| 0 <= j < s0.len() && (#[trigger] s0[j]) is Some && s0[j]->0.player_id == id as u8;
            assert(s0[j]->0.player_id == id);
        }
    }
    let mut fresh: u8 = 1;
    let mut i: usize = 0;
    while i < MAX_PLAYERS
        invariant
            0 <= i <= MAX_PLAYERS,
            unused@.len() == MAX_PLAYERS,
            forall|id: int| 0 <= id < MAX_PLAYERS ==> #[trigger] unused@[id] == id_in_use(s0, id as u8),
            i <= 1 ==> fresh == 1,
            i == 2 ==> fresh == if unused@[1] {
                2u8
            } else {
                1u8
            },
            i == 3 ==> fresh == if !unused@[1] {
                1u8
            } else if !unused@[2] {
                2u8
            } else {
                3u8
            },
            i == 4 ==> fresh == fresh_id(s0),
        decreases MAX_PLAYERS - i,
    {
        if i == fresh as usize && unused[i] {
            fresh = fresh + 1;
        }
        i = i + 1;
    }
    let mut k: usize = 0;
    while k < CLIENT_SLOTS
        invariant
            0 <= k <= CLIENT_SLOTS,
            conns.slots() == s0,
            s0 == old(conns).slots(),
            s0.len() == CLIENT_SLOTS,
            fresh == fresh_id(s0),
            forall|j: int| 0 <= j < k ==> (#[trigger] s0[j]) is Some,
        decreases CLIENT_SLOTS - k,
    {
        if conns.0[k].is_none() {
            let c = Connection { addr: *origin, player_id: fresh, rmt_num: 0, ack: 0 };
            conns.0[k] = Some(c);
            proof {
                assert(conns.slots() =~= s0.update(k as int, Some(c)));
                assert(s0[k as int] is None);
                if k >= 1 {
                    assert(s0[0] is Some);
                }
                if k >= 2 {
                    assert(s0[1] is Some);
                }
                assert(first_free(s0) == k);
            }
            return Some(fresh);
        }
        k = k + 1;
    }
    proof {
        assert(s0[0] is Some);
        assert(s0[1] is Some);
        assert(s0[2] is Some);
    }
    None
}

/// A client that finds a free slot gets an id from 1 to 3 that no other
/// connected client holds.
pub proof fn law_fresh_id_unused(slots: Seq<Option<Connection>>)
    requires
        slots.len() == CLIENT_SLOTS,
        first_free(slots) < CLIENT_SLOTS,
    ensures
        !id_in_use(slots, fresh_id(slots)),
        1 <= fresh_id(slots) <= CLIENT_SLOTS,
{
    if id_in_use(slots, 1) && id_in_use(slots, 2) && id_in_use(slots, 3) {
        let f = first_free(slots);
        let a = choose|k: int| 0 <= k < slots.len() && (#[trigger] slots[k]) is Some && slots[k]->0.player_id == 1u8;
        let b = choose|k: int| 0 <= k < slots.len() && (#[trigger] slots[k]) is Some && slots[k]->0.player_id == 2u8;
        let c = choose|k: int| 0 <= k < slots.len() && (#[trigger] slots[k]) is Some && slots[k]->0.player_id == 3u8;
        assert(slots[f] is None);
        assert(a != f && b != f && c != f);
        assert(a != b && b != c && a != c);
        assert(false);
    }
}

/// The slot as it is after the client at `origin` left.
pub open spec fn without_origin_slot(slot: Option<Connection>, origin: PeerAddr) -> Option<Connection> {
    match slot {
        Some(c) => if c.addr == origin {
            None
        } else {
            Some(c)
        },
        None => None,
    }
}

/// The table with every connection from `origin` dropped.
pub open spec fn without_origin(slots: Seq<Option<Connection>>, origin: PeerAddr) -> Seq<
    Option<Connection>,
> {
    slots.map_values(|slot: Option<Connection>| without_origin_slot(slot, origin))
}

/// Drops every connection from `origin`.
pub fn remove_origin(conns: &mut Connections, origin: &PeerAddr)
    ensures
        final(conns).slots() == without_origin(old(conns).slots(), *origin),
{
    let ghost s0 = conns.slots();
    let mut k: usize = 0;
    while k < CLIENT_SLOTS
        invariant
            0 <= k <= CLIENT_SLOTS,
            s0.len() == CLIENT_SLOTS,
            conns.slots().len() == CLIENT_SLOTS,
            forall|j: int|
                0 <= j < CLIENT_SLOTS ==> #[trigger] conns.slots()[j] == if j < k {
                    without_origin_slot(s0[j], *origin)
                } else {
                    s0[j]
                },
        decreases CLIENT_SLOTS - k,
    {
        if let Some(conn) = conns.0[k] {
            if conn.addr == *origin {
                conns.0[k] = None;
            }
        }
        k = k + 1;
    }
    assert(conns.slots() =~= without_origin(s0, *origin));
}

/// A client that was just connected is known by its origin, under the id
/// it was given.
pub proof fn law_connected_client_known(slots: Seq<Option<Connection>>, origin: PeerAddr, id: u8)
    requires
        slots.len() == CLIENT_SLOTS,
        id_of_origin(slots, origin) is None,
        first_free(slots) < CLIENT_SLOTS,
    ensures
        id_of_origin(slots.update(first_free(slots), Some(new_connection(origin, id))), origin)
            == Some(id),
{
    reveal_with_fuel(id_of_origin, 4);
    let t = slots.update(first_free(slots), Some(new_connection(origin, id)));
    assert(slots.drop_first() =~= seq![slots[1], slots[2]]);
    assert(slots.drop_first().drop_first() =~= seq![slots[2]]);
    assert(t.drop_first() =~= seq![t[1], t[2]]);
    assert(t.drop_first().drop_first() =~= seq![t[2]]);
    assert(t.drop_first().drop_first().drop_first() =~= Seq::<Option<Connection>>::empty());
}

/// Once the client at `origin` has left, no connection is known by that origin.
pub proof fn law_disconnected_client_unknown(slots: Seq<Option<Connection>>, origin: PeerAddr)
    requires
        slots.len() == CLIENT_SLOTS,
    ensures
        id_of_origin(without_origin(slots, origin), origin) is None,
{
    reveal_with_fuel(id_of_origin, 4);
    let t = without_origin(slots, origin);
    assert(t.drop_first() =~= seq![t[1], t[2]]);
    assert(t.drop_first().drop_first() =~= seq![t[2]]);
    assert(t.drop_first().drop_first().drop_first() =~= Seq::<Option<Connection>>::empty());
}

/// No two connections share an origin or a player id.
pub open spec fn consistent(slots: Seq<Option<Connection>>) -> bool {
    forall|i: int, j: int|
        0 <= i < j < slots.len() && (#[trigger] slots[i]) is Some && (#[trigger] slots[j]) is Some
            ==> slots[i]->0.addr != slots[j]->0.addr && slots[i]->0.player_id != slots[j]->0.player_id
}

proof fn lemma_unknown_origin(slots: Seq<Option<Connection>>, origin: PeerAddr, k: int)
    requires
        slots.len() == CLIENT_SLOTS,
        id_of_origin(slots, origin) is None,
        0 <= k < CLIENT_SLOTS,
        slots[k] is Some,
    ensures
        slots[k]->0.addr != origin,
{
    reveal_with_fuel(id_of_origin, 4);
    assert(slots.drop_first() =~= seq![slots[1], slots[2]]);
    assert(slots.drop_first().drop_first() =~= seq![slots[2]]);
    assert(slots.drop_first().drop_first().drop_first() =~= Seq::<Option<Connection>>::empty());
}

/// Connecting a new client keeps the table consistent: its origin and its
/// id are held by no other connection.
pub proof fn law_connect_keeps_table_consistent(slots: Seq<Option<Connection>>, origin: PeerAddr)
    requires
        slots.len() == CLIENT_SLOTS,
        consistent(slots),
        id_of_origin(slots, origin) is None,
        first_free(slots) < CLIENT_SLOTS,
    ensures
        consistent(slots.update(first_free(slots), Some(new_connection(origin, fresh_id(slots))))),
{
    let f = first_free(slots);
    let t = slots.update(f, Some(new_connection(origin, fresh_id(slots))));
    law_fresh_id_unused(slots);
    assert forall|i: int, j: int|
        0 <= i < j < t.len() && (#[trigger] t[i]) is Some && (#[trigger] t[j]) is Some implies t[i]->0.addr
        != t[j]->0.addr && t[i]->0.player_id != t[j]->0.player_id by {
        if i == f {
            lemma_unknown_origin(slots, origin, j);
            assert(!(slots[j] is Some && slots[j]->0.player_id == fresh_id(slots)));
        } else if j == f {
            lemma_unknown_origin(slots, origin, i);
            assert(!(slots[i] is Some && slots[i]->0.player_id == fresh_id(slots)));
        }
    }
}

/// Dropping the connections of an origin keeps the table consistent.
pub proof fn law_disconnect_keeps_table_consistent(slots: Seq<Option<Connection>>, origin: PeerAddr)
    requires
        consistent(slots),
    ensures
        consistent(without_origin(slots, origin)),
{
    let t = without_origin(slots, origin);
    assert forall|i: int, j: int|
        0 <= i < j < t.len() && (#[trigger] t[i]) is Some && (#[trigger] t[j]) is Some implies t[i]->0.addr
        != t[j]->0.addr && t[i]->0.player_id != t[j]->0.player_id by {
        assert(slots[i] is Some && slots[j] is Some);
    }
}

/// Drops every connection.
pub fn clear_connections(conns: &mut Connections)
    ensures
        forall|k: int| 0 <= k < CLIENT_SLOTS ==> #[trigger] final(conns).slots()[k] is None,
{
    conns.0 = [None; CLIENT_SLOTS];
}

/// The datagram opens with the game's magic number.
pub open spec fn is_game_datagram(buf: Seq<u8>) -> bool {
    u16_at(buf, 0) == MAGIC_NUMBER
}

/// The client tick whose bytes (after the header) are `b`.
pub open spec fn client_tick_of(b: Seq<u8>) -> ClientTick {
    ClientTick {
        seq_num: u16_at(b, 0),
        rmt_num: u16_at(b, 2),
        ack: u32_at(b, 4),
        tick: UserCmd { pos: vec2_at(b, 8), dir: u32_at(b, 16), events: b[20] },
    }
}

/// The connection response whose bytes (after the header) are `b`.
pub open spec fn connection_response_of(b: Seq<u8>) -> ConnectionResponse {
    ConnectionResponse { player_id: b[0], seed: u64_at(b, 1) }
}

/// The packet types the host handles: connection requests, client ticks
/// and disconnections.
pub open spec fn host_handles(code: u8) -> bool {
    code == PacketType::ConnectionRequest.code_of() || code == PacketType::ClientTick.code_of()
        || code == PacketType::Disconnect.code_of()
}

/// What the host does with one received datagram.
pub enum HostAction {
    /// Not a datagram of the game: stop reading for this frame.
    Stop,
    /// Nothing to do: a repeated request, a client that is not connected,
    /// or a tick that came too late.
    Ignore,
    /// A new client was connected: send it these bytes.
    Respond(Vec<u8>),
    /// No slot is free: tell the client the server is full.
    ServerFull,
    /// A connected client's input for one tick.
    Command(UserCmdEvent),
    /// The client at the origin left and its slot was freed.
    Disconnected,
}

/// The host's handling of one datagram `buf` (the whole receive buffer)
/// from `origin`, at tick `tick_num`, in a game of map seed `seed`.
pub fn host_receive(conns: &mut Connections, tick_num: u16, seed: u64, buf: &[u8], origin: &PeerAddr) -> (r: HostAction)
    requires
        buf@.len() == MAX_DATAGRAM_SIZE,
        is_game_datagram(buf@) ==> host_handles(buf@[2]),
        is_game_datagram(buf@) && buf@[2] == PacketType::ClientTick.code_of() && id_of_origin(
            old(conns).slots(),
            *origin,
        ) is Some ==> tick_num >= DELAY,
    ensures
        !is_game_datagram(buf@) ==> r is Stop && final(conns).slots() == old(conns).slots(),
        is_game_datagram(buf@) && buf@[2] == PacketType::ConnectionRequest.code_of() ==> {
            let s = old(conns).slots();
            if id_of_origin(s, *origin) is Some {
                r is Ignore && final(conns).slots() == s
            } else if first_free(s) == CLIENT_SLOTS {
                r is ServerFull && final(conns).slots() == s
            } else {
                &&& r matches HostAction::Respond(b) && b@ == (ConnectionResponse {
                    player_id: fresh_id(s),
                    seed,
                }).encoding()
                &&& final(conns).slots() == s.update(
                    first_free(s),
                    Some(new_connection(*origin, fresh_id(s))),
                )
            }
        },
        is_game_datagram(buf@) && buf@[2] == PacketType::ClientTick.code_of() ==> {
            let p = client_tick_of(buf@.skip(3));
            &&& final(conns).slots() == old(conns).slots()
            &&& match id_of_origin(old(conns).slots(), *origin) {
                None => r is Ignore,
                Some(id) => if p.seq_num < tick_num - DELAY {
                    r is Ignore
                } else {
                    r == HostAction::Command(UserCmdEvent { seq_num: p.seq_num, id, tick: p.tick })
                },
            }
        },
        is_game_datagram(buf@) && buf@[2] == PacketType::Disconnect.code_of() ==> r is Disconnected
            && final(conns).slots() == without_origin(old(conns).slots(), *origin),
{
    let magic = read_u16(buf, 0);
    if magic != MAGIC_NUMBER {
        return HostAction::Stop;
    }
    let pt = buf[2];
    let (_, body) = buf.split_at(3);
    assert(body@ =~= buf@.skip(3));
    if pt == PacketType::ConnectionRequest.to_u8() {
        let known = get_id_of_origin(conns, origin);
        if known.is_some() {
            return HostAction::Ignore;
        }
        let added = add_connection(conns, origin);
        match added {
            None => HostAction::ServerFull,
            Some(player_id) => {
                let packet = ConnectionResponse { player_id, seed };
                let mut bytes: Vec<u8> = Vec::new();
                packet.to_buf(&mut bytes);
                assert(bytes@ =~= packet.encoding());
                HostAction::Respond(bytes)
            },
        }
    } else if pt == PacketType::ClientTick.to_u8() {
        let packet = ClientTick::from_buf(body);
        let known = get_id_of_origin(conns, origin);
        match known {
            None => HostAction::Ignore,
            Some(id) => {
                if packet.seq_num < tick_num - DELAY {
                    HostAction::Ignore
                } else {
                    HostAction::Command(UserCmdEvent { seq_num: packet.seq_num, id, tick: packet.tick })
                }
            },
        }
    } else {
        remove_origin(conns, origin);
        HostAction::Disconnected
    }
}

/// A connection response that the host sends reaches the client, in a
/// receive buffer that holds its bytes followed by anything, as a
/// connection response with the same player id and seed.
pub proof fn law_response_reaches_client(x: ConnectionResponse, buf: Seq<u8>)
    requires
        buf.len() == MAX_DATAGRAM_SIZE,
        buf.take(x.encoding().len() as int) == x.encoding(),
    ensures
        is_game_datagram(buf),
        buf[2] == PacketType::ConnectionResponse.code_of(),
        client_handles(buf[2]),
        connection_response_of(buf.skip(3)) == x,
{
    let e = x.encoding();
    assert(e.len() == 12);
    assert(forall|i: int| 0 <= i < 12 ==> #[trigger] buf[i] == e[i]) by {
        assert forall|i: int| 0 <= i < 12 implies #[trigger] buf[i] == e[i] by {
            assert(buf.take(12)[i] == buf[i]);
        }
    }
    assert(buf.subrange(0, 2) =~= be16(MAGIC_NUMBER));
    lemma_be16_read(buf, 0, MAGIC_NUMBER);
    let y = connection_response_of(buf.skip(3));
    let b = buf.skip(3);
    let eb = e.skip(3);
    assert(forall|i: int| 0 <= i < 9 ==> #[trigger] b[i] == eb[i]) by {
        assert forall|i: int| 0 <= i < 9 implies #[trigger] b[i] == eb[i] by {
            assert(b[i] == buf[i + 3]);
            assert(eb[i] == e[i + 3]);
        }
    }
    assert(b.subrange(1, 9) =~= eb.subrange(1, 9));
    assert(eb =~= seq![x.player_id] + be64(x.seed));
    assert(eb.subrange(1, 9) =~= be64(x.seed));
    lemma_be64_read(b, 1, x.seed);
    assert(y.player_id == b[0]);
    assert(y.seed == x.seed);
}

/// A client tick that a client sends reaches the host, in a receive buffer
/// that holds its bytes followed by anything, as the same tick.
pub proof fn law_client_tick_reaches_host(x: ClientTick, buf: Seq<u8>)
    requires
        buf.len() == MAX_DATAGRAM_SIZE,
        buf.take(x.encoding().len() as int) == x.encoding(),
    ensures
        is_game_datagram(buf),
        buf[2] == PacketType::ClientTick.code_of(),
        host_handles(buf[2]),
        client_tick_of(buf.skip(3)) == x,
{
    let e = x.encoding();
    assert(e.len() == 24);
    assert(forall|i: int| 0 <= i < 24 ==> #[trigger] buf[i] == e[i]) by {
        assert forall|i: int| 0 <= i < 24 implies #[trigger] buf[i] == e[i] by {
            assert(buf.take(24)[i] == buf[i]);
        }
    }
    assert(buf.subrange(0, 2) =~= be16(MAGIC_NUMBER));
    lemma_be16_read(buf, 0, MAGIC_NUMBER);
    let b = buf.skip(3);
    let eb = e.skip(3);
    assert(b.take(21) =~= eb);
    let y = client_tick_of(b);
    assert(y == client_tick_of(eb));
    law_client_tick_roundtrip(x, y);
}

/// A host tick that the host sends reaches the client, in a receive buffer
/// that holds its bytes followed by anything (the tick fits the buffer),
/// as the same tick: the buffer is one the client accepts, and what it
/// decodes holds the same numbers and records (for a tick of at most 255
/// records of each counted kind and `MAXCHESTS` chests).
pub proof fn law_host_tick_reaches_client(x: HostTick, buf: Seq<u8>, y: HostTick)
    requires
        host_tick_bounded(x),
        buf.len() == MAX_DATAGRAM_SIZE,
        x.encoding().len() <= MAX_DATAGRAM_SIZE,
        buf.take(x.encoding().len() as int) == x.encoding(),
        y.decoded_from(buf.skip(3)),
    ensures
        is_game_datagram(buf),
        buf[2] == PacketType::HostTick.code_of(),
        client_handles(buf[2]),
        HostTick::fits(buf.skip(3)),
        y.seq_num == x.seq_num,
        y.rmt_num == x.rmt_num,
        y.ack == x.ack,
        y.enemies@ == x.enemies@,
        y.players@ == x.players@,
        y.powerups@ == x.powerups@,
        y.chests@ == x.chests@,
{
    let e = x.encoding();
    let n = e.len() as int;
    assert(e =~= header(PacketType::HostTick) + x.body());
    assert forall|i: int| 0 <= i < n implies #[trigger] buf[i] == e[i] by {
        assert(buf.take(n)[i] == buf[i]);
    }
    assert(buf.subrange(0, 2) =~= be16(MAGIC_NUMBER));
    lemma_be16_read(buf, 0, MAGIC_NUMBER);
    assert(buf[2] == e[2]);
    let b = buf.skip(3);
    assert(b.take(x.body().len() as int) =~= x.body());
    lemma_host_tick_prefix(x, y, b);
    assert(e.skip(3) =~= x.body());
    law_host_tick_roundtrip(x, y);
}

/// The packet types a client handles: server-full notices, connection
/// responses and host ticks.
pub open spec fn client_handles(code: u8) -> bool {
    code == PacketType::ServerFull.code_of() || code == PacketType::ConnectionResponse.code_of()
        || code == PacketType::HostTick.code_of()
}

/// The distance between two tick numbers.
pub open spec fn tick_distance(a: u16, b: u16) -> int {
    if a >= b {
        a - b
    } else {
        b - a
    }
}

/// The client's tick number after a host tick numbered `seq_num` arrived:
/// it follows the host when the two are more than one tick apart.
pub open spec fn resynced(tick_num: u16, seq_num: u16) -> u16 {
    if tick_distance(tick_num, seq_num) > 1 {
        seq_num
    } else {
        tick_num
    }
}

/// The client's tick number after a host tick numbered `seq_num` arrived.
pub fn resync(tick_num: u16, seq_num: u16) -> (r: u16)
    ensures
        r == resynced(tick_num, seq_num),
{
    let diff = if tick_num >= seq_num {
        tick_num - seq_num
    } else {
        seq_num - tick_num
    };
    if diff > 1 {
        seq_num
    } else {
        tick_num
    }
}

/// After a host tick arrives, the client's clock is within one tick of the
/// host's; a clock already that close is left alone.
pub proof fn law_resync_keeps_clocks_close(tick_num: u16, seq_num: u16)
    ensures
        tick_distance(resynced(tick_num, seq_num), seq_num) <= 1,
        tick_distance(tick_num, seq_num) <= 1 ==> resynced(tick_num, seq_num) == tick_num,
{
}

/// What a client does with one received datagram.
pub enum ClientAction {
    /// Not a datagram of the game: stop reading for this frame.
    Stop,
    /// The host accepted the connection: the player id and the map seed.
    Connected(ConnectionResponse),
    /// A host tick, and the client's tick number after it.
    Tick(HostTick, u16),
    /// The host has no free slot.
    ServerFull,
}

/// A client's handling of one datagram `buf` (the whole receive buffer)
/// at tick `tick_num`.
pub fn client_receive(tick_num: u16, buf: &[u8]) -> (r: ClientAction)
    requires
        buf@.len() == MAX_DATAGRAM_SIZE,
        is_game_datagram(buf@) ==> client_handles(buf@[2]),
        is_game_datagram(buf@) && buf@[2] == PacketType::HostTick.code_of() ==> HostTick::fits(
            buf@.skip(3),
        ),
    ensures
        !is_game_datagram(buf@) ==> r is Stop,
        is_game_datagram(buf@) && buf@[2] == PacketType::ServerFull.code_of() ==> r is ServerFull,
        is_game_datagram(buf@) && buf@[2] == PacketType::ConnectionResponse.code_of() ==> r
            == ClientAction::Connected(connection_response_of(buf@.skip(3))),
        is_game_datagram(buf@) && buf@[2] == PacketType::HostTick.code_of() ==> (r matches ClientAction::Tick(
            p,
            t,
        ) && p.decoded_from(buf@.skip(3)) && t == resynced(tick_num, p.seq_num)),
{
    let magic = read_u16(buf, 0);
    if magic != MAGIC_NUMBER {
        return ClientAction::Stop;
    }
    let pt = buf[2];
    let (_, body) = buf.split_at(3);
    assert(body@ =~= buf@.skip(3));
    if pt == PacketType::ConnectionResponse.to_u8() {
        ClientAction::Connected(ConnectionResponse::from_buf(body))
    } else if pt == PacketType::HostTick.to_u8() {
        let packet = HostTick::from_buf(body);
        let t = resync(tick_num, packet.seq_num);
        ClientAction::Tick(packet, t)
    } else {
        ClientAction::ServerFull
    }
}

/// One event per player record of a host tick, in order, stamped with the
/// tick's number.
pub fn player_events(packet: &HostTick) -> (r: Vec<PlayerTickEvent>)
    ensures
        r@.len() == packet.players@.len(),
        forall|k: int|
            0 <= k < r@.len() ==> #[trigger] r@[k] == (PlayerTickEvent {
                seq_num: packet.seq_num,
                tick: packet.players@[k],
            }),
{
    let mut r: Vec<PlayerTickEvent> = Vec::new();
    let mut k: usize = 0;
    while k < packet.players.len()
        invariant
            k <= packet.players@.len(),
            r@.len() == k,
            forall|j: int|
                0 <= j < k ==> #[trigger] r@[j] == (PlayerTickEvent {
                    seq_num: packet.seq_num,
                    tick: packet.players@[j],
                }),
        decreases packet.players@.len() - k,
    {
        r.push(PlayerTickEvent { seq_num: packet.seq_num, tick: packet.players[k] });
        k = k + 1;
    }
    r
}

/// One event per enemy record of a host tick, in order, stamped with the
/// tick's number.
pub fn enemy_events(packet: &HostTick) -> (r: Vec<EnemyTickEvent>)
    ensures
        r@.len() == packet.enemies@.len(),
        forall|k: int|
            0 <= k < r@.len() ==> #[trigger] r@[k] == (EnemyTickEvent {
                seq_num: packet.seq_num,
                tick: packet.enemies@[k],
            }),
{
    let mut r: Vec<EnemyTickEvent> = Vec::new();
    let mut k: usize = 0;
    while k < packet.enemies.len()
        invariant
            k <= packet.enemies@.len(),
            r@.len() == k,
            forall|j: int|
                0 <= j < k ==> #[trigger] r@[j] == (EnemyTickEvent {
                    seq_num: packet.seq_num,
                    tick: packet.enemies@[j],
                }),
        decreases packet.enemies@.len() - k,
    {
        r.push(EnemyTickEvent { seq_num: packet.seq_num, tick: packet.enemies[k] });
        k = k + 1;
    }
    r
}

} // verus!
