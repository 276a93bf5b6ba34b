use jordquest::components::{PowerUpType, Stats, StoredPowerUps};
use jordquest::packets::{
    empty_packet, enemy_record, player_record, ClientTick, ConnectionResponse, EnemyTick, HostTick, Packet, PacketType, PlayerTick,
    UserCmd, WireVec2, MAGIC_NUMBER, MAXCHESTS,
};
use jordquest::wire::{push_u16, push_u32, push_u64, read_u16, read_u32, read_u64};

#[test]
fn big_endian_integers_roundtrip() {
    let mut bytes: Vec<u8> = Vec::new();
    push_u16(&mut bytes, 0x1234);
    push_u32(&mut bytes, 0xdead_beef);
    push_u64(&mut bytes, 0x0102_0304_0506_0708);
    assert_eq!(bytes, vec![0x12, 0x34, 0xde, 0xad, 0xbe, 0xef, 1, 2, 3, 4, 5, 6, 7, 8]);
    assert_eq!(read_u16(&bytes, 0), 0x1234);
    assert_eq!(read_u32(&bytes, 2), 0xdead_beef);
    assert_eq!(read_u64(&bytes, 6), 0x0102_0304_0506_0708);
}

#[test]
fn packet_type_numbers() {
    assert_eq!(PacketType::ServerFull.to_u8(), 0);
    assert_eq!(PacketType::Disconnect.to_u8(), 1);
    assert_eq!(PacketType::ConnectionRequest.to_u8(), 2);
    assert_eq!(PacketType::ConnectionResponse.to_u8(), 3);
    assert_eq!(PacketType::HostTick.to_u8(), 4);
    assert_eq!(PacketType::ClientTick.to_u8(), 5);
    for c in 0u8..6 {
        assert_eq!(PacketType::from_u8(c).unwrap().to_u8(), c);
    }
    assert_eq!(PacketType::from_u8(6), None);
    assert_eq!(PacketType::from_u8(255), None);
}

#[test]
fn empty_packet_is_magic_and_type() {
    assert_eq!(MAGIC_NUMBER, 24835);
    assert_eq!(empty_packet(PacketType::ConnectionRequest), vec![0x61, 0x03, 2]);
    assert_eq!(empty_packet(PacketType::ServerFull), vec![0x61, 0x03, 0]);
}

#[test]
fn connection_response_bytes_and_roundtrip() {
    let p = ConnectionResponse { player_id: 2, seed: 0x0a0b_0c0d_0e0f_1011 };
    let mut bytes = Vec::new();
    p.to_buf(&mut bytes);
    assert_eq!(bytes, vec![0x61, 0x03, 3, 2, 0x0a, 0x0b, 0x0c, 0x0d, 0x0e, 0x0f, 0x10, 0x11]);
    let back = ConnectionResponse::from_buf(&bytes[3..]);
    assert_eq!(back, p);
}

#[test]
fn to_buf_appends() {
    let p = ConnectionResponse { player_id: 1, seed: 7 };
    let mut bytes = vec![9u8, 9];
    p.to_buf(&mut bytes);
    assert_eq!(&bytes[..2], &[9, 9]);
    assert_eq!(bytes.len(), 2 + 12);
}

#[test]
fn client_tick_bytes_and_roundtrip() {
    let p = ClientTick {
        seq_num: 513,
        rmt_num: 2,
        ack: 3,
        tick: UserCmd { pos: WireVec2 { x: 1.5f32.to_bits(), y: (-2.0f32).to_bits() }, dir: 0.25f32.to_bits(), events: 3 },
    };
    let mut bytes = Vec::new();
    p.to_buf(&mut bytes);
    assert_eq!(bytes.len(), 24);
    assert_eq!(&bytes[..7], &[0x61, 0x03, 5, 2, 1, 0, 2]);
    assert_eq!(&bytes[11..15], &1.5f32.to_be_bytes());
    assert_eq!(bytes[23], 3);
    let back = ClientTick::from_buf(&bytes[3..]);
    assert_eq!(back, p);
    assert_eq!(f32::from_bits(back.tick.pos.y), -2.0);
}

fn sample_host_tick() -> HostTick {
    HostTick {
        seq_num: 40,
        rmt_num: 38,
        ack: 0x0102_0304,
        enemies: vec![
            EnemyTick { id: 7, pos: WireVec2 { x: 10.0f32.to_bits(), y: 20.0f32.to_bits() }, hp: 90, events: 1 },
            EnemyTick { id: 8, pos: WireVec2 { x: 0, y: 1 }, hp: 0, events: 0 },
        ],
        players: vec![PlayerTick {
            id: 1,
            pos: WireVec2 { x: 3, y: 4 },
            hp: 100,
            dir: 0.5f32.to_bits(),
            events: 2,
            stats: Stats { score: 5, enemies_killed: 4, players_killed: 1, camps_captured: 1, deaths: 2, kd_ratio: 0.5f32.to_bits() },
            powerups: StoredPowerUps { power_ups: [1, 2, 3, 4, 5] },
        }],
        powerups: vec![(PowerUpType::AttackSpeedUp, WireVec2 { x: 11, y: 12 })],
        chests: (0..MAXCHESTS as u8).map(|i| (i, 100 - i)).collect(),
    }
}

#[test]
fn host_tick_layout_and_roundtrip() {
    let p = sample_host_tick();
    let mut bytes = Vec::new();
    p.to_buf(&mut bytes);
    assert_eq!(bytes.len(), 3 + 11 + 2 * 11 + 29 + 9 + 2 * MAXCHESTS);
    assert_eq!(&bytes[..3], &[0x61, 0x03, 4]);
    assert_eq!(&bytes[3..14], &[0, 40, 0, 38, 1, 2, 3, 4, 2, 1, 1]);
    assert!(HostTick::fits_buf(&bytes[3..]));
    let back = HostTick::from_buf(&bytes[3..]);
    assert_eq!(back.seq_num, 40);
    assert_eq!(back.rmt_num, 38);
    assert_eq!(back.ack, 0x0102_0304);
    assert_eq!(back.enemies, p.enemies);
    assert_eq!(back.players.len(), 1);
    let pl = back.players[0];
    assert_eq!((pl.id, pl.hp, pl.dir, pl.events), (1, 100, 0.5f32.to_bits(), 2));
    assert_eq!(pl.stats, p.players[0].stats);
    assert_eq!(pl.powerups.power_ups, [1, 2, 3, 4, 5]);
    assert_eq!(back.powerups, p.powerups);
    assert_eq!(back.chests, p.chests);
}

#[test]
fn host_tick_ignores_trailing_bytes() {
    let p = sample_host_tick();
    let mut bytes = Vec::new();
    p.to_buf(&mut bytes);
    let body = bytes[3..].to_vec();
    let mut padded = body.clone();
    padded.extend_from_slice(&[9, 200, 0, 77, 4]);
    assert!(HostTick::fits_buf(&padded));
    let a = HostTick::from_buf(&body);
    let b = HostTick::from_buf(&padded);
    assert_eq!((a.seq_num, a.rmt_num, a.ack), (b.seq_num, b.rmt_num, b.ack));
    assert_eq!(a.enemies, b.enemies);
    assert_eq!(a.players.len(), b.players.len());
    assert_eq!(a.players[0].pos, b.players[0].pos);
    assert_eq!(a.players[0].stats, b.players[0].stats);
    assert_eq!(a.players[0].powerups.power_ups, b.players[0].powerups.power_ups);
    assert_eq!(a.powerups, b.powerups);
    assert_eq!(a.chests, b.chests);
}

#[test]
fn host_tick_fits_buf_rejects_bad_input() {
    let p = sample_host_tick();
    let mut bytes = Vec::new();
    p.to_buf(&mut bytes);
    let body = &bytes[3..];
    assert!(!HostTick::fits_buf(&body[..10]));
    assert!(!HostTick::fits_buf(&body[..body.len() - 1]));
    let mut bad = body.to_vec();
    let powerup_at = 11 + 2 * 11 + 29;
    bad[powerup_at] = 5;
    assert!(!HostTick::fits_buf(&bad));
    bad[powerup_at] = 4;
    assert!(HostTick::fits_buf(&bad));
}

#[test]
fn records_for_a_host_tick() {
    let st = Stats { score: 1, enemies_killed: 2, players_killed: 3, camps_captured: 4, deaths: 5, kd_ratio: 6 };
    let pu = StoredPowerUps { power_ups: [0, 1, 0, 1, 0] };
    let p = player_record(2, Some(WireVec2 { x: 1, y: 2 }), Some(50), Some(7), Some(1), st, pu).unwrap();
    assert_eq!((p.id, p.pos, p.hp, p.dir, p.events), (2, WireVec2 { x: 1, y: 2 }, 50, 7, 1));
    assert_eq!(p.stats, st);
    assert_eq!(p.powerups, pu);
    assert!(player_record(2, None, Some(50), Some(7), Some(1), st, pu).is_none());
    assert!(player_record(2, Some(WireVec2 { x: 1, y: 2 }), Some(50), None, Some(1), st, pu).is_none());
    assert!(player_record(2, Some(WireVec2 { x: 1, y: 2 }), Some(50), Some(7), None, st, pu).is_none());
    assert_eq!(enemy_record(4, WireVec2 { x: 0, y: 0 }, 9, None).events, 0);
    assert_eq!(enemy_record(4, WireVec2 { x: 0, y: 0 }, 9, Some(3)), EnemyTick { id: 4, pos: WireVec2 { x: 0, y: 0 }, hp: 9, events: 3 });
}
