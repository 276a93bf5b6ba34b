use jordquest::net::{
    add_connection, client_receive, clear_connections, enemy_events, get_id_of_origin, host_receive,
    increment_tick, is_client, is_host, playback_ticks, player_events, previous_tick,
    remove_origin, resync, ClientAction, Connection, Connections, HostAction, PeerAddr, MAX_DATAGRAM_SIZE,
};
use jordquest::packets::{
    ClientTick, ConnectionResponse, EnemyTick, HostTick, Packet, PacketType, UserCmd, UserCmdEvent, WireVec2,
    MAXCHESTS,
};

fn addr(port: u16) -> PeerAddr {
    PeerAddr::V4 { ip: 0x7f00_0001, port }
}

fn datagram(bytes: &[u8]) -> Vec<u8> {
    let mut buf = vec![0u8; MAX_DATAGRAM_SIZE];
    buf[..bytes.len()].copy_from_slice(bytes);
    buf
}

#[test]
fn tick_helpers() {
    assert_eq!(increment_tick(41), 42);
    assert_eq!(playback_ticks(10), (7, 8));
    assert_eq!(playback_ticks(1), (65534, 65535));
    assert_eq!(previous_tick(0), 65535);
    assert_eq!(previous_tick(5), 4);
    assert!(is_host(true) && !is_client(true));
    assert!(!is_host(false) && is_client(false));
}

#[test]
fn connections_take_first_free_slot_and_fresh_id() {
    let mut conns = Connections::new();
    assert_eq!(add_connection(&mut conns, &addr(1)), Some(1));
    assert_eq!(add_connection(&mut conns, &addr(2)), Some(2));
    assert_eq!(get_id_of_origin(&conns, &addr(1)), Some(1));
    assert_eq!(get_id_of_origin(&conns, &addr(2)), Some(2));
    assert_eq!(get_id_of_origin(&conns, &addr(9)), None);
    remove_origin(&mut conns, &addr(1));
    assert_eq!(get_id_of_origin(&conns, &addr(1)), None);
    // slot 0 is free again and id 1 is free again
    assert_eq!(add_connection(&mut conns, &addr(3)), Some(1));
    assert_eq!(conns.0[0].unwrap().addr, addr(3));
    assert_eq!(conns.0[1].unwrap().player_id, 2);
}

#[test]
fn third_client_gets_id_three_and_the_table_is_full() {
    let mut conns = Connections::new();
    add_connection(&mut conns, &addr(1));
    add_connection(&mut conns, &addr(2));
    assert_eq!(add_connection(&mut conns, &addr(3)), Some(3));
    // a full table, with the ids it handed out itself, takes no one else
    let before = conns.0;
    assert_eq!(add_connection(&mut conns, &addr(4)), None);
    assert_eq!(conns.0, before);
    let c = Connection { addr: addr(1), player_id: 1, rmt_num: 0, ack: 0 };
    let mut full = Connections([Some(c), Some(Connection { player_id: 2, addr: addr(2), ..c }), Some(Connection { player_id: 0, addr: addr(5), ..c })]);
    let before = full.0;
    assert_eq!(add_connection(&mut full, &addr(4)), None);
    assert_eq!(full.0, before);
    clear_connections(&mut full);
    assert!(full.0.iter().all(|s| s.is_none()));
}

#[test]
fn a_table_holding_id_three_still_takes_a_client() {
    let c = Connection { addr: addr(1), player_id: 3, rmt_num: 0, ack: 0 };
    let mut conns = Connections([Some(c), None, Some(Connection { player_id: 1, addr: addr(2), ..c })]);
    assert_eq!(add_connection(&mut conns, &addr(7)), Some(2));
    assert_eq!(conns.0[1], Some(Connection { addr: addr(7), player_id: 2, rmt_num: 0, ack: 0 }));
    assert_eq!(conns.0[0], Some(c));
    // ids past the player count are left alone too
    let mut odd = Connections([Some(Connection { player_id: 200, ..c }), None, None]);
    assert_eq!(add_connection(&mut odd, &addr(8)), Some(1));
}

#[test]
fn host_stops_on_foreign_datagram() {
    let mut conns = Connections::new();
    let buf = datagram(&[1, 2, 2]);
    assert!(matches!(host_receive(&mut conns, 10, 99, &buf, &addr(1)), HostAction::Stop));
    assert!(conns.0.iter().all(|s| s.is_none()));
}

#[test]
fn host_answers_a_connection_request() {
    let mut conns = Connections::new();
    let buf = datagram(&[0x61, 0x03, 2]);
    match host_receive(&mut conns, 10, 0x1122_3344_5566_7788, &buf, &addr(1)) {
        HostAction::Respond(bytes) => {
            let mut expected = Vec::new();
            ConnectionResponse { player_id: 1, seed: 0x1122_3344_5566_7788 }.to_buf(&mut expected);
            assert_eq!(bytes, expected);
        }
        _ => panic!("expected a connection response"),
    }
    assert_eq!(get_id_of_origin(&conns, &addr(1)), Some(1));
    // a repeated request from a known client is ignored
    assert!(matches!(host_receive(&mut conns, 11, 5, &buf, &addr(1)), HostAction::Ignore));
}

#[test]
fn host_reports_a_full_server() {
    let c = Connection { addr: addr(1), player_id: 1, rmt_num: 0, ack: 0 };
    let mut conns = Connections([Some(c), Some(Connection { player_id: 2, addr: addr(2), ..c }), Some(Connection { player_id: 3, addr: addr(3), ..c })]);
    let buf = datagram(&[0x61, 0x03, 2]);
    assert!(matches!(host_receive(&mut conns, 10, 5, &buf, &addr(4)), HostAction::ServerFull));
    assert_eq!(get_id_of_origin(&conns, &addr(4)), None);
}

fn client_tick_datagram(seq_num: u16) -> Vec<u8> {
    let p = ClientTick { seq_num, rmt_num: 0, ack: 0, tick: UserCmd { pos: WireVec2 { x: 1, y: 2 }, dir: 3, events: 1 } };
    let mut bytes = Vec::new();
    p.to_buf(&mut bytes);
    datagram(&bytes)
}

#[test]
fn host_turns_client_ticks_into_commands() {
    let mut conns = Connections::new();
    add_connection(&mut conns, &addr(1));
    let buf = client_tick_datagram(20);
    match host_receive(&mut conns, 21, 0, &buf, &addr(1)) {
        HostAction::Command(ev) => assert_eq!(
            ev,
            UserCmdEvent { seq_num: 20, id: 1, tick: UserCmd { pos: WireVec2 { x: 1, y: 2 }, dir: 3, events: 1 } }
        ),
        _ => panic!("expected a command"),
    }
    // exactly DELAY ticks behind is still taken
    assert!(matches!(host_receive(&mut conns, 22, 0, &buf, &addr(1)), HostAction::Command(_)));
    // a tick older than that is late
    assert!(matches!(host_receive(&mut conns, 23, 0, &buf, &addr(1)), HostAction::Ignore));
    // ticks of clients that are not connected are ignored
    assert!(matches!(host_receive(&mut conns, 21, 0, &buf, &addr(2)), HostAction::Ignore));
}

#[test]
fn host_drops_a_client_that_disconnects() {
    let mut conns = Connections::new();
    add_connection(&mut conns, &addr(1));
    add_connection(&mut conns, &addr(2));
    let buf = datagram(&[0x61, 0x03, 1]);
    assert!(matches!(host_receive(&mut conns, 5, 0, &buf, &addr(1)), HostAction::Disconnected));
    assert_eq!(get_id_of_origin(&conns, &addr(1)), None);
    assert_eq!(get_id_of_origin(&conns, &addr(2)), Some(2));
}

#[test]
fn resync_follows_the_host_when_far_apart() {
    assert_eq!(resync(10, 11), 10);
    assert_eq!(resync(10, 9), 10);
    assert_eq!(resync(10, 10), 10);
    assert_eq!(resync(10, 12), 12);
    assert_eq!(resync(10, 3), 3);
    assert_eq!(resync(0, 65535), 65535);
}

#[test]
fn client_handles_each_host_datagram() {
    assert!(matches!(client_receive(5, &datagram(&[0, 0, 4])), ClientAction::Stop));
    assert!(matches!(client_receive(5, &datagram(&[0x61, 0x03, 0])), ClientAction::ServerFull));
    let mut bytes = Vec::new();
    ConnectionResponse { player_id: 2, seed: 77 }.to_buf(&mut bytes);
    match client_receive(5, &datagram(&bytes)) {
        ClientAction::Connected(r) => assert_eq!(r, ConnectionResponse { player_id: 2, seed: 77 }),
        _ => panic!("expected a connection response"),
    }
    let tick = HostTick {
        seq_num: 30,
        rmt_num: 0,
        ack: 0,
        enemies: vec![EnemyTick { id: 3, pos: WireVec2 { x: 5, y: 6 }, hp: 50, events: 0 }],
        players: vec![],
        powerups: vec![],
        chests: vec![(0, 0); MAXCHESTS],
    };
    let mut bytes = Vec::new();
    tick.to_buf(&mut bytes);
    match client_receive(5, &datagram(&bytes)) {
        ClientAction::Tick(p, t) => {
            assert_eq!(t, 30);
            assert_eq!(p.seq_num, 30);
            let evs = enemy_events(&p);
            assert_eq!(evs.len(), 1);
            assert_eq!(evs[0].seq_num, 30);
            assert_eq!(evs[0].tick, tick.enemies[0]);
            assert!(player_events(&p).is_empty());
        }
        _ => panic!("expected a host tick"),
    }
    match client_receive(29, &datagram(&bytes)) {
        ClientAction::Tick(_, t) => assert_eq!(t, 29),
        _ => panic!("expected a host tick"),
    }
    let _ = PacketType::HostTick;
}
