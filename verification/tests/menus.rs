use jordquest::map::set_seed;
use jordquest::text::{digit_char, parse_u64};
use jordquest::menus::{
    clock_text,
    eid_percentage_but, enemy_per_camp_but, fill_default, host_port_but, input_enabled, join_host_port_but,
    join_ip_but, join_port_but, map_seed_but, num_camps_but, num_chests_but, random_seed_text, save_host_input,
    save_join_input, type_char, AppState, BackButtonType, ButtonTypeTrait, ControlsButtonType, CreditsButtonType,
    HostButtonType, HostPortInput, InputEdit, InputType, JoinButtonType, JoinHostPortInput, JoinIPInput,
    JoinPortInput, MapConfig, MapSeedInput, NetworkAddresses, NumCampsInput, Switch,
};

fn off() -> Switch {
    Switch {
        host_port: false,
        port: false,
        ip: false,
        host: false,
        num_camps: false,
        num_chests: false,
        enemy_per_camp: false,
        map_seed: false,
        eid_percentage: false,
    }
}

#[test]
fn typing_and_erasing() {
    let mut f = JoinIPInput { ip: String::new() };
    assert_eq!(type_char(&mut f, '\u{8}'), InputEdit::Unchanged);
    assert_eq!(type_char(&mut f, '1'), InputEdit::Pushed('1'));
    assert_eq!(type_char(&mut f, '.'), InputEdit::Pushed('.'));
    assert_eq!(f.ip, "1.");
    assert_eq!(type_char(&mut f, '\u{7f}'), InputEdit::Popped);
    assert_eq!(f.ip, "1");
    assert!(!f.is_empty());
    f.pop_char();
    assert!(f.is_empty());
    f.pop_char();
    assert!(f.is_empty());
}

#[test]
fn defaults_fill_only_empty_fields() {
    let mut f = HostPortInput { port: String::new() };
    assert!(fill_default(&mut f, "8085"));
    assert_eq!(f.port, "8085");
    assert!(!fill_default(&mut f, "9999"));
    assert_eq!(f.port, "8085");
    let mut s = MapSeedInput { value: String::new() };
    assert!(fill_default(&mut s, "0123456789"));
    assert_eq!(s.value, "0123456789");
}

#[test]
fn switches_route_typing() {
    let mut sw = off();
    join_port_but(&mut sw);
    assert!(sw.port && !sw.ip && !sw.host_port);
    join_ip_but(&mut sw);
    assert!(!sw.port && sw.ip && !sw.host_port);
    join_host_port_but(&mut sw);
    assert!(!sw.port && !sw.ip && sw.host_port);
    num_camps_but(&mut sw);
    assert!(sw.num_camps && !sw.host && sw.host_port);
    host_port_but(&mut sw);
    assert!(sw.host && !sw.num_camps);
    num_chests_but(&mut sw);
    assert!(sw.num_chests && !sw.host);
    enemy_per_camp_but(&mut sw);
    assert!(sw.enemy_per_camp && !sw.num_chests);
    map_seed_but(&mut sw);
    assert!(sw.map_seed && !sw.enemy_per_camp);
    eid_percentage_but(&mut sw);
    assert!(sw.eid_percentage && !sw.map_seed);
    assert!(JoinHostPortInput::is_active(&sw));
    assert!(!JoinPortInput::is_active(&sw));
    assert!(!NumCampsInput::is_active(&sw));
    // the host port field takes typing whatever the switch says
    assert!(HostPortInput::is_active(&off()));
    assert!(input_enabled::<HostPortInput>(&vec![]));
    assert!(!input_enabled::<JoinIPInput>(&vec![]));
    let mut on = off();
    join_ip_but(&mut on);
    assert!(input_enabled::<JoinIPInput>(&vec![off(), on]));
    assert!(!input_enabled::<JoinIPInput>(&vec![on, off()]));
}

#[test]
fn saving_pages() {
    let mut addr = NetworkAddresses { host_port: "1".to_string(), client_port: "2".to_string(), ip: "3".to_string() };
    let mut cfg = MapConfig {
        num_camps: String::new(),
        num_chests: String::new(),
        enemy_per_camp: String::new(),
        map_seed: String::new(),
        eid_percentage: String::new(),
    };
    let hosting = save_host_input(
        &mut addr,
        &mut cfg,
        &vec!["8085".to_string()],
        &vec!["4".to_string(), "6".to_string()],
        &vec![],
        &vec![],
        &vec!["42".to_string()],
        &vec![],
    );
    assert!(hosting);
    assert_eq!(addr.host_port, "8085");
    assert_eq!(addr.client_port, "2");
    assert_eq!(cfg.num_camps, "6");
    assert_eq!(cfg.map_seed, "42");
    assert_eq!(cfg.num_chests, "");
    assert!(!save_host_input(&mut addr, &mut cfg, &vec![], &vec![], &vec![], &vec![], &vec![], &vec![]));
    save_join_input(&mut addr, &vec!["8086".to_string()], &vec!["127.0.0.1".to_string()], &vec![]);
    assert_eq!((addr.client_port.as_str(), addr.ip.as_str(), addr.host_port.as_str()), ("8086", "127.0.0.1", "8085"));
}

#[test]
fn seed_text_is_ten_digits() {
    let s = random_seed_text();
    assert_eq!(s.chars().count(), 10);
    assert!(s.chars().all(|c| c.is_ascii_digit()));
}

#[test]
fn buttons_open_their_screens() {
    assert_eq!(HostButtonType::app_state(), AppState::Hosting);
    assert_eq!(JoinButtonType::app_state(), AppState::Joining);
    assert_eq!(BackButtonType::app_state(), AppState::MainMenu);
    assert_eq!(ControlsButtonType::app_state(), AppState::Controls);
    assert_eq!(CreditsButtonType::app_state(), AppState::Credits);
}

#[test]
fn clock_text_prints_like_format() {
    assert_eq!(clock_text(4, 5), "04:05");
    assert_eq!(clock_text(0, 0), "00:00");
    assert_eq!(clock_text(12, 30), "12:30");
    for (m, s) in [(123, 7), (-1, -5), (-12, 9), (i32::MIN, i32::MAX), (9, 10), (100, 59)] {
        assert_eq!(clock_text(m, s), format!("{:02}:{:02}", m, s));
    }
}

#[test]
fn printed_seed_reads_back() {
    assert_eq!(digit_char(0), '0');
    assert_eq!(digit_char(9), '9');
    let s = random_seed_text();
    assert_eq!(parse_u64(&s), Some(s.parse::<u64>().unwrap()));
    assert_eq!(set_seed(&vec![s.clone()]), s.parse::<u64>().unwrap());
}
