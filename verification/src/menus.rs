//! The menu screens: their markers, the text fields and the switch that
//! says which field is being typed into, and the buttons that change screen.

use vstd::prelude::*;
use vstd::string::StrSliceExecFns;
use crate::rng::{gen_range_inclusive_u8_thread, thread_rng};
use crate::text::{dec_text, digit_char, digit_of, is_digit};

verus! {

/// The screens of the game.
#[derive(Clone, Copy, PartialEq, Eq, Structural, Hash, Debug)]
pub enum AppState {
    MainMenu,
    Hosting,
    Joining,
    Controls,
    Credits,
    Connecting,
    Game,
    GameOver,
    Quitting,
}

/// Marks the main menu.
pub struct MainMenu;

/// Marks the in-game overlay.
pub struct InGameUi;

/// Marks the host page.
pub struct HostPage;

/// Marks the join page.
pub struct JoinPage;

/// Marks the controls page.
pub struct ControlsPage;

/// Marks the credits page.
pub struct CreditsPage;

/// Marks a pop-up message.
pub struct Popup;

/// Marks the host button.
pub struct HostButton;

/// Marks the join button.
pub struct JoinButton;

/// Marks the controls button.
pub struct ControlsButton;

/// Marks the credits button.
pub struct CreditsButton;

/// Marks the back-to-main-menu button.
pub struct BackToMainMenu;

/// Marks the game-over screen.
pub struct GameOver;

/// Marks the save button of the host page.
pub struct HostPortSaveButton;

/// Marks the button that selects the host-port field of the join page.
pub struct JoinHostPortButton;

/// Marks the button that selects the port field of the join page.
pub struct JoinPortButton;

/// Marks the button that selects the address field of the join page.
pub struct JoinIpButton;

/// Marks the save button of the join page.
pub struct JoinSaveButton;

/// Marks a text field that has received its default value.
pub struct Initialized;

/// Appends `ch` to `s` (`String::push`).
#[verifier::external_body]
fn string_push(s: &mut String, ch: char)
    ensures
        final(s)@ == old(s)@.push(ch),
{
    s.push(ch);
}

/// Removes the last character of `s` (`String::pop`), which leaves an
/// empty string as it is.
#[verifier::external_body]
fn string_pop(s: &mut String) -> (r: Option<char>)
    ensures
        old(s)@.len() == 0 ==> r is None && final(s)@ == old(s)@,
        old(s)@.len() > 0 ==> r == Some(old(s)@.last()) && final(s)@ == old(s)@.drop_last(),
{
    s.pop()
}

/// Which field of the join page, and which of the host page, is being
/// typed into.
#[derive(Clone, Copy, PartialEq, Eq, Structural, Debug)]
pub struct Switch {
    pub host_port: bool,
    pub port: bool,
    pub ip: bool,
    pub host: bool,
    pub num_camps: bool,
    pub num_chests: bool,
    pub enemy_per_camp: bool,
    pub map_seed: bool,
    pub eid_percentage: bool,
}

/// A text field of a menu page.
pub trait InputType: Sized {
    /// The text typed so far.
    spec fn text(&self) -> Seq<char>;

    /// Whether typing goes to this field, by the state of the switch.
    spec fn active_by(switch: Switch) -> bool;

    /// Whether typing is let through, given what the switch says.
    spec fn valid_by(active: bool) -> bool;

    fn push_char(&mut self, ch: char)
        ensures
            final(self).text() == old(self).text().push(ch),
    ;

    fn pop_char(&mut self)
        ensures
            old(self).text().len() == 0 ==> final(self).text() == old(self).text(),
            old(self).text().len() > 0 ==> final(self).text() == old(self).text().drop_last(),
    ;

    fn is_empty(&self) -> (r: bool)
        ensures
            r == (self.text().len() == 0),
    ;

    fn is_active(switch: &Switch) -> (r: bool)
        ensures
            r == Self::active_by(*switch),
    ;

    fn is_valid(active: bool) -> (r: bool)
        ensures
            r == Self::valid_by(active),
    ;
}

/// The port field of the host page.
pub struct HostPortInput {
    pub port: String,
}

/// The host-port field of the join page.
pub struct JoinHostPortInput {
    pub port: String,
}

/// The own-port field of the join page.
pub struct JoinPortInput {
    pub port: String,
}

/// The host-address field of the join page.
pub struct JoinIPInput {
    pub ip: String,
}

impl InputType for HostPortInput {
    open spec fn text(&self) -> Seq<char> {
        self.port@
    }

    open spec fn active_by(switch: Switch) -> bool {
        true
    }

    open spec fn valid_by(active: bool) -> bool {
        true
    }

    fn push_char(&mut self, ch: char) {
        string_push(&mut self.port, ch);
    }

    fn pop_char(&mut self) {
        string_pop(&mut self.port);
    }

    fn is_empty(&self) -> (r: bool) {
        self.port.as_str().unicode_len() == 0
    }

    fn is_active(_switch: &Switch) -> (r: bool) {
        true
    }

    fn is_valid(_active: bool) -> (r: bool) {
        true
    }
}

impl InputType for JoinHostPortInput {
    open spec fn text(&self) -> Seq<char> {
        self.port@
    }

    open spec fn active_by(switch: Switch) -> bool {
        switch.host_port
    }

    open spec fn valid_by(active: bool) -> bool {
        active
    }

    fn push_char(&mut self, ch: char) {
        string_push(&mut self.port, ch);
    }

    fn pop_char(&mut self) {
        string_pop(&mut self.port);
    }

    fn is_empty(&self) -> (r: bool) {
        self.port.as_str().unicode_len() == 0
    }

    fn is_active(switch: &Switch) -> (r: bool) {
        switch.host_port
    }

    fn is_valid(active: bool) -> (r: bool) {
        active
    }
}

impl InputType for JoinPortInput {
    open spec fn text(&self) -> Seq<char> {
        self.port@
    }

    open spec fn active_by(switch: Switch) -> bool {
        switch.port
    }

    open spec fn valid_by(active: bool) -> bool {
        active
    }

    fn push_char(&mut self, ch: char) {
        string_push(&mut self.port, ch);
    }

    fn pop_char(&mut self) {
        string_pop(&mut self.port);
    }

    fn is_empty(&self) -> (r: bool) {
        self.port.as_str().unicode_len() == 0
    }

    fn is_active(switch: &Switch) -> (r: bool) {
        switch.port
    }

    fn is_valid(active: bool) -> (r: bool) {
        active
    }
}

impl InputType for JoinIPInput {
    open spec fn text(&self) -> Seq<char> {
        self.ip@
    }

    open spec fn active_by(switch: Switch) -> bool {
        switch.ip
    }

    open spec fn valid_by(active: bool) -> bool {
        active
    }

    fn push_char(&mut self, ch: char) {
        string_push(&mut self.ip, ch);
    }

    fn pop_char(&mut self) {
        string_pop(&mut self.ip);
    }

    fn is_empty(&self) -> (r: bool) {
        self.ip.as_str().unicode_len() == 0
    }

    fn is_active(switch: &Switch) -> (r: bool) {
        switch.ip
    }

    fn is_valid(active: bool) -> (r: bool) {
        active
    }
}

/// The number of camps field of the host page.
pub struct NumCampsInput {
    pub value: String,
}

impl InputType for NumCampsInput {
    open spec fn text(&self) -> Seq<char> {
        self.value@
    }

    open spec fn active_by(switch: Switch) -> bool {
        switch.num_camps
    }

    open spec fn valid_by(active: bool) -> bool {
        active
    }

    fn push_char(&mut self, ch: char) {
        string_push(&mut self.value, ch);
    }

    fn pop_char(&mut self) {
        string_pop(&mut self.value);
    }

    fn is_empty(&self) -> (r: bool) {
        self.value.as_str().unicode_len() == 0
    }

    fn is_active(switch: &Switch) -> (r: bool) {
        switch.num_camps
    }

    fn is_valid(active: bool) -> (r: bool) {
        active
    }
}

/// The number of chests field of the host page.
pub struct NumChestsInput {
    pub value: String,
}

impl InputType for NumChestsInput {
    open spec fn text(&self) -> Seq<char> {
        self.value@
    }

    open spec fn active_by(switch: Switch) -> bool {
        switch.num_chests
    }

    open spec fn valid_by(active: bool) -> bool {
        active
    }

    fn push_char(&mut self, ch: char) {
        string_push(&mut self.value, ch);
    }

    fn pop_char(&mut self) {
        string_pop(&mut self.value);
    }

    fn is_empty(&self) -> (r: bool) {
        self.value.as_str().unicode_len() == 0
    }

    fn is_active(switch: &Switch) -> (r: bool) {
        switch.num_chests
    }

    fn is_valid(active: bool) -> (r: bool) {
        active
    }
}

/// The enemies per camp field of the host page.
pub struct EnemiesPerCampInput {
    pub value: String,
}

impl InputType for EnemiesPerCampInput {
    open spec fn text(&self) -> Seq<char> {
        self.value@
    }

    open spec fn active_by(switch: Switch) -> bool {
        switch.enemy_per_camp
    }

    open spec fn valid_by(active: bool) -> bool {
        active
    }

    fn push_char(&mut self, ch: char) {
        string_push(&mut self.value, ch);
    }

    fn pop_char(&mut self) {
        string_pop(&mut self.value);
    }

    fn is_empty(&self) -> (r: bool) {
        self.value.as_str().unicode_len() == 0
    }

    fn is_active(switch: &Switch) -> (r: bool) {
        switch.enemy_per_camp
    }

    fn is_valid(active: bool) -> (r: bool) {
        active
    }
}

/// The map seed field of the host page.
pub struct MapSeedInput {
    pub value: String,
}

impl InputType for MapSeedInput {
    open spec fn text(&self) -> Seq<char> {
        self.value@
    }

    open spec fn active_by(switch: Switch) -> bool {
        switch.map_seed
    }

    open spec fn valid_by(active: bool) -> bool {
        active
    }

    fn push_char(&mut self, ch: char) {
        string_push(&mut self.value, ch);
    }

    fn pop_char(&mut self) {
        string_pop(&mut self.value);
    }

    fn is_empty(&self) -> (r: bool) {
        self.value.as_str().unicode_len() == 0
    }

    fn is_active(switch: &Switch) -> (r: bool) {
        switch.map_seed
    }

    fn is_valid(active: bool) -> (r: bool) {
        active
    }
}

/// The share of special enemies field of the host page.
pub struct EidPercentageInput {
    pub value: String,
}

impl InputType for EidPercentageInput {
    open spec fn text(&self) -> Seq<char> {
        self.value@
    }

    open spec fn active_by(switch: Switch) -> bool {
        switch.eid_percentage
    }

    open spec fn valid_by(active: bool) -> bool {
        active
    }

    fn push_char(&mut self, ch: char) {
        string_push(&mut self.value, ch);
    }

    fn pop_char(&mut self) {
        string_pop(&mut self.value);
    }

    fn is_empty(&self) -> (r: bool) {
        self.value.as_str().unicode_len() == 0
    }

    fn is_active(switch: &Switch) -> (r: bool) {
        switch.eid_percentage
    }

    fn is_valid(active: bool) -> (r: bool) {
        active
    }
}

/// What a typed character did to a field, for the displayed text to follow.
#[derive(Clone, Copy, PartialEq, Eq, Structural, Debug)]
pub enum InputEdit {
    Pushed(char),
    Popped,
    Unchanged,
}

/// Backspace and delete erase; any other character is typed.
pub open spec fn is_erase(ch: char) -> bool {
    ch == '\u{8}' || ch == '\u{7f}'
}

/// Applies one typed character to a field: an erasing key removes the last
/// character of a non-empty field, any other character is appended.
pub fn type_char<T: InputType>(input: &mut T, ch: char) -> (r: InputEdit)
    ensures
        !is_erase(ch) ==> r == InputEdit::Pushed(ch) && final(input).text() == old(input).text().push(ch),
        is_erase(ch) && old(input).text().len() > 0 ==> r == InputEdit::Popped && final(input).text()
            == old(input).text().drop_last(),
        is_erase(ch) && old(input).text().len() == 0 ==> r == InputEdit::Unchanged && final(input).text()
            == old(input).text(),
{
    if ch != '\u{8}' && ch != '\u{7f}' {
        input.push_char(ch);
        InputEdit::Pushed(ch)
    } else {
        if !input.is_empty() {
            input.pop_char();
            InputEdit::Popped
        } else {
            InputEdit::Unchanged
        }
    }
}

/// Whether typing reaches fields of kind `T`: the last switch decides
/// whether the field is active (no switch: inactive), and the field kind
/// decides whether that lets typing through.
pub fn input_enabled<T: InputType>(switches: &Vec<Switch>) -> (r: bool)
    ensures
        r == T::valid_by(
            if switches@.len() == 0 {
                false
            } else {
                T::active_by(switches@.last())
            },
        ),
{
    let mut active = false;
    let mut i: usize = 0;
    while i < switches.len()
        invariant
            0 <= i <= switches@.len(),
            active == if i == 0 {
                false
            } else {
                T::active_by(switches@[i - 1])
            },
        decreases switches@.len() - i,
    {
        active = T::is_active(&switches[i]);
        i = i + 1;
    }
    T::is_valid(active)
}

/// Types `default_value` into an empty field; a field that already holds
/// text is left alone. Returns whether the field was filled.
pub fn fill_default<T: InputType>(input: &mut T, default_value: &str) -> (r: bool)
    ensures
        r == (old(input).text().len() == 0),
        r ==> final(input).text() == default_value@,
        !r ==> final(input).text() == old(input).text(),
{
    if !input.is_empty() {
        return false;
    }
    let n = default_value.unicode_len();
    let mut i: usize = 0;
    while i < n
        invariant
            n == default_value@.len(),
            0 <= i <= n,
            input.text() == default_value@.take(i as int),
        decreases n - i,
    {
        input.push_char(default_value.get_char(i));
        assert(default_value@.take(i + 1) =~= default_value@.take(i as int).push(default_value@[i as int]));
        i = i + 1;
    }
    assert(default_value@.take(n as int) =~= default_value@);
    true
}

/// Where the game connects: the host's port, this client's own port, and
/// the host's address.
pub struct NetworkAddresses {
    pub host_port: String,
    pub client_port: String,
    pub ip: String,
}

/// The map settings typed on the host page.
pub struct MapConfig {
    pub num_camps: String,
    pub num_chests: String,
    pub enemy_per_camp: String,
    pub map_seed: String,
    pub eid_percentage: String,
}

/// The text of the last of `values`, or `current` when there is none.
pub open spec fn last_or(values: Seq<String>, current: Seq<char>) -> Seq<char> {
    if values.len() == 0 {
        current
    } else {
        values.last()@
    }
}

/// Copies each of `values` into `target` in turn: the last one stays.
fn assign_last(target: &mut String, values: &Vec<String>)
    ensures
        final(target)@ == last_or(values@, old(target)@),
{
    let mut k: usize = 0;
    while k < values.len()
        invariant
            k <= values@.len(),
            target@ == last_or(values@.take(k as int), old(target)@),
        decreases values@.len() - k,
    {
        *target = values[k].clone();
        assert(values@.take(k + 1).last() == values@[k as int]);
        k = k + 1;
    }
    assert(values@.take(values@.len() as int) =~= values@);
}

/// Saves the host page: the port and the map settings become those typed
/// (the last field of each kind, where there is one). Returns whether a
/// port field was there, which makes this player the host, with id 0.
pub fn save_host_input(
    addresses: &mut NetworkAddresses,
    config: &mut MapConfig,
    host_ports: &Vec<String>,
    num_camps: &Vec<String>,
    num_chests: &Vec<String>,
    enemy_per_camp: &Vec<String>,
    map_seeds: &Vec<String>,
    eid_percentages: &Vec<String>,
) -> (hosting: bool)
    ensures
        hosting == (host_ports@.len() > 0),
        final(addresses).host_port@ == last_or(host_ports@, old(addresses).host_port@),
        final(addresses).client_port@ == old(addresses).client_port@,
        final(addresses).ip@ == old(addresses).ip@,
        final(config).num_camps@ == last_or(num_camps@, old(config).num_camps@),
        final(config).num_chests@ == last_or(num_chests@, old(config).num_chests@),
        final(config).enemy_per_camp@ == last_or(enemy_per_camp@, old(config).enemy_per_camp@),
        final(config).map_seed@ == last_or(map_seeds@, old(config).map_seed@),
        final(config).eid_percentage@ == last_or(eid_percentages@, old(config).eid_percentage@),
{
    assign_last(&mut addresses.host_port, host_ports);
    assign_last(&mut config.num_camps, num_camps);
    assign_last(&mut config.num_chests, num_chests);
    assign_last(&mut config.enemy_per_camp, enemy_per_camp);
    assign_last(&mut config.map_seed, map_seeds);
    assign_last(&mut config.eid_percentage, eid_percentages);
    host_ports.len() > 0
}

/// Saves the join page: the own port, the host address and the host port
/// become those typed (the last field of each kind, where there is one).
pub fn save_join_input(
    addresses: &mut NetworkAddresses,
    client_ports: &Vec<String>,
    ips: &Vec<String>,
    host_ports: &Vec<String>,
)
    ensures
        final(addresses).client_port@ == last_or(client_ports@, old(addresses).client_port@),
        final(addresses).ip@ == last_or(ips@, old(addresses).ip@),
        final(addresses).host_port@ == last_or(host_ports@, old(addresses).host_port@),
{
    assign_last(&mut addresses.client_port, client_ports);
    assign_last(&mut addresses.ip, ips);
    assign_last(&mut addresses.host_port, host_ports);
}

/// A map seed proposed on the host page: ten random decimal digits.
pub fn random_seed_text() -> (r: String)
    ensures
        r@.len() == 10,
        forall|i: int| 0 <= i < 10 ==> is_digit(#[trigger] r@[i]),
{
    let mut rng = thread_rng();
    let mut seed = String::new();
    let mut k: usize = 0;
    while k < 10
        invariant
            k <= 10,
            seed@.len() == k,
            forall|i: int| 0 <= i < k ==> is_digit(#[trigger] seed@[i]),
        decreases 10 - k,
    {
        let d = gen_range_inclusive_u8_thread(&mut rng, 0, 9);
        let ch = digit_char(d);
        string_push(&mut seed, ch);
        k = k + 1;
    }
    seed
}

/// A number as `{:02}` prints it: its decimal digits, after a minus sign
/// when it is negative, and after a `0` when it is a single digit.
pub open spec fn padded2(n: int) -> Seq<char> {
    if n < 0 {
        seq!['-'] + dec_text((-n) as nat)
    } else if n < 10 {
        seq!['0'] + dec_text(n as nat)
    } else {
        dec_text(n as nat)
    }
}

/// Appends the decimal digits of `n`.
fn push_decimal(s: &mut String, n: u32)
    ensures
        final(s)@ == old(s)@ + dec_text(n as nat),
{
    let mut m = n;
    let mut low: Vec<char> = Vec::new();
    while m >= 10
        invariant
            dec_text(n as nat) == dec_text(m as nat) + low@.reverse(),
        decreases m,
    {
        let d = (m % 10) as u8;
        let ghost before = low@;
        low.push(digit_char(d));
        assert(low@.reverse() =~= seq![digit_of(m as int % 10)] + before.reverse());
        m = m / 10;
    }
    let first = digit_char(m as u8);
    string_push(s, first);
    assert(dec_text(m as nat) == seq![first]);
    let mut k = low.len();
    while k > 0
        invariant
            k <= low@.len(),
            s@ == old(s)@ + seq![first] + low@.subrange(k as int, low@.len() as int).reverse(),
        decreases k,
    {
        k = k - 1;
        string_push(s, low[k]);
        assert(low@.subrange(k as int, low@.len() as int).reverse() =~= low@.subrange(
            k + 1,
            low@.len() as int,
        ).reverse().push(low@[k as int]));
    }
    assert(low@.subrange(0, low@.len() as int) =~= low@);
}

/// Appends `n` as `{:02}` prints it.
fn push_padded2(s: &mut String, n: i32)
    ensures
        final(s)@ == old(s)@ + padded2(n as int),
{
    if n < 0 {
        string_push(s, '-');
        let magnitude: u32 = if n == i32::MIN {
            2147483648u32
        } else {
            (-n) as u32
        };
        push_decimal(s, magnitude);
    } else {
        if n < 10 {
            string_push(s, '0');
        }
        push_decimal(s, n as u32);
    }
}

/// The time left in a round as the game shows it: minutes and seconds,
/// each at least two digits, separated by a colon.
pub fn clock_text(minutes: i32, seconds: i32) -> (r: String)
    ensures
        r@ == padded2(minutes as int) + seq![':'] + padded2(seconds as int),
{
    let mut text = String::new();
    push_padded2(&mut text, minutes);
    string_push(&mut text, ':');
    push_padded2(&mut text, seconds);
    text
}

/// Selects the port field of the host page.
pub fn host_port_but(switch: &mut Switch)
    ensures
        *final(switch) == (Switch { host: true, num_camps: false, num_chests: false, enemy_per_camp: false, map_seed: false, eid_percentage: false, ..*old(switch) }),
{
    switch.host = true;
    switch.num_camps = false;
    switch.num_chests = false;
    switch.enemy_per_camp = false;
    switch.map_seed = false;
    switch.eid_percentage = false;
}

/// Selects the number-of-camps field of the host page.
pub fn num_camps_but(switch: &mut Switch)
    ensures
        *final(switch) == (Switch { host: false, num_camps: true, num_chests: false, enemy_per_camp: false, map_seed: false, eid_percentage: false, ..*old(switch) }),
{
    switch.host = false;
    switch.num_camps = true;
    switch.num_chests = false;
    switch.enemy_per_camp = false;
    switch.map_seed = false;
    switch.eid_percentage = false;
}

/// Selects the number-of-chests field of the host page.
pub fn num_chests_but(switch: &mut Switch)
    ensures
        *final(switch) == (Switch { host: false, num_camps: false, num_chests: true, enemy_per_camp: false, map_seed: false, eid_percentage: false, ..*old(switch) }),
{
    switch.host = false;
    switch.num_camps = false;
    switch.num_chests = true;
    switch.enemy_per_camp = false;
    switch.map_seed = false;
    switch.eid_percentage = false;
}

/// Selects the enemies-per-camp field of the host page.
pub fn enemy_per_camp_but(switch: &mut Switch)
    ensures
        *final(switch) == (Switch { host: false, num_camps: false, num_chests: false, enemy_per_camp: true, map_seed: false, eid_percentage: false, ..*old(switch) }),
{
    switch.host = false;
    switch.num_camps = false;
    switch.num_chests = false;
    switch.enemy_per_camp = true;
    switch.map_seed = false;
    switch.eid_percentage = false;
}

/// Selects the map-seed field of the host page.
pub fn map_seed_but(switch: &mut Switch)
    ensures
        *final(switch) == (Switch { host: false, num_camps: false, num_chests: false, enemy_per_camp: false, map_seed: true, eid_percentage: false, ..*old(switch) }),
{
    switch.host = false;
    switch.num_camps = false;
    switch.num_chests = false;
    switch.enemy_per_camp = false;
    switch.map_seed = true;
    switch.eid_percentage = false;
}

/// Selects the special-enemy share field of the host page.
pub fn eid_percentage_but(switch: &mut Switch)
    ensures
        *final(switch) == (Switch { host: false, num_camps: false, num_chests: false, enemy_per_camp: false, map_seed: false, eid_percentage: true, ..*old(switch) }),
{
    switch.host = false;
    switch.num_camps = false;
    switch.num_chests = false;
    switch.enemy_per_camp = false;
    switch.map_seed = false;
    switch.eid_percentage = true;
}

/// Selects the own-port field of the join page.
pub fn join_port_but(switch: &mut Switch)
    ensures
        *final(switch) == (Switch { host_port: false, port: true, ip: false, ..*old(switch) }),
{
    switch.host_port = false;
    switch.ip = false;
    switch.port = true;
}

/// Selects the host-address field of the join page.
pub fn join_ip_but(switch: &mut Switch)
    ensures
        *final(switch) == (Switch { host_port: false, port: false, ip: true, ..*old(switch) }),
{
    switch.host_port = false;
    switch.ip = true;
    switch.port = false;
}

/// Selects the host-port field of the join page.
pub fn join_host_port_but(switch: &mut Switch)
    ensures
        *final(switch) == (Switch { host_port: true, port: false, ip: false, ..*old(switch) }),
{
    switch.host_port = true;
    switch.ip = false;
    switch.port = false;
}

/// Each field takes typing exactly when the switch flag of that field is
/// set: the join page's host-port, own-port and address fields follow
/// `host_port`, `port` and `ip`, the host page's setting fields follow
/// their own flags, and the host page's port field always takes typing.
pub proof fn law_fields_follow_their_flags(switch: Switch)
    ensures
        JoinHostPortInput::valid_by(JoinHostPortInput::active_by(switch)) == switch.host_port,
        JoinPortInput::valid_by(JoinPortInput::active_by(switch)) == switch.port,
        JoinIPInput::valid_by(JoinIPInput::active_by(switch)) == switch.ip,
        NumCampsInput::valid_by(NumCampsInput::active_by(switch)) == switch.num_camps,
        NumChestsInput::valid_by(NumChestsInput::active_by(switch)) == switch.num_chests,
        EnemiesPerCampInput::valid_by(EnemiesPerCampInput::active_by(switch))
            == switch.enemy_per_camp,
        MapSeedInput::valid_by(MapSeedInput::active_by(switch)) == switch.map_seed,
        EidPercentageInput::valid_by(EidPercentageInput::active_by(switch))
            == switch.eid_percentage,
        HostPortInput::valid_by(HostPortInput::active_by(switch)),
{
}

/// Pressing one of the three field buttons of the join page sends typing to
/// that field and to neither of the other two, whatever was selected before.
pub proof fn law_join_buttons_select_one_field(before: Switch, after: Switch, which: u8)
    requires
        which == 0 ==> after == (Switch { host_port: true, port: false, ip: false, ..before }),
        which == 1 ==> after == (Switch { host_port: false, port: true, ip: false, ..before }),
        which == 2 ==> after == (Switch { host_port: false, port: false, ip: true, ..before }),
        which <= 2,
    ensures
        JoinHostPortInput::valid_by(JoinHostPortInput::active_by(after)) == (which == 0),
        JoinPortInput::valid_by(JoinPortInput::active_by(after)) == (which == 1),
        JoinIPInput::valid_by(JoinIPInput::active_by(after)) == (which == 2),
{
}

/// A kind of button and the screen that pressing it opens.
pub trait ButtonTypeTrait {
    spec fn target_state() -> AppState;

    fn app_state() -> (r: AppState)
        ensures
            r == Self::target_state(),
    ;
}

/// The host button opens the host page.
pub struct HostButtonType;

impl ButtonTypeTrait for HostButtonType {
    open spec fn target_state() -> AppState {
        AppState::Hosting
    }

    fn app_state() -> (r: AppState) {
        AppState::Hosting
    }
}

/// The join button opens the join page.
pub struct JoinButtonType;

impl ButtonTypeTrait for JoinButtonType {
    open spec fn target_state() -> AppState {
        AppState::Joining
    }

    fn app_state() -> (r: AppState) {
        AppState::Joining
    }
}

/// The back button returns to the main menu.
pub struct BackButtonType;

impl ButtonTypeTrait for BackButtonType {
    open spec fn target_state() -> AppState {
        AppState::MainMenu
    }

    fn app_state() -> (r: AppState) {
        AppState::MainMenu
    }
}

/// The controls button opens the controls page.
pub struct ControlsButtonType;

impl ButtonTypeTrait for ControlsButtonType {
    open spec fn target_state() -> AppState {
        AppState::Controls
    }

    fn app_state() -> (r: AppState) {
        AppState::Controls
    }
}

/// The credits button opens the credits page.
pub struct CreditsButtonType;

impl ButtonTypeTrait for CreditsButtonType {
    open spec fn target_state() -> AppState {
        AppState::Credits
    }

    fn app_state() -> (r: AppState) {
        AppState::Credits
    }
}

} // verus!
