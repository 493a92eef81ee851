//! The panel's state and what it does with each message: every decision of
//! the applet, from a click or a finished poll to the next command for the
//! shell to carry out (open the popup, read the network, run nmcli).
//!
//! The shell owns the toolkit, the clock and the commands; it hands each
//! message to `WifiPanel::update` and carries out the `Command` that comes back.

use vstd::prelude::*;
use crate::band::{BandStatus, BandView};
use crate::model::{
    connection_icon, link_icon, loss_percent, pings_after, throughput_after, unprimed, PingSamples,
    PingView, Throughput, ThroughputView,
};
use crate::net::{Kind, Security, Status, StatusView};
use crate::nmcli::{dns_servers_for, servers_of};
use crate::scan::{rows_view, RowView, WifiRow};
use crate::text::{chars_of, is};

verus! {

/// What a row is busy with.
#[derive(Debug, Clone, Copy, PartialEq, Eq, Structural)]
pub enum ActionKind {
    Connect,
    Disconnect,
    Forget,
}

/// One round of every reading the panel makes, delivered as a whole so the
/// popup never shows a half-updated mix of old and new readings. A light
/// round (`full` false) carries only the link, the pings and the radio.
#[derive(Debug, Clone)]
pub struct Poll<T> {
    pub status: Status,
    pub rows: Vec<WifiRow>,
    pub band: BandStatus,
    pub dns: String,
    pub wifi_enabled: bool,
    pub router_ping: Option<T>,
    pub internet_ping: Option<T>,
    pub full: bool,
}

/// Where the speed test stands; `T` is the measured rate.
#[derive(Debug)]
pub enum SpeedTest<T> {
    Idle,
    Running { upload: bool },
    Done { mbps: T, upload: bool },
    Failed(String),
}

pub enum SpeedTestView<T> {
    Idle,
    Running { upload: bool },
    Done { mbps: T, upload: bool },
    Failed(Seq<char>),
}

impl<T> View for SpeedTest<T> {
    type V = SpeedTestView<T>;

    open spec fn view(&self) -> SpeedTestView<T> {
        match self {
            SpeedTest::Idle => SpeedTestView::Idle,
            SpeedTest::Running { upload } => SpeedTestView::Running { upload: *upload },
            SpeedTest::Done { mbps, upload } => SpeedTestView::Done { mbps: *mbps, upload: *upload },
            SpeedTest::Failed(reason) => SpeedTestView::Failed(reason@),
        }
    }
}

/// What the panel is told: a click, a tick of the clock, or the result of
/// work it asked for. `T` is a latency or a rate as the shell measures it.
pub enum Message<T> {
    TogglePopup,
    /// The popup surface the shell opened, by its id.
    PopupOpened(u64),
    PopupClosed(u64),
    Tick,
    Polled(Poll<T>),
    ToggleWifi(bool),
    RowPressed(String),
    CollapsePrompt,
    PasswordChanged(String),
    IdentityChanged(String),
    TogglePasswordVisible,
    SubmitPassword,
    Forget(String),
    ActionDone(Result<(), String>),
    ToggleBandAuto(bool),
    SetBand(String),
    SetDns(String),
    ShowQr,
    /// The sharing payload, when one could be read and drawn as a QR code.
    QrReady(Option<String>),
    HideQr,
    RunSpeedTest(bool),
    SpeedTestDone(Result<T, String>),
    OpenCaptivePortal,
    ToggleSsidLabel(bool),
}

/// An nmcli-backed change to run off the UI thread; its outcome comes back
/// as `Message::ActionDone`.
#[derive(Debug)]
pub enum Action {
    SetWifi(bool),
    Disconnect(String),
    ConnectKnown(String),
    ConnectOpen(String),
    ConnectPsk { ssid: String, password: String },
    ConnectEnterprise { ssid: String, identity: String, password: String },
    Forget(String),
    SetBand { profile: String, target: String },
    SetDns { profile: String, servers: String },
}

pub enum ActionView {
    SetWifi(bool),
    Disconnect(Seq<char>),
    ConnectKnown(Seq<char>),
    ConnectOpen(Seq<char>),
    ConnectPsk { ssid: Seq<char>, password: Seq<char> },
    ConnectEnterprise { ssid: Seq<char>, identity: Seq<char>, password: Seq<char> },
    Forget(Seq<char>),
    SetBand { profile: Seq<char>, target: Seq<char> },
    SetDns { profile: Seq<char>, servers: Seq<char> },
}

impl View for Action {
    type V = ActionView;

    open spec fn view(&self) -> ActionView {
        match self {
            Action::SetWifi(on) => ActionView::SetWifi(*on),
            Action::Disconnect(s) => ActionView::Disconnect(s@),
            Action::ConnectKnown(s) => ActionView::ConnectKnown(s@),
            Action::ConnectOpen(s) => ActionView::ConnectOpen(s@),
            Action::ConnectPsk { ssid, password } => ActionView::ConnectPsk {
                ssid: ssid@,
                password: password@,
            },
            Action::ConnectEnterprise { ssid, identity, password } => ActionView::ConnectEnterprise {
                ssid: ssid@,
                identity: identity@,
                password: password@,
            },
            Action::Forget(s) => ActionView::Forget(s@),
            Action::SetBand { profile, target } => ActionView::SetBand {
                profile: profile@,
                target: target@,
            },
            Action::SetDns { profile, servers } => ActionView::SetDns {
                profile: profile@,
                servers: servers@,
            },
        }
    }
}

/// What the shell is to do after a message.
#[derive(Debug)]
pub enum Command {
    Nothing,
    /// Open the popup surface and take a full reading with a fresh scan.
    OpenPopup,
    /// Destroy the popup surface with this id.
    ClosePopup(u64),
    /// Take a reading; `full` adds the network list, band and DNS, and
    /// `rescan` forces a Wi-Fi scan for the list.
    Poll { full: bool, rescan: bool },
    Run(Action),
    /// Read the sharing payload of this interface's connection.
    FetchQr(String),
    SpeedTest { iface: String, upload: bool },
    /// Persist the "show network name" preference.
    SaveShowSsid(bool),
    /// Open the captive portal's check page in the browser.
    OpenCaptivePortal,
}

pub enum CommandView {
    Nothing,
    OpenPopup,
    ClosePopup(u64),
    Poll { full: bool, rescan: bool },
    Run(ActionView),
    FetchQr(Seq<char>),
    SpeedTest { iface: Seq<char>, upload: bool },
    SaveShowSsid(bool),
    OpenCaptivePortal,
}

impl View for Command {
    type V = CommandView;

    open spec fn view(&self) -> CommandView {
        match self {
            Command::Nothing => CommandView::Nothing,
            Command::OpenPopup => CommandView::OpenPopup,
            Command::ClosePopup(id) => CommandView::ClosePopup(*id),
            Command::Poll { full, rescan } => CommandView::Poll { full: *full, rescan: *rescan },
            Command::Run(a) => CommandView::Run(a@),
            Command::FetchQr(i) => CommandView::FetchQr(i@),
            Command::SpeedTest { iface, upload } => CommandView::SpeedTest {
                iface: iface@,
                upload: *upload,
            },
            Command::SaveShowSsid(b) => CommandView::SaveShowSsid(*b),
            Command::OpenCaptivePortal => CommandView::OpenCaptivePortal,
        }
    }
}

/// The panel's state. `T` is a latency or rate as the shell measures it.
pub struct WifiPanel<T> {
    /// The open popup surface, if any.
    pub popup: Option<u64>,
    pub status: Status,
    pub rows: Vec<WifiRow>,
    pub band: BandStatus,
    pub dns: String,
    pub wifi_enabled: bool,
    pub throughput: Throughput,
    pub pings: PingSamples<T>,
    pub tick: u32,
    pub phrase_index: usize,
    pub scanning: bool,
    /// The SSID whose passphrase prompt is expanded, if any.
    pub prompt: Option<String>,
    pub password: String,
    pub identity: String,
    pub password_hidden: bool,
    pub busy: Option<(String, ActionKind)>,
    /// The SSID a failure belongs to, and the phrase to show on its row.
    pub failure: Option<(String, String)>,
    /// The sharing payload on screen as a QR code, if any.
    pub qr: Option<String>,
    pub speedtest: SpeedTest<T>,
    /// Show the network name beside the bar icon.
    pub show_ssid: bool,
    pub icon_name: String,
}

#[verifier::ext_equal]
pub struct PanelView<T> {
    pub popup: Option<u64>,
    pub status: StatusView,
    pub rows: Seq<RowView>,
    pub band: BandView,
    pub dns: Seq<char>,
    pub wifi_enabled: bool,
    pub throughput: ThroughputView,
    pub pings: PingView<T>,
    pub tick: u32,
    pub phrase_index: usize,
    pub scanning: bool,
    pub prompt: Option<Seq<char>>,
    pub password: Seq<char>,
    pub identity: Seq<char>,
    pub password_hidden: bool,
    pub busy: Option<(Seq<char>, ActionKind)>,
    pub failure: Option<(Seq<char>, Seq<char>)>,
    pub qr: Option<Seq<char>>,
    pub speedtest: SpeedTestView<T>,
    pub show_ssid: bool,
    pub icon_name: Seq<char>,
}

pub open spec fn text_opt(o: Option<String>) -> Option<Seq<char>> {
    match o {
        Some(s) => Some(s@),
        None => None,
    }
}

pub open spec fn busy_view(b: Option<(String, ActionKind)>) -> Option<(Seq<char>, ActionKind)> {
    match b {
        Some((s, k)) => Some((s@, k)),
        None => None,
    }
}

pub open spec fn failure_view(f: Option<(String, String)>) -> Option<(Seq<char>, Seq<char>)> {
    match f {
        Some((s, r)) => Some((s@, r@)),
        None => None,
    }
}

impl<T> View for WifiPanel<T> {
    type V = PanelView<T>;

    open spec fn view(&self) -> PanelView<T> {
        PanelView {
            popup: self.popup,
            status: self.status@,
            rows: rows_view(self.rows@),
            band: self.band@,
            dns: self.dns@,
            wifi_enabled: self.wifi_enabled,
            throughput: self.throughput@,
            pings: self.pings@,
            tick: self.tick,
            phrase_index: self.phrase_index,
            scanning: self.scanning,
            prompt: text_opt(self.prompt),
            password: self.password@,
            identity: self.identity@,
            password_hidden: self.password_hidden,
            busy: busy_view(self.busy),
            failure: failure_view(self.failure),
            qr: text_opt(self.qr),
            speedtest: self.speedtest@,
            show_ssid: self.show_ssid,
            icon_name: self.icon_name@,
        }
    }
}

// ---------------------------------------------------------------------------
// What each message does
// ---------------------------------------------------------------------------

/// Every this many ticks the hero moves on to its next phrase.
pub const PHRASE_TICKS: u32 = 5;

/// While the popup is open, every this many ticks the reading forces a scan.
pub const RESCAN_TICKS: u32 = 5;

/// With the popup closed, only every this many ticks is a light reading taken.
pub const CLOSED_TICKS_PER_POLL: u32 = 4;

/// `x + 1`, wrapping to 0 past the largest value.
pub open spec fn next_u32(x: u32) -> u32 {
    if x == u32::MAX {
        0
    } else {
        (x + 1) as u32
    }
}

/// `x + 1`, wrapping to 0 past the largest value.
pub open spec fn next_usize(x: usize) -> usize {
    if x == usize::MAX {
        0
    } else {
        (x + 1) as usize
    }
}

/// Associated but with no route to the probe: a live link on which every
/// recent internet probe timed out ("limited access").
pub open spec fn is_restricted<T>(status: StatusView, pings: PingView<T>) -> bool {
    &&& status.kind != Kind::Disconnected
    &&& pings.internet.len() > 0
    &&& loss_percent(pings.internet) == 100
}

/// The first row that carries `ssid`.
pub open spec fn find_row(rows: Seq<RowView>, ssid: Seq<char>) -> Option<RowView>
    decreases rows.len(),
{
    if rows.len() == 0 {
        None
    } else if rows[0].ssid == ssid {
        Some(rows[0])
    } else {
        find_row(rows.drop_first(), ssid)
    }
}

/// A failure that a corrected passphrase can fix.
pub open spec fn is_credentials_failure(reason: Seq<char>) -> bool {
    reason == "Wrong password"@ || reason == "Passphrase required"@
}

pub open spec fn after_toggle_popup<T>(m: PanelView<T>) -> (PanelView<T>, CommandView) {
    match m.popup {
        Some(id) => (PanelView { popup: None, prompt: None, qr: None, ..m }, CommandView::ClosePopup(id)),
        None => (m, CommandView::OpenPopup),
    }
}

pub open spec fn after_popup_opened<T>(m: PanelView<T>, id: u64) -> (PanelView<T>, CommandView) {
    (PanelView { popup: Some(id), scanning: true, ..m }, CommandView::Nothing)
}

pub open spec fn after_popup_closed<T>(m: PanelView<T>, id: u64) -> (PanelView<T>, CommandView) {
    if m.popup == Some(id) {
        (PanelView { popup: None, prompt: None, qr: None, ..m }, CommandView::Nothing)
    } else {
        (m, CommandView::Nothing)
    }
}

/// A tick advances the clock and, every `PHRASE_TICKS`, the phrase. With
/// the popup open every tick takes a full reading, forcing a scan every
/// `RESCAN_TICKS`; closed, a light reading every `CLOSED_TICKS_PER_POLL`.
pub open spec fn after_tick<T>(m: PanelView<T>) -> (PanelView<T>, CommandView) {
    let tick = next_u32(m.tick);
    let phrase_index = if tick % PHRASE_TICKS == 0 {
        next_usize(m.phrase_index)
    } else {
        m.phrase_index
    };
    let n = PanelView { tick: tick, phrase_index: phrase_index, ..m };
    if m.popup is Some {
        (n, CommandView::Poll { full: true, rescan: tick % RESCAN_TICKS == 0 })
    } else if tick % CLOSED_TICKS_PER_POLL == 0 {
        (n, CommandView::Poll { full: false, rescan: false })
    } else {
        (n, CommandView::Nothing)
    }
}

/// A reading replaces the link, feeds the byte counters (or resets them
/// when a counter is missing) and the ping windows, and, when full, the
/// list, band and DNS; the bar icon follows.
pub open spec fn after_poll<T>(m: PanelView<T>, p: Poll<T>) -> (PanelView<T>, CommandView) {
    let iface = p.status.iface@;
    let throughput = match (p.status.rx_bytes, p.status.tx_bytes) {
        (Some(rx), Some(tx)) => throughput_after(m.throughput, iface, rx, tx),
        _ => unprimed(),
    };
    let pings = pings_after(m.pings, iface, p.router_ping, p.internet_ping);
    let status = p.status@;
    let n = PanelView {
        throughput: throughput,
        pings: pings,
        wifi_enabled: p.wifi_enabled,
        status: status,
        ..m
    };
    let n = if p.full {
        PanelView { rows: rows_view(p.rows@), band: p.band@, dns: p.dns@, scanning: false, ..n }
    } else {
        n
    };
    (
        PanelView {
            icon_name: link_icon(status.kind, status.signal as int, is_restricted(status, pings)),
            ..n
        },
        CommandView::Nothing,
    )
}

/// A press on a row disconnects a connected network; connects a saved or
/// credential-free one straight away; and opens the passphrase prompt for
/// any other.
pub open spec fn after_row_pressed<T>(m: PanelView<T>, ssid: Seq<char>) -> (PanelView<T>, CommandView) {
    let m1 = PanelView { failure: None, ..m };
    match find_row(m.rows, ssid) {
        None => (m1, CommandView::Nothing),
        Some(row) => if row.connected {
            (
                PanelView { busy: Some((ssid, ActionKind::Disconnect)), ..m1 },
                CommandView::Run(ActionView::Disconnect(ssid)),
            )
        } else if row.known || !row.security.needs_credentials() {
            (
                PanelView { busy: Some((ssid, ActionKind::Connect)), ..m1 },
                CommandView::Run(
                    if row.known {
                        ActionView::ConnectKnown(ssid)
                    } else {
                        ActionView::ConnectOpen(ssid)
                    },
                ),
            )
        } else {
            (
                PanelView {
                    prompt: Some(ssid),
                    password: seq![],
                    identity: seq![],
                    password_hidden: true,
                    ..m1
                },
                CommandView::Nothing,
            )
        },
    }
}

pub open spec fn after_collapse<T>(m: PanelView<T>) -> (PanelView<T>, CommandView) {
    (
        PanelView { prompt: None, password: seq![], identity: seq![], failure: None, ..m },
        CommandView::Nothing,
    )
}

/// Submitting the prompt connects with what was typed, and the typed
/// passphrase leaves the panel's state.
pub open spec fn after_submit<T>(m: PanelView<T>) -> (PanelView<T>, CommandView) {
    match m.prompt {
        None => (m, CommandView::Nothing),
        Some(ssid) => match find_row(m.rows, ssid) {
            None => (m, CommandView::Nothing),
            Some(row) => (
                PanelView {
                    password: seq![],
                    busy: Some((ssid, ActionKind::Connect)),
                    failure: None,
                    password_hidden: true,
                    ..m
                },
                CommandView::Run(
                    if row.security == Security::Enterprise {
                        ActionView::ConnectEnterprise {
                            ssid: ssid,
                            identity: m.identity,
                            password: m.password,
                        }
                    } else {
                        ActionView::ConnectPsk { ssid: ssid, password: m.password }
                    },
                ),
            ),
        },
    }
}

/// A finished action frees its row. Success clears the failure, and a
/// successful connect closes the prompt; a failure is shown on the row, and
/// a wrong or missing passphrase reopens the prompt on that network so it
/// can be corrected. Either way a new reading follows.
pub open spec fn after_action<T>(m: PanelView<T>, result: Result<(), Seq<char>>) -> (PanelView<T>, CommandView) {
    let ssid = match m.busy {
        Some((s, _)) => s,
        None => seq![],
    };
    let connecting = match m.busy {
        Some((_, k)) => k == ActionKind::Connect,
        None => false,
    };
    let n = match result {
        Ok(()) => PanelView {
            busy: None,
            failure: None,
            prompt: if connecting {
                None
            } else {
                m.prompt
            },
            ..m
        },
        Err(reason) => PanelView {
            busy: None,
            prompt: if is_credentials_failure(reason) && ssid.len() > 0 {
                Some(ssid)
            } else {
                m.prompt
            },
            failure: Some((ssid, reason)),
            ..m
        },
    };
    (n, CommandView::Poll { full: m.popup is Some, rescan: false })
}

/// Automatic unpins the band; pinning from Automatic keeps the radio where
/// it already is. Without a live band there is nothing to pin.
pub open spec fn after_band_auto<T>(m: PanelView<T>, auto: bool) -> (PanelView<T>, CommandView) {
    let target = if auto {
        "auto"@
    } else {
        m.band.current
    };
    if target.len() == 0 {
        (m, CommandView::Nothing)
    } else {
        (m, CommandView::Run(ActionView::SetBand { profile: m.band.profile, target: target }))
    }
}

pub open spec fn after_speedtest<T>(m: PanelView<T>, result: Result<T, Seq<char>>) -> (PanelView<T>, CommandView) {
    let upload = m.speedtest == SpeedTestView::<T>::Running { upload: true };
    (
        PanelView {
            speedtest: match result {
                Ok(mbps) => SpeedTestView::Done { mbps: mbps, upload: upload },
                Err(reason) => SpeedTestView::Failed(reason),
            },
            ..m
        },
        CommandView::Nothing,
    )
}

/// The state and command after `e`.
pub open spec fn panel_step<T>(m: PanelView<T>, e: Message<T>) -> (PanelView<T>, CommandView) {
    match e {
        Message::TogglePopup => after_toggle_popup(m),
        Message::PopupOpened(id) => after_popup_opened(m, id),
        Message::PopupClosed(id) => after_popup_closed(m, id),
        Message::Tick => after_tick(m),
        Message::Polled(p) => after_poll(m, p),
        Message::ToggleWifi(on) => (
            PanelView { wifi_enabled: on, ..m },
            CommandView::Run(ActionView::SetWifi(on)),
        ),
        Message::RowPressed(ssid) => after_row_pressed(m, ssid@),
        Message::CollapsePrompt => after_collapse(m),
        Message::PasswordChanged(v) => (PanelView { password: v@, ..m }, CommandView::Nothing),
        Message::IdentityChanged(v) => (PanelView { identity: v@, ..m }, CommandView::Nothing),
        Message::TogglePasswordVisible => (
            PanelView { password_hidden: !m.password_hidden, ..m },
            CommandView::Nothing,
        ),
        Message::SubmitPassword => after_submit(m),
        Message::Forget(ssid) => (
            PanelView { busy: Some((ssid@, ActionKind::Forget)), ..m },
            CommandView::Run(ActionView::Forget(ssid@)),
        ),
        Message::ActionDone(r) => after_action(
            m,
            match r {
                Ok(()) => Ok(()),
                Err(e) => Err(e@),
            },
        ),
        Message::ToggleBandAuto(auto) => after_band_auto(m, auto),
        Message::SetBand(band) => (
            m,
            CommandView::Run(ActionView::SetBand { profile: m.band.profile, target: band@ }),
        ),
        Message::SetDns(provider) => (
            PanelView { dns: provider@, ..m },
            CommandView::Run(
                ActionView::SetDns { profile: m.band.profile, servers: servers_of(provider@) },
            ),
        ),
        Message::ShowQr => (m, CommandView::FetchQr(m.status.iface)),
        Message::QrReady(payload) => (PanelView { qr: text_opt(payload), ..m }, CommandView::Nothing),
        Message::HideQr => (PanelView { qr: None, ..m }, CommandView::Nothing),
        Message::RunSpeedTest(upload) => (
            PanelView { speedtest: SpeedTestView::Running { upload: upload }, ..m },
            CommandView::SpeedTest { iface: m.status.iface, upload: upload },
        ),
        Message::SpeedTestDone(r) => after_speedtest(
            m,
            match r {
                Ok(v) => Ok(v),
                Err(e) => Err(e@),
            },
        ),
        Message::OpenCaptivePortal => (m, CommandView::OpenCaptivePortal),
        Message::ToggleSsidLabel(show) => (
            PanelView { show_ssid: show, ..m },
            CommandView::SaveShowSsid(show),
        ),
    }
}

// ---------------------------------------------------------------------------
// The panel
// ---------------------------------------------------------------------------

/// The panel before any reading: offline, radio assumed on, DHCP, nothing
/// sampled.
pub open spec fn initial_panel<T>(show_ssid: bool) -> PanelView<T> {
    PanelView {
        popup: None,
        status: crate::net::blank_status(),
        rows: seq![],
        band: BandView { current: seq![], selected: seq![], available: seq![], profile: seq![] },
        dns: "DHCP"@,
        wifi_enabled: true,
        throughput: unprimed(),
        pings: PingView { iface: seq![], router: seq![], internet: seq![] },
        tick: 0,
        phrase_index: 0,
        scanning: false,
        prompt: None,
        password: seq![],
        identity: seq![],
        password_hidden: true,
        busy: None,
        failure: None,
        qr: None,
        speedtest: SpeedTestView::Idle,
        show_ssid: show_ssid,
        icon_name: "network-wireless-offline-symbolic"@,
    }
}

impl<T> Default for WifiPanel<T> {
    fn default() -> (p: WifiPanel<T>)
        ensures
            p@ == initial_panel::<T>(true),
    {
        WifiPanel::fresh(true)
    }
}

impl<T> WifiPanel<T> {
    fn fresh(show_ssid: bool) -> (p: WifiPanel<T>)
        ensures
            p@ == initial_panel::<T>(show_ssid),
    {
        let p = WifiPanel {
            popup: None,
            status: Status::blank(),
            rows: Vec::new(),
            band: BandStatus::empty(),
            dns: String::from_str("DHCP"),
            wifi_enabled: true,
            throughput: Throughput::default(),
            pings: PingSamples::default(),
            tick: 0,
            phrase_index: 0,
            scanning: false,
            prompt: None,
            password: String::new(),
            identity: String::new(),
            password_hidden: true,
            busy: None,
            failure: None,
            qr: None,
            speedtest: SpeedTest::Idle,
            show_ssid,
            icon_name: String::from_str("network-wireless-offline-symbolic"),
        };
        assert(p@.band.current =~= Seq::<char>::empty());
        assert(p@.band.selected =~= Seq::<char>::empty());
        assert(p@.band.profile =~= Seq::<char>::empty());
        assert(p@.band.available =~= Seq::<Seq<char>>::empty());
        assert(p@.rows =~= Seq::<RowView>::empty());
        p
    }

    /// The panel as the applet starts it, with the saved "show network
    /// name" preference, and the light reading it starts with.
    pub fn init(show_ssid: bool) -> (r: (WifiPanel<T>, Command))
        ensures
            r.0@ == initial_panel::<T>(show_ssid),
            r.1@ == (CommandView::Poll { full: false, rescan: false }),
    {
        (WifiPanel::fresh(show_ssid), Command::Poll { full: false, rescan: false })
    }

    /// Associated but with no route to the internet probe ("limited
    /// access"), inferred from a failing internet ping on an otherwise live
    /// link.
    pub fn restricted(&self) -> (r: bool)
        ensures
            r == is_restricted(self@.status, self@.pings),
    {
        self.status.connected() && self.pings.has_internet_samples()
            && self.pings.internet_packet_loss() == 100
    }

    fn update_icon(&mut self)
        ensures
            final(self)@ == (PanelView {
                icon_name: link_icon(
                    old(self)@.status.kind,
                    old(self)@.status.signal as int,
                    is_restricted(old(self)@.status, old(self)@.pings),
                ),
                ..old(self)@
            }),
    {
        let restricted = self.restricted();
        let icon = connection_icon(self.status.kind, self.status.signal, restricted);
        self.icon_name = String::from_str(icon);
    }

    /// The row that carries `ssid`, if any.
    fn network(&self, ssid: &String) -> (r: Option<WifiRow>)
        ensures
            match r {
                Some(row) => find_row(self@.rows, ssid@) == Some(row@),
                None => find_row(self@.rows, ssid@) is None,
            },
    {
        let ghost rows = self@.rows;
        let mut i: usize = 0;
        assert(rows.skip(0) =~= rows);
        while i < self.rows.len()
            invariant
                i <= self.rows@.len(),
                rows == rows_view(self.rows@),
                find_row(rows, ssid@) == find_row(rows.skip(i as int), ssid@),
            decreases self.rows@.len() - i,
        {
            proof {
                assert(rows.skip(i as int)[0] == self.rows@[i as int]@);
                assert(rows.skip(i as int).drop_first() =~= rows.skip(i + 1));
            }
            if self.rows[i].ssid == *ssid {
                return Some(self.rows[i].duplicate());
            }
            i = i + 1;
        }
        None
    }

    fn toggle_popup(&mut self) -> (cmd: Command)
        ensures
            final(self)@ == after_toggle_popup(old(self)@).0,
            cmd@ == after_toggle_popup(old(self)@).1,
    {
        match self.popup {
            Some(id) => {
                self.popup = None;
                self.prompt = None;
                self.qr = None;
                Command::ClosePopup(id)
            },
            None => Command::OpenPopup,
        }
    }

    fn popup_closed(&mut self, id: u64) -> (cmd: Command)
        ensures
            final(self)@ == after_popup_closed(old(self)@, id).0,
            cmd@ == after_popup_closed(old(self)@, id).1,
    {
        if self.popup == Some(id) {
            self.popup = None;
            self.prompt = None;
            self.qr = None;
        }
        Command::Nothing
    }

    fn tick(&mut self) -> (cmd: Command)
        ensures
            final(self)@ == after_tick(old(self)@).0,
            cmd@ == after_tick(old(self)@).1,
    {
        self.tick = if self.tick == u32::MAX {
            0
        } else {
            self.tick + 1
        };
        if self.tick % PHRASE_TICKS == 0 {
            self.phrase_index = if self.phrase_index == usize::MAX {
                0
            } else {
                self.phrase_index + 1
            };
        }
        if self.popup.is_some() {
            return Command::Poll { full: true, rescan: self.tick % RESCAN_TICKS == 0 };
        }
        if self.tick % CLOSED_TICKS_PER_POLL == 0 {
            return Command::Poll { full: false, rescan: false };
        }
        Command::Nothing
    }

    fn polled(&mut self, poll: Poll<T>) -> (cmd: Command)
        ensures
            final(self)@ == after_poll(old(self)@, poll).0,
            cmd@ == after_poll(old(self)@, poll).1,
    {
        let ghost p = poll;
        let iface = poll.status.iface.clone();
        match (poll.status.rx_bytes, poll.status.tx_bytes) {
            (Some(rx), Some(tx)) => self.throughput.sample(iface.as_str(), rx, tx),
            _ => self.throughput.reset(),
        }
        self.pings.sample(iface.as_str(), poll.router_ping, poll.internet_ping);
        self.wifi_enabled = poll.wifi_enabled;
        self.status = poll.status;
        if poll.full {
            self.rows = poll.rows;
            self.band = poll.band;
            self.dns = poll.dns;
            self.scanning = false;
        }
        self.update_icon();
        Command::Nothing
    }

    fn row_pressed(&mut self, ssid: String) -> (cmd: Command)
        ensures
            final(self)@ == after_row_pressed(old(self)@, ssid@).0,
            cmd@ == after_row_pressed(old(self)@, ssid@).1,
    {
        self.failure = None;
        let row = match self.network(&ssid) {
            Some(row) => row,
            None => return Command::Nothing,
        };
        if row.connected {
            self.busy = Some((ssid.clone(), ActionKind::Disconnect));
            return Command::Run(Action::Disconnect(ssid));
        }
        // A saved profile already carries its secret, so it connects
        // straight away; only an unknown credentialed network opens the
        // prompt.
        if row.known || !row.security.requires_credentials() {
            self.busy = Some((ssid.clone(), ActionKind::Connect));
            return Command::Run(
                if row.known {
                    Action::ConnectKnown(ssid)
                } else {
                    Action::ConnectOpen(ssid)
                },
            );
        }
        self.prompt = Some(ssid);
        self.password = String::new();
        self.identity = String::new();
        self.password_hidden = true;
        Command::Nothing
    }

    fn submit(&mut self) -> (cmd: Command)
        ensures
            final(self)@ == after_submit(old(self)@).0,
            cmd@ == after_submit(old(self)@).1,
    {
        let ssid = match &self.prompt {
            Some(s) => s.clone(),
            None => return Command::Nothing,
        };
        let row = match self.network(&ssid) {
            Some(row) => row,
            None => return Command::Nothing,
        };
        let mut password = String::new();
        std::mem::swap(&mut password, &mut self.password);
        let identity = self.identity.clone();
        self.busy = Some((ssid.clone(), ActionKind::Connect));
        self.failure = None;
        self.password_hidden = true;
        Command::Run(
            if row.security == Security::Enterprise {
                Action::ConnectEnterprise { ssid, identity, password }
            } else {
                Action::ConnectPsk { ssid, password }
            },
        )
    }

    fn action_done(&mut self, result: Result<(), String>) -> (cmd: Command)
        ensures
            final(self)@ == after_action(
                old(self)@,
                match result {
                    Ok(()) => Ok(()),
                    Err(e) => Err(e@),
                },
            ).0,
            cmd@ == after_action(
                old(self)@,
                match result {
                    Ok(()) => Ok(()),
                    Err(e) => Err(e@),
                },
            ).1,
    {
        let mut was: Option<(String, ActionKind)> = None;
        std::mem::swap(&mut was, &mut self.busy);
        let (ssid, connecting) = match &was {
            Some((s, k)) => (s.clone(), *k == ActionKind::Connect),
            None => (String::new(), false),
        };
        match result {
            Ok(()) => {
                self.failure = None;
                // A successful connect closes the prompt; the row repaints
                // as "Connected" on the next reading.
                if connecting {
                    self.prompt = None;
                }
            },
            Err(reason) => {
                // A wrong passphrase leaves the prompt open so it can be
                // corrected: nmcli has already saved the bad profile, and
                // reconnecting overwrites the stored key.
                let r = chars_of(reason.as_str());
                let credentials = is(r.as_slice(), "Wrong password") || is(
                    r.as_slice(),
                    "Passphrase required",
                );
                if credentials && ssid.as_str().unicode_len() > 0 {
                    self.prompt = Some(ssid.clone());
                }
                self.failure = Some((ssid, reason));
            },
        }
        Command::Poll { full: self.popup.is_some(), rescan: false }
    }

    fn band_auto(&mut self, auto: bool) -> (cmd: Command)
        ensures
            final(self)@ == after_band_auto(old(self)@, auto).0,
            cmd@ == after_band_auto(old(self)@, auto).1,
    {
        let profile = self.band.profile.clone();
        // Pinning from Automatic keeps the radio where it already is rather
        // than moving it.
        let target = if auto {
            String::from_str("auto")
        } else {
            self.band.current.clone()
        };
        if target.as_str().unicode_len() == 0 {
            return Command::Nothing;
        }
        Command::Run(Action::SetBand { profile, target })
    }

    fn speedtest_done(&mut self, result: Result<T, String>) -> (cmd: Command)
        ensures
            final(self)@ == after_speedtest(
                old(self)@,
                match result {
                    Ok(v) => Ok(v),
                    Err(e) => Err(e@),
                },
            ).0,
            cmd@ == Command::Nothing@,
    {
        let upload = match self.speedtest {
            SpeedTest::Running { upload } => upload,
            _ => false,
        };
        self.speedtest = match result {
            Ok(mbps) => SpeedTest::Done { mbps, upload },
            Err(reason) => SpeedTest::Failed(reason),
        };
        Command::Nothing
    }

    /// Carries out `message` and says what the shell is to do next.
    pub fn update(&mut self, message: Message<T>) -> (cmd: Command)
        ensures
            final(self)@ == panel_step(old(self)@, message).0,
            cmd@ == panel_step(old(self)@, message).1,
    {
        match message {
            Message::TogglePopup => self.toggle_popup(),
            Message::PopupOpened(id) => {
                self.popup = Some(id);
                self.scanning = true;
                Command::Nothing
            },
            Message::PopupClosed(id) => self.popup_closed(id),
            Message::Tick => self.tick(),
            Message::Polled(poll) => self.polled(poll),
            Message::ToggleWifi(on) => {
                self.wifi_enabled = on;
                Command::Run(Action::SetWifi(on))
            },
            Message::RowPressed(ssid) => self.row_pressed(ssid),
            Message::CollapsePrompt => {
                self.prompt = None;
                self.password = String::new();
                self.identity = String::new();
                self.failure = None;
                Command::Nothing
            },
            Message::PasswordChanged(value) => {
                self.password = value;
                Command::Nothing
            },
            Message::IdentityChanged(value) => {
                self.identity = value;
                Command::Nothing
            },
            Message::TogglePasswordVisible => {
                self.password_hidden = !self.password_hidden;
                Command::Nothing
            },
            Message::SubmitPassword => self.submit(),
            Message::Forget(ssid) => {
                self.busy = Some((ssid.clone(), ActionKind::Forget));
                Command::Run(Action::Forget(ssid))
            },
            Message::ActionDone(result) => self.action_done(result),
            Message::ToggleBandAuto(auto) => self.band_auto(auto),
            Message::SetBand(band) => {
                let profile = self.band.profile.clone();
                Command::Run(Action::SetBand { profile, target: band })
            },
            Message::SetDns(provider) => {
                let profile = self.band.profile.clone();
                let servers = String::from_str(dns_servers_for(provider.as_str()));
                self.dns = provider;
                Command::Run(Action::SetDns { profile, servers })
            },
            Message::ShowQr => Command::FetchQr(self.status.iface.clone()),
            Message::QrReady(payload) => {
                self.qr = payload;
                Command::Nothing
            },
            Message::HideQr => {
                self.qr = None;
                Command::Nothing
            },
            Message::RunSpeedTest(upload) => {
                self.speedtest = SpeedTest::Running { upload };
                Command::SpeedTest { iface: self.status.iface.clone(), upload }
            },
            Message::SpeedTestDone(result) => self.speedtest_done(result),
            Message::OpenCaptivePortal => Command::OpenCaptivePortal,
            Message::ToggleSsidLabel(show) => {
                self.show_ssid = show;
                Command::SaveShowSsid(show)
            },
        }
    }
}

// ---------------------------------------------------------------------------
// Laws
// ---------------------------------------------------------------------------

/// A successful connect closes the passphrase prompt and clears any
/// failure; the row is free again.
pub proof fn law_successful_connect_closes_prompt<T>(m: PanelView<T>, ssid: Seq<char>)
    requires
        m.busy == Some((ssid, ActionKind::Connect)),
    ensures
        after_action(m, Ok(())).0.prompt is None,
        after_action(m, Ok(())).0.failure is None,
        after_action(m, Ok(())).0.busy is None,
{
}

/// A wrong or missing passphrase leaves the prompt open on the network it
/// was typed for, with the reason on its row.
pub proof fn law_wrong_password_keeps_prompt<T>(m: PanelView<T>, ssid: Seq<char>, kind: ActionKind, reason: Seq<char>)
    requires
        m.busy == Some((ssid, kind)),
        ssid.len() > 0,
        is_credentials_failure(reason),
    ensures
        after_action(m, Err(reason)).0.prompt == Some(ssid),
        after_action(m, Err(reason)).0.failure == Some((ssid, reason)),
        after_action(m, Err(reason)).0.busy is None,
{
}

/// Any other failure is shown on its row and leaves the prompt as it was.
pub proof fn law_other_failure_keeps_prompt_as_is<T>(m: PanelView<T>, reason: Seq<char>)
    requires
        !is_credentials_failure(reason),
    ensures
        after_action(m, Err(reason)).0.prompt == m.prompt,
        after_action(m, Err(reason)).0.failure == Some(
            (
                match m.busy {
                    Some((s, _)) => s,
                    None => seq![],
                },
                reason,
            ),
        ),
{
}

/// Whatever an action's outcome, the row is freed and a reading follows:
/// a full one while the popup is open, a light one otherwise.
pub proof fn law_finished_action_repolls<T>(m: PanelView<T>, result: Result<(), Seq<char>>)
    ensures
        after_action(m, result).0.busy is None,
        after_action(m, result).1 == (CommandView::Poll { full: m.popup is Some, rescan: false }),
{
}

/// Closing the popup, by the bar icon or by the shell, drops the prompt
/// and the QR code with it.
pub proof fn law_closing_popup_drops_prompt_and_qr<T>(m: PanelView<T>, id: u64)
    requires
        m.popup == Some(id),
    ensures
        after_toggle_popup(m).0.popup is None,
        after_toggle_popup(m).0.prompt is None,
        after_toggle_popup(m).0.qr is None,
        after_toggle_popup(m).1 == CommandView::ClosePopup(id),
        after_popup_closed(m, id).0.popup is None,
        after_popup_closed(m, id).0.prompt is None,
        after_popup_closed(m, id).0.qr is None,
{
}

/// While the popup is open every tick reads everything, with a forced scan
/// every `RESCAN_TICKS`; while it is closed a scan is never forced, and only
/// every `CLOSED_TICKS_PER_POLL` ticks is a light reading taken.
pub proof fn law_tick_schedule<T>(m: PanelView<T>)
    ensures
        m.popup is Some ==> after_tick(m).1 == (CommandView::Poll {
            full: true,
            rescan: next_u32(m.tick) % RESCAN_TICKS == 0,
        }),
        m.popup is None ==> (after_tick(m).1 == (CommandView::Poll { full: false, rescan: false })
            <==> next_u32(m.tick) % CLOSED_TICKS_PER_POLL == 0),
        m.popup is None ==> (after_tick(m).1 == CommandView::Nothing <==> next_u32(m.tick)
            % CLOSED_TICKS_PER_POLL != 0),
{
}

/// A network that needs credentials and has no saved profile is never
/// connected to from a press on its row: the prompt opens instead, empty
/// and masked.
pub proof fn law_unknown_secured_network_prompts<T>(m: PanelView<T>, ssid: Seq<char>)
    requires
        find_row(m.rows, ssid) matches Some(row) && !row.connected && !row.known
            && row.security.needs_credentials(),
    ensures
        after_row_pressed(m, ssid).1 == CommandView::Nothing,
        after_row_pressed(m, ssid).0.prompt == Some(ssid),
        after_row_pressed(m, ssid).0.password.len() == 0,
        after_row_pressed(m, ssid).0.password_hidden,
{
}

/// Submitting the prompt hands the typed passphrase to the connect action
/// and keeps no copy of it.
pub proof fn law_submit_takes_password<T>(m: PanelView<T>, ssid: Seq<char>)
    requires
        m.prompt == Some(ssid),
        find_row(m.rows, ssid) is Some,
    ensures
        after_submit(m).0.password.len() == 0,
        after_submit(m).0.busy == Some((ssid, ActionKind::Connect)),
        match after_submit(m).1 {
            CommandView::Run(ActionView::ConnectPsk { ssid: s, password }) => s == ssid && password
                == m.password,
            CommandView::Run(ActionView::ConnectEnterprise { ssid: s, identity, password }) => s
                == ssid && identity == m.identity && password == m.password,
            _ => false,
        },
{
}

/// After every reading the bar icon is the one for the new link, with the
/// no-route variant exactly when every recent internet probe timed out.
pub proof fn law_icon_follows_reading<T>(m: PanelView<T>, p: Poll<T>)
    ensures
        after_poll(m, p).0.icon_name == link_icon(
            p.status@.kind,
            p.status@.signal as int,
            is_restricted(p.status@, after_poll(m, p).0.pings),
        ),
        after_poll(m, p).0.status == p.status@,
{
}

/// Pressing a band pill pins the pressed band on the active profile and
/// leaves the panel as it was; two different pills ask for different bands.
pub proof fn law_band_pill_pins_pressed_band<T>(m: PanelView<T>, band: String, other: String)
    ensures
        panel_step(m, Message::SetBand(band)).0 == m,
        panel_step(m, Message::SetBand(band)).1 == CommandView::Run(
            ActionView::SetBand { profile: m.band.profile, target: band@ },
        ),
        band@ != other@ ==> panel_step(m, Message::SetBand(band)).1 != panel_step(
            m,
            Message::<T>::SetBand(other),
        ).1,
{
}

/// The Automatic switch: on, it unpins the band of the active profile;
/// off, it pins the band the radio is on, and does nothing when no band is
/// known. Either way the panel itself is left as it was.
pub proof fn law_band_auto_switch<T>(m: PanelView<T>)
    ensures
        panel_step(m, Message::ToggleBandAuto(true)).0 == m,
        panel_step(m, Message::ToggleBandAuto(true)).1 == CommandView::Run(
            ActionView::SetBand { profile: m.band.profile, target: "auto"@ },
        ),
        panel_step(m, Message::ToggleBandAuto(false)).0 == m,
        m.band.current.len() > 0 ==> panel_step(m, Message::ToggleBandAuto(false)).1
            == CommandView::Run(ActionView::SetBand { profile: m.band.profile, target: m.band.current }),
        m.band.current.len() == 0 ==> panel_step(m, Message::ToggleBandAuto(false)).1
            == CommandView::Nothing,
{
    reveal_strlit("auto");
}

} // verus!
