use cosmic_ext_applet_wifi_plus::band::BandStatus;
use cosmic_ext_applet_wifi_plus::layout::{
    dns_choice_at, dns_choice_settable, or_dash, prompt_asks_identity, report_line, row_forgettable,
    row_name, ListEntry, Section,
};
use cosmic_ext_applet_wifi_plus::net::{Kind, Security, Status};
use cosmic_ext_applet_wifi_plus::panel::{Action, ActionKind, Command, Message, WifiPanel, Poll, SpeedTest};
use cosmic_ext_applet_wifi_plus::scan::WifiRow;

fn row(ssid: &str, security: Security, connected: bool, known: bool) -> WifiRow {
    WifiRow { ssid: ssid.to_string(), signal: 60, security, connected, known }
}

fn wifi(ssid: &str) -> Status {
    let mut s = Status::blank();
    s.kind = Kind::Wifi;
    s.iface = "wlp2s0".to_string();
    s.ssid = ssid.to_string();
    s.signal = 85;
    s.rx_bytes = Some(100);
    s.tx_bytes = Some(50);
    s
}

fn full_poll(status: Status, rows: Vec<WifiRow>, internet: Option<f64>) -> Poll<f64> {
    Poll {
        status,
        rows,
        band: BandStatus::empty(),
        dns: "DHCP".to_string(),
        wifi_enabled: true,
        router_ping: Some(1.0),
        internet_ping: internet,
        full: true,
    }
}

fn panel_with_rows() -> WifiPanel<f64> {
    let (mut p, _) = WifiPanel::init(true);
    let rows = vec![
        row("Home", Security::Psk, true, true),
        row("Cafe", Security::Psk, false, false),
        row("Corp", Security::Enterprise, false, false),
        row("Airport", Security::Open, false, false),
        row("Saved", Security::Psk, false, true),
    ];
    let _ = p.update(Message::Polled(full_poll(wifi("Home"), rows, Some(9.0))));
    p
}

#[test]
fn panel_starts_offline_and_polls_lightly() {
    let (p, cmd): (WifiPanel<f64>, Command) = WifiPanel::init(false);
    assert!(matches!(cmd, Command::Poll { full: false, rescan: false }));
    assert_eq!(p.dns, "DHCP");
    assert!(p.wifi_enabled && p.password_hidden && !p.show_ssid);
    assert_eq!(p.icon_name, "network-wireless-offline-symbolic");
    let d: WifiPanel<f64> = WifiPanel::default();
    assert!(d.show_ssid);
}

#[test]
fn ticks_follow_the_schedule() {
    let (mut p, _): (WifiPanel<f64>, Command) = WifiPanel::init(true);
    let mut polls = Vec::new();
    for _ in 0..8 {
        polls.push(matches!(p.update(Message::Tick), Command::Poll { full: false, rescan: false }));
    }
    assert_eq!(polls, vec![false, false, false, true, false, false, false, true]);
    assert_eq!(p.phrase_index, 1);
    assert!(matches!(p.update(Message::TogglePopup), Command::OpenPopup));
    let _ = p.update(Message::PopupOpened(7));
    assert!(p.scanning);
    assert!(matches!(p.update(Message::Tick), Command::Poll { full: true, rescan: false }));
    assert!(matches!(p.update(Message::Tick), Command::Poll { full: true, rescan: true }));
    assert_eq!(p.tick, 10);
    assert_eq!(p.phrase_index, 2);
}

#[test]
fn closing_the_popup_drops_prompt_and_qr() {
    let mut p = panel_with_rows();
    let _ = p.update(Message::PopupOpened(3));
    let _ = p.update(Message::RowPressed("Cafe".to_string()));
    let _ = p.update(Message::QrReady(Some("WIFI:T:nopass;S:Home;;".to_string())));
    assert_eq!(p.prompt.as_deref(), Some("Cafe"));
    assert!(matches!(p.update(Message::TogglePopup), Command::ClosePopup(3)));
    assert!(p.popup.is_none() && p.prompt.is_none() && p.qr.is_none());

    let _ = p.update(Message::PopupOpened(4));
    let _ = p.update(Message::RowPressed("Cafe".to_string()));
    let _ = p.update(Message::PopupClosed(9));
    assert_eq!(p.prompt.as_deref(), Some("Cafe"));
    let _ = p.update(Message::PopupClosed(4));
    assert!(p.popup.is_none() && p.prompt.is_none());
}

#[test]
fn row_presses_pick_the_right_action() {
    let mut p = panel_with_rows();
    match p.update(Message::RowPressed("Home".to_string())) {
        Command::Run(Action::Disconnect(s)) => assert_eq!(s, "Home"),
        other => panic!("{:?}", other),
    }
    assert_eq!(p.busy, Some(("Home".to_string(), ActionKind::Disconnect)));
    match p.update(Message::RowPressed("Saved".to_string())) {
        Command::Run(Action::ConnectKnown(s)) => assert_eq!(s, "Saved"),
        other => panic!("{:?}", other),
    }
    match p.update(Message::RowPressed("Airport".to_string())) {
        Command::Run(Action::ConnectOpen(s)) => assert_eq!(s, "Airport"),
        other => panic!("{:?}", other),
    }
    assert!(matches!(p.update(Message::RowPressed("Nowhere".to_string())), Command::Nothing));
    let _ = p.update(Message::PasswordChanged("stale".to_string()));
    assert!(matches!(p.update(Message::RowPressed("Cafe".to_string())), Command::Nothing));
    assert_eq!(p.prompt.as_deref(), Some("Cafe"));
    assert_eq!(p.password, "");
    assert!(p.password_hidden);
}

#[test]
fn wrong_password_keeps_the_prompt_open() {
    let mut p = panel_with_rows();
    let _ = p.update(Message::PopupOpened(1));
    let _ = p.update(Message::RowPressed("Cafe".to_string()));
    let _ = p.update(Message::PasswordChanged("hunter2".to_string()));
    let _ = p.update(Message::TogglePasswordVisible);
    assert!(!p.password_hidden);
    match p.update(Message::SubmitPassword) {
        Command::Run(Action::ConnectPsk { ssid, password }) => {
            assert_eq!(ssid, "Cafe");
            assert_eq!(password, "hunter2");
        }
        other => panic!("{:?}", other),
    }
    assert_eq!(p.password, "");
    assert!(p.password_hidden);
    assert_eq!(p.busy, Some(("Cafe".to_string(), ActionKind::Connect)));
    let cmd = p.update(Message::ActionDone(Err("Wrong password".to_string())));
    assert!(matches!(cmd, Command::Poll { full: true, rescan: false }));
    assert_eq!(p.prompt.as_deref(), Some("Cafe"));
    assert_eq!(p.failure, Some(("Cafe".to_string(), "Wrong password".to_string())));
    assert!(p.busy.is_none());
}

#[test]
fn successful_connect_closes_the_prompt() {
    let mut p = panel_with_rows();
    let _ = p.update(Message::RowPressed("Corp".to_string()));
    let _ = p.update(Message::IdentityChanged("me@corp".to_string()));
    let _ = p.update(Message::PasswordChanged("pw".to_string()));
    match p.update(Message::SubmitPassword) {
        Command::Run(Action::ConnectEnterprise { ssid, identity, password }) => {
            assert_eq!((ssid.as_str(), identity.as_str(), password.as_str()), ("Corp", "me@corp", "pw"));
        }
        other => panic!("{:?}", other),
    }
    let cmd = p.update(Message::ActionDone(Ok(())));
    assert!(matches!(cmd, Command::Poll { full: false, rescan: false }));
    assert!(p.prompt.is_none() && p.failure.is_none() && p.busy.is_none());
}

#[test]
fn other_failures_leave_the_prompt_alone() {
    let mut p = panel_with_rows();
    let _ = p.update(Message::Forget("Saved".to_string()));
    assert_eq!(p.busy, Some(("Saved".to_string(), ActionKind::Forget)));
    let _ = p.update(Message::ActionDone(Err("Failed to forget".to_string())));
    assert!(p.prompt.is_none());
    assert_eq!(p.failure, Some(("Saved".to_string(), "Failed to forget".to_string())));
    let _ = p.update(Message::CollapsePrompt);
    assert!(p.failure.is_none());
}

#[test]
fn dead_internet_marks_the_link_restricted() {
    let mut p = panel_with_rows();
    assert!(!p.restricted());
    assert_eq!(p.icon_name, "network-wireless-signal-excellent-symbolic");
    for _ in 0..5 {
        let _ = p.update(Message::Polled(full_poll(wifi("Home"), vec![row("Home", Security::Psk, true, true)], None)));
    }
    assert!(p.restricted());
    assert_eq!(p.icon_name, "network-wireless-no-route-symbolic");
    assert_eq!(p.hero_meta(), "LIMITED INTERNET ACCESS");
    let home = row("Home", Security::Psk, true, true);
    assert_eq!(p.status_text(&home), Some(("Sign-in required".to_string(), true)));
    assert_eq!(p.sections()[1], Section::CaptivePortal);
}

#[test]
fn light_poll_keeps_the_list() {
    let mut p = panel_with_rows();
    let mut poll = full_poll(Status::blank(), Vec::new(), None);
    poll.full = false;
    poll.wifi_enabled = false;
    let _ = p.update(Message::Polled(poll));
    assert_eq!(p.rows.len(), 5);
    assert!(!p.wifi_enabled);
    assert_eq!(p.status.kind, Kind::Disconnected);
    assert_eq!(p.icon_name, "network-wireless-offline-symbolic");
    assert_eq!(p.throughput.moved(), None);
}

#[test]
fn band_dns_qr_and_speed_test_commands() {
    let mut p = panel_with_rows();
    p.band.profile = "Home".to_string();
    p.band.current = "5".to_string();
    match p.update(Message::ToggleBandAuto(false)) {
        Command::Run(Action::SetBand { profile, target }) => assert_eq!((profile.as_str(), target.as_str()), ("Home", "5")),
        other => panic!("{:?}", other),
    }
    match p.update(Message::ToggleBandAuto(true)) {
        Command::Run(Action::SetBand { target, .. }) => assert_eq!(target, "auto"),
        other => panic!("{:?}", other),
    }
    p.band.current = String::new();
    assert!(matches!(p.update(Message::ToggleBandAuto(false)), Command::Nothing));
    match p.update(Message::SetDns("Cloudflare".to_string())) {
        Command::Run(Action::SetDns { profile, servers }) => assert_eq!((profile.as_str(), servers.as_str()), ("Home", "1.1.1.1,1.0.0.1")),
        other => panic!("{:?}", other),
    }
    assert_eq!(p.dns, "Cloudflare");
    match p.update(Message::ShowQr) {
        Command::FetchQr(iface) => assert_eq!(iface, "wlp2s0"),
        other => panic!("{:?}", other),
    }
    match p.update(Message::RunSpeedTest(true)) {
        Command::SpeedTest { iface, upload } => assert_eq!((iface.as_str(), upload), ("wlp2s0", true)),
        other => panic!("{:?}", other),
    }
    assert_eq!(p.speedtest_caption().as_deref(), Some("UPLOAD TEST"));
    let _ = p.update(Message::SpeedTestDone(Ok(93.5)));
    assert!(matches!(p.speedtest, SpeedTest::Done { upload: true, .. }));
    assert_eq!(p.speedtest_button(), Some(("Test down", false)));
    let _ = p.update(Message::SpeedTestDone(Err("Measurement failed".to_string())));
    assert_eq!(p.speedtest_caption().as_deref(), Some("Measurement failed"));
    assert_eq!(p.speedtest_button(), Some(("Retry", false)));
    assert!(matches!(p.update(Message::ToggleSsidLabel(false)), Command::SaveShowSsid(false)));
    assert!(matches!(p.update(Message::ToggleWifi(false)), Command::Run(Action::SetWifi(false))));
    assert!(matches!(p.update(Message::OpenCaptivePortal), Command::OpenCaptivePortal));
}

#[test]
fn bar_label_is_clipped_and_dropped() {
    let mut p = panel_with_rows();
    assert_eq!(p.bar_label(true).as_deref(), Some("Home"));
    assert_eq!(p.bar_label(false), None);
    p.status.ssid = "ÜberLongNetworkName!!".to_string();
    assert_eq!(p.bar_label(true).as_deref(), Some("ÜberLongNetworkNa\u{2026}"));
    p.status.ssid = "ExactlyEighteen123".to_string();
    assert_eq!(p.bar_label(true).as_deref(), Some("ExactlyEighteen123"));
    p.show_ssid = false;
    assert_eq!(p.bar_label(true), None);
    p.show_ssid = true;
    p.status.kind = Kind::Ethernet;
    assert_eq!(p.bar_label(true), None);
}

#[test]
fn hero_texts() {
    let mut p = panel_with_rows();
    assert_eq!(p.hero_title(), "Home");
    assert_eq!(p.hero_meta(), "WIRING BITS");
    assert!(p.hero_offers_sharing());
    p.phrase_index = 9;
    assert_eq!(p.hero_meta(), "SORTING FRAMES");
    p.status.kind = Kind::Ethernet;
    p.status.eth_speed = "2500".to_string();
    assert_eq!(p.header_detail(), "2.5gbit");
    assert_eq!(p.hero_title(), "Ethernet (2.5gbit)");
    assert!(!p.hero_offers_sharing());
    p.status.eth_speed = String::new();
    assert_eq!(p.hero_title(), "Ethernet");
    p.status = Status::blank();
    assert_eq!(p.hero_title(), "Disconnected");
    assert_eq!(p.hero_meta(), "NOT CONNECTED");
    p.status.kind = Kind::Wifi;
    assert_eq!(p.hero_title(), "Wi-Fi");
}

#[test]
fn network_list_layout() {
    let mut p = panel_with_rows();
    assert_eq!(p.list_notice(), None);
    let _ = p.update(Message::RowPressed("Cafe".to_string()));
    let rows = vec![
        row("Home", Security::Psk, true, true),
        row("Saved", Security::Psk, false, true),
        row("Cafe", Security::Psk, false, false),
        row("Airport", Security::Open, false, false),
    ];
    let _ = p.update(Message::Polled(full_poll(wifi("Home"), rows, Some(5.0))));
    assert_eq!(
        p.list_entries(),
        vec![
            ListEntry::Known,
            ListEntry::Row(0),
            ListEntry::Row(1),
            ListEntry::Other,
            ListEntry::Row(2),
            ListEntry::Prompt(2),
            ListEntry::Row(3),
        ]
    );
    p.rows.clear();
    assert_eq!(p.list_notice(), Some("SCANNING WI-FI\u{2026}"));
    p.wifi_enabled = false;
    assert_eq!(p.list_notice(), Some("WI-FI IS OFF"));
}

#[test]
fn popup_sections_in_order() {
    let mut p = panel_with_rows();
    assert_eq!(p.sections(), vec![Section::Hero, Section::Metrics, Section::Dns, Section::Networks, Section::Settings]);
    p.band.available = vec!["2.4".to_string(), "5".to_string()];
    p.band.selected = "auto".to_string();
    assert!(p.band_visible() && !p.band_pinned());
    p.speedtest = SpeedTest::Running { upload: false };
    assert_eq!(
        p.sections(),
        vec![Section::Hero, Section::SpeedTest, Section::Metrics, Section::Band, Section::Dns, Section::Networks, Section::Settings]
    );
    p.qr = Some("WIFI:T:nopass;S:Home;;".to_string());
    assert_eq!(p.sections(), vec![Section::Hero, Section::SpeedTest, Section::Metrics, Section::Qr]);
    p.qr = None;
    p.status = Status::blank();
    p.speedtest = SpeedTest::Idle;
    assert_eq!(p.sections(), vec![Section::Hero, Section::Networks, Section::Settings]);
}

#[test]
fn row_details() {
    let mut p = panel_with_rows();
    let cafe = row("Cafe", Security::Psk, false, false);
    assert_eq!(p.status_text(&cafe), None);
    let _ = p.update(Message::RowPressed("Airport".to_string()));
    let airport = row("Airport", Security::Open, false, false);
    assert_eq!(p.status_text(&airport), Some(("Connecting\u{2026}".to_string(), false)));
    let home = row("Home", Security::Psk, true, true);
    assert_eq!(p.status_text(&home), Some(("Connected".to_string(), false)));
    assert_eq!(row_name(&row("", Security::Open, false, false)), "Hidden");
    assert_eq!(row_name(&cafe), "Cafe");
    assert!(row_forgettable(&row("Saved", Security::Psk, false, true)));
    assert!(!row_forgettable(&home));
    assert!(prompt_asks_identity(&row("Corp", Security::Enterprise, false, false)));
    assert!(!prompt_asks_identity(&cafe));
    assert!(p.dns_selected("DHCP") && !p.dns_selected("Google"));
    let choices: Vec<&str> = (0..4).map(dns_choice_at).collect();
    assert_eq!(choices, vec!["DHCP", "Cloudflare", "Google", "Custom"]);
    assert!(dns_choice_settable("Google") && !dns_choice_settable("Custom"));
    assert_eq!(or_dash(""), "--");
    assert_eq!(or_dash("10.0.0.1"), "10.0.0.1");
}

#[test]
fn status_report_lines() {
    assert_eq!(
        report_line(&row("Home", Security::Psk, true, true)),
        format!("  {:>3}%  {:<28} {:?}{}{}", 60, "Home", Security::Psk, "  known", "  CONNECTED")
    );
    let mut weak = row("Cafe", Security::Open, false, false);
    weak.signal = 5;
    assert_eq!(report_line(&weak), format!("    5%  {:<28} Open", "Cafe"));
    weak.signal = -100;
    weak.ssid = "A".repeat(30);
    assert_eq!(report_line(&weak), format!("  -100%  {} Open", "A".repeat(30)));
}
