use cosmic_ext_applet_wifi_plus::model::{
    band_label, band_section_title, band_title_with, connection_icon, connection_phrase,
    format_header_speed, format_packet_loss, wifi_icon_for, wifi_section_title, PingSamples,
    Throughput,
};
use cosmic_ext_applet_wifi_plus::net::{Kind, Security};
use cosmic_ext_applet_wifi_plus::scan::WifiRow;

fn row(ssid: &str, known: bool) -> WifiRow {
    WifiRow { ssid: ssid.to_string(), signal: 50, security: Security::Psk, connected: false, known }
}

#[test]
fn band_header_carries_live_band_only_under_auto() {
    assert_eq!(band_section_title("auto", "5"), "WI-FI BAND: 5GHZ");
    assert_eq!(band_section_title("5", "5"), "WI-FI BAND");
    assert_eq!(band_section_title("auto", ""), "WI-FI BAND");
}

#[test]
fn ethernet_speed_reads_as_gbit_above_a_thousand() {
    assert_eq!(format_header_speed("1000"), "1gbit");
    assert_eq!(format_header_speed("2500"), "2.5gbit");
    assert_eq!(format_header_speed("100"), "100mbit");
    assert_eq!(format_header_speed("-1"), "");
}

#[test]
fn packet_loss_counts_timeouts_but_average_ignores_them() {
    let mut samples: PingSamples<f64> = PingSamples::default();
    samples.sample("wlp2s0", Some(1.0), Some(10.0));
    samples.sample("wlp2s0", Some(1.0), None);
    samples.sample("wlp2s0", Some(1.0), Some(20.0));

    let answers = samples.internet_answers();
    let average = answers.iter().sum::<f64>() / answers.len() as f64;
    assert_eq!(average, 15.0);
    assert_eq!(samples.internet_packet_loss(), 33);
}

#[test]
fn switching_interface_resets_the_throughput_baseline() {
    let mut throughput = Throughput::default();
    throughput.sample("wlp2s0", 1_000_000, 500_000);
    throughput.sample("enp0s1", 10, 10);

    assert_eq!(throughput.moved(), None);
}

#[test]
fn same_interface_counts_bytes_between_samples() {
    let mut throughput = Throughput::default();
    throughput.sample("wlp2s0", 1_000, 500);
    assert_eq!(throughput.moved(), None);
    throughput.sample("wlp2s0", 4_000, 400);
    assert_eq!(throughput.moved(), Some((3_000, 0)));
    throughput.reset();
    assert_eq!(throughput.moved(), None);
    throughput.sample("wlp2s0", 5_000, 600);
    assert_eq!(throughput.moved(), None);
}

#[test]
fn ping_window_keeps_the_newest_five() {
    let mut samples: PingSamples<u32> = PingSamples::default();
    assert!(!samples.has_internet_samples());
    assert_eq!(samples.internet_packet_loss(), 0);
    for i in 0..7u32 {
        samples.sample("wlp2s0", None, if i < 2 { None } else { Some(i) });
    }
    assert_eq!(samples.internet_answers(), vec![2, 3, 4, 5, 6]);
    assert_eq!(samples.internet_packet_loss(), 0);
    samples.sample("enp0s1", None, None);
    assert_eq!(samples.internet_answers(), Vec::<u32>::new());
    assert_eq!(samples.internet_packet_loss(), 100);
}

#[test]
fn packet_loss_rounds_to_whole_percent() {
    let mut samples: PingSamples<u32> = PingSamples::default();
    samples.sample("eth0", None, None);
    samples.sample("eth0", None, None);
    samples.sample("eth0", None, Some(3));
    assert_eq!(samples.internet_packet_loss(), 67);
    samples.sample("eth0", None, Some(3));
    assert_eq!(samples.internet_packet_loss(), 50);
}

#[test]
fn header_speed_edges() {
    assert_eq!(format_header_speed(" 10000\n"), "10gbit");
    assert_eq!(format_header_speed("999"), "999mbit");
    assert_eq!(format_header_speed("1001"), "1.0gbit");
    assert_eq!(format_header_speed("1050"), "1.1gbit");
    assert_eq!(format_header_speed("1750"), "1.8gbit");
    assert_eq!(format_header_speed("2550"), "2.5gbit");
    assert_eq!(format_header_speed("2750"), "2.8gbit");
    assert_eq!(format_header_speed("+25000"), "25gbit");
    assert_eq!(format_header_speed("unknown"), "");
    assert_eq!(format_header_speed("0"), "");
    assert_eq!(format_header_speed(""), "");
}

#[test]
fn header_speed_matches_float_rendering() {
    for v in 1000i64..20_000 {
        let expected = if v % 1000 == 0 {
            format!("{:.0}gbit", v as f64 / 1000.0)
        } else {
            format!("{:.1}gbit", v as f64 / 1000.0)
        };
        assert_eq!(format_header_speed(&v.to_string()), expected);
    }
}

#[test]
fn header_speed_beyond_exact_doubles() {
    assert_eq!(format_header_speed("9223372036854775807"), "9223372036854776.0gbit");
    assert_eq!(format_header_speed("9007199254740993"), "9007199254741.0gbit");
    assert_eq!(format_header_speed("9007199254741000"), "9007199254741gbit");
    assert_eq!(format_header_speed("1000000000000000000"), "1000000000000000gbit");
    assert_eq!(format_header_speed("4503599627370497123"), "4503599627370497.0gbit");
    let mut x: u64 = 0x9e37_79b9_7f4a_7c15;
    for i in 0..20_000u64 {
        x = x.wrapping_mul(6364136223846793005).wrapping_add(1442695040888963407);
        let span = 1u64 << (53 + (i % 10));
        let mut v = (span + x % span).min(i64::MAX as u64) as i64;
        if i % 3 == 0 {
            v -= v % 1000;
        } else if i % 3 == 1 {
            v = v - v % 100 - 50;
        }
        let expected = if v % 1000 == 0 {
            format!("{:.0}gbit", v as f64 / 1000.0)
        } else {
            format!("{:.1}gbit", v as f64 / 1000.0)
        };
        assert_eq!(format_header_speed(&v.to_string()), expected, "speed {}", v);
    }
}

#[test]
fn signal_icons_by_strength() {
    assert_eq!(wifi_icon_for(80), "network-wireless-signal-excellent-symbolic");
    assert_eq!(wifi_icon_for(79), "network-wireless-signal-good-symbolic");
    assert_eq!(wifi_icon_for(40), "network-wireless-signal-ok-symbolic");
    assert_eq!(wifi_icon_for(20), "network-wireless-signal-weak-symbolic");
    assert_eq!(wifi_icon_for(19), "network-wireless-signal-none-symbolic");
    assert_eq!(wifi_icon_for(-1), "network-wireless-signal-none-symbolic");
}

#[test]
fn link_icons_by_kind() {
    assert_eq!(connection_icon(Kind::Wifi, 90, true), "network-wireless-no-route-symbolic");
    assert_eq!(connection_icon(Kind::Wifi, 65, false), "network-wireless-signal-good-symbolic");
    assert_eq!(connection_icon(Kind::Ethernet, 0, true), "network-wired-no-route-symbolic");
    assert_eq!(connection_icon(Kind::Ethernet, 0, false), "network-wired-symbolic");
    assert_eq!(connection_icon(Kind::Disconnected, 0, true), "network-wireless-offline-symbolic");
}

#[test]
fn band_labels_and_titles() {
    assert_eq!(band_label("auto"), "Auto");
    assert_eq!(band_label(""), "");
    assert_eq!(band_label("2.4"), "2.4ghz");
    assert_eq!(band_section_title("auto", "auto"), "WI-FI BAND: AUTO");
    assert_eq!(band_section_title("auto", "2.4"), "WI-FI BAND: 2.4GHZ");
    assert_eq!(band_title_with("6GHZ"), "WI-FI BAND: 6GHZ");
}

#[test]
fn packet_loss_text() {
    assert_eq!(format_packet_loss(40, false), "--");
    assert_eq!(format_packet_loss(0, true), "0%");
    assert_eq!(format_packet_loss(-5, true), "0%");
    assert_eq!(format_packet_loss(33, true), "33%");
    assert_eq!(format_packet_loss(100, true), "100%");
}

#[test]
fn phrases_rotate() {
    assert_eq!(connection_phrase(0), "Wiring bits");
    assert_eq!(connection_phrase(6), "Bending light");
    assert_eq!(connection_phrase(7), "Wiring bits");
    assert_eq!(connection_phrase(10), "Hauling bytes");
}

#[test]
fn section_titles_mark_known_then_other() {
    let rows = vec![row("home", true), row("office", true), row("cafe", false), row("mall", false)];
    assert_eq!(wifi_section_title(&rows, 0), Some("KNOWN NETWORKS"));
    assert_eq!(wifi_section_title(&rows, 1), None);
    assert_eq!(wifi_section_title(&rows, 2), Some("OTHER NETWORKS"));
    assert_eq!(wifi_section_title(&rows, 3), None);
    assert_eq!(wifi_section_title(&rows, 4), None);
    let mut connected = row("Cafe Guest", false);
    connected.connected = true;
    let mixed = vec![connected, row("home", true), row("office", true), row("mall", false)];
    assert_eq!(wifi_section_title(&mixed, 0), Some("OTHER NETWORKS"));
    assert_eq!(wifi_section_title(&mixed, 1), Some("KNOWN NETWORKS"));
    assert_eq!(wifi_section_title(&mixed, 2), None);
    assert_eq!(wifi_section_title(&mixed, 3), None);
    let strangers = vec![row("cafe", false)];
    assert_eq!(wifi_section_title(&strangers, 0), Some("OTHER NETWORKS"));
}
