use cosmic_ext_applet_wifi_plus::band::{
    available_bands, band_for_freq, band_from_nm, band_status, nm_band_for, parse_mhz,
    wifi_profile,
};
use cosmic_ext_applet_wifi_plus::json::{
    default_route, prefix_len, prefix_from_json, route_from_json, speedtest_endpoints, Json,
    JsonNumber, Member,
};
use cosmic_ext_applet_wifi_plus::net::{parse_security, Kind, Security, Status};
use cosmic_ext_applet_wifi_plus::qr::{qr_uuid, wifi_qr_payload};
use cosmic_ext_applet_wifi_plus::scan::{known_profiles, scan};
use cosmic_ext_applet_wifi_plus::status::{
    apply_iw_link, apply_wifi_list, net_class_file, ping_time_text, wired_status,
    wireless_readable, wireless_status,
};
use cosmic_ext_applet_wifi_plus::terse::split_terse;

fn chars(s: &str) -> Vec<char> {
    s.chars().collect()
}

fn fields(line: &str) -> Vec<String> {
    split_terse(&chars(line)).into_iter().map(|f| f.into_iter().collect()).collect()
}

fn text(s: &str) -> Json {
    Json::Str(s.to_string())
}

fn member(key: &str, value: Json) -> Member {
    Member { key: key.to_string(), value }
}

fn number(n: u64) -> Json {
    Json::Number(JsonNumber { as_u64: Some(n), as_i64: Some(n as i64) })
}

fn route(dev: &str, gateway: &str, src: &str) -> cosmic_ext_applet_wifi_plus::json::Route {
    cosmic_ext_applet_wifi_plus::json::Route {
        dev: dev.to_string(),
        gateway: gateway.to_string(),
        src: src.to_string(),
    }
}

#[test]
fn terse_split_keeps_escaped_colons() {
    assert_eq!(fields("*:80:WPA2:Cafe\\:Bar"), vec!["*", "80", "WPA2", "Cafe:Bar"]);
    assert_eq!(fields(" :54:--:"), vec![" ", "54", "--", ""]);
    assert_eq!(fields("a\\\\b:c"), vec!["a\\b", "c"]);
    assert_eq!(fields(""), vec![""]);
}

#[test]
fn security_classes() {
    assert_eq!(parse_security(&chars("")), Security::Open);
    assert_eq!(parse_security(&chars(" -- ")), Security::Open);
    assert_eq!(parse_security(&chars("WPA2 802.1X")), Security::Enterprise);
    assert_eq!(parse_security(&chars("OWE")), Security::Owe);
    assert_eq!(parse_security(&chars("WPA1 WPA2")), Security::Psk);
    assert!(!Security::Open.requires_credentials());
    assert!(!Security::Owe.requires_credentials());
    assert!(Security::Psk.requires_credentials());
    assert!(Security::Enterprise.requires_credentials());
}

#[test]
fn saved_wifi_profiles_only() {
    let out = "Home:802-11-wireless\nWired connection 1:802-3-ethernet\nCafe\\:Bar:802-11-wireless\nlo:loopback\n";
    assert_eq!(known_profiles(out), vec!["Home".to_string(), "Cafe:Bar".to_string()]);
}

#[test]
fn scan_merges_bands_and_sorts() {
    let out = " :40:WPA2:Cafe\n:70:WPA2:Home\n*:55:WPA2:Home\n:90:--:Airport\n:20:WPA2 802.1X:Corp\n:10:WPA2:\n:99:WPA2\n";
    let known = vec!["Home".to_string(), "Corp".to_string()];
    let rows = scan(out, &known);
    let summary: Vec<(String, i32, bool, bool)> =
        rows.iter().map(|r| (r.ssid.clone(), r.signal, r.connected, r.known)).collect();
    assert_eq!(
        summary,
        vec![
            ("Home".to_string(), 70, true, true),
            ("Corp".to_string(), 20, false, true),
            ("Airport".to_string(), 90, false, false),
            ("Cafe".to_string(), 40, false, false),
        ]
    );
    assert_eq!(rows[1].security, Security::Enterprise);
    assert_eq!(rows[2].security, Security::Open);
}

#[test]
fn scan_of_nothing() {
    assert!(scan("", &[]).is_empty());
}

#[test]
fn frequency_bands() {
    assert_eq!(band_for_freq(2412), Some("2.4"));
    assert_eq!(band_for_freq(5180), Some("5"));
    assert_eq!(band_for_freq(5925), Some("6"));
    assert_eq!(band_for_freq(7125), None);
    assert_eq!(band_for_freq(0), None);
}

#[test]
fn band_settings_round_trip() {
    assert_eq!(nm_band_for("2.4"), Some("bg"));
    assert_eq!(nm_band_for("5"), Some("a"));
    assert_eq!(nm_band_for("6"), Some("6GHz"));
    assert_eq!(nm_band_for("auto"), None);
    assert_eq!(band_from_nm(" bg\n"), "2.4");
    assert_eq!(band_from_nm("a"), "5");
    assert_eq!(band_from_nm("6GHz"), "6");
    assert_eq!(band_from_nm(""), "auto");
    for band in ["2.4", "5", "6"] {
        assert_eq!(band_from_nm(nm_band_for(band).unwrap()), band);
    }
}

#[test]
fn bands_offered_for_an_ssid() {
    let listing = "2437 MHz:Home\n5180 MHz:Home\n5200 MHz:Home\n5955 MHz:Other\n2412 MHz:Home\\:5G\n";
    assert_eq!(available_bands(Some(listing), "Home", "5"), vec!["2.4".to_string(), "5".to_string()]);
    assert_eq!(available_bands(None, "Home", "6"), vec!["6".to_string()]);
    assert_eq!(available_bands(None, "Home", ""), Vec::<String>::new());
    assert_eq!(available_bands(Some(listing), "Home:5G", ""), vec!["2.4".to_string()]);
}

fn wifi_status(ssid: &str, freq: u64) -> Status {
    let mut s = Status::blank();
    s.kind = Kind::Wifi;
    s.iface = "wlp2s0".to_string();
    s.ssid = ssid.to_string();
    s.freq_mhz = freq;
    s
}

#[test]
fn band_selector_state() {
    let status = wifi_status("Home", 5180);
    let listing = "2437 MHz:Home\n5180 MHz:Home\n";
    let b = band_status(&status, "Home", Some("a\n"), Some(listing));
    assert_eq!(b.current, "5");
    assert_eq!(b.selected, "5");
    assert_eq!(b.available, vec!["2.4".to_string(), "5".to_string()]);
    assert_eq!(b.profile, "Home");
    let unpinned = band_status(&status, "", None, Some(listing));
    assert_eq!(unpinned.selected, "auto");
    let wired = band_status(&Status::blank(), "Home", Some("a"), Some(listing));
    assert!(wired.current.is_empty() && wired.selected.is_empty() && wired.available.is_empty());
    assert_eq!(wifi_profile(Some(" Home \n")), "Home");
    assert_eq!(wifi_profile(None), "");
}

#[test]
fn qr_payloads() {
    assert_eq!(qr_uuid("0b7c-11\nother\n"), Some("0b7c-11".to_string()));
    assert_eq!(qr_uuid("\n"), None);
    assert_eq!(
        wifi_qr_payload("My;Net\nwpa-psk\npa:ss\\word\n"),
        Some("WIFI:T:WPA;S:My\\;Net;P:pa\\:ss\\\\word;;".to_string())
    );
    assert_eq!(wifi_qr_payload("Open,Net\nnone\n\n"), Some("WIFI:T:nopass;S:Open\\,Net;;".to_string()));
    assert_eq!(wifi_qr_payload("Cafe\n"), Some("WIFI:T:nopass;S:Cafe;;".to_string()));
    assert_eq!(wifi_qr_payload("\nwpa-psk\nx\n"), None);
}

#[test]
fn route_and_prefix_from_ip_json() {
    let doc = Json::Array(vec![Json::Object(vec![
        member("dst", text("1.1.1.1")),
        member("gateway", text("192.168.1.1")),
        member("dev", text("wlp2s0")),
        member("prefsrc", text("192.168.1.20")),
    ])]);
    let r = route_from_json(&doc).unwrap();
    assert_eq!((r.dev.as_str(), r.gateway.as_str(), r.src.as_str()), ("wlp2s0", "192.168.1.1", "192.168.1.20"));
    let no_dev = Json::Array(vec![Json::Object(vec![member("gateway", text("10.0.0.1"))])]);
    assert!(route_from_json(&no_dev).is_none());
    assert!(route_from_json(&Json::Array(vec![])).is_none());

    let addr = Json::Array(vec![Json::Object(vec![
        member("ifname", text("wlp2s0")),
        member(
            "addr_info",
            Json::Array(vec![
                Json::Object(vec![member("family", text("inet6")), member("prefixlen", number(64))]),
                Json::Object(vec![member("family", text("inet")), member("prefixlen", number(24))]),
            ]),
        ),
    ])]);
    assert_eq!(prefix_from_json(&addr), "24");
    assert_eq!(prefix_from_json(&Json::Null), "");
}

#[test]
fn speed_test_endpoints() {
    let doc = Json::Object(vec![member(
        "targets",
        Json::Array(vec![
            Json::Object(vec![member("url", text("https://a.example/x"))]),
            Json::Object(vec![member("name", text("no url"))]),
            Json::Object(vec![member("url", text("https://b.example/y"))]),
        ]),
    )]);
    assert_eq!(
        speedtest_endpoints(Some(&doc)),
        Ok(vec!["https://a.example/x".to_string(), "https://b.example/y".to_string()])
    );
    assert_eq!(speedtest_endpoints(None), Err("Bad speed test response".to_string()));
    assert_eq!(
        speedtest_endpoints(Some(&Json::Object(vec![]))),
        Err("No speed test endpoints".to_string())
    );
}

#[test]
fn iw_link_reading() {
    let link = "Connected to aa:bb:cc:dd:ee:ff (on wlp2s0)\n\tSSID: Home\n\tfreq: 5180.0\n\tRX: 1 bytes\n\tsignal: -52 dBm\n\ttx bitrate: 866.7 MBit/s VHT-MCS 9\n";
    let mut s = wifi_status("", 0);
    assert!(apply_iw_link(link, &mut s));
    assert_eq!(s.ssid, "Home");
    assert_eq!(s.freq_mhz, 5180);
    assert_eq!(s.signal_dbm, "-52");
    assert_eq!(s.bitrate, "866.7 MBit/s");

    let mut t = wifi_status("", 0);
    assert!(!apply_iw_link("Not connected.\n", &mut t));
    assert!(!apply_iw_link("  \n", &mut t));
    assert_eq!(t.ssid, "");
}

#[test]
fn nmcli_listing_fills_the_gaps() {
    let list = " :30:2412 MHz:Other\n*:71:5180 MHz:Cafe\\:Bar\n";
    let mut s = wifi_status("", 0);
    apply_wifi_list(list, &mut s);
    assert_eq!(s.signal, 71);
    assert_eq!(s.freq_mhz, 5180);
    assert_eq!(s.ssid, "Cafe:Bar");

    let mut known = wifi_status("Home", 2412);
    apply_wifi_list("*:oops:5180 MHz:Other\n", &mut known);
    assert_eq!(known.signal, -1);
    assert_eq!(known.freq_mhz, 2412);
    assert_eq!(known.ssid, "Home");
}

#[test]
fn whole_readings() {
    let r = route("enp0s1", "10.0.0.1", "10.0.0.5");
    let wired = wired_status(&r, "24", Some("1234\n"), Some("x"), Some("1000\n"));
    assert_eq!(wired.kind, Kind::Ethernet);
    assert_eq!(wired.iface, "enp0s1");
    assert_eq!(wired.rx_bytes, Some(1234));
    assert_eq!(wired.tx_bytes, None);
    assert_eq!(wired.eth_speed, "1000");

    let w = route("wlp2s0", "192.168.1.1", "192.168.1.20");
    assert!(wireless_readable(None, Some("*:50\n")) == false);
    assert!(wireless_readable(Some("\tSSID: Home\n"), Some("*:50\n")));
    let wireless = wireless_status(&w, "24", Some("1"), Some("2"), None, Some("*:64:2437 MHz:Cafe\n"));
    assert_eq!(wireless.kind, Kind::Wifi);
    assert_eq!(wireless.ssid, "Cafe");
    assert_eq!(wireless.signal, 64);
    assert_eq!(wireless.freq_mhz, 2437);
    assert_eq!(wireless.signal_dbm, "");
    assert_eq!(wireless.bitrate, "");
    let with_iw = wireless_status(
        &w,
        "24",
        None,
        None,
        Some("\tSSID: Home\n\tfreq: 5180\n\tsignal: -40 dBm\n"),
        Some("*:64:2437 MHz:Cafe\n"),
    );
    assert_eq!((with_iw.ssid.as_str(), with_iw.freq_mhz, with_iw.signal), ("Home", 5180, 64));
    assert_eq!(with_iw.signal_dbm, "-40");
    let anonymous = wireless_status(&w, "24", None, None, None, None);
    assert_eq!(anonymous.ssid, "wlp2s0");
}

#[test]
fn sys_paths_and_ping_output() {
    assert_eq!(net_class_file("wlp2s0", "wireless"), "/sys/class/net/wlp2s0/wireless");
    assert_eq!(net_class_file("eth0", "statistics/rx_bytes"), "/sys/class/net/eth0/statistics/rx_bytes");
    let out = "PING 1.1.1.1 (1.1.1.1) 56(84) bytes of data.\n64 bytes from 1.1.1.1: icmp_seq=1 ttl=57 time=12.3 ms\n";
    assert_eq!(ping_time_text(out), Some("12.3".to_string()));
    assert_eq!(ping_time_text("64 bytes from 10.0.0.1: icmp_seq=1 ttl=64 time<1 ms\n"), Some("1".to_string()));
    assert_eq!(ping_time_text("1 packets transmitted, 0 received, 100% packet loss\n"), None);
}

#[test]
fn route_and_prefix_from_ip_text() {
    let route = r#"[{"dst":"1.1.1.1","gateway":"192.168.1.1","dev":"wlp2s0","prefsrc":"192.168.1.20","flags":[],"uid":1000,"cache":[]}]"#;
    let r = default_route(route).unwrap();
    assert_eq!((r.dev.as_str(), r.gateway.as_str(), r.src.as_str()), ("wlp2s0", "192.168.1.1", "192.168.1.20"));
    let direct = r#"[{"dst":"1.1.1.1","dev":"enp0s1","prefsrc":"10.0.0.5"}]"#;
    let d = default_route(direct).unwrap();
    assert_eq!((d.dev.as_str(), d.gateway.as_str()), ("enp0s1", ""));
    assert!(default_route("RTNETLINK answers: Network is unreachable").is_none());
    assert!(default_route("[]").is_none());

    let addr = r#"[{"ifindex":3,"ifname":"wlp2s0","addr_info":[{"family":"inet6","local":"fe80::1","prefixlen":64},{"family":"inet","local":"192.168.1.20","prefixlen":24}]}]"#;
    assert_eq!(prefix_len(addr), "24");
    assert_eq!(prefix_len("not json"), "");
    assert_eq!(prefix_len(r#"[{"addr_info":[]}]"#), "");
}

#[test]
fn frequencies_read_like_floats() {
    let samples = [
        "5180", "5180.0", "5180.", ".5", "5.18e3", "5180E0", "51.80e+2", "518000e-2", "2.4995e3",
        "5e", "e5", ".", "+5180", "-5180", "1e30", "1e-30", "2412.9", "0x10", "inf", "nan", "",
        "12 MHz", "5180e00000000000000000000000000001",
    ];
    for s in samples {
        assert_eq!(parse_mhz(&chars(s)), float_reading(s), "{s}");
    }
}

/// What `str::parse::<f64>` reads, rounded down to whole MHz.
fn float_reading(s: &str) -> Option<u64> {
    s.parse::<f64>()
        .ok()
        .filter(|v| v.is_finite() && *v >= 0.0 && *v < 18446744073709551616.0 && !s.starts_with('-'))
        .map(|v| v.trunc() as u64)
}

#[test]
fn frequencies_round_to_the_nearest_double_first() {
    assert_eq!(parse_mhz(&chars("2499.99999999999999999")), Some(2500));
    assert_eq!(parse_mhz(&chars("0.99999999999999999")), Some(1));
    assert_eq!(parse_mhz(&chars("0.9999999999999999")), Some(0));
    assert_eq!(parse_mhz(&chars("4503599627370496.5")), Some(4503599627370496));
    assert_eq!(parse_mhz(&chars("4503599627370497.5")), Some(4503599627370498));
    assert_eq!(parse_mhz(&chars("9007199254740993")), Some(9007199254740992));
    assert_eq!(parse_mhz(&chars("9007199254740993.0000001")), Some(9007199254740994));
    assert_eq!(parse_mhz(&chars("18446744073709550591")), Some(18446744073709549568));
    assert_eq!(parse_mhz(&chars("18446744073709551615")), None);
    assert_eq!(parse_mhz(&chars("1e400")), None);
    assert_eq!(parse_mhz(&chars("1e-400")), Some(0));
    let edges = [
        "2499.99999999999999999", "2399.9999999999999999999", "0.99999999999999994",
        "0.999999999999999944488848768742172978818416595458984375", "0.9999999999999999444888487687421729788184165954589843749",
        "4503599627370495.5", "4503599627370495.75", "4503599627370495.7500000000000000001",
        "2251799813685247.875", "2251799813685247.8749999999", "1.7976931348623157e308", "5180e-0",
        "18446744073709550592", "18446744073709551616", "1844674407370955161.5e1",
    ];
    for s in edges {
        assert_eq!(parse_mhz(&chars(s)), float_reading(s), "{s}");
    }
    let mut x: u64 = 0x2545_f491_4f6c_dd1d;
    for i in 0..40_000u64 {
        x = x.wrapping_mul(6364136223846793005).wrapping_add(1442695040888963407);
        let whole = x >> (x % 64);
        let frac_len = (x >> 8) % 30;
        let mut s = whole.to_string();
        if frac_len > 0 {
            s.push('.');
            let mut y = x.rotate_left(17);
            for j in 0..frac_len {
                let digit = if i % 4 == 0 { 9 } else if i % 4 == 1 && j > 0 { 0 } else { y % 10 };
                s.push(char::from(b'0' + digit as u8));
                y = y.wrapping_mul(6364136223846793005).wrapping_add(j);
            }
        }
        if i % 5 == 0 {
            s.push_str(&format!("e{}", (x >> 40) % 40));
        } else if i % 5 == 1 {
            s.push_str(&format!("e-{}", (x >> 40) % 40));
        }
        assert_eq!(parse_mhz(&chars(&s)), float_reading(&s), "{s}");
    }
}

#[test]
fn exponent_frequencies_offer_their_band() {
    assert_eq!(available_bands(Some("5180e0 MHz:Home\n"), "Home", ""), vec!["5".to_string()]);
    let mut s = wifi_status("", 0);
    assert!(apply_iw_link("\tSSID: Home\n\tfreq: 2.412e3\n", &mut s));
    assert_eq!(s.freq_mhz, 2412);
}

#[test]
fn scan_keeps_listing_order_on_ties() {
    let out = ":50:WPA2:Beta\n:50:WPA2:Alpha\n:50:WPA2:Beta\n:70:WPA2:Gamma\n";
    let names: Vec<String> = scan(out, &[]).into_iter().map(|r| r.ssid).collect();
    assert_eq!(names, vec!["Gamma".to_string(), "Beta".to_string(), "Alpha".to_string()]);
}

#[test]
fn scan_rows_keep_first_sighting_security() {
    let out = ":40::Cafe\n*:80:WPA2:Cafe\n:30:WPA2:Home\n";
    let known = vec!["Home".to_string()];
    let rows = scan(out, &known);
    assert_eq!(rows.len(), 2);
    assert_eq!(rows[0].ssid, "Cafe");
    assert_eq!(rows[0].security, Security::Open);
    assert!(rows[0].connected);
    assert_eq!(rows[0].signal, 80);
    assert!(!rows[0].known);
    assert_eq!(rows[1].ssid, "Home");
    assert_eq!(rows[1].security, Security::Psk);
    assert!(rows[1].known);
}
