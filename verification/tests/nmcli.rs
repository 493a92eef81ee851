use cosmic_ext_applet_wifi_plus::nmcli::{
    connect_enterprise, connect_known, connect_open, connect_outcome, connect_psk, disconnect,
    dns_provider, dns_servers_for, failure_reason, forget, radio_outcome, set_band, set_dns,
    set_wifi_enabled, wifi_enabled, NmStep, ProcessReply, DNS_CLOUDFLARE, DNS_GOOGLE,
    ENTERPRISE_SCRIPT,
};
use cosmic_ext_applet_wifi_plus::speedtest::{
    speedtest_counter, speedtest_plan, speedtest_streams, streams_started,
};

fn args(list: &[&str]) -> Vec<String> {
    list.iter().map(|a| a.to_string()).collect()
}

fn run_args(step: &NmStep) -> Vec<String> {
    match step {
        NmStep::Run(a) => a.clone(),
        NmStep::Done(r) => panic!("finished early: {:?}", r),
    }
}

#[test]
fn radio_state_and_switch() {
    assert!(wifi_enabled(Some("enabled\n")));
    assert!(!wifi_enabled(Some("disabled\n")));
    assert!(!wifi_enabled(None));
    assert_eq!(set_wifi_enabled(true), args(&["radio", "wifi", "on"]));
    assert_eq!(set_wifi_enabled(false), args(&["radio", "wifi", "off"]));
    assert_eq!(radio_outcome(true), Ok(()));
    assert_eq!(radio_outcome(false), Err("Could not toggle Wi-Fi".to_string()));
}

#[test]
fn simple_outcomes() {
    assert_eq!(connect_known(Some(String::new())), Ok(()));
    assert_eq!(connect_known(None), Err("Failed to connect".to_string()));
    assert_eq!(disconnect(None), Err("Failed to disconnect".to_string()));
    assert_eq!(disconnect(Some("ok".to_string())), Ok(()));
    assert_eq!(forget(None), Err("Failed to forget".to_string()));
    assert_eq!(forget(Some(String::new())), Ok(()));
}

#[test]
fn connect_commands() {
    assert_eq!(connect_open("Cafe"), args(&["device", "wifi", "connect", "Cafe"]));
    assert_eq!(
        connect_psk("Home", "hunter22"),
        args(&["device", "wifi", "connect", "Home", "password", "hunter22"])
    );
    let (a, secret) = connect_enterprise("Corp", "me@corp", "pw");
    assert_eq!(a, args(&["-c", ENTERPRISE_SCRIPT, "bash", "Corp", "me@corp"]));
    assert_eq!(secret, "pw\n");
    let script = r#"u=$(uuidgen); IFS= read -r pw;
 nmcli connection add type wifi con-name "$1" ssid "$1" connection.uuid "$u" \
  wifi-sec.key-mgmt wpa-eap 802-1x.eap peap 802-1x.phase2-auth mschapv2 \
  802-1x.identity "$2" 802-1x.auth-timeout 8 >/dev/null \
 && printf 'set 802-1x.password %s\nsave\nquit\n' "$pw" | nmcli connection edit uuid "$u" >/dev/null \
 && nmcli connection up uuid "$u" \
 || { nmcli connection delete uuid "$u" >/dev/null 2>&1; false; }"#;
    assert_eq!(ENTERPRISE_SCRIPT, script);
}

#[test]
fn failure_phrases() {
    assert_eq!(failure_reason("Error: Connection activation failed: Secrets were required, but not provided."), "Passphrase required");
    assert_eq!(failure_reason("NO SECRETS"), "Passphrase required");
    assert_eq!(failure_reason("802.1X supplicant took too long to authenticate"), "Wrong password");
    assert_eq!(failure_reason("Error: Timeout expired (90 seconds)"), "Wrong password");
    assert_eq!(failure_reason("Error: No network with SSID 'x' found."), "Network lost");
    assert_eq!(failure_reason(""), "Failed to connect");
}

#[test]
fn connect_outcomes() {
    assert_eq!(connect_outcome(Ok(ProcessReply { success: true, stderr: String::new() })), Ok(()));
    assert_eq!(
        connect_outcome(Ok(ProcessReply { success: false, stderr: "Error: Timeout expired".to_string() })),
        Err("Wrong password".to_string())
    );
    assert_eq!(connect_outcome(Err("no stdin".to_string())), Err("no stdin".to_string()));
}

#[test]
fn dns_labels_and_servers() {
    assert_eq!(dns_provider("", Some(DNS_GOOGLE)), "DHCP");
    assert_eq!(dns_provider("Home", None), "DHCP");
    assert_eq!(dns_provider("Home", Some(" 1.1.1.1,1.0.0.1\n")), "Cloudflare");
    assert_eq!(dns_provider("Home", Some("8.8.8.8,8.8.4.4")), "Google");
    assert_eq!(dns_provider("Home", Some("9.9.9.9")), "Custom");
    assert_eq!(dns_servers_for("Cloudflare"), DNS_CLOUDFLARE);
    assert_eq!(dns_servers_for("Google"), DNS_GOOGLE);
    assert_eq!(dns_servers_for("DHCP"), "");
    for provider in ["DHCP", "Cloudflare", "Google"] {
        let servers = dns_servers_for(provider);
        let shown = if servers.is_empty() { None } else { Some(servers) };
        assert_eq!(dns_provider("Home", shown), provider);
    }
}

#[test]
fn band_change_that_sticks() {
    let (mut change, step) = set_band("Home", "5");
    assert_eq!(run_args(&step), args(&["-e", "no", "-g", "802-11-wireless.band", "connection", "show", "Home"]));
    let step = change.advance(Some("bg\n".to_string()));
    assert_eq!(run_args(&step), args(&["connection", "modify", "Home", "802-11-wireless.band", "a"]));
    let step = change.advance(Some(String::new()));
    assert_eq!(run_args(&step), args(&["connection", "up", "Home"]));
    let step = change.advance(Some(String::new()));
    assert!(matches!(step, NmStep::Done(Ok(()))));
}

#[test]
fn band_change_that_fails_is_reverted() {
    let (mut change, _) = set_band("Home", "6");
    let step = change.advance(Some("a\n".to_string()));
    assert_eq!(run_args(&step), args(&["connection", "modify", "Home", "802-11-wireless.band", "6GHz"]));
    let _ = change.advance(Some(String::new()));
    let step = change.advance(None);
    assert_eq!(run_args(&step), args(&["connection", "modify", "Home", "802-11-wireless.band", "a"]));
    let step = change.advance(None);
    assert_eq!(run_args(&step), args(&["connection", "up", "Home"]));
    let step = change.advance(Some(String::new()));
    match step {
        NmStep::Done(r) => assert_eq!(r, Err("Could not connect on 6GHz; reverted".to_string())),
        NmStep::Run(_) => panic!("expected the end"),
    }
}

#[test]
fn band_change_edges() {
    let (_, step) = set_band("", "5");
    assert!(matches!(step, NmStep::Done(Err(ref e)) if e == "No active Wi-Fi connection profile"));
    let (_, step) = set_band("Home", "7");
    assert!(matches!(step, NmStep::Done(Err(ref e)) if e == "Unknown band 7"));
    let (mut change, _) = set_band("Home", "auto");
    let step = change.advance(Some("\n".to_string()));
    assert!(matches!(step, NmStep::Done(Ok(()))));
    let (mut change, _) = set_band("Home", "2.4");
    let _ = change.advance(None);
    let step = change.advance(None);
    assert!(matches!(step, NmStep::Done(Err(ref e)) if e == "Could not set band"));
}

#[test]
fn dns_change_sequence() {
    let (_, step) = set_dns("", DNS_GOOGLE);
    assert!(matches!(step, NmStep::Done(Err(ref e)) if e == "No active connection profile"));
    let (mut change, step) = set_dns("Home", DNS_GOOGLE);
    assert_eq!(run_args(&step), args(&["connection", "modify", "Home", "ipv4.dns", DNS_GOOGLE]));
    let step = change.advance(Some(String::new()));
    assert_eq!(run_args(&step), args(&["connection", "modify", "Home", "ipv4.ignore-auto-dns", "yes"]));
    let step = change.advance(Some(String::new()));
    assert_eq!(run_args(&step), args(&["connection", "up", "Home"]));
    let step = change.advance(None);
    assert!(matches!(step, NmStep::Done(Err(ref e)) if e == "Could not reapply the connection"));

    let (mut change, _) = set_dns("Home", "");
    let step = change.advance(Some(String::new()));
    assert_eq!(run_args(&step), args(&["connection", "modify", "Home", "ipv4.ignore-auto-dns", "no"]));
    let step = change.advance(None);
    assert!(matches!(step, NmStep::Done(Err(ref e)) if e == "Could not set DNS"));
}

#[test]
fn speed_test_plan() {
    let body = r#"{"client":{"ip":"1.2.3.4"},"targets":[{"url":"u1"},{"url":"u2"},{"name":"x"},{"url":"u3"},{"url":"u4"}]}"#;
    assert_eq!(speedtest_plan(false, Some(body), false), Err("curl is required".to_string()));
    assert_eq!(speedtest_plan(true, None, false), Err("Failed to reach the speed test API".to_string()));
    assert_eq!(speedtest_plan(true, Some("<html>"), false), Err("Bad speed test response".to_string()));
    assert_eq!(
        speedtest_plan(true, Some(r#"{"targets":[]}"#), true),
        Err("No speed test endpoints".to_string())
    );
    let streams = speedtest_plan(true, Some(body), false).unwrap();
    assert_eq!(streams.len(), 9);
    assert_eq!(streams[0], args(&["-fsS", "-o", "/dev/null", "--max-time", "12", "u1"]));
    assert_eq!(streams[8], args(&["-fsS", "-o", "/dev/null", "--max-time", "12", "u3"]));
    let up = speedtest_streams(&["only".to_string()], true);
    assert_eq!(up.len(), 3);
    assert_eq!(
        up[2],
        args(&[
            "-fsS", "-o", "/dev/null", "--max-time", "12", "-X", "POST", "-H",
            "Content-Type: application/octet-stream", "--data-binary", "@/dev/zero", "only",
        ])
    );
    assert_eq!(speedtest_counter("wlp2s0", true), "/sys/class/net/wlp2s0/statistics/tx_bytes");
    assert_eq!(speedtest_counter("wlp2s0", false), "/sys/class/net/wlp2s0/statistics/rx_bytes");
    assert_eq!(streams_started(0), Err("Could not start the speed test".to_string()));
    assert_eq!(streams_started(4), Ok(()));
}
