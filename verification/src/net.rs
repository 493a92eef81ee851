//! The connection model that the data layer reads from NetworkManager and the
//! kernel: what kind of link carries traffic, and what is known about it.

use vstd::prelude::*;
use crate::text::{contains, contains_lit, is, trim, trim_chars};

verus! {

/// The address whose route decides which interface is "the" connection.
pub const INTERNET_PROBE: &'static str = "1.1.1.1";

#[derive(Debug, Clone, Copy, PartialEq, Eq, Structural)]
pub enum Kind {
    Wifi,
    Ethernet,
    Disconnected,
}

impl Default for Kind {
    fn default() -> (k: Kind)
        ensures
            k == Kind::Disconnected,
    {
        Kind::Disconnected
    }
}

/// One reading of the live connection.
#[derive(Debug, Clone)]
pub struct Status {
    pub kind: Kind,
    pub iface: String,
    pub ssid: String,
    pub signal: i32,
    /// The radio frequency in whole MHz, 0 when unknown.
    pub freq_mhz: u64,
    pub ip: String,
    pub prefix: String,
    pub gateway: String,
    pub rx_bytes: Option<u64>,
    pub tx_bytes: Option<u64>,
    pub bitrate: String,
    pub signal_dbm: String,
    pub eth_speed: String,
}

/// A reading as plain values.
pub struct StatusView {
    pub kind: Kind,
    pub iface: Seq<char>,
    pub ssid: Seq<char>,
    pub signal: i32,
    pub freq_mhz: u64,
    pub ip: Seq<char>,
    pub prefix: Seq<char>,
    pub gateway: Seq<char>,
    pub rx_bytes: Option<u64>,
    pub tx_bytes: Option<u64>,
    pub bitrate: Seq<char>,
    pub signal_dbm: Seq<char>,
    pub eth_speed: Seq<char>,
}

impl View for Status {
    type V = StatusView;

    open spec fn view(&self) -> StatusView {
        StatusView {
            kind: self.kind,
            iface: self.iface@,
            ssid: self.ssid@,
            signal: self.signal,
            freq_mhz: self.freq_mhz,
            ip: self.ip@,
            prefix: self.prefix@,
            gateway: self.gateway@,
            rx_bytes: self.rx_bytes,
            tx_bytes: self.tx_bytes,
            bitrate: self.bitrate@,
            signal_dbm: self.signal_dbm@,
            eth_speed: self.eth_speed@,
        }
    }
}

/// No route, no link: every text empty and every number zero.
pub open spec fn blank_status() -> StatusView {
    StatusView {
        kind: Kind::Disconnected,
        iface: seq![],
        ssid: seq![],
        signal: 0,
        freq_mhz: 0,
        ip: seq![],
        prefix: seq![],
        gateway: seq![],
        rx_bytes: None,
        tx_bytes: None,
        bitrate: seq![],
        signal_dbm: seq![],
        eth_speed: seq![],
    }
}

impl Status {
    pub fn blank() -> (s: Status)
        ensures
            s@ == blank_status(),
    {
        Status {
            kind: Kind::Disconnected,
            iface: String::new(),
            ssid: String::new(),
            signal: 0,
            freq_mhz: 0,
            ip: String::new(),
            prefix: String::new(),
            gateway: String::new(),
            rx_bytes: None,
            tx_bytes: None,
            bitrate: String::new(),
            signal_dbm: String::new(),
            eth_speed: String::new(),
        }
    }

    pub fn connected(&self) -> (r: bool)
        ensures
            r == (self.kind != Kind::Disconnected),
    {
        self.kind != Kind::Disconnected
    }
}

#[derive(Debug, Clone, Copy, PartialEq, Eq, Structural)]
pub enum Security {
    Open,
    /// Enhanced Open: encrypted but with no credentials to collect, so it gets
    /// neither a padlock nor a passphrase prompt.
    Owe,
    Psk,
    Enterprise,
}

impl Security {
    pub open spec fn needs_credentials(self) -> bool {
        !(self == Security::Open || self == Security::Owe)
    }

    pub fn requires_credentials(self) -> (r: bool)
        ensures
            r == self.needs_credentials(),
    {
        !(self == Security::Open || self == Security::Owe)
    }
}

/// The security class that nmcli's SECURITY column names.
pub open spec fn security_of(raw: Seq<char>) -> Security {
    let t = trim(raw);
    if t.len() == 0 || t == "--"@ {
        Security::Open
    } else if contains(t, "802.1X"@) {
        Security::Enterprise
    } else if contains(t, "OWE"@) {
        Security::Owe
    } else {
        Security::Psk
    }
}

pub fn parse_security(raw: &[char]) -> (s: Security)
    ensures
        s == security_of(raw@),
{
    let t = trim_chars(raw);
    if t.len() == 0 || is(t.as_slice(), "--") {
        Security::Open
    } else if contains_lit(t.as_slice(), "802.1X") {
        Security::Enterprise
    } else if contains_lit(t.as_slice(), "OWE") {
        Security::Owe
    } else {
        Security::Psk
    }
}

/// The SECURITY column decides the class: blank or `--` is open; 802.1X is
/// enterprise; OWE is Enhanced Open; anything else (WPA1, WPA2, WPA3, WEP
/// and their mixes) is a personal network that needs its passphrase.
pub proof fn law_security_classes(raw: Seq<char>)
    ensures
        (trim(raw).len() == 0 || trim(raw) == "--"@) ==> security_of(raw) == Security::Open,
        !(trim(raw).len() == 0 || trim(raw) == "--"@) && contains(trim(raw), "802.1X"@)
            ==> security_of(raw) == Security::Enterprise,
        !(trim(raw).len() == 0 || trim(raw) == "--"@) && !contains(trim(raw), "802.1X"@) && contains(
            trim(raw),
            "OWE"@,
        ) ==> security_of(raw) == Security::Owe,
        !(trim(raw).len() == 0 || trim(raw) == "--"@) && !contains(trim(raw), "802.1X"@) && !contains(
            trim(raw),
            "OWE"@,
        ) ==> security_of(raw) == Security::Psk,
        security_of(raw).needs_credentials() <==> (!(trim(raw).len() == 0 || trim(raw) == "--"@) && (
        contains(trim(raw), "802.1X"@) || !contains(trim(raw), "OWE"@))),
{
}

} // verus!
