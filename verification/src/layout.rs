//! What the bar and the popup show for a state of the panel: the texts,
//! which sections appear and in what order, and which controls act.

use vstd::prelude::*;
use crate::model::{
    connection_phrase, format_header_speed, header_speed, phrase, section_at, speed_value,
    wifi_section_title,
};
use crate::net::{Kind, Security, StatusView};
use crate::panel::{is_restricted, ActionKind, WifiPanel, PanelView, SpeedTest, SpeedTestView};
use crate::scan::{RowView, WifiRow};
use crate::text::{
    ascii_upper, chars_of, is, is_ascii_text, push_all, push_lit, string_from_chars, uppercase,
};

verus! {

// ---------------------------------------------------------------------------
// The bar
// ---------------------------------------------------------------------------

/// The longest network name shown beside the bar icon, in characters.
pub const MAX_LABEL_CHARS: usize = 18;

/// The SSID beside the bar icon, or nothing for the icon alone. A vertical
/// panel is only as wide as its icons, so the label is dropped there;
/// Ethernet and a dead link have no name worth the space either. A long
/// name is clipped to `MAX_LABEL_CHARS` characters, the last one an
/// ellipsis.
pub open spec fn bar_label_of(show_ssid: bool, horizontal: bool, status: StatusView) -> Option<Seq<char>> {
    if !show_ssid || !horizontal {
        None
    } else if status.kind != Kind::Wifi || status.ssid.len() == 0 {
        None
    } else if status.ssid.len() <= MAX_LABEL_CHARS {
        Some(status.ssid)
    } else {
        Some(status.ssid.take(MAX_LABEL_CHARS - 1).push('\u{2026}'))
    }
}

// ---------------------------------------------------------------------------
// The hero
// ---------------------------------------------------------------------------

/// The name of the link the hero shows, before any detail.
pub open spec fn link_name(status: StatusView) -> Seq<char> {
    match status.kind {
        Kind::Wifi => if status.ssid.len() == 0 {
            "Wi-Fi"@
        } else {
            status.ssid
        },
        Kind::Ethernet => "Ethernet"@,
        Kind::Disconnected => "Disconnected"@,
    }
}

/// The hero's title: the link's name, with the detail in brackets when
/// there is one ("Ethernet (2.5gbit)").
pub open spec fn hero_title_of(status: StatusView, detail: Seq<char>) -> Seq<char> {
    if detail.len() == 0 {
        link_name(status)
    } else {
        link_name(status) + " ("@ + detail + ")"@
    }
}

/// The hero's status line: "LIMITED INTERNET ACCESS", the rotating phrase
/// in capitals on a live link, "NOT CONNECTED" otherwise.
pub open spec fn hero_meta_of(restricted: bool, connected: bool, phrase_index: usize) -> Seq<char> {
    if restricted {
        "LIMITED INTERNET ACCESS"@
    } else if connected {
        ascii_upper(phrase((phrase_index % 7) as int))
    } else {
        "NOT CONNECTED"@
    }
}

// ---------------------------------------------------------------------------
// The network list
// ---------------------------------------------------------------------------

/// The caption on a row that is busy.
pub open spec fn busy_text(kind: ActionKind) -> Seq<char> {
    match kind {
        ActionKind::Connect => "Connecting\u{2026}"@,
        ActionKind::Disconnect => "Disconnecting\u{2026}"@,
        ActionKind::Forget => "Forgetting\u{2026}"@,
    }
}

/// The caption on a row and whether it is urgent: what the row is busy
/// with; "Sign-in required" (urgent) or "Connected" on the connected row;
/// the reason of a failure on the row it belongs to; nothing otherwise.
pub open spec fn status_text_of<T>(m: PanelView<T>, row: RowView) -> Option<(Seq<char>, bool)> {
    let busy_here = match m.busy {
        Some((s, k)) => if s == row.ssid {
            Some(k)
        } else {
            None
        },
        None => None,
    };
    let failed_here = match m.failure {
        Some((s, reason)) => if s == row.ssid {
            Some(reason)
        } else {
            None
        },
        None => None,
    };
    match busy_here {
        Some(k) => Some((busy_text(k), false)),
        None => if row.connected {
            if is_restricted(m.status, m.pings) {
                Some(("Sign-in required"@, true))
            } else {
                Some(("Connected"@, false))
            }
        } else {
            match failed_here {
                Some(reason) => Some((reason, true)),
                None => None,
            }
        },
    }
}

/// An entry of the network list, by row position.
#[derive(Debug, Clone, Copy, PartialEq, Eq, Structural)]
pub enum ListEntry {
    /// A section header: "KNOWN NETWORKS" or "OTHER NETWORKS".
    Known,
    Other,
    Row(usize),
    /// The passphrase prompt under this row.
    Prompt(usize),
}

/// The first `n` rows' entries: each row, after its section header when it
/// opens a section, and followed by the prompt when the prompt is open on
/// its network.
pub open spec fn entries_upto<T>(m: PanelView<T>, n: nat) -> Seq<ListEntry>
    decreases n,
{
    if n == 0 {
        seq![]
    } else {
        let i = (n - 1) as nat;
        let before = entries_upto(m, i);
        let titled = match section_at(m.rows, i as int) {
            Some(t) => if t == "KNOWN NETWORKS"@ {
                before.push(ListEntry::Known)
            } else {
                before.push(ListEntry::Other)
            },
            None => before,
        };
        let with_row = titled.push(ListEntry::Row(i as usize));
        if m.prompt == Some(m.rows[i as int].ssid) {
            with_row.push(ListEntry::Prompt(i as usize))
        } else {
            with_row
        }
    }
}

/// What stands in the list's place: "WI-FI IS OFF" with the radio off,
/// "SCANNING WI-FI…" before the first scan came back, nothing (the list)
/// otherwise.
pub open spec fn list_notice_of<T>(m: PanelView<T>) -> Option<Seq<char>> {
    if !m.wifi_enabled {
        Some("WI-FI IS OFF"@)
    } else if m.rows.len() == 0 {
        Some("SCANNING WI-FI\u{2026}"@)
    } else {
        None
    }
}

// ---------------------------------------------------------------------------
// The popup
// ---------------------------------------------------------------------------

/// The popup's sections, top to bottom.
#[derive(Debug, Clone, Copy, PartialEq, Eq, Structural)]
pub enum Section {
    Hero,
    CaptivePortal,
    SpeedTest,
    Metrics,
    Qr,
    Band,
    Dns,
    Networks,
    Settings,
}

/// The band selector appears only on Wi-Fi, and only when the network
/// answers on more than one band: a single-band access point has nothing
/// to toggle.
pub open spec fn band_visible<T>(m: PanelView<T>) -> bool {
    m.status.kind == Kind::Wifi && m.band.available.len() >= 2
}

/// The hero first; the captive portal button on a restricted link; the
/// speed test once one ran; the metrics on a live link. A QR code on
/// screen ends the popup; otherwise the band selector, DNS on a live link,
/// the networks and the settings follow.
pub open spec fn sections_of<T>(m: PanelView<T>) -> Seq<Section> {
    let connected = m.status.kind != Kind::Disconnected;
    let top = seq![Section::Hero] + (if is_restricted(m.status, m.pings) {
        seq![Section::CaptivePortal]
    } else {
        seq![]
    }) + (if m.speedtest is Idle {
        seq![]
    } else {
        seq![Section::SpeedTest]
    }) + (if connected {
        seq![Section::Metrics]
    } else {
        seq![]
    });
    if m.qr is Some {
        top.push(Section::Qr)
    } else {
        top + (if band_visible(m) {
            seq![Section::Band]
        } else {
            seq![]
        }) + (if connected {
            seq![Section::Dns]
        } else {
            seq![]
        }) + seq![Section::Networks, Section::Settings]
    }
}

/// The DNS providers the popup offers, in order.
pub open spec fn dns_choice(i: int) -> Seq<char> {
    if i == 0 {
        "DHCP"@
    } else if i == 1 {
        "Cloudflare"@
    } else if i == 2 {
        "Google"@
    } else {
        "Custom"@
    }
}

/// The name a row shows: "Hidden" for a network that hides its SSID.
pub open spec fn row_name_of(ssid: Seq<char>) -> Seq<char> {
    if ssid.len() == 0 {
        "Hidden"@
    } else {
        ssid
    }
}

/// What the speed test row says: the running test, the finished one's
/// direction, or why it failed.
pub open spec fn speedtest_caption_of<T>(s: SpeedTestView<T>) -> Option<Seq<char>> {
    match s {
        SpeedTestView::Idle => None,
        SpeedTestView::Running { upload } => Some(
            if upload {
                "UPLOAD TEST"@
            } else {
                "DOWNLOAD TEST"@
            },
        ),
        SpeedTestView::Done { upload, .. } => Some(
            if upload {
                "UPLOAD"@
            } else {
                "DOWNLOAD"@
            },
        ),
        SpeedTestView::Failed(reason) => Some(reason),
    }
}

/// The speed test row's button and the direction it runs: a finished test
/// offers the other direction, a failed one a download retry.
pub open spec fn speedtest_button_of<T>(s: SpeedTestView<T>) -> Option<(Seq<char>, bool)> {
    match s {
        SpeedTestView::Done { upload, .. } => Some(
            (
                if upload {
                    "Test down"@
                } else {
                    "Test up"@
                },
                !upload,
            ),
        ),
        SpeedTestView::Failed(_) => Some(("Retry"@, false)),
        _ => None,
    }
}

proof fn lemma_phrases_are_ascii(i: int)
    ensures
        is_ascii_text(phrase(i)),
{
    reveal_strlit("Wiring bits");
    reveal_strlit("Handling packets");
    reveal_strlit("Sorting frames");
    reveal_strlit("Hauling bytes");
    reveal_strlit("Routing crumbs");
    reveal_strlit("Counting collisions");
    reveal_strlit("Bending light");
    let p = phrase(i);
    assert forall|k: int| 0 <= k < p.len() implies (#[trigger] p[k] as int) < 128 by {}
}

fn text_of(s: &'static str) -> (r: String)
    ensures
        r@ == s@,
{
    String::from_str(s)
}

impl<T> WifiPanel<T> {
    /// The SSID beside the bar icon, or `None` to show the icon alone
    /// (`horizontal`: the panel runs across the screen).
    pub fn bar_label(&self, horizontal: bool) -> (r: Option<String>)
        ensures
            crate::panel::text_opt(r) == bar_label_of(self.show_ssid, horizontal, self@.status),
    {
        if !self.show_ssid || !horizontal {
            return None;
        }
        if self.status.kind != Kind::Wifi || self.status.ssid.as_str().unicode_len() == 0 {
            return None;
        }
        // Count in characters, not bytes: an SSID is arbitrary UTF-8.
        let c = chars_of(self.status.ssid.as_str());
        if c.len() <= MAX_LABEL_CHARS {
            return Some(self.status.ssid.clone());
        }
        let mut clipped = crate::text::copy_range(c.as_slice(), 0, MAX_LABEL_CHARS - 1);
        clipped.push('\u{2026}');
        proof {
            assert(clipped@ =~= self@.status.ssid.take(MAX_LABEL_CHARS - 1).push('\u{2026}'));
        }
        Some(string_from_chars(clipped.as_slice()))
    }

    /// Beside the hero's name: Ethernet's negotiated speed; nothing on
    /// Wi-Fi, whose band belongs to the band selector.
    pub fn header_detail(&self) -> (r: String)
        ensures
            self@.status.kind != Kind::Ethernet ==> r@.len() == 0,
            self@.status.kind == Kind::Ethernet ==> r@ == header_speed(
                speed_value(self@.status.eth_speed),
            ),
    {
        if self.status.kind == Kind::Ethernet {
            format_header_speed(self.status.eth_speed.as_str())
        } else {
            String::new()
        }
    }

    pub fn hero_title(&self) -> (r: String)
        ensures
            self@.status.kind != Kind::Ethernet ==> r@ == hero_title_of(self@.status, seq![]),
            self@.status.kind == Kind::Ethernet ==> r@ == hero_title_of(
                self@.status,
                header_speed(speed_value(self@.status.eth_speed)),
            ),
    {
        let name = match self.status.kind {
            Kind::Wifi => if self.status.ssid.as_str().unicode_len() == 0 {
                String::from_str("Wi-Fi")
            } else {
                self.status.ssid.clone()
            },
            Kind::Ethernet => String::from_str("Ethernet"),
            Kind::Disconnected => String::from_str("Disconnected"),
        };
        let detail = self.header_detail();
        if detail.as_str().unicode_len() == 0 {
            return name;
        }
        let mut t = chars_of(name.as_str());
        push_lit(&mut t, " (");
        let d = chars_of(detail.as_str());
        push_all(&mut t, d.as_slice());
        push_lit(&mut t, ")");
        string_from_chars(t.as_slice())
    }

    pub fn hero_meta(&self) -> (r: String)
        ensures
            r@ == hero_meta_of(
                is_restricted(self@.status, self@.pings),
                self@.status.kind != Kind::Disconnected,
                self.phrase_index,
            ),
    {
        if self.restricted() {
            String::from_str("LIMITED INTERNET ACCESS")
        } else if self.status.connected() {
            let p = connection_phrase(self.phrase_index);
            proof {
                lemma_phrases_are_ascii((self.phrase_index % 7) as int);
            }
            uppercase(p)
        } else {
            String::from_str("NOT CONNECTED")
        }
    }

    /// The hero offers QR sharing and the speed test on a Wi-Fi link.
    pub fn hero_offers_sharing(&self) -> (r: bool)
        ensures
            r == (self@.status.kind == Kind::Wifi),
    {
        self.status.kind == Kind::Wifi && self.status.connected()
    }

    /// The caption on `row`, and whether it is urgent.
    pub fn status_text(&self, row: &WifiRow) -> (r: Option<(String, bool)>)
        ensures
            match r {
                Some((t, urgent)) => status_text_of(self@, row@) == Some((t@, urgent)),
                None => status_text_of(self@, row@) is None,
            },
    {
        match &self.busy {
            Some((ssid, kind)) => if *ssid == row.ssid {
                let t = match kind {
                    ActionKind::Connect => "Connecting\u{2026}",
                    ActionKind::Disconnect => "Disconnecting\u{2026}",
                    ActionKind::Forget => "Forgetting\u{2026}",
                };
                return Some((text_of(t), false));
            },
            None => {},
        }
        if row.connected {
            if self.restricted() {
                return Some((String::from_str("Sign-in required"), true));
            }
            return Some((String::from_str("Connected"), false));
        }
        match &self.failure {
            Some((ssid, reason)) => if *ssid == row.ssid {
                return Some((reason.clone(), true));
            },
            None => {},
        }
        None
    }

    /// What stands in the list's place, if anything.
    pub fn list_notice(&self) -> (r: Option<&'static str>)
        ensures
            match r {
                Some(t) => list_notice_of(self@) == Some(t@),
                None => list_notice_of(self@) is None,
            },
    {
        if !self.wifi_enabled {
            return Some("WI-FI IS OFF");
        }
        if self.rows.len() == 0 {
            return Some("SCANNING WI-FI\u{2026}");
        }
        None
    }

    /// The network list's entries, top to bottom.
    pub fn list_entries(&self) -> (r: Vec<ListEntry>)
        ensures
            r@ == entries_upto(self@, self@.rows.len()),
    {
        let mut r: Vec<ListEntry> = Vec::new();
        let mut i: usize = 0;
        while i < self.rows.len()
            invariant
                i <= self.rows@.len(),
                r@ == entries_upto(self@, i as nat),
            decreases self.rows@.len() - i,
        {
            proof {
                reveal_strlit("KNOWN NETWORKS");
                reveal_strlit("OTHER NETWORKS");
                assert("KNOWN NETWORKS"@[0] != "OTHER NETWORKS"@[0]);
                assert(self@.rows[i as int] == self.rows@[i as int]@);
            }
            match wifi_section_title(self.rows.as_slice(), i) {
                Some(t) => {
                    if is(chars_of(t).as_slice(), "KNOWN NETWORKS") {
                        r.push(ListEntry::Known);
                    } else {
                        r.push(ListEntry::Other);
                    }
                },
                None => {},
            }
            r.push(ListEntry::Row(i));
            let open_here = match &self.prompt {
                Some(p) => *p == self.rows[i].ssid,
                None => false,
            };
            if open_here {
                r.push(ListEntry::Prompt(i));
            }
            i = i + 1;
        }
        r
    }

    /// The popup's sections, top to bottom.
    pub fn sections(&self) -> (r: Vec<Section>)
        ensures
            r@ == sections_of(self@),
    {
        let connected = self.status.connected();
        let mut r: Vec<Section> = vec![Section::Hero];
        if self.restricted() {
            r.push(Section::CaptivePortal);
        }
        match self.speedtest {
            SpeedTest::Idle => {},
            _ => r.push(Section::SpeedTest),
        }
        if connected {
            r.push(Section::Metrics);
        }
        if self.qr.is_some() {
            r.push(Section::Qr);
            return r;
        }
        if self.band_visible() {
            r.push(Section::Band);
        }
        if connected {
            r.push(Section::Dns);
        }
        r.push(Section::Networks);
        r.push(Section::Settings);
        r
    }

    pub fn band_visible(&self) -> (r: bool)
        ensures
            r == band_visible(self@),
    {
        self.status.kind == Kind::Wifi && self.band.available.len() >= 2
    }

    /// A band is pinned: the pills are shown and Automatic is off.
    pub fn band_pinned(&self) -> (r: bool)
        ensures
            r == (self@.band.selected != "auto"@),
    {
        let s = chars_of(self.band.selected.as_str());
        let auto = is(s.as_slice(), "auto");
        !auto
    }

    /// The DNS pill for `provider` is the selected one.
    pub fn dns_selected(&self, provider: &str) -> (r: bool)
        ensures
            r == (self@.dns == provider@),
    {
        let d = chars_of(self.dns.as_str());
        let p = chars_of(provider);
        crate::text::same(d.as_slice(), p.as_slice())
    }

    pub fn speedtest_caption(&self) -> (r: Option<String>)
        ensures
            crate::panel::text_opt(r) == speedtest_caption_of(self@.speedtest),
    {
        match &self.speedtest {
            SpeedTest::Idle => None,
            SpeedTest::Running { upload } => Some(
                if *upload {
                    String::from_str("UPLOAD TEST")
                } else {
                    String::from_str("DOWNLOAD TEST")
                },
            ),
            SpeedTest::Done { upload, .. } => Some(
                if *upload {
                    String::from_str("UPLOAD")
                } else {
                    String::from_str("DOWNLOAD")
                },
            ),
            SpeedTest::Failed(reason) => Some(reason.clone()),
        }
    }

    pub fn speedtest_button(&self) -> (r: Option<(&'static str, bool)>)
        ensures
            match r {
                Some((label, upload)) => speedtest_button_of(self@.speedtest) == Some((label@, upload)),
                None => speedtest_button_of(self@.speedtest) is None,
            },
    {
        match &self.speedtest {
            SpeedTest::Done { upload, .. } => Some(
                (
                    if *upload {
                        "Test down"
                    } else {
                        "Test up"
                    },
                    !*upload,
                ),
            ),
            SpeedTest::Failed(_) => Some(("Retry", false)),
            _ => None,
        }
    }
}

/// The name `row` shows.
pub fn row_name(row: &WifiRow) -> (r: String)
    ensures
        r@ == row_name_of(row@.ssid),
{
    if row.ssid.as_str().unicode_len() == 0 {
        String::from_str("Hidden")
    } else {
        row.ssid.clone()
    }
}

/// A saved network that is not in use can be forgotten from its row.
pub fn row_forgettable(row: &WifiRow) -> (r: bool)
    ensures
        r == (row@.known && !row@.connected),
{
    row.known && !row.connected
}

/// The prompt asks for an identity as well on WPA-Enterprise.
pub fn prompt_asks_identity(row: &WifiRow) -> (r: bool)
    ensures
        r == (row@.security == Security::Enterprise),
{
    row.security == Security::Enterprise
}

/// The DNS provider at `i` of the four the popup offers.
pub fn dns_choice_at(i: usize) -> (r: &'static str)
    requires
        i < 4,
    ensures
        r@ == dns_choice(i as int),
{
    if i == 0 {
        "DHCP"
    } else if i == 1 {
        "Cloudflare"
    } else if i == 2 {
        "Google"
    } else {
        "Custom"
    }
}

/// "Custom" is a state the panel can report but not set: DNS servers
/// were configured outside the panel, and there is nothing to apply.
pub fn dns_choice_settable(provider: &str) -> (r: bool)
    ensures
        r == (provider@ != "Custom"@),
{
    let p = chars_of(provider);
    let custom = is(p.as_slice(), "Custom");
    !custom
}

/// A metric's value, or "--" for one not known.
pub fn or_dash(value: &str) -> (r: String)
    ensures
        r@ == if value@.len() == 0 {
            "--"@
        } else {
            value@
        },
{
    if value.unicode_len() == 0 {
        String::from_str("--")
    } else {
        String::from_str(value)
    }
}

// ---------------------------------------------------------------------------
// The `--status` report
// ---------------------------------------------------------------------------

/// `n` spaces.
pub open spec fn spaces(n: nat) -> Seq<char> {
    Seq::new(n, |i: int| ' ')
}

/// `s` right-aligned in `width` characters (`{:>width}`).
pub open spec fn pad_left(s: Seq<char>, width: nat) -> Seq<char> {
    if s.len() >= width {
        s
    } else {
        spaces((width - s.len()) as nat) + s
    }
}

/// `s` left-aligned in `width` characters (`{:<width}`).
pub open spec fn pad_right(s: Seq<char>, width: nat) -> Seq<char> {
    if s.len() >= width {
        s
    } else {
        s + spaces((width - s.len()) as nat)
    }
}

/// The security class by its variant name.
pub open spec fn security_name(s: Security) -> Seq<char> {
    match s {
        Security::Open => "Open"@,
        Security::Owe => "Owe"@,
        Security::Psk => "Psk"@,
        Security::Enterprise => "Enterprise"@,
    }
}

/// A network's line in the `--status` report: signal, name, security, and
/// whether it is saved and in use.
pub open spec fn report_row(row: RowView) -> Seq<char> {
    "  "@ + pad_left(crate::number::decimal(row.signal as int), 3) + "%  "@ + pad_right(row.ssid, 28) + " "@
        + security_name(row.security) + (if row.known {
        "  known"@
    } else {
        seq![]
    }) + (if row.connected {
        "  CONNECTED"@
    } else {
        seq![]
    })
}

fn push_spaces(r: &mut Vec<char>, n: usize)
    ensures
        final(r)@ == old(r)@ + spaces(n as nat),
{
    let mut k: usize = 0;
    while k < n
        invariant
            k <= n,
            r@ == old(r)@ + spaces(k as nat),
        decreases n - k,
    {
        r.push(' ');
        k = k + 1;
        assert(r@ =~= old(r)@ + spaces(k as nat));
    }
}

fn padded_left(s: &[char], width: usize) -> (r: Vec<char>)
    ensures
        r@ == pad_left(s@, width as nat),
{
    let mut r: Vec<char> = Vec::new();
    if s.len() < width {
        push_spaces(&mut r, width - s.len());
    }
    push_all(&mut r, s);
    assert(r@ =~= pad_left(s@, width as nat));
    r
}

fn padded_right(s: &[char], width: usize) -> (r: Vec<char>)
    ensures
        r@ == pad_right(s@, width as nat),
{
    let mut r: Vec<char> = Vec::new();
    push_all(&mut r, s);
    if s.len() < width {
        push_spaces(&mut r, width - s.len());
    }
    assert(r@ =~= pad_right(s@, width as nat));
    r
}

pub fn report_line(row: &WifiRow) -> (r: String)
    ensures
        r@ == report_row(row@),
{
    let mut signal: Vec<char> = Vec::new();
    crate::number::push_decimal(&mut signal, row.signal as i64);
    let a = padded_left(signal.as_slice(), 3);
    let name = chars_of(row.ssid.as_str());
    let b = padded_right(name.as_slice(), 28);
    let sec = match row.security {
        Security::Open => "Open",
        Security::Owe => "Owe",
        Security::Psk => "Psk",
        Security::Enterprise => "Enterprise",
    };
    let mut out = chars_of("  ");
    push_all(&mut out, a.as_slice());
    push_lit(&mut out, "%  ");
    push_all(&mut out, b.as_slice());
    push_lit(&mut out, " ");
    push_lit(&mut out, sec);
    let ghost head = out@;
    assert(head =~= "  "@ + pad_left(crate::number::decimal(row.signal as int), 3) + "%  "@ + pad_right(row.ssid@, 28) + " "@
        + security_name(row.security));
    if row.known {
        push_lit(&mut out, "  known");
    }
    if row.connected {
        push_lit(&mut out, "  CONNECTED");
    }
    assert(out@ =~= report_row(row@));
    string_from_chars(out.as_slice())
}

} // verus!
