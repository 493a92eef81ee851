//! One reading of the live connection, assembled from what `ip`, `iw`,
//! `nmcli` and `/sys/class/net` report.

use vstd::prelude::*;
use crate::band::{mhz_of, parse_mhz, trim_end_non_digit_chars, trim_end_non_digits};
use crate::json::Route;
use crate::net::{blank_status, Kind, Status, StatusView};
use crate::number::{parse_i32, parse_u64, parsed_i32, parsed_u64};
use crate::terse::{split_terse, terse_fields};
use crate::text::{
    chars_of, contains, contains_lit, first_word, first_word_of, is, join, join_range, lines,
    push_all, second_piece, second_piece_of, split_lines, split_words, string_from_chars,
    strip_prefix, strip_prefix_lit, trim,
    trim_chars, views, words,
};

verus! {

// ---------------------------------------------------------------------------
// `iw dev <iface> link`
// ---------------------------------------------------------------------------

/// The rest of the last line (trimmed) that starts with `tag`.
pub open spec fn last_tagged(ls: Seq<Seq<char>>, tag: Seq<char>) -> Option<Seq<char>>
    decreases ls.len(),
{
    if ls.len() == 0 {
        None
    } else {
        match strip_prefix(trim(ls.last()), tag) {
            Some(rest) => Some(rest),
            None => last_tagged(ls.drop_last(), tag),
        }
    }
}

/// A word of `s` by position, or "".
pub open spec fn word_or_empty(s: Seq<char>, i: int) -> Seq<char> {
    if i < words(s).len() {
        words(s)[i]
    } else {
        seq![]
    }
}

/// How a `tx bitrate:` value reads: its number and unit.
pub open spec fn bitrate_of(rest: Seq<char>) -> Seq<char> {
    trim(word_or_empty(rest, 0) + seq![' '] + word_or_empty(rest, 1))
}

/// The frequency a `freq:` value reads as.
pub open spec fn freq_of(rest: Seq<char>) -> u64 {
    match mhz_of(word_or_empty(rest, 0)) {
        Some(m) => m,
        None => 0,
    }
}

/// `iw` reports a live association.
pub open spec fn iw_associated(link: Seq<char>) -> bool {
    trim(link).len() > 0 && !contains(link, "Not connected"@)
}

/// `st` with the radio fields that the lines `ls` of `iw dev <iface> link`
/// carry: the SSID, RSSI in dBm, the exact frequency and the negotiated TX
/// bitrate, each from the last line that carries it.
pub open spec fn iw_fields(ls: Seq<Seq<char>>, st: StatusView) -> StatusView {
    StatusView {
        ssid: match last_tagged(ls, "SSID: "@) {
            Some(v) => v,
            None => st.ssid,
        },
        signal_dbm: match last_tagged(ls, "signal: "@) {
            Some(v) => word_or_empty(v, 0),
            None => st.signal_dbm,
        },
        freq_mhz: match last_tagged(ls, "freq: "@) {
            Some(v) => freq_of(v),
            None => st.freq_mhz,
        },
        bitrate: match last_tagged(ls, "tx bitrate: "@) {
            Some(v) => bitrate_of(v),
            None => st.bitrate,
        },
        ..st
    }
}

/// The reading after `iw dev <iface> link` printed `link`; without an
/// association (empty output, or "Not connected") nothing changes.
pub open spec fn iw_applied(link: Seq<char>, st: StatusView) -> StatusView {
    if iw_associated(link) {
        iw_fields(lines(link), st)
    } else {
        st
    }
}

fn word_at(s: &[char], i: usize) -> (r: Vec<char>)
    ensures
        r@ == word_or_empty(s@, i as int),
{
    let ws = split_words(s);
    if i < ws.len() {
        assert(views(ws@)[i as int] == ws@[i as int]@);
        crate::text::copy_range(ws[i].as_slice(), 0, ws[i].len())
    } else {
        Vec::new()
    }
}

/// Two patterns that begin differently cannot both begin one text.
proof fn lemma_one_prefix(s: Seq<char>, p: Seq<char>, q: Seq<char>)
    requires
        p.len() > 0,
        q.len() > 0,
        p[0] != q[0],
        strip_prefix(s, p) is Some,
    ensures
        strip_prefix(s, q) is None,
{
    assert(s.take(p.len() as int)[0] == s[0]);
    if q.len() <= s.len() {
        assert(s.take(q.len() as int)[0] == s[0]);
    }
}

proof fn lemma_last_tagged_step(ls: Seq<Seq<char>>, i: int, tag: Seq<char>)
    requires
        0 <= i < ls.len(),
    ensures
        last_tagged(ls.take(i + 1), tag) == match strip_prefix(trim(ls[i]), tag) {
            Some(rest) => Some(rest),
            None => last_tagged(ls.take(i), tag),
        },
{
    let t = ls.take(i + 1);
    assert(t.drop_last() =~= ls.take(i));
    assert(t.last() == ls[i]);
}

/// Takes the live association from `iw dev <iface> link` into `status`;
/// says whether it named an SSID. Without an association (empty output, or
/// "Not connected") nothing changes.
pub fn apply_iw_link(link: &str, status: &mut Status) -> (named: bool)
    ensures
        final(status)@ == iw_applied(link@, old(status)@),
        named == (iw_associated(link@) && final(status)@.ssid.len() > 0),
{
    let text = chars_of(link);
    let t = trim_chars(text.as_slice());
    if t.len() == 0 || contains_lit(text.as_slice(), "Not connected") {
        return false;
    }
    let ghost start = *status;
    let ls = split_lines(text.as_slice());
    let ghost lv = views(ls@);
    let mut i: usize = 0;
    assert(lv.take(0) =~= Seq::<Seq<char>>::empty());
    while i < ls.len()
        invariant
            i <= ls@.len(),
            lv == views(ls@),
            lv == lines(link@),
            status@ == iw_fields(lv.take(i as int), start@),
        decreases ls@.len() - i,
    {
        proof {
            assert(lv[i as int] == ls@[i as int]@);
            lemma_last_tagged_step(lv, i as int, "SSID: "@);
            lemma_last_tagged_step(lv, i as int, "signal: "@);
            lemma_last_tagged_step(lv, i as int, "freq: "@);
            lemma_last_tagged_step(lv, i as int, "tx bitrate: "@);
        }
        let line = trim_chars(ls[i].as_slice());
        let ssid = strip_prefix_lit(line.as_slice(), "SSID: ");
        let signal = strip_prefix_lit(line.as_slice(), "signal: ");
        let freq = strip_prefix_lit(line.as_slice(), "freq: ");
        let rate = strip_prefix_lit(line.as_slice(), "tx bitrate: ");
        proof {
            reveal_strlit("SSID: ");
            reveal_strlit("signal: ");
            reveal_strlit("freq: ");
            reveal_strlit("tx bitrate: ");
            let l = line@;
            if ssid is Some {
                lemma_one_prefix(l, "SSID: "@, "signal: "@);
                lemma_one_prefix(l, "SSID: "@, "freq: "@);
                lemma_one_prefix(l, "SSID: "@, "tx bitrate: "@);
            }
            if signal is Some {
                lemma_one_prefix(l, "signal: "@, "freq: "@);
                lemma_one_prefix(l, "signal: "@, "tx bitrate: "@);
            }
            if freq is Some {
                lemma_one_prefix(l, "freq: "@, "tx bitrate: "@);
            }
        }
        match ssid {
            Some(rest) => {
                assert(signal is None && freq is None && rate is None);
                status.ssid = string_from_chars(rest.as_slice());
            },
            None => match signal {
                Some(rest) => {
                    assert(freq is None && rate is None);
                    let w = word_at(rest.as_slice(), 0);
                    status.signal_dbm = string_from_chars(w.as_slice());
                },
                None => match freq {
                    Some(rest) => {
                        assert(rate is None);
                        let w = word_at(rest.as_slice(), 0);
                        status.freq_mhz = match parse_mhz(w.as_slice()) {
                            Some(m) => m,
                            None => 0,
                        };
                    },
                    None => match rate {
                        Some(rest) => {
                            let value = word_at(rest.as_slice(), 0);
                            let mut b = crate::text::copy_range(value.as_slice(), 0, value.len());
                            b.push(' ');
                            let unit = word_at(rest.as_slice(), 1);
                            push_all(&mut b, unit.as_slice());
                            assert(b@ =~= value@ + seq![' '] + unit@);
                            let bt = trim_chars(b.as_slice());
                            assert(bt@ == bitrate_of(rest@));
                            status.bitrate = string_from_chars(bt.as_slice());
                        },
                        None => {},
                    },
                },
            },
        }
        proof {
            let next = iw_fields(lv.take(i + 1), start@);
            assert(status@.ssid =~= next.ssid);
            assert(status@.signal_dbm =~= next.signal_dbm);
            assert(status@.bitrate =~= next.bitrate);
            assert(status@.freq_mhz == next.freq_mhz);
            assert(status@ == next);
        }
        i = i + 1;
    }
    assert(lv.take(ls@.len() as int) =~= lv);
    status.ssid.as_str().unicode_len() > 0
}

// ---------------------------------------------------------------------------
// `nmcli -t -f IN-USE,SIGNAL,FREQ,SSID dev wifi list ifname <iface>`
// ---------------------------------------------------------------------------

/// The fields of the first line marked in use (first field "*").
pub open spec fn in_use_fields(ls: Seq<Seq<char>>) -> Option<Seq<Seq<char>>>
    decreases ls.len(),
{
    if ls.len() == 0 {
        None
    } else if terse_fields(ls[0])[0] == "*"@ {
        Some(terse_fields(ls[0]))
    } else {
        in_use_fields(ls.drop_first())
    }
}

/// nmcli reads a listing line's SSID from the fourth field on; a line with
/// fewer than three fields has none to read.
pub open spec fn fallback_reads(list: Seq<char>, ssid_known: bool) -> bool {
    match in_use_fields(lines(list)) {
        Some(f) => ssid_known || f.len() >= 3,
        None => true,
    }
}

/// The frequency an in-use FREQ column (`5180 MHz`) reads as.
pub open spec fn column_mhz(column: Seq<char>) -> u64 {
    match first_word(trim_end_non_digits(column)) {
        Some(w) => match mhz_of(w) {
            Some(m) => m,
            None => 0,
        },
        None => 0,
    }
}

/// The reading after the in-use line of a Wi-Fi listing: the percentage
/// signal always; the frequency when none is known yet; the SSID, taken
/// verbatim from the fourth field on, when none is known yet. Without an
/// in-use line nothing changes.
pub open spec fn listing_applied(list: Seq<char>, st: StatusView) -> StatusView {
    match in_use_fields(lines(list)) {
        None => st,
        Some(f) => StatusView {
            signal: if f.len() > 1 {
                match parsed_i32(f[1]) {
                    Some(v) => v,
                    None => -1i32,
                }
            } else {
                -1i32
            },
            freq_mhz: if st.freq_mhz == 0 {
                if f.len() > 2 {
                    column_mhz(f[2])
                } else {
                    0
                }
            } else {
                st.freq_mhz
            },
            ssid: if st.ssid.len() == 0 {
                join(f.skip(3), ':')
            } else {
                st.ssid
            },
            ..st
        },
    }
}

fn in_use_line(ls: &Vec<Vec<char>>) -> (r: Option<Vec<Vec<char>>>)
    ensures
        match r {
            Some(f) => in_use_fields(views(ls@)) == Some(views(f@)),
            None => in_use_fields(views(ls@)) is None,
        },
{
    let ghost lv = views(ls@);
    let mut i: usize = 0;
    assert(lv.skip(0) =~= lv);
    while i < ls.len()
        invariant
            i <= ls@.len(),
            lv == views(ls@),
            in_use_fields(lv) == in_use_fields(lv.skip(i as int)),
        decreases ls@.len() - i,
    {
        proof {
            assert(lv.skip(i as int)[0] == ls@[i as int]@);
            assert(lv.skip(i as int).drop_first() =~= lv.skip(i + 1));
        }
        let fields = split_terse(ls[i].as_slice());
        assert(views(fields@)[0] == fields@[0]@);
        if is(fields[0].as_slice(), "*") {
            return Some(fields);
        }
        i = i + 1;
    }
    None
}

/// Whether the in-use line of `list` can be read (see `fallback_reads`).
pub fn wifi_list_readable(list: &str, ssid_known: bool) -> (r: bool)
    ensures
        r == fallback_reads(list@, ssid_known),
{
    let c = chars_of(list);
    let ls = split_lines(c.as_slice());
    match in_use_line(&ls) {
        Some(f) => ssid_known || f.len() >= 3,
        None => true,
    }
}

/// Takes the percentage signal, and when missing the frequency and SSID,
/// from the in-use line of `nmcli ... dev wifi list ifname <iface>`. The
/// SSID is queried last so one containing ':' reassembles verbatim.
pub fn apply_wifi_list(list: &str, status: &mut Status)
    requires
        fallback_reads(list@, old(status).ssid@.len() > 0),
    ensures
        final(status)@ == listing_applied(list@, old(status)@),
{
    let c = chars_of(list);
    let ls = split_lines(c.as_slice());
    let fields = match in_use_line(&ls) {
        Some(f) => f,
        None => return,
    };
    let ghost fv = views(fields@);
    status.signal = if fields.len() > 1 {
        assert(fv[1] == fields@[1]@);
        match parse_i32(fields[1].as_slice()) {
            Some(v) => v,
            None => -1,
        }
    } else {
        -1
    };
    if status.freq_mhz == 0 {
        status.freq_mhz = if fields.len() > 2 {
            assert(fv[2] == fields@[2]@);
            let digits = trim_end_non_digit_chars(fields[2].as_slice());
            match first_word_of(digits.as_slice()) {
                Some(w) => match parse_mhz(w.as_slice()) {
                    Some(m) => m,
                    None => 0,
                },
                None => 0,
            }
        } else {
            0
        };
    }
    if status.ssid.as_str().unicode_len() == 0 {
        let name = join_range(fields.as_slice(), 3, fields.len(), ':');
        assert(fv.subrange(3, fv.len() as int) =~= fv.skip(3));
        status.ssid = string_from_chars(name.as_slice());
    }
}

// ---------------------------------------------------------------------------
// The whole reading
// ---------------------------------------------------------------------------

/// A `/sys/class/net/<iface>/statistics/*_bytes` counter: the file's text,
/// trimmed, as a `u64`.
pub open spec fn counter_of(text: Option<&str>) -> Option<u64> {
    match text {
        Some(t) => parsed_u64(trim(t@)),
        None => None,
    }
}

/// Reads a byte counter file's text (`None` when the file could not be read).
pub fn read_counter(text: Option<&str>) -> (r: Option<u64>)
    ensures
        r == counter_of(text),
{
    match text {
        Some(t) => {
            let c = chars_of(t);
            let tc = trim_chars(c.as_slice());
            parse_u64(tc.as_slice())
        },
        None => None,
    }
}

/// What a route and the interface's counters give a reading of `kind`;
/// everything else blank.
pub open spec fn routed_view(
    route: &Route,
    prefix: &str,
    rx: Option<&str>,
    tx: Option<&str>,
    kind: Kind,
) -> StatusView {
    StatusView {
        kind: kind,
        iface: route.dev@,
        gateway: route.gateway@,
        ip: route.src@,
        prefix: prefix@,
        rx_bytes: counter_of(rx),
        tx_bytes: counter_of(tx),
        ..blank_status()
    }
}

fn routed(route: &Route, prefix: &str, rx: Option<&str>, tx: Option<&str>, kind: Kind) -> (s: Status)
    ensures
        s@ == routed_view(route, prefix, rx, tx, kind),
{
    let mut s = Status::blank();
    s.kind = kind;
    s.iface = route.dev.clone();
    s.gateway = route.gateway.clone();
    s.ip = route.src.clone();
    s.prefix = String::from_str(prefix);
    s.rx_bytes = read_counter(rx);
    s.tx_bytes = read_counter(tx);
    s
}

/// An Ethernet reading: the route, the counters and the negotiated speed,
/// the trimmed text of `/sys/class/net/<iface>/speed`.
pub open spec fn wired_view(
    route: &Route,
    prefix: &str,
    rx: Option<&str>,
    tx: Option<&str>,
    speed: Option<&str>,
) -> StatusView {
    StatusView {
        eth_speed: match speed {
            Some(t) => trim(t@),
            None => Seq::<char>::empty(),
        },
        ..routed_view(route, prefix, rx, tx, Kind::Ethernet)
    }
}

/// An Ethernet link: the route, the counters and the negotiated speed from
/// `/sys/class/net/<iface>/speed`.
pub fn wired_status(
    route: &Route,
    prefix: &str,
    rx: Option<&str>,
    tx: Option<&str>,
    speed: Option<&str>,
) -> (s: Status)
    ensures
        s@ == wired_view(route, prefix, rx, tx, speed),
{
    let mut s = routed(route, prefix, rx, tx, Kind::Ethernet);
    s.eth_speed = match speed {
        Some(t) => {
            let c = chars_of(t);
            let tc = trim_chars(c.as_slice());
            string_from_chars(tc.as_slice())
        },
        None => String::new(),
    };
    s
}

/// `iw` (when it ran) named an SSID.
pub open spec fn iw_names_ssid(iw: Option<&str>) -> bool {
    match iw {
        Some(l) => iw_applied(l@, blank_status()).ssid.len() > 0,
        None => false,
    }
}

/// The in-use line of nmcli's listing (when it ran) can be read after `iw`.
pub open spec fn wireless_reads(iw: Option<&str>, list: Option<&str>) -> bool {
    match list {
        Some(l) => fallback_reads(l@, iw_names_ssid(iw)),
        None => true,
    }
}

/// A Wi-Fi reading: the route and counters, then the association from `iw`
/// (`None` when iw is missing or failed), then the in-use line of nmcli's
/// listing (`None` when nmcli failed); an SSID nobody named falls back to
/// the interface name.
pub open spec fn wireless_view(
    route: &Route,
    prefix: &str,
    rx: Option<&str>,
    tx: Option<&str>,
    iw: Option<&str>,
    list: Option<&str>,
) -> StatusView {
    let a = routed_view(route, prefix, rx, tx, Kind::Wifi);
    let b = match iw {
        Some(l) => iw_applied(l@, a),
        None => a,
    };
    let c = match list {
        Some(l) => listing_applied(l@, b),
        None => b,
    };
    if c.ssid.len() == 0 {
        StatusView { ssid: c.iface, ..c }
    } else {
        c
    }
}

/// What iw read wins: nmcli's listing fills in the SSID and frequency only
/// where none is known, and never touches the dBm or bitrate.
pub proof fn law_listing_only_fills_gaps(list: Seq<char>, st: StatusView)
    ensures
        st.ssid.len() > 0 ==> listing_applied(list, st).ssid == st.ssid,
        st.freq_mhz != 0 ==> listing_applied(list, st).freq_mhz == st.freq_mhz,
        listing_applied(list, st).signal_dbm == st.signal_dbm,
        listing_applied(list, st).bitrate == st.bitrate,
{
}

/// Without iw the reading still has its SSID (from nmcli, else the
/// interface), but neither a dBm signal nor a bitrate.
pub proof fn law_reading_without_iw(
    route: &Route,
    prefix: &str,
    rx: Option<&str>,
    tx: Option<&str>,
    list: Option<&str>,
)
    ensures
        wireless_view(route, prefix, rx, tx, None, list).signal_dbm.len() == 0,
        wireless_view(route, prefix, rx, tx, None, list).bitrate.len() == 0,
        route.dev@.len() > 0 ==> wireless_view(route, prefix, rx, tx, None, list).ssid.len() > 0,
{
}

/// Whether `wireless_status` can read these outputs (see `wireless_reads`).
pub fn wireless_readable(iw: Option<&str>, list: Option<&str>) -> (r: bool)
    ensures
        r == wireless_reads(iw, list),
{
    let mut probe = Status::blank();
    let named = match iw {
        Some(l) => apply_iw_link(l, &mut probe),
        None => false,
    };
    match list {
        Some(l) => wifi_list_readable(l, named),
        None => true,
    }
}

/// A Wi-Fi link, read as `wireless_view` says.
pub fn wireless_status(
    route: &Route,
    prefix: &str,
    rx: Option<&str>,
    tx: Option<&str>,
    iw: Option<&str>,
    list: Option<&str>,
) -> (s: Status)
    requires
        wireless_reads(iw, list),
    ensures
        s@ == wireless_view(route, prefix, rx, tx, iw, list),
{
    let mut s = routed(route, prefix, rx, tx, Kind::Wifi);
    let ghost a = s@;
    proof {
        // Which SSID iw names does not depend on what the reading held before.
        match iw {
            Some(l) => {
                assert(iw_applied(l@, a).ssid == iw_applied(l@, blank_status()).ssid);
            },
            None => {},
        }
    }
    match iw {
        Some(l) => {
            apply_iw_link(l, &mut s);
        },
        None => {},
    }
    match list {
        Some(l) => {
            apply_wifi_list(l, &mut s);
        },
        None => {},
    }
    if s.ssid.as_str().unicode_len() == 0 {
        s.ssid = s.iface.clone();
    }
    s
}

// ---------------------------------------------------------------------------
// Files and probes
// ---------------------------------------------------------------------------

/// `/sys/class/net/<iface>/<leaf>`.
pub open spec fn net_class_path(iface: Seq<char>, leaf: Seq<char>) -> Seq<char> {
    "/sys/class/net/"@ + iface + "/"@ + leaf
}

/// The file under `/sys/class/net/<iface>/` that holds `leaf`: `wireless`
/// (present only on a wireless interface), `speed`, or
/// `statistics/rx_bytes` and `statistics/tx_bytes`.
pub fn net_class_file(iface: &str, leaf: &str) -> (r: String)
    ensures
        r@ == net_class_path(iface@, leaf@),
{
    let mut p = chars_of("/sys/class/net/");
    let i = chars_of(iface);
    push_all(&mut p, i.as_slice());
    crate::text::push_lit(&mut p, "/");
    let l = chars_of(leaf);
    push_all(&mut p, l.as_slice());
    string_from_chars(p.as_slice())
}

/// What follows "time=" (or "time<", for a sub-millisecond reply) on a
/// line of `ping`'s output.
pub open spec fn time_field(line: Seq<char>) -> Option<Seq<char>> {
    match second_piece(line, "time="@) {
        Some(r) => Some(r),
        None => second_piece(line, "time<"@),
    }
}

/// The time field of the first line that has one.
pub open spec fn first_time_field(ls: Seq<Seq<char>>) -> Option<Seq<char>>
    decreases ls.len(),
{
    if ls.len() == 0 {
        None
    } else {
        match time_field(ls[0]) {
            Some(r) => Some(r),
            None => first_time_field(ls.drop_first()),
        }
    }
}

/// The round-trip time in milliseconds as `ping -n -c 1 -W 1 <host>`
/// printed it ("12.3"), or `None` when no reply was timed, which the panel
/// counts as a lost packet.
pub fn ping_time_text(output: &str) -> (r: Option<String>)
    ensures
        crate::panel::text_opt(r) == match first_time_field(lines(output@)) {
            Some(rest) => first_word(rest),
            None => None,
        },
{
    let c = chars_of(output);
    let ls = split_lines(c.as_slice());
    let ghost lv = views(ls@);
    let mut i: usize = 0;
    assert(lv.skip(0) =~= lv);
    while i < ls.len()
        invariant
            i <= ls@.len(),
            lv == views(ls@),
            lv == lines(output@),
            first_time_field(lv) == first_time_field(lv.skip(i as int)),
        decreases ls@.len() - i,
    {
        proof {
            reveal_strlit("time=");
            reveal_strlit("time<");
            assert(lv.skip(i as int)[0] == ls@[i as int]@);
            assert(lv.skip(i as int).drop_first() =~= lv.skip(i + 1));
        }
        let field = match second_piece_of(ls[i].as_slice(), "time=") {
            Some(r) => Some(r),
            None => second_piece_of(ls[i].as_slice(), "time<"),
        };
        match field {
            Some(rest) => {
                return match first_word_of(rest.as_slice()) {
                    Some(w) => Some(string_from_chars(w.as_slice())),
                    None => None,
                };
            },
            None => {},
        }
        i = i + 1;
    }
    None
}

/// A link reading takes its interface, gateway and address from the
/// route (the gateway from the route's gateway, the address from its
/// preferred source), its prefix from `prefix`, its received and sent
/// byte counts from the rx and tx counter files, and its kind from the
/// link, whatever else is read.
pub proof fn law_readings_keep_the_route(
    route: &Route,
    prefix: &str,
    rx: Option<&str>,
    tx: Option<&str>,
    speed: Option<&str>,
    iw: Option<&str>,
    list: Option<&str>,
)
    ensures
        wired_view(route, prefix, rx, tx, speed).iface == route.dev@,
        wired_view(route, prefix, rx, tx, speed).gateway == route.gateway@,
        wired_view(route, prefix, rx, tx, speed).ip == route.src@,
        wired_view(route, prefix, rx, tx, speed).prefix == prefix@,
        wireless_view(route, prefix, rx, tx, iw, list).iface == route.dev@,
        wireless_view(route, prefix, rx, tx, iw, list).gateway == route.gateway@,
        wireless_view(route, prefix, rx, tx, iw, list).ip == route.src@,
        wireless_view(route, prefix, rx, tx, iw, list).prefix == prefix@,
        wired_view(route, prefix, rx, tx, speed).kind == Kind::Ethernet,
        wireless_view(route, prefix, rx, tx, iw, list).kind == Kind::Wifi,
        wired_view(route, prefix, rx, tx, speed).rx_bytes == (match rx {
            Some(t) => parsed_u64(trim(t@)),
            None => None,
        }),
        wired_view(route, prefix, rx, tx, speed).tx_bytes == (match tx {
            Some(t) => parsed_u64(trim(t@)),
            None => None,
        }),
        wireless_view(route, prefix, rx, tx, iw, list).rx_bytes == (match rx {
            Some(t) => parsed_u64(trim(t@)),
            None => None,
        }),
        wireless_view(route, prefix, rx, tx, iw, list).tx_bytes == (match tx {
            Some(t) => parsed_u64(trim(t@)),
            None => None,
        }),
{
}

} // verus!
