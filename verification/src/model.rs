//! Presentation logic: icon names, captions and the short texts the panel
//! shows, kept free of any toolkit type.

use vstd::prelude::*;
use vstd::arithmetic::power2::{lemma2_to64, lemma_pow2_strictly_increases, lemma_pow2_unfold, pow2};
use crate::net::Kind;
use crate::number::{
    decimal, digit_char, floor_log2, lemma_log2_floor_bounds, log2_floor, parse_i64, parsed_i64,
    pow2_of, push_decimal, push_digits, push_digits_wide, round_even, round_half_even,
};
use crate::scan::{rows_view, RowView, WifiRow};
use crate::text::{ascii_upper, chars_of, is_ascii_text, trim, trim_chars, uppercase, uppercase_of};

verus! {

// ---------------------------------------------------------------------------
// Icons
// ---------------------------------------------------------------------------

/// The freedesktop symbolic icon for a signal strength in percent.
pub open spec fn wifi_icon(strength: int) -> Seq<char> {
    if strength >= 80 {
        "network-wireless-signal-excellent-symbolic"@
    } else if strength >= 60 {
        "network-wireless-signal-good-symbolic"@
    } else if strength >= 40 {
        "network-wireless-signal-ok-symbolic"@
    } else if strength >= 20 {
        "network-wireless-signal-weak-symbolic"@
    } else {
        "network-wireless-signal-none-symbolic"@
    }
}

/// Named theme icons: COSMIC ships the freedesktop symbolic set, which
/// follows the panel theme and scales with it.
pub fn wifi_icon_for(strength: i32) -> (r: &'static str)
    ensures
        r@ == wifi_icon(strength as int),
{
    if strength >= 80 {
        "network-wireless-signal-excellent-symbolic"
    } else if strength >= 60 {
        "network-wireless-signal-good-symbolic"
    } else if strength >= 40 {
        "network-wireless-signal-ok-symbolic"
    } else if strength >= 20 {
        "network-wireless-signal-weak-symbolic"
    } else {
        "network-wireless-signal-none-symbolic"
    }
}

/// The bar icon for a link: a restricted link (no route to the internet)
/// gets the no-route variant of its kind.
pub open spec fn link_icon(kind: Kind, signal: int, restricted: bool) -> Seq<char> {
    match kind {
        Kind::Wifi => if restricted {
            "network-wireless-no-route-symbolic"@
        } else {
            wifi_icon(signal)
        },
        Kind::Ethernet => if restricted {
            "network-wired-no-route-symbolic"@
        } else {
            "network-wired-symbolic"@
        },
        Kind::Disconnected => "network-wireless-offline-symbolic"@,
    }
}

pub fn connection_icon(kind: Kind, signal: i32, restricted: bool) -> (r: &'static str)
    ensures
        r@ == link_icon(kind, signal as int, restricted),
{
    match kind {
        Kind::Wifi => if restricted {
            "network-wireless-no-route-symbolic"
        } else {
            wifi_icon_for(signal)
        },
        Kind::Ethernet => if restricted {
            "network-wired-no-route-symbolic"
        } else {
            "network-wired-symbolic"
        },
        Kind::Disconnected => "network-wireless-offline-symbolic",
    }
}

// ---------------------------------------------------------------------------
// Band captions
// ---------------------------------------------------------------------------

/// "Auto", nothing, or the band with its unit.
pub open spec fn band_text(band: Seq<char>) -> Seq<char> {
    if band == "auto"@ {
        "Auto"@
    } else if band.len() == 0 {
        seq![]
    } else {
        band + "ghz"@
    }
}

pub fn band_label(band: &str) -> (r: String)
    ensures
        r@ == band_text(band@),
{
    let b = chars_of(band);
    if crate::text::is(b.as_slice(), "auto") {
        String::from_str("Auto")
    } else if b.len() == 0 {
        String::new()
    } else {
        let mut r = b;
        crate::text::push_lit(&mut r, "ghz");
        crate::text::string_from_chars(r.as_slice())
    }
}

/// The band header with the live band's label, already in capitals.
pub open spec fn band_title(upper_label: Seq<char>) -> Seq<char> {
    "WI-FI BAND: "@ + upper_label
}

pub fn band_title_with(upper_label: &str) -> (r: String)
    ensures
        r@ == band_title(upper_label@),
{
    let mut r = chars_of("WI-FI BAND: ");
    let l = chars_of(upper_label);
    crate::text::push_all(&mut r, l.as_slice());
    crate::text::string_from_chars(r.as_slice())
}

/// Under Automatic the pills are hidden, so the header carries the live
/// band; once a band is pinned the pills say it themselves and the header
/// is the plain label. `upper` is how the live band's label reads in
/// capitals.
pub open spec fn section_title(selected: Seq<char>, current: Seq<char>, upper: Seq<char>) -> Seq<char> {
    if selected != "auto"@ || band_text(current).len() == 0 {
        "WI-FI BAND"@
    } else {
        band_title(upper)
    }
}

/// "WI-FI BAND: 2.4GHZ" under Automatic, "WI-FI BAND" otherwise.
pub fn band_section_title(selected: &str, current: &str) -> (r: String)
    ensures
        r@ == section_title(selected@, current@, uppercase_of(band_text(current@))),
        is_ascii_text(current@) ==> r@ == section_title(
            selected@,
            current@,
            ascii_upper(band_text(current@)),
        ),
{
    let s = chars_of(selected);
    if !crate::text::is(s.as_slice(), "auto") {
        return String::from_str("WI-FI BAND");
    }
    let label = band_label(current);
    if label.as_str().unicode_len() == 0 {
        return String::from_str("WI-FI BAND");
    }
    proof {
        reveal_strlit("auto");
        reveal_strlit("Auto");
        reveal_strlit("ghz");
        if is_ascii_text(current@) && current@ == "auto"@ {
            assert(is_ascii_text(label@)) by {
                assert forall|i: int| 0 <= i < label@.len() implies (#[trigger] label@[i] as int) < 128 by {}
            }
        }
        if is_ascii_text(current@) && current@ != "auto"@ {
            assert(is_ascii_text(label@)) by {
                assert forall|i: int| 0 <= i < label@.len() implies (#[trigger] label@[i] as int) < 128 by {
                    if i >= current@.len() {
                        assert(label@[i] == "ghz"@[i - current@.len()]);
                    }
                }
            }
        }
    }
    let upper = uppercase(label.as_str());
    band_title_with(upper.as_str())
}

// ---------------------------------------------------------------------------
// Link speed
// ---------------------------------------------------------------------------

/// For `v` in Mbit/s (1000 <= v < 2^53), the remainder that decides on
/// which side of `v / 1000` the nearest binary double lies: `v / 1000`
/// scaled to its 53 significant bits is `(v * 2^(52 - e)) / 1000`, with
/// `e = floor(log2(v / 1000))`; the double is exact when the remainder is 0,
/// below `v / 1000` when it is under 500, above it when it is over.
pub open spec fn double_remainder(v: nat) -> nat {
    (v * pow2((52 - log2_floor(v / 1000)) as nat)) % 1000
}

/// `v / 1000` in tenths, as a one-decimal rendering of the nearest double
/// prints it: to the nearest tenth; a decimal tie (`v % 100 == 50`) goes to
/// the side the double lies on, and to the even tenth when the double is
/// the tie itself.
pub open spec fn gbit_tenths(v: nat) -> nat {
    let t = v / 100;
    if v % 100 == 50 {
        let r = double_remainder(v);
        if r == 0 {
            t + t % 2
        } else if r < 500 {
            t
        } else {
            t + 1
        }
    } else {
        (v + 50) / 100
    }
}

/// The binary double nearest to `v >= 2^53`: a double keeps 53 significant
/// bits, so `v` is rounded to a multiple of `2^(log2(v) - 52)`, a tie going
/// to the even multiple.
pub open spec fn nearest_double(v: nat) -> nat {
    let unit = pow2((log2_floor(v) - 52) as nat);
    round_even(v, unit) * unit
}

/// The header text for `v >= 2^53` Mbit/s, where `v` is no longer exact as
/// a double: `d`, the double nearest to `v`, is divided by 1000 and rounded
/// to 53 significant bits (a multiple of `2^s` when the quotient reaches
/// `2^52`, else `n / 2^z`), then printed with no decimal or with one, a
/// decimal tie going to the even digit.
pub open spec fn big_header_speed(v: nat) -> Seq<char> {
    let d = nearest_double(v);
    let e = log2_floor(d / 1000);
    if e >= 52 {
        let unit = pow2((e - 52) as nat);
        let g = round_even(d, 1000 * unit) * unit;
        if v % 1000 == 0 {
            decimal(g as int) + "gbit"@
        } else {
            decimal(g as int) + seq!['.', '0'] + "gbit"@
        }
    } else {
        let scale = pow2((52 - e) as nat);
        let n = round_even(d * scale, 1000);
        if v % 1000 == 0 {
            decimal(round_even(n, scale) as int) + "gbit"@
        } else {
            let t = round_even(10 * n, scale);
            decimal((t / 10) as int) + seq!['.', digit_char(t % 10)] + "gbit"@
        }
    }
}

/// The negotiated link speed from `/sys/class/net/<iface>/speed` (Mbit/s):
/// nothing when unknown or not positive, whole gigabits, one decimal of a
/// gigabit, or megabits below a thousand.
pub open spec fn header_speed(v: int) -> Seq<char> {
    if v <= 0 {
        seq![]
    } else if v >= 0x20_0000_0000_0000 {
        big_header_speed(v as nat)
    } else if v >= 1000 {
        if v % 1000 == 0 {
            decimal(v / 1000) + "gbit"@
        } else {
            let t = gbit_tenths(v as nat);
            decimal((t / 10) as int) + seq!['.', digit_char(t % 10)] + "gbit"@
        }
    } else {
        decimal(v) + "mbit"@
    }
}

/// The speed value `mbps` reads as: its trimmed text as an `i64`, 0 when it
/// is not one.
pub open spec fn speed_value(mbps: Seq<char>) -> int {
    match parsed_i64(trim(mbps)) {
        Some(v) => v as int,
        None => 0,
    }
}

/// Computes `double_remainder(v)` without overflow.
fn remainder_of_double(v: u64) -> (r: u64)
    requires
        1000 <= v < 0x20_0000_0000_0000,
    ensures
        r == double_remainder(v as nat),
{
    let q = v / 1000;
    let ghost l = log2_floor(q as nat);
    proof {
        lemma_log2_floor_bounds(q as nat);
        lemma2_to64();
        vstd::arithmetic::power2::lemma2_to64_rest();
        if l >= 44 {
            if l > 44 {
                lemma_pow2_strictly_increases(44, l);
            }
            assert(false);
        }
    }
    let mut e: u64 = 0;
    let mut m = q;
    while m >= 2
        invariant
            1 <= m,
            l <= 43,
            l == e + log2_floor(m as nat),
        decreases m,
    {
        m = m / 2;
        e = e + 1;
    }
    proof {
        assert(v < 1000 * (q + 1));
        assert(v < 1000 * pow2(e as nat + 1));
    }
    let shift = 52 - e;
    let mut scaled = v;
    let mut k: u64 = 0;
    while k < shift
        invariant
            k <= shift,
            shift == 52 - e,
            e <= 43,
            v < 1000 * pow2(e as nat + 1),
            scaled == v * pow2(k as nat),
        decreases shift - k,
    {
        proof {
            let k1 = k as nat + 1;
            let top = e as nat + 1 + k1;
            lemma_pow2_unfold(k1);
            vstd::arithmetic::power2::lemma_pow2_pos(k1);
            lemma2_to64();
            vstd::arithmetic::power2::lemma2_to64_rest();
            assert(pow2(top) <= pow2(53)) by {
                if top < 53 {
                    lemma_pow2_strictly_increases(top, 53);
                }
            }
            vstd::arithmetic::power2::lemma_pow2_adds(e as nat + 1, k1);
            assert(v * pow2(k1) < 1000 * pow2(e as nat + 1) * pow2(k1)) by (nonlinear_arith)
                requires
                    v < 1000 * pow2(e as nat + 1),
                    pow2(k1) > 0,
            ;
            assert(1000 * pow2(e as nat + 1) * pow2(k1) == 1000 * pow2(top)) by (nonlinear_arith)
                requires
                    pow2(e as nat + 1) * pow2(k1) == pow2(top),
            ;
            assert(scaled * 2 == v * pow2(k1)) by (nonlinear_arith)
                requires
                    scaled == v * pow2(k as nat),
                    pow2(k1) == 2 * pow2(k as nat),
            ;
        }
        scaled = scaled * 2;
        k = k + 1;
    }
    scaled % 1000
}

/// `gbit_tenths(v)` computed.
fn tenths_of_gbit(v: u64) -> (t: u64)
    requires
        1000 <= v < 0x20_0000_0000_0000,
    ensures
        t == gbit_tenths(v as nat),
{
    let t = v / 100;
    if v % 100 == 50 {
        let r = remainder_of_double(v);
        if r == 0 {
            t + t % 2
        } else if r < 500 {
            t
        } else {
            t + 1
        }
    } else {
        (v + 50) / 100
    }
}

proof fn lemma_round_even_times(a: nat, b: nat, unit: nat)
    requires
        b > 0,
        unit > 0,
    ensures
        a < b + round_even(a, b) * b,
        round_even(a, b) * b <= a + b,
        round_even(a, b) * unit <= (a + 1) * unit,
{
    let q = a / b;
    let x = round_even(a, b);
    vstd::arithmetic::div_mod::lemma_fundamental_div_mod(a as int, b as int);
    assert(a == b * q + a % b);
    assert(q <= a) by (nonlinear_arith)
        requires
            q == a / b,
            b >= 1,
    ;
    assert(a < b + x * b && x * b <= a + b) by (nonlinear_arith)
        requires
            a == b * q + a % b,
            0 <= a % b < b,
            q <= x <= q + 1,
    ;
    assert(x * unit <= (a + 1) * unit) by (nonlinear_arith)
        requires
            x <= q + 1,
            q <= a,
            unit > 0,
    ;
}

/// Appends `big_header_speed(v)`.
#[verifier::rlimit(40)]
fn push_big_speed(r: &mut Vec<char>, v: u64)
    requires
        0x20_0000_0000_0000 <= v < 0x8000_0000_0000_0000,
    ensures
        final(r)@ == old(r)@ + big_header_speed(v as nat),
{
    let l = floor_log2(v);
    proof {
        lemma_log2_floor_bounds(v as nat);
        lemma2_to64();
        vstd::arithmetic::power2::lemma2_to64_rest();
        if l < 53 {
            if l + 1 < 53 {
                lemma_pow2_strictly_increases((l + 1) as nat, 53);
            }
            assert(false);
        }
        if l > 62 {
            lemma_pow2_strictly_increases(63, l as nat);
            assert(false);
        }
    }
    let unit = pow2_of(l - 52);
    proof {
        if l - 52 < 10 {
            lemma_pow2_strictly_increases((l - 52) as nat, 10);
        }
        lemma_round_even_times(v as nat, unit as nat, unit as nat);
    }
    let x = round_half_even(v as u128, unit);
    let d = x * unit;
    let ghost dn: nat = nearest_double(v as nat);
    assert(d == dn);
    assert(1000 <= d < 0x1_0000_0000_0000_0000);
    let q = d / 1000;
    let e = floor_log2(q as u64);
    let ghost en: nat = log2_floor(dn / 1000);
    assert(e == en);
    let exact = v % 1000 == 0;
    if e >= 52 {
        let unit2 = pow2_of(e - 52);
        proof {
            if e - 52 < 11 {
                lemma_pow2_strictly_increases((e - 52) as nat, 11);
            }
            lemma_round_even_times(d as nat, (1000 * unit2) as nat, unit2 as nat);
            assert((d + 1) * unit2 <= 0x1_0000_0000_0000_0001 * 0x800) by (nonlinear_arith)
                requires
                    d < 0x1_0000_0000_0000_0000,
                    unit2 <= 0x800,
            ;
        }
        let y = round_half_even(d, 1000 * unit2);
        let g = y * unit2;
        push_digits_wide(r, g);
        if !exact {
            r.push('.');
            r.push('0');
        }
    } else {
        let scale = pow2_of(52 - e);
        proof {
            if 52 - e < 52 {
                lemma_pow2_strictly_increases((52 - e) as nat, 52);
            }
            assert(d * scale < 0x1_0000_0000_0000_0000 * 0x10_0000_0000_0000) by (nonlinear_arith)
                requires
                    d < 0x1_0000_0000_0000_0000,
                    scale <= 0x10_0000_0000_0000,
            ;
            assert(scale >= 1);
        }
        let n = round_half_even(d * scale, 1000);
        proof {
            assert((d * scale) / 1000 <= d * scale) by (nonlinear_arith)
                requires
                    d * scale >= 0,
            ;
        }
        if exact {
            let g = round_half_even(n, scale);
            push_digits_wide(r, g);
        } else {
            let t = round_half_even(10 * n, scale);
            push_digits_wide(r, t / 10);
            r.push('.');
            r.push(digit_of_wide(t % 10));
        }
    }
    crate::text::push_lit(r, "gbit");
    proof {
        reveal_strlit("gbit");
    }
}

fn digit_of_wide(d: u128) -> (c: char)
    requires
        d < 10,
    ensures
        c == digit_char(d as nat),
{
    ((48 + d) as u8) as char
}

/// The Ethernet link speed as the panel header shows it: "1gbit",
/// "2.5gbit", "100mbit", or nothing for an unknown speed.
pub fn format_header_speed(mbps: &str) -> (r: String)
    ensures
        r@ == header_speed(speed_value(mbps@)),
{
    let c = chars_of(mbps);
    let t = trim_chars(c.as_slice());
    let value: i64 = match parse_i64(t.as_slice()) {
        Some(v) => v,
        None => 0,
    };
    if value <= 0 {
        return String::new();
    }
    let mut r: Vec<char> = Vec::new();
    if value >= 0x20_0000_0000_0000 {
        push_big_speed(&mut r, value as u64);
    } else if value >= 1000 {
        if value % 1000 == 0 {
            push_decimal(&mut r, value / 1000);
        } else {
            let tenths = tenths_of_gbit(value as u64);
            push_digits(&mut r, tenths / 10);
            r.push('.');
            push_digits(&mut r, tenths % 10);
        }
        crate::text::push_lit(&mut r, "gbit");
    } else {
        push_decimal(&mut r, value);
        crate::text::push_lit(&mut r, "mbit");
    }
    crate::text::string_from_chars(r.as_slice())
}

// ---------------------------------------------------------------------------
// Metrics
// ---------------------------------------------------------------------------

/// "--" before any probe has come back, else the loss in percent.
pub open spec fn loss_text(percent: int, has_samples: bool) -> Seq<char> {
    if !has_samples {
        "--"@
    } else if percent <= 0 {
        "0%"@
    } else {
        decimal(percent) + "%"@
    }
}

pub fn format_packet_loss(percent: i32, has_samples: bool) -> (r: String)
    ensures
        r@ == loss_text(percent as int, has_samples),
{
    if !has_samples {
        return String::from_str("--");
    }
    if percent <= 0 {
        return String::from_str("0%");
    }
    let mut r: Vec<char> = Vec::new();
    push_decimal(&mut r, percent as i64);
    crate::text::push_lit(&mut r, "%");
    crate::text::string_from_chars(r.as_slice())
}

// ---------------------------------------------------------------------------
// The rotating status phrases
// ---------------------------------------------------------------------------

/// How many phrases the hero rotates through.
pub const CONNECTION_PHRASE_COUNT: usize = 7;

/// The phrases the hero shows on a live link, in order.
pub open spec fn phrase(i: int) -> Seq<char> {
    if i == 0 {
        "Wiring bits"@
    } else if i == 1 {
        "Handling packets"@
    } else if i == 2 {
        "Sorting frames"@
    } else if i == 3 {
        "Hauling bytes"@
    } else if i == 4 {
        "Routing crumbs"@
    } else if i == 5 {
        "Counting collisions"@
    } else {
        "Bending light"@
    }
}

/// The phrase at `index`, counting round the list.
pub fn connection_phrase(index: usize) -> (r: &'static str)
    ensures
        r@ == phrase((index % CONNECTION_PHRASE_COUNT) as int),
{
    let i = index % CONNECTION_PHRASE_COUNT;
    if i == 0 {
        "Wiring bits"
    } else if i == 1 {
        "Handling packets"
    } else if i == 2 {
        "Sorting frames"
    } else if i == 3 {
        "Hauling bytes"
    } else if i == 4 {
        "Routing crumbs"
    } else if i == 5 {
        "Counting collisions"
    } else {
        "Bending light"
    }
}

// ---------------------------------------------------------------------------
// The network list's section headers
// ---------------------------------------------------------------------------

/// No row before `i` is of row `i`'s kind (saved or not): row `i` opens
/// its section.
pub open spec fn first_of_kind(rows: Seq<RowView>, i: int) -> bool {
    forall|j: int| 0 <= j < i ==> #[trigger] rows[j].known != rows[i].known
}

/// "KNOWN NETWORKS" above the first saved row, "OTHER NETWORKS" above the
/// first unsaved row, nothing anywhere else.
pub open spec fn section_at(rows: Seq<RowView>, i: int) -> Option<Seq<char>> {
    if i < 0 || i >= rows.len() || !first_of_kind(rows, i) {
        None
    } else if rows[i].known {
        Some("KNOWN NETWORKS"@)
    } else {
        Some("OTHER NETWORKS"@)
    }
}

pub fn wifi_section_title(rows: &[WifiRow], index: usize) -> (r: Option<&'static str>)
    ensures
        match r {
            Some(t) => section_at(rows_view(rows@), index as int) == Some(t@),
            None => section_at(rows_view(rows@), index as int) is None,
        },
{
    if index >= rows.len() {
        return None;
    }
    let ghost v = rows_view(rows@);
    let known = rows[index].known;
    let mut j: usize = 0;
    while j < index
        invariant
            index < rows@.len(),
            v == rows_view(rows@),
            known == v[index as int].known,
            j <= index,
            forall|k: int| 0 <= k < j ==> #[trigger] v[k].known != v[index as int].known,
        decreases index - j,
    {
        assert(v[j as int] == rows@[j as int]@);
        if rows[j].known == known {
            assert(!first_of_kind(v, index as int)) by {
                assert(v[j as int].known == v[index as int].known);
            }
            return None;
        }
        j = j + 1;
    }
    if known {
        Some("KNOWN NETWORKS")
    } else {
        Some("OTHER NETWORKS")
    }
}

// ---------------------------------------------------------------------------
// Byte counters
// ---------------------------------------------------------------------------

/// Rolling byte counters, turned by the caller into a live rate. A change of
/// interface resets the baseline instead of reporting the difference
/// between two unrelated counters as a huge spike.
#[derive(Debug)]
pub struct Throughput {
    iface: String,
    prev_rx: u64,
    prev_tx: u64,
    primed: bool,
    moved: Option<(u64, u64)>,
}

/// The counters as plain values.
pub struct ThroughputView {
    /// The interface the baseline belongs to.
    pub iface: Seq<char>,
    pub prev_rx: u64,
    pub prev_tx: u64,
    /// A baseline has been taken.
    pub primed: bool,
    /// Bytes received and sent between the two latest samples; `None`
    /// while there is only a baseline.
    pub moved: Option<(u64, u64)>,
}

impl View for Throughput {
    type V = ThroughputView;

    closed spec fn view(&self) -> ThroughputView {
        ThroughputView {
            iface: self.iface@,
            prev_rx: self.prev_rx,
            prev_tx: self.prev_tx,
            primed: self.primed,
            moved: self.moved,
        }
    }
}

/// No baseline at all.
pub open spec fn unprimed() -> ThroughputView {
    ThroughputView { iface: seq![], prev_rx: 0, prev_tx: 0, primed: false, moved: None }
}

/// `a - b`, or 0 when `b` is larger (a counter that went backwards).
pub open spec fn saturating_diff(a: u64, b: u64) -> u64 {
    if a >= b {
        (a - b) as u64
    } else {
        0
    }
}

/// The counters after a sample of `rx` and `tx` on `iface`.
pub open spec fn throughput_after(t: ThroughputView, iface: Seq<char>, rx: u64, tx: u64) -> ThroughputView {
    if iface != t.iface || !t.primed {
        ThroughputView { iface: iface, prev_rx: rx, prev_tx: tx, primed: true, moved: None }
    } else {
        ThroughputView {
            iface: iface,
            prev_rx: rx,
            prev_tx: tx,
            primed: true,
            moved: Some((saturating_diff(rx, t.prev_rx), saturating_diff(tx, t.prev_tx))),
        }
    }
}

impl Default for Throughput {
    fn default() -> (t: Throughput)
        ensures
            t@ == unprimed(),
    {
        Throughput { iface: String::new(), prev_rx: 0, prev_tx: 0, primed: false, moved: None }
    }
}

impl Throughput {
    pub fn sample(&mut self, iface: &str, rx: u64, tx: u64)
        ensures
            final(self)@ == throughput_after(old(self)@, iface@, rx, tx),
    {
        let name = String::from_str(iface);
        if !(name == self.iface) || !self.primed {
            self.iface = name;
            self.prev_rx = rx;
            self.prev_tx = tx;
            self.primed = true;
            self.moved = None;
            return;
        }
        self.moved = Some((rx.saturating_sub(self.prev_rx), tx.saturating_sub(self.prev_tx)));
        self.prev_rx = rx;
        self.prev_tx = tx;
    }

    pub fn reset(&mut self)
        ensures
            final(self)@ == unprimed(),
    {
        *self = Throughput::default();
    }

    /// Bytes received and sent between the two latest samples, `None` while
    /// there is only a baseline.
    pub fn moved(&self) -> (m: Option<(u64, u64)>)
        ensures
            m == self@.moved,
    {
        self.moved
    }
}

/// A change of interface never yields a byte count: the new interface's
/// counters become the baseline.
pub proof fn law_interface_switch_resets_baseline(t: ThroughputView, iface: Seq<char>, rx: u64, tx: u64)
    requires
        iface != t.iface,
    ensures
        throughput_after(t, iface, rx, tx).moved is None,
        throughput_after(t, iface, rx, tx).prev_rx == rx,
        throughput_after(t, iface, rx, tx).prev_tx == tx,
{
}

/// Two samples on one interface yield what the counters moved in between
/// (nothing for a counter that went backwards).
pub proof fn law_same_interface_counts_bytes(t: ThroughputView, iface: Seq<char>, rx1: u64, tx1: u64, rx2: u64, tx2: u64)
    ensures
        throughput_after(throughput_after(t, iface, rx1, tx1), iface, rx2, tx2).moved == Some(
            (saturating_diff(rx2, rx1), saturating_diff(tx2, tx1)),
        ),
{
}

// ---------------------------------------------------------------------------
// Ping samples
// ---------------------------------------------------------------------------

/// How many probe results the window keeps.
pub const PING_WINDOW: usize = 5;

/// A short window of probe results, oldest first. `None` is a timeout,
/// which counts toward packet loss; the latency average ignores it. The
/// sample type is left to the caller.
pub struct PingSamples<T> {
    iface: String,
    router: Vec<Option<T>>,
    internet: Vec<Option<T>>,
}

/// The window as plain values.
pub struct PingView<T> {
    pub iface: Seq<char>,
    pub router: Seq<Option<T>>,
    pub internet: Seq<Option<T>>,
}

impl<T> View for PingSamples<T> {
    type V = PingView<T>;

    closed spec fn view(&self) -> PingView<T> {
        PingView { iface: self.iface@, router: self.router@, internet: self.internet@ }
    }
}

/// `s` with `v` appended, keeping only the newest `PING_WINDOW` entries.
pub open spec fn window_push<T>(s: Seq<Option<T>>, v: Option<T>) -> Seq<Option<T>> {
    let t = s.push(v);
    if t.len() > PING_WINDOW {
        t.skip(t.len() - PING_WINDOW)
    } else {
        t
    }
}

/// The window after a round of probes on `iface`; a change of interface
/// starts both windows afresh.
pub open spec fn pings_after<T>(p: PingView<T>, iface: Seq<char>, router: Option<T>, internet: Option<T>) -> PingView<T> {
    let fresh = iface != p.iface;
    PingView {
        iface: iface,
        router: window_push(if fresh { Seq::empty() } else { p.router }, router),
        internet: window_push(if fresh { Seq::empty() } else { p.internet }, internet),
    }
}

/// How many entries of `s` are timeouts.
pub open spec fn timeouts<T>(s: Seq<Option<T>>) -> nat
    decreases s.len(),
{
    if s.len() == 0 {
        0
    } else {
        timeouts(s.drop_last()) + if s.last() is None { 1nat } else { 0nat }
    }
}

/// The share of timeouts in percent, rounded to the nearest whole percent
/// (half up); 0 for no samples.
pub open spec fn loss_percent<T>(s: Seq<Option<T>>) -> int {
    if s.len() == 0 {
        0
    } else {
        ((200 * timeouts(s) + s.len()) / (2 * s.len())) as int
    }
}

/// The latencies that came back, oldest first: what the average is taken over.
pub open spec fn answered<T>(s: Seq<Option<T>>) -> Seq<T>
    decreases s.len(),
{
    if s.len() == 0 {
        Seq::empty()
    } else {
        match s.last() {
            Some(v) => answered(s.drop_last()).push(v),
            None => answered(s.drop_last()),
        }
    }
}

proof fn lemma_timeouts_bound<T>(s: Seq<Option<T>>)
    ensures
        timeouts(s) <= s.len(),
    decreases s.len(),
{
    if s.len() > 0 {
        lemma_timeouts_bound(s.drop_last());
    }
}

impl<T> Default for PingSamples<T> {
    fn default() -> (p: PingSamples<T>)
        ensures
            p@ == (PingView::<T> { iface: seq![], router: seq![], internet: seq![] }),
    {
        PingSamples { iface: String::new(), router: Vec::new(), internet: Vec::new() }
    }
}

impl<T> PingSamples<T> {
    #[verifier::type_invariant]
    spec fn within_window(self) -> bool {
        self.router.len() <= PING_WINDOW && self.internet.len() <= PING_WINDOW
    }

    fn push_capped(samples: &mut Vec<Option<T>>, value: Option<T>)
        requires
            old(samples).len() <= PING_WINDOW,
        ensures
            final(samples)@ == window_push(old(samples)@, value),
            final(samples).len() <= PING_WINDOW,
    {
        samples.push(value);
        if samples.len() > PING_WINDOW {
            samples.remove(0);
            assert(samples@ =~= old(samples)@.push(value).skip(1));
        }
    }

    /// Records one round of probes on `iface`.
    pub fn sample(&mut self, iface: &str, router: Option<T>, internet: Option<T>)
        ensures
            final(self)@ == pings_after(old(self)@, iface@, router, internet),
    {
        proof {
            use_type_invariant(&*self);
        }
        let name = String::from_str(iface);
        let mut r = Vec::new();
        let mut i = Vec::new();
        std::mem::swap(&mut r, &mut self.router);
        std::mem::swap(&mut i, &mut self.internet);
        if !(name == self.iface) {
            r.clear();
            i.clear();
        }
        Self::push_capped(&mut r, router);
        Self::push_capped(&mut i, internet);
        self.iface = name;
        self.router = r;
        self.internet = i;
    }

    pub fn has_internet_samples(&self) -> (r: bool)
        ensures
            r == (self@.internet.len() > 0),
    {
        self.internet.len() > 0
    }

    /// The share of internet probes that timed out, in whole percent.
    pub fn internet_packet_loss(&self) -> (r: i32)
        ensures
            r == loss_percent(self@.internet),
    {
        proof {
            use_type_invariant(self);
        }
        let n = self.internet.len();
        if n == 0 {
            return 0;
        }
        let mut lost: usize = 0;
        let mut k: usize = 0;
        while k < n
            invariant
                n == self.internet@.len(),
                n <= PING_WINDOW,
                k <= n,
                lost == timeouts(self.internet@.take(k as int)),
                lost <= k,
            decreases n - k,
        {
            proof {
                let t = self.internet@.take(k as int + 1);
                assert(t.drop_last() =~= self.internet@.take(k as int));
            }
            if self.internet[k].is_none() {
                lost = lost + 1;
            }
            k = k + 1;
        }
        assert(self.internet@.take(n as int) =~= self.internet@);
        ((200 * lost + n) / (2 * n)) as i32
    }

    /// The internet latencies that came back, oldest first.
    pub fn internet_answers(&self) -> (r: Vec<T>)
        where
            T: Copy,
        ensures
            r@ == answered(self@.internet),
    {
        let mut r: Vec<T> = Vec::new();
        let mut k: usize = 0;
        while k < self.internet.len()
            invariant
                k <= self.internet@.len(),
                r@ == answered(self.internet@.take(k as int)),
            decreases self.internet@.len() - k,
        {
            proof {
                let t = self.internet@.take(k as int + 1);
                assert(t.drop_last() =~= self.internet@.take(k as int));
            }
            match self.internet[k] {
                Some(v) => r.push(v),
                None => {},
            }
            k = k + 1;
        }
        assert(self.internet@.take(self.internet@.len() as int) =~= self.internet@);
        r
    }
}

/// Whatever came before, a round of probes leaves at most `PING_WINDOW`
/// results in each window, the newest last.
pub proof fn law_window_is_bounded<T>(p: PingView<T>, iface: Seq<char>, router: Option<T>, internet: Option<T>)
    ensures
        pings_after(p, iface, router, internet).router.len() <= PING_WINDOW,
        pings_after(p, iface, router, internet).internet.len() <= PING_WINDOW,
        pings_after(p, iface, router, internet).router.last() == router,
        pings_after(p, iface, router, internet).internet.last() == internet,
{
}

/// A change of interface leaves only the new round in either window.
pub proof fn law_interface_switch_restarts_pings<T>(p: PingView<T>, iface: Seq<char>, router: Option<T>, internet: Option<T>)
    requires
        iface != p.iface,
    ensures
        pings_after(p, iface, router, internet).router == seq![router],
        pings_after(p, iface, router, internet).internet == seq![internet],
{
    assert(Seq::<Option<T>>::empty().push(router) =~= seq![router]);
    assert(Seq::<Option<T>>::empty().push(internet) =~= seq![internet]);
}

/// Every probe lost reads as total loss; none lost as no loss.
pub proof fn law_loss_extremes<T>(s: Seq<Option<T>>)
    requires
        s.len() > 0,
    ensures
        timeouts(s) == s.len() ==> loss_percent(s) == 100,
        timeouts(s) == 0 ==> loss_percent(s) == 0,
        0 <= loss_percent(s) <= 100,
{
    lemma_timeouts_bound(s);
    let n = s.len() as int;
    let l = timeouts(s) as int;
    assert((200 * n + n) / (2 * n) == 100) by (nonlinear_arith)
        requires
            n > 0,
    ;
    assert((0 + n) / (2 * n) == 0) by (nonlinear_arith)
        requires
            n > 0,
    ;
    assert(0 <= (200 * l + n) / (2 * n) <= 100) by (nonlinear_arith)
        requires
            n > 0,
            0 <= l <= n,
    ;
}

} // verus!
