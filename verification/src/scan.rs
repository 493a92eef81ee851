//! The network list: saved profiles and scan results as nmcli prints them,
//! folded into one row per SSID and ranked for display.

use vstd::prelude::*;
use crate::net::{parse_security, security_of, Security};
use crate::number::{parse_i32, parsed_i32};
use crate::terse::{split_terse, terse_fields};
use crate::text::{chars_of, is, join, join_range, lines, split_lines, string_from_chars, string_views, views};

verus! {

#[derive(Debug, Clone)]
pub struct WifiRow {
    pub ssid: String,
    pub signal: i32,
    pub security: Security,
    pub connected: bool,
    pub known: bool,
}

/// A row as plain values.
pub struct RowView {
    pub ssid: Seq<char>,
    pub signal: i32,
    pub security: Security,
    pub connected: bool,
    pub known: bool,
}

impl View for WifiRow {
    type V = RowView;

    open spec fn view(&self) -> RowView {
        RowView {
            ssid: self.ssid@,
            signal: self.signal,
            security: self.security,
            connected: self.connected,
            known: self.known,
        }
    }
}

impl WifiRow {
    pub fn duplicate(&self) -> (r: WifiRow)
        ensures
            r@ == self@,
    {
        WifiRow {
            ssid: self.ssid.clone(),
            signal: self.signal,
            security: self.security,
            connected: self.connected,
            known: self.known,
        }
    }
}

pub open spec fn rows_view(rows: Seq<WifiRow>) -> Seq<RowView> {
    rows.map_values(|r: WifiRow| r@)
}

// ---------------------------------------------------------------------------
// Saved profiles
// ---------------------------------------------------------------------------

/// The profile name on one `NAME,TYPE` line, when the profile is a Wi-Fi one.
pub open spec fn profile_of(line: Seq<char>) -> Option<Seq<char>> {
    let f = terse_fields(line);
    if f.len() > 0 && f.last() == "802-11-wireless"@ {
        Some(join(f.drop_last(), ':'))
    } else {
        None
    }
}

/// The Wi-Fi profile names on the given lines, in order.
pub open spec fn profiles(ls: Seq<Seq<char>>) -> Seq<Seq<char>>
    decreases ls.len(),
{
    if ls.len() == 0 {
        seq![]
    } else {
        profiles(ls.drop_last()) + match profile_of(ls.last()) {
            Some(p) => seq![p],
            None => seq![],
        }
    }
}

/// Saved Wi-Fi profiles, keyed by the profile name, from the output of
/// `nmcli -t -f NAME,TYPE connection show`. NetworkManager lets a profile
/// carry an SSID different from its name, but nmcli cannot print both in one
/// call, so the panel matches on the name.
pub fn known_profiles(output: &str) -> (r: Vec<String>)
    ensures
        string_views(r@) == profiles(lines(output@)),
{
    let text = chars_of(output);
    let ls = split_lines(text.as_slice());
    let mut r: Vec<String> = Vec::new();
    let mut i: usize = 0;
    while i < ls.len()
        invariant
            i <= ls@.len(),
            views(ls@) == lines(output@),
            string_views(r@) == profiles(views(ls@).take(i as int)),
        decreases ls@.len() - i,
    {
        let fields = split_terse(ls[i].as_slice());
        let n = fields.len();
        let ghost before = r@;
        proof {
            let t = views(ls@).take(i + 1);
            assert(t.drop_last() =~= views(ls@).take(i as int));
            assert(t.last() == ls@[i as int]@);
            assert(views(fields@).last() == fields@[n - 1]@);
            assert(views(fields@).drop_last() =~= views(fields@).subrange(0, n - 1));
        }
        if is(fields[n - 1].as_slice(), "802-11-wireless") {
            let name = join_range(fields.as_slice(), 0, n - 1, ':');
            let s = string_from_chars(name.as_slice());
            r.push(s);
            proof {
                assert(string_views(r@) =~= string_views(before).push(s@));
            }
        }
        i = i + 1;
    }
    assert(views(ls@).take(ls@.len() as int) =~= views(ls@));
    r
}

// ---------------------------------------------------------------------------
// Scan results
// ---------------------------------------------------------------------------

/// The row that one `IN-USE,SIGNAL,SECURITY,SSID` line describes. The SSID is
/// the last column, so everything after the third field is part of the name.
pub open spec fn sighting(line: Seq<char>, known: Seq<Seq<char>>) -> Option<RowView> {
    let f = terse_fields(line);
    if f.len() < 4 {
        None
    } else {
        let ssid = join(f.skip(3), ':');
        if ssid.len() == 0 {
            None
        } else {
            Some(
                RowView {
                    ssid,
                    signal: match parsed_i32(f[1]) {
                        Some(v) => v,
                        None => 0,
                    },
                    security: security_of(f[2]),
                    connected: f[0] == "*"@,
                    known: known.contains(ssid),
                },
            )
        }
    }
}

/// The rows that the given lines describe, in order.
pub open spec fn sightings(ls: Seq<Seq<char>>, known: Seq<Seq<char>>) -> Seq<RowView>
    decreases ls.len(),
{
    if ls.len() == 0 {
        seq![]
    } else {
        sightings(ls.drop_last(), known) + match sighting(ls.last(), known) {
            Some(r) => seq![r],
            None => seq![],
        }
    }
}

/// The first position of a row for `ssid`, or -1.
pub open spec fn position_of(rows: Seq<RowView>, ssid: Seq<char>) -> int
    decreases rows.len(),
{
    if rows.len() == 0 {
        -1
    } else if rows[0].ssid == ssid {
        0
    } else {
        let p = position_of(rows.drop_first(), ssid);
        if p < 0 {
            -1
        } else {
            p + 1
        }
    }
}

/// Folds one more sighting in: an SSID seen before keeps its row, which turns
/// connected if this sighting is connected and takes the stronger signal.
pub open spec fn absorb(rows: Seq<RowView>, r: RowView) -> Seq<RowView> {
    let p = position_of(rows, r.ssid);
    if p < 0 {
        rows.push(r)
    } else {
        rows.update(
            p,
            RowView {
                connected: rows[p].connected || r.connected,
                signal: if rows[p].signal >= r.signal {
                    rows[p].signal
                } else {
                    r.signal
                },
                ..rows[p]
            },
        )
    }
}

/// An SSID answering on several bands shows up once per BSS; this keeps one
/// row per network.
pub open spec fn merged(sighted: Seq<RowView>) -> Seq<RowView>
    decreases sighted.len(),
{
    if sighted.len() == 0 {
        seq![]
    } else {
        absorb(merged(sighted.drop_last()), sighted.last())
    }
}

/// `a` is listed before `b`: connected first, then saved, then by signal.
pub open spec fn ranks_before(a: RowView, b: RowView) -> bool {
    ||| (a.connected && !b.connected)
    ||| (a.connected == b.connected && a.known && !b.known)
    ||| (a.connected == b.connected && a.known == b.known && a.signal > b.signal)
}

/// Where a row goes in an already ranked list: after every row it does not
/// rank before, so rows that tie keep their order.
pub open spec fn insertion_point(sorted: Seq<RowView>, r: RowView) -> int
    decreases sorted.len(),
{
    if sorted.len() == 0 || ranks_before(r, sorted[0]) {
        0
    } else {
        1 + insertion_point(sorted.drop_first(), r)
    }
}

/// The rows in display order: a stable sort by `ranks_before`.
pub open spec fn ranked(rows: Seq<RowView>) -> Seq<RowView>
    decreases rows.len(),
{
    if rows.len() == 0 {
        seq![]
    } else {
        let s = ranked(rows.drop_last());
        s.insert(insertion_point(s, rows.last()), rows.last())
    }
}

/// The network list for the output of
/// `nmcli -t -f IN-USE,SIGNAL,SECURITY,SSID dev wifi list`.
pub open spec fn scan_rows(output: Seq<char>, known: Seq<Seq<char>>) -> Seq<RowView> {
    ranked(merged(sightings(lines(output), known)))
}

fn is_known(known: &[String], ssid: &String) -> (r: bool)
    ensures
        r == string_views(known@).contains(ssid@),
{
    let mut i: usize = 0;
    while i < known.len()
        invariant
            i <= known@.len(),
            forall|j: int| 0 <= j < i ==> known@[j]@ != ssid@,
        decreases known@.len() - i,
    {
        if known[i] == *ssid {
            assert(string_views(known@)[i as int] == ssid@);
            return true;
        }
        i = i + 1;
    }
    proof {
        if string_views(known@).contains(ssid@) {
            let j = choose|j: int|
                0 <= j < string_views(known@).len() && string_views(known@)[j] == ssid@;
            assert(known@[j]@ == ssid@);
        }
    }
    false
}

fn sighting_row(line: &[char], known: &[String]) -> (r: Option<WifiRow>)
    ensures
        match r {
            Some(row) => sighting(line@, string_views(known@)) == Some(row@),
            None => sighting(line@, string_views(known@)) is None,
        },
{
    let fields = split_terse(line);
    if fields.len() < 4 {
        return None;
    }
    let name = join_range(fields.as_slice(), 3, fields.len(), ':');
    assert(views(fields@).subrange(3, fields@.len() as int) =~= views(fields@).skip(3));
    if name.len() == 0 {
        return None;
    }
    let ssid = string_from_chars(name.as_slice());
    let signal = match parse_i32(fields[1].as_slice()) {
        Some(v) => v,
        None => 0,
    };
    let security = parse_security(fields[2].as_slice());
    let connected = is(fields[0].as_slice(), "*");
    let known = is_known(known, &ssid);
    assert(views(fields@)[0] == fields@[0]@);
    assert(views(fields@)[1] == fields@[1]@);
    assert(views(fields@)[2] == fields@[2]@);
    Some(WifiRow { ssid, signal, security, connected, known })
}

proof fn lemma_position(rows: Seq<RowView>, ssid: Seq<char>, p: int)
    requires
        0 <= p <= rows.len(),
        forall|j: int| 0 <= j < p ==> (#[trigger] rows[j]).ssid != ssid,
        p == rows.len() || rows[p].ssid == ssid,
    ensures
        position_of(rows, ssid) == if p == rows.len() {
            -1
        } else {
            p
        },
    decreases p,
{
    if p > 0 {
        lemma_position(rows.drop_first(), ssid, p - 1);
    }
}

fn absorb_row(rows: &mut Vec<WifiRow>, row: WifiRow)
    ensures
        rows_view(final(rows)@) == absorb(rows_view(old(rows)@), row@),
{
    let ghost v = rows_view(rows@);
    let mut i: usize = 0;
    while i < rows.len() && !(rows[i].ssid == row.ssid)
        invariant
            i <= rows@.len(),
            v == rows_view(rows@),
            forall|j: int| 0 <= j < i ==> (#[trigger] v[j]).ssid != row.ssid@,
        decreases rows@.len() - i,
    {
        i = i + 1;
    }
    proof {
        lemma_position(v, row.ssid@, i as int);
    }
    if i == rows.len() {
        rows.push(row);
        assert(rows_view(rows@) =~= v.push(row@));
    } else {
        let old_row = rows[i].duplicate();
        let signal = if old_row.signal >= row.signal {
            old_row.signal
        } else {
            row.signal
        };
        let updated = WifiRow {
            ssid: old_row.ssid,
            signal,
            security: old_row.security,
            connected: old_row.connected || row.connected,
            known: old_row.known,
        };
        rows.set(i, updated);
        assert(rows_view(rows@) =~= absorb(v, row@));
    }
}

proof fn lemma_insertion_point(sorted: Seq<RowView>, r: RowView, p: int)
    requires
        0 <= p <= sorted.len(),
        forall|j: int| 0 <= j < p ==> !ranks_before(r, #[trigger] sorted[j]),
        p == sorted.len() || ranks_before(r, sorted[p]),
    ensures
        insertion_point(sorted, r) == p,
    decreases p,
{
    if p > 0 {
        lemma_insertion_point(sorted.drop_first(), r, p - 1);
    }
}

fn rank_rows(rows: Vec<WifiRow>) -> (r: Vec<WifiRow>)
    ensures
        rows_view(r@) == ranked(rows_view(rows@)),
{
    let ghost v = rows_view(rows@);
    let mut out: Vec<WifiRow> = Vec::new();
    let mut i: usize = 0;
    assert(v.take(0) =~= Seq::<RowView>::empty());
    while i < rows.len()
        invariant
            i <= rows@.len(),
            v == rows_view(rows@),
            rows_view(out@) == ranked(v.take(i as int)),
        decreases rows@.len() - i,
    {
        let row = rows[i].duplicate();
        let ghost s = rows_view(out@);
        let mut p: usize = 0;
        while p < out.len() && !(row.connected && !out[p].connected || row.connected
            == out[p].connected && row.known && !out[p].known || row.connected
            == out[p].connected && row.known == out[p].known && row.signal > out[p].signal)
            invariant
                p <= out@.len(),
                s == rows_view(out@),
                forall|j: int| 0 <= j < p ==> !ranks_before(row@, #[trigger] s[j]),
            decreases out@.len() - p,
        {
            p = p + 1;
        }
        proof {
            lemma_insertion_point(s, row@, p as int);
            let t = v.take(i + 1);
            assert(t.drop_last() =~= v.take(i as int));
            assert(t.last() == row@);
        }
        out.insert(p, row);
        assert(rows_view(out@) =~= s.insert(p as int, row@));
        i = i + 1;
    }
    assert(v.take(rows@.len() as int) =~= v);
    out
}

/// The network list from the output of
/// `nmcli -t -f IN-USE,SIGNAL,SECURITY,SSID dev wifi list` and the saved
/// profile names: one row per SSID, the strongest sighting kept, sorted
/// connected → known → signal.
pub fn scan(output: &str, known: &[String]) -> (rows: Vec<WifiRow>)
    ensures
        rows_view(rows@) == scan_rows(output@, string_views(known@)),
{
    let ghost kv = string_views(known@);
    let text = chars_of(output);
    let ls = split_lines(text.as_slice());
    let mut rows: Vec<WifiRow> = Vec::new();
    let mut i: usize = 0;
    assert(rows_view(rows@) =~= Seq::<RowView>::empty());
    while i < ls.len()
        invariant
            i <= ls@.len(),
            views(ls@) == lines(output@),
            kv == string_views(known@),
            rows_view(rows@) == merged(sightings(views(ls@).take(i as int), kv)),
        decreases ls@.len() - i,
    {
        let ghost before = sightings(views(ls@).take(i as int), kv);
        proof {
            let t = views(ls@).take(i + 1);
            assert(t.drop_last() =~= views(ls@).take(i as int));
            assert(t.last() == ls@[i as int]@);
        }
        match sighting_row(ls[i].as_slice(), known) {
            Some(row) => {
                proof {
                    let all = sightings(views(ls@).take(i + 1), kv);
                    assert(all =~= before.push(row@));
                    assert(all.drop_last() =~= before);
                }
                absorb_row(&mut rows, row);
            },
            None => {
                proof {
                    let all = sightings(views(ls@).take(i + 1), kv);
                    assert(all =~= before);
                }
            },
        }
        i = i + 1;
    }
    assert(views(ls@).take(ls@.len() as int) =~= views(ls@));
    rank_rows(rows)
}

// ---------------------------------------------------------------------------
// What the network list promises
// ---------------------------------------------------------------------------

/// No two rows name the same network.
pub open spec fn distinct_ssids(rows: Seq<RowView>) -> bool {
    forall|i: int, j: int|
        #![trigger rows[i], rows[j]]
        0 <= i < rows.len() && 0 <= j < rows.len() && i != j ==> rows[i].ssid != rows[j].ssid
}

/// No row is listed after a row it ranks before.
pub open spec fn in_display_order(rows: Seq<RowView>) -> bool {
    forall|i: int, j: int|
        #![trigger rows[i], rows[j]]
        0 <= i < j < rows.len() ==> !ranks_before(rows[j], rows[i])
}

/// Some row is for `ssid`.
pub open spec fn has_row(rows: Seq<RowView>, ssid: Seq<char>) -> bool {
    exists|i: int| #![trigger rows[i]] 0 <= i < rows.len() && rows[i].ssid == ssid
}

/// Some sighting of `ssid` reported `signal`.
pub open spec fn sighted_at(seen: Seq<RowView>, ssid: Seq<char>, signal: i32) -> bool {
    exists|k: int| #![trigger seen[k]] 0 <= k < seen.len() && seen[k].ssid == ssid && seen[k].signal == signal
}

/// Some sighting of `ssid` is the connected one.
pub open spec fn sighted_connected(seen: Seq<RowView>, ssid: Seq<char>) -> bool {
    exists|k: int| #![trigger seen[k]] 0 <= k < seen.len() && seen[k].ssid == ssid && seen[k].connected
}

/// Every sighted SSID has a row.
pub open spec fn covers(rows: Seq<RowView>, seen: Seq<RowView>) -> bool {
    forall|k: int| #![trigger seen[k]] 0 <= k < seen.len() ==> has_row(rows, seen[k].ssid)
}

/// Each row's signal is one that a sighting of its SSID reported.
pub open spec fn witnessed(rows: Seq<RowView>, seen: Seq<RowView>) -> bool {
    forall|i: int| #![trigger rows[i]] 0 <= i < rows.len() ==> sighted_at(seen, rows[i].ssid, rows[i].signal)
}

/// No sighting of a row's SSID reported a stronger signal than the row shows.
pub open spec fn strongest(rows: Seq<RowView>, seen: Seq<RowView>) -> bool {
    forall|i: int, k: int|
        #![trigger rows[i], seen[k]]
        0 <= i < rows.len() && 0 <= k < seen.len() && seen[k].ssid == rows[i].ssid
            ==> seen[k].signal <= rows[i].signal
}

/// A row is connected exactly when some sighting of its SSID is.
pub open spec fn connected_iff_sighted(rows: Seq<RowView>, seen: Seq<RowView>) -> bool {
    forall|i: int| #![trigger rows[i]] 0 <= i < rows.len() ==> (rows[i].connected <==> sighted_connected(seen, rows[i].ssid))
}

/// What the list claims of the sightings it was built from: every sighted
/// SSID has a row, and each row carries the strongest signal reported for
/// it and is connected exactly when some sighting of it is.
pub open spec fn summarizes(rows: Seq<RowView>, seen: Seq<RowView>) -> bool {
    &&& covers(rows, seen)
    &&& witnessed(rows, seen)
    &&& strongest(rows, seen)
    &&& connected_iff_sighted(rows, seen)
}

proof fn lemma_position_of(rows: Seq<RowView>, ssid: Seq<char>)
    ensures
        position_of(rows, ssid) < 0 <==> !has_row(rows, ssid),
        position_of(rows, ssid) >= 0 ==> {
            let p = position_of(rows, ssid);
            &&& p < rows.len()
            &&& rows[p].ssid == ssid
        },
        position_of(rows, ssid) >= -1,
    decreases rows.len(),
{
    if rows.len() > 0 && rows[0].ssid != ssid {
        lemma_position_of(rows.drop_first(), ssid);
        if position_of(rows, ssid) < 0 {
            assert forall|j: int| 0 <= j < rows.len() implies #[trigger] rows[j].ssid != ssid by {
                if j > 0 {
                    assert(rows[j] == rows.drop_first()[j - 1]);
                }
            }
        } else {
            let q = position_of(rows.drop_first(), ssid);
            assert(rows.drop_first()[q].ssid == ssid);
        }
    } else if rows.len() > 0 {
        assert(rows[0].ssid == ssid);
    }
}

/// The facts shared by both ways of folding in one more sighting `r`.
pub open spec fn fold_step(m: Seq<RowView>, prev: Seq<RowView>, seen: Seq<RowView>, r: RowView) -> bool {
    &&& seen == prev.push(r)
    &&& distinct_ssids(m)
    &&& summarizes(m, prev)
}

proof fn lemma_new_row(out: Seq<RowView>, m: Seq<RowView>, prev: Seq<RowView>, seen: Seq<RowView>, r: RowView)
    requires
        fold_step(m, prev, seen, r),
        out == m.push(r),
        !has_row(m, r.ssid),
    ensures
        covers(out, seen),
        distinct_ssids(out),
{
    assert forall|k: int| #![trigger seen[k]] 0 <= k < seen.len() implies has_row(out, seen[k].ssid) by {
        if k < prev.len() {
            assert(prev[k] == seen[k]);
            assert(has_row(m, prev[k].ssid));
            let i = choose|i: int| #![trigger m[i]] 0 <= i < m.len() && m[i].ssid == prev[k].ssid;
            assert(out[i] == m[i]);
        } else {
            assert(out[m.len() as int] == seen[k]);
        }
    }
    assert forall|a: int, b: int|
        #![trigger out[a], out[b]]
        0 <= a < out.len() && 0 <= b < out.len() && a != b implies out[a].ssid != out[b].ssid by {
        if a < m.len() {
            assert(out[a] == m[a]);
        }
        if b < m.len() {
            assert(out[b] == m[b]);
        }
    }
}

proof fn lemma_new_row_signal(out: Seq<RowView>, m: Seq<RowView>, prev: Seq<RowView>, seen: Seq<RowView>, r: RowView)
    requires
        fold_step(m, prev, seen, r),
        out == m.push(r),
        !has_row(m, r.ssid),
    ensures
        witnessed(out, seen),
        strongest(out, seen),
{
    assert forall|i: int| #![trigger out[i]] 0 <= i < out.len() implies sighted_at(seen, out[i].ssid, out[i].signal) by {
        if i < m.len() {
            assert(out[i] == m[i]);
            assert(sighted_at(prev, m[i].ssid, m[i].signal));
            let k = choose|k: int| #![trigger prev[k]] 0 <= k < prev.len() && prev[k].ssid == m[i].ssid && prev[k].signal == m[i].signal;
            assert(seen[k] == prev[k]);
        } else {
            assert(seen[prev.len() as int] == out[i]);
        }
    }
    assert forall|i: int, k: int|
        #![trigger out[i], seen[k]]
        0 <= i < out.len() && 0 <= k < seen.len() && seen[k].ssid == out[i].ssid
            implies seen[k].signal <= out[i].signal by {
        if k < prev.len() {
            assert(seen[k] == prev[k]);
            assert(has_row(m, prev[k].ssid));
            if i < m.len() {
                assert(out[i] == m[i]);
            }
        } else if i < m.len() {
            assert(out[i] == m[i]);
            assert(seen[k] == r);
        }
    }
}

proof fn lemma_new_row_connected(out: Seq<RowView>, m: Seq<RowView>, prev: Seq<RowView>, seen: Seq<RowView>, r: RowView)
    requires
        fold_step(m, prev, seen, r),
        out == m.push(r),
        !has_row(m, r.ssid),
    ensures
        connected_iff_sighted(out, seen),
{
    assert forall|i: int| #![trigger out[i]] 0 <= i < out.len() implies (out[i].connected <==> sighted_connected(seen, out[i].ssid)) by {
        if i < m.len() {
            assert(out[i] == m[i]);
            if m[i].connected {
                let k = choose|k: int| #![trigger prev[k]] 0 <= k < prev.len() && prev[k].ssid == m[i].ssid && prev[k].connected;
                assert(seen[k] == prev[k]);
            }
            if sighted_connected(seen, out[i].ssid) {
                let k = choose|k: int| #![trigger seen[k]] 0 <= k < seen.len() && seen[k].ssid == out[i].ssid && seen[k].connected;
                if k == prev.len() {
                    assert(seen[k] == r);
                } else {
                    assert(prev[k] == seen[k]);
                }
            }
        } else {
            assert(out[i] == r);
            assert(seen[prev.len() as int] == r);
            if sighted_connected(seen, out[i].ssid) {
                let k = choose|k: int| #![trigger seen[k]] 0 <= k < seen.len() && seen[k].ssid == out[i].ssid && seen[k].connected;
                if k < prev.len() {
                    assert(prev[k] == seen[k]);
                    assert(has_row(m, prev[k].ssid));
                }
            }
        }
    }
}

/// The row that a repeated sighting `r` turns `old` into.
pub open spec fn refreshed(old: RowView, r: RowView) -> RowView {
    RowView {
        connected: old.connected || r.connected,
        signal: if old.signal >= r.signal {
            old.signal
        } else {
            r.signal
        },
        ..old
    }
}

proof fn lemma_refresh(out: Seq<RowView>, m: Seq<RowView>, prev: Seq<RowView>, seen: Seq<RowView>, r: RowView, p: int)
    requires
        fold_step(m, prev, seen, r),
        0 <= p < m.len(),
        m[p].ssid == r.ssid,
        out == m.update(p, refreshed(m[p], r)),
    ensures
        covers(out, seen),
        distinct_ssids(out),
{
    assert forall|k: int| #![trigger seen[k]] 0 <= k < seen.len() implies has_row(out, seen[k].ssid) by {
        if k < prev.len() {
            assert(prev[k] == seen[k]);
            assert(has_row(m, prev[k].ssid));
            let i = choose|i: int| #![trigger m[i]] 0 <= i < m.len() && m[i].ssid == prev[k].ssid;
            assert(out[i].ssid == m[i].ssid);
        } else {
            assert(seen[k] == r);
            assert(out[p].ssid == seen[k].ssid);
        }
    }
    assert forall|a: int, b: int|
        #![trigger out[a], out[b]]
        0 <= a < out.len() && 0 <= b < out.len() && a != b implies out[a].ssid != out[b].ssid by {
        assert(out[a].ssid == m[a].ssid && out[b].ssid == m[b].ssid);
    }
}

proof fn lemma_refresh_signal(out: Seq<RowView>, m: Seq<RowView>, prev: Seq<RowView>, seen: Seq<RowView>, r: RowView, p: int)
    requires
        fold_step(m, prev, seen, r),
        0 <= p < m.len(),
        m[p].ssid == r.ssid,
        out == m.update(p, refreshed(m[p], r)),
    ensures
        witnessed(out, seen),
        strongest(out, seen),
{
    assert forall|i: int| #![trigger out[i]] 0 <= i < out.len() implies sighted_at(seen, out[i].ssid, out[i].signal) by {
        if i != p || m[p].signal >= r.signal {
            assert(sighted_at(prev, m[i].ssid, m[i].signal));
            let k = choose|k: int| #![trigger prev[k]] 0 <= k < prev.len() && prev[k].ssid == m[i].ssid && prev[k].signal == m[i].signal;
            assert(seen[k] == prev[k]);
        } else {
            assert(seen[prev.len() as int] == r);
        }
    }
    assert forall|i: int, k: int|
        #![trigger out[i], seen[k]]
        0 <= i < out.len() && 0 <= k < seen.len() && seen[k].ssid == out[i].ssid
            implies seen[k].signal <= out[i].signal by {
        if k < prev.len() {
            assert(seen[k] == prev[k]);
            assert(prev[k].signal <= m[i].signal);
        } else {
            assert(seen[k] == r);
            if i != p {
                assert(m[i].ssid != m[p].ssid);
            }
        }
    }
}

proof fn lemma_refresh_connected(out: Seq<RowView>, m: Seq<RowView>, prev: Seq<RowView>, seen: Seq<RowView>, r: RowView, p: int)
    requires
        fold_step(m, prev, seen, r),
        0 <= p < m.len(),
        m[p].ssid == r.ssid,
        out == m.update(p, refreshed(m[p], r)),
    ensures
        connected_iff_sighted(out, seen),
{
    assert forall|i: int| #![trigger out[i]] 0 <= i < out.len() implies (out[i].connected <==> sighted_connected(seen, out[i].ssid)) by {
        if m[i].connected {
            let k = choose|k: int| #![trigger prev[k]] 0 <= k < prev.len() && prev[k].ssid == m[i].ssid && prev[k].connected;
            assert(seen[k] == prev[k]);
        }
        if i == p && r.connected {
            assert(seen[prev.len() as int] == r);
        }
        if sighted_connected(seen, out[i].ssid) {
            let k = choose|k: int| #![trigger seen[k]] 0 <= k < seen.len() && seen[k].ssid == out[i].ssid && seen[k].connected;
            if k < prev.len() {
                assert(prev[k] == seen[k]);
            } else {
                assert(seen[k] == r);
                if i != p {
                    assert(m[i].ssid != m[p].ssid);
                }
            }
        }
    }
}

proof fn lemma_merged(seen: Seq<RowView>)
    ensures
        distinct_ssids(merged(seen)),
        summarizes(merged(seen), seen),
    decreases seen.len(),
{
    if seen.len() == 0 {
        assert(merged(seen) =~= Seq::<RowView>::empty());
    } else {
        let prev = seen.drop_last();
        let m = merged(prev);
        let r = seen.last();
        lemma_merged(prev);
        lemma_position_of(m, r.ssid);
        let p = position_of(m, r.ssid);
        let out = merged(seen);
        assert(seen =~= prev.push(r));
        assert(fold_step(m, prev, seen, r));
        if p < 0 {
            assert(out == m.push(r));
            lemma_new_row(out, m, prev, seen, r);
            lemma_new_row_signal(out, m, prev, seen, r);
            lemma_new_row_connected(out, m, prev, seen, r);
        } else {
            assert(out == m.update(p, refreshed(m[p], r)));
            lemma_refresh(out, m, prev, seen, r, p);
            lemma_refresh_signal(out, m, prev, seen, r, p);
            lemma_refresh_connected(out, m, prev, seen, r, p);
        }
    }
}

proof fn lemma_insertion_point_props(s: Seq<RowView>, r: RowView)
    ensures
        0 <= insertion_point(s, r) <= s.len(),
        forall|j: int| 0 <= j < insertion_point(s, r) ==> !ranks_before(r, #[trigger] s[j]),
        insertion_point(s, r) < s.len() ==> ranks_before(r, s[insertion_point(s, r)]),
    decreases s.len(),
{
    if s.len() > 0 && !ranks_before(r, s[0]) {
        lemma_insertion_point_props(s.drop_first(), r);
        assert forall|j: int| 0 <= j < insertion_point(s, r) implies !ranks_before(
            r,
            #[trigger] s[j],
        ) by {
            if j > 0 {
                assert(s[j] == s.drop_first()[j - 1]);
            }
        }
    }
}

/// `t` holds the same rows as `s`, in some order.
pub open spec fn same_rows(t: Seq<RowView>, s: Seq<RowView>) -> bool {
    &&& t.len() == s.len()
    &&& forall|i: int| #![trigger s[i]] 0 <= i < s.len() ==> t.contains(s[i])
    &&& forall|j: int| #![trigger t[j]] 0 <= j < t.len() ==> s.contains(t[j])
}

proof fn lemma_insert_order(s: Seq<RowView>, r: RowView, p: int)
    requires
        in_display_order(s),
        0 <= p <= s.len(),
        forall|j: int| 0 <= j < p ==> !ranks_before(r, #[trigger] s[j]),
        p < s.len() ==> ranks_before(r, s[p]),
    ensures
        in_display_order(s.insert(p, r)),
{
    let t = s.insert(p, r);
    assert forall|a: int, b: int| #![trigger t[a], t[b]] 0 <= a < b < t.len() implies !ranks_before(t[b], t[a]) by {
        if a == p {
            assert(t[b] == s[b - 1]);
            if b - 1 > p {
                assert(!ranks_before(s[b - 1], s[p]));
            }
        } else if b == p {
            assert(t[a] == s[a]);
        } else if b < p {
            assert(t[a] == s[a] && t[b] == s[b]);
        } else if a > p {
            assert(t[a] == s[a - 1] && t[b] == s[b - 1]);
        } else {
            assert(t[a] == s[a] && t[b] == s[b - 1]);
        }
    }
}

proof fn lemma_insert_same(s: Seq<RowView>, prev: Seq<RowView>, r: RowView, p: int)
    requires
        same_rows(s, prev),
        0 <= p <= s.len(),
    ensures
        same_rows(s.insert(p, r), prev.push(r)),
{
    let t = s.insert(p, r);
    let rows = prev.push(r);
    assert forall|i: int| #![trigger rows[i]] 0 <= i < rows.len() implies t.contains(rows[i]) by {
        if i == prev.len() {
            assert(t[p] == rows[i]);
        } else {
            assert(prev[i] == rows[i]);
            assert(s.contains(prev[i]));
            let q = choose|q: int| 0 <= q < s.len() && s[q] == prev[i];
            if q < p {
                assert(t[q] == rows[i]);
            } else {
                assert(t[q + 1] == rows[i]);
            }
        }
    }
    assert forall|j: int| #![trigger t[j]] 0 <= j < t.len() implies rows.contains(t[j]) by {
        if j == p {
            assert(t[j] == rows[prev.len() as int]);
        } else {
            let q = if j < p { j } else { j - 1 };
            assert(t[j] == s[q]);
            assert(prev.contains(s[q]));
            let i = choose|i: int| 0 <= i < prev.len() && prev[i] == s[q];
            assert(rows[i] == prev[i]);
        }
    }
}

proof fn lemma_insert_distinct(s: Seq<RowView>, r: RowView, p: int)
    requires
        distinct_ssids(s),
        0 <= p <= s.len(),
        !has_row(s, r.ssid),
    ensures
        distinct_ssids(s.insert(p, r)),
{
    let t = s.insert(p, r);
    assert forall|a: int, b: int|
        #![trigger t[a], t[b]]
        0 <= a < t.len() && 0 <= b < t.len() && a != b implies t[a].ssid != t[b].ssid by {
        let qa = if a < p { a } else { a - 1 };
        let qb = if b < p { b } else { b - 1 };
        if a != p {
            assert(t[a] == s[qa]);
        }
        if b != p {
            assert(t[b] == s[qb]);
        }
    }
}

proof fn lemma_ranked(rows: Seq<RowView>)
    requires
        distinct_ssids(rows),
    ensures
        same_rows(ranked(rows), rows),
        distinct_ssids(ranked(rows)),
        in_display_order(ranked(rows)),
    decreases rows.len(),
{
    if rows.len() == 0 {
        assert(ranked(rows) =~= Seq::<RowView>::empty());
    } else {
        let prev = rows.drop_last();
        let r = rows.last();
        assert(rows =~= prev.push(r));
        assert forall|i: int, j: int|
            #![trigger prev[i], prev[j]]
            0 <= i < prev.len() && 0 <= j < prev.len() && i != j implies prev[i].ssid != prev[j].ssid by {
            assert(prev[i] == rows[i] && prev[j] == rows[j]);
        }
        lemma_ranked(prev);
        let s = ranked(prev);
        lemma_insertion_point_props(s, r);
        let p = insertion_point(s, r);
        assert forall|q: int| #![trigger s[q]] 0 <= q < s.len() implies s[q].ssid != r.ssid by {
            assert(prev.contains(s[q]));
            let i = choose|i: int| 0 <= i < prev.len() && prev[i] == s[q];
            assert(rows[i] == prev[i]);
            assert(rows[prev.len() as int] == r);
        }
        lemma_insert_same(s, prev, r, p);
        lemma_insert_distinct(s, r, p);
        lemma_insert_order(s, r, p);
        assert(ranked(rows) == s.insert(p, r));
    }
}

proof fn lemma_same_rows_keep(t: Seq<RowView>, m: Seq<RowView>, seen: Seq<RowView>)
    requires
        same_rows(t, m),
        summarizes(m, seen),
    ensures
        summarizes(t, seen),
{
    assert forall|k: int| #![trigger seen[k]] 0 <= k < seen.len() implies has_row(t, seen[k].ssid) by {
        assert(has_row(m, seen[k].ssid));
        let i = choose|i: int| #![trigger m[i]] 0 <= i < m.len() && m[i].ssid == seen[k].ssid;
        assert(t.contains(m[i]));
        let j = choose|j: int| 0 <= j < t.len() && t[j] == m[i];
        assert(t[j].ssid == seen[k].ssid);
    }
    assert forall|j: int| #![trigger t[j]] 0 <= j < t.len() implies sighted_at(seen, t[j].ssid, t[j].signal)
        && (t[j].connected <==> sighted_connected(seen, t[j].ssid)) by {
        assert(m.contains(t[j]));
        let i = choose|i: int| 0 <= i < m.len() && m[i] == t[j];
        assert(sighted_at(seen, m[i].ssid, m[i].signal));
    }
    assert forall|j: int, k: int|
        #![trigger t[j], seen[k]]
        0 <= j < t.len() && 0 <= k < seen.len() && seen[k].ssid == t[j].ssid
            implies seen[k].signal <= t[j].signal by {
        assert(m.contains(t[j]));
        let i = choose|i: int| 0 <= i < m.len() && m[i] == t[j];
        assert(seen[k].ssid == m[i].ssid);
    }
}

/// Rows that tie (neither ranks before the other) keep the order they
/// had in `listed`.
pub open spec fn keeps_ties_in_order(rows: Seq<RowView>, listed: Seq<RowView>) -> bool {
    forall|i: int, j: int|
        #![trigger rows[i], rows[j]]
        0 <= i < j < rows.len() && !ranks_before(rows[i], rows[j]) ==> position_of(listed, rows[i].ssid)
            < position_of(listed, rows[j].ssid)
}

/// In a list without repeated SSIDs, a row's SSID is found at the row.
proof fn lemma_position_distinct(rows: Seq<RowView>, q: int)
    requires
        distinct_ssids(rows),
        0 <= q < rows.len(),
    ensures
        position_of(rows, rows[q].ssid) == q,
{
    assert forall|j: int| 0 <= j < q implies (#[trigger] rows[j]).ssid != rows[q].ssid by {
        assert(rows[j].ssid != rows[q].ssid);
    }
    lemma_position(rows, rows[q].ssid, q);
}

/// `ranks_before` orders by a key, so a row ranked before `a` is ranked
/// before anything `a` is not ranked after.
proof fn lemma_ranks_before_key(x: RowView, a: RowView, b: RowView)
    requires
        ranks_before(x, a),
        !ranks_before(b, a),
    ensures
        ranks_before(x, b),
{
}

/// Sorting changes the order of the rows and nothing else.
proof fn lemma_ranked_multiset(rows: Seq<RowView>)
    ensures
        ranked(rows).to_multiset() == rows.to_multiset(),
    decreases rows.len(),
{
    if rows.len() > 0 {
        let prev = rows.drop_last();
        let r = rows.last();
        lemma_ranked_multiset(prev);
        let s = ranked(prev);
        lemma_insertion_point_props(s, r);
        vstd::seq_lib::to_multiset_insert(s, insertion_point(s, r), r);
        vstd::seq_lib::to_multiset_build(prev, r);
        assert(rows =~= prev.push(r));
        assert(ranked(rows) == s.insert(insertion_point(s, r), r));
        assert(ranked(rows).to_multiset() == prev.push(r).to_multiset());
    } else {
        assert(ranked(rows) =~= rows);
    }
}

/// The sort is stable.
proof fn lemma_ranked_stable(rows: Seq<RowView>)
    requires
        distinct_ssids(rows),
    ensures
        keeps_ties_in_order(ranked(rows), rows),
    decreases rows.len(),
{
    if rows.len() > 0 {
        let prev = rows.drop_last();
        let r = rows.last();
        assert(rows =~= prev.push(r));
        assert forall|i: int, j: int|
            #![trigger prev[i], prev[j]]
            0 <= i < prev.len() && 0 <= j < prev.len() && i != j implies prev[i].ssid != prev[j].ssid by {
            assert(prev[i] == rows[i] && prev[j] == rows[j]);
        }
        lemma_ranked_stable(prev);
        lemma_ranked(prev);
        let s = ranked(prev);
        lemma_insertion_point_props(s, r);
        let p = insertion_point(s, r);
        let t = s.insert(p, r);
        assert(ranked(rows) == t);
        lemma_position_distinct(rows, prev.len() as int);
        assert forall|i: int, j: int|
            #![trigger t[i], t[j]]
            0 <= i < j < t.len() && !ranks_before(t[i], t[j]) implies position_of(rows, t[i].ssid)
                < position_of(rows, t[j].ssid) by {
            // Where a row of `s` stands in `prev`, and so in `rows`.
            assert forall|k: int| 0 <= k < s.len() implies position_of(rows, (#[trigger] s[k]).ssid)
                == position_of(prev, s[k].ssid) && position_of(prev, s[k].ssid) < prev.len() by {
                assert(prev.contains(s[k]));
                let q = choose|q: int| 0 <= q < prev.len() && prev[q] == s[k];
                lemma_position_distinct(prev, q);
                assert(rows[q] == prev[q]);
                lemma_position_distinct(rows, q);
            }
            if i == p {
                assert(t[j] == s[j - 1]);
                if j - 1 > p {
                    assert(!ranks_before(s[j - 1], s[p]));
                    lemma_ranks_before_key(r, s[p], s[j - 1]);
                }
                assert(false);
            } else if j == p {
                assert(t[i] == s[i]);
                assert(rows[prev.len() as int] == r);
            } else {
                let i2 = if i < p { i } else { i - 1 };
                let j2 = if j < p { j } else { j - 1 };
                assert(t[i] == s[i2]);
                assert(t[j] == s[j2]);
                assert(i2 < j2);
            }
        }
    }
}

/// Each row keeps the security and the saved flag of the first sighting of
/// its SSID.
pub open spec fn keeps_first_sighting(rows: Seq<RowView>, seen: Seq<RowView>) -> bool {
    forall|i: int|
        #![trigger rows[i]]
        0 <= i < rows.len() ==> {
            let k = position_of(seen, rows[i].ssid);
            &&& 0 <= k < seen.len()
            &&& rows[i].security == seen[k].security
            &&& rows[i].known == seen[k].known
        }
}

/// No row before the first position of `ssid` is for it.
proof fn lemma_position_first(rows: Seq<RowView>, ssid: Seq<char>)
    requires
        position_of(rows, ssid) >= 0,
    ensures
        forall|j: int| 0 <= j < position_of(rows, ssid) ==> (#[trigger] rows[j]).ssid != ssid,
    decreases rows.len(),
{
    lemma_position_of(rows, ssid);
    if rows[0].ssid != ssid {
        lemma_position_first(rows.drop_first(), ssid);
        assert forall|j: int| 0 <= j < position_of(rows, ssid) implies (#[trigger] rows[j]).ssid != ssid by {
            if j > 0 {
                assert(rows[j] == rows.drop_first()[j - 1]);
            }
        }
    }
}

/// Appending a row finds an SSID where it was found before, else at the
/// new row.
proof fn lemma_position_push(s: Seq<RowView>, r: RowView, x: Seq<char>)
    ensures
        position_of(s.push(r), x) == if position_of(s, x) >= 0 {
            position_of(s, x)
        } else if r.ssid == x {
            s.len() as int
        } else {
            -1
        },
{
    let t = s.push(r);
    lemma_position_of(s, x);
    let p = position_of(s, x);
    if p >= 0 {
        lemma_position_first(s, x);
        assert forall|j: int| 0 <= j < p implies (#[trigger] t[j]).ssid != x by {
            assert(t[j] == s[j]);
        }
        assert(t[p] == s[p]);
        lemma_position(t, x, p);
    } else {
        assert forall|j: int| 0 <= j < s.len() implies (#[trigger] t[j]).ssid != x by {
            assert(t[j] == s[j]);
            if s[j].ssid == x {
                assert(has_row(s, x));
            }
        }
        if r.ssid == x {
            lemma_position(t, x, s.len() as int);
        } else {
            assert forall|j: int| 0 <= j < t.len() implies (#[trigger] t[j]).ssid != x by {
                if j < s.len() {
                    assert(t[j] == s[j]);
                }
            }
            lemma_position(t, x, t.len() as int);
        }
    }
}

proof fn lemma_first_new(out: Seq<RowView>, m: Seq<RowView>, prev: Seq<RowView>, r: RowView)
    requires
        keeps_first_sighting(m, prev),
        position_of(prev, r.ssid) < 0,
        out == m.push(r),
    ensures
        keeps_first_sighting(out, prev.push(r)),
{
    let seen = prev.push(r);
    assert forall|i: int| #![trigger out[i]] 0 <= i < out.len() implies {
        let k = position_of(seen, out[i].ssid);
        &&& 0 <= k < seen.len()
        &&& out[i].security == seen[k].security
        &&& out[i].known == seen[k].known
    } by {
        lemma_position_push(prev, r, out[i].ssid);
        if i < m.len() {
            assert(out[i] == m[i]);
            let k = position_of(prev, m[i].ssid);
            assert(seen[k] == prev[k]);
        } else {
            assert(out[i] == r);
            assert(seen[prev.len() as int] == r);
        }
    }
}

proof fn lemma_first_refresh(out: Seq<RowView>, m: Seq<RowView>, prev: Seq<RowView>, r: RowView, p: int)
    requires
        keeps_first_sighting(m, prev),
        0 <= p < m.len(),
        out == m.update(p, refreshed(m[p], r)),
    ensures
        keeps_first_sighting(out, prev.push(r)),
{
    let seen = prev.push(r);
    assert forall|i: int| #![trigger out[i]] 0 <= i < out.len() implies {
        let k = position_of(seen, out[i].ssid);
        &&& 0 <= k < seen.len()
        &&& out[i].security == seen[k].security
        &&& out[i].known == seen[k].known
    } by {
        assert(out[i].ssid == m[i].ssid && out[i].security == m[i].security && out[i].known
            == m[i].known);
        lemma_position_push(prev, r, m[i].ssid);
        let k = position_of(prev, m[i].ssid);
        assert(seen[k] == prev[k]);
    }
}

proof fn lemma_merged_first(seen: Seq<RowView>)
    ensures
        keeps_first_sighting(merged(seen), seen),
    decreases seen.len(),
{
    if seen.len() == 0 {
        assert(merged(seen) =~= Seq::<RowView>::empty());
    } else {
        let prev = seen.drop_last();
        let m = merged(prev);
        let r = seen.last();
        lemma_merged_first(prev);
        lemma_position_of(m, r.ssid);
        let p = position_of(m, r.ssid);
        assert(seen =~= prev.push(r));
        if p < 0 {
            assert(position_of(prev, r.ssid) < 0) by {
                lemma_merged(prev);
                lemma_position_of(prev, r.ssid);
                if has_row(prev, r.ssid) {
                    let k = choose|k: int| #![trigger prev[k]] 0 <= k < prev.len() && prev[k].ssid == r.ssid;
                    assert(has_row(m, prev[k].ssid));
                }
            }
            lemma_first_new(merged(seen), m, prev, r);
        } else {
            lemma_first_refresh(merged(seen), m, prev, r, p);
        }
    }
}

proof fn lemma_same_rows_first(t: Seq<RowView>, m: Seq<RowView>, seen: Seq<RowView>)
    requires
        same_rows(t, m),
        keeps_first_sighting(m, seen),
    ensures
        keeps_first_sighting(t, seen),
{
    assert forall|j: int| #![trigger t[j]] 0 <= j < t.len() implies {
        let k = position_of(seen, t[j].ssid);
        &&& 0 <= k < seen.len()
        &&& t[j].security == seen[k].security
        &&& t[j].known == seen[k].known
    } by {
        assert(m.contains(t[j]));
        let i = choose|i: int| 0 <= i < m.len() && m[i] == t[j];
        assert(m[i] == t[j]);
    }
}

/// The network list has one row per SSID; every SSID a scan line names has
/// its row; each row carries the strongest signal any sighting of it
/// reported and is connected when any sighting of it is; the rows come
/// connected first, then saved, then by signal; and sorting only reorders
/// the merged rows, keeping the listing's order among rows that tie; each
/// row keeps the security and saved flag of its SSID's first sighting.
pub proof fn law_scan_rows(output: Seq<char>, known: Seq<Seq<char>>)
    ensures
        keeps_first_sighting(scan_rows(output, known), sightings(lines(output), known)),
        distinct_ssids(scan_rows(output, known)),
        summarizes(scan_rows(output, known), sightings(lines(output), known)),
        in_display_order(scan_rows(output, known)),
        scan_rows(output, known).to_multiset() == merged(sightings(lines(output), known)).to_multiset(),
        keeps_ties_in_order(scan_rows(output, known), merged(sightings(lines(output), known))),
{
    let seen = sightings(lines(output), known);
    let m = merged(seen);
    lemma_merged(seen);
    lemma_ranked(m);
    lemma_ranked_multiset(m);
    lemma_ranked_stable(m);
    lemma_same_rows_keep(ranked(m), m, seen);
    lemma_merged_first(seen);
    lemma_same_rows_first(ranked(m), m, seen);
}

} // verus!
