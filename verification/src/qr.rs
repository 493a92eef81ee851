//! The `WIFI:` payload a phone camera understands, built from the saved
//! profile of the active connection.

use vstd::prelude::*;
use crate::text::{chars_of, is, lines, push_lit, split_lines, string_from_chars, trim, trim_chars};

verus! {

/// The characters that the Wi-Fi QR format escapes with a backslash.
pub open spec fn qr_special(c: char) -> bool {
    c == '\\' || c == ';' || c == ',' || c == ':' || c == '"'
}

/// A value with each special character preceded by a backslash.
pub open spec fn qr_escape(v: Seq<char>) -> Seq<char>
    decreases v.len(),
{
    if v.len() == 0 {
        seq![]
    } else {
        qr_escape(v.drop_last()) + if qr_special(v.last()) {
            seq!['\\', v.last()]
        } else {
            seq![v.last()]
        }
    }
}

/// How a reader of the QR format recovers a value: a backslash takes the
/// character after it literally.
pub open spec fn qr_unescape(s: Seq<char>) -> Seq<char>
    decreases s.len(),
{
    if s.len() == 0 {
        seq![]
    } else if s[0] == '\\' && s.len() >= 2 {
        seq![s[1]] + qr_unescape(s.skip(2))
    } else {
        seq![s[0]] + qr_unescape(s.skip(1))
    }
}

proof fn lemma_escape_concat(a: Seq<char>, b: Seq<char>)
    ensures
        qr_escape(a + b) == qr_escape(a) + qr_escape(b),
    decreases b.len(),
{
    if b.len() == 0 {
        assert(a + b =~= a);
        assert(qr_escape(a) + qr_escape(b) =~= qr_escape(a));
    } else {
        lemma_escape_concat(a, b.drop_last());
        assert((a + b).drop_last() =~= a + b.drop_last());
        assert((a + b).last() == b.last());
        let tail = if qr_special(b.last()) {
            seq!['\\', b.last()]
        } else {
            seq![b.last()]
        };
        assert(qr_escape(a) + qr_escape(b.drop_last()) + tail =~= qr_escape(a) + (qr_escape(
            b.drop_last(),
        ) + tail));
    }
}

/// Escaping loses nothing: a reader that unescapes a field of the payload
/// gets back exactly the SSID or passphrase that was escaped, so names and
/// keys with `;`, `,`, `:`, `"` or `\` survive the trip.
pub proof fn law_qr_escape_round_trip(v: Seq<char>)
    ensures
        qr_unescape(qr_escape(v)) == v,
    decreases v.len(),
{
    if v.len() > 0 {
        let head = seq![v[0]];
        let rest = v.skip(1);
        assert(v =~= head + rest);
        lemma_escape_concat(head, rest);
        law_qr_escape_round_trip(rest);
        assert(head.drop_last() =~= Seq::<char>::empty());
        assert(qr_escape(head.drop_last()) == Seq::<char>::empty());
        assert(head.last() == v[0]);
        let e = qr_escape(head) + qr_escape(rest);
        if qr_special(v[0]) {
            assert(qr_escape(head) =~= seq!['\\', v[0]]);
            assert(e.skip(2) =~= qr_escape(rest));
        } else {
            assert(qr_escape(head) =~= seq![v[0]]);
            assert(e.skip(1) =~= qr_escape(rest));
        }
        assert(seq![v[0]] + rest =~= v);
    }
}

/// Appends `v` escaped for the QR format.
fn push_escaped(r: &mut Vec<char>, v: &[char])
    ensures
        final(r)@ == old(r)@ + qr_escape(v@),
{
    let ghost start = r@;
    let mut i: usize = 0;
    assert(v@.take(0) =~= Seq::<char>::empty());
    while i < v.len()
        invariant
            i <= v@.len(),
            r@ == start + qr_escape(v@.take(i as int)),
        decreases v@.len() - i,
    {
        let c = v[i];
        if c == '\\' || c == ';' || c == ',' || c == ':' || c == '"' {
            r.push('\\');
        }
        r.push(c);
        proof {
            let t = v@.take(i + 1);
            assert(t.drop_last() =~= v@.take(i as int));
            assert(t.last() == c);
        }
        i = i + 1;
        assert(r@ =~= start + qr_escape(v@.take(i as int)));
    }
    assert(v@.take(v@.len() as int) =~= v@);
}

/// The connection UUID from the output of
/// `nmcli --get-values GENERAL.CON-UUID device show <iface>`: its first line,
/// trimmed, when that is not empty.
pub open spec fn uuid_of(output: Seq<char>) -> Option<Seq<char>> {
    let ls = lines(output);
    if ls.len() == 0 || trim(ls[0]).len() == 0 {
        None
    } else {
        Some(trim(ls[0]))
    }
}

pub fn qr_uuid(output: &str) -> (r: Option<String>)
    ensures
        match r {
            Some(u) => uuid_of(output@) == Some(u@),
            None => uuid_of(output@) is None,
        },
{
    let c = chars_of(output);
    let ls = split_lines(c.as_slice());
    if ls.len() == 0 {
        return None;
    }
    assert(crate::text::views(ls@)[0] == ls@[0]@);
    let u = trim_chars(ls[0].as_slice());
    if u.len() == 0 {
        None
    } else {
        Some(string_from_chars(u.as_slice()))
    }
}

/// Line `i`, trimmed, or "" past the end.
pub open spec fn line_or_empty(ls: Seq<Seq<char>>, i: int) -> Seq<char> {
    if i < ls.len() {
        trim(ls[i])
    } else {
        seq![]
    }
}

/// The payload for the output of `nmcli --show-secrets --escape no
/// --get-values 802-11-wireless.ssid,802-11-wireless-security.key-mgmt,
/// 802-11-wireless-security.psk connection show <uuid>`: one value per line.
/// A network with no key management (or "none") shares without a password.
pub open spec fn qr_payload(fields: Seq<char>) -> Option<Seq<char>> {
    let ls = lines(fields);
    if ls.len() == 0 || trim(ls[0]).len() == 0 {
        None
    } else {
        let ssid = trim(ls[0]);
        let key_mgmt = line_or_empty(ls, 1);
        let psk = line_or_empty(ls, 2);
        if key_mgmt.len() == 0 || key_mgmt == "none"@ {
            Some("WIFI:T:nopass;S:"@ + qr_escape(ssid) + ";;"@)
        } else {
            Some("WIFI:T:WPA;S:"@ + qr_escape(ssid) + ";P:"@ + qr_escape(psk) + ";;"@)
        }
    }
}

fn trimmed_line(ls: &Vec<Vec<char>>, i: usize) -> (r: Vec<char>)
    ensures
        r@ == line_or_empty(crate::text::views(ls@), i as int),
{
    if i < ls.len() {
        assert(crate::text::views(ls@)[i as int] == ls@[i as int]@);
        trim_chars(ls[i].as_slice())
    } else {
        Vec::new()
    }
}

/// The `WIFI:` payload a phone camera understands. Special characters are
/// escaped per the Wi-Fi Alliance's QR format.
pub fn wifi_qr_payload(fields: &str) -> (r: Option<String>)
    ensures
        match r {
            Some(p) => qr_payload(fields@) == Some(p@),
            None => qr_payload(fields@) is None,
        },
{
    let c = chars_of(fields);
    let ls = split_lines(c.as_slice());
    if ls.len() == 0 {
        return None;
    }
    let ssid = trimmed_line(&ls, 0);
    if ssid.len() == 0 {
        return None;
    }
    let key_mgmt = trimmed_line(&ls, 1);
    let psk = trimmed_line(&ls, 2);
    let mut out: Vec<char> = Vec::new();
    if key_mgmt.len() == 0 || is(key_mgmt.as_slice(), "none") {
        push_lit(&mut out, "WIFI:T:nopass;S:");
        push_escaped(&mut out, ssid.as_slice());
        push_lit(&mut out, ";;");
    } else {
        push_lit(&mut out, "WIFI:T:WPA;S:");
        push_escaped(&mut out, ssid.as_slice());
        push_lit(&mut out, ";P:");
        push_escaped(&mut out, psk.as_slice());
        push_lit(&mut out, ";;");
    }
    proof {
        assert(Seq::<char>::empty() + "WIFI:T:nopass;S:"@ =~= "WIFI:T:nopass;S:"@);
        assert(Seq::<char>::empty() + "WIFI:T:WPA;S:"@ =~= "WIFI:T:WPA;S:"@);
    }
    Some(string_from_chars(out.as_slice()))
}

/// A profile with key management (trimmed, neither empty nor `none`) shares
/// as WPA with its passphrase; one without shares without a password; and
/// a profile without an SSID shares nothing.
pub proof fn law_qr_payload_shape(fields: Seq<char>)
    ensures
        ({
            let ls = lines(fields);
            ls.len() > 0 && trim(ls[0]).len() > 0 && ls.len() > 1 && trim(ls[1]).len() > 0 && trim(ls[1])
                != "none"@ ==> qr_payload(fields) == Some(
                "WIFI:T:WPA;S:"@ + qr_escape(trim(ls[0])) + ";P:"@ + qr_escape(
                    if ls.len() > 2 {
                        trim(ls[2])
                    } else {
                        seq![]
                    },
                ) + ";;"@,
            )
        }),
        ({
            let ls = lines(fields);
            ls.len() > 0 && trim(ls[0]).len() > 0 && (ls.len() <= 1 || trim(ls[1]).len() == 0 || trim(
                ls[1],
            ) == "none"@) ==> qr_payload(fields) == Some("WIFI:T:nopass;S:"@ + qr_escape(trim(ls[0])) + ";;"@)
        }),
        ({
            let ls = lines(fields);
            (ls.len() == 0 || trim(ls[0]).len() == 0) ==> qr_payload(fields) is None
        }),
{
}

} // verus!
