//! JSON documents as `ip -j` and the speed test API return them, and what
//! the panel reads out of them.

use vstd::prelude::*;
use serde_json::Value;
use crate::number::{decimal, push_digits};
use crate::text::{is, string_from_chars, string_views};

verus! {

/// A JSON number, by the two readings the panel uses.
#[derive(Debug)]
pub struct JsonNumber {
    /// The number as a `u64`, when it is a non-negative integer in range.
    pub as_u64: Option<u64>,
    /// The number as an `i64`, when it is an integer in range.
    pub as_i64: Option<i64>,
}

/// One `"key": value` member of an object.
#[derive(Debug)]
pub struct Member {
    pub key: String,
    pub value: Json,
}

/// A JSON document.
#[derive(Debug)]
pub enum Json {
    Null,
    Bool(bool),
    Number(JsonNumber),
    Str(String),
    Array(Vec<Json>),
    Object(Vec<Member>),
}

/// The document that `serde_json::from_str` reads from `text`, taken value
/// for value into `Json`; `None` when `text` is not JSON.
pub uninterp spec fn json_text(text: Seq<char>) -> Option<Json>;

/// `serde_json::from_str::<serde_json::Value>`, each value taken one for one
/// into `Json` (a nested value by the same call on the text that
/// `Value`'s `Display` writes for it). Claimed of it: the result is
/// `json_text` of the text, so the same text always gives the same document.
#[verifier::external_body]
pub(crate) fn parse_json(text: &str) -> (r: Option<Json>)
    ensures
        r == json_text(text@),
{
    let value: Value = serde_json::from_str(text).ok()?;
    let nested = |v: &Value| parse_json(&v.to_string()).unwrap_or(Json::Null);
    Some(match value {
        Value::Null => Json::Null,
        Value::Bool(b) => Json::Bool(b),
        Value::Number(n) => Json::Number(JsonNumber { as_u64: n.as_u64(), as_i64: n.as_i64() }),
        Value::String(s) => Json::Str(s),
        Value::Array(items) => Json::Array(items.iter().map(nested).collect()),
        Value::Object(map) => Json::Object(
            map.iter().map(|(k, v)| Member { key: k.clone(), value: nested(v) }).collect(),
        ),
    })
}

/// The `i`-th element of an array (`Value::get` with an index).
pub open spec fn element(j: Json, i: int) -> Option<Json> {
    match j {
        Json::Array(v) => if 0 <= i < v@.len() {
            Some(v@[i])
        } else {
            None
        },
        _ => None,
    }
}

/// The value of the first member named `key`.
pub open spec fn member_value(ms: Seq<Member>, key: Seq<char>) -> Option<Json>
    decreases ms.len(),
{
    if ms.len() == 0 {
        None
    } else if ms[0].key@ == key {
        Some(ms[0].value)
    } else {
        member_value(ms.drop_first(), key)
    }
}

/// The value of an object's member (`Value::get` with a key).
pub open spec fn field(j: Json, key: Seq<char>) -> Option<Json> {
    match j {
        Json::Object(ms) => member_value(ms@, key),
        _ => None,
    }
}

/// `Value::as_str`.
pub open spec fn string_value(j: Option<Json>) -> Option<Seq<char>> {
    match j {
        Some(Json::Str(s)) => Some(s@),
        _ => None,
    }
}

/// A string member, or "" when it is missing or not a string.
pub open spec fn string_or_empty(j: Json, key: Seq<char>) -> Seq<char> {
    match string_value(field(j, key)) {
        Some(s) => s,
        None => seq![],
    }
}

fn element_ref(j: &Json, i: usize) -> (r: Option<&Json>)
    ensures
        match r {
            Some(e) => element(*j, i as int) == Some(*e),
            None => element(*j, i as int) is None,
        },
{
    match j {
        Json::Array(v) => if i < v.len() {
            Some(&v[i])
        } else {
            None
        },
        _ => None,
    }
}

fn field_ref<'a>(j: &'a Json, key: &str) -> (r: Option<&'a Json>)
    ensures
        match r {
            Some(e) => field(*j, key@) == Some(*e),
            None => field(*j, key@) is None,
        },
{
    match j {
        Json::Object(ms) => {
            let mut i: usize = 0;
            assert(ms@.skip(0) =~= ms@);
            while i < ms.len()
                invariant
                    i <= ms@.len(),
                    field(*j, key@) == member_value(ms@, key@),
                    member_value(ms@, key@) == member_value(ms@.skip(i as int), key@),
                decreases ms@.len() - i,
            {
                proof {
                    assert(ms@.skip(i as int)[0] == ms@[i as int]);
                    assert(ms@.skip(i as int).drop_first() =~= ms@.skip(i + 1));
                }
                let k = crate::text::chars_of(ms[i].key.as_str());
                if is(k.as_slice(), key) {
                    assert(ms@.skip(i as int).len() > 0);
                    assert(member_value(ms@.skip(i as int), key@) == Some(ms@[i as int].value));
                    assert(field(*j, key@) == member_value(ms@, key@));
                    let e = &ms[i].value;
                    assert(*e == ms@[i as int].value);
                    return Some(e);
                }
                i = i + 1;
            }
            None
        },
        _ => None,
    }
}

fn string_ref<'a>(j: Option<&'a Json>) -> (r: Option<&'a String>)
    ensures
        match r {
            Some(s) => string_value(
                match j {
                    Some(v) => Some(*v),
                    None => None,
                },
            ) == Some(s@),
            None => string_value(
                match j {
                    Some(v) => Some(*v),
                    None => None,
                },
            ) is None,
        },
{
    match j {
        Some(Json::Str(s)) => Some(s),
        _ => None,
    }
}

// ---------------------------------------------------------------------------
// `ip -j route get 1.1.1.1`
// ---------------------------------------------------------------------------

/// The route that carries traffic to the internet probe.
#[derive(Debug)]
pub struct Route {
    pub dev: String,
    pub gateway: String,
    pub src: String,
}

/// The device, gateway and preferred source of the first route, when the
/// first route names its device.
pub open spec fn route_of(doc: Json) -> Option<(Seq<char>, Seq<char>, Seq<char>)> {
    match element(doc, 0) {
        Some(first) => match string_value(field(first, "dev"@)) {
            Some(dev) => Some((dev, string_or_empty(first, "gateway"@), string_or_empty(first, "prefsrc"@))),
            None => None,
        },
        None => None,
    }
}

fn owned_or_empty(s: Option<&String>) -> (r: String)
    ensures
        r@ == match s {
            Some(v) => v@,
            None => Seq::<char>::empty(),
        },
{
    match s {
        Some(v) => v.clone(),
        None => String::new(),
    }
}

/// The default route, from the document that `ip -j route get 1.1.1.1`
/// prints. The route to the probe decides which interface is "the"
/// connection, so a machine with both Wi-Fi and Ethernet up reports
/// whichever one actually carries traffic.
pub fn route_from_json(doc: &Json) -> (r: Option<Route>)
    ensures
        match r {
            Some(route) => route_of(*doc) == Some((route.dev@, route.gateway@, route.src@)),
            None => route_of(*doc) is None,
        },
{
    let first = match element_ref(doc, 0) {
        Some(f) => f,
        None => return None,
    };
    let dev = match string_ref(field_ref(first, "dev")) {
        Some(d) => d.clone(),
        None => return None,
    };
    let gateway = owned_or_empty(string_ref(field_ref(first, "gateway")));
    let src = owned_or_empty(string_ref(field_ref(first, "prefsrc")));
    Some(Route { dev, gateway, src })
}

// ---------------------------------------------------------------------------
// `ip -j addr show <iface>`
// ---------------------------------------------------------------------------

/// The first entry of `entries` whose family is "inet", as a position.
pub open spec fn first_inet(entries: Seq<Json>) -> Option<int>
    decreases entries.len(),
{
    if entries.len() == 0 {
        None
    } else if string_value(field(entries[0], "family"@)) == Some("inet"@) {
        Some(0)
    } else {
        match first_inet(entries.drop_first()) {
            Some(i) => Some(i + 1),
            None => None,
        }
    }
}

/// The IPv4 prefix length of the first address, or "".
pub open spec fn prefix_of(doc: Json) -> Seq<char> {
    match element(doc, 0) {
        Some(link) => match field(link, "addr_info"@) {
            Some(Json::Array(entries)) => match first_inet(entries@) {
                Some(i) => match field(entries@[i], "prefixlen"@) {
                    Some(Json::Number(n)) => match n.as_u64 {
                        Some(p) => decimal(p as int),
                        None => seq![],
                    },
                    _ => seq![],
                },
                None => seq![],
            },
            _ => seq![],
        },
        None => seq![],
    }
}

/// The prefix length of the interface's first IPv4 address, from the
/// document that `ip -j addr show <iface>` prints.
pub fn prefix_from_json(doc: &Json) -> (r: String)
    ensures
        r@ == prefix_of(*doc),
{
    let link = match element_ref(doc, 0) {
        Some(l) => l,
        None => return String::new(),
    };
    let entries = match field_ref(link, "addr_info") {
        Some(Json::Array(v)) => v,
        _ => return String::new(),
    };
    let mut i: usize = 0;
    assert(entries@.skip(0) =~= entries@);
    while i < entries.len()
        invariant
            i <= entries@.len(),
            element(*doc, 0) == Some(*link),
            field(*link, "addr_info"@) == Some(Json::Array(*entries)),
            first_inet(entries@) == match first_inet(entries@.skip(i as int)) {
                Some(k) => Some(k + i),
                None => None,
            },
        decreases entries@.len() - i,
    {
        proof {
            assert(entries@.skip(i as int)[0] == entries@[i as int]);
            assert(entries@.skip(i as int).drop_first() =~= entries@.skip(i + 1));
        }
        let family = string_ref(field_ref(&entries[i], "family"));
        let is_inet = match family {
            Some(f) => {
                let c = crate::text::chars_of(f.as_str());
                is(c.as_slice(), "inet")
            },
            None => false,
        };
        if is_inet {
            assert(string_value(field(entries@[i as int], "family"@)) == Some("inet"@));
            assert(first_inet(entries@.skip(i as int)) == Some(0int));
            assert(first_inet(entries@) == Some(i as int));
            assert(element(*doc, 0) == Some(*link));
            assert(field(*link, "addr_info"@) == Some(Json::Array(*entries)));
            return match field_ref(&entries[i], "prefixlen") {
                Some(Json::Number(n)) => match n.as_u64 {
                    Some(p) => {
                        let mut out: Vec<char> = Vec::new();
                        push_digits(&mut out, p);
                        assert(out@ =~= decimal(p as int));
                        string_from_chars(out.as_slice())
                    },
                    None => String::new(),
                },
                _ => String::new(),
            };
        }
        i = i + 1;
    }
    String::new()
}

/// The default route from the text that `ip -j route get 1.1.1.1`
/// printed; `None` when that is not JSON or names no device.
pub fn default_route(ip_json: &str) -> (r: Option<Route>)
    ensures
        match r {
            Some(route) => (json_text(ip_json@) matches Some(d) && route_of(d) == Some(
                (route.dev@, route.gateway@, route.src@),
            )),
            None => match json_text(ip_json@) {
                Some(d) => route_of(d) is None,
                None => true,
            },
        },
{
    match parse_json(ip_json) {
        Some(doc) => route_from_json(&doc),
        None => None,
    }
}

/// The IPv4 prefix length from the text that `ip -j addr show <iface>`
/// printed; empty when that is not JSON or has none.
pub fn prefix_len(ip_json: &str) -> (r: String)
    ensures
        r@ == match json_text(ip_json@) {
            Some(d) => prefix_of(d),
            None => Seq::<char>::empty(),
        },
{
    match parse_json(ip_json) {
        Some(doc) => prefix_from_json(&doc),
        None => String::new(),
    }
}

// ---------------------------------------------------------------------------
// The speed test API
// ---------------------------------------------------------------------------

/// The `url` strings of the targets that have one, in order.
pub open spec fn target_urls(targets: Seq<Json>) -> Seq<Seq<char>>
    decreases targets.len(),
{
    if targets.len() == 0 {
        seq![]
    } else {
        target_urls(targets.drop_last()) + match string_value(field(targets.last(), "url"@)) {
            Some(u) => seq![u],
            None => seq![],
        }
    }
}

/// The endpoints listed under `targets`, if it is an array.
pub open spec fn endpoints_of(doc: Json) -> Seq<Seq<char>> {
    match field(doc, "targets"@) {
        Some(Json::Array(ts)) => target_urls(ts@),
        _ => seq![],
    }
}

/// The download endpoints from the speed test API's reply; `doc` is `None`
/// when the reply was not JSON.
pub fn speedtest_endpoints(doc: Option<&Json>) -> (r: Result<Vec<String>, String>)
    ensures
        match r {
            Ok(urls) => doc is Some && string_views(urls@) == endpoints_of(*doc->0) && urls@.len() > 0,
            Err(e) => {
                ||| doc is None && e@ == "Bad speed test response"@
                ||| doc is Some && endpoints_of(*doc->0).len() == 0 && e@ == "No speed test endpoints"@
            },
        },
{
    let d = match doc {
        Some(d) => d,
        None => return Err(String::from_str("Bad speed test response")),
    };
    let mut urls: Vec<String> = Vec::new();
    match field_ref(d, "targets") {
        Some(Json::Array(ts)) => {
            let mut i: usize = 0;
            assert(ts@.take(0) =~= Seq::<Json>::empty());
            while i < ts.len()
                invariant
                    i <= ts@.len(),
                    string_views(urls@) == target_urls(ts@.take(i as int)),
                decreases ts@.len() - i,
            {
                proof {
                    let t = ts@.take(i + 1);
                    assert(t.drop_last() =~= ts@.take(i as int));
                    assert(t.last() == ts@[i as int]);
                }
                match string_ref(field_ref(&ts[i], "url")) {
                    Some(u) => {
                        let ghost before = urls@;
                        urls.push(u.clone());
                        assert(string_views(urls@) =~= string_views(before).push(u@));
                    },
                    None => {},
                }
                i = i + 1;
            }
            assert(ts@.take(ts@.len() as int) =~= ts@);
        },
        _ => {
            assert(string_views(urls@) =~= Seq::<Seq<char>>::empty());
        },
    }
    if urls.len() == 0 {
        return Err(String::from_str("No speed test endpoints"));
    }
    Ok(urls)
}

} // verus!
