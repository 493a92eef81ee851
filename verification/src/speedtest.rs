//! The speed test: Netflix's fast.com endpoints, measured against the
//! interface's own byte counters rather than curl's reported rate, so that
//! parallel streams add up. This module plans the test; the caller runs the
//! streams and times them.

use vstd::prelude::*;
use crate::json::{endpoints_of, json_text, parse_json, speedtest_endpoints};
use crate::text::string_views;
use crate::status::{net_class_file, net_class_path};

verus! {

/// The fast.com API, asking for three endpoints.
pub const SPEEDTEST_API: &'static str = "https://api.fast.com/netflix/speedtest/v2?https=true&token=YXNkZmFzZGxmbnNkYWZoYXNkZmhrYWxm&urlCount=3";

/// How many endpoints the test uses.
pub const ENDPOINTS_USED: usize = 3;

/// How many parallel streams each endpoint gets.
pub const STREAMS_PER_ENDPOINT: usize = 3;

/// The `curl` arguments of one stream: a download to /dev/null, or an
/// upload of zeros; either gives up after twelve seconds.
pub open spec fn curl_args(url: Seq<char>, upload: bool) -> Seq<Seq<char>> {
    if upload {
        seq![
            "-fsS"@,
            "-o"@,
            "/dev/null"@,
            "--max-time"@,
            "12"@,
            "-X"@,
            "POST"@,
            "-H"@,
            "Content-Type: application/octet-stream"@,
            "--data-binary"@,
            "@/dev/zero"@,
            url,
        ]
    } else {
        seq!["-fsS"@, "-o"@, "/dev/null"@, "--max-time"@, "12"@, url]
    }
}

/// The streams for the first `n` endpoints, `STREAMS_PER_ENDPOINT` each.
pub open spec fn streams_upto(urls: Seq<Seq<char>>, upload: bool, n: nat) -> Seq<Seq<Seq<char>>>
    decreases n,
{
    if n == 0 {
        seq![]
    } else {
        let a = curl_args(urls[n - 1], upload);
        streams_upto(urls, upload, (n - 1) as nat) + seq![a, a, a]
    }
}

/// Every stream of the test, by the first `ENDPOINTS_USED` endpoints.
pub open spec fn streams_of(urls: Seq<Seq<char>>, upload: bool) -> Seq<Seq<Seq<char>>> {
    streams_upto(
        urls,
        upload,
        if urls.len() < ENDPOINTS_USED {
            urls.len()
        } else {
            ENDPOINTS_USED as nat
        },
    )
}

pub open spec fn args_views(v: Seq<Vec<String>>) -> Seq<Seq<Seq<char>>> {
    v.map_values(|a: Vec<String>| string_views(a@))
}

fn stream_args(url: &String, upload: bool) -> (r: Vec<String>)
    ensures
        string_views(r@) == curl_args(url@, upload),
{
    let mut r = vec![
        String::from_str("-fsS"),
        String::from_str("-o"),
        String::from_str("/dev/null"),
        String::from_str("--max-time"),
        String::from_str("12"),
    ];
    if upload {
        r.push(String::from_str("-X"));
        r.push(String::from_str("POST"));
        r.push(String::from_str("-H"));
        r.push(String::from_str("Content-Type: application/octet-stream"));
        r.push(String::from_str("--data-binary"));
        r.push(String::from_str("@/dev/zero"));
    }
    r.push(url.clone());
    assert(string_views(r@) =~= curl_args(url@, upload));
    r
}

/// The `curl` argument lists of every stream, in launch order.
pub fn speedtest_streams(urls: &[String], upload: bool) -> (r: Vec<Vec<String>>)
    ensures
        args_views(r@) == streams_of(string_views(urls@), upload),
{
    let n = if urls.len() < ENDPOINTS_USED {
        urls.len()
    } else {
        ENDPOINTS_USED
    };
    let ghost uv = string_views(urls@);
    let mut r: Vec<Vec<String>> = Vec::new();
    let mut i: usize = 0;
    while i < n
        invariant
            i <= n <= urls@.len(),
            uv == string_views(urls@),
            args_views(r@) == streams_upto(uv, upload, i as nat),
        decreases n - i,
    {
        let mut k: usize = 0;
        let ghost before = r@;
        while k < STREAMS_PER_ENDPOINT
            invariant
                i < n <= urls@.len(),
                uv == string_views(urls@),
                k <= STREAMS_PER_ENDPOINT,
                r@.len() == before.len() + k,
                r@.take(before.len() as int) == before,
                forall|j: int| before.len() <= j < r@.len() ==> string_views(#[trigger] r@[j]@) == curl_args(uv[i as int], upload),
            decreases STREAMS_PER_ENDPOINT - k,
        {
            let a = stream_args(&urls[i], upload);
            let ghost prev = r@;
            r.push(a);
            proof {
                assert(r@.take(before.len() as int) =~= prev.take(before.len() as int));
            }
            k = k + 1;
        }
        proof {
            let a = curl_args(uv[i as int], upload);
            let b = before.len() as int;
            assert(r@ =~= before + seq![r@[b], r@[b + 1], r@[b + 2]]);
            assert(args_views(r@) =~= args_views(before) + seq![a, a, a]);
        }
        i = i + 1;
    }
    r
}

/// Everything that comes before the streams run: curl must be installed,
/// the API must answer (`body` is `None` when it could not be reached), its
/// answer must be JSON and list at least one endpoint. Then the streams to
/// launch.
pub fn speedtest_plan(curl_installed: bool, body: Option<&str>, upload: bool) -> (r: Result<Vec<Vec<String>>, String>)
    ensures
        match r {
            Ok(streams) => {
                &&& curl_installed
                &&& (body matches Some(b) && json_text(b@) matches Some(doc) && endpoints_of(doc).len()
                    > 0 && args_views(streams@) == streams_of(endpoints_of(doc), upload))
            },
            Err(e) => {
                ||| !curl_installed && e@ == "curl is required"@
                ||| curl_installed && body is None && e@ == "Failed to reach the speed test API"@
                ||| curl_installed && (body matches Some(b) && json_text(b@) is None && e@
                    == "Bad speed test response"@)
                ||| curl_installed && (body matches Some(b) && json_text(b@) matches Some(doc)
                    && endpoints_of(doc).len() == 0 && e@ == "No speed test endpoints"@)
            },
        },
{
    if !curl_installed {
        return Err(String::from_str("curl is required"));
    }
    let text = match body {
        Some(t) => t,
        None => return Err(String::from_str("Failed to reach the speed test API")),
    };
    let doc = parse_json(text);
    match speedtest_endpoints(doc.as_ref()) {
        Ok(urls) => Ok(speedtest_streams(urls.as_slice(), upload)),
        Err(e) => Err(e),
    }
}

/// The counter the test reads: bytes sent for an upload, received for a
/// download.
pub fn speedtest_counter(iface: &str, upload: bool) -> (r: String)
    ensures
        r@ == net_class_path(
            iface@,
            if upload {
                "statistics/tx_bytes"@
            } else {
                "statistics/rx_bytes"@
            },
        ),
{
    if upload {
        net_class_file(iface, "statistics/tx_bytes")
    } else {
        net_class_file(iface, "statistics/rx_bytes")
    }
}

/// The test goes on only if at least one stream could be started.
pub fn streams_started(count: usize) -> (r: Result<(), String>)
    ensures
        match r {
            Ok(()) => count > 0,
            Err(e) => count == 0 && e@ == "Could not start the speed test"@,
        },
{
    if count == 0 {
        Err(String::from_str("Could not start the speed test"))
    } else {
        Ok(())
    }
}

} // verus!
