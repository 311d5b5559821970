//! Rendering for the log sink and the admin conveniences: the per-level log
//! line of an interaction, the equivalent `curl` command, and the plan for
//! replaying a stored request upstream.

use vstd::prelude::*;
use crate::json::{Json, JsonV, ser_json, dec_str, u64_to_dec, u128_to_dec, write_str_chars,
    body_string_of, json_value_to_body_string};
use crate::model::{Interaction, InteractionV};
use crate::cassette::{headers_json, interaction_to_json};
use crate::proxy::{trim_trailing_slashes, outbound_view, outbound_headers, pairs_view,
    compose_upstream_url};
use crate::strutil::chars_to_string;

verus! {

/// How much of each interaction the log prints.
pub enum LogLevel {
    Silent,
    Summary,
    Headers,
    Full,
}

/// The `, N tokens` piece of a summary line, when the total is known.
pub open spec fn tokens_part(t: Option<u64>) -> Seq<char> {
    match t {
        Some(n) => ", "@ + dec_str(n as int) + " tokens"@,
        None => Seq::empty(),
    }
}

/// The `, model` piece of a summary line, when the model is known.
pub open spec fn model_part(m: Option<Seq<char>>) -> Seq<char> {
    match m {
        Some(s) => ", "@ + s,
        None => Seq::empty(),
    }
}

/// One summary line: method, path, status, latency, and the optional token
/// count and model.
pub open spec fn summary_of(v: InteractionV) -> Seq<char> {
    v.request.method + " "@ + v.request.path + " -> "@ + dec_str(v.response.status as int) + " ("@
        + dec_str(v.metadata.latency_ms as int) + "ms"@ + tokens_part(v.metadata.total_tokens)
        + model_part(v.metadata.model) + ")"@
}

/// The head shared by the header and full lines.
pub open spec fn head_of(v: InteractionV) -> Seq<char> {
    v.request.method + " "@ + v.request.path + " -> "@ + dec_str(v.response.status as int)
}

/// The header-level line: the head, then both header mappings as JSON.
pub open spec fn headers_line_of(v: InteractionV) -> Seq<char> {
    head_of(v) + "\nreq headers: "@ + ser_json(headers_json(v.request.headers))
        + "\nresp headers: "@ + ser_json(headers_json(v.response.headers))
}

/// The full line: the head, the request body, and the response body or a
/// streaming marker.
pub open spec fn full_line_of(v: InteractionV) -> Seq<char> {
    head_of(v) + "\nreq: "@ + ser_json(v.request.body) + "\nresp: "@ + match v.response.body {
        Some(b) => ser_json(b),
        None => "<streaming>"@,
    }
}

/// The log line for an interaction at a level; the silent level prints
/// nothing.
pub open spec fn log_line_of(v: InteractionV, level: LogLevel) -> Option<Seq<char>> {
    match level {
        LogLevel::Silent => None,
        LogLevel::Summary => Some(summary_of(v)),
        LogLevel::Headers => Some(headers_line_of(v)),
        LogLevel::Full => Some(full_line_of(v)),
    }
}

fn write_head(x: &Interaction, out: &mut Vec<char>)
    ensures
        final(out)@ == old(out)@ + head_of(x@),
{
    let ghost pre = out@;
    write_str_chars(x.request.method.as_str(), out);
    write_str_chars(" ", out);
    write_str_chars(x.request.path.as_str(), out);
    write_str_chars(" -> ", out);
    let st = u64_to_dec(x.response.status as u64);
    write_str_chars(st.as_str(), out);
    assert(out@ =~= pre + head_of(x@));
}

/// The log line for an interaction at a level.
pub fn log_line(x: &Interaction, level: &LogLevel) -> (r: Option<String>)
    ensures
        match r {
            Some(s) => log_line_of(x@, *level) == Some(s@),
            None => log_line_of(x@, *level) is None,
        },
{
    match level {
        LogLevel::Silent => None,
        LogLevel::Summary => {
            let mut out: Vec<char> = Vec::new();
            write_str_chars(x.request.method.as_str(), &mut out);
            write_str_chars(" ", &mut out);
            write_str_chars(x.request.path.as_str(), &mut out);
            write_str_chars(" -> ", &mut out);
            let st = u64_to_dec(x.response.status as u64);
            write_str_chars(st.as_str(), &mut out);
            write_str_chars(" (", &mut out);
            let lat = u128_to_dec(x.metadata.latency_ms);
            write_str_chars(lat.as_str(), &mut out);
            write_str_chars("ms", &mut out);
            let ghost mid = out@;
            match &x.metadata.total_tokens {
                Some(n) => {
                    write_str_chars(", ", &mut out);
                    let t = u64_to_dec(*n);
                    write_str_chars(t.as_str(), &mut out);
                    write_str_chars(" tokens", &mut out);
                    assert(out@ =~= mid + tokens_part(x@.metadata.total_tokens));
                },
                None => {
                    assert(out@ =~= mid + tokens_part(x@.metadata.total_tokens));
                },
            }
            let ghost mid2 = out@;
            match &x.metadata.model {
                Some(m) => {
                    write_str_chars(", ", &mut out);
                    write_str_chars(m.as_str(), &mut out);
                    assert(out@ =~= mid2 + model_part(x@.metadata.model));
                },
                None => {
                    assert(out@ =~= mid2 + model_part(x@.metadata.model));
                },
            }
            write_str_chars(")", &mut out);
            assert(out@ =~= summary_of(x@));
            Some(chars_to_string(&out))
        },
        LogLevel::Headers => {
            let mut out: Vec<char> = Vec::new();
            write_head(x, &mut out);
            write_str_chars("\nreq headers: ", &mut out);
            let rh = crate::cassette::headers_to_json(&x.request.headers);
            let rht = crate::json::to_json_text(&rh);
            write_str_chars(rht.as_str(), &mut out);
            write_str_chars("\nresp headers: ", &mut out);
            let sh = crate::cassette::headers_to_json(&x.response.headers);
            let sht = crate::json::to_json_text(&sh);
            write_str_chars(sht.as_str(), &mut out);
            assert(out@ =~= headers_line_of(x@));
            Some(chars_to_string(&out))
        },
        LogLevel::Full => {
            let mut out: Vec<char> = Vec::new();
            write_head(x, &mut out);
            write_str_chars("\nreq: ", &mut out);
            let bt = crate::json::to_json_text(&x.request.body);
            write_str_chars(bt.as_str(), &mut out);
            write_str_chars("\nresp: ", &mut out);
            match &x.response.body {
                Some(b) => {
                    let rt = crate::json::to_json_text(b);
                    write_str_chars(rt.as_str(), &mut out);
                },
                None => {
                    write_str_chars("<streaming>", &mut out);
                },
            }
            assert(out@ =~= full_line_of(x@));
            Some(chars_to_string(&out))
        },
    }
}

/// A body with each double quote escaped for the shell snippet.
pub open spec fn dq_escape(s: Seq<char>) -> Seq<char>
    decreases s.len(),
{
    if s.len() == 0 {
        Seq::empty()
    } else {
        dq_escape(s.drop_last()) + if s.last() == '"' {
            seq!['\\', '"']
        } else {
            seq![s.last()]
        }
    }
}

/// The `-H` pieces of a curl command, one per header pair.
pub open spec fn curl_headers(h: Seq<(Seq<char>, Seq<char>)>) -> Seq<char>
    decreases h.len(),
{
    if h.len() == 0 {
        Seq::empty()
    } else {
        curl_headers(h.drop_last()) + " -H '"@ + h.last().0 + ": "@ + h.last().1 + "'"@
    }
}

/// The `--data` piece, present only for a non-empty body text.
pub open spec fn curl_body(b: Seq<char>) -> Seq<char> {
    if b.len() == 0 {
        Seq::empty()
    } else {
        " --data \""@ + dq_escape(b) + "\""@
    }
}

/// The whole curl command equivalent to a stored request.
pub open spec fn curl_text(upstream: Seq<char>, r: crate::model::StoredRequestV) -> Seq<char> {
    "curl -X "@ + r.method + " '"@ + trim_trailing_slashes(upstream) + r.path + "'"@
        + curl_headers(r.headers) + curl_body(body_string_of(r.body))
}

/// The curl command that re-issues a stored request against the upstream.
pub fn curl_command(upstream: &str, req: &crate::model::StoredRequest) -> (r: String)
    ensures
        r@ == curl_text(upstream@, req@),
{
    let mut out: Vec<char> = Vec::new();
    write_str_chars("curl -X ", &mut out);
    write_str_chars(req.method.as_str(), &mut out);
    write_str_chars(" '", &mut out);
    let url = compose_upstream_url(upstream, req.path.as_str());
    write_str_chars(url.as_str(), &mut out);
    write_str_chars("'", &mut out);
    let ghost mid = out@;
    assert(mid =~= "curl -X "@ + req@.method + " '"@ + trim_trailing_slashes(upstream@)
        + req@.path + "'"@);
    let n = req.headers.len();
    let mut i: usize = 0;
    while i < n
        invariant
            i <= n,
            n == req@.headers.len(),
            out@ =~= mid + curl_headers(req@.headers.take(i as int)),
        decreases n - i,
    {
        proof {
            assert(req@.headers.take(i + 1).drop_last() =~= req@.headers.take(i as int));
            assert(req@.headers.take(i + 1).last() == req@.headers[i as int]);
        }
        let (k, v) = req.headers.pair(i);
        write_str_chars(" -H '", &mut out);
        write_str_chars(k.as_str(), &mut out);
        write_str_chars(": ", &mut out);
        write_str_chars(v.as_str(), &mut out);
        write_str_chars("'", &mut out);
        assert(out@ =~= mid + curl_headers(req@.headers.take(i + 1)));
        i += 1;
    }
    assert(req@.headers.take(n as int) =~= req@.headers);
    let ghost mid2 = out@;
    let body = json_value_to_body_string(&req.body);
    if body.unicode_len() > 0 {
        write_str_chars(" --data \"", &mut out);
        let bc = crate::strutil::str_chars(body.as_str());
        let m = bc.len();
        let ghost mid3 = out@;
        let mut j: usize = 0;
        while j < m
            invariant
                j <= m,
                m == body@.len(),
                bc@ == body@,
                out@ =~= mid3 + dq_escape(body@.take(j as int)),
            decreases m - j,
        {
            proof {
                assert(body@.take(j + 1).drop_last() =~= body@.take(j as int));
            }
            let c = bc[j];
            if c == '"' {
                out.push('\\');
                out.push('"');
            } else {
                out.push(c);
            }
            assert(out@ =~= mid3 + dq_escape(body@.take(j + 1)));
            j += 1;
        }
        assert(body@.take(m as int) =~= body@);
        out.push('"');
        proof {
            reveal_strlit("\"");
            assert("\""@ =~= seq!['"']);
        }
        assert(out@ =~= mid2 + curl_body(body_string_of(req@.body)));
    } else {
        assert(out@ =~= mid2 + curl_body(body_string_of(req@.body)));
    }
    assert(out@ =~= curl_text(upstream@, req@));
    chars_to_string(&out)
}

/// What a replay sends upstream: the stored request re-addressed at the
/// upstream base, hop-by-hop headers left out, the body re-serialized.
pub struct ReplayPlan {
    pub url: String,
    pub method: String,
    pub headers: Vec<(String, String)>,
    pub body: String,
}

/// Build the replay of a stored interaction's request.
pub fn build_replay(upstream: &str, x: &Interaction) -> (r: ReplayPlan)
    ensures
        r.url@ == trim_trailing_slashes(upstream@) + x@.request.path,
        r.method@ == x@.request.method,
        pairs_view(r.headers@) == outbound_view(x@.request.headers),
        r.body@ == body_string_of(x@.request.body),
{
    ReplayPlan {
        url: compose_upstream_url(upstream, x.request.path.as_str()),
        method: x.request.method.clone(),
        headers: outbound_headers(&x.request.headers),
        body: json_value_to_body_string(&x.request.body),
    }
}

} // verus!
