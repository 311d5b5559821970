//! Usage extraction: token counts from a JSON response body or, for event
//! streams, from the last raw occurrences in the text; model detection.

use vstd::prelude::*;
use crate::json::{Json, JsonV, obj_lookup, spec_parse_json, num_as_u64, skip_ws, digits_end,
    parse_json, json_get, json_as_u64, digits_range_to_u64, skip_ws_x, digits_end_x};
use crate::model::{Metadata, MetadataV, opt_str_view};
use crate::strutil::{matches_at, str_chars, str_matches_at};

verus! {

/// Member lookup on any value: objects only.
pub open spec fn jget(v: JsonV, k: Seq<char>) -> Option<JsonV> {
    match v {
        JsonV::Obj(pairs) => obj_lookup(pairs, k),
        _ => None,
    }
}

/// The `model` member of a JSON object body, where it is a string.
pub open spec fn model_of(v: JsonV) -> Option<Seq<char>> {
    match jget(v, "model"@) {
        Some(JsonV::Str(s)) => Some(s),
        _ => None,
    }
}

/// Read `body.model` where the body is a JSON object with a string there.
pub fn extract_model(body: &Json) -> (r: Option<String>)
    ensures
        opt_str_view(r) == model_of(body.view()),
{
    match json_get(body, "model") {
        Some(v) => match v {
            Json::Str(s) => Some(s.clone()),
            _ => None,
        },
        None => None,
    }
}

/// A `usage` member value as a count: a plain unsigned number.
pub open spec fn jnum_u64(v: JsonV) -> Option<u64> {
    match v {
        JsonV::Num(tok) => num_as_u64(tok),
        _ => None,
    }
}

/// The first of two members that is present, as a count.
pub open spec fn usage_field(u: JsonV, primary: Seq<char>, fallback: Seq<char>) -> Option<u64> {
    match jget(u, primary) {
        Some(x) => jnum_u64(x),
        None => match jget(u, fallback) {
            Some(x) => jnum_u64(x),
            None => None,
        },
    }
}

fn usage_field_x(u: &Json, primary: &str, fallback: &str) -> (r: Option<u64>)
    ensures
        r == usage_field(u.view(), primary@, fallback@),
{
    match json_get(u, primary) {
        Some(x) => json_as_u64(x),
        None => match json_get(u, fallback) {
            Some(x) => json_as_u64(x),
            None => None,
        },
    }
}

// ---------------------------------------------------------------------------
// Raw-text scan for event streams
// ---------------------------------------------------------------------------

/// A usage key occurs at `k`, followed by optional whitespace, a colon,
/// optional whitespace and at least one digit.
pub open spec fn usage_match_at(s: Seq<char>, key: Seq<char>, k: int) -> bool {
    &&& matches_at(s, key, k)
    &&& {
        let a = skip_ws(s, k + key.len());
        &&& a < s.len()
        &&& s[a] == ':'
        &&& digits_end(s, skip_ws(s, a + 1)) > skip_ws(s, a + 1)
    }
}

/// The value at such a match: the maximal digit run, where it fits.
pub open spec fn usage_value_at(s: Seq<char>, key: Seq<char>, k: int) -> Option<u64> {
    let a = skip_ws(s, k + key.len());
    let b = skip_ws(s, a + 1);
    let e = digits_end(s, b);
    num_as_u64(s.subrange(b, e))
}

/// The last position at or before `from` where the key pattern matches.
pub open spec fn last_usage_match(s: Seq<char>, key: Seq<char>, from: int) -> Option<int>
    decreases from + 1,
{
    if from < 0 {
        None
    } else if usage_match_at(s, key, from) {
        Some(from)
    } else {
        last_usage_match(s, key, from - 1)
    }
}

/// What the raw-text scan yields for one key: the value at the last match.
pub open spec fn sse_value(s: Seq<char>, key: Seq<char>) -> Option<u64> {
    match last_usage_match(s, key, s.len() - 1) {
        Some(k) => usage_value_at(s, key, k),
        None => None,
    }
}

/// Whether the key pattern matches at `k`, executably.
fn usage_match_at_x(s: &Vec<char>, key: &Vec<char>, k: usize) -> (r: bool)
    requires
        k < s@.len(),
    ensures
        r == usage_match_at(s@, key@, k as int),
{
    let n = s.len();
    let m = key.len();
    if n - k < m {
        assert(!matches_at(s@, key@, k as int));
        return false;
    }
    if !str_matches_at(s, key, k) {
        return false;
    }
    let a = skip_ws_x(s, k + m);
    if !(a < n && s[a] == ':') {
        return false;
    }
    let b = skip_ws_x(s, a + 1);
    let e = digits_end_x(s, b);
    e > b
}

/// Scan the raw text for the last `key … : digits` occurrence and read the
/// digits, as the stream-mode extractor does.
fn scan_last_usage(s: &Vec<char>, key: &Vec<char>) -> (r: Option<u64>)
    ensures
        r == sse_value(s@, key@),
{
    let n = s.len();
    let mut k = n;
    while k > 0
        invariant
            k <= n,
            n == s@.len(),
            last_usage_match(s@, key@, n - 1) == last_usage_match(s@, key@, k - 1),
        decreases k,
    {
        k -= 1;
        if usage_match_at_x(s, key, k) {
            let m = key.len();
            let a = skip_ws_x(s, k + m);
            let b = skip_ws_x(s, a + 1);
            let e = digits_end_x(s, b);
            return digits_range_to_u64(s, b, e);
        }
    }
    None
}

/// The raw-text extraction: both counts from their last occurrences, or
/// nothing when either is missing or does not fit.
pub open spec fn sse_tokens(t: Seq<char>) -> Option<(u64, u64)> {
    match (sse_value(t, "\"input_tokens\""@), sse_value(t, "\"output_tokens\""@)) {
        (Some(i), Some(o)) => Some((i, o)),
        _ => None,
    }
}

/// Scan a stream transcript for the last `"input_tokens"` and
/// `"output_tokens"` counts.
pub fn extract_tokens_from_sse(body: &str) -> (r: Option<(u64, u64)>)
    ensures
        r == sse_tokens(body@),
{
    let cs = str_chars(body);
    let ikey = str_chars("\"input_tokens\"");
    let okey = str_chars("\"output_tokens\"");
    let iv = scan_last_usage(&cs, &ikey);
    let ov = scan_last_usage(&cs, &okey);
    match (iv, ov) {
        (Some(i), Some(o)) => Some((i, o)),
        _ => None,
    }
}

// ---------------------------------------------------------------------------
// The whole extractor
// ---------------------------------------------------------------------------

/// What the extractor leaves in the metadata, given what it held before and
/// the final response text. A JSON body with a `usage` member sets the token
/// fields from it; text that is not JSON is scanned raw; in either path the
/// total is set exactly when both sides are known and their sum fits.
pub open spec fn extracted(m: MetadataV, t: Seq<char>) -> MetadataV {
    match spec_parse_json(t) {
        Some(v) => match jget(v, "usage"@) {
            Some(u) => {
                let i = usage_field(u, "input_tokens"@, "prompt_tokens"@);
                let o = usage_field(u, "output_tokens"@, "completion_tokens"@);
                if i is Some && o is Some {
                    if i->0 + o->0 <= u64::MAX {
                        MetadataV {
                            input_tokens: i,
                            output_tokens: o,
                            total_tokens: Some((i->0 + o->0) as u64),
                            ..m
                        }
                    } else {
                        MetadataV { input_tokens: None, output_tokens: None, total_tokens: None, ..m }
                    }
                } else {
                    MetadataV { input_tokens: i, output_tokens: o, total_tokens: None, ..m }
                }
            },
            None => m,
        },
        None => match sse_tokens(t) {
            Some((i, o)) => if i + o <= u64::MAX {
                MetadataV {
                    input_tokens: Some(i),
                    output_tokens: Some(o),
                    total_tokens: Some((i + o) as u64),
                    ..m
                }
            } else {
                m
            },
            None => m,
        },
    }
}

/// Fill the token fields of the metadata from the final response text.
pub fn extract_usage_tokens(metadata: &mut Metadata, body: &str)
    ensures
        final(metadata)@ == extracted(old(metadata)@, body@),
        old(metadata).tokens_wf() ==> final(metadata).tokens_wf(),
{
    match parse_json(body) {
        Some(v) => {
            match json_get(&v, "usage") {
                Some(u) => {
                    let i = usage_field_x(u, "input_tokens", "prompt_tokens");
                    let o = usage_field_x(u, "output_tokens", "completion_tokens");
                    match (i, o) {
                        (Some(iv), Some(ov)) => {
                            if iv <= u64::MAX - ov {
                                metadata.input_tokens = Some(iv);
                                metadata.output_tokens = Some(ov);
                                metadata.total_tokens = Some(iv + ov);
                            } else {
                                metadata.input_tokens = None;
                                metadata.output_tokens = None;
                                metadata.total_tokens = None;
                            }
                        },
                        _ => {
                            metadata.input_tokens = i;
                            metadata.output_tokens = o;
                            metadata.total_tokens = None;
                        },
                    }
                },
                None => {},
            }
        },
        None => {
            match extract_tokens_from_sse(body) {
                Some((i, o)) => {
                    if i <= u64::MAX - o {
                        metadata.input_tokens = Some(i);
                        metadata.output_tokens = Some(o);
                        metadata.total_tokens = Some(i + o);
                    }
                },
                None => {},
            }
        },
    }
}

} // verus!
