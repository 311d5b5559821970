//! The data path's pure core: URL composition, header edits, hop-by-hop
//! filtering, intercept release application, and the construction of the
//! stored interaction in buffered and streaming mode.

use vstd::prelude::*;
use crate::headers::{HeaderMap, has_pair, redact_view};
use crate::json::{Json, JsonV, json_or_string_of, obj_lookup, text_to_json_or_string,
    body_string_of, pair_views_of};
use crate::model::{Interaction, StoredRequest, StoredResponse, Chunk, ChunkV, chunks_view,
    Metadata, MetadataV, provider_of, detect_provider, opt_str_view};
use crate::usage::{model_of, extract_model, extract_usage_tokens, extracted};
use crate::strutil::{str_chars, chars_to_string, lower_seq, ascii_lowercase};

verus! {

/// The upstream base with its trailing slashes removed.
pub open spec fn trim_trailing_slashes(s: Seq<char>) -> Seq<char>
    decreases s.len(),
{
    if s.len() > 0 && s.last() == '/' {
        trim_trailing_slashes(s.drop_last())
    } else {
        s
    }
}

proof fn lemma_trim_trailing_slashes(s: Seq<char>, b: int)
    requires
        0 <= b <= s.len(),
        forall|j: int| b <= j < s.len() ==> s[j] == '/',
        b > 0 ==> s[b - 1] != '/',
    ensures
        trim_trailing_slashes(s) =~= s.subrange(0, b),
    decreases s.len() - b,
{
    if b == s.len() {
        if s.len() > 0 {
            assert(s.last() != '/');
        }
        assert(trim_trailing_slashes(s) =~= s.subrange(0, s.len() as int));
    } else {
        assert(s.last() == '/');
        let t = s.drop_last();
        lemma_trim_trailing_slashes(t, b);
        assert(t.subrange(0, b) =~= s.subrange(0, b));
    }
}

/// The upstream URL: the base, trailing slashes trimmed, then the request's
/// path and query as they came in.
pub fn compose_upstream_url(upstream: &str, path_and_query: &str) -> (r: String)
    ensures
        r@ == trim_trailing_slashes(upstream@) + path_and_query@,
{
    let cs = str_chars(upstream);
    let n = cs.len();
    let mut b: usize = n;
    while b > 0 && cs[b - 1] == '/'
        invariant
            b <= n,
            n == upstream@.len(),
            cs@ == upstream@,
            forall|j: int| b <= j < n ==> upstream@[j] == '/',
        decreases b,
    {
        b -= 1;
    }
    proof {
        lemma_trim_trailing_slashes(upstream@, b as int);
    }
    let mut out: Vec<char> = Vec::new();
    let mut i: usize = 0;
    while i < b
        invariant
            i <= b <= n,
            n == upstream@.len(),
            cs@ == upstream@,
            out@ =~= upstream@.subrange(0, i as int),
        decreases b - i,
    {
        out.push(cs[i]);
        assert(out@ =~= upstream@.subrange(0, i + 1 as int));
        i += 1;
    }
    assert(out@ =~= trim_trailing_slashes(upstream@));
    let pq = str_chars(path_and_query);
    let m = pq.len();
    let mut j: usize = 0;
    while j < m
        invariant
            j <= m,
            m == path_and_query@.len(),
            pq@ == path_and_query@,
            out@ =~= trim_trailing_slashes(upstream@) + path_and_query@.subrange(0, j as int),
        decreases m - j,
    {
        out.push(pq[j]);
        assert(out@ =~= trim_trailing_slashes(upstream@) + path_and_query@.subrange(0, j + 1));
        j += 1;
    }
    assert(out@ =~= trim_trailing_slashes(upstream@) + path_and_query@);
    chars_to_string(&out)
}

/// The `--delete-header` names, lowercased.
pub fn parse_delete_headers(items: &Vec<String>) -> (r: Vec<String>)
    ensures
        r@.len() == items@.len(),
        forall|i: int| 0 <= i < r@.len() ==> #[trigger] r@[i]@ == lower_seq(items.deep_view()[i]),
{
    let n = items.len();
    let mut out: Vec<String> = Vec::new();
    let mut i: usize = 0;
    while i < n
        invariant
            i <= n,
            n == items@.len(),
            out@.len() == i,
            forall|j: int|
                0 <= j < i ==> #[trigger] out@[j]@ == lower_seq(items.deep_view()[j]),
        decreases n - i,
    {
        out.push(ascii_lowercase(items[i].as_str()));
        i += 1;
    }
    out
}

/// A name stands in the delete list.
pub open spec fn in_list(l: Seq<Seq<char>>, k: Seq<char>) -> bool {
    exists|i: int| 0 <= i < l.len() && l[i] == k
}

/// Apply the command-line header edits: every `--modify-header` pair is
/// upserted, then every `--delete-header` name is removed.
pub fn apply_header_edits(h: &mut HeaderMap, sets: &HeaderMap, deletes: &Vec<String>)
    requires
        old(h).wf(),
        sets.wf(),
    ensures
        final(h).wf(),
        forall|k: Seq<char>, v: Seq<char>|
            #[trigger] has_pair(final(h)@, k, v) <==> (!in_list(deletes.deep_view(), k) && (
            has_pair(sets@, k, v) || (!sets.spec_has(k) && has_pair(old(h)@, k, v)))),
{
    let ghost pre = h@;
    let ns = sets.len();
    let mut i: usize = 0;
    while i < ns
        invariant
            i <= ns,
            ns == sets@.len(),
            sets.wf(),
            h.wf(),
            forall|k: Seq<char>, v: Seq<char>|
                #[trigger] has_pair(h@, k, v) <==> (has_pair(sets@.take(i as int), k, v) || (!(
                exists|j: int| 0 <= j < i && sets@[j].0 == k) && has_pair(pre, k, v))),
        decreases ns - i,
    {
        let (k, v) = sets.pair(i);
        let ghost ki = sets@[i as int].0;
        let ghost vi = sets@[i as int].1;
        proof {
            assert(sets@.take(i + 1).drop_last() =~= sets@.take(i as int));
        }
        h.insert(k.clone(), v.clone());
        assert forall|k2: Seq<char>, v2: Seq<char>|
            #[trigger] has_pair(h@, k2, v2) <==> (has_pair(sets@.take(i + 1), k2, v2) || (!(
            exists|j: int| 0 <= j < i + 1 && sets@[j].0 == k2) && has_pair(pre, k2, v2))) by {
            if k2 == ki {
                assert(has_pair(sets@.take(i + 1), ki, vi)) by {
                    assert(sets@.take(i + 1)[i as int] == (ki, vi));
                }
                if has_pair(sets@.take(i + 1), k2, v2) {
                    let j = choose|j: int|
                        0 <= j < i + 1 && #[trigger] sets@.take(i + 1)[j] == (k2, v2);
                    assert(sets@[j] == (k2, v2));
                    assert(j == i) by {
                        if j < i {
                            assert(sets@[j].0 == sets@[i as int].0);
                        }
                    }
                }
            } else {
                if has_pair(sets@.take(i + 1), k2, v2) {
                    let j = choose|j: int|
                        0 <= j < i + 1 && #[trigger] sets@.take(i + 1)[j] == (k2, v2);
                    assert(sets@.take(i as int)[j] == (k2, v2));
                }
                if has_pair(sets@.take(i as int), k2, v2) {
                    let j = choose|j: int|
                        0 <= j < i && #[trigger] sets@.take(i as int)[j] == (k2, v2);
                    assert(sets@.take(i + 1)[j] == (k2, v2));
                }
            }
        }
        i += 1;
    }
    assert(sets@.take(ns as int) =~= sets@);
    let ghost mid = h@;
    let nd = deletes.len();
    let mut d: usize = 0;
    while d < nd
        invariant
            d <= nd,
            nd == deletes@.len(),
            h.wf(),
            forall|k: Seq<char>, v: Seq<char>|
                #[trigger] has_pair(h@, k, v) <==> (!(exists|j: int|
                    0 <= j < d && deletes.deep_view()[j] == k) && has_pair(mid, k, v)),
        decreases nd - d,
    {
        h.remove(deletes[d].as_str());
        assert(deletes@[d as int]@ == deletes.deep_view()[d as int]);
        d += 1;
    }
    assert forall|k: Seq<char>, v: Seq<char>|
        #[trigger] has_pair(h@, k, v) <==> (!in_list(deletes.deep_view(), k) && (has_pair(
        sets@,
        k,
        v,
    ) || (!sets.spec_has(k) && has_pair(pre, k, v)))) by {
        if sets.spec_has(k) {
            let j = choose|j: int| 0 <= j < sets@.len() && sets@[j].0 == k;
        }
        if has_pair(sets@, k, v) {
            let j = choose|j: int| 0 <= j < sets@.len() && sets@[j] == (k, v);
            assert(sets@[j].0 == k);
        }
    }
}

/// Keep a pair on the way upstream: hop-by-hop names stay behind.
pub open spec fn keep_outbound(p: (Seq<char>, Seq<char>)) -> bool {
    p.0 != "host"@ && p.0 != "content-length"@
}

/// The pairs that go upstream, in stored order.
pub open spec fn outbound_view(s: Seq<(Seq<char>, Seq<char>)>) -> Seq<(Seq<char>, Seq<char>)>
    decreases s.len(),
{
    if s.len() == 0 {
        Seq::empty()
    } else {
        outbound_view(s.drop_last()) + if keep_outbound(s.last()) {
            seq![s.last()]
        } else {
            Seq::empty()
        }
    }
}

pub open spec fn pairs_view(v: Seq<(String, String)>) -> Seq<(Seq<char>, Seq<char>)> {
    Seq::new(v.len(), |i: int| (v[i].0@, v[i].1@))
}

/// The headers sent upstream: everything but `host` and `content-length`.
pub fn outbound_headers(h: &HeaderMap) -> (r: Vec<(String, String)>)
    ensures
        pairs_view(r@) == outbound_view(h@),
{
    let n = h.len();
    let mut out: Vec<(String, String)> = Vec::new();
    let mut i: usize = 0;
    while i < n
        invariant
            i <= n,
            n == h@.len(),
            pairs_view(out@) =~= outbound_view(h@.take(i as int)),
        decreases n - i,
    {
        proof {
            assert(h@.take(i + 1).drop_last() =~= h@.take(i as int));
            assert(h@.take(i + 1).last() == h@[i as int]);
        }
        let (k, v) = h.pair(i);
        if !(crate::strutil::str_eq(k.as_str(), "host") || crate::strutil::str_eq(
            k.as_str(),
            "content-length",
        )) {
            out.push((k.clone(), v.clone()));
        }
        assert(pairs_view(out@) =~= outbound_view(h@.take(i + 1)));
        i += 1;
    }
    assert(h@.take(n as int) =~= h@);
    out
}

/// All of an object's members hold strings.
pub open spec fn all_string_values(pv: Seq<(Seq<char>, JsonV)>) -> bool {
    forall|i: int| 0 <= i < pv.len() ==> (#[trigger] pv[i].1) is Str
}

/// A replacement header mapping taken from a JSON object whose members are
/// all strings; later duplicate names win, as in the object's own lookup.
pub fn headers_from_json_obj(j: &Json) -> (r: Option<HeaderMap>)
    ensures
        match r {
            Some(h) => {
                &&& h.wf()
                &&& j.view() matches JsonV::Obj(pv) && all_string_values(pv)
                &&& forall|k: Seq<char>, v: Seq<char>|
                    #[trigger] has_pair(h@, k, v) <==> (j.view() matches JsonV::Obj(pv)
                        && obj_lookup(pv, k) == Some(JsonV::Str(v)))
            },
            None => !(j.view() matches JsonV::Obj(pv) && all_string_values(pv)),
        },
{
    match j {
        Json::Obj(pairs) => {
            let ghost pv = pair_views_of(pairs@);
            proof {
                assert(j.view() == JsonV::Obj(pv));
            }
            let mut out = HeaderMap::new();
            let n = pairs.len();
            let mut i: usize = 0;
            assert(pv.take(0) =~= Seq::<(Seq<char>, JsonV)>::empty());
            while i < n
                invariant
                    i <= n,
                    n == pairs@.len(),
                    pv == pair_views_of(pairs@),
                    j.view() == JsonV::Obj(pv),
                    out.wf(),
                    forall|j2: int| 0 <= j2 < i ==> (#[trigger] pv[j2].1) is Str,
                    forall|k: Seq<char>, v: Seq<char>|
                        #[trigger] has_pair(out@, k, v) <==> obj_lookup(pv.take(i as int), k)
                            == Some(JsonV::Str(v)),
                decreases n - i,
            {
                proof {
                    assert(pv.take(i + 1).drop_last() =~= pv.take(i as int));
                    assert(pv.take(i + 1).last() == pv[i as int]);
                }
                match &pairs[i].1 {
                    Json::Str(s) => {
                        out.insert(pairs[i].0.clone(), s.clone());
                        assert(pv[i as int] == (pairs@[i as int].0@, JsonV::Str(s@)));
                        assert forall|k: Seq<char>, v: Seq<char>|
                            #[trigger] has_pair(out@, k, v) <==> obj_lookup(
                            pv.take(i + 1),
                            k,
                        ) == Some(JsonV::Str(v)) by {}
                    },
                    _ => {
                        assert(!((pv[i as int].1) is Str));
                        return None;
                    },
                }
                i += 1;
            }
            assert(pv.take(n as int) =~= pv);
            Some(out)
        },
        _ => None,
    }
}

/// Apply an operator's release to the pending request: headers replace
/// wholesale when given, and a given body text is parsed back to a stored
/// body.
pub fn apply_release(req: &mut StoredRequest, headers: Option<HeaderMap>, body: Option<String>)
    requires
        old(req).wf(),
        headers matches Some(h) ==> h.wf(),
    ensures
        final(req).wf(),
        final(req).method@ == old(req).method@,
        final(req).path@ == old(req).path@,
        final(req)@.headers == match headers {
            Some(h) => h@,
            None => old(req)@.headers,
        },
        final(req).body.view() == match body {
            Some(b) => json_or_string_of(b@),
            None => old(req).body.view(),
        },
{
    match headers {
        Some(h) => {
            req.headers = h;
        },
        None => {},
    }
    match body {
        Some(b) => {
            req.body = text_to_json_or_string(b.as_str());
        },
        None => {},
    }
}

/// The metadata an interaction starts from: provider from the request, the
/// model from its body, the measured latency, and — in streaming mode — the
/// delay to the first chunk.
pub open spec fn base_metadata(
    path: Seq<char>,
    headers: Seq<(Seq<char>, Seq<char>)>,
    body: JsonV,
    latency_ms: u128,
    first_chunk: Option<u128>,
) -> MetadataV {
    MetadataV {
        provider: provider_of(path, headers),
        model: model_of(body),
        input_tokens: None,
        output_tokens: None,
        total_tokens: None,
        latency_ms: latency_ms,
        latency_to_first_chunk_ms: first_chunk,
    }
}

fn build_metadata(request: &StoredRequest, final_text: &str, latency_ms: u128, first_chunk: Option<
    u128,
>) -> (r: Metadata)
    requires
        request.wf(),
    ensures
        r@ == extracted(
            base_metadata(request@.path, request@.headers, request@.body, latency_ms, first_chunk),
            final_text@,
        ),
        r.tokens_wf(),
{
    let mut md = detect_provider(request.path.as_str(), &request.headers);
    md.model = extract_model(&request.body);
    md.latency_ms = latency_ms;
    md.latency_to_first_chunk_ms = first_chunk;
    assert(md@ =~= base_metadata(
        request@.path,
        request@.headers,
        request@.body,
        latency_ms,
        first_chunk,
    ));
    extract_usage_tokens(&mut md, final_text);
    md
}

/// The interaction stored after a buffered exchange: the transformed
/// response text is the body, the response headers are redacted, and the
/// metadata is extracted from the final text.
pub fn finalize_buffered(
    id: String,
    recorded_at: String,
    request: StoredRequest,
    status: u16,
    resp_headers: &HeaderMap,
    body_text: &str,
    latency_ms: u128,
) -> (r: Interaction)
    requires
        request.wf(),
        resp_headers.wf(),
    ensures
        r.wf(),
        r@.id == id@,
        r@.recorded_at == recorded_at@,
        r@.request == request@,
        r.response.status == status,
        !r.response.streaming,
        r@.response.headers == redact_view(resp_headers@),
        r@.response.body == Some(json_or_string_of(body_text@)),
        r@.response.chunks.len() == 0,
        r@.metadata == extracted(
            base_metadata(request@.path, request@.headers, request@.body, latency_ms, None),
            body_text@,
        ),
        r.metadata.tokens_wf(),
{
    let md = build_metadata(&request, body_text, latency_ms, None);
    let response = StoredResponse {
        status,
        headers: resp_headers.redacted_copy(),
        streaming: false,
        chunks: Vec::new(),
        body: Some(text_to_json_or_string(body_text)),
    };
    assert(chunks_view(response.chunks@) =~= Seq::<ChunkV>::empty());
    Interaction { id, recorded_at, request, response, metadata: md }
}

/// The interaction stored after a stream ends: the transformed chunks are
/// kept with their delays, there is no buffered body, and the metadata is
/// extracted from the concatenation of the transformed chunk texts.
pub fn finalize_streaming(
    id: String,
    recorded_at: String,
    request: StoredRequest,
    status: u16,
    resp_headers: &HeaderMap,
    chunks: Vec<Chunk>,
    merged: &str,
    latency_ms: u128,
    first_chunk: Option<u128>,
) -> (r: Interaction)
    requires
        request.wf(),
        resp_headers.wf(),
    ensures
        r.wf(),
        r@.id == id@,
        r@.recorded_at == recorded_at@,
        r@.request == request@,
        r.response.status == status,
        r.response.streaming,
        r@.response.headers == redact_view(resp_headers@),
        r@.response.body is None,
        r@.response.chunks == chunks_view(chunks@),
        r@.metadata == extracted(
            base_metadata(request@.path, request@.headers, request@.body, latency_ms, first_chunk),
            merged@,
        ),
        r.metadata.tokens_wf(),
{
    let md = build_metadata(&request, merged, latency_ms, first_chunk);
    let response = StoredResponse {
        status,
        headers: resp_headers.redacted_copy(),
        streaming: true,
        chunks,
        body: None,
    };
    Interaction { id, recorded_at, request, response, metadata: md }
}

/// The upstream response enters streaming mode: its `content-type` value
/// mentions an event stream. Any other value — or none — stays buffered,
/// however the body arrives.
pub open spec fn streaming_response(h: Seq<(Seq<char>, Seq<char>)>) -> bool {
    exists|v: Seq<char>|
        #[trigger] has_pair(h, "content-type"@, v) && crate::strutil::has_substring(
            v,
            "text/event-stream"@,
        )
}

/// Decide streaming mode from the upstream response headers.
pub fn response_is_streaming(h: &HeaderMap) -> (r: bool)
    requires
        h.wf(),
    ensures
        r == streaming_response(h@),
{
    match h.get("content-type") {
        Some(v) => {
            let hit = crate::strutil::str_contains(v.as_str(), "text/event-stream");
            proof {
                crate::model::lemma_wf_value_unique(h);
                if !hit {
                    assert forall|v2: Seq<char>| #[trigger] has_pair(
                        h@,
                        "content-type"@,
                        v2,
                    ) implies !crate::strutil::has_substring(v2, "text/event-stream"@) by {
                        assert(has_pair(h@, "content-type"@, v@));
                    }
                }
            }
            hit
        },
        None => {
            proof {
                crate::model::lemma_no_key_no_pair(h, "content-type"@);
            }
            false
        },
    }
}

/// Record one transformed chunk: append it with its delay and extend the
/// merged transcript.
pub fn append_chunk(chunks: &mut Vec<Chunk>, merged: &mut String, delay_ms: u128, data: String)
    ensures
        chunks_view(final(chunks)@) == chunks_view(old(chunks)@).push(
            ChunkV { delay_ms, data: data@ },
        ),
        final(merged)@ == old(merged)@ + data@,
{
    merged.append(data.as_str());
    let ghost pre = chunks@;
    chunks.push(Chunk { delay_ms, data });
    assert(chunks_view(chunks@) =~= chunks_view(pre).push(
        ChunkV { delay_ms, data: chunks@[pre.len() as int].data@ },
    ));
}

} // verus!
