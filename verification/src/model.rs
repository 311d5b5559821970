//! The captured data model: requests, responses, chunks, metadata and whole
//! interactions, with their mathematical views, redacted copies, and
//! provider detection.

use vstd::prelude::*;
use crate::headers::{HeaderMap, redact_view, has_pair};
use crate::json::{Json, JsonV, views_of, pair_views_of};
use crate::strutil::{has_substring, is_prefix, lower_seq, str_contains, ascii_lowercase,
    str_starts_with};

verus! {

/// One captured stream chunk: the delay since the previous chunk (or since
/// the request started, for the first) and the transformed text.
pub struct Chunk {
    pub delay_ms: u128,
    pub data: String,
}

#[verifier::ext_equal]
pub struct ChunkV {
    pub delay_ms: u128,
    pub data: Seq<char>,
}

impl Chunk {
    pub open spec fn view(&self) -> ChunkV {
        ChunkV { delay_ms: self.delay_ms, data: self.data@ }
    }
}

pub open spec fn chunks_view(v: Seq<Chunk>) -> Seq<ChunkV> {
    Seq::new(
        v.len(),
        |i: int|
            if 0 <= i < v.len() {
                v[i].view()
            } else {
                ChunkV { delay_ms: 0, data: Seq::empty() }
            },
    )
}

/// Derived metadata of one interaction.
pub struct Metadata {
    pub provider: Option<String>,
    pub model: Option<String>,
    pub input_tokens: Option<u64>,
    pub output_tokens: Option<u64>,
    pub total_tokens: Option<u64>,
    pub latency_ms: u128,
    pub latency_to_first_chunk_ms: Option<u128>,
}

pub open spec fn opt_str_view(o: Option<String>) -> Option<Seq<char>> {
    match o {
        Some(s) => Some(s@),
        None => None,
    }
}

#[verifier::ext_equal]
pub struct MetadataV {
    pub provider: Option<Seq<char>>,
    pub model: Option<Seq<char>>,
    pub input_tokens: Option<u64>,
    pub output_tokens: Option<u64>,
    pub total_tokens: Option<u64>,
    pub latency_ms: u128,
    pub latency_to_first_chunk_ms: Option<u128>,
}

impl Metadata {
    pub open spec fn view(&self) -> MetadataV {
        MetadataV {
            provider: opt_str_view(self.provider),
            model: opt_str_view(self.model),
            input_tokens: self.input_tokens,
            output_tokens: self.output_tokens,
            total_tokens: self.total_tokens,
            latency_ms: self.latency_ms,
            latency_to_first_chunk_ms: self.latency_to_first_chunk_ms,
        }
    }

    /// When both sides are known, the total is their sum.
    pub open spec fn tokens_wf(&self) -> bool {
        (self.input_tokens is Some && self.output_tokens is Some) ==> self.total_tokens == Some(
            (self.input_tokens->0 + self.output_tokens->0) as u64,
        ) && self.input_tokens->0 + self.output_tokens->0 <= u64::MAX
    }

    pub fn empty() -> (r: Metadata)
        ensures
            r@ == (MetadataV {
                provider: None,
                model: None,
                input_tokens: None,
                output_tokens: None,
                total_tokens: None,
                latency_ms: 0,
                latency_to_first_chunk_ms: None,
            }),
            r.tokens_wf(),
    {
        Metadata {
            provider: None,
            model: None,
            input_tokens: None,
            output_tokens: None,
            total_tokens: None,
            latency_ms: 0,
            latency_to_first_chunk_ms: None,
        }
    }

    pub fn copy(&self) -> (r: Metadata)
        ensures
            r@ == self@,
    {
        Metadata {
            provider: match &self.provider {
                Some(s) => Some(s.clone()),
                None => None,
            },
            model: match &self.model {
                Some(s) => Some(s.clone()),
                None => None,
            },
            input_tokens: self.input_tokens,
            output_tokens: self.output_tokens,
            total_tokens: self.total_tokens,
            latency_ms: self.latency_ms,
            latency_to_first_chunk_ms: self.latency_to_first_chunk_ms,
        }
    }
}

/// The stored form of a client request.
pub struct StoredRequest {
    pub method: String,
    pub path: String,
    pub headers: HeaderMap,
    pub body: Json,
}

#[verifier::ext_equal]
pub struct StoredRequestV {
    pub method: Seq<char>,
    pub path: Seq<char>,
    pub headers: Seq<(Seq<char>, Seq<char>)>,
    pub body: JsonV,
}

impl StoredRequest {
    pub open spec fn view(&self) -> StoredRequestV {
        StoredRequestV {
            method: self.method@,
            path: self.path@,
            headers: self.headers@,
            body: self.body.view(),
        }
    }

    pub open spec fn wf(&self) -> bool {
        self.headers.wf()
    }

    pub fn copy(&self) -> (r: StoredRequest)
        ensures
            r@ == self@,
            r.headers.wf() == self.headers.wf(),
    {
        let r = StoredRequest {
            method: self.method.clone(),
            path: self.path.clone(),
            headers: copy_headers(&self.headers),
            body: json_clone(&self.body),
        };
        assert(r@ =~= self@);
        r
    }
}

/// The stored form of an upstream response.
pub struct StoredResponse {
    pub status: u16,
    pub headers: HeaderMap,
    pub streaming: bool,
    pub chunks: Vec<Chunk>,
    pub body: Option<Json>,
}

#[verifier::ext_equal]
pub struct StoredResponseV {
    pub status: u16,
    pub headers: Seq<(Seq<char>, Seq<char>)>,
    pub streaming: bool,
    pub chunks: Seq<ChunkV>,
    pub body: Option<JsonV>,
}

pub open spec fn opt_json_view(o: &Option<Json>) -> Option<JsonV> {
    match o {
        Some(j) => Some(j.view()),
        None => None,
    }
}

impl StoredResponse {
    pub open spec fn view(&self) -> StoredResponseV {
        StoredResponseV {
            status: self.status,
            headers: self.headers@,
            streaming: self.streaming,
            chunks: chunks_view(self.chunks@),
            body: opt_json_view(&self.body),
        }
    }

    /// Exactly one of the chunk list (streaming) or the body (buffered)
    /// carries payload.
    pub open spec fn wf(&self) -> bool {
        &&& self.headers.wf()
        &&& if self.streaming {
            self.body is None
        } else {
            self.body is Some && self.chunks@.len() == 0
        }
    }

    pub fn copy(&self) -> (r: StoredResponse)
        ensures
            r@ == self@,
            r.headers.wf() == self.headers.wf(),
    {
        let mut chunks: Vec<Chunk> = Vec::new();
        let n = self.chunks.len();
        let mut i: usize = 0;
        while i < n
            invariant
                i <= n,
                n == self.chunks@.len(),
                chunks@.len() == i,
                forall|j: int| 0 <= j < i ==> #[trigger] chunks@[j]@ == self.chunks@[j]@,
            decreases n - i,
        {
            let c = Chunk { delay_ms: self.chunks[i].delay_ms, data: self.chunks[i].data.clone() };
            assert(c@ == self.chunks@[i as int]@);
            chunks.push(c);
            i += 1;
        }
        assert(chunks_view(chunks@) =~= chunks_view(self.chunks@));
        let r = StoredResponse {
            status: self.status,
            headers: copy_headers(&self.headers),
            streaming: self.streaming,
            chunks,
            body: match &self.body {
                Some(j) => Some(json_clone(j)),
                None => None,
            },
        };
        assert(r@ =~= self@);
        r
    }
}

/// One captured request/response pair with derived metadata.
pub struct Interaction {
    pub id: String,
    pub recorded_at: String,
    pub request: StoredRequest,
    pub response: StoredResponse,
    pub metadata: Metadata,
}

#[verifier::ext_equal]
pub struct InteractionV {
    pub id: Seq<char>,
    pub recorded_at: Seq<char>,
    pub request: StoredRequestV,
    pub response: StoredResponseV,
    pub metadata: MetadataV,
}

impl Interaction {
    pub open spec fn view(&self) -> InteractionV {
        InteractionV {
            id: self.id@,
            recorded_at: self.recorded_at@,
            request: self.request.view(),
            response: self.response.view(),
            metadata: self.metadata.view(),
        }
    }

    pub open spec fn wf(&self) -> bool {
        self.request.wf() && self.response.wf()
    }

    pub fn copy(&self) -> (r: Interaction)
        ensures
            r@ == self@,
            r.wf() == self.wf(),
    {
        let r = Interaction {
            id: self.id.clone(),
            recorded_at: self.recorded_at.clone(),
            request: self.request.copy(),
            response: self.response.copy(),
            metadata: self.metadata.copy(),
        };
        assert(r@ =~= self@);
        assert(r.request.headers.wf() == self.request.headers.wf());
        assert(r.response.headers.wf() == self.response.headers.wf());
        assert(r.response@ == self.response@);
        assert(r.response.streaming == self.response.streaming);
        assert(opt_json_view(&r.response.body) == opt_json_view(&self.response.body));
        assert(chunks_view(r.response.chunks@).len() == chunks_view(self.response.chunks@).len());
        assert(r.response.chunks@.len() == self.response.chunks@.len());
        r
    }
}

/// A deep copy of a JSON value.
#[verifier::loop_isolation(false)]
pub fn json_clone(j: &Json) -> (r: Json)
    ensures
        r.view() == j.view(),
    decreases j,
{
    match j {
        Json::Null => Json::Null,
        Json::Bool(b) => Json::Bool(*b),
        Json::Num(s) => Json::Num(s.clone()),
        Json::Str(s) => Json::Str(s.clone()),
        Json::Arr(v) => {
            let mut out: Vec<Json> = Vec::new();
            let n = v.len();
            let mut i: usize = 0;
            while i < n
                invariant
                    i <= n,
                    n == v@.len(),
                    views_of(out@) =~= views_of(v@).take(i as int),
                decreases n - i,
            {
                out.push(json_clone(&v[i]));
                assert(views_of(out@) =~= views_of(v@).take(i + 1));
                i += 1;
            }
            assert(views_of(out@) =~= views_of(v@));
            Json::Arr(out)
        },
        Json::Obj(v) => {
            let mut out: Vec<(String, Json)> = Vec::new();
            let n = v.len();
            let mut i: usize = 0;
            while i < n
                invariant
                    i <= n,
                    n == v@.len(),
                    pair_views_of(out@) =~= pair_views_of(v@).take(i as int),
                decreases n - i,
            {
                let key = v[i].0.clone();
                out.push((key, json_clone(&v[i].1)));
                assert(pair_views_of(out@) =~= pair_views_of(v@).take(i + 1));
                i += 1;
            }
            assert(pair_views_of(out@) =~= pair_views_of(v@));
            Json::Obj(out)
        },
    }
}

/// A plain copy of a header mapping.
pub fn copy_headers(h: &HeaderMap) -> (r: HeaderMap)
    ensures
        r@ == h@,
        r.wf() == h.wf(),
{
    let mut out = HeaderMap::new();
    let n = h.len();
    let mut i: usize = 0;
    while i < n
        invariant
            i <= n,
            n == h@.len(),
            out@ =~= h@.take(i as int),
        decreases n - i,
    {
        let (k, v) = h.pair(i);
        out.push_pair(k.clone(), v.clone());
        assert(out@ =~= h@.take(i + 1));
        i += 1;
    }
    assert(out@ =~= h@);
    out
}

/// The whole interaction, with both header mappings redacted.
pub open spec fn redact_interaction_view(v: InteractionV) -> InteractionV {
    InteractionV {
        request: StoredRequestV { headers: redact_view(v.request.headers), ..v.request },
        response: StoredResponseV { headers: redact_view(v.response.headers), ..v.response },
        ..v
    }
}

/// A redacted copy of an interaction, for anything that leaves the core;
/// the stored original is untouched.
pub fn redact_interaction(i: &Interaction) -> (r: Interaction)
    ensures
        r@ == redact_interaction_view(i@),
        i.wf() ==> r.wf(),
{
    let mut out = i.copy();
    out.request.headers.redact();
    out.response.headers.redact();
    assert(out@ =~= redact_interaction_view(i@));
    out
}

/// Redacting an interaction twice equals redacting it once.
pub proof fn lemma_redact_interaction_idempotent(v: InteractionV)
    ensures
        redact_interaction_view(redact_interaction_view(v)) == redact_interaction_view(v),
{
    crate::headers::lemma_redact_idempotent(v.request.headers);
    crate::headers::lemma_redact_idempotent(v.response.headers);
    assert(redact_interaction_view(redact_interaction_view(v)) =~= redact_interaction_view(v));
}

/// The provider that a request denotes: a messages path with an `x-api-key`
/// header is `anthropic`; a chat-completions path with a bearer
/// `authorization` header is `openai`; anything else is unknown.
pub open spec fn provider_of(path: Seq<char>, h: Seq<(Seq<char>, Seq<char>)>) -> Option<
    Seq<char>,
> {
    if has_substring(path, "/v1/messages"@) && (exists|v: Seq<char>|
        has_pair(h, "x-api-key"@, v)) {
        Some("anthropic"@)
    } else if has_substring(path, "/v1/chat/completions"@) && (exists|v: Seq<char>|
        has_pair(h, "authorization"@, v) && is_prefix(lower_seq(v), "bearer "@)) {
        Some("openai"@)
    } else {
        None
    }
}

/// Detect the provider from the request path and headers; every other
/// metadata field is unset.
pub fn detect_provider(path: &str, headers: &HeaderMap) -> (r: Metadata)
    requires
        headers.wf(),
    ensures
        opt_str_view(r.provider) == provider_of(path@, headers@),
        r.model is None,
        r.input_tokens is None,
        r.output_tokens is None,
        r.total_tokens is None,
        r.latency_ms == 0,
        r.latency_to_first_chunk_ms is None,
        r.tokens_wf(),
{
    let mut md = Metadata::empty();
    let anthropic = str_contains(path, "/v1/messages") && headers.contains_key("x-api-key");
    proof {
        if !headers.spec_has("x-api-key"@) {
            lemma_no_key_no_pair(headers, "x-api-key"@);
        }
    }
    if anthropic {
        proof {
            let i = choose|i: int| 0 <= i < headers@.len() && headers@[i].0 == "x-api-key"@;
            assert(has_pair(headers@, "x-api-key"@, headers@[i].1));
        }
        md.provider = Some(String::from_str("anthropic"));
        return md;
    }
    if str_contains(path, "/v1/chat/completions") {
        match headers.get("authorization") {
            Some(v) => {
                let low = ascii_lowercase(v.as_str());
                if str_starts_with(low.as_str(), "bearer ") {
                    md.provider = Some(String::from_str("openai"));
                } else {
                    proof {
                        lemma_wf_value_unique(headers);
                        assert forall|v2: Seq<char>| #[trigger] has_pair(
                            headers@,
                            "authorization"@,
                            v2,
                        ) implies !is_prefix(lower_seq(v2), "bearer "@) by {
                            assert(has_pair(headers@, "authorization"@, v@));
                        }
                    }
                }
            },
            None => {
                proof {
                    lemma_no_key_no_pair(headers, "authorization"@);
                }
            },
        }
    }
    md
}

/// A key that the mapping lacks stands in no pair.
pub proof fn lemma_no_key_no_pair(h: &HeaderMap, k: Seq<char>)
    requires
        !h.spec_has(k),
    ensures
        forall|v: Seq<char>| !has_pair(h@, k, v),
{
    assert forall|v: Seq<char>| !has_pair(h@, k, v) by {
        if has_pair(h@, k, v) {
            let i = choose|i: int| 0 <= i < h@.len() && h@[i] == (k, v);
            assert(h@[i].0 == k);
        }
    }
}

/// With unique keys, one key holds at most one value.
pub proof fn lemma_wf_value_unique(h: &HeaderMap)
    requires
        h.wf(),
    ensures
        forall|k: Seq<char>, v1: Seq<char>, v2: Seq<char>|
            #[trigger] has_pair(h@, k, v1) && #[trigger] has_pair(h@, k, v2) ==> v1 == v2,
{
    assert forall|k: Seq<char>, v1: Seq<char>, v2: Seq<char>|
        #[trigger] has_pair(h@, k, v1) && #[trigger] has_pair(h@, k, v2) implies v1 == v2 by {
        let i = choose|i: int| 0 <= i < h@.len() && h@[i] == (k, v1);
        let j = choose|j: int| 0 <= j < h@.len() && h@[j] == (k, v2);
        if i != j {
            assert(h@[i].0 == h@[j].0);
        }
    }
}

} // verus!
