//! Cassette rendering: one JSON document holding the session's interactions,
//! written by the record sink and the explicit save endpoint.

use vstd::prelude::*;
use crate::headers::HeaderMap;
use crate::json::{Json, JsonV, ser_json, to_json_text, dec_str, u64_to_dec, u128_to_dec,
    pair_views_of, views_of};
use crate::model::{Interaction, InteractionV, StoredRequestV, StoredResponseV, MetadataV, ChunkV,
    chunks_view, json_clone};
use crate::ring::interactions_view;
use crate::strutil::str_eq;
use vstd::assert_seqs_equal;

verus! {

/// A header mapping as JSON object members, in stored order.
pub open spec fn headers_json_seq(h: Seq<(Seq<char>, Seq<char>)>) -> Seq<(Seq<char>, JsonV)> {
    Seq::new(h.len(), |i: int| (h[i].0, JsonV::Str(h[i].1)))
}

/// A header mapping as a JSON object, in stored order.
pub open spec fn headers_json(h: Seq<(Seq<char>, Seq<char>)>) -> JsonV {
    JsonV::Obj(headers_json_seq(h))
}

/// The chunk list as JSON values, in order.
pub open spec fn chunks_json_seq(c: Seq<ChunkV>) -> Seq<JsonV> {
    Seq::new(c.len(), |i: int| chunk_json(c[i]))
}

/// The interactions as JSON values, in order.
pub open spec fn interactions_json_seq(items: Seq<InteractionV>) -> Seq<JsonV> {
    Seq::new(items.len(), |i: int| interaction_json(items[i]))
}

pub open spec fn opt_str_json(o: Option<Seq<char>>) -> JsonV {
    match o {
        Some(s) => JsonV::Str(s),
        None => JsonV::Null,
    }
}

pub open spec fn opt_u64_json(o: Option<u64>) -> JsonV {
    match o {
        Some(n) => JsonV::Num(dec_str(n as int)),
        None => JsonV::Null,
    }
}

pub open spec fn opt_u128_json(o: Option<u128>) -> JsonV {
    match o {
        Some(n) => JsonV::Num(dec_str(n as int)),
        None => JsonV::Null,
    }
}

pub open spec fn chunk_json(c: ChunkV) -> JsonV {
    JsonV::Obj(
        seq![
            ("delay_ms"@, JsonV::Num(dec_str(c.delay_ms as int))),
            ("data"@, JsonV::Str(c.data)),
        ],
    )
}

pub open spec fn request_json(r: StoredRequestV) -> JsonV {
    JsonV::Obj(
        seq![
            ("method"@, JsonV::Str(r.method)),
            ("path"@, JsonV::Str(r.path)),
            ("headers"@, headers_json(r.headers)),
            ("body"@, r.body),
        ],
    )
}

pub open spec fn response_json(r: StoredResponseV) -> JsonV {
    JsonV::Obj(
        seq![
            ("status"@, JsonV::Num(dec_str(r.status as int))),
            ("headers"@, headers_json(r.headers)),
            ("streaming"@, JsonV::Bool(r.streaming)),
            ("chunks"@, JsonV::Arr(chunks_json_seq(r.chunks))),
            (
                "body"@,
                match r.body {
                    Some(v) => v,
                    None => JsonV::Null,
                },
            ),
        ],
    )
}

pub open spec fn metadata_json(m: MetadataV) -> JsonV {
    JsonV::Obj(
        seq![
            ("provider"@, opt_str_json(m.provider)),
            ("model"@, opt_str_json(m.model)),
            ("input_tokens"@, opt_u64_json(m.input_tokens)),
            ("output_tokens"@, opt_u64_json(m.output_tokens)),
            ("total_tokens"@, opt_u64_json(m.total_tokens)),
            ("latency_ms"@, JsonV::Num(dec_str(m.latency_ms as int))),
            ("latency_to_first_chunk_ms"@, opt_u128_json(m.latency_to_first_chunk_ms)),
        ],
    )
}

/// One interaction as the JSON value that the cassette holds.
pub open spec fn interaction_json(v: InteractionV) -> JsonV {
    JsonV::Obj(
        seq![
            ("id"@, JsonV::Str(v.id)),
            ("recorded_at"@, JsonV::Str(v.recorded_at)),
            ("request"@, request_json(v.request)),
            ("response"@, response_json(v.response)),
            ("metadata"@, metadata_json(v.metadata)),
        ],
    )
}

/// The whole cassette document.
pub open spec fn cassette_json(
    items: Seq<InteractionV>,
    upstream: Seq<char>,
    cassette_id: Seq<char>,
    created_at: Seq<char>,
) -> JsonV {
    JsonV::Obj(
        seq![
            ("replayr_version"@, JsonV::Str("1"@)),
            (
                "cassette"@,
                JsonV::Obj(
                    seq![
                        ("id"@, JsonV::Str(cassette_id)),
                        ("name"@, JsonV::Str("session"@)),
                        ("created_at"@, JsonV::Str(created_at)),
                        ("upstream"@, JsonV::Str(upstream)),
                    ],
                ),
            ),
            ("interactions"@, JsonV::Arr(interactions_json_seq(items))),
        ],
    )
}

fn key(s: &str) -> (r: String)
    ensures
        r@ == s@,
{
    String::from_str(s)
}

pub fn headers_to_json(h: &HeaderMap) -> (r: Json)
    ensures
        r.view() == headers_json(h@),
{
    let n = h.len();
    let mut pairs: Vec<(String, Json)> = Vec::new();
    while pairs.len() < n
        invariant
            pairs@.len() <= n,
            n == h@.len(),
            pair_views_of(pairs@) == headers_json_seq(h@.take(pairs@.len() as int)),
        decreases n - pairs.len(),
    {
        let i = pairs.len();
        let (k, v) = h.pair(i);
        let ghost prev = pairs@;
        pairs.push((k.clone(), Json::Str(v.clone())));
        assert(pairs@.len() == prev.len() + 1);
        assert(forall|j: int| 0 <= j < prev.len() ==> pairs@[j] == prev[j]);
        assert(pairs@[i as int].0@ == h@[i as int].0);
        assert(pairs@[i as int].1.view() == JsonV::Str(h@[i as int].1));
        proof {
            assert_seqs_equal!(
                pair_views_of(pairs@) == headers_json_seq(h@.take(pairs@.len() as int)),
                j => {
                    assert(pair_views_of(pairs@)[j] == (pairs@[j].0@, pairs@[j].1.view()));
                    if j < i {
                        assert(pairs@[j] == prev[j]);
                        assert(pair_views_of(prev)[j] == (prev[j].0@, prev[j].1.view()));
                    }
                }
            );
        }
    }
    proof {
        assert(h@.take(n as int) =~= h@);
    }
    let r = Json::Obj(pairs);
    assert(r.view() == headers_json(h@));
    r
}

fn opt_string_to_json(o: &Option<String>) -> (r: Json)
    ensures
        r.view() == opt_str_json(crate::model::opt_str_view(*o)),
{
    match o {
        Some(s) => Json::Str(s.clone()),
        None => Json::Null,
    }
}

fn opt_u64_to_json(o: &Option<u64>) -> (r: Json)
    ensures
        r.view() == opt_u64_json(*o),
{
    match o {
        Some(n) => Json::Num(u64_to_dec(*n)),
        None => Json::Null,
    }
}

fn opt_u128_to_json(o: &Option<u128>) -> (r: Json)
    ensures
        r.view() == opt_u128_json(*o),
{
    match o {
        Some(n) => Json::Num(u128_to_dec(*n)),
        None => Json::Null,
    }
}

/// One interaction as a JSON value.
#[verifier::rlimit(100)]
pub fn interaction_to_json(x: &Interaction) -> (r: Json)
    ensures
        r.view() == interaction_json(x@),
{
    let req = {
        let mut pairs: Vec<(String, Json)> = Vec::new();
        pairs.push((key("method"), Json::Str(x.request.method.clone())));
        pairs.push((key("path"), Json::Str(x.request.path.clone())));
        pairs.push((key("headers"), headers_to_json(&x.request.headers)));
        pairs.push((key("body"), json_clone(&x.request.body)));
        proof {
            assert(pair_views_of(pairs@) =~= seq![
                ("method"@, JsonV::Str(x@.request.method)),
                ("path"@, JsonV::Str(x@.request.path)),
                ("headers"@, headers_json(x@.request.headers)),
                ("body"@, x@.request.body),
            ]);
        }
        let r = Json::Obj(pairs);
        assert(r.view() == request_json(x@.request));
        r
    };
    let resp = {
        let mut chunks: Vec<Json> = Vec::new();
        let n = x.response.chunks.len();
        while chunks.len() < n
            invariant
                chunks@.len() <= n,
                n == x.response.chunks@.len(),
                views_of(chunks@) =~= Seq::new(
                    chunks@.len() as nat,
                    |i: int| chunk_json(chunks_view(x.response.chunks@)[i]),
                ),
            decreases n - chunks.len(),
        {
            let i = chunks.len();
            let mut cp: Vec<(String, Json)> = Vec::new();
            cp.push((key("delay_ms"), Json::Num(u128_to_dec(x.response.chunks[i].delay_ms))));
            cp.push((key("data"), Json::Str(x.response.chunks[i].data.clone())));
            proof {
                let cv = chunks_view(x.response.chunks@)[i as int];
                assert(pair_views_of(cp@) =~= seq![
                    ("delay_ms"@, JsonV::Num(dec_str(cv.delay_ms as int))),
                    ("data"@, JsonV::Str(cv.data)),
                ]);
            }
            let cj = Json::Obj(cp);
            assert(cj.view() == chunk_json(chunks_view(x.response.chunks@)[i as int]));
            let ghost prevc = chunks@;
            chunks.push(cj);
            assert(chunks@.len() == prevc.len() + 1);
            assert(forall|j: int| 0 <= j < prevc.len() ==> chunks@[j] == prevc[j]);
            assert(chunks@[i as int].view() == chunk_json(chunks_view(x.response.chunks@)[
                i as int]));
            proof {
                assert_seqs_equal!(
                    views_of(chunks@) == chunks_json_seq(chunks_view(x.response.chunks@).take(
                        chunks@.len() as int,
                    )),
                    j => {
                        assert(views_of(chunks@)[j] == chunks@[j].view());
                        if j < i {
                            assert(chunks@[j] == prevc[j]);
                            assert(views_of(prevc)[j] == prevc[j].view());
                        }
                    }
                );
            }
        }
        proof {
            assert(chunks_view(x.response.chunks@).take(chunks@.len() as int) =~= x@.response.chunks);
            assert(views_of(chunks@) == chunks_json_seq(x@.response.chunks));
        }
        let mut pairs: Vec<(String, Json)> = Vec::new();
        pairs.push((key("status"), Json::Num(crate::json::u64_to_dec(x.response.status as u64))));
        pairs.push((key("headers"), headers_to_json(&x.response.headers)));
        pairs.push((key("streaming"), Json::Bool(x.response.streaming)));
        pairs.push((key("chunks"), Json::Arr(chunks)));
        pairs.push(
            (
                key("body"),
                match &x.response.body {
                    Some(b) => json_clone(b),
                    None => Json::Null,
                },
            ),
        );
        let ghost pvs = pair_views_of(pairs@);
        proof {
            assert(pvs =~= seq![
                ("status"@, JsonV::Num(dec_str(x@.response.status as int))),
                ("headers"@, headers_json(x@.response.headers)),
                ("streaming"@, JsonV::Bool(x@.response.streaming)),
                ("chunks"@, JsonV::Arr(chunks_json_seq(x@.response.chunks))),
                (
                    "body"@,
                    match x@.response.body {
                        Some(v) => v,
                        None => JsonV::Null,
                    },
                ),
            ]);
            let p = response_json(x@.response)->Obj_0;
            assert(p.len() == 5);
            assert(p[0] == ("status"@, JsonV::Num(dec_str(x@.response.status as int))));
            assert(p[1] == ("headers"@, headers_json(x@.response.headers)));
            assert(p[2] == ("streaming"@, JsonV::Bool(x@.response.streaming)));
            assert(p[3] == ("chunks"@, JsonV::Arr(chunks_json_seq(x@.response.chunks))));
            assert(p[4] == ("body"@, match x@.response.body {
                Some(v) => v,
                None => JsonV::Null,
            }));
            assert(p =~= pvs);
            assert(response_json(x@.response) == JsonV::Obj(pvs));
        }
        let r = Json::Obj(pairs);
        assert(r.view() == JsonV::Obj(pvs));
        assert(r.view() == response_json(x@.response));
        r
    };
    let meta = {
        let mut pairs: Vec<(String, Json)> = Vec::new();
        pairs.push((key("provider"), opt_string_to_json(&x.metadata.provider)));
        pairs.push((key("model"), opt_string_to_json(&x.metadata.model)));
        pairs.push((key("input_tokens"), opt_u64_to_json(&x.metadata.input_tokens)));
        pairs.push((key("output_tokens"), opt_u64_to_json(&x.metadata.output_tokens)));
        pairs.push((key("total_tokens"), opt_u64_to_json(&x.metadata.total_tokens)));
        pairs.push((key("latency_ms"), Json::Num(u128_to_dec(x.metadata.latency_ms))));
        pairs.push(
            (
                key("latency_to_first_chunk_ms"),
                opt_u128_to_json(&x.metadata.latency_to_first_chunk_ms),
            ),
        );
        proof {
            assert(pair_views_of(pairs@) =~= seq![
                ("provider"@, opt_str_json(x@.metadata.provider)),
                ("model"@, opt_str_json(x@.metadata.model)),
                ("input_tokens"@, opt_u64_json(x@.metadata.input_tokens)),
                ("output_tokens"@, opt_u64_json(x@.metadata.output_tokens)),
                ("total_tokens"@, opt_u64_json(x@.metadata.total_tokens)),
                ("latency_ms"@, JsonV::Num(dec_str(x@.metadata.latency_ms as int))),
                ("latency_to_first_chunk_ms"@, opt_u128_json(x@.metadata.latency_to_first_chunk_ms)),
            ]);
        }
        let r = Json::Obj(pairs);
        assert(r.view() == metadata_json(x@.metadata));
        r
    };
    let mut pairs: Vec<(String, Json)> = Vec::new();
    pairs.push((key("id"), Json::Str(x.id.clone())));
    pairs.push((key("recorded_at"), Json::Str(x.recorded_at.clone())));
    pairs.push((key("request"), req));
    pairs.push((key("response"), resp));
    pairs.push((key("metadata"), meta));
    proof {
        assert(pair_views_of(pairs@) =~= seq![
            ("id"@, JsonV::Str(x@.id)),
            ("recorded_at"@, JsonV::Str(x@.recorded_at)),
            ("request"@, request_json(x@.request)),
            ("response"@, response_json(x@.response)),
            ("metadata"@, metadata_json(x@.metadata)),
        ]);
    }
    let r = Json::Obj(pairs);
    assert(r.view() == interaction_json(x@));
    r
}

/// The id stands in the allow-list.
pub fn id_in_list(ids: &Vec<String>, id: &str) -> (r: bool)
    ensures
        r == crate::proxy::in_list(ids.deep_view(), id@),
{
    let n = ids.len();
    let mut i: usize = 0;
    while i < n
        invariant
            i <= n,
            n == ids@.len(),
            forall|j: int| 0 <= j < i ==> ids.deep_view()[j] != id@,
        decreases n - i,
    {
        if str_eq(ids[i].as_str(), id) {
            assert(ids.deep_view()[i as int] == id@);
            return true;
        }
        assert(ids@[i as int]@ == ids.deep_view()[i as int]);
        i += 1;
    }
    false
}

/// The interactions kept by an optional id allow-list, in given order.
pub open spec fn kept_by_ids(s: Seq<InteractionV>, ids: Option<Seq<Seq<char>>>) -> Seq<
    InteractionV,
>
    decreases s.len(),
{
    match ids {
        None => s,
        Some(list) => if s.len() == 0 {
            Seq::empty()
        } else {
            kept_by_ids(s.drop_last(), ids) + if crate::proxy::in_list(list, s.last().id) {
                seq![s.last()]
            } else {
                Seq::empty()
            }
        },
    }
}

/// Render the cassette text for the given (already redacted) interactions,
/// keeping only the allow-listed ids when a list is given. The second result
/// is how many interactions the document holds.
pub fn render_cassette(
    items: &Vec<Interaction>,
    ids: &Option<Vec<String>>,
    upstream: &str,
    cassette_id: &str,
    created_at: &str,
) -> (r: (String, usize))
    ensures
        ({
            let kept = kept_by_ids(
                interactions_view(items@),
                match ids {
                    Some(l) => Some(l.deep_view()),
                    None => None,
                },
            );
            &&& r.0@ == ser_json(cassette_json(kept, upstream@, cassette_id@, created_at@))
            &&& r.1 == kept.len()
        }),
{
    let ghost idsv: Option<Seq<Seq<char>>> = match ids {
        Some(l) => Some(l.deep_view()),
        None => None,
    };
    let n = items.len();
    let mut kept: Vec<Interaction> = Vec::new();
    let mut i: usize = 0;
    while i < n
        invariant
            i <= n,
            n == items@.len(),
            idsv == (match ids {
                Some(l) => Some(l.deep_view()),
                None => None::<Seq<Seq<char>>>,
            }),
            interactions_view(kept@) =~= kept_by_ids(
                interactions_view(items@).take(i as int),
                idsv,
            ),
        decreases n - i,
    {
        proof {
            if idsv is Some {
                assert(interactions_view(items@).take(i + 1).drop_last() =~= interactions_view(
                    items@,
                ).take(i as int));
                assert(interactions_view(items@).take(i + 1).last() == items@[i as int]@);
            } else {
                assert(kept_by_ids(interactions_view(items@).take(i + 1), idsv)
                    == interactions_view(items@).take(i + 1));
            }
        }
        let keep = match ids {
            Some(list) => id_in_list(list, items[i].id.as_str()),
            None => true,
        };
        if keep {
            kept.push(items[i].copy());
        }
        assert(interactions_view(kept@) =~= kept_by_ids(
            interactions_view(items@).take(i + 1),
            idsv,
        ));
        i += 1;
    }
    assert(interactions_view(items@).take(n as int) =~= interactions_view(items@));
    let ghost keptv = kept_by_ids(interactions_view(items@), idsv);
    let count = kept.len();
    let m = kept.len();
    let mut arr: Vec<Json> = Vec::new();
    while arr.len() < m
        invariant
            arr@.len() <= m,
            m == kept@.len(),
            interactions_view(kept@) == keptv,
            views_of(arr@) =~= Seq::new(arr@.len() as nat, |i: int| interaction_json(keptv[i])),
        decreases m - arr.len(),
    {
        let i = arr.len();
        let ij = interaction_to_json(&kept[i]);
        assert(ij.view() == interaction_json(keptv[i as int]));
        let ghost preva = arr@;
        arr.push(ij);
        assert(arr@.len() == preva.len() + 1);
        assert(forall|j: int| 0 <= j < preva.len() ==> arr@[j] == preva[j]);
        assert(arr@[i as int].view() == interaction_json(keptv[i as int]));
        proof {
            assert_seqs_equal!(
                views_of(arr@) == interactions_json_seq(keptv.take(arr@.len() as int)),
                j => {
                    assert(views_of(arr@)[j] == arr@[j].view());
                    if j < i {
                        assert(arr@[j] == preva[j]);
                        assert(views_of(preva)[j] == preva[j].view());
                    }
                }
            );
        }
    }
    proof {
        assert(keptv.take(arr@.len() as int) =~= keptv);
        assert(views_of(arr@) == interactions_json_seq(keptv));
    }
    let mut cas: Vec<(String, Json)> = Vec::new();
    cas.push((key("id"), Json::Str(String::from_str(cassette_id))));
    cas.push((key("name"), Json::Str(String::from_str("session"))));
    cas.push((key("created_at"), Json::Str(String::from_str(created_at))));
    cas.push((key("upstream"), Json::Str(String::from_str(upstream))));
    proof {
        assert(pair_views_of(cas@) =~= seq![
            ("id"@, JsonV::Str(cassette_id@)),
            ("name"@, JsonV::Str("session"@)),
            ("created_at"@, JsonV::Str(created_at@)),
            ("upstream"@, JsonV::Str(upstream@)),
        ]);
    }
    let cas_obj = Json::Obj(cas);
    let mut top: Vec<(String, Json)> = Vec::new();
    top.push((key("replayr_version"), Json::Str(String::from_str("1"))));
    top.push((key("cassette"), cas_obj));
    top.push((key("interactions"), Json::Arr(arr)));
    proof {
        assert(pair_views_of(top@)[1].1 == JsonV::Obj(seq![
            ("id"@, JsonV::Str(cassette_id@)),
            ("name"@, JsonV::Str("session"@)),
            ("created_at"@, JsonV::Str(created_at@)),
            ("upstream"@, JsonV::Str(upstream@)),
        ]));
        assert(pair_views_of(top@) =~= seq![
            ("replayr_version"@, JsonV::Str("1"@)),
            (
                "cassette"@,
                JsonV::Obj(seq![
                    ("id"@, JsonV::Str(cassette_id@)),
                    ("name"@, JsonV::Str("session"@)),
                    ("created_at"@, JsonV::Str(created_at@)),
                    ("upstream"@, JsonV::Str(upstream@)),
                ]),
            ),
            ("interactions"@, JsonV::Arr(interactions_json_seq(keptv))),
        ]);
    }
    let doc = Json::Obj(top);
    assert(doc.view() == cassette_json(keptv, upstream@, cassette_id@, created_at@));
    (to_json_text(&doc), count)
}

} // verus!
