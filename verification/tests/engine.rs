use replayr::headers::{parse_set_headers, redact_headers, HeaderMap};
use replayr::intercept::InterceptRegistry;
use replayr::json::{
    body_from_text, digits_to_u64, json_as_u64, json_get, json_value_to_body_string, parse_json,
    text_to_json_or_string, to_json_text, u64_to_dec, Json,
};
use replayr::logfmt::{build_replay, curl_command, log_line, LogLevel};
use replayr::model::{detect_provider, redact_interaction, Interaction, Metadata, StoredRequest};
use replayr::predicate::{evaluate_expression, intercept_matches, should_log};
use replayr::proxy::{
    apply_header_edits, apply_release, append_chunk, compose_upstream_url, finalize_buffered,
    finalize_streaming, headers_from_json_obj, outbound_headers, parse_delete_headers,
    response_is_streaming,
};
use replayr::ring::Ring;
use replayr::transform::{apply_modifier, parse_body_modifier, transform_text, ModifierError};
use replayr::usage::{extract_model, extract_tokens_from_sse, extract_usage_tokens};

fn hm(pairs: &[(&str, &str)]) -> HeaderMap {
    let mut h = HeaderMap::new();
    for (k, v) in pairs {
        h.insert(k.to_string(), v.to_string());
    }
    h
}

fn sample_request(path: &str, headers: &[(&str, &str)], body: &str) -> StoredRequest {
    StoredRequest {
        method: "POST".to_string(),
        path: path.to_string(),
        headers: hm(headers),
        body: body_from_text(body),
    }
}

fn sample_interaction(id: &str) -> Interaction {
    finalize_buffered(
        id.to_string(),
        "2024-01-01T00:00:00Z".to_string(),
        sample_request(
            "/v1/messages",
            &[("x-api-key", "secret"), ("content-type", "application/json")],
            "{\"model\":\"orca-mini\",\"messages\":[]}",
        ),
        200,
        &hm(&[("content-type", "application/json")]),
        "{\"ok\":true,\"usage\":{\"input_tokens\":2,\"output_tokens\":3}}",
        7,
    )
}

#[test]
fn json_parse_and_serialize_round_trip() {
    let texts = [
        "null",
        "true",
        "[1,2.5,-3,\"a\\nb\",{\"k\":[]},false]",
        "{\"a\":{\"b\":\"c\"},\"n\":1e3,\"u\":\"\\u0041\"}",
        " { \"spaced\" : [ 1 , 2 ] } ",
    ];
    for t in texts {
        let v = parse_json(t).expect("parses");
        let s1 = to_json_text(&v);
        let v2 = parse_json(&s1).expect("round trip parses");
        let s2 = to_json_text(&v2);
        assert_eq!(s1, s2);
    }
    assert!(parse_json("{bad").is_none());
    assert!(parse_json("01").is_none());
    assert!(parse_json("1.").is_none());
    assert!(parse_json("\"open").is_none());
    assert!(parse_json("").is_none());
}

#[test]
fn string_escapes_decode_to_characters() {
    let v = parse_json("\"\\u0041\\n\\\"\"").expect("escaped string parses");
    match &v {
        Json::Str(s) => assert_eq!(s, "A\n\""),
        _ => panic!("parsed a string"),
    }
    // surrogate pair
    let w = parse_json("\"\\uD83D\\uDE00\"").expect("surrogate pair parses");
    match &w {
        Json::Str(s) => assert_eq!(s.chars().next(), char::from_u32(0x1F600)),
        _ => panic!("parsed a string"),
    }
    // a lone surrogate is refused, so the body falls back to plain text
    assert!(parse_json("\"\\uD83D\"").is_none());
}

#[test]
fn predicate_string_and_numeric_order() {
    let x = sample_interaction("abc-123");
    assert!(evaluate_expression("request.method < 'QQQ'", &x));
    assert!(evaluate_expression("metadata.input_tokens < metadata.output_tokens", &x));
    assert!(evaluate_expression("response.status <= 200 && response.status > 199", &x));
    assert!(evaluate_expression("metadata.model != 'other'", &x));
}

#[test]
fn json_bodies_and_lookup() {
    let v = parse_json("{\"model\":\"orca-mini\",\"n\":42}").unwrap();
    let m = json_get(&v, "model").unwrap();
    assert!(matches!(m, Json::Str(_)));
    assert_eq!(json_as_u64(json_get(&v, "n").unwrap()), Some(42));
    assert_eq!(json_as_u64(&v), None);
    assert_eq!(digits_to_u64("18446744073709551615"), Some(u64::MAX));
    assert_eq!(digits_to_u64("18446744073709551616"), None);
    assert_eq!(digits_to_u64("12a"), None);
    assert_eq!(u64_to_dec(9090), "9090".to_string());
}

#[test]
fn empty_body_is_null_and_forwards_empty() {
    let b = body_from_text("");
    assert!(matches!(b, Json::Null));
    assert_eq!(json_value_to_body_string(&b), "".to_string());
    let s = text_to_json_or_string("not json {");
    assert_eq!(json_value_to_body_string(&s), "not json {".to_string());
}

#[test]
fn redactor_masks_sensitive_headers() {
    let mut h = hm(&[
        ("authorization", "Bearer abc"),
        ("x-api-key", "secret"),
        ("api-key", "k"),
        ("content-type", "application/json"),
    ]);
    redact_headers(&mut h);
    assert_eq!(h.get("authorization"), Some(&"REDACTED".to_string()));
    assert_eq!(h.get("x-api-key"), Some(&"REDACTED".to_string()));
    assert_eq!(h.get("api-key"), Some(&"REDACTED".to_string()));
    assert_eq!(h.get("content-type"), Some(&"application/json".to_string()));
}

#[test]
fn redactor_twice_equals_once() {
    let mut once = hm(&[("authorization", "tok"), ("a", "b")]);
    redact_headers(&mut once);
    let mut twice = hm(&[("authorization", "tok"), ("a", "b")]);
    redact_headers(&mut twice);
    redact_headers(&mut twice);
    for i in 0..once.len() {
        let (k1, v1) = once.pair(i);
        let (k2, v2) = twice.pair(i);
        assert_eq!(k1, k2);
        assert_eq!(v1, v2);
    }
    assert_eq!(once.len(), twice.len());
}

#[test]
fn redacted_interaction_view_is_masked() {
    let x = sample_interaction("abc-123");
    let r = redact_interaction(&x);
    assert_eq!(r.request.headers.get("x-api-key"), Some(&"REDACTED".to_string()));
    // the stored original is untouched
    assert_eq!(x.request.headers.get("x-api-key"), Some(&"secret".to_string()));
}

#[test]
fn ring_evicts_oldest_newest_first() {
    let mut ring = Ring::new(2);
    ring.push(sample_interaction("a"));
    ring.push(sample_interaction("b"));
    ring.push(sample_interaction("c"));
    assert_eq!(ring.len(), 2);
    assert_eq!(ring.at(0).id, "c".to_string());
    assert_eq!(ring.at(1).id, "b".to_string());
    assert!(ring.find_by_id("a").is_none());
    assert!(ring.find_by_id("b").is_some());
    ring.clear();
    assert_eq!(ring.len(), 0);
}

#[test]
fn ring_snapshot_is_redacted() {
    let mut ring = Ring::new(10);
    ring.push(sample_interaction("a"));
    let snap = ring.snapshot_redacted();
    assert_eq!(snap.len(), 1);
    assert_eq!(snap[0].request.headers.get("x-api-key"), Some(&"REDACTED".to_string()));
}

#[test]
fn buffered_interaction_shape_and_tokens() {
    let x = sample_interaction("abc-123");
    assert!(!x.response.streaming);
    assert!(x.response.body.is_some());
    assert_eq!(x.response.chunks.len(), 0);
    assert_eq!(x.metadata.input_tokens, Some(2));
    assert_eq!(x.metadata.output_tokens, Some(3));
    assert_eq!(x.metadata.total_tokens, Some(5));
    assert_eq!(x.metadata.provider, Some("anthropic".to_string()));
    assert_eq!(x.metadata.model, Some("orca-mini".to_string()));
    assert_eq!(x.metadata.latency_ms, 7);
}

#[test]
fn streaming_interaction_shape_and_tokens() {
    let mut chunks = Vec::new();
    let mut merged = String::new();
    append_chunk(
        &mut chunks,
        &mut merged,
        0,
        "event: content_block_delta\ndata: {\"delta\":\"hello\"}\n\n".to_string(),
    );
    append_chunk(
        &mut chunks,
        &mut merged,
        10,
        "event: message_stop\ndata: {\"usage\":{\"input_tokens\":4,\"output_tokens\":6}}\n\n"
            .to_string(),
    );
    let x = finalize_streaming(
        "sid".to_string(),
        "2024-01-01T00:00:00Z".to_string(),
        sample_request("/v1/messages/stream", &[("x-api-key", "secret")], ""),
        200,
        &hm(&[("content-type", "text/event-stream")]),
        chunks,
        &merged,
        25,
        Some(3),
    );
    assert!(x.response.streaming);
    assert!(x.response.body.is_none());
    assert_eq!(x.response.chunks.len(), 2);
    assert!(x.response.chunks[1].delay_ms >= 10);
    assert_eq!(x.metadata.total_tokens, Some(10));
    assert_eq!(x.metadata.latency_to_first_chunk_ms, Some(3));
}

#[test]
fn usage_extractor_reads_sse_last_match() {
    let body = "data: {\"usage\":{\"input_tokens\":1,\"output_tokens\":1}}\n\n\
                data: {\"usage\":{\"input_tokens\":4,\"output_tokens\":6}}\n\n";
    assert_eq!(extract_tokens_from_sse(body), Some((4, 6)));
    assert_eq!(extract_tokens_from_sse("no tokens here"), None);
    let mut md = Metadata::empty();
    extract_usage_tokens(&mut md, body);
    assert_eq!(md.total_tokens, Some(10));
}

#[test]
fn usage_extractor_prefers_json_and_fallback_names() {
    let mut md = Metadata::empty();
    extract_usage_tokens(
        &mut md,
        "{\"usage\":{\"prompt_tokens\":7,\"completion_tokens\":8}}",
    );
    assert_eq!(md.input_tokens, Some(7));
    assert_eq!(md.output_tokens, Some(8));
    assert_eq!(md.total_tokens, Some(15));
    let mut md2 = Metadata::empty();
    extract_usage_tokens(&mut md2, "{\"usage\":{\"input_tokens\":9}}");
    assert_eq!(md2.input_tokens, Some(9));
    assert_eq!(md2.output_tokens, None);
    assert_eq!(md2.total_tokens, None);
    let mut md3 = Metadata::empty();
    extract_usage_tokens(&mut md3, "{\"no_usage\":true}");
    assert_eq!(md3.input_tokens, None);
}

#[test]
fn provider_detection_paths_and_headers() {
    let m1 = detect_provider("/v1/messages", &hm(&[("x-api-key", "s")]));
    assert_eq!(m1.provider, Some("anthropic".to_string()));
    let m2 = detect_provider(
        "/v1/chat/completions",
        &hm(&[("authorization", "Bearer tok")]),
    );
    assert_eq!(m2.provider, Some("openai".to_string()));
    let m3 = detect_provider("/v1/chat/completions", &hm(&[("authorization", "Basic x")]));
    assert_eq!(m3.provider, None);
    let m4 = detect_provider("/v1/messages", &hm(&[]));
    assert_eq!(m4.provider, None);
    assert_eq!(extract_model(&parse_json("{\"model\":\"m1\"}").unwrap()), Some("m1".to_string()));
    assert_eq!(extract_model(&Json::Null), None);
}

#[test]
fn predicate_scenarios() {
    let x = sample_interaction("abc-123");
    assert!(evaluate_expression(
        "response.status >= 200 && request.body.model.startsWith('orca') && metadata.provider == 'anthropic'",
        &x,
    ));
    assert!(!evaluate_expression("response.status >= 400", &x));
    assert!(evaluate_expression("request.path.contains('/v1/messages')", &x));
    assert!(evaluate_expression("request.headers['content-type'] == 'application/json'", &x));
    assert!(evaluate_expression("metadata.total_tokens == 5", &x));
    assert!(evaluate_expression("!(response.status < 200) || false", &x));
}

#[test]
fn predicate_failures_yield_false() {
    let x = sample_interaction("abc-123");
    // compile failure
    assert!(!evaluate_expression("&& nonsense ((", &x));
    // unknown variable
    assert!(!evaluate_expression("nosuch.field == 1", &x));
    // non-boolean result
    assert!(!evaluate_expression("request.path", &x));
    // type error
    assert!(!evaluate_expression("request.path > 3", &x));
    // missing member
    assert!(!evaluate_expression("request.body.missing == 'x'", &x));
    // the interaction is unchanged afterwards
    assert_eq!(x.metadata.total_tokens, Some(5));
}

#[test]
fn intercept_matching_and_registry_lifecycle() {
    let req = sample_request("/v1/messages", &[("x-api-key", "secret")], "{}");
    assert!(intercept_matches("request.path.contains('/v1/messages')", &req));
    assert!(!intercept_matches("request.path.contains('/other')", &req));

    let mut reg = InterceptRegistry::new(None);
    reg.insert("id-1".to_string(), req);
    assert_eq!(reg.len(), 1);
    let taken = reg.remove("id-1");
    assert!(taken.is_some());
    assert_eq!(reg.len(), 0);
    // a second removal of the same id yields nothing: the entry left exactly once
    assert!(reg.remove("id-1").is_none());
    assert!(reg.remove("never-inserted").is_none());
}

#[test]
fn release_applies_replacements() {
    let mut req = sample_request("/v1/messages", &[("x-api-key", "secret")], "{\"model\":\"old\"}");
    apply_release(&mut req, None, Some("{\"model\":\"X\"}".to_string()));
    assert_eq!(json_value_to_body_string(&req.body), "{\"model\":\"X\"}".to_string());
    let wholesale = hm(&[("content-type", "text/plain")]);
    apply_release(&mut req, Some(wholesale), None);
    assert_eq!(req.headers.len(), 1);
    assert_eq!(req.headers.get("content-type"), Some(&"text/plain".to_string()));
    assert!(req.headers.get("x-api-key").is_none());
}

#[test]
fn headers_from_json_object_requires_string_values() {
    let ok = headers_from_json_obj(&parse_json("{\"A\":\"1\",\"b\":\"2\",\"A\":\"3\"}").unwrap());
    let h = ok.unwrap();
    assert_eq!(h.get("A"), Some(&"3".to_string()));
    assert!(headers_from_json_obj(&parse_json("{\"a\":1}").unwrap()).is_none());
    assert!(headers_from_json_obj(&parse_json("[1]").unwrap()).is_none());
}

#[test]
fn body_transformer_parse_and_apply() {
    let m = parse_body_modifier("/foo/bar").unwrap();
    assert_eq!(transform_text(&m, "a foo b foo"), "a bar b bar".to_string());
    let changed = apply_modifier(&text_to_json_or_string("say foo"), &m);
    assert_eq!(json_value_to_body_string(&changed.unwrap()), "say bar".to_string());
    let unchanged = apply_modifier(&text_to_json_or_string("nothing here"), &m);
    assert!(unchanged.is_none());

    assert!(matches!(parse_body_modifier(""), Err(ModifierError::EmptyExpression)));
    assert!(matches!(parse_body_modifier("/only-pattern"), Err(ModifierError::MissingReplacement)));
    assert!(matches!(parse_body_modifier("/(/x"), Err(ModifierError::InvalidRegex)));
}

#[test]
fn identity_transformer_is_noop_on_text() {
    let m = parse_body_modifier("/(.*)/$1").unwrap();
    for text in ["hello", "", "multi\nline", "{\"k\":1}"] {
        assert_eq!(transform_text(&m, text), text.to_string());
    }
    assert!(apply_modifier(&text_to_json_or_string("plain text"), &m).is_none());
}

#[test]
fn header_edits_upsert_then_delete() {
    let mut h = hm(&[("a", "1"), ("b", "2")]);
    let sets = parse_set_headers(&vec!["X-New: v".to_string(), "A: 9".to_string()]);
    let dels = parse_delete_headers(&vec!["B".to_string()]);
    apply_header_edits(&mut h, &sets, &dels);
    assert_eq!(h.get("a"), Some(&"9".to_string()));
    assert_eq!(h.get("x-new"), Some(&"v".to_string()));
    assert!(h.get("b").is_none());
}

#[test]
fn parse_set_headers_trims_and_lowercases() {
    let m = parse_set_headers(&vec![
        "  X-Trace : abc ".to_string(),
        "no-colon-item".to_string(),
    ]);
    assert_eq!(m.len(), 1);
    assert_eq!(m.get("x-trace"), Some(&"abc".to_string()));
}

#[test]
fn upstream_url_composition_and_outbound_filter() {
    assert_eq!(
        compose_upstream_url("http://up.example//", "/v1/x?q=1"),
        "http://up.example/v1/x?q=1".to_string()
    );
    let h = hm(&[("host", "client"), ("content-length", "5"), ("x-keep", "1")]);
    let out = outbound_headers(&h);
    assert_eq!(out.len(), 1);
    assert_eq!(out[0].0, "x-keep".to_string());
}

#[test]
fn streaming_mode_follows_content_type_only() {
    assert!(response_is_streaming(&hm(&[("content-type", "text/event-stream; charset=utf-8")])));
    assert!(!response_is_streaming(&hm(&[
        ("content-type", "application/json"),
        ("transfer-encoding", "chunked"),
    ])));
    assert!(!response_is_streaming(&hm(&[])));
}

#[test]
fn cassette_save_with_id_filter() {
    let mut ring = Ring::new(10);
    ring.push(sample_interaction("abc-123"));
    ring.push(sample_interaction("other"));
    let snap = ring.snapshot_redacted();
    let (text, saved) = replayr::cassette::render_cassette(
        &snap,
        &Some(vec!["abc-123".to_string()]),
        "http://up.example",
        "cassette-id",
        "2024-01-01T00:00:00Z",
    );
    assert_eq!(saved, 1);
    let doc = parse_json(&text).expect("cassette text is JSON");
    let ver = json_get(&doc, "replayr_version").unwrap();
    assert_eq!(to_json_text(ver), "\"1\"".to_string());
    let items = json_get(&doc, "interactions").unwrap();
    match items {
        Json::Arr(v) => assert_eq!(v.len(), 1),
        _ => panic!("interactions is an array"),
    }
}

#[test]
fn log_lines_and_filter() {
    let x = sample_interaction("abc-123");
    assert!(log_line(&x, &LogLevel::Silent).is_none());
    let s = log_line(&x, &LogLevel::Summary).unwrap();
    assert_eq!(s, "POST /v1/messages -> 200 (7ms, 5 tokens, orca-mini)".to_string());
    assert!(log_line(&x, &LogLevel::Headers).unwrap().contains("resp headers: "));
    assert!(log_line(&x, &LogLevel::Full).unwrap().contains("\nreq: "));
    assert!(should_log(&x, &None));
    assert!(should_log(&x, &Some("response.status == 200".to_string())));
    assert!(!should_log(&x, &Some("response.status != 200".to_string())));
}

#[test]
fn curl_and_replay_for_stored_request() {
    let x = sample_interaction("abc-123");
    let cmd = curl_command("http://up.example/", &x.request);
    assert!(cmd.starts_with("curl -X POST 'http://up.example/v1/messages'"));
    assert!(cmd.contains(" -H 'x-api-key: secret'"));
    assert!(cmd.contains(" --data \"{\\\"model\\\":\\\"orca-mini\\\",\\\"messages\\\":[]}\""));
    let plan = build_replay("http://up.example/", &x);
    assert_eq!(plan.url, "http://up.example/v1/messages".to_string());
    assert_eq!(plan.method, "POST".to_string());
    assert_eq!(plan.body, "{\"model\":\"orca-mini\",\"messages\":[]}".to_string());
}
