use rustacme::dns::{
    add_record_params, check_answer, AnswerError, compact_json, ensure_api_success, list_records_params, record_value,
    record_value_matches, records_to_remove, remove_record_params, response_text, success_value,
    ApiRejection, Json, TxtRecord,
};

fn s(t: &str) -> Json {
    Json::Str(t.to_string())
}

fn obj(entries: Vec<(&str, Json)>) -> Json {
    Json::Object(entries.into_iter().map(|(k, v)| (k.to_string(), v)).collect())
}

fn pairs(v: &[(&str, &str)]) -> Vec<(String, String)> {
    v.iter().map(|(a, b)| (a.to_string(), b.to_string())).collect()
}

#[test]
fn success_values() {
    assert!(success_value(&Json::Bool(true)));
    assert!(!success_value(&Json::Bool(false)));
    assert!(success_value(&Json::Number(Some(0))));
    assert!(success_value(&Json::Number(Some(1))));
    assert!(success_value(&Json::Number(Some(200))));
    assert!(!success_value(&Json::Number(Some(500))));
    assert!(!success_value(&Json::Number(None)));
    for t in ["0", "1", "ok", "OK", " true ", "Success", "SUCCESSFUL\n", "200"] {
        assert!(success_value(&s(t)), "{}", t);
    }
    for t in ["", "fail", "2000", "o k", "yes"] {
        assert!(!success_value(&s(t)), "{}", t);
    }
    assert!(!success_value(&Json::Null));
    assert!(!success_value(&Json::Array(vec![])));
    assert!(!success_value(&obj(vec![])));
}

#[test]
fn success_value_trims_unicode_space() {
    assert!(success_value(&s("\u{3000}ok\u{a0}")));
}

#[test]
fn verdict_status_fields_in_order() {
    assert_eq!(ensure_api_success(&obj(vec![("code", Json::Number(Some(200)))])), Ok(()));
    assert_eq!(
        ensure_api_success(&obj(vec![("code", Json::Number(Some(500))), ("result", s("ok"))])),
        Err(ApiRejection::Failure)
    );
    assert_eq!(
        ensure_api_success(&obj(vec![("result", s("fail")), ("status", s("ok"))])),
        Ok(())
    );
    assert_eq!(ensure_api_success(&obj(vec![("result", s("fail"))])), Err(ApiRejection::Failure));
}

#[test]
fn verdict_success_field() {
    assert_eq!(ensure_api_success(&obj(vec![("success", Json::Bool(true))])), Ok(()));
    assert_eq!(ensure_api_success(&obj(vec![("success", s("true"))])), Err(ApiRejection::Failure));
    assert_eq!(ensure_api_success(&obj(vec![("success", Json::Bool(false))])), Err(ApiRejection::Failure));
}

#[test]
fn verdict_error_fields() {
    assert_eq!(ensure_api_success(&obj(vec![("error", Json::Null)])), Err(ApiRejection::Error));
    assert_eq!(ensure_api_success(&obj(vec![("errors", Json::Array(vec![]))])), Err(ApiRejection::Error));
    assert_eq!(
        ensure_api_success(&obj(vec![("error", s("x")), ("code", Json::Number(Some(1)))])),
        Ok(())
    );
}

#[test]
fn verdict_accepts_plain_answers() {
    assert_eq!(ensure_api_success(&obj(vec![("body", obj(vec![]))])), Ok(()));
    assert_eq!(ensure_api_success(&Json::Array(vec![])), Ok(()));
    assert_eq!(ensure_api_success(&Json::Null), Ok(()));
}

#[test]
fn compact_short_and_long() {
    assert_eq!(compact_json("{\"a\":1}"), "{\"a\":1}");
    let t600 = "x".repeat(600);
    assert_eq!(compact_json(&t600), t600);
    let t601 = "y".repeat(601);
    assert_eq!(compact_json(&t601), format!("{}...", "y".repeat(600)));
    // 200 three-byte characters are 600 bytes; one more character is cut.
    let wide = "中".repeat(201);
    assert_eq!(compact_json(&wide), format!("{}...", "中".repeat(200)));
}

#[test]
fn rejection_messages() {
    assert_eq!(
        ApiRejection::Failure.message("{\"code\":500}"),
        "west.cn API returned failure: {\"code\":500}"
    );
    assert_eq!(ApiRejection::Error.message("{}"), "west.cn API returned error: {}");
}

#[test]
fn response_text_decodes_gbk() {
    assert_eq!(response_text(&[0x7b, 0x7d]), "{}");
    assert_eq!(response_text(&[0xb2, 0xe2, 0xca, 0xd4]), "测试");
}

#[test]
fn record_values() {
    let item = obj(vec![("value", Json::Number(Some(3))), ("record", s("r")), ("record_value", Json::Null)]);
    assert_eq!(record_value(&item), Some(&"r".to_string()));
    let item2 = obj(vec![("record_value", s("a")), ("value", s("b"))]);
    assert_eq!(record_value(&item2), Some(&"a".to_string()));
    assert_eq!(record_value(&obj(vec![])), None);
}

#[test]
fn record_value_matching() {
    assert!(record_value_matches(&obj(vec![("value", s("abc"))]), "abc"));
    assert!(record_value_matches(&obj(vec![("value", s("\"abc\""))]), "abc"));
    assert!(record_value_matches(&obj(vec![("value", s("\"\"abc\""))]), "abc"));
    assert!(!record_value_matches(&obj(vec![("value", s("abcd"))]), "abc"));
    assert!(!record_value_matches(&obj(vec![("value", s(" abc"))]), "abc"));
    assert!(!record_value_matches(&obj(vec![]), ""));
}

fn listing(items: Vec<Json>) -> Json {
    obj(vec![("code", Json::Number(Some(200))), ("body", obj(vec![("items", Json::Array(items))]))])
}

fn rec() -> TxtRecord {
    TxtRecord { zone: "example.com".into(), hostname: "_acme-challenge".into(), value: "tok".into() }
}

#[test]
fn cleanup_picks_exact_records() {
    let items = vec![
        obj(vec![("hostname", s("_acme-challenge")), ("record_type", s("TXT")), ("value", s("tok")), ("record_id", Json::Number(Some(11)))]),
        obj(vec![("hostname", s("_acme-challenge")), ("record_type", s("TXT")), ("value", s("other")), ("record_id", Json::Number(Some(12)))]),
        obj(vec![("hostname", s("www")), ("record_type", s("TXT")), ("value", s("tok")), ("record_id", Json::Number(Some(13)))]),
        obj(vec![("hostname", s("_acme-challenge")), ("record_type", s("A")), ("value", s("tok")), ("record_id", Json::Number(Some(14)))]),
        obj(vec![("hostname", s("_acme-challenge")), ("record_type", s("TXT")), ("record_value", s("\"tok\"")), ("record_id", s("abc-15"))]),
        obj(vec![("hostname", s("_acme-challenge")), ("record_type", s("TXT")), ("value", s("tok")), ("record_id", s(""))]),
        obj(vec![("hostname", s("_acme-challenge")), ("record_type", s("TXT")), ("value", s("tok"))]),
        obj(vec![("hostname", s("_acme-challenge")), ("record_type", s("TXT")), ("value", s("tok")), ("record_id", Json::Number(Some(-7)))]),
    ];
    assert_eq!(records_to_remove(&listing(items), &rec()), vec!["11", "abc-15", "-7"]);
}

#[test]
fn cleanup_without_items() {
    assert!(records_to_remove(&obj(vec![]), &rec()).is_empty());
    assert!(records_to_remove(&obj(vec![("body", obj(vec![("items", s("x"))]))]), &rec()).is_empty());
    assert!(records_to_remove(&Json::Null, &rec()).is_empty());
}

#[test]
fn cleanup_large_id() {
    let item = obj(vec![("hostname", s("_acme-challenge")), ("record_type", s("TXT")), ("value", s("tok")), ("record_id", Json::Number(Some(i64::MIN)))]);
    assert_eq!(records_to_remove(&listing(vec![item]), &rec()), vec![i64::MIN.to_string()]);
}

#[test]
fn request_fields() {
    assert_eq!(
        add_record_params("example.com", "_acme-challenge.www", "v"),
        pairs(&[("act", "dnsrec.add"), ("domain", "example.com"), ("record_type", "TXT"), ("hostname", "_acme-challenge.www"), ("record_value", "v"), ("record_ttl", "600")])
    );
    assert_eq!(
        list_records_params("example.com"),
        pairs(&[("act", "dnsrec.list"), ("domain", "example.com"), ("limit", "100")])
    );
    assert_eq!(
        remove_record_params("example.com", "42"),
        pairs(&[("act", "dnsrec.remove"), ("domain", "example.com"), ("record_id", "42")])
    );
}

#[test]
fn answers_are_read_and_judged() {
    match check_answer(b"{\"code\":200,\"body\":{\"items\":[]}}") {
        Ok(Json::Object(entries)) => assert_eq!(entries.len(), 2),
        other => panic!("unexpected {:?}", other),
    }
    match check_answer(b"not json") {
        Err(AnswerError::Parse) => {}
        other => panic!("unexpected {:?}", other),
    }
    // GBK body: {"result":"失败","rate":1.5}
    let mut body = b"{\"result\":\"".to_vec();
    body.extend_from_slice(&[0xca, 0xa7, 0xb0, 0xdc]);
    body.extend_from_slice(b"\", \"rate\": 1.5}");
    match check_answer(&body) {
        Err(AnswerError::Rejected { kind, compact }) => {
            assert_eq!(kind, ApiRejection::Failure);
            assert_eq!(compact, "{\"rate\":1.5,\"result\":\"失败\"}");
        }
        other => panic!("unexpected {:?}", other),
    }
    match check_answer(b"{\"errors\":[1]}") {
        Err(AnswerError::Rejected { kind, compact }) => {
            assert_eq!(kind, ApiRejection::Error);
            assert_eq!(compact, "{\"errors\":[1]}");
        }
        other => panic!("unexpected {:?}", other),
    }
}

#[test]
fn answer_numbers_and_nesting() {
    let body = b"{\"code\":\"ok\",\"body\":{\"items\":[{\"record_id\":9007199254740993,\"hostname\":\"_acme-challenge\",\"record_type\":\"TXT\",\"value\":\"tok\"},{\"record_id\":2.5}]}}";
    let json = check_answer(body).unwrap();
    let rec = TxtRecord { zone: "z".into(), hostname: "_acme-challenge".into(), value: "tok".into() };
    assert_eq!(records_to_remove(&json, &rec), vec!["9007199254740993"]);
}
