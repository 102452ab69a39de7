use kotva_mail::json::{json_array, json_bool, json_get, json_i64, json_str, parse_json, Json};

#[test]
fn json_document_reads_members() {
    let d = parse_json("{\"a\": 1, \"b\": [true, null], \"c\": \"x\", \"d\": 1.5}").unwrap();
    assert_eq!(json_i64(json_get(&d, "a").unwrap()), Some(1));
    let b = json_array(json_get(&d, "b").unwrap()).unwrap();
    assert_eq!(json_bool(&b[0]), Some(true));
    assert!(matches!(b[1], Json::Null));
    assert_eq!(json_str(json_get(&d, "c").unwrap()), Some("x".to_string()));
    assert_eq!(json_i64(json_get(&d, "d").unwrap()), None);
    assert!(json_get(&d, "missing").is_none());
}

#[test]
fn json_document_refuses_broken_text() {
    assert!(parse_json("{").is_none());
    assert!(parse_json("").is_none());
}
