use kotva_mail::jmap::{
    blob_download, email_get, email_set, identity_changes, identity_get, identity_set, push_subscription_get,
    submission_get, submission_set, email_id, email_query, enforce_set_limit, flag_of_keyword, keyword_of, mailbox_get,
    mailbox_set, parse_email_id, session_resource, CAP_MAIL, MAX_CALLS_IN_REQUEST, MAX_OBJECTS_IN_GET,
    MAX_OBJECTS_IN_SET,
};
use kotva_mail::json::{json_array, json_get, json_i64, json_str, parse_json, Json};
use kotva_mail::mime::ParsedMessage;
use kotva_mail::store::{Flag, MailStore, MemoryStore};

fn store_with_mail() -> MemoryStore {
    let mut s = MemoryStore::empty();
    s.deliver_raw(
        "INBOX",
        b"From: Alice <alice@example.com>\r\nSubject: Hello\r\nMessage-ID: <m1@x>\r\n\r\nHi Bob".to_vec(),
        vec![],
        1_752_000_000_000,
    );
    s
}

fn doc(text: &str) -> Json {
    parse_json(text).unwrap()
}

fn get<'a>(v: &'a Json, path: &[&str]) -> &'a Json {
    let mut cur = v;
    for k in path {
        cur = json_get(cur, k).unwrap_or_else(|| panic!("missing {k}"));
    }
    cur
}

fn text_at(v: &Json, path: &[&str]) -> String {
    json_str(get(v, path)).unwrap()
}

fn ids_json(ids: &[String]) -> String {
    let quoted: Vec<String> = ids.iter().map(|i| format!("\"{i}\"")).collect();
    format!("[{}]", quoted.join(","))
}

#[test]
fn session_resource_serializes() {
    let s = session_resource("acct1", "https://node.dmtap.local", "0");
    assert_eq!(text_at(&s, &["primaryAccounts", CAP_MAIL]), "acct1");
    assert!(text_at(&s, &["apiUrl"]).ends_with("/jmap/api/"));
    assert_eq!(
        json_i64(get(&s, &["capabilities", "urn:ietf:params:jmap:core", "maxCallsInRequest"])),
        Some(MAX_CALLS_IN_REQUEST as i64)
    );
}

#[test]
fn mailbox_get_lists_folders() {
    let s = store_with_mail();
    let r = mailbox_get(&s, "acct1", &doc(r#"{"accountId":"acct1","ids":null}"#)).unwrap();
    let list = json_array(get(&r, &["list"])).unwrap();
    let inbox = list
        .iter()
        .find(|m| json_str(json_get(m, "id").unwrap()) == Some("INBOX".to_string()))
        .unwrap();
    assert_eq!(text_at(inbox, &["role"]), "inbox");
    assert_eq!(json_i64(get(inbox, &["totalEmails"])), Some(1));
}

#[test]
fn email_query_and_get() {
    let s = store_with_mail();
    let q = email_query(&s, "acct1", &doc(r#"{"accountId":"acct1","filter":{"inMailbox":"INBOX"}}"#));
    let ids = json_array(get(&q, &["ids"])).unwrap();
    assert_eq!(ids.len(), 1);
    let idv: Vec<String> = ids.iter().map(|i| json_str(i).unwrap()).collect();
    let args = format!(r#"{{"accountId":"acct1","ids":{}}}"#, ids_json(&idv));
    let g = email_get(&s, "acct1", &doc(&args)).unwrap();
    let email = &json_array(get(&g, &["list"])).unwrap()[0];
    assert_eq!(text_at(email, &["subject"]), "Hello");
    let from = &json_array(get(email, &["from"])).unwrap()[0];
    assert_eq!(text_at(from, &["email"]), "alice@example.com");
}

#[test]
fn mailbox_set_create_update_destroy() {
    let mut s = store_with_mail();
    let r = mailbox_set(&mut s, "acct1", &doc(r#"{"accountId":"acct1","create":{"c1":{"name":"Work"}}}"#))
        .unwrap();
    assert_eq!(text_at(&r, &["created", "c1", "id"]), "Work");
    assert!(s.mailbox("Work").is_some());
    let r = mailbox_set(&mut s, "acct1", &doc(r#"{"accountId":"acct1","update":{"Work":{"name":"Projects"}}}"#))
        .unwrap();
    assert!(json_get(get(&r, &["updated"]), "Work").is_some());
    assert!(s.mailbox("Projects").is_some());
    let r = mailbox_set(&mut s, "acct1", &doc(r#"{"accountId":"acct1","destroy":["Projects"]}"#)).unwrap();
    assert_eq!(json_str(&json_array(get(&r, &["destroyed"])).unwrap()[0]), Some("Projects".to_string()));
    assert!(s.mailbox("Projects").is_none());
}

#[test]
fn mailbox_get_enforces_max_objects_in_get() {
    let s = store_with_mail();
    let over: Vec<String> = (0..(MAX_OBJECTS_IN_GET + 1)).map(|i| format!("z{i}")).collect();
    let args = format!(r#"{{"accountId":"acct1","ids":{}}}"#, ids_json(&over));
    let e = mailbox_get(&s, "acct1", &doc(&args)).unwrap_err();
    assert_eq!(text_at(&e, &["type"]), "requestTooLarge");
    let ok = mailbox_get(&s, "acct1", &doc(r#"{"accountId":"acct1","ids":["INBOX"]}"#)).unwrap();
    assert_eq!(text_at(&json_array(get(&ok, &["list"])).unwrap()[0], &["id"]), "INBOX");
}

#[test]
fn email_get_bounds_response_bytes_against_duplicate_ids() {
    let mut s = MemoryStore::empty();
    let mut raw = b"From: a@b\r\nSubject: big\r\n\r\n".to_vec();
    raw.extend(std::iter::repeat(b'x').take(6 * 1024 * 1024));
    s.deliver_raw("INBOX", raw, vec![], 1_752_000_000_000);
    let dup: Vec<String> = std::iter::repeat("INBOX|1".to_string()).take(30).collect();
    let args = format!(r#"{{"accountId":"acct1","ids":{}}}"#, ids_json(&dup));
    let e = email_get(&s, "acct1", &doc(&args)).unwrap_err();
    assert_eq!(text_at(&e, &["type"]), "requestTooLarge");
    let ok = email_get(&s, "acct1", &doc(r#"{"accountId":"acct1","ids":["INBOX|1"]}"#)).unwrap();
    assert_eq!(text_at(&json_array(get(&ok, &["list"])).unwrap()[0], &["id"]), "INBOX|1");
}

#[test]
fn email_get_over_the_id_limit_is_refused() {
    let s = store_with_mail();
    let over: Vec<String> = (0..=MAX_OBJECTS_IN_GET).map(|i| format!("x_{i}")).collect();
    let args = format!(r#"{{"accountId":"acct1","ids":{}}}"#, ids_json(&over));
    let e = email_get(&s, "acct1", &doc(&args)).unwrap_err();
    assert_eq!(text_at(&e, &["type"]), "requestTooLarge");
}

#[test]
fn email_get_reports_unknown_ids_as_not_found() {
    let s = store_with_mail();
    let g = email_get(&s, "acct1", &doc(r#"{"accountId":"acct1","ids":["INBOX|9","nope"]}"#)).unwrap();
    assert!(json_array(get(&g, &["list"])).unwrap().is_empty());
    let nf = json_array(get(&g, &["notFound"])).unwrap();
    assert_eq!(nf.len(), 2);
}

#[test]
fn set_limit_refuses_too_many_destroys() {
    let many: Vec<String> = (0..=MAX_OBJECTS_IN_SET).map(|i| format!("c{i}")).collect();
    let args = format!(r#"{{"accountId":"acct1","destroy":{}}}"#, ids_json(&many));
    let e = enforce_set_limit(&doc(&args)).unwrap_err();
    assert_eq!(text_at(&e, &["type"]), "requestTooLarge");
    assert!(enforce_set_limit(&doc(r#"{"accountId":"acct1","destroy":["a"]}"#)).is_ok());
}

#[test]
fn mailbox_set_over_limit_changes_nothing() {
    let mut s = store_with_mail();
    let mut creates: Vec<String> = Vec::new();
    for i in 0..=MAX_OBJECTS_IN_SET {
        creates.push(format!(r#""c{i}":{{"name":"Folder{i}"}}"#));
    }
    let args = format!(r#"{{"accountId":"acct1","create":{{{}}}}}"#, creates.join(","));
    let e = mailbox_set(&mut s, "acct1", &doc(&args)).unwrap_err();
    assert_eq!(text_at(&e, &["type"]), "requestTooLarge");
    assert!(s.mailbox("Folder0").is_none());
}

#[test]
fn email_ids_round_trip() {
    let id = email_id("INBOX", 5);
    assert_eq!(id, "INBOX|5");
    assert_eq!(parse_email_id(&id), Some(("INBOX".to_string(), 5)));
    assert_eq!(parse_email_id("a|b|7"), Some(("a|b".to_string(), 7)));
    assert_eq!(parse_email_id("INBOX"), None);
    assert_eq!(parse_email_id("INBOX|x"), None);
}

#[test]
fn keywords_map_to_flags_and_back() {
    assert_eq!(flag_of_keyword("$seen"), Flag::Seen);
    assert_eq!(flag_of_keyword("$flagged"), Flag::Flagged);
    assert_eq!(keyword_of(&Flag::Seen), Some("$seen"));
    assert_eq!(keyword_of(&Flag::Recent), None);
}

#[test]
fn blob_download_gives_the_raw_message() {
    let s = store_with_mail();
    let raw = blob_download(&s, "INBOX|1").unwrap();
    assert!(raw.starts_with(b"From: Alice <alice@example.com>\r\n"));
    assert!(raw.ends_with(b"Hi Bob"));
    assert_eq!(blob_download(&s, "INBOX|2"), None);
    assert_eq!(blob_download(&s, "Nowhere|1"), None);
    assert_eq!(blob_download(&s, "INBOX"), None);
}

fn raw_of(s: &MemoryStore, id: &str) -> Vec<u8> {
    let (mb, uid) = parse_email_id(id).unwrap();
    s.mailbox(&mb).unwrap().by_uid(uid).unwrap().raw.clone()
}

#[test]
fn email_set_updates_keywords() {
    let mut s = store_with_mail();
    let id = email_id("INBOX", 1);
    let args = format!(r#"{{"accountId":"acct1","update":{{"{id}":{{"keywords":{{"$seen":true}}}}}}}}"#);
    let r = email_set(&mut s, "acct1", &doc(&args)).unwrap();
    assert!(json_get(get(&r, &["updated"]), &id).is_some());
    assert!(s.mailbox("INBOX").unwrap().by_uid(1).unwrap().has_flag(&Flag::Seen));
}

#[test]
fn email_set_create_composes_a_message() {
    let mut s = store_with_mail();
    let r = email_set(
        &mut s,
        "acct1",
        &doc(r#"{"accountId":"acct1","create":{"draft1":{
            "mailboxIds":{"INBOX":true},
            "keywords":{"$draft":true},
            "subject":"Compose test",
            "from":[{"name":"Alice","email":"alice@dmtap.local"}],
            "to":[{"email":"bob@example.net"}],
            "bodyValues":{"1":{"value":"the composed body"}},
            "textBody":[{"partId":"1","type":"text/plain"}]}}}"#),
    )
    .unwrap();
    let id = text_at(&r, &["created", "draft1", "id"]);
    assert_eq!(id, "INBOX|2");
    let (mb, uid) = parse_email_id(&id).unwrap();
    let msg = s.mailbox(&mb).unwrap().by_uid(uid).unwrap();
    assert!(msg.has_flag(&Flag::Draft));
    let text = String::from_utf8_lossy(&msg.raw).to_string();
    assert!(text.contains("Subject: Compose test"), "{text}");
    assert!(text.contains("From: Alice <alice@dmtap.local>"), "{text}");
    assert!(text.contains("To: bob@example.net"), "{text}");
    assert!(text.contains("the composed body"), "{text}");
}

#[test]
fn create_rejects_header_injection() {
    let mut s = store_with_mail();
    let r = email_set(
        &mut s,
        "acct1",
        &doc(r#"{"accountId":"acct1","create":{"x":{
            "mailboxIds":{"INBOX":true},
            "subject":"evil\r\nBcc: victim@example.com",
            "bodyValues":{"1":{"value":"b"}},
            "textBody":[{"partId":"1","type":"text/plain"}]}}}"#),
    )
    .unwrap();
    let id = text_at(&r, &["created", "x", "id"]);
    let raw = String::from_utf8_lossy(&raw_of(&s, &id)).to_string();
    assert!(!raw.contains("\r\nBcc:"), "header injection leaked: {raw}");
}

#[test]
fn create_rejects_header_injection_via_address_fields() {
    let mut s = store_with_mail();
    let r = email_set(
        &mut s,
        "acct1",
        &doc(r#"{"accountId":"acct1","create":{"x":{
            "mailboxIds":{"INBOX":true},
            "subject":"hi",
            "from":[{"name":"Eve\r\nBcc: victim@example.com","email":"eve@dmtap.local"}],
            "to":[{"email":"bob@example.net\r\nX-Injected: yes"}],
            "bodyValues":{"1":{"value":"b"}},
            "textBody":[{"partId":"1","type":"text/plain"}]}}}"#),
    )
    .unwrap();
    let id = text_at(&r, &["created", "x", "id"]);
    let raw = raw_of(&s, &id);
    let text = String::from_utf8_lossy(&raw).to_string();
    assert!(!text.contains("\r\nBcc:"), "From.name must not inject a header: {text}");
    assert!(!text.contains("\r\nX-Injected"), "To.email must not inject a header: {text}");
    let parsed = ParsedMessage::parse(&raw);
    assert_eq!(parsed.header("bcc"), None);
    assert_eq!(parsed.header("x-injected"), None);
    assert!(parsed.header("from").unwrap().contains("eve@dmtap.local"));
    assert!(parsed.header("to").unwrap().contains("bob@example.net"));
}

#[test]
fn email_set_create_encodes_non_ascii_headers_for_the_wire() {
    let mut s = store_with_mail();
    let r = email_set(
        &mut s,
        "acct1",
        &doc(r#"{"accountId":"acct1","create":{"c":{
            "mailboxIds":{"INBOX":true},
            "subject":"Привет, мир",
            "from":[{"name":"Алиса","email":"alice@dmtap.local"}],
            "bodyValues":{"1":{"value":"b"}},
            "textBody":[{"partId":"1","type":"text/plain"}]}}}"#),
    )
    .unwrap();
    let id = text_at(&r, &["created", "c", "id"]);
    let raw = raw_of(&s, &id);
    let end = raw.windows(4).position(|w| w == b"\r\n\r\n").unwrap();
    assert!(raw[..end].is_ascii(), "compose leaked raw 8-bit headers");
    let args = format!(r#"{{"accountId":"acct1","ids":["{id}"]}}"#);
    let g = email_get(&s, "acct1", &doc(&args)).unwrap();
    let email = &json_array(get(&g, &["list"])).unwrap()[0];
    assert_eq!(text_at(email, &["subject"]), "Привет, мир");
    let from = &json_array(get(email, &["from"])).unwrap()[0];
    assert_eq!(text_at(from, &["name"]), "Алиса");
}

#[test]
fn set_handlers_enforce_max_objects_in_set() {
    let mut s = store_with_mail();
    let mut creates: Vec<String> = Vec::new();
    for i in 0..=MAX_OBJECTS_IN_SET {
        creates.push(format!(r#""c{i}":{{"name":"Folder{i}"}}"#));
    }
    let args = doc(&format!(r#"{{"create":{{{}}}}}"#, creates.join(",")));
    let e = mailbox_set(&mut s, "acct1", &args).unwrap_err();
    assert_eq!(text_at(&e, &["type"]), "requestTooLarge");
    let e = email_set(&mut s, "acct1", &args).unwrap_err();
    assert_eq!(text_at(&e, &["type"]), "requestTooLarge");
    assert_eq!(s.mailbox("INBOX").unwrap().exists_count(), 1);
}

#[test]
fn email_set_destroys_and_reports_unknown_ids() {
    let mut s = store_with_mail();
    let r = email_set(&mut s, "acct1", &doc(r#"{"destroy":["INBOX|1","INBOX|9","bogus"],"update":{"INBOX|7":{}}}"#))
        .unwrap();
    let destroyed = json_array(get(&r, &["destroyed"])).unwrap();
    assert_eq!(destroyed.len(), 1);
    assert_eq!(json_str(&destroyed[0]), Some("INBOX|1".to_string()));
    assert_eq!(text_at(&r, &["notDestroyed", "INBOX|9", "type"]), "notFound");
    assert_eq!(text_at(&r, &["notDestroyed", "bogus", "type"]), "notFound");
    assert_eq!(text_at(&r, &["notUpdated", "INBOX|7", "type"]), "notFound");
    assert_eq!(s.mailbox("INBOX").unwrap().exists_count(), 0);
}

#[test]
fn email_set_keyword_patch_adds_and_removes() {
    let mut s = store_with_mail();
    email_set(&mut s, "acct1", &doc(r#"{"update":{"INBOX|1":{"keywords/$flagged":true}}}"#)).unwrap();
    assert!(s.mailbox("INBOX").unwrap().by_uid(1).unwrap().has_flag(&Flag::Flagged));
    email_set(&mut s, "acct1", &doc(r#"{"update":{"INBOX|1":{"keywords/$flagged":null}}}"#)).unwrap();
    assert!(!s.mailbox("INBOX").unwrap().by_uid(1).unwrap().has_flag(&Flag::Flagged));
}

#[test]
fn email_get_decodes_rfc2047_and_base64_body() {
    let mut s = MemoryStore::empty();
    s.deliver_raw(
        "INBOX",
        b"From: =?UTF-8?B?0JDQu9C40YHQsA==?= <alice@example.ru>\r\n\
          Subject: =?UTF-8?B?0J/RgNC40LLQtdGC?=\r\n\
          Content-Type: text/plain; charset=utf-8\r\n\
          Content-Transfer-Encoding: base64\r\n\r\n\
          0J/RgNC40LLQtdGCLCDQvNC40YAh"
            .to_vec(),
        vec![],
        1_752_000_000_000,
    );
    let g = email_get(&s, "acct1", &doc(r#"{"accountId":"acct1","ids":["INBOX|1"]}"#)).unwrap();
    let email = &json_array(get(&g, &["list"])).unwrap()[0];
    assert_eq!(text_at(email, &["subject"]), "Привет");
    let from = &json_array(get(email, &["from"])).unwrap()[0];
    assert_eq!(text_at(from, &["name"]), "Алиса");
    let bv = get(email, &["bodyValues", "1"]);
    assert_eq!(text_at(bv, &["value"]).trim_end(), "Привет, мир!");
    assert!(matches!(get(bv, &["isEncodingProblem"]), Json::Bool(false)));
    assert!(text_at(email, &["preview"]).starts_with("Привет"));
}

#[test]
fn email_get_flags_undecodable_charset_honestly() {
    let mut s = MemoryStore::empty();
    s.deliver_raw(
        "INBOX",
        b"Subject: nihao\r\nContent-Type: text/plain; charset=gb18030\r\n\
          Content-Transfer-Encoding: 8bit\r\n\r\n\xc4\xe3\xba\xc3"
            .to_vec(),
        vec![],
        1_752_000_000_000,
    );
    let g = email_get(&s, "acct1", &doc(r#"{"accountId":"acct1","ids":["INBOX|1"]}"#)).unwrap();
    let bv = get(&json_array(get(&g, &["list"])).unwrap()[0], &["bodyValues", "1"]);
    assert!(matches!(get(bv, &["isEncodingProblem"]), Json::Bool(true)));
}

#[test]
fn identity_get_and_set() {
    let g = identity_get("acct1", &doc(r#"{"accountId":"acct1","ids":null}"#));
    assert_eq!(text_at(&json_array(get(&g, &["list"])).unwrap()[0], &["email"]), "acct1");
    let st = identity_set(
        "acct1",
        &doc(r#"{"accountId":"acct1","create":{"n":{"email":"alias@dmtap.local","name":"Alias"}}}"#),
    );
    assert_eq!(text_at(&st, &["created", "n", "email"]), "alias@dmtap.local");
    let d = identity_set("acct1", &doc(r#"{"accountId":"acct1","destroy":["I0"]}"#));
    assert!(json_get(get(&d, &["notDestroyed"]), "I0").is_some());
}

#[test]
fn identity_get_skips_default_when_not_asked() {
    let g = identity_get("acct1", &doc(r#"{"ids":["I7"]}"#));
    assert!(json_array(get(&g, &["list"])).unwrap().is_empty());
    let c = identity_changes("acct1", &doc(r#"{"sinceState":"42"}"#));
    assert_eq!(text_at(&c, &["oldState"]), "42");
    assert_eq!(text_at(&c, &["newState"]), "0");
}

#[test]
fn push_subscription_get_lists_none() {
    let g = push_subscription_get(&doc("{}"));
    assert!(json_array(get(&g, &["list"])).unwrap().is_empty());
    assert!(json_get(&g, "accountId").is_none());
}

#[test]
fn email_submission_get_reports_not_found() {
    let r = submission_get("acct1", &doc(r#"{"accountId":"acct1","ids":["sub-1"]}"#));
    assert_eq!(json_str(&json_array(get(&r, &["notFound"])).unwrap()[0]), Some("sub-1".to_string()));
    assert!(json_array(get(&r, &["list"])).unwrap().is_empty());
}

#[test]
fn email_submission_set_echoes_creates() {
    let r = submission_set("acct1", &doc(r#"{"create":{"s1":{"emailId":"INBOX|1"}}}"#));
    assert_eq!(text_at(&r, &["created", "s1", "id"]), "sub-s1");
    assert_eq!(text_at(&r, &["created", "s1", "emailId"]), "INBOX|1");
    assert_eq!(text_at(&r, &["created", "s1", "undoStatus"]), "final");
    assert_eq!(text_at(&r, &["created", "s1", "sendAt"]), "Thu, 01 Jan 1970 00:00:00 +0000");
}
