use kotva_mail::imap::parser::Section;
use kotva_mail::imap::sequence::SequenceSet;
use kotva_mail::imap::session::{
    parse_internal_date, parse_url_section, resolve_targets, special_use_from_attr, to_sequence_set,
    wildcard_match, State,
};
use kotva_mail::store::{MailStore, MemoryStore, SpecialUse};

#[test]
fn wildcards() {
    assert!(wildcard_match("*", "INBOX"));
    assert!(wildcard_match("INB*", "INBOX"));
    assert!(wildcard_match("%", "Sent"));
    assert!(!wildcard_match("%", "a/b"));
    assert!(wildcard_match("*", "a/b"));
}

#[test]
fn wildcard_semantics_preserved() {
    assert!(wildcard_match("", ""));
    assert!(!wildcard_match("", "x"));
    assert!(wildcard_match("*", ""));
    assert!(wildcard_match("a*b", "aXYZb"));
    assert!(wildcard_match("a*b", "ab"));
    assert!(wildcard_match("a/*", "a/b/c"));
    assert!(wildcard_match("a/%", "a/b"));
    assert!(!wildcard_match("a/%", "a/b/c"));
    assert!(wildcard_match("%/%", "a/b"));
    assert!(wildcard_match("INBOX*", "INBOX"));
    assert!(!wildcard_match("INBOX", "INBOXX"));
    assert!(wildcard_match("*a*b*c*", "zazbzcz"));
}

#[test]
fn wildcard_redos_pattern_returns_quickly() {
    let pattern = "*a".repeat(20) + "b";
    let name = "a".repeat(1);
    let name = format!("{}c", "x".repeat(64)) + &name;
    let start = std::time::Instant::now();
    let matched = wildcard_match(&pattern, &name);
    let elapsed = start.elapsed();
    assert!(!matched);
    assert!(elapsed < std::time::Duration::from_secs(1), "wildcard match took {elapsed:?} — ReDoS regression");
}

#[test]
fn sequence_set_compaction() {
    assert_eq!(to_sequence_set(&[1, 2, 3]), "1:3");
    assert_eq!(to_sequence_set(&[1, 3, 4, 5, 8]), "1,3:5,8");
    assert_eq!(to_sequence_set(&[7]), "7");
    assert_eq!(to_sequence_set(&[]), "");
}

#[test]
fn wildcard_work_bound_refuses_huge_pairs() {
    let p = "*".repeat(3000);
    let n = "x".repeat(3000);
    assert!(!wildcard_match(&p, &n));
    assert!(wildcard_match(&"*".repeat(10), &"x".repeat(10)));
}

#[test]
fn sequence_set_edges() {
    assert_eq!(to_sequence_set(&[4294967294, 4294967295]), "4294967294:4294967295");
    assert_eq!(to_sequence_set(&[2, 2]), "2,2");
    assert_ne!(State::Logout, State::Selected);
}

#[test]
fn internal_date_round_trips() {
    let ms = parse_internal_date("\"15-Jul-2026 12:00:00 +0000\"").unwrap();
    let s = kotva_mail::mime::format_internal_date(ms);
    assert!(s.starts_with("15-Jul-2026 12:00:00"), "got {s}");
}

#[test]
fn resolve_targets_uid_is_windowed() {
    let mut store = MemoryStore::empty();
    for _ in 0..100 {
        store.deliver_raw("INBOX", b"x".to_vec(), vec![], 0);
    }
    let mb = store.mailbox("INBOX").unwrap();
    assert_eq!(resolve_targets(mb, &SequenceSet::parse("42").unwrap(), true), vec![41]);
    assert_eq!(resolve_targets(mb, &SequenceSet::parse("10:12").unwrap(), true), vec![9, 10, 11]);
    assert_eq!(resolve_targets(mb, &SequenceSet::parse("1:3").unwrap(), false), vec![0, 1, 2]);
    assert!(resolve_targets(mb, &SequenceSet::parse("9999").unwrap(), true).is_empty());
}

#[test]
fn internal_date_rejects_out_of_range_fields() {
    assert_eq!(parse_internal_date("01-Jan-1970 00:00:00 +0000"), Some(0));
    assert_eq!(parse_internal_date("\"02-Jan-1970 00:00:01 +0000\""), Some(86_401_000));
    assert_eq!(parse_internal_date("01-Jan-1969 00:00:00 +0000"), Some(0));
    assert_eq!(parse_internal_date("32-Jan-2020 00:00:00 +0000"), None);
    assert_eq!(parse_internal_date("01-Foo-2020 00:00:00 +0000"), None);
    assert_eq!(parse_internal_date("01-Jan-99999999999 00:00:00 +0000"), None);
    assert_eq!(parse_internal_date("01-Jan-2020 24:00:00 +0000"), None);
    assert_eq!(parse_internal_date("01-Jan-2020"), None);
    assert_eq!(parse_internal_date("01-Jan-1970 xx:01 +0000"), Some(60_000));
}

#[test]
fn special_use_attrs_and_url_sections() {
    assert_eq!(special_use_from_attr("\\Archive"), Some(SpecialUse::Archive));
    assert_eq!(special_use_from_attr("\\SENT"), Some(SpecialUse::Sent));
    assert_eq!(special_use_from_attr("\\All"), Some(SpecialUse::All));
    assert_eq!(special_use_from_attr("\\Inbox"), None);
    assert_eq!(parse_url_section("HEADER"), Section::Header);
    assert_eq!(parse_url_section("text/"), Section::Text);
    assert_eq!(parse_url_section(""), Section::Full);
    assert_eq!(parse_url_section("1.2"), Section::Part(vec![1, 2]));
    assert_eq!(parse_url_section("x.3"), Section::Part(vec![3]));
    assert_eq!(parse_url_section("MIME"), Section::Full);
}
