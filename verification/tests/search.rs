use kotva_mail::imap::parser::tokenize;
use kotva_mail::search::{eval, eval_saved, parse_search_key, SearchCtx, SearchKey};
use kotva_mail::store::{Flag, Message};

fn key(s: &str) -> SearchKey {
    let toks = tokenize(s.as_bytes()).unwrap();
    parse_search_key(&toks).unwrap()
}

#[test]
fn parses_flag_and_text_keys() {
    assert_eq!(key("SEEN"), SearchKey::Seen);
    assert_eq!(key("FROM alice"), SearchKey::From("alice".into()));
    assert!(matches!(key("SUBJECT hello UNSEEN"), SearchKey::And(_)));
}

#[test]
fn parses_or_not() {
    assert!(matches!(key("OR SEEN FLAGGED"), SearchKey::Or(_, _)));
    assert!(matches!(key("NOT DELETED"), SearchKey::Not(_)));
}

#[test]
fn empty_program_matches_all_and_bad_keys_fail_closed() {
    assert_eq!(parse_search_key(&[]).unwrap(), SearchKey::All);
    let toks = tokenize(b"NOT").unwrap();
    assert!(parse_search_key(&toks).is_err());
    let toks = tokenize(b"FROBNICATE").unwrap();
    assert!(parse_search_key(&toks).is_err());
    assert_eq!(key("LARGER 100"), SearchKey::Larger(100));
    assert!(matches!(key("1:5"), SearchKey::Sequence(_)));
}

#[test]
fn over_deep_nesting_fails_closed() {
    let deep = format!("{}SEEN{}", "(".repeat(150), ")".repeat(150));
    let toks = tokenize(deep.as_bytes()).unwrap();
    assert!(parse_search_key(&toks).is_err());
    let ok = format!("{}SEEN{}", "(".repeat(50), ")".repeat(50));
    let toks = tokenize(ok.as_bytes()).unwrap();
    assert_eq!(parse_search_key(&toks).unwrap(), SearchKey::Seen);
}

#[test]
fn evaluates_against_message() {
    let raw =
        b"From: Alice <alice@example.com>\r\nSubject: Weekly report\r\n\r\nthe body text\r\n";
    let msg = Message::new(5, vec![Flag::Seen], 1_752_537_600_000, 3, raw.to_vec());
    let ctx = SearchCtx::new(1, 1, 5, 5, &msg);
    assert!(eval(&key("SEEN"), &ctx));
    assert!(!eval(&key("UNSEEN"), &ctx));
    assert!(eval(&key("FROM alice"), &ctx));
    assert!(eval(&key("SUBJECT report"), &ctx));
    assert!(eval(&key("BODY body"), &ctx));
    assert!(eval(&key("UID 5"), &ctx));
    assert!(eval(&key("SINCE 1-Jan-2020"), &ctx));
    assert!(eval(&key("BEFORE 1-Jan-2030"), &ctx));
    assert!(!eval(&key("LARGER 100000"), &ctx));
}

fn subject_key(needle: &str) -> SearchKey {
    SearchKey::Subject(needle.into())
}

#[test]
fn unicode_case_insensitive_matching() {
    let raw = "From: Алиса <alice@example.ru>\r\nSubject: Отчёт за Июль\r\n\r\nПривет, Боб\r\n"
        .as_bytes()
        .to_vec();
    let msg = Message::new(1, vec![], 1_752_537_600_000, 1, raw);
    let ctx = SearchCtx::new(1, 1, 1, 1, &msg);
    assert!(eval(&SearchKey::From("алиса".into()), &ctx));
    assert!(eval(&subject_key("отчёт"), &ctx));
    assert!(eval(&SearchKey::Body("привет".into()), &ctx));
    assert!(eval(&SearchKey::Text("боб".into()), &ctx));
    assert!(!eval(&subject_key("август"), &ctx));
}

#[test]
fn search_matches_rfc2047_decoded_headers() {
    let raw = b"From: =?UTF-8?B?0JDQu9C40YHQsA==?= <alice@example.ru>\r\n\
                Subject: =?ISO-8859-1?Q?Gr=FC=DFe_aus_M=FCnchen?=\r\n\r\nbody\r\n"
        .to_vec();
    let msg = Message::new(1, vec![], 1_752_537_600_000, 1, raw);
    let ctx = SearchCtx::new(1, 1, 1, 1, &msg);
    assert!(eval(&subject_key("münchen"), &ctx));
    assert!(eval(&subject_key("grüße"), &ctx));
    assert!(eval(&SearchKey::From("алиса".into()), &ctx));
    assert!(eval(
        &SearchKey::Header("Subject".into(), "münchen".into()),
        &ctx
    ));
    assert!(eval(&SearchKey::Text("алиса".into()), &ctx));
    assert!(!eval(&subject_key("Gr=FC=DFe"), &ctx));
}

#[test]
fn search_matches_cte_decoded_body() {
    let raw = b"Subject: x\r\nContent-Type: text/plain; charset=utf-8\r\n\
                Content-Transfer-Encoding: base64\r\n\r\n0J/RgNC40LLQtdGCLCDQvNC40YAh\r\n"
        .to_vec();
    let msg = Message::new(1, vec![], 1_752_537_600_000, 1, raw);
    let ctx = SearchCtx::new(1, 1, 1, 1, &msg);
    assert!(eval(&SearchKey::Body("мир".into()), &ctx));
    assert!(eval(&SearchKey::Text("привет".into()), &ctx));
    assert!(!eval(&SearchKey::Body("0J/RgNC4".into()), &ctx));
}

#[test]
fn combinators_sizes_dates_and_saved_results() {
    let raw = b"Subject: hi\r\nDate: Tue, 15 Jul 2025 10:00:00 +0000\r\nX-Tag: Blue\r\n\r\nx".to_vec();
    let msg = Message::new(7, vec![Flag::Recent, Flag::Keyword(b"$Work".to_vec())], 1_752_537_600_000, 9, raw);
    let ctx = SearchCtx::new(2, 3, 7, 9, &msg);
    assert!(eval(&key("NEW"), &ctx));
    assert!(!eval(&key("OLD"), &ctx));
    assert!(eval(&key("KEYWORD $Work"), &ctx));
    assert!(eval(&key("UNKEYWORD $Home"), &ctx));
    assert!(eval(&key("OR SEEN RECENT"), &ctx));
    assert!(!eval(&key("NOT RECENT"), &ctx));
    assert!(eval(&key("SMALLER 1000 LARGER 5"), &ctx));
    assert!(!eval(&key("SMALLER 1000 LARGER 5000"), &ctx));
    assert!(eval(&key("MODSEQ 9"), &ctx));
    assert!(!eval(&key("MODSEQ 10"), &ctx));
    assert!(eval(&key("2"), &ctx));
    assert!(eval(&key("*"), &ctx) == false);
    assert!(eval(&key("UID *"), &ctx) == false);
    assert!(eval(&key("UID 7:*"), &ctx));
    assert!(eval(&key("HEADER X-Tag blue"), &ctx));
    assert!(!eval(&key("HEADER X-Missing blue"), &ctx));
    assert!(eval(&SearchKey::Header("X-Missing".into(), Vec::new()), &ctx));
    assert!(eval(&key("SENTON 15-Jul-2025"), &ctx));
    assert!(!eval(&key("SENTBEFORE 15-Jul-2025"), &ctx));
    assert!(eval(&key("ON 15-Jul-2025"), &ctx));
    assert!(!eval(&key("SINCE bogus"), &ctx));
    assert!(eval(&key("UID $"), &ctx) == false);
    assert!(eval_saved(&key("UID $"), &ctx, &[3, 7]));
    assert!(!eval_saved(&key("$"), &ctx, &[3]));
}

#[test]
fn not_or_nesting_is_bounded() {
    let deep = format!("{}SEEN", "NOT ".repeat(101));
    let toks = tokenize(deep.as_bytes()).unwrap();
    assert!(parse_search_key(&toks).is_err());
    let ok = format!("{}SEEN", "NOT ".repeat(100));
    let toks = tokenize(ok.as_bytes()).unwrap();
    assert!(parse_search_key(&toks).is_ok());
    let deep_or = format!("{}SEEN{}", "OR SEEN ".repeat(101), "");
    let toks = tokenize(deep_or.as_bytes()).unwrap();
    assert!(parse_search_key(&toks).is_err());
}

#[test]
fn programs_parse_key_by_key() {
    assert_eq!(key("SUBJECT hello UNSEEN"), SearchKey::And(vec![SearchKey::Subject("hello".into()), SearchKey::Unseen]));
    assert_eq!(key("OR SEEN FLAGGED DELETED"), SearchKey::And(vec![
        SearchKey::Or(Box::new(SearchKey::Seen), Box::new(SearchKey::Flagged)),
        SearchKey::Deleted
    ]));
    assert_eq!(key("NOT DELETED"), SearchKey::Not(Box::new(SearchKey::Deleted)));
    for bad in ["NOT", "OR ANSWERED", "FROBNICATE", "LARGER notanumber"] {
        let toks = tokenize(bad.as_bytes()).unwrap();
        assert!(parse_search_key(&toks).is_err(), "{bad}");
    }
}
