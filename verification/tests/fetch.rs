use kotva_mail::imap::fetch::{apply_store, fetch_marks_seen, render_fetch_items};
use kotva_mail::imap::parser::{FetchItem, Section, StoreOp};
use kotva_mail::store::{Flag, Message};

fn msg() -> Message {
    Message::new(
        7,
        vec![Flag::Seen, Flag::Recent],
        1_752_537_600_000,
        42,
        b"Subject: Hi\r\nFrom: a@b.example\r\n\r\nline one\r\nline two\r\n".to_vec(),
    )
}

#[test]
fn renders_simple_items_in_order() {
    let m = msg();
    let out = render_fetch_items(
        &[FetchItem::Uid, FetchItem::Flags, FetchItem::Rfc822Size, FetchItem::ModSeq],
        &m,
        1,
        7,
        false,
        false,
    );
    assert_eq!(
        String::from_utf8(out).unwrap(),
        format!("UID 7 FLAGS (\\Seen \\Recent) RFC822.SIZE {} MODSEQ (42)", m.raw.len())
    );
    let out = render_fetch_items(&[FetchItem::InternalDate], &m, 1, 7, false, false);
    assert_eq!(String::from_utf8(out).unwrap(), "INTERNALDATE \"15-Jul-2025 00:00:00 +0000\"");
}

#[test]
fn uid_fetch_always_carries_uid() {
    let m = msg();
    let out = render_fetch_items(&[FetchItem::Flags], &m, 1, 7, true, false);
    assert_eq!(String::from_utf8(out).unwrap(), "FLAGS (\\Seen \\Recent) UID 7");
    let out = render_fetch_items(&[], &m, 1, 7, true, false);
    assert_eq!(String::from_utf8(out).unwrap(), "UID 7");
    let out = render_fetch_items(&[FetchItem::Uid, FetchItem::Flags], &m, 1, 7, true, false);
    assert_eq!(String::from_utf8(out).unwrap(), "UID 7 FLAGS (\\Seen \\Recent)");
}

#[test]
fn body_sections_are_literals_with_partial_origin() {
    let m = msg();
    let out = render_fetch_items(
        &[FetchItem::BodySection { peek: true, section: Section::Text, partial: None }],
        &m,
        1,
        7,
        false,
        false,
    );
    assert_eq!(String::from_utf8(out).unwrap(), "BODY[TEXT] {20}\r\nline one\r\nline two\r\n");
    let out = render_fetch_items(
        &[FetchItem::BodySection { peek: false, section: Section::Full, partial: Some((0, 7)) }],
        &m,
        1,
        7,
        false,
        false,
    );
    assert_eq!(String::from_utf8(out).unwrap(), "BODY[]<0> {7}\r\nSubject");
    let out = render_fetch_items(
        &[FetchItem::BodySection {
            peek: true,
            section: Section::HeaderFields(vec![b"SUBJECT".to_vec()]),
            partial: None,
        }],
        &m,
        1,
        7,
        false,
        false,
    );
    assert_eq!(
        String::from_utf8(out).unwrap(),
        "BODY[HEADER.FIELDS (SUBJECT)] {15}\r\nSubject: Hi\r\n\r\n"
    );
    let out = render_fetch_items(&[FetchItem::Rfc822Text], &m, 1, 7, false, false);
    assert_eq!(String::from_utf8(out).unwrap(), "RFC822.TEXT {20}\r\nline one\r\nline two\r\n");
    let out = render_fetch_items(&[FetchItem::BinarySize { section: vec![] }], &m, 1, 7, false, false);
    assert_eq!(String::from_utf8(out).unwrap(), "BINARY.SIZE[] 20");
}

#[test]
fn envelope_and_structure_items() {
    let m = msg();
    let out = String::from_utf8(render_fetch_items(&[FetchItem::Envelope], &m, 1, 7, false, false)).unwrap();
    assert!(out.starts_with("ENVELOPE (NIL \"Hi\" "), "{out}");
    let out = String::from_utf8(render_fetch_items(&[FetchItem::Body], &m, 1, 7, false, false)).unwrap();
    assert!(out.starts_with("BODY (\"TEXT\" \"PLAIN\""), "{out}");
}

#[test]
fn which_items_mark_seen() {
    assert!(!fetch_marks_seen(&[FetchItem::Flags, FetchItem::Envelope]));
    assert!(fetch_marks_seen(&[FetchItem::Rfc822]));
    assert!(!fetch_marks_seen(&[FetchItem::BodySection { peek: true, section: Section::Full, partial: None }]));
    assert!(fetch_marks_seen(&[FetchItem::BodySection { peek: false, section: Section::Full, partial: None }]));
    assert!(fetch_marks_seen(&[FetchItem::Binary { peek: false, section: vec![1], partial: None }]));
}

#[test]
fn store_operations_keep_recent_session_state() {
    let mut m = msg();
    apply_store(&mut m, StoreOp::Replace, &[Flag::Flagged, Flag::Recent]);
    assert!(m.has_flag(&Flag::Flagged));
    assert!(m.has_flag(&Flag::Recent));
    assert!(!m.has_flag(&Flag::Seen));
    apply_store(&mut m, StoreOp::Add, &[Flag::Seen, Flag::Keyword(b"$Work".to_vec()), Flag::Seen]);
    assert!(m.has_flag(&Flag::Seen));
    assert!(m.has_flag(&Flag::Keyword(b"$Work".to_vec())));
    assert_eq!(m.flags.iter().filter(|f| **f == Flag::Seen).count(), 1);
    apply_store(&mut m, StoreOp::Remove, &[Flag::Flagged, Flag::Recent]);
    assert!(!m.has_flag(&Flag::Flagged));
    assert!(!m.has_flag(&Flag::Recent));
    let mut n = Message::new(1, vec![], 0, 1, b"x".to_vec());
    apply_store(&mut n, StoreOp::Add, &[Flag::Recent]);
    assert!(!n.has_flag(&Flag::Recent));
    apply_store(&mut n, StoreOp::Replace, &[Flag::Recent]);
    assert!(n.flags.is_empty());
}
