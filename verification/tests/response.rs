use std::borrow::Cow;

use kotva_mail::imap::parser::Section;
use kotva_mail::imap::response::{
    apply_partial, body_structure, envelope, extract_binary, extract_section, imap_string,
    join_path, nstring, section_label,
};
use kotva_mail::mime::ParsedMessage;

#[test]
fn quotes_and_nstrings() {
    assert_eq!(imap_string("hi"), "\"hi\"");
    assert_eq!(imap_string(""), "\"\"");
    assert_eq!(nstring(None), "NIL");
    assert!(imap_string("a\r\nb").starts_with("{4}\r\n"));
}

#[test]
fn envelope_projection() {
    let raw = b"Date: Wed, 15 Jul 2026 12:00:00 +0000\r\n\
                From: Alice <alice@example.com>\r\n\
                To: bob@example.net\r\n\
                Subject: Hi\r\nMessage-ID: <abc@x>\r\n\r\nbody";
    let p = ParsedMessage::parse(raw);
    let env = envelope(&p);
    assert!(env.contains("\"Hi\""));
    assert!(env.contains("\"alice\""));
    assert!(env.contains("\"example.com\""));
    assert!(env.contains("<abc@x>"));
}

#[test]
fn bodystructure_text() {
    let raw = b"Content-Type: text/plain; charset=utf-8\r\n\r\nhello\nworld\n";
    let p = ParsedMessage::parse(raw);
    let bs = body_structure(&p.structure, true);
    assert!(bs.starts_with("(\"TEXT\" \"PLAIN\""));
    assert!(bs.contains("\"CHARSET\" \"utf-8\""));
}

#[test]
fn section_extraction() {
    let raw = b"From: a@b\r\nSubject: S\r\n\r\nthe body\r\n";
    assert_eq!(extract_section(raw, &Section::Text).as_ref(), b"the body\r\n");
    assert!(matches!(extract_section(raw, &Section::Full), Cow::Borrowed(_)));
    assert!(matches!(extract_section(raw, &Section::Text), Cow::Borrowed(_)));
    let hf = extract_section(raw, &Section::HeaderFields(vec!["Subject".into()])).into_owned();
    let s = String::from_utf8(hf).unwrap();
    assert!(s.contains("Subject: S"));
    assert!(!s.contains("From:"));
}

#[test]
fn multipart_part_extraction() {
    let raw = b"Content-Type: multipart/mixed; boundary=\"B\"\r\n\r\n\
                --B\r\nContent-Type: text/plain\r\n\r\nfirst part\r\n\
                --B\r\nContent-Type: text/html\r\n\r\n<p>second</p>\r\n--B--\r\n";
    let part1 = extract_section(raw, &Section::Part(vec![1]));
    assert_eq!(String::from_utf8_lossy(part1.as_ref()).trim(), "first part");
}

// --- further cases --------------------------------------------------------------------------

#[test]
fn quoting_escapes_and_literals() {
    assert_eq!(imap_string("a\"b\\c"), "\"a\\\"b\\\\c\"");
    assert_eq!(imap_string("é"), "{2}\r\né");
    assert_eq!(nstring(Some("x")), "\"x\"");
}

#[test]
fn envelope_defaults_sender_to_from() {
    let p = ParsedMessage::parse(b"From: a@b\r\n\r\n");
    assert_eq!(
        envelope(&p),
        "(NIL NIL ((NIL NIL \"a\" \"b\")) ((NIL NIL \"a\" \"b\")) ((NIL NIL \"a\" \"b\")) NIL NIL NIL NIL NIL)"
    );
}

#[test]
fn bodystructure_exact() {
    let p = ParsedMessage::parse(b"Content-Type: text/plain\r\n\r\nhi\n");
    assert_eq!(body_structure(&p.structure, false), "(\"TEXT\" \"PLAIN\" NIL NIL NIL \"7BIT\" 3 1)");
    assert_eq!(body_structure(&p.structure, true), "(\"TEXT\" \"PLAIN\" NIL NIL NIL \"7BIT\" 3 1 NIL NIL NIL NIL)");
}

#[test]
fn labels_and_paths() {
    assert_eq!(section_label(&Section::Full), "");
    assert_eq!(section_label(&Section::PartMime(vec![1, 2])), "1.2.MIME");
    assert_eq!(
        section_label(&Section::HeaderFields(vec![b"FROM".to_vec(), b"TO".to_vec()])),
        "HEADER.FIELDS (FROM TO)"
    );
    assert_eq!(join_path(&[3, 10]), "3.10");
}

#[test]
fn partial_windows() {
    assert_eq!(apply_partial(b"abcdef", None), (b"abcdef".to_vec(), None));
    assert_eq!(apply_partial(b"abcdef", Some((2, 3))), (b"cde".to_vec(), Some(2)));
    assert_eq!(apply_partial(b"abcdef", Some((4, 100))), (b"ef".to_vec(), Some(4)));
    assert_eq!(apply_partial(b"abcdef", Some((9, 1))), (Vec::new(), Some(9)));
}

#[test]
fn binary_decodes_transfer_encoding() {
    let raw = b"Content-Transfer-Encoding: base64\r\n\r\naGk=";
    assert_eq!(extract_binary(raw, &[]), b"hi");
    let raw = b"Content-Transfer-Encoding: Quoted-Printable\r\n\r\na=3Db";
    assert_eq!(extract_binary(raw, &[]), b"a=b");
    assert_eq!(extract_binary(b"X: y\r\n\r\nbody", &[1]), b"");
    let bad = b"Content-Transfer-Encoding: base64\r\n\r\n!!";
    assert_eq!(extract_binary(bad, &[]), b"");
}
