use kotva_mail::mime::{
    body_offset, decode_charset, decode_encoded_words, decode_transfer_encoding, decoded_body_text,
    encode_display_name, encode_header_value, header_and_body, headers_only, parse_address_list,
    parse_content_type, part_segments, strip_trust_boundary_headers, BodyPart, ParsedMessage,
};

#[test]
fn splits_headers_and_body() {
    let raw = b"From: a@b.com\r\nSubject: Hi\r\n\r\nbody line\r\n";
    let p = ParsedMessage::parse(raw);
    assert_eq!(p.header("subject"), Some("Hi"));
    assert_eq!(p.header("FROM"), Some("a@b.com"));
    assert_eq!(p.body, b"body line\r\n");
}

#[test]
fn unfolds_headers() {
    let raw = b"Subject: a very\r\n long subject\r\n\r\nx";
    let p = ParsedMessage::parse(raw);
    assert_eq!(p.header("subject"), Some("a very long subject"));
}

#[test]
fn parses_address_list() {
    let addrs = parse_address_list("Foo Bar <foo@bar.com>, baz@qux.com");
    assert_eq!(addrs.len(), 2);
    assert_eq!(addrs[0].name.as_deref(), Some("Foo Bar"));
    assert_eq!(addrs[0].mailbox.as_deref(), Some("foo"));
    assert_eq!(addrs[0].host.as_deref(), Some("bar.com"));
    assert_eq!(addrs[1].mailbox.as_deref(), Some("baz"));
}

#[test]
fn malformed_angle_addresses_do_not_panic() {
    for header in ["><", "> x <", ">", "><@", "a >b< c", "To-junk >@<"] {
        let addrs = parse_address_list(header);
        let _ = addrs;
    }
    let ok = parse_address_list("Real Name <real@host.example>");
    assert_eq!(ok.len(), 1);
    assert_eq!(ok[0].mailbox.as_deref(), Some("real"));
    assert_eq!(ok[0].host.as_deref(), Some("host.example"));
}

#[test]
fn single_part_structure() {
    let raw = b"Content-Type: text/plain; charset=utf-8\r\n\r\nhello\nworld\n";
    let p = ParsedMessage::parse(raw);
    match p.structure {
        BodyPart::Single { mime_type, subtype, lines, .. } => {
            assert_eq!((mime_type.as_str(), subtype.as_str()), ("text", "plain"));
            assert_eq!(lines, 2);
        }
        _ => panic!("expected single part"),
    }
}

#[test]
fn multipart_structure() {
    let raw = b"Content-Type: multipart/alternative; boundary=\"BND\"\r\n\r\n\
                --BND\r\nContent-Type: text/plain\r\n\r\nplain\r\n\
                --BND\r\nContent-Type: text/html\r\n\r\n<p>hi</p>\r\n\
                --BND--\r\n";
    let p = ParsedMessage::parse(raw);
    match p.structure {
        BodyPart::Multipart { subtype, parts, .. } => {
            assert_eq!(subtype, "alternative");
            assert_eq!(parts.len(), 2);
            match &parts[1] {
                BodyPart::Single { subtype, .. } => assert_eq!(subtype, "html"),
                _ => panic!(),
            }
        }
        _ => panic!("expected multipart"),
    }
}

#[test]
fn trust_boundary_strip_handles_whitespace_before_colon() {
    for raw in [
        &b"Authentication-Results :dkim=pass header.d=trusted.com\r\nX-Keep: 1\r\n"[..],
        &b"Authentication-Results\t:dkim=pass header.d=trusted.com\r\nX-Keep: 1\r\n"[..],
        &b"ARC-Authentication-Results :i=1; dkim=pass\r\nX-Keep: 1\r\n"[..],
        &b"ARC-Seal \t:i=1; a=rsa-sha256; cv=none\r\nX-Keep: 1\r\n"[..],
        &b" Authentication-Results: mx; dkim=pass header.d=paypal.com\r\nX-Keep: 1\r\n"[..],
        &b"\tAuthentication-Results: mx; dkim=pass header.d=paypal.com\r\nX-Keep: 1\r\n"[..],
    ] {
        let s = String::from_utf8_lossy(&strip_trust_boundary_headers(raw)).to_ascii_lowercase();
        assert!(
            !s.contains("dkim=pass") && !s.contains("cv=none"),
            "WSP-before-colon trust-boundary header survived the strip: {}",
            String::from_utf8_lossy(raw)
        );
        assert!(s.contains("x-keep: 1"), "a non-trust-boundary header must still carry through");
    }
    let keep = strip_trust_boundary_headers(b"Authentication-Results-Extra: keep me\r\n");
    assert!(String::from_utf8_lossy(&keep).contains("Authentication-Results-Extra"));
}

#[test]
fn decodes_b_encoded_words() {
    assert_eq!(decode_encoded_words("=?UTF-8?B?44GT44KT44Gr44Gh44Gv?="), "こんにちは");
    assert_eq!(decode_encoded_words("=?UTF-8?B?0J/RgNC40LLQtdGC?="), "Привет");
    assert_eq!(
        decode_encoded_words("Re: =?UTF-8?B?0J/RgNC40LLQtdGC?= (fwd)"),
        "Re: Привет (fwd)"
    );
}

#[test]
fn decodes_q_encoded_words() {
    assert_eq!(decode_encoded_words("=?UTF-8?Q?Hello_World?="), "Hello World");
    assert_eq!(
        decode_encoded_words("=?ISO-8859-1?Q?Gr=FC=DFe_aus_M=FCnchen?="),
        "Grüße aus München"
    );
    assert_eq!(decode_encoded_words("=?iso-8859-1?q?caf=E9?="), "café");
}

#[test]
fn adjacent_encoded_words_elide_whitespace() {
    assert_eq!(
        decode_encoded_words("=?UTF-8?B?44GT44KT?= =?UTF-8?B?44Gr44Gh44Gv?="),
        "こんにちは"
    );
    assert_eq!(decode_encoded_words("=?UTF-8?Q?a?= \t =?UTF-8?Q?b?="), "ab");
    assert_eq!(decode_encoded_words("=?UTF-8?Q?a?==?UTF-8?Q?b?="), "ab");
}

#[test]
fn malformed_encoded_words_pass_through_verbatim() {
    for bad in [
        "=?UTF-8?X?abc?=",
        "=?UTF-8?Q?=ZZ?=",
        "=?UTF-8?B?!!notb64!!?=",
        "=?UTF-8?B?abc",
        "=??B?abc?=",
        "=?UTF-8?Q?a?b?=",
        "plain text only",
        "=?",
    ] {
        assert_eq!(decode_encoded_words(bad), bad, "must pass through: {bad}");
    }
    let tok = "=?UTF-8?Q?ok?=garbage";
    assert_eq!(decode_encoded_words(tok), tok);
}

#[test]
fn unknown_charset_encoded_word_never_panics() {
    let s = decode_encoded_words("=?GB2312?B?xOO6ww==?=");
    assert!(!s.is_empty());
}

#[test]
fn encode_header_round_trips_through_parse() {
    for subject in [
        "こんにちは、世界 — 長いテストの件名です。すべての文字が往復すること。",
        "Привет, Алиса! Это очень длинная тема письма для проверки свёртки строк.",
        "café ≤ 76 chars",
    ] {
        let encoded = encode_header_value(subject);
        for line in format!("Subject: {encoded}").split("\r\n") {
            assert!(line.len() <= 78, "overlong fold line ({}): {line}", line.len());
        }
        let raw = format!("Subject: {encoded}\r\n\r\nx");
        let p = ParsedMessage::parse(raw.as_bytes());
        assert_eq!(decode_encoded_words(p.header("Subject").unwrap()), subject);
    }
}

#[test]
fn encode_header_leaves_ascii_untouched() {
    assert_eq!(encode_header_value("Weekly report [v2] (final)"), "Weekly report [v2] (final)");
}

#[test]
fn encode_display_name_forms() {
    assert_eq!(encode_display_name("Alice Example"), "Alice Example");
    assert_eq!(encode_display_name("Smith, John"), "\"Smith, John\"");
    assert_eq!(encode_display_name("a \"b\" c"), "\"a \\\"b\\\" c\"");
    let enc = encode_display_name("Алиса");
    assert!(enc.starts_with("=?UTF-8?B?"), "{enc}");
    assert_eq!(decode_encoded_words(&enc), "Алиса");
}

#[test]
fn decode_charset_matrix() {
    assert_eq!(decode_charset(b"caf\xe9", "ISO-8859-1"), ("café".to_string(), false));
    assert_eq!(decode_charset(b"caf\xe9", "latin1"), ("café".to_string(), false));
    assert_eq!(decode_charset("día".as_bytes(), "utf-8"), ("día".to_string(), false));
    assert_eq!(decode_charset("día".as_bytes(), ""), ("día".to_string(), false));
    let (s, problem) = decode_charset(b"a\xff b", "utf-8");
    assert!(problem && s.contains('\u{FFFD}'));
    assert_eq!(decode_charset(b"caf\xe9", "us-ascii"), ("café".to_string(), true));
    assert_eq!(decode_charset(b"hello", "gb18030"), ("hello".to_string(), false));
    let (_, problem) = decode_charset(b"\xc4\xe3\xba\xc3", "gb18030");
    assert!(problem, "GB18030 8-bit content must be flagged as an encoding problem");
}

#[test]
fn decodes_transfer_encodings() {
    assert_eq!(decode_transfer_encoding(b"aGVsbG8gd29ybGQ=", "base64"), b"hello world");
    assert_eq!(decode_transfer_encoding(b"aGVs\r\nbG8=", "BASE64"), b"hello");
    assert_eq!(decode_transfer_encoding(b"!!not-base64!!", "base64"), b"!!not-base64!!");
    assert_eq!(
        decode_transfer_encoding(b"Gr=C3=BC=C3=9Fe", "quoted-printable"),
        "Grüße".as_bytes()
    );
    assert_eq!(decode_transfer_encoding(b"foo=\r\nbar", "quoted-printable"), b"foobar");
    assert_eq!(decode_transfer_encoding(b"foo=\nbar", "quoted-printable"), b"foobar");
    assert_eq!(decode_transfer_encoding(b"a=Zb", "quoted-printable"), b"a=Zb");
    assert_eq!(decode_transfer_encoding(b"caf\xe9", "8bit"), b"caf\xe9");
}

#[test]
fn decoded_body_text_full_stack() {
    let raw = b"Content-Type: text/plain; charset=utf-8\r\nContent-Transfer-Encoding: base64\r\n\r\n0J/RgNC40LLQtdGCLCDQvNC40YAh\r\n";
    let p = ParsedMessage::parse(raw);
    let (text, problem) = decoded_body_text(&p);
    assert_eq!(text.trim_end(), "Привет, мир!");
    assert!(!problem);

    let raw = b"Content-Type: text/plain; charset=iso-8859-1\r\nContent-Transfer-Encoding: 8bit\r\n\r\nGr\xfc\xdfe\r\n";
    let p = ParsedMessage::parse(raw);
    let (text, problem) = decoded_body_text(&p);
    assert_eq!(text.trim_end(), "Grüße");
    assert!(!problem);

    let raw = b"Content-Type: text/plain; charset=gb18030\r\nContent-Transfer-Encoding: 8bit\r\n\r\n\xc4\xe3\xba\xc3\r\n";
    let p = ParsedMessage::parse(raw);
    let (_, problem) = decoded_body_text(&p);
    assert!(problem, "an undecoded GB18030 body must be flagged");
}

#[test]
fn raw_latin1_headers_survive_parse() {
    let raw = b"Subject: Gr\xfc\xdfe\r\nFrom: a@b.com\r\n\r\nx";
    let p = ParsedMessage::parse(raw);
    assert_eq!(p.header("Subject"), Some("Grüße"));
}

// --- further cases --------------------------------------------------------------------------

#[test]
fn body_offset_finds_lf_and_crlf_separators() {
    assert_eq!(body_offset(b"A: 1\n\nbody"), 6);
    assert_eq!(body_offset(b"A: 1\r\n\r\nbody"), 8);
    assert_eq!(body_offset(b"A: 1\r\nB: 2"), 10);
    let (h, b) = header_and_body(b"A: 1\r\n\r\nbody");
    assert_eq!(h, b"A: 1\r\n\r\n");
    assert_eq!(b, b"body");
}

#[test]
fn headers_only_reads_the_block() {
    let hs = headers_only(b"X-A: one\r\nX-B:  two \r\n\r\nX-C: body");
    assert_eq!(hs, vec![("X-A".to_string(), "one".to_string()), ("X-B".to_string(), "two".to_string())]);
}

#[test]
fn content_type_parameters() {
    let (t, s, p) = parse_content_type("Multipart/Mixed; Boundary=\"x y\"; charset=utf-8");
    assert_eq!(t, "multipart");
    assert_eq!(s, "mixed");
    assert_eq!(p, vec![("boundary".to_string(), "x y".to_string()), ("charset".to_string(), "utf-8".to_string())]);
    let (t, s, p) = parse_content_type("garbage");
    assert_eq!((t.as_str(), s.as_str(), p.len()), ("text", "plain", 0));
}

#[test]
fn part_segments_split_on_boundary() {
    let raw = b"Content-Type: multipart/mixed; boundary=B\r\n\r\npre\r\n--B\r\nA: 1\r\n\r\none\r\n--B\r\n\r\ntwo\r\n--B--\r\n";
    let segs = part_segments(raw);
    assert_eq!(segs.len(), 2);
    assert_eq!(segs[0], b"A: 1\r\n\r\none");
    assert_eq!(segs[1], b"\r\ntwo");
    assert!(part_segments(b"Subject: x\r\n\r\nbody").is_empty());
}

#[test]
fn quoted_printable_malformed_escape_kept() {
    assert_eq!(decode_transfer_encoding(b"=4", "quoted-printable"), b"=4");
    assert_eq!(decode_transfer_encoding(b"=41=42", " Quoted-Printable "), b"AB");
}

#[test]
fn rfc5322_date_format() {
    let s = kotva_mail::mime::format_rfc5322_date(1_752_537_600_000);
    assert_eq!(s, "Tue, 15 Jul 2025 00:00:00 +0000", "got {s}");
}

#[test]
fn civil_epoch() {
    assert_eq!(kotva_mail::mime::civil_from_days(0), (1970, 1, 1));
    assert_eq!(kotva_mail::mime::weekday_from_days(0), 3);
}

#[test]
fn internal_date_and_calendar_edges() {
    assert_eq!(kotva_mail::mime::format_internal_date(1_752_582_896_000), "15-Jul-2025 12:34:56 +0000");
    assert_eq!(kotva_mail::mime::format_internal_date(0), "01-Jan-1970 00:00:00 +0000");
    assert_eq!(kotva_mail::mime::civil_from_days(-1), (1969, 12, 31));
    assert_eq!(kotva_mail::mime::civil_from_days(11016), (2000, 2, 29));
    assert_eq!(kotva_mail::mime::civil_from_days(-719468), (0, 3, 1));
    assert_eq!(kotva_mail::mime::weekday_from_days(-1), 2);
    assert_eq!(kotva_mail::mime::ymd_from_ms(951_782_400_000), (2000, 2, 29));
    for z in [-800_000i64, -1, 0, 59, 10_957, 20_284, 2_932_896] {
        let (y, m, d) = kotva_mail::mime::civil_from_days(z);
        assert_eq!(kotva_mail::date::days_from_civil(y, m, d), z);
    }
}

#[test]
fn part_segments_trim_both_line_breaks() {
    let raw = b"Content-Type: multipart/mixed; boundary=\"B\"\r\n\r\n--B\r\nContent-Type: text/plain\r\n\r\nfirst part\r\n--B\r\nContent-Type: text/html\r\n\r\n<p>second</p>\r\n--B--\r\n";
    assert_eq!(
        kotva_mail::mime::part_segments(raw),
        vec![
            b"Content-Type: text/plain\r\n\r\nfirst part".to_vec(),
            b"Content-Type: text/html\r\n\r\n<p>second</p>".to_vec()
        ]
    );
    assert!(kotva_mail::mime::part_segments(b"Subject: x\r\n\r\nbody").is_empty());
}

#[test]
fn strip_matches_names_as_the_parser_reads_them() {
    let raw = b"From: a@b\r\nAuthentication-Results\r: dkim=pass\r\nSubject: s\r\n";
    let out = kotva_mail::mime::strip_trust_boundary_headers(raw);
    assert_eq!(out, b"From: a@b\r\nSubject: s\r\n".to_vec());
    let parsed = kotva_mail::mime::ParsedMessage::parse(&out);
    assert!(!parsed.headers.iter().any(|(n, _)| n.eq_ignore_ascii_case("authentication-results")));
}
