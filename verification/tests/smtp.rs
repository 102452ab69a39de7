use kotva_mail::auth::StaticAuthenticator;
use kotva_mail::base64::base64_encode;
use kotva_mail::mime::ParsedMessage;
use kotva_mail::smtp::{parse_path_param, wants_failure_dsn, DsnAction, DsnReport, Ret, SmtpSession, Submission};

fn authed_session() -> SmtpSession<StaticAuthenticator> {
    let mut a = StaticAuthenticator::new();
    a.issue("alice@dmtap.local", "pw", vec![9, 9], "test");
    let mut s = SmtpSession::new(a, true);
    let _ = s.greeting();
    s
}

#[test]
fn malformed_path_param_does_not_panic() {
    for rest in ["FROM:><", "FROM:> x <", "TO:>", "TO:> <a@b>", "FROM: >bad<"] {
        let kw = if rest.starts_with("TO") { "TO" } else { "FROM" };
        let _ = parse_path_param(rest, kw);
    }
    assert_eq!(parse_path_param("FROM:<a@b.example>", "FROM").as_deref(), Some("a@b.example"));
    assert_eq!(parse_path_param("TO:<x@y.example> SIZE=10", "TO").as_deref(), Some("x@y.example"));
}

#[test]
fn ehlo_advertises_extensions() {
    let mut s = authed_session();
    let reply = s.feed_line("EHLO client.example");
    assert!(reply.contains("250-SIZE"));
    assert!(reply.contains("8BITMIME"));
    assert!(reply.contains("SMTPUTF8"));
    assert!(reply.contains("AUTH PLAIN LOGIN"));
}

#[test]
fn mail_from_must_match_authenticated_identity() {
    let mut s = authed_session();
    s.feed_line("EHLO c");
    assert!(s
        .feed_line(&format!("AUTH PLAIN {}", base64_encode(b"\0alice@dmtap.local\0pw")))
        .starts_with("235"));
    let spoof = s.feed_line("MAIL FROM:<victim@paypal.com>");
    assert!(spoof.starts_with("550"), "spoofed sender must be refused: {spoof}");
    assert!(spoof.to_ascii_lowercase().contains("not authorised"), "{spoof}");
    assert!(s.feed_line("MAIL FROM:<Alice@DMTAP.local>").starts_with("250"));

    let mut s2 = authed_session();
    s2.feed_line("EHLO c");
    s2.feed_line(&format!("AUTH PLAIN {}", base64_encode(b"\0alice@dmtap.local\0pw")));
    assert!(s2.feed_line("MAIL FROM:<>").starts_with("250"), "null return-path must be allowed");
}

#[test]
fn full_submission_flow() {
    let mut s = authed_session();
    s.feed_line("EHLO c");
    let cred = base64_encode(b"\0alice@dmtap.local\0pw");
    assert!(s.feed_line(&format!("AUTH PLAIN {cred}")).starts_with("235"));
    assert!(s.feed_line("MAIL FROM:<alice@dmtap.local> SIZE=100").starts_with("250"));
    assert!(s.feed_line("RCPT TO:<bob@example.net>").starts_with("250"));
    assert!(s.feed_line("DATA").starts_with("354"));
    s.feed_line("Subject: Hi");
    s.feed_line("");
    s.feed_line("Hello Bob");
    assert!(s.feed_line(".").starts_with("250"));
    let subs = s.take_submissions();
    assert_eq!(subs.len(), 1);
    assert_eq!(subs[0].rcpt_to, vec!["bob@example.net"]);
    assert!(subs[0].data.windows(9).any(|w| w == b"Hello Bob"));
}

#[test]
fn quit_line_in_data_body_does_not_close_connection() {
    let mut s = authed_session();
    s.feed_line("EHLO c");
    let cred = base64_encode(b"\0alice@dmtap.local\0pw");
    assert!(s.feed_line(&format!("AUTH PLAIN {cred}")).starts_with("235"));
    assert!(s.feed_line("MAIL FROM:<alice@dmtap.local>").starts_with("250"));
    assert!(s.feed_line("RCPT TO:<bob@example.net>").starts_with("250"));
    assert!(s.feed_line("DATA").starts_with("354"));
    assert!(!s.wants_close(), "not closing before any QUIT");
    s.feed_line("Subject: Hi");
    s.feed_line("");
    s.feed_line("QUIT");
    assert!(!s.wants_close(), "a DATA-body QUIT line must NOT request connection close");
    s.feed_line("still here");
    assert!(s.feed_line(".").starts_with("250"), "message completes normally");
    let subs = s.take_submissions();
    assert_eq!(subs.len(), 1, "the message is delivered, not lost");
    assert!(subs[0].data.windows(4).any(|w| w == b"QUIT"), "QUIT line kept as content");
    assert!(subs[0].data.windows(10).any(|w| w == b"still here"));

    let mut s2 = authed_session();
    s2.feed_line("EHLO c");
    assert!(s2.feed_line("QUIT").starts_with("221"));
    assert!(s2.wants_close(), "the QUIT command requests close");
}

#[test]
fn requires_auth_before_mail() {
    let mut s = authed_session();
    s.feed_line("EHLO c");
    assert!(s.feed_line("MAIL FROM:<x@y>").starts_with("530"));
}

#[test]
fn eight_bit_data_survives_byte_exact() {
    let mut s = authed_session();
    s.feed_line("EHLO c");
    let cred = base64_encode(b"\0alice@dmtap.local\0pw");
    s.feed_line(&format!("AUTH PLAIN {cred}"));
    s.feed_line("MAIL FROM:<alice@dmtap.local> BODY=8BITMIME");
    s.feed_line("RCPT TO:<bob@example.net>");
    s.feed_line("DATA");
    s.feed_line_bytes(b"Content-Type: text/plain; charset=iso-8859-1");
    s.feed_line_bytes(b"Content-Transfer-Encoding: 8bit");
    s.feed_line_bytes(b"");
    s.feed_line_bytes(b"Gr\xfc\xdfe aus M\xfcnchen");
    s.feed_line_bytes(b".\xe9 dot-stuffed latin-1");
    assert!(s.feed_line_bytes(b".").starts_with("250"));
    let sub = s.take_submissions().pop().unwrap();
    let expected: &[u8] = b"Content-Type: text/plain; charset=iso-8859-1\r\n\
                            Content-Transfer-Encoding: 8bit\r\n\r\n\
                            Gr\xfc\xdfe aus M\xfcnchen\r\n\xe9 dot-stuffed latin-1\r\n";
    assert_eq!(sub.data, expected, "8-bit DATA must survive byte-exact");
    let parsed = ParsedMessage::parse(&sub.data);
    assert_eq!(parsed.body, b"Gr\xfc\xdfe aus M\xfcnchen\r\n\xe9 dot-stuffed latin-1\r\n");
}

fn submitted_with_dsn(ret: &str, notify: &str) -> Submission {
    let mut s = authed_session();
    s.feed_line("EHLO c");
    let cred = base64_encode(b"\0alice@dmtap.local\0pw");
    s.feed_line(&format!("AUTH PLAIN {cred}"));
    s.feed_line(&format!("MAIL FROM:<alice@dmtap.local> RET={ret} ENVID=abc123"));
    s.feed_line(&format!("RCPT TO:<bob@example.net> NOTIFY={notify}"));
    s.feed_line("DATA");
    s.feed_line("Subject: Hi");
    s.feed_line("From: alice@dmtap.local");
    s.feed_line("");
    s.feed_line("Hello Bob");
    s.feed_line(".");
    s.take_submissions().pop().unwrap()
}

#[test]
fn captures_dsn_params() {
    let sub = submitted_with_dsn("FULL", "FAILURE");
    assert_eq!(sub.ret, Some(Ret::Full));
    assert_eq!(sub.envid.as_deref(), Some("abc123"));
    assert_eq!(sub.dsn_notify, vec![Some("FAILURE".to_string())]);
}

#[test]
fn auth_when_already_authenticated_is_rejected() {
    let mut s = authed_session();
    s.feed_line("EHLO c");
    let cred = base64_encode(b"\0alice@dmtap.local\0pw");
    assert!(s.feed_line(&format!("AUTH PLAIN {cred}")).starts_with("235"));
    assert!(s.feed_line(&format!("AUTH PLAIN {cred}")).starts_with("503"), "second AUTH must 503");
}

#[test]
fn oversize_data_is_refused() {
    let mut s = authed_session();
    s.set_max_size(64);
    s.feed_line("EHLO c");
    let cred = base64_encode(b"\0alice@dmtap.local\0pw");
    s.feed_line(&format!("AUTH PLAIN {cred}"));
    assert!(s.feed_line("EHLO c").contains("250-SIZE 64"), "advertises the lowered SIZE");
    s.feed_line("MAIL FROM:<alice@dmtap.local>");
    s.feed_line("RCPT TO:<bob@example.net>");
    s.feed_line("DATA");
    for _ in 0..20 {
        s.feed_line("this line pushes the message over the 64-byte limit");
    }
    assert!(s.feed_line(".").starts_with("552"), "over-limit DATA must 552");
    assert!(s.take_submissions().is_empty(), "no submission accepted when oversized");
}

#[test]
fn declared_size_over_limit_rejected_at_mail() {
    let mut s = authed_session();
    s.set_max_size(1000);
    s.feed_line("EHLO c");
    let cred = base64_encode(b"\0alice@dmtap.local\0pw");
    s.feed_line(&format!("AUTH PLAIN {cred}"));
    assert!(s.feed_line("MAIL FROM:<alice@dmtap.local> SIZE=99999").starts_with("552"));
}

// --- further cases --------------------------------------------------------------------------

#[test]
fn auth_requires_tls() {
    let mut a = StaticAuthenticator::new();
    a.issue("alice@dmtap.local", "pw", vec![9, 9], "test");
    let mut s = SmtpSession::new(a, false);
    s.greeting();
    let ehlo = s.feed_line("EHLO c");
    assert!(ehlo.contains("250-STARTTLS"));
    assert!(!ehlo.contains("AUTH PLAIN"));
    assert!(s.feed_line("AUTH PLAIN x").starts_with("538"));
    assert!(s.feed_line("STARTTLS").starts_with("220"));
    assert!(s.feed_line("AUTH CRAM-MD5").starts_with("504"));
}

#[test]
fn auth_login_exchange() {
    let mut s = authed_session();
    assert_eq!(s.feed_line("AUTH LOGIN"), "334 VXNlcm5hbWU6\r\n");
    assert_eq!(s.feed_line(&base64_encode(b"alice@dmtap.local")), "334 UGFzc3dvcmQ6\r\n");
    assert!(s.feed_line(&base64_encode(b"pw")).starts_with("235"));
    assert!(s.is_authenticated());
}

#[test]
fn wrong_password_is_535_and_plain_garbage_is_501() {
    let mut s = authed_session();
    assert!(s.feed_line(&format!("AUTH PLAIN {}", base64_encode(b"\0alice@dmtap.local\0no"))).starts_with("535"));
    assert!(!s.is_authenticated());
    assert!(s.feed_line("AUTH PLAIN !!!").starts_with("501"));
    assert!(s.feed_line("FROB").starts_with("500"));
    assert_eq!(s.feed_line("HELO x"), "250 mail.dmtap.local greets x\r\n");
}

#[test]
fn rcpt_and_data_need_an_envelope() {
    let mut s = authed_session();
    assert!(s.feed_line("RCPT TO:<a@b>").starts_with("503"));
    assert!(s.feed_line("DATA").starts_with("503"));
}

#[test]
fn failure_dsn_wishes() {
    assert!(wants_failure_dsn(None));
    assert!(wants_failure_dsn(Some("success, failure")));
    assert!(!wants_failure_dsn(Some("NEVER")));
    assert!(!wants_failure_dsn(Some("SUCCESS")));
    assert_eq!(DsnAction::Failed.wire(), "failed");
    assert_eq!(DsnAction::Delivered.human(), "Your message was successfully delivered to:");
    assert_eq!(Ret::parse(b"hdrs"), Some(Ret::Headers));
    assert_eq!(Ret::parse(b"x"), None);
}

#[test]
fn generates_failure_dsn_report() {
    let sub = submitted_with_dsn("HDRS", "FAILURE");
    let report =
        DsnReport::failure_for(&sub, "mail.dmtap.local", "5.1.1", Some("550 no such user"), 0)
            .expect("a failure DSN should be produced");
    let bytes = report.render(&[0x5a, 0x01]);
    let text = String::from_utf8_lossy(&bytes);
    assert!(text.contains("Content-Type: multipart/report; report-type=delivery-status"), "{text}");
    assert!(text.contains("Content-Type: message/delivery-status"), "{text}");
    assert!(text.contains("Reporting-MTA: dns; mail.dmtap.local"), "{text}");
    assert!(text.contains("Original-Envelope-Id: abc123"), "{text}");
    assert!(text.contains("Final-Recipient: rfc822;bob@example.net"), "{text}");
    assert!(text.contains("Action: failed"), "{text}");
    assert!(text.contains("Status: 5.1.1"), "{text}");
    assert!(text.contains("Diagnostic-Code: smtp; 550 no such user"), "{text}");
    assert!(text.contains("Content-Type: text/rfc822-headers"), "{text}");
    assert!(text.contains("Subject: Hi"), "{text}");
    assert!(!text.contains("Hello Bob"), "RET=HDRS must not echo the body: {text}");
}

#[test]
fn dsn_report_boundary_and_subject() {
    let sub = submitted_with_dsn("FULL", "FAILURE");
    let report = DsnReport::failure_for(&sub, "mta", "5.0.0", None, 0).unwrap();
    assert_eq!(report.recipients.len(), 1);
    assert_eq!(report.recipients[0].action, DsnAction::Failed);
    let text = String::from_utf8(report.render(&[0x5a, 0x01])).unwrap();
    assert!(text.contains("boundary=\"=_dsn_5a01\""), "{text}");
    assert!(text.contains("Subject: Delivery Status Notification (Failure)"), "{text}");
    assert!(text.contains("Hello Bob"), "RET=FULL returns the body: {text}");
    assert!(text.ends_with("--=_dsn_5a01--\r\n"), "{text}");
}

#[test]
fn notify_never_suppresses_dsn() {
    let sub = submitted_with_dsn("FULL", "NEVER");
    assert!(DsnReport::failure_for(&sub, "mta", "5.0.0", None, 0).is_none());
}
