use kotva_mail::net::{strip_crlf, trailing_literal, CommandAssembler, LineStep, Refusal, MAX_LITERAL};

#[test]
fn detects_trailing_literal() {
    assert_eq!(trailing_literal(b"a APPEND INBOX {11}\r\n"), Some((11, true)));
    assert_eq!(trailing_literal(b"a APPEND INBOX {11+}\r\n"), Some((11, false)));
    assert_eq!(trailing_literal(b"a NOOP\r\n"), None);
}

#[test]
fn assembler_completes_a_literal_free_command() {
    let mut a = CommandAssembler::new();
    match a.feed_line(b"a LOGIN alice secret\r\n") {
        LineStep::Complete(cmd) => assert_eq!(cmd, b"a LOGIN alice secret\r\n"),
        other => panic!("expected a complete command, got {other:?}"),
    }
    assert_eq!(a.at_eof(), None);
}

#[test]
fn assembler_reads_synchronizing_and_nonsync_literals() {
    for (line, prompt) in [(&b"a APPEND INBOX {5}\r\n"[..], true), (&b"a APPEND INBOX {5+}\r\n"[..], false)] {
        let mut a = CommandAssembler::new();
        match a.feed_line(line) {
            LineStep::ReadLiteral { size, prompt: p } => {
                assert_eq!(size, 5);
                assert_eq!(p, prompt);
            }
            other => panic!("expected a literal, got {other:?}"),
        }
        a.feed_literal(b"HELLO");
        match a.feed_line(b"\r\n") {
            LineStep::Complete(cmd) => assert!(cmd.windows(5).any(|c| c == b"HELLO")),
            other => panic!("expected completion, got {other:?}"),
        }
    }
}

#[test]
fn assembler_refuses_oversized_literal_and_line() {
    let mut a = CommandAssembler::new();
    let line = format!("a APPEND INBOX {{{}}}\r\n", MAX_LITERAL + 1);
    match a.feed_line(line.as_bytes()) {
        LineStep::Refuse(r) => {
            assert_eq!(r, Refusal::LiteralTooLarge);
            assert!(r.reply().starts_with("* BAD "));
        }
        other => panic!("expected a refusal, got {other:?}"),
    }
    let mut b = CommandAssembler::new();
    let long = vec![b'x'; 1024 * 1024 + 1];
    assert!(matches!(b.feed_line(&long), LineStep::Refuse(Refusal::LineTooLong)));
}

#[test]
fn eof_returns_partial_command_and_crlf_strip() {
    let mut a = CommandAssembler::new();
    assert!(matches!(a.feed_line(b"a X {3}\r\n"), LineStep::ReadLiteral { size: 3, prompt: true }));
    assert_eq!(a.at_eof(), Some(b"a X {3}\r\n".to_vec()));
    let mut l = b"QUIT\r\n".to_vec();
    strip_crlf(&mut l);
    assert_eq!(l, b"QUIT");
    let mut l = b"data\r".to_vec();
    strip_crlf(&mut l);
    assert_eq!(l, b"data\r");
}

/// Drive a `CommandAssembler` over an in-memory stream the way the network reader does: read a
/// line up to `\n`, send the `+` continuation when asked, read the literal, and on a refusal write
/// its `BAD` reply. Returns the outcome and what was written back to the client.
fn read_command(input: &[u8]) -> (Result<Option<Vec<u8>>, Refusal>, Vec<u8>) {
    let mut written = Vec::new();
    let mut pos = 0usize;
    let mut assembler = CommandAssembler::new();
    loop {
        if pos >= input.len() {
            return (Ok(assembler.at_eof()), written);
        }
        let end = match input[pos..].iter().position(|&b| b == b'\n') {
            Some(i) => pos + i + 1,
            None => input.len(),
        };
        let line = input[pos..end].to_vec();
        pos = end;
        match assembler.feed_line(&line) {
            LineStep::Complete(cmd) => return (Ok(Some(cmd)), written),
            LineStep::Refuse(refusal) => {
                written.extend_from_slice(refusal.reply().as_bytes());
                return (Err(refusal), written);
            }
            LineStep::ReadLiteral { size, prompt } => {
                if prompt {
                    written.extend_from_slice(b"+ Ready for literal data\r\n");
                }
                let lit_end = (pos + size).min(input.len());
                let literal = input[pos..lit_end].to_vec();
                pos = lit_end;
                assembler.feed_literal(&literal);
            }
        }
    }
}

#[test]
fn reads_simple_command() {
    let (cmd, w) = read_command(b"a LOGIN alice secret\r\n");
    assert_eq!(cmd.unwrap().unwrap(), b"a LOGIN alice secret\r\n");
    assert!(w.is_empty(), "no continuation for a literal-free command");
}

#[test]
fn reads_synchronizing_literal() {
    let (cmd, w) = read_command(b"a APPEND INBOX {5}\r\nHELLO\r\n");
    let cmd = cmd.unwrap().unwrap();
    assert!(cmd.windows(5).any(|c| c == b"HELLO"));
    assert_eq!(w, b"+ Ready for literal data\r\n", "must prompt for a sync literal");
}

#[test]
fn reads_nonsync_literal_without_prompt() {
    let (cmd, w) = read_command(b"a APPEND INBOX {5+}\r\nHELLO\r\n");
    let cmd = cmd.unwrap().unwrap();
    assert!(cmd.windows(5).any(|c| c == b"HELLO"));
    assert!(w.is_empty(), "LITERAL+ must not prompt");
}

#[test]
fn oversized_literal_is_refused_not_allocated() {
    // A hostile `{huge}` literal is refused (fail closed), never pre-allocated.
    let cmd = format!("a APPEND INBOX {{{}}}\r\n", MAX_LITERAL + 1);
    let (outcome, w) = read_command(cmd.as_bytes());
    assert_eq!(outcome.unwrap_err(), Refusal::LiteralTooLarge);
    assert!(w.windows(4).any(|c| c == b"BAD "), "must warn BAD: {:?}", String::from_utf8_lossy(&w));
}
