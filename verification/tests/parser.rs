use kotva_mail::imap::parser::{parse_command, parse_tokens, tokenize, Command, FetchItem, ParseError, Section, StoreOp, Token};
use kotva_mail::store::Flag;

fn cmd(s: &str) -> Command {
    parse_command(s.as_bytes()).unwrap().command
}

#[test]
fn tokenizes_quoted_and_parens() {
    let toks = tokenize(b"a LOGIN \"user name\" pass\r\n").unwrap();
    assert_eq!(toks[2], Token::Quoted("user name".into()));
}

#[test]
fn literal_length_overflow_is_rejected_not_panicked() {
    let max = usize::MAX.to_string();
    let line = format!("a LOGIN {{{max}}}x\r\n");
    assert_eq!(tokenize(line.as_bytes()), Err(ParseError::BadLiteral));
    for n in [usize::MAX - 1, usize::MAX / 2, 1_000_000usize] {
        let line = format!("a LOGIN {{{n}}}\r\n");
        assert_eq!(tokenize(line.as_bytes()), Err(ParseError::BadLiteral), "n={n}");
    }
    let ok = tokenize(b"a LOGIN {2}\r\nhi\r\n").unwrap();
    assert_eq!(ok[2], Token::Literal(b"hi".to_vec()));
}

#[test]
fn parses_login() {
    assert_eq!(
        cmd("a1 LOGIN alice secret"),
        Command::Login { user: "alice".into(), pass: "secret".into() }
    );
}

#[test]
fn parses_select_condstore() {
    assert_eq!(
        cmd("a SELECT INBOX (CONDSTORE)"),
        Command::Select { mailbox: "INBOX".into(), qresync: None, condstore: true }
    );
}

#[test]
fn parses_select_qresync() {
    match cmd("a SELECT INBOX (QRESYNC (67890007 90060115 1:29))") {
        Command::Select { qresync: Some(q), .. } => {
            assert_eq!(q.uid_validity, 67890007);
            assert_eq!(q.modseq, 90060115);
            assert!(q.known_uids.is_some());
        }
        other => panic!("expected QRESYNC select, got {other:?}"),
    }
}

#[test]
fn parses_fetch_macro_and_items() {
    match cmd("a FETCH 1:3 FULL") {
        Command::Fetch { items, .. } => assert!(items.contains(&FetchItem::Envelope)),
        _ => panic!(),
    }
    match cmd("a FETCH 1 (UID FLAGS BODY.PEEK[HEADER.FIELDS (FROM TO)]<0.100>)") {
        Command::Fetch { items, .. } => {
            assert!(items.contains(&FetchItem::Uid));
            assert!(items.iter().any(|i| matches!(
                i,
                FetchItem::BodySection { peek: true, section: Section::HeaderFields(_), partial: Some((0, 100)) }
            )));
        }
        _ => panic!(),
    }
}

#[test]
fn parses_uid_fetch() {
    match cmd("a UID FETCH 100:* (FLAGS)") {
        Command::Fetch { uid, .. } => assert!(uid),
        _ => panic!(),
    }
}

#[test]
fn parses_store() {
    match cmd("a STORE 1:5 +FLAGS.SILENT (\\Seen \\Deleted)") {
        Command::Store(s) => {
            assert_eq!(s.op, StoreOp::Add);
            assert!(s.silent);
            assert!(s.flags.contains(&Flag::Seen));
        }
        _ => panic!(),
    }
}

#[test]
fn parses_append_literal() {
    let raw = b"a APPEND INBOX (\\Seen) {11}\r\nHello world\r\n";
    match parse_command(raw).unwrap().command {
        Command::Append { mailbox, flags, message, .. } => {
            assert_eq!(mailbox, b"INBOX");
            assert!(flags.contains(&Flag::Seen));
            assert_eq!(message, b"Hello world");
        }
        _ => panic!(),
    }
}

#[test]
fn unknown_command_fails_closed() {
    assert!(matches!(parse_command(b"a FROBNICATE x\r\n"), Err(ParseError::UnknownCommand(_))));
}

#[test]
fn unknown_command_names_the_upper_cased_verb() {
    assert_eq!(parse_command(b"t1 frob"), Err(ParseError::UnknownCommand(b"FROB".to_vec())));
    assert_eq!(parse_command(b""), Err(ParseError::Empty));
    assert_eq!(parse_command(b"tagonly"), Err(ParseError::Empty));
    assert_eq!(parse_command(b"a \"unterminated"), Err(ParseError::UnterminatedQuote));
}

#[test]
fn parses_tag_and_simple_verbs_case_insensitively() {
    let pc = parse_command(b"A001 capability\r\n").unwrap();
    assert_eq!(pc.tag, b"A001");
    assert_eq!(pc.command, Command::Capability);
    assert_eq!(cmd("x noop"), Command::Noop);
    assert_eq!(cmd("x Logout"), Command::Logout);
}

#[test]
fn parses_copy_move_status_and_uid_expunge() {
    match cmd("a UID MOVE 1:2 Archive") {
        Command::Move { mailbox, uid, .. } => {
            assert_eq!(mailbox, b"Archive");
            assert!(uid);
        }
        other => panic!("{other:?}"),
    }
    match cmd("a STATUS INBOX (messages uidnext)") {
        Command::Status { mailbox, items } => {
            assert_eq!(mailbox, b"INBOX");
            assert_eq!(items, vec![b"MESSAGES".to_vec(), b"UIDNEXT".to_vec()]);
        }
        other => panic!("{other:?}"),
    }
    assert!(matches!(cmd("a UID EXPUNGE 3:4"), Command::UidExpunge(_)));
    assert!(matches!(parse_command(b"a COPY bogus INBOX"), Err(ParseError::Syntax(_))));
    assert!(matches!(parse_command(b"a LOGIN alice"), Err(ParseError::Syntax(_))));
}

#[test]
fn parses_sections_partials_and_binary() {
    match cmd("a FETCH 1 (BODY[1.2.MIME] BINARY.PEEK[2]<5.10> BINARY.SIZE[] BODY)") {
        Command::Fetch { items, .. } => {
            assert_eq!(items[0], FetchItem::BodySection { peek: false, section: Section::PartMime(vec![1, 2]), partial: None });
            assert_eq!(items[1], FetchItem::Binary { peek: true, section: vec![2], partial: Some((5, 10)) });
            assert_eq!(items[2], FetchItem::BinarySize { section: vec![] });
            assert_eq!(items[3], FetchItem::Body);
        }
        other => panic!("{other:?}"),
    }
}

#[test]
fn parse_tokens_uses_first_two_strings() {
    let toks = vec![Token::Atom(b"t".to_vec()), Token::Quoted(b"NOOP".to_vec())];
    assert_eq!(parse_tokens(&toks).unwrap().command, Command::Noop);
    let toks = vec![Token::LParen, Token::Atom(b"NOOP".to_vec())];
    assert_eq!(parse_tokens(&toks), Err(ParseError::Empty));
}

#[test]
fn sort_thread_id_create_list_and_enable() {
    assert!(matches!(cmd("a SORT (REVERSE DATE) UTF-8 ALL"), Command::Sort { .. }));
    assert!(matches!(parse_command(b"a SORT () UTF-8 ALL"), Err(ParseError::Syntax(_))));
    assert!(matches!(cmd("a THREAD REFERENCES UTF-8 ALL"), Command::Thread { .. }));
    assert_eq!(cmd("a ID NIL"), Command::Id(None));
    assert_eq!(cmd("a ID (\"name\" \"x\")"), Command::Id(Some(vec![(b"name".to_vec(), b"x".to_vec())])));
    assert_eq!(cmd("a CREATE Work (USE (\\Archive))"), Command::Create { name: b"Work".to_vec(), use_attr: Some(b"\\Archive".to_vec()) });
    assert!(matches!(cmd("a LIST \"\" *"), Command::List { .. }));
    assert_eq!(cmd("a ENABLE CONDSTORE QRESYNC"), Command::Enable(vec![b"CONDSTORE".to_vec(), b"QRESYNC".to_vec()]));
}

#[test]
fn store_reads_every_argument() {
    match cmd("a STORE 2 (UNCHANGEDSINCE 12) -FLAGS \\Deleted") {
        Command::Store(s) => {
            assert_eq!(s.op, StoreOp::Remove);
            assert!(!s.silent);
            assert!(!s.uid);
            assert_eq!(s.unchangedsince, Some(12));
            assert_eq!(s.flags, vec![Flag::Deleted]);
        }
        _ => panic!(),
    }
}

#[test]
fn known_verbs_fail_only_with_syntax_errors() {
    assert!(matches!(parse_command(b"a STORE 1:5 BOGUS (\\Seen)\r\n"), Err(ParseError::Syntax(_))));
    assert!(matches!(parse_command(b"a FETCH\r\n"), Err(ParseError::Syntax(_))));
    assert!(matches!(parse_command(b"a APPEND INBOX (\\Seen)\r\n"), Err(ParseError::Syntax(_))));
    assert!(matches!(parse_command(b"a UID FROB 1\r\n"), Err(ParseError::Syntax(_))));
}

#[test]
fn append_reads_date_and_message() {
    match cmd("a APPEND Drafts \"01-Jan-2024 00:00:00 +0000\" hello") {
        Command::Append { mailbox, flags, date, message, catenate } => {
            assert_eq!(mailbox, b"Drafts");
            assert!(flags.is_empty());
            assert_eq!(date, Some(b"01-Jan-2024 00:00:00 +0000".to_vec()));
            assert_eq!(message, b"hello");
            assert!(catenate.is_none());
        }
        _ => panic!(),
    }
}
