use kotva_mail::auth::StaticAuthenticator;
use kotva_mail::base64::base64_encode;
use kotva_mail::digest::{hex, md5};
use kotva_mail::pop3::{dot_stuff, Pop3Session};
use kotva_mail::store::{MailStore, MemoryStore};

const ONE: &[u8] = b"Subject: One\r\n\r\nbody one\r\n";
const TWO: &[u8] = b"Subject: Two\r\n\r\nbody two\r\n";

fn session() -> Pop3Session<MemoryStore, StaticAuthenticator> {
    let mut store = MemoryStore::empty();
    store.deliver_raw("INBOX", ONE.to_vec(), vec![], 0);
    store.deliver_raw("INBOX", TWO.to_vec(), vec![], 0);
    let mut auth = StaticAuthenticator::new();
    auth.issue("alice", "pw", vec![1], "test");
    Pop3Session::new(store, auth, true)
}

#[test]
fn user_pass_and_stat() {
    let mut s = session();
    assert!(s.feed_line("USER alice").starts_with("+OK"));
    assert!(s.feed_line("PASS pw").starts_with("+OK"));
    let total: usize = ONE.len() + TWO.len();
    assert_eq!(s.feed_line("STAT"), format!("+OK 2 {total}\r\n"));
}

#[test]
fn apop_authenticates() {
    let mut s = session();
    let digest = hex(&md5(format!("{}pw", s.banner()).as_bytes()));
    assert!(s.feed_line(&format!("APOP alice {digest}")).starts_with("+OK"));
    assert!(s.is_authenticated());
}

#[test]
fn apop_rejects_wrong_digest() {
    let mut s = session();
    let good = hex(&md5(format!("{}pw", s.banner()).as_bytes()));
    assert!(s.feed_line(&format!("APOP alice {}", good.to_ascii_uppercase())).starts_with("+OK"));
    assert!(s.is_authenticated());

    let mut s = session();
    let bad = "0".repeat(good.len());
    assert!(s.feed_line(&format!("APOP alice {bad}")).contains("digest mismatch"));
    assert!(!s.is_authenticated());
}

#[test]
fn cleartext_refuses_password_auth_until_stls() {
    fn cleartext() -> Pop3Session<MemoryStore, StaticAuthenticator> {
        let mut store = MemoryStore::empty();
        store.deliver_raw("INBOX", b"Subject: One\r\n\r\nbody\r\n".to_vec(), vec![], 0);
        let mut auth = StaticAuthenticator::new();
        auth.issue("alice", "pw", vec![1], "test");
        Pop3Session::new(store, auth, false)
    }

    let mut s = cleartext();
    assert!(s.feed_line("USER alice").contains("[AUTH]"));
    assert!(s.feed_line("PASS pw").contains("[AUTH]"));
    assert!(!s.is_authenticated());

    let mut s = cleartext();
    let ir = base64_encode(b"\0alice\0pw");
    assert!(s.feed_line(&format!("AUTH PLAIN {ir}")).contains("[AUTH]"));
    assert!(s.feed_line("AUTH PLAIN").contains("[AUTH]"));
    assert!(!s.feed_line(&ir).starts_with("+OK"));
    assert!(!s.is_authenticated());

    let capa = s.feed_line("CAPA");
    assert!(!capa.contains("SASL PLAIN") && capa.contains("STLS"));

    let mut s = cleartext();
    let digest = hex(&md5(format!("{}pw", s.banner()).as_bytes()));
    assert!(s.feed_line(&format!("APOP alice {digest}")).starts_with("+OK"));
    assert!(s.is_authenticated());

    let mut s = cleartext();
    assert!(s.feed_line("STLS").starts_with("+OK"));
    assert!(s.feed_line("USER alice").starts_with("+OK"));
    assert!(s.feed_line("PASS pw").starts_with("+OK"));
    assert!(s.is_authenticated());
}

#[test]
fn retr_delivers_eight_bit_message_byte_exact() {
    let mut store = MemoryStore::empty();
    let raw: &[u8] = b"Subject: Gr\xfc\xdfe\r\n\r\nM\xfcnchen ist sch\xf6n\r\n";
    store.deliver_raw("INBOX", raw.to_vec(), vec![], 0);
    let mut auth = StaticAuthenticator::new();
    auth.issue("alice", "pw", vec![1], "test");
    let mut s = Pop3Session::new(store, auth, true);
    s.feed_line("USER alice");
    s.feed_line("PASS pw");
    let reply = s.feed_line_raw("RETR 1");
    assert!(
        reply.windows(raw.len()).any(|w| w == raw),
        "8-bit message bytes must appear unmodified in the RETR reply"
    );
    assert!(!reply.windows(3).any(|w| w == "\u{FFFD}".as_bytes()), "no replacement chars");
    let top = s.feed_line_raw("TOP 1 1");
    let needle: &[u8] = b"Gr\xfc\xdfe";
    assert!(top.windows(needle.len()).any(|w| w == needle), "TOP must keep raw header bytes");
}

#[test]
fn retr_and_dele_commit_on_quit() {
    let mut s = session();
    s.feed_line("USER alice");
    s.feed_line("PASS pw");
    assert!(s.feed_line("RETR 1").contains("body one"));
    assert!(s.feed_line("UIDL").contains("1 1"));
    assert!(s.feed_line("DELE 1").starts_with("+OK"));
    assert!(!s.feed_line("LIST").contains("1 "));
    s.feed_line("QUIT");
    let store = s.into_store();
    assert_eq!(store.mailbox("INBOX").unwrap().exists_count(), 1);
}

#[test]
fn top_returns_headers() {
    let mut s = session();
    s.feed_line("USER alice");
    s.feed_line("PASS pw");
    let top = s.feed_line("TOP 1 0");
    assert!(top.contains("Subject: One"));
    assert!(!top.contains("body one"));
}

#[test]
fn md5_and_hex_known_values() {
    assert_eq!(hex(&md5(b"")), "d41d8cd98f00b204e9800998ecf8427e");
    assert_eq!(hex(&md5(b"abc")), "900150983cd24fb0d6963f7d28e17f72");
    assert_eq!(hex(&md5(&[b'a'; 55])), "ef1772b6dff9a122358552954ad0df65");
    assert_eq!(hex(&md5(&[b'a'; 56])), "3b0c8ac703f828b04c6c197006d17218");
    assert_eq!(hex(&md5(&[b'a'; 64])), "014842d480b571495a4a0363793f7367");
    assert_eq!(hex(&md5(b"<envoir.1.1@mail.dmtap.local>pw")), "9e83f9a069157d2ea92955584c36c56c");
    assert_eq!(hex(&[0x00, 0xab, 0xff]), "00abff");
}

#[test]
fn dot_stuffing_and_listings() {
    assert_eq!(dot_stuff(b".a\r\n..b\r\nc.\r\n"), b"..a\r\n...b\r\nc.\r\n".to_vec());
    assert_eq!(dot_stuff(b"no newline"), b"no newline\r\n".to_vec());
    assert_eq!(dot_stuff(b""), b"\r\n".to_vec());

    let mut s = session();
    assert_eq!(s.greeting(), "+OK Envoir DMTAP POP3 ready <envoir.1.1@mail.dmtap.local>\r\n");
    assert_eq!(s.feed_line("STAT"), "-ERR command not permitted in this state\r\n");
    assert_eq!(s.feed_line("PASS pw"), "-ERR USER first\r\n");
    assert_eq!(s.feed_line("USER alice"), "+OK send PASS\r\n");
    assert_eq!(s.feed_line("PASS nope"), "-ERR [AUTH] invalid credentials\r\n");
    assert_eq!(s.feed_line("PASS pw"), "+OK mailbox ready, 2 messages\r\n");
    assert_eq!(s.feed_line("LIST"), "+OK scan listing follows\r\n1 26\r\n2 26\r\n.\r\n");
    assert_eq!(s.feed_line("LIST 2"), "+OK 2 26\r\n");
    assert_eq!(s.feed_line("UIDL 2"), "+OK 2 2\r\n");
    assert_eq!(s.feed_line("LIST 3"), "-ERR no such message\r\n");
    assert_eq!(s.feed_line("DELE 2"), "+OK message deleted\r\n");
    assert_eq!(s.feed_line("RETR 2"), "-ERR no such message\r\n");
    assert_eq!(s.feed_line("STAT"), "+OK 1 26\r\n");
    assert_eq!(s.feed_line("RSET"), "+OK\r\n");
    assert_eq!(s.feed_line("STAT"), "+OK 2 52\r\n");
    assert_eq!(s.feed_line("TOP 1 1"), "+OK\r\nSubject: One\r\n\r\nbody one\r\n.\r\n");
    assert_eq!(s.feed_line("noop"), "+OK\r\n");
}

#[test]
fn sasl_plain_in_two_steps() {
    let mut s = session();
    assert_eq!(s.feed_line("AUTH PLAIN"), "+ \r\n");
    let ir = base64_encode(b"\0alice\0pw");
    assert_eq!(s.feed_line(&ir), "+OK mailbox ready, 2 messages\r\n");
    assert!(s.is_authenticated());
    let mut s = session();
    assert_eq!(s.feed_line("AUTH CRAM-MD5"), "-ERR unsupported SASL mechanism\r\n");
    assert_eq!(s.feed_line("AUTH PLAIN !!!"), "-ERR malformed SASL PLAIN\r\n");
    assert_eq!(s.feed_line("APOP alice"), "-ERR APOP requires name and digest\r\n");
    assert_eq!(s.feed_line("APOP bob 00"), "-ERR [AUTH] APOP not available for this user\r\n");
}
