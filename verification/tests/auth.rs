use kotva_mail::auth::{ct_eq, decode_login_field, decode_plain, Authenticator, SaslMechanism, StaticAuthenticator};
use kotva_mail::base64::{base64_decode, base64_encode};

#[test]
fn plain_authzid_mismatch_is_rejected() {
    assert!(decode_plain(&base64_encode(b"bob\0alice\0s3cret")).is_none());
    assert!(decode_plain(&base64_encode(b"alice\0alice\0s3cret")).is_some());
    assert!(decode_plain(&base64_encode(b"\0alice\0s3cret")).is_some());
}

#[test]
fn plain_decodes() {
    let payload = b"\0alice\0s3cret";
    let cred = decode_plain(&base64_encode(payload)).unwrap();
    assert_eq!(cred.authcid, "alice");
    assert_eq!(cred.password, "s3cret");
    assert_eq!(cred.authzid, None);
}

#[test]
fn plain_rejects_malformed() {
    assert!(decode_plain(&base64_encode(b"onlyonefield")).is_none());
    assert!(decode_plain(&base64_encode(b"a\0b\0c\0d")).is_none());
}

#[test]
fn login_field_decodes() {
    assert_eq!(decode_login_field(&base64_encode(b"alice")).as_deref(), Some("alice"));
}

#[test]
fn static_authenticator_verifies_and_fails_closed() {
    let mut a = StaticAuthenticator::new();
    a.issue("alice@dmtap.local", "app-pw-1", vec![1, 2, 3], "iphone");
    assert_eq!(a.verify("alice@dmtap.local", "app-pw-1"), Some(vec![1, 2, 3]));
    assert_eq!(a.verify("alice@dmtap.local", "wrong"), None);
    assert_eq!(a.verify("mallory", "app-pw-1"), None);
}

#[test]
fn mechanism_parse() {
    assert_eq!(SaslMechanism::parse("plain"), Some(SaslMechanism::Plain));
    assert_eq!(SaslMechanism::parse("LOGIN"), Some(SaslMechanism::Login));
    assert_eq!(SaslMechanism::parse("SCRAM-SHA-256"), None);
    assert_eq!(SaslMechanism::Plain.name(), "PLAIN");
    assert_eq!(SaslMechanism::Login.name(), "LOGIN");
}

#[test]
fn secret_for_returns_first_matching_user() {
    let mut a = StaticAuthenticator::new();
    a.issue("alice", "one", vec![1], "a");
    a.issue("alice", "two", vec![2], "b");
    assert_eq!(a.secret_for("alice").as_deref(), Some("one"));
    assert_eq!(a.secret_for("bob"), None);
    assert_eq!(a.verify("alice", "two"), Some(vec![2]));
}

#[test]
fn constant_time_compare() {
    assert!(ct_eq(b"abc", b"abc"));
    assert!(!ct_eq(b"abc", b"abd"));
    assert!(!ct_eq(b"abc", b"ab"));
    assert!(ct_eq(b"", b""));
}

#[test]
fn base64_vectors() {
    assert_eq!(base64_encode(b""), "");
    assert_eq!(base64_encode(b"f"), "Zg==");
    assert_eq!(base64_encode(b"fo"), "Zm8=");
    assert_eq!(base64_encode(b"foo"), "Zm9v");
    assert_eq!(base64_encode(b"foobar"), "Zm9vYmFy");
    assert_eq!(base64_decode("Zm9vYmE=").unwrap(), b"fooba");
    assert_eq!(base64_decode("Zm9v\r\nYmFy").unwrap(), b"foobar");
    assert!(base64_decode("Zm9").is_none());
    assert!(base64_decode("Zm=v").is_none());
    assert!(base64_decode("!!!!").is_none());
    let all: Vec<u8> = (0u8..=255).collect();
    assert_eq!(base64_decode(&base64_encode(&all)).unwrap(), all);
}
