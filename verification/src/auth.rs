//! Authentication — app-passwords mapped to the identity, and the SASL mechanisms the legacy
//! protocols use. A legacy IMAP/POP/SMTP login presents `(username, app-password)`; it is
//! verified and resolved to the bound identity public key. SASL PLAIN (RFC 4616) and LOGIN are
//! supported; both carry the same credential.
use vstd::prelude::*;
use crate::base64::base64_decode;
use crate::bytes::{bytes_eq, is_kw, split_on};
use crate::text::string_from_utf8;

verus! {

/// An issued app-password, bound to the owner's identity key.
#[derive(Debug, Clone)]
pub struct AppPassword {
    pub username: String,
    pub secret: String,
    /// The identity public key this credential authenticates as.
    pub identity_pub: Vec<u8>,
    pub label: String,
}

/// Verifies credentials and resolves them to a bound identity. Implemented by the node's
/// credential backend; [`StaticAuthenticator`] is the in-memory implementation.
pub trait Authenticator {
    /// Whether this backend answers the credential `(user, pass)` (their UTF-8 bytes) with `id`:
    /// the bound identity, or `None` for a refusal.
    spec fn accepts(&self, user: Seq<u8>, pass: Seq<u8>, id: Option<Seq<u8>>) -> bool;

    /// The bound identity public key on success, or `None` on any failure (fail closed).
    fn verify(&self, username: &str, password: &str) -> (r: Option<Vec<u8>>)
        ensures
            self.accepts(
                crate::bytes::lit(username),
                crate::bytes::lit(password),
                match r {
                    Some(v) => Some(v@),
                    None => None,
                },
            );

    /// The shared secret for a user, if the backend can expose it (POP3 APOP needs it).
    /// Backends that do not store recoverable secrets return `None`.
    fn secret_for(&self, username: &str) -> Option<String> {
        None
    }
}

/// Whether entry `p` carries exactly this username and secret (compared as UTF-8 bytes).
pub open spec fn entry_matches(p: AppPassword, user: Seq<u8>, pass: Seq<u8>) -> bool {
    crate::bytes::utf8(p.username@) == user && crate::bytes::utf8(p.secret@) == pass
}

/// The identity bound to the first entry matching the credential.
pub open spec fn verify_spec(ps: Seq<AppPassword>, user: Seq<u8>, pass: Seq<u8>) -> Option<Seq<u8>>
    decreases ps.len(),
{
    if ps.len() == 0 {
        None
    } else if entry_matches(ps[0], user, pass) {
        Some(ps[0].identity_pub@)
    } else {
        verify_spec(ps.drop_first(), user, pass)
    }
}

/// The secret of the first entry for `user`.
pub open spec fn secret_spec(ps: Seq<AppPassword>, user: Seq<u8>) -> Option<Seq<char>>
    decreases ps.len(),
{
    if ps.len() == 0 {
        None
    } else if crate::bytes::utf8(ps[0].username@) == user {
        Some(ps[0].secret@)
    } else {
        secret_spec(ps.drop_first(), user)
    }
}

/// What the credentials resolve to after one more app-password is issued: a credential that
/// resolved before resolves as before; otherwise one equal to the new entry's username and
/// secret resolves to its identity, and any other stays refused.
pub proof fn verify_after_issue(ps: Seq<AppPassword>, e: AppPassword, user: Seq<u8>, pass: Seq<u8>)
    ensures
        verify_spec(ps.push(e), user, pass) == (match verify_spec(ps, user, pass) {
            Some(id) => Some(id),
            None => if entry_matches(e, user, pass) {
                Some(e.identity_pub@)
            } else {
                None
            },
        }),
    decreases ps.len(),
{
    if ps.len() > 0 {
        assert(ps.push(e).drop_first() =~= ps.drop_first().push(e));
        assert(ps.push(e)[0] == ps[0]);
        verify_after_issue(ps.drop_first(), e, user, pass);
    } else {
        let one = ps.push(e);
        assert(one.drop_first() =~= Seq::<AppPassword>::empty());
        assert(one[0] == e);
        assert(verify_spec(one.drop_first(), user, pass) is None);
    }
}

/// A fixed, in-memory set of app-passwords.
#[derive(Debug, Clone, Default)]
pub struct StaticAuthenticator {
    passwords: Vec<AppPassword>,
}

impl StaticAuthenticator {
    /// The issued app-passwords, oldest first.
    pub closed spec fn entries(&self) -> Seq<AppPassword> {
        self.passwords@
    }

    /// An authenticator with no app-passwords.
    pub fn new() -> (r: Self)
        ensures
            r.entries() == Seq::<AppPassword>::empty(),
    {
        StaticAuthenticator { passwords: Vec::new() }
    }

    /// Issue an app-password bound to `identity_pub`.
    pub fn issue(&mut self, username: &str, secret: &str, identity_pub: Vec<u8>, label: &str)
        ensures
            final(self).entries() == old(self).entries().push(
                AppPassword {
                    username: final(self).entries().last().username,
                    secret: final(self).entries().last().secret,
                    identity_pub,
                    label: final(self).entries().last().label,
                },
            ),
            final(self).entries().last().username@ == username@,
            final(self).entries().last().secret@ == secret@,
            final(self).entries().last().label@ == label@,
    {
        self.passwords.push(
            AppPassword {
                username: username.to_owned(),
                secret: secret.to_owned(),
                identity_pub,
                label: label.to_owned(),
            },
        );
    }
}

impl Authenticator for StaticAuthenticator {
    /// The identity of the first entry carrying exactly this username and secret.
    open spec fn accepts(&self, user: Seq<u8>, pass: Seq<u8>, id: Option<Seq<u8>>) -> bool {
        id == verify_spec(self.entries(), user, pass)
    }

    fn verify(&self, username: &str, password: &str) -> (r: Option<Vec<u8>>)
        ensures
            r matches Some(v) ==> verify_spec(self.entries(), crate::bytes::lit(username), crate::bytes::lit(password)) == Some(v@),
            r is None ==> verify_spec(self.entries(), crate::bytes::lit(username), crate::bytes::lit(password)) is None,
    {
        let u = username.as_bytes();
        let pw = password.as_bytes();
        let mut i: usize = 0;
        assert(self.passwords@.skip(0) =~= self.passwords@);
        while i < self.passwords.len()
            invariant
                i <= self.passwords@.len(),
                u@ == crate::bytes::lit(username),
                pw@ == crate::bytes::lit(password),
                verify_spec(self.passwords@, u@, pw@) == verify_spec(self.passwords@.skip(i as int), u@, pw@),
            decreases self.passwords@.len() - i,
        {
            let p = &self.passwords[i];
            assert(self.passwords@.skip(i as int).drop_first() =~= self.passwords@.skip(i + 1));
            assert(self.passwords@.skip(i as int)[0] == self.passwords@[i as int]);
            if bytes_eq(p.username.as_str().as_bytes(), u) && ct_eq(p.secret.as_str().as_bytes(), pw) {
                return Some(p.identity_pub.clone());
            }
            i += 1;
        }
        None
    }

    fn secret_for(&self, username: &str) -> (r: Option<String>)
        ensures
            r matches Some(s) ==> secret_spec(self.entries(), crate::bytes::lit(username)) == Some(s@),
            r is None ==> secret_spec(self.entries(), crate::bytes::lit(username)) is None,
    {
        let u = username.as_bytes();
        let mut i: usize = 0;
        assert(self.passwords@.skip(0) =~= self.passwords@);
        while i < self.passwords.len()
            invariant
                i <= self.passwords@.len(),
                u@ == crate::bytes::lit(username),
                secret_spec(self.passwords@, u@) == secret_spec(self.passwords@.skip(i as int), u@),
            decreases self.passwords@.len() - i,
        {
            let p = &self.passwords[i];
            assert(self.passwords@.skip(i as int).drop_first() =~= self.passwords@.skip(i + 1));
            assert(self.passwords@.skip(i as int)[0] == self.passwords@[i as int]);
            if bytes_eq(p.username.as_str().as_bytes(), u) {
                return Some(p.secret.clone());
            }
            i += 1;
        }
        None
    }
}

/// Byte comparison whose running time depends on the lengths only, not on the contents.
pub fn ct_eq(a: &[u8], b: &[u8]) -> (r: bool)
    ensures
        r == (a@ == b@),
{
    if a.len() != b.len() {
        return false;
    }
    let mut diff: u8 = 0;
    let mut i: usize = 0;
    while i < a.len()
        invariant
            i <= a@.len(),
            a@.len() == b@.len(),
            (diff == 0) == (forall|j: int| 0 <= j < i ==> a@[j] == b@[j]),
        decreases a@.len() - i,
    {
        let x = a[i];
        let y = b[i];
        let d0 = diff;
        diff = diff | (x ^ y);
        assert((d0 | (x ^ y)) == 0 <==> (d0 == 0 && x == y)) by (bit_vector);
        i += 1;
    }
    proof {
        if diff == 0 {
            assert(a@ =~= b@);
        }
    }
    diff == 0
}

/// A decoded SASL credential: authentication identity (authcid) + password. `authzid` (the
/// authorization identity, RFC 4616) is captured but must equal authcid or be empty here.
#[derive(Debug, Clone, PartialEq, Eq)]
pub struct SaslCredential {
    pub authzid: Option<String>,
    pub authcid: String,
    pub password: String,
}

/// The SASL mechanisms this crate implements (advertised in CAPABILITY / EHLO / CAPA).
#[derive(Debug, Clone, Copy, PartialEq, Eq)]
pub enum SaslMechanism {
    Plain,
    Login,
}

impl SaslMechanism {
    /// Case-insensitive mechanism lookup; unknown mechanisms are rejected, never guessed.
    pub fn parse(name: &str) -> (r: Option<SaslMechanism>)
        ensures
            r == (if crate::bytes::eq_ci_spec(crate::bytes::lit(name), crate::bytes::lit("PLAIN")) {
                Some(SaslMechanism::Plain)
            } else if crate::bytes::eq_ci_spec(crate::bytes::lit(name), crate::bytes::lit("LOGIN")) {
                Some(SaslMechanism::Login)
            } else {
                None
            }),
    {
        let n = name.as_bytes();
        if is_kw(n, "PLAIN") {
            Some(SaslMechanism::Plain)
        } else if is_kw(n, "LOGIN") {
            Some(SaslMechanism::Login)
        } else {
            None
        }
    }

    /// The mechanism's registered name.
    pub fn name(&self) -> (r: &'static str)
        ensures
            r@ == (match self {
                SaslMechanism::Plain => "PLAIN"@,
                SaslMechanism::Login => "LOGIN"@,
            }),
    {
        match self {
            SaslMechanism::Plain => "PLAIN",
            SaslMechanism::Login => "LOGIN",
        }
    }
}

/// The `authzid NUL authcid NUL passwd` fields of a SASL PLAIN response (RFC 4616), when the
/// response is valid base64 of exactly three UTF-8 fields whose authzid is empty or equal to the
/// authcid (proxy authorization is not supported).
pub open spec fn plain_fields(text: Seq<u8>) -> Option<(Seq<u8>, Seq<u8>, Seq<u8>)> {
    match crate::base64::b64_decode_spec(text) {
        Some(raw) => {
            let parts = crate::bytes::split_spec(raw, 0);
            if parts.len() == 3 && vstd::utf8::valid_utf8(parts[0]) && vstd::utf8::valid_utf8(parts[1])
                && vstd::utf8::valid_utf8(parts[2]) && (parts[0].len() == 0 || parts[0] == parts[1]) {
                Some((parts[0], parts[1], parts[2]))
            } else {
                None
            }
        },
        None => None,
    }
}

/// Decode a SASL PLAIN response (RFC 4616): base64 of `authzid NUL authcid NUL passwd`.
pub fn decode_plain(b64: &str) -> (r: Option<SaslCredential>)
    ensures
        r is Some <==> plain_fields(crate::bytes::lit(b64)) is Some,
        r matches Some(c) ==> {
            let (z, a, p) = plain_fields(crate::bytes::lit(b64))->0;
            &&& (c.authzid is None <==> z.len() == 0)
            &&& (c.authzid matches Some(zs) ==> crate::bytes::utf8(zs@) == z)
            &&& crate::bytes::utf8(c.authcid@) == a
            &&& crate::bytes::utf8(c.password@) == p
        },
{
    decode_plain_bytes(b64.as_bytes())
}

/// [`decode_plain`] with the base64 text given as bytes.
pub fn decode_plain_bytes(b64: &[u8]) -> (r: Option<SaslCredential>)
    ensures
        r is Some <==> plain_fields(b64@) is Some,
        r matches Some(c) ==> {
            let (z, a, p) = plain_fields(b64@)->0;
            &&& (c.authzid is None <==> z.len() == 0)
            &&& (c.authzid matches Some(zs) ==> crate::bytes::utf8(zs@) == z)
            &&& crate::bytes::utf8(c.authcid@) == a
            &&& crate::bytes::utf8(c.password@) == p
        },
{
    let raw = match crate::base64::base64_decode_bytes(b64) {
        Some(v) => v,
        None => return None,
    };
    let parts = split_on(raw.as_slice(), 0);
    if parts.len() != 3 {
        return None;
    }
    let ghost ps = crate::bytes::views(parts@);
    assert(ps[0] == parts@[0]@ && ps[1] == parts@[1]@ && ps[2] == parts@[2]@);
    let zbytes = parts[0].clone();
    let abytes = parts[1].clone();
    let pbytes = parts[2].clone();
    let zempty = zbytes.len() == 0;
    let same = bytes_eq(zbytes.as_slice(), abytes.as_slice());
    let authzid = match string_from_utf8(zbytes) {
        Some(s) => s,
        None => return None,
    };
    let authcid = match string_from_utf8(abytes) {
        Some(s) => s,
        None => return None,
    };
    if !zempty && !same {
        return None;
    }
    let password = match string_from_utf8(pbytes) {
        Some(s) => s,
        None => return None,
    };
    Some(SaslCredential {
        authzid: if zempty { None } else { Some(authzid) },
        authcid,
        password,
    })
}

/// Decode one base64 field of the SASL LOGIN exchange (username, then password).
pub fn decode_login_field(b64: &str) -> (r: Option<String>)
    ensures
        r matches Some(s) ==> crate::base64::b64_decode_spec(crate::bytes::lit(b64)) == Some(crate::bytes::utf8(s@)),
        r is None ==> match crate::base64::b64_decode_spec(crate::bytes::lit(b64)) {
            Some(raw) => !vstd::utf8::valid_utf8(raw),
            None => true,
        },
{
    decode_login_field_bytes(b64.as_bytes())
}

/// [`decode_login_field`] with the base64 text given as bytes.
pub fn decode_login_field_bytes(b64: &[u8]) -> (r: Option<String>)
    ensures
        r matches Some(s) ==> crate::base64::b64_decode_spec(b64@) == Some(crate::bytes::utf8(s@)),
        r is None ==> match crate::base64::b64_decode_spec(b64@) {
            Some(raw) => !vstd::utf8::valid_utf8(raw),
            None => true,
        },
{
    match crate::base64::base64_decode_bytes(b64) {
        Some(raw) => string_from_utf8(raw),
        None => None,
    }
}

} // verus!
