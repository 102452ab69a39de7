//! The IMAP session state machine (RFC 9051 §3): NotAuthenticated → Authenticated → Selected →
//! Logout. [`Session::process`] takes one complete command buffer (literals already read off the
//! wire) and returns the response bytes; it is transport-agnostic and synchronous.
//!
//! What the contracts pin down is the protocol's gatekeeping: which commands answer before
//! authentication, that every other one is refused until a credential check succeeds, that the
//! bound identity changes only through LOGIN or AUTHENTICATE, and the exact replies of the
//! commands that do not consult the store.
use vstd::prelude::*;
use crate::auth::Authenticator;
use crate::bytes::{lit, push_all, push_lit, to_vec};
use crate::smtp::{dec_spec, push_dec};
use crate::store::{MailStore, Mailbox};
use crate::text::lossy_string;
use super::parser::{Command, ParsedCommand};
use super::session::State;
use super::token::ParseError;

verus! {

// ---------------------------------------------------------------------------------------------
// Response lines
// ---------------------------------------------------------------------------------------------

/// `tag OK text` CRLF.
pub open spec fn ok_spec(tag: Seq<u8>, text: Seq<u8>) -> Seq<u8> {
    tag + lit(" OK ") + text + lit("\r\n")
}

/// `tag NO text` CRLF.
pub open spec fn no_spec(tag: Seq<u8>, text: Seq<u8>) -> Seq<u8> {
    tag + lit(" NO ") + text + lit("\r\n")
}

/// `tag BAD text` CRLF.
pub open spec fn bad_spec(tag: Seq<u8>, text: Seq<u8>) -> Seq<u8> {
    tag + lit(" BAD ") + text + lit("\r\n")
}

/// `* text` CRLF.
pub open spec fn untagged_spec(text: Seq<u8>) -> Seq<u8> {
    lit("* ") + text + lit("\r\n")
}

/// `+ text` CRLF.
pub open spec fn continuation_spec(text: Seq<u8>) -> Seq<u8> {
    lit("+ ") + text + lit("\r\n")
}

fn line3(a: &[u8], mid: &str, text: &[u8]) -> (r: Vec<u8>)
    ensures
        r@ == a@ + lit(mid) + text@ + lit("\r\n"),
{
    let mut out = to_vec(a);
    push_lit(&mut out, mid);
    push_all(&mut out, text);
    push_lit(&mut out, "\r\n");
    out
}

fn ok(tag: &[u8], text: &str) -> (r: Vec<u8>)
    ensures
        r@ == ok_spec(tag@, lit(text)),
{
    line3(tag, " OK ", text.as_bytes())
}

fn ok_bytes(tag: &[u8], text: &[u8]) -> (r: Vec<u8>)
    ensures
        r@ == ok_spec(tag@, text@),
{
    line3(tag, " OK ", text)
}

fn no(tag: &[u8], text: &str) -> (r: Vec<u8>)
    ensures
        r@ == no_spec(tag@, lit(text)),
{
    line3(tag, " NO ", text.as_bytes())
}

fn no_bytes(tag: &[u8], text: &[u8]) -> (r: Vec<u8>)
    ensures
        r@ == no_spec(tag@, text@),
{
    line3(tag, " NO ", text)
}

fn bad(tag: &[u8], text: &str) -> (r: Vec<u8>)
    ensures
        r@ == bad_spec(tag@, lit(text)),
{
    line3(tag, " BAD ", text.as_bytes())
}

fn bad_bytes(tag: &[u8], text: &[u8]) -> (r: Vec<u8>)
    ensures
        r@ == bad_spec(tag@, text@),
{
    line3(tag, " BAD ", text)
}

fn untagged(text: &[u8]) -> (r: Vec<u8>)
    ensures
        r@ == untagged_spec(text@),
{
    let mut out = crate::bytes::lit_vec("* ");
    push_all(&mut out, text);
    push_lit(&mut out, "\r\n");
    out
}

fn continuation(text: &[u8]) -> (r: Vec<u8>)
    ensures
        r@ == continuation_spec(text@),
{
    let mut out = crate::bytes::lit_vec("+ ");
    push_all(&mut out, text);
    push_lit(&mut out, "\r\n");
    out
}

/// The capability list (RFC 9051 §7.2.2): IMAP4rev2 and rev1 with the extensions this server
/// implements; on a channel without TLS, STARTTLS and LOGINDISABLED instead of the SASL
/// mechanisms.
pub open spec fn capability_spec(tls: bool) -> Seq<u8> {
    lit("CAPABILITY IMAP4rev2 IMAP4rev1 ") + (if tls {
        lit("AUTH=PLAIN AUTH=LOGIN SASL-IR")
    } else {
        lit("STARTTLS LOGINDISABLED")
    }) + lit(
        " LITERAL+ ENABLE IDLE NAMESPACE ID UIDPLUS MOVE CONDSTORE QRESYNC ESEARCH SEARCHRES SORT SORT=DISPLAY THREAD=ORDEREDSUBJECT THREAD=REFERENCES BINARY CATENATE CHILDREN LIST-EXTENDED LIST-STATUS SPECIAL-USE CREATE-SPECIAL-USE",
    )
}

/// The capability list for a channel with or without TLS.
pub fn capability_line(tls: bool) -> (r: Vec<u8>)
    ensures
        r@ == capability_spec(tls),
{
    let mut out = crate::bytes::lit_vec("CAPABILITY IMAP4rev2 IMAP4rev1 ");
    if tls {
        push_lit(&mut out, "AUTH=PLAIN AUTH=LOGIN SASL-IR");
    } else {
        push_lit(&mut out, "STARTTLS LOGINDISABLED");
    }
    push_lit(
        &mut out,
        " LITERAL+ ENABLE IDLE NAMESPACE ID UIDPLUS MOVE CONDSTORE QRESYNC ESEARCH SEARCHRES SORT SORT=DISPLAY THREAD=ORDEREDSUBJECT THREAD=REFERENCES BINARY CATENATE CHILDREN LIST-EXTENDED LIST-STATUS SPECIAL-USE CREATE-SPECIAL-USE",
    );
    out
}

/// The text of a parse error, as the BAD reply carries it.
pub open spec fn parse_error_text(e: ParseError) -> Seq<u8> {
    match e {
        ParseError::Empty => lit("empty command"),
        ParseError::BadLiteral => lit("malformed literal"),
        ParseError::UnterminatedQuote => lit("unterminated quoted string"),
        ParseError::UnknownCommand(n) => lit("unknown command ") + n@,
        ParseError::Syntax(m) => lit("syntax error: ") + lit(m),
    }
}

/// The text of a parse error.
pub fn parse_error_bytes(e: &ParseError) -> (r: Vec<u8>)
    ensures
        r@ == parse_error_text(*e),
{
    match e {
        ParseError::Empty => crate::bytes::lit_vec("empty command"),
        ParseError::BadLiteral => crate::bytes::lit_vec("malformed literal"),
        ParseError::UnterminatedQuote => crate::bytes::lit_vec("unterminated quoted string"),
        ParseError::UnknownCommand(n) => {
            let mut out = crate::bytes::lit_vec("unknown command ");
            push_all(&mut out, n.as_slice());
            out
        },
        ParseError::Syntax(m) => {
            let mut out = crate::bytes::lit_vec("syntax error: ");
            push_lit(&mut out, m);
            out
        },
    }
}

/// The tag a BAD reply to an unparsable buffer carries: its first white-space separated word
/// (of the buffer read as UTF-8 text), or `*`.
pub open spec fn tag_of(buf: Seq<u8>) -> Seq<u8> {
    let ts = crate::smtp::ws_tokens(crate::bytes::utf8(crate::text::utf8_lossy(buf)));
    if ts.len() > 0 {
        ts[0]
    } else {
        lit("*")
    }
}

fn extract_tag(buf: &[u8]) -> (r: Vec<u8>)
    ensures
        r@ == tag_of(buf@),
{
    let text = lossy_string(buf);
    let ts = crate::smtp::split_ws(text.as_str().as_bytes());
    if ts.len() > 0 {
        assert(crate::bytes::views(ts@)[0] == ts@[0]@);
        to_vec(ts[0].as_slice())
    } else {
        crate::bytes::lit_vec("*")
    }
}

// ---------------------------------------------------------------------------------------------
// The session
// ---------------------------------------------------------------------------------------------

/// A SASL exchange waiting for the client's next line.
enum Pending {
    Plain { tag: Vec<u8> },
    LoginUser { tag: Vec<u8> },
    LoginPass { tag: Vec<u8>, user: Vec<u8> },
}

/// A pending SASL exchange as the specification sees it.
pub ghost enum PendingView {
    Plain(Seq<u8>),
    LoginUser(Seq<u8>),
    LoginPass(Seq<u8>, Seq<u8>),
}

/// What a session holds besides its store and authenticator.
pub ghost struct ImapView {
    pub tls: bool,
    pub state: State,
    pub identity: Option<Seq<u8>>,
    pub selected: Option<Seq<char>>,
    pub read_only: bool,
    pub condstore: bool,
    pub qresync: bool,
    pub idle: Option<Seq<u8>>,
    pub pending: Option<PendingView>,
    pub saved: Seq<u32>,
}

/// An IMAP session over a store and an authenticator it owns.
pub struct Session<S: MailStore, A: Authenticator> {
    store: S,
    auth: A,
    tls: bool,
    state: State,
    identity: Option<Vec<u8>>,
    selected: Option<String>,
    read_only: bool,
    condstore: bool,
    qresync: bool,
    idle_tag: Option<Vec<u8>>,
    pending: Option<Pending>,
    /// SEARCHRES saved result (RFC 5182): the UIDs of the last SEARCH that used `RETURN (SAVE)`,
    /// which `$` refers to.
    saved_search: Vec<u32>,
}

/// An optional byte string by its view.
pub open spec fn ov(o: Option<Vec<u8>>) -> Option<Seq<u8>> {
    match o {
        Some(v) => Some(v@),
        None => None,
    }
}

spec fn pending_view(p: Option<Pending>) -> Option<PendingView> {
    match p {
        Some(Pending::Plain { tag }) => Some(PendingView::Plain(tag@)),
        Some(Pending::LoginUser { tag }) => Some(PendingView::LoginUser(tag@)),
        Some(Pending::LoginPass { tag, user }) => Some(PendingView::LoginPass(tag@, user@)),
        None => None,
    }
}

impl<S: MailStore, A: Authenticator> View for Session<S, A> {
    type V = ImapView;

    closed spec fn view(&self) -> ImapView {
        ImapView {
            tls: self.tls,
            state: self.state,
            identity: ov(self.identity),
            selected: match self.selected {
                Some(n) => Some(n@),
                None => None,
            },
            read_only: self.read_only,
            condstore: self.condstore,
            qresync: self.qresync,
            idle: ov(self.idle_tag),
            pending: pending_view(self.pending),
            saved: self.saved_search@,
        }
    }
}

/// Whether a step leaves the channel, the identity and any SASL or IDLE wait as they were.
pub open spec fn keeps_auth(s: ImapView, t: ImapView) -> bool {
    &&& t.tls == s.tls
    &&& t.identity == s.identity
    &&& t.pending == s.pending
    &&& t.idle == s.idle
}

/// The greeting (RFC 9051 §7.1.1).
pub open spec fn greeting_spec(tls: bool) -> Seq<u8> {
    lit("* OK [") + capability_spec(tls) + lit("] Envoir DMTAP IMAP ready\r\n")
}

impl<S: MailStore, A: Authenticator> Session<S, A> {
    /// The authenticator the session checks credentials with.
    pub closed spec fn authenticator(&self) -> A {
        self.auth
    }

    /// A new session, not authenticated (`tls`: the channel is already protected).
    pub fn new(store: S, auth: A, tls: bool) -> (r: Self)
        ensures
            r.authenticator() == auth,
            r.store_spec() == store,
            r@ == (ImapView {
                tls,
                state: State::NotAuthenticated,
                identity: None,
                selected: None,
                read_only: false,
                condstore: false,
                qresync: false,
                idle: None,
                pending: None,
                saved: seq![],
            }),
    {
        let r = Session {
            store,
            auth,
            tls,
            state: State::NotAuthenticated,
            identity: None,
            selected: None,
            read_only: false,
            condstore: false,
            qresync: false,
            idle_tag: None,
            pending: None,
            saved_search: Vec::new(),
        };
        assert(r@.saved =~= Seq::<u32>::empty());
        r
    }

    /// The connection state.
    pub fn state(&self) -> (r: State)
        ensures
            r == self@.state,
    {
        self.state
    }

    /// The store the session owns.
    pub closed spec fn store_spec(&self) -> S {
        self.store
    }

    /// The store.
    pub fn store(&self) -> (r: &S)
        ensures
            *r == self.store_spec(),
    {
        &self.store
    }

    /// The store, for changing it in place.
    pub fn store_mut(&mut self) -> (r: &mut S)
        ensures
            final(self)@ == old(self)@,
            final(self).authenticator() == old(self).authenticator(),
    {
        &mut self.store
    }

    /// Give the store back.
    pub fn into_store(self) -> (r: S)
        ensures
            r == self.store_spec(),
    {
        self.store
    }

    /// Whether the session is idling (waiting for `DONE`).
    pub fn is_idling(&self) -> (r: bool)
        ensures
            r == self@.idle is Some,
    {
        self.idle_tag.is_some()
    }

    /// The greeting a server sends on connect.
    pub fn greeting(&self) -> (r: Vec<u8>)
        ensures
            r@ == greeting_spec(self@.tls),
    {
        let mut out = crate::bytes::lit_vec("* OK [");
        let c = capability_line(self.tls);
        push_all(&mut out, c.as_slice());
        push_lit(&mut out, "] Envoir DMTAP IMAP ready\r\n");
        out
    }
}

/// The bytes a byte string reads as once decoded (invalid sequences replaced), re-encoded: what
/// the session hands the authenticator for a credential field.
pub open spec fn lossy_bytes(b: Seq<u8>) -> Seq<u8> {
    crate::bytes::utf8(crate::text::utf8_lossy(b))
}

/// The authenticator answered the credential `c` (if a step checks one) with `id`; a step that
/// checks no credential has no identity.
pub open spec fn checked<A: Authenticator>(auth: A, c: Option<(Seq<u8>, Seq<u8>)>, id: Option<Seq<u8>>) -> bool {
    match c {
        Some((u, p)) => auth.accepts(u, p, id),
        None => id is None,
    }
}

/// The credential a LOGIN checks: its user and password, once TLS is up.
pub open spec fn login_creds(s: ImapView, user: Seq<u8>, pass: Seq<u8>) -> Option<(Seq<u8>, Seq<u8>)> {
    if s.tls {
        Some((lossy_bytes(user), lossy_bytes(pass)))
    } else {
        None
    }
}

/// The credential a SASL PLAIN response checks: its authentication id and password.
pub open spec fn plain_creds(ir: Seq<u8>) -> Option<(Seq<u8>, Seq<u8>)> {
    match crate::auth::plain_fields(ir) {
        Some((_, u, p)) => Some((lossy_bytes(u), lossy_bytes(p))),
        None => None,
    }
}

/// The credential an AUTHENTICATE command checks at once: a PLAIN initial response over TLS.
pub open spec fn authenticate_creds(s: ImapView, mech: Seq<u8>, initial: Option<Seq<u8>>) -> Option<(Seq<u8>, Seq<u8>)> {
    if s.tls && crate::bytes::eq_ci_spec(mech, lit("PLAIN")) {
        match initial {
            Some(ir) => plain_creds(ir),
            None => None,
        }
    } else {
        None
    }
}

/// The credential a SASL continuation line checks.
pub open spec fn continue_creds(p: PendingView, buf: Seq<u8>) -> Option<(Seq<u8>, Seq<u8>)> {
    let line = crate::bytes::trim_spec(crate::bytes::utf8(crate::text::utf8_lossy(buf)));
    match p {
        PendingView::Plain(_) => plain_creds(line),
        PendingView::LoginUser(_) => None,
        PendingView::LoginPass(_, user) => Some((lossy_bytes(user), lossy_bytes(crate::smtp::login_value(line)))),
    }
}

/// The result of a credential check answered with `id`.
pub open spec fn cred_spec(s: ImapView, tag: Seq<u8>, id: Option<Seq<u8>>, done: Seq<u8>) -> (ImapView, Seq<u8>) {
    match id {
        Some(i) => (ImapView { identity: Some(i), state: State::Authenticated, ..s }, ok_spec(tag, done)),
        None => (s, no_spec(tag, lit("[AUTHENTICATIONFAILED] invalid credentials"))),
    }
}

/// LOGIN: refused without TLS, otherwise the authenticator's answer decides.
pub open spec fn login_spec(s: ImapView, tag: Seq<u8>, id: Option<Seq<u8>>) -> (ImapView, Seq<u8>) {
    if !s.tls {
        (s, no_spec(tag, lit("[PRIVACYREQUIRED] LOGIN disabled until STARTTLS")))
    } else {
        cred_spec(s, tag, id, lit("LOGIN completed"))
    }
}

/// A SASL PLAIN response: it must decode; then the authenticator's answer decides.
pub open spec fn plain_spec(s: ImapView, tag: Seq<u8>, ir: Seq<u8>, id: Option<Seq<u8>>) -> (ImapView, Seq<u8>) {
    match crate::auth::plain_fields(ir) {
        Some(_) => cred_spec(s, tag, id, lit("AUTHENTICATE completed")),
        None => (s, no_spec(tag, lit("[AUTHENTICATIONFAILED] malformed SASL PLAIN"))),
    }
}

/// The base64 prompt of a SASL LOGIN step.
pub open spec fn prompt(word: Seq<u8>) -> Seq<u8> {
    continuation_spec(crate::base64::b64_encode_spec(word))
}

/// AUTHENTICATE mechanism [initial-response] (RFC 9051 §6.2.2, SASL-IR RFC 4959).
pub open spec fn authenticate_spec(s: ImapView, tag: Seq<u8>, mech: Seq<u8>, initial: Option<Seq<u8>>, id: Option<Seq<u8>>) -> (
    ImapView,
    Seq<u8>,
) {
    let plain = crate::bytes::eq_ci_spec(mech, lit("PLAIN"));
    let login = crate::bytes::eq_ci_spec(mech, lit("LOGIN"));
    if !plain && !login {
        (s, no_spec(tag, lit("[CANNOT] unsupported SASL mechanism")))
    } else if !s.tls {
        (s, no_spec(tag, lit("[PRIVACYREQUIRED] AUTHENTICATE disabled until STARTTLS")))
    } else if plain {
        match initial {
            Some(ir) => plain_spec(s, tag, ir, id),
            None => (ImapView { pending: Some(PendingView::Plain(tag)), ..s }, continuation_spec(seq![])),
        }
    } else {
        match initial {
            Some(ir) => (
                ImapView { pending: Some(PendingView::LoginPass(tag, crate::smtp::login_value(ir))), ..s },
                prompt(lit("Password:")),
            ),
            None => (ImapView { pending: Some(PendingView::LoginUser(tag)), ..s }, prompt(lit("Username:"))),
        }
    }
}

/// The client's line answering a pending SASL step (the pending step is already cleared in `s`).
pub open spec fn continue_spec(s: ImapView, p: PendingView, buf: Seq<u8>, id: Option<Seq<u8>>) -> (ImapView, Seq<u8>) {
    let line = crate::bytes::trim_spec(crate::bytes::utf8(crate::text::utf8_lossy(buf)));
    match p {
        PendingView::Plain(tag) => plain_spec(s, tag, line, id),
        PendingView::LoginUser(tag) => (
            ImapView { pending: Some(PendingView::LoginPass(tag, crate::smtp::login_value(line))), ..s },
            prompt(lit("Password:")),
        ),
        PendingView::LoginPass(tag, _user) => cred_spec(s, tag, id, lit("AUTHENTICATE completed")),
    }
}

fn prompt_exec(word: &str) -> (r: Vec<u8>)
    ensures
        r@ == prompt(lit(word)),
{
    let e = crate::base64::base64_encode(word.as_bytes());
    continuation(e.as_str().as_bytes())
}

impl<S: MailStore, A: Authenticator> Session<S, A> {
    fn finish_credentials(&mut self, tag: &[u8], user: &[u8], pass: &[u8], done: &str) -> (r: (Vec<u8>, Ghost<Option<Seq<u8>>>))
        ensures
            cred_spec(old(self)@, tag@, r.1@, lit(done)) == (final(self)@, r.0@),
            final(self).authenticator() == old(self).authenticator(),
            final(self).store_spec() == old(self).store_spec(),
            old(self).authenticator().accepts(lossy_bytes(user@), lossy_bytes(pass@), r.1@),
    {
        let u = lossy_string(user);
        let p = lossy_string(pass);
        match self.auth.verify(u.as_str(), p.as_str()) {
            Some(id) => {
                let ghost iv = id@;
                self.identity = Some(id);
                self.state = State::Authenticated;
                (ok(tag, done), Ghost(Some(iv)))
            },
            None => (no(tag, "[AUTHENTICATIONFAILED] invalid credentials"), Ghost(None)),
        }
    }

    fn cmd_login(&mut self, tag: &[u8], user: &[u8], pass: &[u8]) -> (r: (Vec<u8>, Ghost<Option<Seq<u8>>>))
        ensures
            login_spec(old(self)@, tag@, r.1@) == (final(self)@, r.0@),
            final(self).authenticator() == old(self).authenticator(),
            final(self).store_spec() == old(self).store_spec(),
            checked(old(self).authenticator(), login_creds(old(self)@, user@, pass@), r.1@),
    {
        if !self.tls {
            return (no(tag, "[PRIVACYREQUIRED] LOGIN disabled until STARTTLS"), Ghost(None));
        }
        self.finish_credentials(tag, user, pass, "LOGIN completed")
    }

    fn finish_plain(&mut self, tag: &[u8], ir: &[u8]) -> (r: (Vec<u8>, Ghost<Option<Seq<u8>>>))
        ensures
            plain_spec(old(self)@, tag@, ir@, r.1@) == (final(self)@, r.0@),
            final(self).authenticator() == old(self).authenticator(),
            final(self).store_spec() == old(self).store_spec(),
            checked(old(self).authenticator(), plain_creds(ir@), r.1@),
    {
        match crate::auth::decode_plain_bytes(ir) {
            Some(cred) => self.finish_credentials(
                tag,
                cred.authcid.as_str().as_bytes(),
                cred.password.as_str().as_bytes(),
                "AUTHENTICATE completed",
            ),
            None => (no(tag, "[AUTHENTICATIONFAILED] malformed SASL PLAIN"), Ghost(None)),
        }
    }

    fn cmd_authenticate(&mut self, tag: &[u8], mechanism: &[u8], initial: Option<Vec<u8>>) -> (r: (
        Vec<u8>,
        Ghost<Option<Seq<u8>>>,
    ))
        ensures
            authenticate_spec(old(self)@, tag@, mechanism@, ov(initial), r.1@) == (final(self)@, r.0@),
            final(self).authenticator() == old(self).authenticator(),
            final(self).store_spec() == old(self).store_spec(),
            checked(old(self).authenticator(), authenticate_creds(old(self)@, mechanism@, ov(initial)), r.1@),
    {
        let plain = crate::bytes::is_kw(mechanism, "PLAIN");
        let login = crate::bytes::is_kw(mechanism, "LOGIN");
        if !plain && !login {
            return (no(tag, "[CANNOT] unsupported SASL mechanism"), Ghost(None));
        }
        if !self.tls {
            return (no(tag, "[PRIVACYREQUIRED] AUTHENTICATE disabled until STARTTLS"), Ghost(None));
        }
        if plain {
            match initial {
                Some(ir) => self.finish_plain(tag, ir.as_slice()),
                None => {
                    self.pending = Some(Pending::Plain { tag: to_vec(tag) });
                    (continuation(&[]), Ghost(None))
                },
            }
        } else {
            match initial {
                Some(ir) => {
                    let user = crate::smtp::login_field(ir.as_slice());
                    self.pending = Some(Pending::LoginPass { tag: to_vec(tag), user: to_vec(user.as_str().as_bytes()) });
                    (prompt_exec("Password:"), Ghost(None))
                },
                None => {
                    self.pending = Some(Pending::LoginUser { tag: to_vec(tag) });
                    (prompt_exec("Username:"), Ghost(None))
                },
            }
        }
    }

    fn continue_sasl(&mut self, pending: Pending, buf: &[u8]) -> (r: (Vec<u8>, Ghost<Option<Seq<u8>>>))
        requires
            old(self)@.pending is None,
        ensures
            continue_spec(old(self)@, pending_view(Some(pending))->0, buf@, r.1@) == (final(self)@, r.0@),
            final(self).authenticator() == old(self).authenticator(),
            final(self).store_spec() == old(self).store_spec(),
            checked(old(self).authenticator(), continue_creds(pending_view(Some(pending))->0, buf@), r.1@),
    {
        let text = lossy_string(buf);
        let line = crate::bytes::trim(text.as_str().as_bytes());
        match pending {
            Pending::Plain { tag } => self.finish_plain(tag.as_slice(), line),
            Pending::LoginUser { tag } => {
                let user = crate::smtp::login_field(line);
                self.pending = Some(Pending::LoginPass { tag, user: to_vec(user.as_str().as_bytes()) });
                (prompt_exec("Password:"), Ghost(None))
            },
            Pending::LoginPass { tag, user } => {
                let pass = crate::smtp::login_field(line);
                self.finish_credentials(tag.as_slice(), user.as_slice(), pass.as_str().as_bytes(), "AUTHENTICATE completed")
            },
        }
    }
}

/// ENABLE (RFC 5161): CONDSTORE turns CONDSTORE on, QRESYNC turns QRESYNC and CONDSTORE on, and
/// IMAP4rev2 is acknowledged; other capabilities are ignored. The state after `caps`, and the
/// capabilities named in the ENABLED reply, in order.
pub open spec fn enable_spec(s: ImapView, caps: Seq<Vec<u8>>) -> (ImapView, Seq<Seq<u8>>)
    decreases caps.len(),
{
    if caps.len() == 0 {
        (s, seq![])
    } else {
        let (t, words) = enable_spec(s, caps.drop_last());
        let u = crate::bytes::upper_seq(caps.last()@);
        if u == lit("CONDSTORE") {
            (ImapView { condstore: true, ..t }, words.push(lit("CONDSTORE")))
        } else if u == lit("QRESYNC") {
            (ImapView { qresync: true, condstore: true, ..t }, words.push(lit("QRESYNC")))
        } else if u == lit("IMAP4REV2") {
            (t, words.push(lit("IMAP4rev2")))
        } else {
            (t, words)
        }
    }
}

/// Whether `r` ends with `o`.
pub open spec fn ends_with(r: Seq<u8>, o: Seq<u8>) -> bool {
    r.len() >= o.len() && r.skip(r.len() - o.len()) == o
}

proof fn lemma_ends(pre: Seq<u8>, o: Seq<u8>)
    ensures
        ends_with(pre + o, o),
{
    assert((pre + o).skip(pre.len() as int) =~= o);
}

/// The reason a store operation gives for refusing.
pub open spec fn store_error_text(e: crate::store::StoreError) -> Seq<u8> {
    match e {
        crate::store::StoreError::AlreadyExists => lit("mailbox already exists"),
        crate::store::StoreError::NoSuchMailbox => lit("no such mailbox"),
        crate::store::StoreError::InboxImmutable => lit("INBOX cannot be deleted or renamed"),
    }
}

/// The reply to CREATE, DELETE or RENAME: done, or refused with the store's reason.
pub open spec fn mailbox_op_reply(r: Seq<u8>, tag: Seq<u8>, done: Seq<u8>, failed: Seq<u8>) -> bool {
    r == ok_spec(tag, done) || exists|e: crate::store::StoreError| r == no_spec(tag, failed + #[trigger] store_error_text(e))
}

/// The state after a successful SELECT or EXAMINE of `name`.
pub open spec fn selected_spec(s: ImapView, name: Seq<char>, read_only: bool, condstore: bool, qresync: bool) -> ImapView {
    ImapView {
        selected: Some(name),
        saved: seq![],
        read_only,
        state: State::Selected,
        condstore: s.condstore || condstore || qresync,
        qresync: s.qresync || qresync,
        ..s
    }
}

fn push_untagged(out: &mut Vec<u8>, text: &[u8])
    ensures
        final(out)@ == old(out)@ + untagged_spec(text@),
{
    let l = untagged(text);
    push_all(out, l.as_slice());
}

impl<S: MailStore, A: Authenticator> Session<S, A> {
    fn cmd_enable(&mut self, tag: &[u8], caps: &Vec<Vec<u8>>) -> (r: Vec<u8>)
        ensures
            keeps_auth(old(self)@, final(self)@),
            final(self)@.state == old(self)@.state,
            final(self)@.selected == old(self)@.selected,
            final(self).authenticator() == old(self).authenticator(),
            final(self)@ == enable_spec(old(self)@, caps@).0,
            r@ == untagged_spec(lit("ENABLED ") + super::response::join_sp(enable_spec(old(self)@, caps@).1)) + ok_spec(
                tag@,
                lit("ENABLE completed"),
            ),
    {
        let mut enabled: Vec<u8> = Vec::new();
        let mut any = false;
        let mut i: usize = 0;
        while i < caps.len()
            invariant
                i <= caps@.len(),
                keeps_auth(old(self)@, self@),
                self@.state == old(self)@.state,
                self@.selected == old(self)@.selected,
                self.auth == old(self).auth,
                self@ == enable_spec(old(self)@, caps@.take(i as int)).0,
                enabled@ == super::response::join_sp(enable_spec(old(self)@, caps@.take(i as int)).1),
                any == (enable_spec(old(self)@, caps@.take(i as int)).1.len() > 0),
            decreases caps@.len() - i,
        {
            let ghost t = caps@.take(i + 1);
            assert(t.drop_last() =~= caps@.take(i as int));
            let ghost prev = enable_spec(old(self)@, caps@.take(i as int));
            let up = crate::bytes::to_upper(caps[i].as_slice());
            let word: Option<&str> = if crate::bytes::is_lit(up.as_slice(), "CONDSTORE") {
                self.condstore = true;
                Some("CONDSTORE")
            } else if crate::bytes::is_lit(up.as_slice(), "QRESYNC") {
                self.qresync = true;
                self.condstore = true;
                Some("QRESYNC")
            } else if crate::bytes::is_lit(up.as_slice(), "IMAP4REV2") {
                Some("IMAP4rev2")
            } else {
                None
            };
            if let Some(w) = word {
                if any {
                    enabled.push(32);
                }
                push_lit(&mut enabled, w);
                any = true;
                proof {
                    let ws = prev.1.push(lit(w));
                    assert(ws.drop_last() =~= prev.1);
                }
            }
            assert(self@ =~= enable_spec(old(self)@, t).0);
            assert(enabled@ =~= super::response::join_sp(enable_spec(old(self)@, t).1));
            i += 1;
        }
        assert(caps@.take(i as int) =~= caps@);
        let mut text = crate::bytes::lit_vec("ENABLED ");
        push_all(&mut text, enabled.as_slice());
        let mut out = untagged(text.as_slice());
        let o = ok(tag, "ENABLE completed");
        push_all(&mut out, o.as_slice());
        out
    }

    fn set_subscribed(&mut self, tag: &[u8], name: &[u8], sub: bool) -> (r: Vec<u8>)
        ensures
            final(self)@ == old(self)@,
            final(self).authenticator() == old(self).authenticator(),
            r@ == ok_spec(tag@, if sub { lit("SUBSCRIBE completed") } else { lit("UNSUBSCRIBE completed") }) || r@
                == no_spec(tag@, lit("no such mailbox")),
    {
        let n = lossy_string(name);
        match self.store.mailbox_mut(n.as_str()) {
            Some(mb) => {
                mb.subscribed = sub;
                ok(tag, if sub { "SUBSCRIBE completed" } else { "UNSUBSCRIBE completed" })
            },
            None => no(tag, "no such mailbox"),
        }
    }

    /// The QRESYNC catch-up after SELECT (RFC 7162 §3.2.5.2): `VANISHED (EARLIER)` for the UIDs
    /// expunged since `modseq` (within `known` when given), then a FETCH of UID, MODSEQ and
    /// FLAGS for every message changed since.
    fn qresync_resync(&self, name: &str, modseq: u64, known: &Option<super::sequence::SequenceSet>) -> (r: Vec<u8>) {
        let mb = match self.store.mailbox(name) {
            Some(mb) => mb,
            None => return Vec::new(),
        };
        let max_uid = mb.max_uid();
        let mut out: Vec<u8> = Vec::new();
        let all = mb.vanished_since(modseq);
        let mut vanished: Vec<u32> = Vec::new();
        let mut k: usize = 0;
        while k < all.len()
            invariant
                k <= all@.len(),
                forall|a: int, b: int| 0 <= a < b < all@.len() ==> all@[a] <= all@[b],
                forall|a: int, b: int| 0 <= a < b < vanished@.len() ==> vanished@[a] <= vanished@[b],
                forall|a: int| 0 <= a < vanished@.len() ==> exists|j: int| 0 <= j < k && all@[j] == #[trigger] vanished@[a],
            decreases all@.len() - k,
        {
            let keep = match known {
                Some(set) => set.contains(all[k], max_uid),
                None => true,
            };
            if keep {
                let ghost before = vanished@;
                vanished.push(all[k]);
                assert forall|a: int, b: int| 0 <= a < b < vanished@.len() implies vanished@[a] <= vanished@[b] by {
                    if b == before.len() {
                        let j = choose|j: int| 0 <= j < k && all@[j] == before[a];
                        assert(vanished@[a] == before[a]);
                    } else {
                        assert(vanished@[a] == before[a] && vanished@[b] == before[b]);
                    }
                }
                assert forall|a: int| 0 <= a < vanished@.len() implies exists|j: int| 0 <= j < k + 1 && all@[j] == #[trigger] vanished@[a] by {
                    if a < before.len() {
                        assert(vanished@[a] == before[a]);
                        let j = choose|j: int| 0 <= j < k && all@[j] == before[a];
                        assert(all@[j] == vanished@[a]);
                    } else {
                        assert(all@[k as int] == vanished@[a]);
                    }
                }
            }
            k += 1;
        }
        if vanished.len() > 0 {
            let mut text = crate::bytes::lit_vec("VANISHED (EARLIER) ");
            let set = super::session::to_sequence_set(vanished.as_slice());
            push_all(&mut text, set.as_str().as_bytes());
            push_untagged(&mut out, text.as_slice());
        }
        let mut i: usize = 0;
        while i < mb.messages.len()
            invariant
                i <= mb.messages@.len(),
            decreases mb.messages@.len() - i,
        {
            let m = &mb.messages[i];
            let skip = m.modseq <= modseq || match known {
                Some(set) => !set.contains(m.uid, max_uid),
                None => false,
            };
            if !skip {
                let mut text: Vec<u8> = Vec::new();
                push_dec(&mut text, i + 1);
                push_lit(&mut text, " FETCH (UID ");
                push_dec(&mut text, m.uid as usize);
                push_lit(&mut text, " MODSEQ (");
                crate::json::push_dec_u64(&mut text, m.modseq);
                push_lit(&mut text, ") FLAGS (");
                super::fetch::push_flags(&mut text, m.flags.as_slice());
                push_lit(&mut text, "))");
                push_untagged(&mut out, text.as_slice());
            }
            i += 1;
        }
        out
    }

    fn cmd_select(
        &mut self,
        tag: &[u8],
        name: &[u8],
        read_only: bool,
        condstore: bool,
        qresync: Option<super::parser::QResyncParams>,
    ) -> (r: Vec<u8>)
        ensures
            final(self).authenticator() == old(self).authenticator(),
            final(self).store_spec() == old(self).store_spec(),
            crate::store::lookup(old(self).store_spec().model(), crate::text::utf8_lossy(name@)) is None ==> final(self)@
                == old(self)@ && r@ == no_spec(tag@, lit("[NONEXISTENT] no such mailbox")),
            crate::store::lookup(old(self).store_spec().model(), crate::text::utf8_lossy(name@)) is Some ==> final(self)@
                == selected_spec(old(self)@, crate::text::utf8_lossy(name@), read_only, condstore, qresync is Some)
                && ends_with(r@, ok_spec(tag@, select_done(read_only))),
    {
        let n = lossy_string(name);
        let (exists, recent, uidnext, uidvalidity, highest, unseen) = match self.store.mailbox(n.as_str()) {
            Some(mb) => (mb.exists_count(), mb.recent(), mb.uid_next, mb.uid_validity, mb.highest_modseq, mb.first_unseen_seq()),
            None => return no(tag, "[NONEXISTENT] no such mailbox"),
        };
        if condstore || qresync.is_some() {
            self.condstore = true;
        }
        let mut out: Vec<u8> = Vec::new();
        push_untagged(&mut out, "FLAGS (\\Answered \\Flagged \\Deleted \\Seen \\Draft)".as_bytes());
        let mut t: Vec<u8> = Vec::new();
        push_dec(&mut t, exists);
        push_lit(&mut t, " EXISTS");
        push_untagged(&mut out, t.as_slice());
        let mut t: Vec<u8> = Vec::new();
        push_dec(&mut t, recent);
        push_lit(&mut t, " RECENT");
        push_untagged(&mut out, t.as_slice());
        if let Some(u) = unseen {
            let mut t = crate::bytes::lit_vec("OK [UNSEEN ");
            push_dec(&mut t, u);
            push_lit(&mut t, "] first unseen");
            push_untagged(&mut out, t.as_slice());
        }
        let mut t = crate::bytes::lit_vec("OK [UIDVALIDITY ");
        push_dec(&mut t, uidvalidity as usize);
        push_lit(&mut t, "] UIDs valid");
        push_untagged(&mut out, t.as_slice());
        let mut t = crate::bytes::lit_vec("OK [UIDNEXT ");
        push_dec(&mut t, uidnext as usize);
        push_lit(&mut t, "] predicted next UID");
        push_untagged(&mut out, t.as_slice());
        push_untagged(&mut out, "OK [PERMANENTFLAGS (\\Answered \\Flagged \\Deleted \\Seen \\Draft \\*)] limited".as_bytes());
        if self.condstore {
            let mut t = crate::bytes::lit_vec("OK [HIGHESTMODSEQ ");
            crate::json::push_dec_u64(&mut t, highest);
            push_lit(&mut t, "] highest modseq");
            push_untagged(&mut out, t.as_slice());
        }
        let has_q = qresync.is_some();
        if let Some(q) = qresync {
            self.qresync = true;
            if q.uid_validity == uidvalidity {
                let extra = self.qresync_resync(n.as_str(), q.modseq, &q.known_uids);
                push_all(&mut out, extra.as_slice());
            }
        }
        self.selected = Some(n);
        self.saved_search = Vec::new();
        self.read_only = read_only;
        self.state = State::Selected;
        let done = if read_only { "[READ-ONLY] EXAMINE completed" } else { "[READ-WRITE] SELECT completed" };
        let o = ok(tag, done);
        let ghost pre = out@;
        push_all(&mut out, o.as_slice());
        proof {
            lemma_ends(pre, o@);
        }
        assert(self@ =~= selected_spec(old(self)@, crate::text::utf8_lossy(name@), read_only, condstore, has_q));
        out
    }
}

/// The STATUS items LIST-STATUS passes on (already upper-cased).
pub open spec fn status_item_spec(s: Seq<u8>) -> bool {
    s == lit("MESSAGES") || s == lit("RECENT") || s == lit("UIDNEXT") || s == lit("UIDVALIDITY") || s == lit(
        "UNSEEN",
    ) || s == lit("DELETED") || s == lit("SIZE") || s == lit("HIGHESTMODSEQ")
}

fn is_status_item(s: &[u8]) -> (r: bool)
    ensures
        r == status_item_spec(s@),
{
    crate::bytes::is_lit(s, "MESSAGES") || crate::bytes::is_lit(s, "RECENT") || crate::bytes::is_lit(s, "UIDNEXT")
        || crate::bytes::is_lit(s, "UIDVALIDITY") || crate::bytes::is_lit(s, "UNSEEN") || crate::bytes::is_lit(
        s,
        "DELETED",
    ) || crate::bytes::is_lit(s, "SIZE") || crate::bytes::is_lit(s, "HIGHESTMODSEQ")
}

/// The `RETURN (STATUS (...))` items of LIST return options (RFC 5819): the known status items
/// right after `STATUS`; `None` when there is no STATUS option or no item follows it.
/// The index of the first `STATUS` among upper-cased return options, from `i`.
pub open spec fn status_pos(up: Seq<Vec<u8>>, i: int) -> int
    decreases up.len() - i,
{
    if i < 0 || i >= up.len() {
        up.len() as int
    } else if up[i]@ == lit("STATUS") {
        i
    } else {
        status_pos(up, i + 1)
    }
}

/// The number of consecutive STATUS items from `i`.
pub open spec fn item_run(up: Seq<Vec<u8>>, i: int) -> nat
    decreases up.len() - i,
{
    if i < 0 || i >= up.len() || !status_item_spec(up[i]@) {
        0
    } else {
        1 + item_run(up, i + 1)
    }
}

fn list_status_items(up: &Vec<Vec<u8>>) -> (r: Option<Vec<Vec<u8>>>)
    ensures
        ({
            let p = status_pos(up@, 0);
            let n = if p < up@.len() { item_run(up@, p + 1) } else { 0 };
            match r {
                Some(v) => p < up@.len() && n > 0 && crate::bytes::views(v@) == crate::bytes::views(up@).subrange(
                    p + 1,
                    p + 1 + n,
                ),
                None => p >= up@.len() || n == 0,
            }
        }),
{
    let mut pos: usize = 0;
    while pos < up.len() && !crate::bytes::is_lit(up[pos].as_slice(), "STATUS")
        invariant
            pos <= up@.len(),
            status_pos(up@, pos as int) == status_pos(up@, 0),
        decreases up@.len() - pos,
    {
        pos += 1;
    }
    if pos == up.len() {
        return None;
    }
    let mut items: Vec<Vec<u8>> = Vec::new();
    let mut i = pos + 1;
    proof {
        lemma_item_run(up@, pos + 1);
    }
    while i < up.len() && is_status_item(up[i].as_slice())
        invariant
            pos < i <= up@.len(),
            pos == status_pos(up@, 0),
            item_run(up@, pos + 1) == (i - pos - 1) + item_run(up@, i as int),
            crate::bytes::views(items@) == crate::bytes::views(up@).subrange(pos + 1, i as int),
        decreases up@.len() - i,
    {
        let ghost before = crate::bytes::views(items@);
        items.push(to_vec(up[i].as_slice()));
        assert(crate::bytes::views(items@) =~= before.push(up@[i as int]@));
        assert(crate::bytes::views(up@).subrange(pos + 1, i + 1) =~= crate::bytes::views(up@).subrange(pos + 1, i as int).push(
            up@[i as int]@,
        ));
        i += 1;
    }
    assert(item_run(up@, i as int) == 0);
    if items.len() == 0 {
        None
    } else {
        Some(items)
    }
}

fn any_is(v: &Vec<Vec<u8>>, w: &str) -> (r: bool)
    ensures
        r == exists|i: int| 0 <= i < v@.len() && v@[i]@ == lit(w),
{
    let mut i: usize = 0;
    while i < v.len()
        invariant
            i <= v@.len(),
            forall|j: int| 0 <= j < i ==> v@[j]@ != lit(w),
        decreases v@.len() - i,
    {
        if crate::bytes::is_lit(v[i].as_slice(), w) {
            return true;
        }
        i += 1;
    }
    false
}

fn upper_all(v: &Vec<Vec<u8>>) -> (r: Vec<Vec<u8>>)
    ensures
        r@.len() == v@.len(),
{
    let mut out: Vec<Vec<u8>> = Vec::new();
    let mut i: usize = 0;
    while i < v.len()
        invariant
            i <= v@.len(),
            out@.len() == i,
        decreases v@.len() - i,
    {
        out.push(crate::bytes::to_upper(v[i].as_slice()));
        i += 1;
    }
    out
}

/// One `* STATUS name (...)` line of a mailbox (STATUS and LIST-STATUS, RFC 9051 §7.3.2).
/// The total size of the messages.
pub open spec fn size_total(ms: Seq<crate::store::Message>) -> nat
    decreases ms.len(),
{
    if ms.len() == 0 {
        0
    } else {
        size_total(ms.drop_last()) + ms.last().raw@.len()
    }
}

/// One STATUS item of a mailbox (`u` upper-cased); `None` for an unknown item, which is left
/// out. SIZE is capped at the largest `usize`.
pub open spec fn status_part(mb: Mailbox, u: Seq<u8>) -> Option<Seq<u8>> {
    let ms = mb.messages@;
    if u == lit("MESSAGES") {
        Some(lit("MESSAGES ") + dec_spec(ms.len()))
    } else if u == lit("RECENT") {
        Some(lit("RECENT ") + dec_spec(crate::store::count_flag(ms, crate::store::Flag::Recent, true)))
    } else if u == lit("UIDNEXT") {
        Some(lit("UIDNEXT ") + dec_spec(mb.uid_next as nat))
    } else if u == lit("UIDVALIDITY") {
        Some(lit("UIDVALIDITY ") + dec_spec(mb.uid_validity as nat))
    } else if u == lit("UNSEEN") {
        Some(lit("UNSEEN ") + dec_spec(crate::store::count_flag(ms, crate::store::Flag::Seen, false)))
    } else if u == lit("DELETED") {
        Some(lit("DELETED ") + dec_spec(crate::store::count_flag(ms, crate::store::Flag::Deleted, true)))
    } else if u == lit("HIGHESTMODSEQ") {
        Some(lit("HIGHESTMODSEQ ") + dec_spec(mb.highest_modseq as nat))
    } else if u == lit("SIZE") {
        Some(lit("SIZE ") + dec_spec(if size_total(ms) > usize::MAX { usize::MAX as nat } else { size_total(ms) }))
    } else {
        None
    }
}

/// The known STATUS items, in the order asked.
pub open spec fn status_parts(mb: Mailbox, items: Seq<Vec<u8>>) -> Seq<Seq<u8>>
    decreases items.len(),
{
    if items.len() == 0 {
        seq![]
    } else {
        status_parts(mb, items.drop_last()) + match status_part(mb, crate::bytes::upper_seq(items.last()@)) {
            Some(p) => seq![p],
            None => seq![],
        }
    }
}

fn status_line(mb: &Mailbox, name: &[u8], items: &Vec<Vec<u8>>) -> (r: Vec<u8>)
    ensures
        r@ == untagged_spec(lit("STATUS ") + super::response::imap_string_spec(name@) + lit(" (")
            + super::response::join_sp(status_parts(*mb, items@)) + lit(")")),
{
    let mut parts: Vec<u8> = Vec::new();
    let mut any = false;
    let mut i: usize = 0;
    while i < items.len()
        invariant
            i <= items@.len(),
            parts@ == super::response::join_sp(status_parts(*mb, items@.take(i as int))),
            any == (status_parts(*mb, items@.take(i as int)).len() > 0),
        decreases items@.len() - i,
    {
        let ghost t = items@.take(i + 1);
        assert(t.drop_last() =~= items@.take(i as int));
        let ghost prev = status_parts(*mb, items@.take(i as int));
        let up = crate::bytes::to_upper(items[i].as_slice());
        let u = up.as_slice();
        let mut part: Vec<u8> = Vec::new();
        let known = if crate::bytes::is_lit(u, "MESSAGES") {
            push_lit(&mut part, "MESSAGES ");
            push_dec(&mut part, mb.exists_count());
            true
        } else if crate::bytes::is_lit(u, "RECENT") {
            push_lit(&mut part, "RECENT ");
            push_dec(&mut part, mb.recent());
            true
        } else if crate::bytes::is_lit(u, "UIDNEXT") {
            push_lit(&mut part, "UIDNEXT ");
            push_dec(&mut part, mb.uid_next as usize);
            true
        } else if crate::bytes::is_lit(u, "UIDVALIDITY") {
            push_lit(&mut part, "UIDVALIDITY ");
            push_dec(&mut part, mb.uid_validity as usize);
            true
        } else if crate::bytes::is_lit(u, "UNSEEN") {
            push_lit(&mut part, "UNSEEN ");
            push_dec(&mut part, mb.unseen());
            true
        } else if crate::bytes::is_lit(u, "DELETED") {
            push_lit(&mut part, "DELETED ");
            let mut n: usize = 0;
            let mut k: usize = 0;
            while k < mb.messages.len()
                invariant
                    k <= mb.messages@.len(),
                    n <= k,
                    n == crate::store::count_flag(mb.messages@.take(k as int), crate::store::Flag::Deleted, true),
                decreases mb.messages@.len() - k,
            {
                assert(mb.messages@.take(k + 1).drop_last() =~= mb.messages@.take(k as int));
                if mb.messages[k].has_flag(&crate::store::Flag::Deleted) {
                    n += 1;
                }
                k += 1;
            }
            assert(mb.messages@.take(k as int) =~= mb.messages@);
            push_dec(&mut part, n);
            true
        } else if crate::bytes::is_lit(u, "HIGHESTMODSEQ") {
            push_lit(&mut part, "HIGHESTMODSEQ ");
            crate::json::push_dec_u64(&mut part, mb.highest_modseq);
            true
        } else if crate::bytes::is_lit(u, "SIZE") {
            push_lit(&mut part, "SIZE ");
            let mut total: usize = 0;
            let mut k: usize = 0;
            while k < mb.messages.len()
                invariant
                    k <= mb.messages@.len(),
                    total == (if size_total(mb.messages@.take(k as int)) > usize::MAX {
                        usize::MAX as nat
                    } else {
                        size_total(mb.messages@.take(k as int))
                    }),
                decreases mb.messages@.len() - k,
            {
                assert(mb.messages@.take(k + 1).drop_last() =~= mb.messages@.take(k as int));
                total = total.saturating_add(mb.messages[k].size());
                k += 1;
            }
            assert(mb.messages@.take(k as int) =~= mb.messages@);
            push_dec(&mut part, total);
            true
        } else {
            false
        };
        assert(known == status_part(*mb, crate::bytes::upper_seq(items@[i as int]@)) is Some);
        assert(known ==> status_part(*mb, crate::bytes::upper_seq(items@[i as int]@)) == Some(part@));
        if known {
            if any {
                parts.push(32);
            }
            push_all(&mut parts, part.as_slice());
            any = true;
            proof {
                let ps = prev.push(part@);
                assert(ps.drop_last() =~= prev);
                assert(status_parts(*mb, t) =~= ps);
            }
        } else {
            assert(status_parts(*mb, t) =~= prev);
        }
        i += 1;
    }
    assert(items@.take(i as int) =~= items@);
    let mut text = crate::bytes::lit_vec("STATUS ");
    super::response::push_imap_string(&mut text, name);
    push_lit(&mut text, " (");
    push_all(&mut text, parts.as_slice());
    push_lit(&mut text, ")");
    untagged(text.as_slice())
}

proof fn lemma_item_run(up: Seq<Vec<u8>>, i: int)
    ensures
        i + item_run(up, i) <= up.len() || item_run(up, i) == 0,
    decreases up.len() - i,
{
    if 0 <= i < up.len() && status_item_spec(up[i]@) {
        lemma_item_run(up, i + 1);
    }
}

/// Whether some name in `names` lies under `name` in the `/` hierarchy.
fn has_children(names: &Vec<String>, name: &[u8]) -> (r: bool)
    ensures
        r == exists|i: int| 0 <= i < names@.len() && (#[trigger] crate::bytes::utf8(names@[i]@)).len() >= name@.len() + 1
            && crate::bytes::utf8(names@[i]@).take(name@.len() + 1int) == name@.push(47u8),
{
    let mut prefix = to_vec(name);
    prefix.push(47);
    let mut i: usize = 0;
    while i < names.len()
        invariant
            i <= names@.len(),
            prefix@ == name@.push(47u8),
            forall|j: int| 0 <= j < i ==> !((#[trigger] crate::bytes::utf8(names@[j]@)).len() >= name@.len() + 1
                && crate::bytes::utf8(names@[j]@).take(name@.len() + 1int) == name@.push(47u8)),
        decreases names@.len() - i,
    {
        let b = names[i].as_str().as_bytes();
        assert(b@ == crate::bytes::utf8(names@[i as int]@));
        if crate::bytes::starts_with(b, prefix.as_slice()) {
            assert(crate::bytes::utf8(names@[i as int]@).len() >= name@.len() + 1);
            return true;
        }
        i += 1;
    }
    false
}

impl<S: MailStore, A: Authenticator> Session<S, A> {
    fn cmd_status(&self, tag: &[u8], name: &[u8], items: &Vec<Vec<u8>>) -> (r: Vec<u8>)
        ensures
            r@ == no_spec(tag@, lit("[NONEXISTENT] no such mailbox")) || ends_with(r@, ok_spec(tag@, lit("STATUS completed"))),
    {
        let n = lossy_string(name);
        match self.store.mailbox(n.as_str()) {
            Some(mb) => {
                let mut out = status_line(mb, n.as_str().as_bytes(), items);
                let o = ok(tag, "STATUS completed");
                let ghost pre = out@;
                push_all(&mut out, o.as_slice());
                proof {
                    lemma_ends(pre, o@);
                }
                out
            },
            None => no(tag, "[NONEXISTENT] no such mailbox"),
        }
    }

    fn cmd_create(&mut self, tag: &[u8], name: &[u8], use_attr: &Option<Vec<u8>>) -> (r: Vec<u8>)
        ensures
            final(self)@ == old(self)@,
            final(self).authenticator() == old(self).authenticator(),
            mailbox_op_reply(r@, tag@, lit("CREATE completed"), lit("CREATE failed: ")),
    {
        let n = lossy_string(name);
        match self.store.create(n.as_str()) {
            Ok(()) => {
                let role = match use_attr {
                    Some(a) => {
                        let t = lossy_string(a.as_slice());
                        super::session::special_use_from_attr(t.as_str())
                    },
                    None => None,
                };
                if let Some(su) = role {
                    if let Some(mb) = self.store.mailbox_mut(n.as_str()) {
                        mb.special_use = Some(su);
                    }
                }
                ok(tag, "CREATE completed")
            },
            Err(e) => {
                let mut t = crate::bytes::lit_vec("CREATE failed: ");
                push_lit(&mut t, e.message());
                let reply = no_bytes(tag, t.as_slice());
                assert(reply@ == no_spec(tag@, lit("CREATE failed: ") + store_error_text(e)));
                reply
            },
        }
    }

    fn cmd_delete(&mut self, tag: &[u8], name: &[u8]) -> (r: Vec<u8>)
        ensures
            final(self)@ == old(self)@,
            final(self).authenticator() == old(self).authenticator(),
            mailbox_op_reply(r@, tag@, lit("DELETE completed"), lit("DELETE failed: ")),
    {
        let n = lossy_string(name);
        match self.store.delete(n.as_str()) {
            Ok(()) => ok(tag, "DELETE completed"),
            Err(e) => {
                let mut t = crate::bytes::lit_vec("DELETE failed: ");
                push_lit(&mut t, e.message());
                let reply = no_bytes(tag, t.as_slice());
                assert(reply@ == no_spec(tag@, lit("DELETE failed: ") + store_error_text(e)));
                reply
            },
        }
    }

    fn cmd_rename(&mut self, tag: &[u8], from: &[u8], to: &[u8]) -> (r: Vec<u8>)
        ensures
            final(self)@ == old(self)@,
            final(self).authenticator() == old(self).authenticator(),
            mailbox_op_reply(r@, tag@, lit("RENAME completed"), lit("RENAME failed: ")),
    {
        let f = lossy_string(from);
        let t = lossy_string(to);
        match self.store.rename(f.as_str(), t.as_str()) {
            Ok(()) => ok(tag, "RENAME completed"),
            Err(e) => {
                let mut m = crate::bytes::lit_vec("RENAME failed: ");
                push_lit(&mut m, e.message());
                let reply = no_bytes(tag, m.as_slice());
                assert(reply@ == no_spec(tag@, lit("RENAME failed: ") + store_error_text(e)));
                reply
            },
        }
    }

    fn cmd_list(
        &self,
        tag: &[u8],
        pattern: &[u8],
        lsub: bool,
        return_opts: &Vec<Vec<u8>>,
        select_opts: &Vec<Vec<u8>>,
    ) -> (r: Vec<u8>)
        ensures
            ({
                let verb = if lsub { lit("LSUB") } else { lit("LIST") };
                &&& pattern@.len() == 0 ==> r@ == untagged_spec(verb + lit(" (\\Noselect) \"/\" \"\"")) + ok_spec(
                    tag@,
                    verb + lit(" completed"),
                )
                &&& ends_with(r@, ok_spec(tag@, verb + lit(" completed")))
            }),
    {
        let verb = if lsub { "LSUB" } else { "LIST" };
        let mut out: Vec<u8> = Vec::new();
        if pattern.len() == 0 {
            let mut t = crate::bytes::lit_vec(verb);
            push_lit(&mut t, " (\\Noselect) \"/\" \"\"");
            push_untagged(&mut out, t.as_slice());
            let mut d = crate::bytes::lit_vec(verb);
            push_lit(&mut d, " completed");
            let o = ok_bytes(tag, d.as_slice());
            let ghost pre = out@;
            push_all(&mut out, o.as_slice());
            proof {
                lemma_ends(pre, o@);
            }
            return out;
        }
        let up = upper_all(return_opts);
        let sel = upper_all(select_opts);
        let want_subscribed = any_is(&up, "SUBSCRIBED");
        let only_subscribed = any_is(&sel, "SUBSCRIBED");
        let only_special = any_is(&sel, "SPECIAL-USE");
        let status_items = list_status_items(&up);
        let pat = lossy_string(pattern);
        let names = self.store.mailbox_names();
        let mut status_lines: Vec<u8> = Vec::new();
        let mut i: usize = 0;
        while i < names.len()
            invariant
                i <= names@.len(),
            decreases names@.len() - i,
        {
            let name = names[i].as_str();
            if super::session::wildcard_match(pat.as_str(), name) {
                if let Some(mb) = self.store.mailbox(name) {
                    let attr = match mb.special_use {
                        Some(su) => su.attribute(),
                        None => None,
                    };
                    let skip = ((lsub || only_subscribed) && !mb.subscribed) || (only_special && attr.is_none());
                    if !skip {
                        let mut t = crate::bytes::lit_vec(verb);
                        push_lit(&mut t, " (");
                        if has_children(&names, name.as_bytes()) {
                            push_lit(&mut t, "\\HasChildren");
                        } else {
                            push_lit(&mut t, "\\HasNoChildren");
                        }
                        if (want_subscribed || lsub) && mb.subscribed {
                            push_lit(&mut t, " \\Subscribed");
                        }
                        if let Some(a) = attr {
                            push_lit(&mut t, " ");
                            push_lit(&mut t, a);
                        }
                        push_lit(&mut t, ") \"/\" ");
                        super::response::push_imap_string(&mut t, name.as_bytes());
                        push_untagged(&mut out, t.as_slice());
                        if let Some(items) = &status_items {
                            let l = status_line(mb, name.as_bytes(), items);
                            push_all(&mut status_lines, l.as_slice());
                        }
                    }
                }
            }
            i += 1;
        }
        push_all(&mut out, status_lines.as_slice());
        let mut d = crate::bytes::lit_vec(verb);
        push_lit(&mut d, " completed");
        let o = ok_bytes(tag, d.as_slice());
        let ghost pre = out@;
        push_all(&mut out, o.as_slice());
        proof {
            lemma_ends(pre, o@);
        }
        out
    }
}

/// Sort numbers ascending (insertion sort); the multiset is kept.
pub fn sort_u32(v: &mut Vec<u32>)
    ensures
        final(v)@.to_multiset() == old(v)@.to_multiset(),
        forall|a: int, b: int| 0 <= a < b < final(v)@.len() ==> final(v)@[a] <= final(v)@[b],
{
    let mut i: usize = 1;
    let n = v.len();
    if n == 0 {
        return;
    }
    while i < n
        invariant
            1 <= i <= n,
            n == v@.len(),
            v@.to_multiset() == old(v)@.to_multiset(),
            forall|a: int, b: int| 0 <= a < b < i ==> v@[a] <= v@[b],
        decreases n - i,
    {
        let mut j = i;
        while j > 0 && v[j - 1] > v[j]
            invariant
                0 <= j <= i < n,
                n == v@.len(),
                v@.to_multiset() == old(v)@.to_multiset(),
                forall|a: int, b: int| 0 <= a < b <= i && b != j ==> v@[a] <= v@[b],
                forall|a: int| j < a <= i ==> v@[j as int] < v@[a],
            decreases j,
        {
            let x = v[j - 1];
            let y = v[j];
            let ghost before = v@;
            v.set(j - 1, y);
            v.set(j, x);
            proof {
                assert(v@ =~= before.update(j - 1, y).update(j as int, x));
                lemma_swap_multiset(before, j - 1, j as int);
            }
            j -= 1;
        }
        i += 1;
    }
}

proof fn lemma_swap_multiset(s: Seq<u32>, a: int, b: int)
    requires
        0 <= a < b < s.len(),
    ensures
        s.update(a, s[b]).update(b, s[a]).to_multiset() == s.to_multiset(),
{
    broadcast use vstd::multiset::group_multiset_axioms;
    let t = s.update(a, s[b]);
    vstd::seq_lib::to_multiset_update(s, a, s[b]);
    vstd::seq_lib::to_multiset_update(t, b, s[a]);
    assert(t[b] == s[b]);
    s.to_multiset_ensures();
    assert(s.contains(s[a]));
    assert(s.to_multiset().count(s[a]) > 0);
    assert(s.to_multiset().insert(s[b]).remove(s[a]).insert(s[a]).remove(s[b]) =~= s.to_multiset());
}

/// The concatenated TEXT parts, when every part is TEXT.
pub open spec fn text_parts(ps: Seq<super::parser::CatPart>) -> Option<Seq<u8>>
    decreases ps.len(),
{
    if ps.len() == 0 {
        Some(seq![])
    } else {
        match (text_parts(ps.drop_last()), ps.last()) {
            (Some(t), super::parser::CatPart::Text(b)) => Some(t + b@),
            _ => None,
        }
    }
}

proof fn lemma_text_parts_prefix(ps: Seq<super::parser::CatPart>, k: int)
    requires
        0 <= k <= ps.len(),
        text_parts(ps) is Some,
    ensures
        text_parts(ps.take(k)) is Some,
        text_parts(ps.take(k))->0.len() <= text_parts(ps)->0.len(),
    decreases ps.len(),
{
    if k < ps.len() {
        assert(ps.drop_last().take(k) =~= ps.take(k));
        lemma_text_parts_prefix(ps.drop_last(), k);
    } else {
        assert(ps.take(k) =~= ps);
    }
}

proof fn lemma_text_parts_grow(ps: Seq<super::parser::CatPart>, k: int)
    requires
        0 < k <= ps.len(),
        text_parts(ps) is Some,
    ensures
        text_parts(ps.take(k - 1))->0.len() <= text_parts(ps.take(k))->0.len(),
{
    lemma_text_parts_prefix(ps, k);
    assert(ps.take(k).drop_last() =~= ps.take(k - 1));
}

/// The APPENDUID completion text (RFC 4315).
pub open spec fn appenduid_text(v: u32, u: u32) -> Seq<u8> {
    lit("[APPENDUID ") + dec_spec(v as nat) + seq![32u8] + dec_spec(u as nat) + lit("] APPEND completed")
}

/// The COPYUID completion text of COPY (RFC 4315): destination UIDVALIDITY, source and new UIDs.
pub open spec fn copyuid_text(v: u32, a: Seq<u32>, b: Seq<u32>) -> Seq<u8> {
    lit("[COPYUID ") + dec_spec(v as nat) + seq![32u8] + num_list(a, 44) + seq![32u8] + num_list(b, 44) + lit(
        "] COPY completed",
    )
}

/// The largest message a CATENATE may assemble (64 MiB), however small the command.
pub const MAX_APPEND_BYTES: usize = 67108864;

/// The parts of an IMAP URL (RFC 5092) `.../<mailbox>;UID=<n>[/;SECTION=<sec>]` that CATENATE
/// resolves against the local store: the mailbox, the UID and the section text.
fn split_imap_url(url: &[u8]) -> (r: Option<(Vec<u8>, u32, Option<Vec<u8>>)>)
    ensures
        r is Some ==> exists|k: int| crate::bytes::occurs_at(url@, lit(";UID="), k),
{
    let sl = "//".as_bytes();
    let ghost mut poff: int = 0;
    let path: &[u8] = match crate::bytes::find_sub(url, sl) {
        Some(k) => {
            let ulen = url.len();
            assert(k + sl@.len() <= ulen);
            let rest = crate::bytes::slice_of(url, k + sl.len(), ulen);
            match crate::bytes::find_byte(rest, 47) {
                Some(j) => {
                    let p = crate::bytes::slice_of(rest, j + 1, rest.len());
                    proof {
                        poff = k + sl@.len() + j + 1;
                        assert(url@.subrange(poff, poff + p@.len()) =~= p@);
                    }
                    p
                },
                None => {
                    proof {
                        poff = k + sl@.len();
                        assert(url@.subrange(poff, poff + rest@.len()) =~= rest@);
                    }
                    rest
                },
            }
        },
        None => {
            assert(url@.subrange(0, url@.len() as int) =~= url@);
            url
        },
    };
    assert(0 <= poff && poff + path@.len() <= url@.len() && url@.subrange(poff, poff + path@.len()) == path@);
    let key = ";UID=".as_bytes();
    let k = match crate::bytes::find_sub(path, key) {
        Some(k) => k,
        None => return None,
    };
    let plen = path.len();
    assert(k + key@.len() <= plen);
    let mailbox_part = crate::bytes::slice_of(path, 0, k);
    let rest = crate::bytes::slice_of(path, k + key.len(), plen);
    proof {
        let off = poff;
        assert(url@.subrange(off + k, off + k + key@.len()) =~= path@.subrange(k as int, k + key@.len()));
        assert(crate::bytes::occurs_at(url@, lit(";UID="), off + k));
    }
    let mut a: usize = 0;
    while a < mailbox_part.len() && mailbox_part[a] == 47
        invariant
            a <= mailbox_part@.len(),
        decreases mailbox_part@.len() - a,
    {
        a += 1;
    }
    let mailbox = to_vec(crate::bytes::slice_of(mailbox_part, a, mailbox_part.len()));
    let sk = "/;SECTION=".as_bytes();
    let (uid_str, section) = match crate::bytes::find_sub(rest, sk) {
        Some(j) => (
            crate::bytes::slice_of(rest, 0, j),
            Some(to_vec(crate::bytes::slice_of(rest, j + sk.len(), rest.len()))),
        ),
        None => (rest, None),
    };
    let mut e: usize = uid_str.len();
    while e > 0 && uid_str[e - 1] == 47
        invariant
            e <= uid_str@.len(),
        decreases e,
    {
        e -= 1;
    }
    match crate::bytes::parse_u32(crate::bytes::slice_of(uid_str, 0, e)) {
        Some(uid) => Some((mailbox, uid, section)),
        None => None,
    }
}

impl<S: MailStore, A: Authenticator> Session<S, A> {
    /// The bytes an IMAP URL names in this node's own store: the whole message, or a section.
    fn resolve_imap_url(&self, url: &[u8]) -> (r: Option<Vec<u8>>)
        ensures
            r is Some ==> exists|k: int| crate::bytes::occurs_at(url@, lit(";UID="), k),
    {
        let (mailbox, uid, section) = match split_imap_url(url) {
            Some(p) => p,
            None => return None,
        };
        let name = lossy_string(mailbox.as_slice());
        let mb = match self.store.mailbox(name.as_str()) {
            Some(mb) => mb,
            None => return None,
        };
        let msg = match mb.by_uid(uid) {
            Some(m) => m,
            None => return None,
        };
        match section {
            None => Some(to_vec(msg.raw.as_slice())),
            Some(sec) => {
                let st = lossy_string(sec.as_slice());
                let section = super::session::parse_url_section(st.as_str());
                let full = super::response::extract_section(msg.raw.as_slice(), &section);
                let bytes: &[u8] = match &full {
                    std::borrow::Cow::Borrowed(b) => b,
                    std::borrow::Cow::Owned(v) => v.as_slice(),
                };
                Some(to_vec(bytes))
            },
        }
    }

    /// Assemble a CATENATE message (RFC 4469): inline TEXT parts and the bytes each URL resolves
    /// to, in order; a URL that resolves to nothing, or a message over [`MAX_APPEND_BYTES`], is
    /// refused with the reason.
    fn build_catenate(&self, parts: &Vec<super::parser::CatPart>) -> (r: Result<Vec<u8>, &'static str>)
        ensures
            r matches Ok(v) ==> v@.len() <= MAX_APPEND_BYTES,
            r matches Err(m) ==> m@ == "[LIMIT] CATENATE message exceeds the append size limit"@ || m@
                == "[BADURL] CATENATE URL not resolvable on this node"@,
            text_parts(parts@) matches Some(t) ==> if t.len() <= MAX_APPEND_BYTES {
                r matches Ok(v) && v@ == t
            } else {
                r matches Err(m) && m@ == "[LIMIT] CATENATE message exceeds the append size limit"@
            },
    {
        let mut out: Vec<u8> = Vec::new();
        let mut i: usize = 0;
        while i < parts.len()
            invariant
                i <= parts@.len(),
                out@.len() <= MAX_APPEND_BYTES,
                text_parts(parts@) is Some ==> text_parts(parts@.take(i as int)) == Some(out@),
            decreases parts@.len() - i,
        {
            proof {
                assert(parts@.take(i + 1).drop_last() =~= parts@.take(i as int));
                assert(parts@.take(i + 1).last() == parts@[i as int]);
                if text_parts(parts@) is Some {
                    lemma_text_parts_prefix(parts@, i + 1);
                    lemma_text_parts_prefix(parts@, i as int);
                    lemma_text_parts_grow(parts@, i + 1);
                }
            }
            match &parts[i] {
                super::parser::CatPart::Text(bytes) => {
                    if bytes.len() > MAX_APPEND_BYTES - out.len() {
                        return Err("[LIMIT] CATENATE message exceeds the append size limit");
                    }
                    push_all(&mut out, bytes.as_slice());
                },
                super::parser::CatPart::Url(url) => match self.resolve_imap_url(url.as_slice()) {
                    Some(bytes) => {
                        if bytes.len() > MAX_APPEND_BYTES - out.len() {
                            return Err("[LIMIT] CATENATE message exceeds the append size limit");
                        }
                        push_all(&mut out, bytes.as_slice());
                    },
                    None => return Err("[BADURL] CATENATE URL not resolvable on this node"),
                },
            }
            i += 1;
        }
        assert(parts@.take(i as int) =~= parts@);
        Ok(out)
    }

    fn cmd_append(
        &mut self,
        tag: &[u8],
        name: &[u8],
        flags: Vec<crate::store::Flag>,
        date: &Option<Vec<u8>>,
        message: Vec<u8>,
        catenate: &Option<Vec<super::parser::CatPart>>,
    ) -> (r: Vec<u8>)
        ensures
            final(self)@ == old(self)@,
            final(self).authenticator() == old(self).authenticator(),
            r@ == no_spec(tag@, lit("[LIMIT] CATENATE message exceeds the append size limit")) || r@ == no_spec(
                tag@,
                lit("[BADURL] CATENATE URL not resolvable on this node"),
            ) || r@ == no_spec(tag@, lit("[TRYCREATE] no such mailbox")) || r@ == no_spec(
                tag@,
                lit("[LIMIT] mailbox UID or modseq space exhausted"),
            ) || exists|v: u32, u: u32| r@ == ok_spec(tag@, #[trigger] appenduid_text(v, u)),
    {
        let ts: u64 = match date {
            Some(d) => {
                let t = lossy_string(d.as_slice());
                match super::session::parse_internal_date(t.as_str()) {
                    Some(v) => v,
                    None => 0,
                }
            },
            None => 0,
        };
        let message = match catenate {
            Some(parts) => match self.build_catenate(parts) {
                Ok(bytes) => bytes,
                Err(msg) => {
                    let reply = no(tag, msg);
                    assert(lit(msg) == lit("[LIMIT] CATENATE message exceeds the append size limit") || lit(msg) == lit(
                        "[BADURL] CATENATE URL not resolvable on this node",
                    ));
                    return reply;
                },
            },
            None => message,
        };
        let n = lossy_string(name);
        let mb = match self.store.mailbox_mut(n.as_str()) {
            Some(mb) => mb,
            None => return no(tag, "[TRYCREATE] no such mailbox"),
        };
        if mb.uid_next == u32::MAX || mb.highest_modseq == u64::MAX {
            return no(tag, "[LIMIT] mailbox UID or modseq space exhausted");
        }
        let uidvalidity = mb.uid_validity;
        let uid = mb.append(message, flags, ts);
        let mut t = crate::bytes::lit_vec("[APPENDUID ");
        push_dec(&mut t, uidvalidity as usize);
        t.push(32);
        push_dec(&mut t, uid as usize);
        push_lit(&mut t, "] APPEND completed");
        let reply = ok_bytes(tag, t.as_slice());
        assert(reply@ == ok_spec(tag@, appenduid_text(uidvalidity, uid)));
        reply
    }

    fn require_selected(&self, tag: &[u8], done: &str) -> (r: Vec<u8>)
        ensures
            r@ == if self@.selected is Some {
                ok_spec(tag@, lit(done))
            } else {
                bad_spec(tag@, lit("no mailbox selected"))
            },
    {
        if self.selected.is_some() {
            ok(tag, done)
        } else {
            bad(tag, "no mailbox selected")
        }
    }

    fn selected_name(&self) -> (r: Option<String>)
        ensures
            match r {
                Some(n) => self@.selected == Some(n@),
                None => self@.selected is None,
            },
    {
        match &self.selected {
            Some(n) => Some(n.clone()),
            None => None,
        }
    }

    fn cmd_close(&mut self, tag: &[u8], expunge: bool) -> (r: Vec<u8>)
        ensures
            final(self).authenticator() == old(self).authenticator(),
            old(self)@.selected is None ==> final(self)@ == old(self)@,
            old(self)@.selected is Some ==> final(self)@ == (ImapView {
                selected: None,
                state: State::Authenticated,
                saved: seq![],
                ..old(self)@
            }),
    {
        let verb = if expunge { "CLOSE" } else { "UNSELECT" };
        let name = match self.selected_name() {
            Some(n) => n,
            None => {
                let mut t = crate::bytes::lit_vec(verb);
                push_lit(&mut t, " without a selected mailbox");
                return bad_bytes(tag, t.as_slice());
            },
        };
        if expunge && !self.read_only {
            if let Some(mb) = self.store.mailbox_mut(name.as_str()) {
                let mut i: usize = mb.messages.len();
                while i > 0
                    invariant
                        i <= mb.messages@.len(),
                    decreases i,
                {
                    if mb.messages[i - 1].has_flag(&crate::store::Flag::Deleted) && mb.highest_modseq < u64::MAX {
                        mb.remove_at(i - 1);
                    }
                    i -= 1;
                }
            }
        }
        self.selected = None;
        self.state = State::Authenticated;
        self.saved_search = Vec::new();
        assert(self@ =~= (ImapView { selected: None, state: State::Authenticated, saved: seq![], ..old(self)@ }));
        let mut t = crate::bytes::lit_vec(verb);
        push_lit(&mut t, " completed");
        ok_bytes(tag, t.as_slice())
    }

    /// `$` (RFC 5182) replaced by the saved result: the saved UIDs for a UID command, their
    /// current sequence numbers in the selected mailbox otherwise.
    fn materialize(&self, set: &super::sequence::SequenceSet, uid_mode: bool) -> (r: super::sequence::SequenceSet)
        ensures
            !set@.1 ==> r@ == set@,
            set@.1 ==> !r@.1,
            set@.1 && uid_mode ==> forall|v: u32, m: u32| #[trigger] r.has(v, m) <==> self@.saved.contains(v),
    {
        if !set.is_saved() {
            return set.copy();
        }
        if uid_mode {
            return super::sequence::SequenceSet::from_uids(self.saved_search.as_slice());
        }
        let mut seqs: Vec<u32> = Vec::new();
        if let Some(n) = &self.selected {
            if let Some(mb) = self.store.mailbox(n.as_str()) {
                let mut i: usize = 0;
                while i < self.saved_search.len()
                    invariant
                        i <= self.saved_search@.len(),
                    decreases self.saved_search@.len() - i,
                {
                    if let Some(sq) = mb.seq_of_uid(self.saved_search[i]) {
                        seqs.push(sq as u32);
                    }
                    i += 1;
                }
            }
        }
        super::sequence::SequenceSet::from_uids(seqs.as_slice())
    }

    fn cmd_expunge(&mut self, tag: &[u8], uid_set: &Option<super::sequence::SequenceSet>) -> (r: Vec<u8>)
        ensures
            old(self)@.selected is None ==> final(self).store_spec() == old(self).store_spec(),
            old(self)@.selected matches Some(n) ==> removes_only(
                old(self).store_spec().model(),
                n,
                final(self).store_spec().model(),
            ),
            old(self)@.selected is Some && old(self)@.read_only ==> r@ == no_spec(tag@, lit("mailbox is read-only"))
                && final(self).store_spec() == old(self).store_spec(),
            final(self)@ == old(self)@,
            final(self).authenticator() == old(self).authenticator(),
    {
        let ghost m = self.store.model();
        let name = match self.selected_name() {
            Some(n) => n,
            None => return bad(tag, "no mailbox selected"),
        };
        proof {
            lemma_removes_only_refl(m, name@);
        }
        if self.read_only {
            return no(tag, "mailbox is read-only");
        }
        let qresync = self.qresync;
        let set = match uid_set {
            Some(s) => Some(self.materialize(s, true)),
            None => None,
        };
        let mb = match self.store.mailbox_mut(name.as_str()) {
            Some(m) => m,
            None => return bad(tag, "no mailbox selected"),
        };
        let ghost b0 = *mb;
        let max_uid = mb.max_uid();
        let mut to_remove: Vec<usize> = Vec::new();
        let mut i: usize = 0;
        while i < mb.messages.len()
            invariant
                i <= mb.messages@.len(),
                forall|k: int| 0 <= k < to_remove@.len() ==> to_remove@[k] < i,
                *mb == b0,
            decreases mb.messages@.len() - i,
        {
            let deleted = mb.messages[i].has_flag(&crate::store::Flag::Deleted);
            let in_set = match &set {
                Some(s) => s.contains(mb.messages[i].uid, max_uid),
                None => true,
            };
            if deleted && in_set {
                to_remove.push(i);
            }
            i += 1;
        }
        let mut out: Vec<u8> = Vec::new();
        let mut vanished: Vec<u32> = Vec::new();
        let mut k: usize = to_remove.len();
        assert(shrinks(b0, *mb));
        while k > 0
            invariant
                k <= to_remove@.len(),
                forall|a: int| 0 <= a < to_remove@.len() ==> to_remove@[a] < usize::MAX,
                shrinks(b0, *mb),
            decreases k,
        {
            let ghost before = *mb;
            let idx = to_remove[k - 1];
            if !qresync {
                let mut t: Vec<u8> = Vec::new();
                push_dec(&mut t, idx + 1);
                push_lit(&mut t, " EXPUNGE");
                push_untagged(&mut out, t.as_slice());
            }
            let ghost mut did = false;
            if mb.highest_modseq < u64::MAX {
                if let Some(uid) = mb.remove_at(idx) {
                    proof {
                        did = true;
                    }
                    vanished.push(uid);
                }
            }
            proof {
                assert forall|q: int| 0 <= q < mb.messages@.len() implies b0.messages@.contains(
                    #[trigger] mb.messages@[q],
                ) by {
                    if did {
                        let bq = if q < idx { q } else { q + 1 };
                        assert(mb.messages@[q] == before.messages@[bq]);
                        assert(before.messages@.contains(before.messages@[bq]));
                    } else {
                        assert(before.messages@.contains(before.messages@[q]));
                    }
                }
            }
            k -= 1;
        }
        if qresync && vanished.len() > 0 {
            sort_u32(&mut vanished);
            let mut t = crate::bytes::lit_vec("VANISHED ");
            let set = super::session::to_sequence_set(vanished.as_slice());
            push_all(&mut t, set.as_str().as_bytes());
            push_untagged(&mut out, t.as_slice());
        }
        let o = ok(tag, "EXPUNGE completed");
        let ghost pre = out@;
        push_all(&mut out, o.as_slice());
        proof {
            lemma_ends(pre, o@);
        }
        out
    }
}

/// Whether a CHARSET argument names one the evaluator honours (US-ASCII or UTF-8).
/// Whether a CHARSET argument is US-ASCII or UTF-8 (ignoring ASCII case), or absent.
pub open spec fn charset_ok_spec(charset: Option<Seq<u8>>) -> bool {
    match charset {
        Some(cs) => {
            let up = crate::bytes::upper_seq(cs);
            up == lit("UTF-8") || up == lit("US-ASCII") || up == lit("ASCII")
        },
        None => true,
    }
}

fn charset_ok(charset: &Option<Vec<u8>>) -> (r: bool)
    ensures
        r == charset_ok_spec(ov(*charset)),
{
    match charset {
        Some(cs) => {
            let up = crate::bytes::to_upper(cs.as_slice());
            crate::bytes::is_lit(up.as_slice(), "UTF-8") || crate::bytes::is_lit(up.as_slice(), "US-ASCII")
                || crate::bytes::is_lit(up.as_slice(), "ASCII")
        },
        None => true,
    }
}

/// The indices of the messages of a mailbox that match a search key.
/// The search coordinates of the message at index `i`: sequence number `i + 1`, the message
/// count, its UID and the highest UID.
pub open spec fn ctx_at(mb: &Mailbox, i: int) -> crate::search::SearchCtx {
    crate::search::SearchCtx {
        seq: (i + 1) as u32,
        max_seq: mb.messages@.len() as u32,
        uid: mb.messages@[i].uid,
        max_uid: if mb.messages@.len() == 0 { 0 } else { mb.messages@.last().uid },
        msg: &mb.messages@[i],
    }
}

fn matching(mb: &Mailbox, key: &crate::search::SearchKey, saved: &[u32]) -> (r: Vec<usize>)
    ensures
        forall|k: int| 0 <= k < r@.len() ==> r@[k] < mb.messages@.len(),
        forall|a: int, b: int| 0 <= a < b < r@.len() ==> r@[a] < r@[b],
        forall|i: int| 0 <= i < mb.messages@.len() ==> (r@.contains(i as usize) <==> crate::search::eval_spec(
            *key,
            #[trigger] ctx_at(mb, i),
            saved@,
        )),
{
    let max_seq = mb.exists_count() as u32;
    let max_uid = mb.max_uid();
    let mut out: Vec<usize> = Vec::new();
    let mut i: usize = 0;
    while i < mb.messages.len()
        invariant
            i <= mb.messages@.len(),
            max_seq == mb.messages@.len() as u32,
            max_uid == (if mb.messages@.len() == 0 { 0 } else { mb.messages@.last().uid }),
            forall|k: int| 0 <= k < out@.len() ==> out@[k] < i,
            forall|a: int, b: int| 0 <= a < b < out@.len() ==> out@[a] < out@[b],
            forall|j: int| 0 <= j < i ==> (out@.contains(j as usize) <==> crate::search::eval_spec(
                *key,
                #[trigger] ctx_at(mb, j),
                saved@,
            )),
        decreases mb.messages@.len() - i,
    {
        let m = &mb.messages[i];
        let ctx = crate::search::SearchCtx::new((i + 1) as u32, max_seq, m.uid, max_uid, m);
        assert(ctx == ctx_at(mb, i as int));
        let ghost before = out@;
        if crate::search::eval_saved(key, &ctx, saved) {
            out.push(i);
        }
        assert forall|j: int| 0 <= j < i + 1 implies (out@.contains(j as usize) <==> crate::search::eval_spec(
            *key,
            #[trigger] ctx_at(mb, j),
            saved@,
        )) by {
            if j < i {
                if out@.contains(j as usize) {
                    let k = choose|k: int| 0 <= k < out@.len() && out@[k] == j as usize;
                    if k < before.len() {
                        assert(before[k] == j as usize);
                    }
                }
                if before.contains(j as usize) {
                    let k = choose|k: int| 0 <= k < before.len() && before[k] == j as usize;
                    assert(out@[k] == j as usize);
                }
            } else {
                if out@.contains(j as usize) {
                    let k = choose|k: int| 0 <= k < out@.len() && out@[k] == j as usize;
                    if k < before.len() {
                        assert(before[k] < i);
                    }
                }
                if out@.len() > before.len() {
                    assert(out@[before.len() as int] == i);
                }
            }
        }
        i += 1;
    }
    out
}

/// The ESEARCH line (RFC 4731 / RFC 9051 §6.4.4) for the requested return items.
/// The least of a non-empty list of numbers.
pub open spec fn seq_min(s: Seq<u32>) -> u32
    decreases s.len(),
{
    if s.len() <= 1 {
        s[0]
    } else if s.last() < seq_min(s.drop_last()) {
        s.last()
    } else {
        seq_min(s.drop_last())
    }
}

/// The greatest of a non-empty list of numbers.
pub open spec fn seq_max(s: Seq<u32>) -> u32
    decreases s.len(),
{
    if s.len() <= 1 {
        s[0]
    } else if s.last() > seq_max(s.drop_last()) {
        s.last()
    } else {
        seq_max(s.drop_last())
    }
}

/// Whether one of the (upper-cased) return options is `w`.
pub open spec fn asks(up: Seq<Vec<u8>>, w: &str) -> bool {
    exists|i: int| 0 <= i < up.len() && up[i]@ == lit(w)
}

/// The ESEARCH line up to its ALL part: the tag, UID for a UID SEARCH, then MIN, MAX (when
/// there are hits) and COUNT as asked.
pub open spec fn esearch_head(tag: Seq<u8>, uid: bool, up: Seq<Vec<u8>>, hits: Seq<u32>) -> Seq<u8> {
    lit("ESEARCH (TAG \"") + tag + lit("\")") + (if uid { lit(" UID") } else { seq![] }) + (if hits.len() > 0 && asks(
        up,
        "MIN",
    ) {
        lit(" MIN ") + dec_spec(seq_min(hits) as nat)
    } else {
        seq![]
    }) + (if hits.len() > 0 && asks(up, "MAX") {
        lit(" MAX ") + dec_spec(seq_max(hits) as nat)
    } else {
        seq![]
    }) + (if asks(up, "COUNT") {
        lit(" COUNT ") + dec_spec(hits.len())
    } else {
        seq![]
    })
}

/// Whether the ALL part is given: asked for, or nothing else was.
pub open spec fn wants_all(up: Seq<Vec<u8>>) -> bool {
    asks(up, "ALL") || !(asks(up, "MIN") || asks(up, "MAX") || asks(up, "COUNT"))
}

fn min_max(hits: &Vec<u32>) -> (r: (u32, u32))
    requires
        hits@.len() > 0,
    ensures
        r == (seq_min(hits@), seq_max(hits@)),
{
    let mut lo = hits[0];
    let mut hi = hits[0];
    let mut i: usize = 1;
    assert(hits@.take(1).len() == 1);
    while i < hits.len()
        invariant
            1 <= i <= hits@.len(),
            lo == seq_min(hits@.take(i as int)),
            hi == seq_max(hits@.take(i as int)),
        decreases hits@.len() - i,
    {
        assert(hits@.take(i + 1).drop_last() =~= hits@.take(i as int));
        if hits[i] < lo {
            lo = hits[i];
        }
        if hits[i] > hi {
            hi = hits[i];
        }
        i += 1;
    }
    assert(hits@.take(i as int) =~= hits@);
    (lo, hi)
}

fn esearch_head_bytes(tag: &[u8], uid: bool, up: &Vec<Vec<u8>>, hits: &Vec<u32>) -> (r: Vec<u8>)
    ensures
        r@ == esearch_head(tag@, uid, up@, hits@),
{
    let mut t = crate::bytes::lit_vec("ESEARCH (TAG \"");
    push_all(&mut t, tag);
    push_lit(&mut t, "\")");
    let ghost s0 = t@;
    if uid {
        push_lit(&mut t, " UID");
    }
    let ghost s1 = t@;
    assert(s1 == s0 + (if uid { lit(" UID") } else { seq![] })) by {
        if !uid {
            assert(s0 + Seq::<u8>::empty() =~= s0);
        }
    }
    let want_min = any_is(up, "MIN");
    let want_max = any_is(up, "MAX");
    let want_count = any_is(up, "COUNT");
    let mut mn: Vec<u8> = Vec::new();
    let mut mx: Vec<u8> = Vec::new();
    if hits.len() > 0 {
        let (lo, hi) = min_max(hits);
        if want_min {
            push_lit(&mut mn, " MIN ");
            push_dec(&mut mn, lo as usize);
        }
        if want_max {
            push_lit(&mut mx, " MAX ");
            push_dec(&mut mx, hi as usize);
        }
    }
    assert(mn@ == (if hits@.len() > 0 && asks(up@, "MIN") { lit(" MIN ") + dec_spec(seq_min(hits@) as nat) } else { seq![] }));
    assert(mx@ == (if hits@.len() > 0 && asks(up@, "MAX") { lit(" MAX ") + dec_spec(seq_max(hits@) as nat) } else { seq![] }));
    let mut ct: Vec<u8> = Vec::new();
    if want_count {
        push_lit(&mut ct, " COUNT ");
        push_dec(&mut ct, hits.len());
    }
    assert(ct@ == (if asks(up@, "COUNT") { lit(" COUNT ") + dec_spec(hits@.len()) } else { seq![] }));
    push_all(&mut t, mn.as_slice());
    push_all(&mut t, mx.as_slice());
    push_all(&mut t, ct.as_slice());
    t
}

fn esearch_line(tag: &[u8], uid: bool, up: &Vec<Vec<u8>>, hits: &Vec<u32>) -> (r: Vec<u8>)
    ensures
        !(wants_all(up@) && hits@.len() > 0) ==> r@ == untagged_spec(esearch_head(tag@, uid, up@, hits@)),
        wants_all(up@) && hits@.len() > 0 ==> exists|v: Seq<u32>|
            (forall|a: int, b: int| 0 <= a < b < v.len() ==> v[a] < v[b]) && (forall|x: u32| v.contains(x) <==> hits@.contains(x))
                && r@ == untagged_spec(esearch_head(tag@, uid, up@, hits@) + lit(" ALL ") + crate::bytes::utf8(
                crate::text::utf8_lossy(#[trigger] super::session::seqset_spec(v)),
            )),
{
    let mut t = esearch_head_bytes(tag, uid, up, hits);
    let wants = any_is(up, "ALL") || !(any_is(up, "MIN") || any_is(up, "MAX") || any_is(up, "COUNT"));
    if wants && hits.len() > 0 {
        let ghost h = t@;
        push_lit(&mut t, " ALL ");
        let set = super::session::to_sequence_set_of(hits.as_slice());
        push_all(&mut t, set.as_str().as_bytes());
        let r = untagged(t.as_slice());
        proof {
            let v = choose|v: Seq<u32>|
                (forall|a: int, b: int| 0 <= a < b < v.len() ==> v[a] < v[b]) && (forall|x: u32| v.contains(x) <==> hits@.contains(x))
                    && set@ == crate::text::utf8_lossy(#[trigger] super::session::seqset_spec(v));
            assert(r@ == untagged_spec(h + lit(" ALL ") + crate::bytes::utf8(crate::text::utf8_lossy(super::session::seqset_spec(v)))));
        }
        return r;
    }
    untagged(t.as_slice())
}

/// A message's UID, bytes, flags and date, copied for COPY/MOVE.
struct CopyItem {
    uid: u32,
    raw: Vec<u8>,
    flags: Vec<crate::store::Flag>,
    internal_date: u64,
}

/// `c` is a copy of message `m`: its UID, bytes, date and (the same) flags.
spec fn copy_of(c: CopyItem, m: crate::store::Message) -> bool {
    &&& c.uid == m.uid
    &&& c.raw@ == m.raw@
    &&& c.internal_date == m.internal_date
    &&& c.flags@.len() == m.flags@.len()
    &&& forall|k: int| 0 <= k < m.flags@.len() ==> crate::store::same_flag(#[trigger] c.flags@[k], m.flags@[k])
}

/// `items` are copies of the messages of `mb` that `set` addresses, in mailbox order.
spec fn copies_of(items: Seq<CopyItem>, mb: Mailbox, set: super::sequence::SequenceSet, uid_mode: bool) -> bool {
    exists|ts: Seq<usize>| {
        &&& ts.len() == items.len()
        &&& (forall|a: int, b: int| 0 <= a < b < ts.len() ==> ts[a] < ts[b])
        &&& (forall|j: int| 0 <= j < ts.len() ==> super::session::targeted(mb, set, uid_mode, #[trigger] ts[j] as int))
        &&& (forall|i: int| super::session::targeted(mb, set, uid_mode, i) ==> ts.contains(i as usize))
        &&& (forall|j: int| 0 <= j < ts.len() ==> copy_of(#[trigger] items[j], mb.messages@[ts[j] as int]))
    }
}

/// `items` are the copies a COPY or MOVE of `set` takes from some mailbox (the selected one, as
/// the store gave it), with that mailbox's UIDVALIDITY `v`; the set is `set` itself unless it is
/// the saved result `$`.
spec fn collected(items: Seq<CopyItem>, v: u32, set: super::sequence::SequenceSet, uid_mode: bool) -> bool {
    exists|mb: Mailbox, s2: super::sequence::SequenceSet| #[trigger] copies_of(items, mb, s2, uid_mode)
        && v == mb.uid_validity && (!set@.1 ==> s2@ == set@)
}

/// The mailbox `b` with messages appended: its own messages kept in front, the new ones under
/// the UIDs that came next, nothing else changed.
pub open spec fn grows(b: Mailbox, nb: Mailbox) -> bool {
    let n0 = b.messages@.len() as int;
    &&& n0 <= nb.messages@.len()
    &&& nb.messages@.subrange(0, n0) == b.messages@
    &&& forall|p: int| n0 <= p < nb.messages@.len() ==> (#[trigger] nb.messages@[p]).uid == b.uid_next + (p - n0)
    &&& nb.uid_next == b.uid_next + (nb.messages@.len() - n0)
    &&& nb.name == b.name
    &&& nb.special_use == b.special_use
    &&& nb.uid_validity == b.uid_validity
    &&& nb.subscribed == b.subscribed
    &&& nb.expunged == b.expunged
}

/// The store `m2` is `m` with only the mailbox `d` grown by appended messages (unchanged when
/// there is no such mailbox): every other mailbox, the source of a COPY among them, as it was.
pub open spec fn appends_only(m: crate::store::StoreView, d: Seq<char>, m2: crate::store::StoreView) -> bool {
    match crate::store::lookup(m, d) {
        None => m2 == m,
        Some(b) => exists|nb: Mailbox| #[trigger]
            grows(b, nb) && m2.entries == crate::store::put_box(m, d, nb).entries && m2.next_uid_validity
                == m.next_uid_validity,
    }
}

/// Leaving the store as it was only appends nothing.
pub proof fn lemma_appends_only_refl(m: crate::store::StoreView, d: Seq<char>)
    ensures
        appends_only(m, d, m),
{
    if let Some(b) = crate::store::lookup(m, d) {
        let k = crate::store::key_index(m.entries, d, 0);
        crate::store::lemma_key_index(m.entries, d, 0);
        assert(m.entries.update(k, (m.entries[k].0, b)) =~= m.entries);
        assert(b.messages@.subrange(0, b.messages@.len() as int) =~= b.messages@);
        assert(grows(b, b));
    }
}

/// The mailbox `b` with some of its messages removed: the ones left are among its own,
/// unchanged, and the UIDs still to come are the same.
pub open spec fn shrinks(b: Mailbox, nb: Mailbox) -> bool {
    &&& nb.messages@.len() <= b.messages@.len()
    &&& forall|i: int| 0 <= i < nb.messages@.len() ==> b.messages@.contains(#[trigger] nb.messages@[i])
    &&& nb.uid_next == b.uid_next
    &&& nb.name == b.name
    &&& nb.special_use == b.special_use
    &&& nb.uid_validity == b.uid_validity
    &&& nb.subscribed == b.subscribed
}

/// The store `m2` is `m` with, at most, messages removed from the mailbox `n`: every other
/// mailbox as it was.
pub open spec fn removes_only(m: crate::store::StoreView, n: Seq<char>, m2: crate::store::StoreView) -> bool {
    match crate::store::lookup(m, n) {
        None => m2 == m,
        Some(b) => exists|nb: Mailbox| #[trigger]
            shrinks(b, nb) && m2.entries == crate::store::put_box(m, n, nb).entries && m2.next_uid_validity
                == m.next_uid_validity,
    }
}

/// Leaving the store as it was removes nothing.
pub proof fn lemma_removes_only_refl(m: crate::store::StoreView, n: Seq<char>)
    ensures
        removes_only(m, n, m),
{
    if let Some(b) = crate::store::lookup(m, n) {
        let k = crate::store::key_index(m.entries, n, 0);
        crate::store::lemma_key_index(m.entries, n, 0);
        assert(m.entries.update(k, (m.entries[k].0, b)) =~= m.entries);
        assert(shrinks(b, b));
    }
}

/// Message `c` is `a` with its flags as a STORE of `fs` with `op` leaves them (and a new modseq).
pub open spec fn restamped(a: crate::store::Message, op: super::parser::StoreOp, fs: Seq<crate::store::Flag>, c: crate::store::Message) -> bool {
    &&& c.uid == a.uid
    &&& c.raw@ == a.raw@
    &&& c.internal_date == a.internal_date
    &&& c.created_modseq == a.created_modseq
    &&& forall|g: crate::store::Flag| #[trigger] crate::store::has_flag_spec(c.flags@, g) == super::fetch::stored_has(a.flags@, op, fs, g)
}

/// The mailbox `b` after a STORE: the same messages in the same places, each as it was or with
/// its flags stored; nothing else changed but the modseq counter.
pub open spec fn flags_stored(b: Mailbox, op: super::parser::StoreOp, fs: Seq<crate::store::Flag>, nb: Mailbox) -> bool {
    &&& nb.messages@.len() == b.messages@.len()
    &&& forall|j: int| 0 <= j < b.messages@.len() ==> #[trigger] nb.messages@[j] == b.messages@[j] || restamped(
        b.messages@[j],
        op,
        fs,
        nb.messages@[j],
    )
    &&& nb.uid_next == b.uid_next
    &&& nb.name == b.name
    &&& nb.special_use == b.special_use
    &&& nb.uid_validity == b.uid_validity
    &&& nb.subscribed == b.subscribed
    &&& nb.expunged == b.expunged
}

/// The store `m2` is `m` with, at most, the flags of messages of the mailbox `n` stored.
pub open spec fn stores_only(
    m: crate::store::StoreView,
    n: Seq<char>,
    op: super::parser::StoreOp,
    fs: Seq<crate::store::Flag>,
    m2: crate::store::StoreView,
) -> bool {
    match crate::store::lookup(m, n) {
        None => m2 == m,
        Some(b) => exists|nb: Mailbox| #[trigger]
            flags_stored(b, op, fs, nb) && m2.entries == crate::store::put_box(m, n, nb).entries
                && m2.next_uid_validity == m.next_uid_validity,
    }
}

/// Leaving the store as it was stores nothing.
pub proof fn lemma_stores_only_refl(m: crate::store::StoreView, n: Seq<char>, op: super::parser::StoreOp, fs: Seq<crate::store::Flag>)
    ensures
        stores_only(m, n, op, fs, m),
{
    if let Some(b) = crate::store::lookup(m, n) {
        let k = crate::store::key_index(m.entries, n, 0);
        crate::store::lemma_key_index(m.entries, n, 0);
        assert(m.entries.update(k, (m.entries[k].0, b)) =~= m.entries);
        assert(flags_stored(b, op, fs, b));
    }
}

/// The store `m2` is `m` after appending to the mailbox `dest` and then removing messages from
/// the mailbox `src` (a MOVE): every other mailbox as it was.
pub open spec fn moves_only(
    m: crate::store::StoreView,
    src: Seq<char>,
    dest: Seq<char>,
    m2: crate::store::StoreView,
) -> bool {
    exists|m1: crate::store::StoreView| #[trigger] appends_only(m, dest, m1) && removes_only(m1, src, m2)
}

/// What a command does to the store beyond the session, from the state `s`: COPY only appends
/// to its destination; STORE only changes flags of the selected mailbox's messages; MOVE only appends to its destination and removes from the selected
/// mailbox; EXPUNGE and UID EXPUNGE only remove messages of the selected mailbox (and the last
/// two change nothing without a selection).
pub open spec fn store_effect(s: ImapView, m: crate::store::StoreView, c: Command, m2: crate::store::StoreView) -> bool {
    match c {
        Command::Copy { mailbox, .. } => appends_only(m, crate::text::utf8_lossy(mailbox@), m2),
        Command::Store(sc) => match s.selected {
            Some(n) => stores_only(m, n, sc.op, sc.flags@, m2),
            None => m2 == m,
        },
        Command::Move { mailbox, .. } => match s.selected {
            Some(n) => moves_only(m, n, crate::text::utf8_lossy(mailbox@), m2),
            None => m2 == m,
        },
        Command::Expunge | Command::UidExpunge(_) => match s.selected {
            Some(n) => removes_only(m, n, m2),
            None => m2 == m,
        },
        _ => true,
    }
}

/// The destination mailbox `b` after the first `j` copies of `items` went in: its messages
/// kept in front, the copies after them under the next UIDs with their bytes, flags and dates;
/// the UID and modseq counters moved on by `j`, nothing else changed.
spec fn copy_dest_upto(b: Mailbox, items: Seq<CopyItem>, nb: Mailbox, j: int) -> bool {
    let n0 = b.messages@.len() as int;
    &&& 0 <= j <= items.len()
    &&& nb.messages@.len() == n0 + j
    &&& nb.messages@.subrange(0, n0) == b.messages@
    &&& forall|p: int| n0 <= p < nb.messages@.len() ==> {
        &&& (#[trigger] nb.messages@[p]).raw@ == items[p - n0].raw@
        &&& nb.messages@[p].flags@ == items[p - n0].flags@
        &&& nb.messages@[p].internal_date == items[p - n0].internal_date
        &&& nb.messages@[p].uid == b.uid_next + (p - n0)
    }
    &&& nb.uid_next == b.uid_next + j
    &&& nb.highest_modseq == b.highest_modseq + j
    &&& nb.name == b.name
    &&& nb.special_use == b.special_use
    &&& nb.uid_validity == b.uid_validity
    &&& nb.subscribed == b.subscribed
    &&& nb.expunged == b.expunged
}

proof fn lemma_copy_dest_grows(b: Mailbox, items: Seq<CopyItem>, nb: Mailbox, full: bool)
    requires
        copy_dest(b, items, nb, full),
    ensures
        grows(b, nb),
{
    let j = choose|j: int| #[trigger] copy_dest_upto(b, items, nb, j) && (full ==> j == items.len());
}

/// The destination after a COPY or MOVE appended some of the copies (all of them when `full`).
spec fn copy_dest(b: Mailbox, items: Seq<CopyItem>, nb: Mailbox, full: bool) -> bool {
    exists|j: int| #[trigger] copy_dest_upto(b, items, nb, j) && (full ==> j == items.len())
}

fn copy_flags(fs: &Vec<crate::store::Flag>) -> (r: Vec<crate::store::Flag>)
    ensures
        r@.len() == fs@.len(),
        forall|k: int| 0 <= k < fs@.len() ==> crate::store::same_flag(#[trigger] r@[k], fs@[k]),
{
    let mut out: Vec<crate::store::Flag> = Vec::new();
    let mut i: usize = 0;
    while i < fs.len()
        invariant
            i <= fs@.len(),
            out@.len() == i,
            forall|k: int| 0 <= k < i ==> crate::store::same_flag(#[trigger] out@[k], fs@[k]),
        decreases fs@.len() - i,
    {
        out.push(super::fetch::flag_copy(&fs[i]));
        i += 1;
    }
    out
}

/// Numbers in decimal joined by `sep`.
pub open spec fn num_list(nums: Seq<u32>, sep: u8) -> Seq<u8>
    decreases nums.len(),
{
    if nums.len() == 0 {
        seq![]
    } else if nums.len() == 1 {
        dec_spec(nums[0] as nat)
    } else {
        num_list(nums.drop_last(), sep) + seq![sep] + dec_spec(nums.last() as nat)
    }
}

fn push_num_list(out: &mut Vec<u8>, nums: &Vec<u32>, sep: u8)
    ensures
        final(out)@ == old(out)@ + num_list(nums@, sep),
{
    let ghost o0 = out@;
    let mut i: usize = 0;
    assert(nums@.take(0) =~= Seq::<u32>::empty());
    while i < nums.len()
        invariant
            i <= nums@.len(),
            out@ == o0 + num_list(nums@.take(i as int), sep),
        decreases nums@.len() - i,
    {
        assert(nums@.take(i + 1).drop_last() =~= nums@.take(i as int));
        if i > 0 {
            out.push(sep);
        }
        push_dec(out, nums[i] as usize);
        assert(out@ =~= o0 + num_list(nums@.take(i + 1), sep));
        i += 1;
    }
    assert(nums@.take(i as int) =~= nums@);
}

impl<S: MailStore, A: Authenticator> Session<S, A> {
    fn cmd_search(
        &mut self,
        tag: &[u8],
        key: &crate::search::SearchKey,
        uid: bool,
        ret: &Vec<Vec<u8>>,
        charset: &Option<Vec<u8>>,
    ) -> (r: Vec<u8>)
        ensures
            final(self)@ == (ImapView { saved: final(self)@.saved, ..old(self)@ }),
            final(self).authenticator() == old(self).authenticator(),
            r@ == no_spec(tag@, lit("[BADCHARSET (US-ASCII UTF-8)] unsupported SEARCH charset")) || r@ == bad_spec(
                tag@,
                lit("no mailbox selected"),
            ) || ends_with(r@, ok_spec(tag@, lit("SEARCH completed"))),
            !charset_ok_spec(ov(*charset)) ==> r@ == no_spec(tag@, lit("[BADCHARSET (US-ASCII UTF-8)] unsupported SEARCH charset")),
            charset_ok_spec(ov(*charset)) && old(self)@.selected is None ==> r@ == bad_spec(tag@, lit("no mailbox selected")),
    {
        if !charset_ok(charset) {
            return no(tag, "[BADCHARSET (US-ASCII UTF-8)] unsupported SEARCH charset");
        }
        let name = match self.selected_name() {
            Some(n) => n,
            None => return bad(tag, "no mailbox selected"),
        };
        let saved = crate::bytes::to_u32_vec(self.saved_search.as_slice());
        let (hits, uids) = match self.store.mailbox(name.as_str()) {
            Some(mb) => {
                let idx = matching(mb, key, saved.as_slice());
                let n = mb.messages.len();
                let mut hits: Vec<u32> = Vec::new();
                let mut uids: Vec<u32> = Vec::new();
                let mut k: usize = 0;
                while k < idx.len()
                    invariant
                        k <= idx@.len(),
                        n == mb.messages@.len(),
                        forall|j: int| 0 <= j < idx@.len() ==> idx@[j] < mb.messages@.len(),
                    decreases idx@.len() - k,
                {
                    let i = idx[k];
                    let u = mb.messages[i].uid;
                    hits.push(if uid { u } else { (i + 1) as u32 });
                    uids.push(u);
                    k += 1;
                }
                (hits, uids)
            },
            None => return bad(tag, "no mailbox selected"),
        };
        let up = upper_all(ret);
        if any_is(&up, "SAVE") {
            self.saved_search = uids;
        }
        let mut only_save = up.len() > 0;
        let mut k: usize = 0;
        while k < up.len()
            invariant
                k <= up@.len(),
            decreases up@.len() - k,
        {
            if !crate::bytes::is_lit(up[k].as_slice(), "SAVE") {
                only_save = false;
            }
            k += 1;
        }
        let mut out: Vec<u8> = Vec::new();
        if ret.len() == 0 {
            let mut t = crate::bytes::lit_vec("SEARCH");
            if hits.len() > 0 {
                t.push(32);
                push_num_list(&mut t, &hits, 32);
            }
            push_untagged(&mut out, t.as_slice());
        } else if !only_save {
            let l = esearch_line(tag, uid, &up, &hits);
            push_all(&mut out, l.as_slice());
        }
        let o = ok(tag, "SEARCH completed");
        let ghost pre = out@;
        push_all(&mut out, o.as_slice());
        proof {
            lemma_ends(pre, o@);
        }
        proof {
            assert(self@ =~= (ImapView { saved: self@.saved, ..old(self)@ }));
        }
        out
    }

    fn cmd_fetch(
        &mut self,
        tag: &[u8],
        set: &super::sequence::SequenceSet,
        items: &Vec<super::parser::FetchItem>,
        uid_mode: bool,
        changedsince: Option<u64>,
        vanished: bool,
    ) -> (r: Vec<u8>)
        ensures
            final(self)@ == old(self)@,
            final(self).authenticator() == old(self).authenticator(),
            old(self)@.selected is None ==> r@ == bad_spec(tag@, lit("no mailbox selected")),
            old(self)@.selected is Some ==> r@ == bad_spec(tag@, lit("no mailbox selected")) || ends_with(
                r@,
                ok_spec(tag@, lit("FETCH completed")),
            ),
    {
        let name = match self.selected_name() {
            Some(n) => n,
            None => return bad(tag, "no mailbox selected"),
        };
        let set = self.materialize(set, uid_mode);
        let read_only = self.read_only;
        let condstore = self.condstore || changedsince.is_some();
        let marks_seen = super::fetch::fetch_marks_seen(items.as_slice());
        let mb = match self.store.mailbox_mut(name.as_str()) {
            Some(m) => m,
            None => return bad(tag, "no mailbox selected"),
        };
        let max_uid = mb.max_uid();
        let mut out: Vec<u8> = Vec::new();
        if vanished {
            if let Some(cs) = changedsince {
                let all = mb.vanished_since(cs);
                let mut v: Vec<u32> = Vec::new();
                let mut k: usize = 0;
                while k < all.len()
                    invariant
                        k <= all@.len(),
                    decreases all@.len() - k,
                {
                    if set.contains(all[k], max_uid) {
                        v.push(all[k]);
                    }
                    k += 1;
                }
                sort_u32(&mut v);
                if v.len() > 0 {
                    let mut t = crate::bytes::lit_vec("VANISHED (EARLIER) ");
                    let ss = super::session::to_sequence_set(v.as_slice());
                    push_all(&mut t, ss.as_str().as_bytes());
                    push_untagged(&mut out, t.as_slice());
                }
            }
        }
        let targets = super::session::resolve_targets(mb, &set, uid_mode);
        let n0 = mb.messages.len();
        let mut k: usize = 0;
        while k < targets.len()
            invariant
                k <= targets@.len(),
                n0 == mb.messages@.len(),
                forall|j: int| 0 <= j < targets@.len() ==> targets@[j] < n0,
            decreases targets@.len() - k,
        {
            let i = targets[k];
            let seq = (i + 1) as u32;
            let uid = mb.messages[i].uid;
            let skip = match changedsince {
                Some(cs) => mb.messages[i].modseq <= cs,
                None => false,
            };
            if !skip {
                if !read_only && marks_seen && !mb.messages[i].has_flag(&crate::store::Flag::Seen)
                    && mb.highest_modseq < u64::MAX {
                    let mut m = mb.messages.remove(i);
                    m.set_flag(crate::store::Flag::Seen);
                    mb.highest_modseq = mb.highest_modseq + 1;
                    m.modseq = mb.highest_modseq;
                    mb.messages.insert(i, m);
                }
                let item_bytes = super::fetch::render_fetch_items(items.as_slice(), &mb.messages[i], seq, uid, uid_mode, condstore);
                push_lit(&mut out, "* ");
                push_dec(&mut out, seq as usize);
                push_lit(&mut out, " FETCH (");
                push_all(&mut out, item_bytes.as_slice());
                push_lit(&mut out, ")\r\n");
            }
            k += 1;
        }
        let o = ok(tag, "FETCH completed");
        let ghost pre = out@;
        push_all(&mut out, o.as_slice());
        proof {
            lemma_ends(pre, o@);
        }
        out
    }
}

impl<S: MailStore, A: Authenticator> Session<S, A> {
    fn cmd_store(&mut self, tag: &[u8], sc: &super::parser::StoreCommand) -> (r: Vec<u8>)
        ensures
            old(self)@.selected is Some && old(self)@.read_only ==> r@ == no_spec(tag@, lit("mailbox is read-only"))
                && final(self).store_spec() == old(self).store_spec(),
            final(self)@ == old(self)@,
            final(self).authenticator() == old(self).authenticator(),
            old(self)@.selected is None ==> final(self).store_spec() == old(self).store_spec(),
            old(self)@.selected matches Some(n) ==> stores_only(
                old(self).store_spec().model(),
                n,
                sc.op,
                sc.flags@,
                final(self).store_spec().model(),
            ),
    {
        let ghost m = self.store.model();
        let name = match self.selected_name() {
            Some(n) => n,
            None => return bad(tag, "no mailbox selected"),
        };
        proof {
            lemma_stores_only_refl(m, name@, sc.op, sc.flags@);
        }
        if self.read_only {
            return no(tag, "mailbox is read-only");
        }
        let condstore = self.condstore || sc.unchangedsince.is_some();
        let set = self.materialize(&sc.set, sc.uid);
        let mb = match self.store.mailbox_mut(name.as_str()) {
            Some(m) => m,
            None => return bad(tag, "no mailbox selected"),
        };
        let mut out: Vec<u8> = Vec::new();
        let mut modified: Vec<u32> = Vec::new();
        let targets = super::session::resolve_targets(mb, &set, sc.uid);
        let ghost b0 = *mb;
        let n0 = mb.messages.len();
        let mut k: usize = 0;
        assert(flags_stored(b0, sc.op, sc.flags@, *mb));
        while k < targets.len()
            invariant
                k <= targets@.len(),
                n0 == mb.messages@.len(),
                n0 == b0.messages@.len(),
                forall|j: int| 0 <= j < targets@.len() ==> targets@[j] < n0,
                forall|a: int, c: int| 0 <= a < c < targets@.len() ==> targets@[a] < targets@[c],
                forall|q: int| k <= q < targets@.len() ==> mb.messages@[#[trigger] targets@[q] as int] == b0.messages@[targets@[q] as int],
                flags_stored(b0, sc.op, sc.flags@, *mb),
            decreases targets@.len() - k,
        {
            let i = targets[k];
            let seq = (i + 1) as u32;
            let uid = mb.messages[i].uid;
            let changed = match sc.unchangedsince {
                Some(uc) => mb.messages[i].modseq > uc,
                None => false,
            };
            if changed {
                modified.push(if sc.uid { uid } else { seq });
            } else if mb.highest_modseq < u64::MAX {
                let ghost before = mb.messages@;
                let mut m = mb.messages.remove(i);
                super::fetch::apply_store(&mut m, sc.op, sc.flags.as_slice());
                mb.highest_modseq = mb.highest_modseq + 1;
                m.modseq = mb.highest_modseq;
                mb.messages.insert(i, m);
                proof {
                    assert(mb.messages@ =~= before.update(i as int, m));
                    assert(before[i as int] == b0.messages@[i as int]);
                    assert(restamped(b0.messages@[i as int], sc.op, sc.flags@, m));
                    assert forall|q: int| k < q < targets@.len() implies mb.messages@[#[trigger] targets@[q] as int]
                        == b0.messages@[targets@[q] as int] by {
                        assert(targets@[k as int] < targets@[q]);
                    }
                }
                if !sc.silent {
                    let msg = &mb.messages[i];
                    let mut t: Vec<u8> = Vec::new();
                    push_dec(&mut t, seq as usize);
                    push_lit(&mut t, " FETCH (FLAGS (");
                    super::fetch::push_flags(&mut t, msg.flags.as_slice());
                    push_lit(&mut t, ")");
                    if sc.uid {
                        push_lit(&mut t, " UID ");
                        push_dec(&mut t, uid as usize);
                    }
                    if condstore {
                        push_lit(&mut t, " MODSEQ (");
                        crate::json::push_dec_u64(&mut t, msg.modseq);
                        push_lit(&mut t, ")");
                    }
                    push_lit(&mut t, ")");
                    push_untagged(&mut out, t.as_slice());
                }
            }
            k += 1;
        }
        let o = if modified.len() == 0 {
            ok(tag, "STORE completed")
        } else {
            let mut t = crate::bytes::lit_vec("[MODIFIED ");
            push_num_list(&mut t, &modified, 44);
            push_lit(&mut t, "] STORE completed");
            ok_bytes(tag, t.as_slice())
        };
        push_all(&mut out, o.as_slice());
        out
    }

    /// The messages a COPY/MOVE takes (UID, bytes, flags, date), with the source UIDVALIDITY.
    fn collect_for_copy(&self, set: &super::sequence::SequenceSet, uid_mode: bool) -> (r: Option<(Vec<CopyItem>, u32)>)
        ensures
            r is Some ==> self@.selected is Some,
            self@.selected is None ==> r is None,
            match r {
                Some((items, v)) => collected(items@, v, *set, uid_mode),
                None => true,
            },
    {
        let name = match &self.selected {
            Some(n) => n,
            None => return None,
        };
        let set2 = self.materialize(set, uid_mode);
        let mb = match self.store.mailbox(name.as_str()) {
            Some(mb) => mb,
            None => return None,
        };
        let targets = super::session::resolve_targets(mb, &set2, uid_mode);
        let mut out: Vec<CopyItem> = Vec::new();
        let mut k: usize = 0;
        while k < targets.len()
            invariant
                k <= targets@.len(),
                forall|j: int| 0 <= j < targets@.len() ==> targets@[j] < mb.messages@.len(),
                out@.len() == k,
                forall|j: int| 0 <= j < k ==> copy_of(#[trigger] out@[j], mb.messages@[targets@[j] as int]),
            decreases targets@.len() - k,
        {
            let m = &mb.messages[targets[k]];
            out.push(CopyItem {
                uid: m.uid,
                raw: to_vec(m.raw.as_slice()),
                flags: copy_flags(&m.flags),
                internal_date: m.internal_date,
            });
            k += 1;
        }
        assert(copies_of(out@, *mb, set2, uid_mode)) by {
            assert(forall|j: int| 0 <= j < targets@.len() ==> super::session::targeted(*mb, set2, uid_mode, #[trigger] targets@[j] as int));
        }
        let v = mb.uid_validity;
        proof {
            let w: Mailbox = *mb;
            assert(copies_of(out@, w, set2, uid_mode) && v == w.uid_validity && (!set@.1 ==> set2@ == set@));
            assert(collected(out@, v, *set, uid_mode));
        }
        Some((out, v))
    }

    /// Append the copies to `dest`: the source and new UIDs, the destination UIDVALIDITY, or
    /// the reply when the destination does not exist or has no UID left. Only the destination
    /// changes: the copies already appended stay when the UID space runs out part way.
    fn append_copies(&mut self, tag: &[u8], items: Vec<CopyItem>, dest: &[u8]) -> (r: Result<(Vec<u32>, Vec<u32>, u32), Vec<u8>>)
        ensures
            final(self)@ == old(self)@,
            final(self).authenticator() == old(self).authenticator(),
            r matches Ok((src, dst, _)) ==> src@ == items@.map_values(|c: CopyItem| c.uid) && dst@.len() == src@.len(),
            r matches Err(reply) ==> reply@ == no_spec(tag@, lit("[TRYCREATE] no such destination mailbox")) || reply@
                == no_spec(tag@, lit("[LIMIT] mailbox UID or modseq space exhausted")),
            match crate::store::lookup(old(self).store_spec().model(), crate::text::utf8_lossy(dest@)) {
                None => r is Err && final(self).store_spec() == old(self).store_spec(),
                Some(b) => exists|nb: Mailbox| #[trigger]
                    copy_dest(b, items@, nb, r is Ok) && final(self).store_spec().model().entries == crate::store::put_box(
                        old(self).store_spec().model(),
                        crate::text::utf8_lossy(dest@),
                        nb,
                    ).entries && final(self).store_spec().model().next_uid_validity == old(
                        self,
                    ).store_spec().model().next_uid_validity,
            },
    {
        let ghost all = items@.map_values(|c: CopyItem| c.uid);
        let ghost orig = items@;
        let ghost m = self.store.model();
        let d = lossy_string(dest);
        let dst_valid = match self.store.mailbox(d.as_str()) {
            Some(mb) => mb.uid_validity,
            None => return Err(no(tag, "[TRYCREATE] no such destination mailbox")),
        };
        let ghost b = crate::store::lookup(m, d@)->0;
        let ghost mut nbv: Mailbox = b;
        proof {
            crate::store::lemma_put_box(m, d@, b, b);
            let k = crate::store::key_index(m.entries, d@, 0);
            crate::store::lemma_key_index(m.entries, d@, 0);
            assert(m.entries.update(k, (m.entries[k].0, b)) =~= m.entries);
            assert(b.messages@.subrange(0, b.messages@.len() as int) =~= b.messages@);
        }
        let mut src_uids: Vec<u32> = Vec::new();
        let mut dst_uids: Vec<u32> = Vec::new();
        let mut copied = items;
        let ghost mut j: int = 0;
        assert(orig.skip(0) =~= orig);
        while copied.len() > 0
            invariant
                self.tls == old(self).tls,
                self.state == old(self).state,
                self.identity == old(self).identity,
                self.selected == old(self).selected,
                self.read_only == old(self).read_only,
                self.condstore == old(self).condstore,
                self.qresync == old(self).qresync,
                self.idle_tag == old(self).idle_tag,
                self.pending == old(self).pending,
                self.saved_search == old(self).saved_search,
                self.auth == old(self).auth,
                src_uids@ + copied@.map_values(|c: CopyItem| c.uid) == all,
                dst_uids@.len() == src_uids@.len(),
                0 <= j <= orig.len(),
                copied@ == orig.skip(j),
                m == old(self).store_spec().model(),
                orig == items@,
                d@ == crate::text::utf8_lossy(dest@),
                crate::store::lookup(m, d@) == Some(b),
                self.store.model().entries == crate::store::put_box(m, d@, nbv).entries,
                self.store.model().next_uid_validity == m.next_uid_validity,
                copy_dest_upto(b, orig, nbv, j),
            decreases copied@.len(),
        {
            let ghost cv = copied@;
            let it = copied.remove(0);
            proof {
                assert(cv.map_values(|c: CopyItem| c.uid) =~= seq![it.uid] + copied@.map_values(|c: CopyItem| c.uid));
                assert(it == orig[j]);
                assert(copied@ =~= orig.skip(j + 1));
                crate::store::lemma_put_box(m, d@, nbv, nbv);
            }
            let ghost sm = self.store.model();
            proof {
                assert(sm == crate::store::put_box(m, d@, nbv));
            }
            let ghost prev = nbv;
            let got: Option<u32> = match self.store.mailbox_mut(d.as_str()) {
                Some(dmb) => {
                    if dmb.uid_next == u32::MAX || dmb.highest_modseq == u64::MAX {
                        None
                    } else {
                        let u = dmb.append(it.raw, it.flags, it.internal_date);
                        proof {
                            let nb2 = *dmb;
                            let n0 = b.messages@.len() as int;
                            assert(nb2.messages@.drop_last() == nbv.messages@);
                            assert forall|p: int| n0 <= p < nb2.messages@.len() implies {
                                &&& (#[trigger] nb2.messages@[p]).raw@ == orig[p - n0].raw@
                                &&& nb2.messages@[p].flags@ == orig[p - n0].flags@
                                &&& nb2.messages@[p].internal_date == orig[p - n0].internal_date
                                &&& nb2.messages@[p].uid == b.uid_next + (p - n0)
                            } by {
                                if p < nb2.messages@.len() - 1 {
                                    assert(nb2.messages@[p] == nbv.messages@[p]);
                                }
                            }
                            assert(nb2.messages@.subrange(0, n0) =~= b.messages@) by {
                                assert(nbv.messages@.subrange(0, n0) =~= b.messages@);
                                assert forall|q: int| 0 <= q < n0 implies nb2.messages@[q] == nbv.messages@[q] by {}
                            }
                            crate::store::lemma_put_box(m, d@, nbv, nb2);
                            nbv = nb2;
                            j = j + 1;
                        }
                        Some(u)
                    }
                },
                None => None,
            };
            let new_uid = match got {
                Some(u) => u,
                None => {
                    proof {
                        assert(nbv == prev);
                        let k = crate::store::key_index(sm.entries, d@, 0);
                        crate::store::lemma_key_index(sm.entries, d@, 0);
                        assert(sm.entries.update(k, (sm.entries[k].0, nbv)) =~= sm.entries);
                        assert(self.store.model().entries == sm.entries);
                        assert(copy_dest(b, orig, nbv, false));
                    }
                    let reply: Result<(Vec<u32>, Vec<u32>, u32), Vec<u8>> = Err(
                        no(tag, "[LIMIT] mailbox UID or modseq space exhausted"),
                    );
                    assert(copy_dest(b, orig, nbv, reply is Ok));
                    return reply;
                },
            };
            let ghost before = src_uids@;
            src_uids.push(it.uid);
            dst_uids.push(new_uid);
            assert(src_uids@ + copied@.map_values(|c: CopyItem| c.uid) =~= before + (seq![it.uid] + copied@.map_values(
                |c: CopyItem| c.uid,
            )));
        }
        assert(src_uids@ + copied@.map_values(|c: CopyItem| c.uid) =~= src_uids@);
        assert(j == orig.len());
        assert(copy_dest(b, orig, nbv, true));
        let done: Result<(Vec<u32>, Vec<u32>, u32), Vec<u8>> = Ok((src_uids, dst_uids, dst_valid));
        assert(copy_dest(b, orig, nbv, done is Ok));
        done
    }

    fn cmd_copy(&mut self, tag: &[u8], set: &super::sequence::SequenceSet, dest: &[u8], uid_mode: bool) -> (r: Vec<u8>)
        ensures
            appends_only(old(self).store_spec().model(), crate::text::utf8_lossy(dest@), final(self).store_spec().model()),
            final(self)@ == old(self)@,
            final(self).authenticator() == old(self).authenticator(),
            old(self)@.selected is None ==> r@ == bad_spec(tag@, lit("no mailbox selected")),
            r@ == bad_spec(tag@, lit("no mailbox selected")) || r@ == no_spec(tag@, lit("[TRYCREATE] no such destination mailbox"))
                || r@ == no_spec(tag@, lit("[LIMIT] mailbox UID or modseq space exhausted")) || r@ == ok_spec(
                tag@,
                lit("COPY completed"),
            ) || exists|v: u32, a: Seq<u32>, b: Seq<u32>| a.len() > 0 && a.len() == b.len() && r@ == ok_spec(
                tag@,
                #[trigger] copyuid_text(v, a, b),
            ),
    {
        let ghost m = self.store.model();
        let ghost dn = crate::text::utf8_lossy(dest@);
        proof {
            lemma_appends_only_refl(m, dn);
        }
        let (copied, _src_valid) = match self.collect_for_copy(set, uid_mode) {
            Some(v) => v,
            None => return bad(tag, "no mailbox selected"),
        };
        let ghost items = copied@;
        let res = self.append_copies(tag, copied, dest);
        proof {
            if let Some(b) = crate::store::lookup(m, dn) {
                let nb = choose|nb: Mailbox|
                    #[trigger] copy_dest(b, items, nb, res is Ok) && self.store.model().entries == crate::store::put_box(
                        m,
                        dn,
                        nb,
                    ).entries && self.store.model().next_uid_validity == m.next_uid_validity;
                lemma_copy_dest_grows(b, items, nb, res is Ok);
            }
        }
        let (src_uids, dst_uids, dst_valid) = match res {
            Ok(v) => v,
            Err(reply) => return reply,
        };
        if src_uids.len() == 0 {
            return ok(tag, "COPY completed");
        }
        let mut t = crate::bytes::lit_vec("[COPYUID ");
        push_dec(&mut t, dst_valid as usize);
        t.push(32);
        push_num_list(&mut t, &src_uids, 44);
        t.push(32);
        push_num_list(&mut t, &dst_uids, 44);
        push_lit(&mut t, "] COPY completed");
        let reply = ok_bytes(tag, t.as_slice());
        assert(reply@ == ok_spec(tag@, copyuid_text(dst_valid, src_uids@, dst_uids@)));
        reply
    }

    fn cmd_move(&mut self, tag: &[u8], set: &super::sequence::SequenceSet, dest: &[u8], uid_mode: bool) -> (r: Vec<u8>)
        ensures
            old(self)@.selected is Some && old(self)@.read_only ==> r@ == no_spec(tag@, lit("mailbox is read-only"))
                && final(self).store_spec() == old(self).store_spec(),
            final(self)@ == old(self)@,
            final(self).authenticator() == old(self).authenticator(),
            old(self)@.selected is None ==> final(self).store_spec() == old(self).store_spec(),
            old(self)@.selected matches Some(n) ==> moves_only(
                old(self).store_spec().model(),
                n,
                crate::text::utf8_lossy(dest@),
                final(self).store_spec().model(),
            ),
    {
        let ghost m = self.store.model();
        let ghost dn = crate::text::utf8_lossy(dest@);
        let name = match self.selected_name() {
            Some(n) => n,
            None => return bad(tag, "no mailbox selected"),
        };
        proof {
            lemma_appends_only_refl(m, dn);
            lemma_removes_only_refl(m, name@);
            assert(appends_only(m, dn, m) && removes_only(m, name@, m));
        }
        if self.read_only {
            return no(tag, "mailbox is read-only");
        }
        let (copied, _src_valid) = match self.collect_for_copy(set, uid_mode) {
            Some(v) => v,
            None => return bad(tag, "no mailbox selected"),
        };
        let ghost items = copied@;
        let res = self.append_copies(tag, copied, dest);
        let ghost m1 = self.store.model();
        proof {
            if let Some(b) = crate::store::lookup(m, dn) {
                let nb = choose|nb: Mailbox|
                    #[trigger] copy_dest(b, items, nb, res is Ok) && m1.entries == crate::store::put_box(m, dn, nb).entries
                        && m1.next_uid_validity == m.next_uid_validity;
                lemma_copy_dest_grows(b, items, nb, res is Ok);
            }
            assert(appends_only(m, dn, m1));
            lemma_removes_only_refl(m1, name@);
            assert(appends_only(m, dn, m1) && removes_only(m1, name@, m1));
        }
        let (src_uids, dst_uids, dst_valid) = match res {
            Ok(v) => v,
            Err(reply) => return reply,
        };
        let qresync = self.qresync;
        let smb = match self.store.mailbox_mut(name.as_str()) {
            Some(m) => m,
            None => return bad(tag, "no mailbox selected"),
        };
        let ghost b0 = *smb;
        let mut out: Vec<u8> = Vec::new();
        if src_uids.len() > 0 {
            let mut t = crate::bytes::lit_vec("OK [COPYUID ");
            push_dec(&mut t, dst_valid as usize);
            t.push(32);
            push_num_list(&mut t, &src_uids, 44);
            t.push(32);
            push_num_list(&mut t, &dst_uids, 44);
            push_lit(&mut t, "] MOVE");
            push_untagged(&mut out, t.as_slice());
        }
        let mut indices: Vec<u32> = Vec::new();
        let mut k: usize = 0;
        while k < src_uids.len()
            invariant
                k <= src_uids@.len(),
                *smb == b0,
            decreases src_uids@.len() - k,
        {
            if let Some(i) = smb.index_of_uid(src_uids[k]) {
                if i <= u32::MAX as usize {
                    indices.push(i as u32);
                }
            }
            k += 1;
        }
        sort_u32(&mut indices);
        let mut vanished: Vec<u32> = Vec::new();
        let mut k: usize = indices.len();
        assert(shrinks(b0, *smb));
        while k > 0
            invariant
                k <= indices@.len(),
                shrinks(b0, *smb),
            decreases k,
        {
            let ghost before = *smb;
            let ghost mut did = false;
            let i = indices[k - 1] as usize;
            if !qresync {
                let mut line: Vec<u8> = Vec::new();
                crate::json::push_dec_u64(&mut line, i as u64 + 1);
                push_lit(&mut line, " EXPUNGE");
                push_untagged(&mut out, line.as_slice());
            }
            if smb.highest_modseq < u64::MAX {
                if let Some(uid) = smb.remove_at(i) {
                    proof {
                        did = true;
                    }
                    vanished.push(uid);
                }
            }
            proof {
                assert forall|q: int| 0 <= q < smb.messages@.len() implies b0.messages@.contains(
                    #[trigger] smb.messages@[q],
                ) by {
                    if did {
                        let bq = if q < i { q } else { q + 1 };
                        assert(smb.messages@[q] == before.messages@[bq]);
                        assert(before.messages@.contains(before.messages@[bq]));
                    } else {
                        assert(before.messages@.contains(before.messages@[q]));
                    }
                }
            }
            k -= 1;
        }
        if qresync && vanished.len() > 0 {
            sort_u32(&mut vanished);
            let mut t = crate::bytes::lit_vec("VANISHED ");
            let ss = super::session::to_sequence_set(vanished.as_slice());
            push_all(&mut t, ss.as_str().as_bytes());
            push_untagged(&mut out, t.as_slice());
        }
        let o = ok(tag, "MOVE completed");
        let ghost pre = out@;
        push_all(&mut out, o.as_slice());
        proof {
            lemma_ends(pre, o@);
        }
        out
    }
}

impl<S: MailStore, A: Authenticator> Session<S, A> {
    fn cmd_sort(
        &self,
        tag: &[u8],
        criteria: &Vec<super::parser::SortCriterion>,
        charset: &Option<Vec<u8>>,
        key: &crate::search::SearchKey,
        uid: bool,
    ) -> (r: Vec<u8>)
        ensures
            !charset_ok_spec(ov(*charset)) ==> r@ == no_spec(tag@, lit("[BADCHARSET (US-ASCII UTF-8)] unsupported charset")),
            charset_ok_spec(ov(*charset)) && self@.selected is None ==> r@ == bad_spec(tag@, lit("no mailbox selected")),
            charset_ok_spec(ov(*charset)) && self@.selected is Some ==> r@ == bad_spec(tag@, lit("no mailbox selected"))
                || ends_with(r@, ok_spec(tag@, lit("SORT completed"))),
    {
        if !charset_ok(charset) {
            return no(tag, "[BADCHARSET (US-ASCII UTF-8)] unsupported charset");
        }
        let name = match self.selected_name() {
            Some(n) => n,
            None => return bad(tag, "no mailbox selected"),
        };
        let mb = match self.store.mailbox(name.as_str()) {
            Some(m) => m,
            None => return bad(tag, "no mailbox selected"),
        };
        let mut idx = matching(mb, key, self.saved_search.as_slice());
        super::order::sort_indices(mb, &mut idx, criteria.as_slice());
        let n = mb.messages.len();
        let mut t = crate::bytes::lit_vec("SORT");
        let mut k: usize = 0;
        while k < idx.len()
            invariant
                k <= idx@.len(),
                n == mb.messages@.len(),
                forall|j: int| 0 <= j < idx@.len() ==> idx@[j] < mb.messages@.len(),
            decreases idx@.len() - k,
        {
            let i = idx[k];
            t.push(32);
            if uid {
                push_dec(&mut t, mb.messages[i].uid as usize);
            } else {
                push_dec(&mut t, ((i + 1) as u32) as usize);
            }
            k += 1;
        }
        let mut out = untagged(t.as_slice());
        let o = ok(tag, "SORT completed");
        let ghost pre = out@;
        push_all(&mut out, o.as_slice());
        proof {
            lemma_ends(pre, o@);
        }
        out
    }

    fn cmd_thread(
        &self,
        tag: &[u8],
        algorithm: super::parser::ThreadAlgorithm,
        charset: &Option<Vec<u8>>,
        key: &crate::search::SearchKey,
        uid: bool,
    ) -> (r: Vec<u8>)
        ensures
            !charset_ok_spec(ov(*charset)) ==> r@ == no_spec(tag@, lit("[BADCHARSET (US-ASCII UTF-8)] unsupported charset")),
            charset_ok_spec(ov(*charset)) && self@.selected is None ==> r@ == bad_spec(tag@, lit("no mailbox selected")),
            charset_ok_spec(ov(*charset)) && self@.selected is Some ==> r@ == bad_spec(tag@, lit("no mailbox selected"))
                || ends_with(r@, ok_spec(tag@, lit("THREAD completed"))),
    {
        if !charset_ok(charset) {
            return no(tag, "[BADCHARSET (US-ASCII UTF-8)] unsupported charset");
        }
        let name = match self.selected_name() {
            Some(n) => n,
            None => return bad(tag, "no mailbox selected"),
        };
        let mb = match self.store.mailbox(name.as_str()) {
            Some(m) => m,
            None => return bad(tag, "no mailbox selected"),
        };
        let idx = matching(mb, key, self.saved_search.as_slice());
        let threads = super::order::build_threads(mb, idx.as_slice(), algorithm);
        let n = mb.messages.len();
        let mut t = crate::bytes::lit_vec("THREAD");
        if threads.len() > 0 {
            t.push(32);
        }
        let mut g: usize = 0;
        while g < threads.len()
            invariant
                g <= threads@.len(),
                n == mb.messages@.len(),
                super::order::groups_below(threads@, n),
            decreases threads@.len() - g,
        {
            t.push(40);
            let group = &threads[g];
            let mut k: usize = 0;
            while k < group.len()
                invariant
                    k <= group@.len(),
                    group@ == threads@[g as int]@,
                    g < threads@.len(),
                    n == mb.messages@.len(),
                    super::order::groups_below(threads@, n),
                decreases group@.len() - k,
            {
                let i = group[k];
                if k > 0 {
                    t.push(32);
                }
                if uid {
                    push_dec(&mut t, mb.messages[i].uid as usize);
                } else {
                    push_dec(&mut t, ((i + 1) as u32) as usize);
                }
                k += 1;
            }
            t.push(41);
            g += 1;
        }
        let mut out = untagged(t.as_slice());
        let o = ok(tag, "THREAD completed");
        let ghost pre = out@;
        push_all(&mut out, o.as_slice());
        proof {
            lemma_ends(pre, o@);
        }
        out
    }
}

/// The state after the selected mailbox turned out to be gone (deleted or renamed meanwhile):
/// back to Authenticated, with the saved search result dropped (RFC 5182 §2.1).
pub open spec fn healed(s: ImapView) -> ImapView {
    ImapView { selected: None, state: State::Authenticated, saved: seq![], ..s }
}

/// The commands answered before authentication.
pub open spec fn allowed_unauthenticated(c: Command) -> bool {
    c is Capability || c is Noop || c is Logout || c is StartTls || c is Id || c is Login || c is Authenticate
}

/// The ID reply (RFC 2971).
pub open spec fn id_text() -> Seq<u8> {
    lit("ID (\"name\" \"Envoir\" \"version\" \"0.0.1\" \"vendor\" \"DMTAP\")")
}

/// What one parsed command does, from the state `s` (after the selected-mailbox check), to the
/// state `t` with the reply `out`. The authenticator's answer, and what the store holds, are
/// left open where they decide.
pub open spec fn dispatch_post(s: ImapView, m: crate::store::StoreView, pc: ParsedCommand, t: ImapView, out: Seq<u8>) -> bool {
    let tag = pc.tag@;
    match pc.command {
        Command::Capability => t == s && out == untagged_spec(capability_spec(s.tls)) + ok_spec(
            tag,
            lit("CAPABILITY completed"),
        ),
        Command::Noop => t == s && out == ok_spec(tag, lit("NOOP completed")),
        Command::Logout => t == (ImapView { state: State::Logout, ..s }) && out == untagged_spec(
            lit("BYE Envoir logging out"),
        ) + ok_spec(tag, lit("LOGOUT completed")),
        Command::StartTls => t == (ImapView { tls: true, ..s }) && out == ok_spec(tag, lit("Begin TLS negotiation now")),
        Command::Id(_) => t == s && out == untagged_spec(id_text()) + ok_spec(tag, lit("ID completed")),
        Command::Login { user, pass } => exists|id: Option<Seq<u8>>| #[trigger] login_spec(s, tag, id) == (t, out),
        Command::Authenticate { mechanism, initial } => exists|id: Option<Seq<u8>>|
            #[trigger] authenticate_spec(s, tag, mechanism@, ov(initial), id) == (t, out),
        Command::Idle => if s.identity is None {
            t == s && out == no_spec(tag, lit("Not authenticated"))
        } else {
            t == (ImapView { idle: Some(tag), ..s }) && out == continuation_spec(lit("idling"))
        },
        _ => if s.identity is None {
            t == s && out == no_spec(tag, lit("Not authenticated"))
        } else if modifies_selected(pc.command) && s.selected is Some && s.read_only {
            t == s && out == no_spec(tag, lit("mailbox is read-only"))
        } else {
            keeps_auth(s, t) && select_effect(s, m, pc.command, t, pc.tag@, out)
        },
    }
}

/// The completion text of SELECT (read-write) and EXAMINE (read-only).
pub open spec fn select_done(read_only: bool) -> Seq<u8> {
    if read_only {
        lit("[READ-ONLY] EXAMINE completed")
    } else {
        lit("[READ-WRITE] SELECT completed")
    }
}

/// SELECT opens a mailbox of the store `m` read-write and EXAMINE read-only, with the SEARCHRES
/// result cleared, the answer ending in the tagged OK; where the store has no such mailbox the
/// session is left as it was and the answer is `NO [NONEXISTENT]`.
pub open spec fn open_effect(
    s: ImapView,
    m: crate::store::StoreView,
    mailbox: Seq<u8>,
    read_only: bool,
    condstore: bool,
    qresync: bool,
    t: ImapView,
    tag: Seq<u8>,
    out: Seq<u8>,
) -> bool {
    let name = crate::text::utf8_lossy(mailbox);
    if crate::store::lookup(m, name) is None {
        t == s && out == no_spec(tag, lit("[NONEXISTENT] no such mailbox"))
    } else {
        t == selected_spec(s, name, read_only, condstore, qresync) && ends_with(out, ok_spec(tag, select_done(read_only)))
    }
}

/// What SELECT and EXAMINE do (see [`open_effect`]); other commands are not constrained here.
pub open spec fn select_effect(s: ImapView, m: crate::store::StoreView, c: Command, t: ImapView, tag: Seq<u8>, out: Seq<u8>) -> bool {
    match c {
        Command::Select { mailbox, qresync, condstore } => open_effect(s, m, mailbox@, false, condstore, qresync is Some, t, tag, out),
        Command::Examine { mailbox, qresync, condstore } => open_effect(s, m, mailbox@, true, condstore, qresync is Some, t, tag, out),
        _ => true,
    }
}

/// A mailbox opened by EXAMINE is read-only: EXAMINE of a mailbox of the store `m` opens it
/// read-only (answering `[READ-ONLY]`), and then a command that would change its messages
/// (STORE, EXPUNGE, UID EXPUNGE, MOVE) is answered `NO`, leaves the session as it was, and is one
/// of the refusals that leave the store untouched (see `Session::process`).
pub proof fn law_examine_is_read_only(
    s: ImapView,
    examine: ParsedCommand,
    t: ImapView,
    out1: Seq<u8>,
    next: ParsedCommand,
    t2: ImapView,
    out2: Seq<u8>,
    m: crate::store::StoreView,
)
    requires
        s.identity is Some,
        examine.command matches Command::Examine { mailbox, .. } && crate::store::lookup(
            m,
            crate::text::utf8_lossy(mailbox@),
        ) is Some,
        dispatch_post(s, m, examine, t, out1),
        modifies_selected(next.command),
        dispatch_post(t, m, next, t2, out2),
    ensures
        t.read_only,
        selected_exists(t, m),
        ends_with(out1, ok_spec(examine.tag@, lit("[READ-ONLY] EXAMINE completed"))),
        t2 == t,
        out2 == no_spec(next.tag@, lit("mailbox is read-only")),
        refused_keeps_store(t, m, next.command),
{
}

/// On a mailbox selected read-only that is still in the store, a buffer that can only parse
/// to a command changing its messages leaves both the session and the store as they were and
/// is answered `NO ... mailbox is read-only`.
pub proof fn law_read_only_buffer_keeps_store(
    s: ImapView,
    m: crate::store::StoreView,
    buf: Seq<u8>,
    t: ImapView,
    out: Seq<u8>,
    m2: crate::store::StoreView,
)
    requires
        s.identity is Some,
        s.idle is None,
        s.pending is None,
        s.read_only,
        selected_exists(s, m),
        forall|r: Result<ParsedCommand, ParseError>| #[trigger] parses_to(buf, r) ==> (r matches Ok(pc)
            && modifies_selected(pc.command)),
        process_post(s, m, buf, t, out, m2),
    ensures
        t == s,
        m2 == m,
        exists|pc: ParsedCommand| #[trigger] parses_to(buf, Ok(pc)) && out == no_spec(pc.tag@, lit("mailbox is read-only")),
{
    let r = choose|r: Result<ParsedCommand, ParseError>| #[trigger] parses_to(buf, r) && match r {
        Ok(pc) => healed_or_not(s, m, pc, t, out) && (refused_keeps_store(s, m, pc.command) ==> m2 == m) && (
        leaves_store(pc.command) ==> m2 == m) && store_effect(s, m, pc.command, m2),
        Err(e) => t == s && out == bad_spec(tag_of(buf), parse_error_text(e)) && m2 == m,
    };
    assert(r matches Ok(pc) && modifies_selected(pc.command));
}

/// The commands that change the selected mailbox's messages.
pub open spec fn modifies_selected(c: Command) -> bool {
    c is Store || c is Expunge || c is UidExpunge || c is Move
}

/// What a buffer parses to (see [`super::parser::parse_command`]).
pub open spec fn parses_to(buf: Seq<u8>, r: Result<ParsedCommand, ParseError>) -> bool {
    match super::token::tokenize_from(buf, 0) {
        Ok(t) => super::parser::tokens_spec(t, r),
        Err(e) => r == Err::<ParsedCommand, ParseError>(e),
    }
}

/// What one buffer does to a session in state `s`: while idling only `DONE` answers; a pending
/// SASL step takes the buffer as the client's response; otherwise the buffer is parsed and the
/// command dispatched, a parse error answered with BAD.
pub open spec fn process_post(
    s: ImapView,
    m: crate::store::StoreView,
    buf: Seq<u8>,
    t: ImapView,
    out: Seq<u8>,
    m2: crate::store::StoreView,
) -> bool {
    if s.idle is Some {
        m2 == m && if crate::bytes::eq_ci_spec(crate::bytes::trim_spec(crate::bytes::utf8(crate::text::utf8_lossy(buf))), lit("DONE")) {
            t == (ImapView { idle: None, ..s }) && out == ok_spec(s.idle->0, lit("IDLE terminated"))
        } else {
            t == s && out == Seq::<u8>::empty()
        }
    } else if s.pending is Some {
        m2 == m && exists|id: Option<Seq<u8>>| #[trigger] continue_spec(ImapView { pending: None, ..s }, s.pending->0, buf, id) == (t, out)
    } else {
        exists|r: Result<ParsedCommand, ParseError>| #[trigger] parses_to(buf, r) && match r {
            Ok(pc) => healed_or_not(s, m, pc, t, out) && (refused_keeps_store(s, m, pc.command) ==> m2 == m) && (
            leaves_store(pc.command) ==> m2 == m) && store_effect(s, m, pc.command, m2),
            Err(e) => t == s && out == bad_spec(tag_of(buf), parse_error_text(e)) && m2 == m,
        }
    }
}

/// The dispatch of a parsed command: from the state as it is, or, only when the selected
/// mailbox is no longer in the store, from the state with that selection dropped.
pub open spec fn healed_or_not(s: ImapView, m: crate::store::StoreView, pc: ParsedCommand, t: ImapView, out: Seq<u8>) -> bool {
    ||| dispatch_post(s, m, pc, t, out)
    ||| s.selected is Some && !selected_exists(s, m) && dispatch_post(healed(s), m, pc, t, out)
}

/// The commands whose handling never touches the store: the session-level commands, the
/// credential commands, IDLE and the opening of a mailbox.
pub open spec fn leaves_store(c: Command) -> bool {
    c is Capability || c is Noop || c is Logout || c is StartTls || c is Id || c is Login || c is Authenticate
        || c is Idle || c is Select || c is Examine || c is Namespace
}

/// The selected mailbox, if any, is still in the store.
pub open spec fn selected_exists(s: ImapView, m: crate::store::StoreView) -> bool {
    match s.selected {
        Some(n) => crate::store::lookup(m, n) is Some,
        None => false,
    }
}

/// A command the session refuses before it reaches the store: anything but the commands open
/// before authentication, while unauthenticated; or a command that would change the messages of
/// a mailbox selected read-only (still present in the store).
pub open spec fn refused_keeps_store(s: ImapView, m: crate::store::StoreView, c: Command) -> bool {
    ||| s.identity is None && !allowed_unauthenticated(c) && !(c is Idle)
    ||| s.identity is Some && modifies_selected(c) && s.read_only && selected_exists(s, m)
}

/// LOGIN and AUTHENTICATE: the identity a step binds is the authenticator's answer to the very
/// credential the command carries.
pub open spec fn cred_bound<A: Authenticator>(auth: A, s: ImapView, pc: ParsedCommand, t: ImapView, out: Seq<u8>) -> bool {
    match pc.command {
        Command::Login { user, pass } => exists|id: Option<Seq<u8>>|
            #[trigger] login_spec(s, pc.tag@, id) == (t, out) && checked(auth, login_creds(s, user@, pass@), id),
        Command::Authenticate { mechanism, initial } => exists|id: Option<Seq<u8>>|
            #[trigger] authenticate_spec(s, pc.tag@, mechanism@, ov(initial), id) == (t, out) && checked(
                auth,
                authenticate_creds(s, mechanism@, ov(initial)),
                id,
            ),
        _ => true,
    }
}

/// What a buffer does, as far as credentials go: a SASL continuation binds the authenticator's
/// answer to the credential it completes, and a LOGIN or AUTHENTICATE command as
/// [`cred_bound`] says.
pub open spec fn process_bound<A: Authenticator>(
    auth: A,
    s: ImapView,
    m: crate::store::StoreView,
    buf: Seq<u8>,
    t: ImapView,
    out: Seq<u8>,
) -> bool {
    if s.idle is Some {
        true
    } else if s.pending is Some {
        exists|id: Option<Seq<u8>>|
            #[trigger] continue_spec(ImapView { pending: None, ..s }, s.pending->0, buf, id) == (t, out) && checked(
                auth,
                continue_creds(s.pending->0, buf),
                id,
            )
    } else {
        exists|r: Result<ParsedCommand, ParseError>| #[trigger] parses_to(buf, r) && match r {
            Ok(pc) => cred_bound(auth, s, pc, t, out) || (s.selected is Some && !selected_exists(s, m) && cred_bound(
                auth,
                healed(s),
                pc,
                t,
                out,
            )),
            Err(_) => true,
        }
    }
}

impl<S: MailStore, A: Authenticator> Session<S, A> {
    /// Process one complete command buffer (literals included) and return the response bytes.
    pub fn process(&mut self, buf: &[u8]) -> (r: Vec<u8>)
        ensures
            final(self).authenticator() == old(self).authenticator(),
            process_post(old(self)@, old(self).store_spec().model(), buf@, final(self)@, r@, final(self).store_spec().model()),
            process_bound(old(self).authenticator(), old(self)@, old(self).store_spec().model(), buf@, final(self)@, r@),
    {
        if self.idle_tag.is_some() {
            let text = lossy_string(buf);
            let t = crate::bytes::trim(text.as_str().as_bytes());
            if crate::bytes::is_kw(t, "DONE") {
                let tag = match &self.idle_tag {
                    Some(tg) => to_vec(tg.as_slice()),
                    None => Vec::new(),
                };
                self.idle_tag = None;
                return ok(tag.as_slice(), "IDLE terminated");
            }
            return Vec::new();
        }
        if self.pending.is_some() {
            let p = self.pending.take();
            match p {
                Some(p) => {
                    let ghost pv = pending_view(Some(p))->0;
                    let (r, id) = self.continue_sasl(p, buf);
                    assert(continue_spec(ImapView { pending: None, ..old(self)@ }, pv, buf@, id@) == (self@, r@));
                    return r;
                },
                None => return Vec::new(),
            }
        }
        let parsed = super::parser::parse_command(buf);
        let ghost pr = parsed;
        match parsed {
            Ok(pc) => {
                let r = self.dispatch(pc);
                assert(parses_to(buf@, pr));
                r
            },
            Err(e) => {
                let tag = extract_tag(buf);
                let text = parse_error_bytes(&e);
                assert(parses_to(buf@, pr));
                bad_bytes(tag.as_slice(), text.as_slice())
            },
        }
    }

    fn heal(&mut self) -> (r: Ghost<bool>)
        ensures
            final(self).authenticator() == old(self).authenticator(),
            r@ ==> old(self)@.selected is Some && final(self)@ == healed(old(self)@),
            !r@ ==> final(self)@ == old(self)@,
            final(self).store_spec() == old(self).store_spec(),
            selected_exists(old(self)@, old(self).store_spec().model()) ==> !r@,
    {
        let gone = match &self.selected {
            Some(name) => self.store.mailbox(name.as_str()).is_none(),
            None => false,
        };
        if gone {
            self.selected = None;
            self.state = State::Authenticated;
            self.saved_search = Vec::new();
            assert(self@ =~= healed(old(self)@));
        }
        Ghost(gone)
    }

    fn dispatch(&mut self, pc: ParsedCommand) -> (r: Vec<u8>)
        requires
            old(self)@.idle is None,
            old(self)@.pending is None,
        ensures
            final(self).authenticator() == old(self).authenticator(),
            healed_or_not(old(self)@, old(self).store_spec().model(), pc, final(self)@, r@),
            cred_bound(old(self).authenticator(), old(self)@, pc, final(self)@, r@) || (old(self)@.selected is Some
                && !selected_exists(old(self)@, old(self).store_spec().model()) && cred_bound(
                old(self).authenticator(),
                healed(old(self)@),
                pc,
                final(self)@,
                r@,
            )),
            refused_keeps_store(old(self)@, old(self).store_spec().model(), pc.command) ==> final(self).store_spec()
                == old(self).store_spec(),
            leaves_store(pc.command) ==> final(self).store_spec() == old(self).store_spec(),
            store_effect(old(self)@, old(self).store_spec().model(), pc.command, final(self).store_spec().model()),
    {
        let ghost pc0 = pc;
        let _h = self.heal();
        let ghost s = self@;
        let ghost m0 = self.store.model();
        proof {
            if let Command::Copy { mailbox, .. } = pc0.command {
                lemma_appends_only_refl(m0, crate::text::utf8_lossy(mailbox@));
            }
            if let Some(n) = old(self)@.selected {
                lemma_removes_only_refl(m0, n);
                if let Command::Store(sc) = pc0.command {
                    lemma_stores_only_refl(m0, n, sc.op, sc.flags@);
                }
                if let Command::Move { mailbox, .. } = pc0.command {
                    lemma_appends_only_refl(m0, crate::text::utf8_lossy(mailbox@));
                    assert(appends_only(m0, crate::text::utf8_lossy(mailbox@), m0) && removes_only(m0, n, m0));
                }
            }
        }
        let tag = pc.tag;
        let t = tag.as_slice();
        match pc.command {
            Command::Capability => {
                let c = capability_line(self.tls);
                let mut out = untagged(c.as_slice());
                let o = ok(t, "CAPABILITY completed");
                push_all(&mut out, o.as_slice());
                assert(dispatch_post(s, m0, pc0, self@, out@));
                return out;
            },
            Command::Noop => {
                let out = ok(t, "NOOP completed");
                assert(dispatch_post(s, m0, pc0, self@, out@));
                return out;
            },
            Command::Logout => {
                self.state = State::Logout;
                let mut out = untagged("BYE Envoir logging out".as_bytes());
                let o = ok(t, "LOGOUT completed");
                push_all(&mut out, o.as_slice());
                assert(self@ =~= (ImapView { state: State::Logout, ..s }));
                assert(dispatch_post(s, m0, pc0, self@, out@));
                return out;
            },
            Command::StartTls => {
                self.tls = true;
                let out = ok(t, "Begin TLS negotiation now");
                assert(self@ =~= (ImapView { tls: true, ..s }));
                assert(dispatch_post(s, m0, pc0, self@, out@));
                return out;
            },
            Command::Id(_) => {
                let mut out = untagged("ID (\"name\" \"Envoir\" \"version\" \"0.0.1\" \"vendor\" \"DMTAP\")".as_bytes());
                let o = ok(t, "ID completed");
                push_all(&mut out, o.as_slice());
                assert(dispatch_post(s, m0, pc0, self@, out@));
                return out;
            },
            Command::Login { user, pass } => {
                let (out, id) = self.cmd_login(t, user.as_slice(), pass.as_slice());
                assert(login_spec(s, t@, id@) == (self@, out@));
                assert(dispatch_post(s, m0, pc0, self@, out@));
                return out;
            },
            Command::Authenticate { mechanism, initial } => {
                let ghost iv = ov(initial);
                let (out, id) = self.cmd_authenticate(t, mechanism.as_slice(), initial);
                assert(authenticate_spec(s, t@, mechanism@, iv, id@) == (self@, out@));
                assert(dispatch_post(s, m0, pc0, self@, out@));
                return out;
            },
            _ => {},
        }
        if self.identity.is_none() {
            let out = no(t, "Not authenticated");
            assert(dispatch_post(s, m0, pc0, self@, out@));
            return out;
        }
        let out = match pc.command {
            Command::Idle => {
                self.idle_tag = Some(to_vec(t));
                assert(self@ =~= (ImapView { idle: Some(t@), ..s }));
                continuation("idling".as_bytes())
            },
            Command::Enable(caps) => self.cmd_enable(t, &caps),
            Command::Namespace => {
                let mut out = untagged("NAMESPACE ((\"\" \"/\")) NIL NIL".as_bytes());
                let o = ok(t, "NAMESPACE completed");
                push_all(&mut out, o.as_slice());
                out
            },
            Command::Select { mailbox, qresync, condstore } => self.cmd_select(t, mailbox.as_slice(), false, condstore, qresync),
            Command::Examine { mailbox, qresync, condstore } => self.cmd_select(t, mailbox.as_slice(), true, condstore, qresync),
            Command::Create { name, use_attr } => self.cmd_create(t, name.as_slice(), &use_attr),
            Command::Delete(name) => self.cmd_delete(t, name.as_slice()),
            Command::Rename { from, to } => self.cmd_rename(t, from.as_slice(), to.as_slice()),
            Command::Subscribe(name) => self.set_subscribed(t, name.as_slice(), true),
            Command::Unsubscribe(name) => self.set_subscribed(t, name.as_slice(), false),
            Command::List { reference: _, pattern, return_opts, select_opts } => self.cmd_list(
                t,
                pattern.as_slice(),
                false,
                &return_opts,
                &select_opts,
            ),
            Command::Lsub { reference: _, pattern } => {
                let none: Vec<Vec<u8>> = Vec::new();
                self.cmd_list(t, pattern.as_slice(), true, &none, &none)
            },
            Command::Status { mailbox, items } => self.cmd_status(t, mailbox.as_slice(), &items),
            Command::Append { mailbox, flags, date, message, catenate } => self.cmd_append(
                t,
                mailbox.as_slice(),
                flags,
                &date,
                message,
                &catenate,
            ),
            Command::Check => self.require_selected(t, "CHECK completed"),
            Command::Close => self.cmd_close(t, true),
            Command::Unselect => self.cmd_close(t, false),
            Command::Expunge => self.cmd_expunge(t, &None),
            Command::UidExpunge(set) => self.cmd_expunge(t, &Some(set)),
            Command::Search { charset, key, uid, ret } => self.cmd_search(t, &key, uid, &ret, &charset),
            Command::Sort { criteria, charset, key, uid } => self.cmd_sort(t, &criteria, &charset, &key, uid),
            Command::Thread { algorithm, charset, key, uid } => self.cmd_thread(t, algorithm, &charset, &key, uid),
            Command::Fetch { set, items, uid, changedsince, vanished } => self.cmd_fetch(
                t,
                &set,
                &items,
                uid,
                changedsince,
                vanished,
            ),
            Command::Store(sc) => self.cmd_store(t, &sc),
            Command::Copy { set, mailbox, uid } => self.cmd_copy(t, &set, mailbox.as_slice(), uid),
            Command::Move { set, mailbox, uid } => self.cmd_move(t, &set, mailbox.as_slice(), uid),
            _ => Vec::new(),
        };
        assert(dispatch_post(s, m0, pc0, self@, out@));
        out
    }
}

/// Before authentication, every command but CAPABILITY, NOOP, LOGOUT, STARTTLS, ID, LOGIN and
/// AUTHENTICATE is answered `NO Not authenticated`, and the session stays unauthenticated.
pub proof fn unauthenticated_commands_are_refused(
    s: ImapView,
    m: crate::store::StoreView,
    buf: Seq<u8>,
    pc: ParsedCommand,
    t: ImapView,
    out: Seq<u8>,
)
    requires
        s.identity is None,
        s.idle is None,
        s.pending is None,
        parses_to(buf, Ok(pc)),
        !allowed_unauthenticated(pc.command),
        healed_or_not(s, m, pc, t, out),
    ensures
        out == no_spec(pc.tag@, lit("Not authenticated")),
        t.identity is None,
        t.tls == s.tls,
{
}

/// LOGIN on a channel without TLS is refused before any credential is checked, whatever the
/// authenticator would answer, and changes nothing.
pub proof fn cleartext_login_is_refused(s: ImapView, tag: Seq<u8>, id: Option<Seq<u8>>)
    requires
        !s.tls,
    ensures
        login_spec(s, tag, id) == (s, no_spec(tag, lit("[PRIVACYREQUIRED] LOGIN disabled until STARTTLS"))),
{
}

/// A bound identity is never dropped, and the identity changes only together with a move to
/// the Authenticated state (a successful LOGIN or AUTHENTICATE).
pub proof fn identity_changes_only_on_login(
    s: ImapView,
    m: crate::store::StoreView,
    buf: Seq<u8>,
    t: ImapView,
    out: Seq<u8>,
    m2: crate::store::StoreView,
)
    requires
        process_post(s, m, buf, t, out, m2),
    ensures
        s.identity is Some ==> t.identity is Some,
        t.identity != s.identity ==> t.identity is Some && t.state == State::Authenticated,
{
    if s.idle is Some {
    } else if s.pending is Some {
        let id = choose|id: Option<Seq<u8>>| #[trigger] continue_spec(ImapView { pending: None, ..s }, s.pending->0, buf, id) == (t, out);
    } else {
        let r = choose|r: Result<ParsedCommand, ParseError>| #[trigger] parses_to(buf, r) && match r {
            Ok(pc) => healed_or_not(s, m, pc, t, out) && (refused_keeps_store(s, m, pc.command) ==> m2 == m) && (
            leaves_store(pc.command) ==> m2 == m) && store_effect(s, m, pc.command, m2),
            Err(e) => t == s && out == bad_spec(tag_of(buf), parse_error_text(e)) && m2 == m,
        };
        match r {
            Ok(pc) => {
                let h = if dispatch_post(s, m, pc, t, out) { s } else { healed(s) };
                assert(dispatch_post(h, m, pc, t, out));
                assert(h.identity == s.identity);
                match pc.command {
                    Command::Login { .. } => {
                        let id = choose|id: Option<Seq<u8>>| #[trigger] login_spec(h, pc.tag@, id) == (t, out);
                    },
                    Command::Authenticate { mechanism, initial } => {
                        let id = choose|id: Option<Seq<u8>>|
                            #[trigger] authenticate_spec(h, pc.tag@, mechanism@, ov(initial), id) == (t, out);
                    },
                    _ => {},
                }
            },
            Err(_) => {},
        }
    }
}

/// A mailbox opened with EXAMINE is read-only: STORE, EXPUNGE, UID EXPUNGE and MOVE are answered
/// `NO mailbox is read-only` and the session is left as it was (the store is left untouched too:
/// the handlers return before reaching it).
pub proof fn read_only_mailbox_refuses_changes(
    s: ImapView,
    m: crate::store::StoreView,
    pc: ParsedCommand,
    t: ImapView,
    out: Seq<u8>,
)
    requires
        s.identity is Some,
        s.selected is Some,
        s.read_only,
        modifies_selected(pc.command),
        dispatch_post(s, m, pc, t, out),
    ensures
        t == s,
        out == no_spec(pc.tag@, lit("mailbox is read-only")),
{
}

} // verus!
