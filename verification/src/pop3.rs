//! POP3 (RFC 1939): the download-and-delete view of the INBOX. USER/PASS, APOP (§7), STLS
//! (RFC 2595), CAPA (RFC 2449) and SASL PLAIN through AUTH (RFC 5034); in the transaction state
//! STAT/LIST/UIDL/RETR/TOP/DELE/RSET/NOOP/QUIT. The maildrop is a snapshot taken at login, and
//! deletions reach the store only on QUIT.
use vstd::prelude::*;
use crate::auth::Authenticator;
use crate::bytes::{lit, push_all, push_lit, to_vec, slice_of};
use crate::smtp::{dec_spec, push_dec, ws_tokens, split_ws};
use crate::store::{MailStore, Mailbox};

verus! {

/// The POP3 session state (RFC 1939 §3).
#[derive(Debug, Clone, Copy, PartialEq, Eq, Structural)]
pub enum State {
    Authorization,
    Transaction,
}

/// One message of the maildrop snapshot.
struct Slot {
    uid: u32,
    raw: Vec<u8>,
    deleted: bool,
}

/// A SASL exchange waiting for the client's next line.
enum SaslStep {
    Plain,
}

/// A maildrop entry as the specification sees it.
pub ghost struct SlotView {
    pub uid: u32,
    pub raw: Seq<u8>,
    pub deleted: bool,
}

/// What a session holds: the channel's protection, the state, the USER name given, the bound
/// identity, the maildrop snapshot and whether a SASL PLAIN response is awaited.
pub ghost struct Pop3View {
    pub tls: bool,
    pub state: State,
    pub user: Option<Seq<u8>>,
    pub identity: Option<Seq<u8>>,
    pub slots: Seq<SlotView>,
    pub pending: bool,
}

/// What the authenticator and the store answered while a line was handled: the identity a
/// credential check returned, the secret looked up for APOP, and the INBOX's messages as
/// `(uid, raw)` (empty when there is no INBOX). Each is read at most once per line.
pub ghost struct Pop3Answers {
    pub id: Option<Seq<u8>>,
    pub secret: Option<Seq<u8>>,
    pub inbox: Seq<(u32, Seq<u8>)>,
}

/// The INBOX of a store as `(uid, raw)` pairs, in order; empty without an INBOX.
pub open spec fn inbox_model(m: crate::store::StoreView) -> Seq<(u32, Seq<u8>)> {
    match crate::store::lookup(m, "INBOX"@) {
        Some(b) => Seq::new(b.messages@.len(), |i: int| (b.messages@[i].uid, b.messages@[i].raw@)),
        None => seq![],
    }
}

/// The answers a line got are the real ones: an identity is one the authenticator gives for
/// some credential, and the maildrop snapshot taken with it is the store's INBOX.
pub open spec fn answers_bound<A: Authenticator>(auth: A, m: crate::store::StoreView, a: Pop3Answers) -> bool {
    a.id is Some ==> (exists|u: Seq<u8>, p: Seq<u8>| #[trigger] auth.accepts(u, p, a.id)) && a.inbox == inbox_model(m)
}

/// The APOP timestamp of the greeting (RFC 1939 §7).
pub open spec fn banner_spec() -> Seq<u8> {
    lit("<envoir.1.1@mail.dmtap.local>")
}

/// The command word (upper-cased) and its argument text (trimmed): split at the first space,
/// or the whole trimmed line with no argument.
pub open spec fn verb_rest(l: Seq<u8>) -> (Seq<u8>, Seq<u8>) {
    let i = crate::mime::next_byte(l, 32, 0);
    if i < l.len() {
        (crate::bytes::upper_seq(l.subrange(0, i)), crate::bytes::trim_spec(l.subrange(i + 1, l.len() as int)))
    } else {
        (crate::bytes::upper_seq(crate::bytes::trim_spec(l)), seq![])
    }
}

/// The CAPA listing: SASL PLAIN only under TLS, STLS otherwise.
pub open spec fn capa_spec(tls: bool) -> Seq<u8> {
    lit("+OK Capability list follows\r\n") + lit("TOP\r\nUIDL\r\nUSER\r\nRESP-CODES\r\nPIPELINING\r\n")
        + (if tls {
        lit("SASL PLAIN\r\n")
    } else {
        lit("STLS\r\n")
    }) + lit(".\r\n")
}

/// The snapshot taken at login.
pub open spec fn snapshot(inbox: Seq<(u32, Seq<u8>)>) -> Seq<SlotView> {
    inbox.map_values(|m: (u32, Seq<u8>)| SlotView { uid: m.0, raw: m.1, deleted: false })
}

/// A successful login: the identity is bound, the maildrop snapshot taken.
pub open spec fn login_spec(s: Pop3View, id: Seq<u8>, inbox: Seq<(u32, Seq<u8>)>) -> (Pop3View, Seq<u8>) {
    (
        Pop3View { identity: Some(id), state: State::Transaction, slots: snapshot(inbox), ..s },
        lit("+OK mailbox ready, ") + dec_spec(inbox.len()) + lit(" messages\r\n"),
    )
}

/// The answer to a credential check.
pub open spec fn checked_spec(s: Pop3View, a: Pop3Answers, fail: Seq<u8>) -> (Pop3View, Seq<u8>) {
    match a.id {
        Some(id) => login_spec(s, id, a.inbox),
        None => (s, fail),
    }
}

/// PASS: needs a USER first.
pub open spec fn pass_spec(s: Pop3View, a: Pop3Answers) -> (Pop3View, Seq<u8>) {
    match s.user {
        None => (s, lit("-ERR USER first\r\n")),
        Some(_) => checked_spec(s, a, lit("-ERR [AUTH] invalid credentials\r\n")),
    }
}

/// APOP name digest: the digest must be the lower-case hex MD5 of the banner and the user's
/// secret (compared case-insensitively), and the secret must then verify.
pub open spec fn apop_spec(s: Pop3View, rest: Seq<u8>, a: Pop3Answers) -> (Pop3View, Seq<u8>) {
    let ts = ws_tokens(rest);
    if ts.len() < 2 {
        (s, lit("-ERR APOP requires name and digest\r\n"))
    } else {
        match a.secret {
            None => (s, lit("-ERR [AUTH] APOP not available for this user\r\n")),
            Some(sec) => if crate::digest::hex_spec(crate::digest::md5_spec(banner_spec() + sec))
                == crate::bytes::lower_seq(ts[1]) {
                checked_spec(s, a, lit("-ERR [AUTH] APOP failed\r\n"))
            } else {
                (s, lit("-ERR [AUTH] APOP digest mismatch\r\n"))
            },
        }
    }
}

/// A SASL PLAIN response: it must decode, and the credential must verify.
pub open spec fn plain_spec(s: Pop3View, ir: Seq<u8>, a: Pop3Answers) -> (Pop3View, Seq<u8>) {
    match crate::auth::plain_fields(ir) {
        Some(_) => checked_spec(s, a, lit("-ERR [AUTH] invalid credentials\r\n")),
        None => (s, lit("-ERR malformed SASL PLAIN\r\n")),
    }
}

/// AUTH mechanism [initial-response]: PLAIN only; without an initial response the session
/// waits for it.
pub open spec fn auth_spec(s: Pop3View, rest: Seq<u8>, a: Pop3Answers) -> (Pop3View, Seq<u8>) {
    let ts = ws_tokens(rest);
    let mech = if ts.len() > 0 { crate::bytes::upper_seq(ts[0]) } else { seq![] };
    if mech == lit("PLAIN") {
        if ts.len() > 1 {
            plain_spec(s, ts[1], a)
        } else {
            (Pop3View { pending: true, ..s }, lit("+ \r\n"))
        }
    } else {
        (s, lit("-ERR unsupported SASL mechanism\r\n"))
    }
}

/// The 0-based index a message number names: in range and not deleted.
pub open spec fn index_spec(slots: Seq<SlotView>, num: Seq<u8>) -> Option<int> {
    match crate::bytes::parse_dec_spec(crate::bytes::trim_spec(num), usize::MAX as nat) {
        Some(n) => if n == 0 || n > slots.len() || slots[n - 1].deleted {
            None
        } else {
            Some(n - 1)
        },
        None => None,
    }
}

/// The number of messages not marked deleted.
pub open spec fn active_count(slots: Seq<SlotView>) -> nat
    decreases slots.len(),
{
    if slots.len() == 0 {
        0
    } else {
        active_count(slots.drop_last()) + if slots.last().deleted { 0nat } else { 1nat }
    }
}

/// The total size of the messages not marked deleted.
pub open spec fn active_size(slots: Seq<SlotView>) -> nat
    decreases slots.len(),
{
    if slots.len() == 0 {
        0
    } else {
        active_size(slots.drop_last()) + if slots.last().deleted { 0nat } else { slots.last().raw.len() }
    }
}

/// One line per message not marked deleted: its number and its size (`uid` false) or its UID
/// (`uid` true).
pub open spec fn listing(slots: Seq<SlotView>, uid: bool) -> Seq<u8>
    decreases slots.len(),
{
    if slots.len() == 0 {
        seq![]
    } else {
        let i = slots.len() - 1;
        let last = slots.last();
        listing(slots.drop_last(), uid) + if last.deleted {
            seq![]
        } else {
            dec_spec((i + 1) as nat) + seq![32u8] + (if uid {
                dec_spec(last.uid as nat)
            } else {
                dec_spec(last.raw.len())
            }) + lit("\r\n")
        }
    }
}

/// LIST or UIDL, of all messages or of one.
pub open spec fn scan_spec(slots: Seq<SlotView>, rest: Seq<u8>, uid: bool) -> Seq<u8> {
    if rest.len() == 0 {
        (if uid {
            lit("+OK unique-id listing follows\r\n")
        } else {
            lit("+OK scan listing follows\r\n")
        }) + listing(slots, uid) + lit(".\r\n")
    } else {
        match index_spec(slots, rest) {
            Some(i) => lit("+OK ") + dec_spec((i + 1) as nat) + seq![32u8] + (if uid {
                dec_spec(slots[i].uid as nat)
            } else {
                dec_spec(slots[i].raw.len())
            }) + lit("\r\n"),
            None => lit("-ERR no such message\r\n"),
        }
    }
}

/// The message with each line that begins with `.` given one more `.` (RFC 1939 §3).
pub open spec fn stuffed(s: Seq<u8>) -> Seq<u8>
    decreases s.len(),
{
    if s.len() == 0 {
        seq![]
    } else {
        let i = s.len() - 1;
        stuffed(s.drop_last()) + if s[i] == 46 && (i == 0 || s[i - 1] == 10) {
            seq![46u8, 46u8]
        } else {
            seq![s[i]]
        }
    }
}

/// Byte-stuffed message text, ending in a line break.
pub open spec fn dot_stuff_spec(s: Seq<u8>) -> Seq<u8> {
    stuffed(s) + if s.len() > 0 && s.last() == 10 {
        seq![]
    } else {
        lit("\r\n")
    }
}

/// The first `n` lines of `b`, each with its line feed (a last line without one counts too).
pub open spec fn first_lines(b: Seq<u8>, n: nat) -> Seq<u8>
    decreases b.len(),
{
    if n == 0 || b.len() == 0 {
        seq![]
    } else {
        let k = crate::mime::next_byte(b, 10, 0);
        proof {
            crate::mime::lemma_next_byte(b, 10, 0);
        }
        if k < b.len() {
            b.subrange(0, k + 1) + first_lines(b.subrange(k + 1, b.len() as int), (n - 1) as nat)
        } else {
            b
        }
    }
}

/// RETR n.
pub open spec fn retr_spec(slots: Seq<SlotView>, rest: Seq<u8>) -> Seq<u8> {
    match index_spec(slots, rest) {
        Some(i) => lit("+OK ") + dec_spec(slots[i].raw.len()) + lit(" octets\r\n") + dot_stuff_spec(
            slots[i].raw,
        ) + lit(".\r\n"),
        None => lit("-ERR no such message\r\n"),
    }
}

/// TOP n lines: the header block and the first `lines` body lines (0 when the count is absent
/// or does not parse).
pub open spec fn top_spec(slots: Seq<SlotView>, rest: Seq<u8>) -> Seq<u8> {
    let ts = ws_tokens(rest);
    let num = if ts.len() > 0 { ts[0] } else { seq![] };
    let lines = if ts.len() > 1 {
        match crate::bytes::parse_dec_spec(ts[1], usize::MAX as nat) {
            Some(n) => n,
            None => 0,
        }
    } else {
        0
    };
    match index_spec(slots, num) {
        Some(i) => {
            let raw = slots[i].raw;
            let off = crate::mime::body_offset_spec(raw);
            let top = raw.subrange(0, off) + first_lines(raw.subrange(off, raw.len() as int), lines);
            lit("+OK\r\n") + dot_stuff_spec(top) + lit(".\r\n")
        },
        None => lit("-ERR no such message\r\n"),
    }
}

/// DELE n.
pub open spec fn dele_spec(s: Pop3View, rest: Seq<u8>) -> (Pop3View, Seq<u8>) {
    match index_spec(s.slots, rest) {
        Some(i) => (
            Pop3View { slots: s.slots.update(i, SlotView { deleted: true, ..s.slots[i] }), ..s },
            lit("+OK message deleted\r\n"),
        ),
        None => (s, lit("-ERR no such message\r\n")),
    }
}

/// RSET: every deletion mark is dropped.
pub open spec fn rset_spec(s: Pop3View) -> (Pop3View, Seq<u8>) {
    (
        Pop3View {
            slots: s.slots.map_values(|x: SlotView| SlotView { deleted: false, ..x }),
            ..s
        },
        lit("+OK\r\n"),
    )
}

/// A size, capped at the largest `usize`.
pub open spec fn capped(n: nat) -> nat {
    if n > usize::MAX { usize::MAX as nat } else { n }
}

/// The reply to a command refused in the current state.
pub open spec fn not_permitted() -> Seq<u8> {
    lit("-ERR command not permitted in this state\r\n")
}

/// One command line (not a SASL continuation).
pub open spec fn command_spec(s: Pop3View, line: Seq<u8>, a: Pop3Answers) -> (Pop3View, Seq<u8>) {
    let (verb, rest) = verb_rest(line);
    let auth = s.state == State::Authorization;
    let tr = s.state == State::Transaction;
    if verb == lit("CAPA") {
        (s, capa_spec(s.tls))
    } else if verb == lit("QUIT") {
        (s, lit("+OK Envoir POP3 signing off\r\n"))
    } else if verb == lit("NOOP") {
        (s, lit("+OK\r\n"))
    } else if auth && verb == lit("STLS") {
        (Pop3View { tls: true, ..s }, lit("+OK Begin TLS\r\n"))
    } else if auth && !s.tls && (verb == lit("USER") || verb == lit("PASS") || verb == lit("AUTH")) {
        (s, lit("-ERR [AUTH] STLS required before authentication\r\n"))
    } else if auth && verb == lit("USER") {
        (Pop3View { user: Some(rest), ..s }, lit("+OK send PASS\r\n"))
    } else if auth && verb == lit("PASS") {
        pass_spec(s, a)
    } else if auth && verb == lit("APOP") {
        apop_spec(s, rest, a)
    } else if auth && verb == lit("AUTH") {
        auth_spec(s, rest, a)
    } else if tr && verb == lit("STAT") {
        (s, lit("+OK ") + dec_spec(active_count(s.slots)) + seq![32u8] + dec_spec(
            capped(active_size(s.slots)),
        ) + lit("\r\n"))
    } else if tr && verb == lit("LIST") {
        (s, scan_spec(s.slots, rest, false))
    } else if tr && verb == lit("UIDL") {
        (s, scan_spec(s.slots, rest, true))
    } else if tr && verb == lit("RETR") {
        (s, retr_spec(s.slots, rest))
    } else if tr && verb == lit("TOP") {
        (s, top_spec(s.slots, rest))
    } else if tr && verb == lit("DELE") {
        dele_spec(s, rest)
    } else if tr && verb == lit("RSET") {
        rset_spec(s)
    } else {
        (s, not_permitted())
    }
}

/// One line: the SASL PLAIN response when one is awaited, a command otherwise.
pub open spec fn line_spec(s: Pop3View, line: Seq<u8>, a: Pop3Answers) -> (Pop3View, Seq<u8>) {
    if s.pending {
        plain_spec(Pop3View { pending: false, ..s }, crate::bytes::trim_spec(line), a)
    } else {
        command_spec(s, line, a)
    }
}

/// Byte-stuff a message for a multi-line reply; the bytes pass through otherwise unchanged.
pub fn dot_stuff(raw: &[u8]) -> (r: Vec<u8>)
    ensures
        r@ == dot_stuff_spec(raw@),
{
    let mut out: Vec<u8> = Vec::new();
    let mut i: usize = 0;
    while i < raw.len()
        invariant
            i <= raw@.len(),
            out@ == stuffed(raw@.take(i as int)),
        decreases raw@.len() - i,
    {
        let ghost t = raw@.take(i as int + 1);
        assert(t.drop_last() =~= raw@.take(i as int));
        assert(t[i as int] == raw@[i as int]);
        assert(i > 0 ==> t[i - 1] == raw@[i - 1]);
        if raw[i] == 46 && (i == 0 || raw[i - 1] == 10) {
            out.push(46);
        }
        out.push(raw[i]);
        assert(out@ =~= stuffed(t));
        i += 1;
    }
    assert(raw@.take(raw@.len() as int) =~= raw@);
    if raw.len() == 0 || raw[raw.len() - 1] != 10 {
        push_lit(&mut out, "\r\n");
    } else {
        assert(out@ + seq![] =~= out@);
    }
    out
}

/// The length of the first `n` lines of `b` (see [`first_lines`]).
fn first_lines_len(b: &[u8], n: usize) -> (r: usize)
    ensures
        r <= b@.len(),
        b@.subrange(0, r as int) == first_lines(b@, n as nat),
{
    let mut start: usize = 0;
    let mut count: usize = 0;
    assert(b@.subrange(0, 0) + first_lines(b@.subrange(0, b@.len() as int), n as nat) =~= first_lines(b@, n as nat)) by {
        assert(b@.subrange(0, b@.len() as int) =~= b@);
    }
    while count < n && start < b.len()
        invariant
            start <= b@.len(),
            count <= n,
            b@.subrange(0, start as int) + first_lines(b@.subrange(start as int, b@.len() as int), (n - count) as nat)
                == first_lines(b@, n as nat),
        decreases n - count,
    {
        let ghost rest = b@.subrange(start as int, b@.len() as int);
        let k = crate::mime::scan_to(b, 10, start);
        proof {
            crate::mime::lemma_next_byte(b@, 10, start as int);
            crate::mime::lemma_next_byte(rest, 10, 0);
            lemma_next_byte_shift(b@, start as int);
        }
        if k < b.len() {
            assert(rest.subrange(0, k - start + 1) =~= b@.subrange(start as int, k + 1));
            assert(rest.subrange(k - start + 1, rest.len() as int) =~= b@.subrange(k + 1, b@.len() as int));
            assert(b@.subrange(0, start as int) + b@.subrange(start as int, k + 1) =~= b@.subrange(0, k + 1));
            start = k + 1;
        } else {
            assert(b@.subrange(0, start as int) + rest =~= b@.subrange(0, b@.len() as int));
            assert(first_lines(b@.subrange(b@.len() as int, b@.len() as int), (n - count - 1) as nat) =~= seq![]);
            start = b.len();
        }
        count += 1;
    }
    if start < b.len() {
        assert(count == n);
    }
    assert(first_lines(b@.subrange(start as int, b@.len() as int), (n - count) as nat) =~= seq![]);
    assert(b@.subrange(0, start as int) + seq![] =~= b@.subrange(0, start as int));
    start
}

proof fn lemma_next_byte_shift(s: Seq<u8>, st: int)
    requires
        0 <= st <= s.len(),
    ensures
        crate::mime::next_byte(s.subrange(st, s.len() as int), 10, 0) == crate::mime::next_byte(s, 10, st) - st,
{
    lemma_next_byte_shift_from(s, st, st);
}

proof fn lemma_next_byte_shift_from(s: Seq<u8>, st: int, i: int)
    requires
        0 <= st <= i <= s.len(),
    ensures
        crate::mime::next_byte(s.subrange(st, s.len() as int), 10, i - st) == crate::mime::next_byte(s, 10, i) - st,
    decreases s.len() - i,
{
    if i < s.len() {
        lemma_next_byte_shift_from(s, st, i + 1);
    }
}

/// A POP3 session over a store and an authenticator it owns.
pub struct Pop3Session<S: MailStore, A: Authenticator> {
    store: S,
    auth: A,
    tls: bool,
    state: State,
    user: Option<Vec<u8>>,
    identity: Option<Vec<u8>>,
    slots: Vec<Slot>,
    pending_sasl: Option<SaslStep>,
}

spec fn slot_view(x: Slot) -> SlotView {
    SlotView { uid: x.uid, raw: x.raw@, deleted: x.deleted }
}

spec fn opt_view(o: Option<Vec<u8>>) -> Option<Seq<u8>> {
    match o {
        Some(v) => Some(v@),
        None => None,
    }
}

impl<S: MailStore, A: Authenticator> View for Pop3Session<S, A> {
    type V = Pop3View;

    closed spec fn view(&self) -> Pop3View {
        Pop3View {
            tls: self.tls,
            state: self.state,
            user: opt_view(self.user),
            identity: opt_view(self.identity),
            slots: self.slots@.map_values(|x: Slot| slot_view(x)),
            pending: self.pending_sasl is Some,
        }
    }
}

/// Whether a line, in the session state `s`, is a QUIT that commits the deletions.
pub open spec fn commits(s: Pop3View, line: Seq<u8>) -> bool {
    !s.pending && verb_rest(line).0 == lit("QUIT") && s.state == State::Transaction
}

fn reply(l: &str) -> (r: Vec<u8>)
    ensures
        r@ == lit(l),
{
    crate::bytes::lit_vec(l)
}

/// Split a command line into its upper-cased verb and trimmed argument text.
fn split_verb(l: &[u8]) -> (r: (Vec<u8>, Vec<u8>))
    ensures
        (r.0@, r.1@) == verb_rest(l@),
{
    let i = crate::mime::scan_to(l, 32, 0);
    proof {
        crate::mime::lemma_next_byte(l@, 32, 0);
    }
    if i < l.len() {
        let v = crate::bytes::to_upper(slice_of(l, 0, i));
        let rest = to_vec(crate::bytes::trim(slice_of(l, i + 1, l.len())));
        (v, rest)
    } else {
        (crate::bytes::to_upper(crate::bytes::trim(l)), Vec::new())
    }
}

impl<S: MailStore, A: Authenticator> Pop3Session<S, A> {
    /// The store the session owns.
    pub closed spec fn store_spec(&self) -> S {
        self.store
    }

    /// The authenticator the session checks credentials with.
    pub closed spec fn authenticator(&self) -> A {
        self.auth
    }

    /// A new session in the AUTHORIZATION state (`tls`: the channel is already protected).
    pub fn new(store: S, auth: A, tls: bool) -> (r: Self)
        ensures
            r.store_spec() == store,
            r.authenticator() == auth,
            r@ == (Pop3View {
                tls,
                state: State::Authorization,
                user: None,
                identity: None,
                slots: seq![],
                pending: false,
            }),
    {
        let r = Pop3Session {
            store,
            auth,
            tls,
            state: State::Authorization,
            user: None,
            identity: None,
            slots: Vec::new(),
            pending_sasl: None,
        };
        assert(r@.slots =~= Seq::<SlotView>::empty());
        r
    }

    /// The store.
    pub fn store(&self) -> (r: &S)
        ensures
            *r == self.store_spec(),
    {
        &self.store
    }

    /// Give the store back.
    pub fn into_store(self) -> (r: S)
        ensures
            r == self.store_spec(),
    {
        self.store
    }

    /// Whether a login has succeeded.
    pub fn is_authenticated(&self) -> (r: bool)
        ensures
            r == self@.identity is Some,
    {
        self.identity.is_some()
    }

    /// The APOP timestamp the greeting carries.
    pub fn banner(&self) -> (r: &'static str)
        ensures
            lit(r) == banner_spec(),
    {
        "<envoir.1.1@mail.dmtap.local>"
    }

    /// The `+OK` greeting with the APOP timestamp.
    pub fn greeting(&self) -> (r: String)
        ensures
            r@ == crate::text::utf8_lossy(lit("+OK Envoir DMTAP POP3 ready ") + banner_spec() + lit("\r\n")),
    {
        let mut out = reply("+OK Envoir DMTAP POP3 ready ");
        push_lit(&mut out, self.banner());
        push_lit(&mut out, "\r\n");
        crate::text::lossy_string(out.as_slice())
    }
}

impl<S: MailStore, A: Authenticator> Pop3Session<S, A> {
    fn index_of(&self, num: &[u8]) -> (r: Option<usize>)
        ensures
            match index_spec(self@.slots, num@) {
                Some(i) => r == Some(i as usize),
                None => r is None,
            },
    {
        let n = match crate::bytes::parse_usize(crate::bytes::trim(num)) {
            Some(n) => n,
            None => return None,
        };
        if n == 0 || n > self.slots.len() {
            return None;
        }
        let i = n - 1;
        assert(self@.slots[i as int] == slot_view(self.slots@[i as int]));
        if self.slots[i].deleted {
            None
        } else {
            Some(i)
        }
    }

    fn capa(&self) -> (r: Vec<u8>)
        ensures
            r@ == capa_spec(self@.tls),
    {
        let mut s = reply("+OK Capability list follows\r\n");
        push_lit(&mut s, "TOP\r\nUIDL\r\nUSER\r\nRESP-CODES\r\nPIPELINING\r\n");
        if self.tls {
            push_lit(&mut s, "SASL PLAIN\r\n");
        } else {
            push_lit(&mut s, "STLS\r\n");
        }
        push_lit(&mut s, ".\r\n");
        s
    }

    fn stat(&self) -> (r: Vec<u8>)
        ensures
            r@ == lit("+OK ") + dec_spec(active_count(self@.slots)) + seq![32u8] + dec_spec(
                capped(active_size(self@.slots)),
            ) + lit("\r\n"),
    {
        let mut count: usize = 0;
        let mut size: usize = 0;
        let mut i: usize = 0;
        while i < self.slots.len()
            invariant
                i <= self.slots@.len(),
                count == active_count(self@.slots.take(i as int)),
                count <= i,
                size == capped(active_size(self@.slots.take(i as int))),
            decreases self.slots@.len() - i,
        {
            let ghost t = self@.slots.take(i as int + 1);
            assert(t.drop_last() =~= self@.slots.take(i as int));
            assert(t.last() == slot_view(self.slots@[i as int]));
            if !self.slots[i].deleted {
                count += 1;
                size = size.saturating_add(self.slots[i].raw.len());
            }
            i += 1;
        }
        assert(self@.slots.take(self@.slots.len() as int) =~= self@.slots);
        let mut out = reply("+OK ");
        push_dec(&mut out, count);
        out.push(32);
        push_dec(&mut out, size);
        push_lit(&mut out, "\r\n");
        out
    }

    fn listing_of(&self, uid: bool) -> (r: Vec<u8>)
        ensures
            r@ == listing(self@.slots, uid),
    {
        let mut out: Vec<u8> = Vec::new();
        let mut i: usize = 0;
        while i < self.slots.len()
            invariant
                i <= self.slots@.len(),
                out@ == listing(self@.slots.take(i as int), uid),
            decreases self.slots@.len() - i,
        {
            let ghost t = self@.slots.take(i as int + 1);
            assert(t.drop_last() =~= self@.slots.take(i as int));
            assert(t.last() == slot_view(self.slots@[i as int]));
            if !self.slots[i].deleted {
                push_dec(&mut out, i + 1);
                out.push(32);
                if uid {
                    crate::json::push_dec_u64(&mut out, self.slots[i].uid as u64);
                } else {
                    push_dec(&mut out, self.slots[i].raw.len());
                }
                push_lit(&mut out, "\r\n");
            }
            assert(out@ =~= listing(t, uid));
            i += 1;
        }
        assert(self@.slots.take(self@.slots.len() as int) =~= self@.slots);
        out
    }

    fn scan(&self, rest: &[u8], uid: bool) -> (r: Vec<u8>)
        ensures
            r@ == scan_spec(self@.slots, rest@, uid),
    {
        if rest.len() == 0 {
            let mut out = if uid {
                reply("+OK unique-id listing follows\r\n")
            } else {
                reply("+OK scan listing follows\r\n")
            };
            let l = self.listing_of(uid);
            push_all(&mut out, l.as_slice());
            push_lit(&mut out, ".\r\n");
            out
        } else {
            match self.index_of(rest) {
                Some(i) => {
                    assert(self@.slots[i as int] == slot_view(self.slots@[i as int]));
                    let mut out = reply("+OK ");
                    push_dec(&mut out, i + 1);
                    out.push(32);
                    if uid {
                        crate::json::push_dec_u64(&mut out, self.slots[i].uid as u64);
                    } else {
                        push_dec(&mut out, self.slots[i].raw.len());
                    }
                    push_lit(&mut out, "\r\n");
                    out
                },
                None => reply("-ERR no such message\r\n"),
            }
        }
    }

    fn retr(&self, rest: &[u8]) -> (r: Vec<u8>)
        ensures
            r@ == retr_spec(self@.slots, rest@),
    {
        match self.index_of(rest) {
            Some(i) => {
                assert(self@.slots[i as int] == slot_view(self.slots@[i as int]));
                let raw = self.slots[i].raw.as_slice();
                let mut out = reply("+OK ");
                push_dec(&mut out, raw.len());
                push_lit(&mut out, " octets\r\n");
                let st = dot_stuff(raw);
                push_all(&mut out, st.as_slice());
                push_lit(&mut out, ".\r\n");
                out
            },
            None => reply("-ERR no such message\r\n"),
        }
    }

    fn top(&self, rest: &[u8]) -> (r: Vec<u8>)
        ensures
            r@ == top_spec(self@.slots, rest@),
    {
        let ts = split_ws(rest);
        let ghost tv = crate::bytes::views(ts@);
        let num: Vec<u8> = if ts.len() > 0 {
            assert(tv[0] == ts@[0]@);
            to_vec(ts[0].as_slice())
        } else {
            Vec::new()
        };
        let lines: usize = if ts.len() > 1 {
            assert(tv[1] == ts@[1]@);
            match crate::bytes::parse_usize(ts[1].as_slice()) {
                Some(n) => n,
                None => 0,
            }
        } else {
            0
        };
        match self.index_of(num.as_slice()) {
            Some(i) => {
                assert(self@.slots[i as int] == slot_view(self.slots@[i as int]));
                let raw = self.slots[i].raw.as_slice();
                let (headers, body) = crate::mime::header_and_body(raw);
                let k = first_lines_len(body.as_slice(), lines);
                let mut top = headers;
                push_all(&mut top, slice_of(body.as_slice(), 0, k));
                let mut out = reply("+OK\r\n");
                let st = dot_stuff(top.as_slice());
                push_all(&mut out, st.as_slice());
                push_lit(&mut out, ".\r\n");
                out
            },
            None => reply("-ERR no such message\r\n"),
        }
    }

    fn dele(&mut self, rest: &[u8]) -> (r: Vec<u8>)
        ensures
            dele_spec(old(self)@, rest@) == (final(self)@, r@),
            final(self).store_spec() == old(self).store_spec(),
            final(self).authenticator() == old(self).authenticator(),
    {
        match self.index_of(rest) {
            Some(i) => {
                self.slots[i].deleted = true;
                assert(self@.slots =~= old(self)@.slots.update(
                    i as int,
                    SlotView { deleted: true, ..old(self)@.slots[i as int] },
                ));
                reply("+OK message deleted\r\n")
            },
            None => reply("-ERR no such message\r\n"),
        }
    }

    fn rset(&mut self) -> (r: Vec<u8>)
        ensures
            rset_spec(old(self)@) == (final(self)@, r@),
            final(self).store_spec() == old(self).store_spec(),
            final(self).authenticator() == old(self).authenticator(),
    {
        let mut i: usize = 0;
        while i < self.slots.len()
            invariant
                i <= self.slots@.len(),
                self.slots@.len() == old(self).slots@.len(),
                self.store == old(self).store,
                self.auth == old(self).auth,
                self.tls == old(self).tls,
                self.state == old(self).state,
                self.user == old(self).user,
                self.identity == old(self).identity,
                self.pending_sasl == old(self).pending_sasl,
                forall|j: int| 0 <= j < self.slots@.len() ==> {
                    &&& (#[trigger] self.slots@[j]).uid == old(self).slots@[j].uid
                    &&& self.slots@[j].raw == old(self).slots@[j].raw
                    &&& self.slots@[j].deleted == (if j < i { false } else { old(self).slots@[j].deleted })
                },
            decreases self.slots@.len() - i,
        {
            self.slots[i].deleted = false;
            i += 1;
        }
        assert(self@.slots =~= old(self)@.slots.map_values(|x: SlotView| SlotView { deleted: false, ..x }));
        reply("+OK\r\n")
    }
}

/// The answers of a line on which nothing outside was asked.
pub open spec fn no_answers() -> Pop3Answers {
    Pop3Answers { id: None, secret: None, inbox: seq![] }
}

impl<S: MailStore, A: Authenticator> Pop3Session<S, A> {
    fn login_ok(&mut self, id: Vec<u8>) -> (r: (Vec<u8>, Ghost<Seq<(u32, Seq<u8>)>>))
        ensures
            login_spec(old(self)@, id@, r.1@) == (final(self)@, r.0@),
            final(self).store_spec() == old(self).store_spec(),
            final(self).authenticator() == old(self).authenticator(),
            r.1@ == inbox_model(old(self).store_spec().model()),
    {
        let mut slots: Vec<Slot> = Vec::new();
        let ghost mut inbox: Seq<(u32, Seq<u8>)> = seq![];
        match self.store.mailbox("INBOX") {
            Some(mb) => {
                let mut i: usize = 0;
                while i < mb.messages.len()
                    invariant
                        i <= mb.messages@.len(),
                        slots@.len() == i,
                        inbox.len() == i,
                        forall|j: int| 0 <= j < i ==> #[trigger] inbox[j] == (mb.messages@[j].uid, mb.messages@[j].raw@),
                        forall|j: int| 0 <= j < i ==> #[trigger] slot_view(slots@[j]) == (SlotView {
                            uid: inbox[j].0,
                            raw: inbox[j].1,
                            deleted: false,
                        }),
                    decreases mb.messages@.len() - i,
                {
                    let m = &mb.messages[i];
                    slots.push(Slot { uid: m.uid, raw: to_vec(m.raw.as_slice()), deleted: false });
                    proof {
                        inbox = inbox.push((m.uid, m.raw@));
                    }
                    i += 1;
                }
                assert(inbox =~= inbox_model(old(self).store_spec().model()));
            },
            None => {
                assert(inbox =~= inbox_model(old(self).store_spec().model()));
            },
        }
        self.identity = Some(id);
        self.state = State::Transaction;
        self.slots = slots;
        assert(self@.slots =~= snapshot(inbox));
        let n = self.slots.len();
        let mut out = reply("+OK mailbox ready, ");
        push_dec(&mut out, n);
        push_lit(&mut out, " messages\r\n");
        (out, Ghost(inbox))
    }

    fn checked(&mut self, user: &[u8], pass: &[u8], fail: &str) -> (r: (Vec<u8>, Ghost<Pop3Answers>))
        ensures
            checked_spec(old(self)@, r.1@, lit(fail)) == (final(self)@, r.0@),
            final(self).store_spec() == old(self).store_spec(),
            final(self).authenticator() == old(self).authenticator(),
            old(self).authenticator().accepts(
                crate::imap::server::lossy_bytes(user@),
                crate::imap::server::lossy_bytes(pass@),
                r.1@.id,
            ),
            answers_bound(old(self).authenticator(), old(self).store_spec().model(), r.1@),
    {
        let u = crate::text::lossy_string(user);
        let p = crate::text::lossy_string(pass);
        match self.auth.verify(u.as_str(), p.as_str()) {
            Some(id) => {
                let ghost idv = id@;
                let (out, inbox) = self.login_ok(id);
                (out, Ghost(Pop3Answers { id: Some(idv), secret: None, inbox: inbox@ }))
            },
            None => (reply(fail), Ghost(no_answers())),
        }
    }

    fn pass(&mut self, pass: &[u8]) -> (r: (Vec<u8>, Ghost<Pop3Answers>))
        ensures
            pass_spec(old(self)@, r.1@) == (final(self)@, r.0@),
            final(self).store_spec() == old(self).store_spec(),
            final(self).authenticator() == old(self).authenticator(),
            answers_bound(old(self).authenticator(), old(self).store_spec().model(), r.1@),
    {
        let user = match &self.user {
            Some(u) => to_vec(u.as_slice()),
            None => return (reply("-ERR USER first\r\n"), Ghost(no_answers())),
        };
        self.checked(user.as_slice(), pass, "-ERR [AUTH] invalid credentials\r\n")
    }

    fn finish_plain(&mut self, ir: &[u8]) -> (r: (Vec<u8>, Ghost<Pop3Answers>))
        ensures
            plain_spec(old(self)@, ir@, r.1@) == (final(self)@, r.0@),
            final(self).store_spec() == old(self).store_spec(),
            final(self).authenticator() == old(self).authenticator(),
            answers_bound(old(self).authenticator(), old(self).store_spec().model(), r.1@),
    {
        match crate::auth::decode_plain_bytes(ir) {
            Some(cred) => self.checked(
                cred.authcid.as_str().as_bytes(),
                cred.password.as_str().as_bytes(),
                "-ERR [AUTH] invalid credentials\r\n",
            ),
            None => (reply("-ERR malformed SASL PLAIN\r\n"), Ghost(no_answers())),
        }
    }

    fn auth_cmd(&mut self, rest: &[u8]) -> (r: (Vec<u8>, Ghost<Pop3Answers>))
        ensures
            auth_spec(old(self)@, rest@, r.1@) == (final(self)@, r.0@),
            final(self).store_spec() == old(self).store_spec(),
            final(self).authenticator() == old(self).authenticator(),
            answers_bound(old(self).authenticator(), old(self).store_spec().model(), r.1@),
    {
        let ts = split_ws(rest);
        let ghost tv = crate::bytes::views(ts@);
        let mech: Vec<u8> = if ts.len() > 0 {
            assert(tv[0] == ts@[0]@);
            crate::bytes::to_upper(ts[0].as_slice())
        } else {
            Vec::new()
        };
        if crate::bytes::is_lit(mech.as_slice(), "PLAIN") {
            if ts.len() > 1 {
                assert(tv[1] == ts@[1]@);
                return self.finish_plain(ts[1].as_slice());
            }
            self.pending_sasl = Some(SaslStep::Plain);
            return (reply("+ \r\n"), Ghost(no_answers()));
        }
        (reply("-ERR unsupported SASL mechanism\r\n"), Ghost(no_answers()))
    }

    fn apop(&mut self, rest: &[u8]) -> (r: (Vec<u8>, Ghost<Pop3Answers>))
        ensures
            apop_spec(old(self)@, rest@, r.1@) == (final(self)@, r.0@),
            final(self).store_spec() == old(self).store_spec(),
            final(self).authenticator() == old(self).authenticator(),
            answers_bound(old(self).authenticator(), old(self).store_spec().model(), r.1@),
    {
        let ts = split_ws(rest);
        let ghost tv = crate::bytes::views(ts@);
        if ts.len() < 2 {
            return (reply("-ERR APOP requires name and digest\r\n"), Ghost(no_answers()));
        }
        assert(tv[0] == ts@[0]@ && tv[1] == ts@[1]@);
        let name = crate::text::lossy_string(ts[0].as_slice());
        let secret = match self.auth.secret_for(name.as_str()) {
            Some(s) => s,
            None => return (reply("-ERR [AUTH] APOP not available for this user\r\n"), Ghost(no_answers())),
        };
        let ghost sv = crate::bytes::utf8(secret@);
        let mut input = reply("<envoir.1.1@mail.dmtap.local>");
        push_all(&mut input, secret.as_str().as_bytes());
        let expected = crate::digest::hex(crate::digest::md5(input.as_slice()).as_slice());
        let given = crate::bytes::to_lower(ts[1].as_slice());
        if crate::auth::ct_eq(expected.as_str().as_bytes(), given.as_slice()) {
            let (out, a) = self.checked(ts[0].as_slice(), secret.as_str().as_bytes(), "-ERR [AUTH] APOP failed\r\n");
            (out, Ghost(Pop3Answers { secret: Some(sv), ..a@ }))
        } else {
            (reply("-ERR [AUTH] APOP digest mismatch\r\n"), Ghost(Pop3Answers { secret: Some(sv), ..no_answers() }))
        }
    }
}

/// The UIDs of the slots marked deleted, in order.
pub open spec fn deleted_uids(slots: Seq<SlotView>) -> Seq<u32>
    decreases slots.len(),
{
    if slots.len() == 0 {
        seq![]
    } else {
        deleted_uids(slots.drop_last()) + if slots.last().deleted {
            seq![slots.last().uid]
        } else {
            seq![]
        }
    }
}

/// What expunging `uids` from `b` leaves: a well-formed mailbox stays well formed, and (when
/// the modseq has room for every removal) exactly the messages whose UID is not listed remain.
pub open spec fn expunged_by(b: Mailbox, uids: Seq<u32>, nb: Mailbox) -> bool {
    &&& b.well_formed() ==> nb.well_formed()
    &&& b.well_formed() && b.highest_modseq + uids.len() <= u64::MAX ==> {
        &&& forall|i: int| 0 <= i < nb.messages@.len() ==> {
            &&& !uids.contains((#[trigger] nb.messages@[i]).uid)
            &&& b.messages@.contains(nb.messages@[i])
        }
        &&& forall|j: int| 0 <= j < b.messages@.len() && !uids.contains((#[trigger] b.messages@[j]).uid)
            ==> nb.messages@.contains(b.messages@[j])
    }
}

/// The store after a committing QUIT: the INBOX loses exactly the messages marked deleted in
/// the session, every other mailbox stays; without an INBOX nothing changes.
pub open spec fn commit_post(m: crate::store::StoreView, slots: Seq<SlotView>, m2: crate::store::StoreView) -> bool {
    match crate::store::lookup(m, "INBOX"@) {
        Some(b) => exists|nb: Mailbox|
            #[trigger] expunged_by(b, deleted_uids(slots), nb) && m2.entries == crate::store::put_box(
                m,
                "INBOX"@,
                nb,
            ).entries && m2.next_uid_validity == m.next_uid_validity,
        None => m2 == m,
    }
}

/// Expunge every message whose UID is listed, recording each as vanished. With UIDs ascending
/// and room in the modseq for every removal, exactly the listed messages leave, the others stay
/// in order.
pub fn expunge_uids(mb: &mut Mailbox, uids: &[u32])
    ensures
        old(mb).well_formed() ==> final(mb).well_formed(),
        old(mb).well_formed() && old(mb).highest_modseq + uids@.len() <= u64::MAX ==> {
            &&& forall|i: int| 0 <= i < final(mb).messages@.len() ==> {
                &&& !uids@.contains((#[trigger] final(mb).messages@[i]).uid)
                &&& old(mb).messages@.contains(final(mb).messages@[i])
            }
            &&& forall|j: int| 0 <= j < old(mb).messages@.len() && !uids@.contains(
                (#[trigger] old(mb).messages@[j]).uid,
            ) ==> final(mb).messages@.contains(old(mb).messages@[j])
        },
{
    let ghost o = old(mb).messages@;
    let ghost ok = old(mb).well_formed() && old(mb).highest_modseq + uids@.len() <= u64::MAX;
    let mut k: usize = 0;
    while k < uids.len()
        invariant
            k <= uids@.len(),
            old(mb).well_formed() ==> mb.well_formed(),
            ok ==> old(mb).well_formed(),
            ok ==> mb.highest_modseq <= old(mb).highest_modseq + k,
            ok ==> old(mb).highest_modseq + uids@.len() <= u64::MAX,
            ok ==> forall|i: int| 0 <= i < mb.messages@.len() ==> {
                &&& !uids@.take(k as int).contains((#[trigger] mb.messages@[i]).uid)
                &&& o.contains(mb.messages@[i])
            },
            ok ==> forall|j: int| 0 <= j < o.len() && !uids@.take(k as int).contains(
                (#[trigger] o[j]).uid,
            ) ==> mb.messages@.contains(o[j]),
        decreases uids@.len() - k,
    {
        let uid = uids[k];
        let ghost before = mb.messages@;
        assert(uids@.take(k + 1) =~= uids@.take(k as int).push(uid));
        if mb.highest_modseq < u64::MAX {
            match mb.index_of_uid(uid) {
                Some(pos) => {
                    mb.remove_at(pos);
                    proof {
                        if ok {
                            let after = mb.messages@;
                            assert(after == before.remove(pos as int));
                            assert forall|i: int| 0 <= i < after.len() implies {
                                &&& !uids@.take(k + 1).contains((#[trigger] after[i]).uid)
                                &&& o.contains(after[i])
                            } by {
                                let bi = if i < pos { i } else { i + 1 };
                                assert(after[i] == before[bi]);
                                assert(before[bi].uid != uid) by {
                                    if bi < pos {
                                        assert(before[bi].uid < before[pos as int].uid);
                                    } else {
                                        assert(before[pos as int].uid < before[bi].uid);
                                    }
                                }
                            }
                            assert forall|j: int| 0 <= j < o.len() && !uids@.take(k + 1).contains(
                                (#[trigger] o[j]).uid,
                            ) implies after.contains(o[j]) by {
                                assert(!uids@.take(k as int).contains(o[j].uid));
                                assert(before.contains(o[j]));
                                let bi = choose|bi: int| 0 <= bi < before.len() && before[bi] == o[j];
                                assert(uids@.take(k + 1)[k as int] == uid);
                                assert(o[j].uid != uid);
                                assert(bi != pos);
                                if bi < pos {
                                    assert(after[bi] == o[j]);
                                } else {
                                    assert(after[bi - 1] == o[j]);
                                }
                            }
                        }
                    }
                },
                None => {
                    proof {
                        if ok {
                            assert forall|i: int| 0 <= i < before.len() implies !uids@.take(k + 1).contains(
                                (#[trigger] before[i]).uid,
                            ) by {
                                assert(before[i].uid != uid);
                                assert(!uids@.take(k as int).contains(before[i].uid));
                            }
                            assert forall|j: int| 0 <= j < o.len() && !uids@.take(k + 1).contains(
                                (#[trigger] o[j]).uid,
                            ) implies before.contains(o[j]) by {
                                assert(!uids@.take(k as int).contains(o[j].uid));
                            }
                        }
                    }
                },
            }
        } else {
            assert(!ok);
        }
        k += 1;
    }
    assert(uids@.take(uids@.len() as int) =~= uids@);
}

impl<S: MailStore, A: Authenticator> Pop3Session<S, A> {
    fn deleted(&self) -> (r: Vec<u32>)
        ensures
            r@ == deleted_uids(self@.slots),
    {
        let mut out: Vec<u32> = Vec::new();
        let mut i: usize = 0;
        while i < self.slots.len()
            invariant
                i <= self.slots@.len(),
                out@ == deleted_uids(self@.slots.take(i as int)),
            decreases self.slots@.len() - i,
        {
            let ghost t = self@.slots.take(i as int + 1);
            assert(t.drop_last() =~= self@.slots.take(i as int));
            assert(t.last() == slot_view(self.slots@[i as int]));
            if self.slots[i].deleted {
                out.push(self.slots[i].uid);
            }
            assert(out@ =~= deleted_uids(t));
            i += 1;
        }
        assert(self@.slots.take(self@.slots.len() as int) =~= self@.slots);
        out
    }

    /// QUIT: in the transaction state the messages marked deleted are expunged from the
    /// store's INBOX (the UPDATE state).
    fn quit(&mut self) -> (r: Vec<u8>)
        ensures
            r@ == lit("+OK Envoir POP3 signing off\r\n"),
            final(self)@ == old(self)@,
            final(self).authenticator() == old(self).authenticator(),
            old(self)@.state != State::Transaction ==> final(self).store_spec() == old(self).store_spec(),
            old(self)@.state == State::Transaction ==> commit_post(
                old(self).store_spec().model(),
                old(self)@.slots,
                final(self).store_spec().model(),
            ),
    {
        if self.state == State::Transaction {
            let to_delete = self.deleted();
            let ghost m0 = self.store.model();
            let ghost mut nbox: Mailbox = arbitrary();
            match self.store.mailbox_mut("INBOX") {
                Some(mb) => {
                    let ghost b0 = *mb;
                    expunge_uids(mb, to_delete.as_slice());
                    proof {
                        nbox = *mb;
                        assert(expunged_by(b0, deleted_uids(old(self)@.slots), nbox));
                    }
                },
                None => {},
            }
            proof {
                if let Some(b) = crate::store::lookup(m0, "INBOX"@) {
                    assert(expunged_by(b, deleted_uids(old(self)@.slots), nbox));
                    assert(self.store.model().entries == crate::store::put_box(m0, "INBOX"@, nbox).entries);
                }
            }
            assert(commit_post(old(self).store_spec().model(), old(self)@.slots, self.store_spec().model()));
        }
        reply("+OK Envoir POP3 signing off\r\n")
    }

    /// Handle one command line (without its CRLF) and return the reply, possibly multi-line.
    /// RETR and TOP carry the stored message bytes unchanged, 8-bit bytes included. Where the
    /// authenticator or the store is consulted, the contract holds for whatever they answered;
    /// only a QUIT in the transaction state changes the store.
    pub fn feed_line_raw(&mut self, line: &str) -> (r: Vec<u8>)
        ensures
            final(self).authenticator() == old(self).authenticator(),
            exists|a: Pop3Answers| #[trigger] line_spec(old(self)@, lit(line), a) == (final(self)@, r@)
                && answers_bound(old(self).authenticator(), old(self).store_spec().model(), a),
            !commits(old(self)@, lit(line)) ==> final(self).store_spec() == old(self).store_spec(),
            commits(old(self)@, lit(line)) ==> commit_post(
                old(self).store_spec().model(),
                old(self)@.slots,
                final(self).store_spec().model(),
            ),
    {
        let l = line.as_bytes();
        assert(l@ == lit(line));
        if self.pending_sasl.is_some() {
            self.pending_sasl = None;
            assert(self@ == (Pop3View { pending: false, ..old(self)@ }));
            let (r, a) = self.finish_plain(crate::bytes::trim(l));
            assert(line_spec(old(self)@, lit(line), a@) == (self@, r@));
            return r;
        }
        let (verb, rest) = split_verb(l);
        let v = verb.as_slice();
        let auth = self.state == State::Authorization;
        let tr = self.state == State::Transaction;
        let na = Ghost(no_answers());
        proof {
            if v@ == lit("QUIT") {
                reveal_strlit("QUIT");
                reveal_strlit("CAPA");
                crate::bytes::lemma_ascii_lit("QUIT");
                crate::bytes::lemma_ascii_lit("CAPA");
                assert(lit("QUIT")[0] != lit("CAPA")[0]);
                assert(v@ != lit("CAPA"));
            }
        }
        let (r, a): (Vec<u8>, Ghost<Pop3Answers>) = if crate::bytes::is_lit(v, "CAPA") {
            (self.capa(), na)
        } else if crate::bytes::is_lit(v, "QUIT") {
            (self.quit(), na)
        } else if crate::bytes::is_lit(v, "NOOP") {
            (reply("+OK\r\n"), na)
        } else if auth && crate::bytes::is_lit(v, "STLS") {
            self.tls = true;
            (reply("+OK Begin TLS\r\n"), na)
        } else if auth && !self.tls && (crate::bytes::is_lit(v, "USER") || crate::bytes::is_lit(v, "PASS")
            || crate::bytes::is_lit(v, "AUTH")) {
            (reply("-ERR [AUTH] STLS required before authentication\r\n"), na)
        } else if auth && crate::bytes::is_lit(v, "USER") {
            self.user = Some(rest);
            (reply("+OK send PASS\r\n"), na)
        } else if auth && crate::bytes::is_lit(v, "PASS") {
            self.pass(rest.as_slice())
        } else if auth && crate::bytes::is_lit(v, "APOP") {
            self.apop(rest.as_slice())
        } else if auth && crate::bytes::is_lit(v, "AUTH") {
            self.auth_cmd(rest.as_slice())
        } else if tr && crate::bytes::is_lit(v, "STAT") {
            (self.stat(), na)
        } else if tr && crate::bytes::is_lit(v, "LIST") {
            (self.scan(rest.as_slice(), false), na)
        } else if tr && crate::bytes::is_lit(v, "UIDL") {
            (self.scan(rest.as_slice(), true), na)
        } else if tr && crate::bytes::is_lit(v, "RETR") {
            (self.retr(rest.as_slice()), na)
        } else if tr && crate::bytes::is_lit(v, "TOP") {
            (self.top(rest.as_slice()), na)
        } else if tr && crate::bytes::is_lit(v, "DELE") {
            (self.dele(rest.as_slice()), na)
        } else if tr && crate::bytes::is_lit(v, "RSET") {
            self.rset_cmd()
        } else {
            (reply("-ERR command not permitted in this state\r\n"), na)
        };
        assert(line_spec(old(self)@, lit(line), a@) == (self@, r@));
        r
    }

    fn rset_cmd(&mut self) -> (r: (Vec<u8>, Ghost<Pop3Answers>))
        ensures
            rset_spec(old(self)@) == (final(self)@, r.0@),
            final(self).store_spec() == old(self).store_spec(),
            final(self).authenticator() == old(self).authenticator(),
            r.1@ == no_answers(),
    {
        (self.rset(), Ghost(no_answers()))
    }

    /// [`Self::feed_line_raw`] with the reply as text (bytes that are not UTF-8 are replaced).
    pub fn feed_line(&mut self, line: &str) -> (r: String)
        ensures
            final(self).authenticator() == old(self).authenticator(),
            exists|a: Pop3Answers| {
                let (v, out) = #[trigger] line_spec(old(self)@, lit(line), a);
                v == final(self)@ && r@ == crate::text::utf8_lossy(out) && answers_bound(
                    old(self).authenticator(),
                    old(self).store_spec().model(),
                    a,
                )
            },
            !commits(old(self)@, lit(line)) ==> final(self).store_spec() == old(self).store_spec(),
            commits(old(self)@, lit(line)) ==> commit_post(
                old(self).store_spec().model(),
                old(self)@.slots,
                final(self).store_spec().model(),
            ),
    {
        let raw = self.feed_line_raw(line);
        crate::text::lossy_string(raw.as_slice())
    }
}

/// On a channel without TLS, USER, PASS and AUTH are refused before any credential is looked
/// at, and the session is left as it was, whatever the authenticator would have said.
pub proof fn cleartext_refuses_credentials(s: Pop3View, line: Seq<u8>, a: Pop3Answers)
    requires
        s.state == State::Authorization,
        !s.tls,
        !s.pending,
        verb_rest(line).0 == lit("USER") || verb_rest(line).0 == lit("PASS") || verb_rest(line).0
            == lit("AUTH"),
    ensures
        line_spec(s, line, a) == (s, lit("-ERR [AUTH] STLS required before authentication\r\n")),
{
    reveal_strlit("CAPA");
    reveal_strlit("QUIT");
    reveal_strlit("NOOP");
    reveal_strlit("STLS");
    reveal_strlit("USER");
    reveal_strlit("PASS");
    reveal_strlit("AUTH");
    crate::bytes::lemma_ascii_lit("CAPA");
    crate::bytes::lemma_ascii_lit("QUIT");
    crate::bytes::lemma_ascii_lit("NOOP");
    crate::bytes::lemma_ascii_lit("STLS");
    crate::bytes::lemma_ascii_lit("USER");
    crate::bytes::lemma_ascii_lit("PASS");
    crate::bytes::lemma_ascii_lit("AUTH");
    let v = verb_rest(line).0;
    assert(v != lit("CAPA") && v != lit("QUIT") && v != lit("NOOP") && v != lit("STLS")) by {
        assert(v[0] != lit("CAPA")[0] || v[1] != lit("CAPA")[1]);
        assert(v[0] != lit("QUIT")[0]);
        assert(v[0] != lit("NOOP")[0]);
        assert(v[0] != lit("STLS")[0] || v[1] != lit("STLS")[1]);
    }
}

/// Once the maildrop is open, no command changes which messages it holds or their bytes:
/// DELE and RSET only set and clear the deletion marks.
pub proof fn maildrop_fixed_after_login(s: Pop3View, line: Seq<u8>, a: Pop3Answers)
    requires
        s.state == State::Transaction,
        !s.pending,
    ensures
        ({
            let t = line_spec(s, line, a).0;
            &&& t.state == State::Transaction
            &&& t.identity == s.identity
            &&& t.slots.len() == s.slots.len()
            &&& forall|i: int| 0 <= i < s.slots.len() ==> (#[trigger] t.slots[i]).uid == s.slots[i].uid
                && t.slots[i].raw == s.slots[i].raw
        }),
{
}

/// RSET undoes every DELE: after deleting any message and resetting, the maildrop is what a
/// reset alone leaves.
pub proof fn rset_undoes_dele(s: Pop3View, num: Seq<u8>)
    ensures
        rset_spec(dele_spec(s, num).0) == rset_spec(s),
{
    let d = dele_spec(s, num).0;
    let l = rset_spec(d).0.slots;
    let r = rset_spec(s).0.slots;
    assert(l =~= r);
    assert(rset_spec(d).0 =~= rset_spec(s).0);
}

/// A message marked deleted can no longer be addressed: LIST, UIDL, RETR, TOP and DELE of its
/// number answer "no such message".
pub proof fn deleted_message_is_gone(s: Pop3View, num: Seq<u8>)
    requires
        index_spec(s.slots, num) is Some,
    ensures
        index_spec(dele_spec(s, num).0.slots, num) is None,
{
}

/// What a client does to a multi-line reply body (RFC 1939 §3): the `.` that begins a line is
/// dropped.
pub open spec fn unstuffed(t: Seq<u8>) -> Seq<u8>
    decreases t.len(),
{
    if t.len() == 0 {
        seq![]
    } else {
        let i = t.len() - 1;
        unstuffed(t.drop_last()) + if t[i] == 46 && (i == 0 || t[i - 1] == 10) {
            seq![]
        } else {
            seq![t[i]]
        }
    }
}

proof fn lemma_stuffed_last(s: Seq<u8>)
    requires
        s.len() > 0,
    ensures
        stuffed(s).len() > 0,
        stuffed(s).last() == s.last(),
    decreases s.len(),
{
}

proof fn lemma_stuffed_empty(s: Seq<u8>)
    ensures
        stuffed(s).len() == 0 <==> s.len() == 0,
    decreases s.len(),
{
}

/// Byte stuffing is undone by the client: removing the `.` at the start of each line of a
/// stuffed message gives the message back.
pub proof fn dot_stuffing_round_trip(s: Seq<u8>)
    ensures
        unstuffed(stuffed(s)) == s,
    decreases s.len(),
{
    if s.len() > 0 {
        let p = s.drop_last();
        let i = s.len() - 1;
        dot_stuffing_round_trip(p);
        lemma_stuffed_empty(p);
        if p.len() > 0 {
            lemma_stuffed_last(p);
        }
        let x = stuffed(p);
        let at_start = i == 0 || s[i - 1] == 10;
        assert(i > 0 ==> s[i - 1] == p.last());
        if s[i] == 46 && at_start {
            let y = x + seq![46u8];
            let z = y + seq![46u8];
            assert(stuffed(s) == z);
            assert(z.drop_last() =~= y);
            assert(y.drop_last() =~= x);
            assert(unstuffed(y) == unstuffed(x) + seq![]);
            assert(unstuffed(z) == unstuffed(y) + seq![46u8]);
            assert(unstuffed(z) =~= p.push(46u8));
        } else {
            let y = x + seq![s[i]];
            assert(stuffed(s) == y);
            assert(y.drop_last() =~= x);
            assert(unstuffed(y) =~= p.push(s[i]));
        }
        assert(p.push(s[i]) =~= s);
    }
}


/// The number of line feeds in a byte string.
pub open spec fn count_nl(s: Seq<u8>) -> nat
    decreases s.len(),
{
    if s.len() == 0 {
        0
    } else {
        count_nl(s.drop_last()) + if s.last() == 10 {
            1nat
        } else {
            0nat
        }
    }
}

proof fn lemma_count_nl_concat(x: Seq<u8>, y: Seq<u8>)
    ensures
        count_nl(x + y) == count_nl(x) + count_nl(y),
    decreases y.len(),
{
    if y.len() > 0 {
        lemma_count_nl_concat(x, y.drop_last());
        assert((x + y).drop_last() =~= x + y.drop_last());
    } else {
        assert(x + y =~= x);
    }
}

proof fn lemma_count_nl_none(x: Seq<u8>)
    requires
        forall|i: int| 0 <= i < x.len() ==> x[i] != 10,
    ensures
        count_nl(x) == 0,
    decreases x.len(),
{
    if x.len() > 0 {
        lemma_count_nl_none(x.drop_last());
    }
}

/// TOP's body lines: the first `n` lines of `b` are the front of `b` holding exactly
/// `min(n, lines of b)` line feeds; all of `b` when it has fewer than `n` line feeds, otherwise
/// up to and including the `n`-th line feed (nothing at all for `n = 0`).
pub proof fn law_first_lines(b: Seq<u8>, n: nat)
    ensures
        ({
            let t = first_lines(b, n);
            &&& t.len() <= b.len()
            &&& t == b.subrange(0, t.len() as int)
            &&& count_nl(t) == if n <= count_nl(b) { n } else { count_nl(b) }
            &&& count_nl(b) < n ==> t == b
            &&& 0 < n <= count_nl(b) ==> t.len() > 0 && t.last() == 10
        }),
    decreases b.len(),
{
    if n == 0 || b.len() == 0 {
        if b.len() == 0 {
            assert(b.subrange(0, 0) =~= b);
        } else {
            assert(b.subrange(0, 0) =~= Seq::<u8>::empty());
        }
    } else {
        let k = crate::mime::next_byte(b, 10, 0);
        crate::mime::lemma_next_byte(b, 10, 0);
        if k < b.len() {
            let head = b.subrange(0, k + 1);
            let rest = b.subrange(k + 1, b.len() as int);
            law_first_lines(rest, (n - 1) as nat);
            let t2 = first_lines(rest, (n - 1) as nat);
            assert(b =~= head + rest);
            lemma_count_nl_concat(head, rest);
            lemma_count_nl_none(head.drop_last());
            assert(head.drop_last() =~= b.subrange(0, k));
            assert(count_nl(head) == 1);
            lemma_count_nl_concat(head, t2);
            let t = head + t2;
            assert(t =~= b.subrange(0, t.len() as int));
            if t2.len() > 0 {
                assert(t.last() == t2.last());
            }
        } else {
            lemma_count_nl_none(b);
            assert(b.subrange(0, b.len() as int) =~= b);
        }
    }
}

/// TOP `msg n` answers the message's header block followed by exactly its first `n` body lines
/// (see [`law_first_lines`]): a prefix of the body with `min(n, body lines)` line feeds.
pub proof fn law_top_lines(slots: Seq<SlotView>, rest: Seq<u8>, i: int, n: nat)
    requires
        ws_tokens(rest).len() > 1,
        index_spec(slots, ws_tokens(rest)[0]) == Some(i),
        crate::bytes::parse_dec_spec(ws_tokens(rest)[1], usize::MAX as nat) == Some(n),
    ensures
        ({
            let raw = slots[i].raw;
            let off = crate::mime::body_offset_spec(raw);
            let body = raw.subrange(off, raw.len() as int);
            exists|t: Seq<u8>| {
                &&& #[trigger] top_spec(slots, rest) == lit("+OK\r\n") + dot_stuff_spec(raw.subrange(0, off) + t) + lit(".\r\n")
                &&& t == body.subrange(0, t.len() as int)
                &&& count_nl(t) == if n <= count_nl(body) { n } else { count_nl(body) }
                &&& count_nl(body) < n ==> t == body
                &&& 0 < n <= count_nl(body) ==> t.len() > 0 && t.last() == 10
            }
        }),
{
    let raw = slots[i].raw;
    let off = crate::mime::body_offset_spec(raw);
    let body = raw.subrange(off, raw.len() as int);
    law_first_lines(body, n);
    let t = first_lines(body, n);
    assert(top_spec(slots, rest) == lit("+OK\r\n") + dot_stuff_spec(raw.subrange(0, off) + t) + lit(".\r\n"));
}


proof fn lemma_active_count_mark(slots: Seq<SlotView>, i: int)
    requires
        0 <= i < slots.len(),
        !slots[i].deleted,
    ensures
        active_count(slots.update(i, SlotView { deleted: true, ..slots[i] })) + 1 == active_count(slots),
    decreases slots.len(),
{
    let t = slots.update(i, SlotView { deleted: true, ..slots[i] });
    if i < slots.len() - 1 {
        lemma_active_count_mark(slots.drop_last(), i);
        assert(t.drop_last() =~= slots.drop_last().update(i, SlotView { deleted: true, ..slots[i] }));
    } else {
        assert(t.drop_last() =~= slots.drop_last());
    }
}

proof fn lemma_active_count_clear(slots: Seq<SlotView>)
    ensures
        active_count(slots.map_values(|x: SlotView| SlotView { deleted: false, ..x })) == slots.len(),
    decreases slots.len(),
{
    if slots.len() > 0 {
        lemma_active_count_clear(slots.drop_last());
        assert(slots.map_values(|x: SlotView| SlotView { deleted: false, ..x }).drop_last() =~= slots.drop_last().map_values(
            |x: SlotView| SlotView { deleted: false, ..x },
        ));
    }
}

/// DELE marks exactly the message it names: that message can no longer be addressed, one
/// message fewer is counted, every other message and every message's content stay; RSET
/// unmarks them all, so every message counts again.
pub proof fn law_dele_rset(s: Pop3View, rest: Seq<u8>, i: int)
    requires
        index_spec(s.slots, rest) == Some(i),
    ensures
        ({
            let (t, out) = dele_spec(s, rest);
            &&& out == lit("+OK message deleted\r\n")
            &&& t.slots.len() == s.slots.len()
            &&& t.slots[i].deleted && t.slots[i].uid == s.slots[i].uid && t.slots[i].raw == s.slots[i].raw
            &&& forall|j: int| 0 <= j < s.slots.len() && j != i ==> t.slots[j] == s.slots[j]
            &&& index_spec(t.slots, rest) is None
            &&& active_count(t.slots) + 1 == active_count(s.slots)
            &&& active_count(rset_spec(t).0.slots) == s.slots.len()
            &&& forall|j: int| 0 <= j < s.slots.len() ==> !(#[trigger] rset_spec(t).0.slots[j]).deleted
                && rset_spec(t).0.slots[j].uid == s.slots[j].uid && rset_spec(t).0.slots[j].raw == s.slots[j].raw
        }),
{
    lemma_active_count_mark(s.slots, i);
    let (t, out) = dele_spec(s, rest);
    lemma_active_count_clear(t.slots);
}

} // verus!
