//! SMTP message submission (RFC 6409 over RFC 5321): the outbound edge for legacy clients.
//!
//! [`SmtpSession`] is a line-driven state machine: the transport feeds it one line at a time and
//! sends back the reply it returns. A completed `DATA` becomes a [`Submission`], collected by
//! [`SmtpSession::take_submissions`].
//!
//! Advertised extensions: STARTTLS (RFC 3207), AUTH PLAIN/LOGIN (RFC 4954), PIPELINING
//! (RFC 2920), 8BITMIME (RFC 6152), SIZE (RFC 1870), SMTPUTF8 (RFC 6531), DSN (RFC 3461),
//! ENHANCEDSTATUSCODES.
use vstd::prelude::*;
use crate::auth::Authenticator;
use crate::bytes::{
    eq_ci, is_kw, is_lit, lit_vec, push_all, push_lit, slice_of, to_upper, to_vec, trim,
    trim_start,
};
use crate::mime::scan_to;
use crate::text::lossy_string;

verus! {

/// The maximum message size advertised via the SIZE extension (RFC 1870): 50 MiB.
pub const MAX_SIZE: usize = 52428800;

// ---------------------------------------------------------------------------------------------
// Envelope parameters
// ---------------------------------------------------------------------------------------------

/// What the sender asked to have returned in a DSN (RFC 3461 `RET`): the full message, or its
/// headers only.
#[derive(Debug, Clone, Copy, PartialEq, Eq, Structural)]
pub enum Ret {
    Full,
    Headers,
}

/// `RET=` value: `FULL` or `HDRS`, any case.
pub open spec fn ret_spec(v: Seq<u8>) -> Option<Ret> {
    if crate::bytes::upper_seq(v) == crate::bytes::lit("FULL") {
        Some(Ret::Full)
    } else if crate::bytes::upper_seq(v) == crate::bytes::lit("HDRS") {
        Some(Ret::Headers)
    } else {
        None
    }
}

impl Ret {
    pub fn parse(v: &[u8]) -> (r: Option<Ret>)
        ensures
            r == ret_spec(v@),
    {
        let up = to_upper(v);
        if is_lit(up.as_slice(), "FULL") {
            Some(Ret::Full)
        } else if is_lit(up.as_slice(), "HDRS") {
            Some(Ret::Headers)
        } else {
            None
        }
    }
}

/// The end of the white-space-free token starting at `i`.
pub open spec fn tok_end(s: Seq<u8>, i: int) -> int
    decreases s.len() - i,
{
    if i < 0 || i >= s.len() {
        if i < 0 { 0 } else { s.len() as int }
    } else if crate::bytes::is_ws(s[i]) {
        i
    } else {
        tok_end(s, i + 1)
    }
}

pub proof fn lemma_tok_end(s: Seq<u8>, i: int)
    requires
        0 <= i <= s.len(),
    ensures
        i <= tok_end(s, i) <= s.len(),
    decreases s.len() - i,
{
    if i < s.len() && !crate::bytes::is_ws(s[i]) {
        lemma_tok_end(s, i + 1);
    }
}

/// The white-space separated tokens of `s` from position `i` (as `split_whitespace`).
pub open spec fn tokens_from(s: Seq<u8>, i: int) -> Seq<Seq<u8>>
    decreases s.len() - i,
{
    if i < 0 || i >= s.len() {
        seq![]
    } else if crate::bytes::is_ws(s[i]) {
        tokens_from(s, i + 1)
    } else {
        proof {
            lemma_tok_end(s, i);
            lemma_tok_end(s, i + 1);
        }
        seq![s.subrange(i, tok_end(s, i))] + tokens_from(s, tok_end(s, i))
    }
}

pub open spec fn ws_tokens(s: Seq<u8>) -> Seq<Seq<u8>> {
    tokens_from(s, 0)
}

/// The white-space separated tokens of `s`.
pub fn split_ws(s: &[u8]) -> (r: Vec<Vec<u8>>)
    ensures
        crate::bytes::views(r@) == ws_tokens(s@),
{
    let mut out: Vec<Vec<u8>> = Vec::new();
    let mut i: usize = 0;
    assert(crate::bytes::views(out@) =~= Seq::<Seq<u8>>::empty());
    while i < s.len()
        invariant
            i <= s@.len(),
            crate::bytes::views(out@) + tokens_from(s@, i as int) == ws_tokens(s@),
        decreases s@.len() - i,
    {
        let ghost before = crate::bytes::views(out@);
        if crate::bytes::byte_is_ws(s[i]) {
            i += 1;
        } else {
            proof {
                lemma_tok_end(s@, i as int);
            }
            let mut e = i;
            while e < s.len() && !crate::bytes::byte_is_ws(s[e])
                invariant
                    i <= e <= s@.len(),
                    tok_end(s@, e as int) == tok_end(s@, i as int),
                decreases s@.len() - e,
            {
                e += 1;
            }
            let t = to_vec(slice_of(s, i, e));
            out.push(t);
            assert(crate::bytes::views(out@) =~= before.push(t@));
            assert(before + tokens_from(s@, i as int) =~= crate::bytes::views(out@) + tokens_from(
                s@,
                e as int,
            ));
            i = e;
        }
    }
    assert(crate::bytes::views(out@) + Seq::<Seq<u8>>::empty() =~= crate::bytes::views(out@));
    out
}

/// The address after `MAIL FROM:` / `RCPT TO:` in the arguments `rest`: the keyword and colon
/// are found case-insensitively; then `<addr>` when a `<` comes before the first `>`, otherwise
/// the first white-space token; `None` when the keyword is absent or nothing follows it.
pub open spec fn path_param(rest: Seq<u8>, kw: Seq<u8>) -> Option<Seq<u8>> {
    let k = kw.push(58u8);
    let up = crate::bytes::upper_seq(rest);
    match first_occ(up, k, 0) {
        None => None,
        Some(idx) => {
        let after = crate::bytes::trim_start_spec(rest.subrange(idx + k.len(), rest.len() as int));
        let lt = crate::mime::next_byte(after, 60, 0);
        let gt = crate::mime::next_byte(after, 62, 0);
        if lt < after.len() && gt < after.len() && gt > lt {
            Some(after.subrange(lt + 1, gt))
        } else {
            let ts = ws_tokens(after);
            if ts.len() > 0 {
                Some(ts[0])
            } else {
                None
            }
        }
        },
    }
}

/// The first position at or after `i` where `n` occurs in `h`.
pub open spec fn first_occ(h: Seq<u8>, n: Seq<u8>, i: int) -> Option<int>
    decreases h.len() - i,
{
    if i < 0 || i + n.len() > h.len() {
        None
    } else if h.subrange(i, i + n.len()) == n {
        Some(i)
    } else if i >= h.len() {
        None
    } else {
        first_occ(h, n, i + 1)
    }
}

pub proof fn lemma_first_occ(h: Seq<u8>, n: Seq<u8>, i: int)
    requires
        0 <= i,
    ensures
        first_occ(h, n, i) matches Some(k) ==> i <= k && k + n.len() <= h.len(),
    decreases h.len() - i,
{
    if i + n.len() <= h.len() && h.subrange(i, i + n.len()) != n && i < h.len() {
        lemma_first_occ(h, n, i + 1);
    }
}

fn find_occ(h: &[u8], n: &[u8]) -> (r: Option<usize>)
    ensures
        match r {
            Some(k) => first_occ(h@, n@, 0) == Some(k as int),
            None => first_occ(h@, n@, 0) is None,
        },
{
    let mut i: usize = 0;
    while i <= h.len() && n.len() <= h.len() - i
        invariant
            first_occ(h@, n@, i as int) == first_occ(h@, n@, 0),
        decreases h@.len() + 1 - i,
    {
        if crate::bytes::matches_at(h, n, i) {
            return Some(i);
        }
        if i == h.len() {
            return None;
        }
        i += 1;
    }
    None
}

/// Extract the address after `MAIL FROM:` / `RCPT TO:`.
pub fn parse_path_param(rest: &str, keyword: &str) -> (r: Option<String>)
    ensures
        match path_param(crate::bytes::lit(rest), crate::bytes::lit(keyword)) {
            Some(a) => r matches Some(s) && s@ == crate::text::utf8_lossy(a),
            None => r is None,
        },
{
    match path_param_bytes(rest.as_bytes(), keyword.as_bytes()) {
        Some(a) => Some(lossy_string(a.as_slice())),
        None => None,
    }
}

/// [`parse_path_param`] on bytes.
pub fn path_param_bytes(rest: &[u8], keyword: &[u8]) -> (r: Option<Vec<u8>>)
    ensures
        match r {
            Some(a) => path_param(rest@, keyword@) == Some(a@),
            None => path_param(rest@, keyword@) is None,
        },
{
    let up = to_upper(rest);
    let mut k = to_vec(keyword);
    k.push(58);
    assert(k@ == keyword@.push(58u8));
    let idx = match find_occ(up.as_slice(), k.as_slice()) {
        Some(i) => i,
        None => return None,
    };
    proof {
        lemma_first_occ(up@, k@, 0);
    }
    assert(up@.len() == rest@.len());
    assert(first_occ(up@, k@, 0) == Some(idx as int));
    assert(idx + k@.len() <= up@.len());
    let klen = k.len();
    let ulen = up.len();
    assert(idx + klen <= ulen);
    let start = idx + klen;
    let after = trim_start(slice_of(rest, start, rest.len()));
    let lt = scan_to(after, 60, 0);
    let gt = scan_to(after, 62, 0);
    proof {
        crate::mime::lemma_next_byte(after@, 60, 0);
        crate::mime::lemma_next_byte(after@, 62, 0);
    }
    if lt < after.len() && gt < after.len() && gt > lt {
        Some(to_vec(slice_of(after, lt + 1, gt)))
    } else {
        let ts = split_ws(after);
        if ts.len() > 0 {
            assert(crate::bytes::views(ts@)[0] == ts@[0]@);
            Some(ts[0].clone())
        } else {
            None
        }
    }
}


/// The value of the first `key=value` token (key matched case-insensitively) in `toks`.
pub open spec fn param_in(toks: Seq<Seq<u8>>, key: Seq<u8>) -> Option<Seq<u8>>
    decreases toks.len(),
{
    if toks.len() == 0 {
        None
    } else {
        let t = toks[0];
        let e = crate::mime::next_byte(t, 61, 0);
        if e < t.len() && crate::bytes::eq_ci_spec(t.subrange(0, e), key) {
            Some(t.subrange(e + 1, t.len() as int))
        } else {
            param_in(toks.drop_first(), key)
        }
    }
}

/// The value of the ESMTP parameter `key` among the white-space separated arguments.
pub open spec fn param_spec(rest: Seq<u8>, key: Seq<u8>) -> Option<Seq<u8>> {
    param_in(ws_tokens(rest), key)
}

/// The value of an ESMTP `KEY=value` parameter (key case-insensitive), if present.
pub fn param_value(rest: &[u8], key: &str) -> (r: Option<Vec<u8>>)
    ensures
        match r {
            Some(v) => param_spec(rest@, crate::bytes::lit(key)) == Some(v@),
            None => param_spec(rest@, crate::bytes::lit(key)) is None,
        },
{
    let toks = split_ws(rest);
    let ghost ts = crate::bytes::views(toks@);
    let mut i: usize = 0;
    assert(ts.skip(0) =~= ts);
    while i < toks.len()
        invariant
            i <= toks@.len(),
            ts == crate::bytes::views(toks@),
            ts == ws_tokens(rest@),
            param_in(ts.skip(i as int), crate::bytes::lit(key)) == param_in(ts, crate::bytes::lit(key)),
        decreases toks@.len() - i,
    {
        assert(ts.skip(i as int)[0] == toks@[i as int]@);
        assert(ts.skip(i as int).drop_first() =~= ts.skip(i + 1));
        let t = toks[i].as_slice();
        let e = scan_to(t, 61, 0);
        proof {
            crate::mime::lemma_next_byte(t@, 61, 0);
        }
        if e < t.len() && is_kw(slice_of(t, 0, e), key) {
            let v = to_vec(slice_of(t, e + 1, t.len()));
            assert(ts.skip(i as int).len() > 0);
            assert(param_in(ts.skip(i as int), crate::bytes::lit(key)) == Some(v@));
            return Some(v);
        }
        i += 1;
    }
    None
}

// ---------------------------------------------------------------------------------------------
// Decimal rendering
// ---------------------------------------------------------------------------------------------

/// The decimal digits of `n`.
pub open spec fn dec_spec(n: nat) -> Seq<u8>
    decreases n,
{
    if n < 10 {
        seq![(48 + n) as u8]
    } else {
        dec_spec(n / 10) + seq![(48 + n % 10) as u8]
    }
}

/// Append the decimal digits of `n`.
pub fn push_dec(out: &mut Vec<u8>, n: usize)
    ensures
        final(out)@ == old(out)@ + dec_spec(n as nat),
    decreases n,
{
    if n < 10 {
        out.push(48 + n as u8);
    } else {
        push_dec(out, n / 10);
        out.push(48 + (n % 10) as u8);
    }
    assert(final(out)@ =~= old(out)@ + dec_spec(n as nat));
}

// ---------------------------------------------------------------------------------------------
// Submissions and delivery-status notifications
// ---------------------------------------------------------------------------------------------

/// An accepted submission (envelope + RFC 5322 bytes), with the DSN parameters (RFC 3461) the
/// client attached.
#[derive(Debug, Clone)]
pub struct Submission {
    pub mail_from: String,
    pub rcpt_to: Vec<String>,
    pub data: Vec<u8>,
    /// The identity key that authenticated this session; empty only when the session ran without
    /// requiring authentication.
    pub authed_identity: Vec<u8>,
    /// `ENVID=`: echoed back as `Original-Envelope-Id` in any DSN (RFC 3461 §4.4).
    pub envid: Option<String>,
    /// `RET=`: whether a DSN carries the full message or just headers (RFC 3461 §4.3).
    pub ret: Option<Ret>,
    /// Per-recipient `NOTIFY=` values, aligned with `rcpt_to`.
    pub dsn_notify: Vec<Option<String>>,
}

/// The per-recipient delivery action reported in a DSN (RFC 3464 §2.3.3).
#[derive(Debug, Clone, Copy, PartialEq, Eq, Structural)]
pub enum DsnAction {
    Failed,
    Delayed,
    Delivered,
    Relayed,
    Expanded,
}

impl DsnAction {
    /// The `Action:` field value.
    pub fn wire(self) -> (r: &'static str)
        ensures
            r@ == match self {
                DsnAction::Failed => "failed"@,
                DsnAction::Delayed => "delayed"@,
                DsnAction::Delivered => "delivered"@,
                DsnAction::Relayed => "relayed"@,
                DsnAction::Expanded => "expanded"@,
            },
    {
        match self {
            DsnAction::Failed => "failed",
            DsnAction::Delayed => "delayed",
            DsnAction::Delivered => "delivered",
            DsnAction::Relayed => "relayed",
            DsnAction::Expanded => "expanded",
        }
    }

    /// The human-readable lead-in for the recipient's paragraph.
    pub fn human(self) -> (r: &'static str)
        ensures
            r@ == match self {
                DsnAction::Failed => "Delivery to the following recipient failed permanently:"@,
                DsnAction::Delayed => "Delivery to the following recipient has been delayed:"@,
                DsnAction::Delivered => "Your message was successfully delivered to:"@,
                DsnAction::Relayed => "Your message was relayed to:"@,
                DsnAction::Expanded => "Your message was expanded to:"@,
            },
    {
        match self {
            DsnAction::Failed => "Delivery to the following recipient failed permanently:",
            DsnAction::Delayed => "Delivery to the following recipient has been delayed:",
            DsnAction::Delivered => "Your message was successfully delivered to:",
            DsnAction::Relayed => "Your message was relayed to:",
            DsnAction::Expanded => "Your message was expanded to:",
        }
    }
}

/// One recipient's status in a DSN report (RFC 3464 §2.3).
#[derive(Debug, Clone)]
pub struct DsnRecipient {
    pub address: String,
    pub action: DsnAction,
    /// The RFC 3463 enhanced status code, e.g. `5.1.1`.
    pub status: String,
    /// An optional SMTP diagnostic (`Diagnostic-Code: smtp; 550 ...`).
    pub diagnostic: Option<String>,
}

/// Some comma-separated piece of `v`, trimmed, equals `w`.
pub open spec fn has_piece(v: Seq<u8>, w: Seq<u8>) -> bool {
    exists|i: int|
        0 <= i < crate::bytes::split_spec(v, 44).len() && crate::bytes::trim_spec(
            #[trigger] crate::bytes::split_spec(v, 44)[i],
        ) == w
}

/// Whether a recipient's `NOTIFY=` value asks for a failure DSN: absent means the default
/// (notify on failure); `NEVER` suppresses; otherwise an explicit `FAILURE` is honoured.
pub open spec fn wants_failure_spec(notify: Option<Seq<u8>>) -> bool {
    match notify {
        None => true,
        Some(v) => {
            let up = crate::bytes::upper_seq(v);
            !has_piece(up, crate::bytes::lit("NEVER")) && has_piece(up, crate::bytes::lit("FAILURE"))
        },
    }
}

fn any_piece(ps: &Vec<Vec<u8>>, w: &str) -> (r: bool)
    ensures
        r == exists|i: int|
            0 <= i < ps@.len() && crate::bytes::trim_spec(#[trigger] crate::bytes::views(ps@)[i])
                == crate::bytes::lit(w),
{
    let mut i: usize = 0;
    while i < ps.len()
        invariant
            i <= ps@.len(),
            forall|j: int|
                0 <= j < i ==> crate::bytes::trim_spec(#[trigger] crate::bytes::views(ps@)[j])
                    != crate::bytes::lit(w),
        decreases ps@.len() - i,
    {
        assert(crate::bytes::views(ps@)[i as int] == ps@[i as int]@);
        if is_lit(trim(ps[i].as_slice()), w) {
            return true;
        }
        i += 1;
    }
    false
}

/// Whether a recipient's `NOTIFY=` value asks for a failure DSN (RFC 3461 §4.1).
pub fn wants_failure_dsn(notify: Option<&str>) -> (r: bool)
    ensures
        r == wants_failure_spec(
            match notify {
                Some(v) => Some(crate::bytes::lit(v)),
                None => None,
            },
        ),
{
    match notify {
        None => true,
        Some(v) => {
            let up = to_upper(v.as_bytes());
            let ps = crate::bytes::split_on(up.as_slice(), 44);
            if any_piece(&ps, "NEVER") {
                false
            } else {
                any_piece(&ps, "FAILURE")
            }
        },
    }
}


/// A delivery-status report to be rendered into an RFC 3464 `multipart/report` message.
#[derive(Debug, Clone)]
pub struct DsnReport {
    /// Who the report is addressed to: the original `MAIL FROM` (the return path).
    pub notify_to: String,
    /// This node's reporting MTA name (`Reporting-MTA: dns; <name>`).
    pub reporting_mta: String,
    /// The echoed `ENVID` (`Original-Envelope-Id`), if the submission supplied one.
    pub original_envelope_id: Option<String>,
    pub recipients: Vec<DsnRecipient>,
    /// The submitted message, returned whole or as its headers.
    pub original_message: Vec<u8>,
    /// Whether to return the full message or just its headers (from `RET=`).
    pub ret: Ret,
    pub arrival: u64,
}

/// The text of an optional string.
pub open spec fn opt_chars(o: Option<String>) -> Option<Seq<char>> {
    match o {
        Some(s) => Some(s@),
        None => None,
    }
}

/// The recipients among `rcpts` that want a failure report, in order; the `NOTIFY=` value of
/// recipient `k` is `notify[k]`, absent past the end of `notify`.
pub open spec fn failure_recipients(rcpts: Seq<String>, notify: Seq<Option<String>>) -> Seq<Seq<char>>
    decreases rcpts.len(),
{
    if rcpts.len() == 0 {
        seq![]
    } else {
        let k = rcpts.len() - 1;
        let n = if k < notify.len() { notify[k] } else { None };
        let before = failure_recipients(rcpts.drop_last(), notify);
        if wants_failure_spec(
            match n {
                Some(v) => Some(crate::bytes::utf8(v@)),
                None => None,
            },
        ) {
            before.push(rcpts.last()@)
        } else {
            before
        }
    }
}

impl DsnReport {
    /// A permanent-failure report for every recipient of `sub` that asked to be notified on
    /// failure (RFC 3461: `NOTIFY=NEVER` and success-only recipients are skipped); `None` when no
    /// recipient wants one. `status` and `diagnostic` describe the failure.
    pub fn failure_for(
        sub: &Submission,
        reporting_mta: &str,
        status: &str,
        diagnostic: Option<&str>,
        now: u64,
    ) -> (r: Option<DsnReport>)
        ensures
            ({
                let fr = failure_recipients(sub.rcpt_to@, sub.dsn_notify@);
                &&& r is None <==> fr.len() == 0
                &&& r matches Some(d) ==> {
                    &&& d.notify_to@ == sub.mail_from@
                    &&& d.reporting_mta@ == reporting_mta@
                    &&& opt_chars(d.original_envelope_id) == opt_chars(sub.envid)
                    &&& d.original_message@ == sub.data@
                    &&& d.ret == (match sub.ret {
                        Some(x) => x,
                        None => Ret::Headers,
                    })
                    &&& d.arrival == now
                    &&& d.recipients@.len() == fr.len()
                    &&& forall|k: int|
                        0 <= k < fr.len() ==> {
                            let rc = #[trigger] d.recipients@[k];
                            &&& rc.address@ == fr[k]
                            &&& rc.action == DsnAction::Failed
                            &&& rc.status@ == status@
                            &&& opt_chars(rc.diagnostic) == (match diagnostic {
                                Some(x) => Some(x@),
                                None => None,
                            })
                        }
                }
            }),
    {
        let mut recipients: Vec<DsnRecipient> = Vec::new();
        let mut i: usize = 0;
        while i < sub.rcpt_to.len()
            invariant
                i <= sub.rcpt_to@.len(),
                recipients@.len() == failure_recipients(sub.rcpt_to@.take(i as int), sub.dsn_notify@).len(),
                forall|k: int|
                    0 <= k < recipients@.len() ==> {
                        let rc = #[trigger] recipients@[k];
                        &&& rc.address@ == failure_recipients(sub.rcpt_to@.take(i as int), sub.dsn_notify@)[k]
                        &&& rc.action == DsnAction::Failed
                        &&& rc.status@ == status@
                        &&& opt_chars(rc.diagnostic) == (match diagnostic {
                            Some(x) => Some(x@),
                            None => None,
                        })
                    },
            decreases sub.rcpt_to@.len() - i,
        {
            let ghost pre = sub.rcpt_to@.take(i as int);
            let ghost next = sub.rcpt_to@.take(i + 1);
            assert(next.drop_last() =~= pre);
            assert(next.last() == sub.rcpt_to@[i as int]);
            let wants = if i < sub.dsn_notify.len() {
                match &sub.dsn_notify[i] {
                    Some(v) => wants_failure_dsn(Some(v.as_str())),
                    None => wants_failure_dsn(None),
                }
            } else {
                wants_failure_dsn(None)
            };
            if wants {
                let diag = match diagnostic {
                    Some(d) => Some(String::from_str(d)),
                    None => None,
                };
                recipients.push(
                    DsnRecipient {
                        address: sub.rcpt_to[i].clone(),
                        action: DsnAction::Failed,
                        status: String::from_str(status),
                        diagnostic: diag,
                    },
                );
            }
            i += 1;
        }
        assert(sub.rcpt_to@.take(sub.rcpt_to@.len() as int) =~= sub.rcpt_to@);
        if recipients.len() == 0 {
            return None;
        }
        let envid = match &sub.envid {
            Some(e) => Some(e.clone()),
            None => None,
        };
        let ret = match sub.ret {
            Some(x) => x,
            None => Ret::Headers,
        };
        Some(
            DsnReport {
                notify_to: sub.mail_from.clone(),
                reporting_mta: String::from_str(reporting_mta),
                original_envelope_id: envid,
                recipients,
                original_message: sub.data.clone(),
                ret,
                arrival: now,
            },
        )
    }
}

/// The human-readable paragraph of one recipient.
pub open spec fn human_block(r: DsnRecipient) -> Seq<u8> {
    crate::bytes::utf8(human_text(r.action)) + crate::bytes::lit("\r\n  ") + crate::bytes::utf8(r.address@)
        + crate::bytes::lit(" (status ") + crate::bytes::utf8(r.status@) + crate::bytes::lit(")\r\n")
        + match r.diagnostic {
        Some(d) => crate::bytes::lit("  ") + crate::bytes::utf8(d@) + crate::bytes::lit("\r\n"),
        None => seq![],
    }
}

/// The per-recipient fields of the machine-readable part (RFC 3464 §2.3).
pub open spec fn status_block(r: DsnRecipient) -> Seq<u8> {
    crate::bytes::lit("\r\nOriginal-Recipient: rfc822;") + crate::bytes::utf8(r.address@)
        + crate::bytes::lit("\r\nFinal-Recipient: rfc822;") + crate::bytes::utf8(r.address@)
        + crate::bytes::lit("\r\nAction: ") + crate::bytes::utf8(wire_text(r.action))
        + crate::bytes::lit("\r\nStatus: ") + crate::bytes::utf8(r.status@) + crate::bytes::lit("\r\n")
        + match r.diagnostic {
        Some(d) => crate::bytes::lit("Diagnostic-Code: smtp; ") + crate::bytes::utf8(d@)
            + crate::bytes::lit("\r\n"),
        None => seq![],
    }
}

/// The blocks of the recipients, in order: the human paragraphs or the status fields.
pub open spec fn blocks(rs: Seq<DsnRecipient>, human: bool) -> Seq<u8>
    decreases rs.len(),
{
    if rs.len() == 0 {
        seq![]
    } else {
        blocks(rs.drop_last(), human) + if human {
            human_block(rs.last())
        } else {
            status_block(rs.last())
        }
    }
}

/// The overall outcome named in the subject: `Delivered` when every recipient was delivered,
/// `Failure` when any failed, `Delayed` otherwise.
pub open spec fn overall_text(rs: Seq<DsnRecipient>) -> Seq<u8> {
    if forall|k: int| 0 <= k < rs.len() ==> (#[trigger] rs[k]).action == DsnAction::Delivered {
        crate::bytes::lit("Delivered")
    } else if exists|k: int| 0 <= k < rs.len() && (#[trigger] rs[k]).action == DsnAction::Failed {
        crate::bytes::lit("Failure")
    } else {
        crate::bytes::lit("Delayed")
    }
}

/// The date text of a report.
pub open spec fn dsn_date(d: DsnReport) -> Seq<u8> {
    crate::bytes::utf8(crate::text::utf8_lossy(crate::date::rfc5322_date_text(d.arrival)))
}

/// The header block of a report whose boundary is `b`.
pub open spec fn dsn_headers(d: DsnReport, b: Seq<u8>) -> Seq<u8> {
    crate::bytes::lit("From: Mail Delivery System <postmaster@") + crate::bytes::utf8(d.reporting_mta@)
        + crate::bytes::lit(">\r\nTo: <") + crate::bytes::utf8(d.notify_to@)
        + crate::bytes::lit(">\r\nSubject: Delivery Status Notification (") + overall_text(d.recipients@)
        + crate::bytes::lit(")\r\nDate: ") + dsn_date(d) + crate::bytes::lit(
        "\r\nMIME-Version: 1.0\r\nAuto-Submitted: auto-replied\r\nContent-Type: multipart/report; report-type=delivery-status;\r\n\tboundary=\"",
    ) + b + crate::bytes::lit("\"\r\n\r\n")
}

/// The human-readable part.
pub open spec fn dsn_part_one(d: DsnReport, b: Seq<u8>) -> Seq<u8> {
    crate::bytes::lit("--") + b + crate::bytes::lit(
        "\r\nContent-Type: text/plain; charset=utf-8\r\n\r\nThis is an automatically generated Delivery Status Notification.\r\n\r\n",
    ) + blocks(d.recipients@, true) + crate::bytes::lit("\r\n")
}

/// The `Original-Envelope-Id:` line, where there is an envelope id.
pub open spec fn envid_line(o: Option<String>) -> Seq<u8> {
    match o {
        Some(e) => crate::bytes::lit("Original-Envelope-Id: ") + crate::bytes::utf8(e@) + crate::bytes::lit("\r\n"),
        None => seq![],
    }
}

/// The machine-readable delivery-status part.
pub open spec fn dsn_part_two(d: DsnReport, b: Seq<u8>) -> Seq<u8> {
    crate::bytes::lit("--") + b + crate::bytes::lit(
        "\r\nContent-Type: message/delivery-status\r\n\r\nReporting-MTA: dns; ",
    ) + crate::bytes::utf8(d.reporting_mta@) + crate::bytes::lit("\r\n") + envid_line(d.original_envelope_id) + crate::bytes::lit("Arrival-Date: ") + dsn_date(d) + crate::bytes::lit("\r\n") + blocks(
        d.recipients@,
        false,
    ) + crate::bytes::lit("\r\n")
}

/// The header block and the first two parts of a report whose boundary is `b`, then the
/// delimiter of the third.
#[verifier::opaque]
pub open spec fn dsn_head(d: DsnReport, b: Seq<u8>) -> Seq<u8> {
    dsn_headers(d, b) + dsn_part_one(d, b) + dsn_part_two(d, b) + crate::bytes::lit("--") + b
        + crate::bytes::lit("\r\n")
}

/// The returned content: the whole message, or its header block.
#[verifier::opaque]
pub open spec fn dsn_returned(d: DsnReport) -> Seq<u8> {
    match d.ret {
        Ret::Full => crate::bytes::lit("Content-Type: message/rfc822\r\n\r\n") + d.original_message@,
        Ret::Headers => crate::bytes::lit("Content-Type: text/rfc822-headers\r\n\r\n")
            + d.original_message@.subrange(0, crate::mime::body_offset_spec(d.original_message@)),
    }
}

/// The rendered report, its boundary `=_dsn_` and the hex of `tag`: the parts, a line break
/// where the returned content lacks one, and the closing delimiter.
pub open spec fn dsn_spec(d: DsnReport, tag: Seq<u8>) -> Seq<u8> {
    let b = crate::bytes::lit("=_dsn_") + crate::digest::hex_spec(tag);
    let body = dsn_head(d, b) + dsn_returned(d);
    let closed = if body.len() >= 2 && body.subrange(body.len() - 2, body.len() as int) == seq![13u8, 10u8] {
        body
    } else {
        body + seq![13u8, 10u8]
    };
    closed + crate::bytes::lit("--") + b + crate::bytes::lit("--\r\n")
}

/// The lead-in of a recipient's paragraph.
pub open spec fn human_text(a: DsnAction) -> Seq<char> {
    match a {
        DsnAction::Failed => "Delivery to the following recipient failed permanently:"@,
        DsnAction::Delayed => "Delivery to the following recipient has been delayed:"@,
        DsnAction::Delivered => "Your message was successfully delivered to:"@,
        DsnAction::Relayed => "Your message was relayed to:"@,
        DsnAction::Expanded => "Your message was expanded to:"@,
    }
}

/// The `Action:` value.
pub open spec fn wire_text(a: DsnAction) -> Seq<char> {
    match a {
        DsnAction::Failed => "failed"@,
        DsnAction::Delayed => "delayed"@,
        DsnAction::Delivered => "delivered"@,
        DsnAction::Relayed => "relayed"@,
        DsnAction::Expanded => "expanded"@,
    }
}

/// Append the `Original-Envelope-Id:` line, where there is an envelope id.
fn push_envid(m: &mut Vec<u8>, o: &Option<String>)
    ensures
        final(m)@ == old(m)@ + envid_line(*o),
{
    match o {
        Some(e) => {
            push_lit(m, "Original-Envelope-Id: ");
            push_all(m, e.as_str().as_bytes());
            push_lit(m, "\r\n");
            assert(final(m)@ =~= old(m)@ + envid_line(*o));
        },
        None => {
            assert(final(m)@ =~= old(m)@ + envid_line(*o));
        },
    }
}

/// Whether the bytes end in CR LF.
fn ends_with_crlf(m: &Vec<u8>) -> (r: bool)
    ensures
        r == (m@.len() >= 2 && m@.subrange(m@.len() - 2, m@.len() as int) == seq![13u8, 10u8]),
{
    let n = m.len();
    let r = n >= 2 && m[n - 2] == 13 && m[n - 1] == 10;
    proof {
        if n >= 2 {
            if m@.subrange(n - 2, n as int) == seq![13u8, 10u8] {
                assert(m@[n - 2] == m@.subrange(n - 2, n as int)[0]);
                assert(m@[n - 1] == m@.subrange(n - 2, n as int)[1]);
            }
            if r {
                assert(m@.subrange(n - 2, n as int) =~= seq![13u8, 10u8]);
            }
        }
    }
    r
}

/// Append one recipient's human-readable paragraph.
#[verifier::spinoff_prover]
#[verifier::rlimit(50)]
fn push_human_block(out: &mut Vec<u8>, r: &DsnRecipient)
    ensures
        final(out)@ == old(out)@ + human_block(*r),
{
    push_all(out, r.action.human().as_bytes());
    push_lit(out, "\r\n  ");
    push_all(out, r.address.as_str().as_bytes());
    push_lit(out, " (status ");
    push_all(out, r.status.as_str().as_bytes());
    push_lit(out, ")\r\n");
    match &r.diagnostic {
        Some(d) => {
            push_lit(out, "  ");
            push_all(out, d.as_str().as_bytes());
            push_lit(out, "\r\n");
        },
        None => {},
    }
    assert(final(out)@ =~= old(out)@ + human_block(*r));
}

/// Append one recipient's status fields.
#[verifier::rlimit(100)]
fn push_status_block(out: &mut Vec<u8>, r: &DsnRecipient)
    ensures
        final(out)@ == old(out)@ + status_block(*r),
{
    push_lit(out, "\r\nOriginal-Recipient: rfc822;");
    push_all(out, r.address.as_str().as_bytes());
    push_lit(out, "\r\nFinal-Recipient: rfc822;");
    push_all(out, r.address.as_str().as_bytes());
    push_lit(out, "\r\nAction: ");
    push_all(out, r.action.wire().as_bytes());
    push_lit(out, "\r\nStatus: ");
    push_all(out, r.status.as_str().as_bytes());
    push_lit(out, "\r\n");
    match &r.diagnostic {
        Some(d) => {
            push_lit(out, "Diagnostic-Code: smtp; ");
            push_all(out, d.as_str().as_bytes());
            push_lit(out, "\r\n");
        },
        None => {},
    }
    assert(final(out)@ =~= old(out)@ + status_block(*r));
}

/// Append the recipients' blocks.
fn push_blocks(out: &mut Vec<u8>, rs: &Vec<DsnRecipient>, human: bool)
    ensures
        final(out)@ == old(out)@ + blocks(rs@, human),
{
    let mut i: usize = 0;
    assert(rs@.take(0) =~= Seq::<DsnRecipient>::empty());
    assert(old(out)@ + blocks(rs@.take(0), human) =~= old(out)@);
    while i < rs.len()
        invariant
            i <= rs@.len(),
            out@ == old(out)@ + blocks(rs@.take(i as int), human),
        decreases rs@.len() - i,
    {
        let ghost before = out@;
        if human {
            push_human_block(out, &rs[i]);
        } else {
            push_status_block(out, &rs[i]);
        }
        assert(rs@.take(i + 1).drop_last() =~= rs@.take(i as int));
        assert(rs@.take(i + 1).last() == rs@[i as int]);
        assert(out@ =~= old(out)@ + blocks(rs@.take(i + 1), human));
        i += 1;
    }
    assert(rs@.take(rs@.len() as int) =~= rs@);
}

/// The subject's overall outcome.
fn overall(rs: &Vec<DsnRecipient>) -> (r: &'static str)
    ensures
        crate::bytes::utf8(r@) == overall_text(rs@),
{
    let mut all_delivered = true;
    let mut any_failed = false;
    let mut i: usize = 0;
    while i < rs.len()
        invariant
            i <= rs@.len(),
            all_delivered == forall|k: int| 0 <= k < i ==> (#[trigger] rs@[k]).action == DsnAction::Delivered,
            any_failed == exists|k: int| 0 <= k < i && (#[trigger] rs@[k]).action == DsnAction::Failed,
        decreases rs@.len() - i,
    {
        if rs[i].action != DsnAction::Delivered {
            all_delivered = false;
        }
        if rs[i].action == DsnAction::Failed {
            any_failed = true;
        }
        i += 1;
    }
    if all_delivered {
        "Delivered"
    } else if any_failed {
        "Failure"
    } else {
        "Delayed"
    }
}

impl DsnReport {
    fn push_headers(&self, m: &mut Vec<u8>, b: &Vec<u8>, date: &String)
        requires
            date@ == crate::text::utf8_lossy(crate::date::rfc5322_date_text(self.arrival)),
        ensures
            final(m)@ == old(m)@ + dsn_headers(*self, b@),
    {
        push_lit(m, "From: Mail Delivery System <postmaster@");
        push_all(m, self.reporting_mta.as_str().as_bytes());
        push_lit(m, ">\r\nTo: <");
        push_all(m, self.notify_to.as_str().as_bytes());
        push_lit(m, ">\r\nSubject: Delivery Status Notification (");
        push_all(m, overall(&self.recipients).as_bytes());
        push_lit(m, ")\r\nDate: ");
        push_all(m, date.as_str().as_bytes());
        push_lit(
            m,
            "\r\nMIME-Version: 1.0\r\nAuto-Submitted: auto-replied\r\nContent-Type: multipart/report; report-type=delivery-status;\r\n\tboundary=\"",
        );
        push_all(m, b.as_slice());
        push_lit(m, "\"\r\n\r\n");
        assert(final(m)@ =~= old(m)@ + dsn_headers(*self, b@));
    }

    fn push_part_one(&self, m: &mut Vec<u8>, b: &Vec<u8>)
        ensures
            final(m)@ == old(m)@ + dsn_part_one(*self, b@),
    {
        push_lit(m, "--");
        push_all(m, b.as_slice());
        push_lit(
            m,
            "\r\nContent-Type: text/plain; charset=utf-8\r\n\r\nThis is an automatically generated Delivery Status Notification.\r\n\r\n",
        );
        push_blocks(m, &self.recipients, true);
        push_lit(m, "\r\n");
        assert(final(m)@ =~= old(m)@ + dsn_part_one(*self, b@));
    }

    #[verifier::rlimit(100)]
    fn push_part_two(&self, m: &mut Vec<u8>, b: &Vec<u8>, date: &String)
        requires
            date@ == crate::text::utf8_lossy(crate::date::rfc5322_date_text(self.arrival)),
        ensures
            final(m)@ == old(m)@ + dsn_part_two(*self, b@),
    {
        push_lit(m, "--");
        push_all(m, b.as_slice());
        push_lit(m, "\r\nContent-Type: message/delivery-status\r\n\r\nReporting-MTA: dns; ");
        push_all(m, self.reporting_mta.as_str().as_bytes());
        push_lit(m, "\r\n");
        push_envid(m, &self.original_envelope_id);
        push_lit(m, "Arrival-Date: ");
        push_all(m, date.as_str().as_bytes());
        push_lit(m, "\r\n");
        push_blocks(m, &self.recipients, false);
        push_lit(m, "\r\n");
        assert(final(m)@ =~= old(m)@ + dsn_part_two(*self, b@));
    }

    /// The report up to the end of the returned content.
    #[verifier::rlimit(100)]
    fn body_with(&self, b: &Vec<u8>) -> (r: Vec<u8>)
        ensures
            r@ == dsn_head(*self, b@) + dsn_returned(*self),
    {
        reveal(dsn_head);
        reveal(dsn_returned);
        let date = crate::date::format_rfc5322_date(self.arrival);
        let mut m: Vec<u8> = Vec::new();
        self.push_headers(&mut m, b, &date);
        self.push_part_one(&mut m, b);
        self.push_part_two(&mut m, b, &date);
        push_lit(&mut m, "--");
        push_all(&mut m, b.as_slice());
        push_lit(&mut m, "\r\n");
        assert(m@ =~= dsn_head(*self, b@));
        let ghost head = m@;
        match self.ret {
            Ret::Full => {
                push_lit(&mut m, "Content-Type: message/rfc822\r\n\r\n");
                push_all(&mut m, self.original_message.as_slice());
            },
            Ret::Headers => {
                push_lit(&mut m, "Content-Type: text/rfc822-headers\r\n\r\n");
                let (headers, _body) = crate::mime::header_and_body(self.original_message.as_slice());
                push_all(&mut m, headers.as_slice());
            },
        }
        assert(m@ =~= head + dsn_returned(*self));
        m
    }

    /// Render the report as an RFC 3464 `multipart/report; report-type=delivery-status` message,
    /// ready to be filed into the sender's INBOX. The MIME boundary is `=_dsn_` and the hex of
    /// `tag`, a stable digest of the original message that the caller supplies.
    #[verifier::rlimit(100)]
    pub fn render(&self, tag: &[u8]) -> (r: Vec<u8>)
        ensures
            r@ == dsn_spec(*self, tag@),
    {
        let mut b: Vec<u8> = lit_vec("=_dsn_");
        let h = crate::digest::hex(tag);
        push_all(&mut b, h.as_str().as_bytes());
        let mut m = self.body_with(&b);
        let ghost body = m@;
        let ends_crlf = ends_with_crlf(&m);
        if !ends_crlf {
            m.push(13);
            m.push(10);
        }
        let ghost closed = m@;
        push_lit(&mut m, "--");
        push_all(&mut m, b.as_slice());
        push_lit(&mut m, "--\r\n");
        assert(m@ =~= closed + crate::bytes::lit("--") + b@ + crate::bytes::lit("--\r\n"));
        m
    }
}

// ---------------------------------------------------------------------------------------------
// The session model
// ---------------------------------------------------------------------------------------------

/// Where a session stands: before the greeting, reading commands, or reading DATA lines.
#[derive(Debug, Clone, Copy, PartialEq, Eq, Structural)]
pub enum Phase {
    Greeting,
    Command,
    Data,
}

/// A SASL exchange waiting for the client's next line.
pub enum PendingAuth {
    Plain,
    LoginUser,
    LoginPass(String),
}

pub enum PendingView {
    Plain,
    LoginUser,
    LoginPass(Seq<u8>),
}

/// An accepted submission as text and bytes.
pub struct SubmissionView {
    pub mail_from: Seq<char>,
    pub rcpt_to: Seq<Seq<char>>,
    pub data: Seq<u8>,
    pub authed_identity: Seq<u8>,
    pub envid: Option<Seq<char>>,
    pub ret: Option<Ret>,
    pub dsn_notify: Seq<Option<Seq<char>>>,
}

/// The state of a submission session. Envelope strings are the bytes of the (UTF-8 decoded)
/// command lines they came from.
#[verifier::ext_equal]
pub struct SmtpView {
    pub tls: bool,
    pub require_auth: bool,
    pub max_size: nat,
    pub phase: Phase,
    pub authed: Option<Seq<u8>>,
    pub authed_user: Option<Seq<u8>>,
    pub mail_from: Option<Seq<u8>>,
    pub rcpt_to: Seq<Seq<u8>>,
    pub dsn_notify: Seq<Option<Seq<u8>>>,
    pub envid: Option<Seq<u8>>,
    pub ret: Option<Ret>,
    pub data_buf: Seq<u8>,
    pub data_oversized: bool,
    pub pending: Option<PendingView>,
    pub submissions: Seq<SubmissionView>,
    pub should_close: bool,
}

/// What a command line leads to: a reply, or a credential check whose outcome decides the reply.
pub enum StepOut {
    Reply(Seq<u8>),
    Verify(Seq<u8>, Seq<u8>),
}

pub open spec fn ov(o: Option<Vec<u8>>) -> Option<Seq<u8>> {
    match o {
        Some(v) => Some(v@),
        None => None,
    }
}

pub open spec fn ovs(v: Seq<Option<Vec<u8>>>) -> Seq<Option<Seq<u8>>> {
    v.map_values(|o: Option<Vec<u8>>| ov(o))
}

pub open spec fn os(o: Option<String>) -> Option<Seq<char>> {
    match o {
        Some(s) => Some(s@),
        None => None,
    }
}

pub open spec fn otext(o: Option<Seq<u8>>) -> Option<Seq<char>> {
    match o {
        Some(b) => Some(crate::text::utf8_lossy(b)),
        None => None,
    }
}

pub open spec fn pending_view(p: Option<PendingAuth>) -> Option<PendingView> {
    match p {
        Some(PendingAuth::Plain) => Some(PendingView::Plain),
        Some(PendingAuth::LoginUser) => Some(PendingView::LoginUser),
        Some(PendingAuth::LoginPass(u)) => Some(PendingView::LoginPass(crate::bytes::utf8(u@))),
        None => None,
    }
}

pub open spec fn submission_view(s: Submission) -> SubmissionView {
    SubmissionView {
        mail_from: s.mail_from@,
        rcpt_to: s.rcpt_to@.map_values(|x: String| x@),
        data: s.data@,
        authed_identity: s.authed_identity@,
        envid: os(s.envid),
        ret: s.ret,
        dsn_notify: s.dsn_notify@.map_values(|o: Option<String>| os(o)),
    }
}

/// A transaction reset (RSET, EHLO/HELO, a refused DATA): the envelope and buffer are cleared.
pub open spec fn reset_spec(s: SmtpView) -> SmtpView {
    SmtpView {
        mail_from: None,
        rcpt_to: seq![],
        dsn_notify: seq![],
        envid: None,
        ret: None,
        data_buf: seq![],
        ..s
    }
}

/// The EHLO (`esmtp`) or HELO reply.
pub open spec fn ehlo_reply(domain: Seq<u8>, max_size: nat, tls: bool, esmtp: bool) -> Seq<u8> {
    if !esmtp {
        crate::bytes::lit("250 mail.dmtap.local greets ") + domain + crate::bytes::lit("\r\n")
    } else {
        crate::bytes::lit("250-mail.dmtap.local greets ") + domain + crate::bytes::lit(
            "\r\n250-SIZE ",
        ) + dec_spec(max_size) + crate::bytes::lit(
            "\r\n250-8BITMIME\r\n250-SMTPUTF8\r\n250-PIPELINING\r\n250-DSN\r\n250-ENHANCEDSTATUSCODES\r\n",
        ) + (if tls {
            crate::bytes::lit("250-AUTH PLAIN LOGIN\r\n")
        } else {
            crate::bytes::lit("250-STARTTLS\r\n")
        }) + crate::bytes::lit("250 HELP\r\n")
    }
}

/// The text of a SASL LOGIN field: its base64 decoding when that is UTF-8, else empty.
pub open spec fn login_value(b: Seq<u8>) -> Seq<u8> {
    match crate::base64::b64_decode_spec(b) {
        Some(raw) => if vstd::utf8::valid_utf8(raw) {
            raw
        } else {
            seq![]
        },
        None => seq![],
    }
}

/// AUTH PLAIN with its initial response: a credential check, or 501 when it does not decode.
pub open spec fn plain_spec(s: SmtpView, ir: Seq<u8>) -> (SmtpView, StepOut) {
    match crate::auth::plain_fields(ir) {
        Some((_z, a, p)) => (s, StepOut::Verify(a, p)),
        None => (s, StepOut::Reply(crate::bytes::lit("501 5.5.2 Cannot decode AUTH PLAIN\r\n"))),
    }
}

/// The outcome of a credential check: the identity and user are recorded on success.
pub open spec fn finish_spec(s: SmtpView, user: Seq<u8>, id: Option<Seq<u8>>) -> (SmtpView, Seq<u8>) {
    match id {
        Some(i) => (
            SmtpView { authed: Some(i), authed_user: Some(user), ..s },
            crate::bytes::lit("235 2.7.0 Authentication successful\r\n"),
        ),
        None => (s, crate::bytes::lit("535 5.7.8 Authentication credentials invalid\r\n")),
    }
}

/// `AUTH <mech> [initial-response]`.
pub open spec fn auth_spec(s: SmtpView, rest: Seq<u8>) -> (SmtpView, StepOut) {
    if s.authed is Some {
        (s, StepOut::Reply(crate::bytes::lit("503 5.5.1 Already authenticated\r\n")))
    } else if !s.tls {
        (
            s,
            StepOut::Reply(
                crate::bytes::lit(
                    "538 5.7.11 Encryption required for requested authentication mechanism\r\n",
                ),
            ),
        )
    } else {
        let ts = ws_tokens(rest);
        let mech = if ts.len() > 0 { ts[0] } else { seq![] };
        if crate::bytes::eq_ci_spec(mech, crate::bytes::lit("PLAIN")) {
            if ts.len() > 1 {
                plain_spec(s, ts[1])
            } else {
                (
                    SmtpView { pending: Some(PendingView::Plain), ..s },
                    StepOut::Reply(crate::bytes::lit("334 \r\n")),
                )
            }
        } else if crate::bytes::eq_ci_spec(mech, crate::bytes::lit("LOGIN")) {
            (
                SmtpView { pending: Some(PendingView::LoginUser), ..s },
                StepOut::Reply(
                    crate::bytes::lit("334 ") + crate::base64::b64_encode_spec(
                        crate::bytes::lit("Username:"),
                    ) + crate::bytes::lit("\r\n"),
                ),
            )
        } else {
            (s, StepOut::Reply(crate::bytes::lit("504 5.5.4 Unrecognized authentication type\r\n")))
        }
    }
}

/// The next line of a pending SASL exchange (the pending state already cleared in `s`).
pub open spec fn continue_auth_spec(s: SmtpView, p: PendingView, line: Seq<u8>) -> (SmtpView, StepOut) {
    let t = crate::bytes::trim_spec(line);
    match p {
        PendingView::Plain => plain_spec(s, t),
        PendingView::LoginUser => (
            SmtpView { pending: Some(PendingView::LoginPass(login_value(t))), ..s },
            StepOut::Reply(
                crate::bytes::lit("334 ") + crate::base64::b64_encode_spec(
                    crate::bytes::lit("Password:"),
                ) + crate::bytes::lit("\r\n"),
            ),
        ),
        PendingView::LoginPass(u) => (s, StepOut::Verify(u, login_value(t))),
    }
}

/// A declared `SIZE=` above the limit.
pub open spec fn size_too_big(rest: Seq<u8>, max: nat) -> bool {
    match param_spec(rest, crate::bytes::lit("SIZE")) {
        Some(v) => match crate::bytes::parse_dec_spec(v, usize::MAX as nat) {
            Some(n) => n > max,
            None => false,
        },
        None => false,
    }
}

/// `MAIL FROM:<addr> [params]`.
pub open spec fn mail_spec(s: SmtpView, rest: Seq<u8>) -> (SmtpView, Seq<u8>) {
    if s.require_auth && s.authed is None {
        (s, crate::bytes::lit("530 5.7.0 Authentication required\r\n"))
    } else {
        match path_param(rest, crate::bytes::lit("FROM")) {
            None => (s, crate::bytes::lit("501 5.5.4 Syntax: MAIL FROM:<address>\r\n")),
            Some(addr) => if s.require_auth && addr.len() > 0 && !(s.authed_user matches Some(u)
                && crate::bytes::eq_ci_spec(addr, u)) {
                (
                    s,
                    crate::bytes::lit(
                        "550 5.7.1 Sender address not authorised for the authenticated identity\r\n",
                    ),
                )
            } else if size_too_big(rest, s.max_size) {
                (s, crate::bytes::lit("552 5.3.4 Message size exceeds fixed limit\r\n"))
            } else {
                (
                    SmtpView {
                        ret: match param_spec(rest, crate::bytes::lit("RET")) {
                            Some(v) => ret_spec(v),
                            None => None,
                        },
                        envid: param_spec(rest, crate::bytes::lit("ENVID")),
                        mail_from: Some(addr),
                        rcpt_to: seq![],
                        dsn_notify: seq![],
                        ..s
                    },
                    crate::bytes::lit("250 2.1.0 Sender OK\r\n"),
                )
            },
        }
    }
}

/// `RCPT TO:<addr> [params]`.
pub open spec fn rcpt_spec(s: SmtpView, rest: Seq<u8>) -> (SmtpView, Seq<u8>) {
    if s.mail_from is None {
        (s, crate::bytes::lit("503 5.5.1 Need MAIL before RCPT\r\n"))
    } else {
        match path_param(rest, crate::bytes::lit("TO")) {
            None => (s, crate::bytes::lit("501 5.5.4 Syntax: RCPT TO:<address>\r\n")),
            Some(a) => (
                SmtpView {
                    rcpt_to: s.rcpt_to.push(a),
                    dsn_notify: s.dsn_notify.push(param_spec(rest, crate::bytes::lit("NOTIFY"))),
                    ..s
                },
                crate::bytes::lit("250 2.1.5 Recipient OK\r\n"),
            ),
        }
    }
}

/// `DATA`.
pub open spec fn data_cmd_spec(s: SmtpView) -> (SmtpView, Seq<u8>) {
    if s.mail_from is None || s.rcpt_to.len() == 0 {
        (s, crate::bytes::lit("503 5.5.1 Need MAIL and RCPT before DATA\r\n"))
    } else {
        (
            SmtpView { phase: Phase::Data, data_buf: seq![], data_oversized: false, ..s },
            crate::bytes::lit("354 End data with <CR><LF>.<CR><LF>\r\n"),
        )
    }
}

/// The submission a completed DATA produces.
pub open spec fn new_submission(s: SmtpView) -> SubmissionView {
    SubmissionView {
        mail_from: crate::text::utf8_lossy(
            match s.mail_from {
                Some(m) => m,
                None => seq![],
            },
        ),
        rcpt_to: s.rcpt_to.map_values(|r: Seq<u8>| crate::text::utf8_lossy(r)),
        data: s.data_buf,
        authed_identity: match s.authed {
            Some(i) => i,
            None => seq![],
        },
        envid: otext(s.envid),
        ret: s.ret,
        dsn_notify: s.dsn_notify.map_values(|o: Option<Seq<u8>>| otext(o)),
    }
}

/// One line while reading DATA (raw bytes): `.` ends the message — refused with 552 when it
/// grew over the limit, otherwise queued as a submission; any other line is dot-unstuffed and
/// buffered with CRLF while the buffer is within the limit.
pub open spec fn data_line_spec(s: SmtpView, line: Seq<u8>) -> (SmtpView, Seq<u8>) {
    if line == seq![46u8] {
        let s1 = SmtpView { phase: Phase::Command, ..s };
        if s.data_oversized {
            (reset_spec(s1), crate::bytes::lit("552 5.3.4 Message exceeds fixed maximum message size\r\n"))
        } else {
            (
                SmtpView {
                    mail_from: None,
                    rcpt_to: seq![],
                    data_buf: seq![],
                    envid: None,
                    ret: None,
                    dsn_notify: seq![],
                    submissions: s.submissions.push(new_submission(s)),
                    ..s1
                },
                crate::bytes::lit("250 2.0.0 OK: queued as MOTE\r\n"),
            )
        }
    } else {
        let content = if line.len() > 0 && line[0] == 46 { line.drop_first() } else { line };
        let buf = if s.data_buf.len() <= s.max_size {
            s.data_buf + content + seq![13u8, 10u8]
        } else {
            s.data_buf
        };
        (
            SmtpView { data_buf: buf, data_oversized: s.data_oversized || buf.len() > s.max_size, ..s },
            seq![],
        )
    }
}

/// The verb (upper-cased) and the trimmed arguments of a command line.
pub open spec fn verb_rest(lb: Seq<u8>) -> (Seq<u8>, Seq<u8>) {
    let sp = crate::mime::next_byte(lb, 32, 0);
    if sp < lb.len() {
        (
            crate::bytes::upper_seq(lb.subrange(0, sp)),
            crate::bytes::trim_spec(lb.subrange(sp + 1, lb.len() as int)),
        )
    } else {
        (crate::bytes::upper_seq(crate::bytes::trim_spec(lb)), seq![])
    }
}

pub open spec fn reply(s: SmtpView, r: Seq<u8>) -> (SmtpView, StepOut) {
    (s, StepOut::Reply(r))
}

/// One command line (already decoded as UTF-8 text, given as its bytes).
pub open spec fn command_spec(s: SmtpView, lb: Seq<u8>) -> (SmtpView, StepOut) {
    match s.pending {
        Some(p) => continue_auth_spec(SmtpView { pending: None, ..s }, p, lb),
        None => {
            let (verb, rest) = verb_rest(lb);
            if verb == crate::bytes::lit("EHLO") {
                reply(reset_spec(s), ehlo_reply(rest, s.max_size, s.tls, true))
            } else if verb == crate::bytes::lit("HELO") {
                reply(reset_spec(s), ehlo_reply(rest, s.max_size, s.tls, false))
            } else if verb == crate::bytes::lit("STARTTLS") {
                reply(SmtpView { tls: true, ..s }, crate::bytes::lit("220 2.0.0 Ready to start TLS\r\n"))
            } else if verb == crate::bytes::lit("AUTH") {
                auth_spec(s, rest)
            } else if verb == crate::bytes::lit("MAIL") {
                reply(mail_spec(s, rest).0, mail_spec(s, rest).1)
            } else if verb == crate::bytes::lit("RCPT") {
                reply(rcpt_spec(s, rest).0, rcpt_spec(s, rest).1)
            } else if verb == crate::bytes::lit("DATA") {
                reply(data_cmd_spec(s).0, data_cmd_spec(s).1)
            } else if verb == crate::bytes::lit("RSET") {
                reply(reset_spec(s), crate::bytes::lit("250 2.0.0 OK\r\n"))
            } else if verb == crate::bytes::lit("NOOP") {
                reply(s, crate::bytes::lit("250 2.0.0 OK\r\n"))
            } else if verb == crate::bytes::lit("VRFY") {
                reply(
                    s,
                    crate::bytes::lit("252 2.1.5 Cannot VRFY, but will accept and attempt delivery\r\n"),
                )
            } else if verb == crate::bytes::lit("QUIT") {
                reply(SmtpView { should_close: true, ..s }, crate::bytes::lit("221 2.0.0 Bye\r\n"))
            } else if verb == crate::bytes::lit("HELP") {
                reply(s, crate::bytes::lit("214 2.0.0 Envoir DMTAP submission\r\n"))
            } else {
                reply(s, crate::bytes::lit("500 5.5.1 Command unrecognized\r\n"))
            }
        },
    }
}

/// One raw line fed to the session: DATA lines byte-exact, command lines through UTF-8 decoding
/// (invalid sequences replaced).
pub open spec fn line_spec(s: SmtpView, line: Seq<u8>) -> (SmtpView, StepOut) {
    if s.phase == Phase::Data {
        reply(data_line_spec(s, line).0, data_line_spec(s, line).1)
    } else {
        command_spec(s, crate::bytes::utf8(crate::text::utf8_lossy(line)))
    }
}


// ---------------------------------------------------------------------------------------------
// The session
// ---------------------------------------------------------------------------------------------

/// A stateful SMTP submission session.
pub struct SmtpSession<A: Authenticator> {
    auth: A,
    tls: bool,
    require_auth: bool,
    max_size: usize,
    phase: Phase,
    authed: Option<Vec<u8>>,
    authed_user: Option<String>,
    mail_from: Option<Vec<u8>>,
    rcpt_to: Vec<Vec<u8>>,
    dsn_notify: Vec<Option<Vec<u8>>>,
    envid: Option<Vec<u8>>,
    ret: Option<Ret>,
    data_buf: Vec<u8>,
    data_oversized: bool,
    pending_auth: Option<PendingAuth>,
    submissions: Vec<Submission>,
    should_close: bool,
}

enum CoreOut {
    Reply(Vec<u8>),
    Verify(String, String),
}

spec fn core_out_view(o: CoreOut) -> StepOut {
    match o {
        CoreOut::Reply(r) => StepOut::Reply(r@),
        CoreOut::Verify(u, p) => StepOut::Verify(crate::bytes::utf8(u@), crate::bytes::utf8(p@)),
    }
}

impl<A: Authenticator> View for SmtpSession<A> {
    type V = SmtpView;

    closed spec fn view(&self) -> SmtpView {
        SmtpView {
            tls: self.tls,
            require_auth: self.require_auth,
            max_size: self.max_size as nat,
            phase: self.phase,
            authed: ov(self.authed),
            authed_user: match self.authed_user {
                Some(u) => Some(crate::bytes::utf8(u@)),
                None => None,
            },
            mail_from: ov(self.mail_from),
            rcpt_to: crate::bytes::views(self.rcpt_to@),
            dsn_notify: ovs(self.dsn_notify@),
            envid: ov(self.envid),
            ret: self.ret,
            data_buf: self.data_buf@,
            data_oversized: self.data_oversized,
            pending: pending_view(self.pending_auth),
            submissions: self.submissions@.map_values(|x: Submission| submission_view(x)),
            should_close: self.should_close,
        }
    }
}

fn reply_vec(l: &str) -> (r: Vec<u8>)
    ensures
        r@ == crate::bytes::lit(l),
{
    lit_vec(l)
}

impl<A: Authenticator> SmtpSession<A> {
    /// The authenticator the session checks credentials with.
    pub closed spec fn authenticator(&self) -> A {
        self.auth
    }

    /// A new session (`tls`: the connection is already under TLS) that requires authentication
    /// and advertises [`MAX_SIZE`].
    pub fn new(auth: A, tls: bool) -> (r: Self)
        ensures
            r.authenticator() == auth,
            session_inv(r@),
            r@ == (SmtpView {
                tls,
                require_auth: true,
                max_size: MAX_SIZE as nat,
                phase: Phase::Greeting,
                authed: None,
                authed_user: None,
                mail_from: None,
                rcpt_to: seq![],
                dsn_notify: seq![],
                envid: None,
                ret: None,
                data_buf: seq![],
                data_oversized: false,
                pending: None,
                submissions: seq![],
                should_close: false,
            }),
    {
        let r = SmtpSession {
            auth,
            tls,
            require_auth: true,
            max_size: MAX_SIZE,
            phase: Phase::Greeting,
            authed: None,
            authed_user: None,
            mail_from: None,
            rcpt_to: Vec::new(),
            dsn_notify: Vec::new(),
            envid: None,
            ret: None,
            data_buf: Vec::new(),
            data_oversized: false,
            pending_auth: None,
            submissions: Vec::new(),
            should_close: false,
        };
        assert(r@ =~= (SmtpView {
            tls,
            require_auth: true,
            max_size: MAX_SIZE as nat,
            phase: Phase::Greeting,
            authed: None,
            authed_user: None,
            mail_from: None,
            rcpt_to: seq![],
            dsn_notify: seq![],
            envid: None,
            ret: None,
            data_buf: seq![],
            data_oversized: false,
            pending: None,
            submissions: seq![],
            should_close: false,
        }));
        r
    }

    /// Whether the QUIT command has been processed and the transport should close. A `QUIT`
    /// line inside a DATA body is content, never a close.
    pub fn wants_close(&self) -> (r: bool)
        ensures
            r == self@.should_close,
    {
        self.should_close
    }

    /// Override the advertised and enforced SIZE limit (RFC 1870).
    pub fn set_max_size(&mut self, max: usize)
        ensures
            final(self)@ == (SmtpView { max_size: max as nat, ..old(self)@ }),
            final(self).authenticator() == old(self).authenticator(),
    {
        self.max_size = max;
        assert(self@ =~= (SmtpView { max_size: max as nat, ..old(self)@ }));
    }

    /// The 220 service-ready banner; the session then reads commands.
    pub fn greeting(&mut self) -> (r: String)
        ensures
            final(self)@ == (SmtpView { phase: Phase::Command, ..old(self)@ }),
            final(self).authenticator() == old(self).authenticator(),
            r@ == crate::text::utf8_lossy(
                crate::bytes::lit("220 mail.dmtap.local Envoir DMTAP Submission ready\r\n"),
            ),
    {
        self.phase = Phase::Command;
        assert(self@ =~= (SmtpView { phase: Phase::Command, ..old(self)@ }));
        lossy_string(reply_vec("220 mail.dmtap.local Envoir DMTAP Submission ready\r\n").as_slice())
    }

    /// The accepted submissions collected so far; the session's list is emptied.
    pub fn take_submissions(&mut self) -> (r: Vec<Submission>)
        ensures
            r@.map_values(|x: Submission| submission_view(x)) == old(self)@.submissions,
            final(self)@ == (SmtpView { submissions: seq![], ..old(self)@ }),
            final(self).authenticator() == old(self).authenticator(),
    {
        let mut out: Vec<Submission> = Vec::new();
        std::mem::swap(&mut out, &mut self.submissions);
        assert(self@ =~= (SmtpView { submissions: seq![], ..old(self)@ }));
        out
    }

    /// Whether a credential check has succeeded in this session.
    pub fn is_authenticated(&self) -> (r: bool)
        ensures
            r == self@.authed is Some,
    {
        self.authed.is_some()
    }

    fn reset_txn(&mut self)
        ensures
            final(self)@ == reset_spec(old(self)@),
            final(self).authenticator() == old(self).authenticator(),
    {
        self.mail_from = None;
        self.rcpt_to = Vec::new();
        self.dsn_notify = Vec::new();
        self.envid = None;
        self.ret = None;
        self.data_buf = Vec::new();
        assert(self@ =~= reset_spec(old(self)@));
    }
}


/// A SASL LOGIN field as text, empty when it does not decode.
pub(crate) fn login_field(t: &[u8]) -> (r: String)
    ensures
        crate::bytes::utf8(r@) == login_value(t@),
{
    match crate::auth::decode_login_field_bytes(t) {
        Some(u) => {
            proof {
                vstd::utf8::encode_utf8_valid_utf8(u@);
            }
            u
        },
        None => {
            let e = String::new();
            assert(crate::bytes::utf8(e@) =~= Seq::<u8>::empty());
            e
        },
    }
}

impl<A: Authenticator> SmtpSession<A> {
    fn ehlo(&mut self, domain: &[u8], esmtp: bool) -> (r: Vec<u8>)
        ensures
            final(self)@ == reset_spec(old(self)@),
            final(self).authenticator() == old(self).authenticator(),
            r@ == ehlo_reply(domain@, old(self)@.max_size, old(self)@.tls, esmtp),
    {
        self.reset_txn();
        let mut out: Vec<u8> = Vec::new();
        if !esmtp {
            push_lit(&mut out, "250 mail.dmtap.local greets ");
            push_all(&mut out, domain);
            push_lit(&mut out, "\r\n");
            return out;
        }
        push_lit(&mut out, "250-mail.dmtap.local greets ");
        push_all(&mut out, domain);
        push_lit(&mut out, "\r\n250-SIZE ");
        push_dec(&mut out, self.max_size);
        push_lit(
            &mut out,
            "\r\n250-8BITMIME\r\n250-SMTPUTF8\r\n250-PIPELINING\r\n250-DSN\r\n250-ENHANCEDSTATUSCODES\r\n",
        );
        if self.tls {
            push_lit(&mut out, "250-AUTH PLAIN LOGIN\r\n");
        } else {
            push_lit(&mut out, "250-STARTTLS\r\n");
        }
        push_lit(&mut out, "250 HELP\r\n");
        out
    }

    fn finish_plain(&mut self, ir: &[u8]) -> (r: CoreOut)
        ensures
            final(self)@ == plain_spec(old(self)@, ir@).0,
            core_out_view(r) == plain_spec(old(self)@, ir@).1,
            final(self).authenticator() == old(self).authenticator(),
    {
        match crate::auth::decode_plain_bytes(ir) {
            Some(cred) => CoreOut::Verify(cred.authcid, cred.password),
            None => CoreOut::Reply(reply_vec("501 5.5.2 Cannot decode AUTH PLAIN\r\n")),
        }
    }

    fn finish_credentials(&mut self, user: String, id: Option<Vec<u8>>) -> (r: Vec<u8>)
        ensures
            final(self)@ == finish_spec(old(self)@, crate::bytes::utf8(user@), ov(id)).0,
            r@ == finish_spec(old(self)@, crate::bytes::utf8(user@), ov(id)).1,
            final(self).authenticator() == old(self).authenticator(),
    {
        match id {
            Some(i) => {
                self.authed = Some(i);
                self.authed_user = Some(user);
                assert(self@ =~= finish_spec(old(self)@, crate::bytes::utf8(user@), ov(id)).0);
                reply_vec("235 2.7.0 Authentication successful\r\n")
            },
            None => reply_vec("535 5.7.8 Authentication credentials invalid\r\n"),
        }
    }

    fn cmd_auth(&mut self, rest: &[u8]) -> (r: CoreOut)
        ensures
            final(self)@ == auth_spec(old(self)@, rest@).0,
            core_out_view(r) == auth_spec(old(self)@, rest@).1,
            final(self).authenticator() == old(self).authenticator(),
    {
        if self.authed.is_some() {
            return CoreOut::Reply(reply_vec("503 5.5.1 Already authenticated\r\n"));
        }
        if !self.tls {
            return CoreOut::Reply(
                reply_vec(
                    "538 5.7.11 Encryption required for requested authentication mechanism\r\n",
                ),
            );
        }
        let ts = split_ws(rest);
        let ghost tv = crate::bytes::views(ts@);
        let empty: Vec<u8> = Vec::new();
        let mech: &[u8] = if ts.len() > 0 {
            ts[0].as_slice()
        } else {
            empty.as_slice()
        };
        assert(mech@ == (if tv.len() > 0 { tv[0] } else { Seq::<u8>::empty() }));
        if is_kw(mech, "PLAIN") {
            if ts.len() > 1 {
                assert(tv[1] == ts@[1]@);
                self.finish_plain(ts[1].as_slice())
            } else {
                self.pending_auth = Some(PendingAuth::Plain);
                assert(self@ =~= (SmtpView { pending: Some(PendingView::Plain), ..old(self)@ }));
                CoreOut::Reply(reply_vec("334 \r\n"))
            }
        } else if is_kw(mech, "LOGIN") {
            self.pending_auth = Some(PendingAuth::LoginUser);
            assert(self@ =~= (SmtpView { pending: Some(PendingView::LoginUser), ..old(self)@ }));
            let mut out = reply_vec("334 ");
            let b = crate::base64::base64_encode_bytes(lit_vec("Username:").as_slice());
            push_all(&mut out, b.as_slice());
            push_lit(&mut out, "\r\n");
            CoreOut::Reply(out)
        } else {
            CoreOut::Reply(reply_vec("504 5.5.4 Unrecognized authentication type\r\n"))
        }
    }

    fn continue_auth(&mut self, p: PendingAuth, line: &[u8]) -> (r: CoreOut)
        requires
            old(self).pending_auth is None,
        ensures
            final(self)@ == continue_auth_spec(
                old(self)@,
                pending_view(Some(p))->0,
                line@,
            ).0,
            core_out_view(r) == continue_auth_spec(old(self)@, pending_view(Some(p))->0, line@).1,
            final(self).authenticator() == old(self).authenticator(),
    {
        let t = trim(line);
        match p {
            PendingAuth::Plain => self.finish_plain(t),
            PendingAuth::LoginUser => {
                let user = login_field(t);
                self.pending_auth = Some(PendingAuth::LoginPass(user));
                assert(self@ =~= (SmtpView {
                    pending: Some(PendingView::LoginPass(login_value(t@))),
                    ..old(self)@
                }));
                let mut out = reply_vec("334 ");
                let b = crate::base64::base64_encode_bytes(lit_vec("Password:").as_slice());
                push_all(&mut out, b.as_slice());
                push_lit(&mut out, "\r\n");
                CoreOut::Reply(out)
            },
            PendingAuth::LoginPass(user) => {
                let pass = login_field(t);
                CoreOut::Verify(user, pass)
            },
        }
    }
}


fn strings_of(v: &Vec<Vec<u8>>) -> (r: Vec<String>)
    ensures
        r@.map_values(|x: String| x@) == crate::bytes::views(v@).map_values(
            |b: Seq<u8>| crate::text::utf8_lossy(b),
        ),
{
    let mut out: Vec<String> = Vec::new();
    let mut i: usize = 0;
    while i < v.len()
        invariant
            i <= v@.len(),
            out@.map_values(|x: String| x@) == crate::bytes::views(v@).map_values(
                |b: Seq<u8>| crate::text::utf8_lossy(b),
            ).take(i as int),
        decreases v@.len() - i,
    {
        let ghost before = out@;
        let s = lossy_string(v[i].as_slice());
        out.push(s);
        assert(crate::bytes::views(v@)[i as int] == v@[i as int]@);
        assert(out@.map_values(|x: String| x@) =~= before.map_values(|x: String| x@).push(s@));
        assert(out@.map_values(|x: String| x@) =~= crate::bytes::views(v@).map_values(
            |b: Seq<u8>| crate::text::utf8_lossy(b),
        ).take(i + 1));
        i += 1;
    }
    assert(crate::bytes::views(v@).map_values(|b: Seq<u8>| crate::text::utf8_lossy(b)).take(
        i as int,
    ) =~= crate::bytes::views(v@).map_values(|b: Seq<u8>| crate::text::utf8_lossy(b)));
    out
}

fn opt_string(o: &Option<Vec<u8>>) -> (r: Option<String>)
    ensures
        os(r) == otext(ov(*o)),
{
    match o {
        Some(b) => Some(lossy_string(b.as_slice())),
        None => None,
    }
}

fn opt_strings_of(v: &Vec<Option<Vec<u8>>>) -> (r: Vec<Option<String>>)
    ensures
        r@.map_values(|o: Option<String>| os(o)) == ovs(v@).map_values(
            |o: Option<Seq<u8>>| otext(o),
        ),
{
    let mut out: Vec<Option<String>> = Vec::new();
    let mut i: usize = 0;
    while i < v.len()
        invariant
            i <= v@.len(),
            out@.map_values(|o: Option<String>| os(o)) == ovs(v@).map_values(
                |o: Option<Seq<u8>>| otext(o),
            ).take(i as int),
        decreases v@.len() - i,
    {
        let ghost before = out@;
        let s = opt_string(&v[i]);
        out.push(s);
        assert(ovs(v@)[i as int] == ov(v@[i as int]));
        assert(out@.map_values(|o: Option<String>| os(o)) =~= before.map_values(
            |o: Option<String>| os(o),
        ).push(os(s)));
        assert(out@.map_values(|o: Option<String>| os(o)) =~= ovs(v@).map_values(
            |o: Option<Seq<u8>>| otext(o),
        ).take(i + 1));
        i += 1;
    }
    assert(ovs(v@).map_values(|o: Option<Seq<u8>>| otext(o)).take(i as int) =~= ovs(v@).map_values(
        |o: Option<Seq<u8>>| otext(o),
    ));
    out
}

impl<A: Authenticator> SmtpSession<A> {
    fn cmd_mail(&mut self, rest: &[u8]) -> (r: Vec<u8>)
        ensures
            final(self)@ == mail_spec(old(self)@, rest@).0,
            r@ == mail_spec(old(self)@, rest@).1,
            final(self).authenticator() == old(self).authenticator(),
    {
        if self.require_auth && self.authed.is_none() {
            return reply_vec("530 5.7.0 Authentication required\r\n");
        }
        let kw = lit_vec("FROM");
        let addr = match path_param_bytes(rest, kw.as_slice()) {
            Some(a) => a,
            None => return reply_vec("501 5.5.4 Syntax: MAIL FROM:<address>\r\n"),
        };
        if self.require_auth && addr.len() > 0 {
            let authorised = match &self.authed_user {
                Some(u) => eq_ci(addr.as_slice(), u.as_str().as_bytes()),
                None => false,
            };
            if !authorised {
                return reply_vec(
                    "550 5.7.1 Sender address not authorised for the authenticated identity\r\n",
                );
            }
        }
        match param_value(rest, "SIZE") {
            Some(v) => match crate::bytes::parse_usize(v.as_slice()) {
                Some(sz) => {
                    if sz > self.max_size {
                        return reply_vec("552 5.3.4 Message size exceeds fixed limit\r\n");
                    }
                },
                None => {},
            },
            None => {},
        }
        self.ret = match param_value(rest, "RET") {
            Some(v) => Ret::parse(v.as_slice()),
            None => None,
        };
        self.envid = param_value(rest, "ENVID");
        self.mail_from = Some(addr);
        self.rcpt_to = Vec::new();
        self.dsn_notify = Vec::new();
        assert(self@ =~= mail_spec(old(self)@, rest@).0);
        reply_vec("250 2.1.0 Sender OK\r\n")
    }

    fn cmd_rcpt(&mut self, rest: &[u8]) -> (r: Vec<u8>)
        ensures
            final(self)@ == rcpt_spec(old(self)@, rest@).0,
            r@ == rcpt_spec(old(self)@, rest@).1,
            final(self).authenticator() == old(self).authenticator(),
    {
        if self.mail_from.is_none() {
            return reply_vec("503 5.5.1 Need MAIL before RCPT\r\n");
        }
        let kw = lit_vec("TO");
        let addr = match path_param_bytes(rest, kw.as_slice()) {
            Some(a) => a,
            None => return reply_vec("501 5.5.4 Syntax: RCPT TO:<address>\r\n"),
        };
        let n = param_value(rest, "NOTIFY");
        let ghost r0 = self.rcpt_to@;
        let ghost d0 = self.dsn_notify@;
        self.rcpt_to.push(addr);
        self.dsn_notify.push(n);
        assert(crate::bytes::views(self.rcpt_to@) =~= crate::bytes::views(r0).push(addr@));
        assert(ovs(self.dsn_notify@) =~= ovs(d0).push(ov(n)));
        assert(self@ =~= rcpt_spec(old(self)@, rest@).0);
        reply_vec("250 2.1.5 Recipient OK\r\n")
    }

    fn cmd_data(&mut self) -> (r: Vec<u8>)
        ensures
            final(self)@ == data_cmd_spec(old(self)@).0,
            r@ == data_cmd_spec(old(self)@).1,
            final(self).authenticator() == old(self).authenticator(),
    {
        if self.mail_from.is_none() || self.rcpt_to.len() == 0 {
            return reply_vec("503 5.5.1 Need MAIL and RCPT before DATA\r\n");
        }
        self.phase = Phase::Data;
        self.data_buf = Vec::new();
        self.data_oversized = false;
        assert(self@ =~= data_cmd_spec(old(self)@).0);
        reply_vec("354 End data with <CR><LF>.<CR><LF>\r\n")
    }

    fn feed_data_line(&mut self, line: &[u8]) -> (r: Vec<u8>)
        ensures
            final(self)@ == data_line_spec(old(self)@, line@).0,
            r@ == data_line_spec(old(self)@, line@).1,
            final(self).authenticator() == old(self).authenticator(),
    {
        if line.len() == 1 && line[0] == 46 {
            assert(line@ =~= seq![46u8]);
            self.phase = Phase::Command;
            if self.data_oversized {
                self.data_buf = Vec::new();
                self.reset_txn();
                return reply_vec("552 5.3.4 Message exceeds fixed maximum message size\r\n");
            }
            let ghost s0 = old(self)@;
            let mut data: Vec<u8> = Vec::new();
            std::mem::swap(&mut data, &mut self.data_buf);
            let mail_from = match &self.mail_from {
                Some(m) => lossy_string(m.as_slice()),
                None => lossy_string(Vec::<u8>::new().as_slice()),
            };
            let sub = Submission {
                mail_from,
                rcpt_to: strings_of(&self.rcpt_to),
                data,
                authed_identity: match &self.authed {
                    Some(i) => to_vec(i.as_slice()),
                    None => Vec::new(),
                },
                envid: opt_string(&self.envid),
                ret: self.ret,
                dsn_notify: opt_strings_of(&self.dsn_notify),
            };
            assert(submission_view(sub) =~= new_submission(s0));
            self.mail_from = None;
            self.rcpt_to = Vec::new();
            self.envid = None;
            self.ret = None;
            self.dsn_notify = Vec::new();
            let ghost subs0 = self.submissions@;
            self.submissions.push(sub);
            assert(self.submissions@.map_values(|x: Submission| submission_view(x)) =~= subs0.map_values(
                |x: Submission| submission_view(x),
            ).push(submission_view(sub)));
            assert(self@ =~= data_line_spec(old(self)@, line@).0);
            return reply_vec("250 2.0.0 OK: queued as MOTE\r\n");
        }
        assert(line@ != seq![46u8]);
        let content: &[u8] = if line.len() > 0 && line[0] == 46 {
            slice_of(line, 1, line.len())
        } else {
            line
        };
        assert(content@ == (if line@.len() > 0 && line@[0] == 46 {
            line@.drop_first()
        } else {
            line@
        }));
        if self.data_buf.len() <= self.max_size {
            push_all(&mut self.data_buf, content);
            self.data_buf.push(13);
            self.data_buf.push(10);
        }
        if self.data_buf.len() > self.max_size {
            self.data_oversized = true;
        }
        assert(self@ =~= data_line_spec(old(self)@, line@).0);
        Vec::new()
    }
}


/// What feeding `line` to a session in state `s` leads to, when a credential check (if the line
/// completes a SASL exchange) returns `id`: the new state `new` and the reply text `out`.
pub open spec fn line_post(
    s: SmtpView,
    line: Seq<u8>,
    new: SmtpView,
    out: Seq<char>,
    id: Option<Seq<u8>>,
) -> bool {
    let (t, o) = line_spec(s, line);
    match o {
        StepOut::Reply(r) => new == t && out == crate::text::utf8_lossy(r),
        StepOut::Verify(u, _p) => new == finish_spec(t, u, id).0 && out == crate::text::utf8_lossy(
            finish_spec(t, u, id).1,
        ),
    }
}

/// The credential check a line makes: where it completes a SASL exchange, `id` is the
/// authenticator's answer to the user and password it carries; otherwise there is none.
pub open spec fn step_checked<A: Authenticator>(auth: A, s: SmtpView, line: Seq<u8>, id: Option<Seq<u8>>) -> bool {
    match line_spec(s, line).1 {
        StepOut::Verify(u, p) => auth.accepts(u, p, id),
        StepOut::Reply(_) => id is None,
    }
}

/// The session invariant. DATA is read only for a transaction with a sender, and a SASL
/// exchange is pending only before authentication. When the session requires authentication, a
/// sender is recorded only once authenticated and is either empty (the null reverse-path) or the
/// authenticated user's own address, compared case-insensitively.
pub open spec fn session_inv(s: SmtpView) -> bool {
    &&& s.phase == Phase::Data ==> s.mail_from is Some
    &&& s.pending is Some ==> s.authed is None
    &&& s.require_auth ==> (s.mail_from matches Some(a) ==> s.authed is Some && (a.len() == 0 || (
        s.authed_user matches Some(u) && crate::bytes::eq_ci_spec(a, u))))
}

proof fn lemma_auth_keeps_inv(s: SmtpView, rest: Seq<u8>)
    requires
        session_inv(s),
        s.pending is None,
    ensures
        session_inv(auth_spec(s, rest).0),
        auth_spec(s, rest).0.require_auth == s.require_auth,
        auth_spec(s, rest).0.submissions == s.submissions,
        auth_spec(s, rest).0.phase == s.phase,
        auth_spec(s, rest).1 is Verify ==> ({
            let t = auth_spec(s, rest).0;
            &&& t.authed is None
            &&& t.pending is None
            &&& s.require_auth ==> t.mail_from is None
        }),
{
}

proof fn lemma_mail_keeps_inv(s: SmtpView, rest: Seq<u8>)
    requires
        session_inv(s),
    ensures
        session_inv(mail_spec(s, rest).0),
        mail_spec(s, rest).0.require_auth == s.require_auth,
        mail_spec(s, rest).0.submissions == s.submissions,
        mail_spec(s, rest).0.phase == s.phase,
{
}

/// A command line keeps the invariant; a credential check is asked for only before
/// authentication, with nothing pending, the phase unchanged and, under the authentication
/// requirement, no sender recorded.
proof fn lemma_command_keeps_inv(s: SmtpView, lb: Seq<u8>)
    requires
        session_inv(s),
        s.phase != Phase::Data,
    ensures
        session_inv(command_spec(s, lb).0),
        command_spec(s, lb).0.require_auth == s.require_auth,
        command_spec(s, lb).0.submissions == s.submissions,
        command_spec(s, lb).1 is Verify ==> ({
            let t = command_spec(s, lb).0;
            &&& t.authed is None
            &&& t.pending is None
            &&& t.phase == s.phase
            &&& s.require_auth ==> t.mail_from is None
        }),
{
    match s.pending {
        Some(p) => {
            let s0 = SmtpView { pending: None, ..s };
            assert(session_inv(s0));
            let t = crate::bytes::trim_spec(lb);
            match p {
                PendingView::Plain => {
                    assert(command_spec(s, lb) == plain_spec(s0, t));
                },
                PendingView::LoginUser => {},
                PendingView::LoginPass(u) => {},
            }
        },
        None => {
            let (verb, rest) = verb_rest(lb);
            lemma_auth_keeps_inv(s, rest);
            lemma_mail_keeps_inv(s, rest);
        },
    }
}

/// Every line keeps the session invariant, whatever the authenticator answers; the
/// authentication requirement itself never changes.
pub proof fn every_line_keeps_session_inv(
    s: SmtpView,
    line: Seq<u8>,
    new: SmtpView,
    out: Seq<char>,
    id: Option<Seq<u8>>,
)
    requires
        session_inv(s),
        line_post(s, line, new, out, id),
    ensures
        session_inv(new),
        new.require_auth == s.require_auth,
{
    if s.phase != Phase::Data {
        lemma_command_keeps_inv(s, crate::bytes::utf8(crate::text::utf8_lossy(line)));
    }
}

/// A line queues at most one submission: only the `.` that ends a DATA body within the size
/// limit queues one, made from the session's own envelope and buffer; under the authentication
/// requirement it carries the authenticated identity and an authorised sender. Every other line
/// leaves the queue as it was.
pub proof fn submissions_come_only_from_authorised_data(
    s: SmtpView,
    line: Seq<u8>,
    new: SmtpView,
    out: Seq<char>,
    id: Option<Seq<u8>>,
)
    requires
        session_inv(s),
        line_post(s, line, new, out, id),
    ensures
        new.submissions == s.submissions || (new.submissions == s.submissions.push(new_submission(s))
            && s.phase == Phase::Data && line == seq![46u8] && !s.data_oversized
            && new_submission(s).data == s.data_buf),
        new.submissions != s.submissions && s.require_auth ==> (s.authed matches Some(i)
            && new_submission(s).authed_identity == i && (s.mail_from->0.len() == 0 || (
            s.authed_user matches Some(u) && crate::bytes::eq_ci_spec(s.mail_from->0, u)))),
{
    if s.phase != Phase::Data {
        lemma_command_keeps_inv(s, crate::bytes::utf8(crate::text::utf8_lossy(line)));
    }
}

/// What a DATA line contributes to the message: the line with one leading dot removed
/// (dot-unstuffing), then CRLF.
pub open spec fn unstuffed(line: Seq<u8>) -> Seq<u8> {
    (if line.len() > 0 && line[0] == 46 {
        line.drop_first()
    } else {
        line
    }) + seq![13u8, 10u8]
}

/// The message bytes a run of DATA lines carries.
pub open spec fn data_text(lines: Seq<Seq<u8>>) -> Seq<u8>
    decreases lines.len(),
{
    if lines.len() == 0 {
        seq![]
    } else {
        data_text(lines.drop_last()) + unstuffed(lines.last())
    }
}

/// The session after a run of lines in the DATA phase.
pub open spec fn feed_data(s: SmtpView, lines: Seq<Seq<u8>>) -> SmtpView
    decreases lines.len(),
{
    if lines.len() == 0 {
        s
    } else {
        line_spec(feed_data(s, lines.drop_last()), lines.last()).0
    }
}

/// DATA is carried byte for byte (8BITMIME): from the start of a DATA body, every line other
/// than `.` is buffered dot-unstuffed with CRLF and nothing else changes; while the body stays
/// within the size limit, the `.` then queues exactly one submission whose data is those bytes.
pub proof fn data_is_byte_exact(s: SmtpView, lines: Seq<Seq<u8>>)
    requires
        s.phase == Phase::Data,
        s.data_buf.len() == 0,
        !s.data_oversized,
        forall|i: int| 0 <= i < lines.len() ==> #[trigger] lines[i] != seq![46u8],
        data_text(lines).len() <= s.max_size,
    ensures
        feed_data(s, lines) == (SmtpView { data_buf: data_text(lines), ..s }),
        ({
            let t = feed_data(s, lines);
            let u = line_spec(t, seq![46u8]).0;
            &&& u.submissions == s.submissions.push(new_submission(t))
            &&& new_submission(t).data == data_text(lines)
            &&& u.phase == Phase::Command
        }),
    decreases lines.len(),
{
    if lines.len() > 0 {
        let prev = lines.drop_last();
        assert forall|i: int| 0 <= i < prev.len() implies #[trigger] prev[i] != seq![46u8] by {
            assert(prev[i] == lines[i]);
        }
        assert(data_text(prev).len() <= data_text(lines).len());
        data_is_byte_exact(s, prev);
        let t = feed_data(s, prev);
        let l = lines.last();
        assert(l == lines[lines.len() - 1]);
        assert(line_spec(t, l) == reply(data_line_spec(t, l).0, data_line_spec(t, l).1));
        assert(data_line_spec(t, l).0 =~= (SmtpView { data_buf: data_text(lines), ..s }));
    }
}

proof fn lemma_data_run(s: SmtpView, lines: Seq<Seq<u8>>)
    requires
        s.phase == Phase::Data,
        s.data_buf.len() == 0,
        !s.data_oversized,
        forall|i: int| 0 <= i < lines.len() ==> #[trigger] lines[i] != seq![46u8],
    ensures
        ({
            let t = feed_data(s, lines);
            &&& t.phase == Phase::Data
            &&& t.submissions == s.submissions
            &&& t.max_size == s.max_size
            &&& !t.data_oversized ==> t.data_buf == data_text(lines) && t.data_buf.len()
                <= s.max_size
        }),
    decreases lines.len(),
{
    if lines.len() > 0 {
        let prev = lines.drop_last();
        assert forall|i: int| 0 <= i < prev.len() implies #[trigger] prev[i] != seq![46u8] by {
            assert(prev[i] == lines[i]);
        }
        lemma_data_run(s, prev);
        let t = feed_data(s, prev);
        let l = lines.last();
        assert(l == lines[lines.len() - 1]);
        assert(line_spec(t, l) == reply(data_line_spec(t, l).0, data_line_spec(t, l).1));
    }
}

/// An oversized body is refused: when the DATA lines carry more than the size limit, the `.`
/// that ends them queues nothing and the session returns to reading commands.
pub proof fn oversized_data_is_refused(s: SmtpView, lines: Seq<Seq<u8>>)
    requires
        s.phase == Phase::Data,
        s.data_buf.len() == 0,
        !s.data_oversized,
        forall|i: int| 0 <= i < lines.len() ==> #[trigger] lines[i] != seq![46u8],
        data_text(lines).len() > s.max_size,
    ensures
        feed_data(s, lines).data_oversized,
        line_spec(feed_data(s, lines), seq![46u8]).0.submissions == s.submissions,
        line_spec(feed_data(s, lines), seq![46u8]).0.phase == Phase::Command,
{
    lemma_data_run(s, lines);
}

impl<A: Authenticator> SmtpSession<A> {
    fn command(&mut self, lb: &[u8]) -> (r: CoreOut)
        ensures
            final(self)@ == command_spec(old(self)@, lb@).0,
            core_out_view(r) == command_spec(old(self)@, lb@).1,
            final(self).authenticator() == old(self).authenticator(),
    {
        let mut pending: Option<PendingAuth> = None;
        std::mem::swap(&mut pending, &mut self.pending_auth);
        if let Some(p) = pending {
            assert(self@ =~= (SmtpView { pending: None, ..old(self)@ }));
            return self.continue_auth(p, lb);
        }
        assert(self@ =~= old(self)@);
        let sp = scan_to(lb, 32, 0);
        proof {
            crate::mime::lemma_next_byte(lb@, 32, 0);
        }
        let (verb, rest): (Vec<u8>, &[u8]) = if sp < lb.len() {
            (to_upper(slice_of(lb, 0, sp)), trim(slice_of(lb, sp + 1, lb.len())))
        } else {
            (to_upper(trim(lb)), slice_of(lb, 0, 0))
        };
        assert(verb_rest(lb@) == (verb@, rest@));
        let v = verb.as_slice();
        if is_lit(v, "EHLO") {
            CoreOut::Reply(self.ehlo(rest, true))
        } else if is_lit(v, "HELO") {
            CoreOut::Reply(self.ehlo(rest, false))
        } else if is_lit(v, "STARTTLS") {
            self.tls = true;
            assert(self@ =~= (SmtpView { tls: true, ..old(self)@ }));
            CoreOut::Reply(reply_vec("220 2.0.0 Ready to start TLS\r\n"))
        } else if is_lit(v, "AUTH") {
            self.cmd_auth(rest)
        } else if is_lit(v, "MAIL") {
            CoreOut::Reply(self.cmd_mail(rest))
        } else if is_lit(v, "RCPT") {
            CoreOut::Reply(self.cmd_rcpt(rest))
        } else if is_lit(v, "DATA") {
            CoreOut::Reply(self.cmd_data())
        } else if is_lit(v, "RSET") {
            self.reset_txn();
            CoreOut::Reply(reply_vec("250 2.0.0 OK\r\n"))
        } else if is_lit(v, "NOOP") {
            CoreOut::Reply(reply_vec("250 2.0.0 OK\r\n"))
        } else if is_lit(v, "VRFY") {
            CoreOut::Reply(
                reply_vec("252 2.1.5 Cannot VRFY, but will accept and attempt delivery\r\n"),
            )
        } else if is_lit(v, "QUIT") {
            self.should_close = true;
            assert(self@ =~= (SmtpView { should_close: true, ..old(self)@ }));
            CoreOut::Reply(reply_vec("221 2.0.0 Bye\r\n"))
        } else if is_lit(v, "HELP") {
            CoreOut::Reply(reply_vec("214 2.0.0 Envoir DMTAP submission\r\n"))
        } else {
            CoreOut::Reply(reply_vec("500 5.5.1 Command unrecognized\r\n"))
        }
    }

    /// Feed one raw line (without CRLF) and get the reply, possibly multi-line or empty. DATA
    /// lines are buffered byte-exact (8BITMIME); a command line is read as UTF-8 text. When the
    /// line completes a SASL exchange, the authenticator decides the outcome; the contract then
    /// holds for whatever it returned.
    pub fn feed_line_bytes(&mut self, line: &[u8]) -> (out: String)
        ensures
            final(self).authenticator() == old(self).authenticator(),
            exists|id: Option<Seq<u8>>| #[trigger] line_post(old(self)@, line@, final(self)@, out@, id)
                && step_checked(old(self).authenticator(), old(self)@, line@, id),
    {
        if self.phase == Phase::Data {
            let r = self.feed_data_line(line);
            let out = lossy_string(r.as_slice());
            assert(line_post(old(self)@, line@, self@, out@, None));
            return out;
        }
        let text = lossy_string(line);
        let lb = text.as_str().as_bytes();
        assert(lb@ == crate::bytes::utf8(crate::text::utf8_lossy(line@)));
        assert(line_spec(old(self)@, line@) == command_spec(old(self)@, lb@));
        match self.command(lb) {
            CoreOut::Reply(r) => {
                assert(line_spec(old(self)@, line@) == (self@, StepOut::Reply(r@)));
                let out = lossy_string(r.as_slice());
                assert(line_post(old(self)@, line@, self@, out@, None));
                out
            },
            CoreOut::Verify(u, p) => {
                let ghost t = self@;
                let ghost us = crate::bytes::utf8(u@);
                let ghost ps = crate::bytes::utf8(p@);
                let ghost ls = line_spec(old(self)@, line@);
                assert(ls.0 == t);
                assert(ls.1 == StepOut::Verify(us, ps));
                let id = self.auth.verify(u.as_str(), p.as_str());
                let r = self.finish_credentials(u, id);
                assert(self@ == finish_spec(t, us, ov(id)).0);
                assert(r@ == finish_spec(t, us, ov(id)).1);
                let out = lossy_string(r.as_slice());
                assert(line_post(old(self)@, line@, self@, out@, ov(id)));
                out
            },
        }
    }

    /// Feed one line given as text (see [`Self::feed_line_bytes`]).
    pub fn feed_line(&mut self, line: &str) -> (out: String)
        ensures
            final(self).authenticator() == old(self).authenticator(),
            exists|id: Option<Seq<u8>>|
                #[trigger] line_post(old(self)@, crate::bytes::lit(line), final(self)@, out@, id)
                && step_checked(old(self).authenticator(), old(self)@, crate::bytes::lit(line), id),
    {
        let b = line.as_bytes();
        assert(b@ == crate::bytes::lit(line));
        self.feed_line_bytes(b)
    }
}

} // verus!
