//! JMAP (RFC 8620 Core, RFC 8621 Mail) over the mail store: the Session resource, the push
//! `StateChange`, and the Mailbox and Email methods. Mailboxes are folders (their names are their
//! ids), Emails are messages (id `mailbox|uid`), keywords are flags. Method arguments and results
//! are [`Json`] documents; every contract is stated over their values ([`JsonV`]).
use vstd::prelude::*;
use crate::bytes::{push_all, to_lower};
use crate::json::{
    elems, jarr, jnat, jobj, json_array, json_get, json_str, jstr, jstring, member, members,
    nat_json, push_elem, put, str_of, Json, JsonV,
};
use crate::store::{lookup, state_token, Flag, MailStore, SpecialUse, StoreView};

mod email_set;
mod identity;
pub use email_set::{apply_email_update, compose_email, email_set};
pub use identity::{
    identity_changes, identity_get, identity_set, push_subscription_get, submission_get, submission_set,
};

verus! {

/// The capability URIs this server implements.
pub const CAP_CORE: &'static str = "urn:ietf:params:jmap:core";

pub const CAP_MAIL: &'static str = "urn:ietf:params:jmap:mail";

pub const CAP_SUBMISSION: &'static str = "urn:ietf:params:jmap:submission";

/// The advertised and enforced cap on method calls per request (RFC 8620 §3.6).
pub const MAX_CALLS_IN_REQUEST: usize = 16;

/// The advertised and enforced cap on objects a `/get` returns (RFC 8620 §5.1).
pub const MAX_OBJECTS_IN_GET: usize = 500;

/// The advertised and enforced cap on objects one `/set` touches (RFC 8620 §5.3).
pub const MAX_OBJECTS_IN_SET: usize = 500;

/// A JSON number with this value.
pub open spec fn num(n: int) -> JsonV {
    JsonV::Num(Some(n as i64))
}

/// A JSON string with this text.
pub open spec fn text(s: Seq<char>) -> JsonV {
    JsonV::Str(s)
}

/// The text of the store's JMAP state token.
pub open spec fn state_chars(m: StoreView) -> Seq<char> {
    vstd::utf8::decode_utf8(state_token(m))
}

/// The store's state token, as a string.
fn state_string<S: MailStore>(store: &S) -> (r: String)
    ensures
        r@ == state_chars(store.model()),
{
    let r = store.jmap_state();
    proof {
        vstd::utf8::encode_utf8_decode_utf8(r@);
    }
    r
}

/// A request-level error: `{"type": t, "description": d}`.
pub open spec fn set_error(t: Seq<char>, d: Seq<char>) -> JsonV {
    JsonV::Obj(seq![("type"@, text(t)), ("description"@, text(d))])
}

fn error_json(t: &str, d: &str) -> (r: Json)
    ensures
        r.jv() == set_error(t@, d@),
{
    let mut es: Vec<(String, Json)> = Vec::new();
    put(&mut es, "type", jstr(t));
    put(&mut es, "description", jstr(d));
    assert(members(es@) =~= seq![("type"@, text(t@)), ("description"@, text(d@))]);
    jobj(es)
}

// ---------------------------------------------------------------------------------------------
// The Session resource and push
// ---------------------------------------------------------------------------------------------

/// The `urn:ietf:params:jmap:core` capability.
pub open spec fn core_caps_members() -> Seq<(Seq<char>, JsonV)> {
    seq![
            ("maxSizeUpload"@, num(50000000)),
            ("maxConcurrentUpload"@, num(4)),
            ("maxSizeRequest"@, num(10000000)),
            ("maxConcurrentRequests"@, num(4)),
            ("maxCallsInRequest"@, num(16)),
            ("maxObjectsInGet"@, num(500)),
            ("maxObjectsInSet"@, num(500)),
            ("collationAlgorithms"@, JsonV::Arr(seq![text("i;ascii-casemap"@), text("i;unicode-casemap"@)])),
        ]
}

pub open spec fn core_caps() -> JsonV {
    JsonV::Obj(core_caps_members())
}

/// The `urn:ietf:params:jmap:mail` capability.
pub open spec fn mail_caps_members() -> Seq<(Seq<char>, JsonV)> {
    seq![
            ("maxMailboxesPerEmail"@, JsonV::Null),
            ("maxMailboxDepth"@, JsonV::Null),
            ("maxSizeMailboxName"@, num(200)),
            ("maxSizeAttachmentsPerEmail"@, num(50000000)),
            ("emailQuerySortOptions"@, JsonV::Arr(seq![text("receivedAt"@), text("size"@), text("subject"@)])),
            ("mayCreateTopLevelMailbox"@, JsonV::Bool(true)),
        ]
}

pub open spec fn mail_caps() -> JsonV {
    JsonV::Obj(mail_caps_members())
}

/// The `urn:ietf:params:jmap:submission` capability.
pub open spec fn submission_caps_members() -> Seq<(Seq<char>, JsonV)> {
    seq![("maxDelayedSend"@, num(0)), ("submissionExtensions"@, JsonV::Obj(seq![]))]
}

pub open spec fn submission_caps() -> JsonV {
    JsonV::Obj(submission_caps_members())
}

/// The account object of the Session resource.
pub open spec fn account_json_members(account: Seq<char>) -> Seq<(Seq<char>, JsonV)> {
    seq![
            ("name"@, text(account)),
            ("isPersonal"@, JsonV::Bool(true)),
            ("isReadOnly"@, JsonV::Bool(false)),
            ("accountCapabilities"@, JsonV::Obj(seq![(CAP_MAIL@, JsonV::Obj(seq![])), (CAP_SUBMISSION@, JsonV::Obj(seq![]))])),
        ]
}

pub open spec fn account_json(account: Seq<char>) -> JsonV {
    JsonV::Obj(account_json_members(account))
}

/// The JMAP Session resource (RFC 8620 §2) for `account` served at `base`, in state `state`.
pub open spec fn session_spec_members(account: Seq<char>, base: Seq<char>, state: Seq<char>) -> Seq<(Seq<char>, JsonV)> {
    seq![
            ("capabilities"@, JsonV::Obj(seq![(CAP_CORE@, core_caps()), (CAP_MAIL@, mail_caps()), (CAP_SUBMISSION@, submission_caps())])),
            ("accounts"@, JsonV::Obj(seq![(account, account_json(account))])),
            ("primaryAccounts"@, JsonV::Obj(seq![(CAP_MAIL@, text(account)), (CAP_SUBMISSION@, text(account))])),
            ("username"@, text(account)),
            ("apiUrl"@, text(base + "/jmap/api/"@)),
            ("downloadUrl"@, text(base + "/jmap/download/{accountId}/{blobId}/{name}"@)),
            ("uploadUrl"@, text(base + "/jmap/upload/{accountId}/"@)),
            ("eventSourceUrl"@, text(base + "/jmap/eventsource/?types={types}&closeafter={closeafter}&ping={ping}"@)),
            ("state"@, text(state)),
        ]
}

pub open spec fn session_spec(account: Seq<char>, base: Seq<char>, state: Seq<char>) -> JsonV {
    JsonV::Obj(session_spec_members(account, base, state))
}

fn num_json(n: i64) -> (r: Json)
    ensures
        r.jv() == num(n as int),
{
    Json::Num(Some(n))
}

fn two_strings(x: &str, y: &str) -> (r: Json)
    ensures
        r.jv() == JsonV::Arr(seq![text(x@), text(y@)]),
{
    let mut a: Vec<Json> = Vec::new();
    push_elem(&mut a, jstr(x));
    push_elem(&mut a, jstr(y));
    assert(elems(a@) =~= seq![text(x@), text(y@)]);
    jarr(a)
}

fn core_caps_json() -> (r: Json)
    ensures
        r.jv() == core_caps(),
{
    let mut es: Vec<(String, Json)> = Vec::new();
    put(&mut es, "maxSizeUpload", num_json(50000000));
    put(&mut es, "maxConcurrentUpload", num_json(4));
    put(&mut es, "maxSizeRequest", num_json(10000000));
    put(&mut es, "maxConcurrentRequests", num_json(4));
    put(&mut es, "maxCallsInRequest", num_json(16));
    put(&mut es, "maxObjectsInGet", num_json(500));
    put(&mut es, "maxObjectsInSet", num_json(500));
    let algs = two_strings("i;ascii-casemap", "i;unicode-casemap");
    put(&mut es, "collationAlgorithms", algs);
    assert(members(es@) =~= core_caps_members());
    jobj(es)
}

fn mail_caps_json() -> (r: Json)
    ensures
        r.jv() == mail_caps(),
{
    let mut es: Vec<(String, Json)> = Vec::new();
    put(&mut es, "maxMailboxesPerEmail", Json::Null);
    put(&mut es, "maxMailboxDepth", Json::Null);
    put(&mut es, "maxSizeMailboxName", num_json(200));
    put(&mut es, "maxSizeAttachmentsPerEmail", num_json(50000000));
    let mut ov: Vec<Json> = Vec::new();
    push_elem(&mut ov, jstr("receivedAt"));
    push_elem(&mut ov, jstr("size"));
    push_elem(&mut ov, jstr("subject"));
    assert(elems(ov@) =~= seq![text("receivedAt"@), text("size"@), text("subject"@)]);
    let opts = jarr(ov);
    put(&mut es, "emailQuerySortOptions", opts);
    put(&mut es, "mayCreateTopLevelMailbox", Json::Bool(true));
    assert(members(es@) =~= mail_caps_members());
    jobj(es)
}

fn empty_obj() -> (r: Json)
    ensures
        r.jv() == JsonV::Obj(seq![]),
{
    let es: Vec<(String, Json)> = Vec::new();
    assert(members(es@) =~= Seq::<(Seq<char>, JsonV)>::empty());
    jobj(es)
}

fn submission_caps_json() -> (r: Json)
    ensures
        r.jv() == submission_caps(),
{
    let mut es: Vec<(String, Json)> = Vec::new();
    put(&mut es, "maxDelayedSend", num_json(0));
    put(&mut es, "submissionExtensions", empty_obj());
    assert(members(es@) =~= submission_caps_members());
    jobj(es)
}

fn account_json_exec(account: &str) -> (r: Json)
    ensures
        r.jv() == account_json(account@),
{
    let mut caps: Vec<(String, Json)> = Vec::new();
    put(&mut caps, CAP_MAIL, empty_obj());
    put(&mut caps, CAP_SUBMISSION, empty_obj());
    assert(members(caps@) =~= seq![(CAP_MAIL@, JsonV::Obj(seq![])), (CAP_SUBMISSION@, JsonV::Obj(seq![]))]);
    let mut es: Vec<(String, Json)> = Vec::new();
    put(&mut es, "name", jstr(account));
    put(&mut es, "isPersonal", Json::Bool(true));
    put(&mut es, "isReadOnly", Json::Bool(false));
    put(&mut es, "accountCapabilities", jobj(caps));
    assert(members(es@) =~= account_json_members(account@));
    jobj(es)
}

fn url(base: &str, tail: &str) -> (r: Json)
    ensures
        r.jv() == text(base@ + tail@),
{
    let mut s = String::from_str(base);
    s.append(tail);
    jstring(s)
}

/// Build the JMAP Session resource (RFC 8620 §2) for an account at `base_url`.
pub fn session_resource(account_id: &str, base_url: &str, state: &str) -> (r: Json)
    ensures
        r.jv() == session_spec(account_id@, base_url@, state@),
{
    let mut caps: Vec<(String, Json)> = Vec::new();
    put(&mut caps, CAP_CORE, core_caps_json());
    put(&mut caps, CAP_MAIL, mail_caps_json());
    put(&mut caps, CAP_SUBMISSION, submission_caps_json());
    assert(members(caps@) =~= seq![(CAP_CORE@, core_caps()), (CAP_MAIL@, mail_caps()), (CAP_SUBMISSION@, submission_caps())]);
    let mut accounts: Vec<(String, Json)> = Vec::new();
    put(&mut accounts, account_id, account_json_exec(account_id));
    assert(members(accounts@) =~= seq![(account_id@, account_json(account_id@))]);
    let mut primary: Vec<(String, Json)> = Vec::new();
    put(&mut primary, CAP_MAIL, jstr(account_id));
    put(&mut primary, CAP_SUBMISSION, jstr(account_id));
    assert(members(primary@) =~= seq![(CAP_MAIL@, text(account_id@)), (CAP_SUBMISSION@, text(account_id@))]);
    let mut es: Vec<(String, Json)> = Vec::new();
    put(&mut es, "capabilities", jobj(caps));
    put(&mut es, "accounts", jobj(accounts));
    put(&mut es, "primaryAccounts", jobj(primary));
    put(&mut es, "username", jstr(account_id));
    put(&mut es, "apiUrl", url(base_url, "/jmap/api/"));
    put(&mut es, "downloadUrl", url(base_url, "/jmap/download/{accountId}/{blobId}/{name}"));
    put(&mut es, "uploadUrl", url(base_url, "/jmap/upload/{accountId}/"));
    put(
        &mut es,
        "eventSourceUrl",
        url(base_url, "/jmap/eventsource/?types={types}&closeafter={closeafter}&ping={ping}"),
    );
    put(&mut es, "state", jstr(state));
    assert(members(es@) =~= session_spec_members(account_id@, base_url@, state@));
    jobj(es)
}

/// A JMAP StateChange push object (RFC 8620 §7.1), emitted over EventSource or WebSocket.
#[derive(Debug)]
pub struct StateChange {
    pub kind: &'static str,
    pub changed: Json,
}

impl StateChange {
    /// The change notice for `account_id`: Email and Mailbox both at `state`.
    pub fn new(account_id: &str, state: &str) -> (r: StateChange)
        ensures
            r.kind@ == "StateChange"@,
            r.changed.jv() == JsonV::Obj(
                seq![(account_id@, JsonV::Obj(seq![("Email"@, text(state@)), ("Mailbox"@, text(state@))]))],
            ),
    {
        let mut inner: Vec<(String, Json)> = Vec::new();
        put(&mut inner, "Email", jstr(state));
        put(&mut inner, "Mailbox", jstr(state));
        assert(members(inner@) =~= seq![("Email"@, text(state@)), ("Mailbox"@, text(state@))]);
        let mut es: Vec<(String, Json)> = Vec::new();
        put(&mut es, account_id, jobj(inner));
        assert(members(es@) =~= seq![(account_id@, JsonV::Obj(seq![("Email"@, text(state@)), ("Mailbox"@, text(state@))]))]);
        let changed = jobj(es);
        StateChange { kind: "StateChange", changed }
    }
}

// ---------------------------------------------------------------------------------------------
// Limits
// ---------------------------------------------------------------------------------------------

/// The number of members of an object value (0 for anything else).
pub open spec fn obj_len(o: Option<Json>) -> nat {
    match o {
        Some(Json::Obj(es)) => es@.len(),
        _ => 0,
    }
}

/// The number of elements of an array value (0 for anything else).
pub open spec fn arr_len(o: Option<Json>) -> nat {
    match o {
        Some(Json::Arr(a)) => a@.len(),
        _ => 0,
    }
}

/// The objects a `/set` touches: its `create` and `update` members and `destroy` elements.
pub open spec fn set_count(args: Json) -> nat {
    obj_len(member(args, "create"@)) + obj_len(member(args, "update"@)) + arr_len(member(args, "destroy"@))
}

fn obj_len_of(o: Option<&Json>) -> (r: usize)
    ensures
        r == obj_len(
            match o {
                Some(x) => Some(*x),
                None => None,
            },
        ),
{
    match o {
        Some(Json::Obj(es)) => es.len(),
        _ => 0,
    }
}

/// Enforce `maxObjectsInSet` (RFC 8620 §5.3) before a `/set` changes anything: more than
/// [`MAX_OBJECTS_IN_SET`] objects in one call is `requestTooLarge`.
pub fn enforce_set_limit(args: &Json) -> (r: Result<(), Json>)
    ensures
        r is Ok <==> set_count(*args) <= MAX_OBJECTS_IN_SET,
        r matches Err(e) ==> e.jv() == set_error("requestTooLarge"@, "more than maxObjectsInSet objects in one /set"@),
{
    let c = obj_len_of(json_get(args, "create"));
    let u = obj_len_of(json_get(args, "update"));
    let d = match json_get(args, "destroy") {
        Some(Json::Arr(a)) => a.len(),
        _ => 0,
    };
    let n: u128 = c as u128 + u as u128 + d as u128;
    if n > 500 {
        return Err(error_json("requestTooLarge", "more than maxObjectsInSet objects in one /set"));
    }
    Ok(())
}

// ---------------------------------------------------------------------------------------------
// Ids and keywords
// ---------------------------------------------------------------------------------------------

/// The digits of a decimal numeral are ASCII.
proof fn lemma_dec_ascii(n: nat)
    ensures
        forall|j: int| 0 <= j < crate::smtp::dec_spec(n).len() ==> #[trigger] crate::smtp::dec_spec(n)[j] < 128,
    decreases n,
{
    let d = crate::smtp::dec_spec(n);
    if n >= 10 {
        lemma_dec_ascii(n / 10);
        let p = crate::smtp::dec_spec(n / 10);
        assert forall|j: int| 0 <= j < d.len() implies #[trigger] d[j] < 128 by {
            if j < p.len() {
                assert(d[j] == p[j]);
            }
        }
    }
}

/// The id of the message with `uid` in `mailbox`: `mailbox|uid`.
pub open spec fn email_id_text(mailbox: Seq<char>, uid: u32) -> Seq<char> {
    mailbox + vstd::utf8::decode_utf8(seq![124u8] + crate::smtp::dec_spec(uid as nat))
}

pub fn email_id(mailbox: &str, uid: u32) -> (r: String)
    ensures
        r@ == email_id_text(mailbox@, uid),
{
    let mut tail: Vec<u8> = Vec::new();
    tail.push(124u8);
    crate::smtp::push_dec(&mut tail, uid as usize);
    let ghost tv = seq![124u8] + crate::smtp::dec_spec(uid as nat);
    assert(tail@ =~= tv);
    proof {
        lemma_dec_ascii(uid as nat);
        assert forall|j: int| 0 <= j < tail@.len() implies tail@[j] < 128 by {
            if j > 0 {
                assert(tail@[j] == crate::smtp::dec_spec(uid as nat)[j - 1]);
            }
        }
    }
    let t = crate::text::ascii_string(tail);
    proof {
        vstd::utf8::encode_utf8_decode_utf8(t@);
    }
    assert(t@ == vstd::utf8::decode_utf8(tv));
    let mut s = String::from_str(mailbox);
    s.append(t.as_str());
    assert(s@ =~= email_id_text(mailbox@, uid));
    s
}

/// The index of the last `|` in `b`, or -1.
pub open spec fn last_bar(b: Seq<u8>) -> int
    decreases b.len(),
{
    if b.len() == 0 {
        -1
    } else if b.last() == 124 {
        b.len() - 1
    } else {
        last_bar(b.drop_last())
    }
}

/// An email id read back: the text before its last `|` (as text) and the UID after it, a
/// decimal `u32`.
pub open spec fn parse_email_id_spec(id: Seq<char>) -> Option<(Seq<char>, u32)> {
    let b = crate::bytes::utf8(id);
    let k = last_bar(b);
    if k < 0 {
        None
    } else {
        match crate::bytes::parse_dec_spec(b.subrange(k + 1, b.len() as int), u32::MAX as nat) {
            Some(n) => Some((crate::text::utf8_lossy(b.subrange(0, k)), n as u32)),
            None => None,
        }
    }
}

fn find_last_bar(b: &[u8]) -> (r: Option<usize>)
    ensures
        match r {
            Some(k) => k as int == last_bar(b@) && k < b@.len(),
            None => last_bar(b@) < 0,
        },
{
    let mut i: usize = b.len();
    assert(b@.take(b@.len() as int) =~= b@);
    while i > 0
        invariant
            i <= b@.len(),
            last_bar(b@) == last_bar(b@.take(i as int)),
        decreases i,
    {
        assert(b@.take(i as int).drop_last() =~= b@.take(i - 1));
        if b[i - 1] == 124 {
            return Some(i - 1);
        }
        i -= 1;
    }
    None
}

pub fn parse_email_id(id: &str) -> (r: Option<(String, u32)>)
    ensures
        match r {
            Some((m, u)) => parse_email_id_spec(id@) == Some((m@, u)),
            None => parse_email_id_spec(id@) is None,
        },
{
    let b = id.as_bytes();
    let k = match find_last_bar(b) {
        Some(k) => k,
        None => return None,
    };
    let n = b.len();
    assert(k < n);
    let tail = crate::bytes::slice_of(b, k + 1, n);
    match crate::bytes::parse_u32(tail) {
        Some(n) => {
            let m = crate::text::lossy_string(crate::bytes::slice_of(b, 0, k));
            Some((m, n))
        },
        None => None,
    }
}

/// The JMAP keyword of a system flag (`\Recent` and keywords have none).
pub open spec fn keyword_spec(f: Flag) -> Option<Seq<char>> {
    match f {
        Flag::Seen => Some("$seen"@),
        Flag::Flagged => Some("$flagged"@),
        Flag::Answered => Some("$answered"@),
        Flag::Draft => Some("$draft"@),
        Flag::Deleted => Some("$deleted"@),
        _ => None,
    }
}

pub fn keyword_of(flag: &Flag) -> (r: Option<&'static str>)
    ensures
        match r {
            Some(k) => keyword_spec(*flag) == Some(k@),
            None => keyword_spec(*flag) is None,
        },
{
    match flag {
        Flag::Seen => Some("$seen"),
        Flag::Flagged => Some("$flagged"),
        Flag::Answered => Some("$answered"),
        Flag::Draft => Some("$draft"),
        Flag::Deleted => Some("$deleted"),
        Flag::Recent => None,
        Flag::Keyword(_) => None,
    }
}

/// The flag of a JMAP keyword, compared in ASCII lower case; any other keyword is kept, lower-cased.
pub open spec fn flag_of_keyword_spec(kw: Seq<char>) -> Flag {
    let l = crate::bytes::lower_seq(crate::bytes::utf8(kw));
    if l == crate::bytes::lit("$seen") {
        Flag::Seen
    } else if l == crate::bytes::lit("$flagged") {
        Flag::Flagged
    } else if l == crate::bytes::lit("$answered") {
        Flag::Answered
    } else if l == crate::bytes::lit("$draft") {
        Flag::Draft
    } else if l == crate::bytes::lit("$deleted") {
        Flag::Deleted
    } else {
        Flag::Keyword(arbitrary())
    }
}

/// The flag a keyword stands for: a system flag by its `$` name, else the lower-cased keyword.
pub open spec fn flag_is_keyword(f: Flag, kw: Seq<char>) -> bool {
    let l = crate::bytes::lower_seq(crate::bytes::utf8(kw));
    match flag_of_keyword_spec(kw) {
        Flag::Keyword(_) => f matches Flag::Keyword(k) && k@ == l,
        g => f == g,
    }
}

pub fn flag_of_keyword(kw: &str) -> (r: Flag)
    ensures
        flag_is_keyword(r, kw@),
{
    let l = to_lower(kw.as_bytes());
    let s = l.as_slice();
    if crate::bytes::is_lit(s, "$seen") {
        Flag::Seen
    } else if crate::bytes::is_lit(s, "$flagged") {
        Flag::Flagged
    } else if crate::bytes::is_lit(s, "$answered") {
        Flag::Answered
    } else if crate::bytes::is_lit(s, "$draft") {
        Flag::Draft
    } else if crate::bytes::is_lit(s, "$deleted") {
        Flag::Deleted
    } else {
        Flag::Keyword(l)
    }
}


// ---------------------------------------------------------------------------------------------
// Mailbox
// ---------------------------------------------------------------------------------------------

/// A method result by its value.
pub open spec fn result_jv(r: Result<Json, Json>) -> Result<JsonV, JsonV> {
    match r {
        Ok(j) => Ok(j.jv()),
        Err(e) => Err(e.jv()),
    }
}

/// The mailbox names of a store as JSON strings, in order.
pub open spec fn name_texts(m: StoreView) -> Seq<JsonV> {
    Seq::new(m.entries.len(), |i: int| text(m.entries[i].0))
}

/// `Mailbox/query`: every mailbox, in store order.
pub open spec fn mailbox_query_spec(m: StoreView, account: Seq<char>) -> JsonV {
    JsonV::Obj(
        seq![
            ("accountId"@, text(account)),
            ("queryState"@, text(state_chars(m))),
            ("canCalculateChanges"@, JsonV::Bool(true)),
            ("position"@, num(0)),
            ("total"@, nat_json(m.entries.len())),
            ("ids"@, JsonV::Arr(name_texts(m))),
        ],
    )
}

fn names_json<S: MailStore>(store: &S) -> (r: (Json, usize))
    ensures
        r.0.jv() == JsonV::Arr(name_texts(store.model())),
        r.1 == store.model().entries.len(),
{
    let names = store.mailbox_names();
    let mut a: Vec<Json> = Vec::new();
    let mut i: usize = 0;
    while i < names.len()
        invariant
            i <= names@.len(),
            names@.len() == store.model().entries.len(),
            forall|k: int| 0 <= k < names@.len() ==> (#[trigger] names@[k])@ == store.model().entries[k].0,
            elems(a@) == name_texts(store.model()).take(i as int),
        decreases names@.len() - i,
    {
        push_elem(&mut a, jstring(names[i].clone()));
        assert(elems(a@) =~= name_texts(store.model()).take(i + 1));
        i += 1;
    }
    assert(name_texts(store.model()).take(names@.len() as int) =~= name_texts(store.model()));
    (jarr(a), names.len())
}

pub fn mailbox_query<S: MailStore>(store: &S, account: &str) -> (r: Json)
    ensures
        r.jv() == mailbox_query_spec(store.model(), account@),
{
    let (ids, n) = names_json(store);
    let mut es: Vec<(String, Json)> = Vec::new();
    put(&mut es, "accountId", jstr(account));
    put(&mut es, "queryState", jstring(state_string(store)));
    put(&mut es, "canCalculateChanges", Json::Bool(true));
    put(&mut es, "position", Json::Num(Some(0)));
    put(&mut es, "total", jnat(n as u64));
    put(&mut es, "ids", ids);
    assert(members(es@) =~= mailbox_query_spec(store.model(), account@)->Obj_0);
    jobj(es)
}

/// The `ids` of a `/get`, when it lists them.
pub open spec fn ids_filter(args: Json) -> Option<Seq<Json>> {
    match member(args, "ids"@) {
        Some(Json::Arr(a)) => Some(a@),
        _ => None,
    }
}

/// Whether `name` is requested: every name without a list, else a name the list holds as a
/// string.
pub open spec fn wanted(f: Option<Seq<Json>>, name: Seq<char>) -> bool {
    match f {
        None => true,
        Some(a) => exists|j: int| 0 <= j < a.len() && str_of(#[trigger] a[j]) == Some(name),
    }
}

/// The JMAP role of a SPECIAL-USE mailbox, or `null`.
pub open spec fn role_json(u: Option<SpecialUse>) -> JsonV {
    match u {
        Some(SpecialUse::Inbox) => text("inbox"@),
        Some(SpecialUse::Sent) => text("sent"@),
        Some(SpecialUse::Drafts) => text("drafts"@),
        Some(SpecialUse::Trash) => text("trash"@),
        Some(SpecialUse::Junk) => text("junk"@),
        Some(SpecialUse::Archive) => text("archive"@),
        Some(SpecialUse::All) => text("all"@),
        None => JsonV::Null,
    }
}

/// The rights the owner has on each mailbox: all of them.
pub open spec fn rights_json() -> JsonV {
    JsonV::Obj(
        seq![
            ("mayReadItems"@, JsonV::Bool(true)),
            ("mayAddItems"@, JsonV::Bool(true)),
            ("mayRemoveItems"@, JsonV::Bool(true)),
            ("maySetSeen"@, JsonV::Bool(true)),
            ("maySetKeywords"@, JsonV::Bool(true)),
            ("mayCreateChild"@, JsonV::Bool(true)),
            ("mayRename"@, JsonV::Bool(true)),
            ("mayDelete"@, JsonV::Bool(true)),
            ("maySubmit"@, JsonV::Bool(true)),
        ],
    )
}

/// The Mailbox object of the mailbox `b` named `name`; threads are counted as messages.
pub open spec fn mailbox_obj(name: Seq<char>, b: crate::store::Mailbox) -> JsonV {
    let unread = nat_json(crate::store::count_flag(b.messages@, Flag::Seen, false));
    JsonV::Obj(
        seq![
            ("id"@, text(name)),
            ("name"@, text(name)),
            ("parentId"@, JsonV::Null),
            ("role"@, role_json(b.special_use)),
            ("sortOrder"@, num(0)),
            ("totalEmails"@, nat_json(b.messages@.len())),
            ("unreadEmails"@, unread),
            ("totalThreads"@, nat_json(b.messages@.len())),
            ("unreadThreads"@, unread),
            ("myRights"@, rights_json()),
            ("isSubscribed"@, JsonV::Bool(b.subscribed)),
        ],
    )
}

/// The Mailbox objects of the first `n` mailboxes that are requested.
pub open spec fn mailbox_list(m: StoreView, f: Option<Seq<Json>>, n: nat) -> Seq<JsonV>
    decreases n,
{
    if n == 0 {
        seq![]
    } else {
        let p = mailbox_list(m, f, (n - 1) as nat);
        let name = m.entries[n - 1].0;
        match lookup(m, name) {
            Some(b) => if wanted(f, name) {
                p.push(mailbox_obj(name, b))
            } else {
                p
            },
            None => p,
        }
    }
}

/// `Mailbox/get`: the requested mailboxes in store order; more than [`MAX_OBJECTS_IN_GET`] ids
/// is `requestTooLarge`.
pub open spec fn mailbox_get_spec(m: StoreView, account: Seq<char>, args: Json) -> Result<JsonV, JsonV> {
    let f = ids_filter(args);
    if f matches Some(a) && a.len() > MAX_OBJECTS_IN_GET {
        Err(set_error("requestTooLarge"@, "more than maxObjectsInGet ids requested"@))
    } else {
        Ok(
            JsonV::Obj(
                seq![
                    ("accountId"@, text(account)),
                    ("state"@, text(state_chars(m))),
                    ("list"@, JsonV::Arr(mailbox_list(m, f, m.entries.len()))),
                    ("notFound"@, JsonV::Arr(seq![])),
                ],
            ),
        )
    }
}

fn rights() -> (r: Json)
    ensures
        r.jv() == rights_json(),
{
    let mut es: Vec<(String, Json)> = Vec::new();
    put(&mut es, "mayReadItems", Json::Bool(true));
    put(&mut es, "mayAddItems", Json::Bool(true));
    put(&mut es, "mayRemoveItems", Json::Bool(true));
    put(&mut es, "maySetSeen", Json::Bool(true));
    put(&mut es, "maySetKeywords", Json::Bool(true));
    put(&mut es, "mayCreateChild", Json::Bool(true));
    put(&mut es, "mayRename", Json::Bool(true));
    put(&mut es, "mayDelete", Json::Bool(true));
    put(&mut es, "maySubmit", Json::Bool(true));
    assert(members(es@) =~= rights_json()->Obj_0);
    jobj(es)
}

fn role_of(u: Option<SpecialUse>) -> (r: Json)
    ensures
        r.jv() == role_json(u),
{
    match u {
        Some(x) => jstr(x.jmap_role()),
        None => Json::Null,
    }
}

fn mailbox_obj_json(name: &str, b: &crate::store::Mailbox) -> (r: Json)
    ensures
        r.jv() == mailbox_obj(name@, *b),
{
    let total = b.exists_count();
    let unread = b.unseen();
    let mut es: Vec<(String, Json)> = Vec::new();
    put(&mut es, "id", jstr(name));
    put(&mut es, "name", jstr(name));
    put(&mut es, "parentId", Json::Null);
    put(&mut es, "role", role_of(b.special_use));
    put(&mut es, "sortOrder", Json::Num(Some(0)));
    put(&mut es, "totalEmails", jnat(total as u64));
    put(&mut es, "unreadEmails", jnat(unread as u64));
    put(&mut es, "totalThreads", jnat(total as u64));
    put(&mut es, "unreadThreads", jnat(unread as u64));
    put(&mut es, "myRights", rights());
    put(&mut es, "isSubscribed", Json::Bool(b.subscribed));
    assert(members(es@) =~= mailbox_obj(name@, *b)->Obj_0);
    jobj(es)
}

/// Whether `name` is among the strings of `ids`.
fn listed(ids: &Vec<Json>, name: &str) -> (r: bool)
    ensures
        r == wanted(Some(ids@), name@),
{
    let mut j: usize = 0;
    while j < ids.len()
        invariant
            j <= ids@.len(),
            forall|k: int| 0 <= k < j ==> str_of(#[trigger] ids@[k]) != Some(name@),
        decreases ids@.len() - j,
    {
        match json_str(&ids[j]) {
            Some(t) => {
                if crate::store::str_eq(t.as_str(), name) {
                    return true;
                }
            },
            None => {},
        }
        j += 1;
    }
    false
}

pub fn mailbox_get<S: MailStore>(store: &S, account: &str, args: &Json) -> (r: Result<Json, Json>)
    ensures
        result_jv(r) == mailbox_get_spec(store.model(), account@, *args),
{
    let filter = match json_get(args, "ids") {
        Some(v) => json_array(v),
        None => None,
    };
    assert(filter matches Some(a) ==> ids_filter(*args) == Some(a@));
    assert(filter is None ==> ids_filter(*args) is None);
    if let Some(f) = filter {
        if f.len() > MAX_OBJECTS_IN_GET {
            return Err(error_json("requestTooLarge", "more than maxObjectsInGet ids requested"));
        }
    }
    let ghost m = store.model();
    let ghost fv = ids_filter(*args);
    let names = store.mailbox_names();
    let mut list: Vec<Json> = Vec::new();
    let mut i: usize = 0;
    while i < names.len()
        invariant
            i <= names@.len(),
            m == store.model(),
            names@.len() == m.entries.len(),
            forall|k: int| 0 <= k < names@.len() ==> (#[trigger] names@[k])@ == m.entries[k].0,
            fv == ids_filter(*args),
            filter matches Some(a) ==> fv == Some(a@),
            filter is None ==> fv is None,
            elems(list@) == mailbox_list(m, fv, i as nat),
        decreases names@.len() - i,
    {
        let name = names[i].as_str();
        let want = match filter {
            Some(f) => listed(f, name),
            None => true,
        };
        let ghost before = list@;
        if want {
            match store.mailbox(name) {
                Some(mb) => {
                    push_elem(&mut list, mailbox_obj_json(name, mb));
                },
                None => {},
            }
        }
        assert(elems(list@) =~= mailbox_list(m, fv, (i + 1) as nat));
        i += 1;
    }
    let mut es: Vec<(String, Json)> = Vec::new();
    put(&mut es, "accountId", jstr(account));
    put(&mut es, "state", jstring(state_string(store)));
    put(&mut es, "list", jarr(list));
    let empty: Vec<Json> = Vec::new();
    assert(elems(empty@) =~= Seq::<JsonV>::empty());
    put(&mut es, "notFound", jarr(empty));
    assert(members(es@) =~= mailbox_get_spec(m, account@, *args)->Ok_0->Obj_0);
    Ok(jobj(es))
}


// ---------------------------------------------------------------------------------------------
// Email
// ---------------------------------------------------------------------------------------------

/// The ids of messages `msgs` of the mailbox `name`, as JSON strings.
pub open spec fn msg_ids(name: Seq<char>, msgs: Seq<crate::store::Message>) -> Seq<JsonV> {
    Seq::new(msgs.len(), |k: int| text(email_id_text(name, msgs[k].uid)))
}

/// The ids of every message of the first `n` mailboxes whose name is `target` (every mailbox
/// without one), mailbox by mailbox in store order.
pub open spec fn query_ids(m: StoreView, target: Option<Seq<char>>, n: nat) -> Seq<JsonV>
    decreases n,
{
    if n == 0 {
        seq![]
    } else {
        let p = query_ids(m, target, (n - 1) as nat);
        let name = m.entries[n - 1].0;
        if target matches Some(t) && t != name {
            p
        } else {
            match lookup(m, name) {
                Some(b) => p + msg_ids(name, b.messages@),
                None => p,
            }
        }
    }
}

/// The `filter.inMailbox` of an `Email/query`, when it is a string.
pub open spec fn in_mailbox(args: Json) -> Option<Seq<char>> {
    match member(args, "filter"@) {
        Some(f) => match member(f, "inMailbox"@) {
            Some(x) => str_of(x),
            None => None,
        },
        None => None,
    }
}

/// `Email/query`: the ids of the messages of the mailbox `filter.inMailbox` (or of every
/// mailbox), in store order.
pub open spec fn email_query_spec(m: StoreView, account: Seq<char>, args: Json) -> JsonV {
    let ids = query_ids(m, in_mailbox(args), m.entries.len());
    JsonV::Obj(
        seq![
            ("accountId"@, text(account)),
            ("queryState"@, text(state_chars(m))),
            ("canCalculateChanges"@, JsonV::Bool(true)),
            ("position"@, num(0)),
            ("total"@, nat_json(ids.len())),
            ("ids"@, JsonV::Arr(ids)),
        ],
    )
}

/// Append the ids of the messages of `mb`, named `name`.
fn push_msg_ids(out: &mut Vec<Json>, name: &str, mb: &crate::store::Mailbox)
    ensures
        elems(final(out)@) == elems(old(out)@) + msg_ids(name@, mb.messages@),
{
    let mut k: usize = 0;
    while k < mb.messages.len()
        invariant
            k <= mb.messages@.len(),
            elems(out@) == elems(old(out)@) + msg_ids(name@, mb.messages@).take(k as int),
        decreases mb.messages@.len() - k,
    {
        push_elem(out, jstring(email_id(name, mb.messages[k].uid)));
        assert(elems(out@) =~= elems(old(out)@) + msg_ids(name@, mb.messages@).take(k + 1));
        k += 1;
    }
    assert(msg_ids(name@, mb.messages@).take(mb.messages@.len() as int) =~= msg_ids(name@, mb.messages@));
}

pub fn email_query<S: MailStore>(store: &S, account: &str, args: &Json) -> (r: Json)
    ensures
        r.jv() == email_query_spec(store.model(), account@, *args),
{
    let target: Option<String> = match json_get(args, "filter") {
        Some(f) => match json_get(f, "inMailbox") {
            Some(x) => json_str(x),
            None => None,
        },
        None => None,
    };
    let ghost tv = in_mailbox(*args);
    assert(match target {
        Some(t) => tv == Some(t@),
        None => tv is None,
    });
    let ghost m = store.model();
    let names = store.mailbox_names();
    let mut ids: Vec<Json> = Vec::new();
    let mut i: usize = 0;
    while i < names.len()
        invariant
            i <= names@.len(),
            m == store.model(),
            names@.len() == m.entries.len(),
            forall|k: int| 0 <= k < names@.len() ==> (#[trigger] names@[k])@ == m.entries[k].0,
            match target {
                Some(t) => tv == Some(t@),
                None => tv is None,
            },
            elems(ids@) == query_ids(m, tv, i as nat),
        decreases names@.len() - i,
    {
        let name = names[i].as_str();
        let skip = match &target {
            Some(t) => !crate::store::str_eq(t.as_str(), name),
            None => false,
        };
        if !skip {
            match store.mailbox(name) {
                Some(mb) => push_msg_ids(&mut ids, name, mb),
                None => {},
            }
        }
        assert(elems(ids@) =~= query_ids(m, tv, (i + 1) as nat));
        i += 1;
    }
    let n = ids.len();
    let mut es: Vec<(String, Json)> = Vec::new();
    put(&mut es, "accountId", jstr(account));
    put(&mut es, "queryState", jstring(state_string(store)));
    put(&mut es, "canCalculateChanges", Json::Bool(true));
    put(&mut es, "position", Json::Num(Some(0)));
    put(&mut es, "total", jnat(n as u64));
    put(&mut es, "ids", jarr(ids));
    assert(members(es@) =~= email_query_spec(m, account@, *args)->Obj_0);
    jobj(es)
}


/// The header block of a raw message.
pub open spec fn hblock(raw: Seq<u8>) -> Seq<(Seq<u8>, Seq<u8>)> {
    crate::mime::header_block_spec(raw.subrange(0, crate::mime::body_offset_spec(raw)))
}

/// The header fields of a raw message as text.
pub open spec fn htext(raw: Seq<u8>) -> Seq<(Seq<char>, Seq<char>)> {
    crate::mime::pairs_text(hblock(raw))
}

/// The body of a raw message.
pub open spec fn mbody(raw: Seq<u8>) -> Seq<u8> {
    raw.subrange(crate::mime::body_offset_spec(raw), raw.len() as int)
}

/// The first header field named `name` (case-insensitively), as text.
#[verifier::opaque]
pub open spec fn hval(raw: Seq<u8>, name: Seq<u8>) -> Option<Seq<char>> {
    let hs = crate::mime::text_pairs_bytes(htext(raw));
    let k = crate::mime::header_index(hs, name, 0);
    if 0 <= k < hs.len() {
        Some(htext(raw)[k].1)
    } else {
        None
    }
}

/// The text with `<` and `>` removed from its front.
pub open spec fn trim_front(s: Seq<char>) -> Seq<char>
    decreases s.len(),
{
    if s.len() > 0 && (s[0] == '<' || s[0] == '>') {
        trim_front(s.drop_first())
    } else {
        s
    }
}

/// The text with `<` and `>` removed from its back.
pub open spec fn trim_back(s: Seq<char>) -> Seq<char>
    decreases s.len(),
{
    if s.len() > 0 && (s.last() == '<' || s.last() == '>') {
        trim_back(s.drop_last())
    } else {
        s
    }
}

/// A Message-ID without its angle brackets.
pub open spec fn trim_angle(s: Seq<char>) -> Seq<char> {
    trim_back(trim_front(s))
}

/// The thread id of a message: `T` and its Message-ID, else `T` and its UID.
#[verifier::opaque]
pub open spec fn thread_text(raw: Seq<u8>, uid: u32) -> Seq<char> {
    "T"@ + match hval(raw, crate::bytes::lit("Message-ID")) {
        Some(v) => trim_angle(v),
        None => vstd::utf8::decode_utf8(crate::smtp::dec_spec(uid as nat)),
    }
}

/// A header value with its RFC 2047 encoded-words decoded.
pub open spec fn decoded_words(v: Seq<char>) -> Seq<char> {
    crate::text::utf8_lossy(crate::mime::ew_from(crate::bytes::utf8(v), 0, false))
}

/// One address as a JMAP EmailAddress: the decoded display name (or `null`) and
/// `mailbox@host` (the mailbox alone without a host, empty without a mailbox).
pub open spec fn addr_json(a: (Option<Seq<char>>, Option<Seq<char>>, Option<Seq<char>>, Option<Seq<char>>)) -> JsonV {
    JsonV::Obj(
        seq![
            (
                "name"@,
                match a.0 {
                    Some(n) => text(decoded_words(n)),
                    None => JsonV::Null,
                },
            ),
            (
                "email"@,
                text(
                    match (a.2, a.3) {
                        (Some(m), Some(h)) => m + "@"@ + h,
                        (Some(m), None) => m,
                        _ => Seq::<char>::empty(),
                    },
                ),
            ),
        ],
    )
}

/// The addresses of the header `name`, or `null` when there are none.
#[verifier::opaque]
pub open spec fn addrs_json(raw: Seq<u8>, name: Seq<u8>) -> JsonV {
    match hval(raw, name) {
        None => JsonV::Null,
        Some(v) => {
            let l = crate::mime::address_list_spec(crate::bytes::utf8(v));
            if l.len() == 0 {
                JsonV::Null
            } else {
                JsonV::Arr(Seq::new(l.len(), |i: int| addr_json(l[i])))
            }
        },
    }
}

/// The keywords of a message's flags, each system flag once, as `keyword: true` members.
pub open spec fn kw_members(fl: Seq<Flag>) -> Seq<(Seq<char>, JsonV)>
    decreases fl.len(),
{
    if fl.len() == 0 {
        seq![]
    } else {
        let p = kw_members(fl.drop_last());
        match keyword_spec(fl.last()) {
            Some(k) => if exists|j: int| 0 <= j < p.len() && (#[trigger] p[j]).0 == k {
                p
            } else {
                p.push((k, JsonV::Bool(true)))
            },
            None => p,
        }
    }
}

/// The decoded text of a message body and whether decoding met a problem.
#[verifier::opaque]
pub open spec fn decoded_text(raw: Seq<u8>) -> (Seq<char>, bool) {
    crate::mime::decoded_body_spec(crate::mime::text_pairs_bytes(htext(raw)), mbody(raw))
}

/// The first 200 characters of a text.
pub open spec fn preview_text(t: Seq<char>) -> Seq<char> {
    if t.len() <= 200 {
        t
    } else {
        t.take(200)
    }
}

/// The first members of the Email object (RFC 8621 §4.1) of message `msg`, id `id`, in `mailbox`.
#[verifier::opaque]
pub open spec fn email_head(id: Seq<char>, mailbox: Seq<char>, msg: crate::store::Message) -> Seq<(Seq<char>, JsonV)> {
    let raw = msg.raw@;
    seq![
        ("id"@, text(id)),
        ("blobId"@, text(id)),
        ("threadId"@, text(thread_text(raw, msg.uid))),
        ("mailboxIds"@, JsonV::Obj(seq![(mailbox, JsonV::Bool(true))])),
        ("keywords"@, JsonV::Obj(kw_members(msg.flags@))),
        ("size"@, nat_json(raw.len())),
        ("receivedAt"@, text(crate::text::utf8_lossy(crate::date::rfc5322_date_text(msg.internal_date)))),
        ("subject"@, text(decoded_words(
            match hval(raw, crate::bytes::lit("Subject")) {
                Some(v) => v,
                None => Seq::<char>::empty(),
            },
        ))),
    ]
}

/// The remaining members of the Email object of message `msg`.
#[verifier::opaque]
pub open spec fn email_tail(msg: crate::store::Message) -> Seq<(Seq<char>, JsonV)> {
    let raw = msg.raw@;
    let d = decoded_text(raw);
    seq![
        ("from"@, addrs_json(raw, crate::bytes::lit("From"))),
        ("to"@, addrs_json(raw, crate::bytes::lit("To"))),
        ("cc"@, addrs_json(raw, crate::bytes::lit("Cc"))),
        (
            "messageId"@,
            match hval(raw, crate::bytes::lit("Message-ID")) {
                Some(v) => JsonV::Arr(seq![text(trim_angle(v))]),
                None => JsonV::Null,
            },
        ),
        ("preview"@, text(preview_text(d.0))),
        ("hasAttachment"@, JsonV::Bool(crate::mime::structure_spec(hblock(raw), mbody(raw)) is Multipart)),
        (
            "bodyValues"@,
            JsonV::Obj(
                seq![
                    (
                        "1"@,
                        JsonV::Obj(
                            seq![
                                ("value"@, text(d.0)),
                                ("isEncodingProblem"@, JsonV::Bool(d.1)),
                                ("isTruncated"@, JsonV::Bool(false)),
                            ],
                        ),
                    ),
                ],
            ),
        ),
        ("textBody"@, JsonV::Arr(seq![JsonV::Obj(seq![("partId"@, text("1"@)), ("type"@, text("text/plain"@))])])),
    ]
}

/// The Email object (RFC 8621 §4.1) of message `msg`, id `id`, in `mailbox`: its id (also its
/// blob id), thread, mailbox, keywords, size, arrival date, decoded subject, addresses,
/// Message-ID, a preview of its decoded text, whether it is multipart, and its decoded text.
pub open spec fn email_obj(id: Seq<char>, mailbox: Seq<char>, msg: crate::store::Message) -> JsonV {
    JsonV::Obj(email_head(id, mailbox, msg) + email_tail(msg))
}

fn trim_angle_exec(v: &str) -> (r: String)
    ensures
        r@ == trim_angle(v@),
{
    let n = v.unicode_len();
    let mut a: usize = 0;
    assert(v@.subrange(0, n as int) =~= v@);
    while a < n && (v.get_char(a) == '<' || v.get_char(a) == '>')
        invariant
            a <= n,
            n == v@.len(),
            trim_front(v@) == trim_front(v@.subrange(a as int, n as int)),
        decreases n - a,
    {
        assert(v@.subrange(a as int, n as int).drop_first() =~= v@.subrange(a + 1, n as int));
        a += 1;
    }
    assert(a < n ==> v@.subrange(a as int, n as int)[0] == v@[a as int]);
    assert(trim_front(v@) == v@.subrange(a as int, n as int));
    let mut b: usize = n;
    while b > a && (v.get_char(b - 1) == '<' || v.get_char(b - 1) == '>')
        invariant
            a <= b <= n,
            n == v@.len(),
            trim_angle(v@) == trim_back(v@.subrange(a as int, b as int)),
        decreases b,
    {
        assert(v@.subrange(a as int, b as int).drop_last() =~= v@.subrange(a as int, b - 1));
        b -= 1;
    }
    assert(b > a ==> v@.subrange(a as int, b as int).last() == v@[b - 1]);
    assert(trim_angle(v@) == v@.subrange(a as int, b as int));
    String::from_str(v.substring_char(a, b))
}


/// `p` is the parse of `raw`.
#[verifier::opaque]
pub open spec fn parsed_from(p: crate::mime::ParsedMessage, raw: Seq<u8>) -> bool {
    crate::mime::is_parse_of(p, raw)
}

fn parse_raw(raw: &[u8]) -> (r: crate::mime::ParsedMessage)
    ensures
        parsed_from(r, raw@),
{
    reveal(parsed_from);
    crate::mime::ParsedMessage::parse(raw)
}

/// The first header field named `name` of a parsed message, copied out.
fn hval_exec(p: &crate::mime::ParsedMessage, name: &str, Ghost(raw): Ghost<Seq<u8>>) -> (r: Option<String>)
    requires
        parsed_from(*p, raw),
    ensures
        match r {
            Some(v) => hval(raw, crate::bytes::lit(name)) == Some(v@),
            None => hval(raw, crate::bytes::lit(name)) is None,
        },
{
    reveal(parsed_from);
    reveal(hval);
    let ghost hs = crate::mime::text_pairs_bytes(htext(raw));
    assert(crate::mime::message_headers(p) == hs);
    match p.header(name) {
        Some(v) => {
            let ghost k = crate::mime::header_index(hs, crate::bytes::lit(name), 0);
            assert(htext(raw)[k].1 == crate::mime::headers_view(p.headers@)[k].1);
            Some(String::from_str(v))
        },
        None => None,
    }
}

fn addr_json_exec(a: &crate::mime::Address) -> (r: Json)
    ensures
        r.jv() == addr_json(crate::mime::address_view(*a)),
{
    let name = match &a.name {
        Some(n) => jstring(crate::mime::decode_encoded_words(n.as_str())),
        None => Json::Null,
    };
    let email = match (&a.mailbox, &a.host) {
        (Some(m), Some(h)) => {
            let mut e = m.clone();
            e.append("@");
            e.append(h.as_str());
            e
        },
        (Some(m), None) => m.clone(),
        _ => String::new(),
    };
    let mut es: Vec<(String, Json)> = Vec::new();
    put(&mut es, "name", name);
    put(&mut es, "email", jstring(email));
    assert(members(es@) =~= addr_json(crate::mime::address_view(*a))->Obj_0);
    jobj(es)
}

fn addrs_exec(p: &crate::mime::ParsedMessage, name: &str, Ghost(raw): Ghost<Seq<u8>>) -> (r: Json)
    requires
        parsed_from(*p, raw),
    ensures
        r.jv() == addrs_json(raw, crate::bytes::lit(name)),
{
    reveal(parsed_from);
    reveal(hval);
    reveal(addrs_json);
    let ghost hs = crate::mime::text_pairs_bytes(htext(raw));
    assert(crate::mime::message_headers(p) == hs);
    let ghost k = crate::mime::header_index(hs, crate::bytes::lit(name), 0);
    assert(0 <= k < hs.len() ==> htext(raw)[k].1 == p.headers@[k].1@);
    let addrs = p.addresses(name);
    let ghost l = crate::mime::addresses_view(addrs@);
    if addrs.len() == 0 {
        return Json::Null;
    }
    let mut out: Vec<Json> = Vec::new();
    let mut i: usize = 0;
    while i < addrs.len()
        invariant
            i <= addrs@.len(),
            l == crate::mime::addresses_view(addrs@),
            elems(out@) == Seq::new(i as nat, |j: int| addr_json(l[j])),
        decreases addrs@.len() - i,
    {
        push_elem(&mut out, addr_json_exec(&addrs[i]));
        assert(elems(out@) =~= Seq::new((i + 1) as nat, |j: int| addr_json(l[j])));
        i += 1;
    }
    let r = jarr(out);
    assert(r.jv() == addrs_json(raw, crate::bytes::lit(name)));
    r
}

/// The keyword members of a message's flags.
fn keywords_exec(flags: &Vec<Flag>) -> (r: Json)
    ensures
        r.jv() == JsonV::Obj(kw_members(flags@)),
{
    let mut es: Vec<(String, Json)> = Vec::new();
    let mut i: usize = 0;
    assert(flags@.take(0) =~= Seq::<Flag>::empty());
    while i < flags.len()
        invariant
            i <= flags@.len(),
            members(es@) == kw_members(flags@.take(i as int)),
        decreases flags@.len() - i,
    {
        assert(flags@.take(i + 1).drop_last() =~= flags@.take(i as int));
        assert(flags@.take(i + 1).last() == flags@[i as int]);
        match keyword_of(&flags[i]) {
            Some(k) => {
                let mut seen = false;
                let mut j: usize = 0;
                while j < es.len()
                    invariant
                        j <= es@.len(),
                        !seen ==> forall|t: int| 0 <= t < j ==> (#[trigger] members(es@)[t]).0 != k@,
                        seen ==> exists|t: int| 0 <= t < es@.len() && (#[trigger] members(es@)[t]).0 == k@,
                    decreases es@.len() - j,
                {
                    if crate::store::str_eq(es[j].0.as_str(), k) {
                        assert(members(es@)[j as int].0 == es@[j as int].0@);
                        seen = true;
                    }
                    j += 1;
                }
                if !seen {
                    put(&mut es, k, Json::Bool(true));
                }
            },
            None => {},
        }
        i += 1;
    }
    assert(flags@.take(flags@.len() as int) =~= flags@);
    jobj(es)
}

fn thread_exec(p: &crate::mime::ParsedMessage, uid: u32, Ghost(raw): Ghost<Seq<u8>>) -> (r: String)
    requires
        parsed_from(*p, raw),
    ensures
        r@ == thread_text(raw, uid),
{
    reveal(thread_text);
    let mut t = String::from_str("T");
    match hval_exec(p, "Message-ID", Ghost(raw)) {
        Some(v) => {
            let tr = trim_angle_exec(v.as_str());
            t.append(tr.as_str());
        },
        None => {
            let mut d: Vec<u8> = Vec::new();
            crate::smtp::push_dec(&mut d, uid as usize);
            proof {
                lemma_dec_ascii(uid as nat);
            }
            let ds = crate::text::ascii_string(d);
            proof {
                vstd::utf8::encode_utf8_decode_utf8(ds@);
            }
            t.append(ds.as_str());
        },
    }
    t
}

fn decoded_exec(p: &crate::mime::ParsedMessage, Ghost(raw): Ghost<Seq<u8>>) -> (r: (String, bool))
    requires
        parsed_from(*p, raw),
    ensures
        (r.0@, r.1) == decoded_text(raw),
{
    reveal(parsed_from);
    reveal(decoded_text);
    assert(crate::mime::message_headers(p) == crate::mime::text_pairs_bytes(htext(raw)));
    crate::mime::decoded_body_text(p)
}

fn preview_exec(t: &String) -> (r: String)
    ensures
        r@ == preview_text(t@),
{
    let n = t.unicode_len();
    let cut: usize = if n <= 200 { n } else { 200 };
    let r = String::from_str(t.as_str().substring_char(0, cut));
    assert(r@ =~= preview_text(t@));
    r
}

fn is_multipart(p: &crate::mime::ParsedMessage, Ghost(raw): Ghost<Seq<u8>>) -> (r: bool)
    requires
        parsed_from(*p, raw),
    ensures
        r == (crate::mime::structure_spec(hblock(raw), mbody(raw)) is Multipart),
{
    reveal(parsed_from);
    match &p.structure {
        crate::mime::BodyPart::Multipart { .. } => true,
        _ => false,
    }
}

fn mailbox_ids_json(mailbox: &str) -> (r: Json)
    ensures
        r.jv() == JsonV::Obj(seq![(mailbox@, JsonV::Bool(true))]),
{
    let mut mids: Vec<(String, Json)> = Vec::new();
    put(&mut mids, mailbox, Json::Bool(true));
    assert(members(mids@) =~= seq![(mailbox@, JsonV::Bool(true))]);
    jobj(mids)
}

fn body_values_json(body_text: String, problem: bool) -> (r: Json)
    ensures
        r.jv() == JsonV::Obj(
            seq![
                (
                    "1"@,
                    JsonV::Obj(
                        seq![
                            ("value"@, text(body_text@)),
                            ("isEncodingProblem"@, JsonV::Bool(problem)),
                            ("isTruncated"@, JsonV::Bool(false)),
                        ],
                    ),
                ),
            ],
        ),
{
    let ghost t = body_text@;
    let mut bv1: Vec<(String, Json)> = Vec::new();
    put(&mut bv1, "value", jstring(body_text));
    put(&mut bv1, "isEncodingProblem", Json::Bool(problem));
    put(&mut bv1, "isTruncated", Json::Bool(false));
    assert(members(bv1@) =~= seq![
        ("value"@, text(t)),
        ("isEncodingProblem"@, JsonV::Bool(problem)),
        ("isTruncated"@, JsonV::Bool(false)),
    ]);
    let inner = jobj(bv1);
    let mut bv: Vec<(String, Json)> = Vec::new();
    put(&mut bv, "1", inner);
    assert(members(bv@) =~= seq![("1"@, inner.jv())]);
    jobj(bv)
}

fn text_body_json() -> (r: Json)
    ensures
        r.jv() == JsonV::Arr(seq![JsonV::Obj(seq![("partId"@, text("1"@)), ("type"@, text("text/plain"@))])]),
{
    let mut tb1: Vec<(String, Json)> = Vec::new();
    put(&mut tb1, "partId", jstr("1"));
    put(&mut tb1, "type", jstr("text/plain"));
    assert(members(tb1@) =~= seq![("partId"@, text("1"@)), ("type"@, text("text/plain"@))]);
    let o = jobj(tb1);
    let mut tb: Vec<Json> = Vec::new();
    push_elem(&mut tb, o);
    assert(elems(tb@) =~= seq![o.jv()]);
    jarr(tb)
}

fn subject_json(p: &crate::mime::ParsedMessage, Ghost(raw): Ghost<Seq<u8>>) -> (r: Json)
    requires
        parsed_from(*p, raw),
    ensures
        r.jv() == text(decoded_words(
            match hval(raw, crate::bytes::lit("Subject")) {
                Some(v) => v,
                None => Seq::<char>::empty(),
            },
        )),
{
    match hval_exec(p, "Subject", Ghost(raw)) {
        Some(v) => jstring(crate::mime::decode_encoded_words(v.as_str())),
        None => {
            proof {
                reveal_strlit("");
            }
            assert(""@ =~= Seq::<char>::empty());
            jstring(crate::mime::decode_encoded_words(""))
        },
    }
}

fn received_json(ms: u64) -> (r: Json)
    ensures
        r.jv() == text(crate::text::utf8_lossy(crate::date::rfc5322_date_text(ms))),
{
    jstring(crate::date::format_rfc5322_date(ms))
}

fn email_head_json(id: &str, mailbox: &str, msg: &crate::store::Message, p: &crate::mime::ParsedMessage) -> (r: Vec<(String, Json)>)
    requires
        parsed_from(*p, msg.raw@),
    ensures
        members(r@) == email_head(id@, mailbox@, *msg),
{
    let ghost raw = msg.raw@;
    let subject = subject_json(p, Ghost(raw));
    let received = received_json(msg.internal_date);
    let thread = jstring(thread_exec(p, msg.uid, Ghost(raw)));
    let mids = mailbox_ids_json(mailbox);
    let kws = keywords_exec(&msg.flags);
    let size = jnat(msg.size() as u64);
    let mut es: Vec<(String, Json)> = Vec::new();
    put(&mut es, "id", jstr(id));
    put(&mut es, "blobId", jstr(id));
    put(&mut es, "threadId", thread);
    put(&mut es, "mailboxIds", mids);
    put(&mut es, "keywords", kws);
    put(&mut es, "size", size);
    put(&mut es, "receivedAt", received);
    put(&mut es, "subject", subject);
    assert(members(es@) =~= email_head(id@, mailbox@, *msg)) by {
        reveal(email_head);
    }
    es
}

fn email_tail_push(es: &mut Vec<(String, Json)>, msg: &crate::store::Message, p: &crate::mime::ParsedMessage)
    requires
        parsed_from(*p, msg.raw@),
    ensures
        members(final(es)@) == members(old(es)@) + email_tail(*msg),
{
    let ghost raw = msg.raw@;
    let (body_text, problem) = decoded_exec(p, Ghost(raw));
    let preview = preview_exec(&body_text);
    let multipart = is_multipart(p, Ghost(raw));
    let message_id = match hval_exec(p, "Message-ID", Ghost(raw)) {
        Some(v) => {
            let mut a: Vec<Json> = Vec::new();
            push_elem(&mut a, jstring(trim_angle_exec(v.as_str())));
            assert(elems(a@) =~= seq![text(trim_angle(v@))]);
            jarr(a)
        },
        None => Json::Null,
    };
    put(es, "from", addrs_exec(p, "From", Ghost(raw)));
    put(es, "to", addrs_exec(p, "To", Ghost(raw)));
    put(es, "cc", addrs_exec(p, "Cc", Ghost(raw)));
    put(es, "messageId", message_id);
    put(es, "preview", jstring(preview));
    put(es, "hasAttachment", Json::Bool(multipart));
    put(es, "bodyValues", body_values_json(body_text, problem));
    put(es, "textBody", text_body_json());
    assert(members(final(es)@) =~= members(old(es)@) + email_tail(*msg)) by {
        reveal(email_tail);
    }
}

/// The Email object of `msg` (id `id`, in `mailbox`).
pub fn email_obj_json(id: &str, mailbox: &str, msg: &crate::store::Message) -> (r: Json)
    ensures
        r.jv() == email_obj(id@, mailbox@, *msg),
{
    let p = parse_raw(msg.raw.as_slice());
    let mut es = email_head_json(id, mailbox, msg, &p);
    email_tail_push(&mut es, msg, &p);
    jobj(es)
}


/// The strings among the elements of an array, in order.
pub open spec fn strings_of(a: Seq<Json>) -> Seq<Seq<char>>
    decreases a.len(),
{
    if a.len() == 0 {
        seq![]
    } else {
        match str_of(a.last()) {
            Some(t) => strings_of(a.drop_last()).push(t),
            None => strings_of(a.drop_last()),
        }
    }
}

/// The ids of every message of the first `n` mailboxes, mailbox by mailbox in store order.
pub open spec fn all_ids(m: StoreView, n: nat) -> Seq<Seq<char>>
    decreases n,
{
    if n == 0 {
        seq![]
    } else {
        let p = all_ids(m, (n - 1) as nat);
        let name = m.entries[n - 1].0;
        match lookup(m, name) {
            Some(b) => p + Seq::new(b.messages@.len(), |k: int| email_id_text(name, b.messages@[k].uid)),
            None => p,
        }
    }
}

/// The ids an `Email/get` asks for: the strings of `ids`, or every message without a list.
pub open spec fn want_ids(m: StoreView, args: Json) -> Seq<Seq<char>> {
    match member(args, "ids"@) {
        Some(Json::Arr(a)) => strings_of(a@),
        _ => all_ids(m, m.entries.len()),
    }
}

/// The first message with `uid`.
pub open spec fn msg_with_uid(msgs: Seq<crate::store::Message>, uid: u32) -> Option<crate::store::Message>
    decreases msgs.len(),
{
    if msgs.len() == 0 {
        None
    } else if msgs[0].uid == uid {
        Some(msgs[0])
    } else {
        msg_with_uid(msgs.drop_first(), uid)
    }
}

/// The mailbox and message an email id names, if it names one.
pub open spec fn lookup_email(m: StoreView, id: Seq<char>) -> Option<(Seq<char>, crate::store::Message)> {
    match parse_email_id_spec(id) {
        Some((mb, uid)) => match lookup(m, mb) {
            Some(b) => match msg_with_uid(b.messages@, uid) {
                Some(msg) => Some((mb, msg)),
                None => None,
            },
            None => None,
        },
        None => None,
    }
}

/// The most bytes of Email objects one `Email/get` builds.
pub const MAX_RESPONSE_BYTES: usize = 50000000;

/// The Email objects and not-found ids of the first `n` ids, the bytes of the objects so far,
/// and whether they went past [`MAX_RESPONSE_BYTES`] (where the reading stops).
pub open spec fn get_fold(m: StoreView, ids: Seq<Seq<char>>, n: nat) -> (Seq<JsonV>, Seq<JsonV>, nat, bool)
    decreases n,
{
    if n == 0 {
        (seq![], seq![], 0, false)
    } else {
        let (l, nf, b, ex) = get_fold(m, ids, (n - 1) as nat);
        if ex {
            (l, nf, b, ex)
        } else {
            match lookup_email(m, ids[n - 1]) {
                Some((mb, msg)) => {
                    let o = email_obj(ids[n - 1], mb, msg);
                    let b2 = b + crate::bytes::utf8(crate::json::json_text(o)).len();
                    (l.push(o), nf, b2, b2 > MAX_RESPONSE_BYTES)
                },
                None => (l, nf.push(text(ids[n - 1])), b, false),
            }
        }
    }
}

/// `Email/get` (RFC 8621 §4.2): the requested Emails, and the ids that name none; more than
/// [`MAX_OBJECTS_IN_GET`] ids, or Emails past [`MAX_RESPONSE_BYTES`] of text, is
/// `requestTooLarge`.
pub open spec fn email_get_spec(m: StoreView, account: Seq<char>, args: Json) -> Result<JsonV, JsonV> {
    let ids = want_ids(m, args);
    if ids.len() > MAX_OBJECTS_IN_GET {
        Err(set_error("requestTooLarge"@, "more than maxObjectsInGet ids requested"@))
    } else {
        let (l, nf, _b, ex) = get_fold(m, ids, ids.len());
        if ex {
            Err(set_error("requestTooLarge"@, "Email/get response exceeds the response-size limit"@))
        } else {
            Ok(
                JsonV::Obj(
                    seq![
                        ("accountId"@, text(account)),
                        ("state"@, text(state_chars(m))),
                        ("list"@, JsonV::Arr(l)),
                        ("notFound"@, JsonV::Arr(nf)),
                    ],
                ),
            )
        }
    }
}

proof fn lemma_fold_stays(m: StoreView, ids: Seq<Seq<char>>, n: nat, k: nat)
    requires
        n <= k,
        get_fold(m, ids, n).3,
    ensures
        get_fold(m, ids, k) == get_fold(m, ids, n),
    decreases k - n,
{
    if k > n {
        lemma_fold_stays(m, ids, n, (k - 1) as nat);
    }
}

/// Every mailbox keeps its UIDs ascending.
pub open spec fn uids_in_order(m: StoreView) -> bool {
    forall|k: int| 0 <= k < m.entries.len() ==> crate::store::uids_ascending(#[trigger] m.entries[k].1.messages@)
}

proof fn lemma_msg_with_uid(msgs: Seq<crate::store::Message>, k: int)
    requires
        crate::store::uids_ascending(msgs),
        0 <= k < msgs.len(),
    ensures
        msg_with_uid(msgs, msgs[k].uid) == Some(msgs[k]),
    decreases k,
{
    if k > 0 {
        assert(msgs[0].uid < msgs[k].uid);
        let t = msgs.drop_first();
        assert(t[k - 1] == msgs[k]);
        assert forall|i: int, j: int| 0 <= i < j < t.len() implies #[trigger] t[i].uid < #[trigger] t[j].uid by {
            assert(t[i] == msgs[i + 1] && t[j] == msgs[j + 1]);
        }
        lemma_msg_with_uid(t, k - 1);
    }
}

proof fn lemma_no_msg_with_uid(msgs: Seq<crate::store::Message>, uid: u32)
    requires
        forall|k: int| 0 <= k < msgs.len() ==> (#[trigger] msgs[k]).uid != uid,
    ensures
        msg_with_uid(msgs, uid) is None,
    decreases msgs.len(),
{
    if msgs.len() > 0 {
        let t = msgs.drop_first();
        assert forall|k: int| 0 <= k < t.len() implies (#[trigger] t[k]).uid != uid by {
            assert(t[k] == msgs[k + 1]);
        }
        lemma_no_msg_with_uid(t, uid);
    }
}

/// The strings among `a`.
fn strings_exec(a: &Vec<Json>) -> (r: Vec<String>)
    ensures
        r@.len() == strings_of(a@).len(),
        forall|k: int| 0 <= k < r@.len() ==> (#[trigger] r@[k])@ == strings_of(a@)[k],
{
    let mut out: Vec<String> = Vec::new();
    let mut i: usize = 0;
    assert(a@.take(0) =~= Seq::<Json>::empty());
    while i < a.len()
        invariant
            i <= a@.len(),
            out@.len() == strings_of(a@.take(i as int)).len(),
            forall|k: int| 0 <= k < out@.len() ==> (#[trigger] out@[k])@ == strings_of(a@.take(i as int))[k],
        decreases a@.len() - i,
    {
        assert(a@.take(i + 1).drop_last() =~= a@.take(i as int));
        assert(a@.take(i + 1).last() == a@[i as int]);
        match json_str(&a[i]) {
            Some(t) => out.push(t),
            None => {},
        }
        i += 1;
    }
    assert(a@.take(a@.len() as int) =~= a@);
    out
}

/// Every message id of the store.
fn all_ids_exec<S: MailStore>(store: &S) -> (r: Vec<String>)
    ensures
        r@.len() == all_ids(store.model(), store.model().entries.len()).len(),
        forall|k: int| 0 <= k < r@.len() ==> (#[trigger] r@[k])@ == all_ids(store.model(), store.model().entries.len())[k],
{
    let ghost m = store.model();
    let names = store.mailbox_names();
    let mut out: Vec<String> = Vec::new();
    let mut i: usize = 0;
    while i < names.len()
        invariant
            i <= names@.len(),
            m == store.model(),
            names@.len() == m.entries.len(),
            forall|k: int| 0 <= k < names@.len() ==> (#[trigger] names@[k])@ == m.entries[k].0,
            out@.len() == all_ids(m, i as nat).len(),
            forall|k: int| 0 <= k < out@.len() ==> (#[trigger] out@[k])@ == all_ids(m, i as nat)[k],
        decreases names@.len() - i,
    {
        let name = names[i].as_str();
        match store.mailbox(name) {
            Some(mb) => {
                let ghost before = out@;
                let mut j: usize = 0;
                while j < mb.messages.len()
                    invariant
                        j <= mb.messages@.len(),
                        out@.len() == before.len() + j,
                        forall|k: int| 0 <= k < before.len() ==> #[trigger] out@[k] == before[k],
                        forall|k: int| 0 <= k < j ==> (#[trigger] out@[before.len() + k])@ == email_id_text(name@, mb.messages@[k].uid),
                    decreases mb.messages@.len() - j,
                {
                    out.push(email_id(name, mb.messages[j].uid));
                    j += 1;
                }
                assert forall|k: int| 0 <= k < out@.len() implies (#[trigger] out@[k])@ == all_ids(m, (i + 1) as nat)[k] by {
                    if k >= before.len() {
                        assert(out@[before.len() + (k - before.len())] == out@[k]);
                    }
                }
            },
            None => {},
        }
        i += 1;
    }
    out
}

pub fn email_get<S: MailStore>(store: &S, account: &str, args: &Json) -> (r: Result<Json, Json>)
    ensures
        want_ids(store.model(), *args).len() > MAX_OBJECTS_IN_GET ==> result_jv(r) == email_get_spec(store.model(), account@, *args),
        uids_in_order(store.model()) ==> result_jv(r) == email_get_spec(store.model(), account@, *args),
{
    let ghost m = store.model();
    let want: Vec<String> = match json_get(args, "ids") {
        Some(v) => match json_array(v) {
            Some(a) => strings_exec(a),
            None => all_ids_exec(store),
        },
        None => all_ids_exec(store),
    };
    let ghost ids = want_ids(m, *args);
    assert(want@.len() == ids.len());
    assert(forall|k: int| 0 <= k < want@.len() ==> (#[trigger] want@[k])@ == ids[k]);
    if want.len() > MAX_OBJECTS_IN_GET {
        return Err(error_json("requestTooLarge", "more than maxObjectsInGet ids requested"));
    }
    let mut list: Vec<Json> = Vec::new();
    let mut not_found: Vec<Json> = Vec::new();
    let mut bytes: usize = 0;
    let mut i: usize = 0;
    while i < want.len()
        invariant
            i <= want@.len(),
            m == store.model(),
            want@.len() == ids.len(),
            ids == want_ids(m, *args),
            forall|k: int| 0 <= k < want@.len() ==> (#[trigger] want@[k])@ == ids[k],
            uids_in_order(m) ==> ({
                let f = get_fold(m, ids, i as nat);
                &&& elems(list@) == f.0
                &&& elems(not_found@) == f.1
                &&& bytes == f.2
                &&& !f.3
            }),
            bytes <= MAX_RESPONSE_BYTES,
            want@.len() <= MAX_OBJECTS_IN_GET,
        decreases want@.len() - i,
    {
        let id = want[i].as_str();
        let found = match parse_email_id(id) {
            Some((mb, uid)) => match store.mailbox(mb.as_str()) {
                Some(b) => match b.by_uid(uid) {
                    Some(msg) => Some((mb, msg)),
                    None => None,
                },
                None => None,
            },
            None => None,
        };
        proof {
            if uids_in_order(m) {
                match parse_email_id_spec(ids[i as int]) {
                    Some((mbv, uid)) => match lookup(m, mbv) {
                        Some(b) => {
                            let k = crate::store::key_index(m.entries, mbv, 0);
                            crate::store::lemma_key_index(m.entries, mbv, 0);
                            assert(m.entries[k].1 == b);
                            assert(crate::store::uids_ascending(m.entries[k].1.messages@));
                            if exists|j: int| 0 <= j < b.messages@.len() && b.messages@[j].uid == uid {
                                let j = choose|j: int| 0 <= j < b.messages@.len() && b.messages@[j].uid == uid;
                                lemma_msg_with_uid(b.messages@, j);
                            } else {
                                lemma_no_msg_with_uid(b.messages@, uid);
                            }
                        },
                        None => {},
                    },
                    None => {},
                }
            }
        }
        match found {
            Some((mb, msg)) => {
                let o = email_obj_json(id, mb.as_str(), msg);
                let t = crate::json::json_to_string(&o);
                let len = t.as_str().as_bytes().len();
                push_elem(&mut list, o);
                if len > MAX_RESPONSE_BYTES - bytes {
                    proof {
                        if uids_in_order(m) {
                            assert(get_fold(m, ids, (i + 1) as nat).3);
                            lemma_fold_stays(m, ids, (i + 1) as nat, ids.len());
                        }
                    }
                    return Err(error_json("requestTooLarge", "Email/get response exceeds the response-size limit"));
                }
                bytes = bytes + len;
            },
            None => {
                push_elem(&mut not_found, jstr(id));
            },
        }
        i += 1;
    }
    let mut es: Vec<(String, Json)> = Vec::new();
    put(&mut es, "accountId", jstr(account));
    put(&mut es, "state", jstring(state_string(store)));
    put(&mut es, "list", jarr(list));
    put(&mut es, "notFound", jarr(not_found));
    proof {
        if uids_in_order(m) {
            assert(members(es@) =~= email_get_spec(m, account@, *args)->Ok_0->Obj_0);
        }
    }
    Ok(jobj(es))
}


// ---------------------------------------------------------------------------------------------
// Mailbox/set
// ---------------------------------------------------------------------------------------------

/// The text of a store refusal.
pub open spec fn err_text(e: crate::store::StoreError) -> Seq<char> {
    match e {
        crate::store::StoreError::AlreadyExists => "mailbox already exists"@,
        crate::store::StoreError::NoSuchMailbox => "no such mailbox"@,
        crate::store::StoreError::InboxImmutable => "INBOX cannot be deleted or renamed"@,
    }
}

/// The string member `key` of an object, or the empty text.
pub open spec fn str_member(obj: Json, key: Seq<char>) -> Seq<char> {
    match member(obj, key) {
        Some(x) => match str_of(x) {
            Some(t) => t,
            None => seq![],
        },
        None => seq![],
    }
}

/// The full name a Mailbox create object asks for: its `name`, under its `parentId` when that is
/// a non-empty string (`Parent/Child`); none without a name.
pub open spec fn create_name(obj: Json) -> Option<Seq<char>> {
    let name = str_member(obj, "name"@);
    let parent = str_member(obj, "parentId"@);
    if name.len() == 0 {
        None
    } else if parent.len() > 0 {
        Some(parent + "/"@ + name)
    } else {
        Some(name)
    }
}

/// The answer for a created mailbox.
pub open spec fn created_json(full: Seq<char>) -> JsonV {
    JsonV::Obj(
        seq![
            ("id"@, text(full)),
            ("totalEmails"@, num(0)),
            ("unreadEmails"@, num(0)),
            ("totalThreads"@, num(0)),
            ("unreadThreads"@, num(0)),
            ("isSubscribed"@, JsonV::Bool(true)),
        ],
    )
}

/// The answer for a create object without a name.
pub open spec fn invalid_name() -> JsonV {
    JsonV::Obj(seq![("type"@, text("invalidProperties"@)), ("properties"@, JsonV::Arr(seq![text("name"@)]))])
}

/// The answer `{"type": "notFound"}`.
pub open spec fn not_found() -> JsonV {
    JsonV::Obj(seq![("type"@, text("notFound"@))])
}

/// What the `/set` calls went through: the stores around each create, rename, subscribe and
/// delete, and the outcome of each store call.
pub ghost struct SetTrace {
    pub creates: Seq<StoreView>,
    pub create_results: Seq<Result<(), crate::store::StoreError>>,
    pub updates: Seq<StoreView>,
    pub renamed: Seq<bool>,
    pub deletes: Seq<StoreView>,
    pub delete_results: Seq<Result<(), crate::store::StoreError>>,
}

/// The members of an object value (none for anything else).
pub open spec fn obj_members(o: Option<Json>) -> Seq<(String, Json)> {
    match o {
        Some(Json::Obj(es)) => es@,
        _ => seq![],
    }
}

/// The strings of an array value (none for anything else).
pub open spec fn arr_strings(o: Option<Json>) -> Seq<Seq<char>> {
    match o {
        Some(Json::Arr(a)) => strings_of(a@),
        _ => seq![],
    }
}

/// The creates run store call by store call.
pub open spec fn creates_ran(es: Seq<(String, Json)>, t: SetTrace) -> bool {
    &&& t.creates.len() == es.len() + 1
    &&& t.create_results.len() == es.len()
    &&& forall|k: int|
        0 <= k < es.len() ==> match create_name(#[trigger] es[k].1) {
            None => t.creates[k + 1] == t.creates[k],
            Some(full) => crate::store::create_post(t.creates[k], full, t.creates[k + 1], t.create_results[k]),
        }
}

/// A mailbox with its subscription set.
pub open spec fn subscribed_as(b: crate::store::Mailbox, sub: bool) -> crate::store::Mailbox {
    crate::store::Mailbox { subscribed: sub, ..b }
}

/// The `name` an update patch renames to.
pub open spec fn patch_name(patch: Json) -> Option<Seq<char>> {
    match member(patch, "name"@) {
        Some(x) => str_of(x),
        None => None,
    }
}

/// The `isSubscribed` an update patch sets.
pub open spec fn patch_sub(patch: Json) -> Option<bool> {
    match member(patch, "isSubscribed"@) {
        Some(x) => crate::json::bool_of(x),
        None => None,
    }
}

/// One update: from store `a`, a `name` renames (to `b`; `ren` says whether it went through),
/// then, after a rename that did not fail, an `isSubscribed` boolean sets the subscription of
/// the mailbox under its new name, where there is one (to `c`).
pub open spec fn update_step(entry: (String, Json), a: StoreView, b: StoreView, c: StoreView, ren: bool) -> bool {
    let (id, patch) = entry;
    let target = match patch_name(patch) {
        Some(nn) => nn,
        None => id@,
    };
    &&& match patch_name(patch) {
        None => b == a && ren,
        Some(nn) => exists|r: Result<(), crate::store::StoreError>|
            #[trigger] crate::store::rename_post(a, id@, nn, b, r) && ren == (r is Ok),
    }
    &&& if ren && patch_sub(patch) is Some {
        match lookup(b, target) {
            Some(mb) => c.entries == crate::store::put_box(b, target, subscribed_as(mb, patch_sub(patch)->0)).entries
                && c.next_uid_validity == b.next_uid_validity,
            None => c == b,
        }
    } else {
        c == b
    }
}

/// The updates run, one after the other.
pub open spec fn updates_ran(us: Seq<(String, Json)>, t: SetTrace) -> bool {
    &&& t.updates.len() == 2 * us.len() + 1
    &&& t.renamed.len() == us.len()
    &&& forall|k: int|
        0 <= k < us.len() ==> update_step(
            #[trigger] us[k],
            t.updates[2 * k],
            t.updates[2 * k + 1],
            t.updates[2 * k + 2],
            t.renamed[k],
        )
}

/// The deletes run.
pub open spec fn deletes_ran(ds: Seq<Seq<char>>, t: SetTrace) -> bool {
    &&& t.deletes.len() == ds.len() + 1
    &&& t.delete_results.len() == ds.len()
    &&& forall|k: int|
        0 <= k < ds.len() ==> crate::store::delete_post(t.deletes[k], #[trigger] ds[k], t.deletes[k + 1], t.delete_results[k])
}

/// The created and not-created members of the first `n` creates.
pub open spec fn create_members(es: Seq<(String, Json)>, rs: Seq<Result<(), crate::store::StoreError>>, n: nat) -> (
    Seq<(Seq<char>, JsonV)>,
    Seq<(Seq<char>, JsonV)>,
)
    decreases n,
{
    if n == 0 {
        (seq![], seq![])
    } else {
        let (c, nc) = create_members(es, rs, (n - 1) as nat);
        let cid = es[n - 1].0@;
        match create_name(es[n - 1].1) {
            None => (c, nc.push((cid, invalid_name()))),
            Some(full) => match rs[n - 1] {
                Ok(_) => (c.push((cid, created_json(full))), nc),
                Err(e) => (c, nc.push((cid, set_error("invalidArguments"@, err_text(e))))),
            },
        }
    }
}

/// The updated and not-updated members of the first `n` updates.
pub open spec fn update_members(us: Seq<(String, Json)>, renamed: Seq<bool>, n: nat) -> (
    Seq<(Seq<char>, JsonV)>,
    Seq<(Seq<char>, JsonV)>,
)
    decreases n,
{
    if n == 0 {
        (seq![], seq![])
    } else {
        let (u, nu) = update_members(us, renamed, (n - 1) as nat);
        if renamed[n - 1] {
            (u.push((us[n - 1].0@, JsonV::Null)), nu)
        } else {
            (u, nu.push((us[n - 1].0@, not_found())))
        }
    }
}

/// The destroyed ids and not-destroyed members of the first `n` deletes.
pub open spec fn delete_members(ds: Seq<Seq<char>>, rs: Seq<Result<(), crate::store::StoreError>>, n: nat) -> (
    Seq<JsonV>,
    Seq<(Seq<char>, JsonV)>,
)
    decreases n,
{
    if n == 0 {
        (seq![], seq![])
    } else {
        let (d, nd) = delete_members(ds, rs, (n - 1) as nat);
        match rs[n - 1] {
            Ok(_) => (d.push(text(ds[n - 1])), nd),
            Err(e) => (d, nd.push((ds[n - 1], set_error("notFound"@, err_text(e))))),
        }
    }
}

/// `Mailbox/set` (RFC 8621 §2.5) over the store `m0`, ending at `mf`, as the trace `t` ran it.
pub open spec fn mailbox_set_ran(m0: StoreView, account: Seq<char>, args: Json, mf: StoreView, r: Result<JsonV, JsonV>, t: SetTrace) -> bool {
    let es = obj_members(member(args, "create"@));
    let us = obj_members(member(args, "update"@));
    let ds = arr_strings(member(args, "destroy"@));
    let (c, nc) = create_members(es, t.create_results, es.len());
    let (u, nu) = update_members(us, t.renamed, us.len());
    let (d, nd) = delete_members(ds, t.delete_results, ds.len());
    &&& creates_ran(es, t) && t.creates[0] == m0
    &&& updates_ran(us, t) && t.updates[0] == t.creates[es.len() as int]
    &&& deletes_ran(ds, t) && t.deletes[0] == t.updates[(2 * us.len()) as int] && mf == t.deletes[ds.len() as int]
    &&& r == Ok::<JsonV, JsonV>(
        JsonV::Obj(
            seq![
                ("accountId"@, text(account)),
                ("oldState"@, text("0"@)),
                ("newState"@, text(state_chars(mf))),
                ("created"@, JsonV::Obj(c)),
                ("updated"@, JsonV::Obj(u)),
                ("destroyed"@, JsonV::Arr(d)),
                ("notCreated"@, JsonV::Obj(nc)),
                ("notUpdated"@, JsonV::Obj(nu)),
                ("notDestroyed"@, JsonV::Obj(nd)),
            ],
        ),
    )
}


fn str_member_exec(obj: &Json, key: &str) -> (r: String)
    ensures
        r@ == str_member(*obj, key@),
{
    match json_get(obj, key) {
        Some(x) => match json_str(x) {
            Some(t) => t,
            None => String::new(),
        },
        None => String::new(),
    }
}

fn invalid_name_json() -> (r: Json)
    ensures
        r.jv() == invalid_name(),
{
    let mut a: Vec<Json> = Vec::new();
    push_elem(&mut a, jstr("name"));
    assert(elems(a@) =~= seq![text("name"@)]);
    let mut es: Vec<(String, Json)> = Vec::new();
    put(&mut es, "type", jstr("invalidProperties"));
    put(&mut es, "properties", jarr(a));
    assert(members(es@) =~= invalid_name()->Obj_0);
    jobj(es)
}

fn not_found_json() -> (r: Json)
    ensures
        r.jv() == not_found(),
{
    let mut es: Vec<(String, Json)> = Vec::new();
    put(&mut es, "type", jstr("notFound"));
    assert(members(es@) =~= not_found()->Obj_0);
    jobj(es)
}

fn created_json_exec(full: &str) -> (r: Json)
    ensures
        r.jv() == created_json(full@),
{
    let mut es: Vec<(String, Json)> = Vec::new();
    put(&mut es, "id", jstr(full));
    put(&mut es, "totalEmails", Json::Num(Some(0)));
    put(&mut es, "unreadEmails", Json::Num(Some(0)));
    put(&mut es, "totalThreads", Json::Num(Some(0)));
    put(&mut es, "unreadThreads", Json::Num(Some(0)));
    put(&mut es, "isSubscribed", Json::Bool(true));
    assert(members(es@) =~= created_json(full@)->Obj_0);
    jobj(es)
}

fn store_error_json(kind: &str, e: crate::store::StoreError) -> (r: Json)
    ensures
        r.jv() == set_error(kind@, err_text(e)),
{
    error_json(kind, e.message())
}

/// The members of the object `key` of `args`.
fn obj_arg<'a>(args: &'a Json, key: &str, empty: &'a Vec<(String, Json)>) -> (r: &'a Vec<(String, Json)>)
    requires
        empty@.len() == 0,
    ensures
        r@ == obj_members(member(*args, key@)),
{
    match json_get(args, key) {
        Some(Json::Obj(es)) => es,
        _ => empty,
    }
}

proof fn lemma_create_members_prefix(
    es: Seq<(String, Json)>,
    a: Seq<Result<(), crate::store::StoreError>>,
    b: Seq<Result<(), crate::store::StoreError>>,
    n: nat,
)
    requires
        n <= a.len(),
        n <= b.len(),
        forall|j: int| 0 <= j < n ==> a[j] == b[j],
    ensures
        create_members(es, a, n) == create_members(es, b, n),
    decreases n,
{
    if n > 0 {
        lemma_create_members_prefix(es, a, b, (n - 1) as nat);
    }
}

/// Apply the creates of a `Mailbox/set`.
fn run_creates<S: MailStore>(
    store: &mut S,
    es: &Vec<(String, Json)>,
    created: &mut Vec<(String, Json)>,
    not_created: &mut Vec<(String, Json)>,
) -> (t: Ghost<SetTrace>)
    requires
        members(old(created)@).len() == 0,
        members(old(not_created)@).len() == 0,
    ensures
        creates_ran(es@, t@),
        t@.creates[0] == old(store).model(),
        t@.creates[es@.len() as int] == final(store).model(),
        members(final(created)@) == create_members(es@, t@.create_results, es@.len()).0,
        members(final(not_created)@) == create_members(es@, t@.create_results, es@.len()).1,
{
    let ghost mut t = SetTrace {
        creates: seq![store.model()],
        create_results: seq![],
        updates: seq![],
        renamed: seq![],
        deletes: seq![],
        delete_results: seq![],
    };
    assert(members(created@) =~= create_members(es@, t.create_results, 0).0);
    assert(members(not_created@) =~= create_members(es@, t.create_results, 0).1);
    let mut k: usize = 0;
    while k < es.len()
        invariant
            k <= es@.len(),
            t.creates.len() == k + 1,
            t.create_results.len() == k,
            t.creates[0] == old(store).model(),
            t.creates[k as int] == store.model(),
            forall|j: int|
                0 <= j < k ==> match create_name(#[trigger] es@[j].1) {
                    None => t.creates[j + 1] == t.creates[j],
                    Some(full) => crate::store::create_post(t.creates[j], full, t.creates[j + 1], t.create_results[j]),
                },
            members(created@) == create_members(es@, t.create_results, k as nat).0,
            members(not_created@) == create_members(es@, t.create_results, k as nat).1,
        decreases es@.len() - k,
    {
        let cid = es[k].0.as_str();
        let obj = &es[k].1;
        let name = str_member_exec(obj, "name");
        let parent = str_member_exec(obj, "parentId");
        let ghost before = store.model();
        let ghost rs0 = t.create_results;
        if name.unicode_len() == 0 {
            put(not_created, cid, invalid_name_json());
            proof {
                t.creates = t.creates.push(before);
                t.create_results = t.create_results.push(Ok(()));
            }
        } else {
            let full = if parent.unicode_len() > 0 {
                let mut f = parent.clone();
                f.append("/");
                f.append(name.as_str());
                f
            } else {
                name.clone()
            };
            assert(create_name(*obj) == Some(full@));
            let res = store.create(full.as_str());
            match res {
                Ok(()) => put(created, cid, created_json_exec(full.as_str())),
                Err(e) => put(not_created, cid, store_error_json("invalidArguments", e)),
            }
            proof {
                t.creates = t.creates.push(store.model());
                t.create_results = t.create_results.push(res);
            }
        }
        proof {
            lemma_create_members_prefix(es@, rs0, t.create_results, k as nat);
        }
        k += 1;
    }
    Ghost(t)
}


proof fn lemma_update_members_prefix(us: Seq<(String, Json)>, a: Seq<bool>, b: Seq<bool>, n: nat)
    requires
        n <= a.len(),
        n <= b.len(),
        forall|j: int| 0 <= j < n ==> a[j] == b[j],
    ensures
        update_members(us, a, n) == update_members(us, b, n),
    decreases n,
{
    if n > 0 {
        lemma_update_members_prefix(us, a, b, (n - 1) as nat);
    }
}

proof fn lemma_delete_members_prefix(
    ds: Seq<Seq<char>>,
    a: Seq<Result<(), crate::store::StoreError>>,
    b: Seq<Result<(), crate::store::StoreError>>,
    n: nat,
)
    requires
        n <= a.len(),
        n <= b.len(),
        forall|j: int| 0 <= j < n ==> a[j] == b[j],
    ensures
        delete_members(ds, a, n) == delete_members(ds, b, n),
    decreases n,
{
    if n > 0 {
        lemma_delete_members_prefix(ds, a, b, (n - 1) as nat);
    }
}

/// Apply the updates of a `Mailbox/set`.
fn run_updates<S: MailStore>(
    store: &mut S,
    us: &Vec<(String, Json)>,
    updated: &mut Vec<(String, Json)>,
    not_updated: &mut Vec<(String, Json)>,
) -> (t: Ghost<SetTrace>)
    requires
        members(old(updated)@).len() == 0,
        members(old(not_updated)@).len() == 0,
    ensures
        updates_ran(us@, t@),
        t@.updates[0] == old(store).model(),
        t@.updates[(2 * us@.len()) as int] == final(store).model(),
        members(final(updated)@) == update_members(us@, t@.renamed, us@.len()).0,
        members(final(not_updated)@) == update_members(us@, t@.renamed, us@.len()).1,
{
    let ghost mut t = SetTrace {
        creates: seq![],
        create_results: seq![],
        updates: seq![store.model()],
        renamed: seq![],
        deletes: seq![],
        delete_results: seq![],
    };
    assert(members(updated@) =~= update_members(us@, t.renamed, 0).0);
    assert(members(not_updated@) =~= update_members(us@, t.renamed, 0).1);
    let mut k: usize = 0;
    while k < us.len()
        invariant
            k <= us@.len(),
            t.updates.len() == 2 * k + 1,
            t.renamed.len() == k,
            t.updates[0] == old(store).model(),
            t.updates[2 * k as int] == store.model(),
            forall|j: int|
                0 <= j < k ==> update_step(
                    #[trigger] us@[j],
                    t.updates[2 * j],
                    t.updates[2 * j + 1],
                    t.updates[2 * j + 2],
                    t.renamed[j],
                ),
            members(updated@) == update_members(us@, t.renamed, k as nat).0,
            members(not_updated@) == update_members(us@, t.renamed, k as nat).1,
        decreases us@.len() - k,
    {
        let id = us[k].0.as_str();
        let patch = &us[k].1;
        let ghost rn0 = t.renamed;
        let newname: Option<String> = match json_get(patch, "name") {
            Some(x) => json_str(x),
            None => None,
        };
        assert(match newname {
            Some(nn) => patch_name(*patch) == Some(nn@),
            None => patch_name(*patch) is None,
        });
        let ghost a = store.model();
        let res: Option<Result<(), crate::store::StoreError>> = match &newname {
            Some(nn) => Some(store.rename(id, nn.as_str())),
            None => None,
        };
        let ok = match res {
            Some(r) => r.is_ok(),
            None => true,
        };
        let ghost b = store.model();
        let sub: Option<bool> = match json_get(patch, "isSubscribed") {
            Some(x) => crate::json::json_bool(x),
            None => None,
        };
        assert(sub == patch_sub(*patch));
        if ok {
            if let Some(sv) = sub {
                let target = match &newname {
                    Some(nn) => nn.as_str(),
                    None => id,
                };
                match store.mailbox_mut(target) {
                    Some(mb) => {
                        mb.subscribed = sv;
                    },
                    None => {},
                }
            }
            put(updated, id, Json::Null);
        } else {
            put(not_updated, id, not_found_json());
        }
        proof {
            let ghost told = t;
            t.updates = t.updates.push(b).push(store.model());
            t.renamed = t.renamed.push(ok);
            lemma_update_members_prefix(us@, rn0, t.renamed, k as nat);
            assert(update_step(us@[k as int], a, b, store.model(), ok));
            assert forall|j: int| 0 <= j < k + 1 implies update_step(
                #[trigger] us@[j],
                t.updates[2 * j],
                t.updates[2 * j + 1],
                t.updates[2 * j + 2],
                t.renamed[j],
            ) by {
                if j < k {
                    assert(t.updates[2 * j] == told.updates[2 * j]);
                    assert(t.updates[2 * j + 1] == told.updates[2 * j + 1]);
                    assert(t.updates[2 * j + 2] == told.updates[2 * j + 2]);
                    assert(t.renamed[j] == told.renamed[j]);
                }
            }
        }
        k += 1;
    }
    Ghost(t)
}

/// Apply the deletes of a `Mailbox/set`.
fn run_deletes<S: MailStore>(
    store: &mut S,
    ds: &Vec<String>,
    destroyed: &mut Vec<Json>,
    not_destroyed: &mut Vec<(String, Json)>,
    Ghost(dv): Ghost<Seq<Seq<char>>>,
) -> (t: Ghost<SetTrace>)
    requires
        elems(old(destroyed)@).len() == 0,
        members(old(not_destroyed)@).len() == 0,
        dv.len() == ds@.len(),
        forall|k: int| 0 <= k < ds@.len() ==> (#[trigger] ds@[k])@ == dv[k],
    ensures
        deletes_ran(dv, t@),
        t@.deletes[0] == old(store).model(),
        t@.deletes[dv.len() as int] == final(store).model(),
        elems(final(destroyed)@) == delete_members(dv, t@.delete_results, dv.len()).0,
        members(final(not_destroyed)@) == delete_members(dv, t@.delete_results, dv.len()).1,
{
    let ghost mut t = SetTrace {
        creates: seq![],
        create_results: seq![],
        updates: seq![],
        renamed: seq![],
        deletes: seq![store.model()],
        delete_results: seq![],
    };
    assert(elems(destroyed@) =~= delete_members(dv, t.delete_results, 0).0);
    assert(members(not_destroyed@) =~= delete_members(dv, t.delete_results, 0).1);
    let mut k: usize = 0;
    while k < ds.len()
        invariant
            k <= ds@.len(),
            dv.len() == ds@.len(),
            forall|j: int| 0 <= j < ds@.len() ==> (#[trigger] ds@[j])@ == dv[j],
            t.deletes.len() == k + 1,
            t.delete_results.len() == k,
            t.deletes[0] == old(store).model(),
            t.deletes[k as int] == store.model(),
            forall|j: int|
                0 <= j < k ==> crate::store::delete_post(t.deletes[j], #[trigger] dv[j], t.deletes[j + 1], t.delete_results[j]),
            elems(destroyed@) == delete_members(dv, t.delete_results, k as nat).0,
            members(not_destroyed@) == delete_members(dv, t.delete_results, k as nat).1,
        decreases ds@.len() - k,
    {
        let id = ds[k].as_str();
        let ghost rs0 = t.delete_results;
        let res = store.delete(id);
        match res {
            Ok(()) => push_elem(destroyed, jstr(id)),
            Err(e) => put(not_destroyed, id, store_error_json("notFound", e)),
        }
        proof {
            t.deletes = t.deletes.push(store.model());
            t.delete_results = t.delete_results.push(res);
            lemma_delete_members_prefix(dv, rs0, t.delete_results, k as nat);
        }
        k += 1;
    }
    Ghost(t)
}

/// `Mailbox/set` (RFC 8621 §2.5): create, update (rename, subscribe) and destroy mailboxes
/// through the store, in that order; more than [`MAX_OBJECTS_IN_SET`] objects is refused before
/// anything changes.
pub fn mailbox_set<S: MailStore>(store: &mut S, account: &str, args: &Json) -> (r: Result<Json, Json>)
    ensures
        set_count(*args) > MAX_OBJECTS_IN_SET ==> result_jv(r) == Err::<JsonV, JsonV>(
            set_error("requestTooLarge"@, "more than maxObjectsInSet objects in one /set"@),
        ) && final(store).model() == old(store).model(),
        set_count(*args) <= MAX_OBJECTS_IN_SET ==> exists|t: SetTrace|
            #[trigger] mailbox_set_ran(old(store).model(), account@, *args, final(store).model(), result_jv(r), t),
{
    match enforce_set_limit(args) {
        Err(e) => return Err(e),
        Ok(()) => {},
    }
    let empty: Vec<(String, Json)> = Vec::new();
    let es = obj_arg(args, "create", &empty);
    let us = obj_arg(args, "update", &empty);
    let no_ids: Vec<String> = Vec::new();
    let ds: Vec<String> = match json_get(args, "destroy") {
        Some(Json::Arr(a)) => strings_exec(a),
        _ => no_ids,
    };
    let ghost dv = arr_strings(member(*args, "destroy"@));
    assert(dv.len() == ds@.len());
    let mut created: Vec<(String, Json)> = Vec::new();
    let mut not_created: Vec<(String, Json)> = Vec::new();
    let mut updated: Vec<(String, Json)> = Vec::new();
    let mut not_updated: Vec<(String, Json)> = Vec::new();
    let mut destroyed: Vec<Json> = Vec::new();
    let mut not_destroyed: Vec<(String, Json)> = Vec::new();
    let Ghost(tc) = run_creates(store, es, &mut created, &mut not_created);
    let Ghost(tu) = run_updates(store, us, &mut updated, &mut not_updated);
    let Ghost(td) = run_deletes(store, &ds, &mut destroyed, &mut not_destroyed, Ghost(dv));
    let ghost t = SetTrace {
        creates: tc.creates,
        create_results: tc.create_results,
        updates: tu.updates,
        renamed: tu.renamed,
        deletes: td.deletes,
        delete_results: td.delete_results,
    };
    let mut out: Vec<(String, Json)> = Vec::new();
    put(&mut out, "accountId", jstr(account));
    put(&mut out, "oldState", jstr("0"));
    put(&mut out, "newState", jstring(state_string(store)));
    put(&mut out, "created", jobj(created));
    put(&mut out, "updated", jobj(updated));
    put(&mut out, "destroyed", jarr(destroyed));
    put(&mut out, "notCreated", jobj(not_created));
    put(&mut out, "notUpdated", jobj(not_updated));
    put(&mut out, "notDestroyed", jobj(not_destroyed));
    assert(members(out@) =~= seq![
        ("accountId"@, text(account@)),
        ("oldState"@, text("0"@)),
        ("newState"@, text(state_chars(store.model()))),
        ("created"@, JsonV::Obj(create_members(es@, t.create_results, es@.len()).0)),
        ("updated"@, JsonV::Obj(update_members(us@, t.renamed, us@.len()).0)),
        ("destroyed"@, JsonV::Arr(delete_members(dv, t.delete_results, dv.len()).0)),
        ("notCreated"@, JsonV::Obj(create_members(es@, t.create_results, es@.len()).1)),
        ("notUpdated"@, JsonV::Obj(update_members(us@, t.renamed, us@.len()).1)),
        ("notDestroyed"@, JsonV::Obj(delete_members(dv, t.delete_results, dv.len()).1)),
    ]);
    let r = jobj(out);
    assert(mailbox_set_ran(old(store).model(), account@, *args, store.model(), result_jv(Ok::<Json, Json>(r)), t));
    Ok(r)
}

/// Blob download (RFC 8620 §6.2): an Email id names the raw RFC 5322 bytes of its message.
/// `None` when the id is malformed or names no mailbox or message.
pub fn blob_download<S: MailStore>(store: &S, blob_id: &str) -> (r: Option<Vec<u8>>)
    ensures
        uids_in_order(store.model()) ==> match r {
            Some(v) => lookup_email(store.model(), blob_id@) matches Some((_mb, msg)) && v@ == msg.raw@,
            None => lookup_email(store.model(), blob_id@) is None,
        },
        r matches Some(v) ==> parse_email_id_spec(blob_id@) matches Some((mb, uid)) && lookup(store.model(), mb)
            matches Some(b) && exists|k: int|
            0 <= k < b.messages@.len() && b.messages@[k].uid == uid && #[trigger] b.messages@[k].raw@ == v@,
{
    let ghost m = store.model();
    let found = match parse_email_id(blob_id) {
        Some((mb, uid)) => match store.mailbox(mb.as_str()) {
            Some(b) => match b.by_uid(uid) {
                Some(msg) => Some(msg),
                None => None,
            },
            None => None,
        },
        None => None,
    };
    proof {
        if uids_in_order(m) {
            match parse_email_id_spec(blob_id@) {
                Some((mbv, uid)) => match lookup(m, mbv) {
                    Some(b) => {
                        let k = crate::store::key_index(m.entries, mbv, 0);
                        crate::store::lemma_key_index(m.entries, mbv, 0);
                        assert(m.entries[k].1 == b);
                        assert(crate::store::uids_ascending(m.entries[k].1.messages@));
                        if exists|j: int| 0 <= j < b.messages@.len() && b.messages@[j].uid == uid {
                            let j = choose|j: int| 0 <= j < b.messages@.len() && b.messages@[j].uid == uid;
                            lemma_msg_with_uid(b.messages@, j);
                        } else {
                            lemma_no_msg_with_uid(b.messages@, uid);
                        }
                    },
                    None => {},
                },
                None => {},
            }
        }
    }
    match found {
        Some(msg) => Some(msg.raw.clone()),
        None => None,
    }
}


/// The value of the first member named `k` at or after position `i` of an object's members.
pub open spec fn member_from(es: Seq<(Seq<char>, JsonV)>, k: Seq<char>, i: int) -> Option<JsonV>
    decreases es.len() - i,
{
    if i < 0 || i >= es.len() {
        None
    } else if es[i].0 == k {
        Some(es[i].1)
    } else {
        member_from(es, k, i + 1)
    }
}

/// The member `k` of a JSON object value (none for anything else).
pub open spec fn jv_member(v: JsonV, k: Seq<char>) -> Option<JsonV> {
    match v {
        JsonV::Obj(es) => member_from(es, k, 0),
        _ => None,
    }
}

/// The JMAP address list a header of `raw` carries: `null` without the header or without an
/// address in it, otherwise each parsed address as `{name, email}` in order.
pub open spec fn header_addresses(raw: Seq<u8>, header: Seq<u8>) -> JsonV {
    match hval(raw, header) {
        None => JsonV::Null,
        Some(v) => {
            let l = crate::mime::address_list_spec(crate::bytes::utf8(v));
            if l.len() == 0 {
                JsonV::Null
            } else {
                JsonV::Arr(Seq::new(l.len(), |i: int| addr_json(l[i])))
            }
        },
    }
}

proof fn lemma_member_at(es: Seq<(Seq<char>, JsonV)>, k: Seq<char>, i: int, j: int)
    requires
        0 <= i <= j < es.len(),
        es[j].0 == k,
        forall|q: int| i <= q < j ==> (#[trigger] es[q]).0 != k,
    ensures
        member_from(es, k, i) == Some(es[j].1),
    decreases j - i,
{
    if i < j {
        lemma_member_at(es, k, i + 1, j);
    }
}

proof fn lemma_head_keys(id: Seq<char>, mailbox: Seq<char>, msg: crate::store::Message)
    ensures
        email_head(id, mailbox, msg).len() == 8,
        email_head(id, mailbox, msg)[0].0 == "id"@,
        email_head(id, mailbox, msg)[1].0 == "blobId"@,
        email_head(id, mailbox, msg)[2].0 == "threadId"@,
        email_head(id, mailbox, msg)[3].0 == "mailboxIds"@,
        email_head(id, mailbox, msg)[4].0 == "keywords"@,
        email_head(id, mailbox, msg)[5].0 == "size"@,
        email_head(id, mailbox, msg)[6].0 == "receivedAt"@,
        email_head(id, mailbox, msg)[7].0 == "subject"@,
{
    reveal(email_head);
}

proof fn lemma_tail_addrs(msg: crate::store::Message)
    ensures
        email_tail(msg).len() > 3,
        email_tail(msg)[0] == ("from"@, header_addresses(msg.raw@, crate::bytes::lit("From"))),
        email_tail(msg)[1] == ("to"@, header_addresses(msg.raw@, crate::bytes::lit("To"))),
        email_tail(msg)[2] == ("cc"@, header_addresses(msg.raw@, crate::bytes::lit("Cc"))),
{
    reveal(email_tail);
    reveal(addrs_json);
}

/// The `from`, `to` and `cc` members of an Email object are the addresses of the message's
/// own From, To and Cc headers, each from its header and no other (`null` where the header is
/// missing).
pub proof fn law_email_address_members(id: Seq<char>, mailbox: Seq<char>, msg: crate::store::Message)
    ensures
        jv_member(email_obj(id, mailbox, msg), "from"@) == Some(header_addresses(msg.raw@, crate::bytes::lit("From"))),
        jv_member(email_obj(id, mailbox, msg), "to"@) == Some(header_addresses(msg.raw@, crate::bytes::lit("To"))),
        jv_member(email_obj(id, mailbox, msg), "cc"@) == Some(header_addresses(msg.raw@, crate::bytes::lit("Cc"))),
        hval(msg.raw@, crate::bytes::lit("Cc")) is None ==> jv_member(email_obj(id, mailbox, msg), "cc"@) == Some(
            JsonV::Null,
        ),
        hval(msg.raw@, crate::bytes::lit("To")) is None ==> jv_member(email_obj(id, mailbox, msg), "to"@) == Some(
            JsonV::Null,
        ),
{
    lemma_head_keys(id, mailbox, msg);
    lemma_tail_addrs(msg);
    reveal_strlit("id");
    reveal_strlit("blobId");
    reveal_strlit("threadId");
    reveal_strlit("mailboxIds");
    reveal_strlit("keywords");
    reveal_strlit("size");
    reveal_strlit("receivedAt");
    reveal_strlit("subject");
    reveal_strlit("from");
    reveal_strlit("to");
    reveal_strlit("cc");
    let h = email_head(id, mailbox, msg);
    let es = h + email_tail(msg);
    assert forall|q: int| 0 <= q < 8 implies (#[trigger] es[q]).0 == h[q].0 by {}
    assert(es[8] == email_tail(msg)[0]);
    assert(es[9] == email_tail(msg)[1]);
    assert(es[10] == email_tail(msg)[2]);
    assert("from"@.len() == 4 && "to"@.len() == 2 && "cc"@.len() == 2);
    assert("from"@[0] == 'f' && "to"@[0] == 't' && "cc"@[0] == 'c');
    assert("id"@.len() == 2 && "id"@[0] == 'i');
    assert("size"@.len() == 4 && "size"@[0] == 's');
    assert("blobId"@.len() == 6 && "threadId"@.len() == 8 && "mailboxIds"@.len() == 10);
    assert("keywords"@.len() == 8 && "receivedAt"@.len() == 10 && "subject"@.len() == 7);
    assert forall|q: int| 0 <= q < 8 implies (#[trigger] es[q]).0 != "from"@ && es[q].0 != "to"@ && es[q].0 != "cc"@ by {
        assert(es[q].0 == h[q].0);
        if q == 0 {
            assert(es[q].0[0] == 'i');
        } else if q == 5 {
            assert(es[q].0[0] == 's');
        }
    }
    assert("to"@ != "cc"@) by {
        assert("to"@[0] != "cc"@[0]);
    }
    assert("from"@ != "cc"@ && "from"@ != "to"@);
    lemma_member_at(es, "from"@, 0, 8);
    lemma_member_at(es, "to"@, 0, 9);
    lemma_member_at(es, "cc"@, 0, 10);
}

/// An Email object's `cc` depends on the Cc header alone: two messages whose Cc headers agree
/// get the same `cc`, whatever their other headers (To among them) say.
pub proof fn law_email_cc_reads_only_cc(id: Seq<char>, mailbox: Seq<char>, m1: crate::store::Message, m2: crate::store::Message)
    requires
        hval(m1.raw@, crate::bytes::lit("Cc")) == hval(m2.raw@, crate::bytes::lit("Cc")),
    ensures
        jv_member(email_obj(id, mailbox, m1), "cc"@) == jv_member(email_obj(id, mailbox, m2), "cc"@),
{
    law_email_address_members(id, mailbox, m1);
    law_email_address_members(id, mailbox, m2);
}

} // verus!
