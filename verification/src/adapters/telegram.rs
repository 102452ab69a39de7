//! Telegram through its official Bot API only: a method call is a JSON `POST` to
//! `<base>/bot<token>/<method>`.
//!
//! * A bot cannot message a user who has not started a chat with it: the rail is
//!   inbound-triggered in both directions, so a cold send is [`OutboundDisposition::BlockedNoWindow`]
//!   and nothing here offers a way around it.
//! * Inbound arrives by long-polling `getUpdates` over an outbound connection ([`GetUpdates`]).
//! * The origin of an inbound message is only what Telegram's API asserts; it is carried as such
//!   ([`platform_asserted_origin`]), never as a verified sender.
//!
//! The network is behind [`HttpPost`].
use vstd::prelude::*;
use crate::bytes::{parse_i64, push_lit};
use crate::json::{
    absent, bool_of, i64_of, json_array, json_bool, json_document, json_get, json_i64, member,
    member_absent, opt_str_member, opt_str_spec, opt_text, parse_json, push_i64, Json,
    jobj, jstr, members, put, JsonV,
};
use crate::text::lossy_string;
use super::{
    telegram, OutboundDisposition, RailMessage, RailProperties, RailSend, RailTransport,
    TransportError,
};

verus! {

/// The header key under which an inbound message carries its platform-asserted origin.
pub const RAIL_ORIGIN_EXT_KEY: &'static str = "x-dmtap-rail-origin";

/// The public Bot API host.
pub const BOT_API_BASE: &'static str = "https://api.telegram.org";

/// The self-hedging origin text of a Telegram user id.
pub open spec fn origin_spec(id: Seq<char>) -> Seq<char> {
    "telegram:"@ + id + " (platform-asserted, unverifiable)"@
}

/// `telegram:<id> (platform-asserted, unverifiable)`: worded so that even a reader who only
/// prints the value cannot take it for a verified sender.
pub fn platform_asserted_origin(telegram_id: &str) -> (r: String)
    ensures
        r@ == origin_spec(telegram_id@),
{
    let mut s = String::from_str("telegram:");
    s.append(telegram_id);
    s.append(" (platform-asserted, unverifiable)");
    s
}

/// The Telegram adapter: the rail's declaration and its outbound wall. It holds no credential.
#[derive(Debug, Clone, Copy, Default)]
pub struct TelegramAdapter;

impl TelegramAdapter {
    /// The Telegram row: inbound-triggered both ways, outbound-persistent, free,
    /// platform-asserted, a sanctioned bot API.
    pub fn properties(&self) -> (r: RailProperties)
        ensures
            r == super::platform_rail_spec("telegram", "Telegram"),
    {
        telegram()
    }

    /// The outbound decision for this rail: outside a window a send is walled.
    pub fn outbound_disposition(&self, to: &str, text: &str, window_open: bool) -> (r:
        OutboundDisposition)
        ensures
            super::disposition_view(r) == super::outbound_disposition_spec(
                super::platform_rail_spec("telegram", "Telegram"),
                to@,
                text@,
                window_open,
            ),
    {
        telegram().outbound_disposition(to, text, window_open)
    }
}

/// The network seam: POST a JSON body to a URL and return the response body. A transport
/// failure is a [`TransportError`]; a Bot API rejection is read from the body.
pub trait HttpPost {
    fn post_json(&self, url: &str, body: &str) -> Result<String, TransportError>;
}

/// A `sendMessage` request: the destination chat and the text.
#[derive(Debug, Clone, PartialEq, Eq)]
pub struct SendMessage {
    pub chat_id: String,
    pub text: String,
}

/// A `chat_id` in the request body: a JSON number when it reads as an `i64`, otherwise (an
/// `@channelusername`) a JSON string.
pub open spec fn chat_id_jv(c: Seq<char>) -> JsonV {
    match crate::bytes::parse_i64_spec(crate::bytes::utf8(c)) {
        Some(n) => JsonV::Num(Some(n as i64)),
        None => JsonV::Str(c),
    }
}

/// The `sendMessage` body as a JSON value.
pub open spec fn send_message_jv(chat_id: Seq<char>, text: Seq<char>) -> JsonV {
    JsonV::Obj(seq![("chat_id"@, chat_id_jv(chat_id)), ("text"@, JsonV::Str(text))])
}

impl SendMessage {
    /// The JSON body the Bot API `sendMessage` method expects, written by `serde_json`.
    pub fn to_json(&self) -> (r: String)
        ensures
            r@ == crate::json::json_text(send_message_jv(self.chat_id@, self.text@)),
    {
        let id = match parse_i64(self.chat_id.as_str().as_bytes()) {
            Some(n) => Json::Num(Some(n)),
            None => jstr(self.chat_id.as_str()),
        };
        let mut es: Vec<(String, Json)> = Vec::new();
        put(&mut es, "chat_id", id);
        put(&mut es, "text", jstr(self.text.as_str()));
        assert(members(es@) =~= send_message_jv(self.chat_id@, self.text@)->Obj_0);
        let v = jobj(es);
        crate::json::json_to_string(&v)
    }
}

/// A `getUpdates` request, the long-poll: `offset` acknowledges the updates already seen and
/// `timeout` is the hold time in seconds. An absent field is left out of the body.
#[derive(Debug, Clone, Default, PartialEq, Eq)]
pub struct GetUpdates {
    pub offset: Option<i64>,
    pub timeout: Option<u32>,
}

/// The `getUpdates` body: the present fields in order, comma-separated, inside braces.
pub open spec fn get_updates_json(offset: Option<i64>, timeout: Option<u32>) -> Seq<u8> {
    let o = match offset {
        Some(n) => crate::bytes::lit("\"offset\":") + crate::json::int_text(n as int),
        None => Seq::<u8>::empty(),
    };
    let t = match timeout {
        Some(n) => crate::bytes::lit("\"timeout\":") + crate::smtp::dec_spec(n as nat),
        None => Seq::<u8>::empty(),
    };
    let sep = if offset is Some && timeout is Some {
        seq![44u8]
    } else {
        Seq::<u8>::empty()
    };
    seq![123u8] + o + sep + t + seq![125u8]
}

impl GetUpdates {
    /// The JSON body for the Bot API `getUpdates` method.
    pub fn to_json(&self) -> (r: String)
        ensures
            r@ == crate::text::utf8_lossy(get_updates_json(self.offset, self.timeout)),
    {
        let mut out: Vec<u8> = Vec::new();
        out.push(123);
        match self.offset {
            Some(n) => {
                push_lit(&mut out, "\"offset\":");
                push_i64(&mut out, n);
            },
            None => {},
        }
        match self.timeout {
            Some(n) => {
                if self.offset.is_some() {
                    out.push(44);
                }
                push_lit(&mut out, "\"timeout\":");
                crate::json::push_dec_u64(&mut out, n as u64);
            },
            None => {},
        }
        out.push(125);
        assert(out@ =~= get_updates_json(self.offset, self.timeout));
        lossy_string(out.as_slice())
    }
}

/// The Bot API's uniform reply envelope: `{ ok, result?, description? }`.
#[derive(Debug, Clone)]
pub struct ApiResponse<T> {
    pub ok: bool,
    pub result: Option<T>,
    /// The failure reason when `ok` is false.
    pub description: Option<String>,
}

/// One incoming update; an update of another kind has no `message`.
#[derive(Debug, Clone)]
pub struct Update {
    pub update_id: i64,
    pub message: Option<Message>,
}

/// A Telegram message (the fields this adapter reads).
#[derive(Debug, Clone)]
pub struct Message {
    pub text: Option<String>,
    /// The sender, as Telegram asserts it.
    pub from: Option<User>,
    pub chat: Chat,
}

/// A Telegram user; the id is the platform-asserted origin.
#[derive(Debug, Clone, Copy)]
pub struct User {
    pub id: i64,
}

/// A Telegram chat; its id is what a reply is addressed to.
#[derive(Debug, Clone, Copy)]
pub struct Chat {
    pub id: i64,
}

impl Message {
    /// The rail-agnostic view of an inbound message: the sender id in decimal (empty without a
    /// sender), the text (empty without one); an inbound message opens the reply window.
    pub fn to_rail_message(&self) -> (r: RailMessage)
        ensures
            r.from@ == match self.from {
                Some(u) => crate::text::utf8_lossy(crate::json::int_text(u.id as int)),
                None => Seq::<char>::empty(),
            },
            r.text@ == match self.text {
                Some(t) => t@,
                None => Seq::<char>::empty(),
            },
            r.opens_window,
    {
        let from = match self.from {
            Some(u) => {
                let mut digits: Vec<u8> = Vec::new();
                push_i64(&mut digits, u.id);
                assert(digits@ =~= crate::json::int_text(u.id as int));
                lossy_string(digits.as_slice())
            },
            None => String::new(),
        };
        let text = match &self.text {
            Some(t) => t.clone(),
            None => String::new(),
        };
        RailMessage { from, text, opens_window: true }
    }
}

/// An `i64` member.
pub open spec fn i64_member_spec(j: Json, key: Seq<char>) -> Option<i64> {
    match member(j, key) {
        Some(x) => i64_of(x),
        None => None,
    }
}

/// The `id` of the object under `key`, where there is one.
pub open spec fn id_under(j: Json, key: Seq<char>) -> Option<i64> {
    match member(j, key) {
        Some(x) => i64_member_spec(x, "id"@),
        None => None,
    }
}

/// A message object a typed read accepts: `text` an optional string, `from` absent or carrying
/// an `i64` `id`, `chat.id` an `i64`.
pub open spec fn message_reads(j: Json) -> bool {
    &&& opt_str_spec(j, "text"@) is Some
    &&& absent(j, "from"@) || id_under(j, "from"@) is Some
    &&& id_under(j, "chat"@) is Some
}

/// A message read from a message object.
pub open spec fn message_is(m: Message, j: Json) -> bool {
    &&& opt_str_spec(j, "text"@) == Some(opt_text(m.text))
    &&& if absent(j, "from"@) {
        m.from is None
    } else {
        m.from is Some && id_under(j, "from"@) == Some(m.from.unwrap().id)
    }
    &&& id_under(j, "chat"@) == Some(m.chat.id)
}

/// An update object a typed read accepts: an `i64` `update_id`, `message` absent or a message.
pub open spec fn update_reads(j: Json) -> bool {
    &&& i64_member_spec(j, "update_id"@) is Some
    &&& absent(j, "message"@) || message_reads(member(j, "message"@).unwrap())
}

/// An update read from an update object.
pub open spec fn update_is(u: Update, j: Json) -> bool {
    &&& i64_member_spec(j, "update_id"@) == Some(u.update_id)
    &&& if absent(j, "message"@) {
        u.message is None
    } else {
        u.message is Some && message_is(u.message.unwrap(), member(j, "message"@).unwrap())
    }
}

/// The envelope of a reply: `ok` a required boolean, `description` an optional string.
pub open spec fn envelope_spec(j: Json) -> Option<(bool, Option<Seq<char>>)> {
    match member(j, "ok"@) {
        Some(o) => match bool_of(o) {
            Some(b) => match opt_str_spec(j, "description"@) {
                Some(d) => Some((b, d)),
                None => None,
            },
            None => None,
        },
        None => None,
    }
}

/// The fixed rejection of a reply that is not a well-formed Bot API envelope.
pub open spec fn is_malformed<T>(r: Result<T, TransportError>) -> bool {
    r matches Err(TransportError::Rejected(m)) && m@ == "malformed Bot API response"@
}

/// A `sendMessage` reply read from the document its body holds (`None` where it is not JSON):
/// the envelope's fields, and the `result` message where there is one.
pub open spec fn send_reply_is(r: Result<ApiResponse<Message>, TransportError>, doc: Option<Json>) -> bool {
    match doc {
        None => is_malformed(r),
        Some(d) => match envelope_spec(d) {
            None => is_malformed(r),
            Some((b, desc)) => if !absent(d, "result"@) && !message_reads(member(d, "result"@).unwrap()) {
                is_malformed(r)
            } else {
                &&& r is Ok
                &&& r->Ok_0.ok == b
                &&& opt_text(r->Ok_0.description) == desc
                &&& if absent(d, "result"@) {
                    r->Ok_0.result is None
                } else {
                    r->Ok_0.result is Some && message_is(
                        r->Ok_0.result.unwrap(),
                        member(d, "result"@).unwrap(),
                    )
                }
            },
        },
    }
}

/// The `result` of a `getUpdates` reply holds updates: an array every element of which reads.
pub open spec fn updates_read(d: Json) -> bool {
    match member(d, "result"@) {
        Some(Json::Arr(a)) => forall|k: int| 0 <= k < a@.len() ==> update_reads(#[trigger] a@[k]),
        _ => false,
    }
}

/// Updates read one for one from the elements of the `result` array.
pub open spec fn updates_are(v: Seq<Update>, d: Json) -> bool {
    match member(d, "result"@) {
        Some(Json::Arr(a)) => v.len() == a@.len() && forall|k: int|
            0 <= k < a@.len() ==> update_is(#[trigger] v[k], a@[k]),
        _ => false,
    }
}

/// A `getUpdates` reply read from the document its body holds.
pub open spec fn updates_reply_is(r: Result<ApiResponse<Vec<Update>>, TransportError>, doc: Option<Json>) -> bool {
    match doc {
        None => is_malformed(r),
        Some(d) => match envelope_spec(d) {
            None => is_malformed(r),
            Some((b, desc)) => if !absent(d, "result"@) && !updates_read(d) {
                is_malformed(r)
            } else {
                &&& r is Ok
                &&& r->Ok_0.ok == b
                &&& opt_text(r->Ok_0.description) == desc
                &&& if absent(d, "result"@) {
                    r->Ok_0.result is None
                } else {
                    r->Ok_0.result is Some && updates_are(r->Ok_0.result.unwrap()@, d)
                }
            },
        },
    }
}

/// An `i64` member, required.
fn i64_member(v: &Json, key: &str) -> (r: Option<i64>)
    ensures
        r == i64_member_spec(*v, key@),
{
    match json_get(v, key) {
        Some(m) => json_i64(m),
        None => None,
    }
}

/// A message object as the typed read takes it: `chat.id` required, `text` and `from`
/// optional (`from.id` required when `from` is present).
fn message_of(v: &Json) -> (r: Option<Message>)
    ensures
        match r {
            Some(m) => message_reads(*v) && message_is(m, *v),
            None => !message_reads(*v),
        },
{
    let text = match opt_str_member(v, "text") {
        Some(t) => t,
        None => return None,
    };
    let from = if member_absent(v, "from") {
        None
    } else {
        match json_get(v, "from") {
            Some(f) => match i64_member(f, "id") {
                Some(id) => Some(User { id }),
                None => return None,
            },
            None => None,
        }
    };
    let chat = match json_get(v, "chat") {
        Some(c) => match i64_member(c, "id") {
            Some(id) => Chat { id },
            None => return None,
        },
        None => return None,
    };
    Some(Message { text, from, chat })
}

/// An update object: `update_id` required, `message` optional.
fn update_of(v: &Json) -> (r: Option<Update>)
    ensures
        match r {
            Some(u) => update_reads(*v) && update_is(u, *v),
            None => !update_reads(*v),
        },
{
    let update_id = match i64_member(v, "update_id") {
        Some(id) => id,
        None => return None,
    };
    let message = if member_absent(v, "message") {
        None
    } else {
        match json_get(v, "message") {
            Some(m) => match message_of(m) {
                Some(msg) => Some(msg),
                None => return None,
            },
            None => None,
        }
    };
    Some(Update { update_id, message })
}

/// The envelope fields: `ok` a required boolean, `description` an optional string.
fn envelope_of(v: &Json) -> (r: Option<(bool, Option<String>)>)
    ensures
        match r {
            Some((b, d)) => envelope_spec(*v) == Some((b, opt_text(d))),
            None => envelope_spec(*v) is None,
        },
{
    let ok = match json_get(v, "ok") {
        Some(o) => match json_bool(o) {
            Some(b) => b,
            None => return None,
        },
        None => return None,
    };
    match opt_str_member(v, "description") {
        Some(d) => Some((ok, d)),
        None => None,
    }
}

/// The rejection for a reply that is not a well-formed Bot API envelope.
fn malformed() -> (r: TransportError)
    ensures
        r matches TransportError::Rejected(m) && m@ == "malformed Bot API response"@,
{
    TransportError::Rejected(String::from_str("malformed Bot API response"))
}

/// Read a `sendMessage` reply, given the document its body holds (`None` where it is not
/// JSON).
pub fn read_send_reply(doc: Option<Json>) -> (r: Result<ApiResponse<Message>, TransportError>)
    ensures
        send_reply_is(r, doc),
{
    let v = match doc {
        Some(v) => v,
        None => return Err(malformed()),
    };
    let (ok, description) = match envelope_of(&v) {
        Some(e) => e,
        None => return Err(malformed()),
    };
    let result = if member_absent(&v, "result") {
        None
    } else {
        match json_get(&v, "result") {
            Some(m) => match message_of(m) {
                Some(msg) => Some(msg),
                None => return Err(malformed()),
            },
            None => None,
        }
    };
    Ok(ApiResponse { ok, result, description })
}

/// Read a `sendMessage` reply body: parsed by `serde_json` ([`json_document`]), then read by
/// [`read_send_reply`].
pub fn parse_send_reply(body: &str) -> (r: Result<ApiResponse<Message>, TransportError>)
    ensures
        send_reply_is(r, json_document(body@)),
{
    read_send_reply(parse_json(body))
}

/// Read a `getUpdates` reply, given the document its body holds: `result`, when present, is an
/// array of updates.
#[verifier::loop_isolation(false)]
pub fn read_updates_reply(doc: Option<Json>) -> (r: Result<ApiResponse<Vec<Update>>, TransportError>)
    ensures
        updates_reply_is(r, doc),
{
    let v = match doc {
        Some(v) => v,
        None => return Err(malformed()),
    };
    let (ok, description) = match envelope_of(&v) {
        Some(e) => e,
        None => return Err(malformed()),
    };
    let result = if member_absent(&v, "result") {
        None
    } else {
        match json_get(&v, "result") {
            Some(m) => match json_array(m) {
                Some(items) => {
                    let mut updates: Vec<Update> = Vec::new();
                    let mut i: usize = 0;
                    while i < items.len()
                        invariant
                            i <= items@.len(),
                            member(v, "result"@) == Some(*m),
                            *m matches Json::Arr(a) && a@ == items@,
                            updates@.len() == i,
                            forall|k: int| 0 <= k < i ==> update_reads(#[trigger] items@[k]),
                            forall|k: int| 0 <= k < i ==> update_is(#[trigger] updates@[k], items@[k]),
                        decreases items@.len() - i,
                    {
                        match update_of(&items[i]) {
                            Some(u) => updates.push(u),
                            None => {
                                assert(!update_reads(items@[i as int]));
                                return Err(malformed());
                            },
                        }
                        i += 1;
                    }
                    Some(updates)
                },
                None => return Err(malformed()),
            },
            None => None,
        }
    };
    Ok(ApiResponse { ok, result, description })
}

/// Read a `getUpdates` reply body: parsed by `serde_json` ([`json_document`]), then read by
/// [`read_updates_reply`].
pub fn parse_updates_reply(body: &str) -> (r: Result<ApiResponse<Vec<Update>>, TransportError>)
    ensures
        updates_reply_is(r, json_document(body@)),
{
    read_updates_reply(parse_json(body))
}

/// The description of a rejection: the platform's own, or `fallback` without one.
pub open spec fn rejection_text(description: Option<String>, fallback: Seq<char>) -> Seq<char> {
    match description {
        Some(d) => d@,
        None => fallback,
    }
}

fn rejection(description: Option<String>, fallback: &str) -> (r: TransportError)
    ensures
        r matches TransportError::Rejected(m) && m@ == rejection_text(description, fallback@),
{
    match description {
        Some(d) => TransportError::Rejected(d),
        None => TransportError::Rejected(String::from_str(fallback)),
    }
}

/// The outcome of a read `sendMessage` reply: `ok` is a success; otherwise a rejection carrying
/// the platform's description, never swallowed.
pub fn send_reply_outcome(reply: ApiResponse<Message>) -> (r: Result<(), TransportError>)
    ensures
        reply.ok ==> r is Ok,
        !reply.ok ==> (r matches Err(TransportError::Rejected(m)) && m@ == rejection_text(
            reply.description,
            "sendMessage returned ok=false"@,
        )),
{
    if reply.ok {
        Ok(())
    } else {
        Err(rejection(reply.description, "sendMessage returned ok=false"))
    }
}

/// The outcome of a read `getUpdates` reply: on `ok` the updates (none without a `result`);
/// otherwise a rejection carrying the platform's description.
pub fn updates_reply_outcome(reply: ApiResponse<Vec<Update>>) -> (r: Result<
    Vec<Update>,
    TransportError,
>)
    ensures
        reply.ok ==> (r matches Ok(v) && v@ == match reply.result {
            Some(u) => u@,
            None => Seq::<Update>::empty(),
        }),
        !reply.ok ==> (r matches Err(TransportError::Rejected(m)) && m@ == rejection_text(
            reply.description,
            "getUpdates returned ok=false"@,
        )),
{
    if reply.ok {
        match reply.result {
            Some(u) => Ok(u),
            None => Ok(Vec::new()),
        }
    } else {
        Err(rejection(reply.description, "getUpdates returned ok=false"))
    }
}

/// What a `sendMessage` reply body leads to, from the document it holds: a malformed reply is
/// the fixed rejection, `ok` a success, anything else a rejection with the description (or
/// `sendMessage returned ok=false`).
pub open spec fn send_outcome_is(r: Result<(), TransportError>, doc: Option<Json>) -> bool {
    match doc {
        None => is_malformed(r),
        Some(d) => match envelope_spec(d) {
            None => is_malformed(r),
            Some((b, desc)) => if !absent(d, "result"@) && !message_reads(member(d, "result"@).unwrap()) {
                is_malformed(r)
            } else if b {
                r is Ok
            } else {
                r matches Err(TransportError::Rejected(m)) && m@ == match desc {
                    Some(t) => t,
                    None => "sendMessage returned ok=false"@,
                }
            },
        },
    }
}

/// What a `getUpdates` reply body leads to, from the document it holds: a malformed reply is
/// the fixed rejection, `ok` the updates read from `result` (none without one), anything else a
/// rejection with the description (or `getUpdates returned ok=false`).
pub open spec fn updates_outcome_is(r: Result<Vec<Update>, TransportError>, doc: Option<Json>) -> bool {
    match doc {
        None => is_malformed(r),
        Some(d) => match envelope_spec(d) {
            None => is_malformed(r),
            Some((b, desc)) => if !absent(d, "result"@) && !updates_read(d) {
                is_malformed(r)
            } else if !b {
                r matches Err(TransportError::Rejected(m)) && m@ == match desc {
                    Some(t) => t,
                    None => "getUpdates returned ok=false"@,
                }
            } else if absent(d, "result"@) {
                r matches Ok(v) && v@.len() == 0
            } else {
                r matches Ok(v) && updates_are(v@, d)
            },
        },
    }
}

/// The outcome of a send given what the POST returned: a transport error passes through; a body
/// is read and its envelope decides.
pub fn send_outcome(posted: Result<String, TransportError>) -> (r: Result<(), TransportError>)
    ensures
        posted matches Err(e) ==> r == Err::<(), TransportError>(e),
        posted matches Ok(body) ==> send_outcome_is(r, json_document(body@)),
{
    match posted {
        Err(e) => Err(e),
        Ok(body) => match parse_send_reply(body.as_str()) {
            Err(e) => Err(e),
            Ok(reply) => send_reply_outcome(reply),
        },
    }
}

/// The updates given what the POST returned, as [`send_outcome`] reads a send.
pub fn updates_outcome(posted: Result<String, TransportError>) -> (r: Result<
    Vec<Update>,
    TransportError,
>)
    ensures
        posted matches Err(e) ==> r == Err::<Vec<Update>, TransportError>(e),
        posted matches Ok(body) ==> updates_outcome_is(r, json_document(body@)),
{
    match posted {
        Err(e) => Err(e),
        Ok(body) => match parse_updates_reply(body.as_str()) {
            Err(e) => Err(e),
            Ok(reply) => updates_reply_outcome(reply),
        },
    }
}

/// Binds the official Bot API over an [`HttpPost`], with a bot token.
pub struct TelegramTransport<H: HttpPost> {
    http: H,
    token: String,
    base: String,
}

/// A method URL: `<base>/bot<token>/<method>`.
pub open spec fn method_url_spec(base: Seq<char>, token: Seq<char>, method: Seq<char>) -> Seq<char> {
    base + "/bot"@ + token + "/"@ + method
}

impl<H: HttpPost> TelegramTransport<H> {
    pub closed spec fn base_spec(&self) -> Seq<char> {
        self.base@
    }

    pub closed spec fn token_spec(&self) -> Seq<char> {
        self.token@
    }

    pub closed spec fn http_spec(&self) -> H {
        self.http
    }

    /// Bound to the public Bot API host.
    pub fn new(http: H, token: &str) -> (r: Self)
        ensures
            r.token_spec() == token@,
            r.base_spec() == BOT_API_BASE@,
            r.http_spec() == http,
    {
        TelegramTransport { http, token: String::from_str(token), base: String::from_str(BOT_API_BASE) }
    }

    /// Bound to another base URL (a self-hosted Bot API server).
    pub fn with_base(http: H, token: &str, base: &str) -> (r: Self)
        ensures
            r.token_spec() == token@,
            r.base_spec() == base@,
            r.http_spec() == http,
    {
        TelegramTransport { http, token: String::from_str(token), base: String::from_str(base) }
    }

    /// The HTTP client.
    pub fn http(&self) -> (r: &H)
        ensures
            *r == self.http_spec(),
    {
        &self.http
    }

    /// The full method URL.
    pub fn method_url(&self, method: &str) -> (r: String)
        ensures
            r@ == method_url_spec(self.base_spec(), self.token_spec(), method@),
    {
        let mut s = self.base.clone();
        s.append("/bot");
        s.append(self.token.as_str());
        s.append("/");
        s.append(method);
        s
    }

    /// Long-poll for updates. The HTTP client and the platform decide the outcome; a transport
    /// error passes through and a body is read by [`updates_outcome`].
    pub fn get_updates(&self, req: &GetUpdates) -> (r: Result<Vec<Update>, TransportError>)
        ensures
            r is Ok ==> exists|body: String| #[trigger] updates_outcome_is(r, json_document(body@)),
    {
        let url = self.method_url("getUpdates");
        let body = req.to_json();
        updates_outcome(self.http.post_json(url.as_str(), body.as_str()))
    }
}

impl<H: HttpPost> RailTransport for TelegramTransport<H> {
    /// Issue `sendMessage` for an outbound send; a reply that is not `ok` surfaces as a rejection
    /// with the platform's description.
    fn send(&self, send: RailSend) -> Result<(), TransportError> {
        let req = SendMessage { chat_id: send.to, text: send.text };
        let url = self.method_url("sendMessage");
        let body = req.to_json();
        send_outcome(self.http.post_json(url.as_str(), body.as_str()))
    }
}

} // verus!
