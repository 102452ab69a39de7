//! Slack through its official Web API (`chat.postMessage`) and its Events API / Socket Mode
//! inbound shape.
//!
//! * A Slack app reaches only a workspace that installed it and cannot DM a user cold: the rail
//!   is inbound-triggered in both directions, so a cold send is
//!   [`OutboundDisposition::BlockedNoWindow`].
//! * The origin of an inbound message is only what Slack asserts.
//! * The bearer credential (a bot token) is attached by the [`HttpPost`] a deployment supplies;
//!   this module formats requests and reads replies and holds no credential.
use vstd::prelude::*;
use crate::bytes::{is_lit, push_lit};
use crate::json::{
    bool_of, json_bool, json_document, json_get, member, opt_str_member, opt_str_spec, opt_text,
    parse_json, push_quoted, Json,
};
use crate::text::lossy_string;
use super::{
    slack, OutboundDisposition, RailMessage, RailProperties, RailSend, RailTransport,
    TransportError,
};

verus! {

/// The Web API endpoint for sending a message.
pub const CHAT_POST_MESSAGE_URL: &'static str = "https://slack.com/api/chat.postMessage";

/// The header key under which an inbound message carries its platform-asserted origin.
pub const PLATFORM_ASSERTED_EXT_KEY: &'static str = "x-dmtap-mail-platform-asserted";

/// The Slack adapter: the rail's declaration and its outbound wall.
#[derive(Debug, Clone, Copy, Default)]
pub struct SlackAdapter;

impl SlackAdapter {
    /// The Slack row: inbound-triggered both ways, outbound-persistent, free,
    /// platform-asserted, a sanctioned API.
    pub fn properties(&self) -> (r: RailProperties)
        ensures
            r == super::platform_rail_spec("slack", "Slack"),
    {
        slack()
    }

    /// The outbound decision for this rail: outside a window a send is walled, inside one it is
    /// deliverable.
    pub fn outbound_disposition(&self, to: &str, text: &str, window_open: bool) -> (r:
        OutboundDisposition)
        ensures
            super::disposition_view(r) == super::outbound_disposition_spec(
                super::platform_rail_spec("slack", "Slack"),
                to@,
                text@,
                window_open,
            ),
    {
        slack().outbound_disposition(to, text, window_open)
    }
}

/// The network seam: POST a JSON body to a URL (with the deployment's bearer credential) and
/// return the response body.
pub trait HttpPost {
    fn post_json(&self, url: &str, body: &str) -> Result<String, TransportError>;
}

/// A `chat.postMessage` request: the target channel (or user) and the text.
#[derive(Debug, Clone, PartialEq, Eq)]
pub struct ChatPostMessageRequest {
    pub channel: String,
    pub text: String,
}

/// `{"channel":…,"text":…}`.
pub open spec fn post_message_json(channel: Seq<char>, text: Seq<char>) -> Seq<u8> {
    crate::bytes::lit("{\"channel\":") + crate::json::json_quote_spec(crate::bytes::utf8(channel))
        + crate::bytes::lit(",\"text\":") + crate::json::json_quote_spec(crate::bytes::utf8(text))
        + crate::bytes::lit("}")
}

impl ChatPostMessageRequest {
    /// The JSON request body.
    pub fn to_json(&self) -> (r: String)
        ensures
            r@ == crate::text::utf8_lossy(post_message_json(self.channel@, self.text@)),
    {
        let mut out: Vec<u8> = Vec::new();
        push_lit(&mut out, "{\"channel\":");
        push_quoted(&mut out, self.channel.as_str());
        push_lit(&mut out, ",\"text\":");
        push_quoted(&mut out, self.text.as_str());
        push_lit(&mut out, "}");
        assert(out@ =~= post_message_json(self.channel@, self.text@));
        lossy_string(out.as_slice())
    }
}

/// A `chat.postMessage` reply: `ok`, and on failure `error` naming the reason.
#[derive(Debug, Clone, PartialEq, Eq)]
pub struct ChatPostMessageResponse {
    pub ok: bool,
    pub error: Option<String>,
    pub ts: Option<String>,
    pub channel: Option<String>,
}

/// The inner `event` of an Events API `message` event; `user` is the platform-asserted origin
/// and `bot_id` is set on messages from a bot or app, this adapter's own echoes included.
#[derive(Debug, Clone, PartialEq, Eq)]
pub struct SlackMessageEvent {
    pub kind: String,
    pub user: Option<String>,
    pub text: Option<String>,
    pub channel: Option<String>,
    pub bot_id: Option<String>,
    /// The subtype (`bot_message`, `channel_join`, ...); a plain user message has none.
    pub subtype: Option<String>,
    pub ts: Option<String>,
}

/// The Events API / Socket Mode envelope of an `event_callback`.
#[derive(Debug, Clone, PartialEq, Eq)]
pub struct EventCallback {
    pub kind: String,
    pub event: SlackMessageEvent,
}

/// An event is inbound human text when it is a `message` with no subtype, no `bot_id` and a
/// `user`.
pub open spec fn is_user_message(e: SlackMessageEvent) -> bool {
    e.kind@ == "message"@ && e.subtype is None && e.bot_id is None && e.user is Some
}

impl SlackMessageEvent {
    /// The rail-agnostic view of a plain user message (it opens the reply window); `None` for
    /// any other event, so the app's own echoes never loop back in.
    pub fn to_rail_message(&self) -> (r: Option<RailMessage>)
        ensures
            r is Some <==> is_user_message(*self),
            r matches Some(m) ==> m.from@ == self.user->0@ && m.text@ == match self.text {
                Some(t) => t@,
                None => Seq::<char>::empty(),
            } && m.opens_window,
    {
        let is_message = is_lit(self.kind.as_str().as_bytes(), "message");
        proof {
            vstd::utf8::encode_utf8_decode_utf8(self.kind@);
            vstd::utf8::encode_utf8_decode_utf8("message"@);
        }
        if !is_message || self.subtype.is_some() || self.bot_id.is_some() {
            return None;
        }
        let from = match &self.user {
            Some(u) => u.clone(),
            None => return None,
        };
        let text = match &self.text {
            Some(t) => t.clone(),
            None => String::new(),
        };
        Some(RailMessage { from, text, opens_window: true })
    }
}

/// The fields a `chat.postMessage` reply reads as: `ok` a required boolean, `error`, `ts` and
/// `channel` optional strings; nothing where the document is missing or any field is malformed.
pub open spec fn post_reply_fields(doc: Option<Json>) -> Option<
    (bool, Option<Seq<char>>, Option<Seq<char>>, Option<Seq<char>>),
> {
    match doc {
        None => None,
        Some(d) => match member(d, "ok"@) {
            Some(o) => match bool_of(o) {
                Some(b) => match (
                    opt_str_spec(d, "error"@),
                    opt_str_spec(d, "ts"@),
                    opt_str_spec(d, "channel"@),
                ) {
                    (Some(e), Some(t), Some(c)) => Some((b, e, t, c)),
                    _ => None,
                },
                None => None,
            },
            None => None,
        },
    }
}

/// A read reply agrees with its fields; a malformed one is the fixed rejection.
pub open spec fn post_reply_is(
    r: Result<ChatPostMessageResponse, TransportError>,
    f: Option<(bool, Option<Seq<char>>, Option<Seq<char>>, Option<Seq<char>>)>,
) -> bool {
    match f {
        None => r matches Err(TransportError::Rejected(m)) && m@ == "malformed Slack response"@,
        Some((b, e, t, c)) => r matches Ok(x) && x.ok == b && opt_text(x.error) == e
            && opt_text(x.ts) == t && opt_text(x.channel) == c,
    }
}

/// Read a `chat.postMessage` reply, given the document its body holds (`None` where it is not
/// JSON).
pub fn read_post_message_reply(doc: Option<Json>) -> (r: Result<ChatPostMessageResponse, TransportError>)
    ensures
        post_reply_is(r, post_reply_fields(doc)),
{
    let v = match doc {
        Some(v) => v,
        None => return Err(malformed()),
    };
    let ok = match json_get(&v, "ok") {
        Some(o) => match json_bool(o) {
            Some(b) => b,
            None => return Err(malformed()),
        },
        None => return Err(malformed()),
    };
    let error = match opt_str_member(&v, "error") {
        Some(x) => x,
        None => return Err(malformed()),
    };
    let ts = match opt_str_member(&v, "ts") {
        Some(x) => x,
        None => return Err(malformed()),
    };
    let channel = match opt_str_member(&v, "channel") {
        Some(x) => x,
        None => return Err(malformed()),
    };
    Ok(ChatPostMessageResponse { ok, error, ts, channel })
}

/// Read a `chat.postMessage` reply body: parsed by `serde_json` ([`json_document`]), then read
/// by [`read_post_message_reply`].
pub fn parse_post_message_reply(raw: &str) -> (r: Result<ChatPostMessageResponse, TransportError>)
    ensures
        post_reply_is(r, post_reply_fields(json_document(raw@))),
{
    read_post_message_reply(parse_json(raw))
}

fn malformed() -> (r: TransportError)
    ensures
        r matches TransportError::Rejected(m) && m@ == "malformed Slack response"@,
{
    TransportError::Rejected(String::from_str("malformed Slack response"))
}

/// The outcome of a read reply: `ok` is a success; otherwise a rejection carrying Slack's
/// reason, or `slack: unknown error` without one.
pub fn reply_outcome(resp: ChatPostMessageResponse) -> (r: Result<(), TransportError>)
    ensures
        resp.ok ==> r is Ok,
        !resp.ok ==> (r matches Err(TransportError::Rejected(m)) && m@ == match resp.error {
            Some(e) => e@,
            None => "slack: unknown error"@,
        }),
{
    if resp.ok {
        Ok(())
    } else {
        match resp.error {
            Some(e) => Err(TransportError::Rejected(e)),
            None => Err(TransportError::Rejected(String::from_str("slack: unknown error"))),
        }
    }
}

/// The outcome of a send given what the POST returned: a transport error passes through; a body
/// is read and its `ok` decides.
pub fn send_outcome(posted: Result<String, TransportError>) -> (r: Result<(), TransportError>)
    ensures
        posted matches Err(e) ==> r == Err::<(), TransportError>(e),
        posted matches Ok(raw) ==> match post_reply_fields(json_document(raw@)) {
            None => r matches Err(TransportError::Rejected(m)) && m@ == "malformed Slack response"@,
            Some((b, e, _, _)) => if b {
                r is Ok
            } else {
                r matches Err(TransportError::Rejected(m)) && m@ == match e {
                    Some(t) => t,
                    None => "slack: unknown error"@,
                }
            },
        },
{
    match posted {
        Err(e) => Err(e),
        Ok(raw) => match parse_post_message_reply(raw.as_str()) {
            Err(e) => Err(e),
            Ok(resp) => reply_outcome(resp),
        },
    }
}

/// Sends onto Slack via `chat.postMessage` over an [`HttpPost`].
pub struct SlackTransport<H: HttpPost> {
    http: H,
}

impl<H: HttpPost> SlackTransport<H> {
    pub closed spec fn http_spec(&self) -> H {
        self.http
    }

    pub fn new(http: H) -> (r: Self)
        ensures
            r.http_spec() == http,
    {
        SlackTransport { http }
    }

    /// The HTTP client.
    pub fn http(&self) -> (r: &H)
        ensures
            *r == self.http_spec(),
    {
        &self.http
    }
}

impl<H: HttpPost> RailTransport for SlackTransport<H> {
    /// Post `send.text` to the channel `send.to`; a reply that is not `ok` surfaces as a
    /// rejection with Slack's reason.
    fn send(&self, send: RailSend) -> Result<(), TransportError> {
        let req = ChatPostMessageRequest { channel: send.to, text: send.text };
        let body = req.to_json();
        send_outcome(self.http.post_json(CHAT_POST_MESSAGE_URL, body.as_str()))
    }
}

} // verus!
