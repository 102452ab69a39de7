//! WhatsApp through the Business Cloud API, the sanctioned rail: POST `/{phone-number-id}/messages`
//! on Meta's Graph API. Two rules are enforced in code:
//!
//! * The template wall: outbound outside the 24-hour service window a user's inbound opens can
//!   only carry a pre-approved template, never free text at any price. [`prepare_outbound`] can
//!   only ever produce a template outside the window, and without a template the caller gets
//!   [`OutboundDisposition::RequiresTemplate`].
//! * Platform-asserted authenticity: an inbound origin is only what Meta's API says.
//!
//! Credentials are the user's own (phone-number-id and access token), held by
//! [`WhatsAppTransport`]; the network is behind [`HttpPost`].
use vstd::prelude::*;
use crate::bytes::{lit_vec, push_all, push_lit};
use crate::json::{json_document, jobj, jstr, member, members, put, str_of, Json, JsonV};
use crate::text::lossy_string;
use super::{OutboundDisposition, RailProperties, RailSend, RailTransport, TransportError};

verus! {

/// The Graph API base this binding targets by default.
pub const DEFAULT_GRAPH_BASE: &'static str = "https://graph.facebook.com/v20.0";

/// The WhatsApp Business Cloud API adapter: the declaration and the outbound wall.
#[derive(Debug, Clone, Copy, Default, PartialEq, Eq)]
pub struct WhatsAppBusinessAdapter;

impl WhatsAppBusinessAdapter {
    /// The rail's declaration (see [`super::whatsapp_business`]).
    pub fn properties(&self) -> (r: RailProperties)
        ensures
            r.rail@ == "whatsapp"@,
            r.sanctioning == super::Sanctioning::SanctionedApi,
            r.inbound.price == super::PriceShape::Free,
            r.outbound.price == super::PriceShape::Metered,
            r.inbound.initiation == super::InitiationClass::InboundTriggered,
            r.outbound.initiation == super::InitiationClass::InboundTriggered,
            r.inbound_transport == super::InboundTransportClass::Webhook,
            r.authenticity == super::RailAuthenticity::PlatformAsserted,
    {
        super::whatsapp_business()
    }

    /// The outbound decision: deliverable in the window, the template wall outside it.
    pub fn outbound_disposition(&self, to: &str, text: &str, window_open: bool) -> (r: OutboundDisposition)
        ensures
            super::disposition_view(r) == (if window_open {
                super::DispositionSpec::Deliverable(to@, text@)
            } else {
                super::DispositionSpec::RequiresTemplate
            }),
    {
        self.properties().outbound_disposition(to, text, window_open)
    }
}

/// The platform-asserted origin of an inbound message: which rail, what it claims, and whether
/// the claim could be verified (never, for a legacy rail).
#[derive(Debug, Clone, PartialEq, Eq)]
pub struct PlatformAssertedOrigin {
    pub rail: String,
    pub claim: String,
    pub verifiable: bool,
}

/// A pre-approved message template: the only message class deliverable outside the window.
#[derive(Debug, Clone, PartialEq, Eq)]
pub struct TemplateRef {
    /// The template's registered name.
    pub name: String,
    /// Language/locale code, e.g. `"en_US"`.
    pub language: String,
}

impl TemplateRef {
    pub fn new(name: &str, language: &str) -> (r: Self)
        ensures
            r.name@ == name@,
            r.language@ == language@,
    {
        TemplateRef { name: name.to_owned(), language: language.to_owned() }
    }
}

/// A Cloud API `/messages` request: free-form text (in-window only) or a template.
#[derive(Debug, Clone, PartialEq, Eq)]
pub enum WhatsAppMessage {
    Text { to: String, body: String },
    Template { to: String, template: TemplateRef },
}

/// The request body of a message as a JSON value.
pub open spec fn message_jv(m: WhatsAppMessage) -> JsonV {
    match m {
        WhatsAppMessage::Text { to, body } => JsonV::Obj(
            seq![
                ("messaging_product"@, JsonV::Str("whatsapp"@)),
                ("recipient_type"@, JsonV::Str("individual"@)),
                ("text"@, JsonV::Obj(seq![("body"@, JsonV::Str(body@))])),
                ("to"@, JsonV::Str(to@)),
                ("type"@, JsonV::Str("text"@)),
            ],
        ),
        WhatsAppMessage::Template { to, template } => JsonV::Obj(
            seq![
                ("messaging_product"@, JsonV::Str("whatsapp"@)),
                ("recipient_type"@, JsonV::Str("individual"@)),
                (
                    "template"@,
                    JsonV::Obj(
                        seq![
                            ("language"@, JsonV::Obj(seq![("code"@, JsonV::Str(template.language@))])),
                            ("name"@, JsonV::Str(template.name@)),
                        ],
                    ),
                ),
                ("to"@, JsonV::Str(to@)),
                ("type"@, JsonV::Str("template"@)),
            ],
        ),
    }
}

impl WhatsAppMessage {
    /// A free-form text message (in-window only).
    pub fn text(to: &str, body: &str) -> (r: Self)
        ensures
            r matches WhatsAppMessage::Text { to: t, body: b } && t@ == to@ && b@ == body@,
    {
        WhatsAppMessage::Text { to: to.to_owned(), body: body.to_owned() }
    }

    /// A pre-approved template message (the outbound-cold path).
    pub fn template(to: &str, template: TemplateRef) -> (r: Self)
        ensures
            r matches WhatsAppMessage::Template { to: t, template: tp } && t@ == to@ && tp
                == template,
    {
        WhatsAppMessage::Template { to: to.to_owned(), template }
    }

    /// The message `type` field: `"text"` or `"template"`.
    pub fn kind(&self) -> (r: &'static str)
        ensures
            r@ == (if self is Text {
                "text"@
            } else {
                "template"@
            }),
    {
        match self {
            WhatsAppMessage::Text { .. } => "text",
            WhatsAppMessage::Template { .. } => "template",
        }
    }

    /// The Cloud API JSON request body, written by `serde_json`.
    pub fn to_json(&self) -> (r: String)
        ensures
            r@ == crate::json::json_text(message_jv(*self)),
    {
        let mut es: Vec<(String, Json)> = Vec::new();
        put(&mut es, "messaging_product", jstr("whatsapp"));
        put(&mut es, "recipient_type", jstr("individual"));
        match self {
            WhatsAppMessage::Text { to, body } => {
                let mut t: Vec<(String, Json)> = Vec::new();
                put(&mut t, "body", jstr(body.as_str()));
                assert(members(t@) =~= seq![("body"@, JsonV::Str(body@))]);
                put(&mut es, "text", jobj(t));
                put(&mut es, "to", jstr(to.as_str()));
                put(&mut es, "type", jstr("text"));
            },
            WhatsAppMessage::Template { to, template } => {
                let mut lang: Vec<(String, Json)> = Vec::new();
                put(&mut lang, "code", jstr(template.language.as_str()));
                assert(members(lang@) =~= seq![("code"@, JsonV::Str(template.language@))]);
                let mut t: Vec<(String, Json)> = Vec::new();
                put(&mut t, "language", jobj(lang));
                put(&mut t, "name", jstr(template.name.as_str()));
                assert(members(t@) =~= seq![
                    ("language"@, JsonV::Obj(seq![("code"@, JsonV::Str(template.language@))])),
                    ("name"@, JsonV::Str(template.name@)),
                ]);
                put(&mut es, "template", jobj(t));
                put(&mut es, "to", jstr(to.as_str()));
                put(&mut es, "type", jstr("template"));
            },
        }
        assert(members(es@) =~= message_jv(*self)->Obj_0);
        let v = jobj(es);
        crate::json::json_to_string(&v)
    }
}

/// The outbound wall: in the window a free-form text; outside it a template when one is given,
/// otherwise `RequiresTemplate`. No branch yields free text outside the window.
pub open spec fn prepare_spec(
    to: Seq<char>,
    text: Seq<char>,
    window_open: bool,
    template: Option<TemplateRef>,
) -> Result<(Seq<char>, Option<TemplateRef>, Seq<char>), OutboundDisposition> {
    if window_open {
        Ok((to, None, text))
    } else {
        match template {
            Some(t) => Ok((to, Some(t), seq![])),
            None => Err(OutboundDisposition::RequiresTemplate),
        }
    }
}

/// A message as (recipient, template if any, free-form body).
pub open spec fn message_parts(m: WhatsAppMessage) -> (Seq<char>, Option<TemplateRef>, Seq<char>) {
    match m {
        WhatsAppMessage::Text { to, body } => (to@, None, body@),
        WhatsAppMessage::Template { to, template } => (to@, Some(template), seq![]),
    }
}

/// Prepare the Cloud API message for an outbound send, enforcing the template wall.
pub fn prepare_outbound(
    to: &str,
    text: &str,
    window_open: bool,
    template: Option<TemplateRef>,
) -> (r: Result<WhatsAppMessage, OutboundDisposition>)
    ensures
        match r {
            Ok(m) => prepare_spec(to@, text@, window_open, template) == Ok::<
                (Seq<char>, Option<TemplateRef>, Seq<char>),
                OutboundDisposition,
            >(message_parts(m)),
            Err(d) => prepare_spec(to@, text@, window_open, template) == Err::<
                (Seq<char>, Option<TemplateRef>, Seq<char>),
                OutboundDisposition,
            >(d),
        },
{
    if window_open {
        Ok(WhatsAppMessage::text(to, text))
    } else {
        match template {
            Some(t) => Ok(WhatsAppMessage::template(to, t)),
            None => Err(OutboundDisposition::RequiresTemplate),
        }
    }
}

/// The template wall: outside the window what is prepared is a template with no free-form
/// body, and without a template nothing is prepared at all.
pub proof fn no_free_text_outside_the_window(
    to: Seq<char>,
    text: Seq<char>,
    template: Option<TemplateRef>,
)
    ensures
        prepare_spec(to, text, false, template) matches Ok((_, t, body)) ==> t is Some && body.len()
            == 0,
        prepare_spec(to, text, false, None) == Err::<
            (Seq<char>, Option<TemplateRef>, Seq<char>),
            OutboundDisposition,
        >(OutboundDisposition::RequiresTemplate),
{
}

/// A successful `/messages` response's message id (`wamid.…`).
#[derive(Debug, Clone, PartialEq, Eq)]
pub struct SendReceipt {
    pub message_id: String,
}

/// The network seam: POST a JSON body to a URL with the bearer credential, returning the raw
/// response body on success.
pub trait HttpPost {
    fn post_json(&self, url: &str, body: &str) -> Result<String, TransportError>;
}

/// Binds the adapter to the Cloud API over an [`HttpPost`], with the user's own credentials.
pub struct WhatsAppTransport<H: HttpPost> {
    adapter: WhatsAppBusinessAdapter,
    phone_number_id: String,
    access_token: String,
    base_url: String,
    http: H,
}

/// The `/{phone-number-id}/messages` endpoint under a base URL.
pub open spec fn endpoint_spec(base: Seq<char>, phone_number_id: Seq<char>) -> Seq<u8> {
    crate::bytes::utf8(base) + seq![47u8] + crate::bytes::utf8(phone_number_id) + crate::bytes::lit(
        "/messages",
    )
}

/// The `error.message` text of a reply that carries an `error` member (`unknown error` where
/// it has no string message); nothing for a reply without one.
pub open spec fn error_message(doc: Json) -> Option<Seq<char>> {
    match member(doc, "error"@) {
        Some(err) => Some(
            match member(err, "message"@) {
                Some(m) => match str_of(m) {
                    Some(t) => t,
                    None => "unknown error"@,
                },
                None => "unknown error"@,
            },
        ),
        None => None,
    }
}

/// The `messages[0].id` string of a reply, if it has one.
pub open spec fn first_message_id(doc: Json) -> Option<Seq<char>> {
    match member(doc, "messages"@) {
        Some(Json::Arr(a)) => if a@.len() > 0 {
            match member(a@[0], "id"@) {
                Some(x) => str_of(x),
                None => None,
            }
        } else {
            None
        },
        _ => None,
    }
}

/// What a Cloud API reply reads as: `Ok` with the first message id, or `Err` with the text of
/// the rejection. `doc` is the document the body holds, `None` where it is not JSON.
pub open spec fn reply_outcome(doc: Option<Json>, body: Seq<char>) -> Result<Seq<char>, Seq<char>> {
    match doc {
        None => Err(
            crate::text::utf8_lossy(
                crate::bytes::lit("unparseable response: ") + crate::bytes::utf8(body),
            ),
        ),
        Some(d) => match error_message(d) {
            Some(m) => Err(m),
            None => match first_message_id(d) {
                Some(id) => Ok(id),
                None => Err(
                    crate::text::utf8_lossy(
                        crate::bytes::lit("no message id in response: ") + crate::bytes::utf8(body),
                    ),
                ),
            },
        },
    }
}

/// A send result agrees with a read outcome: a receipt with that id, or a rejection with that
/// text.
pub open spec fn receipt_is(r: Result<SendReceipt, TransportError>, o: Result<Seq<char>, Seq<char>>) -> bool {
    match (r, o) {
        (Ok(rc), Ok(id)) => rc.message_id@ == id,
        (Err(TransportError::Rejected(m)), Err(t)) => m@ == t,
        _ => false,
    }
}

/// Read a Cloud API reply, given the document its body holds (`None` where the body is not
/// JSON): an `error` member is a rejection carrying its `message` (or `unknown error`), a first
/// `messages[0].id` string a receipt, anything else a rejection carrying the raw body.
pub fn read_send_response(doc: Option<Json>, body: &str) -> (r: Result<SendReceipt, TransportError>)
    ensures
        receipt_is(r, reply_outcome(doc, body@)),
{
    let value = match doc {
        Some(v) => v,
        None => {
            let mut m = lit_vec("unparseable response: ");
            push_all(&mut m, body.as_bytes());
            return Err(TransportError::Rejected(lossy_string(m.as_slice())));
        },
    };
    match crate::json::json_get(&value, "error") {
        Some(err) => {
            let msg = match crate::json::json_get(err, "message") {
                Some(m) => match crate::json::json_str(m) {
                    Some(s) => s,
                    None => "unknown error".to_owned(),
                },
                None => "unknown error".to_owned(),
            };
            return Err(TransportError::Rejected(msg));
        },
        None => {},
    }
    match crate::json::json_get(&value, "messages") {
        Some(ms) => match crate::json::json_array(ms) {
            Some(a) => {
                if a.len() > 0 {
                    match crate::json::json_get(&a[0], "id") {
                        Some(idv) => match crate::json::json_str(idv) {
                            Some(id) => {
                                return Ok(SendReceipt { message_id: id });
                            },
                            None => {},
                        },
                        None => {},
                    }
                }
            },
            None => {},
        },
        None => {},
    }
    let mut m = lit_vec("no message id in response: ");
    push_all(&mut m, body.as_bytes());
    Err(TransportError::Rejected(lossy_string(m.as_slice())))
}

/// A Cloud API reply body read into a receipt: the body is parsed by `serde_json`
/// ([`json_document`]) and read by [`read_send_response`].
pub fn parse_send_response(body: &str) -> (r: Result<SendReceipt, TransportError>)
    ensures
        receipt_is(r, reply_outcome(json_document(body@), body@)),
{
    read_send_response(crate::json::parse_json(body), body)
}

/// The outcome of a send given what the POST returned: a transport error passes through, a
/// response body is read by [`parse_send_response`].
pub fn receipt_of(posted: Result<String, TransportError>) -> (r: Result<SendReceipt, TransportError>)
    ensures
        posted matches Err(e) ==> r == Err::<SendReceipt, TransportError>(e),
        posted matches Ok(body) ==> receipt_is(r, reply_outcome(json_document(body@), body@)),
{
    match posted {
        Err(e) => Err(e),
        Ok(body) => parse_send_response(body.as_str()),
    }
}

impl<H: HttpPost> WhatsAppTransport<H> {
    pub closed spec fn base_spec(&self) -> Seq<char> {
        self.base_url@
    }

    pub closed spec fn phone_spec(&self) -> Seq<char> {
        self.phone_number_id@
    }

    pub closed spec fn token_spec(&self) -> Seq<char> {
        self.access_token@
    }

    pub closed spec fn http_spec(&self) -> H {
        self.http
    }

    /// A transport with the user's own credentials and the default Graph base URL.
    pub fn new(phone_number_id: &str, access_token: &str, http: H) -> (r: Self)
        ensures
            r.phone_spec() == phone_number_id@,
            r.token_spec() == access_token@,
            r.base_spec() == DEFAULT_GRAPH_BASE@,
            r.http_spec() == http,
    {
        WhatsAppTransport {
            adapter: WhatsAppBusinessAdapter,
            phone_number_id: phone_number_id.to_owned(),
            access_token: access_token.to_owned(),
            base_url: DEFAULT_GRAPH_BASE.to_owned(),
            http,
        }
    }

    /// The same transport against another Graph base URL.
    pub fn with_base_url(self, base_url: &str) -> (r: Self)
        ensures
            r.base_spec() == base_url@,
            r.phone_spec() == self.phone_spec(),
            r.token_spec() == self.token_spec(),
            r.http_spec() == self.http_spec(),
    {
        WhatsAppTransport { base_url: base_url.to_owned(), ..self }
    }

    /// The adapter's declaration holder.
    pub fn adapter(&self) -> (r: &WhatsAppBusinessAdapter)
        ensures
            *r == WhatsAppBusinessAdapter,
    {
        &self.adapter
    }

    /// The access token the transport relays under (the HTTP client presents it as a bearer).
    pub fn access_token(&self) -> (r: &str)
        ensures
            r@ == self.token_spec(),
    {
        self.access_token.as_str()
    }

    /// The HTTP client.
    pub fn http(&self) -> (r: &H)
        ensures
            *r == self.http_spec(),
    {
        &self.http
    }

    /// The `/{phone-number-id}/messages` endpoint this transport posts to.
    pub fn endpoint(&self) -> (r: String)
        ensures
            r@ == crate::text::utf8_lossy(endpoint_spec(self.base_spec(), self.phone_spec())),
    {
        let mut out: Vec<u8> = Vec::new();
        push_all(&mut out, self.base_url.as_str().as_bytes());
        out.push(47);
        push_all(&mut out, self.phone_number_id.as_str().as_bytes());
        push_lit(&mut out, "/messages");
        assert(out@ =~= endpoint_spec(self.base_spec(), self.phone_spec()));
        lossy_string(out.as_slice())
    }

    /// POST a message to the endpoint and read the receipt. The HTTP client and the platform
    /// decide the outcome; the contract holds whatever they returned.
    pub fn send_message(&self, msg: &WhatsAppMessage) -> (r: Result<SendReceipt, TransportError>)
        ensures
            r matches Ok(rc) ==> exists|body: String|
                #[trigger] reply_outcome(json_document(body@), body@) == Ok::<Seq<char>, Seq<char>>(
                    rc.message_id@,
                ),
    {
        let url = self.endpoint();
        let body = msg.to_json();
        receipt_of(self.http.post_json(url.as_str(), body.as_str()))
    }

    /// The sanctioned outbound path: prepare under the template wall, then send. A send stopped
    /// at the wall is `Err(Ok(disposition))` and nothing is posted; a failed send is
    /// `Err(Err(error))`.
    pub fn send_outbound(
        &self,
        to: &str,
        text: &str,
        window_open: bool,
        template: Option<TemplateRef>,
    ) -> (r: Result<SendReceipt, Result<OutboundDisposition, TransportError>>)
        ensures
            prepare_spec(to@, text@, window_open, template) is Err ==> r == Err::<
                SendReceipt,
                Result<OutboundDisposition, TransportError>,
            >(Ok(OutboundDisposition::RequiresTemplate)),
            prepare_spec(to@, text@, window_open, template) is Ok ==> !(r matches Err(Ok(_))),
            r matches Ok(rc) ==> exists|body: String|
                #[trigger] reply_outcome(json_document(body@), body@) == Ok::<Seq<char>, Seq<char>>(
                    rc.message_id@,
                ),
    {
        match prepare_outbound(to, text, window_open, template) {
            Err(d) => Err(Ok(d)),
            Ok(m) => match self.send_message(&m) {
                Ok(receipt) => Ok(receipt),
                Err(e) => Err(Err(e)),
            },
        }
    }
}

impl<H: HttpPost> RailTransport for WhatsAppTransport<H> {
    /// The in-window free-form leg: a text message. Callers that may be outside the window go
    /// through [`WhatsAppTransport::send_outbound`], which enforces the wall.
    fn send(&self, send: RailSend) -> Result<(), TransportError> {
        match self.send_message(&WhatsAppMessage::text(send.to.as_str(), send.text.as_str())) {
            Ok(_) => Ok(()),
            Err(e) => Err(e),
        }
    }
}

} // verus!
