//! Discord through its official Bot API.
//!
//! * Outbound is `POST /channels/{id}/messages` on the versioned REST API; inbound arrives over
//!   the Gateway WebSocket (`MESSAGE_CREATE`), an outbound-persistent connection.
//! * A bot cannot open a conversation cold (a shared guild is required): the rail is
//!   inbound-triggered in both directions, so a cold send is
//!   [`OutboundDisposition::BlockedNoWindow`].
//! * The transport authenticates with a bot token only: its authorization is always
//!   `Bot <token>`, never a user token driving a self-bot.
//!
//! The network is behind [`HttpPost`].
use vstd::prelude::*;
use crate::bytes::push_lit;
use crate::json::push_quoted;
use crate::text::lossy_string;
use super::{
    discord, OutboundDisposition, RailMessage, RailProperties, RailSend, RailTransport,
    TransportError,
};

verus! {

/// The default Discord REST API base.
pub const DISCORD_API_BASE: &'static str = "https://discord.com/api/v10";

/// The header key under which an inbound message carries its platform-asserted origin, a key of
/// its own so that a reader tells it from an email verdict by its presence.
pub const PLATFORM_ASSERTED_EXT_KEY: &'static str = "x-dmtap-mail-platform-asserted";

/// The Discord adapter: the rail's declaration and its outbound wall.
#[derive(Debug, Clone, Copy, Default)]
pub struct DiscordAdapter;

impl DiscordAdapter {
    /// The Discord row: inbound-triggered both ways, outbound-persistent, free,
    /// platform-asserted, a sanctioned bot API.
    pub fn properties(&self) -> (r: RailProperties)
        ensures
            r == super::platform_rail_spec("discord", "Discord"),
    {
        discord()
    }

    /// The outbound decision for this rail: outside a window a send is walled.
    pub fn outbound_disposition(&self, to: &str, text: &str, window_open: bool) -> (r:
        OutboundDisposition)
        ensures
            super::disposition_view(r) == super::outbound_disposition_spec(
                super::platform_rail_spec("discord", "Discord"),
                to@,
                text@,
                window_open,
            ),
    {
        discord().outbound_disposition(to, text, window_open)
    }
}

/// A platform-asserted origin: the rail that asserted it, the claimed handle or id, and the
/// `verifiable` flag, always `false` for a legacy rail, that keeps it from being mistaken for a
/// cryptographic verdict.
#[derive(Debug, Clone, PartialEq, Eq)]
pub struct PlatformAsserted {
    pub rail: String,
    pub claim: String,
    pub verifiable: bool,
}

/// The network seam: POST a JSON body to a URL under an `Authorization` header value.
pub trait HttpPost {
    fn post_json(&self, url: &str, authorization: &str, body: &str) -> Result<String, TransportError>;
}

/// The body of `POST /channels/{id}/messages`: plain text content.
#[derive(Debug, Clone, PartialEq, Eq)]
pub struct CreateMessageRequest {
    pub content: String,
}

/// `{"content":…}`.
pub open spec fn create_message_json(content: Seq<char>) -> Seq<u8> {
    crate::bytes::lit("{\"content\":") + crate::json::json_quote_spec(crate::bytes::utf8(content))
        + crate::bytes::lit("}")
}

impl CreateMessageRequest {
    /// The JSON request body.
    pub fn to_json(&self) -> (r: String)
        ensures
            r@ == crate::text::utf8_lossy(create_message_json(self.content@)),
    {
        let mut out: Vec<u8> = Vec::new();
        push_lit(&mut out, "{\"content\":");
        push_quoted(&mut out, self.content.as_str());
        push_lit(&mut out, "}");
        assert(out@ =~= create_message_json(self.content@));
        lossy_string(out.as_slice())
    }
}

/// A Discord user (subset); `id` is the snowflake the platform asserts.
#[derive(Debug, Clone, PartialEq, Eq)]
pub struct DiscordUser {
    pub id: String,
    pub username: String,
    pub bot: bool,
}

/// The reply to a successful create-message call (subset).
#[derive(Debug, Clone, PartialEq, Eq)]
pub struct MessageResponse {
    pub id: String,
    pub channel_id: String,
    pub content: String,
    pub author: DiscordUser,
}

/// The `MESSAGE_CREATE` payload (subset) the Gateway delivers.
#[derive(Debug, Clone, PartialEq, Eq)]
pub struct GatewayMessage {
    pub id: String,
    pub channel_id: String,
    pub content: String,
    pub author: DiscordUser,
    pub guild_id: Option<String>,
}

impl GatewayMessage {
    /// The rail-agnostic view: the origin is the author snowflake, the text the content; Discord
    /// has no reply window.
    pub fn to_rail_message(&self) -> (r: RailMessage)
        ensures
            r.from@ == self.author.id@,
            r.text@ == self.content@,
            !r.opens_window,
    {
        RailMessage { from: self.author.id.clone(), text: self.content.clone(), opens_window: false }
    }
}

/// The outcome of a send given what the POST returned: the reply body is not read, a transport
/// error passes through.
pub fn send_outcome(posted: Result<String, TransportError>) -> (r: Result<(), TransportError>)
    ensures
        match posted {
            Ok(_) => r is Ok,
            Err(e) => r == Err::<(), TransportError>(e),
        },
{
    match posted {
        Ok(_) => Ok(()),
        Err(e) => Err(e),
    }
}

/// Binds the REST API over an [`HttpPost`], with a bot token.
pub struct DiscordTransport<H: HttpPost> {
    http: H,
    bot_token: String,
    api_base: String,
}

/// `<base>/channels/<id>/messages`.
pub open spec fn create_message_url_spec(base: Seq<char>, channel_id: Seq<char>) -> Seq<char> {
    base + "/channels/"@ + channel_id + "/messages"@
}

impl<H: HttpPost> DiscordTransport<H> {
    pub closed spec fn base_spec(&self) -> Seq<char> {
        self.api_base@
    }

    pub closed spec fn token_spec(&self) -> Seq<char> {
        self.bot_token@
    }

    pub closed spec fn http_spec(&self) -> H {
        self.http
    }

    /// Bound to an HTTP client and a bot token, against the default API base.
    pub fn new(http: H, bot_token: &str) -> (r: Self)
        ensures
            r.token_spec() == bot_token@,
            r.base_spec() == DISCORD_API_BASE@,
            r.http_spec() == http,
    {
        DiscordTransport {
            http,
            bot_token: String::from_str(bot_token),
            api_base: String::from_str(DISCORD_API_BASE),
        }
    }

    /// The same transport against another API base.
    pub fn with_api_base(self, api_base: &str) -> (r: Self)
        ensures
            r.base_spec() == api_base@,
            r.token_spec() == self.token_spec(),
            r.http_spec() == self.http_spec(),
    {
        DiscordTransport { api_base: String::from_str(api_base), ..self }
    }

    /// The HTTP client.
    pub fn http(&self) -> (r: &H)
        ensures
            *r == self.http_spec(),
    {
        &self.http
    }

    /// The create-message URL for a channel snowflake.
    pub fn create_message_url(&self, channel_id: &str) -> (r: String)
        ensures
            r@ == create_message_url_spec(self.base_spec(), channel_id@),
    {
        let mut s = self.api_base.clone();
        s.append("/channels/");
        s.append(channel_id);
        s.append("/messages");
        s
    }

    /// The `Authorization` value: always the bot scheme.
    pub fn authorization(&self) -> (r: String)
        ensures
            r@ == "Bot "@ + self.token_spec(),
    {
        let mut s = String::from_str("Bot ");
        s.append(self.bot_token.as_str());
        s
    }
}

impl<H: HttpPost> RailTransport for DiscordTransport<H> {
    /// Create a message in the channel `send.to` with `send.text` as its content; the HTTP
    /// client's error, if any, is the outcome.
    fn send(&self, send: RailSend) -> Result<(), TransportError> {
        let url = self.create_message_url(send.to.as_str());
        let req = CreateMessageRequest { content: send.text };
        let body = req.to_json();
        let auth = self.authorization();
        send_outcome(self.http.post_json(url.as_str(), auth.as_str(), body.as_str()))
    }
}

} // verus!
