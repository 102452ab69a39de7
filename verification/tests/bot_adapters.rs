use std::cell::RefCell;

use kotva_mail::adapters::discord::{
    self, CreateMessageRequest, DiscordAdapter, DiscordTransport, DiscordUser, GatewayMessage,
};
use kotva_mail::adapters::slack::{
    self, ChatPostMessageRequest, ChatPostMessageResponse, EventCallback, SlackAdapter,
    SlackMessageEvent, SlackTransport, CHAT_POST_MESSAGE_URL,
};
use kotva_mail::adapters::telegram::{
    self, platform_asserted_origin, ApiResponse, Chat, GetUpdates, Message, SendMessage,
    TelegramAdapter, TelegramTransport, User,
};
use kotva_mail::adapters::{
    discord as discord_row, slack as slack_row, InboundTransportClass, InitiationClass,
    OutboundDisposition, PriceShape, RailAuthenticity, RailMessage, RailSend, RailTransport,
    Sanctioning, TransportError,
};
use serde_json::Value;

// ---- Telegram ---------------------------------------------------------------------------------

struct TelegramMock {
    calls: RefCell<Vec<(String, String)>>,
    response: String,
}

impl TelegramMock {
    fn new(response: &str) -> Self {
        Self { calls: RefCell::new(Vec::new()), response: response.to_string() }
    }
    fn last_call(&self) -> (String, String) {
        self.calls.borrow().last().cloned().expect("a call was made")
    }
}

impl telegram::HttpPost for TelegramMock {
    fn post_json(&self, url: &str, body: &str) -> Result<String, TransportError> {
        self.calls.borrow_mut().push((url.to_string(), body.to_string()));
        Ok(self.response.clone())
    }
}

#[test]
fn telegram_properties_match_spec_26_4() {
    let p = TelegramAdapter.properties();
    assert_eq!(p.rail, "telegram");
    assert_eq!(p.inbound.initiation, InitiationClass::InboundTriggered);
    assert_eq!(p.outbound.initiation, InitiationClass::InboundTriggered);
    assert!(!p.can_initiate_outbound_cold(), "Telegram must not initiate cold (§26.4.2)");
    assert_eq!(p.inbound_transport, InboundTransportClass::OutboundPersistent);
    assert_eq!(p.inbound.price, PriceShape::Free);
    assert_eq!(p.outbound.price, PriceShape::Free);
    assert_eq!(p.authenticity, RailAuthenticity::PlatformAsserted);
}

#[test]
fn outbound_cold_is_blocked_no_window() {
    let d = TelegramAdapter.outbound_disposition("123456789", "cold outreach", false);
    assert_eq!(d, OutboundDisposition::BlockedNoWindow);
    assert!(!matches!(d, OutboundDisposition::RequiresTemplate));
}

#[test]
fn send_formats_correct_bot_api_request() {
    let http = TelegramMock::new(r#"{"ok":true,"result":{"chat":{"id":42},"text":"hi"}}"#);
    let transport = TelegramTransport::with_base(http, "123:ABC", "https://api.telegram.org");
    transport
        .send(RailSend { to: "42".to_string(), text: "hi there".to_string() })
        .expect("a well-formed ok=true response is a successful send");
    let (url, body) = transport.http().last_call();
    assert_eq!(url, "https://api.telegram.org/bot123:ABC/sendMessage");
    let sent: Value = serde_json::from_str(&body).expect("the request body is JSON");
    assert_eq!(sent["chat_id"], Value::from(42), "numeric chat_id id");
    assert_eq!(sent["text"], Value::from("hi there"));
}

#[test]
fn send_message_string_chat_id_serializes_as_string() {
    let json = SendMessage { chat_id: "@somechannel".to_string(), text: "x".to_string() }.to_json();
    let v: Value = serde_json::from_str(&json).unwrap();
    assert_eq!(v["chat_id"], Value::from("@somechannel"));
}

#[test]
fn get_updates_decodes_and_projects() {
    let resp = r#"{"ok":true,"result":[
            {"update_id":1,"message":{"text":"hi","from":{"id":777},"chat":{"id":777}}},
            {"update_id":2}
        ]}"#;
    let http = TelegramMock::new(resp);
    let transport = TelegramTransport::new(http, "tok");
    let updates = transport
        .get_updates(&GetUpdates { offset: Some(0), timeout: Some(30) })
        .expect("ok=true decodes");
    assert_eq!(updates.len(), 2);
    let m = updates[0].message.as_ref().unwrap().to_rail_message();
    assert_eq!(m.from, "777");
    assert_eq!(m.text, "hi");
    assert!(m.opens_window, "an inbound message opens the reply window");
    assert!(updates[1].message.is_none(), "a non-message update is skipped");
}

#[test]
fn send_surfaces_bot_api_rejection() {
    let http = TelegramMock::new(
        r#"{"ok":false,"description":"Forbidden: bot can't initiate conversation with a user"}"#,
    );
    let transport = TelegramTransport::new(http, "tok");
    let err = transport
        .send(RailSend { to: "42".to_string(), text: "hi".to_string() })
        .expect_err("ok=false is an error");
    match err {
        TransportError::Rejected(d) => assert!(d.contains("can't initiate")),
        other => panic!("expected Rejected, got {other:?}"),
    }
}

#[test]
fn telegram_origin_is_hedged() {
    assert_eq!(
        platform_asserted_origin("123456789"),
        "telegram:123456789 (platform-asserted, unverifiable)"
    );
}

#[test]
fn telegram_request_bodies_are_exact() {
    let s = SendMessage { chat_id: "-1001234".to_string(), text: "a\"b".to_string() };
    assert_eq!(s.to_json(), r#"{"chat_id":-1001234,"text":"a\"b"}"#);
    let s = SendMessage { chat_id: "+7".to_string(), text: String::new() };
    assert_eq!(s.to_json(), r#"{"chat_id":7,"text":""}"#);
    let s = SendMessage { chat_id: "-".to_string(), text: "x".to_string() };
    assert_eq!(s.to_json(), r#"{"chat_id":"-","text":"x"}"#);
    let s = SendMessage { chat_id: "9223372036854775808".to_string(), text: "x".to_string() };
    assert_eq!(s.to_json(), r#"{"chat_id":"9223372036854775808","text":"x"}"#);
    let s = SendMessage { chat_id: "-9223372036854775808".to_string(), text: "x".to_string() };
    assert_eq!(s.to_json(), r#"{"chat_id":-9223372036854775808,"text":"x"}"#);
    assert_eq!(GetUpdates { offset: Some(-3), timeout: Some(30) }.to_json(), r#"{"offset":-3,"timeout":30}"#);
    assert_eq!(GetUpdates { offset: None, timeout: Some(0) }.to_json(), r#"{"timeout":0}"#);
    assert_eq!(GetUpdates { offset: Some(5), timeout: None }.to_json(), r#"{"offset":5}"#);
    assert_eq!(GetUpdates::default().to_json(), "{}");
}

#[test]
fn telegram_reply_outcomes() {
    assert_eq!(
        telegram::send_reply_outcome(ApiResponse { ok: false, result: None, description: None }),
        Err(TransportError::Rejected("sendMessage returned ok=false".to_string()))
    );
    let updates = telegram::updates_reply_outcome(ApiResponse { ok: true, result: None, description: None });
    assert!(updates.unwrap().is_empty());
    assert_eq!(
        telegram::updates_outcome(Err(TransportError::Unreachable)).map(|u| u.len()),
        Err(TransportError::Unreachable)
    );
    // A reply whose `ok` is missing, or whose result lacks a chat, is malformed.
    assert!(matches!(telegram::send_outcome(Ok(r#"{"result":{}}"#.to_string())), Err(TransportError::Rejected(_))));
    assert!(matches!(
        telegram::send_outcome(Ok(r#"{"ok":true,"result":{"text":"x"}}"#.to_string())),
        Err(TransportError::Rejected(_))
    ));
    assert_eq!(telegram::send_outcome(Ok(r#"{"ok":true,"result":null}"#.to_string())), Ok(()));
    let m = Message { text: None, from: Some(User { id: -5 }), chat: Chat { id: 1 } }.to_rail_message();
    assert_eq!((m.from.as_str(), m.text.as_str()), ("-5", ""));
    let m = Message { text: Some("t".to_string()), from: None, chat: Chat { id: 1 } }.to_rail_message();
    assert_eq!((m.from.as_str(), m.text.as_str()), ("", "t"));
}

// ---- Discord ----------------------------------------------------------------------------------

#[derive(Default)]
struct DiscordMock {
    last: RefCell<Option<(String, String, String)>>,
    reply: String,
}

impl discord::HttpPost for DiscordMock {
    fn post_json(&self, url: &str, authorization: &str, body: &str) -> Result<String, TransportError> {
        *self.last.borrow_mut() = Some((url.to_string(), authorization.to_string(), body.to_string()));
        Ok(self.reply.clone())
    }
}

#[test]
fn discord_properties_match_spec_26_4() {
    let a = DiscordAdapter;
    let p = a.properties();
    assert_eq!(p, discord_row());
    assert_eq!(p.rail, "discord");
    assert_eq!(p.inbound.initiation, InitiationClass::InboundTriggered);
    assert_eq!(p.outbound.initiation, InitiationClass::InboundTriggered);
    assert!(!p.can_initiate_outbound_cold(), "Discord cannot initiate cold (§26.4.2)");
    assert_eq!(p.inbound_transport, InboundTransportClass::OutboundPersistent);
    assert_eq!(p.inbound.price, PriceShape::Free);
    assert_eq!(p.outbound.price, PriceShape::Free);
    assert_eq!(p.sanctioning, Sanctioning::SanctionedApi);
    assert_eq!(p.authenticity, RailAuthenticity::PlatformAsserted);
}

#[test]
fn cold_send_is_blocked_no_window() {
    let a = DiscordAdapter;
    assert_eq!(a.outbound_disposition("555", "hi", false), OutboundDisposition::BlockedNoWindow);
}

#[test]
fn mock_transport_send_formats_create_message_request() {
    let http = DiscordMock {
        reply: r#"{"id":"1","channel_id":"555","content":"hi","author":{"id":"7","username":"bot","bot":true}}"#.to_string(),
        ..Default::default()
    };
    let tx = DiscordTransport::new(http, "SECRET-BOT-TOKEN");
    tx.send(RailSend { to: "555".to_string(), text: "hi".to_string() }).unwrap();
    let http = tx.http();
    let (url, auth, body) = http.last.borrow().clone().expect("a request was made");
    assert_eq!(url, "https://discord.com/api/v10/channels/555/messages");
    assert_eq!(auth, "Bot SECRET-BOT-TOKEN");
    assert!(auth.starts_with("Bot "), "must use the bot authorization scheme");
    assert_eq!(body, r#"{"content":"hi"}"#);
}

#[test]
fn transport_surfaces_http_errors() {
    struct FailingHttp;
    impl discord::HttpPost for FailingHttp {
        fn post_json(&self, _u: &str, _a: &str, _b: &str) -> Result<String, TransportError> {
            Err(TransportError::Unreachable)
        }
    }
    let tx = DiscordTransport::new(FailingHttp, "tok");
    assert_eq!(
        tx.send(RailSend { to: "1".to_string(), text: "x".to_string() }),
        Err(TransportError::Unreachable),
    );
}

#[test]
fn discord_gateway_message_projects_and_base_overrides() {
    let gm = GatewayMessage {
        id: "999".to_string(),
        channel_id: "555".to_string(),
        content: "hi there".to_string(),
        author: DiscordUser { id: "123456789012345678".to_string(), username: "alice".to_string(), bot: false },
        guild_id: None,
    };
    let rail = gm.to_rail_message();
    assert_eq!(rail.from, "123456789012345678");
    assert_eq!(rail.text, "hi there");
    assert!(!rail.opens_window, "Discord has no reply window");
    let tx = DiscordTransport::new(DiscordMock::default(), "t").with_api_base("http://localhost:1");
    assert_eq!(tx.create_message_url("9"), "http://localhost:1/channels/9/messages");
    assert_eq!(tx.authorization(), "Bot t");
    assert_eq!(
        CreateMessageRequest { content: "line\nbreak \u{7}".to_string() }.to_json(),
        "{\"content\":\"line\\nbreak \\u0007\"}"
    );
}

// ---- Slack ------------------------------------------------------------------------------------

struct SlackMock {
    response: String,
    last: RefCell<Option<(String, String)>>,
}

impl SlackMock {
    fn ok() -> Self {
        Self {
            response: r#"{"ok":true,"channel":"C0FEEDBAC","ts":"1700000000.000100"}"#.to_string(),
            last: RefCell::new(None),
        }
    }
    fn err(reason: &str) -> Self {
        Self { response: format!(r#"{{"ok":false,"error":"{reason}"}}"#), last: RefCell::new(None) }
    }
}

impl slack::HttpPost for SlackMock {
    fn post_json(&self, url: &str, body: &str) -> Result<String, TransportError> {
        *self.last.borrow_mut() = Some((url.to_string(), body.to_string()));
        Ok(self.response.clone())
    }
}

#[test]
fn slack_properties_match_spec_26_4() {
    let a = SlackAdapter;
    let p = a.properties();
    assert_eq!(p, slack_row());
    assert_eq!(p.inbound.initiation, InitiationClass::InboundTriggered);
    assert_eq!(p.outbound.initiation, InitiationClass::InboundTriggered);
    assert!(!p.can_initiate_outbound_cold());
    assert_eq!(p.inbound_transport, InboundTransportClass::OutboundPersistent);
    assert_eq!(p.inbound.price, PriceShape::Free);
    assert_eq!(p.outbound.price, PriceShape::Free);
    assert_eq!(p.authenticity, RailAuthenticity::PlatformAsserted);
}

#[test]
fn cold_send_with_no_window_is_blocked() {
    let a = SlackAdapter;
    assert_eq!(a.outbound_disposition("U0A1B2C3D", "hello?", false), OutboundDisposition::BlockedNoWindow);
    assert!(matches!(a.outbound_disposition("C0FEEDBAC", "on it", true), OutboundDisposition::Deliverable(_)));
}

#[test]
fn mock_transport_formats_chat_post_message() {
    let tx = SlackTransport::new(SlackMock::ok());
    tx.send(RailSend { to: "C0FEEDBAC".to_string(), text: "deploy done".to_string() })
        .expect("ok:true response must succeed");
    let (url, body) = tx.http().last.borrow().clone().expect("the transport must have POSTed");
    assert_eq!(url, CHAT_POST_MESSAGE_URL);
    let req: Value = serde_json::from_str(&body).expect("body is a valid request");
    assert_eq!(req["channel"], Value::from("C0FEEDBAC"));
    assert_eq!(req["text"], Value::from("deploy done"));
    assert_eq!(
        ChatPostMessageRequest { channel: "C0FEEDBAC".to_string(), text: "deploy done".to_string() }.to_json(),
        body
    );
}

#[test]
fn mock_transport_surfaces_slack_error() {
    let tx = SlackTransport::new(SlackMock::err("not_in_channel"));
    let err = tx
        .send(RailSend { to: "C0FEEDBAC".to_string(), text: "hi".to_string() })
        .expect_err("ok:false must be an error");
    assert_eq!(err, TransportError::Rejected("not_in_channel".to_string()));
}

#[test]
fn inbound_event_projects_and_filters() {
    let cb = EventCallback {
        kind: "event_callback".to_string(),
        event: SlackMessageEvent {
            kind: "message".to_string(),
            user: Some("U0A1B2C3D".to_string()),
            text: Some("hi there".to_string()),
            channel: Some("D0DM".to_string()),
            bot_id: None,
            subtype: None,
            ts: Some("1700000000.000100".to_string()),
        },
    };
    let rm = cb.event.to_rail_message().expect("a user message projects");
    assert_eq!(rm.from, "U0A1B2C3D");
    assert_eq!(rm.text, "hi there");
    assert!(rm.opens_window, "an inbound user message opens the reply window");
    let echo = SlackMessageEvent {
        kind: "message".to_string(),
        user: None,
        text: Some("deploy done".to_string()),
        channel: Some("C0FEEDBAC".to_string()),
        bot_id: Some("B0BOT".to_string()),
        subtype: Some("bot_message".to_string()),
        ts: None,
    };
    assert!(echo.to_rail_message().is_none(), "bot echoes must be filtered");
}

#[test]
fn slack_reply_outcomes() {
    let resp = ChatPostMessageResponse { ok: false, error: None, ts: None, channel: None };
    assert_eq!(slack::reply_outcome(resp), Err(TransportError::Rejected("slack: unknown error".to_string())));
    assert_eq!(slack::send_outcome(Err(TransportError::Unreachable)), Err(TransportError::Unreachable));
    assert!(matches!(slack::send_outcome(Ok("not json".to_string())), Err(TransportError::Rejected(_))));
    assert!(matches!(slack::send_outcome(Ok(r#"{"ok":"yes"}"#.to_string())), Err(TransportError::Rejected(_))));
    assert_eq!(slack::send_outcome(Ok(r#"{"ok":true,"error":null}"#.to_string())), Ok(()));
    let joined = SlackMessageEvent {
        kind: "message".to_string(),
        user: Some("U1".to_string()),
        text: None,
        channel: None,
        bot_id: None,
        subtype: Some("channel_join".to_string()),
        ts: None,
    };
    assert!(joined.to_rail_message().is_none());
    let plain = SlackMessageEvent { subtype: None, ..joined };
    let m: RailMessage = plain.to_rail_message().unwrap();
    assert_eq!((m.from.as_str(), m.text.as_str()), ("U1", ""));
}
