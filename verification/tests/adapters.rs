use std::cell::RefCell;

use kotva_mail::adapters::sms_hardware::{Modem, SmsHardwareAdapter, SmsHardwareTransport};
use kotva_mail::adapters::whatsapp_business::{
    prepare_outbound, HttpPost, TemplateRef, WhatsAppBusinessAdapter, WhatsAppMessage, WhatsAppTransport,
};
use kotva_mail::adapters::{
    all_rails, discord, slack, sms_hardware, telegram, whatsapp_business, DeploymentMode,
    InboundTransportClass, InitiationClass, OutboundDisposition, PriceShape, RailAuthenticity,
    RailProperties, RailSend, RailTransport, Sanctioning, TransportError,
};

#[test]
fn rail_table_matches_spec_26_4() {
    for r in [telegram(), discord(), slack()] {
        assert_eq!(r.inbound.initiation, InitiationClass::InboundTriggered);
        assert_eq!(r.outbound.initiation, InitiationClass::InboundTriggered);
        assert!(!r.can_initiate_outbound_cold(), "{} must not initiate cold (§26.4.2)", r.rail);
        assert_eq!(r.inbound_transport, InboundTransportClass::OutboundPersistent);
        assert_eq!(r.outbound.price, PriceShape::Free);
        assert_eq!(r.authenticity, RailAuthenticity::PlatformAsserted);
    }
    assert_eq!(whatsapp_business().inbound.price, PriceShape::Free);
    assert_eq!(whatsapp_business().outbound.price, PriceShape::Metered);
    assert!(!whatsapp_business().can_initiate_outbound_cold());
    assert!(sms_hardware().can_initiate_outbound_cold());
    assert_eq!(sms_hardware().inbound_transport, InboundTransportClass::HardwareLocal);
    for r in all_rails() {
        assert_eq!(r.authenticity, RailAuthenticity::PlatformAsserted,
            "no legacy rail here has verifiable auth (§26.5): {}", r.rail);
    }
}

#[test]
fn unsanctioned_rails_are_node_mode_only() {
    let unofficial = RailProperties { sanctioning: Sanctioning::Unsanctioned, ..telegram() };
    assert!(unofficial.permits_mode(DeploymentMode::Node));
    assert!(!unofficial.permits_mode(DeploymentMode::Gateway),
        "an unsanctioned (ToS-violating) rail MUST NOT be operator-hosted (§26)");
    assert!(whatsapp_business().permits_mode(DeploymentMode::Gateway));
    assert!(sms_hardware().permits_mode(DeploymentMode::Gateway));
}

#[test]
fn outbound_cold_on_inbound_triggered_rail_is_a_wall() {
    assert_eq!(telegram().outbound_disposition("user", "hi", false), OutboundDisposition::BlockedNoWindow);
    assert_eq!(
        whatsapp_business().outbound_disposition("+27821234567", "hi", false),
        OutboundDisposition::RequiresTemplate
    );
    assert!(matches!(
        whatsapp_business().outbound_disposition("+27821234567", "hi", true),
        OutboundDisposition::Deliverable(_)
    ));
}

#[test]
fn properties_match_spec_26_9() {
    let p = SmsHardwareAdapter.properties();
    assert_eq!(p.inbound.initiation, InitiationClass::FreelyInitiating);
    assert_eq!(p.outbound.initiation, InitiationClass::FreelyInitiating);
    assert!(p.can_initiate_outbound_cold(), "SMS can reach a stranger cold (§26.4)");
    assert_eq!(p.sanctioning, Sanctioning::NativeStandard);
    assert!(p.permits_mode(DeploymentMode::Node) && p.permits_mode(DeploymentMode::Gateway));
}

#[test]
fn cold_send_is_deliverable_freely_initiating() {
    assert!(matches!(
        SmsHardwareAdapter.outbound_disposition("+27821234567", "cold hello", false),
        OutboundDisposition::Deliverable(_)
    ));
}

struct MockModem {
    sent: RefCell<Vec<(String, String)>>,
    fail: bool,
}

impl Modem for MockModem {
    fn submit_sms(&self, to: &str, text: &str) -> Result<(), TransportError> {
        if self.fail {
            return Err(TransportError::Unreachable);
        }
        self.sent.borrow_mut().push((to.to_string(), text.to_string()));
        Ok(())
    }
}

#[test]
fn transport_drives_the_modem_and_surfaces_failure() {
    let ok = SmsHardwareTransport::new(MockModem { sent: RefCell::new(vec![]), fail: false });
    ok.send(RailSend { to: "+27821234567".to_string(), text: "hi".to_string() }).unwrap();
    assert_eq!(
        ok.modem().sent.borrow().as_slice(),
        &[("+27821234567".to_string(), "hi".to_string())]
    );
    let bad = SmsHardwareTransport::new(MockModem { sent: RefCell::new(vec![]), fail: true });
    assert_eq!(
        bad.send(RailSend { to: "x".to_string(), text: "y".to_string() }),
        Err(TransportError::Unreachable)
    );
}

struct MockHttp {
    response: Result<String, TransportError>,
    last: RefCell<Option<(String, String)>>,
}

impl MockHttp {
    fn ok() -> Self {
        MockHttp {
            response: Ok(r#"{"messaging_product":"whatsapp","messages":[{"id":"wamid.TEST123"}]}"#.to_string()),
            last: RefCell::new(None),
        }
    }
}

impl HttpPost for MockHttp {
    fn post_json(&self, url: &str, body: &str) -> Result<String, TransportError> {
        *self.last.borrow_mut() = Some((url.to_string(), body.to_string()));
        self.response.clone()
    }
}

#[test]
fn whatsapp_business_properties_match_spec_26_4() {
    let p = WhatsAppBusinessAdapter.properties();
    assert_eq!(p.rail, "whatsapp");
    assert_eq!(p.inbound.price, PriceShape::Free);
    assert_eq!(p.outbound.price, PriceShape::Metered);
    assert_eq!(p.inbound.initiation, InitiationClass::InboundTriggered);
    assert_eq!(p.outbound.initiation, InitiationClass::InboundTriggered);
    assert!(!p.can_initiate_outbound_cold());
    assert_eq!(p.inbound_transport, InboundTransportClass::Webhook);
    assert_eq!(p.authenticity, RailAuthenticity::PlatformAsserted);
    assert_eq!(p.sanctioning, Sanctioning::SanctionedApi);
}

#[test]
fn outbound_inside_window_is_free_form_deliverable() {
    match WhatsAppBusinessAdapter.outbound_disposition("+27821234567", "hello", true) {
        OutboundDisposition::Deliverable(send) => {
            assert_eq!(send.to, "+27821234567");
            assert_eq!(send.text, "hello");
        }
        other => panic!("in-window send must be Deliverable, got {other:?}"),
    }
    let msg = prepare_outbound("+27821234567", "hello", true, None).expect("in-window free-form must prepare");
    assert_eq!(msg.kind(), "text");
}

#[test]
fn outbound_outside_window_is_the_template_wall() {
    assert_eq!(
        WhatsAppBusinessAdapter.outbound_disposition("+27821234567", "hello", false),
        OutboundDisposition::RequiresTemplate
    );
    assert_eq!(prepare_outbound("+27821234567", "hello", false, None), Err(OutboundDisposition::RequiresTemplate));
    let forced = prepare_outbound("+27821234567", "hello", false, Some(TemplateRef::new("appointment_reminder", "en_US")))
        .expect("a template send is the one path out of the window");
    assert_eq!(forced.kind(), "template");
    let json = forced.to_json();
    assert!(json.contains("\"type\":\"template\""), "forced send must be a template: {json}");
    assert!(!json.contains("\"type\":\"text\""), "forced send must NOT be free text: {json}");
    assert!(json.contains("appointment_reminder"));
}

#[test]
fn transport_sends_template_body_when_forced_outside_window() {
    let transport = WhatsAppTransport::new("PHONE_NUM_ID", "BYO_TOKEN", MockHttp::ok());
    let receipt = transport
        .send_outbound("+27821234567", "hello", false, Some(TemplateRef::new("appointment_reminder", "en_US")))
        .expect("template send should succeed against the mock");
    assert_eq!(receipt.message_id, "wamid.TEST123");
    let (url, body) = transport.http().last.borrow().clone().expect("a request was posted");
    assert_eq!(url, "https://graph.facebook.com/v20.0/PHONE_NUM_ID/messages");
    assert!(body.contains("\"type\":\"template\""), "the wire body must be a template: {body}");
    assert!(!body.contains("\"type\":\"text\""), "the wire body must NOT be free text: {body}");
}

#[test]
fn transport_refuses_outbound_cold_with_no_template() {
    let transport = WhatsAppTransport::new("PHONE_NUM_ID", "BYO_TOKEN", MockHttp::ok());
    let err = transport
        .send_outbound("+27821234567", "hello", false, None)
        .expect_err("cold send with no template must hit the wall");
    assert_eq!(err, Ok(OutboundDisposition::RequiresTemplate));
    assert!(transport.http().last.borrow().is_none(), "nothing must be posted at the wall");
}

#[test]
fn rail_transport_send_posts_free_form_text() {
    let transport = WhatsAppTransport::new("PHONE_NUM_ID", "BYO_TOKEN", MockHttp::ok());
    transport
        .send(RailSend { to: "+27821234567".to_string(), text: "in-window reply".to_string() })
        .expect("in-window free-form send should succeed");
    let (_, body) = transport.http().last.borrow().clone().unwrap();
    assert!(body.contains("\"type\":\"text\""), "in-window send is free-form text: {body}");
    assert!(body.contains("in-window reply"));
}

#[test]
fn platform_error_response_surfaces_as_rejected() {
    let http = MockHttp {
        response: Ok(r#"{"error":{"message":"(#131047) Re-engagement message","code":131047}}"#.to_string()),
        last: RefCell::new(None),
    };
    let transport = WhatsAppTransport::new("PHONE_NUM_ID", "BYO_TOKEN", http);
    let err = transport
        .send(RailSend { to: "+27821234567".to_string(), text: "x".to_string() })
        .expect_err("an error response must not read as success");
    match err {
        TransportError::Rejected(m) => assert!(m.contains("Re-engagement")),
        other => panic!("expected Rejected, got {other:?}"),
    }
}

#[test]
fn permits_gateway_mode() {
    let p = WhatsAppBusinessAdapter.properties();
    assert!(p.permits_mode(DeploymentMode::Gateway), "the sanctioned WhatsApp API may gateway");
    assert!(p.permits_mode(DeploymentMode::Node));
}

#[test]
fn message_json_is_exact_and_escaped() {
    let m = WhatsAppMessage::text("+1", "a\"b\n");
    assert_eq!(
        m.to_json(),
        "{\"messaging_product\":\"whatsapp\",\"recipient_type\":\"individual\",\"text\":{\"body\":\"a\\\"b\\n\"},\"to\":\"+1\",\"type\":\"text\"}"
    );
    let t = WhatsAppTransport::new("ID", "TOK", MockHttp::ok()).with_base_url("https://example.test");
    assert_eq!(t.endpoint(), "https://example.test/ID/messages");
    assert_eq!(t.access_token(), "TOK");
}
