use kotva_mail::adapters::slack::parse_post_message_reply;
use kotva_mail::adapters::telegram::{parse_send_reply, parse_updates_reply};
use kotva_mail::adapters::whatsapp_business::parse_send_response;
use kotva_mail::adapters::TransportError;

#[test]
fn whatsapp_reply_gives_first_message_id() {
    let r = parse_send_response("{\"messaging_product\":\"whatsapp\",\"messages\":[{\"id\":\"wamid.X1\"},{\"id\":\"wamid.X2\"}]}");
    assert_eq!(r.unwrap().message_id, "wamid.X1");
}

#[test]
fn whatsapp_error_reply_is_rejected_with_its_message() {
    match parse_send_response("{\"error\":{\"message\":\"template not approved\"}}") {
        Err(TransportError::Rejected(m)) => assert_eq!(m, "template not approved"),
        other => panic!("{other:?}"),
    }
    match parse_send_response("{\"error\":{}}") {
        Err(TransportError::Rejected(m)) => assert_eq!(m, "unknown error"),
        other => panic!("{other:?}"),
    }
    match parse_send_response("{\"messages\":[]}") {
        Err(TransportError::Rejected(m)) => assert_eq!(m, "no message id in response: {\"messages\":[]}"),
        other => panic!("{other:?}"),
    }
    match parse_send_response("nope") {
        Err(TransportError::Rejected(m)) => assert_eq!(m, "unparseable response: nope"),
        other => panic!("{other:?}"),
    }
}

#[test]
fn slack_reply_fields_are_read() {
    let r = parse_post_message_reply("{\"ok\":true,\"ts\":\"1.2\",\"channel\":\"C1\"}").unwrap();
    assert!(r.ok);
    assert_eq!(r.ts.as_deref(), Some("1.2"));
    assert_eq!(r.channel.as_deref(), Some("C1"));
    assert!(r.error.is_none());
    let r = parse_post_message_reply("{\"ok\":false,\"error\":\"channel_not_found\"}").unwrap();
    assert!(!r.ok);
    assert_eq!(r.error.as_deref(), Some("channel_not_found"));
    assert!(parse_post_message_reply("{\"ts\":\"1\"}").is_err());
}

#[test]
fn telegram_replies_are_read() {
    let r = parse_send_reply("{\"ok\":true,\"result\":{\"chat\":{\"id\":42},\"text\":\"hi\",\"from\":{\"id\":7}}}").unwrap();
    assert!(r.ok);
    let m = r.result.unwrap();
    assert_eq!(m.chat.id, 42);
    assert_eq!(m.from.unwrap().id, 7);
    assert_eq!(m.text.as_deref(), Some("hi"));
    let u = parse_updates_reply("{\"ok\":true,\"result\":[{\"update_id\":5},{\"update_id\":6,\"message\":{\"chat\":{\"id\":1}}}]}").unwrap();
    let ups = u.result.unwrap();
    assert_eq!(ups.len(), 2);
    assert_eq!(ups[0].update_id, 5);
    assert!(ups[0].message.is_none());
    assert_eq!(ups[1].message.as_ref().unwrap().chat.id, 1);
    match parse_updates_reply("{\"ok\":true,\"result\":[{\"message\":null}]}") {
        Err(TransportError::Rejected(m)) => assert_eq!(m, "malformed Bot API response"),
        other => panic!("{:?}", other.is_ok()),
    }
}
