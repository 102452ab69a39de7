use kotva_mail::autodiscover::{
    apple_mobileconfig, microsoft_autodiscover, microsoft_autodiscover_v2, pseudo_uuid, srv_records,
    srv_zone, thunderbird_autoconfig, HostConfig,
};

fn cfg() -> HostConfig {
    HostConfig::standard("dmtap.local", "mail.dmtap.local")
}

#[test]
fn srv_records_cover_all_services() {
    let recs = srv_records(&cfg());
    let services: Vec<&str> = recs.iter().map(|r| r.service.as_str()).collect();
    assert!(services.contains(&"_imaps._tcp"));
    assert!(services.contains(&"_submissions._tcp"));
    assert!(services.contains(&"_pop3s._tcp"));
    assert!(services.contains(&"_jmap._tcp"));
    let zone = srv_zone(&cfg());
    assert!(zone.contains("_imaps._tcp.dmtap.local. 3600 IN SRV 0 1 993 mail.dmtap.local."));
}

#[test]
fn thunderbird_xml_well_formed_fields() {
    let xml = thunderbird_autoconfig(&cfg());
    assert!(xml.contains("<clientConfig version=\"1.1\">"));
    assert!(xml.contains("<hostname>mail.dmtap.local</hostname>"));
    assert!(xml.contains("<port>993</port>"));
    assert!(xml.contains("type=\"smtp\""));
    assert!(xml.contains("<port>465</port>"));
}

#[test]
fn apple_profile_has_payloads() {
    let u1 = pseudo_uuid("0123456789abcdef0123456789abcdef0123456789abcdef0123456789abcdef");
    let u2 = pseudo_uuid("fedcba9876543210fedcba9876543210fedcba9876543210fedcba9876543210");
    let p = apple_mobileconfig(&cfg(), "alice@dmtap.local", &u1, &u2);
    assert!(p.contains("com.apple.mail.managed"));
    assert!(p.contains("<key>EmailAddress</key><string>alice@dmtap.local</string>"));
    assert!(p.contains("<key>IncomingMailServerPortNumber</key><integer>993</integer>"));
    assert_eq!(p, apple_mobileconfig(&cfg(), "alice@dmtap.local", &u1, &u2));
}

#[test]
fn microsoft_autodiscover_protocols() {
    let xml = microsoft_autodiscover(&cfg(), "bob@dmtap.local");
    assert!(xml.contains("<Type>IMAP</Type>"));
    assert!(xml.contains("<Type>SMTP</Type>"));
    assert!(xml.contains("<Port>993</Port>"));
    assert!(xml.contains("<LoginName>bob@dmtap.local</LoginName>"));
}

#[test]
fn autodiscover_v2_json_per_protocol() {
    let imap = microsoft_autodiscover_v2(&cfg(), "IMAP");
    assert!(imap.contains("\"Protocol\":\"IMAP\""), "{imap}");
    assert!(imap.contains("\"Port\":993"), "{imap}");
    assert!(imap.contains("\"Server\":\"mail.dmtap.local\""));
    let smtp = microsoft_autodiscover_v2(&cfg(), "smtp");
    assert!(smtp.contains("\"Protocol\":\"SMTP\"") && smtp.contains("\"Port\":465"), "{smtp}");
    let v1 = microsoft_autodiscover_v2(&cfg(), "AutodiscoverV1");
    assert!(v1.contains("autodiscover.dmtap.local/autodiscover/autodiscover.xml"), "{v1}");
}

#[test]
fn pseudo_uuid_shape() {
    let u = pseudo_uuid("0123456789abcdef0123456789abcdef0123456789abcdef0123456789abcdef");
    assert_eq!(u.len(), 36);
    assert_eq!(u.as_bytes()[14], b'4');
    assert_eq!(u, "01234567-89AB-4DEF-8123-456789ABCDEF");
}

#[test]
fn standard_host_config_and_exact_zone() {
    let c = cfg();
    assert_eq!((c.imaps_port, c.pop3s_port, c.submission_port), (993, 995, 465));
    assert_eq!(c.jmap_url, "https://mail.dmtap.local/.well-known/jmap");
    let zone = srv_zone(&c);
    assert_eq!(zone.lines().count(), 4);
    assert_eq!(zone.lines().nth(2), Some("_pop3s._tcp.dmtap.local. 3600 IN SRV 10 1 995 mail.dmtap.local."));
    let pop = microsoft_autodiscover_v2(&c, "pop3");
    assert_eq!(pop, "{\"Protocol\":\"POP3\",\"Server\":\"mail.dmtap.local\",\"Port\":995,\"DomainRequired\":\"off\",\"SPA\":\"off\",\"SSL\":\"on\",\"AuthPackage\":\"basic\"}");
}
