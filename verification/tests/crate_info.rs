use kotva_mail::adapters::discord::PlatformAsserted;
use kotva_mail::implemented_rfcs;

#[test]
fn implemented_rfcs_lists_every_profile() {
    let rfcs = implemented_rfcs();
    assert_eq!(rfcs.len(), 36);
    assert_eq!(rfcs[0], "RFC 9051 (IMAP4rev2)");
    assert!(rfcs.contains(&"RFC 8621 (JMAP Mail)"));
    assert!(rfcs.contains(&"RFC 1939 (POP3)"));
}

#[test]
fn platform_asserted_origin_is_never_verifiable() {
    let o = PlatformAsserted { rail: "discord".into(), claim: "80351110224678912".into(), verifiable: false };
    assert_eq!(o.clone(), o);
    assert!(!o.verifiable);
}
