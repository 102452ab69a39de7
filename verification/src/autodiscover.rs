//! Client auto-configuration, so a device needs only the email address: the DNS SRV records a
//! node publishes (RFC 6186, RFC 8314 implicit TLS, plus `_jmap._tcp`), the Thunderbird
//! autoconfig XML (`config-v1.1`), the Apple `.mobileconfig` profile, and the Microsoft
//! Autodiscover POX XML and v2 JSON. Ports follow RFC 8314: IMAPS 993, POP3S 995, submission 465,
//! plus JMAP over HTTPS. Everything here is text generation from a [`HostConfig`].
use vstd::prelude::*;
use crate::bytes::{is_lit, lit_vec, push_all, push_lit, slice_of, to_upper};
use crate::smtp::push_dec;
use crate::text::lossy_string;

verus! {

/// Connection coordinates for a node's mail edge.
#[derive(Debug, Clone)]
pub struct HostConfig {
    /// The mail domain (right-hand side of the address), e.g. `dmtap.local`.
    pub domain: String,
    /// The host that terminates the legacy protocols, e.g. `mail.dmtap.local`.
    pub host: String,
    pub imaps_port: u16,
    pub pop3s_port: u16,
    pub submission_port: u16,
    /// The base HTTPS URL of the JMAP endpoint.
    pub jmap_url: String,
}

impl HostConfig {
    /// Standard RFC 8314 implicit-TLS ports for a node on `host` serving `domain`.
    pub fn standard(domain: &str, host: &str) -> (r: HostConfig)
        ensures
            r.domain@ == domain@,
            r.host@ == host@,
            r.imaps_port == 993,
            r.pop3s_port == 995,
            r.submission_port == 465,
            r.jmap_url@ == crate::text::utf8_lossy(
                crate::bytes::lit("https://") + crate::bytes::lit(host) + crate::bytes::lit(
                    "/.well-known/jmap",
                ),
            ),
    {
        let mut u = lit_vec("https://");
        push_all(&mut u, host.as_bytes());
        push_lit(&mut u, "/.well-known/jmap");
        HostConfig {
            domain: domain.to_owned(),
            host: host.to_owned(),
            imaps_port: 993,
            pop3s_port: 995,
            submission_port: 465,
            jmap_url: lossy_string(u.as_slice()),
        }
    }
}

/// One DNS SRV record (RFC 2782 / RFC 6186).
#[derive(Debug, Clone)]
pub struct SrvRecord {
    /// Service label including protocol, e.g. `_imaps._tcp`.
    pub service: String,
    pub priority: u16,
    pub weight: u16,
    pub port: u16,
    pub target: String,
}

/// A zone-file line: `service.domain. 3600 IN SRV priority weight port target.`
pub open spec fn zone_row(
    service: Seq<u8>,
    priority: nat,
    weight: nat,
    port: nat,
    target: Seq<u8>,
    domain: Seq<u8>,
) -> Seq<u8> {
    service + crate::bytes::lit(".") + domain + crate::bytes::lit(". 3600 IN SRV ") + crate::smtp::dec_spec(priority) + crate::bytes::lit(" ") + crate::smtp::dec_spec(weight) + crate::bytes::lit(" ") + crate::smtp::dec_spec(port) + crate::bytes::lit(" ") + target + crate::bytes::lit(".")
}

/// The zone-file line of a record, rooted at `domain`.
pub open spec fn zone_line_spec(r: SrvRecord, domain: Seq<u8>) -> Seq<u8> {
    zone_row(
        crate::bytes::utf8(r.service@),
        r.priority as nat,
        r.weight as nat,
        r.port as nat,
        crate::bytes::utf8(r.target@),
        domain,
    )
}

impl SrvRecord {
    fn zone_line_bytes(&self, domain: &[u8]) -> (r: Vec<u8>)
        ensures
            r@ == zone_line_spec(*self, domain@),
    {
        let mut out: Vec<u8> = Vec::new();
        push_all(&mut out, self.service.as_str().as_bytes());
        push_lit(&mut out, ".");
        push_all(&mut out, domain);
        push_lit(&mut out, ". 3600 IN SRV ");
        push_dec(&mut out, self.priority as usize);
        push_lit(&mut out, " ");
        push_dec(&mut out, self.weight as usize);
        push_lit(&mut out, " ");
        push_dec(&mut out, self.port as usize);
        push_lit(&mut out, " ");
        push_all(&mut out, self.target.as_str().as_bytes());
        push_lit(&mut out, ".");
        out
    }

    /// A BIND zone-file line, rooted at `domain`.
    pub fn zone_line(&self, domain: &str) -> (s: String)
        ensures
            s@ == crate::text::utf8_lossy(zone_line_spec(*self, crate::bytes::lit(domain))),
    {
        lossy_string(self.zone_line_bytes(domain.as_bytes()).as_slice())
    }
}

/// The records a node publishes (RFC 6186 §3, plus `_jmap._tcp` per RFC 8620 §2.2): service,
/// priority, weight and port of each, in order; every target is the host.
pub open spec fn srv_table(cfg: HostConfig) -> Seq<(Seq<char>, u16, u16, u16)> {
    seq![
        ("_imaps._tcp"@, 0u16, 1u16, cfg.imaps_port),
        ("_submissions._tcp"@, 0u16, 1u16, cfg.submission_port),
        ("_pop3s._tcp"@, 10u16, 1u16, cfg.pop3s_port),
        ("_jmap._tcp"@, 0u16, 1u16, 443u16),
    ]
}

fn srv(service: &str, priority: u16, weight: u16, port: u16, cfg: &HostConfig) -> (r: SrvRecord)
    ensures
        r.service@ == service@,
        r.priority == priority,
        r.weight == weight,
        r.port == port,
        r.target@ == cfg.host@,
{
    SrvRecord { service: service.to_owned(), priority, weight, port, target: cfg.host.clone() }
}

/// The full SRV record set a node publishes for client autoconfiguration.
pub fn srv_records(cfg: &HostConfig) -> (r: Vec<SrvRecord>)
    ensures
        r@.len() == 4,
        forall|i: int|
            0 <= i < 4 ==> (#[trigger] r@[i]).service@ == srv_table(*cfg)[i].0 && r@[i].priority
                == srv_table(*cfg)[i].1 && r@[i].weight == srv_table(*cfg)[i].2 && r@[i].port
                == srv_table(*cfg)[i].3 && r@[i].target@ == cfg.host@,
{
    let mut v: Vec<SrvRecord> = Vec::new();
    v.push(srv("_imaps._tcp", 0, 1, cfg.imaps_port, cfg));
    v.push(srv("_submissions._tcp", 0, 1, cfg.submission_port, cfg));
    v.push(srv("_pop3s._tcp", 10, 1, cfg.pop3s_port, cfg));
    v.push(srv("_jmap._tcp", 0, 1, 443, cfg));
    v
}

/// Zone-file lines joined by LF.
pub open spec fn join_lines(ls: Seq<Seq<u8>>) -> Seq<u8>
    decreases ls.len(),
{
    if ls.len() == 0 {
        seq![]
    } else if ls.len() == 1 {
        ls[0]
    } else {
        join_lines(ls.drop_last()) + seq![10u8] + ls.last()
    }
}

/// The zone text of the SRV record set of `cfg`.
pub open spec fn srv_zone_spec(cfg: HostConfig) -> Seq<u8> {
    join_lines(srv_rows(cfg))
}

/// The zone-file lines of the SRV record set of `cfg`.
pub open spec fn srv_rows(cfg: HostConfig) -> Seq<Seq<u8>> {
    let t = srv_table(cfg);
    let h = crate::bytes::utf8(cfg.host@);
    let d = crate::bytes::utf8(cfg.domain@);
    Seq::new(
        4,
        |i: int| zone_row(crate::bytes::utf8(t[i].0), t[i].1 as nat, t[i].2 as nat, t[i].3 as nat, h, d),
    )
}

/// Render the SRV record set as zone-file lines.
pub fn srv_zone(cfg: &HostConfig) -> (s: String)
    ensures
        s@ == crate::text::utf8_lossy(srv_zone_spec(*cfg)),
{
    let recs = srv_records(cfg);
    let d = cfg.domain.as_str().as_bytes();
    let ghost rows = srv_rows(*cfg);
    let mut out: Vec<u8> = Vec::new();
    let mut i: usize = 0;
    assert(rows.take(0) =~= Seq::<Seq<u8>>::empty());
    while i < recs.len()
        invariant
            i <= recs@.len(),
            recs@.len() == 4,
            d@ == crate::bytes::utf8(cfg.domain@),
            forall|j: int|
                0 <= j < 4 ==> (#[trigger] recs@[j]).service@ == srv_table(*cfg)[j].0
                    && recs@[j].priority == srv_table(*cfg)[j].1 && recs@[j].weight == srv_table(
                    *cfg,
                )[j].2 && recs@[j].port == srv_table(*cfg)[j].3 && recs@[j].target@ == cfg.host@,
            rows == srv_rows(*cfg),
            out@ == join_lines(rows.take(i as int)),
        decreases recs@.len() - i,
    {
        assert(rows.take(i + 1).drop_last() =~= rows.take(i as int));
        let line = recs[i].zone_line_bytes(d);
        assert(line@ == rows[i as int]);
        if i > 0 {
            out.push(10);
        }
        push_all(&mut out, line.as_slice());
        assert(out@ =~= join_lines(rows.take(i + 1)));
        i += 1;
    }
    assert(rows.take(4) =~= rows);
    lossy_string(out.as_slice())
}

/// The Thunderbird autoconfig document.
pub open spec fn thunderbird_spec(cfg: HostConfig) -> Seq<u8> {
    crate::bytes::lit("<?xml version=\"1.0\" encoding=\"UTF-8\"?>\n<clientConfig version=\"1.1\">\n  <emailProvider id=\"") + crate::bytes::utf8(cfg.domain@) + crate::bytes::lit("\">\n    <domain>") + crate::bytes::utf8(cfg.domain@) + crate::bytes::lit("</domain>\n    <displayName>Envoir DMTAP (") + crate::bytes::utf8(cfg.domain@) + crate::bytes::lit(")</displayName>\n    <displayShortName>Envoir</displayShortName>\n    <incomingServer type=\"imap\">\n      <hostname>") + crate::bytes::utf8(cfg.host@) + crate::bytes::lit("</hostname>\n      <port>") + crate::smtp::dec_spec(cfg.imaps_port as nat) + crate::bytes::lit("</port>\n      <socketType>SSL</socketType>\n      <authentication>password-cleartext</authentication>\n      <username>%EMAILADDRESS%</username>\n    </incomingServer>\n    <incomingServer type=\"pop3\">\n      <hostname>") + crate::bytes::utf8(cfg.host@) + crate::bytes::lit("</hostname>\n      <port>") + crate::smtp::dec_spec(cfg.pop3s_port as nat) + crate::bytes::lit("</port>\n      <socketType>SSL</socketType>\n      <authentication>password-cleartext</authentication>\n      <username>%EMAILADDRESS%</username>\n    </incomingServer>\n    <outgoingServer type=\"smtp\">\n      <hostname>") + crate::bytes::utf8(cfg.host@) + crate::bytes::lit("</hostname>\n      <port>") + crate::smtp::dec_spec(cfg.submission_port as nat) + crate::bytes::lit("</port>\n      <socketType>SSL</socketType>\n      <authentication>password-cleartext</authentication>\n      <username>%EMAILADDRESS%</username>\n    </outgoingServer>\n  </emailProvider>\n</clientConfig>\n")
}

/// Thunderbird / Mozilla autoconfig XML (`config-v1.1`), served at
/// `https://autoconfig.<domain>/mail/config-v1.1.xml`.
pub fn thunderbird_autoconfig(cfg: &HostConfig) -> (s: String)
    ensures
        s@ == crate::text::utf8_lossy(thunderbird_spec(*cfg)),
{
    let mut out: Vec<u8> = Vec::new();
    push_lit(&mut out, "<?xml version=\"1.0\" encoding=\"UTF-8\"?>\n<clientConfig version=\"1.1\">\n  <emailProvider id=\"");
    push_all(&mut out, cfg.domain.as_str().as_bytes());
    push_lit(&mut out, "\">\n    <domain>");
    push_all(&mut out, cfg.domain.as_str().as_bytes());
    push_lit(&mut out, "</domain>\n    <displayName>Envoir DMTAP (");
    push_all(&mut out, cfg.domain.as_str().as_bytes());
    push_lit(&mut out, ")</displayName>\n    <displayShortName>Envoir</displayShortName>\n    <incomingServer type=\"imap\">\n      <hostname>");
    push_all(&mut out, cfg.host.as_str().as_bytes());
    push_lit(&mut out, "</hostname>\n      <port>");
    push_dec(&mut out, cfg.imaps_port as usize);
    push_lit(&mut out, "</port>\n      <socketType>SSL</socketType>\n      <authentication>password-cleartext</authentication>\n      <username>%EMAILADDRESS%</username>\n    </incomingServer>\n    <incomingServer type=\"pop3\">\n      <hostname>");
    push_all(&mut out, cfg.host.as_str().as_bytes());
    push_lit(&mut out, "</hostname>\n      <port>");
    push_dec(&mut out, cfg.pop3s_port as usize);
    push_lit(&mut out, "</port>\n      <socketType>SSL</socketType>\n      <authentication>password-cleartext</authentication>\n      <username>%EMAILADDRESS%</username>\n    </incomingServer>\n    <outgoingServer type=\"smtp\">\n      <hostname>");
    push_all(&mut out, cfg.host.as_str().as_bytes());
    push_lit(&mut out, "</hostname>\n      <port>");
    push_dec(&mut out, cfg.submission_port as usize);
    push_lit(&mut out, "</port>\n      <socketType>SSL</socketType>\n      <authentication>password-cleartext</authentication>\n      <username>%EMAILADDRESS%</username>\n    </outgoingServer>\n  </emailProvider>\n</clientConfig>\n");
    lossy_string(out.as_slice())
}

/// The Apple configuration profile with the two payload identifiers.
pub open spec fn apple_spec(cfg: HostConfig, email: &str, uuid_account: &str, uuid_profile: &str) -> Seq<u8> {
    crate::bytes::lit("<?xml version=\"1.0\" encoding=\"UTF-8\"?>\n<!DOCTYPE plist PUBLIC \"-//Apple//DTD PLIST 1.0//EN\" \"http://www.apple.com/DTDs/PropertyList-1.0.dtd\">\n<plist version=\"1.0\">\n<dict>\n  <key>PayloadContent</key>\n  <array>\n    <dict>\n      <key>PayloadType</key><string>com.apple.mail.managed</string>\n      <key>PayloadVersion</key><integer>1</integer>\n      <key>PayloadIdentifier</key><string>local.dmtap.") + crate::bytes::utf8(cfg.domain@) + crate::bytes::lit(".mail</string>\n      <key>PayloadUUID</key><string>") + crate::bytes::lit(uuid_account) + crate::bytes::lit("</string>\n      <key>PayloadDisplayName</key><string>Envoir (") + crate::bytes::utf8(cfg.domain@) + crate::bytes::lit(")</string>\n      <key>EmailAccountType</key><string>EmailTypeIMAP</string>\n      <key>EmailAccountName</key><string>") + crate::bytes::lit(email) + crate::bytes::lit("</string>\n      <key>EmailAddress</key><string>") + crate::bytes::lit(email) + crate::bytes::lit("</string>\n      <key>IncomingMailServerHostName</key><string>") + crate::bytes::utf8(cfg.host@) + crate::bytes::lit("</string>\n      <key>IncomingMailServerPortNumber</key><integer>") + crate::smtp::dec_spec(cfg.imaps_port as nat) + crate::bytes::lit("</integer>\n      <key>IncomingMailServerUseSSL</key><true/>\n      <key>IncomingMailServerAuthentication</key><string>EmailAuthPassword</string>\n      <key>IncomingMailServerUsername</key><string>") + crate::bytes::lit(email) + crate::bytes::lit("</string>\n      <key>OutgoingMailServerHostName</key><string>") + crate::bytes::utf8(cfg.host@) + crate::bytes::lit("</string>\n      <key>OutgoingMailServerPortNumber</key><integer>") + crate::smtp::dec_spec(cfg.submission_port as nat) + crate::bytes::lit("</integer>\n      <key>OutgoingMailServerUseSSL</key><true/>\n      <key>OutgoingMailServerAuthentication</key><string>EmailAuthPassword</string>\n      <key>OutgoingMailServerUsername</key><string>") + crate::bytes::lit(email) + crate::bytes::lit("</string>\n      <key>SMTPEnablePasswordAuthentication</key><true/>\n    </dict>\n  </array>\n  <key>PayloadDisplayName</key><string>Envoir DMTAP Mail (") + crate::bytes::utf8(cfg.domain@) + crate::bytes::lit(")</string>\n  <key>PayloadIdentifier</key><string>local.dmtap.") + crate::bytes::utf8(cfg.domain@) + crate::bytes::lit("</string>\n  <key>PayloadType</key><string>Configuration</string>\n  <key>PayloadUUID</key><string>") + crate::bytes::lit(uuid_profile) + crate::bytes::lit("</string>\n  <key>PayloadVersion</key><integer>1</integer>\n</dict>\n</plist>\n")
}

/// Apple `.mobileconfig` profile (plist) with a `com.apple.mail.managed` payload, so a phone
/// configures IMAP and submission from the address alone. `uuid_account` and `uuid_profile` are
/// the payload UUIDs (stable ones make a regenerated profile identical; see [`pseudo_uuid`]).
pub fn apple_mobileconfig(cfg: &HostConfig, email: &str, uuid_account: &str, uuid_profile: &str) -> (s: String)
    ensures
        s@ == crate::text::utf8_lossy(apple_spec(*cfg, email, uuid_account, uuid_profile)),
{
    let mut out: Vec<u8> = Vec::new();
    push_lit(&mut out, "<?xml version=\"1.0\" encoding=\"UTF-8\"?>\n<!DOCTYPE plist PUBLIC \"-//Apple//DTD PLIST 1.0//EN\" \"http://www.apple.com/DTDs/PropertyList-1.0.dtd\">\n<plist version=\"1.0\">\n<dict>\n  <key>PayloadContent</key>\n  <array>\n    <dict>\n      <key>PayloadType</key><string>com.apple.mail.managed</string>\n      <key>PayloadVersion</key><integer>1</integer>\n      <key>PayloadIdentifier</key><string>local.dmtap.");
    push_all(&mut out, cfg.domain.as_str().as_bytes());
    push_lit(&mut out, ".mail</string>\n      <key>PayloadUUID</key><string>");
    push_all(&mut out, uuid_account.as_bytes());
    push_lit(&mut out, "</string>\n      <key>PayloadDisplayName</key><string>Envoir (");
    push_all(&mut out, cfg.domain.as_str().as_bytes());
    push_lit(&mut out, ")</string>\n      <key>EmailAccountType</key><string>EmailTypeIMAP</string>\n      <key>EmailAccountName</key><string>");
    push_all(&mut out, email.as_bytes());
    push_lit(&mut out, "</string>\n      <key>EmailAddress</key><string>");
    push_all(&mut out, email.as_bytes());
    push_lit(&mut out, "</string>\n      <key>IncomingMailServerHostName</key><string>");
    push_all(&mut out, cfg.host.as_str().as_bytes());
    push_lit(&mut out, "</string>\n      <key>IncomingMailServerPortNumber</key><integer>");
    push_dec(&mut out, cfg.imaps_port as usize);
    push_lit(&mut out, "</integer>\n      <key>IncomingMailServerUseSSL</key><true/>\n      <key>IncomingMailServerAuthentication</key><string>EmailAuthPassword</string>\n      <key>IncomingMailServerUsername</key><string>");
    push_all(&mut out, email.as_bytes());
    push_lit(&mut out, "</string>\n      <key>OutgoingMailServerHostName</key><string>");
    push_all(&mut out, cfg.host.as_str().as_bytes());
    push_lit(&mut out, "</string>\n      <key>OutgoingMailServerPortNumber</key><integer>");
    push_dec(&mut out, cfg.submission_port as usize);
    push_lit(&mut out, "</integer>\n      <key>OutgoingMailServerUseSSL</key><true/>\n      <key>OutgoingMailServerAuthentication</key><string>EmailAuthPassword</string>\n      <key>OutgoingMailServerUsername</key><string>");
    push_all(&mut out, email.as_bytes());
    push_lit(&mut out, "</string>\n      <key>SMTPEnablePasswordAuthentication</key><true/>\n    </dict>\n  </array>\n  <key>PayloadDisplayName</key><string>Envoir DMTAP Mail (");
    push_all(&mut out, cfg.domain.as_str().as_bytes());
    push_lit(&mut out, ")</string>\n  <key>PayloadIdentifier</key><string>local.dmtap.");
    push_all(&mut out, cfg.domain.as_str().as_bytes());
    push_lit(&mut out, "</string>\n  <key>PayloadType</key><string>Configuration</string>\n  <key>PayloadUUID</key><string>");
    push_all(&mut out, uuid_profile.as_bytes());
    push_lit(&mut out, "</string>\n  <key>PayloadVersion</key><integer>1</integer>\n</dict>\n</plist>\n");
    lossy_string(out.as_slice())
}

/// The Microsoft Autodiscover POX document.
pub open spec fn autodiscover_spec(cfg: HostConfig, email: &str) -> Seq<u8> {
    crate::bytes::lit("<?xml version=\"1.0\" encoding=\"utf-8\"?>\n<Autodiscover xmlns=\"http://schemas.microsoft.com/exchange/autodiscover/responseschema/2006\">\n  <Response xmlns=\"http://schemas.microsoft.com/exchange/autodiscover/outlook/responseschema/2006a\">\n    <User>\n      <DisplayName>") + crate::bytes::lit(email) + crate::bytes::lit("</DisplayName>\n    </User>\n    <Account>\n      <AccountType>email</AccountType>\n      <Action>settings</Action>\n      <Protocol>\n        <Type>IMAP</Type>\n        <Server>") + crate::bytes::utf8(cfg.host@) + crate::bytes::lit("</Server>\n        <Port>") + crate::smtp::dec_spec(cfg.imaps_port as nat) + crate::bytes::lit("</Port>\n        <LoginName>") + crate::bytes::lit(email) + crate::bytes::lit("</LoginName>\n        <SSL>on</SSL>\n        <SPA>off</SPA>\n        <AuthRequired>on</AuthRequired>\n      </Protocol>\n      <Protocol>\n        <Type>SMTP</Type>\n        <Server>") + crate::bytes::utf8(cfg.host@) + crate::bytes::lit("</Server>\n        <Port>") + crate::smtp::dec_spec(cfg.submission_port as nat) + crate::bytes::lit("</Port>\n        <LoginName>") + crate::bytes::lit(email) + crate::bytes::lit("</LoginName>\n        <SSL>on</SSL>\n        <SPA>off</SPA>\n        <AuthRequired>on</AuthRequired>\n      </Protocol>\n    </Account>\n  </Response>\n</Autodiscover>\n")
}

/// Microsoft Autodiscover POX response XML (Outlook), served from
/// `https://autodiscover.<domain>/autodiscover/autodiscover.xml`.
pub fn microsoft_autodiscover(cfg: &HostConfig, email: &str) -> (s: String)
    ensures
        s@ == crate::text::utf8_lossy(autodiscover_spec(*cfg, email)),
{
    let mut out: Vec<u8> = Vec::new();
    push_lit(&mut out, "<?xml version=\"1.0\" encoding=\"utf-8\"?>\n<Autodiscover xmlns=\"http://schemas.microsoft.com/exchange/autodiscover/responseschema/2006\">\n  <Response xmlns=\"http://schemas.microsoft.com/exchange/autodiscover/outlook/responseschema/2006a\">\n    <User>\n      <DisplayName>");
    push_all(&mut out, email.as_bytes());
    push_lit(&mut out, "</DisplayName>\n    </User>\n    <Account>\n      <AccountType>email</AccountType>\n      <Action>settings</Action>\n      <Protocol>\n        <Type>IMAP</Type>\n        <Server>");
    push_all(&mut out, cfg.host.as_str().as_bytes());
    push_lit(&mut out, "</Server>\n        <Port>");
    push_dec(&mut out, cfg.imaps_port as usize);
    push_lit(&mut out, "</Port>\n        <LoginName>");
    push_all(&mut out, email.as_bytes());
    push_lit(&mut out, "</LoginName>\n        <SSL>on</SSL>\n        <SPA>off</SPA>\n        <AuthRequired>on</AuthRequired>\n      </Protocol>\n      <Protocol>\n        <Type>SMTP</Type>\n        <Server>");
    push_all(&mut out, cfg.host.as_str().as_bytes());
    push_lit(&mut out, "</Server>\n        <Port>");
    push_dec(&mut out, cfg.submission_port as usize);
    push_lit(&mut out, "</Port>\n        <LoginName>");
    push_all(&mut out, email.as_bytes());
    push_lit(&mut out, "</LoginName>\n        <SSL>on</SSL>\n        <SPA>off</SPA>\n        <AuthRequired>on</AuthRequired>\n      </Protocol>\n    </Account>\n  </Response>\n</Autodiscover>\n");
    lossy_string(out.as_slice())
}

/// The Autodiscover v2 JSON for a requested protocol (matched case-insensitively): POP3 and SMTP
/// get their ports, `AutodiscoverV1` the POX endpoint URL, anything else the IMAP settings.
pub open spec fn autodiscover_v2_spec(cfg: HostConfig, protocol: Seq<u8>) -> Seq<u8> {
    let p = crate::bytes::upper_seq(protocol);
    if p == crate::bytes::lit("AUTODISCOVERV1") {
        crate::bytes::lit("{\"Protocol\":\"AutodiscoverV1\",\"Url\":\"https://autodiscover.") + crate::bytes::utf8(cfg.domain@) + crate::bytes::lit("/autodiscover/autodiscover.xml\"}")
    } else {
        let (proto, port) = if p == crate::bytes::lit("POP3") {
            (crate::bytes::lit("POP3"), cfg.pop3s_port)
        } else if p == crate::bytes::lit("SMTP") {
            (crate::bytes::lit("SMTP"), cfg.submission_port)
        } else {
            (crate::bytes::lit("IMAP"), cfg.imaps_port)
        };
        crate::bytes::lit("{\"Protocol\":\"") + proto + crate::bytes::lit("\",\"Server\":\"") + crate::bytes::utf8(cfg.host@) + crate::bytes::lit("\",\"Port\":") + crate::smtp::dec_spec(port as nat) + crate::bytes::lit(",\"DomainRequired\":\"off\",\"SPA\":\"off\",\"SSL\":\"on\",\"AuthPackage\":\"basic\"}")
    }
}

/// Microsoft Autodiscover v2 JSON response for one protocol (`IMAP`, `POP3`, `SMTP`, or the
/// `AutodiscoverV1` probe).
pub fn microsoft_autodiscover_v2(cfg: &HostConfig, protocol: &str) -> (s: String)
    ensures
        s@ == crate::text::utf8_lossy(autodiscover_v2_spec(*cfg, crate::bytes::lit(protocol))),
{
    let p = to_upper(protocol.as_bytes());
    let mut out: Vec<u8> = Vec::new();
    if is_lit(p.as_slice(), "AUTODISCOVERV1") {
        push_lit(&mut out, "{\"Protocol\":\"AutodiscoverV1\",\"Url\":\"https://autodiscover.");
        push_all(&mut out, cfg.domain.as_str().as_bytes());
        push_lit(&mut out, "/autodiscover/autodiscover.xml\"}");
        return lossy_string(out.as_slice());
    }
    let (proto, port) = if is_lit(p.as_slice(), "POP3") {
        (lit_vec("POP3"), cfg.pop3s_port)
    } else if is_lit(p.as_slice(), "SMTP") {
        (lit_vec("SMTP"), cfg.submission_port)
    } else {
        (lit_vec("IMAP"), cfg.imaps_port)
    };
    push_lit(&mut out, "{\"Protocol\":\"");
    push_all(&mut out, proto.as_slice());
    push_lit(&mut out, "\",\"Server\":\"");
    push_all(&mut out, cfg.host.as_str().as_bytes());
    push_lit(&mut out, "\",\"Port\":");
    push_dec(&mut out, port as usize);
    push_lit(&mut out, ",\"DomainRequired\":\"off\",\"SPA\":\"off\",\"SSL\":\"on\",\"AuthPackage\":\"basic\"}");
    lossy_string(out.as_slice())
}

/// The v4-shaped identifier made from a hex digest: `h[0..8]-h[8..12]-4h[13..16]-8h[17..20]-h[20..32]`,
/// upper-cased.
pub open spec fn uuid_shape_spec(h: Seq<u8>) -> Seq<u8> {
    crate::bytes::upper_seq(
        h.subrange(0, 8) + seq![45u8] + h.subrange(8, 12) + seq![45u8, 52u8] + h.subrange(13, 16)
            + seq![45u8, 56u8] + h.subrange(17, 20) + seq![45u8] + h.subrange(20, 32),
    )
}

/// A stable pseudo-UUID (v4-shaped) from the hex digest of a seed: deterministic, so a
/// regenerated profile keeps its identifiers.
pub fn pseudo_uuid(hex_digest: &str) -> (s: String)
    requires
        crate::bytes::lit(hex_digest).len() >= 32,
    ensures
        s@ == crate::text::utf8_lossy(uuid_shape_spec(crate::bytes::lit(hex_digest))),
{
    let h = hex_digest.as_bytes();
    let mut out: Vec<u8> = Vec::new();
    push_all(&mut out, slice_of(h, 0, 8));
    out.push(45);
    push_all(&mut out, slice_of(h, 8, 12));
    out.push(45);
    out.push(52);
    push_all(&mut out, slice_of(h, 13, 16));
    out.push(45);
    out.push(56);
    push_all(&mut out, slice_of(h, 17, 20));
    out.push(45);
    push_all(&mut out, slice_of(h, 20, 32));
    assert(out@ =~= h@.subrange(0, 8) + seq![45u8] + h@.subrange(8, 12) + seq![45u8, 52u8] + h@.subrange(13, 16)
            + seq![45u8, 56u8] + h@.subrange(17, 20) + seq![45u8] + h@.subrange(20, 32));
    let up = to_upper(out.as_slice());
    lossy_string(up.as_slice())
}

} // verus!
