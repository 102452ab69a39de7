//! Legacy-rail adapters: bridges from one legacy communication rail (SMS, WhatsApp, Telegram,
//! Discord, Slack) to the node's messages.
//!
//! This module holds the parts every adapter shares and that are pure data and rules: the four
//! declared fields (initiation, inbound transport, price, exposure) stated per direction; the two
//! deployment modes and the sanctioning rule (a rail without a sanctioned API runs in node mode
//! only); the authenticity model (every platform rail is platform-asserted); and the per-rail
//! property table. The live network is behind [`RailTransport`], which a deployment supplies.
use vstd::prelude::*;
use crate::bytes::is_lit;

pub mod sms_hardware;
pub mod whatsapp_business;
pub mod telegram;
pub mod discord;
pub mod slack;

verus! {

/// Can the rail reach a stranger cold?
#[derive(Debug, Clone, Copy, PartialEq, Eq, Structural)]
pub enum InitiationClass {
    /// Can contact a party who has never interacted before (email, SMS).
    FreelyInitiating,
    /// The other party must open the conversation first, or only a constrained class of message
    /// may be sent (WhatsApp templates; bots that cannot message first).
    InboundTriggered,
}

/// How the rail receives; decides whether it works behind carrier-grade NAT.
#[derive(Debug, Clone, Copy, PartialEq, Eq, Structural)]
pub enum InboundTransportClass {
    /// Inbound arrives on hardware the adapter owns (an attached SMS modem).
    HardwareLocal,
    /// The adapter holds an outbound connection open and receives over it.
    OutboundPersistent,
    /// The platform calls the adapter back over HTTPS.
    Webhook,
    /// The adapter runs a server the outside world dials.
    Listener,
}

/// Price shape of a direction.
#[derive(Debug, Clone, Copy, PartialEq, Eq, Structural)]
pub enum PriceShape {
    /// Real marginal cost passed through.
    Metered,
    /// A fixed fee unrelated to volume.
    Flat,
    /// No adapter fee.
    Free,
}

/// Who runs the adapter: a property of the deployment, never of the adapter's code.
#[derive(Debug, Clone, Copy, PartialEq, Eq, Structural)]
pub enum DeploymentMode {
    /// The user runs it for themselves.
    Node,
    /// An operator runs it for others.
    Gateway,
}

/// The authenticity a recipient can get from the rail.
#[derive(Debug, Clone, Copy, PartialEq, Eq, Structural)]
pub enum RailAuthenticity {
    /// Email only: SPF/DKIM/DMARC, verifiable.
    CryptographicLegacy,
    /// Every platform rail: the platform's API says so; trusted, not verified.
    PlatformAsserted,
}

/// Whether the rail has an operator-hostable sanctioned integration.
#[derive(Debug, Clone, Copy, PartialEq, Eq, Structural)]
pub enum Sanctioning {
    /// An open standard the node speaks itself.
    NativeStandard,
    /// An official, terms-compliant API exists.
    SanctionedApi,
    /// No sanctioned bridge exists: node mode only, never operator-hosted.
    Unsanctioned,
}

/// One direction of an adapter's declaration (properties are per direction).
#[derive(Debug, Clone, Copy, PartialEq, Eq)]
pub struct DirectionProperties {
    pub initiation: InitiationClass,
    pub price: PriceShape,
    /// Who sees plaintext on this leg in node mode.
    pub exposure_node: &'static str,
    /// Who sees plaintext on this leg in gateway mode.
    pub exposure_gateway: &'static str,
}

/// A rail's full declaration.
#[derive(Debug, Clone, Copy, PartialEq, Eq)]
pub struct RailProperties {
    /// Rail label (e.g. `"telegram"`, `"whatsapp"`).
    pub rail: &'static str,
    pub inbound_transport: InboundTransportClass,
    pub authenticity: RailAuthenticity,
    pub sanctioning: Sanctioning,
    /// Inbound (rail to node) direction.
    pub inbound: DirectionProperties,
    /// Outbound (node to rail) direction, where asymmetry lives.
    pub outbound: DirectionProperties,
}

/// A rail-agnostic outbound send request.
#[derive(Debug, Clone, PartialEq, Eq)]
pub struct RailSend {
    pub to: String,
    pub text: String,
}

/// Result of mapping an outbound message onto a rail send.
#[derive(Debug, Clone, PartialEq, Eq)]
pub enum OutboundDisposition {
    /// The send is deliverable now.
    Deliverable(RailSend),
    /// The rail is inbound-triggered and no window is open: a functional wall the caller must
    /// surface.
    BlockedNoWindow,
    /// Outside the window the rail only carries a constrained class (WhatsApp templates).
    RequiresTemplate,
}

/// What the outbound decision is, as a model.
pub enum DispositionSpec {
    Deliverable(Seq<char>, Seq<char>),
    BlockedNoWindow,
    RequiresTemplate,
}

pub open spec fn disposition_view(d: OutboundDisposition) -> DispositionSpec {
    match d {
        OutboundDisposition::Deliverable(s) => DispositionSpec::Deliverable(s.to@, s.text@),
        OutboundDisposition::BlockedNoWindow => DispositionSpec::BlockedNoWindow,
        OutboundDisposition::RequiresTemplate => DispositionSpec::RequiresTemplate,
    }
}

/// A rail-agnostic inbound message.
#[derive(Debug, Clone, PartialEq, Eq)]
pub struct RailMessage {
    /// The platform-asserted origin (a phone number, a platform user id, ...).
    pub from: String,
    pub text: String,
    /// Whether this inbound opens or refreshes a reply window.
    pub opens_window: bool,
}

/// A transport failure.
#[derive(Debug, Clone, PartialEq, Eq)]
pub enum TransportError {
    /// The platform rejected the send (rate limit, template not approved, not in window, ...).
    Rejected(String),
    /// The transport could not reach the platform.
    Unreachable,
}

/// The live-network boundary, supplied by the deployment; errors are the platform's.
pub trait RailTransport {
    fn send(&self, send: RailSend) -> Result<(), TransportError>;
}

/// An unsanctioned rail must not run in gateway mode; every other rail may run in either mode.
pub open spec fn permits_mode_spec(p: RailProperties, mode: DeploymentMode) -> bool {
    !(p.sanctioning == Sanctioning::Unsanctioned && mode == DeploymentMode::Gateway)
}

/// Whether the outbound direction can originate a conversation cold.
pub open spec fn can_initiate_cold_spec(p: RailProperties) -> bool {
    p.outbound.initiation == InitiationClass::FreelyInitiating
}

/// The outbound decision: deliverable when the rail can initiate cold or a window is open;
/// otherwise WhatsApp needs a template and every other rail is walled.
pub open spec fn outbound_disposition_spec(
    p: RailProperties,
    to: Seq<char>,
    text: Seq<char>,
    window_open: bool,
) -> DispositionSpec {
    if can_initiate_cold_spec(p) || window_open {
        DispositionSpec::Deliverable(to, text)
    } else if p.rail@ == "whatsapp"@ {
        DispositionSpec::RequiresTemplate
    } else {
        DispositionSpec::BlockedNoWindow
    }
}

impl RailProperties {
    /// The sanctioning rule: an unsanctioned rail only runs in node mode.
    pub fn permits_mode(&self, mode: DeploymentMode) -> (r: bool)
        ensures
            r == permits_mode_spec(*self, mode),
    {
        !(self.sanctioning == Sanctioning::Unsanctioned && mode == DeploymentMode::Gateway)
    }

    /// Whether an outbound-cold send (no prior inbound, outside any window) is possible at all.
    pub fn can_initiate_outbound_cold(&self) -> (r: bool)
        ensures
            r == can_initiate_cold_spec(*self),
    {
        self.outbound.initiation == InitiationClass::FreelyInitiating
    }

    /// Decide whether an outbound message can be sent now; `window_open` says whether a reply
    /// window is open (meaningful for WhatsApp-class rails).
    pub fn outbound_disposition(&self, to: &str, text: &str, window_open: bool) -> (r: OutboundDisposition)
        ensures
            disposition_view(r) == outbound_disposition_spec(*self, to@, text@, window_open),
    {
        if self.can_initiate_outbound_cold() || window_open {
            OutboundDisposition::Deliverable(RailSend { to: to.to_owned(), text: text.to_owned() })
        } else if is_lit(self.rail.as_bytes(), "whatsapp") {
            proof {
                vstd::utf8::encode_utf8_decode_utf8(self.rail@);
                vstd::utf8::encode_utf8_decode_utf8("whatsapp"@);
            }
            OutboundDisposition::RequiresTemplate
        } else {
            OutboundDisposition::BlockedNoWindow
        }
    }
}

/// A direction of a bot-platform rail: inbound-triggered, free, the platform sees the plaintext.
pub open spec fn platform_dir_spec(platform: &'static str) -> DirectionProperties {
    DirectionProperties {
        initiation: InitiationClass::InboundTriggered,
        price: PriceShape::Free,
        exposure_node: platform,
        exposure_gateway: platform,
    }
}

/// The Telegram/Discord/Slack shape: sanctioned bot API, outbound-persistent, free,
/// platform-asserted, and unable to initiate in either direction.
pub open spec fn platform_rail_spec(rail: &'static str, platform: &'static str) -> RailProperties {
    RailProperties {
        rail,
        inbound_transport: InboundTransportClass::OutboundPersistent,
        authenticity: RailAuthenticity::PlatformAsserted,
        sanctioning: Sanctioning::SanctionedApi,
        inbound: platform_dir_spec(platform),
        outbound: platform_dir_spec(platform),
    }
}

/// The Telegram/Discord/Slack declaration for `rail`, whose plaintext `platform` always sees.
pub fn platform_rail(rail: &'static str, platform: &'static str) -> (r: RailProperties)
    ensures
        r == platform_rail_spec(rail, platform),
{
    let dir = DirectionProperties {
        initiation: InitiationClass::InboundTriggered,
        price: PriceShape::Free,
        exposure_node: platform,
        exposure_gateway: platform,
    };
    RailProperties {
        rail,
        inbound_transport: InboundTransportClass::OutboundPersistent,
        authenticity: RailAuthenticity::PlatformAsserted,
        sanctioning: Sanctioning::SanctionedApi,
        inbound: dir,
        outbound: dir,
    }
}

/// SMS over an attached modem: freely initiating and free both ways, hardware-local, a native
/// standard; the user and the carriers see the plaintext.
pub fn sms_hardware() -> (r: RailProperties)
    ensures
        r.rail@ == "sms-hardware"@,
        r.inbound_transport == InboundTransportClass::HardwareLocal,
        r.authenticity == RailAuthenticity::PlatformAsserted,
        r.sanctioning == Sanctioning::NativeStandard,
        r.inbound.initiation == InitiationClass::FreelyInitiating,
        r.inbound.price == PriceShape::Free,
        r.outbound.initiation == InitiationClass::FreelyInitiating,
        r.outbound.price == PriceShape::Free,
{
    RailProperties {
        rail: "sms-hardware",
        inbound_transport: InboundTransportClass::HardwareLocal,
        authenticity: RailAuthenticity::PlatformAsserted,
        sanctioning: Sanctioning::NativeStandard,
        inbound: DirectionProperties {
            initiation: InitiationClass::FreelyInitiating,
            price: PriceShape::Free,
            exposure_node: "nobody but the user (own hardware, own SIM) + the user's own carrier",
            exposure_gateway: "the operator + the carrier",
        },
        outbound: DirectionProperties {
            initiation: InitiationClass::FreelyInitiating,
            price: PriceShape::Free,
            exposure_node: "nobody but the user + the destination carrier",
            exposure_gateway: "the operator + the destination carrier",
        },
    }
}

/// WhatsApp via the Business Cloud API: asymmetric, inbound and in-window replies free,
/// outbound-cold metered and template-walled; Meta always sees the plaintext.
pub fn whatsapp_business() -> (r: RailProperties)
    ensures
        r.rail@ == "whatsapp"@,
        r.inbound_transport == InboundTransportClass::Webhook,
        r.authenticity == RailAuthenticity::PlatformAsserted,
        r.sanctioning == Sanctioning::SanctionedApi,
        r.inbound.initiation == InitiationClass::InboundTriggered,
        r.inbound.price == PriceShape::Free,
        r.outbound.initiation == InitiationClass::InboundTriggered,
        r.outbound.price == PriceShape::Metered,
{
    RailProperties {
        rail: "whatsapp",
        inbound_transport: InboundTransportClass::Webhook,
        authenticity: RailAuthenticity::PlatformAsserted,
        sanctioning: Sanctioning::SanctionedApi,
        inbound: DirectionProperties {
            initiation: InitiationClass::InboundTriggered,
            price: PriceShape::Free,
            exposure_node: "Meta, always + the user (self-hosted WABA)",
            exposure_gateway: "Meta, always + the operator",
        },
        outbound: DirectionProperties {
            initiation: InitiationClass::InboundTriggered,
            price: PriceShape::Metered,
            exposure_node: "Meta, always + the user",
            exposure_gateway: "Meta, always + the operator",
        },
    }
}

/// Telegram bot: inbound-triggered, cannot message first.
pub fn telegram() -> (r: RailProperties)
    ensures
        r == platform_rail_spec("telegram", "Telegram"),
{
    platform_rail("telegram", "Telegram")
}

/// Discord bot: a shared guild is required.
pub fn discord() -> (r: RailProperties)
    ensures
        r == platform_rail_spec("discord", "Discord"),
{
    platform_rail("discord", "Discord")
}

/// Slack app: a workspace install is required.
pub fn slack() -> (r: RailProperties)
    ensures
        r == platform_rail_spec("slack", "Slack"),
{
    platform_rail("slack", "Slack")
}

/// Every rail this crate declares, in order: SMS hardware, WhatsApp Business, Telegram,
/// Discord, Slack.
pub fn all_rails() -> (r: Vec<RailProperties>)
    ensures
        r@.len() == 5,
        r@[0].rail@ == "sms-hardware"@,
        r@[1].rail@ == "whatsapp"@,
        r@[2] == platform_rail_spec("telegram", "Telegram"),
        r@[3] == platform_rail_spec("discord", "Discord"),
        r@[4] == platform_rail_spec("slack", "Slack"),
        forall|i: int| 0 <= i < 5 ==> (#[trigger] r@[i]).authenticity == RailAuthenticity::PlatformAsserted,
{
    let mut v: Vec<RailProperties> = Vec::new();
    v.push(sms_hardware());
    v.push(whatsapp_business());
    v.push(telegram());
    v.push(discord());
    v.push(slack());
    v
}

/// The sanctioning rule: a rail without a sanctioned integration never runs in gateway mode,
/// and every rail may run in node mode.
pub proof fn unsanctioned_rails_are_node_mode_only(p: RailProperties)
    ensures
        p.sanctioning == Sanctioning::Unsanctioned ==> !permits_mode_spec(p, DeploymentMode::Gateway),
        permits_mode_spec(p, DeploymentMode::Node),
{
}

/// On an inbound-triggered rail a cold send (no open window) is never deliverable: WhatsApp
/// requires a template and every other rail is walled; once a window is open the send is
/// deliverable as given.
pub proof fn cold_send_on_inbound_triggered_rail_is_a_wall(
    p: RailProperties,
    to: Seq<char>,
    text: Seq<char>,
)
    requires
        p.outbound.initiation == InitiationClass::InboundTriggered,
    ensures
        outbound_disposition_spec(p, to, text, false) == (if p.rail@ == "whatsapp"@ {
            DispositionSpec::RequiresTemplate
        } else {
            DispositionSpec::BlockedNoWindow
        }),
        outbound_disposition_spec(p, to, text, true) == DispositionSpec::Deliverable(to, text),
{
}

/// A freely-initiating rail delivers every send as given, window or not.
pub proof fn freely_initiating_rail_always_delivers(
    p: RailProperties,
    to: Seq<char>,
    text: Seq<char>,
    window_open: bool,
)
    requires
        p.outbound.initiation == InitiationClass::FreelyInitiating,
    ensures
        outbound_disposition_spec(p, to, text, window_open) == DispositionSpec::Deliverable(to, text),
{
}

/// No bot rail (Telegram, Discord, Slack) can send cold: there is no template or price that
/// unlocks it, so a cold send is walled.
pub proof fn bot_rails_cannot_send_cold(to: Seq<char>, text: Seq<char>)
    ensures
        outbound_disposition_spec(platform_rail_spec("telegram", "Telegram"), to, text, false)
            == DispositionSpec::BlockedNoWindow,
        outbound_disposition_spec(platform_rail_spec("discord", "Discord"), to, text, false)
            == DispositionSpec::BlockedNoWindow,
        outbound_disposition_spec(platform_rail_spec("slack", "Slack"), to, text, false)
            == DispositionSpec::BlockedNoWindow,
{
    reveal_strlit("whatsapp");
    reveal_strlit("telegram");
    reveal_strlit("discord");
    reveal_strlit("slack");
    assert("telegram"@[0] != "whatsapp"@[0]);
    assert("discord"@.len() != "whatsapp"@.len());
    assert("slack"@.len() != "whatsapp"@.len());
}

} // verus!
