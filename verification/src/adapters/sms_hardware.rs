//! Hardware SMS, the in-tree reference adapter: freely initiating, hardware-local, free. It can
//! reach a stranger cold given only a number and receives on an attached modem's SIM, so it
//! depends on no third party's API. The sender number of an SMS is still only what the carrier
//! put there (platform-asserted). The hardware boundary is the [`Modem`] trait.
use vstd::prelude::*;
use super::{OutboundDisposition, RailProperties, RailSend, RailTransport, TransportError};

verus! {

/// The in-tree reference SMS adapter: freely initiating, hardware-local, free.
#[derive(Debug, Default, Clone, Copy)]
pub struct SmsHardwareAdapter;

impl SmsHardwareAdapter {
    /// The rail's declaration (see [`super::sms_hardware`]).
    pub fn properties(&self) -> (r: RailProperties)
        ensures
            r.rail@ == "sms-hardware"@,
            r.sanctioning == super::Sanctioning::NativeStandard,
            r.inbound.initiation == super::InitiationClass::FreelyInitiating,
            r.outbound.initiation == super::InitiationClass::FreelyInitiating,
            r.inbound_transport == super::InboundTransportClass::HardwareLocal,
    {
        super::sms_hardware()
    }

    /// SMS is freely initiating, so a cold send is deliverable: no window is needed.
    pub fn outbound_disposition(&self, to: &str, text: &str, window_open: bool) -> (r: OutboundDisposition)
        ensures
            super::disposition_view(r) == super::DispositionSpec::Deliverable(to@, text@),
    {
        self.properties().outbound_disposition(to, text, window_open)
    }
}

/// The hardware boundary: submit an SMS through an attached modem.
pub trait Modem {
    /// Submit an SMS to `to` with `text`; `Err` carries the modem or network failure.
    fn submit_sms(&self, to: &str, text: &str) -> Result<(), TransportError>;
}

/// A [`RailTransport`] over a [`Modem`].
pub struct SmsHardwareTransport<M: Modem> {
    modem: M,
}

impl<M: Modem> SmsHardwareTransport<M> {
    pub fn new(modem: M) -> (r: Self)
        ensures
            r.modem_spec() == modem,
    {
        SmsHardwareTransport { modem }
    }

    pub closed spec fn modem_spec(&self) -> M {
        self.modem
    }

    /// The modem this transport drives.
    pub fn modem(&self) -> (r: &M)
        ensures
            *r == self.modem_spec(),
    {
        &self.modem
    }
}

impl<M: Modem> RailTransport for SmsHardwareTransport<M> {
    /// Submits the message through the modem; the modem's outcome is the result.
    fn send(&self, send: RailSend) -> Result<(), TransportError> {
        self.modem.submit_sms(send.to.as_str(), send.text.as_str())
    }
}

} // verus!
