//! Mail-protocol server layer: every mail surface a client speaks, as a view of one mail store,
//! specified and verified with Verus.
//!
//! - [`store`]: mailboxes, messages, flags, SPECIAL-USE roles, the in-memory store and the JMAP
//!   state tokens and change sets.
//! - [`mime`] and [`date`]: RFC 5322/MIME parsing, RFC 2047 words, transfer and charset
//!   decoding, and the date formats.
//! - [`auth`]: app-passwords bound to an identity, SASL PLAIN/LOGIN.
//! - [`imap`]: tokenizer, command parser, sequence sets, response encoding, FETCH/STORE, SORT and
//!   THREAD, and the session state machine.
//! - [`search`]: IMAP SEARCH keys and their evaluation.
//! - [`smtp`]: SMTP submission.
//! - [`pop3`]: POP3 with APOP ([`digest`] holds MD5).
//! - [`autodiscover`]: SRV records, Thunderbird autoconfig, Apple `.mobileconfig`, Microsoft
//!   Autodiscover.
//! - [`net`]: the framing decisions of the network readers.
//! - [`adapters`]: the legacy messaging rails (SMS modem, WhatsApp Business, Telegram, Discord,
//!   Slack).
pub mod bytes;
pub mod base64;
pub mod text;
pub mod imap;
pub mod auth;
pub mod store;
pub mod search;
pub mod mime;
pub mod smtp;
pub mod autodiscover;
pub mod net;
pub mod adapters;
pub mod json;
pub mod date;
pub mod digest;
pub mod pop3;
pub mod jmap;

pub use auth::{Authenticator, StaticAuthenticator};
pub use store::{Flag, MailStore, Mailbox, MemoryStore, Message, SpecialUse};

use vstd::prelude::*;

verus! {

/// The RFCs (and RFC sections) implemented across the protocol surfaces of this crate, in the
/// order the protocols are listed above.
pub fn implemented_rfcs() -> (r: Vec<&'static str>)
    ensures
        r.len() == 36,
{
    vec![
        "RFC 9051 (IMAP4rev2)",
        "RFC 3501 (IMAP4rev1)",
        "RFC 4315 (UIDPLUS)",
        "RFC 6851 (MOVE)",
        "RFC 2177 (IDLE)",
        "RFC 7162 (CONDSTORE/QRESYNC)",
        "RFC 4731/9051 (ESEARCH)",
        "RFC 5182 (SEARCHRES)",
        "RFC 5256 (SORT/THREAD)",
        "RFC 5957 (SORT=DISPLAY)",
        "RFC 3516 (BINARY)",
        "RFC 4469 (CATENATE)",
        "RFC 3348 (CHILDREN)",
        "RFC 5258 (LIST-EXTENDED)",
        "RFC 5819 (LIST-STATUS)",
        "RFC 6154 (SPECIAL-USE / CREATE-SPECIAL-USE)",
        "RFC 2971 (ID)",
        "RFC 4959 (SASL-IR)",
        "RFC 7888 (LITERAL+)",
        "RFC 5161 (ENABLE)",
        "RFC 2342 (NAMESPACE)",
        "RFC 6409 (Submission)",
        "RFC 3207 (STARTTLS)",
        "RFC 4954 (SMTP AUTH)",
        "RFC 6152 (8BITMIME)",
        "RFC 6531 (SMTPUTF8)",
        "RFC 1870 (SIZE)",
        "RFC 3461 (DSN params)",
        "RFC 3464 (DSN report format)",
        "RFC 1939 (POP3)",
        "RFC 2449 (POP3 CAPA)",
        "RFC 5034 (POP3 SASL)",
        "RFC 8620 (JMAP Core)",
        "RFC 8621 (JMAP Mail)",
        "RFC 6186 (SRV autoconfig)",
        "RFC 4616 (SASL PLAIN)",
    ]
}

} // verus!
