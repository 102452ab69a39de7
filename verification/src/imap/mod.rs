//! IMAP4rev2 (RFC 9051) / IMAP4rev1 (RFC 3501): command tokenizer and parser, sequence sets,
//! response encoding, FETCH and STORE, SORT and THREAD, and the session state machine.
pub mod sequence;
pub mod token;
pub mod parser;
pub mod response;
pub mod session;
pub mod fetch;
pub mod server;
pub mod order;

pub use server::Session;
pub use session::State;
