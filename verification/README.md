# kotva_mail

Legacy-mail bridges for a DMTAP node: IMAP4rev2, SMTP submission, POP3 and JMAP
(Core and Mail) over one mail store, with MIME parsing, search, DSN reports,
autodiscovery records and bot-platform adapters.

The library under `src/` is written in Verus. Each public function carries a
`requires`/`ensures` contract over mathematical models (`Seq`, `Map`, spec
functions and views), and the laws that relate several functions (for example
that a read-only mailbox refuses changes and keeps the store, or that a sequence
range reads the same in either order) are public proof functions; what each IMAP
command may do to the store is part of `Session::process`'s contract.

Layout:

- `src/bytes.rs`, `src/text.rs`, `src/base64.rs`, `src/json.rs`, `src/date.rs`,
  `src/digest.rs`: byte strings, text conversion, encodings, the JSON value type.
- `src/store.rs`: the mailbox store (`MailStore` with its `model()`), messages, flags.
- `src/imap/`: tokenizer, command parser, responses, FETCH rendering, the session
  state machine and the server loop's decisions.
- `src/smtp.rs`, `src/pop3.rs`, `src/auth.rs`: submission, POP3 and credentials.
- `src/jmap.rs`, `src/jmap/email_set.rs`: JMAP session resource, Mailbox/get,
  Mailbox/query, Mailbox/set, Email/query, Email/get, Email/set (composing new Emails,
  keyword updates, destroys) and blob download; `src/jmap/identity.rs`: Identity,
  EmailSubmission and the PushSubscription listing.
- `src/mime.rs`, `src/search.rs`: message parsing and IMAP SEARCH.
- `src/adapters/`, `src/autodiscover.rs`, `src/net.rs`: bot rails, client
  autoconfiguration and line framing.
- `app/`: the I/O around the library (sockets, serde conversions).
- `tests/`: executable tests of the library.

Trusted items (wrappers around `serde_json` and a few `std` conversions) are
marked `#[verifier::external_body]` and document what they claim.
