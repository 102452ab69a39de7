//! Mailbox-side vocabulary shared by every protocol view: IMAP flags, SPECIAL-USE roles
//! (RFC 6154), store errors, JMAP change-log types and delivery outcomes.
use vstd::prelude::*;
use crate::bytes::{is_kw, push_all, push_lit, to_vec};

verus! {

/// A message unique identifier within a mailbox (IMAP UID, RFC 9051 §2.3.1.1).
pub type Uid = u32;

/// The CONDSTORE/QRESYNC modification sequence (RFC 7162).
pub type ModSeq = u64;

/// An IMAP message flag (RFC 9051 §2.3.2): the system flags plus arbitrary keywords.
#[derive(Debug, Clone, PartialEq, Eq, PartialOrd, Ord, Hash)]
pub enum Flag {
    Seen,
    Answered,
    Flagged,
    Deleted,
    Draft,
    /// `\Recent` — session-scoped; RFC 9051 removed it, RFC 3501 keeps it.
    Recent,
    /// A custom keyword (atom), e.g. `$Forwarded`, `$MDNSent`, `NonJunk`.
    Keyword(Vec<u8>),
}

/// A flag token read case-insensitively for the system flags; anything else is a keyword kept
/// verbatim.
pub open spec fn flag_spec(tok: Seq<u8>) -> Flag {
    let l = crate::bytes::lower_seq(tok);
    if l == crate::bytes::lit("\\seen") {
        Flag::Seen
    } else if l == crate::bytes::lit("\\answered") {
        Flag::Answered
    } else if l == crate::bytes::lit("\\flagged") {
        Flag::Flagged
    } else if l == crate::bytes::lit("\\deleted") {
        Flag::Deleted
    } else if l == crate::bytes::lit("\\draft") {
        Flag::Draft
    } else if l == crate::bytes::lit("\\recent") {
        Flag::Recent
    } else {
        Flag::Keyword(arbitrary())
    }
}

/// The meaning of a flag token: its flag, with a keyword's text being the token itself.
pub open spec fn flag_of(tok: Seq<u8>, f: Flag) -> bool {
    match flag_spec(tok) {
        Flag::Keyword(_) => f matches Flag::Keyword(k) && k@ == tok,
        g => f == g,
    }
}

/// The IMAP wire form of a flag.
pub open spec fn flag_wire(f: Flag) -> Seq<u8> {
    match f {
        Flag::Seen => crate::bytes::lit("\\Seen"),
        Flag::Answered => crate::bytes::lit("\\Answered"),
        Flag::Flagged => crate::bytes::lit("\\Flagged"),
        Flag::Deleted => crate::bytes::lit("\\Deleted"),
        Flag::Draft => crate::bytes::lit("\\Draft"),
        Flag::Recent => crate::bytes::lit("\\Recent"),
        Flag::Keyword(k) => k@,
    }
}

/// Whether the lower-cased token equals a lower-case literal.
fn lower_is(tok: &[u8], l: &str) -> (r: bool)
    ensures
        r == (crate::bytes::lower_seq(tok@) == crate::bytes::lit(l)),
{
    let low = crate::bytes::to_lower(tok);
    crate::bytes::bytes_eq(low.as_slice(), l.as_bytes())
}

impl Flag {
    /// The IMAP wire form, e.g. `\Seen`, `\Answered`, or a bare keyword.
    pub fn imap_bytes(&self) -> (r: Vec<u8>)
        ensures
            r@ == flag_wire(*self),
    {
        let mut out: Vec<u8> = Vec::new();
        match self {
            Flag::Seen => push_lit(&mut out, "\\Seen"),
            Flag::Answered => push_lit(&mut out, "\\Answered"),
            Flag::Flagged => push_lit(&mut out, "\\Flagged"),
            Flag::Deleted => push_lit(&mut out, "\\Deleted"),
            Flag::Draft => push_lit(&mut out, "\\Draft"),
            Flag::Recent => push_lit(&mut out, "\\Recent"),
            Flag::Keyword(k) => push_all(&mut out, k.as_slice()),
        }
        assert(out@ =~= flag_wire(*self));
        out
    }

    /// The IMAP wire form as text.
    pub fn imap(&self) -> (r: String)
        ensures
            r@ == crate::text::utf8_lossy(flag_wire(*self)),
    {
        let b = self.imap_bytes();
        crate::text::lossy_string(b.as_slice())
    }

    /// Parse an IMAP flag token given as bytes.
    pub fn parse_bytes(tok: &[u8]) -> (r: Flag)
        ensures
            flag_of(tok@, r),
    {
        if lower_is(tok, "\\seen") {
            Flag::Seen
        } else if lower_is(tok, "\\answered") {
            Flag::Answered
        } else if lower_is(tok, "\\flagged") {
            Flag::Flagged
        } else if lower_is(tok, "\\deleted") {
            Flag::Deleted
        } else if lower_is(tok, "\\draft") {
            Flag::Draft
        } else if lower_is(tok, "\\recent") {
            Flag::Recent
        } else {
            Flag::Keyword(to_vec(tok))
        }
    }

    /// Parse an IMAP flag token (case-insensitive for the system flags).
    pub fn parse(tok: &str) -> (r: Flag)
        ensures
            flag_of(crate::bytes::lit(tok), r),
    {
        Self::parse_bytes(tok.as_bytes())
    }
}

/// The lower-cased bytes of a system flag's wire form against each lower-case name.
proof fn lemma_system_names(f: Flag)
    requires
        !(f is Keyword),
    ensures
        crate::bytes::lower_seq(flag_wire(f)) == crate::bytes::lit(
            "\\seen",
        ) <==> f == Flag::Seen,
        crate::bytes::lower_seq(flag_wire(f)) == crate::bytes::lit("\\answered") <==> f
            == Flag::Answered,
        crate::bytes::lower_seq(flag_wire(f)) == crate::bytes::lit("\\flagged") <==> f
            == Flag::Flagged,
        crate::bytes::lower_seq(flag_wire(f)) == crate::bytes::lit("\\deleted") <==> f
            == Flag::Deleted,
        crate::bytes::lower_seq(flag_wire(f)) == crate::bytes::lit("\\draft") <==> f == Flag::Draft,
        crate::bytes::lower_seq(flag_wire(f)) == crate::bytes::lit("\\recent") <==> f
            == Flag::Recent,
{
    reveal_strlit("\\Seen");
    reveal_strlit("\\Answered");
    reveal_strlit("\\Flagged");
    reveal_strlit("\\Deleted");
    reveal_strlit("\\Draft");
    reveal_strlit("\\Recent");
    reveal_strlit("\\seen");
    reveal_strlit("\\answered");
    reveal_strlit("\\flagged");
    reveal_strlit("\\deleted");
    reveal_strlit("\\draft");
    reveal_strlit("\\recent");
    crate::bytes::lemma_ascii_lit("\\Seen");
    crate::bytes::lemma_ascii_lit("\\Answered");
    crate::bytes::lemma_ascii_lit("\\Flagged");
    crate::bytes::lemma_ascii_lit("\\Deleted");
    crate::bytes::lemma_ascii_lit("\\Draft");
    crate::bytes::lemma_ascii_lit("\\Recent");
    crate::bytes::lemma_ascii_lit("\\seen");
    crate::bytes::lemma_ascii_lit("\\answered");
    crate::bytes::lemma_ascii_lit("\\flagged");
    crate::bytes::lemma_ascii_lit("\\deleted");
    crate::bytes::lemma_ascii_lit("\\draft");
    crate::bytes::lemma_ascii_lit("\\recent");
    let w = flag_wire(f);
    let l = crate::bytes::lower_seq(w);
    let names = seq![
        crate::bytes::lit("\\seen"),
        crate::bytes::lit("\\answered"),
        crate::bytes::lit("\\flagged"),
        crate::bytes::lit("\\deleted"),
        crate::bytes::lit("\\draft"),
        crate::bytes::lit("\\recent"),
    ];
    let own: int = match f {
        Flag::Seen => 0,
        Flag::Answered => 1,
        Flag::Flagged => 2,
        Flag::Deleted => 3,
        Flag::Draft => 4,
        _ => 5,
    };
    assert(l =~= names[own]);
    assert(crate::bytes::lit("\\flagged")[1] != crate::bytes::lit("\\deleted")[1]);
}

/// A flag survives its wire form: reading back what [`Flag::imap_bytes`] writes gives the same
/// flag. A keyword spelled like a system flag (`\seen` in any case) reads as that system flag,
/// so it is left out.
pub proof fn flag_round_trip(f: Flag)
    requires
        f matches Flag::Keyword(k) ==> flag_spec(k@) is Keyword,
    ensures
        flag_of(flag_wire(f), f),
{
    if !(f is Keyword) {
        lemma_system_names(f);
    }
}

/// A SPECIAL-USE folder role (RFC 6154), auto-mapped from MOTE routing.
#[derive(Debug, Clone, Copy, PartialEq, Eq, Structural)]
pub enum SpecialUse {
    Inbox,
    Sent,
    Drafts,
    Trash,
    Junk,
    Archive,
    All,
}

impl SpecialUse {
    /// The LIST SPECIAL-USE attribute, or `None` for INBOX (which is named, not attributed).
    pub fn attribute(&self) -> (r: Option<&'static str>)
        ensures
            match self {
                SpecialUse::Inbox => r is None,
                SpecialUse::Sent => r matches Some(s) && s@ == "\\Sent"@,
                SpecialUse::Drafts => r matches Some(s) && s@ == "\\Drafts"@,
                SpecialUse::Trash => r matches Some(s) && s@ == "\\Trash"@,
                SpecialUse::Junk => r matches Some(s) && s@ == "\\Junk"@,
                SpecialUse::Archive => r matches Some(s) && s@ == "\\Archive"@,
                SpecialUse::All => r matches Some(s) && s@ == "\\All"@,
            },
    {
        match self {
            SpecialUse::Inbox => None,
            SpecialUse::Sent => Some("\\Sent"),
            SpecialUse::Drafts => Some("\\Drafts"),
            SpecialUse::Trash => Some("\\Trash"),
            SpecialUse::Junk => Some("\\Junk"),
            SpecialUse::Archive => Some("\\Archive"),
            SpecialUse::All => Some("\\All"),
        }
    }

    /// JMAP `role` string (RFC 8621 §2), lowercase.
    pub fn jmap_role(&self) -> (r: &'static str)
        ensures
            r@ == (match self {
                SpecialUse::Inbox => "inbox"@,
                SpecialUse::Sent => "sent"@,
                SpecialUse::Drafts => "drafts"@,
                SpecialUse::Trash => "trash"@,
                SpecialUse::Junk => "junk"@,
                SpecialUse::Archive => "archive"@,
                SpecialUse::All => "all"@,
            }),
    {
        match self {
            SpecialUse::Inbox => "inbox",
            SpecialUse::Sent => "sent",
            SpecialUse::Drafts => "drafts",
            SpecialUse::Trash => "trash",
            SpecialUse::Junk => "junk",
            SpecialUse::Archive => "archive",
            SpecialUse::All => "all",
        }
    }
}

/// Why a mailbox operation was refused.
#[derive(Debug, Clone, Copy, PartialEq, Eq, Structural)]
pub enum StoreError {
    AlreadyExists,
    NoSuchMailbox,
    InboxImmutable,
}

impl StoreError {
    /// The human-readable reason.
    pub fn message(&self) -> (r: &'static str)
        ensures
            r@ == (match self {
                StoreError::AlreadyExists => "mailbox already exists"@,
                StoreError::NoSuchMailbox => "no such mailbox"@,
                StoreError::InboxImmutable => "INBOX cannot be deleted or renamed"@,
            }),
    {
        match self {
            StoreError::AlreadyExists => "mailbox already exists",
            StoreError::NoSuchMailbox => "no such mailbox",
            StoreError::InboxImmutable => "INBOX cannot be deleted or renamed",
        }
    }
}

/// A JMAP object type for `/changes` (RFC 8620 §5.2).
#[derive(Debug, Clone, Copy, PartialEq, Eq)]
pub enum JmapObj {
    Email,
    Mailbox,
    Thread,
}

/// The result of a JMAP `/changes` call: object ids created / updated / destroyed since the
/// client's `sinceState`, plus the resulting `newState` (RFC 8620 §5.2).
#[derive(Debug, Clone, PartialEq, Eq)]
pub struct JmapChanges {
    pub old_state: String,
    pub new_state: String,
    pub created: Vec<String>,
    pub updated: Vec<String>,
    pub destroyed: Vec<String>,
    pub has_more: bool,
}

impl Default for JmapChanges {
    fn default() -> (r: JmapChanges)
        ensures
            r.old_state@ == Seq::<char>::empty(),
            r.new_state@ == Seq::<char>::empty(),
            r.created@.len() == 0,
            r.updated@.len() == 0,
            r.destroyed@.len() == 0,
            !r.has_more,
    {
        JmapChanges {
            old_state: String::new(),
            new_state: String::new(),
            created: Vec::new(),
            updated: Vec::new(),
            destroyed: Vec::new(),
            has_more: false,
        }
    }
}

/// The outcome of projecting a decrypted message into the store.
#[derive(Debug, Clone, PartialEq, Eq)]
pub enum Delivery {
    /// Filed into the mailbox at this UID.
    Stored(Uid),
    /// Rendered for an ephemeral view and deliberately **not** persisted.
    Ephemeral(Vec<u8>),
    /// The named mailbox does not exist.
    NoSuchMailbox,
}

impl Delivery {
    /// The UID if the message was actually persisted. `Ephemeral` deliberately yields `None`.
    pub fn uid(&self) -> (r: Option<Uid>)
        ensures
            r == (match self {
                Delivery::Stored(u) => Some(*u),
                _ => None,
            }),
    {
        match self {
            Delivery::Stored(u) => Some(*u),
            _ => None,
        }
    }

    /// Whether the message reached the store. False for both `Ephemeral` and `NoSuchMailbox`.
    pub fn is_stored(&self) -> (r: bool)
        ensures
            r == (self is Stored),
    {
        match self {
            Delivery::Stored(_) => true,
            _ => false,
        }
    }
}


// ---------------------------------------------------------------------------------------------
// Messages and mailboxes
// ---------------------------------------------------------------------------------------------

/// A Unix timestamp in milliseconds.
pub type TimestampMs = u64;

/// Two flags are the same flag: the same system flag, or keywords with the same bytes.
pub open spec fn same_flag(a: Flag, b: Flag) -> bool {
    match (a, b) {
        (Flag::Keyword(x), Flag::Keyword(y)) => x@ == y@,
        (Flag::Keyword(_), _) => false,
        (_, Flag::Keyword(_)) => false,
        _ => a == b,
    }
}

/// Whether `f` is among `flags`.
pub open spec fn has_flag_spec(flags: Seq<Flag>, f: Flag) -> bool {
    exists|i: int| 0 <= i < flags.len() && same_flag(#[trigger] flags[i], f)
}

/// Compare two flags.
pub fn flag_eq(a: &Flag, b: &Flag) -> (r: bool)
    ensures
        r == same_flag(*a, *b),
{
    match (a, b) {
        (Flag::Keyword(x), Flag::Keyword(y)) => crate::bytes::bytes_eq(x.as_slice(), y.as_slice()),
        (Flag::Seen, Flag::Seen) => true,
        (Flag::Answered, Flag::Answered) => true,
        (Flag::Flagged, Flag::Flagged) => true,
        (Flag::Deleted, Flag::Deleted) => true,
        (Flag::Draft, Flag::Draft) => true,
        (Flag::Recent, Flag::Recent) => true,
        _ => false,
    }
}

fn flags_contain(flags: &Vec<Flag>, f: &Flag) -> (r: bool)
    ensures
        r == has_flag_spec(flags@, *f),
{
    let mut i: usize = 0;
    while i < flags.len()
        invariant
            i <= flags@.len(),
            forall|j: int| 0 <= j < i ==> !same_flag(#[trigger] flags@[j], *f),
        decreases flags@.len() - i,
    {
        if flag_eq(&flags[i], f) {
            return true;
        }
        i += 1;
    }
    false
}

/// The predicate of the flags that differ from `f`.
pub open spec fn keeps_flag(f: Flag) -> spec_fn(Flag) -> bool {
    |x: Flag| !same_flag(x, f)
}

/// A stored message: RFC 5322 bytes plus IMAP metadata.
#[derive(Debug, Clone)]
pub struct Message {
    pub uid: Uid,
    pub flags: Vec<Flag>,
    pub internal_date: TimestampMs,
    pub modseq: ModSeq,
    /// The modseq at which the message was created (appended); tells JMAP `created` from
    /// `updated` without a separate log.
    pub created_modseq: ModSeq,
    pub raw: Vec<u8>,
}

/// `b` is `a` with only its flags replaced.
pub open spec fn same_but_flags(a: Message, b: Message) -> bool {
    &&& b.uid == a.uid
    &&& b.internal_date == a.internal_date
    &&& b.modseq == a.modseq
    &&& b.created_modseq == a.created_modseq
    &&& b.raw@ == a.raw@
}

impl Message {
    /// A stored message created at `modseq`.
    pub fn new(uid: Uid, flags: Vec<Flag>, internal_date: TimestampMs, modseq: ModSeq, raw: Vec<u8>) -> (r:
        Message)
        ensures
            r.uid == uid,
            r.flags@ == flags@,
            r.internal_date == internal_date,
            r.modseq == modseq,
            r.created_modseq == modseq,
            r.raw@ == raw@,
    {
        Message { uid, flags, internal_date, modseq, created_modseq: modseq, raw }
    }

    /// RFC822.SIZE: the octet count of the raw message.
    pub fn size(&self) -> (r: usize)
        ensures
            r == self.raw@.len(),
    {
        self.raw.len()
    }

    pub fn has_flag(&self, f: &Flag) -> (r: bool)
        ensures
            r == has_flag_spec(self.flags@, *f),
    {
        flags_contain(&self.flags, f)
    }

    /// Add a flag unless it is already set.
    pub fn set_flag(&mut self, f: Flag)
        ensures
            same_but_flags(*old(self), *final(self)),
            final(self).flags@ == if has_flag_spec(old(self).flags@, f) {
                old(self).flags@
            } else {
                old(self).flags@.push(f)
            },
    {
        if !flags_contain(&self.flags, &f) {
            self.flags.push(f);
        }
    }

    /// Remove every occurrence of a flag.
    pub fn clear_flag(&mut self, f: &Flag)
        ensures
            same_but_flags(*old(self), *final(self)),
            final(self).flags@ == old(self).flags@.filter(keeps_flag(*f)),
    {
        let ghost orig = old(self).flags@;
        let ghost mut j: int = 0;
        let mut i: usize = 0;
        while i < self.flags.len()
            invariant
                i <= self.flags@.len(),
                0 <= j <= orig.len(),
                self.flags@.take(i as int) == orig.take(j).filter(keeps_flag(*f)),
                self.flags@.skip(i as int) == orig.skip(j),
                self.flags@.len() - i == orig.len() - j,
                same_but_flags(*old(self), *self),
            decreases self.flags@.len() - i,
        {
            proof {
                reveal(Seq::filter);
            }
            assert(orig.take(j + 1).drop_last() =~= orig.take(j));
            assert(orig.take(j + 1).last() == orig[j]);
            assert(orig[j] == self.flags@.skip(i as int)[0]);
            assert(self.flags@[i as int] == self.flags@.skip(i as int)[0]);
            if flag_eq(&self.flags[i], f) {
                let ghost before = self.flags@;
                assert(orig.take(j + 1).filter(keeps_flag(*f)) == orig.take(j).filter(keeps_flag(*f)));
                self.flags.remove(i);
                assert(self.flags@.take(i as int) =~= before.take(i as int));
                assert(self.flags@.skip(i as int) =~= before.skip(i as int).drop_first());
                assert(orig.skip(j + 1) =~= orig.skip(j).drop_first());
                proof {
                    j = j + 1;
                }
            } else {
                assert(orig.take(j + 1).filter(keeps_flag(*f)) == orig.take(j).filter(keeps_flag(*f)).push(orig[j]));
                assert(self.flags@.take(i + 1) =~= self.flags@.take(i as int).push(self.flags@[i as int]));
                assert(self.flags@.skip(i + 1) =~= self.flags@.skip(i as int).drop_first());
                assert(orig.skip(j + 1) =~= orig.skip(j).drop_first());
                i += 1;
                proof {
                    j = j + 1;
                }
            }
        }
        assert(self.flags@.skip(i as int).len() == 0);
        assert(orig.skip(j).len() == 0);
        assert(orig.take(j) =~= orig);
        assert(self.flags@.take(i as int) =~= self.flags@);
    }

    /// Parse the message into headers and MIME structure.
    pub fn parsed(&self) -> (r: crate::mime::ParsedMessage)
        ensures
            crate::mime::is_parse_of(r, self.raw@),
    {
        crate::mime::ParsedMessage::parse(self.raw.as_slice())
    }

    /// The MIME parse the FETCH and SEARCH paths use (computed on each call: the raw bytes
    /// never change, so every call gives the same structure).
    pub fn parsed_cached(&self) -> (r: crate::mime::ParsedMessage)
        ensures
            crate::mime::is_parse_of(r, self.raw@),
    {
        crate::mime::ParsedMessage::parse(self.raw.as_slice())
    }
}

/// Messages held in strictly ascending UID order.
pub open spec fn uids_ascending(ms: Seq<Message>) -> bool {
    forall|i: int, j: int| 0 <= i < j < ms.len() ==> #[trigger] ms[i].uid < #[trigger] ms[j].uid
}

/// How many messages carry (`want`) or lack (`!want`) a flag.
pub open spec fn count_flag(ms: Seq<Message>, f: Flag, want: bool) -> nat
    decreases ms.len(),
{
    if ms.len() == 0 {
        0
    } else {
        count_flag(ms.drop_last(), f, want) + if has_flag_spec(ms.last().flags@, f) == want {
            1nat
        } else {
            0nat
        }
    }
}

/// The index of the first message without `\Seen`, or the length when there is none.
pub open spec fn first_unseen_from(ms: Seq<Message>, i: int) -> int
    decreases ms.len() - i,
{
    if i < 0 || i >= ms.len() {
        ms.len() as int
    } else if !has_flag_spec(ms[i].flags@, Flag::Seen) {
        i
    } else {
        first_unseen_from(ms, i + 1)
    }
}

/// The UIDs expunged after `modseq`, in log order.
pub open spec fn vanished_after(log: Seq<(Uid, ModSeq)>, modseq: ModSeq) -> Seq<Uid>
    decreases log.len(),
{
    if log.len() == 0 {
        seq![]
    } else {
        vanished_after(log.drop_last(), modseq) + if log.last().1 > modseq {
            seq![log.last().0]
        } else {
            Seq::<Uid>::empty()
        }
    }
}

/// A mailbox (folder): an ordered list of messages with IMAP bookkeeping. `expunged` is the
/// vanished-UID log (RFC 7162): each expunge records `(uid, modseq)`.
#[derive(Debug, Clone)]
pub struct Mailbox {
    pub name: String,
    pub special_use: Option<SpecialUse>,
    pub uid_validity: u32,
    pub uid_next: Uid,
    pub highest_modseq: ModSeq,
    pub subscribed: bool,
    pub messages: Vec<Message>,
    pub expunged: Vec<(Uid, ModSeq)>,
}

impl Mailbox {
    /// The bookkeeping the mailbox operations keep: UIDs ascending and below `uid_next`, no
    /// message modseq above `highest_modseq`.
    pub open spec fn well_formed(&self) -> bool {
        &&& uids_ascending(self.messages@)
        &&& forall|i: int| 0 <= i < self.messages@.len() ==> (#[trigger] self.messages@[i]).uid
            < self.uid_next && self.messages@[i].modseq <= self.highest_modseq
    }

    /// An empty mailbox: UIDVALIDITY, UIDNEXT and HIGHESTMODSEQ 1, subscribed.
    pub fn new(name: &str, special_use: Option<SpecialUse>) -> (r: Mailbox)
        ensures
            r.name@ == name@,
            r.special_use == special_use,
            r.uid_validity == 1,
            r.uid_next == 1,
            r.highest_modseq == 1,
            r.subscribed,
            r.messages@.len() == 0,
            r.expunged@.len() == 0,
            r.well_formed(),
    {
        Mailbox {
            name: name.to_owned(),
            special_use,
            uid_validity: 1,
            uid_next: 1,
            highest_modseq: 1,
            subscribed: true,
            messages: Vec::new(),
            expunged: Vec::new(),
        }
    }

    /// The EXISTS count: how many messages the mailbox holds.
    pub fn exists_count(&self) -> (r: usize)
        ensures
            r == self.messages@.len(),
    {
        self.messages.len()
    }

    fn count(&self, f: &Flag, want: bool) -> (r: usize)
        ensures
            r == count_flag(self.messages@, *f, want),
    {
        let mut n: usize = 0;
        let mut i: usize = 0;
        while i < self.messages.len()
            invariant
                i <= self.messages@.len(),
                n == count_flag(self.messages@.take(i as int), *f, want),
                n <= i,
            decreases self.messages@.len() - i,
        {
            assert(self.messages@.take(i + 1).drop_last() =~= self.messages@.take(i as int));
            if self.messages[i].has_flag(f) == want {
                n += 1;
            }
            i += 1;
        }
        assert(self.messages@.take(i as int) =~= self.messages@);
        n
    }

    /// How many messages carry `\Recent`.
    pub fn recent(&self) -> (r: usize)
        ensures
            r == count_flag(self.messages@, Flag::Recent, true),
    {
        self.count(&Flag::Recent, true)
    }

    /// How many messages lack `\Seen`.
    pub fn unseen(&self) -> (r: usize)
        ensures
            r == count_flag(self.messages@, Flag::Seen, false),
    {
        self.count(&Flag::Seen, false)
    }

    /// The highest UID in use (`*` in a UID set): the last message's, or 0 when empty.
    pub fn max_uid(&self) -> (r: Uid)
        ensures
            r == if self.messages@.len() == 0 {
                0
            } else {
                self.messages@.last().uid
            },
    {
        if self.messages.len() == 0 {
            0
        } else {
            self.messages[self.messages.len() - 1].uid
        }
    }

    /// The 1-based sequence number of the first unseen message (SELECT's `[UNSEEN n]`).
    pub fn first_unseen_seq(&self) -> (r: Option<usize>)
        ensures
            first_unseen_from(self.messages@, 0) < self.messages@.len() ==> r == Some(
                (first_unseen_from(self.messages@, 0) + 1) as usize,
            ),
            first_unseen_from(self.messages@, 0) == self.messages@.len() ==> r is None,
    {
        let mut i: usize = 0;
        while i < self.messages.len()
            invariant
                i <= self.messages@.len(),
                first_unseen_from(self.messages@, i as int) == first_unseen_from(self.messages@, 0),
            decreases self.messages@.len() - i,
        {
            if !self.messages[i].has_flag(&Flag::Seen) {
                return Some(i + 1);
            }
            i += 1;
        }
        None
    }

    /// Append a message under the next UID, bumping the modseq; returns the UID.
    pub fn append(&mut self, raw: Vec<u8>, flags: Vec<Flag>, internal_date: TimestampMs) -> (r: Uid)
        requires
            old(self).uid_next < u32::MAX,
            old(self).highest_modseq < u64::MAX,
        ensures
            r == old(self).uid_next,
            final(self).uid_next == old(self).uid_next + 1,
            final(self).highest_modseq == old(self).highest_modseq + 1,
            final(self).messages@.len() == old(self).messages@.len() + 1,
            final(self).messages@.drop_last() == old(self).messages@,
            final(self).messages@.last().uid == r,
            final(self).messages@.last().flags@ == flags@,
            final(self).messages@.last().raw@ == raw@,
            final(self).messages@.last().internal_date == internal_date,
            final(self).messages@.last().modseq == final(self).highest_modseq,
            final(self).messages@.last().created_modseq == final(self).highest_modseq,
            final(self).name == old(self).name,
            final(self).special_use == old(self).special_use,
            final(self).uid_validity == old(self).uid_validity,
            final(self).subscribed == old(self).subscribed,
            final(self).expunged == old(self).expunged,
            old(self).well_formed() ==> final(self).well_formed(),
    {
        let uid = self.uid_next;
        self.uid_next = self.uid_next + 1;
        self.highest_modseq = self.highest_modseq + 1;
        let m = Message::new(uid, flags, internal_date, self.highest_modseq, raw);
        self.messages.push(m);
        assert(self.messages@.drop_last() =~= old(self).messages@);
        uid
    }

    /// The index of a UID, by binary search over the UID-ordered messages.
    pub fn index_of_uid(&self, uid: Uid) -> (r: Option<usize>)
        ensures
            r matches Some(i) ==> i < self.messages@.len() && self.messages@[i as int].uid == uid,
            uids_ascending(self.messages@) ==> (r is None <==> forall|k: int|
                0 <= k < self.messages@.len() ==> (#[trigger] self.messages@[k]).uid != uid),
    {
        let mut lo: usize = 0;
        let mut hi: usize = self.messages.len();
        while lo < hi
            invariant
                lo <= hi <= self.messages@.len(),
                uids_ascending(self.messages@) ==> forall|k: int|
                    0 <= k < self.messages@.len() && !(lo <= k < hi) ==> (#[trigger] self.messages@[k]).uid != uid,
            decreases hi - lo,
        {
            let mid = lo + (hi - lo) / 2;
            let m = self.messages[mid].uid;
            if m == uid {
                return Some(mid);
            } else if m < uid {
                lo = mid + 1;
            } else {
                hi = mid;
            }
        }
        None
    }

    /// UID to 1-based sequence number.
    pub fn seq_of_uid(&self, uid: Uid) -> (r: Option<usize>)
        ensures
            r matches Some(n) ==> 1 <= n <= self.messages@.len() && self.messages@[n - 1].uid == uid,
            uids_ascending(self.messages@) ==> (r is None <==> forall|k: int|
                0 <= k < self.messages@.len() ==> (#[trigger] self.messages@[k]).uid != uid),
    {
        match self.index_of_uid(uid) {
            Some(i) => {
                let n = self.messages.len();
                assert(i < n);
                Some(i + 1)
            },
            None => None,
        }
    }

    /// The message with a UID.
    pub fn by_uid(&self, uid: Uid) -> (r: Option<&Message>)
        ensures
            r matches Some(m) ==> m.uid == uid && exists|k: int|
                0 <= k < self.messages@.len() && self.messages@[k] == *m,
            uids_ascending(self.messages@) ==> (r is None <==> forall|k: int|
                0 <= k < self.messages@.len() ==> (#[trigger] self.messages@[k]).uid != uid),
    {
        match self.index_of_uid(uid) {
            Some(i) => Some(&self.messages[i]),
            None => None,
        }
    }

    /// Remove the message at `index`, bumping the modseq and logging the vanished UID. `None`
    /// (and nothing changed) when the index is out of range.
    pub fn remove_at(&mut self, index: usize) -> (r: Option<Uid>)
        requires
            index < old(self).messages@.len() ==> old(self).highest_modseq < u64::MAX,
        ensures
            index >= old(self).messages@.len() ==> r is None && *final(self) == *old(self),
            index < old(self).messages@.len() ==> {
                &&& r == Some(old(self).messages@[index as int].uid)
                &&& final(self).messages@ == old(self).messages@.remove(index as int)
                &&& final(self).highest_modseq == old(self).highest_modseq + 1
                &&& final(self).expunged@ == old(self).expunged@.push(
                    (old(self).messages@[index as int].uid, final(self).highest_modseq),
                )
                &&& final(self).name == old(self).name
                &&& final(self).special_use == old(self).special_use
                &&& final(self).uid_validity == old(self).uid_validity
                &&& final(self).uid_next == old(self).uid_next
                &&& final(self).subscribed == old(self).subscribed
            },
            old(self).well_formed() ==> final(self).well_formed(),
    {
        if index >= self.messages.len() {
            return None;
        }
        let uid = self.messages[index].uid;
        self.highest_modseq = self.highest_modseq + 1;
        self.expunged.push((uid, self.highest_modseq));
        self.messages.remove(index);
        proof {
            let o = old(self).messages@;
            let n = self.messages@;
            if old(self).well_formed() {
                assert forall|i: int, j: int| 0 <= i < j < n.len() implies #[trigger] n[i].uid
                    < #[trigger] n[j].uid by {
                    let oi = if i < index { i } else { i + 1 };
                    let oj = if j < index { j } else { j + 1 };
                    assert(n[i] == o[oi] && n[j] == o[oj]);
                    assert(o[oi].uid < o[oj].uid);
                }
                assert forall|i: int| 0 <= i < n.len() implies (#[trigger] n[i]).uid < self.uid_next
                    && n[i].modseq <= self.highest_modseq by {
                    let oi = if i < index { i } else { i + 1 };
                    assert(n[i] == o[oi]);
                }
            }
        }
        Some(uid)
    }

    /// The UIDs expunged after `modseq` (for QRESYNC `VANISHED (EARLIER)`), ascending.
    pub fn vanished_since(&self, modseq: ModSeq) -> (r: Vec<Uid>)
        ensures
            r@.to_multiset() == vanished_after(self.expunged@, modseq).to_multiset(),
            forall|i: int, j: int| 0 <= i < j < r@.len() ==> r@[i] <= r@[j],
    {
        let mut out: Vec<Uid> = Vec::new();
        let mut i: usize = 0;
        while i < self.expunged.len()
            invariant
                i <= self.expunged@.len(),
                out@.to_multiset() == vanished_after(self.expunged@.take(i as int), modseq).to_multiset(),
                forall|a: int, b: int| 0 <= a < b < out@.len() ==> out@[a] <= out@[b],
            decreases self.expunged@.len() - i,
        {
            assert(self.expunged@.take(i + 1).drop_last() =~= self.expunged@.take(i as int));
            let (u, ms) = self.expunged[i];
            if ms > modseq {
                let mut p: usize = out.len();
                while p > 0 && out[p - 1] > u
                    invariant
                        p <= out@.len(),
                        forall|k: int| p <= k < out@.len() ==> out@[k] > u,
                    decreases p,
                {
                    p -= 1;
                }
                let ghost before = out@;
                out.insert(p, u);
                proof {
                    vstd::seq_lib::to_multiset_insert(before, p as int, u);
                    vstd::seq_lib::to_multiset_build(
                        vanished_after(self.expunged@.take(i as int), modseq),
                        u,
                    );
                    assert(vanished_after(self.expunged@.take(i + 1), modseq) =~= vanished_after(
                        self.expunged@.take(i as int),
                        modseq,
                    ).push(u));
                    assert forall|a: int, b: int| 0 <= a < b < out@.len() implies out@[a] <= out@[b] by {
                        if b < p {
                            assert(out@[a] == before[a] && out@[b] == before[b]);
                        } else if b == p {
                            assert(out@[a] == before[a]);
                        } else if a == p {
                            assert(out@[b] == before[b - 1]);
                        } else if a < p {
                            assert(out@[a] == before[a] && out@[b] == before[b - 1]);
                        } else {
                            assert(out@[a] == before[a - 1] && out@[b] == before[b - 1]);
                        }
                    }
                }
            } else {
                assert(vanished_after(self.expunged@.take(i + 1), modseq) =~= vanished_after(
                    self.expunged@.take(i as int),
                    modseq,
                ));
            }
            i += 1;
        }
        assert(self.expunged@.take(i as int) =~= self.expunged@);
        out
    }
}


// ---------------------------------------------------------------------------------------------
// The store
// ---------------------------------------------------------------------------------------------

/// Two strings are equal.
pub fn str_eq(a: &str, b: &str) -> (r: bool)
    ensures
        r == (a@ == b@),
{
    proof {
        vstd::utf8::encode_utf8_decode_utf8(a@);
        vstd::utf8::encode_utf8_decode_utf8(b@);
    }
    crate::bytes::bytes_eq(a.as_bytes(), b.as_bytes())
}

/// The mailbox names of a store, in order.
pub open spec fn mailbox_names_of(m: StoreView) -> Seq<Seq<char>> {
    Seq::new(m.entries.len(), |i: int| m.entries[i].0)
}

/// The `(name, highest modseq)` pairs of the named mailboxes that are in the store.
pub open spec fn state_pairs(m: StoreView, names: Seq<Seq<char>>) -> Seq<(Seq<u8>, u64)>
    decreases names.len(),
{
    if names.len() == 0 {
        seq![]
    } else {
        let p = state_pairs(m, names.drop_last());
        match lookup(m, names.last()) {
            Some(b) => p.push((crate::bytes::utf8(names.last()), b.highest_modseq)),
            None => p,
        }
    }
}

/// The JMAP state token of a store: every mailbox's highest modseq, as a sorted state map.
pub open spec fn state_token(m: StoreView) -> Seq<u8> {
    encode_token(map_from(state_pairs(m, mailbox_names_of(m))))
}

/// The operations every protocol view needs; a node backs this with its encrypted store and
/// [`MemoryStore`] is the in-memory reference. The JMAP change-log methods are derived from the
/// per-mailbox modseqs and the vanished logs alone.
pub trait MailStore {
    /// The mailboxes, in order, as the store holds them.
    spec fn model(&self) -> StoreView;

    /// The mailbox names, in order.
    fn mailbox_names(&self) -> (r: Vec<String>)
        ensures
            r@.len() == self.model().entries.len(),
            forall|i: int| 0 <= i < r@.len() ==> (#[trigger] r@[i])@ == self.model().entries[i].0;

    /// The mailbox named `name`.
    fn mailbox(&self, name: &str) -> (r: Option<&Mailbox>)
        ensures
            match lookup(self.model(), name@) {
                Some(b) => r == Some(&b),
                None => r is None,
            };

    /// The mailbox named `name`, for changing it in place.
    fn mailbox_mut(&mut self, name: &str) -> (r: Option<&mut Mailbox>)
        ensures
            match lookup(old(self).model(), name@) {
                Some(b) => r matches Some(m) && *m == b && final(self).model().entries == put_box(
                    old(self).model(),
                    name@,
                    *final(m),
                ).entries && final(self).model().next_uid_validity == old(self).model().next_uid_validity,
                None => r is None && final(self).model() == old(self).model(),
            };

    /// Create a mailbox; `AlreadyExists` when the name is taken.
    fn create(&mut self, name: &str) -> (r: Result<(), StoreError>)
        ensures
            create_post(old(self).model(), name@, final(self).model(), r);

    /// Delete a mailbox; INBOX cannot be deleted.
    fn delete(&mut self, name: &str) -> (r: Result<(), StoreError>)
        ensures
            delete_post(old(self).model(), name@, final(self).model(), r);

    /// Rename a mailbox; INBOX cannot be renamed, nor onto a taken name.
    fn rename(&mut self, from: &str, to: &str) -> (r: Result<(), StoreError>)
        ensures
            rename_post(old(self).model(), from@, to@, final(self).model(), r);

    /// The opaque JMAP state token (RFC 8620 §1.3): every mailbox's highest modseq, as a sorted
    /// state map in base64.
    fn jmap_state(&self) -> (r: String)
        ensures
            exists|pairs: Seq<(Seq<u8>, u64)>| crate::bytes::utf8(r@) == encode_token(#[trigger] map_from(pairs)),
            crate::bytes::utf8(r@) == state_token(self.model()),
    {
        let names = self.mailbox_names();
        let ghost ns = mailbox_names_of(self.model());
        assert(ns.take(0) =~= Seq::<Seq<char>>::empty());
        assert(map_view(Seq::<(String, u64)>::empty()) =~= Seq::<(Seq<u8>, u64)>::empty());
        let mut pairs: Vec<(String, u64)> = Vec::new();
        let mut i: usize = 0;
        while i < names.len()
            invariant
                i <= names@.len(),
                names@.len() == ns.len(),
                ns == mailbox_names_of(self.model()),
                forall|k: int| 0 <= k < names@.len() ==> (#[trigger] names@[k])@ == ns[k],
                map_view(pairs@) == state_pairs(self.model(), ns.take(i as int)),
            decreases names@.len() - i,
        {
            assert(ns.take(i + 1).drop_last() =~= ns.take(i as int));
            assert(ns.take(i + 1).last() == names@[i as int]@);
            let ghost before = pairs@;
            match self.mailbox(names[i].as_str()) {
                Some(mb) => {
                    pairs.push((names[i].clone(), mb.highest_modseq));
                    assert(map_view(pairs@) =~= map_view(before).push(
                        (crate::bytes::utf8(names@[i as int]@), mb.highest_modseq),
                    ));
                },
                None => {},
            }
            i += 1;
        }
        assert(ns.take(ns.len() as int) =~= ns);
        let map = state_map_of(&pairs);
        let r = encode_state_map(&map);
        assert(crate::bytes::utf8(r@) == encode_token(map_from(map_view(pairs@))));
        r
    }

    /// A JMAP `/changes` delta for `obj` since the state token `since`; `None` only when the
    /// token does not read back. For emails, a message whose modseq moved past the mailbox's old
    /// modseq is created or updated by its create-modseq, and an expunge after it is destroyed;
    /// for mailboxes, names are compared between the old and the current state maps.
    fn jmap_changes(&self, obj: JmapObj, since: &str) -> (r: Option<JmapChanges>)
        ensures
            decode_token(crate::bytes::lit(since)) is None ==> r is None,
            decode_token(crate::bytes::lit(since)) is Some ==> (r matches Some(c) && c.old_state@ == since@ && !c.has_more
                && exists|pairs: Seq<(Seq<u8>, u64)>| crate::bytes::utf8(c.new_state@) == encode_token(
                #[trigger] map_from(pairs),
            )),
    {
        let before = match decode_state_map(since) {
            Some(m) => m,
            None => return None,
        };
        let new_state = self.jmap_state();
        let mut created: Vec<String> = Vec::new();
        let mut updated: Vec<String> = Vec::new();
        let mut destroyed: Vec<String> = Vec::new();
        match obj {
            JmapObj::Mailbox => {
                let names = self.mailbox_names();
                let mut pairs: Vec<(String, u64)> = Vec::new();
                let mut i: usize = 0;
                while i < names.len()
                    invariant
                        i <= names@.len(),
                    decreases names@.len() - i,
                {
                    match self.mailbox(names[i].as_str()) {
                        Some(mb) => pairs.push((names[i].clone(), mb.highest_modseq)),
                        None => {},
                    }
                    i += 1;
                }
                let current = state_map_of(&pairs);
                let (c, u, d) = mailbox_changes(&before, &current);
                created = c;
                updated = u;
                destroyed = d;
            },
            _ => {
                let names = self.mailbox_names();
                let mut i: usize = 0;
                while i < names.len()
                    invariant
                        i <= names@.len(),
                    decreases names@.len() - i,
                {
                    match self.mailbox(names[i].as_str()) {
                        Some(mb) => {
                            let old_ms = match state_get(&before, names[i].as_str()) {
                                Some(x) => x,
                                None => 0,
                            };
                            collect_email_changes(
                                names[i].as_str(),
                                mb,
                                old_ms,
                                &mut created,
                                &mut updated,
                                &mut destroyed,
                            );
                        },
                        None => {},
                    }
                    i += 1;
                }
            },
        }
        Some(
            JmapChanges {
                old_state: since.to_owned(),
                new_state,
                created,
                updated,
                destroyed,
                has_more: false,
            },
        )
    }
}


/// The state of a [`MemoryStore`]: its mailboxes keyed by name in creation order, and the
/// UIDVALIDITY the next created mailbox draws.
pub struct StoreView {
    pub entries: Seq<(Seq<char>, Mailbox)>,
    pub next_uid_validity: u32,
}

/// The index of the first entry with key `name`, or -1.
pub open spec fn key_index(entries: Seq<(Seq<char>, Mailbox)>, name: Seq<char>, i: int) -> int
    decreases entries.len() - i,
{
    if i < 0 || i >= entries.len() {
        -1
    } else if entries[i].0 == name {
        i
    } else {
        key_index(entries, name, i + 1)
    }
}

/// The entry for `name`, if any.
pub open spec fn lookup(s: StoreView, name: Seq<char>) -> Option<Mailbox> {
    let k = key_index(s.entries, name, 0);
    if k >= 0 {
        Some(s.entries[k].1)
    } else {
        None
    }
}

/// The store with the mailbox `name` (which it holds) replaced by `b`.
pub open spec fn put_box(s: StoreView, name: Seq<char>, b: Mailbox) -> StoreView {
    let k = key_index(s.entries, name, 0);
    StoreView { entries: s.entries.update(k, (s.entries[k].0, b)), ..s }
}

/// A freshly created, empty mailbox named `name` with the given UIDVALIDITY.
pub open spec fn fresh_box(b: Mailbox, name: Seq<char>, uid_validity: u32) -> bool {
    &&& b.name@ == name
    &&& b.special_use is None
    &&& b.uid_validity == uid_validity
    &&& b.uid_next == 1
    &&& b.highest_modseq == 1
    &&& b.subscribed
    &&& b.messages@.len() == 0
    &&& b.expunged@.len() == 0
}

/// Whether `name` is INBOX, in any case.
pub open spec fn is_inbox(name: Seq<char>) -> bool {
    crate::bytes::eq_ci_spec(crate::bytes::utf8(name), crate::bytes::lit("INBOX"))
}

/// CREATE: refused when the name is taken; otherwise an empty mailbox is added last, drawing
/// the next UIDVALIDITY.
pub open spec fn create_post(
    s: StoreView,
    name: Seq<char>,
    t: StoreView,
    r: Result<(), StoreError>,
) -> bool {
    if lookup(s, name) is Some {
        r == Err::<(), StoreError>(StoreError::AlreadyExists) && t == s
    } else {
        &&& r is Ok
        &&& t.entries.len() == s.entries.len() + 1
        &&& t.entries.drop_last() == s.entries
        &&& t.entries.last().0 == name
        &&& fresh_box(t.entries.last().1, name, s.next_uid_validity)
        &&& t.next_uid_validity == (if s.next_uid_validity == u32::MAX {
            0
        } else {
            (s.next_uid_validity + 1) as u32
        })
    }
}

/// DELETE: INBOX (in any case) is refused, an unknown name is refused, otherwise the entry is
/// removed; the UIDVALIDITY allocator is untouched.
pub open spec fn delete_post(
    s: StoreView,
    name: Seq<char>,
    t: StoreView,
    r: Result<(), StoreError>,
) -> bool {
    if is_inbox(name) {
        r == Err::<(), StoreError>(StoreError::InboxImmutable) && t == s
    } else if lookup(s, name) is None {
        r == Err::<(), StoreError>(StoreError::NoSuchMailbox) && t == s
    } else {
        &&& r is Ok
        &&& t.entries == s.entries.remove(key_index(s.entries, name, 0))
        &&& t.next_uid_validity == s.next_uid_validity
    }
}

/// RENAME: INBOX is refused, a taken target is refused, an unknown source is refused;
/// otherwise the entry keeps its place and its UIDVALIDITY and takes the new name.
pub open spec fn rename_post(
    s: StoreView,
    from: Seq<char>,
    to: Seq<char>,
    t: StoreView,
    r: Result<(), StoreError>,
) -> bool {
    if is_inbox(from) {
        r == Err::<(), StoreError>(StoreError::InboxImmutable) && t == s
    } else if lookup(s, to) is Some {
        r == Err::<(), StoreError>(StoreError::AlreadyExists) && t == s
    } else if lookup(s, from) is None {
        r == Err::<(), StoreError>(StoreError::NoSuchMailbox) && t == s
    } else {
        let k = key_index(s.entries, from, 0);
        &&& r is Ok
        &&& t.entries.len() == s.entries.len()
        &&& t.next_uid_validity == s.next_uid_validity
        &&& forall|j: int| 0 <= j < s.entries.len() && j != k ==> #[trigger] t.entries[j] == s.entries[j]
        &&& t.entries[k].0 == to
        &&& t.entries[k].1.name@ == to
        &&& t.entries[k].1.uid_validity == s.entries[k].1.uid_validity
        &&& t.entries[k].1.messages == s.entries[k].1.messages
    }
}

/// In-memory reference store: INBOX and the SPECIAL-USE folders up front, UIDVALIDITY drawn
/// from a counter that only grows (wrapping at the top), so a recreated name never reuses a
/// prior UIDVALIDITY.
pub struct MemoryStore {
    entries: Vec<(String, Mailbox)>,
    next_uid_validity: u32,
}

impl View for MemoryStore {
    type V = StoreView;

    closed spec fn view(&self) -> StoreView {
        StoreView {
            entries: self.entries@.map_values(|e: (String, Mailbox)| (e.0@, e.1)),
            next_uid_validity: self.next_uid_validity,
        }
    }
}

impl MemoryStore {
    fn find(&self, name: &str) -> (r: Option<usize>)
        ensures
            match r {
                Some(i) => i < self@.entries.len() && key_index(self@.entries, name@, 0) == i,
                None => key_index(self@.entries, name@, 0) == -1,
            },
    {
        let mut i: usize = 0;
        while i < self.entries.len()
            invariant
                i <= self.entries@.len(),
                self@.entries.len() == self.entries@.len(),
                key_index(self@.entries, name@, i as int) == key_index(self@.entries, name@, 0),
            decreases self.entries@.len() - i,
        {
            assert(self@.entries[i as int].0 == self.entries@[i as int].0@);
            if str_eq(self.entries[i].0.as_str(), name) {
                return Some(i);
            }
            i += 1;
        }
        None
    }

    /// Add a created mailbox, drawing the next UIDVALIDITY.
    fn insert_fresh(&mut self, name: &str, special_use: Option<SpecialUse>)
        ensures
            final(self)@.entries.len() == old(self)@.entries.len() + 1,
            final(self)@.entries.drop_last() == old(self)@.entries,
            final(self)@.entries.last().0 == name@,
            final(self)@.entries.last().1.name@ == name@,
            final(self)@.entries.last().1.special_use == special_use,
            final(self)@.entries.last().1.uid_validity == old(self)@.next_uid_validity,
            final(self)@.entries.last().1.uid_next == 1,
            final(self)@.entries.last().1.highest_modseq == 1,
            final(self)@.entries.last().1.subscribed,
            final(self)@.entries.last().1.messages@.len() == 0,
            final(self)@.entries.last().1.expunged@.len() == 0,
            final(self)@.next_uid_validity == (if old(self)@.next_uid_validity == u32::MAX {
                0
            } else {
                (old(self)@.next_uid_validity + 1) as u32
            }),
    {
        let mut mb = Mailbox::new(name, special_use);
        mb.uid_validity = self.next_uid_validity;
        self.next_uid_validity = self.next_uid_validity.wrapping_add(1);
        self.entries.push((name.to_owned(), mb));
        assert(self@.entries.drop_last() =~= old(self)@.entries);
    }

    /// A store with INBOX and the SPECIAL-USE folders Sent, Drafts, Trash, Junk, Archive, in
    /// that order, with UIDVALIDITY 1 to 6.
    pub fn new() -> (r: MemoryStore)
        ensures
            r@.entries.len() == 6,
            r@.entries[0].0 == "INBOX"@ && r@.entries[0].1.special_use == Some(SpecialUse::Inbox),
            r@.entries[1].0 == "Sent"@ && r@.entries[1].1.special_use == Some(SpecialUse::Sent),
            r@.entries[2].0 == "Drafts"@ && r@.entries[2].1.special_use == Some(SpecialUse::Drafts),
            r@.entries[3].0 == "Trash"@ && r@.entries[3].1.special_use == Some(SpecialUse::Trash),
            r@.entries[4].0 == "Junk"@ && r@.entries[4].1.special_use == Some(SpecialUse::Junk),
            r@.entries[5].0 == "Archive"@ && r@.entries[5].1.special_use == Some(SpecialUse::Archive),
            forall|i: int| 0 <= i < 6 ==> (#[trigger] r@.entries[i]).1.uid_validity == i + 1
                && r@.entries[i].1.messages@.len() == 0 && r@.entries[i].1.name@ == r@.entries[i].0
                && r@.entries[i].1.uid_next == 1 && r@.entries[i].1.highest_modseq == 1
                && r@.entries[i].1.subscribed && r@.entries[i].1.expunged@.len() == 0,
            r@.next_uid_validity == 7,
    {
        let mut s = MemoryStore { entries: Vec::new(), next_uid_validity: 1 };
        s.insert_fresh("INBOX", Some(SpecialUse::Inbox));
        s.insert_fresh("Sent", Some(SpecialUse::Sent));
        s.insert_fresh("Drafts", Some(SpecialUse::Drafts));
        s.insert_fresh("Trash", Some(SpecialUse::Trash));
        s.insert_fresh("Junk", Some(SpecialUse::Junk));
        s.insert_fresh("Archive", Some(SpecialUse::Archive));
        s
    }

    /// A store with INBOX only (UIDVALIDITY 1).
    pub fn empty() -> (r: MemoryStore)
        ensures
            r@.entries.len() == 1,
            r@.entries[0].0 == "INBOX"@,
            r@.entries[0].1.special_use == Some(SpecialUse::Inbox),
            r@.entries[0].1.uid_validity == 1,
            r@.entries[0].1.messages@.len() == 0,
            r@.entries[0].1.name@ == "INBOX"@,
            r@.entries[0].1.uid_next == 1,
            r@.entries[0].1.highest_modseq == 1,
            r@.entries[0].1.subscribed,
            r@.entries[0].1.expunged@.len() == 0,
            r@.next_uid_validity == 2,
    {
        let mut s = MemoryStore { entries: Vec::new(), next_uid_validity: 1 };
        s.insert_fresh("INBOX", Some(SpecialUse::Inbox));
        s
    }

    /// Project a decrypted message, rendered to RFC 5322 bytes, into `mailbox` with `\Recent`.
    /// A message marked sensitive is handed back for an ephemeral view and never written: the
    /// check comes before the mailbox is touched.
    pub fn deliver_mote(
        &mut self,
        raw: Vec<u8>,
        sensitive: Option<bool>,
        mailbox: &str,
        ts: TimestampMs,
    ) -> (r: Delivery)
        requires
            lookup(old(self)@, mailbox@) matches Some(b) ==> b.uid_next < u32::MAX
                && b.highest_modseq < u64::MAX,
        ensures
            sensitive == Some(true) ==> (r matches Delivery::Ephemeral(b) && b@ == raw@)
                && final(self)@ == old(self)@,
            sensitive != Some(true) && lookup(old(self)@, mailbox@) is None ==> r is NoSuchMailbox
                && final(self)@ == old(self)@,
            sensitive != Some(true) ==> (lookup(old(self)@, mailbox@) matches Some(b) ==> ({
                let k = key_index(old(self)@.entries, mailbox@, 0);
                let nb = final(self)@.entries[k].1;
                &&& r == Delivery::Stored(b.uid_next)
                &&& final(self)@.entries.len() == old(self)@.entries.len()
                &&& forall|j: int|
                    0 <= j < old(self)@.entries.len() && j != k ==> #[trigger] final(self)@.entries[j]
                        == old(self)@.entries[j]
                &&& final(self)@.entries[k].0 == mailbox@
                &&& nb.messages@.drop_last() == b.messages@
                &&& nb.messages@.last().uid == b.uid_next
                &&& nb.messages@.last().raw@ == raw@
                &&& nb.messages@.last().flags@ == seq![Flag::Recent]
            })),
    {
        if let Some(true) = sensitive {
            return Delivery::Ephemeral(raw);
        }
        let flags = vec![Flag::Recent];
        match self.deliver_raw(mailbox, raw, flags, ts) {
            Some(uid) => Delivery::Stored(uid),
            None => Delivery::NoSuchMailbox,
        }
    }

    /// File raw RFC 5322 bytes (an SMTP submission, an IMAP APPEND) into a mailbox; `None` when
    /// there is no such mailbox.
    pub fn deliver_raw(
        &mut self,
        mailbox: &str,
        raw: Vec<u8>,
        flags: Vec<Flag>,
        internal_date: TimestampMs,
    ) -> (r: Option<Uid>)
        requires
            lookup(old(self)@, mailbox@) matches Some(b) ==> b.uid_next < u32::MAX
                && b.highest_modseq < u64::MAX,
        ensures
            lookup(old(self)@, mailbox@) is None ==> r is None && final(self)@ == old(self)@,
            lookup(old(self)@, mailbox@) matches Some(b) ==> ({
                let k = key_index(old(self)@.entries, mailbox@, 0);
                let nb = final(self)@.entries[k].1;
                &&& r == Some(b.uid_next)
                &&& final(self)@.next_uid_validity == old(self)@.next_uid_validity
                &&& final(self)@.entries.len() == old(self)@.entries.len()
                &&& forall|j: int|
                    0 <= j < old(self)@.entries.len() && j != k ==> #[trigger] final(self)@.entries[j]
                        == old(self)@.entries[j]
                &&& final(self)@.entries[k].0 == mailbox@
                &&& nb.uid_next == b.uid_next + 1
                &&& nb.messages@.drop_last() == b.messages@
                &&& nb.messages@.last().uid == b.uid_next
                &&& nb.messages@.last().raw@ == raw@
                &&& nb.messages@.last().flags@ == flags@
                &&& b.well_formed() ==> nb.well_formed()
            }),
    {
        match self.find(mailbox) {
            None => None,
            Some(k) => {
                let ghost before = self@;
                proof {
                    lemma_key_index(before.entries, mailbox@, 0);
                }
                let mut entry = self.entries.remove(k);
                assert(entry.1 == before.entries[k as int].1);
                assert(entry.0@ == before.entries[k as int].0);
                let uid = entry.1.append(raw, flags, internal_date);
                let ghost e2 = entry;
                self.entries.insert(k, entry);
                assert(self.entries@[k as int] == e2);
                assert(self@.entries[k as int] == (e2.0@, e2.1));
                proof {
                    assert forall|j: int| 0 <= j < before.entries.len() && j != k implies #[trigger] self@.entries[j]
                        == before.entries[j] by {
                        if j < k {
                            assert(self.entries@[j] == old(self).entries@[j]);
                        } else {
                            assert(self.entries@[j] == old(self).entries@[j]);
                        }
                    }
                }
                Some(uid)
            },
        }
    }

    /// The first mailbox (in creation order) with a SPECIAL-USE role.
    pub fn by_role(&self, role: SpecialUse) -> (r: Option<&str>)
        ensures
            match r {
                Some(n) => exists|k: int|
                    0 <= k < self@.entries.len() && self@.entries[k].0 == n@
                        && self@.entries[k].1.special_use == Some(role) && forall|j: int|
                        0 <= j < k ==> (#[trigger] self@.entries[j]).1.special_use != Some(role),
                None => forall|j: int|
                    0 <= j < self@.entries.len() ==> (#[trigger] self@.entries[j]).1.special_use
                        != Some(role),
            },
    {
        let mut i: usize = 0;
        while i < self.entries.len()
            invariant
                i <= self.entries@.len(),
                self@.entries.len() == self.entries@.len(),
                forall|j: int| 0 <= j < i ==> (#[trigger] self@.entries[j]).1.special_use != Some(role),
            decreases self.entries@.len() - i,
        {
            assert(self@.entries[i as int].1 == self.entries@[i as int].1);
            if self.entries[i].1.special_use == Some(role) {
                return Some(self.entries[i].0.as_str());
            }
            i += 1;
        }
        None
    }
}

impl MailStore for MemoryStore {
    open spec fn model(&self) -> StoreView {
        self@
    }

    /// The mailbox names in creation order.
    fn mailbox_names(&self) -> (r: Vec<String>)
        ensures
            r@.len() == self@.entries.len(),
            forall|i: int| 0 <= i < r@.len() ==> (#[trigger] r@[i])@ == self@.entries[i].0,
    {
        assert(self.model() == self@);
        let mut out: Vec<String> = Vec::new();
        let mut i: usize = 0;
        while i < self.entries.len()
            invariant
                i <= self.entries@.len(),
                self@.entries.len() == self.entries@.len(),
                out@.len() == i,
                forall|j: int| 0 <= j < i ==> (#[trigger] out@[j])@ == self@.entries[j].0,
            decreases self.entries@.len() - i,
        {
            assert(self@.entries[i as int].0 == self.entries@[i as int].0@);
            out.push(self.entries[i].0.clone());
            i += 1;
        }
        out
    }

    /// The mailbox named `name`.
    fn mailbox(&self, name: &str) -> (r: Option<&Mailbox>)
        ensures
            match lookup(self@, name@) {
                Some(b) => r == Some(&b),
                None => r is None,
            },
    {
        assert(self.model() == self@);
        match self.find(name) {
            Some(k) => Some(&self.entries[k].1),
            None => None,
        }
    }

    /// The mailbox named `name`, for changing it in place.
    fn mailbox_mut(&mut self, name: &str) -> (r: Option<&mut Mailbox>)
        ensures
            match lookup(old(self)@, name@) {
                Some(b) => r matches Some(m) && *m == b && final(self)@.entries == put_box(
                    old(self)@,
                    name@,
                    *final(m),
                ).entries && final(self)@.next_uid_validity == old(self)@.next_uid_validity,
                None => r is None && final(self)@ == old(self)@,
            },
    {
        match self.find(name) {
            Some(k) => {
                Some(&mut self.entries[k].1)
            },
            None => None,
        }
    }

    fn create(&mut self, name: &str) -> (r: Result<(), StoreError>)
        ensures
            create_post(old(self)@, name@, final(self)@, r),
    {
        if self.find(name).is_some() {
            return Err(StoreError::AlreadyExists);
        }
        self.insert_fresh(name, None);
        Ok(())
    }

    fn delete(&mut self, name: &str) -> (r: Result<(), StoreError>)
        ensures
            delete_post(old(self)@, name@, final(self)@, r),
    {
        if crate::bytes::eq_ci(name.as_bytes(), "INBOX".as_bytes()) {
            return Err(StoreError::InboxImmutable);
        }
        match self.find(name) {
            None => Err(StoreError::NoSuchMailbox),
            Some(k) => {
                self.entries.remove(k);
                assert(self@.entries =~= old(self)@.entries.remove(k as int));
                Ok(())
            },
        }
    }

    fn rename(&mut self, from: &str, to: &str) -> (r: Result<(), StoreError>)
        ensures
            rename_post(old(self)@, from@, to@, final(self)@, r),
    {
        if crate::bytes::eq_ci(from.as_bytes(), "INBOX".as_bytes()) {
            return Err(StoreError::InboxImmutable);
        }
        if self.find(to).is_some() {
            return Err(StoreError::AlreadyExists);
        }
        match self.find(from) {
            None => Err(StoreError::NoSuchMailbox),
            Some(k) => {
                let mut entry = self.entries.remove(k);
                entry.0 = to.to_owned();
                entry.1.name = to.to_owned();
                self.entries.insert(k, entry);
                proof {
                    assert forall|j: int| 0 <= j < old(self)@.entries.len() && j != k implies #[trigger] self@.entries[j]
                        == old(self)@.entries[j] by {
                        assert(self.entries@[j] == old(self).entries@[j]);
                    }
                }
                Ok(())
            },
        }
    }
}

/// Every UIDVALIDITY handed out is below the allocator.
pub open spec fn allocator_fresh(s: StoreView) -> bool {
    forall|i: int| 0 <= i < s.entries.len() ==> (#[trigger] s.entries[i]).1.uid_validity
        < s.next_uid_validity
}

/// A mailbox recreated under a deleted name advertises a strictly larger UIDVALIDITY than the
/// one deleted (while the allocator has not wrapped), so a client's cached (UIDVALIDITY, UID)
/// pairs can never be taken for the new mailbox's.
pub proof fn recreated_mailbox_gets_fresh_uid_validity(
    s0: StoreView,
    s1: StoreView,
    s2: StoreView,
    name: Seq<char>,
)
    requires
        allocator_fresh(s0),
        lookup(s0, name) is Some,
        delete_post(s0, name, s1, Ok(())),
        create_post(s1, name, s2, Ok(())),
    ensures
        lookup(s2, name) matches Some(b) && b.uid_validity > lookup(s0, name)->0.uid_validity,
{
    let k = key_index(s0.entries, name, 0);
    lemma_key_index(s0.entries, name, 0);
    assert(s0.entries[k].1.uid_validity < s0.next_uid_validity);
    lemma_key_index(s2.entries, name, 0);
    lemma_key_index(s1.entries, name, 0);
    let k2 = key_index(s2.entries, name, 0);
    let last = s2.entries.len() - 1;
    assert(s2.entries[last].0 == name);
    if k2 != last {
        assert(k2 < last);
        assert(s2.entries[k2] == s1.entries[k2]);
        assert(false);
    }
}

/// The allocator stays ahead of every UIDVALIDITY it handed out through CREATE, DELETE and
/// RENAME, as long as it has not wrapped.
pub proof fn operations_keep_allocator_fresh(
    s: StoreView,
    t: StoreView,
    a: Seq<char>,
    b: Seq<char>,
    r: Result<(), StoreError>,
)
    requires
        allocator_fresh(s),
        s.next_uid_validity < u32::MAX,
        create_post(s, a, t, r) || delete_post(s, a, t, r) || rename_post(s, a, b, t, r),
    ensures
        allocator_fresh(t),
        t.next_uid_validity >= s.next_uid_validity,
{
    if create_post(s, a, t, r) && r is Ok {
        assert forall|i: int| 0 <= i < t.entries.len() implies (#[trigger] t.entries[i]).1.uid_validity
            < t.next_uid_validity by {
            if i < s.entries.len() {
                assert(t.entries[i] == t.entries.drop_last()[i]);
            }
        }
    } else if delete_post(s, a, t, r) && r is Ok {
        let k = key_index(s.entries, a, 0);
        lemma_key_index(s.entries, a, 0);
        assert forall|i: int| 0 <= i < t.entries.len() implies (#[trigger] t.entries[i]).1.uid_validity
            < t.next_uid_validity by {
            if i < k {
                assert(t.entries[i] == s.entries[i]);
            } else {
                assert(t.entries[i] == s.entries[i + 1]);
            }
        }
    } else if rename_post(s, a, b, t, r) && r is Ok {
        let k = key_index(s.entries, a, 0);
        lemma_key_index(s.entries, a, 0);
        assert forall|i: int| 0 <= i < t.entries.len() implies (#[trigger] t.entries[i]).1.uid_validity
            < t.next_uid_validity by {
            if i != k {
                assert(t.entries[i] == s.entries[i]);
            }
        }
    }
}

/// `key_index` finds the first entry with the key, or none at all.
pub proof fn lemma_key_index(entries: Seq<(Seq<char>, Mailbox)>, name: Seq<char>, i: int)
    requires
        0 <= i,
    ensures
        key_index(entries, name, i) == -1 || (i <= key_index(entries, name, i) < entries.len()
            && entries[key_index(entries, name, i)].0 == name),
        key_index(entries, name, i) == -1 ==> forall|j: int|
            i <= j < entries.len() ==> (#[trigger] entries[j]).0 != name,
        key_index(entries, name, i) >= 0 ==> forall|j: int|
            i <= j < key_index(entries, name, i) ==> (#[trigger] entries[j]).0 != name,
    decreases entries.len() - i,
{
    if i < entries.len() && entries[i].0 != name {
        lemma_key_index(entries, name, i + 1);
    }
}


// ---------------------------------------------------------------------------------------------
// JMAP state tokens
// ---------------------------------------------------------------------------------------------

/// Byte-wise lexicographic order, the order of `str`.
pub open spec fn lex_lt(a: Seq<u8>, b: Seq<u8>) -> bool
    decreases a.len(),
{
    if a.len() == 0 {
        b.len() > 0
    } else if b.len() == 0 {
        false
    } else if a[0] != b[0] {
        a[0] < b[0]
    } else {
        lex_lt(a.drop_first(), b.drop_first())
    }
}

pub proof fn lemma_lex_asym(a: Seq<u8>, b: Seq<u8>)
    ensures
        lex_lt(a, b) ==> !lex_lt(b, a) && a != b,
    decreases a.len(),
{
    if a.len() > 0 && b.len() > 0 && a[0] == b[0] {
        lemma_lex_asym(a.drop_first(), b.drop_first());
        if a == b {
            assert(a.drop_first() == b.drop_first());
        }
    }
}

/// A state map: `(mailbox name, modseq)` pairs with strictly ascending names, as a sorted map
/// keeps them.
pub open spec fn sorted_map(m: Seq<(Seq<u8>, u64)>) -> bool {
    forall|i: int, j: int| 0 <= i < j < m.len() ==> lex_lt(#[trigger] m[i].0, #[trigger] m[j].0)
}

/// A sorted-map insert: an existing key takes the new value, a new key goes into its place.
pub open spec fn map_insert(m: Seq<(Seq<u8>, u64)>, k: Seq<u8>, v: u64) -> Seq<(Seq<u8>, u64)>
    decreases m.len(),
{
    if m.len() == 0 {
        seq![(k, v)]
    } else if m[0].0 == k {
        m.update(0, (k, v))
    } else if lex_lt(k, m[0].0) {
        seq![(k, v)] + m
    } else {
        seq![m[0]] + map_insert(m.drop_first(), k, v)
    }
}

/// Four bytes, big-endian.
pub open spec fn be32(n: u32) -> Seq<u8> {
    seq![(n >> 24u32) as u8, (n >> 16u32) as u8, (n >> 8u32) as u8, n as u8]
}

/// Eight bytes, big-endian.
pub open spec fn be64(n: u64) -> Seq<u8> {
    seq![
        (n >> 56u64) as u8,
        (n >> 48u64) as u8,
        (n >> 40u64) as u8,
        (n >> 32u64) as u8,
        (n >> 24u64) as u8,
        (n >> 16u64) as u8,
        (n >> 8u64) as u8,
        n as u8,
    ]
}

pub open spec fn be32_val(b: Seq<u8>) -> u32 {
    ((b[0] as u32) << 24u32) | ((b[1] as u32) << 16u32) | ((b[2] as u32) << 8u32) | (b[3] as u32)
}

pub open spec fn be64_val(b: Seq<u8>) -> u64 {
    ((b[0] as u64) << 56u64) | ((b[1] as u64) << 48u64) | ((b[2] as u64) << 40u64) | ((b[3] as u64)
        << 32u64) | ((b[4] as u64) << 24u64) | ((b[5] as u64) << 16u64) | ((b[6] as u64) << 8u64)
        | (b[7] as u64)
}

proof fn lemma_be_round_trip(n: u32, w: u64)
    ensures
        be32_val(be32(n)) == n,
        be64_val(be64(w)) == w,
{
    let b = be32(n);
    assert(((((n >> 24u32) as u8) as u32) << 24u32) | ((((n >> 16u32) as u8) as u32) << 16u32) | ((((n
        >> 8u32) as u8) as u32) << 8u32) | ((n as u8) as u32) == n) by (bit_vector);
    let c = be64(w);
    assert(((((w >> 56u64) as u8) as u64) << 56u64) | ((((w >> 48u64) as u8) as u64) << 48u64) | ((((w
        >> 40u64) as u8) as u64) << 40u64) | ((((w >> 32u64) as u8) as u64) << 32u64) | ((((w >> 24u64)
        as u8) as u64) << 24u64) | ((((w >> 16u64) as u8) as u64) << 16u64) | ((((w >> 8u64) as u8)
        as u64) << 8u64) | ((w as u8) as u64) == w) by (bit_vector);
}

/// The token bytes of a state map: each entry as its name's length (four bytes, big-endian),
/// the name, and the modseq (eight bytes, big-endian).
pub open spec fn encode_entries(m: Seq<(Seq<u8>, u64)>) -> Seq<u8>
    decreases m.len(),
{
    if m.len() == 0 {
        seq![]
    } else {
        encode_entries(m.drop_last()) + be32(m.last().0.len() as u32) + m.last().0 + be64(m.last().1)
    }
}

/// The opaque JMAP state token of a state map: its bytes in base64.
pub open spec fn encode_token(m: Seq<(Seq<u8>, u64)>) -> Seq<u8> {
    crate::base64::b64_encode_spec(encode_entries(m))
}

/// Read entries from `b[i..]` into `m`; `None` on a truncated entry or a name that is not
/// UTF-8.
pub open spec fn parse_entries(b: Seq<u8>, i: int, m: Seq<(Seq<u8>, u64)>) -> Option<
    Seq<(Seq<u8>, u64)>,
>
    decreases b.len() - i,
{
    if i < 0 || i >= b.len() {
        Some(m)
    } else if i + 4 > b.len() {
        None
    } else {
        let n = be32_val(b.subrange(i, i + 4)) as int;
        if i + 4 + n + 8 > b.len() {
            None
        } else {
            let name = b.subrange(i + 4, i + 4 + n);
            if !vstd::utf8::valid_utf8(name) {
                None
            } else {
                parse_entries(
                    b,
                    i + 12 + n,
                    map_insert(m, name, be64_val(b.subrange(i + 4 + n, i + 12 + n))),
                )
            }
        }
    }
}

/// A state token read back: the empty token and `0` are the genesis state (no mailboxes);
/// anything else must be base64 of whole entries.
pub open spec fn decode_token(t: Seq<u8>) -> Option<Seq<(Seq<u8>, u64)>> {
    if t.len() == 0 || t == seq![48u8] {
        Some(seq![])
    } else {
        match crate::base64::b64_decode_spec(t) {
            Some(b) => parse_entries(b, 0, seq![]),
            None => None,
        }
    }
}

proof fn lemma_insert_last(m: Seq<(Seq<u8>, u64)>, k: Seq<u8>, v: u64)
    requires
        sorted_map(m),
        forall|i: int| 0 <= i < m.len() ==> lex_lt(#[trigger] m[i].0, k),
    ensures
        map_insert(m, k, v) == m.push((k, v)),
    decreases m.len(),
{
    if m.len() > 0 {
        lemma_lex_asym(m[0].0, k);
        let r = m.drop_first();
        assert forall|i: int, j: int| 0 <= i < j < r.len() implies lex_lt(#[trigger] r[i].0, #[trigger] r[j].0) by {
            assert(r[i] == m[i + 1] && r[j] == m[j + 1]);
        }
        assert forall|i: int| 0 <= i < r.len() implies lex_lt(#[trigger] r[i].0, k) by {
            assert(r[i] == m[i + 1]);
        }
        lemma_insert_last(r, k, v);
        assert(seq![m[0]] + r.push((k, v)) =~= m.push((k, v)));
    }
}

#[verifier::rlimit(40)]
#[verifier::spinoff_prover]
proof fn lemma_parse_encoded(m: Seq<(Seq<u8>, u64)>, j: int)
    requires
        sorted_map(m),
        0 <= j <= m.len(),
        forall|i: int| 0 <= i < m.len() ==> (#[trigger] m[i].0).len() < 0x1_0000_0000,
        forall|i: int| 0 <= i < m.len() ==> vstd::utf8::valid_utf8(#[trigger] m[i].0),
    ensures
        parse_entries(encode_entries(m), encode_entries(m.take(j)).len() as int, m.take(j)) == Some(m),
    decreases m.len() - j,
{
    let b = encode_entries(m);
    lemma_encode_prefix(m, j);
    if j == m.len() {
        assert(m.take(j) =~= m);
    } else {
        let e = m[j];
        let p = encode_entries(m.take(j)).len() as int;
        lemma_encode_prefix(m, j + 1);
        assert(m.take(j + 1).drop_last() =~= m.take(j));
        assert(m.take(j + 1).last() == e);
        let piece = be32(e.0.len() as u32) + e.0 + be64(e.1);
        assert(encode_entries(m.take(j + 1)) == encode_entries(m.take(j)) + piece);
        assert(b.subrange(0, p + piece.len()) == encode_entries(m.take(j)) + piece);
        lemma_be_round_trip(e.0.len() as u32, e.1);
        let q = b.subrange(0, p + piece.len());
        let n = e.0.len() as int;
        assert(encode_entries(m.take(j)).len() == p);
        assert(q.subrange(p, p + piece.len()) =~= piece);
        assert(b.subrange(p, p + 4) =~= q.subrange(p, p + 4));
        assert(q.subrange(p, p + 4) =~= piece.subrange(0, 4));
        assert(piece.subrange(0, 4) =~= be32(e.0.len() as u32));
        assert(b.subrange(p, p + 4) =~= be32(e.0.len() as u32));
        assert(b.subrange(p + 4, p + 4 + n) =~= q.subrange(p + 4, p + 4 + n));
        assert(piece.subrange(4, 4 + n) =~= e.0);
        assert(b.subrange(p + 4, p + 4 + n) =~= e.0);
        assert(b.subrange(p + 4 + n, p + 12 + n) =~= q.subrange(p + 4 + n, p + 12 + n));
        assert(piece.subrange(4 + n, 12 + n) =~= be64(e.1));
        assert(b.subrange(p + 4 + n, p + 12 + n) =~= be64(e.1));
        assert forall|i: int| 0 <= i < m.take(j).len() implies lex_lt(#[trigger] m.take(j)[i].0, e.0) by {
            assert(m.take(j)[i] == m[i]);
        }
        assert forall|a: int, c: int| 0 <= a < c < m.take(j).len() implies lex_lt(#[trigger] m.take(j)[a].0, #[trigger] m.take(j)[c].0) by {
            assert(m.take(j)[a] == m[a] && m.take(j)[c] == m[c]);
        }
        lemma_insert_last(m.take(j), e.0, e.1);
        assert(m.take(j).push((e.0, e.1)) =~= m.take(j + 1));
        lemma_parse_encoded(m, j + 1);
    }
}

/// The encoding of a prefix is a prefix of the encoding.
proof fn lemma_encode_prefix(m: Seq<(Seq<u8>, u64)>, j: int)
    requires
        0 <= j <= m.len(),
    ensures
        encode_entries(m.take(j)).len() <= encode_entries(m).len(),
        encode_entries(m).subrange(0, encode_entries(m.take(j)).len() as int) == encode_entries(m.take(j)),
        j < m.len() ==> encode_entries(m.take(j)).len() < encode_entries(m).len(),
    decreases m.len() - j,
{
    if j == m.len() {
        assert(m.take(j) =~= m);
        assert(encode_entries(m).subrange(0, encode_entries(m).len() as int) =~= encode_entries(m));
    } else {
        lemma_encode_prefix(m.drop_last(), if j < m.len() - 1 { j } else { m.len() - 1 });
        assert(m.drop_last().take(j) =~= m.take(j));
        assert(m.take(m.len() - 1) =~= m.drop_last());
        let full = encode_entries(m);
        let pre = encode_entries(m.drop_last());
        assert(full.subrange(0, pre.len() as int) =~= pre);
        assert(full.subrange(0, encode_entries(m.take(j)).len() as int) =~= pre.subrange(
            0,
            encode_entries(m.take(j)).len() as int,
        ));
    }
}

/// A state token reads back as the state it encodes: decoding the token of a sorted map (its
/// names UTF-8, each shorter than 2^32 bytes) gives the same map.
pub proof fn state_token_round_trip(m: Seq<(Seq<u8>, u64)>)
    requires
        sorted_map(m),
        forall|i: int| 0 <= i < m.len() ==> (#[trigger] m[i].0).len() < 0x1_0000_0000,
        forall|i: int| 0 <= i < m.len() ==> vstd::utf8::valid_utf8(#[trigger] m[i].0),
    ensures
        decode_token(encode_token(m)) == Some(m),
{
    let b = encode_entries(m);
    crate::base64::base64_round_trip(b);
    assert(m.take(0) =~= Seq::<(Seq<u8>, u64)>::empty());
    lemma_parse_encoded(m, 0);
    if b.len() == 0 {
        assert(m.len() == 0) by {
            if m.len() > 0 {
                lemma_encode_prefix(m, 0);
            }
        }
    }
    let t = encode_token(m);
    if t == seq![48u8] {
        assert(crate::base64::b64_decode_spec(t) is None) by {
            reveal_with_fuel(crate::base64::strip_ws, 2);
            assert(crate::base64::strip_ws(t) =~= t);
        }
        assert(false);
    }
    if t.len() == 0 {
        if b.len() > 0 {
            assert(t.len() > 0);
        }
    }
}


/// A state map held as `(name, modseq)` pairs, seen as bytes.
pub open spec fn map_view(v: Seq<(String, u64)>) -> Seq<(Seq<u8>, u64)> {
    v.map_values(|e: (String, u64)| (crate::bytes::utf8(e.0@), e.1))
}

/// Byte-wise lexicographic comparison.
pub fn lex_less(a: &[u8], b: &[u8]) -> (r: bool)
    ensures
        r == lex_lt(a@, b@),
{
    let mut i: usize = 0;
    assert(a@.skip(0) =~= a@ && b@.skip(0) =~= b@);
    while i < a.len() && i < b.len()
        invariant
            i <= a@.len(),
            i <= b@.len(),
            lex_lt(a@, b@) == lex_lt(a@.skip(i as int), b@.skip(i as int)),
        decreases a@.len() - i,
    {
        let ghost x = a@.skip(i as int);
        let ghost y = b@.skip(i as int);
        assert(x[0] == a@[i as int] && y[0] == b@[i as int]);
        assert(x.drop_first() =~= a@.skip(i + 1));
        assert(y.drop_first() =~= b@.skip(i + 1));
        if a[i] != b[i] {
            return a[i] < b[i];
        }
        i += 1;
    }
    assert(a@.skip(i as int).len() == a@.len() - i);
    i >= a.len() && i < b.len()
}

/// Insert into a state map, keeping it a sorted map.
pub fn state_insert(m: &mut Vec<(String, u64)>, k: String, v: u64)
    ensures
        map_view(final(m)@) == map_insert(map_view(old(m)@), crate::bytes::utf8(k@), v),
{
    let ghost key = crate::bytes::utf8(k@);
    let ghost whole = map_view(old(m)@);
    let mut i: usize = 0;
    assert(whole.skip(0) =~= whole && whole.take(0) + map_insert(whole, key, v) =~= map_insert(
        whole,
        key,
        v,
    ));
    while i < m.len()
        invariant
            i <= m@.len(),
            m@ == old(m)@,
            whole == map_view(m@),
            key == crate::bytes::utf8(k@),
            map_insert(whole, key, v) == whole.take(i as int) + map_insert(whole.skip(i as int), key, v),
        decreases m@.len() - i,
    {
        let ghost sk = whole.skip(i as int);
        assert(sk[0] == whole[i as int]);
        assert(whole[i as int].0 == crate::bytes::utf8(m@[i as int].0@));
        assert(sk.drop_first() =~= whole.skip(i + 1));
        proof {
            vstd::utf8::encode_utf8_decode_utf8(k@);
            vstd::utf8::encode_utf8_decode_utf8(m@[i as int].0@);
        }
        if str_eq(m[i].0.as_str(), k.as_str()) {
            let ghost before = m@;
            m.set(i, (k, v));
            assert(map_view(m@) =~= whole.take(i as int) + sk.update(0, (key, v)));
            return;
        }
        if lex_less(k.as_str().as_bytes(), m[i].0.as_str().as_bytes()) {
            m.insert(i, (k, v));
            assert(map_view(m@) =~= whole.take(i as int) + (seq![(key, v)] + sk));
            return;
        }
        assert(whole.take(i + 1) =~= whole.take(i as int) + seq![sk[0]]);
        i += 1;
    }
    assert(whole.skip(i as int) =~= Seq::<(Seq<u8>, u64)>::empty());
    m.push((k, v));
    assert(map_view(m@) =~= whole.take(i as int) + seq![(key, v)]);
}

/// The value of a key in a state map.
pub open spec fn map_get(m: Seq<(Seq<u8>, u64)>, k: Seq<u8>) -> Option<u64>
    decreases m.len(),
{
    if m.len() == 0 {
        None
    } else if m[0].0 == k {
        Some(m[0].1)
    } else {
        map_get(m.drop_first(), k)
    }
}

/// Look a key up in a state map.
pub fn state_get(m: &Vec<(String, u64)>, k: &str) -> (r: Option<u64>)
    ensures
        r == map_get(map_view(m@), crate::bytes::lit(k)),
{
    let ghost whole = map_view(m@);
    let mut i: usize = 0;
    assert(whole.skip(0) =~= whole);
    while i < m.len()
        invariant
            i <= m@.len(),
            whole == map_view(m@),
            map_get(whole, crate::bytes::lit(k)) == map_get(whole.skip(i as int), crate::bytes::lit(k)),
        decreases m@.len() - i,
    {
        let ghost sk = whole.skip(i as int);
        assert(sk[0] == whole[i as int]);
        assert(sk.drop_first() =~= whole.skip(i + 1));
        proof {
            vstd::utf8::encode_utf8_decode_utf8(k@);
            vstd::utf8::encode_utf8_decode_utf8(m@[i as int].0@);
        }
        if str_eq(m[i].0.as_str(), k) {
            return Some(m[i].1);
        }
        i += 1;
    }
    None
}

/// The opaque state token of a state map.
pub fn encode_state_map(map: &Vec<(String, u64)>) -> (r: String)
    ensures
        crate::bytes::utf8(r@) == encode_token(map_view(map@)),
{
    let mut buf: Vec<u8> = Vec::new();
    let mut i: usize = 0;
    while i < map.len()
        invariant
            i <= map@.len(),
            buf@ == encode_entries(map_view(map@).take(i as int)),
        decreases map@.len() - i,
    {
        let name = map[i].0.as_str().as_bytes();
        let ms = map[i].1;
        let n = name.len();
        let n32 = #[verifier::truncate] (n as u32);
        buf.push((n32 >> 24u32) as u8);
        buf.push((n32 >> 16u32) as u8);
        buf.push((n32 >> 8u32) as u8);
        buf.push(n32 as u8);
        crate::bytes::push_all(&mut buf, name);
        buf.push((ms >> 56u64) as u8);
        buf.push((ms >> 48u64) as u8);
        buf.push((ms >> 40u64) as u8);
        buf.push((ms >> 32u64) as u8);
        buf.push((ms >> 24u64) as u8);
        buf.push((ms >> 16u64) as u8);
        buf.push((ms >> 8u64) as u8);
        buf.push(ms as u8);
        proof {
            let t = map_view(map@).take(i + 1);
            assert(t.drop_last() =~= map_view(map@).take(i as int));
            assert(t.last() == (name@, ms));
            assert(buf@ =~= encode_entries(t));
        }
        i += 1;
    }
    assert(map_view(map@).take(i as int) =~= map_view(map@));
    crate::base64::base64_encode(buf.as_slice())
}


/// Read a state token back (see [`decode_token`]); `None` on any malformed token.
pub fn decode_state_map(token: &str) -> (r: Option<Vec<(String, u64)>>)
    ensures
        match r {
            Some(v) => decode_token(crate::bytes::lit(token)) == Some(map_view(v@)),
            None => decode_token(crate::bytes::lit(token)) is None,
        },
{
    let t = token.as_bytes();
    if t.len() == 0 || (t.len() == 1 && t[0] == 48) {
        assert(t.len() == 1 ==> t@ =~= seq![48u8]);
        let empty: Vec<(String, u64)> = Vec::new();
        assert(map_view(empty@) =~= Seq::<(Seq<u8>, u64)>::empty());
        return Some(empty);
    }
    assert(t@ != seq![48u8]);
    let bytes = match crate::base64::base64_decode(token) {
        Some(b) => b,
        None => return None,
    };
    let ghost b = bytes@;
    assert(decode_token(crate::bytes::lit(token)) == parse_entries(b, 0, seq![]));
    let mut map: Vec<(String, u64)> = Vec::new();
    let mut i: usize = 0;
    assert(map_view(map@) =~= Seq::<(Seq<u8>, u64)>::empty());
    while i < bytes.len()
        invariant
            b == bytes@,
            decode_token(crate::bytes::lit(token)) == parse_entries(b, 0, seq![]),
            parse_entries(b, 0, seq![]) == parse_entries(b, i as int, map_view(map@)),
        decreases bytes@.len() - i,
    {
        if bytes.len() - i < 4 {
            return None;
        }
        let n32: u32 = ((bytes[i] as u32) << 24u32) | ((bytes[i + 1] as u32) << 16u32) | ((bytes[i
            + 2] as u32) << 8u32) | (bytes[i + 3] as u32);
        assert(n32 == be32_val(b.subrange(i as int, i + 4)));
        let n = n32 as usize;
        let p = i + 4;
        if bytes.len() - p < n || bytes.len() - p - n < 8 {
            return None;
        }
        let name_bytes = crate::bytes::to_vec(crate::bytes::slice_of(bytes.as_slice(), p, p + n));
        let name = match crate::text::string_from_utf8(name_bytes) {
            Some(s) => s,
            None => return None,
        };
        let q = p + n;
        let ms: u64 = ((bytes[q] as u64) << 56u64) | ((bytes[q + 1] as u64) << 48u64) | ((bytes[q
            + 2] as u64) << 40u64) | ((bytes[q + 3] as u64) << 32u64) | ((bytes[q + 4] as u64)
            << 24u64) | ((bytes[q + 5] as u64) << 16u64) | ((bytes[q + 6] as u64) << 8u64) | (bytes[q
            + 7] as u64);
        assert(ms == be64_val(b.subrange(q as int, q + 8)));
        state_insert(&mut map, name, ms);
        i = q + 8;
    }
    Some(map)
}


/// A sorted map built by inserting pairs in order.
pub open spec fn map_from(pairs: Seq<(Seq<u8>, u64)>) -> Seq<(Seq<u8>, u64)>
    decreases pairs.len(),
{
    if pairs.len() == 0 {
        seq![]
    } else {
        map_insert(map_from(pairs.drop_last()), pairs.last().0, pairs.last().1)
    }
}

/// The sorted map of `(name, modseq)` pairs (a later pair for a name wins).
pub fn state_map_of(pairs: &Vec<(String, u64)>) -> (r: Vec<(String, u64)>)
    ensures
        map_view(r@) == map_from(map_view(pairs@)),
{
    let mut m: Vec<(String, u64)> = Vec::new();
    let mut i: usize = 0;
    assert(map_view(m@) =~= map_from(map_view(pairs@).take(0)));
    while i < pairs.len()
        invariant
            i <= pairs@.len(),
            map_view(m@) == map_from(map_view(pairs@).take(i as int)),
        decreases pairs@.len() - i,
    {
        let ghost t = map_view(pairs@).take(i + 1);
        assert(t.drop_last() =~= map_view(pairs@).take(i as int));
        assert(t.last() == (crate::bytes::utf8(pairs@[i as int].0@), pairs@[i as int].1));
        state_insert(&mut m, pairs[i].0.clone(), pairs[i].1);
        i += 1;
    }
    assert(map_view(pairs@).take(i as int) =~= map_view(pairs@));
    m
}

/// The JMAP id of a message: `mailbox|uid`.
pub open spec fn message_id(name: Seq<u8>, uid: u32) -> Seq<u8> {
    name + seq![124u8] + crate::smtp::dec_spec(uid as nat)
}

fn message_id_text(name: &str, uid: u32) -> (r: String)
    ensures
        r@ == crate::text::utf8_lossy(message_id(crate::bytes::lit(name), uid)),
{
    let mut out = crate::bytes::to_vec(name.as_bytes());
    out.push(124);
    crate::json::push_dec_u64(&mut out, uid as u64);
    assert(out@ =~= message_id(crate::bytes::lit(name), uid));
    crate::text::lossy_string(out.as_slice())
}

/// The ids (as text) of the messages changed after `old`: created ones (created after `old`)
/// when `created` holds, otherwise the updated ones (created before).
pub open spec fn changed_ids(name: Seq<u8>, ms: Seq<Message>, since: u64, created: bool) -> Seq<Seq<char>>
    decreases ms.len(),
{
    if ms.len() == 0 {
        seq![]
    } else {
        let m = ms.last();
        changed_ids(name, ms.drop_last(), since, created) + if m.modseq > since && (m.created_modseq
            > since) == created {
            seq![crate::text::utf8_lossy(message_id(name, m.uid))]
        } else {
            Seq::<Seq<char>>::empty()
        }
    }
}

/// The ids of the messages expunged after `old`.
pub open spec fn destroyed_ids(name: Seq<u8>, log: Seq<(Uid, ModSeq)>, since: u64) -> Seq<Seq<char>>
    decreases log.len(),
{
    if log.len() == 0 {
        seq![]
    } else {
        destroyed_ids(name, log.drop_last(), since) + if log.last().1 > since {
            seq![crate::text::utf8_lossy(message_id(name, log.last().0))]
        } else {
            Seq::<Seq<char>>::empty()
        }
    }
}

pub open spec fn texts(v: Seq<String>) -> Seq<Seq<char>> {
    v.map_values(|s: String| s@)
}

/// Append a mailbox's email changes since `old`: messages changed after it (created or
/// updated by their create-modseq) and messages expunged after it.
pub fn collect_email_changes(
    name: &str,
    mb: &Mailbox,
    since: u64,
    created: &mut Vec<String>,
    updated: &mut Vec<String>,
    destroyed: &mut Vec<String>,
)
    ensures
        texts(final(created)@) == texts(old(created)@) + changed_ids(
            crate::bytes::lit(name),
            mb.messages@,
            since,
            true,
        ),
        texts(final(updated)@) == texts(old(updated)@) + changed_ids(
            crate::bytes::lit(name),
            mb.messages@,
            since,
            false,
        ),
        texts(final(destroyed)@) == texts(old(destroyed)@) + destroyed_ids(
            crate::bytes::lit(name),
            mb.expunged@,
            since,
        ),
{
    let ghost n = crate::bytes::lit(name);
    let mut i: usize = 0;
    while i < mb.messages.len()
        invariant
            i <= mb.messages@.len(),
            n == crate::bytes::lit(name),
            texts(created@) == texts(old(created)@) + changed_ids(n, mb.messages@.take(i as int), since, true),
            texts(updated@) == texts(old(updated)@) + changed_ids(n, mb.messages@.take(i as int), since, false),
            destroyed@ == old(destroyed)@,
        decreases mb.messages@.len() - i,
    {
        let ghost ms = mb.messages@.take(i + 1);
        assert(ms.drop_last() =~= mb.messages@.take(i as int));
        assert(ms.last() == mb.messages@[i as int]);
        let m = &mb.messages[i];
        if m.modseq > since {
            let id = message_id_text(name, m.uid);
            let ghost c0 = created@;
            let ghost u0 = updated@;
            if m.created_modseq > since {
                created.push(id);
                assert(texts(created@) =~= texts(c0).push(id@));
                assert(texts(created@) =~= texts(old(created)@) + changed_ids(n, ms, since, true));
                assert(texts(updated@) =~= texts(old(updated)@) + changed_ids(n, ms, since, false));
            } else {
                updated.push(id);
                assert(texts(updated@) =~= texts(u0).push(id@));
                assert(texts(created@) =~= texts(old(created)@) + changed_ids(n, ms, since, true));
                assert(texts(updated@) =~= texts(old(updated)@) + changed_ids(n, ms, since, false));
            }
        } else {
            assert(changed_ids(n, ms, since, true) =~= changed_ids(n, ms.drop_last(), since, true));
            assert(changed_ids(n, ms, since, false) =~= changed_ids(n, ms.drop_last(), since, false));
        }
        i += 1;
    }
    assert(mb.messages@.take(i as int) =~= mb.messages@);
    let mut j: usize = 0;
    while j < mb.expunged.len()
        invariant
            j <= mb.expunged@.len(),
            n == crate::bytes::lit(name),
            texts(destroyed@) == texts(old(destroyed)@) + destroyed_ids(n, mb.expunged@.take(j as int), since),
        decreases mb.expunged@.len() - j,
    {
        let ghost log = mb.expunged@.take(j + 1);
        assert(log.drop_last() =~= mb.expunged@.take(j as int));
        assert(log.last() == mb.expunged@[j as int]);
        let (uid, ms) = mb.expunged[j];
        if ms > since {
            let id = message_id_text(name, uid);
            let ghost d0 = destroyed@;
            destroyed.push(id);
            assert(texts(destroyed@) =~= texts(d0).push(id@));
            assert(texts(destroyed@) =~= texts(old(destroyed)@) + destroyed_ids(n, log, since));
        } else {
            assert(destroyed_ids(n, log, since) =~= destroyed_ids(n, log.drop_last(), since));
        }
        j += 1;
    }
    assert(mb.expunged@.take(j as int) =~= mb.expunged@);
}

/// Whether a key is in a state map.
pub open spec fn has_key(m: Seq<(Seq<u8>, u64)>, k: Seq<u8>) -> bool {
    map_get(m, k) is Some
}

/// The entries whose name is absent from `m`.
pub open spec fn absent_from(m: Seq<(Seq<u8>, u64)>) -> spec_fn((Seq<u8>, u64)) -> bool {
    |e: (Seq<u8>, u64)| !has_key(m, e.0)
}

/// The entries whose name is in `m` with another modseq.
pub open spec fn moved_in(m: Seq<(Seq<u8>, u64)>) -> spec_fn((Seq<u8>, u64)) -> bool {
    |e: (Seq<u8>, u64)| has_key(m, e.0) && map_get(m, e.0) != Some(e.1)
}

/// The names of a state map's entries.
pub open spec fn names_of(m: Seq<(Seq<u8>, u64)>) -> Seq<Seq<u8>> {
    m.map_values(|e: (Seq<u8>, u64)| e.0)
}

/// Mailbox-level changes between two state maps, in the order of `current` (then of `old`):
/// names new in `current` are created, names whose modseq moved are updated, names gone from
/// `current` are destroyed.
pub open spec fn mailbox_changes_spec(before: Seq<(Seq<u8>, u64)>, current: Seq<(Seq<u8>, u64)>) -> (
    Seq<Seq<u8>>,
    Seq<Seq<u8>>,
    Seq<Seq<u8>>,
) {
    (
        names_of(current.filter(absent_from(before))),
        names_of(current.filter(moved_in(before))),
        names_of(before.filter(absent_from(current))),
    )
}

pub open spec fn text_bytes(v: Seq<String>) -> Seq<Seq<u8>> {
    v.map_values(|s: String| crate::bytes::utf8(s@))
}

/// The mailbox names created, updated and destroyed between two state maps.
pub fn mailbox_changes(before: &Vec<(String, u64)>, current: &Vec<(String, u64)>) -> (r: (
    Vec<String>,
    Vec<String>,
    Vec<String>,
))
    ensures
        (text_bytes(r.0@), text_bytes(r.1@), text_bytes(r.2@)) == mailbox_changes_spec(
            map_view(before@),
            map_view(current@),
        ),
{
    let ghost o = map_view(before@);
    let ghost c = map_view(current@);
    let mut created: Vec<String> = Vec::new();
    let mut updated: Vec<String> = Vec::new();
    let mut destroyed: Vec<String> = Vec::new();
    let mut i: usize = 0;
    while i < current.len()
        invariant
            i <= current@.len(),
            o == map_view(before@),
            c == map_view(current@),
            text_bytes(created@) == names_of(c.take(i as int).filter(absent_from(o))),
            text_bytes(updated@) == names_of(c.take(i as int).filter(moved_in(o))),
        decreases current@.len() - i,
    {
        proof {
            reveal(Seq::filter);
        }
        let ghost t = c.take(i + 1);
        assert(t.drop_last() =~= c.take(i as int));
        assert(t.last() == (crate::bytes::utf8(current@[i as int].0@), current@[i as int].1));
        let name = &current[i].0;
        let ms = current[i].1;
        match state_get(before, name.as_str()) {
            None => {
                let ghost c0 = created@;
                let nm = name.clone();
                created.push(nm);
                assert(text_bytes(created@) =~= text_bytes(c0).push(crate::bytes::utf8(nm@)));
                assert(text_bytes(created@) =~= names_of(t.filter(absent_from(o))));
                assert(text_bytes(updated@) =~= names_of(t.filter(moved_in(o))));
            },
            Some(prev) => {
                if prev != ms {
                    let ghost u0 = updated@;
                    let nm = name.clone();
                    updated.push(nm);
                    assert(text_bytes(updated@) =~= text_bytes(u0).push(crate::bytes::utf8(nm@)));
                }
                assert(text_bytes(created@) =~= names_of(t.filter(absent_from(o))));
                assert(text_bytes(updated@) =~= names_of(t.filter(moved_in(o))));
            },
        }
        i += 1;
    }
    assert(c.take(i as int) =~= c);
    let mut j: usize = 0;
    while j < before.len()
        invariant
            j <= before@.len(),
            o == map_view(before@),
            c == map_view(current@),
            text_bytes(destroyed@) == names_of(o.take(j as int).filter(absent_from(c))),
        decreases before@.len() - j,
    {
        proof {
            reveal(Seq::filter);
        }
        let ghost t = o.take(j + 1);
        assert(t.drop_last() =~= o.take(j as int));
        assert(t.last() == (crate::bytes::utf8(before@[j as int].0@), before@[j as int].1));
        let name = &before[j].0;
        if state_get(current, name.as_str()).is_none() {
            let ghost d0 = destroyed@;
            let nm = name.clone();
            destroyed.push(nm);
            assert(text_bytes(destroyed@) =~= text_bytes(d0).push(crate::bytes::utf8(nm@)));
        }
        assert(text_bytes(destroyed@) =~= names_of(t.filter(absent_from(c))));
        j += 1;
    }
    assert(o.take(j as int) =~= o);
    (created, updated, destroyed)
}


/// Replacing a mailbox keeps every name where it was, so lookups by name find the same
/// places.
pub proof fn lemma_key_index_update(entries: Seq<(Seq<char>, Mailbox)>, k: int, b: Mailbox, name: Seq<char>, i: int)
    requires
        0 <= k < entries.len(),
        0 <= i,
    ensures
        key_index(entries.update(k, (entries[k].0, b)), name, i) == key_index(entries, name, i),
    decreases entries.len() - i,
{
    if i < entries.len() && entries[i].0 != name {
        lemma_key_index_update(entries, k, b, name, i + 1);
    }
}

/// After putting `b` under `name`, looking `name` up finds `b`, and putting again replaces it.
pub proof fn lemma_put_box(m: StoreView, name: Seq<char>, b: Mailbox, c: Mailbox)
    requires
        lookup(m, name) is Some,
    ensures
        lookup(put_box(m, name, b), name) == Some(b),
        put_box(put_box(m, name, b), name, c) == put_box(m, name, c),
        forall|other: Seq<char>| other != name ==> #[trigger] lookup(put_box(m, name, b), other) == lookup(m, other),
{
    let k = key_index(m.entries, name, 0);
    lemma_key_index(m.entries, name, 0);
    lemma_key_index_update(m.entries, k, b, name, 0);
    let m1 = put_box(m, name, b);
    assert(m1.entries.update(k, (m1.entries[k].0, c)) =~= m.entries.update(k, (m.entries[k].0, c)));
    assert forall|other: Seq<char>| other != name implies #[trigger] lookup(put_box(m, name, b), other) == lookup(m, other) by {
        lemma_key_index_update(m.entries, k, b, other, 0);
        lemma_key_index(m.entries, other, 0);
    }
}

} // verus!
