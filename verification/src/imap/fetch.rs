//! The per-message work of FETCH and STORE: the data items of one `* n FETCH (...)` response,
//! whether a FETCH sets `\Seen`, and the flag updates of STORE.
use vstd::prelude::*;
use crate::bytes::{lit, push_all, push_lit};
use crate::mime::ParsedMessage;
use crate::smtp::{dec_spec, push_dec};
use crate::store::{flag_wire, has_flag_spec, same_flag, Flag, Message};
use super::parser::{FetchItem, StoreOp};
use super::response::{binary_spec, bs_spec, envelope_spec, join_path_spec, partial_spec, section_label_spec, section_spec};

verus! {

/// Whether a FETCH of these items sets `\Seen` (RFC 9051 §6.4.5): RFC822, RFC822.TEXT, and the
/// non-PEEK BODY[...] and BINARY[...] forms.
pub open spec fn marks_seen_spec(items: Seq<FetchItem>) -> bool {
    exists|i: int| 0 <= i < items.len() && match #[trigger] items[i] {
        FetchItem::Rfc822 => true,
        FetchItem::Rfc822Text => true,
        FetchItem::BodySection { peek, .. } => !peek,
        FetchItem::Binary { peek, .. } => !peek,
        _ => false,
    }
}

/// Whether a FETCH of these items sets `\Seen`.
pub fn fetch_marks_seen(items: &[FetchItem]) -> (r: bool)
    ensures
        r == marks_seen_spec(items@),
{
    let mut i: usize = 0;
    while i < items.len()
        invariant
            i <= items@.len(),
            forall|j: int| 0 <= j < i ==> !match #[trigger] items@[j] {
                FetchItem::Rfc822 => true,
                FetchItem::Rfc822Text => true,
                FetchItem::BodySection { peek, .. } => !peek,
                FetchItem::Binary { peek, .. } => !peek,
                _ => false,
            },
        decreases items@.len() - i,
    {
        let hit = match &items[i] {
            FetchItem::Rfc822 => true,
            FetchItem::Rfc822Text => true,
            FetchItem::BodySection { peek, .. } => !*peek,
            FetchItem::Binary { peek, .. } => !*peek,
            _ => false,
        };
        if hit {
            return true;
        }
        i += 1;
    }
    false
}

/// The flags' wire forms joined by SP.
pub open spec fn flags_text(fs: Seq<Flag>) -> Seq<u8>
    decreases fs.len(),
{
    if fs.len() == 0 {
        seq![]
    } else if fs.len() == 1 {
        flag_wire(fs[0])
    } else {
        flags_text(fs.drop_last()) + seq![32u8] + flag_wire(fs.last())
    }
}

/// Append the flags' wire forms joined by SP.
pub fn push_flags(out: &mut Vec<u8>, fs: &[Flag])
    ensures
        final(out)@ == old(out)@ + flags_text(fs@),
{
    let ghost o0 = out@;
    let mut i: usize = 0;
    assert(fs@.take(0) =~= Seq::<Flag>::empty());
    while i < fs.len()
        invariant
            i <= fs@.len(),
            out@ == o0 + flags_text(fs@.take(i as int)),
        decreases fs@.len() - i,
    {
        assert(fs@.take(i + 1).drop_last() =~= fs@.take(i as int));
        if i > 0 {
            out.push(32);
        }
        let w = fs[i].imap_bytes();
        push_all(out, w.as_slice());
        assert(out@ =~= o0 + flags_text(fs@.take(i + 1)));
        i += 1;
    }
    assert(fs@.take(i as int) =~= fs@);
}

/// A labelled IMAP literal: `label {n}` CRLF, then the bytes.
pub open spec fn literal_spec(label: Seq<u8>, data: Seq<u8>) -> Seq<u8> {
    label + lit(" {") + dec_spec(data.len()) + lit("}\r\n") + data
}

/// The `<origin>` suffix of a partial fetch.
pub open spec fn origin_text(o: Option<u32>) -> Seq<u8> {
    match o {
        Some(x) => seq![60u8] + dec_spec(x as nat) + seq![62u8],
        None => seq![],
    }
}

/// One FETCH data item of a message (`p` its MIME parse, `uid` its UID).
#[verifier::opaque]
pub open spec fn item_text(it: FetchItem, m: Message, p: ParsedMessage, uid: u32) -> Seq<u8> {
    let raw = m.raw@;
    let off = crate::mime::body_offset_spec(raw);
    match it {
        FetchItem::Flags => lit("FLAGS (") + flags_text(m.flags@) + lit(")"),
        FetchItem::Uid => lit("UID ") + dec_spec(uid as nat),
        FetchItem::InternalDate => lit("INTERNALDATE \"") + crate::date::internal_date_text(m.internal_date)
            + lit("\""),
        FetchItem::Rfc822Size => lit("RFC822.SIZE ") + dec_spec(raw.len()),
        FetchItem::Envelope => lit("ENVELOPE ") + envelope_spec(&p),
        FetchItem::BodyStructure => lit("BODYSTRUCTURE ") + bs_spec(p.structure, true),
        FetchItem::Body => lit("BODY ") + bs_spec(p.structure, false),
        FetchItem::ModSeq => lit("MODSEQ (") + dec_spec(m.modseq as nat) + lit(")"),
        FetchItem::Rfc822 => literal_spec(lit("RFC822"), raw),
        FetchItem::Rfc822Header => literal_spec(lit("RFC822.HEADER"), raw.subrange(0, off)),
        FetchItem::Rfc822Text => literal_spec(lit("RFC822.TEXT"), raw.subrange(off, raw.len() as int)),
        FetchItem::BodySection { section, partial, .. } => {
            let (data, origin) = partial_spec(section_spec(raw, section), partial);
            literal_spec(lit("BODY[") + section_label_spec(section) + lit("]") + origin_text(origin), data)
        },
        FetchItem::Binary { section, partial, .. } => {
            let (data, origin) = partial_spec(binary_spec(raw, section@), partial);
            lit("BINARY[") + join_path_spec(section@) + lit("]") + origin_text(origin) + lit(" ~{")
                + dec_spec(data.len()) + lit("}\r\n") + data
        },
        FetchItem::BinarySize { section } => lit("BINARY.SIZE[") + join_path_spec(section@) + lit("] ")
            + dec_spec(binary_spec(raw, section@).len()),
    }
}

/// The data items joined by SP.
pub open spec fn items_text(items: Seq<FetchItem>, m: Message, p: ParsedMessage, uid: u32) -> Seq<u8>
    decreases items.len(),
{
    if items.len() == 0 {
        seq![]
    } else if items.len() == 1 {
        item_text(items[0], m, p, uid)
    } else {
        items_text(items.drop_last(), m, p, uid) + seq![32u8] + item_text(items.last(), m, p, uid)
    }
}

/// Whether the items ask for the UID.
pub open spec fn names_uid(items: Seq<FetchItem>) -> bool {
    exists|i: int| 0 <= i < items.len() && #[trigger] items[i] is Uid
}

/// The inside of a `* n FETCH (...)` response: the requested items in order, then `UID n` when
/// the command was a UID FETCH that did not ask for it (RFC 9051 §6.4.8).
pub open spec fn fetch_text(items: Seq<FetchItem>, m: Message, p: ParsedMessage, uid: u32, uid_mode: bool) -> Seq<
    u8,
> {
    items_text(items, m, p, uid) + if uid_mode && !names_uid(items) {
        (if items.len() > 0 {
            seq![32u8]
        } else {
            seq![]
        }) + lit("UID ") + dec_spec(uid as nat)
    } else {
        seq![]
    }
}

fn push_literal(out: &mut Vec<u8>, data: &[u8])
    ensures
        final(out)@ == old(out)@ + lit(" {") + dec_spec(data@.len()) + lit("}\r\n") + data@,
{
    push_lit(out, " {");
    push_dec(out, data.len());
    push_lit(out, "}\r\n");
    push_all(out, data);
}

fn push_origin(out: &mut Vec<u8>, o: Option<u32>)
    ensures
        final(out)@ == old(out)@ + origin_text(o),
{
    match o {
        Some(x) => {
            out.push(60);
            push_dec(out, x as usize);
            out.push(62);
        },
        None => {
            assert(old(out)@ + seq![] =~= old(out)@);
        },
    }
}

fn push_body_section(out: &mut Vec<u8>, raw: &[u8], section: &super::parser::Section, partial: Option<(u32, u32)>)
    ensures
        ({
            let (data, origin) = partial_spec(section_spec(raw@, *section), partial);
            final(out)@ == old(out)@ + literal_spec(
                lit("BODY[") + section_label_spec(*section) + lit("]") + origin_text(origin),
                data,
            )
        }),
{
    let ghost o0 = out@;
    let full = super::response::extract_section(raw, section);
    let fb: &[u8] = match &full {
        std::borrow::Cow::Borrowed(b) => b,
        std::borrow::Cow::Owned(v) => v.as_slice(),
    };
    assert(fb@ == full@);
    let (data, origin) = super::response::apply_partial(fb, partial);
    push_lit(out, "BODY[");
    super::response::push_section_label(out, section);
    push_lit(out, "]");
    push_origin(out, origin);
    push_literal(out, data.as_slice());
    assert(out@ =~= o0 + literal_spec(
        lit("BODY[") + section_label_spec(*section) + lit("]") + origin_text(origin),
        data@,
    ));
}

fn push_binary(out: &mut Vec<u8>, raw: &[u8], section: &Vec<u32>, partial: Option<(u32, u32)>)
    ensures
        ({
            let (data, origin) = partial_spec(binary_spec(raw@, section@), partial);
            final(out)@ == old(out)@ + lit("BINARY[") + join_path_spec(section@) + lit("]") + origin_text(origin)
                + lit(" ~{") + dec_spec(data.len()) + lit("}\r\n") + data
        }),
{
    let ghost o0 = out@;
    let full = super::response::extract_binary(raw, section.as_slice());
    let (data, origin) = super::response::apply_partial(full.as_slice(), partial);
    push_lit(out, "BINARY[");
    super::response::push_path(out, section.as_slice());
    push_lit(out, "]");
    push_origin(out, origin);
    push_lit(out, " ~{");
    push_dec(out, data.len());
    push_lit(out, "}\r\n");
    push_all(out, data.as_slice());
}

fn push_binary_size(out: &mut Vec<u8>, raw: &[u8], section: &Vec<u32>)
    ensures
        final(out)@ == old(out)@ + lit("BINARY.SIZE[") + join_path_spec(section@) + lit("] ") + dec_spec(
            binary_spec(raw@, section@).len(),
        ),
{
    let full = super::response::extract_binary(raw, section.as_slice());
    push_lit(out, "BINARY.SIZE[");
    super::response::push_path(out, section.as_slice());
    push_lit(out, "] ");
    push_dec(out, full.len());
}

#[verifier::spinoff_prover]
#[verifier::rlimit(30)]
fn push_body_section_item(out: &mut Vec<u8>, it: &FetchItem, m: &Message, p: &ParsedMessage, uid: u32)
    requires
        it is BodySection,
    ensures
        final(out)@ == old(out)@ + item_text(*it, *m, *p, uid),
{
    proof {
        reveal(item_text);
    }
    if let FetchItem::BodySection { section, partial, .. } = it {
        push_body_section(out, m.raw.as_slice(), section, *partial);
    }
}

#[verifier::spinoff_prover]
#[verifier::rlimit(30)]
fn push_binary_item(out: &mut Vec<u8>, it: &FetchItem, m: &Message, p: &ParsedMessage, uid: u32)
    requires
        it is Binary,
    ensures
        final(out)@ == old(out)@ + item_text(*it, *m, *p, uid),
{
    proof {
        reveal(item_text);
    }
    if let FetchItem::Binary { section, partial, .. } = it {
        push_binary(out, m.raw.as_slice(), section, *partial);
    }
}

#[verifier::spinoff_prover]
#[verifier::rlimit(30)]
fn push_binary_size_item(out: &mut Vec<u8>, it: &FetchItem, m: &Message, p: &ParsedMessage, uid: u32)
    requires
        it is BinarySize,
    ensures
        final(out)@ == old(out)@ + item_text(*it, *m, *p, uid),
{
    proof {
        reveal(item_text);
    }
    if let FetchItem::BinarySize { section } = it {
        push_binary_size(out, m.raw.as_slice(), section);
    }
}

#[verifier::spinoff_prover]
#[verifier::rlimit(30)]
fn push_parsed_item(out: &mut Vec<u8>, it: &FetchItem, m: &Message, p: &ParsedMessage, uid: u32)
    requires
        it is Envelope || it is BodyStructure || it is Body,
    ensures
        final(out)@ == old(out)@ + item_text(*it, *m, *p, uid),
{
    proof {
        reveal(item_text);
    }
    let ghost o0 = out@;
    match it {
        FetchItem::Envelope => {
            push_lit(out, "ENVELOPE ");
            let e = super::response::envelope_bytes(p);
            push_all(out, e.as_slice());
        },
        FetchItem::BodyStructure => {
            push_lit(out, "BODYSTRUCTURE ");
            super::response::push_body_structure(out, &p.structure, true);
        },
        _ => {
            push_lit(out, "BODY ");
            super::response::push_body_structure(out, &p.structure, false);
        },
    }
}

#[verifier::spinoff_prover]
#[verifier::rlimit(30)]
fn push_raw_item(out: &mut Vec<u8>, it: &FetchItem, m: &Message, p: &ParsedMessage, uid: u32)
    requires
        it is Rfc822 || it is Rfc822Header || it is Rfc822Text,
    ensures
        final(out)@ == old(out)@ + item_text(*it, *m, *p, uid),
{
    proof {
        reveal(item_text);
    }
    let raw = m.raw.as_slice();
    let (h, b) = crate::mime::header_and_body(raw);
    match it {
        FetchItem::Rfc822 => {
            push_lit(out, "RFC822");
            push_literal(out, raw);
        },
        FetchItem::Rfc822Header => {
            push_lit(out, "RFC822.HEADER");
            push_literal(out, h.as_slice());
        },
        _ => {
            push_lit(out, "RFC822.TEXT");
            push_literal(out, b.as_slice());
        },
    }
}

#[verifier::spinoff_prover]
#[verifier::rlimit(30)]
fn push_meta_item(out: &mut Vec<u8>, it: &FetchItem, m: &Message, p: &ParsedMessage, uid: u32)
    requires
        it is Flags || it is Uid || it is InternalDate || it is Rfc822Size || it is ModSeq,
    ensures
        final(out)@ == old(out)@ + item_text(*it, *m, *p, uid),
{
    proof {
        reveal(item_text);
    }
    match it {
        FetchItem::Flags => {
            push_lit(out, "FLAGS (");
            push_flags(out, m.flags.as_slice());
            push_lit(out, ")");
        },
        FetchItem::Uid => {
            push_lit(out, "UID ");
            push_dec(out, uid as usize);
        },
        FetchItem::InternalDate => {
            push_lit(out, "INTERNALDATE \"");
            let d = crate::date::internal_date_bytes(m.internal_date);
            push_all(out, d.as_slice());
            push_lit(out, "\"");
        },
        FetchItem::Rfc822Size => {
            push_lit(out, "RFC822.SIZE ");
            push_dec(out, m.size());
        },
        _ => {
            push_lit(out, "MODSEQ (");
            crate::json::push_dec_u64(out, m.modseq);
            push_lit(out, ")");
        },
    }
}

#[verifier::spinoff_prover]
#[verifier::rlimit(30)]
fn push_item(out: &mut Vec<u8>, it: &FetchItem, m: &Message, p: &ParsedMessage, uid: u32)
    ensures
        final(out)@ == old(out)@ + item_text(*it, *m, *p, uid),
{
    match it {
        FetchItem::BodySection { .. } => push_body_section_item(out, it, m, p, uid),
        FetchItem::Binary { .. } => push_binary_item(out, it, m, p, uid),
        FetchItem::BinarySize { .. } => push_binary_size_item(out, it, m, p, uid),
        FetchItem::Envelope | FetchItem::BodyStructure | FetchItem::Body => push_parsed_item(out, it, m, p, uid),
        FetchItem::Rfc822 | FetchItem::Rfc822Header | FetchItem::Rfc822Text => push_raw_item(out, it, m, p, uid),
        _ => push_meta_item(out, it, m, p, uid),
    }
}

/// The data items of one FETCH response for a message (without the `* n FETCH (` frame). The
/// message is MIME-parsed once, for ENVELOPE, BODYSTRUCTURE and BODY.
pub fn render_fetch_items(
    items: &[FetchItem],
    msg: &Message,
    seq: u32,
    uid: u32,
    uid_mode: bool,
    condstore: bool,
) -> (r: Vec<u8>)
    ensures
        exists|p: ParsedMessage|
            crate::mime::is_parse_of(p, msg.raw@) && r@ == #[trigger] fetch_text(items@, *msg, p, uid, uid_mode),
{
    let p = msg.parsed_cached();
    let mut out: Vec<u8> = Vec::new();
    let mut wrote_uid = false;
    let mut i: usize = 0;
    assert(items@.take(0) =~= Seq::<FetchItem>::empty());
    while i < items.len()
        invariant
            i <= items@.len(),
            out@ == items_text(items@.take(i as int), *msg, p, uid),
            wrote_uid == names_uid(items@.take(i as int)),
        decreases items@.len() - i,
    {
        let ghost t = items@.take(i + 1);
        assert(t.drop_last() =~= items@.take(i as int));
        if i > 0 {
            out.push(32);
        }
        push_item(&mut out, &items[i], msg, &p, uid);
        if let FetchItem::Uid = &items[i] {
            wrote_uid = true;
            assert(t[i as int] is Uid);
        } else {
            proof {
                if names_uid(t) {
                    let k = choose|k: int| 0 <= k < t.len() && #[trigger] t[k] is Uid;
                    assert(k < i);
                    assert(items@.take(i as int)[k] is Uid);
                }
            }
        }
        assert(out@ =~= items_text(t, *msg, p, uid));
        i += 1;
    }
    assert(items@.take(i as int) =~= items@);
    if uid_mode && !wrote_uid {
        if items.len() > 0 {
            out.push(32);
        }
        push_lit(&mut out, "UID ");
        push_dec(&mut out, uid as usize);
    }
    assert(out@ =~= fetch_text(items@, *msg, p, uid, uid_mode));
    out
}

/// Whether a STORE leaves flag `g` on a message whose flags were `cur`: `FLAGS` sets exactly
/// the listed flags (`\Recent` is session state, kept as it was), `+FLAGS` adds the listed ones
/// but `\Recent`, `-FLAGS` removes the listed ones.
pub open spec fn stored_has(cur: Seq<Flag>, op: StoreOp, fs: Seq<Flag>, g: Flag) -> bool {
    let recent = same_flag(g, Flag::Recent);
    match op {
        StoreOp::Replace => (has_flag_spec(fs, g) && !recent) || (recent && has_flag_spec(cur, Flag::Recent)),
        StoreOp::Add => has_flag_spec(cur, g) || (has_flag_spec(fs, g) && !recent),
        StoreOp::Remove => has_flag_spec(cur, g) && !has_flag_spec(fs, g),
    }
}

/// `same_flag` is an equivalence.
pub proof fn lemma_same_flag_equiv()
    ensures
        forall|a: Flag| #[trigger] same_flag(a, a),
        forall|a: Flag, b: Flag| #[trigger] same_flag(a, b) == same_flag(b, a),
        forall|a: Flag, b: Flag, c: Flag| #[trigger] same_flag(a, b) && #[trigger] same_flag(b, c) ==> same_flag(a, c),
{
}

/// A copy of a flag.
pub fn flag_copy(f: &Flag) -> (r: Flag)
    ensures
        same_flag(r, *f),
{
    match f {
        Flag::Keyword(k) => Flag::Keyword(crate::bytes::to_vec(k.as_slice())),
        Flag::Seen => Flag::Seen,
        Flag::Answered => Flag::Answered,
        Flag::Flagged => Flag::Flagged,
        Flag::Deleted => Flag::Deleted,
        Flag::Draft => Flag::Draft,
        Flag::Recent => Flag::Recent,
    }
}

/// Apply a STORE flag operation to a message; nothing but its flags changes.
pub fn apply_store(msg: &mut Message, op: StoreOp, flags: &[Flag])
    ensures
        crate::store::same_but_flags(*old(msg), *final(msg)),
        forall|g: Flag| #[trigger] has_flag_spec(final(msg).flags@, g) == stored_has(old(msg).flags@, op, flags@, g),
{
    proof {
        lemma_same_flag_equiv();
    }
    match op {
        StoreOp::Replace => {
            let recent = msg.has_flag(&Flag::Recent);
            let mut kept: Vec<Flag> = Vec::new();
            let mut i: usize = 0;
            while i < flags.len()
                invariant
                    i <= flags@.len(),
                    forall|g: Flag| #[trigger] has_flag_spec(kept@, g) == (has_flag_spec(flags@.take(i as int), g)
                        && !same_flag(g, Flag::Recent)),
                decreases flags@.len() - i,
            {
                let ghost t = flags@.take(i + 1);
                assert(t.drop_last() =~= flags@.take(i as int));
                let ghost before = kept@;
                if !crate::store::flag_eq(&flags[i], &Flag::Recent) {
                    kept.push(flag_copy(&flags[i]));
                }
                assert forall|g: Flag| #[trigger] has_flag_spec(kept@, g) == (has_flag_spec(t, g) && !same_flag(
                    g,
                    Flag::Recent,
                )) by {
                    if has_flag_spec(t, g) {
                        let k = choose|k: int| 0 <= k < t.len() && same_flag(#[trigger] t[k], g);
                        if k < i {
                            assert(flags@.take(i as int)[k] == t[k]);
                        }
                    }
                    if has_flag_spec(flags@.take(i as int), g) {
                        let k = choose|k: int| 0 <= k < i && same_flag(#[trigger] flags@.take(i as int)[k], g);
                        assert(t[k] == flags@.take(i as int)[k]);
                    }
                    if has_flag_spec(kept@, g) {
                        let k = choose|k: int| 0 <= k < kept@.len() && same_flag(#[trigger] kept@[k], g);
                        if k < before.len() {
                            assert(before[k] == kept@[k]);
                        } else {
                            assert(t[i as int] == flags@[i as int]);
                        }
                    }
                    if has_flag_spec(before, g) {
                        let k = choose|k: int| 0 <= k < before.len() && same_flag(#[trigger] before[k], g);
                        assert(kept@[k] == before[k]);
                    }
                    if same_flag(t[i as int], g) && !same_flag(g, Flag::Recent) {
                        assert(same_flag(kept@[before.len() as int], g));
                    }
                }
                i += 1;
            }
            assert(flags@.take(i as int) =~= flags@);
            let ghost o = old(msg).flags@;
            msg.flags = kept;
            if recent {
                let ghost before = msg.flags@;
                msg.set_flag(Flag::Recent);
                assert forall|g: Flag| #[trigger] has_flag_spec(msg.flags@, g) == stored_has(o, op, flags@, g) by {
                    if has_flag_spec(msg.flags@, g) {
                        let k = choose|k: int| 0 <= k < msg.flags@.len() && same_flag(#[trigger] msg.flags@[k], g);
                        if k < before.len() {
                            assert(before[k] == msg.flags@[k]);
                        }
                    }
                    if has_flag_spec(before, g) {
                        let k = choose|k: int| 0 <= k < before.len() && same_flag(#[trigger] before[k], g);
                        assert(msg.flags@[k] == before[k]);
                    }
                    if same_flag(g, Flag::Recent) && !has_flag_spec(before, Flag::Recent) {
                        assert(msg.flags@[before.len() as int] == Flag::Recent);
                    }
                }
            }
        },
        StoreOp::Add => {
            let mut i: usize = 0;
            while i < flags.len()
                invariant
                    i <= flags@.len(),
                    crate::store::same_but_flags(*old(msg), *msg),
                    forall|g: Flag| #[trigger] has_flag_spec(msg.flags@, g) == (has_flag_spec(old(msg).flags@, g) || (
                        has_flag_spec(flags@.take(i as int), g) && !same_flag(g, Flag::Recent))),
                decreases flags@.len() - i,
            {
                let ghost t = flags@.take(i + 1);
                assert(t.drop_last() =~= flags@.take(i as int));
                let ghost before = msg.flags@;
                if !crate::store::flag_eq(&flags[i], &Flag::Recent) {
                    let c = flag_copy(&flags[i]);
                    msg.set_flag(c);
                }
                assert forall|g: Flag| #[trigger] has_flag_spec(msg.flags@, g) == (has_flag_spec(old(msg).flags@, g) || (
                    has_flag_spec(t, g) && !same_flag(g, Flag::Recent))) by {
                    if has_flag_spec(t, g) {
                        let k = choose|k: int| 0 <= k < t.len() && same_flag(#[trigger] t[k], g);
                        if k < i {
                            assert(flags@.take(i as int)[k] == t[k]);
                        }
                    }
                    if has_flag_spec(flags@.take(i as int), g) {
                        let k = choose|k: int| 0 <= k < i && same_flag(#[trigger] flags@.take(i as int)[k], g);
                        assert(t[k] == flags@.take(i as int)[k]);
                    }
                    if has_flag_spec(msg.flags@, g) {
                        let k = choose|k: int| 0 <= k < msg.flags@.len() && same_flag(#[trigger] msg.flags@[k], g);
                        if k < before.len() {
                            assert(before[k] == msg.flags@[k]);
                        } else {
                            assert(t[i as int] == flags@[i as int]);
                        }
                    }
                    if has_flag_spec(before, g) {
                        let k = choose|k: int| 0 <= k < before.len() && same_flag(#[trigger] before[k], g);
                        assert(msg.flags@[k] == before[k]);
                    }
                    if same_flag(t[i as int], g) && !same_flag(g, Flag::Recent) && !has_flag_spec(before, g) {
                        assert(same_flag(msg.flags@[before.len() as int], g));
                    }
                }
                i += 1;
            }
            assert(flags@.take(i as int) =~= flags@);
        },
        StoreOp::Remove => {
            let mut i: usize = 0;
            while i < flags.len()
                invariant
                    i <= flags@.len(),
                    crate::store::same_but_flags(*old(msg), *msg),
                    forall|g: Flag| #[trigger] has_flag_spec(msg.flags@, g) == (has_flag_spec(old(msg).flags@, g)
                        && !has_flag_spec(flags@.take(i as int), g)),
                decreases flags@.len() - i,
            {
                let ghost t = flags@.take(i + 1);
                assert(t.drop_last() =~= flags@.take(i as int));
                let ghost before = msg.flags@;
                let ghost fi = flags@[i as int];
                msg.clear_flag(&flags[i]);
                assert forall|g: Flag| #[trigger] has_flag_spec(msg.flags@, g) == (has_flag_spec(old(msg).flags@, g)
                    && !has_flag_spec(t, g)) by {
                    let pred = crate::store::keeps_flag(fi);
                    if has_flag_spec(t, g) {
                        let k = choose|k: int| 0 <= k < t.len() && same_flag(#[trigger] t[k], g);
                        if k < i {
                            assert(flags@.take(i as int)[k] == t[k]);
                        }
                    }
                    if has_flag_spec(flags@.take(i as int), g) {
                        let k = choose|k: int| 0 <= k < i && same_flag(#[trigger] flags@.take(i as int)[k], g);
                        assert(t[k] == flags@.take(i as int)[k]);
                    }
                    if has_flag_spec(msg.flags@, g) {
                        let k = choose|k: int| 0 <= k < msg.flags@.len() && same_flag(#[trigger] msg.flags@[k], g);
                        before.lemma_filter_pred(pred, k);
                        assert(before.filter(pred).contains(msg.flags@[k]));
                        before.lemma_filter_contains_rev(pred, msg.flags@[k]);
                        assert(before.contains(msg.flags@[k]));
                        let j = choose|j: int| 0 <= j < before.len() && before[j] == msg.flags@[k];
                        assert(same_flag(before[j], g));
                        assert(!same_flag(g, fi));
                        assert(t[i as int] == fi);
                    }
                    if has_flag_spec(before, g) && !same_flag(g, fi) {
                        let k = choose|k: int| 0 <= k < before.len() && same_flag(#[trigger] before[k], g);
                        assert(pred(before[k]));
                        before.lemma_filter_contains(pred, k);
                        let j = choose|j: int| 0 <= j < before.filter(pred).len() && before.filter(pred)[j] == before[k];
                        assert(same_flag(msg.flags@[j], g));
                    }
                    if has_flag_spec(t, g) && !has_flag_spec(flags@.take(i as int), g) {
                        let k = choose|k: int| 0 <= k < t.len() && same_flag(#[trigger] t[k], g);
                        assert(k == i);
                    }
                }
                i += 1;
            }
            assert(flags@.take(i as int) =~= flags@);
        },
    }
}

} // verus!
