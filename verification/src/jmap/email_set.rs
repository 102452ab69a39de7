//! `Email/set` (RFC 8621 §4.6): composing new Emails into the store, changing their keywords,
//! destroying them.
use vstd::prelude::*;
use crate::bytes::{lit, push_all, push_lit, utf8};
use crate::json::{elems, jarr, jnat, jobj, jstr, jstring, members, nat_json, push_elem, put, str_of, Json, JsonV};
use crate::mime::{display_name_spec, encode_header_spec};
use crate::store::{has_flag_spec, keeps_flag, lookup, put_box, Flag, MailStore, Mailbox, Message, StoreView};
use super::{
    arr_strings, email_id, email_id_text, enforce_set_limit, error_json, flag_is_keyword, flag_of_keyword,
    not_found, not_found_json, obj_arg, obj_members, parse_email_id, parse_email_id_spec, result_jv, set_count,
    set_error, state_chars, state_string, strings_exec, text, MAX_OBJECTS_IN_SET,
};

verus! {

/// The bytes with every CR and LF taken out (a header value cannot break its line).
pub open spec fn no_crlf(b: Seq<u8>) -> Seq<u8>
    decreases b.len(),
{
    if b.len() == 0 {
        seq![]
    } else {
        no_crlf(b.drop_last()) + if b.last() == 13 || b.last() == 10 {
            Seq::<u8>::empty()
        } else {
            seq![b.last()]
        }
    }
}

fn strip_crlf(b: &[u8]) -> (r: Vec<u8>)
    ensures
        r@ == no_crlf(b@),
{
    let mut out: Vec<u8> = Vec::new();
    let mut i: usize = 0;
    assert(b@.take(0) =~= Seq::<u8>::empty());
    while i < b.len()
        invariant
            i <= b@.len(),
            out@ == no_crlf(b@.take(i as int)),
        decreases b@.len() - i,
    {
        assert(b@.take(i + 1).drop_last() =~= b@.take(i as int));
        if b[i] != 13 && b[i] != 10 {
            out.push(b[i]);
        }
        assert(out@ =~= no_crlf(b@.take(i + 1)));
        i += 1;
    }
    assert(b@.take(b@.len() as int) =~= b@);
    out
}

/// The UTF-8 bytes of a string value.
pub open spec fn str_bytes(j: Option<Json>) -> Option<Seq<u8>> {
    match j {
        Some(Json::Str(s)) => Some(utf8(s@)),
        _ => None,
    }
}

fn str_bytes_exec(j: Option<&Json>) -> (r: Option<&[u8]>)
    ensures
        match r {
            Some(b) => str_bytes(
                match j {
                    Some(x) => Some(*x),
                    None => None,
                },
            ) == Some(b@),
            None => str_bytes(
                match j {
                    Some(x) => Some(*x),
                    None => None,
                },
            ) is None,
        },
{
    match j {
        Some(Json::Str(s)) => Some(s.as_str().as_bytes()),
        _ => None,
    }
}

/// One address of a `from`/`to`/`cc` list as its header carries it: the e-mail without CR
/// and LF, after the wire form of a non-empty display name in angle brackets; nothing for an
/// entry without a string `email`.
pub open spec fn addr_text(a: Json) -> Option<Seq<u8>> {
    match str_bytes(crate::json::member(a, "email"@)) {
        None => None,
        Some(e) => Some(
            match str_bytes(crate::json::member(a, "name"@)) {
                Some(n) => if n.len() > 0 {
                    display_name_spec(no_crlf(n)) + lit(" <") + no_crlf(e) + lit(">")
                } else {
                    no_crlf(e)
                },
                None => no_crlf(e),
            },
        ),
    }
}

/// The rendered addresses of a list, in order.
pub open spec fn addr_texts(a: Seq<Json>) -> Seq<Seq<u8>>
    decreases a.len(),
{
    if a.len() == 0 {
        seq![]
    } else {
        match addr_text(a.last()) {
            Some(t) => addr_texts(a.drop_last()).push(t),
            None => addr_texts(a.drop_last()),
        }
    }
}

/// Texts joined by `", "`.
pub open spec fn joined(ts: Seq<Seq<u8>>) -> Seq<u8>
    decreases ts.len(),
{
    if ts.len() == 0 {
        seq![]
    } else if ts.len() == 1 {
        ts[0]
    } else {
        joined(ts.drop_last()) + lit(", ") + ts.last()
    }
}

/// The `label: addresses` header line of an address list member; nothing when the member is
/// not a list or renders no address.
pub open spec fn addr_header(obj: Json, key: Seq<char>, label: Seq<u8>) -> Seq<u8> {
    match crate::json::member(obj, key) {
        Some(Json::Arr(a)) => {
            let ts = addr_texts(a@);
            if ts.len() == 0 {
                seq![]
            } else {
                label + lit(": ") + joined(ts) + lit("\r\n")
            }
        },
        _ => seq![],
    }
}

fn addr_text_exec(a: &Json) -> (r: Option<Vec<u8>>)
    ensures
        match r {
            Some(t) => addr_text(*a) == Some(t@),
            None => addr_text(*a) is None,
        },
{
    let e = match str_bytes_exec(crate::json::json_get(a, "email")) {
        Some(e) => e,
        None => return None,
    };
    let email = strip_crlf(e);
    match str_bytes_exec(crate::json::json_get(a, "name")) {
        Some(n) => {
            if n.len() > 0 {
                let mut out = crate::mime::display_name_bytes(strip_crlf(n).as_slice());
                push_lit(&mut out, " <");
                push_all(&mut out, email.as_slice());
                push_lit(&mut out, ">");
                Some(out)
            } else {
                Some(email)
            }
        },
        None => Some(email),
    }
}

fn push_addr_header(out: &mut Vec<u8>, obj: &Json, key: &str, label: &str)
    ensures
        final(out)@ == old(out)@ + addr_header(*obj, key@, lit(label)),
{
    let a = match crate::json::json_get(obj, key) {
        Some(Json::Arr(a)) => a,
        _ => return,
    };
    let mut line: Vec<u8> = Vec::new();
    let mut n: usize = 0;
    let mut i: usize = 0;
    assert(a@.take(0) =~= Seq::<Json>::empty());
    while i < a.len()
        invariant
            i <= a@.len(),
            n == addr_texts(a@.take(i as int)).len(),
            n <= i,
            line@ == joined(addr_texts(a@.take(i as int))),
        decreases a@.len() - i,
    {
        let ghost ts = addr_texts(a@.take(i as int));
        assert(a@.take(i + 1).drop_last() =~= a@.take(i as int));
        match addr_text_exec(&a[i]) {
            Some(t) => {
                if n > 0 {
                    push_lit(&mut line, ", ");
                }
                push_all(&mut line, t.as_slice());
                assert(ts.push(t@).drop_last() =~= ts);
                n += 1;
            },
            None => {},
        }
        i += 1;
    }
    assert(a@.take(a@.len() as int) =~= a@);
    if n > 0 {
        push_lit(out, label);
        push_lit(out, ": ");
        push_all(out, line.as_slice());
        push_lit(out, "\r\n");
    }
}

/// The Subject header: the subject without CR and LF, encoded for the wire.
pub open spec fn subject_header(obj: Json) -> Seq<u8> {
    match str_bytes(crate::json::member(obj, "subject"@)) {
        Some(s) => lit("Subject: ") + encode_header_spec(no_crlf(s)) + lit("\r\n"),
        None => seq![],
    }
}

/// The `partId` of the first `textBody` part.
pub open spec fn part_id(obj: Json) -> Option<Seq<char>> {
    match crate::json::member(obj, "textBody"@) {
        Some(Json::Arr(a)) => if a@.len() > 0 {
            match crate::json::member(a@[0], "partId"@) {
                Some(p) => str_of(p),
                None => None,
            }
        } else {
            None
        },
        _ => None,
    }
}

/// The body value the text comes from: the one the first text part names, else the first.
pub open spec fn body_pick(obj: Json) -> Option<Json> {
    match crate::json::member(obj, "bodyValues"@) {
        Some(Json::Obj(bv)) => {
            let named = match part_id(obj) {
                Some(pid) => crate::json::lookup(bv@, pid),
                None => None,
            };
            match named {
                Some(v) => Some(v),
                None => if bv@.len() > 0 {
                    Some(bv@[0].1)
                } else {
                    None
                },
            }
        },
        _ => None,
    }
}

/// The body text of a composed Email (empty without one).
pub open spec fn body_text(obj: Json) -> Seq<u8> {
    match body_pick(obj) {
        Some(v) => match str_bytes(crate::json::member(v, "value"@)) {
            Some(t) => t,
            None => seq![],
        },
        None => seq![],
    }
}

fn body_text_exec(obj: &Json) -> (r: Vec<u8>)
    ensures
        r@ == body_text(*obj),
{
    let bvj: &Json = match crate::json::json_get(obj, "bodyValues") {
        Some(j) => j,
        None => return Vec::new(),
    };
    let bv = match bvj {
        Json::Obj(bv) => bv,
        _ => return Vec::new(),
    };
    let pid: Option<&String> = match crate::json::json_get(obj, "textBody") {
        Some(Json::Arr(a)) => if a.len() > 0 {
            match crate::json::json_get(&a[0], "partId") {
                Some(Json::Str(p)) => Some(p),
                _ => None,
            }
        } else {
            None
        },
        _ => None,
    };
    let named: Option<&Json> = match pid {
        Some(p) => crate::json::json_get(bvj, p.as_str()),
        None => None,
    };
    let v: &Json = match named {
        Some(v) => v,
        None => if bv.len() > 0 {
            &bv[0].1
        } else {
            return Vec::new();
        },
    };
    match str_bytes_exec(crate::json::json_get(v, "value")) {
        Some(t) => crate::bytes::to_vec(t),
        None => Vec::new(),
    }
}

/// The RFC 5322 bytes a JMAP `Email` create object composes to: From, To and Cc from the
/// address lists, the Subject, a Date at the epoch, MIME-Version, a UTF-8 plain-text
/// Content-Type, a blank line and the body text.
pub open spec fn compose_raw(obj: Json) -> Seq<u8> {
    addr_header(obj, "from"@, lit("From")) + addr_header(obj, "to"@, lit("To")) + addr_header(obj, "cc"@, lit("Cc"))
        + subject_header(obj) + lit("Date: ") + crate::date::rfc5322_date_text(0) + lit(
        "\r\nMIME-Version: 1.0\r\nContent-Type: text/plain; charset=utf-8\r\n\r\n",
    ) + body_text(obj)
}

fn compose_raw_exec(obj: &Json) -> (r: Vec<u8>)
    ensures
        r@ == compose_raw(*obj),
{
    let mut out: Vec<u8> = Vec::new();
    push_addr_header(&mut out, obj, "from", "From");
    push_addr_header(&mut out, obj, "to", "To");
    push_addr_header(&mut out, obj, "cc", "Cc");
    match str_bytes_exec(crate::json::json_get(obj, "subject")) {
        Some(s) => {
            push_lit(&mut out, "Subject: ");
            let e = crate::mime::encode_header_bytes(strip_crlf(s).as_slice());
            push_all(&mut out, e.as_slice());
            push_lit(&mut out, "\r\n");
        },
        None => {},
    }
    push_lit(&mut out, "Date: ");
    let d = crate::date::rfc5322_date_bytes(0);
    push_all(&mut out, d.as_slice());
    push_lit(&mut out, "\r\nMIME-Version: 1.0\r\nContent-Type: text/plain; charset=utf-8\r\n\r\n");
    let b = body_text_exec(obj);
    push_all(&mut out, b.as_slice());
    out
}


/// The first key of an object's members whose value is `true`.
pub open spec fn first_true_key(es: Seq<(String, Json)>) -> Option<Seq<char>>
    decreases es.len(),
{
    if es.len() == 0 {
        None
    } else if es[0].1 == Json::Bool(true) {
        Some(es[0].0@)
    } else {
        first_true_key(es.skip(1))
    }
}

fn first_true_key_exec(es: &Vec<(String, Json)>) -> (r: Option<String>)
    ensures
        match r {
            Some(k) => first_true_key(es@) == Some(k@),
            None => first_true_key(es@) is None,
        },
{
    let mut i: usize = 0;
    assert(es@.skip(0) =~= es@);
    while i < es.len()
        invariant
            i <= es@.len(),
            first_true_key(es@) == first_true_key(es@.skip(i as int)),
        decreases es@.len() - i,
    {
        assert(es@.skip(i as int)[0] == es@[i as int]);
        assert(es@.skip(i as int).skip(1) =~= es@.skip(i + 1));
        match &es[i].1 {
            Json::Bool(true) => return Some(es[i].0.clone()),
            _ => {},
        }
        i += 1;
    }
    None
}

/// The mailbox a composed Email is filed into: the first `mailboxIds` entry set to `true` when
/// the store has it, else Drafts when the store has one, else INBOX.
pub open spec fn compose_target(m: StoreView, obj: Json) -> Seq<char> {
    let chosen = match crate::json::member(obj, "mailboxIds"@) {
        Some(Json::Obj(es)) => first_true_key(es@),
        _ => None,
    };
    if chosen is Some && lookup(m, chosen->0) is Some {
        chosen->0
    } else if lookup(m, "Drafts"@) is Some {
        "Drafts"@
    } else {
        "INBOX"@
    }
}

/// The keys of object members, in order.
pub open spec fn member_keys(es: Seq<(String, Json)>) -> Seq<Seq<char>> {
    Seq::new(es.len(), |i: int| es[i].0@)
}

/// The keys of the `keywords` object of an Email object, in order.
pub open spec fn keyword_keys(obj: Json) -> Seq<Seq<char>> {
    match crate::json::member(obj, "keywords"@) {
        Some(Json::Obj(es)) => member_keys(es@),
        _ => seq![],
    }
}

/// Flags that are the keywords, one for one, in order.
pub open spec fn flags_for(keys: Seq<Seq<char>>, flags: Seq<Flag>) -> bool {
    &&& flags.len() == keys.len()
    &&& forall|i: int| 0 <= i < keys.len() ==> flag_is_keyword(#[trigger] flags[i], keys[i])
}

fn flags_of_keys(es: &Vec<(String, Json)>) -> (r: Vec<Flag>)
    ensures
        flags_for(member_keys(es@), r@),
{
    let ghost keys = member_keys(es@);
    let mut out: Vec<Flag> = Vec::new();
    let mut i: usize = 0;
    while i < es.len()
        invariant
            i <= es@.len(),
            keys == member_keys(es@),
            out@.len() == i,
            forall|j: int| 0 <= j < i ==> flag_is_keyword(#[trigger] out@[j], keys[j]),
        decreases es@.len() - i,
    {
        out.push(flag_of_keyword(es[i].0.as_str()));
        i += 1;
    }
    out
}

/// The mailbox `b` with one more message: the next UID, `raw`, the keywords' flags, dated at
/// the epoch; the UID and modseq counters move on, nothing else changes.
pub open spec fn appended(b: Mailbox, raw: Seq<u8>, keys: Seq<Seq<char>>, nb: Mailbox) -> bool {
    &&& nb.messages@.len() == b.messages@.len() + 1
    &&& nb.messages@.drop_last() == b.messages@
    &&& nb.messages@.last().uid == b.uid_next
    &&& nb.messages@.last().raw@ == raw
    &&& flags_for(keys, nb.messages@.last().flags@)
    &&& nb.messages@.last().internal_date == 0
    &&& nb.uid_next == b.uid_next + 1
    &&& nb.highest_modseq == b.highest_modseq + 1
    &&& nb.name == b.name
    &&& nb.special_use == b.special_use
    &&& nb.uid_validity == b.uid_validity
    &&& nb.subscribed == b.subscribed
    &&& nb.expunged == b.expunged
}

/// The answer `{"type": "serverFail"}`.
pub open spec fn server_fail() -> JsonV {
    JsonV::Obj(seq![("type"@, text("serverFail"@))])
}

fn server_fail_json() -> (r: Json)
    ensures
        r.jv() == server_fail(),
{
    let mut es: Vec<(String, Json)> = Vec::new();
    put(&mut es, "type", jstr("serverFail"));
    assert(members(es@) =~= server_fail()->Obj_0);
    jobj(es)
}

/// What composing the create object `obj` does to the store `m` (ending at `m2`) and answers:
/// the target mailbox (see [`compose_target`]) missing is `notFound` and changes nothing; a
/// mailbox whose UID or modseq space is used up is `serverFail` and changes nothing; otherwise
/// the composed bytes are appended to it and the answer is the mailbox, the new UID and the size.
pub open spec fn compose_post(m: StoreView, obj: Json, m2: StoreView, r: Result<(Seq<char>, u32, nat), JsonV>) -> bool {
    let target = compose_target(m, obj);
    match lookup(m, target) {
        None => m2 == m && r == Err::<(Seq<char>, u32, nat), JsonV>(
            set_error("notFound"@, "mailboxIds references no such mailbox"@),
        ),
        Some(b) => if b.uid_next < u32::MAX && b.highest_modseq < u64::MAX {
            &&& r == Ok::<(Seq<char>, u32, nat), JsonV>((target, b.uid_next, compose_raw(obj).len()))
            &&& exists|nb: Mailbox| #[trigger]
                appended(b, compose_raw(obj), keyword_keys(obj), nb) && m2.entries == put_box(m, target, nb).entries
                    && m2.next_uid_validity == m.next_uid_validity
        } else {
            m2 == m && r == Err::<(Seq<char>, u32, nat), JsonV>(server_fail())
        },
    }
}

/// The plain view of a compose result.
pub open spec fn compose_view(r: Result<(String, u32, usize), Json>) -> Result<(Seq<char>, u32, nat), JsonV> {
    match r {
        Ok((mb, uid, size)) => Ok((mb@, uid, size as nat)),
        Err(e) => Err(e.jv()),
    }
}

/// Putting back the mailbox a store already holds changes nothing.
proof fn lemma_put_same(m: StoreView, name: Seq<char>, b: Mailbox)
    requires
        lookup(m, name) == Some(b),
    ensures
        put_box(m, name, b) == m,
{
    let k = crate::store::key_index(m.entries, name, 0);
    crate::store::lemma_key_index(m.entries, name, 0);
    assert(m.entries.update(k, (m.entries[k].0, b)) =~= m.entries);
}

/// Compose a JMAP `Email` create object (RFC 8621 §4.6) into RFC 5322 bytes and file it into
/// the store (see [`compose_post`]).
pub fn compose_email<S: MailStore>(store: &mut S, obj: &Json) -> (r: Result<(String, u32, usize), Json>)
    ensures
        compose_post(old(store).model(), *obj, final(store).model(), compose_view(r)),
{
    let ghost m = store.model();
    let chosen: Option<String> = match crate::json::json_get(obj, "mailboxIds") {
        Some(Json::Obj(es)) => first_true_key_exec(es),
        _ => None,
    };
    let target: String = match chosen {
        Some(k) => if store.mailbox(k.as_str()).is_some() {
            k
        } else if store.mailbox("Drafts").is_some() {
            "Drafts".to_string()
        } else {
            "INBOX".to_string()
        },
        None => if store.mailbox("Drafts").is_some() {
            "Drafts".to_string()
        } else {
            "INBOX".to_string()
        },
    };
    proof {
        reveal_strlit("Drafts");
        reveal_strlit("INBOX");
    }
    assert(target@ == compose_target(m, *obj));
    if store.mailbox(target.as_str()).is_none() {
        return Err(error_json("notFound", "mailboxIds references no such mailbox"));
    }
    let raw = compose_raw_exec(obj);
    let size = raw.len();
    let no_keywords: Vec<(String, Json)> = Vec::new();
    let kws: &Vec<(String, Json)> = match crate::json::json_get(obj, "keywords") {
        Some(Json::Obj(es)) => es,
        _ => &no_keywords,
    };
    let flags = flags_of_keys(kws);
    assert(member_keys(kws@) =~= keyword_keys(*obj));
    let ghost b = lookup(m, target@)->0;
    match store.mailbox_mut(target.as_str()) {
        Some(mb) => {
            if mb.uid_next == u32::MAX || mb.highest_modseq == u64::MAX {
                proof {
                    lemma_put_same(m, target@, b);
                }
                return Err(server_fail_json());
            }
            let uid = mb.append(raw, flags, 0);
            assert(appended(b, compose_raw(*obj), keyword_keys(*obj), *mb));
            Ok((target, uid, size))
        },
        None => Err(server_fail_json()),
    }
}


/// A flag list with `g` added unless it is already there.
pub open spec fn with_flag(f: Seq<Flag>, g: Flag) -> Seq<Flag> {
    if has_flag_spec(f, g) {
        f
    } else {
        f.push(g)
    }
}

/// Whether a member key is `keywords/<keyword>`.
pub open spec fn is_kw_path(k: Seq<char>) -> bool {
    let kb = utf8(k);
    kb.len() >= 9 && kb.take(9) == lit("keywords/")
}

/// The keyword a `keywords/<keyword>` member key names.
pub open spec fn kw_of_path(k: Seq<char>) -> Seq<char> {
    crate::text::utf8_lossy(utf8(k).skip(9))
}

/// One member of an update patch applied to flags `f`, giving `f2`: `keywords/<k>` set to
/// `null` or `false` removes the keyword's flag, set to anything else adds it; other members
/// leave the flags alone.
pub open spec fn patch_step(e: (String, Json), f: Seq<Flag>, f2: Seq<Flag>) -> bool {
    if is_kw_path(e.0@) {
        exists|g: Flag| #[trigger]
            flag_is_keyword(g, kw_of_path(e.0@)) && f2 == if e.1 == Json::Null || e.1 == Json::Bool(false) {
                f.filter(keeps_flag(g))
            } else {
                with_flag(f, g)
            }
    } else {
        f2 == f
    }
}

/// A `keywords` object replaces the flags by its keywords' (keeping `\Recent`); without one
/// the flags stay.
pub open spec fn keywords_reset(f: Seq<Flag>, patch: Json, f0: Seq<Flag>) -> bool {
    match crate::json::member(patch, "keywords"@) {
        Some(Json::Obj(es)) => exists|fk: Seq<Flag>| #[trigger]
            flags_for(member_keys(es@), fk) && f0 == if has_flag_spec(f, Flag::Recent) {
                with_flag(fk, Flag::Recent)
            } else {
                fk
            },
        _ => f0 == f,
    }
}

/// The flags `f` after the update patch `patch` (members `pes`): the keyword reset, then each
/// member in order.
pub open spec fn flags_patched(f: Seq<Flag>, pes: Seq<(String, Json)>, patch: Json, f2: Seq<Flag>) -> bool {
    exists|fs: Seq<Seq<Flag>>| #[trigger]
        fs_run(fs, f, pes, patch) && f2 == fs[pes.len() as int]
}

/// The flag states an update patch passes through.
pub open spec fn fs_run(fs: Seq<Seq<Flag>>, f: Seq<Flag>, pes: Seq<(String, Json)>, patch: Json) -> bool {
    &&& fs.len() == pes.len() + 1
    &&& keywords_reset(f, patch, fs[0])
    &&& forall|j: int| 0 <= j < pes.len() ==> patch_step(#[trigger] pes[j], fs[j], fs[j + 1])
}

/// The index of the first message with a UID.
pub open spec fn first_with_uid(ms: Seq<Message>, uid: u32) -> Option<int>
    decreases ms.len(),
{
    if ms.len() == 0 {
        None
    } else if ms[0].uid == uid {
        Some(0)
    } else {
        match first_with_uid(ms.skip(1), uid) {
            Some(i) => Some(i + 1),
            None => None,
        }
    }
}

/// The mailbox `b` with message `i` patched: its flags per the patch, its modseq the mailbox's
/// next; everything else as it was.
pub open spec fn msg_updated(b: Mailbox, i: int, pes: Seq<(String, Json)>, patch: Json, nb: Mailbox) -> bool {
    &&& nb.messages@.len() == b.messages@.len()
    &&& forall|j: int| 0 <= j < b.messages@.len() && j != i ==> #[trigger] nb.messages@[j] == b.messages@[j]
    &&& flags_patched(b.messages@[i].flags@, pes, patch, nb.messages@[i].flags@)
    &&& nb.messages@[i].uid == b.messages@[i].uid
    &&& nb.messages@[i].raw@ == b.messages@[i].raw@
    &&& nb.messages@[i].internal_date == b.messages@[i].internal_date
    &&& nb.messages@[i].created_modseq == b.messages@[i].created_modseq
    &&& nb.messages@[i].modseq == b.highest_modseq + 1
    &&& nb.highest_modseq == b.highest_modseq + 1
    &&& nb.name == b.name
    &&& nb.special_use == b.special_use
    &&& nb.uid_validity == b.uid_validity
    &&& nb.uid_next == b.uid_next
    &&& nb.subscribed == b.subscribed
    &&& nb.expunged == b.expunged
}

/// What an update of the Email `mb|uid` with `patch` does to the store `m` (ending at `m2`),
/// and whether it went through: no such mailbox or message, a patch that is not an object, or
/// a used-up modseq space changes nothing and fails.
pub open spec fn update_post(m: StoreView, mb: Seq<char>, uid: u32, patch: Json, m2: StoreView, ok: bool) -> bool {
    match (lookup(m, mb), patch) {
        (Some(b), Json::Obj(pes)) => match first_with_uid(b.messages@, uid) {
            Some(i) => if b.highest_modseq < u64::MAX {
                &&& ok
                &&& exists|nb: Mailbox| #[trigger]
                    msg_updated(b, i, pes@, patch, nb) && m2.entries == put_box(m, mb, nb).entries
                        && m2.next_uid_validity == m.next_uid_validity
            } else {
                !ok && m2 == m
            },
            None => !ok && m2 == m,
        },
        _ => !ok && m2 == m,
    }
}

fn first_with_uid_exec(ms: &Vec<Message>, uid: u32) -> (r: Option<usize>)
    ensures
        match r {
            Some(i) => first_with_uid(ms@, uid) == Some(i as int),
            None => first_with_uid(ms@, uid) is None,
        },
{
    let mut i: usize = 0;
    assert(ms@.skip(0) =~= ms@);
    while i < ms.len()
        invariant
            i <= ms@.len(),
            forall|j: int| 0 <= j < i ==> (#[trigger] ms@[j]).uid != uid,
            first_with_uid(ms@, uid) == match first_with_uid(ms@.skip(i as int), uid) {
                Some(k) => Some(k + i),
                None => None,
            },
        decreases ms@.len() - i,
    {
        assert(ms@.skip(i as int)[0] == ms@[i as int]);
        assert(ms@.skip(i as int).skip(1) =~= ms@.skip(i + 1));
        if ms[i].uid == uid {
            return Some(i);
        }
        i += 1;
    }
    assert(ms@.skip(i as int).len() == 0);
    None
}

proof fn lemma_first_with_uid(ms: Seq<Message>, uid: u32)
    ensures
        first_with_uid(ms, uid) matches Some(i) ==> 0 <= i < ms.len() && ms[i].uid == uid,
    decreases ms.len(),
{
    if ms.len() > 0 && ms[0].uid != uid {
        lemma_first_with_uid(ms.skip(1), uid);
    }
}

/// Whether a key starts with `keywords/`; the keyword text after it.
fn kw_path(k: &String) -> (r: Option<String>)
    ensures
        r is Some == is_kw_path(k@),
        r matches Some(t) ==> t@ == kw_of_path(k@),
{
    let b = k.as_str().as_bytes();
    if b.len() >= 9 && crate::bytes::is_lit(crate::bytes::slice_of(b, 0, 9), "keywords/") {
        assert(b@.subrange(0, 9) =~= b@.take(9));
        assert(b@.subrange(9, b@.len() as int) =~= b@.skip(9));
        Some(crate::text::lossy_string(crate::bytes::slice_of(b, 9, b.len())))
    } else {
        proof {
            if b@.len() >= 9 {
                assert(b@.subrange(0, 9) =~= b@.take(9));
            }
        }
        None
    }
}

/// Change the flags of one Email by an update patch (see [`update_post`]).
pub fn apply_email_update<S: MailStore>(store: &mut S, mb: &str, uid: u32, patch: &Json) -> (r: bool)
    ensures
        update_post(old(store).model(), mb@, uid, *patch, final(store).model(), r),
{
    let ghost m = store.model();
    let pes = match patch {
        Json::Obj(pes) => pes,
        _ => return false,
    };
    let i = match store.mailbox(mb) {
        Some(b) => match first_with_uid_exec(&b.messages, uid) {
            Some(i) => i,
            None => return false,
        },
        None => return false,
    };
    let ghost b = lookup(m, mb@)->0;
    proof {
        lemma_first_with_uid(b.messages@, uid);
    }
    let reset: Option<Vec<Flag>> = match crate::json::json_get(patch, "keywords") {
        Some(Json::Obj(es)) => Some(flags_of_keys(es)),
        _ => None,
    };
    match store.mailbox_mut(mb) {
        Some(mbox) => {
            if mbox.highest_modseq == u64::MAX {
                proof {
                    lemma_put_same(m, mb@, b);
                }
                return false;
            }
            let mut msg = mbox.messages.remove(i);
            let ghost f = msg.flags@;
            let ghost m0 = msg;
            match reset {
                Some(fk) => {
                    let recent = msg.has_flag(&Flag::Recent);
                    msg.flags = fk;
                    if recent {
                        msg.set_flag(Flag::Recent);
                    }
                },
                None => {},
            }
            let ghost mut fs: Seq<Seq<Flag>> = seq![msg.flags@];
            assert(keywords_reset(f, *patch, fs[0]));
            let mut j: usize = 0;
            while j < pes.len()
                invariant
                    j <= pes@.len(),
                    fs.len() == j + 1,
                    keywords_reset(f, *patch, fs[0]),
                    forall|q: int| 0 <= q < j ==> patch_step(#[trigger] pes@[q], fs[q], fs[q + 1]),
                    fs[j as int] == msg.flags@,
                    crate::store::same_but_flags(m0, msg),
                decreases pes@.len() - j,
            {
                let ghost before = msg.flags@;
                match kw_path(&pes[j].0) {
                    Some(kw) => {
                        let g = flag_of_keyword(kw.as_str());
                        let clear = match &pes[j].1 {
                            Json::Null => true,
                            Json::Bool(false) => true,
                            _ => false,
                        };
                        if clear {
                            msg.clear_flag(&g);
                        } else {
                            msg.set_flag(g);
                        }
                        assert(patch_step(pes@[j as int], before, msg.flags@));
                    },
                    None => {},
                }
                proof {
                    fs = fs.push(msg.flags@);
                }
                j += 1;
            }
            assert(fs_run(fs, f, pes@, *patch));
            assert(flags_patched(f, pes@, *patch, msg.flags@));
            mbox.highest_modseq = mbox.highest_modseq + 1;
            msg.modseq = mbox.highest_modseq;
            mbox.messages.insert(i, msg);
            assert(msg_updated(b, i as int, pes@, *patch, *mbox));
            true
        },
        None => false,
    }
}


/// The mailbox `b` without message `i`, which is logged as vanished at the next modseq.
pub open spec fn removed(b: Mailbox, i: int, nb: Mailbox) -> bool {
    &&& nb.messages@ == b.messages@.remove(i)
    &&& nb.highest_modseq == b.highest_modseq + 1
    &&& nb.expunged@ == b.expunged@.push((b.messages@[i].uid, nb.highest_modseq))
    &&& nb.name == b.name
    &&& nb.special_use == b.special_use
    &&& nb.uid_validity == b.uid_validity
    &&& nb.uid_next == b.uid_next
    &&& nb.subscribed == b.subscribed
}

/// What destroying the Email `id` does to the store `m` (ending at `m2`), and whether it went
/// through: a destroyed Email is a message of its mailbox with its UID, removed; one that is
/// not destroyed changes nothing, and is (with UIDs ascending and room in the modseq) one that
/// its mailbox does not hold.
pub open spec fn destroy_post(m: StoreView, id: Seq<char>, m2: StoreView, ok: bool) -> bool {
    match parse_email_id_spec(id) {
        Some((mb, uid)) => match lookup(m, mb) {
            Some(b) => if ok {
                exists|i: int, nb: Mailbox|
                    0 <= i < b.messages@.len() && b.messages@[i].uid == uid && #[trigger] removed(b, i, nb)
                        && m2.entries == put_box(m, mb, nb).entries && m2.next_uid_validity == m.next_uid_validity
            } else {
                &&& m2 == m
                &&& crate::store::uids_ascending(b.messages@) && b.highest_modseq < u64::MAX ==> forall|k: int|
                    0 <= k < b.messages@.len() ==> (#[trigger] b.messages@[k]).uid != uid
            },
            None => !ok && m2 == m,
        },
        None => !ok && m2 == m,
    }
}

fn destroy_one<S: MailStore>(store: &mut S, id: &str) -> (r: bool)
    ensures
        destroy_post(old(store).model(), id@, final(store).model(), r),
{
    let ghost m = store.model();
    let (mb, uid) = match parse_email_id(id) {
        Some(p) => p,
        None => return false,
    };
    let ghost b = lookup(m, mb@)->0;
    match store.mailbox_mut(mb.as_str()) {
        Some(mbox) => {
            if mbox.highest_modseq == u64::MAX {
                proof {
                    lemma_put_same(m, mb@, b);
                }
                return false;
            }
            match mbox.index_of_uid(uid) {
                Some(pos) => {
                    mbox.remove_at(pos);
                    assert(removed(b, pos as int, *mbox));
                    true
                },
                None => {
                    proof {
                        lemma_put_same(m, mb@, b);
                    }
                    false
                },
            }
        },
        None => false,
    }
}

/// The thread id of a message: `T` and its UID.
pub open spec fn thread_text(uid: u32) -> Seq<char> {
    vstd::utf8::decode_utf8(seq![84u8] + crate::smtp::dec_spec(uid as nat))
}

fn thread_id(uid: u32) -> (r: String)
    ensures
        r@ == thread_text(uid),
{
    let mut tail: Vec<u8> = Vec::new();
    tail.push(84u8);
    crate::smtp::push_dec(&mut tail, uid as usize);
    let ghost tv = seq![84u8] + crate::smtp::dec_spec(uid as nat);
    assert(tail@ =~= tv);
    proof {
        super::lemma_dec_ascii(uid as nat);
        assert forall|j: int| 0 <= j < tail@.len() implies tail@[j] < 128 by {
            if j > 0 {
                assert(tail@[j] == crate::smtp::dec_spec(uid as nat)[j - 1]);
            }
        }
    }
    let t = crate::text::ascii_string(tail);
    proof {
        vstd::utf8::encode_utf8_decode_utf8(t@);
    }
    t
}

/// The `created` entry of a composed Email.
pub open spec fn created_email(mb: Seq<char>, uid: u32, size: nat) -> JsonV {
    JsonV::Obj(
        seq![
            ("id"@, text(email_id_text(mb, uid))),
            ("blobId"@, text(email_id_text(mb, uid))),
            ("threadId"@, text(thread_text(uid))),
            ("size"@, nat_json(size)),
        ],
    )
}

fn created_email_json(mb: &str, uid: u32, size: usize) -> (r: Json)
    ensures
        r.jv() == created_email(mb@, uid, size as nat),
{
    let id = email_id(mb, uid);
    let mut es: Vec<(String, Json)> = Vec::new();
    put(&mut es, "id", jstr(id.as_str()));
    put(&mut es, "blobId", jstr(id.as_str()));
    put(&mut es, "threadId", jstring(thread_id(uid)));
    put(&mut es, "size", jnat(size as u64));
    assert(members(es@) =~= created_email(mb@, uid, size as nat)->Obj_0);
    jobj(es)
}

/// The created and not-created members of the creates done so far.
pub open spec fn email_create_members(es: Seq<(String, Json)>, rs: Seq<Result<(Seq<char>, u32, nat), JsonV>>) -> (
    Seq<(Seq<char>, JsonV)>,
    Seq<(Seq<char>, JsonV)>,
)
    decreases rs.len(),
{
    if rs.len() == 0 {
        (seq![], seq![])
    } else {
        let (c, nc) = email_create_members(es, rs.drop_last());
        let cid = es[rs.len() - 1].0@;
        match rs.last() {
            Ok((mb, uid, size)) => (c.push((cid, created_email(mb, uid, size))), nc),
            Err(e) => (c, nc.push((cid, e))),
        }
    }
}

/// The updated and not-updated members of the updates done so far.
pub open spec fn email_update_members(us: Seq<(String, Json)>, rs: Seq<bool>) -> (
    Seq<(Seq<char>, JsonV)>,
    Seq<(Seq<char>, JsonV)>,
)
    decreases rs.len(),
{
    if rs.len() == 0 {
        (seq![], seq![])
    } else {
        let (u, nu) = email_update_members(us, rs.drop_last());
        let id = us[rs.len() - 1].0@;
        if rs.last() {
            (u.push((id, JsonV::Null)), nu)
        } else {
            (u, nu.push((id, not_found())))
        }
    }
}

/// The destroyed ids and not-destroyed members of the destroys done so far.
pub open spec fn email_destroy_members(ds: Seq<Seq<char>>, rs: Seq<bool>) -> (Seq<JsonV>, Seq<(Seq<char>, JsonV)>)
    decreases rs.len(),
{
    if rs.len() == 0 {
        (seq![], seq![])
    } else {
        let (d, nd) = email_destroy_members(ds, rs.drop_last());
        let id = ds[rs.len() - 1];
        if rs.last() {
            (d.push(text(id)), nd)
        } else {
            (d, nd.push((id, not_found())))
        }
    }
}

/// What the `Email/set` calls went through: the stores around each create, update and
/// destroy, and the outcome of each.
pub ghost struct EmailSetTrace {
    pub creates: Seq<StoreView>,
    pub create_results: Seq<Result<(Seq<char>, u32, nat), JsonV>>,
    pub updates: Seq<StoreView>,
    pub update_results: Seq<bool>,
    pub destroys: Seq<StoreView>,
    pub destroy_results: Seq<bool>,
}

/// One update of an `Email/set`: an id that names no Email changes nothing and fails.
pub open spec fn email_update_step(e: (String, Json), m: StoreView, m2: StoreView, ok: bool) -> bool {
    match parse_email_id_spec(e.0@) {
        Some((mb, uid)) => update_post(m, mb, uid, e.1, m2, ok),
        None => !ok && m2 == m,
    }
}

/// The creates, in member order.
pub open spec fn email_creates_ran(es: Seq<(String, Json)>, t: EmailSetTrace) -> bool {
    &&& t.creates.len() == es.len() + 1
    &&& t.create_results.len() == es.len()
    &&& forall|k: int|
        0 <= k < es.len() ==> compose_post(t.creates[k], #[trigger] es[k].1, t.creates[k + 1], t.create_results[k])
}

/// The updates, in member order.
pub open spec fn email_updates_ran(us: Seq<(String, Json)>, t: EmailSetTrace) -> bool {
    &&& t.updates.len() == us.len() + 1
    &&& t.update_results.len() == us.len()
    &&& forall|k: int|
        0 <= k < us.len() ==> email_update_step(#[trigger] us[k], t.updates[k], t.updates[k + 1], t.update_results[k])
}

/// The destroys, in list order.
pub open spec fn email_destroys_ran(ds: Seq<Seq<char>>, t: EmailSetTrace) -> bool {
    &&& t.destroys.len() == ds.len() + 1
    &&& t.destroy_results.len() == ds.len()
    &&& forall|k: int|
        0 <= k < ds.len() ==> destroy_post(t.destroys[k], #[trigger] ds[k], t.destroys[k + 1], t.destroy_results[k])
}

/// `Email/set` over the store `m0`, ending at `mf`, as the trace `t` ran it: the creates, then
/// the updates, then the destroys, each through its own post-condition, and the response made
/// of their outcomes.
pub open spec fn email_set_ran(m0: StoreView, account: Seq<char>, args: Json, mf: StoreView, r: Result<JsonV, JsonV>, t: EmailSetTrace) -> bool {
    let es = obj_members(crate::json::member(args, "create"@));
    let us = obj_members(crate::json::member(args, "update"@));
    let ds = arr_strings(crate::json::member(args, "destroy"@));
    let (c, nc) = email_create_members(es, t.create_results);
    let (u, nu) = email_update_members(us, t.update_results);
    let (d, nd) = email_destroy_members(ds, t.destroy_results);
    &&& email_creates_ran(es, t) && t.creates[0] == m0
    &&& email_updates_ran(us, t) && t.updates[0] == t.creates[es.len() as int]
    &&& email_destroys_ran(ds, t) && t.destroys[0] == t.updates[us.len() as int] && mf == t.destroys[ds.len() as int]
    &&& r == Ok::<JsonV, JsonV>(
        JsonV::Obj(
            seq![
                ("accountId"@, text(account)),
                ("oldState"@, text("0"@)),
                ("newState"@, text(state_chars(mf))),
                ("created"@, JsonV::Obj(c)),
                ("updated"@, JsonV::Obj(u)),
                ("destroyed"@, JsonV::Arr(d)),
                ("notCreated"@, JsonV::Obj(nc)),
                ("notUpdated"@, JsonV::Obj(nu)),
                ("notDestroyed"@, JsonV::Obj(nd)),
            ],
        ),
    )
}

fn run_email_creates<S: MailStore>(
    store: &mut S,
    es: &Vec<(String, Json)>,
    created: &mut Vec<(String, Json)>,
    not_created: &mut Vec<(String, Json)>,
) -> (t: Ghost<(Seq<StoreView>, Seq<Result<(Seq<char>, u32, nat), JsonV>>)>)
    requires
        members(old(created)@).len() == 0,
        members(old(not_created)@).len() == 0,
    ensures
        t@.0.len() == es@.len() + 1,
        t@.1.len() == es@.len(),
        t@.0[0] == old(store).model(),
        t@.0[es@.len() as int] == final(store).model(),
        forall|k: int| 0 <= k < es@.len() ==> compose_post(t@.0[k], #[trigger] es@[k].1, t@.0[k + 1], t@.1[k]),
        members(final(created)@) == email_create_members(es@, t@.1).0,
        members(final(not_created)@) == email_create_members(es@, t@.1).1,
{
    let ghost mut ms: Seq<StoreView> = seq![store.model()];
    let ghost mut rs: Seq<Result<(Seq<char>, u32, nat), JsonV>> = seq![];
    assert(members(created@) =~= email_create_members(es@, rs).0);
    assert(members(not_created@) =~= email_create_members(es@, rs).1);
    let mut k: usize = 0;
    while k < es.len()
        invariant
            k <= es@.len(),
            ms.len() == k + 1,
            rs.len() == k,
            ms[0] == old(store).model(),
            ms[k as int] == store.model(),
            forall|j: int| 0 <= j < k ==> compose_post(ms[j], #[trigger] es@[j].1, ms[j + 1], rs[j]),
            members(created@) == email_create_members(es@, rs).0,
            members(not_created@) == email_create_members(es@, rs).1,
        decreases es@.len() - k,
    {
        let cid = &es[k].0;
        let res = compose_email(store, &es[k].1);
        let ghost rv = compose_view(res);
        match res {
            Ok((mb, uid, size)) => {
                let j = created_email_json(mb.as_str(), uid, size);
                let ghost before = members(created@);
                created.push((cid.clone(), j));
                assert(members(created@) =~= before.push((cid@, created_email(mb@, uid, size as nat))));
            },
            Err(e) => {
                let ghost before = members(not_created@);
                not_created.push((cid.clone(), e));
                assert(members(not_created@) =~= before.push((cid@, rv->Err_0)));
            },
        }
        proof {
            assert(rs.push(rv).drop_last() =~= rs);
            ms = ms.push(store.model());
            rs = rs.push(rv);
        }
        k += 1;
    }
    Ghost((ms, rs))
}


fn run_email_updates<S: MailStore>(
    store: &mut S,
    us: &Vec<(String, Json)>,
    updated: &mut Vec<(String, Json)>,
    not_updated: &mut Vec<(String, Json)>,
) -> (t: Ghost<(Seq<StoreView>, Seq<bool>)>)
    requires
        members(old(updated)@).len() == 0,
        members(old(not_updated)@).len() == 0,
    ensures
        t@.0.len() == us@.len() + 1,
        t@.1.len() == us@.len(),
        t@.0[0] == old(store).model(),
        t@.0[us@.len() as int] == final(store).model(),
        forall|k: int| 0 <= k < us@.len() ==> email_update_step(#[trigger] us@[k], t@.0[k], t@.0[k + 1], t@.1[k]),
        members(final(updated)@) == email_update_members(us@, t@.1).0,
        members(final(not_updated)@) == email_update_members(us@, t@.1).1,
{
    let ghost mut ms: Seq<StoreView> = seq![store.model()];
    let ghost mut rs: Seq<bool> = seq![];
    assert(members(updated@) =~= email_update_members(us@, rs).0);
    assert(members(not_updated@) =~= email_update_members(us@, rs).1);
    let mut k: usize = 0;
    while k < us.len()
        invariant
            k <= us@.len(),
            ms.len() == k + 1,
            rs.len() == k,
            ms[0] == old(store).model(),
            ms[k as int] == store.model(),
            forall|j: int| 0 <= j < k ==> email_update_step(#[trigger] us@[j], ms[j], ms[j + 1], rs[j]),
            members(updated@) == email_update_members(us@, rs).0,
            members(not_updated@) == email_update_members(us@, rs).1,
        decreases us@.len() - k,
    {
        let id = &us[k].0;
        let ok = match parse_email_id(id.as_str()) {
            Some((mb, uid)) => apply_email_update(store, mb.as_str(), uid, &us[k].1),
            None => false,
        };
        if ok {
            let ghost before = members(updated@);
            updated.push((id.clone(), Json::Null));
            assert(members(updated@) =~= before.push((id@, JsonV::Null)));
        } else {
            let ghost before = members(not_updated@);
            not_updated.push((id.clone(), not_found_json()));
            assert(members(not_updated@) =~= before.push((id@, not_found())));
        }
        proof {
            assert(rs.push(ok).drop_last() =~= rs);
            ms = ms.push(store.model());
            rs = rs.push(ok);
        }
        k += 1;
    }
    Ghost((ms, rs))
}

fn run_email_destroys<S: MailStore>(
    store: &mut S,
    ds: &Vec<String>,
    destroyed: &mut Vec<Json>,
    not_destroyed: &mut Vec<(String, Json)>,
    Ghost(dv): Ghost<Seq<Seq<char>>>,
) -> (t: Ghost<(Seq<StoreView>, Seq<bool>)>)
    requires
        elems(old(destroyed)@).len() == 0,
        members(old(not_destroyed)@).len() == 0,
        dv.len() == ds@.len(),
        forall|k: int| 0 <= k < ds@.len() ==> (#[trigger] ds@[k])@ == dv[k],
    ensures
        t@.0.len() == dv.len() + 1,
        t@.1.len() == dv.len(),
        t@.0[0] == old(store).model(),
        t@.0[dv.len() as int] == final(store).model(),
        forall|k: int| 0 <= k < dv.len() ==> destroy_post(t@.0[k], #[trigger] dv[k], t@.0[k + 1], t@.1[k]),
        elems(final(destroyed)@) == email_destroy_members(dv, t@.1).0,
        members(final(not_destroyed)@) == email_destroy_members(dv, t@.1).1,
{
    let ghost mut ms: Seq<StoreView> = seq![store.model()];
    let ghost mut rs: Seq<bool> = seq![];
    assert(elems(destroyed@) =~= email_destroy_members(dv, rs).0);
    assert(members(not_destroyed@) =~= email_destroy_members(dv, rs).1);
    let mut k: usize = 0;
    while k < ds.len()
        invariant
            k <= ds@.len(),
            dv.len() == ds@.len(),
            forall|j: int| 0 <= j < ds@.len() ==> (#[trigger] ds@[j])@ == dv[j],
            ms.len() == k + 1,
            rs.len() == k,
            ms[0] == old(store).model(),
            ms[k as int] == store.model(),
            forall|j: int| 0 <= j < k ==> destroy_post(ms[j], #[trigger] dv[j], ms[j + 1], rs[j]),
            elems(destroyed@) == email_destroy_members(dv, rs).0,
            members(not_destroyed@) == email_destroy_members(dv, rs).1,
        decreases ds@.len() - k,
    {
        let id = ds[k].as_str();
        assert(id@ == dv[k as int]);
        let ok = destroy_one(store, id);
        if ok {
            let ghost before = elems(destroyed@);
            push_elem(destroyed, jstr(id));
            assert(elems(destroyed@) =~= before.push(text(dv[k as int])));
        } else {
            let ghost before = members(not_destroyed@);
            put(not_destroyed, id, not_found_json());
            assert(members(not_destroyed@) =~= before.push((dv[k as int], not_found())));
        }
        proof {
            assert(rs.push(ok).drop_last() =~= rs);
            ms = ms.push(store.model());
            rs = rs.push(ok);
        }
        k += 1;
    }
    Ghost((ms, rs))
}

/// `Email/set` (RFC 8621 §4.6): compose the created Emails into the store, change the
/// keywords of the updated ones, destroy the destroyed ones, in that order; more than
/// [`MAX_OBJECTS_IN_SET`] objects is refused before anything changes.
pub fn email_set<S: MailStore>(store: &mut S, account: &str, args: &Json) -> (r: Result<Json, Json>)
    ensures
        set_count(*args) > MAX_OBJECTS_IN_SET ==> result_jv(r) == Err::<JsonV, JsonV>(
            set_error("requestTooLarge"@, "more than maxObjectsInSet objects in one /set"@),
        ) && final(store).model() == old(store).model(),
        set_count(*args) <= MAX_OBJECTS_IN_SET ==> exists|t: EmailSetTrace|
            #[trigger] email_set_ran(old(store).model(), account@, *args, final(store).model(), result_jv(r), t),
{
    match enforce_set_limit(args) {
        Err(e) => return Err(e),
        Ok(()) => {},
    }
    let empty: Vec<(String, Json)> = Vec::new();
    let es = obj_arg(args, "create", &empty);
    let us = obj_arg(args, "update", &empty);
    let no_ids: Vec<String> = Vec::new();
    let ds: Vec<String> = match crate::json::json_get(args, "destroy") {
        Some(Json::Arr(a)) => strings_exec(a),
        _ => no_ids,
    };
    let ghost dv = arr_strings(crate::json::member(*args, "destroy"@));
    assert(dv.len() == ds@.len());
    let mut created: Vec<(String, Json)> = Vec::new();
    let mut not_created: Vec<(String, Json)> = Vec::new();
    let mut updated: Vec<(String, Json)> = Vec::new();
    let mut not_updated: Vec<(String, Json)> = Vec::new();
    let mut destroyed: Vec<Json> = Vec::new();
    let mut not_destroyed: Vec<(String, Json)> = Vec::new();
    let Ghost(tc) = run_email_creates(store, es, &mut created, &mut not_created);
    let Ghost(tu) = run_email_updates(store, us, &mut updated, &mut not_updated);
    let Ghost(td) = run_email_destroys(store, &ds, &mut destroyed, &mut not_destroyed, Ghost(dv));
    let ghost t = EmailSetTrace {
        creates: tc.0,
        create_results: tc.1,
        updates: tu.0,
        update_results: tu.1,
        destroys: td.0,
        destroy_results: td.1,
    };
    let mut out: Vec<(String, Json)> = Vec::new();
    put(&mut out, "accountId", jstr(account));
    put(&mut out, "oldState", jstr("0"));
    put(&mut out, "newState", jstring(state_string(store)));
    put(&mut out, "created", jobj(created));
    put(&mut out, "updated", jobj(updated));
    put(&mut out, "destroyed", jarr(destroyed));
    put(&mut out, "notCreated", jobj(not_created));
    put(&mut out, "notUpdated", jobj(not_updated));
    put(&mut out, "notDestroyed", jobj(not_destroyed));
    assert(members(out@) =~= seq![
        ("accountId"@, text(account@)),
        ("oldState"@, text("0"@)),
        ("newState"@, text(state_chars(store.model()))),
        ("created"@, JsonV::Obj(email_create_members(es@, t.create_results).0)),
        ("updated"@, JsonV::Obj(email_update_members(us@, t.update_results).0)),
        ("destroyed"@, JsonV::Arr(email_destroy_members(dv, t.destroy_results).0)),
        ("notCreated"@, JsonV::Obj(email_create_members(es@, t.create_results).1)),
        ("notUpdated"@, JsonV::Obj(email_update_members(us@, t.update_results).1)),
        ("notDestroyed"@, JsonV::Obj(email_destroy_members(dv, t.destroy_results).1)),
    ]);
    let r = jobj(out);
    assert(email_set_ran(old(store).model(), account@, *args, store.model(), result_jv(Ok::<Json, Json>(r)), t));
    Ok(r)
}

} // verus!
