//! The account-level JMAP methods that hold no mail: Identity (RFC 8621 §6), EmailSubmission
//! (§7) and the PushSubscription listing (RFC 8620 §7.2).
use vstd::prelude::*;
use crate::json::{elems, jarr, jobj, jstr, jstring, members, push_elem, put, str_of, Json, JsonV};
use super::{arr_strings, obj_arg, obj_members, strings_exec, text};

verus! {

/// The answer `{}`.
pub open spec fn empty_obj() -> JsonV {
    JsonV::Obj(seq![])
}

/// The answer `[]`.
pub open spec fn empty_arr() -> JsonV {
    JsonV::Arr(seq![])
}

fn empty_arr_json() -> (r: Json)
    ensures
        r.jv() == empty_arr(),
{
    let a: Vec<Json> = Vec::new();
    assert(elems(a@) =~= Seq::<JsonV>::empty());
    jarr(a)
}

fn empty_obj_json() -> (r: Json)
    ensures
        r.jv() == empty_obj(),
{
    let es: Vec<(String, Json)> = Vec::new();
    assert(members(es@) =~= Seq::<(Seq<char>, JsonV)>::empty());
    jobj(es)
}

/// The account's one built-in identity, `I0`: its name and address are the account.
pub open spec fn default_identity(account: Seq<char>) -> JsonV {
    JsonV::Obj(
        seq![
            ("id"@, text("I0"@)),
            ("name"@, text(account)),
            ("email"@, text(account)),
            ("replyTo"@, JsonV::Null),
            ("bcc"@, JsonV::Null),
            ("textSignature"@, text(""@)),
            ("htmlSignature"@, text(""@)),
            ("mayDelete"@, JsonV::Bool(false)),
        ],
    )
}

fn default_identity_json(account: &str) -> (r: Json)
    ensures
        r.jv() == default_identity(account@),
{
    let mut es: Vec<(String, Json)> = Vec::new();
    put(&mut es, "id", jstr("I0"));
    put(&mut es, "name", jstr(account));
    put(&mut es, "email", jstr(account));
    put(&mut es, "replyTo", Json::Null);
    put(&mut es, "bcc", Json::Null);
    put(&mut es, "textSignature", jstr(""));
    put(&mut es, "htmlSignature", jstr(""));
    put(&mut es, "mayDelete", Json::Bool(false));
    assert(members(es@) =~= default_identity(account@)->Obj_0);
    jobj(es)
}

/// Whether the `ids` of a `/get` leave the default identity out: an id list without `I0`.
pub open spec fn ids_skip_default(args: Json) -> bool {
    match crate::json::member(args, "ids"@) {
        Some(Json::Arr(a)) => !arr_strings(Some(Json::Arr(a))).contains("I0"@),
        _ => false,
    }
}

/// The texts of strings.
pub open spec fn texts(v: Seq<String>) -> Seq<Seq<char>> {
    v.map_values(|s: String| s@)
}

fn strings_contain(v: &Vec<String>, t: &str) -> (r: bool)
    ensures
        r == texts(v@).contains(t@),
{
    let mut i: usize = 0;
    while i < v.len()
        invariant
            i <= v@.len(),
            forall|j: int| 0 <= j < i ==> v@[j]@ != t@,
        decreases v@.len() - i,
    {
        if crate::bytes::bytes_eq(v[i].as_str().as_bytes(), t.as_bytes()) {
            proof {
                vstd::utf8::encode_utf8_decode_utf8(v@[i as int]@);
                vstd::utf8::encode_utf8_decode_utf8(t@);
                assert(texts(v@)[i as int] == t@);
            }
            return true;
        }
        proof {
            if v@[i as int]@ == t@ {
                assert(crate::bytes::utf8(v@[i as int]@) == crate::bytes::utf8(t@));
            }
        }
        i += 1;
    }
    proof {
        if texts(v@).contains(t@) {
            let j = choose|j: int| 0 <= j < v@.len() && #[trigger] texts(v@)[j] == t@;
            assert(v@[j]@ == t@);
        }
    }
    false
}

/// `Identity/get` (RFC 8621 §6.1): the default identity, unless an id list leaves it out.
pub open spec fn identity_get_spec(account: Seq<char>, args: Json) -> JsonV {
    JsonV::Obj(
        seq![
            ("accountId"@, text(account)),
            ("state"@, text("0"@)),
            ("list"@, JsonV::Arr(if ids_skip_default(args) { seq![] } else { seq![default_identity(account)] })),
            ("notFound"@, empty_arr()),
        ],
    )
}

pub fn identity_get(account: &str, args: &Json) -> (r: Json)
    ensures
        r.jv() == identity_get_spec(account@, *args),
{
    let skip = match crate::json::json_get(args, "ids") {
        Some(Json::Arr(a)) => {
            let ss = strings_exec(a);
            proof {
                assert(texts(ss@) =~= arr_strings(Some(Json::Arr(*a))));
            }
            !strings_contain(&ss, "I0")
        },
        _ => false,
    };
    let mut list: Vec<Json> = Vec::new();
    if !skip {
        push_elem(&mut list, default_identity_json(account));
    }
    assert(elems(list@) =~= (if ids_skip_default(*args) { seq![] } else { seq![default_identity(account@)] }));
    let mut es: Vec<(String, Json)> = Vec::new();
    put(&mut es, "accountId", jstr(account));
    put(&mut es, "state", jstr("0"));
    put(&mut es, "list", jarr(list));
    put(&mut es, "notFound", empty_arr_json());
    assert(members(es@) =~= identity_get_spec(account@, *args)->Obj_0);
    jobj(es)
}

/// The `sinceState` of a `/changes` call, `"0"` when there is none.
pub open spec fn since_state(args: Json) -> Seq<char> {
    match crate::json::member(args, "sinceState"@) {
        Some(Json::Str(s)) => s@,
        _ => "0"@,
    }
}

/// `Identity/changes` (RFC 8621 §6.2): the identities never change.
pub open spec fn identity_changes_spec(account: Seq<char>, args: Json) -> JsonV {
    JsonV::Obj(
        seq![
            ("accountId"@, text(account)),
            ("oldState"@, text(since_state(args))),
            ("newState"@, text("0"@)),
            ("hasMoreChanges"@, JsonV::Bool(false)),
            ("created"@, empty_arr()),
            ("updated"@, empty_arr()),
            ("destroyed"@, empty_arr()),
        ],
    )
}

pub fn identity_changes(account: &str, args: &Json) -> (r: Json)
    ensures
        r.jv() == identity_changes_spec(account@, *args),
{
    let since: String = match crate::json::json_get(args, "sinceState") {
        Some(Json::Str(s)) => s.clone(),
        _ => "0".to_string(),
    };
    let mut es: Vec<(String, Json)> = Vec::new();
    put(&mut es, "accountId", jstr(account));
    put(&mut es, "oldState", jstring(since));
    put(&mut es, "newState", jstr("0"));
    put(&mut es, "hasMoreChanges", Json::Bool(false));
    put(&mut es, "created", empty_arr_json());
    put(&mut es, "updated", empty_arr_json());
    put(&mut es, "destroyed", empty_arr_json());
    assert(members(es@) =~= identity_changes_spec(account@, *args)->Obj_0);
    jobj(es)
}

/// A created identity: id `I-<creation id>`, the requested address (the account's without
/// one), deletable.
pub open spec fn created_identity(cid: Seq<char>, obj: Json, account: Seq<char>) -> JsonV {
    JsonV::Obj(
        seq![
            ("id"@, text("I-"@ + cid)),
            ("email"@, text(
                match crate::json::member(obj, "email"@) {
                    Some(Json::Str(e)) => e@,
                    _ => account,
                },
            )),
            ("mayDelete"@, JsonV::Bool(true)),
        ],
    )
}

/// The created entries of the first `n` create members.
pub open spec fn created_identities(es: Seq<(String, Json)>, account: Seq<char>, n: nat) -> Seq<(Seq<char>, JsonV)>
    decreases n,
{
    if n == 0 || n > es.len() {
        seq![]
    } else {
        created_identities(es, account, (n - 1) as nat).push(
            (es[n - 1].0@, created_identity(es[n - 1].0@, es[n - 1].1, account)),
        )
    }
}

/// `Identity/set` (RFC 8621 §6.3): every create is accepted; destroying the default identity is
/// forbidden; nothing else changes.
pub open spec fn identity_set_spec(account: Seq<char>, args: Json) -> JsonV {
    let es = obj_members(crate::json::member(args, "create"@));
    let forbid = arr_strings(crate::json::member(args, "destroy"@)).contains("I0"@);
    JsonV::Obj(
        seq![
            ("accountId"@, text(account)),
            ("oldState"@, text("0"@)),
            ("newState"@, text("0"@)),
            ("created"@, JsonV::Obj(created_identities(es, account, es.len()))),
            ("updated"@, empty_obj()),
            ("destroyed"@, empty_arr()),
            ("notCreated"@, empty_obj()),
            ("notUpdated"@, empty_obj()),
            ("notDestroyed"@, JsonV::Obj(
                if forbid {
                    seq![("I0"@, JsonV::Obj(seq![("type"@, text("forbidden"@)), ("description"@, text("default identity"@))]))]
                } else {
                    seq![]
                },
            )),
        ],
    )
}

pub fn identity_set(account: &str, args: &Json) -> (r: Json)
    ensures
        r.jv() == identity_set_spec(account@, *args),
{
    let empty: Vec<(String, Json)> = Vec::new();
    let es = obj_arg(args, "create", &empty);
    let mut created: Vec<(String, Json)> = Vec::new();
    let mut k: usize = 0;
    while k < es.len()
        invariant
            k <= es@.len(),
            members(created@) == created_identities(es@, account@, k as nat),
        decreases es@.len() - k,
    {
        let cid = &es[k].0;
        let mut id = "I-".to_string();
        id.append(cid.as_str());
        let email: String = match crate::json::json_get(&es[k].1, "email") {
            Some(Json::Str(e)) => e.clone(),
            _ => account.to_string(),
        };
        let mut o: Vec<(String, Json)> = Vec::new();
        put(&mut o, "id", jstring(id));
        put(&mut o, "email", jstring(email));
        put(&mut o, "mayDelete", Json::Bool(true));
        assert(members(o@) =~= created_identity(cid@, es@[k as int].1, account@)->Obj_0);
        let ghost before = members(created@);
        put(&mut created, cid.as_str(), jobj(o));
        assert(members(created@) =~= before.push((cid@, created_identity(cid@, es@[k as int].1, account@))));
        k += 1;
    }
    let ds: Vec<String> = match crate::json::json_get(args, "destroy") {
        Some(Json::Arr(a)) => strings_exec(a),
        _ => Vec::new(),
    };
    proof {
        assert(texts(ds@) =~= arr_strings(crate::json::member(*args, "destroy"@)));
    }
    let forbid = strings_contain(&ds, "I0");
    let mut nd: Vec<(String, Json)> = Vec::new();
    if forbid {
        let mut f: Vec<(String, Json)> = Vec::new();
        put(&mut f, "type", jstr("forbidden"));
        put(&mut f, "description", jstr("default identity"));
        assert(members(f@) =~= seq![("type"@, text("forbidden"@)), ("description"@, text("default identity"@))]);
        put(&mut nd, "I0", jobj(f));
    }
    assert(members(nd@) =~= (if forbid {
        seq![("I0"@, JsonV::Obj(seq![("type"@, text("forbidden"@)), ("description"@, text("default identity"@))]))]
    } else {
        Seq::<(Seq<char>, JsonV)>::empty()
    }));
    assert(members(created@) == created_identities(es@, account@, es@.len() as nat));
    let mut out: Vec<(String, Json)> = Vec::new();
    put(&mut out, "accountId", jstr(account));
    put(&mut out, "oldState", jstr("0"));
    put(&mut out, "newState", jstr("0"));
    put(&mut out, "created", jobj(created));
    put(&mut out, "updated", empty_obj_json());
    put(&mut out, "destroyed", empty_arr_json());
    put(&mut out, "notCreated", empty_obj_json());
    put(&mut out, "notUpdated", empty_obj_json());
    put(&mut out, "notDestroyed", jobj(nd));
    assert(members(out@) =~= identity_set_spec(account@, *args)->Obj_0);
    jobj(out)
}


/// `EmailSubmission/get` (RFC 8621 §7.1): submissions are not kept here, so every requested
/// id (the strings of `ids`) is not found.
pub open spec fn submission_get_spec(account: Seq<char>, args: Json) -> JsonV {
    JsonV::Obj(
        seq![
            ("accountId"@, text(account)),
            ("state"@, text("0"@)),
            ("list"@, empty_arr()),
            ("notFound"@, JsonV::Arr(arr_strings(crate::json::member(args, "ids"@)).map_values(|t: Seq<char>| text(t)))),
        ],
    )
}

pub fn submission_get(account: &str, args: &Json) -> (r: Json)
    ensures
        r.jv() == submission_get_spec(account@, *args),
{
    let ids: Vec<String> = match crate::json::json_get(args, "ids") {
        Some(Json::Arr(a)) => strings_exec(a),
        _ => Vec::new(),
    };
    let ghost want = arr_strings(crate::json::member(*args, "ids"@));
    let mut nf: Vec<Json> = Vec::new();
    let mut k: usize = 0;
    while k < ids.len()
        invariant
            k <= ids@.len(),
            ids@.len() == want.len(),
            forall|j: int| 0 <= j < ids@.len() ==> (#[trigger] ids@[j])@ == want[j],
            elems(nf@) == want.take(k as int).map_values(|t: Seq<char>| text(t)),
        decreases ids@.len() - k,
    {
        let ghost before = elems(nf@);
        push_elem(&mut nf, jstr(ids[k].as_str()));
        assert(want.take(k + 1).map_values(|t: Seq<char>| text(t)) =~= before.push(text(want[k as int])));
        k += 1;
    }
    assert(want.take(want.len() as int) =~= want);
    let mut es: Vec<(String, Json)> = Vec::new();
    put(&mut es, "accountId", jstr(account));
    put(&mut es, "state", jstr("0"));
    put(&mut es, "list", empty_arr_json());
    put(&mut es, "notFound", jarr(nf));
    assert(members(es@) =~= submission_get_spec(account@, *args)->Obj_0);
    jobj(es)
}

/// A submission as created: id `sub-<creation id>`, sent at once (dated at the epoch), final,
/// naming the Email it submits (`null` without one).
pub open spec fn created_submission(cid: Seq<char>, sub: Json) -> JsonV {
    JsonV::Obj(
        seq![
            ("id"@, text("sub-"@ + cid)),
            ("sendAt"@, text(crate::text::utf8_lossy(crate::date::rfc5322_date_text(0)))),
            ("undoStatus"@, text("final"@)),
            ("emailId"@, match crate::json::member(sub, "emailId"@) {
                Some(v) => v.jv(),
                None => JsonV::Null,
            }),
        ],
    )
}

/// The created entries of the first `n` submission creates.
pub open spec fn created_submissions(es: Seq<(String, Json)>, n: nat) -> Seq<(Seq<char>, JsonV)>
    decreases n,
{
    if n == 0 || n > es.len() {
        seq![]
    } else {
        created_submissions(es, (n - 1) as nat).push((es[n - 1].0@, created_submission(es[n - 1].0@, es[n - 1].1)))
    }
}

/// `EmailSubmission/set` (RFC 8621 §7.5): every create is accepted as sent (the node's outbound
/// path does the sending); nothing else changes.
pub open spec fn submission_set_spec(account: Seq<char>, args: Json) -> JsonV {
    let es = obj_members(crate::json::member(args, "create"@));
    JsonV::Obj(
        seq![
            ("accountId"@, text(account)),
            ("oldState"@, text("0"@)),
            ("newState"@, text("0"@)),
            ("created"@, JsonV::Obj(created_submissions(es, es.len()))),
            ("updated"@, empty_obj()),
            ("destroyed"@, empty_arr()),
            ("notCreated"@, empty_obj()),
        ],
    )
}

pub fn submission_set(account: &str, args: &Json) -> (r: Json)
    ensures
        r.jv() == submission_set_spec(account@, *args),
{
    let empty: Vec<(String, Json)> = Vec::new();
    let es = obj_arg(args, "create", &empty);
    let mut created: Vec<(String, Json)> = Vec::new();
    let mut k: usize = 0;
    while k < es.len()
        invariant
            k <= es@.len(),
            members(created@) == created_submissions(es@, k as nat),
        decreases es@.len() - k,
    {
        let cid = &es[k].0;
        let mut id = "sub-".to_string();
        id.append(cid.as_str());
        let email_id: Json = match crate::json::json_get(&es[k].1, "emailId") {
            Some(v) => crate::json::json_copy(v),
            None => Json::Null,
        };
        let mut o: Vec<(String, Json)> = Vec::new();
        put(&mut o, "id", jstring(id));
        put(&mut o, "sendAt", jstring(crate::date::format_rfc5322_date(0)));
        put(&mut o, "undoStatus", jstr("final"));
        put(&mut o, "emailId", email_id);
        assert(members(o@) =~= created_submission(cid@, es@[k as int].1)->Obj_0);
        let ghost before = members(created@);
        put(&mut created, cid.as_str(), jobj(o));
        assert(members(created@) =~= before.push((cid@, created_submission(cid@, es@[k as int].1))));
        k += 1;
    }
    let mut out: Vec<(String, Json)> = Vec::new();
    put(&mut out, "accountId", jstr(account));
    put(&mut out, "oldState", jstr("0"));
    put(&mut out, "newState", jstr("0"));
    put(&mut out, "created", jobj(created));
    put(&mut out, "updated", empty_obj_json());
    put(&mut out, "destroyed", empty_arr_json());
    put(&mut out, "notCreated", empty_obj_json());
    assert(members(out@) =~= submission_set_spec(account@, *args)->Obj_0);
    jobj(out)
}

/// `PushSubscription/get` (RFC 8620 §7.2): subscriptions belong to a connection, so a session
/// lists none.
pub open spec fn push_subscription_get_spec() -> JsonV {
    JsonV::Obj(seq![("state"@, text("0"@)), ("list"@, empty_arr()), ("notFound"@, empty_arr())])
}

pub fn push_subscription_get(args: &Json) -> (r: Json)
    ensures
        r.jv() == push_subscription_get_spec(),
{
    let mut es: Vec<(String, Json)> = Vec::new();
    put(&mut es, "state", jstr("0"));
    put(&mut es, "list", empty_arr_json());
    put(&mut es, "notFound", empty_arr_json());
    assert(members(es@) =~= push_subscription_get_spec()->Obj_0);
    jobj(es)
}

} // verus!
