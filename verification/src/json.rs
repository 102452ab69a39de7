//! The few `serde_json` calls the adapters make: quoting a string for a JSON document, and
//! reading a platform's JSON reply into a [`Json`] document whose members are then read here.
use vstd::prelude::*;

verus! {

/// The JSON escape of one byte of UTF-8 text, as `serde_json` writes it: `"` and `\` behind a
/// backslash, BS/TAB/LF/FF/CR as `\b \t \n \f \r`, any other control byte as `\u00xx` with
/// lower-case hex, everything else verbatim.
pub open spec fn json_escape_byte(b: u8) -> Seq<u8> {
    if b == 34 {
        seq![92u8, 34u8]
    } else if b == 92 {
        seq![92u8, 92u8]
    } else if b == 8 {
        seq![92u8, 98u8]
    } else if b == 9 {
        seq![92u8, 116u8]
    } else if b == 10 {
        seq![92u8, 110u8]
    } else if b == 12 {
        seq![92u8, 102u8]
    } else if b == 13 {
        seq![92u8, 114u8]
    } else if b < 32 {
        seq![92u8, 117u8, 48u8, 48u8, hex_lower(b / 16), hex_lower(b % 16)]
    } else {
        seq![b]
    }
}

/// A lower-case hexadecimal digit.
pub open spec fn hex_lower(d: u8) -> u8 {
    if d < 10 { (48 + d) as u8 } else { (87 + d) as u8 }
}

pub open spec fn json_escape(s: Seq<u8>) -> Seq<u8>
    decreases s.len(),
{
    if s.len() == 0 {
        seq![]
    } else {
        json_escape(s.drop_last()) + json_escape_byte(s.last())
    }
}

/// A string as a JSON string literal.
pub open spec fn json_quote_spec(s: Seq<u8>) -> Seq<u8> {
    seq![34u8] + json_escape(s) + seq![34u8]
}

/// Wraps `serde_json::to_string` on a `&str`. Trusted: the result is the string as a JSON string
/// literal, escaped as `serde_json`'s serializer does (its escape table and `\u00xx` form are
/// what [`json_escape_byte`] states); serializing a `str` cannot fail.
#[verifier::external_body]
pub fn json_quote(s: &str) -> (r: String)
    ensures
        crate::bytes::utf8(r@) == json_quote_spec(crate::bytes::lit(s)),
{
    serde_json::to_string(s).unwrap_or_default()
}

/// A JSON document as the adapters read it. A number is kept as its `i64` value when it has
/// one (`serde_json`'s `as_i64`), else as `Num(None)`; an object keeps its members in the order
/// `serde_json` holds them, each key once.
#[derive(Debug)]
pub enum Json {
    Null,
    Bool(bool),
    Num(Option<i64>),
    Str(String),
    Arr(Vec<Json>),
    Obj(Vec<(String, Json)>),
}

/// The document `serde_json` reads from a text, or `None` where it refuses the text.
pub uninterp spec fn json_document(text: Seq<char>) -> Option<Json>;

#[verifier::external_type_specification]
#[verifier::external_body]
pub struct ExJsonValue(serde_json::Value);

/// Wraps `serde_json::from_str` into a `serde_json::Value`, converted member for member into a
/// [`Json`]. Trusted: the result is the document the text holds, a function of the text alone
/// ([`json_document`]), and `None` stands for a parse error.
#[verifier::external_body]
pub fn parse_json(s: &str) -> (r: Option<Json>)
    ensures
        r == json_document(s@),
{
    serde_json::from_str::<serde_json::Value>(s).ok().map(json_of)
}

/// Converts a `serde_json::Value` into a [`Json`], variant for variant (a number through
/// `serde_json::Number::as_i64`). Trusted for nothing: its argument is opaque here.
#[verifier::external_body]
fn json_of(v: serde_json::Value) -> Json {
    match v {
        serde_json::Value::Null => Json::Null,
        serde_json::Value::Bool(b) => Json::Bool(b),
        serde_json::Value::Number(n) => Json::Num(n.as_i64()),
        serde_json::Value::String(t) => Json::Str(t),
        serde_json::Value::Array(a) => Json::Arr(a.into_iter().map(json_of).collect()),
        serde_json::Value::Object(m) => Json::Obj(m.into_iter().map(|(k, x)| (k, json_of(x))).collect()),
    }
}

/// The value under `key` among object members, the first that carries it.
pub open spec fn lookup(es: Seq<(String, Json)>, key: Seq<char>) -> Option<Json>
    decreases es.len(),
{
    if es.len() == 0 {
        None
    } else if es[0].0@ == key {
        Some(es[0].1)
    } else {
        lookup(es.skip(1), key)
    }
}

/// The member `key` of an object; nothing for any other value.
pub open spec fn member(j: Json, key: Seq<char>) -> Option<Json> {
    match j {
        Json::Obj(es) => lookup(es@, key),
        _ => None,
    }
}

/// The text of a string value.
pub open spec fn str_of(j: Json) -> Option<Seq<char>> {
    match j {
        Json::Str(s) => Some(s@),
        _ => None,
    }
}

/// The value of a boolean.
pub open spec fn bool_of(j: Json) -> Option<bool> {
    match j {
        Json::Bool(b) => Some(b),
        _ => None,
    }
}

/// The value of a number that is an `i64`.
pub open spec fn i64_of(j: Json) -> Option<i64> {
    match j {
        Json::Num(n) => n,
        _ => None,
    }
}

/// A member that a typed read with a default treats as absent: missing or `null`.
pub open spec fn absent(j: Json, key: Seq<char>) -> bool {
    match member(j, key) {
        None => true,
        Some(Json::Null) => true,
        Some(_) => false,
    }
}

/// An optional string member as a typed read sees it: absent is `Some(None)`, a string
/// `Some(Some(..))`, any other value `None` (the read fails).
pub open spec fn opt_str_spec(j: Json, key: Seq<char>) -> Option<Option<Seq<char>>> {
    if absent(j, key) {
        Some(None)
    } else {
        match str_of(member(j, key).unwrap()) {
            Some(s) => Some(Some(s)),
            None => None,
        }
    }
}

/// The text of an optional string as a plain option.
pub open spec fn opt_text(o: Option<String>) -> Option<Seq<char>> {
    match o {
        Some(s) => Some(s@),
        None => None,
    }
}

/// The member `key` of an object value.
pub fn json_get<'a>(v: &'a Json, key: &str) -> (r: Option<&'a Json>)
    ensures
        (match r {
            Some(x) => Some(*x),
            None => None,
        }) == member(*v, key@),
{
    match v {
        Json::Obj(es) => {
            let mut i: usize = 0;
            assert(es@.skip(0) =~= es@);
            while i < es.len()
                invariant
                    i <= es@.len(),
                    member(*v, key@) == lookup(es@.skip(i as int), key@),
                decreases es@.len() - i,
            {
                let hit = crate::bytes::is_lit(es[i].0.as_str().as_bytes(), key);
                proof {
                    vstd::utf8::encode_utf8_decode_utf8(es@[i as int].0@);
                    vstd::utf8::encode_utf8_decode_utf8(key@);
                    assert(es@.skip(i as int)[0] == es@[i as int]);
                    assert(es@.skip(i as int).skip(1) =~= es@.skip(i + 1));
                }
                if hit {
                    assert(es@[i as int].0@ == key@);
                    assert(lookup(es@.skip(i as int), key@) == Some(es@[i as int].1));
                    return Some(&es[i].1);
                }
                i += 1;
            }
            None
        },
        _ => None,
    }
}

/// The text of a string value, copied out.
pub fn json_str(v: &Json) -> (r: Option<String>)
    ensures
        opt_text(r) == str_of(*v),
{
    match v {
        Json::Str(s) => Some(s.clone()),
        _ => None,
    }
}

/// The elements of an array value.
pub fn json_array(v: &Json) -> (r: Option<&Vec<Json>>)
    ensures
        match *v {
            Json::Arr(a) => r matches Some(x) && x@ == a@,
            _ => r is None,
        },
{
    match v {
        Json::Arr(a) => Some(a),
        _ => None,
    }
}

/// The value of a boolean.
pub fn json_bool(v: &Json) -> (r: Option<bool>)
    ensures
        r == bool_of(*v),
{
    match v {
        Json::Bool(b) => Some(*b),
        _ => None,
    }
}

/// The value of a number that is an `i64`.
pub fn json_i64(v: &Json) -> (r: Option<i64>)
    ensures
        r == i64_of(*v),
{
    match v {
        Json::Num(n) => *n,
        _ => None,
    }
}

/// Whether a value is `null`.
pub fn json_is_null(v: &Json) -> (r: bool)
    ensures
        r == (*v matches Json::Null),
{
    match v {
        Json::Null => true,
        _ => false,
    }
}

/// A member that a typed read with a default treats as absent: missing or `null`.
pub(crate) fn member_absent(v: &Json, key: &str) -> (r: bool)
    ensures
        r == absent(*v, key@),
{
    match json_get(v, key) {
        None => true,
        Some(m) => json_is_null(m),
    }
}

/// An optional string member as a typed read sees it: absent or `null` is `Some(None)`, a
/// string `Some(Some(..))`, any other value `None` (the read fails).
pub(crate) fn opt_str_member(v: &Json, key: &str) -> (r: Option<Option<String>>)
    ensures
        match r {
            None => opt_str_spec(*v, key@) is None,
            Some(o) => opt_str_spec(*v, key@) == Some(opt_text(o)),
        },
{
    match json_get(v, key) {
        None => Some(None),
        Some(m) => if json_is_null(m) {
            Some(None)
        } else {
            match json_str(m) {
                Some(s) => Some(Some(s)),
                None => None,
            }
        },
    }
}

/// An integer as `serde_json` writes it: a `-` for a negative value, then the decimal digits
/// of the magnitude, without leading zeros.
pub open spec fn int_text(n: int) -> Seq<u8> {
    if n < 0 {
        seq![45u8] + crate::smtp::dec_spec((-n) as nat)
    } else {
        crate::smtp::dec_spec(n as nat)
    }
}

/// Append the decimal digits of `n`.
pub fn push_dec_u64(out: &mut Vec<u8>, n: u64)
    ensures
        final(out)@ == old(out)@ + crate::smtp::dec_spec(n as nat),
    decreases n,
{
    if n < 10 {
        out.push(48 + n as u8);
    } else {
        push_dec_u64(out, n / 10);
        out.push(48 + (n % 10) as u8);
    }
    assert(final(out)@ =~= old(out)@ + crate::smtp::dec_spec(n as nat));
}

/// Append a string as a JSON string literal.
pub(crate) fn push_quoted(out: &mut Vec<u8>, s: &str)
    ensures
        final(out)@ == old(out)@ + json_quote_spec(crate::bytes::lit(s)),
{
    let q = json_quote(s);
    crate::bytes::push_all(out, q.as_str().as_bytes());
}

/// Append an `i64` as a JSON number.
pub fn push_i64(out: &mut Vec<u8>, n: i64)
    ensures
        final(out)@ == old(out)@ + int_text(n as int),
{
    if n < 0 {
        out.push(45);
        let m: u64 = if n == i64::MIN {
            9223372036854775808u64
        } else {
            (-n) as u64
        };
        push_dec_u64(out, m);
        assert(final(out)@ =~= old(out)@ + int_text(n as int));
    } else {
        push_dec_u64(out, n as u64);
    }
}

} // verus!

verus! {

/// The mathematical value of a [`Json`] document.
#[verifier::ext_equal]
pub ghost enum JsonV {
    Null,
    Bool(bool),
    Num(Option<i64>),
    Str(Seq<char>),
    Arr(Seq<JsonV>),
    Obj(Seq<(Seq<char>, JsonV)>),
}

impl Json {
    pub open spec fn jv(self) -> JsonV
        decreases self,
    {
        match self {
            Json::Null => JsonV::Null,
            Json::Bool(b) => JsonV::Bool(b),
            Json::Num(n) => JsonV::Num(n),
            Json::Str(s) => JsonV::Str(s@),
            Json::Arr(a) => JsonV::Arr(Seq::new(a@.len(), |i: int| if 0 <= i < a@.len() { a@[i].jv() } else { JsonV::Null })),
            Json::Obj(es) => JsonV::Obj(Seq::new(es@.len(), |i: int| if 0 <= i < es@.len() { (es@[i].0@, es@[i].1.jv()) } else { (Seq::empty(), JsonV::Null) })),
        }
    }
}


/// The members of an object, by their values.
pub open spec fn members(es: Seq<(String, Json)>) -> Seq<(Seq<char>, JsonV)> {
    Seq::new(es.len(), |i: int| (es[i].0@, es[i].1.jv()))
}

/// The elements of an array, by their values.
pub open spec fn elems(a: Seq<Json>) -> Seq<JsonV> {
    Seq::new(a.len(), |i: int| a[i].jv())
}

/// A count as a JSON number: the number itself where it is an `i64`.
pub open spec fn nat_json(n: nat) -> JsonV {
    if n <= i64::MAX as nat {
        JsonV::Num(Some(n as i64))
    } else {
        JsonV::Num(None)
    }
}

/// The value of an object is the values of its members.
pub proof fn lemma_obj_jv(es: Vec<(String, Json)>)
    ensures
        Json::Obj(es).jv() == JsonV::Obj(members(es@)),
{
    let r = Json::Obj(es);
    assert(r.jv() is Obj);
    assert forall|i: int| 0 <= i < es@.len() implies r.jv()->Obj_0[i] == members(es@)[i] by {}
    assert(r.jv()->Obj_0 =~= members(es@));
}

/// The value of an array is the values of its elements.
pub proof fn lemma_arr_jv(a: Vec<Json>)
    ensures
        Json::Arr(a).jv() == JsonV::Arr(elems(a@)),
{
    let r = Json::Arr(a);
    assert(r.jv() is Arr);
    assert forall|i: int| 0 <= i < a@.len() implies r.jv()->Arr_0[i] == elems(a@)[i] by {}
    assert(r.jv()->Arr_0 =~= elems(a@));
}

/// A text as a JSON string.
pub fn jstr(s: &str) -> (r: Json)
    ensures
        r.jv() == JsonV::Str(s@),
{
    Json::Str(s.to_owned())
}

/// A string as a JSON string.
pub fn jstring(s: String) -> (r: Json)
    ensures
        r.jv() == JsonV::Str(s@),
{
    Json::Str(s)
}

/// A count as a JSON number.
pub fn jnat(n: u64) -> (r: Json)
    ensures
        r.jv() == nat_json(n as nat),
{
    if n <= 9223372036854775807u64 {
        Json::Num(Some(n as i64))
    } else {
        Json::Num(None)
    }
}

/// An object of the given members.
pub fn jobj(es: Vec<(String, Json)>) -> (r: Json)
    ensures
        r.jv() == JsonV::Obj(members(es@)),
{
    proof {
        lemma_obj_jv(es);
    }
    Json::Obj(es)
}

/// An array of the given elements.
pub fn jarr(a: Vec<Json>) -> (r: Json)
    ensures
        r.jv() == JsonV::Arr(elems(a@)),
{
    proof {
        lemma_arr_jv(a);
    }
    Json::Arr(a)
}

/// Append the member `k: v` to an object under construction.
pub fn put(es: &mut Vec<(String, Json)>, k: &str, v: Json)
    ensures
        members(final(es)@) == members(old(es)@).push((k@, v.jv())),
{
    es.push((k.to_owned(), v));
    assert(members(final(es)@) =~= members(old(es)@).push((k@, v.jv())));
}

/// Append an element to an array under construction.
pub fn push_elem(a: &mut Vec<Json>, v: Json)
    ensures
        elems(final(a)@) == elems(old(a)@).push(v.jv()),
{
    a.push(v);
    assert(elems(final(a)@) =~= elems(old(a)@).push(v.jv()));
}

/// A copy of a document.
#[verifier::loop_isolation(false)]
pub fn json_copy(j: &Json) -> (r: Json)
    ensures
        r.jv() == j.jv(),
    decreases j,
{
    match j {
        Json::Null => Json::Null,
        Json::Bool(b) => Json::Bool(*b),
        Json::Num(n) => Json::Num(*n),
        Json::Str(t) => Json::Str(t.clone()),
        Json::Arr(a) => {
            let mut out: Vec<Json> = Vec::new();
            let mut i: usize = 0;
            while i < a.len()
                invariant
                    i <= a@.len(),
                    elems(out@) == elems(a@.take(i as int)),
                decreases a@.len() - i,
            {
                assert(decreases_to!(*j => *a));
                assert(decreases_to!(*a => a@));
                assert(decreases_to!(a@ => a@[i as int]));
                let c = json_copy(&a[i]);
                push_elem(&mut out, c);
                assert(elems(a@.take(i + 1)) =~= elems(a@.take(i as int)).push(a@[i as int].jv()));
                i += 1;
            }
            assert(a@.take(a@.len() as int) =~= a@);
            proof {
                lemma_arr_jv(*a);
            }
            jarr(out)
        },
        Json::Obj(es) => {
            let mut out: Vec<(String, Json)> = Vec::new();
            let mut i: usize = 0;
            while i < es.len()
                invariant
                    i <= es@.len(),
                    members(out@) == members(es@.take(i as int)),
                decreases es@.len() - i,
            {
                assert(decreases_to!(*j => *es));
                assert(decreases_to!(*es => es@));
                assert(decreases_to!(es@ => es@[i as int]));
                assert(decreases_to!(es@[i as int] => es@[i as int].1));
                let c = json_copy(&es[i].1);
                let k = es[i].0.clone();
                let ghost before = out@;
                out.push((k, c));
                assert(members(out@) =~= members(before).push((es@[i as int].0@, es@[i as int].1.jv())));
                assert(members(es@.take(i + 1)) =~= members(es@.take(i as int)).push((es@[i as int].0@, es@[i as int].1.jv())));
                i += 1;
            }
            assert(es@.take(es@.len() as int) =~= es@);
            proof {
                lemma_obj_jv(*es);
            }
            jobj(out)
        },
    }
}


/// The compact text `serde_json` writes for a document.
pub uninterp spec fn json_text(v: JsonV) -> Seq<char>;

/// Wraps `serde_json::to_string` on the `serde_json::Value` a [`Json`] converts to, member for
/// member. Trusted: the text is [`json_text`] of the document's value, a function of the value
/// alone; writing a `Value` to a string does not fail.
#[verifier::external_body]
pub fn json_to_string(j: &Json) -> (r: String)
    ensures
        r@ == json_text(j.jv()),
{
    serde_json::to_string(&value_of(j)).unwrap_or_default()
}

/// Converts a [`Json`] into a `serde_json::Value`, variant for variant (a number that is not an
/// `i64` becomes `null`). Trusted for nothing: its result is opaque here.
#[verifier::external_body]
fn value_of(j: &Json) -> serde_json::Value {
    match j {
        Json::Null => serde_json::Value::Null,
        Json::Bool(b) => serde_json::Value::Bool(*b),
        Json::Num(Some(n)) => serde_json::Value::from(*n),
        Json::Num(None) => serde_json::Value::Null,
        Json::Str(t) => serde_json::Value::String(t.clone()),
        Json::Arr(a) => serde_json::Value::Array(a.iter().map(value_of).collect()),
        Json::Obj(es) => serde_json::Value::Object(es.iter().map(|(k, x)| (k.clone(), value_of(x))).collect()),
    }
}

} // verus!
