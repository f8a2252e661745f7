use vstd::prelude::*;
use crate::error::{ErrorKind, SigniaError};
use crate::hashing::hex_digit;
use crate::strs::{chars_of, string_of};

verus! {

/// A JSON-shaped value. Numbers are integers: floating point has no
/// single-valued text form, so it is refused before a value reaches the core.
/// Object entries keep the order in which they were given.
#[derive(Debug)]
pub enum JsonValue {
    Null,
    Bool(bool),
    Int(i128),
    Str(String),
    Array(Vec<JsonValue>),
    Object(Vec<(String, JsonValue)>),
}

/// The mathematical value of a `JsonValue`.
pub enum Json {
    Null,
    Bool(bool),
    Int(int),
    Str(Seq<char>),
    Array(Seq<Json>),
    Object(Seq<(Seq<char>, Json)>),
}

pub open spec fn jv(v: JsonValue) -> Json
    decreases v,
{
    match v {
        JsonValue::Null => Json::Null,
        JsonValue::Bool(b) => Json::Bool(b),
        JsonValue::Int(i) => Json::Int(i as int),
        JsonValue::Str(s) => Json::Str(s@),
        JsonValue::Array(a) => Json::Array(
            Seq::new(a@.len(), |i: int| if 0 <= i < a@.len() { jv(a@[i]) } else { Json::Null }),
        ),
        JsonValue::Object(e) => Json::Object(
            Seq::new(
                e@.len(),
                |i: int|
                    if 0 <= i < e@.len() {
                        (e@[i].0@, jv(e@[i].1))
                    } else {
                        (Seq::empty(), Json::Null)
                    },
            ),
        ),
    }
}

impl View for JsonValue {
    type V = Json;

    open spec fn view(&self) -> Json {
        jv(*self)
    }
}

/// Views of array items.
pub open spec fn items_view(a: Seq<JsonValue>) -> Seq<Json> {
    Seq::new(a.len(), |i: int| a[i]@)
}

/// Views of object entries.
pub open spec fn entries_view(e: Seq<(String, JsonValue)>) -> Seq<(Seq<char>, Json)> {
    Seq::new(e.len(), |i: int| (e[i].0@, e[i].1@))
}

pub proof fn lemma_view_array(v: JsonValue)
    requires
        v is Array,
    ensures
        v@ == Json::Array(items_view(v->Array_0@)),
{
    assert(v@->Array_0 =~= items_view(v->Array_0@));
}

pub proof fn lemma_view_object(v: JsonValue)
    requires
        v is Object,
    ensures
        v@ == Json::Object(entries_view(v->Object_0@)),
{
    assert(v@->Object_0 =~= entries_view(v->Object_0@));
}

// ---------------------------------------------------------------------------
// Key order: byte-lexicographic order of UTF-8, which is code point order.

pub open spec fn key_lt(a: Seq<char>, b: Seq<char>) -> bool
    decreases a.len(),
{
    if a.len() == 0 {
        b.len() > 0
    } else if b.len() == 0 {
        false
    } else if a[0] != b[0] {
        a[0] < b[0]
    } else {
        key_lt(a.drop_first(), b.drop_first())
    }
}

pub proof fn lemma_key_lt_irrefl(a: Seq<char>)
    ensures
        !key_lt(a, a),
    decreases a.len(),
{
    if a.len() > 0 {
        lemma_key_lt_irrefl(a.drop_first());
    }
}

pub proof fn lemma_key_lt_trans(a: Seq<char>, b: Seq<char>, c: Seq<char>)
    requires
        key_lt(a, b),
        key_lt(b, c),
    ensures
        key_lt(a, c),
    decreases a.len(),
{
    if a.len() > 0 && b.len() > 0 && c.len() > 0 && a[0] == b[0] && b[0] == c[0] {
        lemma_key_lt_trans(a.drop_first(), b.drop_first(), c.drop_first());
    }
}

pub proof fn lemma_key_lt_total(a: Seq<char>, b: Seq<char>)
    ensures
        a == b || key_lt(a, b) || key_lt(b, a),
    decreases a.len(),
{
    if a.len() > 0 && b.len() > 0 {
        if a[0] == b[0] {
            lemma_key_lt_total(a.drop_first(), b.drop_first());
            if a.drop_first() == b.drop_first() {
                assert(a =~= seq![a[0]] + a.drop_first());
                assert(b =~= seq![b[0]] + b.drop_first());
            }
        } else {

        }
    } else if a.len() == 0 && b.len() == 0 {
        assert(a =~= b);
    }
}

pub proof fn lemma_key_lt_asym(a: Seq<char>, b: Seq<char>)
    requires
        key_lt(a, b),
    ensures
        !key_lt(b, a),
{
    if key_lt(b, a) {
        lemma_key_lt_trans(a, b, a);
        lemma_key_lt_irrefl(a);
    }
}

proof fn lemma_key_lt_skip(a: Seq<char>, b: Seq<char>, i: int)
    requires
        0 <= i < a.len(),
        i < b.len(),
        a[i] == b[i],
    ensures
        key_lt(a.subrange(i, a.len() as int), b.subrange(i, b.len() as int)) == key_lt(
            a.subrange(i + 1, a.len() as int),
            b.subrange(i + 1, b.len() as int),
        ),
{
    let x = a.subrange(i, a.len() as int);
    let y = b.subrange(i, b.len() as int);
    assert(x.drop_first() =~= a.subrange(i + 1, a.len() as int));
    assert(y.drop_first() =~= b.subrange(i + 1, b.len() as int));
}

/// Whether `a` sorts strictly before `b`.
pub fn chars_lt(a: &Vec<char>, b: &Vec<char>) -> (r: bool)
    ensures
        r == key_lt(a@, b@),
{
    let mut i: usize = 0;
    assert(a@.subrange(0, a@.len() as int) =~= a@);
    assert(b@.subrange(0, b@.len() as int) =~= b@);
    while i < a.len() && i < b.len() && a[i] == b[i]
        invariant
            i <= a@.len(),
            i <= b@.len(),
            key_lt(a@, b@) == key_lt(
                a@.subrange(i as int, a@.len() as int),
                b@.subrange(i as int, b@.len() as int),
            ),
        decreases a@.len() - i,
    {
        proof {
            lemma_key_lt_skip(a@, b@, i as int);
        }
        i = i + 1;
    }
    let ghost x = a@.subrange(i as int, a@.len() as int);
    let ghost y = b@.subrange(i as int, b@.len() as int);
    if i == a.len() {
        i < b.len()
    } else if i == b.len() {
        false
    } else {
        assert(x[0] == a@[i as int] && y[0] == b@[i as int]);
        a[i] < b[i]
    }
}

// ---------------------------------------------------------------------------
// Text of scalars.

/// Escape of one character inside a string literal.
pub open spec fn esc_char(c: char) -> Seq<char> {
    if c == '"' {
        seq!['\\', '"']
    } else if c == '\\' {
        seq!['\\', '\\']
    } else if c == '\u{8}' {
        seq!['\\', 'b']
    } else if c == '\u{c}' {
        seq!['\\', 'f']
    } else if c == '\n' {
        seq!['\\', 'n']
    } else if c == '\r' {
        seq!['\\', 'r']
    } else if c == '\t' {
        seq!['\\', 't']
    } else if (c as u32) < 0x20 {
        seq!['\\', 'u', '0', '0', hex_digit((c as u8) / 16), hex_digit((c as u8) % 16)]
    } else {
        seq![c]
    }
}

pub open spec fn esc(s: Seq<char>) -> Seq<char>
    decreases s.len(),
{
    if s.len() == 0 {
        Seq::empty()
    } else {
        esc(s.drop_last()) + esc_char(s.last())
    }
}

/// A string literal: quotes around the escaped text.
pub open spec fn quoted(s: Seq<char>) -> Seq<char> {
    seq!['"'] + esc(s) + seq!['"']
}

pub open spec fn digit_char(d: nat) -> char {
    (('0' as u8) + d) as char
}

/// Decimal digits of a natural number, without leading zeros.
pub open spec fn digits(n: nat) -> Seq<char>
    decreases n,
{
    if n < 10 {
        seq![digit_char(n)]
    } else {
        digits(n / 10) + seq![digit_char(n % 10)]
    }
}

/// Decimal text of an integer, with `-` for negatives and no `+`.
pub open spec fn int_text(i: int) -> Seq<char> {
    if i < 0 {
        seq!['-'] + digits((-i) as nat)
    } else {
        digits(i as nat)
    }
}

/// Items separated by commas.
pub open spec fn join(parts: Seq<Seq<char>>) -> Seq<char>
    decreases parts.len(),
{
    if parts.len() == 0 {
        Seq::empty()
    } else if parts.len() == 1 {
        parts[0]
    } else {
        join(parts.drop_last()) + seq![','] + parts.last()
    }
}

// ---------------------------------------------------------------------------
// The canonical encoding.

/// A sequence is strictly sorted by its first components.
pub open spec fn strictly_sorted(t: Seq<(Seq<char>, Seq<char>)>) -> bool {
    forall|i: int, j: int| 0 <= i < j < t.len() ==> key_lt(#[trigger] t[i].0, #[trigger] t[j].0)
}

pub open spec fn same_elems<A>(a: Seq<A>, b: Seq<A>) -> bool {
    forall|x: A| a.contains(x) <==> b.contains(x)
}

/// The elements of a set in strictly ascending key order.
pub open spec fn sort_set(s: Set<(Seq<char>, Seq<char>)>) -> Seq<(Seq<char>, Seq<char>)> {
    choose|t: Seq<(Seq<char>, Seq<char>)>| strictly_sorted(t) && t.to_set() == s
}

/// The entries in key order.
pub open spec fn sorted_pairs(p: Seq<(Seq<char>, Seq<char>)>) -> Seq<(Seq<char>, Seq<char>)> {
    sort_set(p.to_set())
}

pub open spec fn seconds(t: Seq<(Seq<char>, Seq<char>)>) -> Seq<Seq<char>> {
    t.map_values(|x: (Seq<char>, Seq<char>)| x.1)
}

/// Canonical text of a value: no white space, object keys in ascending order.
pub open spec fn enc(v: Json) -> Seq<char>
    decreases v,
{
    match v {
        Json::Null => seq!['n', 'u', 'l', 'l'],
        Json::Bool(b) => if b {
            seq!['t', 'r', 'u', 'e']
        } else {
            seq!['f', 'a', 'l', 's', 'e']
        },
        Json::Int(i) => int_text(i),
        Json::Str(s) => quoted(s),
        Json::Array(a) => seq!['['] + join(enc_items(a)) + seq![']'],
        Json::Object(e) => seq!['{'] + join(seconds(sorted_pairs(entry_pairs(e)))) + seq!['}'],
    }
}

pub open spec fn enc_items(s: Seq<Json>) -> Seq<Seq<char>>
    decreases s,
{
    if s.len() == 0 {
        Seq::empty()
    } else {
        seq![enc(s[0])] + enc_items(s.drop_first())
    }
}

/// Each entry as its key and its text `"key":value`.
pub open spec fn entry_pairs(e: Seq<(Seq<char>, Json)>) -> Seq<(Seq<char>, Seq<char>)>
    decreases e,
{
    if e.len() == 0 {
        Seq::empty()
    } else {
        seq![(e[0].0, quoted(e[0].0) + seq![':'] + enc(e[0].1))] + entry_pairs(e.drop_first())
    }
}

/// Keys of the entries are pairwise distinct.
pub open spec fn distinct_keys(e: Seq<(Seq<char>, Json)>) -> bool {
    forall|i: int, j: int| 0 <= i < j < e.len() ==> (#[trigger] e[i]).0 != (#[trigger] e[j]).0
}

/// Every object in the value has distinct keys.
pub open spec fn keys_ok(v: Json) -> bool
    decreases v,
{
    match v {
        Json::Array(a) => items_keys_ok(a),
        Json::Object(e) => distinct_keys(e) && entries_keys_ok(e),
        _ => true,
    }
}

pub open spec fn items_keys_ok(s: Seq<Json>) -> bool
    decreases s,
{
    s.len() == 0 || (keys_ok(s[0]) && items_keys_ok(s.drop_first()))
}

pub open spec fn entries_keys_ok(e: Seq<(Seq<char>, Json)>) -> bool
    decreases e,
{
    e.len() == 0 || (keys_ok(e[0].1) && entries_keys_ok(e.drop_first()))
}

/// Arrays and objects are nested at most `d` deep.
pub open spec fn depth_ok(v: Json, d: int) -> bool
    decreases v,
{
    match v {
        Json::Array(a) => d >= 1 && items_depth_ok(a, d - 1),
        Json::Object(e) => d >= 1 && entries_depth_ok(e, d - 1),
        _ => true,
    }
}

pub open spec fn items_depth_ok(s: Seq<Json>, d: int) -> bool
    decreases s,
{
    s.len() == 0 || (depth_ok(s[0], d) && items_depth_ok(s.drop_first(), d))
}

pub open spec fn entries_depth_ok(e: Seq<(Seq<char>, Json)>, d: int) -> bool
    decreases e,
{
    e.len() == 0 || (depth_ok(e[0].1, d) && entries_depth_ok(e.drop_first(), d))
}

/// A copy of a value with the same view.
pub fn json_clone(v: &JsonValue) -> (r: JsonValue)
    ensures
        r@ == v@,
    decreases v,
{
    match v {
        JsonValue::Null => JsonValue::Null,
        JsonValue::Bool(b) => JsonValue::Bool(*b),
        JsonValue::Int(i) => JsonValue::Int(*i),
        JsonValue::Str(s) => JsonValue::Str(s.clone()),
        JsonValue::Array(a) => {
            proof {
                lemma_view_array(*v);
            }
            let mut out: Vec<JsonValue> = Vec::new();
            let mut k: usize = 0;
            while k < a.len()
                invariant
                    k <= a@.len(),
                    *v == JsonValue::Array(*a),
                    out@.len() == k,
                    forall|j: int| 0 <= j < k ==> (#[trigger] out@[j])@ == a@[j]@,
                decreases a@.len() - k,
            {
                proof {
                    assert(*v is Array);
                    assert(decreases_to!(*v => (*v)->Array_0));
                    assert(decreases_to!(*a => a@));
                    assert(decreases_to!(a@ => a@[k as int]));
                }
                out.push(json_clone(&a[k]));
                k = k + 1;
            }
            let r = JsonValue::Array(out);
            proof {
                lemma_view_array(r);
                assert(items_view(out@) =~= items_view(a@));
            }
            r
        },
        JsonValue::Object(e) => {
            proof {
                lemma_view_object(*v);
            }
            let mut out: Vec<(String, JsonValue)> = Vec::new();
            let mut k: usize = 0;
            while k < e.len()
                invariant
                    k <= e@.len(),
                    *v == JsonValue::Object(*e),
                    out@.len() == k,
                    forall|j: int| 0 <= j < k ==> (#[trigger] out@[j]).0@ == e@[j].0@ && out@[j].1@ == e@[j].1@,
                decreases e@.len() - k,
            {
                proof {
                    assert(*v is Object);
                    assert(decreases_to!(*v => (*v)->Object_0));
                    assert(decreases_to!(*e => e@));
                    assert(decreases_to!(e@ => e@[k as int]));
                    assert(decreases_to!(e@[k as int] => e@[k as int].1));
                }
                let val = json_clone(&e[k].1);
                out.push((e[k].0.clone(), val));
                k = k + 1;
            }
            let r = JsonValue::Object(out);
            proof {
                lemma_view_object(r);
                assert(entries_view(out@) =~= entries_view(e@));
            }
            r
        },
    }
}

/// Whether the value is an object holding an entry with key `k`.
pub open spec fn has_key(v: Json, k: Seq<char>) -> bool {
    v is Object && exists|i: int| 0 <= i < v->Object_0.len() && (#[trigger] v->Object_0[i]).0 == k
}

/// Whether `v` is an object with an entry whose key is `k`.
pub fn json_has_key(v: &JsonValue, k: &str) -> (r: bool)
    ensures
        r == has_key(v@, k@),
{
    match v {
        JsonValue::Object(e) => {
            proof {
                lemma_view_object(*v);
            }
            let ghost ents = entries_view(e@);
            let mut i: usize = 0;
            while i < e.len()
                invariant
                    i <= e@.len(),
                    ents == entries_view(e@),
                    v@ == Json::Object(ents),
                    forall|j: int| 0 <= j < i ==> (#[trigger] ents[j]).0 != k@,
                decreases e@.len() - i,
            {
                if crate::strs::str_eq(e[i].0.as_str(), k) {
                    assert(ents[i as int] == (e@[i as int].0@, e@[i as int].1@));
                    assert(v@->Object_0[i as int].0 == k@);
                    return true;
                }
                i = i + 1;
            }
            false
        },
        _ => false,
    }
}

/// Value of the first entry with key `k`.
pub open spec fn field_in(e: Seq<(Seq<char>, Json)>, k: Seq<char>) -> Option<Json>
    decreases e.len(),
{
    if e.len() == 0 {
        None
    } else if e[0].0 == k {
        Some(e[0].1)
    } else {
        field_in(e.drop_first(), k)
    }
}

/// Field `k` of an object; `None` for a missing field or a non-object.
pub open spec fn get_field(v: Json, k: Seq<char>) -> Option<Json> {
    match v {
        Json::Object(e) => field_in(e, k),
        _ => None,
    }
}

/// Field `k` of an object when it is a string.
pub open spec fn get_text(v: Json, k: Seq<char>) -> Option<Seq<char>> {
    match get_field(v, k) {
        Some(Json::Str(s)) => Some(s),
        _ => None,
    }
}

/// Looks up field `k` of an object.
pub fn json_get<'a>(v: &'a JsonValue, k: &str) -> (r: Option<&'a JsonValue>)
    ensures
        r is Some <==> get_field(v@, k@) is Some,
        r is Some ==> r->0@ == get_field(v@, k@)->0,
{
    match v {
        JsonValue::Object(e) => {
            proof {
                lemma_view_object(*v);
            }
            let ghost ents = entries_view(e@);
            let mut i: usize = 0;
            assert(ents.subrange(0, ents.len() as int) =~= ents);
            while i < e.len()
                invariant
                    i <= e@.len(),
                    ents == entries_view(e@),
                    v@ == Json::Object(ents),
                    field_in(ents, k@) == field_in(ents.subrange(i as int, ents.len() as int), k@),
                decreases e@.len() - i,
            {
                let ghost rest = ents.subrange(i as int, ents.len() as int);
                assert(rest.drop_first() =~= ents.subrange(i + 1, ents.len() as int));
                assert(rest[0] == (e@[i as int].0@, e@[i as int].1@));
                if crate::strs::str_eq(e[i].0.as_str(), k) {
                    return Some(&e[i].1);
                }
                i = i + 1;
            }
            None
        },
        _ => None,
    }
}

/// Looks up a string field of an object.
pub fn json_get_str<'a>(v: &'a JsonValue, k: &str) -> (r: Option<&'a String>)
    ensures
        r is Some <==> get_text(v@, k@) is Some,
        r is Some ==> r->0@ == get_text(v@, k@)->0,
{
    match json_get(v, k) {
        Some(JsonValue::Str(s)) => Some(s),
        _ => None,
    }
}

/// UTF-8 bytes of a text.
pub open spec fn utf8_of(s: Seq<char>) -> Seq<u8> {
    vstd::utf8::encode_utf8(s)
}

/// The UTF-8 bytes of a string.
pub fn utf8_bytes(s: &str) -> (r: Vec<u8>)
    ensures
        r@ == utf8_of(s@),
{
    s.as_bytes_vec()
}

} // verus!
