use vstd::prelude::*;
use crate::error::{ErrorKind, SigniaError};
use crate::hashing::{hex_digit, hex_of, sha256_of, hash_bytes_hex};
use crate::json::{JsonValue, Json, items_view, entries_view, lemma_view_array, lemma_view_object, key_lt, lemma_key_lt_trans, lemma_key_lt_irrefl, lemma_key_lt_asym, lemma_key_lt_total, strictly_sorted, same_elems, sorted_pairs, entry_pairs, enc, enc_items, quoted, esc, esc_char, digits, int_text, keys_ok, items_keys_ok, entries_keys_ok, depth_ok, items_depth_ok, entries_depth_ok, distinct_keys, join, seconds, chars_lt, utf8_of, utf8_bytes};
use crate::strs::chars_of;

verus! {

/// Views of pairs of character vectors.
pub open spec fn pv(p: Seq<(Vec<char>, Vec<char>)>) -> Seq<(Seq<char>, Seq<char>)> {
    p.map_values(|x: (Vec<char>, Vec<char>)| (x.0@, x.1@))
}

pub proof fn lemma_entry_pairs_index(e: Seq<(Seq<char>, Json)>)
    ensures
        entry_pairs(e).len() == e.len(),
        forall|k: int|
            0 <= k < e.len() ==> #[trigger] entry_pairs(e)[k] == (e[k].0, quoted(e[k].0) + seq![':']
                + enc(e[k].1)),
    decreases e.len(),
{
    if e.len() > 0 {
        lemma_entry_pairs_index(e.drop_first());
        assert forall|k: int| 0 <= k < e.len() implies #[trigger] entry_pairs(e)[k] == (e[k].0,
            quoted(e[k].0) + seq![':'] + enc(e[k].1)) by {
            if k > 0 {
                assert(e.drop_first()[k - 1] == e[k]);
            }
        }
    }
}

pub proof fn lemma_enc_items_index(s: Seq<Json>)
    ensures
        enc_items(s).len() == s.len(),
        forall|k: int| 0 <= k < s.len() ==> #[trigger] enc_items(s)[k] == enc(s[k]),
    decreases s.len(),
{
    if s.len() > 0 {
        lemma_enc_items_index(s.drop_first());
        assert forall|k: int| 0 <= k < s.len() implies #[trigger] enc_items(s)[k] == enc(s[k]) by {
            if k > 0 {
                assert(s.drop_first()[k - 1] == s[k]);
            }
        }
    }
}

pub proof fn lemma_items_keys_ok(s: Seq<Json>)
    ensures
        items_keys_ok(s) <==> forall|k: int| 0 <= k < s.len() ==> keys_ok(#[trigger] s[k]),
    decreases s.len(),
{
    if s.len() > 0 {
        lemma_items_keys_ok(s.drop_first());
        if items_keys_ok(s) {
            assert forall|k: int| 0 <= k < s.len() implies keys_ok(#[trigger] s[k]) by {
                if k > 0 {
                    assert(s.drop_first()[k - 1] == s[k]);
                }
            }
        }
        if forall|k: int| 0 <= k < s.len() ==> keys_ok(#[trigger] s[k]) {
            assert forall|k: int| 0 <= k < s.drop_first().len() implies keys_ok(
                #[trigger] s.drop_first()[k],
            ) by {
                assert(s.drop_first()[k] == s[k + 1]);
            }
        }
    }
}

pub proof fn lemma_entries_keys_ok(e: Seq<(Seq<char>, Json)>)
    ensures
        entries_keys_ok(e) <==> forall|k: int| 0 <= k < e.len() ==> keys_ok(#[trigger] e[k].1),
    decreases e.len(),
{
    if e.len() > 0 {
        lemma_entries_keys_ok(e.drop_first());
        if entries_keys_ok(e) {
            assert forall|k: int| 0 <= k < e.len() implies keys_ok(#[trigger] e[k].1) by {
                if k > 0 {
                    assert(e.drop_first()[k - 1] == e[k]);
                }
            }
        }
        if forall|k: int| 0 <= k < e.len() ==> keys_ok(#[trigger] e[k].1) {
            assert forall|k: int| 0 <= k < e.drop_first().len() implies keys_ok(
                #[trigger] e.drop_first()[k].1,
            ) by {
                assert(e.drop_first()[k] == e[k + 1]);
            }
        }
    }
}

pub proof fn lemma_items_depth_ok(s: Seq<Json>, d: int)
    ensures
        items_depth_ok(s, d) <==> forall|k: int| 0 <= k < s.len() ==> depth_ok(#[trigger] s[k], d),
    decreases s.len(),
{
    if s.len() > 0 {
        lemma_items_depth_ok(s.drop_first(), d);
        if items_depth_ok(s, d) {
            assert forall|k: int| 0 <= k < s.len() implies depth_ok(#[trigger] s[k], d) by {
                if k > 0 {
                    assert(s.drop_first()[k - 1] == s[k]);
                }
            }
        }
        if forall|k: int| 0 <= k < s.len() ==> depth_ok(#[trigger] s[k], d) {
            assert forall|k: int| 0 <= k < s.drop_first().len() implies depth_ok(
                #[trigger] s.drop_first()[k],
                d,
            ) by {
                assert(s.drop_first()[k] == s[k + 1]);
            }
        }
    }
}

pub proof fn lemma_entries_depth_ok(e: Seq<(Seq<char>, Json)>, d: int)
    ensures
        entries_depth_ok(e, d) <==> forall|k: int| 0 <= k < e.len() ==> depth_ok(#[trigger] e[k].1, d),
    decreases e.len(),
{
    if e.len() > 0 {
        lemma_entries_depth_ok(e.drop_first(), d);
        if entries_depth_ok(e, d) {
            assert forall|k: int| 0 <= k < e.len() implies depth_ok(#[trigger] e[k].1, d) by {
                if k > 0 {
                    assert(e.drop_first()[k - 1] == e[k]);
                }
            }
        }
        if forall|k: int| 0 <= k < e.len() ==> depth_ok(#[trigger] e[k].1, d) {
            assert forall|k: int| 0 <= k < e.drop_first().len() implies depth_ok(
                #[trigger] e.drop_first()[k].1,
                d,
            ) by {
                assert(e.drop_first()[k] == e[k + 1]);
            }
        }
    }
}

/// Two strictly sorted sequences with the same elements are equal.
pub proof fn lemma_sorted_unique(t1: Seq<(Seq<char>, Seq<char>)>, t2: Seq<(Seq<char>, Seq<char>)>)
    requires
        strictly_sorted(t1),
        strictly_sorted(t2),
        same_elems(t1, t2),
    ensures
        t1 == t2,
    decreases t1.len(),
{
    if t1.len() == 0 {
        if t2.len() > 0 {
            assert(t2.contains(t2[0]));
        }
        assert(t1 =~= t2);
    } else if t2.len() == 0 {
        assert(t1.contains(t1[0]));
    } else {
        assert(t1.contains(t1[0]));
        assert(t2.contains(t2[0]));
        let j = choose|j: int| 0 <= j < t2.len() && t2[j] == t1[0];
        let i = choose|i: int| 0 <= i < t1.len() && t1[i] == t2[0];
        if i > 0 {
            assert(key_lt(t1[0].0, t1[i].0));
            if j > 0 {
                assert(key_lt(t2[0].0, t2[j].0));
                lemma_key_lt_asym(t1[0].0, t2[0].0);
            } else {
                lemma_key_lt_irrefl(t1[0].0);
            }
        }
        assert(t1[0] == t2[0]);
        let a = t1.drop_first();
        let b = t2.drop_first();
        assert forall|x: (Seq<char>, Seq<char>)| a.contains(x) implies b.contains(x) by {
            let k = choose|k: int| 0 <= k < a.len() && a[k] == x;
            assert(t1[k + 1] == x);
            assert(t1.contains(x));
            let m = choose|m: int| 0 <= m < t2.len() && t2[m] == x;
            assert(key_lt(t1[0].0, t1[k + 1].0));
            if m == 0 {
                lemma_key_lt_irrefl(t1[0].0);
            }
            assert(b[m - 1] == x);
        }
        assert forall|x: (Seq<char>, Seq<char>)| b.contains(x) implies a.contains(x) by {
            let k = choose|k: int| 0 <= k < b.len() && b[k] == x;
            assert(t2[k + 1] == x);
            assert(t2.contains(x));
            let m = choose|m: int| 0 <= m < t1.len() && t1[m] == x;
            assert(key_lt(t2[0].0, t2[k + 1].0));
            if m == 0 {
                lemma_key_lt_irrefl(t2[0].0);
            }
            assert(a[m - 1] == x);
        }
        lemma_sorted_unique(a, b);
        assert(t1 =~= seq![t1[0]] + a);
        assert(t2 =~= seq![t2[0]] + b);
    }
}

/// Object keys in any order give the same canonical text.
pub proof fn lemma_sorted_pairs_determined(p: Seq<(Seq<char>, Seq<char>)>, t: Seq<(Seq<char>, Seq<char>)>)
    requires
        strictly_sorted(t),
        same_elems(t, p),
    ensures
        sorted_pairs(p) == t,
{
    assert(t.to_set() =~= p.to_set());
    let s = sorted_pairs(p);
    assert(strictly_sorted(s) && s.to_set() == p.to_set());
    assert forall|x: (Seq<char>, Seq<char>)| s.contains(x) <==> t.contains(x) by {
        assert(s.to_set().contains(x) == s.contains(x));
        assert(t.to_set().contains(x) == t.contains(x));
    }
    assert(same_elems(s, t));
    lemma_sorted_unique(s, t);
}

// ---------------------------------------------------------------------------
// Executable encoder.

pub fn hex_digit_exec(n: u8) -> (r: char)
    requires
        n < 16,
    ensures
        r == hex_digit(n),
{
    if n < 10 {
        (('0' as u8) + n) as char
    } else {
        (('a' as u8) + n - 10) as char
    }
}

fn push_all(out: &mut Vec<char>, s: &Vec<char>)
    ensures
        final(out)@ == old(out)@ + s@,
{
    let mut i: usize = 0;
    while i < s.len()
        invariant
            i <= s@.len(),
            out@ == old(out)@ + s@.subrange(0, i as int),
        decreases s@.len() - i,
    {
        out.push(s[i]);
        i = i + 1;
    }
    assert(s@.subrange(0, s@.len() as int) =~= s@);
}

fn push_esc_char(out: &mut Vec<char>, c: char)
    ensures
        final(out)@ == old(out)@ + esc_char(c),
{
    if c == '"' {
        out.push('\\');
        out.push('"');
    } else if c == '\\' {
        out.push('\\');
        out.push('\\');
    } else if c == '\u{8}' {
        out.push('\\');
        out.push('b');
    } else if c == '\u{c}' {
        out.push('\\');
        out.push('f');
    } else if c == '\n' {
        out.push('\\');
        out.push('n');
    } else if c == '\r' {
        out.push('\\');
        out.push('r');
    } else if c == '\t' {
        out.push('\\');
        out.push('t');
    } else if (c as u32) < 0x20 {
        let b = c as u8;
        out.push('\\');
        out.push('u');
        out.push('0');
        out.push('0');
        out.push(hex_digit_exec(b / 16));
        out.push(hex_digit_exec(b % 16));
    } else {
        out.push(c);
    }
    assert(final(out)@ =~= old(out)@ + esc_char(c));
}

/// Appends the string literal of `s`.
pub fn push_quoted(out: &mut Vec<char>, s: &str)
    ensures
        final(out)@ == old(out)@ + quoted(s@),
{
    let v = chars_of(s);
    out.push('"');
    let ghost start = out@;
    let mut i: usize = 0;
    while i < v.len()
        invariant
            i <= v@.len(),
            out@ == start + esc(v@.subrange(0, i as int)),
        decreases v@.len() - i,
    {
        push_esc_char(out, v[i]);
        proof {
            let p = v@.subrange(0, i + 1);
            assert(p.drop_last() =~= v@.subrange(0, i as int));
        }
        i = i + 1;
    }
    out.push('"');
    assert(v@.subrange(0, v@.len() as int) =~= v@);
    assert(out@ =~= old(out)@ + quoted(s@));
}

fn push_digits(out: &mut Vec<char>, n: u128)
    ensures
        final(out)@ == old(out)@ + digits(n as nat),
    decreases n,
{
    if n < 10 {
        out.push((('0' as u8) + (n as u8)) as char);
    } else {
        push_digits(out, n / 10);
        out.push((('0' as u8) + ((n % 10) as u8)) as char);
    }
    assert(final(out)@ =~= old(out)@ + digits(n as nat));
}

fn push_int(out: &mut Vec<char>, i: i128)
    ensures
        final(out)@ == old(out)@ + int_text(i as int),
{
    if i < 0 {
        out.push('-');
        let m: u128 = ((-(i + 1)) as u128) + 1;
        push_digits(out, m);
    } else {
        push_digits(out, i as u128);
    }
    assert(final(out)@ =~= old(out)@ + int_text(i as int));
}

/// Whether the entries' keys are pairwise distinct.
pub fn entries_distinct(e: &Vec<(String, JsonValue)>) -> (r: bool)
    ensures
        r == distinct_keys(entries_view(e@)),
{
    let n = e.len();
    let mut i: usize = 0;
    while i < n
        invariant
            n == e@.len(),
            i <= n,
            forall|a: int, b: int| 0 <= a < b < n && a < i ==> (#[trigger] e@[a]).0@ != (#[trigger] e@[b]).0@,
        decreases n - i,
    {
        let mut j: usize = i + 1;
        while j < n
            invariant
                n == e@.len(),
                i < n,
                i < j <= n,
                forall|a: int, b: int| 0 <= a < b < n && a < i ==> (#[trigger] e@[a]).0@ != (#[trigger] e@[b]).0@,
                forall|b: int| i < b < j ==> e@[i as int].0@ != (#[trigger] e@[b]).0@,
            decreases n - j,
        {
            if crate::strs::str_eq(e[i].0.as_str(), e[j].0.as_str()) {
                assert(entries_view(e@)[i as int].0 == e@[i as int].0@);
                assert(entries_view(e@)[j as int].0 == e@[j as int].0@);
                return false;
            }
            j = j + 1;
        }
        i = i + 1;
    }
    assert(distinct_keys(entries_view(e@)));
    true
}

/// Whether arrays and objects in `v` are nested at most `d` deep.
pub fn check_depth(v: &JsonValue, d: usize) -> (r: bool)
    ensures
        r == depth_ok(v@, d as int),
    decreases v,
{
    match v {
        JsonValue::Array(a) => {
            proof {
                lemma_view_array(*v);
            }
            let ghost items = items_view(a@);
            if d == 0 {
                return false;
            }
            let mut k: usize = 0;
            while k < a.len()
                invariant
                    k <= a@.len(),
                    d >= 1,
                    *v == JsonValue::Array(*a),
                    items == items_view(a@),
                    v@ == Json::Array(items),
                    forall|j: int| 0 <= j < k ==> depth_ok(#[trigger] items[j], d - 1),
                decreases a@.len() - k,
            {
                proof {
                    assert(*v is Array);
                    assert(decreases_to!(*v => (*v)->Array_0));
                    assert(decreases_to!(*a => a@));
                    assert(decreases_to!(a@ => a@[k as int]));
                    assert(decreases_to!(*v => a@[k as int]));
                }
                if !check_depth(&a[k], d - 1) {
                    proof {
                        assert(items[k as int] == a@[k as int]@);
                        lemma_items_depth_ok(items, d - 1);
                    }
                    return false;
                }
                k = k + 1;
            }
            proof {
                lemma_items_depth_ok(items, d - 1);
            }
            true
        },
        JsonValue::Object(e) => {
            proof {
                lemma_view_object(*v);
            }
            let ghost ents = entries_view(e@);
            if d == 0 {
                return false;
            }
            let mut k: usize = 0;
            while k < e.len()
                invariant
                    k <= e@.len(),
                    d >= 1,
                    *v == JsonValue::Object(*e),
                    ents == entries_view(e@),
                    v@ == Json::Object(ents),
                    forall|j: int| 0 <= j < k ==> depth_ok(#[trigger] ents[j].1, d - 1),
                decreases e@.len() - k,
            {
                proof {
                    assert(*v is Object);
                    assert(decreases_to!(*v => (*v)->Object_0));
                    assert(decreases_to!(*e => e@));
                    assert(decreases_to!(e@ => e@[k as int]));
                    assert(decreases_to!(e@[k as int] => e@[k as int].1));
                    assert(decreases_to!(*v => e@[k as int].1));
                }
                if !check_depth(&e[k].1, d - 1) {
                    proof {
                        assert(ents[k as int].1 == e@[k as int].1@);
                        lemma_entries_depth_ok(ents, d - 1);
                    }
                    return false;
                }
                k = k + 1;
            }
            proof {
                lemma_entries_depth_ok(ents, d - 1);
            }
            true
        },
        _ => true,
    }
}


/// Moves the entries into ascending key order.
pub(crate) fn sort_pairs(pairs: Vec<(Vec<char>, Vec<char>)>) -> (r: Vec<(Vec<char>, Vec<char>)>)
    requires
        forall|i: int, j: int| 0 <= i < j < pairs@.len() ==> (#[trigger] pairs@[i]).0@ != (#[trigger] pairs@[j]).0@,
    ensures
        strictly_sorted(pv(r@)),
        same_elems(pv(r@), pv(pairs@)),
        r@.len() == pairs@.len(),
{
    let ghost p0 = pv(pairs@);
    let mut rem = pairs;
    let mut out: Vec<(Vec<char>, Vec<char>)> = Vec::new();
    while rem.len() > 0
        invariant
            forall|x: (Seq<char>, Seq<char>)| p0.contains(x) <==> (pv(out@).contains(x) || pv(rem@).contains(x)),
            out@.len() + rem@.len() == pairs@.len(),
            forall|i: int, j: int| 0 <= i < j < rem@.len() ==> (#[trigger] rem@[i]).0@ != (#[trigger] rem@[j]).0@,
            strictly_sorted(pv(out@)),
            forall|i: int, j: int| 0 <= i < out@.len() && 0 <= j < rem@.len() ==> key_lt((#[trigger] out@[i]).0@, (#[trigger] rem@[j]).0@),
        decreases rem@.len(),
    {
        let mut m: usize = 0;
        let mut k: usize = 1;
        proof {
            lemma_key_lt_irrefl(rem@[0].0@);
        }
        while k < rem.len()
            invariant
                0 <= m < k <= rem@.len(),
                forall|j: int| 0 <= j < k ==> !key_lt((#[trigger] rem@[j]).0@, rem@[m as int].0@),
            decreases rem@.len() - k,
        {
            if chars_lt(&rem[k].0, &rem[m].0) {
                proof {
                    assert forall|j: int| 0 <= j <= k implies !key_lt((#[trigger] rem@[j]).0@, rem@[k as int].0@) by {
                        if j < k {
                            if key_lt(rem@[j].0@, rem@[k as int].0@) {
                                lemma_key_lt_trans(rem@[j].0@, rem@[k as int].0@, rem@[m as int].0@);
                            }
                        } else {
                            lemma_key_lt_irrefl(rem@[k as int].0@);
                        }
                    }
                }
                m = k;
            }
            k = k + 1;
        }
        let ghost r0 = rem@;
        let ghost o0 = out@;
        let x = rem.remove(m);
        proof {
            assert forall|j: int| 0 <= j < rem@.len() implies key_lt(x.0@, (#[trigger] rem@[j]).0@) by {
                let jj = if j < m { j } else { j + 1 };
                assert(rem@[j] == r0[jj]);
                assert(!key_lt(r0[jj].0@, x.0@));
                lemma_key_lt_total(x.0@, r0[jj].0@);
            }
        }
        out.push(x);
        proof {
            assert(pv(out@) =~= pv(o0).push((x.0@, x.1@)));
            assert(pv(rem@) =~= pv(r0).remove(m as int));
            assert forall|xx: (Seq<char>, Seq<char>)| p0.contains(xx) <==> (pv(out@).contains(xx) || pv(rem@).contains(xx)) by {
                if pv(r0).contains(xx) {
                    let q = choose|q: int| 0 <= q < pv(r0).len() && pv(r0)[q] == xx;
                    if q == m {
                        assert(pv(out@)[o0.len() as int] == xx);
                    } else if q < m {
                        assert(pv(rem@)[q] == xx);
                    } else {
                        assert(pv(rem@)[q - 1] == xx);
                    }
                }
                if pv(o0).contains(xx) {
                    let q = choose|q: int| 0 <= q < pv(o0).len() && pv(o0)[q] == xx;
                    assert(pv(out@)[q] == xx);
                }
                if pv(out@).contains(xx) {
                    let q = choose|q: int| 0 <= q < pv(out@).len() && pv(out@)[q] == xx;
                    if q < o0.len() {
                        assert(pv(o0)[q] == xx);
                    } else {
                        assert(pv(r0)[m as int] == xx);
                    }
                }
                if pv(rem@).contains(xx) {
                    let q = choose|q: int| 0 <= q < pv(rem@).len() && pv(rem@)[q] == xx;
                    if q < m {
                        assert(pv(r0)[q] == xx);
                    } else {
                        assert(pv(r0)[q + 1] == xx);
                    }
                }
            }
            assert forall|i: int, j: int| 0 <= i < j < pv(out@).len() implies key_lt(#[trigger] pv(out@)[i].0, #[trigger] pv(out@)[j].0) by {
                if j < o0.len() {
                    assert(pv(o0)[i] == pv(out@)[i] && pv(o0)[j] == pv(out@)[j]);
                } else {
                    assert(out@[i] == o0[i]);
                    assert(key_lt(o0[i].0@, r0[m as int].0@));
                }
            }
        }
    }
    assert(pv(rem@) =~= Seq::empty());
    out
}

/// Appends the canonical text of `v`; false when some object repeats a key.
pub fn encode_value(v: &JsonValue, out: &mut Vec<char>) -> (ok: bool)
    ensures
        ok == keys_ok(v@),
        ok ==> final(out)@ == old(out)@ + enc(v@),
    decreases v,
{
    match v {
        JsonValue::Null => {
            out.push('n');
            out.push('u');
            out.push('l');
            out.push('l');
            assert(final(out)@ =~= old(out)@ + enc(v@));
            true
        },
        JsonValue::Bool(b) => {
            if *b {
                out.push('t');
                out.push('r');
                out.push('u');
                out.push('e');
            } else {
                out.push('f');
                out.push('a');
                out.push('l');
                out.push('s');
                out.push('e');
            }
            assert(final(out)@ =~= old(out)@ + enc(v@));
            true
        },
        JsonValue::Int(i) => {
            push_int(out, *i);
            true
        },
        JsonValue::Str(s) => {
            push_quoted(out, s.as_str());
            true
        },
        JsonValue::Array(a) => {
            proof {
                lemma_view_array(*v);
            }
            let ghost items = items_view(a@);
            out.push('[');
            let ghost start = out@;
            proof {
                lemma_enc_items_index(items);
                lemma_items_keys_ok(items);
            }
            let mut k: usize = 0;
            while k < a.len()
                invariant
                    k <= a@.len(),
                    *v == JsonValue::Array(*a),
                    items == items_view(a@),
                    v@ == Json::Array(items),
                    enc_items(items).len() == a@.len(),
                    forall|j: int| 0 <= j < a@.len() ==> #[trigger] enc_items(items)[j] == enc(items[j]),
                    forall|j: int| 0 <= j < k ==> keys_ok(#[trigger] items[j]),
                    out@ == start + join(enc_items(items).subrange(0, k as int)),
                decreases a@.len() - k,
            {
                if k > 0 {
                    out.push(',');
                }
                proof {
                    assert(*v is Array);
                    assert(decreases_to!(*v => (*v)->Array_0));
                    assert(decreases_to!(*a => a@));
                    assert(decreases_to!(a@ => a@[k as int]));
                }
                if !encode_value(&a[k], out) {
                    proof {
                        assert(items[k as int] == a@[k as int]@);
                        lemma_items_keys_ok(items);
                    }
                    return false;
                }
                proof {
                    assert(items[k as int] == a@[k as int]@);
                    let parts = enc_items(items).subrange(0, k + 1);
                    if k > 0 {
                        assert(parts.drop_last() =~= enc_items(items).subrange(0, k as int));
                        assert(out@ =~= start + join(parts));
                    } else {
                        assert(out@ =~= start + join(parts));
                    }
                }
                k = k + 1;
            }
            out.push(']');
            proof {
                assert(enc_items(items).subrange(0, a@.len() as int) =~= enc_items(items));
                lemma_items_keys_ok(items);
                assert(final(out)@ =~= old(out)@ + enc(v@));
            }
            true
        },
        JsonValue::Object(e) => {
            proof {
                lemma_view_object(*v);
            }
            let ghost ents = entries_view(e@);
            if !entries_distinct(e) {
                return false;
            }
            let ghost ep = entry_pairs(ents);
            proof {
                lemma_entry_pairs_index(ents);
                lemma_entries_keys_ok(ents);
            }
            let mut pairs: Vec<(Vec<char>, Vec<char>)> = Vec::new();
            let mut k: usize = 0;
            while k < e.len()
                invariant
                    k <= e@.len(),
                    *v == JsonValue::Object(*e),
                    ents == entries_view(e@),
                    v@ == Json::Object(ents),
                    ep == entry_pairs(ents),
                    ep.len() == e@.len(),
                    forall|j: int| 0 <= j < e@.len() ==> #[trigger] ep[j] == (ents[j].0, quoted(ents[j].0) + seq![':'] + enc(ents[j].1)),
                    forall|j: int| 0 <= j < k ==> keys_ok(#[trigger] ents[j].1),
                    pv(pairs@) == ep.subrange(0, k as int),
                decreases e@.len() - k,
            {
                let key = chars_of(e[k].0.as_str());
                let mut buf: Vec<char> = Vec::new();
                push_quoted(&mut buf, e[k].0.as_str());
                buf.push(':');
                proof {
                    assert(*v is Object);
                    assert(decreases_to!(*v => (*v)->Object_0));
                    assert(decreases_to!(*e => e@));
                    assert(decreases_to!(e@ => e@[k as int]));
                    assert(decreases_to!(e@[k as int] => e@[k as int].1));
                }
                let ghost b0 = buf@;
                if !encode_value(&e[k].1, &mut buf) {
                    proof {
                        assert(ents[k as int].1 == e@[k as int].1@);
                        lemma_entries_keys_ok(ents);
                    }
                    return false;
                }
                let ghost pp = pairs@;
                pairs.push((key, buf));
                proof {
                    assert(ents[k as int] == (e@[k as int].0@, e@[k as int].1@));
                    assert(b0 =~= seq![] + quoted(e@[k as int].0@) + seq![':']);
                    assert(pv(pairs@) =~= pv(pp).push(ep[k as int]));
                    assert(ep.subrange(0, k + 1) =~= ep.subrange(0, k as int).push(ep[k as int]));
                }
                k = k + 1;
            }
            proof {
                assert(ep.subrange(0, e@.len() as int) =~= ep);
                assert forall|i: int, j: int| 0 <= i < j < pairs@.len() implies (#[trigger] pairs@[i]).0@ != (#[trigger] pairs@[j]).0@ by {
                    assert(pv(pairs@)[i] == ep[i] && pv(pairs@)[j] == ep[j]);
                    assert(distinct_keys(ents));
                    assert(ents[i].0 != ents[j].0);
                }
            }
            let sorted = sort_pairs(pairs);
            proof {
                lemma_sorted_pairs_determined(ep, pv(sorted@));
                lemma_entries_keys_ok(ents);
            }
            let ghost parts = seconds(pv(sorted@));
            out.push('{');
            let ghost start = out@;
            let mut k: usize = 0;
            while k < sorted.len()
                invariant
                    k <= sorted@.len(),
                    parts == seconds(pv(sorted@)),
                    out@ == start + join(parts.subrange(0, k as int)),
                decreases sorted@.len() - k,
            {
                if k > 0 {
                    out.push(',');
                }
                push_all(out, &sorted[k].1);
                proof {
                    let q = parts.subrange(0, k + 1);
                    assert(q.last() == sorted@[k as int].1@);
                    if k > 0 {
                        assert(q.drop_last() =~= parts.subrange(0, k as int));
                    }
                    assert(out@ =~= start + join(q));
                }
                k = k + 1;
            }
            out.push('}');
            proof {
                assert(parts.subrange(0, sorted@.len() as int) =~= parts);
                assert(final(out)@ =~= old(out)@ + enc(v@));
            }
            true
        },
    }
}

/// Canonical bytes of a value: UTF-8 of `enc`. Fails with `RecursionLimit`
/// when arrays and objects nest deeper than `max_depth`, else with
/// `UnsortableKey` when an object repeats a key.
pub fn canonical_json_bytes(v: &JsonValue, max_depth: usize) -> (r: Result<Vec<u8>, CanonicalError>)
    ensures
        r is Ok <==> (depth_ok(v@, max_depth as int) && keys_ok(v@)),
        r is Ok ==> r->Ok_0@ == utf8_of(enc(v@)),
        r == Err::<Vec<u8>, CanonicalError>(CanonicalError::RecursionLimit) <==> !depth_ok(v@, max_depth as int),
        r == Err::<Vec<u8>, CanonicalError>(CanonicalError::UnsortableKey) <==> (depth_ok(v@, max_depth as int) && !keys_ok(v@)),
{
    if !check_depth(v, max_depth) {
        return Err(CanonicalError::RecursionLimit);
    }
    let mut out: Vec<char> = Vec::new();
    if !encode_value(v, &mut out) {
        return Err(CanonicalError::UnsortableKey);
    }
    assert(out@ =~= enc(v@));
    let s = crate::strs::string_of(out.as_slice());
    Ok(utf8_bytes(s.as_str()))
}

/// Why a value has no canonical encoding.
#[derive(Debug, Clone, Copy, PartialEq, Eq, Structural)]
pub enum CanonicalError {
    /// An object holds the same key twice.
    UnsortableKey,
    /// A value that cannot be represented.
    InvalidValue,
    /// Nesting deeper than allowed.
    RecursionLimit,
}

impl CanonicalError {
    /// The core error of the same meaning.
    pub fn to_error(self) -> (r: SigniaError)
        ensures
            r.kind == ErrorKind::Serialization,
    {
        match self {
            CanonicalError::UnsortableKey => SigniaError::new(ErrorKind::Serialization, String::from_str("canonical json: duplicate object key")),
            CanonicalError::InvalidValue => SigniaError::new(ErrorKind::Serialization, String::from_str("canonical json: invalid value")),
            CanonicalError::RecursionLimit => SigniaError::new(ErrorKind::Serialization, String::from_str("canonical json: recursion limit exceeded")),
        }
    }
}


/// Canonical determinism: an object whose entries are a permutation of
/// another's has the same canonical text.
pub proof fn lemma_canonical_permutation(a: Seq<(Seq<char>, Json)>, b: Seq<(Seq<char>, Json)>)
    requires
        a.to_multiset() == b.to_multiset(),
    ensures
        enc(Json::Object(a)) == enc(Json::Object(b)),
{
    let pa = entry_pairs(a);
    let pb = entry_pairs(b);
    lemma_entry_pairs_index(a);
    lemma_entry_pairs_index(b);
    a.to_multiset_ensures();
    b.to_multiset_ensures();
    assert forall|x: (Seq<char>, Seq<char>)| pa.contains(x) implies pb.contains(x) by {
        let k = choose|k: int| 0 <= k < pa.len() && pa[k] == x;
        assert(a.contains(a[k]));
        assert(a.to_multiset().count(a[k]) > 0);
        assert(b.to_multiset().count(a[k]) > 0);
        assert(b.contains(a[k]));
        let m = choose|m: int| 0 <= m < b.len() && b[m] == a[k];
        assert(pb[m] == x);
    }
    assert forall|x: (Seq<char>, Seq<char>)| pb.contains(x) implies pa.contains(x) by {
        let k = choose|k: int| 0 <= k < pb.len() && pb[k] == x;
        assert(b.contains(b[k]));
        assert(b.to_multiset().count(b[k]) > 0);
        assert(a.to_multiset().count(b[k]) > 0);
        assert(a.contains(b[k]));
        let m = choose|m: int| 0 <= m < a.len() && a[m] == b[k];
        assert(pa[m] == x);
    }
    assert(pa.to_set() =~= pb.to_set());
}

/// Hash stability: the hash of the canonical bytes of permuted objects is the
/// same, and in general depends on the value alone.
pub proof fn lemma_canonical_hash_permutation(a: Seq<(Seq<char>, Json)>, b: Seq<(Seq<char>, Json)>)
    requires
        a.to_multiset() == b.to_multiset(),
    ensures
        sha256_of(utf8_of(enc(Json::Object(a)))) == sha256_of(utf8_of(enc(Json::Object(b)))),
{
    lemma_canonical_permutation(a, b);
}

/// Lowercase hex of the SHA-256 of the canonical bytes of `v`.
pub fn canonical_hash_hex(v: &JsonValue, max_depth: usize) -> (r: Result<String, CanonicalError>)
    ensures
        r is Ok <==> (depth_ok(v@, max_depth as int) && keys_ok(v@)),
        r is Ok ==> r->Ok_0@ == hex_of(sha256_of(utf8_of(enc(v@)))),
        r is Ok ==> r->Ok_0@.len() == 64,
        r == Err::<String, CanonicalError>(CanonicalError::RecursionLimit) <==> !depth_ok(v@, max_depth as int),
{
    let bytes = canonical_json_bytes(v, max_depth)?;
    Ok(hash_bytes_hex(bytes.as_slice()))
}

/// Decimal digits of `n`.
pub fn decimal_chars(n: u64) -> (r: Vec<char>)
    ensures
        r@ == digits(n as nat),
{
    let mut out: Vec<char> = Vec::new();
    push_digits(&mut out, n as u128);
    assert(out@ =~= digits(n as nat));
    out
}
} // verus!
