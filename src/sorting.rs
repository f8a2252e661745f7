use vstd::prelude::*;
use crate::error::SigniaError;
use crate::json::{chars_lt, key_lt, lemma_key_lt_asym, lemma_key_lt_total, lemma_key_lt_trans};
use crate::strs::chars_of;
use vstd::multiset::Multiset;

verus! {

broadcast use {vstd::seq_lib::group_to_multiset_ensures, vstd::multiset::group_multiset_axioms};

/// The key function gives one key per item.
pub open spec fn key_deterministic<T, F: Fn(&T) -> u64>(f: F) -> bool {
    forall|x: &T, a: u64, b: u64| f.ensures((x,), a) && f.ensures((x,), b) ==> a == b
}

/// Items are in ascending key order under `f`.
pub open spec fn sorted_by<T, F: Fn(&T) -> u64>(f: F, s: Seq<T>) -> bool {
    forall|i: int, j: int, a: u64, b: u64|
        0 <= i < j < s.len() && f.ensures((&s[i],), a) && f.ensures((&s[j],), b) ==> a <= b
}

/// `after[i] == before[p[i]]` for a one-to-one `p`, and items with equal keys
/// keep their relative order.
pub open spec fn stable_arrangement<T, F: Fn(&T) -> u64>(f: F, before: Seq<T>, after: Seq<T>, p: Seq<int>) -> bool {
    &&& p.len() == after.len() && after.len() == before.len()
    &&& forall|i: int| 0 <= i < p.len() ==> 0 <= #[trigger] p[i] < before.len() && after[i] == before[p[i]]
    &&& forall|i: int, j: int| 0 <= i < j < p.len() ==> #[trigger] p[i] != #[trigger] p[j]
    &&& forall|i: int, j: int, a: u64, b: u64|
        #![trigger f.ensures((&after[i],), a), f.ensures((&after[j],), b)]
        0 <= i < j < after.len() && f.ensures((&after[i],), a) && f.ensures((&after[j],), b) && a == b ==> p[i] < p[j]
}

/// Sorts the items by key, keeping the order of items with equal keys.
pub fn stable_sort_by_key<T, F: Fn(&T) -> u64>(items: &mut Vec<T>, key_fn: F) -> (r: Result<(), SigniaError>)
    requires
        forall|x: &T| key_fn.requires((x,)),
        key_deterministic(key_fn),
    ensures
        r is Ok,
        final(items)@.to_multiset() == old(items)@.to_multiset(),
        sorted_by(key_fn, final(items)@),
        exists|p: Seq<int>| #[trigger] stable_arrangement(key_fn, old(items)@, final(items)@, p),
{
    let n = items.len();
    let mut rest: Vec<T> = Vec::new();
    let mut keys_rest: Vec<u64> = Vec::new();
    // move the items out, remembering each key
    let ghost orig = items@;
    while items.len() > 0
        invariant
            forall|x: &T| key_fn.requires((x,)),
            rest@ + items@.reverse() == orig.reverse(),
            keys_rest@.len() == rest@.len(),
            forall|q: int| 0 <= q < rest@.len() ==> key_fn.ensures((&rest@[q],), #[trigger] keys_rest@[q]),
        decreases items@.len(),
    {
        let ghost i0 = items@;
        let x = items.pop().unwrap();
        let k = key_fn(&x);
        rest.push(x);
        keys_rest.push(k);
        proof {
            assert(i0 =~= items@.push(x));
            assert(i0.reverse() =~= seq![x] + items@.reverse());
            assert(rest@ + items@.reverse() =~= orig.reverse()) by {
                assert(rest@ =~= rest@.drop_last().push(x));
            }
        }
    }
    let ghost all = rest@;
    proof {
        assert(rest@ =~= orig.reverse());
        orig.lemma_reverse_to_multiset();
    }
    // take items from the back of `rest`, which holds the input reversed, so the input front comes first
    let ghost nn = orig.len() as int;
    let ghost mut idx: Seq<int> = Seq::empty();
    let mut out: Vec<T> = Vec::new();
    let mut keys: Vec<u64> = Vec::new();
    while rest.len() > 0
        invariant
            forall|x: &T| key_fn.requires((x,)),
            key_deterministic(key_fn),
            keys_rest@.len() == rest@.len(),
            forall|q: int| 0 <= q < rest@.len() ==> key_fn.ensures((&rest@[q],), #[trigger] keys_rest@[q]),
            keys@.len() == out@.len(),
            forall|q: int| 0 <= q < out@.len() ==> key_fn.ensures((&out@[q],), #[trigger] keys@[q]),
            forall|a: int, b: int| 0 <= a < b < keys@.len() ==> #[trigger] keys@[a] <= #[trigger] keys@[b],
            out@.to_multiset().add(rest@.to_multiset()) == orig.to_multiset(),
            nn == orig.len(),
            out@.len() <= nn,
            rest@ == orig.reverse().subrange(0, nn - out@.len()),
            idx.len() == out@.len(),
            forall|q: int| 0 <= q < idx.len() ==> 0 <= #[trigger] idx[q] < out@.len() && out@[q] == orig[idx[q]],
            forall|a: int, b: int| 0 <= a < b < idx.len() ==> #[trigger] idx[a] != #[trigger] idx[b],
            forall|a: int, b: int| 0 <= a < b < idx.len() && keys@[a] == keys@[b] ==> #[trigger] idx[a] < #[trigger] idx[b],
        decreases rest@.len(),
    {
        let ghost r0 = rest@;
        let ghost o0 = out@;
        let ghost k0 = keys@;
        let x = rest.pop().unwrap();
        let k = keys_rest.pop().unwrap();
        let ghost t = o0.len() as int;
        let ghost i0 = idx;
        proof {
            assert(r0 =~= rest@.push(x));
            assert(k0.len() == o0.len());
            assert(r0.len() == nn - t);
            assert(x == r0[nn - t - 1]);
            assert(r0[nn - t - 1] == orig.reverse()[nn - t - 1]);
            assert(orig.reverse()[nn - t - 1] == orig[t]);
            assert(x == orig[t]);
            assert(rest@ =~= orig.reverse().subrange(0, nn - (t + 1)));
        }
        let mut pos: usize = 0;
        while pos < keys.len() && keys[pos] <= k
            invariant
                pos <= keys@.len(),
                forall|q: int| 0 <= q < pos ==> #[trigger] keys@[q] <= k,
            decreases keys@.len() - pos,
        {
            pos = pos + 1;
        }
        out.insert(pos, x);
        keys.insert(pos, k);
        proof {
            idx = i0.insert(pos as int, t);
            assert forall|q: int| 0 <= q < idx.len() implies 0 <= #[trigger] idx[q] < out@.len() && out@[q] == orig[idx[q]] by {
                if q < pos {
                    assert(idx[q] == i0[q] && out@[q] == o0[q]);
                } else if q > pos {
                    assert(idx[q] == i0[q - 1] && out@[q] == o0[q - 1]);
                }
            }
            assert forall|a: int, b: int| 0 <= a < b < idx.len() implies #[trigger] idx[a] != #[trigger] idx[b] by {
                if a < pos && b > pos {
                    assert(idx[a] == i0[a] && idx[b] == i0[b - 1]);
                } else if b < pos {
                    assert(idx[a] == i0[a] && idx[b] == i0[b]);
                } else if a > pos {
                    assert(idx[a] == i0[a - 1] && idx[b] == i0[b - 1]);
                } else if a == pos {
                    assert(idx[b] == i0[b - 1]);
                } else {
                    assert(idx[a] == i0[a]);
                }
            }
            assert forall|a: int, b: int| 0 <= a < b < idx.len() && keys@[a] == keys@[b] implies #[trigger] idx[a] < #[trigger] idx[b] by {
                if a < pos && b > pos {
                    assert(idx[a] == i0[a] && idx[b] == i0[b - 1] && keys@[a] == k0[a] && keys@[b] == k0[b - 1]);
                } else if b < pos {
                    assert(idx[a] == i0[a] && idx[b] == i0[b] && keys@[a] == k0[a] && keys@[b] == k0[b]);
                } else if a > pos {
                    assert(idx[a] == i0[a - 1] && idx[b] == i0[b - 1] && keys@[a] == k0[a - 1] && keys@[b] == k0[b - 1]);
                } else if a == pos {
                    assert(keys@[b] == k0[b - 1]);
                    assert(k0[pos as int] > k);
                    assert(k0[pos as int] <= k0[b - 1] || b - 1 == pos);
                } else {
                    assert(idx[a] == i0[a]);
                }
            }
            vstd::seq_lib::to_multiset_insert(o0, pos as int, x);
            rest@.to_multiset_ensures();
            assert(r0.to_multiset() == rest@.to_multiset().insert(x));
            assert(out@.to_multiset().add(rest@.to_multiset()) =~= orig.to_multiset());
            assert forall|q: int| 0 <= q < out@.len() implies key_fn.ensures((&out@[q],), #[trigger] keys@[q]) by {
                if q < pos {
                    assert(out@[q] == o0[q] && keys@[q] == k0[q]);
                } else if q > pos {
                    assert(out@[q] == o0[q - 1] && keys@[q] == k0[q - 1]);
                }
            }
            assert forall|a: int, b: int| 0 <= a < b < keys@.len() implies #[trigger] keys@[a] <= #[trigger] keys@[b] by {
                if a < pos && b == pos {
                    assert(keys@[a] == k0[a]);
                } else if a == pos && b > pos {
                    assert(keys@[b] == k0[b - 1]);
                    if pos < k0.len() {
                        assert(k0[pos as int] > k);
                        assert(k0[pos as int] <= k0[b - 1] || b - 1 == pos);
                    }
                } else if b < pos {
                    assert(keys@[a] == k0[a] && keys@[b] == k0[b]);
                } else if a < pos {
                    assert(keys@[a] == k0[a] && keys@[b] == k0[b - 1]);
                } else {
                    assert(keys@[a] == k0[a - 1] && keys@[b] == k0[b - 1]);
                }
            }
        }
    }
    proof {
        assert(rest@.to_multiset() =~= Multiset::empty());
        assert(out@.to_multiset().add(Multiset::empty()) =~= out@.to_multiset());
    }
    proof {
        assert forall|i: int, j: int, a: u64, b: u64|
            0 <= i < j < out@.len() && key_fn.ensures((&out@[i],), a) && key_fn.ensures((&out@[j],), b) implies a <= b by {
            assert(key_fn.ensures((&out@[i],), keys@[i]));
            assert(key_fn.ensures((&out@[j],), keys@[j]));
        }
        assert(rest@.len() == 0);
        assert(out@.len() == nn);
        assert forall|i: int, j: int, a: u64, b: u64|
            #![trigger key_fn.ensures((&out@[i],), a), key_fn.ensures((&out@[j],), b)]
            0 <= i < j < out@.len() && key_fn.ensures((&out@[i],), a) && key_fn.ensures((&out@[j],), b) && a == b implies idx[i] < idx[j] by {
            assert(key_fn.ensures((&out@[i],), keys@[i]));
            assert(key_fn.ensures((&out@[j],), keys@[j]));
        }
        assert(stable_arrangement(key_fn, orig, out@, idx));
    }
    *items = out;
    Ok(())
}

/// Succeeds when keys never decrease from one item to the next.
pub fn ensure_sorted<T, F: Fn(&T) -> u64>(items: &[T], key_fn: F) -> (r: Result<(), SigniaError>)
    requires
        forall|x: &T| key_fn.requires((x,)),
        key_deterministic(key_fn),
    ensures
        r is Ok <==> forall|i: int, a: u64, b: u64|
            #![trigger key_fn.ensures((&items@[i],), a), key_fn.ensures((&items@[i + 1],), b)]
            0 <= i && i + 1 < items@.len() && key_fn.ensures((&items@[i],), a) && key_fn.ensures((&items@[i + 1],), b) ==> a <= b,
        r is Err ==> r->Err_0.message@ == "collection is not sorted deterministically"@,
{
    let n = items.len();
    let mut i: usize = 0;
    while n > 0 && i < n - 1
        invariant
            n == items@.len(),
            forall|x: &T| key_fn.requires((x,)),
            key_deterministic(key_fn),
            forall|q: int, a: u64, b: u64|
                #![trigger key_fn.ensures((&items@[q],), a), key_fn.ensures((&items@[q + 1],), b)]
                0 <= q < i && q + 1 < n && key_fn.ensures((&items@[q],), a) && key_fn.ensures((&items@[q + 1],), b) ==> a <= b,
        decreases n - i,
    {
        let a = key_fn(&items[i]);
        let b = key_fn(&items[i + 1]);
        if a > b {
            return Err(SigniaError::invariant_violation("collection is not sorted deterministically"));
        }
        i = i + 1;
    }
    Ok(())
}

/// Strings sorted by code point order, equal strings kept in their order.
pub fn stable_sort_strings(items: &mut Vec<String>)
    ensures
        final(items)@.to_multiset() == old(items)@.to_multiset(),
        forall|i: int, j: int| 0 <= i < j < final(items)@.len() ==> !key_lt(#[trigger] final(items)@[j]@, #[trigger] final(items)@[i]@),
{
    let ghost orig = items@;
    let mut out: Vec<String> = Vec::new();
    let mut i: usize = 0;
    let n = items.len();
    let mut rest: Vec<String> = Vec::new();
    while items.len() > 0
        invariant
            rest@ + items@.reverse() == orig.reverse(),
        decreases items@.len(),
    {
        let ghost i0 = items@;
        let x = items.pop().unwrap();
        rest.push(x);
        proof {
            assert(i0 =~= items@.push(x));
            assert(i0.reverse() =~= seq![x] + items@.reverse());
            assert(rest@ + items@.reverse() =~= orig.reverse()) by {
                assert(rest@ =~= rest@.drop_last().push(x));
            }
        }
    }
    proof {
        assert(rest@ =~= orig.reverse());
        orig.lemma_reverse_to_multiset();
    }
    while rest.len() > 0
        invariant
            forall|a: int, b: int| 0 <= a < b < out@.len() ==> !key_lt(#[trigger] out@[b]@, #[trigger] out@[a]@),
            out@.to_multiset().add(rest@.to_multiset()) == orig.to_multiset(),
        decreases rest@.len(),
    {
        let ghost r0 = rest@;
        let ghost o0 = out@;
        let x = rest.pop().unwrap();
        let xk = chars_of(x.as_str());
        let mut pos: usize = 0;
        while pos < out.len() && !chars_lt(&xk, &chars_of(out[pos].as_str()))
            invariant
                pos <= out@.len(),
                xk@ == x@,
                forall|q: int| 0 <= q < pos ==> !key_lt(x@, (#[trigger] out@[q])@),
            decreases out@.len() - pos,
        {
            pos = pos + 1;
        }
        proof {
            assert(r0 =~= rest@.push(x));
            assert forall|q: int| pos <= q < o0.len() implies key_lt(x@, (#[trigger] o0[q])@) by {
                if q > pos {
                    assert(!key_lt(o0[q]@, o0[pos as int]@));
                    lemma_key_lt_total(o0[pos as int]@, o0[q]@);
                    if o0[pos as int]@ != o0[q]@ {
                        lemma_key_lt_trans(x@, o0[pos as int]@, o0[q]@);
                    }
                }
            }
        }
        out.insert(pos, x);
        proof {
            vstd::seq_lib::to_multiset_insert(o0, pos as int, x);
            rest@.to_multiset_ensures();
            assert(out@.to_multiset().add(rest@.to_multiset()) =~= orig.to_multiset());
            assert forall|a: int, b: int| 0 <= a < b < out@.len() implies !key_lt(#[trigger] out@[b]@, #[trigger] out@[a]@) by {
                if a < pos && b == pos {
                    lemma_key_lt_total(x@, o0[a]@);
                    if key_lt(x@, o0[a]@) {
                        lemma_key_lt_asym(x@, o0[a]@);
                    }
                } else if a == pos {
                    assert(out@[b] == o0[b - 1]);
                    if key_lt(o0[b - 1]@, x@) {
                        lemma_key_lt_asym(x@, o0[b - 1]@);
                    }
                } else if b < pos {
                    assert(out@[a] == o0[a] && out@[b] == o0[b]);
                } else if a < pos {
                    assert(out@[a] == o0[a] && out@[b] == o0[b - 1]);
                } else {
                    assert(out@[a] == o0[a - 1] && out@[b] == o0[b - 1]);
                }
            }
        }
    }
    proof {
        assert(rest@.to_multiset() =~= Multiset::empty());
        assert(out@.to_multiset().add(Multiset::empty()) =~= out@.to_multiset());
    }
    *items = out;
}

/// Pairs sorted by their key in code point order; pairs with equal keys
/// are kept in their order.
pub fn stable_sort_pairs<V>(items: &mut Vec<(String, V)>)
    ensures
        final(items)@.to_multiset() == old(items)@.to_multiset(),
        forall|i: int, j: int| 0 <= i < j < final(items)@.len() ==> !key_lt(#[trigger] final(items)@[j].0@, #[trigger] final(items)@[i].0@),
{
    let ghost orig = items@;
    let mut out: Vec<(String, V)> = Vec::new();
    let mut i: usize = 0;
    let n = items.len();
    let mut rest: Vec<(String, V)> = Vec::new();
    while items.len() > 0
        invariant
            rest@ + items@.reverse() == orig.reverse(),
        decreases items@.len(),
    {
        let ghost i0 = items@;
        let x = items.pop().unwrap();
        rest.push(x);
        proof {
            assert(i0 =~= items@.push(x));
            assert(i0.reverse() =~= seq![x] + items@.reverse());
            assert(rest@ + items@.reverse() =~= orig.reverse()) by {
                assert(rest@ =~= rest@.drop_last().push(x));
            }
        }
    }
    proof {
        assert(rest@ =~= orig.reverse());
        orig.lemma_reverse_to_multiset();
    }
    while rest.len() > 0
        invariant
            forall|a: int, b: int| 0 <= a < b < out@.len() ==> !key_lt(#[trigger] out@[b].0@, #[trigger] out@[a].0@),
            out@.to_multiset().add(rest@.to_multiset()) == orig.to_multiset(),
        decreases rest@.len(),
    {
        let ghost r0 = rest@;
        let ghost o0 = out@;
        let x = rest.pop().unwrap();
        let xk = chars_of(x.0.as_str());
        let mut pos: usize = 0;
        while pos < out.len() && !chars_lt(&xk, &chars_of(out[pos].0.as_str()))
            invariant
                pos <= out@.len(),
                xk@ == x.0@,
                forall|q: int| 0 <= q < pos ==> !key_lt(x.0@, (#[trigger] out@[q]).0@),
            decreases out@.len() - pos,
        {
            pos = pos + 1;
        }
        proof {
            assert(r0 =~= rest@.push(x));
            assert forall|q: int| pos <= q < o0.len() implies key_lt(x.0@, (#[trigger] o0[q]).0@) by {
                if q > pos {
                    assert(!key_lt(o0[q].0@, o0[pos as int].0@));
                    lemma_key_lt_total(o0[pos as int].0@, o0[q].0@);
                    if o0[pos as int].0@ != o0[q].0@ {
                        lemma_key_lt_trans(x.0@, o0[pos as int].0@, o0[q].0@);
                    }
                }
            }
        }
        out.insert(pos, x);
        proof {
            vstd::seq_lib::to_multiset_insert(o0, pos as int, x);
            rest@.to_multiset_ensures();
            assert(out@.to_multiset().add(rest@.to_multiset()) =~= orig.to_multiset());
            assert forall|a: int, b: int| 0 <= a < b < out@.len() implies !key_lt(#[trigger] out@[b].0@, #[trigger] out@[a].0@) by {
                if a < pos && b == pos {
                    lemma_key_lt_total(x.0@, o0[a].0@);
                    if key_lt(x.0@, o0[a].0@) {
                        lemma_key_lt_asym(x.0@, o0[a].0@);
                    }
                } else if a == pos {
                    assert(out@[b] == o0[b - 1]);
                    if key_lt(o0[b - 1].0@, x.0@) {
                        lemma_key_lt_asym(x.0@, o0[b - 1].0@);
                    }
                } else if b < pos {
                    assert(out@[a] == o0[a] && out@[b] == o0[b]);
                } else if a < pos {
                    assert(out@[a] == o0[a] && out@[b] == o0[b - 1]);
                } else {
                    assert(out@[a] == o0[a - 1] && out@[b] == o0[b - 1]);
                }
            }
        }
    }
    proof {
        assert(rest@.to_multiset() =~= Multiset::empty());
        assert(out@.to_multiset().add(Multiset::empty()) =~= out@.to_multiset());
    }
    *items = out;
}

} // verus!
