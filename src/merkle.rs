use vstd::prelude::*;
use crate::hashing::{leaf_hash, merkle_leaf, merkle_node, node_hash};

verus! {

/// The views of a sequence of byte vectors.
pub open spec fn views(v: Seq<Vec<u8>>) -> Seq<Seq<u8>> {
    v.map_values(|b: Vec<u8>| b@)
}

/// One level up: neighbours are hashed in pairs, and an odd last element is
/// paired with itself.
pub open spec fn next_level(s: Seq<Seq<u8>>) -> Seq<Seq<u8>> {
    Seq::new(
        ((s.len() + 1) / 2) as nat,
        |i: int| node_hash(s[2 * i], if 2 * i + 1 < s.len() { s[2 * i + 1] } else { s[2 * i] }),
    )
}

/// Root over a level of hashes; the empty tree has the leaf hash of the empty
/// payload as its root.
pub open spec fn root_of(s: Seq<Seq<u8>>) -> Seq<u8>
    decreases s.len(),
{
    if s.len() == 0 {
        leaf_hash(Seq::empty())
    } else if s.len() == 1 {
        s[0]
    } else {
        root_of(next_level(s))
    }
}

/// Root of the tree whose leaves carry the given payloads, in the given order.
pub open spec fn merkle_root_spec(payloads: Seq<Seq<u8>>) -> Seq<u8> {
    root_of(payloads.map_values(|p: Seq<u8>| leaf_hash(p)))
}

/// Index of the element paired with element `i` of a level of `n`.
pub open spec fn sibling_index(n: nat, i: nat) -> nat {
    if i % 2 == 1 {
        (i - 1) as nat
    } else if i + 1 < n {
        i + 1
    } else {
        i
    }
}

/// Sibling hashes from leaf `i` up to the root. A sibling is marked left when
/// it precedes the current element on its level.
pub open spec fn path_of(s: Seq<Seq<u8>>, i: nat) -> Seq<(bool, Seq<u8>)>
    decreases s.len(),
{
    if s.len() <= 1 {
        Seq::empty()
    } else {
        seq![(i % 2 == 1, s[sibling_index(s.len(), i) as int])] + path_of(next_level(s), i / 2)
    }
}

/// Folds a path of siblings onto a starting hash.
pub open spec fn fold_path(h: Seq<u8>, path: Seq<(bool, Seq<u8>)>) -> Seq<u8>
    decreases path.len(),
{
    if path.len() == 0 {
        h
    } else {
        let step = if path[0].0 {
            node_hash(path[0].1, h)
        } else {
            node_hash(h, path[0].1)
        };
        fold_path(step, path.drop_first())
    }
}

/// Every element of a level, folded with its own path, reaches the root.
pub proof fn lemma_path_reaches_root(s: Seq<Seq<u8>>, i: nat)
    requires
        i < s.len(),
    ensures
        fold_path(s[i as int], path_of(s, i)) == root_of(s),
    decreases s.len(),
{
    if s.len() > 1 {
        let n = next_level(s);
        let p = path_of(s, i);
        assert(p.drop_first() =~= path_of(n, i / 2));
        let step = if p[0].0 {
            node_hash(p[0].1, s[i as int])
        } else {
            node_hash(s[i as int], p[0].1)
        };
        assert(step == n[(i / 2) as int]);
        lemma_path_reaches_root(n, i / 2);
    }
}

/// Inclusion soundness: for every leaf of a tree, its inclusion path folds
/// from the leaf hash to the root of the tree.
pub proof fn lemma_inclusion_sound(payloads: Seq<Seq<u8>>, i: nat)
    requires
        i < payloads.len(),
    ensures
        fold_path(leaf_hash(payloads[i as int]), path_of(payloads.map_values(|p: Seq<u8>| leaf_hash(p)), i))
            == merkle_root_spec(payloads),
{
    let s = payloads.map_values(|p: Seq<u8>| leaf_hash(p));
    lemma_path_reaches_root(s, i);
}

/// A sibling on an inclusion path.
#[derive(Debug, Clone)]
pub struct PathStep {
    /// The sibling precedes the current element.
    pub left: bool,
    pub hash: Vec<u8>,
}

pub open spec fn steps_view(p: Seq<PathStep>) -> Seq<(bool, Seq<u8>)> {
    p.map_values(|s: PathStep| (s.left, s.hash@))
}

/// Computes the next level of a tree.
pub fn next_level_exec(level: &Vec<Vec<u8>>) -> (r: Vec<Vec<u8>>)
    ensures
        views(r@) == next_level(views(level@)),
        r@.len() == (level@.len() + 1) / 2,
{
    let n = level.len();
    let mut out: Vec<Vec<u8>> = Vec::new();
    let mut k: usize = 0;
    while k < n - k
        invariant
            n == level@.len(),
            k <= n - k + 1,
            out@.len() == k,
            forall|j: int| 0 <= j < out@.len() ==> (#[trigger] out@[j])@ == next_level(views(level@))[j],
        decreases n - k,
    {
        let i = k + k;
        let right = if i + 1 < n { &level[i + 1] } else { &level[i] };
        let h = merkle_node(level[i].as_slice(), right.as_slice());
        out.push(h);
        k = k + 1;
    }
    assert(views(out@) =~= next_level(views(level@)));
    out
}

/// Root of a level of hashes.
pub fn root_of_level(level: Vec<Vec<u8>>) -> (r: Vec<u8>)
    ensures
        r@ == root_of(views(level@)),
{
    if level.len() == 0 {
        let empty: Vec<u8> = Vec::new();
        return merkle_leaf(empty.as_slice());
    }
    let mut cur = level;
    assert(views(cur@).len() == cur@.len());
    while cur.len() > 1
        invariant
            cur@.len() >= 1,
            root_of(views(cur@)) == root_of(views(level@)),
        decreases cur@.len(),
    {
        assert(views(cur@).len() == cur@.len());
        let next = next_level_exec(&cur);
        cur = next;
    }
    assert(views(cur@).len() == 1);
    cur[0].clone()
}

/// Leaf hashes of the payloads, in order.
pub fn leaf_hashes(payloads: &Vec<Vec<u8>>) -> (r: Vec<Vec<u8>>)
    ensures
        views(r@) == views(payloads@).map_values(|p: Seq<u8>| leaf_hash(p)),
        r@.len() == payloads@.len(),
{
    let mut out: Vec<Vec<u8>> = Vec::new();
    let mut i: usize = 0;
    while i < payloads.len()
        invariant
            i <= payloads@.len(),
            out@.len() == i,
            forall|k: int| 0 <= k < i ==> (#[trigger] out@[k])@ == leaf_hash(payloads@[k]@),
        decreases payloads@.len() - i,
    {
        out.push(merkle_leaf(payloads[i].as_slice()));
        i = i + 1;
    }
    assert(views(out@) =~= views(payloads@).map_values(|p: Seq<u8>| leaf_hash(p)));
    out
}

/// Root of the tree over the payloads, taken in the order given.
pub fn merkle_root(payloads: &Vec<Vec<u8>>) -> (r: Vec<u8>)
    ensures
        r@ == merkle_root_spec(views(payloads@)),
{
    root_of_level(leaf_hashes(payloads))
}

/// Inclusion path of leaf `index` in the tree over the payloads.
pub fn inclusion_path(payloads: &Vec<Vec<u8>>, index: usize) -> (r: Vec<PathStep>)
    requires
        index < payloads@.len(),
    ensures
        steps_view(r@) == path_of(views(payloads@).map_values(|p: Seq<u8>| leaf_hash(p)), index as nat),
{
    let ghost s0 = views(payloads@).map_values(|p: Seq<u8>| leaf_hash(p));
    let mut cur = leaf_hashes(payloads);
    let mut i: usize = index;
    let mut out: Vec<PathStep> = Vec::new();
    while cur.len() > 1
        invariant
            i < cur@.len(),
            path_of(s0, index as nat) == steps_view(out@) + path_of(views(cur@), i as nat),
        decreases cur@.len(),
    {
        let n = cur.len();
        let sib = if i % 2 == 1 {
            i - 1
        } else if i + 1 < n {
            i + 1
        } else {
            i
        };
        let step = PathStep { left: i % 2 == 1, hash: cur[sib].clone() };
        proof {
            let c = views(cur@);
            assert(path_of(c, i as nat) =~= seq![(step.left, step.hash@)] + path_of(next_level(c), (i / 2) as nat));
        }
        assert(views(cur@).len() == cur@.len());
        let ghost before = out@;
        let ghost entry = (step.left, step.hash@);
        out.push(step);
        proof {
            assert(steps_view(out@) =~= steps_view(before).push(entry));
        }
        let next = next_level_exec(&cur);
        cur = next;
        i = i / 2;
    }
    assert(path_of(views(cur@), i as nat) =~= Seq::empty());
    assert(steps_view(out@) + Seq::empty() =~= steps_view(out@));
    out
}

/// Folds an inclusion path onto a starting hash.
pub fn fold_path_exec(start: Vec<u8>, path: &Vec<PathStep>) -> (r: Vec<u8>)
    ensures
        r@ == fold_path(start@, steps_view(path@)),
{
    let mut h = start;
    let mut i: usize = 0;
    assert(steps_view(path@).subrange(0, path@.len() as int) =~= steps_view(path@));
    while i < path.len()
        invariant
            i <= path@.len(),
            fold_path(h@, steps_view(path@).subrange(i as int, path@.len() as int)) == fold_path(start@, steps_view(path@)),
        decreases path@.len() - i,
    {
        proof {
            let rest = steps_view(path@).subrange(i as int, path@.len() as int);
            assert(rest.drop_first() =~= steps_view(path@).subrange(i + 1, path@.len() as int));
        }
        let step = &path[i];
        h = if step.left {
            merkle_node(step.hash.as_slice(), h.as_slice())
        } else {
            merkle_node(h.as_slice(), step.hash.as_slice())
        };
        i = i + 1;
    }
    proof {
        assert(steps_view(path@).subrange(0, path@.len() as int) =~= steps_view(path@));
    }
    h
}

} // verus!
