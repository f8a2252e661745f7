use vstd::prelude::*;
use crate::canonical::{decimal_chars, lemma_sorted_pairs_determined, pv, sort_pairs};
use crate::error::{ErrorKind, SigniaError};
use crate::json::{digits, json_clone, key_lt, lemma_key_lt_irrefl, sorted_pairs, strictly_sorted, Json, JsonValue};
use crate::model::{EdgeV1, EntityV1, SchemaV1};
use crate::strs::{chars_of, str_eq, string_of};

verus! {

/// A node of the intermediate representation, known by its business key.
#[derive(Debug)]
pub struct IrNode {
    pub key: String,
    pub node_type: String,
    pub name: String,
    pub attrs: JsonValue,
}

/// An edge between two nodes, given by their keys.
#[derive(Debug)]
pub struct IrEdge {
    pub key: String,
    pub edge_type: String,
    pub from: String,
    pub to: String,
    pub attrs: JsonValue,
}

/// A typed graph of nodes and edges.
#[derive(Debug)]
pub struct IrGraph {
    pub nodes: Vec<IrNode>,
    pub edges: Vec<IrEdge>,
}

/// key, type, name, attributes
pub type NodeView = (Seq<char>, Seq<char>, Seq<char>, Json);

/// key, type, from key, to key, attributes
pub type EdgeView = (Seq<char>, Seq<char>, Seq<char>, Seq<char>, Json);

pub open spec fn node_view(n: IrNode) -> NodeView {
    (n.key@, n.node_type@, n.name@, n.attrs@)
}

pub open spec fn edge_view(e: IrEdge) -> EdgeView {
    (e.key@, e.edge_type@, e.from@, e.to@, e.attrs@)
}

pub open spec fn node_views(g: IrGraph) -> Seq<NodeView> {
    g.nodes@.map_values(|n: IrNode| node_view(n))
}

pub open spec fn edge_views(g: IrGraph) -> Seq<EdgeView> {
    g.edges@.map_values(|e: IrEdge| edge_view(e))
}

pub open spec fn has_node_key(g: IrGraph, k: Seq<char>) -> bool {
    exists|i: int| 0 <= i < g.nodes@.len() && (#[trigger] g.nodes@[i]).key@ == k
}

/// Node keys are unique, edge keys are unique, and every edge joins known nodes.
pub open spec fn ir_valid(g: IrGraph) -> bool {
    (forall|i: int, j: int| 0 <= i < j < g.nodes@.len() ==> (#[trigger] g.nodes@[i]).key@ != (#[trigger] g.nodes@[j]).key@)
        && (forall|i: int, j: int| 0 <= i < j < g.edges@.len() ==> (#[trigger] g.edges@[i]).key@ != (#[trigger] g.edges@[j]).key@)
        && (forall|i: int| 0 <= i < g.edges@.len() ==> has_node_key(g, (#[trigger] g.edges@[i]).from@) && has_node_key(g, g.edges@[i].to@))
}

fn graph_has_node(g: &IrGraph, k: &str) -> (r: bool)
    ensures
        r == has_node_key(*g, k@),
{
    let mut i: usize = 0;
    while i < g.nodes.len()
        invariant
            i <= g.nodes@.len(),
            forall|j: int| 0 <= j < i ==> (#[trigger] g.nodes@[j]).key@ != k@,
        decreases g.nodes@.len() - i,
    {
        if str_eq(g.nodes[i].key.as_str(), k) {
            return true;
        }
        i = i + 1;
    }
    false
}

impl IrGraph {
    /// Checks the graph invariants: `DuplicateId` on a repeated node or edge
    /// key, `DanglingEdge` on an edge to an unknown node.
    pub fn validate_basic(&self) -> (r: Result<(), SigniaError>)
        ensures
            r is Ok <==> ir_valid(*self),
            r is Err ==> r->Err_0.kind == ErrorKind::InvalidArgument,
    {
        let n = self.nodes.len();
        let mut i: usize = 0;
        while i < n
            invariant
                n == self.nodes@.len(),
                i <= n,
                forall|a: int, b: int| 0 <= a < b < n && a < i ==> (#[trigger] self.nodes@[a]).key@ != (#[trigger] self.nodes@[b]).key@,
            decreases n - i,
        {
            let mut j: usize = i + 1;
            while j < n
                invariant
                    n == self.nodes@.len(),
                    i < j <= n,
                    forall|b: int| i < b < j ==> self.nodes@[i as int].key@ != (#[trigger] self.nodes@[b]).key@,
                decreases n - j,
            {
                if str_eq(self.nodes[i].key.as_str(), self.nodes[j].key.as_str()) {
                    return Err(SigniaError::invalid_argument("DuplicateId: node key repeated"));
                }
                j = j + 1;
            }
            i = i + 1;
        }
        let m = self.edges.len();
        let mut i: usize = 0;
        while i < m
            invariant
                m == self.edges@.len(),
                i <= m,
                forall|a: int, b: int| 0 <= a < b < m && a < i ==> (#[trigger] self.edges@[a]).key@ != (#[trigger] self.edges@[b]).key@,
                forall|a: int| 0 <= a < i ==> has_node_key(*self, (#[trigger] self.edges@[a]).from@) && has_node_key(*self, self.edges@[a].to@),
            decreases m - i,
        {
            let mut j: usize = i + 1;
            while j < m
                invariant
                    m == self.edges@.len(),
                    i < j <= m,
                    forall|b: int| i < b < j ==> self.edges@[i as int].key@ != (#[trigger] self.edges@[b]).key@,
                decreases m - j,
            {
                if str_eq(self.edges[i].key.as_str(), self.edges[j].key.as_str()) {
                    return Err(SigniaError::invalid_argument("DuplicateId: edge key repeated"));
                }
                j = j + 1;
            }
            if !graph_has_node(self, self.edges[i].from.as_str()) || !graph_has_node(self, self.edges[i].to.as_str()) {
                return Err(SigniaError::invalid_argument("DanglingEdge: edge endpoint is not a node"));
            }
            i = i + 1;
        }
        Ok(())
    }
}

/// Keys paired with themselves, the form that key sorting works on.
pub open spec fn key_pairs(keys: Seq<Seq<char>>) -> Seq<(Seq<char>, Seq<char>)> {
    keys.map_values(|k: Seq<char>| (k, k))
}

/// Keys in ascending order.
pub open spec fn key_order(keys: Seq<Seq<char>>) -> Seq<Seq<char>> {
    sorted_pairs(key_pairs(keys)).map_values(|p: (Seq<char>, Seq<char>)| p.0)
}

pub open spec fn node_order(g: IrGraph) -> Seq<Seq<char>> {
    key_order(node_views(g).map_values(|n: NodeView| n.0))
}

pub open spec fn edge_order(g: IrGraph) -> Seq<Seq<char>> {
    key_order(edge_views(g).map_values(|e: EdgeView| e.0))
}

/// The node of a set with the given key.
pub open spec fn node_with(s: Set<NodeView>, k: Seq<char>) -> NodeView {
    choose|x: NodeView| s.contains(x) && x.0 == k
}

pub open spec fn edge_with(s: Set<EdgeView>, k: Seq<char>) -> EdgeView {
    choose|x: EdgeView| s.contains(x) && x.0 == k
}

/// Position of a key in an order.
pub open spec fn rank(order: Seq<Seq<char>>, k: Seq<char>) -> int {
    choose|i: int| 0 <= i < order.len() && order[i] == k
}

/// Id given to the element at position `i`: a letter then the decimal ordinal.
pub open spec fn ordinal_id(c: char, i: int) -> Seq<char> {
    seq![c] + digits(i as nat)
}

/// id, type, name, attributes
pub open spec fn entity_rec(e: EntityV1) -> (Seq<char>, Seq<char>, Seq<char>, Json) {
    (e.id@, e.entity_type@, e.name@, e.attrs@)
}

/// id, type, from id, to id, attributes
pub open spec fn edge_rec(e: EdgeV1) -> (Seq<char>, Seq<char>, Seq<char>, Seq<char>, Json) {
    (e.id@, e.edge_type@, e.from@, e.to@, e.attrs@)
}

/// Entity `i` of the schema emitted from the graph.
pub open spec fn emitted_entity(g: IrGraph, i: int) -> (Seq<char>, Seq<char>, Seq<char>, Json) {
    let n = node_with(node_views(g).to_set(), node_order(g)[i]);
    (ordinal_id('n', i), n.1, n.2, n.3)
}

/// Edge `i` of the schema emitted from the graph.
pub open spec fn emitted_edge(g: IrGraph, i: int) -> (Seq<char>, Seq<char>, Seq<char>, Seq<char>, Json) {
    let e = edge_with(edge_views(g).to_set(), edge_order(g)[i]);
    (
        ordinal_id('e', i),
        e.1,
        ordinal_id('n', rank(node_order(g), e.2)),
        ordinal_id('n', rank(node_order(g), e.3)),
        e.4,
    )
}

/// The key orders are sorted arrangements of the keys.
pub open spec fn orders_exist(g: IrGraph) -> bool {
    let kp = key_pairs(node_views(g).map_values(|n: NodeView| n.0));
    let ekp = key_pairs(edge_views(g).map_values(|e: EdgeView| e.0));
    strictly_sorted(sorted_pairs(kp)) && sorted_pairs(kp).to_set() == kp.to_set() && sorted_pairs(kp).len()
        == g.nodes@.len() && strictly_sorted(sorted_pairs(ekp)) && sorted_pairs(ekp).to_set() == ekp.to_set()
        && sorted_pairs(ekp).len() == g.edges@.len()
}

/// The schema emitted from a valid graph: entities in ascending node-key
/// order with ids `n<ordinal>`, edges in ascending edge-key order with ids
/// `e<ordinal>` and endpoints by node id.
pub open spec fn emits(g: IrGraph, kind: Seq<char>, meta: Json, s: SchemaV1) -> bool {
    orders_exist(g) && s.version@ == "v1"@ && s.kind@ == kind && s.meta@ == meta && s.entities@.len() == g.nodes@.len()
        && s.edges@.len() == g.edges@.len() && (forall|i: int| 0 <= i < s.entities@.len() ==> entity_rec(
        #[trigger] s.entities@[i]) == emitted_entity(g, i)) && (forall|i: int| 0 <= i < s.edges@.len()
        ==> edge_rec(#[trigger] s.edges@[i]) == emitted_edge(g, i))
}


proof fn lemma_same_set<A>(a: Seq<A>, b: Seq<A>)
    requires
        a.to_multiset() == b.to_multiset(),
    ensures
        a.to_set() == b.to_set(),
{
    a.to_multiset_ensures();
    b.to_multiset_ensures();
    assert forall|x: A| a.to_set().contains(x) == b.to_set().contains(x) by {
        assert(a.to_set().contains(x) == a.contains(x));
        assert(b.to_set().contains(x) == b.contains(x));
        assert(a.contains(x) == (a.to_multiset().count(x) > 0));
        assert(b.contains(x) == (b.to_multiset().count(x) > 0));
    }
    assert(a.to_set() =~= b.to_set());
}

proof fn lemma_key_order_by_set<V>(a: Seq<V>, b: Seq<V>, key: spec_fn(V) -> Seq<char>)
    requires
        a.to_set() == b.to_set(),
    ensures
        key_order(a.map_values(key)) == key_order(b.map_values(key)),
{
    let pa = key_pairs(a.map_values(key));
    let pb = key_pairs(b.map_values(key));
    assert forall|x: (Seq<char>, Seq<char>)| pa.to_set().contains(x) == pb.to_set().contains(x) by {
        if pa.contains(x) {
            let i = choose|i: int| 0 <= i < pa.len() && pa[i] == x;
            assert(a.contains(a[i]));
            assert(a.to_set().contains(a[i]));
            assert(b.to_set().contains(a[i]));
            let j = choose|j: int| 0 <= j < b.len() && b[j] == a[i];
            assert(pb[j] == x);
        }
        if pb.contains(x) {
            let i = choose|i: int| 0 <= i < pb.len() && pb[i] == x;
            assert(b.contains(b[i]));
            assert(b.to_set().contains(b[i]));
            assert(a.to_set().contains(b[i]));
            let j = choose|j: int| 0 <= j < a.len() && a[j] == b[i];
            assert(pa[j] == x);
        }
    }
    assert(pa.to_set() =~= pb.to_set());
}

/// Id stability under insertion order: graphs holding the same nodes and
/// edges, in any order, emit the same entities and edges.
pub proof fn lemma_emission_order_independent(g1: IrGraph, g2: IrGraph)
    requires
        node_views(g1).to_multiset() == node_views(g2).to_multiset(),
        edge_views(g1).to_multiset() == edge_views(g2).to_multiset(),
    ensures
        node_order(g1) == node_order(g2),
        edge_order(g1) == edge_order(g2),
        forall|i: int| #[trigger] emitted_entity(g1, i) == emitted_entity(g2, i),
        forall|i: int| #[trigger] emitted_edge(g1, i) == emitted_edge(g2, i),
{
    lemma_same_set(node_views(g1), node_views(g2));
    lemma_same_set(edge_views(g1), edge_views(g2));
    lemma_key_order_by_set(node_views(g1), node_views(g2), |n: NodeView| n.0);
    lemma_key_order_by_set(edge_views(g1), edge_views(g2), |e: EdgeView| e.0);
}

/// The same, stated of two emitted schemas.
pub proof fn lemma_schema_order_independent(g1: IrGraph, g2: IrGraph, kind: Seq<char>, meta: Json, s1: SchemaV1, s2: SchemaV1)
    requires
        node_views(g1).to_multiset() == node_views(g2).to_multiset(),
        edge_views(g1).to_multiset() == edge_views(g2).to_multiset(),
        emits(g1, kind, meta, s1),
        emits(g2, kind, meta, s2),
    ensures
        s1.entities@.map_values(|e: EntityV1| entity_rec(e)) == s2.entities@.map_values(|e: EntityV1| entity_rec(e)),
        s1.edges@.map_values(|e: EdgeV1| edge_rec(e)) == s2.edges@.map_values(|e: EdgeV1| edge_rec(e)),
{
    lemma_emission_order_independent(g1, g2);
    node_views(g1).to_multiset_ensures();
    node_views(g2).to_multiset_ensures();
    edge_views(g1).to_multiset_ensures();
    edge_views(g2).to_multiset_ensures();
    let a = s1.entities@.map_values(|e: EntityV1| entity_rec(e));
    let b = s2.entities@.map_values(|e: EntityV1| entity_rec(e));
    assert(a.len() == b.len());
    assert forall|i: int| 0 <= i < a.len() implies a[i] == b[i] by {
        assert(entity_rec(s1.entities@[i]) == emitted_entity(g1, i));
        assert(entity_rec(s2.entities@[i]) == emitted_entity(g2, i));
    }
    assert(a =~= b);
    let c = s1.edges@.map_values(|e: EdgeV1| edge_rec(e));
    let d = s2.edges@.map_values(|e: EdgeV1| edge_rec(e));
    assert(c.len() == d.len());
    assert forall|i: int| 0 <= i < c.len() implies c[i] == d[i] by {
        assert(edge_rec(s1.edges@[i]) == emitted_edge(g1, i));
        assert(edge_rec(s2.edges@[i]) == emitted_edge(g2, i));
    }
    assert(c =~= d);
}

/// Sorted keys, each paired with itself.
fn sorted_keys(keys: Vec<Vec<char>>) -> (r: Vec<(Vec<char>, Vec<char>)>)
    requires
        forall|i: int, j: int| 0 <= i < j < keys@.len() ==> (#[trigger] keys@[i])@ != (#[trigger] keys@[j])@,
    ensures
        pv(r@) == sorted_pairs(key_pairs(keys@.map_values(|k: Vec<char>| k@))),
        strictly_sorted(pv(r@)),
        r@.len() == keys@.len(),
        pv(r@).to_set() == key_pairs(keys@.map_values(|k: Vec<char>| k@)).to_set(),
        forall|i: int| 0 <= i < r@.len() ==> (#[trigger] pv(r@)[i]).0 == pv(r@)[i].1,
{
    let ghost kp = key_pairs(keys@.map_values(|k: Vec<char>| k@));
    let mut pairs: Vec<(Vec<char>, Vec<char>)> = Vec::new();
    let mut i: usize = 0;
    while i < keys.len()
        invariant
            i <= keys@.len(),
            kp == key_pairs(keys@.map_values(|k: Vec<char>| k@)),
            pv(pairs@) == kp.subrange(0, i as int),
        decreases keys@.len() - i,
    {
        let ghost pp = pairs@;
        let a = chars_copy(&keys[i]);
        let b = chars_copy(&keys[i]);
        pairs.push((a, b));
        assert(pv(pairs@) =~= pv(pp).push(kp[i as int]));
        assert(kp.subrange(0, i + 1) =~= kp.subrange(0, i as int).push(kp[i as int]));
        i = i + 1;
    }
    assert(kp.subrange(0, keys@.len() as int) =~= kp);
    assert forall|a: int, b: int| 0 <= a < b < pairs@.len() implies (#[trigger] pairs@[a]).0@ != (#[trigger] pairs@[b]).0@ by {
        assert(pv(pairs@)[a] == kp[a] && pv(pairs@)[b] == kp[b]);
    }
    let sorted = sort_pairs(pairs);
    proof {
        lemma_sorted_pairs_determined(kp, pv(sorted@));
        assert forall|x: (Seq<char>, Seq<char>)| pv(sorted@).to_set().contains(x) == kp.to_set().contains(x) by {
            assert(pv(sorted@).to_set().contains(x) == pv(sorted@).contains(x));
            assert(kp.to_set().contains(x) == kp.contains(x));
        }
        assert(pv(sorted@).to_set() =~= kp.to_set());
        assert forall|q: int| 0 <= q < sorted@.len() implies (#[trigger] pv(sorted@)[q]).0 == pv(sorted@)[q].1 by {
            assert(pv(sorted@).contains(pv(sorted@)[q]));
            assert(kp.contains(pv(sorted@)[q]));
        }
    }
    sorted
}

fn chars_copy(v: &Vec<char>) -> (r: Vec<char>)
    ensures
        r@ == v@,
{
    let mut out: Vec<char> = Vec::new();
    let mut i: usize = 0;
    while i < v.len()
        invariant
            i <= v@.len(),
            out@ == v@.subrange(0, i as int),
        decreases v@.len() - i,
    {
        out.push(v[i]);
        i = i + 1;
    }
    assert(out@ =~= v@);
    out
}

/// Position of `k` among sorted keys.
fn find_key(sorted: &Vec<(Vec<char>, Vec<char>)>, k: &Vec<char>) -> (r: Option<usize>)
    ensures
        r is Some ==> r->0 < sorted@.len() && sorted@[r->0 as int].0@ == k@,
        r is None ==> forall|i: int| 0 <= i < sorted@.len() ==> (#[trigger] sorted@[i]).0@ != k@,
{
    let mut i: usize = 0;
    while i < sorted.len()
        invariant
            i <= sorted@.len(),
            forall|j: int| 0 <= j < i ==> (#[trigger] sorted@[j]).0@ != k@,
        decreases sorted@.len() - i,
    {
        if crate::strs::seq_eq(&sorted[i].0, k) {
            return Some(i);
        }
        i = i + 1;
    }
    None
}

/// Id `c<i>`.
fn ordinal_id_exec(c: char, i: usize) -> (r: String)
    ensures
        r@ == ordinal_id(c, i as int),
{
    let mut v: Vec<char> = Vec::new();
    v.push(c);
    let d = decimal_chars(i as u64);
    let mut k: usize = 0;
    while k < d.len()
        invariant
            k <= d@.len(),
            v@ == seq![c] + d@.subrange(0, k as int),
        decreases d@.len() - k,
    {
        v.push(d[k]);
        k = k + 1;
    }
    assert(d@.subrange(0, d@.len() as int) =~= d@);
    assert(v@ =~= ordinal_id(c, i as int));
    string_of(v.as_slice())
}

/// Emits the schema of a valid graph (see `emits`).
pub fn emit_schema_v1(g: &IrGraph, kind: &str, meta: &JsonValue) -> (r: Result<SchemaV1, SigniaError>)
    ensures
        r is Ok <==> ir_valid(*g),
        r is Ok ==> emits(*g, kind@, meta@, r->Ok_0),
{
    g.validate_basic()?;
    let ghost nv = node_views(*g);
    let ghost ev = edge_views(*g);
    // node keys in ascending order
    let mut nkeys: Vec<Vec<char>> = Vec::new();
    let mut i: usize = 0;
    while i < g.nodes.len()
        invariant
            i <= g.nodes@.len(),
            nkeys@.len() == i,
            forall|q: int| 0 <= q < i ==> (#[trigger] nkeys@[q])@ == g.nodes@[q].key@,
        decreases g.nodes@.len() - i,
    {
        nkeys.push(chars_of(g.nodes[i].key.as_str()));
        i = i + 1;
    }
    assert(nkeys@.map_values(|k: Vec<char>| k@) =~= nv.map_values(|n: NodeView| n.0));
    let norder = sorted_keys(nkeys);
    let ghost no = node_order(*g);
    assert(no =~= pv(norder@).map_values(|p: (Seq<char>, Seq<char>)| p.0));
    let ghost nset = nv.to_set();
    let ghost kp = key_pairs(nv.map_values(|n: NodeView| n.0));
    let mut entities: Vec<EntityV1> = Vec::new();
    let mut k: usize = 0;
    while k < norder.len()
        invariant
            ir_valid(*g),
            nv == node_views(*g),
            nset == nv.to_set(),
            kp == key_pairs(nv.map_values(|n: NodeView| n.0)),
            no == node_order(*g),
            no == pv(norder@).map_values(|p: (Seq<char>, Seq<char>)| p.0),
            pv(norder@).to_set() == kp.to_set(),
            k <= norder@.len(),
            entities@.len() == k,
            forall|q: int| 0 <= q < k ==> entity_rec(#[trigger] entities@[q]) == emitted_entity(*g, q),
        decreases norder@.len() - k,
    {
        let key = &norder[k].0;
        let mut i: usize = 0;
        let mut found: usize = 0;
        let mut ok = false;
        while i < g.nodes.len()
            invariant
                i <= g.nodes@.len(),
                ok ==> found < g.nodes@.len() && g.nodes@[found as int].key@ == key@,
                !ok ==> forall|j: int| 0 <= j < i ==> (#[trigger] g.nodes@[j]).key@ != key@,
            decreases g.nodes@.len() - i,
        {
            if !ok && str_eq(g.nodes[i].key.as_str(), string_of(key.as_slice()).as_str()) {
                found = i;
                ok = true;
            }
            i = i + 1;
        }
        proof {
            let x = pv(norder@)[k as int];
            assert(pv(norder@).contains(x));
            assert(pv(norder@).to_set().contains(x));
            assert(kp.to_set().contains(x));
            let j = choose|j: int| 0 <= j < kp.len() && kp[j] == x;
            assert(nv[j].0 == x.0);
            assert(g.nodes@[j].key@ == key@);
        }
        if !ok {
            proof {
                let x = pv(norder@)[k as int];
                let j = choose|j: int| 0 <= j < kp.len() && kp[j] == x;
                assert(g.nodes@[j].key@ == key@);
            }
            return Err(SigniaError::invariant_violation("emitted key has no node"));
        }
        let n = &g.nodes[found];
        proof {
            let w = node_view(g.nodes@[found as int]);
            assert(nv[found as int] == w);
            assert(nv.contains(w));
            assert(nset.contains(w));
            let c = node_with(nset, no[k as int]);
            assert(nset.contains(c) && c.0 == no[k as int]);
            let j = choose|j: int| 0 <= j < nv.len() && nv[j] == c;
            if j != found {
                if j < found {
                    assert(g.nodes@[j].key@ != g.nodes@[found as int].key@);
                } else {
                    assert(g.nodes@[found as int].key@ != g.nodes@[j].key@);
                }
            }
            assert(c == w);
        }
        let e = EntityV1 {
            id: ordinal_id_exec('n', k),
            entity_type: n.node_type.clone(),
            name: n.name.clone(),
            attrs: json_clone(&n.attrs),
        };
        entities.push(e);
        k = k + 1;
    }
    // edges
    let mut ekeys: Vec<Vec<char>> = Vec::new();
    let mut i: usize = 0;
    while i < g.edges.len()
        invariant
            i <= g.edges@.len(),
            ekeys@.len() == i,
            forall|q: int| 0 <= q < i ==> (#[trigger] ekeys@[q])@ == g.edges@[q].key@,
        decreases g.edges@.len() - i,
    {
        ekeys.push(chars_of(g.edges[i].key.as_str()));
        i = i + 1;
    }
    assert(ekeys@.map_values(|k: Vec<char>| k@) =~= ev.map_values(|e: EdgeView| e.0));
    let eorder = sorted_keys(ekeys);
    let ghost eo = edge_order(*g);
    assert(eo =~= pv(eorder@).map_values(|p: (Seq<char>, Seq<char>)| p.0));
    let ghost eset = ev.to_set();
    let ghost ekp = key_pairs(ev.map_values(|e: EdgeView| e.0));
    let mut edges: Vec<EdgeV1> = Vec::new();
    let mut k: usize = 0;
    while k < eorder.len()
        invariant
            ir_valid(*g),
            nv == node_views(*g),
            ev == edge_views(*g),
            eset == ev.to_set(),
            kp == key_pairs(nv.map_values(|n: NodeView| n.0)),
            ekp == key_pairs(ev.map_values(|e: EdgeView| e.0)),
            no == node_order(*g),
            no == pv(norder@).map_values(|p: (Seq<char>, Seq<char>)| p.0),
            strictly_sorted(pv(norder@)),
            pv(norder@).to_set() == kp.to_set(),
            eo == edge_order(*g),
            eo == pv(eorder@).map_values(|p: (Seq<char>, Seq<char>)| p.0),
            pv(eorder@).to_set() == ekp.to_set(),
            k <= eorder@.len(),
            edges@.len() == k,
            forall|q: int| 0 <= q < k ==> edge_rec(#[trigger] edges@[q]) == emitted_edge(*g, q),
        decreases eorder@.len() - k,
    {
        let key = &eorder[k].0;
        let mut i: usize = 0;
        let mut found: usize = 0;
        let mut ok = false;
        while i < g.edges.len()
            invariant
                i <= g.edges@.len(),
                ok ==> found < g.edges@.len() && g.edges@[found as int].key@ == key@,
                !ok ==> forall|j: int| 0 <= j < i ==> (#[trigger] g.edges@[j]).key@ != key@,
            decreases g.edges@.len() - i,
        {
            if !ok && str_eq(g.edges[i].key.as_str(), string_of(key.as_slice()).as_str()) {
                found = i;
                ok = true;
            }
            i = i + 1;
        }
        proof {
            let x = pv(eorder@)[k as int];
            assert(pv(eorder@).contains(x));
            assert(pv(eorder@).to_set().contains(x));
            assert(ekp.to_set().contains(x));
            let j = choose|j: int| 0 <= j < ekp.len() && ekp[j] == x;
            assert(ev[j].0 == x.0);
            assert(g.edges@[j].key@ == key@);
        }
        if !ok {
            return Err(SigniaError::invariant_violation("emitted key has no edge"));
        }
        let ed = &g.edges[found];
        let from_c = chars_of(ed.from.as_str());
        let to_c = chars_of(ed.to.as_str());
        let fr = find_key(&norder, &from_c);
        let tr = find_key(&norder, &to_c);
        proof {
            assert(has_node_key(*g, g.edges@[found as int].from@));
            assert(has_node_key(*g, g.edges@[found as int].to@));
        }
        let (fi, ti) = match (fr, tr) {
            (Some(a), Some(b)) => (a, b),
            _ => {
                proof {
                    if fr is None {
                        let j = choose|j: int| 0 <= j < g.nodes@.len() && (#[trigger] g.nodes@[j]).key@ == from_c@;
                        assert(kp[j] == (from_c@, from_c@));
                        assert(kp.to_set().contains(kp[j]));
                        assert(pv(norder@).to_set().contains(kp[j]));
                        let q = choose|q: int| 0 <= q < pv(norder@).len() && pv(norder@)[q] == kp[j];
                        assert(norder@[q].0@ == from_c@);
                    } else {
                        let j = choose|j: int| 0 <= j < g.nodes@.len() && (#[trigger] g.nodes@[j]).key@ == to_c@;
                        assert(kp[j] == (to_c@, to_c@));
                        assert(kp.to_set().contains(kp[j]));
                        assert(pv(norder@).to_set().contains(kp[j]));
                        let q = choose|q: int| 0 <= q < pv(norder@).len() && pv(norder@)[q] == kp[j];
                        assert(norder@[q].0@ == to_c@);
                    }
                }
                return Err(SigniaError::invariant_violation("edge endpoint has no node"));
            },
        };
        proof {
            let wv = edge_view(g.edges@[found as int]);
            assert(ev[found as int] == wv);
            assert(ev.contains(wv));
            assert(eset.contains(wv));
            let c = edge_with(eset, eo[k as int]);
            assert(eset.contains(c) && c.0 == eo[k as int]);
            let j = choose|j: int| 0 <= j < ev.len() && ev[j] == c;
            if j != found {
                if j < found {
                    assert(g.edges@[j].key@ != g.edges@[found as int].key@);
                } else {
                    assert(g.edges@[found as int].key@ != g.edges@[j].key@);
                }
            }
            assert(c == wv);
            // ranks are unique in a strictly sorted order
            let rf = rank(no, wv.2);
            assert(no[fi as int] == wv.2);
            assert(0 <= rf < no.len() && no[rf] == wv.2);
            if rf != fi as int {
                if rf < fi {
                    assert(key_lt(pv(norder@)[rf].0, pv(norder@)[fi as int].0));
                } else {
                    assert(key_lt(pv(norder@)[fi as int].0, pv(norder@)[rf].0));
                }
                lemma_key_lt_irrefl(wv.2);
            }
            let rt = rank(no, wv.3);
            assert(no[ti as int] == wv.3);
            if rt != ti as int {
                if rt < ti {
                    assert(key_lt(pv(norder@)[rt].0, pv(norder@)[ti as int].0));
                } else {
                    assert(key_lt(pv(norder@)[ti as int].0, pv(norder@)[rt].0));
                }
                lemma_key_lt_irrefl(wv.3);
            }
        }
        let e = EdgeV1 {
            id: ordinal_id_exec('e', k),
            edge_type: ed.edge_type.clone(),
            from: ordinal_id_exec('n', fi),
            to: ordinal_id_exec('n', ti),
            attrs: json_clone(&ed.attrs),
        };
        edges.push(e);
        k = k + 1;
    }
    Ok(SchemaV1 { version: String::from_str("v1"), kind: String::from_str(kind), meta: json_clone(meta), entities, edges })
}
} // verus!
