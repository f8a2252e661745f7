use vstd::prelude::*;
use crate::json::{chars_lt, key_lt, lemma_key_lt_irrefl, lemma_key_lt_total, lemma_key_lt_trans};
use crate::plugins::PluginSpec;
use crate::strs::{chars_of, str_eq};

verus! {

#[derive(Debug, Clone, Copy, PartialEq, Eq, Structural)]
pub enum NodeKind {
    Plugin,
    InputType,
    Artifact,
    Tag,
}

#[derive(Debug, Clone, Copy, PartialEq, Eq, Structural)]
pub enum EdgeKind {
    Supports,
    SuggestsArtifact,
    Related,
}

/// A node of the plugin link graph.
#[derive(Debug, Clone)]
pub struct LinkNode {
    pub id: String,
    pub kind: NodeKind,
    pub label: String,
    pub meta: Vec<(String, String)>,
}

/// An edge of the plugin link graph.
#[derive(Debug, Clone)]
pub struct LinkEdge {
    pub from: String,
    pub to: String,
    pub kind: EdgeKind,
    pub meta: Vec<(String, String)>,
}

/// Plugins, the input types they support, and the artifacts those suggest.
/// Nodes are kept in id order with unique ids.
#[derive(Debug, Clone)]
pub struct LinkGraph {
    pub nodes: Vec<LinkNode>,
    pub edges: Vec<LinkEdge>,
}

pub open spec fn graph_ok(g: LinkGraph) -> bool {
    (forall|i: int, j: int| 0 <= i < j < g.nodes@.len() ==> key_lt(#[trigger] g.nodes@[i].id@, #[trigger] g.nodes@[j].id@))
        && (forall|i: int, j: int| 0 <= i < j < g.edges@.len() ==> !triple_lt(#[trigger] g.edges@[j], #[trigger] g.edges@[i]))
}

pub open spec fn has_node(g: LinkGraph, id: Seq<char>) -> bool {
    exists|i: int| 0 <= i < g.nodes@.len() && (#[trigger] g.nodes@[i]).id@ == id
}

pub open spec fn has_edge(g: LinkGraph, from: Seq<char>, to: Seq<char>, kind: EdgeKind) -> bool {
    exists|i: int| 0 <= i < g.edges@.len() && (#[trigger] g.edges@[i]).from@ == from && g.edges@[i].to@ == to && g.edges@[i].kind == kind
}

impl LinkGraph {
    pub fn new() -> (r: Self)
        ensures
            graph_ok(r),
            r.nodes@.len() == 0,
            r.edges@.len() == 0,
    {
        LinkGraph { nodes: Vec::new(), edges: Vec::new() }
    }

    /// Adds a node unless one with its id is present.
    pub fn add_node(&mut self, node: LinkNode)
        requires
            graph_ok(*old(self)),
        ensures
            graph_ok(*final(self)),
            has_node(*final(self), node.id@),
            forall|id: Seq<char>| has_node(*old(self), id) ==> #[trigger] has_node(*final(self), id),
            final(self).edges@ == old(self).edges@,
            forall|f: Seq<char>, t: Seq<char>, k: EdgeKind| #[trigger] has_edge(*final(self), f, t, k) == has_edge(*old(self), f, t, k),
            has_node(*old(self), node.id@) ==> final(self).nodes@ == old(self).nodes@,
    {
        let k = chars_of(node.id.as_str());
        let mut pos: usize = 0;
        while pos < self.nodes.len() && chars_lt(&chars_of(self.nodes[pos].id.as_str()), &k)
            invariant
                pos <= self.nodes@.len(),
                k@ == node.id@,
                forall|i: int| 0 <= i < pos ==> key_lt((#[trigger] self.nodes@[i]).id@, k@),
            decreases self.nodes@.len() - pos,
        {
            pos = pos + 1;
        }
        if pos < self.nodes.len() && str_eq(self.nodes[pos].id.as_str(), node.id.as_str()) {
            assert(self.nodes@[pos as int].id@ == node.id@);
            return;
        }
        let ghost s0 = self.nodes@;
        proof {
            assert forall|i: int| pos <= i < s0.len() implies key_lt(k@, (#[trigger] s0[i]).id@) by {
                lemma_key_lt_total(k@, s0[pos as int].id@);
                if i > pos {
                    lemma_key_lt_trans(k@, s0[pos as int].id@, s0[i].id@);
                }
            }
            if has_node(*self, node.id@) {
                let q = choose|q: int| 0 <= q < s0.len() && (#[trigger] s0[q]).id@ == node.id@;
                lemma_key_lt_irrefl(k@);
            }
        }
        let ghost e0 = self.edges@;
        self.nodes.insert(pos, node);
        proof {
            let s1 = self.nodes@;
            assert forall|f: Seq<char>, t: Seq<char>, k: EdgeKind| #[trigger] has_edge(*self, f, t, k) == has_edge(*old(self), f, t, k) by {
                if has_edge(*old(self), f, t, k) {
                    let q = choose|q: int| 0 <= q < e0.len() && (#[trigger] e0[q]).from@ == f && e0[q].to@ == t && e0[q].kind == k;
                    assert(self.edges@[q] == e0[q]);
                }
                if has_edge(*self, f, t, k) {
                    let q = choose|q: int| 0 <= q < self.edges@.len() && (#[trigger] self.edges@[q]).from@ == f && self.edges@[q].to@ == t && self.edges@[q].kind == k;
                    assert(self.edges@[q] == e0[q]);
                }
            }
            assert(s1[pos as int].id@ == k@);
            assert forall|i: int, j: int| 0 <= i < j < s1.len() implies key_lt(#[trigger] s1[i].id@, #[trigger] s1[j].id@) by {
                if j < pos {
                    assert(s1[i] == s0[i] && s1[j] == s0[j]);
                } else if j == pos {
                    assert(s1[i] == s0[i]);
                } else if i == pos {
                    assert(s1[j] == s0[j - 1]);
                } else if i < pos {
                    assert(s1[i] == s0[i] && s1[j] == s0[j - 1]);
                    lemma_key_lt_trans(s0[i].id@, k@, s0[j - 1].id@);
                } else {
                    assert(s1[i] == s0[i - 1] && s1[j] == s0[j - 1]);
                }
            }
            assert forall|id: Seq<char>| has_node(*old(self), id) implies #[trigger] has_node(*self, id) by {
                let q = choose|q: int| 0 <= q < s0.len() && (#[trigger] s0[q]).id@ == id;
                if q < pos {
                    assert(s1[q] == s0[q]);
                } else {
                    assert(s1[q + 1] == s0[q]);
                }
            }
        }
    }

    /// Records an edge, after every edge whose (from, to, kind) does not
    /// exceed its own, so edges stay in (from, to, kind) order and equal
    /// triples keep the order in which they were added.
    pub fn add_edge(&mut self, edge: LinkEdge)
        requires
            graph_ok(*old(self)),
        ensures
            graph_ok(*final(self)),
            final(self).nodes@ == old(self).nodes@,
            forall|id: Seq<char>| #[trigger] has_node(*final(self), id) == has_node(*old(self), id),
            exists|pos: int| 0 <= pos <= old(self).edges@.len() && final(self).edges@ == old(self).edges@.insert(pos, edge)
                && (forall|i: int| 0 <= i < pos ==> !triple_lt(edge, #[trigger] old(self).edges@[i]))
                && (forall|i: int| pos <= i < old(self).edges@.len() ==> triple_lt(edge, #[trigger] old(self).edges@[i])),
            has_edge(*final(self), edge.from@, edge.to@, edge.kind),
            forall|f: Seq<char>, t: Seq<char>, k: EdgeKind| has_edge(*old(self), f, t, k) ==> #[trigger] has_edge(*final(self), f, t, k),
    {
        let ghost e0 = self.edges@;
        let mut pos: usize = 0;
        while pos < self.edges.len() && !triple_lt_exec(&edge, &self.edges[pos])
            invariant
                pos <= self.edges@.len(),
                self.edges@ == e0,
                forall|i: int| 0 <= i < pos ==> !triple_lt(edge, #[trigger] e0[i]),
            decreases self.edges@.len() - pos,
        {
            pos = pos + 1;
        }
        proof {
            assert forall|i: int| pos <= i < e0.len() implies triple_lt(edge, #[trigger] e0[i]) by {
                if i > pos {
                    assert(!triple_lt(e0[i], e0[pos as int]));
                    lemma_triple_total(e0[pos as int], e0[i]);
                    if !(triple_key(e0[pos as int]) == triple_key(e0[i])) {
                        lemma_triple_trans(edge, e0[pos as int], e0[i]);
                    } else {
                        lemma_triple_same(edge, e0[pos as int], e0[i]);
                    }
                }
            }
        }
        let ghost n0 = self.nodes@;
        self.edges.insert(pos, edge);
        proof {
            let e1 = self.edges@;
            assert(e1 == e0.insert(pos as int, edge));
            assert forall|id: Seq<char>| #[trigger] has_node(*self, id) == has_node(*old(self), id) by {
                if has_node(*old(self), id) {
                    let q = choose|q: int| 0 <= q < n0.len() && (#[trigger] n0[q]).id@ == id;
                    assert(self.nodes@[q] == n0[q]);
                }
                if has_node(*self, id) {
                    let q = choose|q: int| 0 <= q < self.nodes@.len() && (#[trigger] self.nodes@[q]).id@ == id;
                    assert(self.nodes@[q] == n0[q]);
                }
            }
            assert(e1[pos as int] == edge);
            assert forall|f: Seq<char>, t: Seq<char>, k: EdgeKind| has_edge(*old(self), f, t, k) implies #[trigger] has_edge(*self, f, t, k) by {
                let q = choose|q: int| 0 <= q < e0.len() && (#[trigger] e0[q]).from@ == f && e0[q].to@ == t && e0[q].kind == k;
                if q < pos {
                    assert(e1[q] == e0[q]);
                } else {
                    assert(e1[q + 1] == e0[q]);
                }
            }
            assert forall|i: int, j: int| 0 <= i < j < e1.len() implies !triple_lt(#[trigger] e1[j], #[trigger] e1[i]) by {
                if i < pos && j == pos {
                    assert(e1[i] == e0[i]);
                    lemma_triple_total(edge, e0[i]);
                    if triple_lt(edge, e0[i]) {
                    } else if triple_lt(e0[i], edge) {
                        lemma_triple_asym(e0[i], edge);
                    }
                } else if i == pos {
                    assert(e1[j] == e0[j - 1]);
                    if triple_lt(e1[j], edge) {
                        lemma_triple_asym(edge, e1[j]);
                    }
                } else if j < pos {
                    assert(e1[i] == e0[i] && e1[j] == e0[j]);
                } else if i < pos {
                    assert(e1[i] == e0[i] && e1[j] == e0[j - 1]);
                    if triple_lt(e0[j - 1], e0[i]) {
                        lemma_triple_trans(edge, e0[j - 1], e0[i]);
                    }
                } else {
                    assert(e1[i] == e0[i - 1] && e1[j] == e0[j - 1]);
                }
            }
        }
    }
}

pub open spec fn kind_rank(k: EdgeKind) -> int {
    match k {
        EdgeKind::Supports => 0,
        EdgeKind::SuggestsArtifact => 1,
        EdgeKind::Related => 2,
    }
}

pub open spec fn triple_key(e: LinkEdge) -> (Seq<char>, Seq<char>, int) {
    (e.from@, e.to@, kind_rank(e.kind))
}

/// Edge order: by from, then to, then kind.
pub open spec fn triple_lt(a: LinkEdge, b: LinkEdge) -> bool {
    key_lt(a.from@, b.from@) || (a.from@ == b.from@ && (key_lt(a.to@, b.to@) || (a.to@ == b.to@ && kind_rank(a.kind)
        < kind_rank(b.kind))))
}

proof fn lemma_triple_asym(a: LinkEdge, b: LinkEdge)
    requires
        triple_lt(a, b),
    ensures
        !triple_lt(b, a),
{
    lemma_key_lt_irrefl(a.from@);
    lemma_key_lt_irrefl(a.to@);
    if key_lt(a.from@, b.from@) && key_lt(b.from@, a.from@) {
        lemma_key_lt_trans(a.from@, b.from@, a.from@);
    }
    if key_lt(a.to@, b.to@) && key_lt(b.to@, a.to@) {
        lemma_key_lt_trans(a.to@, b.to@, a.to@);
    }
}

proof fn lemma_triple_trans(a: LinkEdge, b: LinkEdge, c: LinkEdge)
    requires
        triple_lt(a, b),
        triple_lt(b, c),
    ensures
        triple_lt(a, c),
{
    if key_lt(a.from@, b.from@) && key_lt(b.from@, c.from@) {
        lemma_key_lt_trans(a.from@, b.from@, c.from@);
    }
    if key_lt(a.to@, b.to@) && key_lt(b.to@, c.to@) {
        lemma_key_lt_trans(a.to@, b.to@, c.to@);
    }
}

proof fn lemma_triple_same(a: LinkEdge, b: LinkEdge, c: LinkEdge)
    requires
        triple_lt(a, b),
        triple_key(b) == triple_key(c),
    ensures
        triple_lt(a, c),
{
}

proof fn lemma_triple_total(a: LinkEdge, b: LinkEdge)
    ensures
        triple_key(a) == triple_key(b) || triple_lt(a, b) || triple_lt(b, a),
{
    lemma_key_lt_total(a.from@, b.from@);
    lemma_key_lt_total(a.to@, b.to@);
}

fn rank_exec(k: EdgeKind) -> (r: u8)
    ensures
        r as int == kind_rank(k),
{
    match k {
        EdgeKind::Supports => 0,
        EdgeKind::SuggestsArtifact => 1,
        EdgeKind::Related => 2,
    }
}

fn triple_lt_exec(a: &LinkEdge, b: &LinkEdge) -> (r: bool)
    ensures
        r == triple_lt(*a, *b),
{
    let (af, bf) = (chars_of(a.from.as_str()), chars_of(b.from.as_str()));
    if chars_lt(&af, &bf) {
        return true;
    }
    if !crate::strs::seq_eq(&af, &bf) {
        return false;
    }
    let (at, bt) = (chars_of(a.to.as_str()), chars_of(b.to.as_str()));
    if chars_lt(&at, &bt) {
        return true;
    }
    if !crate::strs::seq_eq(&at, &bt) {
        return false;
    }
    rank_exec(a.kind) < rank_exec(b.kind)
}

/// Every node and edge of `g1` is in `g2`.
pub open spec fn grows(g1: LinkGraph, g2: LinkGraph) -> bool {
    (forall|id: Seq<char>| has_node(g1, id) ==> #[trigger] has_node(g2, id)) && (forall|f: Seq<char>, t: Seq<char>, k: EdgeKind|
        has_edge(g1, f, t, k) ==> #[trigger] has_edge(g2, f, t, k))
}

proof fn lemma_links_mono(g1: LinkGraph, g2: LinkGraph, s: PluginSpec)
    requires
        links_spec(g1, s),
        grows(g1, g2),
    ensures
        links_spec(g2, s),
{
    assert forall|j: int| 0 <= j < s.supports@.len() implies {
        let t = (#[trigger] s.supports@[j])@;
        has_node(g2, "type:"@ + t) && has_edge(g2, "plugin:"@ + s.id.0@, "type:"@ + t, EdgeKind::Supports) && forall|a: int|
            0 <= a < suggestions(t).len() ==> has_edge(g2, "type:"@ + t, "artifact:"@ + #[trigger] suggestions(t)[a], EdgeKind::SuggestsArtifact)
    } by {
        let t = s.supports@[j]@;
        assert(has_node(g1, "type:"@ + t));
        assert forall|a: int| 0 <= a < suggestions(t).len() implies has_edge(g2, "type:"@ + t, "artifact:"@ + #[trigger] suggestions(t)[a], EdgeKind::SuggestsArtifact) by {
            assert(has_edge(g1, "type:"@ + t, "artifact:"@ + suggestions(t)[a], EdgeKind::SuggestsArtifact));
        }
    }
}

/// Artifacts that an input type suggests.
pub open spec fn suggestions(t: Seq<char>) -> Seq<Seq<char>> {
    if t == "repo"@ || t == "openapi"@ || t == "workflow"@ {
        seq!["schema"@, "manifest"@, "proof"@, "ir"@]
    } else if t == "dataset"@ {
        seq!["schema"@, "manifest"@, "proof"@, "fingerprint"@, "ir"@]
    } else {
        Seq::empty()
    }
}

fn suggestions_exec(t: &str) -> (r: Vec<&'static str>)
    ensures
        r@.len() == suggestions(t@).len(),
        forall|i: int| 0 <= i < r@.len() ==> (#[trigger] r@[i])@ == suggestions(t@)[i],
{
    if str_eq(t, "repo") || str_eq(t, "openapi") || str_eq(t, "workflow") {
        vec!["schema", "manifest", "proof", "ir"]
    } else if str_eq(t, "dataset") {
        vec!["schema", "manifest", "proof", "fingerprint", "ir"]
    } else {
        Vec::new()
    }
}

fn cat(a: &str, b: &str) -> (r: String)
    ensures
        r@ == a@ + b@,
{
    String::from_str(a).concat(b)
}

/// Each plugin is linked to the input types it supports, and each type to
/// the artifacts it suggests.
pub open spec fn links_spec(g: LinkGraph, s: PluginSpec) -> bool {
    has_node(g, "plugin:"@ + s.id.0@) && forall|j: int| 0 <= j < s.supports@.len() ==> {
        let t = (#[trigger] s.supports@[j])@;
        has_node(g, "type:"@ + t) && has_edge(g, "plugin:"@ + s.id.0@, "type:"@ + t, EdgeKind::Supports) && forall|a: int|
            0 <= a < suggestions(t).len() ==> has_edge(g, "type:"@ + t, "artifact:"@ + #[trigger] suggestions(t)[a], EdgeKind::SuggestsArtifact)
    }
}

/// Builds the link graph of the plugins.
pub fn build_link_graph(specs: &[PluginSpec]) -> (g: LinkGraph)
    ensures
        graph_ok(g),
        forall|i: int| 0 <= i < specs@.len() ==> links_spec(g, #[trigger] specs@[i]),
{
    let mut g = LinkGraph::new();
    let mut i: usize = 0;
    while i < specs.len()
        invariant
            i <= specs@.len(),
            graph_ok(g),
            forall|q: int| 0 <= q < i ==> links_spec(g, #[trigger] specs@[q]),
        decreases specs@.len() - i,
    {
        let spec = &specs[i];
        let ghost gs = g;
        let plugin_id = cat("plugin:", spec.id.as_str());
        g.add_node(LinkNode {
            id: plugin_id.clone(),
            kind: NodeKind::Plugin,
            label: spec.name.clone(),
            meta: vec![(String::from_str("id"), spec.id.0.clone()), (String::from_str("version"), spec.version.clone())],
        });
        let mut m: usize = 0;
        while m < spec.meta.len()
            invariant
                m <= spec.meta@.len(),
                graph_ok(g),
                has_node(g, plugin_id@),
                grows(gs, g),
            decreases spec.meta@.len() - m,
        {
            let key = spec.meta[m].0.as_str();
            if str_eq(key, "category") || str_eq(key, "tag") {
                let tag_id = cat("tag:", key).concat(":").concat(spec.meta[m].1.as_str());
                g.add_node(LinkNode {
                    id: tag_id.clone(),
                    kind: NodeKind::Tag,
                    label: spec.meta[m].1.clone(),
                    meta: vec![(String::from_str("key"), String::from_str(key))],
                });
                g.add_edge(LinkEdge { from: plugin_id.clone(), to: tag_id, kind: EdgeKind::Related, meta: Vec::new() });
            }
            m = m + 1;
        }
        let mut j: usize = 0;
        while j < spec.supports.len()
            invariant
                j <= spec.supports@.len(),
                graph_ok(g),
                has_node(g, plugin_id@),
                plugin_id@ == "plugin:"@ + spec.id.0@,
                grows(gs, g),
                forall|q: int| 0 <= q < j ==> {
                    let t = (#[trigger] spec.supports@[q])@;
                    has_node(g, "type:"@ + t) && has_edge(g, "plugin:"@ + spec.id.0@, "type:"@ + t, EdgeKind::Supports) && forall|a: int|
                        0 <= a < suggestions(t).len() ==> has_edge(g, "type:"@ + t, "artifact:"@ + #[trigger] suggestions(t)[a], EdgeKind::SuggestsArtifact)
                },
            decreases spec.supports@.len() - j,
        {
            let t = spec.supports[j].as_str();
            let t_id = cat("type:", t);
            let ghost gj = g;
            g.add_node(LinkNode { id: t_id.clone(), kind: NodeKind::InputType, label: spec.supports[j].clone(), meta: Vec::new() });
            g.add_edge(LinkEdge { from: plugin_id.clone(), to: t_id.clone(), kind: EdgeKind::Supports, meta: Vec::new() });
            let arts = suggestions_exec(t);
            let mut a: usize = 0;
            while a < arts.len()
                invariant
                    a <= arts@.len(),
                    arts@.len() == suggestions(t@).len(),
                    forall|x: int| 0 <= x < arts@.len() ==> (#[trigger] arts@[x])@ == suggestions(t@)[x],
                    t_id@ == "type:"@ + t@,
                    graph_ok(g),
                    has_node(g, plugin_id@),
                    has_node(g, t_id@),
                    has_edge(g, plugin_id@, t_id@, EdgeKind::Supports),
                    grows(gj, g),
                    forall|x: int| 0 <= x < a ==> has_edge(g, t_id@, "artifact:"@ + #[trigger] suggestions(t@)[x], EdgeKind::SuggestsArtifact),
                decreases arts@.len() - a,
            {
                let a_id = cat("artifact:", arts[a]);
                g.add_node(LinkNode { id: a_id.clone(), kind: NodeKind::Artifact, label: String::from_str(arts[a]), meta: Vec::new() });
                g.add_edge(LinkEdge {
                    from: t_id.clone(),
                    to: a_id,
                    kind: EdgeKind::SuggestsArtifact,
                    meta: vec![(String::from_str("confidence"), String::from_str("conservative"))],
                });
                a = a + 1;
            }
            proof {
                assert forall|q: int| 0 <= q < j + 1 implies {
                    let tt = (#[trigger] spec.supports@[q])@;
                    has_node(g, "type:"@ + tt) && has_edge(g, "plugin:"@ + spec.id.0@, "type:"@ + tt, EdgeKind::Supports) && forall|b: int|
                        0 <= b < suggestions(tt).len() ==> has_edge(g, "type:"@ + tt, "artifact:"@ + #[trigger] suggestions(tt)[b], EdgeKind::SuggestsArtifact)
                } by {
                    if q < j {
                        let tt = spec.supports@[q]@;
                        assert(has_node(gj, "type:"@ + tt));
                        assert(has_edge(gj, "plugin:"@ + spec.id.0@, "type:"@ + tt, EdgeKind::Supports));
                        assert forall|b: int| 0 <= b < suggestions(tt).len() implies has_edge(g, "type:"@ + tt, "artifact:"@ + #[trigger] suggestions(tt)[b], EdgeKind::SuggestsArtifact) by {
                            assert(has_edge(gj, "type:"@ + tt, "artifact:"@ + suggestions(tt)[b], EdgeKind::SuggestsArtifact));
                        }
                    }
                }
                assert(grows(gs, g));
            }
            j = j + 1;
        }
        proof {
            assert forall|q: int| 0 <= q < i + 1 implies links_spec(g, #[trigger] specs@[q]) by {
                if q < i {
                    lemma_links_mono(gs, g, specs@[q]);
                }
            }
        }
        i = i + 1;
    }
    g
}

} // verus!
