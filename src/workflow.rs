use vstd::prelude::*;
use crate::canonical::{encode_value, entries_distinct, lemma_sorted_pairs_determined, pv, sort_pairs};
use crate::error::{ErrorKind, SigniaError};
use crate::hashing::{hash_bytes_hex, hex_of, sha256_of};
use crate::ir::{edge_view, edge_views, ir_valid, node_view, node_views, EdgeView, IrEdge, IrGraph, IrNode, NodeView};
use crate::json::{
    distinct_keys, enc, entries_view, get_field, get_text, items_view, json_get, json_get_str, keys_ok,
    digits, lemma_view_array, lemma_view_object, sorted_pairs, strictly_sorted, utf8_bytes, utf8_of, Json, JsonValue,
};
use crate::strs::{chars_of, seq_eq, str_eq, string_of};
use crate::json::{chars_lt, key_lt, lemma_key_lt_asym, lemma_key_lt_irrefl, lemma_key_lt_total, lemma_key_lt_trans};

verus! {

/// A step of a workflow; `meta` holds its metadata as text, in key order.
#[derive(Debug)]
pub struct WfNode {
    pub id: String,
    pub node_type: String,
    pub meta: Vec<(Vec<char>, Vec<char>)>,
}

/// A link between two steps.
#[derive(Debug)]
pub struct WfEdge {
    pub from: String,
    pub to: String,
    pub kind: String,
    pub label: String,
}

/// A workflow read from its JSON form.
#[derive(Debug)]
pub struct Workflow {
    pub name: String,
    pub version: String,
    pub nodes: Vec<WfNode>,
    pub edges: Vec<WfEdge>,
}

/// Text of a metadata value: a string as it is, anything else in canonical form.
pub open spec fn meta_text(v: Json) -> Seq<char> {
    match v {
        Json::Str(s) => s,
        _ => enc(v),
    }
}

pub open spec fn meta_pairs(e: Seq<(Seq<char>, Json)>) -> Seq<(Seq<char>, Seq<char>)> {
    e.map_values(|x: (Seq<char>, Json)| (x.0, meta_text(x.1)))
}

/// The metadata of a node in key order; empty when absent or not an object.
pub open spec fn node_meta(n: Json) -> Seq<(Seq<char>, Seq<char>)> {
    match get_field(n, "meta"@) {
        Some(Json::Object(e)) => sorted_pairs(meta_pairs(e)),
        _ => Seq::empty(),
    }
}

pub open spec fn wf_node_ok(n: Json) -> bool {
    get_text(n, "id"@) is Some && get_text(n, "type"@) is Some && match get_field(n, "meta"@) {
        Some(Json::Object(e)) => distinct_keys(e) && forall|i: int| 0 <= i < e.len() ==> keys_ok(#[trigger] e[i].1),
        _ => true,
    }
}

pub open spec fn wf_edge_ok(e: Json) -> bool {
    get_text(e, "from"@) is Some && get_text(e, "to"@) is Some && get_text(e, "kind"@) is Some
}

/// The JSON form reads as a workflow: a name, arrays of nodes and edges, and
/// the string fields that each needs.
pub open spec fn wf_readable(v: Json) -> bool {
    get_text(v, "name"@) is Some && is_array(get_field(v, "nodes"@)) && is_array(get_field(v, "edges"@))
        && all_nodes_ok(get_field(v, "nodes"@)->0->Array_0) && all_edges_ok(get_field(v, "edges"@)->0->Array_0)
}

pub open spec fn is_array(f: Option<Json>) -> bool {
    f matches Some(Json::Array(_))
}

pub open spec fn all_nodes_ok(ns: Seq<Json>) -> bool {
    forall|i: int| 0 <= i < ns.len() ==> wf_node_ok(#[trigger] ns[i])
}

pub open spec fn all_edges_ok(es: Seq<Json>) -> bool {
    forall|i: int| 0 <= i < es.len() ==> wf_edge_ok(#[trigger] es[i])
}

/// id, type, metadata
pub type WfNodeView = (Seq<char>, Seq<char>, Seq<(Seq<char>, Seq<char>)>);

/// from, to, kind, label
pub type WfEdgeView = (Seq<char>, Seq<char>, Seq<char>, Seq<char>);

pub open spec fn wf_node_view(n: WfNode) -> WfNodeView {
    (n.id@, n.node_type@, pv(n.meta@))
}

pub open spec fn wf_edge_view(e: WfEdge) -> WfEdgeView {
    (e.from@, e.to@, e.kind@, e.label@)
}

pub open spec fn node_from_json(n: Json) -> WfNodeView {
    (get_text(n, "id"@)->0, get_text(n, "type"@)->0, node_meta(n))
}

pub open spec fn edge_from_json(e: Json) -> WfEdgeView {
    (get_text(e, "from"@)->0, get_text(e, "to"@)->0, get_text(e, "kind"@)->0, match get_text(e, "label"@) {
        Some(l) => l,
        None => Seq::empty(),
    })
}

/// What the workflow read from `v` holds.
pub open spec fn read_from(v: Json, w: Workflow) -> bool {
    &&& wf_readable(v)
    &&& w.name@ == get_text(v, "name"@)->0
    &&& w.version@ == match get_text(v, "version"@) {
        Some(s) => s,
        None => "unknown"@,
    }
    &&& w.nodes@.map_values(|n: WfNode| wf_node_view(n)) == get_field(v, "nodes"@)->0->Array_0.map_values(
        |n: Json| node_from_json(n),
    )
    &&& w.edges@.map_values(|e: WfEdge| wf_edge_view(e)) == get_field(v, "edges"@)->0->Array_0.map_values(
        |e: Json| edge_from_json(e),
    )
}

fn text_of(v: &JsonValue) -> (r: Option<Vec<char>>)
    ensures
        r is Some <==> keys_ok(v@),
        r is Some ==> r->0@ == meta_text(v@),
{
    match v {
        JsonValue::Str(s) => Some(chars_of(s.as_str())),
        _ => {
            let mut out: Vec<char> = Vec::new();
            if encode_value(v, &mut out) {
                assert(out@ =~= enc(v@));
                Some(out)
            } else {
                None
            }
        },
    }
}

fn read_meta(n: &JsonValue) -> (r: Result<Vec<(Vec<char>, Vec<char>)>, SigniaError>)
    ensures
        r is Ok <==> match get_field(n@, "meta"@) {
            Some(Json::Object(e)) => distinct_keys(e) && forall|i: int| 0 <= i < e.len() ==> keys_ok(#[trigger] e[i].1),
            _ => true,
        },
        r is Ok ==> pv(r->Ok_0@) == node_meta(n@),
{
    match json_get(n, "meta") {
        Some(m) => {
            match m {
                JsonValue::Object(e) => {
                    proof {
                        lemma_view_object(*m);
                    }
                    let ghost ents = entries_view(e@);
                    if !entries_distinct(e) {
                        return Err(SigniaError::invalid_argument("workflow.node.meta.duplicate: duplicate metadata key"));
                    }
                    let ghost mp = meta_pairs(ents);
                    let mut pairs: Vec<(Vec<char>, Vec<char>)> = Vec::new();
                    let mut i: usize = 0;
                    while i < e.len()
                        invariant
                            i <= e@.len(),
                            ents == entries_view(e@),
                            mp == meta_pairs(ents),
                            m@ == Json::Object(ents),
                            get_field(n@, "meta"@) == Some(m@),
                            forall|q: int| 0 <= q < i ==> keys_ok(#[trigger] ents[q].1),
                            pv(pairs@) == mp.subrange(0, i as int),
                        decreases e@.len() - i,
                    {
                        let t = match text_of(&e[i].1) {
                            Some(t) => t,
                            None => {
                                assert(!keys_ok(ents[i as int].1));
                                return Err(SigniaError::invalid_argument("workflow.node.meta.invalid: duplicate key inside metadata"));
                            },
                        };
                        let ghost pp = pairs@;
                        pairs.push((chars_of(e[i].0.as_str()), t));
                        assert(pv(pairs@) =~= pv(pp).push(mp[i as int]));
                        assert(mp.subrange(0, i + 1) =~= mp.subrange(0, i as int).push(mp[i as int]));
                        i = i + 1;
                    }
                    assert(mp.subrange(0, e@.len() as int) =~= mp);
                    assert forall|a: int, b: int| 0 <= a < b < pairs@.len() implies (#[trigger] pairs@[a]).0@ != (#[trigger] pairs@[b]).0@ by {
                        assert(pv(pairs@)[a] == mp[a] && pv(pairs@)[b] == mp[b]);
                    }
                    let sorted = sort_pairs(pairs);
                    proof {
                        lemma_sorted_pairs_determined(mp, pv(sorted@));
                    }
                    Ok(sorted)
                },
                _ => Ok(Vec::new()),
            }
        },
        None => Ok(Vec::new()),
    }
}

/// Reads a workflow from its JSON form.
pub fn read_workflow(v: &JsonValue) -> (r: Result<Workflow, SigniaError>)
    ensures
        r is Ok <==> wf_readable(v@),
        r is Ok ==> read_from(v@, r->Ok_0),
{
    let name = match json_get_str(v, "name") {
        Some(s) => s.clone(),
        None => { return Err(SigniaError::invalid_argument("workflow.name: missing or invalid string field")); },
    };
    let version = match json_get_str(v, "version") {
        Some(s) => s.clone(),
        None => String::from_str("unknown"),
    };
    let nodes_json = match json_get(v, "nodes") {
        Some(JsonValue::Array(a)) => a,
        _ => { return Err(SigniaError::invalid_argument("workflow.nodes missing or invalid")); },
    };
    let edges_json = match json_get(v, "edges") {
        Some(JsonValue::Array(a)) => a,
        _ => { return Err(SigniaError::invalid_argument("workflow.edges missing or invalid")); },
    };
    let ghost ns = items_view(nodes_json@);
    let ghost es = items_view(edges_json@);
    proof {
        let nj = get_field(v@, "nodes"@)->0;
        assert(nj == JsonValue::Array(*nodes_json)@);
        lemma_view_array(JsonValue::Array(*nodes_json));
        lemma_view_array(JsonValue::Array(*edges_json));
    }
    let mut nodes: Vec<WfNode> = Vec::new();
    let mut i: usize = 0;
    while i < nodes_json.len()
        invariant
            i <= nodes_json@.len(),
            ns == items_view(nodes_json@),
            get_field(v@, "nodes"@) == Some(Json::Array(ns)),
            nodes@.len() == i,
            forall|q: int| 0 <= q < i ==> wf_node_ok(#[trigger] ns[q]),
            forall|q: int| 0 <= q < i ==> wf_node_view(#[trigger] nodes@[q]) == node_from_json(ns[q]),
        decreases nodes_json@.len() - i,
    {
        let n = &nodes_json[i];
        assert(ns[i as int] == n@);
        let id = match json_get_str(n, "id") {
            Some(s) => s.clone(),
            None => {
                assert(!wf_node_ok(ns[i as int]));
                return Err(SigniaError::invalid_argument("workflow.node.id: missing or invalid string field"));
            },
        };
        let t = match json_get_str(n, "type") {
            Some(s) => s.clone(),
            None => {
                assert(!wf_node_ok(ns[i as int]));
                return Err(SigniaError::invalid_argument("workflow.node.type: missing or invalid string field"));
            },
        };
        let meta = match read_meta(n) {
            Ok(m) => m,
            Err(e) => {
                assert(!wf_node_ok(ns[i as int]));
                return Err(e);
            },
        };
        nodes.push(WfNode { id, node_type: t, meta });
        i = i + 1;
    }
    let mut edges: Vec<WfEdge> = Vec::new();
    let mut i: usize = 0;
    while i < edges_json.len()
        invariant
            i <= edges_json@.len(),
            es == items_view(edges_json@),
            get_field(v@, "edges"@) == Some(Json::Array(es)),
            edges@.len() == i,
            forall|q: int| 0 <= q < i ==> wf_edge_ok(#[trigger] es[q]),
            forall|q: int| 0 <= q < i ==> wf_edge_view(#[trigger] edges@[q]) == edge_from_json(es[q]),
        decreases edges_json@.len() - i,
    {
        let e = &edges_json[i];
        assert(es[i as int] == e@);
        let from = match json_get_str(e, "from") {
            Some(s) => s.clone(),
            None => {
                assert(!wf_edge_ok(es[i as int]));
                return Err(SigniaError::invalid_argument("workflow.edge.from: missing or invalid string field"));
            },
        };
        let to = match json_get_str(e, "to") {
            Some(s) => s.clone(),
            None => {
                assert(!wf_edge_ok(es[i as int]));
                return Err(SigniaError::invalid_argument("workflow.edge.to: missing or invalid string field"));
            },
        };
        let kind = match json_get_str(e, "kind") {
            Some(s) => s.clone(),
            None => {
                assert(!wf_edge_ok(es[i as int]));
                return Err(SigniaError::invalid_argument("workflow.edge.kind: missing or invalid string field"));
            },
        };
        let label = match json_get_str(e, "label") {
            Some(s) => s.clone(),
            None => String::new(),
        };
        edges.push(WfEdge { from, to, kind, label });
        i = i + 1;
    }
    let w = Workflow { name, version, nodes, edges };
    proof {
        assert(w.nodes@.map_values(|n: WfNode| wf_node_view(n)) =~= ns.map_values(|n: Json| node_from_json(n)));
        assert(w.edges@.map_values(|e: WfEdge| wf_edge_view(e)) =~= es.map_values(|e: Json| edge_from_json(e)));
    }
    Ok(w)
}


pub open spec fn kind_ok(k: Seq<char>) -> bool {
    k == "data"@ || k == "control"@ || k == "event"@
}

pub open spec fn has_id(w: Workflow, id: Seq<char>) -> bool {
    exists|i: int| 0 <= i < w.nodes@.len() && (#[trigger] w.nodes@[i]).id@ == id
}

/// Node ids are unique, edges join known nodes, and edge kinds are
/// `data`, `control` or `event`.
pub open spec fn wf_valid(w: Workflow) -> bool {
    (forall|i: int, j: int| 0 <= i < j < w.nodes@.len() ==> (#[trigger] w.nodes@[i]).id@ != (#[trigger] w.nodes@[j]).id@)
        && (forall|k: int| 0 <= k < w.edges@.len() ==> has_id(w, (#[trigger] w.edges@[k]).from@) && has_id(w, w.edges@[k].to@)
        && kind_ok(w.edges@[k].kind@))
}

fn wf_has_id(w: &Workflow, id: &str) -> (r: bool)
    ensures
        r == has_id(*w, id@),
{
    let mut i: usize = 0;
    while i < w.nodes.len()
        invariant
            i <= w.nodes@.len(),
            forall|j: int| 0 <= j < i ==> (#[trigger] w.nodes@[j]).id@ != id@,
        decreases w.nodes@.len() - i,
    {
        if str_eq(w.nodes[i].id.as_str(), id) {
            return true;
        }
        i = i + 1;
    }
    false
}

pub const DUP_MSG: &'static str = "workflow.node.id.duplicate: duplicate workflow node id";
pub const FROM_MSG: &'static str = "workflow.edge.from.unknown: edge.from references unknown node";
pub const TO_MSG: &'static str = "workflow.edge.to.unknown: edge.to references unknown node";
pub const KIND_MSG: &'static str = "workflow.edge.kind.invalid: invalid edge kind";

proof fn lemma_messages_differ()
    ensures
        DUP_MSG@ != FROM_MSG@ && DUP_MSG@ != TO_MSG@ && DUP_MSG@ != KIND_MSG@ && FROM_MSG@ != TO_MSG@
            && FROM_MSG@ != KIND_MSG@ && TO_MSG@ != KIND_MSG@,
{
    reveal_strlit("workflow.node.id.duplicate: duplicate workflow node id");
    reveal_strlit("workflow.edge.from.unknown: edge.from references unknown node");
    reveal_strlit("workflow.edge.to.unknown: edge.to references unknown node");
    reveal_strlit("workflow.edge.kind.invalid: invalid edge kind");
    assert(DUP_MSG@[9] != FROM_MSG@[9]);
    assert(DUP_MSG@[9] != TO_MSG@[9]);
    assert(DUP_MSG@[9] != KIND_MSG@[9]);
    assert(FROM_MSG@[14] != TO_MSG@[14]);
    assert(FROM_MSG@[14] != KIND_MSG@[14]);
    assert(TO_MSG@[14] != KIND_MSG@[14]);
}

pub open spec fn dup_ids(w: Workflow) -> bool {
    exists|i: int, j: int| 0 <= i < j < w.nodes@.len() && (#[trigger] w.nodes@[i]).id@ == (#[trigger] w.nodes@[j]).id@
}

/// Checks a workflow. Errors carry a code at the start of their message:
/// `workflow.node.id.duplicate`, `workflow.edge.from.unknown`,
/// `workflow.edge.to.unknown`, `workflow.edge.kind.invalid`.
pub fn check_workflow(w: &Workflow) -> (r: Result<(), SigniaError>)
    ensures
        r is Ok <==> wf_valid(*w),
        r is Err ==> r->Err_0.kind == ErrorKind::InvalidArgument,
        dup_ids(*w) ==> r is Err && r->Err_0.message@ == DUP_MSG@,
        r is Err && r->Err_0.message@ == DUP_MSG@ ==> dup_ids(*w),
        r is Err && r->Err_0.message@ == KIND_MSG@ ==> exists|k: int| 0 <= k < w.edges@.len() && !kind_ok((#[trigger] w.edges@[k]).kind@),
        r is Err ==> r->Err_0.message@ == DUP_MSG@ || r->Err_0.message@ == FROM_MSG@ || r->Err_0.message@ == TO_MSG@
            || r->Err_0.message@ == KIND_MSG@,
{
    proof {
        lemma_messages_differ();
    }
    let n = w.nodes.len();
    let mut i: usize = 0;
    while i < n
        invariant
            n == w.nodes@.len(),
            i <= n,
            forall|a: int, b: int| 0 <= a < b < n && b < i ==> (#[trigger] w.nodes@[a]).id@ != (#[trigger] w.nodes@[b]).id@,
        decreases n - i,
    {
        let mut j: usize = 0;
        while j < i
            invariant
                n == w.nodes@.len(),
                j <= i < n,
                forall|a: int| 0 <= a < j ==> (#[trigger] w.nodes@[a]).id@ != w.nodes@[i as int].id@,
            decreases i - j,
        {
            if str_eq(w.nodes[j].id.as_str(), w.nodes[i].id.as_str()) {
                proof {
                lemma_messages_differ();
            }
            return Err(SigniaError::invalid_argument(DUP_MSG));
            }
            j = j + 1;
        }
        i = i + 1;
    }
    let m = w.edges.len();
    let mut k: usize = 0;
    while k < m
        invariant
            m == w.edges@.len(),
            k <= m,
            forall|a: int, b: int| 0 <= a < b < w.nodes@.len() ==> (#[trigger] w.nodes@[a]).id@ != (#[trigger] w.nodes@[b]).id@,
            forall|q: int| 0 <= q < k ==> has_id(*w, (#[trigger] w.edges@[q]).from@) && has_id(*w, w.edges@[q].to@)
                && kind_ok(w.edges@[q].kind@),
        decreases m - k,
    {
        let e = &w.edges[k];
        if !wf_has_id(w, e.from.as_str()) {
            proof {
                lemma_messages_differ();
            }
            return Err(SigniaError::invalid_argument(FROM_MSG));
        }
        if !wf_has_id(w, e.to.as_str()) {
            proof {
                lemma_messages_differ();
            }
            return Err(SigniaError::invalid_argument(TO_MSG));
        }
        let kd = e.kind.as_str();
        if !(str_eq(kd, "data") || str_eq(kd, "control") || str_eq(kd, "event")) {
            proof {
                lemma_messages_differ();
            }
            return Err(SigniaError::invalid_argument(KIND_MSG));
        }
        k = k + 1;
    }
    Ok(())
}

/// Edge order: by from, to, kind, then label.
pub open spec fn edge_lt(a: WfEdgeView, b: WfEdgeView) -> bool {
    key_lt(a.0, b.0) || (a.0 == b.0 && (key_lt(a.1, b.1) || (a.1 == b.1 && (key_lt(a.2, b.2) || (a.2 == b.2
        && key_lt(a.3, b.3))))))
}

proof fn lemma_edge_lt_irrefl(a: WfEdgeView)
    ensures
        !edge_lt(a, a),
{
    lemma_key_lt_irrefl(a.0);
    lemma_key_lt_irrefl(a.1);
    lemma_key_lt_irrefl(a.2);
    lemma_key_lt_irrefl(a.3);
}

proof fn lemma_edge_lt_trans(a: WfEdgeView, b: WfEdgeView, c: WfEdgeView)
    requires
        edge_lt(a, b),
        edge_lt(b, c),
    ensures
        edge_lt(a, c),
{
    if key_lt(a.0, b.0) && key_lt(b.0, c.0) {
        lemma_key_lt_trans(a.0, b.0, c.0);
    }
    if key_lt(a.1, b.1) && key_lt(b.1, c.1) {
        lemma_key_lt_trans(a.1, b.1, c.1);
    }
    if key_lt(a.2, b.2) && key_lt(b.2, c.2) {
        lemma_key_lt_trans(a.2, b.2, c.2);
    }
    if key_lt(a.3, b.3) && key_lt(b.3, c.3) {
        lemma_key_lt_trans(a.3, b.3, c.3);
    }
}

proof fn lemma_edge_lt_total(a: WfEdgeView, b: WfEdgeView)
    ensures
        a == b || edge_lt(a, b) || edge_lt(b, a),
{
    lemma_key_lt_total(a.0, b.0);
    lemma_key_lt_total(a.1, b.1);
    lemma_key_lt_total(a.2, b.2);
    lemma_key_lt_total(a.3, b.3);
}

fn edge_lt_exec(a: &WfEdge, b: &WfEdge) -> (r: bool)
    ensures
        r == edge_lt(wf_edge_view(*a), wf_edge_view(*b)),
{
    let (a0, b0) = (chars_of(a.from.as_str()), chars_of(b.from.as_str()));
    if chars_lt(&a0, &b0) {
        return true;
    }
    if !seq_eq(&a0, &b0) {
        return false;
    }
    let (a1, b1) = (chars_of(a.to.as_str()), chars_of(b.to.as_str()));
    if chars_lt(&a1, &b1) {
        return true;
    }
    if !seq_eq(&a1, &b1) {
        return false;
    }
    let (a2, b2) = (chars_of(a.kind.as_str()), chars_of(b.kind.as_str()));
    if chars_lt(&a2, &b2) {
        return true;
    }
    if !seq_eq(&a2, &b2) {
        return false;
    }
    chars_lt(&chars_of(a.label.as_str()), &chars_of(b.label.as_str()))
}

pub open spec fn nodes_sorted(s: Seq<WfNodeView>) -> bool {
    forall|i: int, j: int| 0 <= i < j < s.len() ==> !key_lt(#[trigger] s[j].0, #[trigger] s[i].0)
}

pub open spec fn edges_sorted(s: Seq<WfEdgeView>) -> bool {
    forall|i: int, j: int| 0 <= i < j < s.len() ==> !edge_lt(#[trigger] s[j], #[trigger] s[i])
}

pub open spec fn nviews(s: Seq<WfNode>) -> Seq<WfNodeView> {
    s.map_values(|n: WfNode| wf_node_view(n))
}

pub open spec fn eviews(s: Seq<WfEdge>) -> Seq<WfEdgeView> {
    s.map_values(|e: WfEdge| wf_edge_view(e))
}

fn insert_node(out: &mut Vec<WfNode>, x: WfNode)
    requires
        nodes_sorted(nviews(old(out)@)),
    ensures
        nodes_sorted(nviews(final(out)@)),
        nviews(final(out)@).to_multiset() == nviews(old(out)@).to_multiset().insert(wf_node_view(x)),
{
    let xk = chars_of(x.id.as_str());
    let mut pos: usize = 0;
    while pos < out.len() && !chars_lt(&xk, &chars_of(out[pos].id.as_str()))
        invariant
            pos <= out@.len(),
            xk@ == x.id@,
            forall|i: int| 0 <= i < pos ==> !key_lt(x.id@, (#[trigger] out@[i]).id@),
        decreases out@.len() - pos,
    {
        pos = pos + 1;
    }
    let ghost v0 = nviews(out@);
    let ghost xv = wf_node_view(x);
    proof {
        assert forall|i: int| pos <= i < out@.len() implies key_lt(x.id@, (#[trigger] out@[i]).id@) by {
            if i > pos {
                assert(!key_lt(v0[i].0, v0[pos as int].0));
                lemma_key_lt_total(out@[pos as int].id@, out@[i].id@);
                if out@[pos as int].id@ != out@[i].id@ {
                    lemma_key_lt_trans(x.id@, out@[pos as int].id@, out@[i].id@);
                }
            }
        }
    }
    out.insert(pos, x);
    proof {
        assert(nviews(out@) =~= v0.insert(pos as int, xv));
        vstd::seq_lib::to_multiset_insert(v0, pos as int, xv);
        let v1 = nviews(out@);
        assert forall|i: int, j: int| 0 <= i < j < v1.len() implies !key_lt(#[trigger] v1[j].0, #[trigger] v1[i].0) by {
            if i < pos && j == pos {
                assert(v1[i] == v0[i]);
                lemma_key_lt_total(xv.0, v0[i].0);
                if key_lt(xv.0, v0[i].0) {
                    lemma_key_lt_asym(xv.0, v0[i].0);
                }
            } else if i == pos {
                assert(v1[j] == v0[j - 1]);
                if key_lt(v1[j].0, xv.0) {
                    lemma_key_lt_asym(xv.0, v1[j].0);
                }
            } else if j < pos {
                assert(v1[i] == v0[i] && v1[j] == v0[j]);
            } else if i < pos {
                assert(v1[i] == v0[i] && v1[j] == v0[j - 1]);
            } else {
                assert(v1[i] == v0[i - 1] && v1[j] == v0[j - 1]);
            }
        }
    }
}

fn insert_edge(out: &mut Vec<WfEdge>, x: WfEdge)
    requires
        edges_sorted(eviews(old(out)@)),
    ensures
        edges_sorted(eviews(final(out)@)),
        eviews(final(out)@).to_multiset() == eviews(old(out)@).to_multiset().insert(wf_edge_view(x)),
{
    let mut pos: usize = 0;
    while pos < out.len() && !edge_lt_exec(&x, &out[pos])
        invariant
            pos <= out@.len(),
            forall|i: int| 0 <= i < pos ==> !edge_lt(wf_edge_view(x), wf_edge_view(#[trigger] out@[i])),
        decreases out@.len() - pos,
    {
        pos = pos + 1;
    }
    let ghost v0 = eviews(out@);
    let ghost xv = wf_edge_view(x);
    proof {
        assert forall|i: int| pos <= i < v0.len() implies edge_lt(xv, #[trigger] v0[i]) by {
            if i > pos {
                assert(!edge_lt(v0[i], v0[pos as int]));
                lemma_edge_lt_total(v0[pos as int], v0[i]);
                if v0[pos as int] != v0[i] {
                    lemma_edge_lt_trans(xv, v0[pos as int], v0[i]);
                }
            }
        }
    }
    out.insert(pos, x);
    proof {
        assert(eviews(out@) =~= v0.insert(pos as int, xv));
        vstd::seq_lib::to_multiset_insert(v0, pos as int, xv);
        let v1 = eviews(out@);
        assert forall|i: int, j: int| 0 <= i < j < v1.len() implies !edge_lt(#[trigger] v1[j], #[trigger] v1[i]) by {
            if i < pos && j == pos {
                assert(v1[i] == v0[i]);
                lemma_edge_lt_total(xv, v0[i]);
                if edge_lt(xv, v0[i]) {
                    lemma_edge_lt_trans(xv, v0[i], xv);
                    lemma_edge_lt_irrefl(xv);
                }
            } else if i == pos {
                assert(v1[j] == v0[j - 1]);
                if edge_lt(v1[j], xv) {
                    lemma_edge_lt_trans(xv, v1[j], xv);
                    lemma_edge_lt_irrefl(xv);
                }
            } else if j < pos {
                assert(v1[i] == v0[i] && v1[j] == v0[j]);
            } else if i < pos {
                assert(v1[i] == v0[i] && v1[j] == v0[j - 1]);
            } else {
                assert(v1[i] == v0[i - 1] && v1[j] == v0[j - 1]);
            }
        }
    }
}

/// The workflow with nodes ordered by id and edges by (from, to, kind, label).
pub fn sort_workflow(w: Workflow) -> (r: Workflow)
    ensures
        r.name == w.name,
        r.version == w.version,
        nodes_sorted(nviews(r.nodes@)),
        edges_sorted(eviews(r.edges@)),
        nviews(r.nodes@).to_multiset() == nviews(w.nodes@).to_multiset(),
        eviews(r.edges@).to_multiset() == eviews(w.edges@).to_multiset(),
{
    let Workflow { name, version, nodes, edges } = w;
    let ghost n0 = nodes@;
    let mut rest = nodes;
    let mut out: Vec<WfNode> = Vec::new();
    let ghost mut done: Seq<WfNode> = Seq::empty();
    assert(nviews(out@) =~= nviews(done));
    assert(n0 =~= done + rest@);
    while rest.len() > 0
        invariant
            n0 == done + rest@,
            nodes_sorted(nviews(out@)),
            nviews(out@).to_multiset() == nviews(done).to_multiset(),
        decreases rest@.len(),
    {
        let ghost r0 = rest@;
        let x = rest.remove(0);
        let ghost xv = x;
        insert_node(&mut out, x);
        proof {
            let d1 = done.push(xv);
            assert(nviews(d1) =~= nviews(done).push(wf_node_view(xv)));
            nviews(done).to_multiset_ensures();
            assert(r0 =~= seq![xv] + rest@);
            assert(n0 =~= d1 + rest@);
            done = d1;
        }
    }
    assert(done =~= n0);
    let ghost e0 = edges@;
    let mut erest = edges;
    let mut eout: Vec<WfEdge> = Vec::new();
    let ghost mut edone: Seq<WfEdge> = Seq::empty();
    assert(eviews(eout@) =~= eviews(edone));
    assert(e0 =~= edone + erest@);
    while erest.len() > 0
        invariant
            e0 == edone + erest@,
            edges_sorted(eviews(eout@)),
            eviews(eout@).to_multiset() == eviews(edone).to_multiset(),
        decreases erest@.len(),
    {
        let ghost r0 = erest@;
        let x = erest.remove(0);
        let ghost xv = x;
        insert_edge(&mut eout, x);
        proof {
            let d1 = edone.push(xv);
            assert(eviews(d1) =~= eviews(edone).push(wf_edge_view(xv)));
            eviews(edone).to_multiset_ensures();
            assert(r0 =~= seq![xv] + erest@);
            assert(e0 =~= d1 + erest@);
            edone = d1;
        }
    }
    assert(edone =~= e0);
    Workflow { name, version, nodes: out, edges: eout }
}

pub open spec fn meta_lines(m: Seq<(Seq<char>, Seq<char>)>) -> Seq<char>
    decreases m.len(),
{
    if m.len() == 0 {
        Seq::empty()
    } else {
        meta_lines(m.drop_last()) + "meta\t"@ + m.last().0 + "="@ + m.last().1 + "\n"@
    }
}

pub open spec fn node_lines(ns: Seq<WfNodeView>) -> Seq<char>
    decreases ns.len(),
{
    if ns.len() == 0 {
        Seq::empty()
    } else {
        node_lines(ns.drop_last()) + ns.last().0 + "\t"@ + ns.last().1 + "\n"@ + meta_lines(ns.last().2)
    }
}

pub open spec fn edge_lines(es: Seq<WfEdgeView>) -> Seq<char>
    decreases es.len(),
{
    if es.len() == 0 {
        Seq::empty()
    } else {
        edge_lines(es.drop_last()) + es.last().0 + "\t"@ + es.last().1 + "\t"@ + es.last().2 + "\t"@ + es.last().3
            + "\n"@
    }
}

/// The tabular text that a workflow fingerprint hashes.
pub open spec fn fp_text(name: Seq<char>, version: Seq<char>, ns: Seq<WfNodeView>, es: Seq<WfEdgeView>) -> Seq<char> {
    "workflow\n"@ + name + "\n"@ + version + "\n"@ + "nodes\n"@ + node_lines(ns) + "edges\n"@ + edge_lines(es)
}

fn push_str(out: &mut Vec<char>, s: &str)
    ensures
        final(out)@ == old(out)@ + s@,
{
    let v = chars_of(s);
    push_vec(out, &v);
}

fn push_vec(out: &mut Vec<char>, v: &Vec<char>)
    ensures
        final(out)@ == old(out)@ + v@,
{
    let mut i: usize = 0;
    while i < v.len()
        invariant
            i <= v@.len(),
            out@ == old(out)@ + v@.subrange(0, i as int),
        decreases v@.len() - i,
    {
        out.push(v[i]);
        i = i + 1;
    }
    assert(v@.subrange(0, v@.len() as int) =~= v@);
}

/// Hex SHA-256 of the workflow's tabular text, in the order given.
pub fn workflow_fingerprint(w: &Workflow) -> (r: String)
    ensures
        r@ == hex_of(sha256_of(utf8_of(fp_text(w.name@, w.version@, nviews(w.nodes@), eviews(w.edges@))))),
{
    let mut out: Vec<char> = Vec::new();
    push_str(&mut out, "workflow\n");
    push_str(&mut out, w.name.as_str());
    push_str(&mut out, "\n");
    push_str(&mut out, w.version.as_str());
    push_str(&mut out, "\n");
    push_str(&mut out, "nodes\n");
    let ghost head = out@;
    let mut i: usize = 0;
    while i < w.nodes.len()
        invariant
            i <= w.nodes@.len(),
            out@ == head + node_lines(nviews(w.nodes@.subrange(0, i as int))),
        decreases w.nodes@.len() - i,
    {
        let n = &w.nodes[i];
        let ghost o0 = out@;
        push_str(&mut out, n.id.as_str());
        push_str(&mut out, "\t");
        push_str(&mut out, n.node_type.as_str());
        push_str(&mut out, "\n");
        let ghost o1 = out@;
        let mut k: usize = 0;
        while k < n.meta.len()
            invariant
                k <= n.meta@.len(),
                out@ == o1 + meta_lines(pv(n.meta@).subrange(0, k as int)),
            decreases n.meta@.len() - k,
        {
            let ghost o2 = out@;
            push_str(&mut out, "meta\t");
            push_vec(&mut out, &n.meta[k].0);
            push_str(&mut out, "=");
            push_vec(&mut out, &n.meta[k].1);
            push_str(&mut out, "\n");
            proof {
                let m = pv(n.meta@).subrange(0, k + 1);
                assert(m.drop_last() =~= pv(n.meta@).subrange(0, k as int));
                assert(out@ =~= o1 + meta_lines(m));
            }
            k = k + 1;
        }
        proof {
            assert(pv(n.meta@).subrange(0, n.meta@.len() as int) =~= pv(n.meta@));
            let ns = nviews(w.nodes@.subrange(0, i + 1));
            assert(ns.drop_last() =~= nviews(w.nodes@.subrange(0, i as int)));
            assert(ns.last() == wf_node_view(w.nodes@[i as int]));
            assert(out@ =~= head + node_lines(ns));
        }
        i = i + 1;
    }
    assert(w.nodes@.subrange(0, w.nodes@.len() as int) =~= w.nodes@);
    push_str(&mut out, "edges\n");
    let ghost mid = out@;
    let mut i: usize = 0;
    while i < w.edges.len()
        invariant
            i <= w.edges@.len(),
            out@ == mid + edge_lines(eviews(w.edges@.subrange(0, i as int))),
        decreases w.edges@.len() - i,
    {
        let e = &w.edges[i];
        push_str(&mut out, e.from.as_str());
        push_str(&mut out, "\t");
        push_str(&mut out, e.to.as_str());
        push_str(&mut out, "\t");
        push_str(&mut out, e.kind.as_str());
        push_str(&mut out, "\t");
        push_str(&mut out, e.label.as_str());
        push_str(&mut out, "\n");
        proof {
            let es = eviews(w.edges@.subrange(0, i + 1));
            assert(es.drop_last() =~= eviews(w.edges@.subrange(0, i as int)));
            assert(es.last() == wf_edge_view(w.edges@[i as int]));
            assert(out@ =~= mid + edge_lines(es));
        }
        i = i + 1;
    }
    assert(w.edges@.subrange(0, w.edges@.len() as int) =~= w.edges@);
    assert(out@ =~= fp_text(w.name@, w.version@, nviews(w.nodes@), eviews(w.edges@)));
    let text = string_of(out.as_slice());
    hash_bytes_hex(utf8_bytes(text.as_str()).as_slice())
}

/// A fingerprint of the workflow: the hash of its tabular text with nodes
/// ordered by id and edges by (from, to, kind, label).
pub open spec fn is_fingerprint(w: Workflow, f: Seq<char>) -> bool {
    exists|ns: Seq<WfNodeView>, es: Seq<WfEdgeView>|
        nodes_sorted(ns) && edges_sorted(es) && ns.to_multiset() == nviews(w.nodes@).to_multiset()
            && es.to_multiset() == eviews(w.edges@).to_multiset() && f == hex_of(sha256_of(utf8_of(
            #[trigger] fp_text(w.name@, w.version@, ns, es),
        )))
}

/// What a workflow compiles to.
#[derive(Debug)]
pub struct WorkflowOutput {
    pub ir: IrGraph,
    pub fingerprint: String,
}

fn ir_node(key: String, t: &str, name: String) -> (r: IrNode)
    ensures
        node_view(r) == gn(key@, t@, name@),
{
    IrNode { key, node_type: String::from_str(t), name, attrs: JsonValue::Null }
}

fn ir_edge(key: String, t: &str, from: String, to: String) -> (r: IrEdge)
    ensures
        edge_view(r) == ge(key@, t@, from@, to@),
{
    IrEdge { key, edge_type: String::from_str(t), from, to, attrs: JsonValue::Null }
}

fn cat(a: &str, b: &str) -> (r: String)
    ensures
        r@ == a@ + b@,
{
    String::from_str(a).concat(b)
}

fn ord(i: usize) -> (r: String)
    ensures
        r@ == digits(i as nat),
{
    string_of(crate::canonical::decimal_chars(i as u64).as_slice())
}

/// A graph node with no attributes.
pub open spec fn gn(key: Seq<char>, t: Seq<char>, name: Seq<char>) -> NodeView {
    (key, t, name, Json::Null)
}

/// A graph edge with no attributes.
pub open spec fn ge(key: Seq<char>, t: Seq<char>, from: Seq<char>, to: Seq<char>) -> EdgeView {
    (key, t, from, to, Json::Null)
}

pub open spec fn meta_key(i: int, k: int) -> Seq<char> {
    "meta:"@ + digits(i as nat) + ":"@ + digits(k as nat)
}

pub open spec fn meta_nodes(i: int, m: Seq<(Seq<char>, Seq<char>)>) -> Seq<NodeView>
    decreases m.len(),
{
    if m.len() == 0 {
        Seq::empty()
    } else {
        meta_nodes(i, m.drop_last()) + seq![gn(meta_key(i, m.len() - 1), "meta"@, m.last().0 + "="@ + m.last().1)]
    }
}

pub open spec fn meta_edges(i: int, id: Seq<char>, m: Seq<(Seq<char>, Seq<char>)>) -> Seq<EdgeView>
    decreases m.len(),
{
    if m.len() == 0 {
        Seq::empty()
    } else {
        meta_edges(i, id, m.drop_last()) + seq![ge(meta_key(i, m.len() - 1), "meta"@, "node:"@ + id, meta_key(i, m.len() - 1))]
    }
}

/// Nodes of the steps: each step, its type, and its metadata.
pub open spec fn step_nodes(ns: Seq<WfNodeView>) -> Seq<NodeView>
    decreases ns.len(),
{
    if ns.len() == 0 {
        Seq::empty()
    } else {
        let n = ns.last();
        step_nodes(ns.drop_last()) + seq![gn("node:"@ + n.0, "node"@, n.0 + ":"@ + n.1), gn("type:"@ + n.0, "type"@, n.1)]
            + meta_nodes(ns.len() - 1, n.2)
    }
}

/// Edges of the steps: step to type, step to metadata, root to step.
pub open spec fn step_edges(ns: Seq<WfNodeView>) -> Seq<EdgeView>
    decreases ns.len(),
{
    if ns.len() == 0 {
        Seq::empty()
    } else {
        let n = ns.last();
        step_edges(ns.drop_last()) + seq![ge("has:node:"@ + n.0, "has"@, "node:"@ + n.0, "type:"@ + n.0)]
            + meta_edges(ns.len() - 1, n.0, n.2) + seq![ge("contains:node:"@ + n.0, "contains"@, "workflow"@, "node:"@ + n.0)]
    }
}

/// Nodes of the links: each link and its kind.
pub open spec fn link_nodes(es: Seq<WfEdgeView>) -> Seq<NodeView>
    decreases es.len(),
{
    if es.len() == 0 {
        Seq::empty()
    } else {
        let e = es.last();
        let j = digits((es.len() - 1) as nat);
        link_nodes(es.drop_last()) + seq![
            gn("edge:"@ + j, "edge"@, e.0 + "->"@ + e.1 + ":"@ + e.2 + ":"@ + e.3),
            gn("kind:"@ + j, "kind"@, e.2),
        ]
    }
}

/// Edges of the links: root to link, link to both steps, link to kind.
pub open spec fn link_edges(es: Seq<WfEdgeView>) -> Seq<EdgeView>
    decreases es.len(),
{
    if es.len() == 0 {
        Seq::empty()
    } else {
        let e = es.last();
        let j = digits((es.len() - 1) as nat);
        link_edges(es.drop_last()) + seq![
            ge("contains:edge:"@ + j, "contains"@, "workflow"@, "edge:"@ + j),
            ge("from:"@ + j, "from"@, "edge:"@ + j, "node:"@ + e.0),
            ge("to:"@ + j, "to"@, "edge:"@ + j, "node:"@ + e.1),
            ge("has:edge:"@ + j, "has"@, "edge:"@ + j, "kind:"@ + j),
        ]
    }
}

/// The graph of a workflow whose steps and links are given in order: a
/// `workflow` root and its `version`, the steps, then the links.
pub open spec fn wf_graph_nodes(name: Seq<char>, version: Seq<char>, ns: Seq<WfNodeView>, es: Seq<WfEdgeView>) -> Seq<NodeView> {
    seq![gn("workflow"@, "workflow"@, name), gn("version"@, "version"@, version)] + step_nodes(ns) + link_nodes(es)
}

pub open spec fn wf_graph_edges(ns: Seq<WfNodeView>, es: Seq<WfEdgeView>) -> Seq<EdgeView> {
    seq![ge("version"@, "version"@, "workflow"@, "version"@)] + step_edges(ns) + link_edges(es)
}

/// Builds the graph of a workflow (see `wf_graph_nodes`, `wf_graph_edges`).
fn workflow_graph(w: &Workflow) -> (g: IrGraph)
    ensures
        node_views(g) == wf_graph_nodes(w.name@, w.version@, nviews(w.nodes@), eviews(w.edges@)),
        edge_views(g) == wf_graph_edges(nviews(w.nodes@), eviews(w.edges@)),
{
    let ghost ns = nviews(w.nodes@);
    let ghost es = eviews(w.edges@);
    let mut nodes: Vec<IrNode> = Vec::new();
    let mut edges: Vec<IrEdge> = Vec::new();
    nodes.push(ir_node(String::from_str("workflow"), "workflow", w.name.clone()));
    nodes.push(ir_node(String::from_str("version"), "version", w.version.clone()));
    edges.push(ir_edge(String::from_str("version"), "version", String::from_str("workflow"), String::from_str("version")));
    let ghost hn = seq![gn("workflow"@, "workflow"@, w.name@), gn("version"@, "version"@, w.version@)];
    let ghost he = seq![ge("version"@, "version"@, "workflow"@, "version"@)];
    assert(nviews_ir(nodes@) =~= hn + step_nodes(ns.subrange(0, 0)));
    assert(eviews_ir(edges@) =~= he + step_edges(ns.subrange(0, 0)));
    let mut i: usize = 0;
    while i < w.nodes.len()
        invariant
            i <= w.nodes@.len(),
            ns == nviews(w.nodes@),
            hn == seq![gn("workflow"@, "workflow"@, w.name@), gn("version"@, "version"@, w.version@)],
            he == seq![ge("version"@, "version"@, "workflow"@, "version"@)],
            nviews_ir(nodes@) == hn + step_nodes(ns.subrange(0, i as int)),
            eviews_ir(edges@) == he + step_edges(ns.subrange(0, i as int)),
        decreases w.nodes@.len() - i,
    {
        let n = &w.nodes[i];
        let ghost nn = ns[i as int];
        assert(nn == wf_node_view(*n));
        let nk = cat("node:", n.id.as_str());
        let tk = cat("type:", n.id.as_str());
        let label = cat(n.id.as_str(), ":").concat(n.node_type.as_str());
        let ghost n0 = nviews_ir(nodes@);
        let ghost e0 = eviews_ir(edges@);
        nodes.push(ir_node(nk.clone(), "node", label));
        nodes.push(ir_node(tk.clone(), "type", n.node_type.clone()));
        edges.push(ir_edge(cat("has:node:", n.id.as_str()), "has", nk.clone(), tk));
        assert(nviews_ir(nodes@) =~= n0 + seq![gn("node:"@ + nn.0, "node"@, nn.0 + ":"@ + nn.1), gn("type:"@ + nn.0, "type"@, nn.1)]
            + meta_nodes(i as int, nn.2.subrange(0, 0)));
        assert(eviews_ir(edges@) =~= e0 + seq![ge("has:node:"@ + nn.0, "has"@, "node:"@ + nn.0, "type:"@ + nn.0)]
            + meta_edges(i as int, nn.0, nn.2.subrange(0, 0)));
        let mut k: usize = 0;
        while k < n.meta.len()
            invariant
                k <= n.meta@.len(),
                nn == wf_node_view(*n),
                nk@ == "node:"@ + nn.0,
                nviews_ir(nodes@) == n0 + seq![gn("node:"@ + nn.0, "node"@, nn.0 + ":"@ + nn.1), gn("type:"@ + nn.0, "type"@, nn.1)]
                    + meta_nodes(i as int, nn.2.subrange(0, k as int)),
                eviews_ir(edges@) == e0 + seq![ge("has:node:"@ + nn.0, "has"@, "node:"@ + nn.0, "type:"@ + nn.0)]
                    + meta_edges(i as int, nn.0, nn.2.subrange(0, k as int)),
            decreases n.meta@.len() - k,
        {
            let mk = cat("meta:", ord(i).as_str()).concat(":").concat(ord(k).as_str());
            let mv = string_of(n.meta[k].0.as_slice()).concat("=").concat(string_of(n.meta[k].1.as_slice()).as_str());
            let ghost n1 = nviews_ir(nodes@);
            let ghost e1 = eviews_ir(edges@);
            nodes.push(ir_node(mk.clone(), "meta", mv));
            edges.push(ir_edge(mk.clone(), "meta", nk.clone(), mk));
            proof {
                let m1 = nn.2.subrange(0, k + 1);
                assert(m1.drop_last() =~= nn.2.subrange(0, k as int));
                assert(m1.last() == pv(n.meta@)[k as int]);
                assert(nviews_ir(nodes@) =~= n1.push(gn(meta_key(i as int, k as int), "meta"@, m1.last().0 + "="@ + m1.last().1)));
                assert(eviews_ir(edges@) =~= e1.push(ge(meta_key(i as int, k as int), "meta"@, "node:"@ + nn.0, meta_key(i as int, k as int))));
            }
            k = k + 1;
        }
        let ghost e2 = eviews_ir(edges@);
        edges.push(ir_edge(cat("contains:node:", n.id.as_str()), "contains", String::from_str("workflow"), nk));
        proof {
            assert(eviews_ir(edges@) =~= e2.push(ge("contains:node:"@ + nn.0, "contains"@, "workflow"@, "node:"@ + nn.0)));
            assert(nn.2.subrange(0, nn.2.len() as int) =~= nn.2);
            assert(e2 == e0 + seq![ge("has:node:"@ + nn.0, "has"@, "node:"@ + nn.0, "type:"@ + nn.0)] + meta_edges(i as int, nn.0, nn.2));
            let p1 = ns.subrange(0, i + 1);
            assert(p1.drop_last() =~= ns.subrange(0, i as int));
            assert(p1.last() == nn);
            assert(nviews_ir(nodes@) =~= hn + step_nodes(p1));
            assert(eviews_ir(edges@) =~= he + step_edges(p1));
        }
        i = i + 1;
    }
    assert(ns.subrange(0, ns.len() as int) =~= ns);
    let ghost hn2 = hn + step_nodes(ns);
    let ghost he2 = he + step_edges(ns);
    assert(nviews_ir(nodes@) =~= hn2 + link_nodes(es.subrange(0, 0)));
    assert(eviews_ir(edges@) =~= he2 + link_edges(es.subrange(0, 0)));
    let mut j: usize = 0;
    while j < w.edges.len()
        invariant
            j <= w.edges@.len(),
            es == eviews(w.edges@),
            nviews_ir(nodes@) == hn2 + link_nodes(es.subrange(0, j as int)),
            eviews_ir(edges@) == he2 + link_edges(es.subrange(0, j as int)),
        decreases w.edges@.len() - j,
    {
        let e = &w.edges[j];
        let ghost ee = es[j as int];
        assert(ee == wf_edge_view(*e));
        let o = ord(j);
        let ek = cat("edge:", o.as_str());
        let kk = cat("kind:", o.as_str());
        let label = cat(e.from.as_str(), "->").concat(e.to.as_str()).concat(":").concat(e.kind.as_str()).concat(":")
            .concat(e.label.as_str());
        let ghost n0 = nviews_ir(nodes@);
        let ghost e0 = eviews_ir(edges@);
        nodes.push(ir_node(ek.clone(), "edge", label));
        nodes.push(ir_node(kk.clone(), "kind", e.kind.clone()));
        edges.push(ir_edge(cat("contains:edge:", o.as_str()), "contains", String::from_str("workflow"), ek.clone()));
        edges.push(ir_edge(cat("from:", o.as_str()), "from", ek.clone(), cat("node:", e.from.as_str())));
        edges.push(ir_edge(cat("to:", o.as_str()), "to", ek.clone(), cat("node:", e.to.as_str())));
        edges.push(ir_edge(cat("has:edge:", o.as_str()), "has", ek, kk));
        proof {
            let jj = digits(j as nat);
            assert(nviews_ir(nodes@) =~= n0.push(gn("edge:"@ + jj, "edge"@, ee.0 + "->"@ + ee.1 + ":"@ + ee.2 + ":"@ + ee.3)).push(
                gn("kind:"@ + jj, "kind"@, ee.2)));
            assert(eviews_ir(edges@) =~= e0.push(ge("contains:edge:"@ + jj, "contains"@, "workflow"@, "edge:"@ + jj)).push(
                ge("from:"@ + jj, "from"@, "edge:"@ + jj, "node:"@ + ee.0)).push(ge("to:"@ + jj, "to"@, "edge:"@ + jj, "node:"@ + ee.1)).push(
                ge("has:edge:"@ + jj, "has"@, "edge:"@ + jj, "kind:"@ + jj)));
            let p1 = es.subrange(0, j + 1);
            assert(p1.drop_last() =~= es.subrange(0, j as int));
            assert(p1.last() == ee);
            assert(nviews_ir(nodes@) =~= hn2 + link_nodes(p1));
            assert(eviews_ir(edges@) =~= he2 + link_edges(p1));
        }
        j = j + 1;
    }
    assert(es.subrange(0, es.len() as int) =~= es);
    let g = IrGraph { nodes, edges };
    assert(node_views(g) =~= nviews_ir(g.nodes@));
    assert(edge_views(g) =~= eviews_ir(g.edges@));
    g
}

pub open spec fn nviews_ir(s: Seq<IrNode>) -> Seq<NodeView> {
    s.map_values(|n: IrNode| node_view(n))
}

pub open spec fn eviews_ir(s: Seq<IrEdge>) -> Seq<EdgeView> {
    s.map_values(|e: IrEdge| edge_view(e))
}

/// What a workflow run produces from the workflow read as `w`: steps and
/// links ordered (`ns`, `es`), the fingerprint of that order, and its graph.
pub open spec fn wf_output(w: Workflow, ns: Seq<WfNodeView>, es: Seq<WfEdgeView>, out: WorkflowOutput) -> bool {
    &&& nodes_sorted(ns) && ns.to_multiset() == nviews(w.nodes@).to_multiset()
    &&& edges_sorted(es) && es.to_multiset() == eviews(w.edges@).to_multiset()
    &&& out.fingerprint@ == hex_of(sha256_of(utf8_of(fp_text(w.name@, w.version@, ns, es))))
    &&& node_views(out.ir) == wf_graph_nodes(w.name@, w.version@, ns, es)
    &&& edge_views(out.ir) == wf_graph_edges(ns, es)
}

/// Runs the workflow producer on its JSON form: reads and checks the
/// workflow, orders it, fingerprints it and builds its graph.
pub fn execute_workflow(v: &JsonValue) -> (r: Result<WorkflowOutput, SigniaError>)
    ensures
        r is Ok <==> exists|w: Workflow| read_from(v@, w) && wf_valid(w),
        r is Ok ==> exists|w: Workflow, ns: Seq<WfNodeView>, es: Seq<WfEdgeView>|
            read_from(v@, w) && wf_valid(w) && #[trigger] wf_output(w, ns, es, r->Ok_0),
        r is Ok ==> exists|w: Workflow| read_from(v@, w) && wf_valid(w) && is_fingerprint(w, r->Ok_0.fingerprint@),
{
    let w = read_workflow(v)?;
    match check_workflow(&w) {
        Ok(()) => {},
        Err(e) => {
            proof {
                assert forall|w2: Workflow| read_from(v@, w2) implies !wf_valid(w2) by {
                    lemma_same_reading(v@, w, w2);
                }
            }
            return Err(e);
        },
    }
    let ghost w0 = w;
    let sorted = sort_workflow(w);
    let fingerprint = workflow_fingerprint(&sorted);
    let ir = workflow_graph(&sorted);
    let out = WorkflowOutput { ir, fingerprint };
    proof {
        let ns = nviews(sorted.nodes@);
        let es = eviews(sorted.edges@);
        assert(fp_text(w0.name@, w0.version@, ns, es) == fp_text(sorted.name@, sorted.version@, ns, es));
        assert(is_fingerprint(w0, out.fingerprint@));
        assert(wf_output(w0, ns, es, out));
        assert(read_from(v@, w0));
        assert(wf_valid(w0));
        assert(exists|w: Workflow, ns: Seq<WfNodeView>, es: Seq<WfEdgeView>|
            read_from(v@, w) && wf_valid(w) && #[trigger] wf_output(w, ns, es, out));
    }
    let res: Result<WorkflowOutput, SigniaError> = Ok(out);
    assert(res->Ok_0 == out);
    res
}

/// A workflow fit to publish: valid, named, with at least one node, and no
/// blank node id or type.
pub open spec fn wf_complete(w: Workflow) -> bool {
    wf_valid(w) && !crate::verify::blank(w.name@) && w.nodes@.len() > 0 && forall|i: int|
        0 <= i < w.nodes@.len() ==> !crate::verify::blank((#[trigger] w.nodes@[i]).id@) && !crate::verify::blank(
            w.nodes@[i].node_type@,
        )
}

proof fn lemma_same_reading(v: Json, w1: Workflow, w2: Workflow)
    requires
        read_from(v, w1),
        read_from(v, w2),
    ensures
        wf_valid(w1) == wf_valid(w2),
        wf_complete(w1) == wf_complete(w2),
{
    let a1 = nviews(w1.nodes@);
    let a2 = nviews(w2.nodes@);
    let b1 = eviews(w1.edges@);
    let b2 = eviews(w2.edges@);
    assert(a1 == a2);
    assert(b1 == b2);
    assert(w1.nodes@.len() == a1.len() && w2.nodes@.len() == a2.len());
    assert(w1.edges@.len() == b1.len() && w2.edges@.len() == b2.len());
    assert forall|i: int| 0 <= i < w1.nodes@.len() implies (#[trigger] w1.nodes@[i]).id@ == w2.nodes@[i].id@
        && w1.nodes@[i].node_type@ == w2.nodes@[i].node_type@ by {
        assert(a1[i] == a2[i]);
    }
    assert forall|i: int| 0 <= i < w1.edges@.len() implies (#[trigger] w1.edges@[i]).from@ == w2.edges@[i].from@
        && w1.edges@[i].to@ == w2.edges@[i].to@ && w1.edges@[i].kind@ == w2.edges@[i].kind@ by {
        assert(b1[i] == b2[i]);
    }
    assert forall|id: Seq<char>| has_id(w1, id) == has_id(w2, id) by {
        if has_id(w1, id) {
            let i = choose|i: int| 0 <= i < w1.nodes@.len() && (#[trigger] w1.nodes@[i]).id@ == id;
            assert(w2.nodes@[i].id@ == id);
        }
        if has_id(w2, id) {
            let i = choose|i: int| 0 <= i < w2.nodes@.len() && (#[trigger] w2.nodes@[i]).id@ == id;
            assert(w1.nodes@[i].id@ == id);
        }
    }
    if wf_valid(w1) {
        assert forall|i: int, j: int| 0 <= i < j < w2.nodes@.len() implies (#[trigger] w2.nodes@[i]).id@ != (#[trigger] w2.nodes@[j]).id@ by {
            assert(w1.nodes@[i].id@ != w1.nodes@[j].id@);
        }
        assert forall|k: int| 0 <= k < w2.edges@.len() implies has_id(w2, (#[trigger] w2.edges@[k]).from@) && has_id(w2, w2.edges@[k].to@)
            && kind_ok(w2.edges@[k].kind@) by {
            assert(has_id(w1, w1.edges@[k].from@));
        }
    }
    if wf_valid(w2) {
        assert forall|i: int, j: int| 0 <= i < j < w1.nodes@.len() implies (#[trigger] w1.nodes@[i]).id@ != (#[trigger] w1.nodes@[j]).id@ by {
            assert(w2.nodes@[i].id@ != w2.nodes@[j].id@);
        }
        assert forall|k: int| 0 <= k < w1.edges@.len() implies has_id(w1, (#[trigger] w1.edges@[k]).from@) && has_id(w1, w1.edges@[k].to@)
            && kind_ok(w1.edges@[k].kind@) by {
            assert(has_id(w2, w2.edges@[k].from@));
        }
    }
    assert(w1.name@ == w2.name@);
    if wf_complete(w1) {
        assert forall|i: int| 0 <= i < w2.nodes@.len() implies !crate::verify::blank((#[trigger] w2.nodes@[i]).id@)
            && !crate::verify::blank(w2.nodes@[i].node_type@) by {
            assert(!crate::verify::blank(w1.nodes@[i].id@));
        }
    }
    if wf_complete(w2) {
        assert forall|i: int| 0 <= i < w1.nodes@.len() implies !crate::verify::blank((#[trigger] w1.nodes@[i]).id@)
            && !crate::verify::blank(w1.nodes@[i].node_type@) by {
            assert(!crate::verify::blank(w2.nodes@[i].id@));
        }
    }
}

/// Validates the JSON form of a workflow.
pub fn validate_workflow(v: &JsonValue) -> (r: Result<(), SigniaError>)
    ensures
        r is Ok <==> exists|w: Workflow| read_from(v@, w) && wf_complete(w),
        !wf_readable(v@) ==> r is Err,
        (forall|w: Workflow| read_from(v@, w) ==> !wf_complete(w)) ==> r is Err,
{
    let w = read_workflow(v)?;
    match check_workflow(&w) {
        Ok(()) => {},
        Err(e) => {
            proof {
                assert forall|w2: Workflow| read_from(v@, w2) implies !wf_complete(w2) by {
                    lemma_same_reading(v@, w, w2);
                }
            }
            return Err(e);
        },
    }
    if crate::strs::is_blank(w.name.as_str()) {
        proof {
            assert forall|w2: Workflow| read_from(v@, w2) implies !wf_complete(w2) by {
                lemma_same_reading(v@, w, w2);
            }
        }
        return Err(SigniaError::invalid_argument("workflow.name must not be empty"));
    }
    if w.nodes.len() == 0 {
        proof {
            assert forall|w2: Workflow| read_from(v@, w2) implies !wf_complete(w2) by {
                lemma_same_reading(v@, w, w2);
            }
        }
        return Err(SigniaError::invalid_argument("workflow.nodes must not be empty"));
    }
    let mut i: usize = 0;
    while i < w.nodes.len()
        invariant
            i <= w.nodes@.len(),
            read_from(v@, w),
            wf_valid(w),
            !crate::verify::blank(w.name@),
            w.nodes@.len() > 0,
            forall|q: int| 0 <= q < i ==> !crate::verify::blank((#[trigger] w.nodes@[q]).id@) && !crate::verify::blank(
                w.nodes@[q].node_type@,
            ),
        decreases w.nodes@.len() - i,
    {
        if crate::strs::is_blank(w.nodes[i].id.as_str()) || crate::strs::is_blank(w.nodes[i].node_type.as_str()) {
            proof {
                assert(!wf_complete(w));
                assert forall|w2: Workflow| read_from(v@, w2) implies !wf_complete(w2) by {
                    lemma_same_reading(v@, w, w2);
                }
            }
            return Err(SigniaError::invalid_argument("workflow.node: id and type must not be empty"));
        }
        i = i + 1;
    }
    assert(wf_complete(w));
    Ok(())
}

/// Counts of a workflow's `nodes` and `edges`; a missing `edges` counts as 0.
pub fn workflow_summary(v: &JsonValue) -> (r: Result<(usize, usize), SigniaError>)
    ensures
        r is Ok <==> (v@ is Object && get_field(v@, "nodes"@) matches Some(Json::Array(_))),
        r is Ok ==> r->Ok_0.0 == get_field(v@, "nodes"@)->0->Array_0.len(),
        r is Ok ==> r->Ok_0.1 == match get_field(v@, "edges"@) {
            Some(Json::Array(es)) => es.len(),
            _ => 0,
        },
{
    let is_obj = match v {
        JsonValue::Object(_) => true,
        _ => false,
    };
    if !is_obj {
        return Err(SigniaError::invalid_argument("workflow must be an object"));
    }
    let nodes = match json_get(v, "nodes") {
        Some(f) => match f {
            JsonValue::Array(a) => {
                proof {
                    lemma_view_array(*f);
                }
                a.len()
            },
            _ => { return Err(SigniaError::invalid_argument("workflow.nodes missing")); },
        },
        None => { return Err(SigniaError::invalid_argument("workflow.nodes missing")); },
    };
    let edges = match json_get(v, "edges") {
        Some(f) => match f {
            JsonValue::Array(a) => {
                proof {
                    lemma_view_array(*f);
                }
                a.len()
            },
            _ => 0,
        },
        None => 0,
    };
    Ok((nodes, edges))
}
} // verus!
