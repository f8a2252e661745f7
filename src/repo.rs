use vstd::prelude::*;
use crate::error::SigniaError;
use crate::ir::{edge_view, has_node_key, ir_valid, node_view, EdgeView, IrEdge, IrGraph, IrNode, NodeView};
use crate::json::{get_field, get_text, items_view, json_clone, json_get, json_get_str, lemma_view_array, Json, JsonValue};
use crate::walk::{included, is_included, norm_path, normalize_repo_path};

verus! {

/// One file entry of a repository input: a string `path` that normalizes.
pub open spec fn repo_file_ok(f: Json) -> bool {
    match get_text(f, "path"@) {
        Some(p) => !crate::walk::has_dotdot(norm_path(p)),
        None => false,
    }
}

/// A repository input: a string `name`, and `files` (when an array) whose
/// entries have good paths.
pub open spec fn repo_input_ok(v: Json) -> bool {
    get_text(v, "name"@) is Some && match get_field(v, "files"@) {
        Some(Json::Array(fs)) => forall|i: int| 0 <= i < fs.len() ==> repo_file_ok(#[trigger] fs[i]),
        _ => true,
    }
}

/// The files that pass the patterns, as normalized path and entry, in input order.
pub open spec fn selected(fs: Seq<Json>, inc: Seq<String>, exc: Seq<String>) -> Seq<(Seq<char>, Json)>
    decreases fs.len(),
{
    if fs.len() == 0 {
        Seq::empty()
    } else {
        let rest = selected(fs.drop_last(), inc, exc);
        let p = norm_path(get_text(fs.last(), "path"@)->0);
        if included(p, inc, exc) {
            rest.push((p, fs.last()))
        } else {
            rest
        }
    }
}

pub open spec fn repo_files(v: Json, inc: Seq<String>, exc: Seq<String>) -> Seq<(Seq<char>, Json)> {
    match get_field(v, "files"@) {
        Some(Json::Array(fs)) => selected(fs, inc, exc),
        _ => Seq::empty(),
    }
}

/// The graph of a repository: a `repo` root, then one `file` node per
/// selected file, keyed `file:<path>`, carrying its entry (digest included).
pub open spec fn repo_nodes(name: Seq<char>, files: Seq<(Seq<char>, Json)>) -> Seq<NodeView> {
    seq![("repo"@, "repo"@, name, Json::Null)] + files.map_values(|f: (Seq<char>, Json)| ("file:"@ + f.0, "file"@, f.0, f.1))
}

/// One `contains` edge from the root to each selected file.
pub open spec fn repo_edges(files: Seq<(Seq<char>, Json)>) -> Seq<EdgeView> {
    files.map_values(|f: (Seq<char>, Json)| ("contains:"@ + f.0, "contains"@, "repo"@, "file:"@ + f.0, Json::Null))
}

pub open spec fn paths_distinct(files: Seq<(Seq<char>, Json)>) -> bool {
    forall|i: int, j: int| 0 <= i < j < files.len() ==> (#[trigger] files[i]).0 != (#[trigger] files[j]).0
}

proof fn lemma_prefix_injective(a: Seq<char>, p: Seq<char>, q: Seq<char>)
    requires
        a + p == a + q,
    ensures
        p == q,
{
    assert(p =~= (a + p).subrange(a.len() as int, (a + p).len() as int));
    assert(q =~= (a + q).subrange(a.len() as int, (a + q).len() as int));
}

/// Builds the graph of a repository input. It succeeds exactly when the input
/// is well formed and no two selected files share a normalized path.
pub fn execute_repo(v: &JsonValue, includes: &[String], excludes: &[String]) -> (r: Result<IrGraph, SigniaError>)
    ensures
        r is Ok <==> (repo_input_ok(v@) && paths_distinct(repo_files(v@, includes@, excludes@))),
        r is Ok ==> ir_valid(r->Ok_0),
        r is Ok ==> r->Ok_0.nodes@.map_values(|n: IrNode| node_view(n)) == repo_nodes(
            get_text(v@, "name"@)->0,
            repo_files(v@, includes@, excludes@),
        ),
        r is Ok ==> r->Ok_0.edges@.map_values(|e: IrEdge| edge_view(e)) == repo_edges(repo_files(v@, includes@, excludes@)),
{
    let name = match json_get_str(v, "name") {
        Some(s) => s.clone(),
        None => { return Err(SigniaError::invalid_argument("repo.name missing or invalid")); },
    };
    let mut nodes: Vec<IrNode> = Vec::new();
    let mut edges: Vec<IrEdge> = Vec::new();
    nodes.push(IrNode { key: String::from_str("repo"), node_type: String::from_str("repo"), name, attrs: JsonValue::Null });
    let ghost nm = get_text(v@, "name"@)->0;
    let ghost mut sel: Seq<(Seq<char>, Json)> = Seq::empty();
    assert(nodes@.map_values(|n: IrNode| node_view(n)) =~= repo_nodes(nm, sel));
    assert(edges@.map_values(|e: IrEdge| edge_view(e)) =~= repo_edges(sel));
    match json_get(v, "files") {
        Some(f) => match f {
            JsonValue::Array(files) => {
                proof {
                    lemma_view_array(*f);
                }
                let ghost items = items_view(files@);
                assert(items.subrange(0, 0) =~= Seq::<Json>::empty());
                let mut i: usize = 0;
                while i < files.len()
                    invariant
                        i <= files@.len(),
                        items == items_view(files@),
                        get_field(v@, "files"@) == Some(Json::Array(items)),
                        get_text(v@, "name"@) is Some,
                        nm == get_text(v@, "name"@)->0,
                        forall|q: int| 0 <= q < i ==> repo_file_ok(#[trigger] items[q]),
                        sel == selected(items.subrange(0, i as int), includes@, excludes@),
                        nodes@.map_values(|n: IrNode| node_view(n)) == repo_nodes(nm, sel),
                        edges@.map_values(|e: IrEdge| edge_view(e)) == repo_edges(sel),
                    decreases files@.len() - i,
                {
                    assert(items[i as int] == files@[i as int]@);
                    let path = match json_get_str(&files[i], "path") {
                        Some(p) => p,
                        None => {
                            assert(!repo_file_ok(items[i as int]));
                            return Err(SigniaError::invalid_argument("file.path missing"));
                        },
                    };
                    let norm = match normalize_repo_path(path.as_str()) {
                        Ok(p) => p,
                        Err(e) => {
                            assert(!repo_file_ok(items[i as int]));
                            return Err(e);
                        },
                    };
                    let ghost pre = items.subrange(0, i as int);
                    let ghost nxt = items.subrange(0, i + 1);
                    assert(nxt.drop_last() =~= pre);
                    assert(nxt.last() == items[i as int]);
                    if is_included(norm.as_str(), includes, excludes) {
                        let key = String::from_str("file:").concat(norm.as_str());
                        let ekey = String::from_str("contains:").concat(norm.as_str());
                        let ghost n0 = nodes@.map_values(|n: IrNode| node_view(n));
                        let ghost e0 = edges@.map_values(|e: IrEdge| edge_view(e));
                        let ghost entry = (norm@, items[i as int]);
                        nodes.push(IrNode { key: key.clone(), node_type: String::from_str("file"), name: norm, attrs: json_clone(&files[i]) });
                        edges.push(IrEdge { key: ekey, edge_type: String::from_str("contains"), from: String::from_str("repo"), to: key, attrs: JsonValue::Null });
                        proof {
                            let s0 = sel;
                            let nview: NodeView = ("file:"@ + entry.0, "file"@, entry.0, entry.1);
                            let eview: EdgeView = ("contains:"@ + entry.0, "contains"@, "repo"@, "file:"@ + entry.0, Json::Null);
                            assert(nodes@.map_values(|n: IrNode| node_view(n)) =~= n0.push(nview));
                            assert(edges@.map_values(|e: IrEdge| edge_view(e)) =~= e0.push(eview));
                            assert(repo_nodes(nm, s0.push(entry)) =~= repo_nodes(nm, s0).push(nview));
                            assert(repo_edges(s0.push(entry)) =~= repo_edges(s0).push(eview));
                            sel = s0.push(entry);
                        }
                    }
                    i = i + 1;
                }
                assert(items.subrange(0, items.len() as int) =~= items);
            },
            _ => {},
        },
        None => {},
    }
    assert(repo_input_ok(v@));
    assert(sel == repo_files(v@, includes@, excludes@));
    let g = IrGraph { nodes, edges };
    let ghost nv = g.nodes@.map_values(|n: IrNode| node_view(n));
    let ghost ev = g.edges@.map_values(|e: IrEdge| edge_view(e));
    proof {
        if paths_distinct(sel) {
            assert forall|a: int, b: int| 0 <= a < b < g.nodes@.len() implies (#[trigger] g.nodes@[a]).key@ != (#[trigger] g.nodes@[b]).key@ by {
                assert(nv[a].0 == g.nodes@[a].key@ && nv[b].0 == g.nodes@[b].key@);
                if a == 0 {
                    reveal_strlit("repo");
                    reveal_strlit("file:");
                    assert(nv[0].0 == "repo"@);
                    assert(nv[b].0 == "file:"@ + sel[b - 1].0);
                    assert(nv[b].0[0] == 'f');
                    assert(nv[0].0[0] == 'r');
                } else if nv[a].0 == nv[b].0 {
                    lemma_prefix_injective("file:"@, sel[a - 1].0, sel[b - 1].0);
                }
            }
            assert forall|a: int, b: int| 0 <= a < b < g.edges@.len() implies (#[trigger] g.edges@[a]).key@ != (#[trigger] g.edges@[b]).key@ by {
                assert(ev[a].0 == g.edges@[a].key@ && ev[b].0 == g.edges@[b].key@);
                if ev[a].0 == ev[b].0 {
                    lemma_prefix_injective("contains:"@, sel[a].0, sel[b].0);
                }
            }
            assert forall|a: int| 0 <= a < g.edges@.len() implies has_node_key(g, (#[trigger] g.edges@[a]).from@) && has_node_key(g, g.edges@[a].to@) by {
                assert(ev[a] == edge_view(g.edges@[a]));
                assert(nv[0] == node_view(g.nodes@[0]));
                assert(nv[a + 1] == node_view(g.nodes@[a + 1]));
            }
        } else {
            let (a, b) = choose|a: int, b: int| 0 <= a < b < sel.len() && (#[trigger] sel[a]).0 == (#[trigger] sel[b]).0;
            assert(nv[a + 1] == node_view(g.nodes@[a + 1]) && nv[b + 1] == node_view(g.nodes@[b + 1]));
            assert(g.nodes@[a + 1].key@ == g.nodes@[b + 1].key@);
        }
    }
    match g.validate_basic() {
        Ok(()) => Ok(g),
        Err(_) => Err(SigniaError::invalid_argument("DuplicateId: two files share a normalized path")),
    }
}

} // verus!
