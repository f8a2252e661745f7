use vstd::prelude::*;
use crate::error::{ErrorKind, SigniaError};
use crate::hashing::{hash_bytes_hex, hex_of, sha256_of};
use crate::ir::{edge_order, edge_rec, edge_view, edge_views, edge_with, emit_schema_v1, emits, emitted_edge, emitted_entity, entity_rec, has_node_key, ir_valid, key_pairs, node_order, node_views, node_with, ordinal_id, rank, EdgeView, IrGraph, NodeView};
use crate::json::{entries_view, items_view, json_clone, lemma_view_object, utf8_bytes, utf8_of, Json, JsonValue};
use crate::model::{edge_json, entity_json, schema_ref_json, EdgeV1, EntityV1,
    encodable, hash_manifest_v1_hex, hash_schema_v1_hex, json_hash_hex, jstr, manifest_json, schema_json,
    LeafV1, LimitsV1, ManifestV1, ProofV1, SchemaRefV1, SchemaV1,
};
use crate::verify::{blank, bundle_checkable, bundle_ok, edge_bad, entity_bad, leaf_lookup, leaf_pairs, leaves_ok, meta_ok, proof_root_spec, recompute_proof_root_hex, VerifyBundle, VerifyOptions};
use crate::json::{digit_char, digits, sorted_pairs};
use crate::strs::{is_ws, lead_ws, lemma_trail_ws, trail_ws};

verus! {

/// An input named in a manifest.
#[derive(Debug, Clone)]
pub struct InputSpec {
    pub input_type: String,
    pub locator: String,
    pub digest: Option<String>,
}

/// An output named in a manifest.
#[derive(Debug, Clone)]
pub struct OutputSpec {
    pub output_type: String,
    pub locator: String,
    pub expected_digest: Option<String>,
}

/// A plugin named in a manifest, with its configuration.
#[derive(Debug)]
pub struct PluginSpec {
    pub name: String,
    pub version: String,
    pub config: Option<JsonValue>,
}

/// Limits recorded in the manifest and enforced on the graph.
#[derive(Debug, Clone)]
pub struct LimitsSpec {
    pub max_files: u64,
    pub max_bytes: u64,
    pub max_nodes: u64,
    pub max_edges: u64,
    pub timeout_ms: u64,
    pub network: String,
}

impl Default for LimitsSpec {
    fn default() -> (r: Self)
        ensures
            r.max_files == 50000,
            r.max_bytes == 536870912,
            r.max_nodes == 2000000,
            r.max_edges == 4000000,
            r.timeout_ms == 60000,
            r.network@ == "deny"@,
    {
        LimitsSpec {
            max_files: 50000,
            max_bytes: 536870912,
            max_nodes: 2000000,
            max_edges: 4000000,
            timeout_ms: 60000,
            network: String::from_str("deny"),
        }
    }
}

/// What to compile besides the graph: kind, meta, the injected clock value,
/// and what the manifest records.
#[derive(Debug)]
pub struct CompileRequest {
    pub kind: String,
    pub meta: JsonValue,
    pub created_at: String,
    pub labels: Vec<(String, String)>,
    pub inputs: Vec<InputSpec>,
    pub outputs: Vec<OutputSpec>,
    pub plugins: Vec<PluginSpec>,
    pub limits: LimitsSpec,
    pub run_inference: bool,
    pub build_proof: bool,
}

/// Severity of a pipeline diagnostic.
#[derive(Debug, Clone, Copy, PartialEq, Eq, Structural)]
pub enum DiagnosticLevel {
    Info,
    Warning,
    Error,
}

/// A structured diagnostic of the pipeline.
#[derive(Debug, Clone)]
pub struct PipelineDiagnostic {
    pub level: DiagnosticLevel,
    pub code: String,
    pub message: String,
}

/// The clock value handed to the pipeline; the core reads no clock.
#[derive(Debug, Clone)]
pub struct DeterministicClock {
    pub now_iso8601: String,
}

impl Default for DeterministicClock {
    fn default() -> (r: Self)
        ensures
            r.now_iso8601@ == "1970-01-01T00:00:00Z"@,
    {
        DeterministicClock { now_iso8601: String::from_str("1970-01-01T00:00:00Z") }
    }
}

/// The three artifacts of one compile.
#[derive(Debug)]
pub struct CompileBundle {
    pub schema: SchemaV1,
    pub manifest: ManifestV1,
    pub proof: Option<ProofV1>,
}

#[derive(Debug, Clone, Copy, Default)]
pub struct CompileStats {
    pub entities: usize,
    pub edges: usize,
    pub leaf_count: usize,
}

#[derive(Debug)]
pub struct CompileReport {
    pub bundle: CompileBundle,
    pub diagnostics: Vec<PipelineDiagnostic>,
    pub stats: CompileStats,
}

pub open spec fn opt_json(o: Option<String>) -> Json {
    match o {
        Some(s) => jstr(s@),
        None => Json::Null,
    }
}

pub open spec fn input_json(i: InputSpec) -> Json {
    Json::Object(seq![("type"@, jstr(i.input_type@)), ("locator"@, jstr(i.locator@)), ("digest"@, opt_json(i.digest))])
}

pub open spec fn output_json(o: OutputSpec) -> Json {
    Json::Object(
        seq![("type"@, jstr(o.output_type@)), ("locator"@, jstr(o.locator@)), ("expected_digest"@, opt_json(o.expected_digest))],
    )
}

pub open spec fn plugin_json(p: PluginSpec) -> Json {
    Json::Object(
        seq![("name"@, jstr(p.name@)), ("version"@, jstr(p.version@)), ("config"@, match p.config {
            Some(c) => c@,
            None => Json::Null,
        })],
    )
}

/// The manifest that a request gives, bound to `digest` when there is one.
pub open spec fn manifest_for(req: CompileRequest, digest: Option<Seq<char>>, m: ManifestV1) -> bool {
    &&& m.version@ == "v1"@
    &&& m.name@ == "signia-compile"@
    &&& m.schemas@.len() == (if digest is Some { 1int } else { 0int })
    &&& (digest is Some ==> m.schemas@[0].name@ == req.kind@ && m.schemas@[0].digest@ == digest->0)
    &&& items_view(m.inputs@) == req.inputs@.map_values(|i: InputSpec| input_json(i))
    &&& items_view(m.outputs@) == req.outputs@.map_values(|o: OutputSpec| output_json(o))
    &&& items_view(m.plugins@) == req.plugins@.map_values(|p: PluginSpec| plugin_json(p))
    &&& m.limits.max_files == req.limits.max_files && m.limits.max_bytes == req.limits.max_bytes
    &&& m.limits.max_nodes == req.limits.max_nodes && m.limits.max_edges == req.limits.max_edges
    &&& m.limits.timeout_ms == req.limits.timeout_ms && m.limits.network@ == req.limits.network@
    &&& m.labels@.map_values(|p: (String, String)| (p.0@, p.1@)) == req.labels@.map_values(|p: (String, String)| (p.0@, p.1@))
}

fn opt_json_exec(o: &Option<String>) -> (r: JsonValue)
    ensures
        r@ == opt_json(*o),
{
    match o {
        Some(s) => JsonValue::Str(s.clone()),
        None => JsonValue::Null,
    }
}

fn obj3(k1: &str, v1: JsonValue, k2: &str, v2: JsonValue, k3: &str, v3: JsonValue) -> (r: JsonValue)
    ensures
        r@ == Json::Object(seq![(k1@, v1@), (k2@, v2@), (k3@, v3@)]),
{
    let ghost (a, b, c) = (v1@, v2@, v3@);
    let r = JsonValue::Object(vec![(String::from_str(k1), v1), (String::from_str(k2), v2), (String::from_str(k3), v3)]);
    proof {
        lemma_view_object(r);
        assert(entries_view(r->Object_0@) =~= seq![(k1@, a), (k2@, b), (k3@, c)]);
    }
    r
}

impl CompileRequest {
    /// The manifest of this request, bound to the schema digest when given.
    pub fn to_manifest_v1(&self, schema_digest_hex: Option<String>) -> (m: ManifestV1)
        ensures
            manifest_for(*self, match schema_digest_hex {
                Some(d) => Some(d@),
                None => None,
            }, m),
    {
        let mut schemas: Vec<SchemaRefV1> = Vec::new();
        match schema_digest_hex {
            Some(d) => {
                schemas.push(SchemaRefV1 { name: self.kind.clone(), digest: d });
            },
            None => {},
        }
        let mut inputs: Vec<JsonValue> = Vec::new();
        let mut i: usize = 0;
        while i < self.inputs.len()
            invariant
                i <= self.inputs@.len(),
                inputs@.len() == i,
                forall|q: int| 0 <= q < i ==> (#[trigger] inputs@[q])@ == input_json(self.inputs@[q]),
            decreases self.inputs@.len() - i,
        {
            let x = &self.inputs[i];
            inputs.push(obj3("type", JsonValue::Str(x.input_type.clone()), "locator", JsonValue::Str(x.locator.clone()), "digest", opt_json_exec(&x.digest)));
            i = i + 1;
        }
        let mut outputs: Vec<JsonValue> = Vec::new();
        let mut i: usize = 0;
        while i < self.outputs.len()
            invariant
                i <= self.outputs@.len(),
                outputs@.len() == i,
                forall|q: int| 0 <= q < i ==> (#[trigger] outputs@[q])@ == output_json(self.outputs@[q]),
            decreases self.outputs@.len() - i,
        {
            let x = &self.outputs[i];
            outputs.push(obj3("type", JsonValue::Str(x.output_type.clone()), "locator", JsonValue::Str(x.locator.clone()), "expected_digest", opt_json_exec(&x.expected_digest)));
            i = i + 1;
        }
        let mut plugins: Vec<JsonValue> = Vec::new();
        let mut i: usize = 0;
        while i < self.plugins.len()
            invariant
                i <= self.plugins@.len(),
                plugins@.len() == i,
                forall|q: int| 0 <= q < i ==> (#[trigger] plugins@[q])@ == plugin_json(self.plugins@[q]),
            decreases self.plugins@.len() - i,
        {
            let x = &self.plugins[i];
            let config = match &x.config {
                Some(c) => json_clone(c),
                None => JsonValue::Null,
            };
            assert(config@ == match self.plugins@[i as int].config {
                Some(c) => c@,
                None => Json::Null,
            });
            let ghost cv = config@;
            let o = obj3("name", JsonValue::Str(x.name.clone()), "version", JsonValue::Str(x.version.clone()), "config", config);
            assert(o@ == Json::Object(seq![("name"@, jstr(x.name@)), ("version"@, jstr(x.version@)), ("config"@, cv)]));
            assert(o@->Object_0 =~= plugin_json(self.plugins@[i as int])->Object_0);
            plugins.push(o);
            i = i + 1;
        }
        let mut labels: Vec<(String, String)> = Vec::new();
        let mut i: usize = 0;
        while i < self.labels.len()
            invariant
                i <= self.labels@.len(),
                labels@.len() == i,
                forall|q: int| 0 <= q < i ==> (#[trigger] labels@[q]).0@ == self.labels@[q].0@ && labels@[q].1@ == self.labels@[q].1@,
            decreases self.labels@.len() - i,
        {
            labels.push((self.labels[i].0.clone(), self.labels[i].1.clone()));
            i = i + 1;
        }
        let l = &self.limits;
        let m = ManifestV1 {
            version: String::from_str("v1"),
            name: String::from_str("signia-compile"),
            schemas,
            inputs,
            outputs,
            plugins,
            limits: LimitsV1 {
                max_files: l.max_files,
                max_bytes: l.max_bytes,
                max_nodes: l.max_nodes,
                max_edges: l.max_edges,
                timeout_ms: l.timeout_ms,
                network: l.network.clone(),
            },
            labels,
        };
        proof {
            assert(items_view(m.inputs@) =~= self.inputs@.map_values(|i: InputSpec| input_json(i)));
            assert(items_view(m.outputs@) =~= self.outputs@.map_values(|o: OutputSpec| output_json(o)));
            assert(items_view(m.plugins@) =~= self.plugins@.map_values(|p: PluginSpec| plugin_json(p)));
            assert(m.labels@.map_values(|p: (String, String)| (p.0@, p.1@)) =~= self.labels@.map_values(|p: (String, String)| (p.0@, p.1@)));
        }
        m
    }
}


/// Leaves of a compile proof, already in key order: both artifact hashes,
/// then the hashes of the creation time and of the kind.
pub open spec fn compile_leaves(sh: Seq<char>, mh: Seq<char>, created_at: Seq<char>, kind: Seq<char>) -> Seq<(Seq<char>, Seq<char>)> {
    seq![
        ("digest:manifestHash"@, mh),
        ("digest:schemaHash"@, sh),
        ("meta:createdAt"@, hex_of(sha256_of(utf8_of(created_at)))),
        ("meta:kind"@, hex_of(sha256_of(utf8_of(kind)))),
    ]
}

fn leaf(key: &str, value: String) -> (r: LeafV1)
    ensures
        r.key@ == key@,
        r.value@ == value@,
{
    LeafV1 { key: String::from_str(key), value }
}

/// The proof over the two artifact hashes and the request's metadata.
pub fn build_proof(schema_hash: &String, manifest_hash: &String, created_at: &str, kind: &str) -> (p: ProofV1)
    ensures
        p.version@ == "v1"@,
        p.hash_alg@ == "sha256"@,
        p.inclusions is None,
        leaf_pairs(p.leaves@) == compile_leaves(schema_hash@, manifest_hash@, created_at@, kind@),
        leaves_ok(p.leaves@),
        p.root@ == hex_of(proof_root_spec(p.leaves@)),
{
    let leaves = vec![
        leaf("digest:manifestHash", manifest_hash.clone()),
        leaf("digest:schemaHash", schema_hash.clone()),
        leaf("meta:createdAt", hash_bytes_hex(utf8_bytes(created_at).as_slice())),
        leaf("meta:kind", hash_bytes_hex(utf8_bytes(kind).as_slice())),
    ];
    let mut p = ProofV1 {
        version: String::from_str("v1"),
        hash_alg: String::from_str("sha256"),
        root: String::new(),
        leaves,
        inclusions: None,
    };
    proof {
        reveal_strlit("digest:manifestHash");
        reveal_strlit("digest:schemaHash");
        reveal_strlit("meta:createdAt");
        reveal_strlit("meta:kind");
        reveal_strlit("sha256");
        assert(leaf_pairs(p.leaves@) =~= compile_leaves(schema_hash@, manifest_hash@, created_at@, kind@));
        let l = p.leaves@;
        assert forall|i: int| 0 <= i < l.len() implies !(#[trigger] l[i]).key@.contains('=') by {
            if l[i].key@.contains('=') {
                let q = choose|q: int| 0 <= q < l[i].key@.len() && l[i].key@[q] == '=';
            }
        }
        assert forall|i: int, j: int| 0 <= i < j < l.len() implies (#[trigger] l[i]).key@ != (#[trigger] l[j]).key@ by {
            if i == 0 && j == 1 {
                assert(l[i].key@[7] != l[j].key@[7]);
            } else if i == 2 && j == 3 {
                assert(l[i].key@[5] != l[j].key@[5]);
            } else {
                assert(l[i].key@[0] != l[j].key@[0]);
            }
        }
    }
    let root = match recompute_proof_root_hex(&p) {
        Ok(r) => r,
        Err(_) => String::new(),
    };
    p.root = root;
    p
}

/// The graph is within the request's node and edge limits.
pub open spec fn within_limits(ir: IrGraph, req: CompileRequest) -> bool {
    ir.nodes@.len() <= req.limits.max_nodes && ir.edges@.len() <= req.limits.max_edges
}

/// What a compile of `ir` under `req` produces.
pub open spec fn compiled(ir: IrGraph, req: CompileRequest, b: CompileBundle) -> bool {
    let sh = json_hash_hex(schema_json(b.schema));
    let mh = json_hash_hex(manifest_json(b.manifest));
    &&& emits(ir, req.kind@, req.meta@, b.schema)
    &&& encodable(schema_json(b.schema))
    &&& encodable(manifest_json(b.manifest))
    &&& manifest_for(req, Some(sh), b.manifest)
    &&& (b.proof is Some <==> req.build_proof)
    &&& (b.proof is Some ==> b.proof->0.version@ == "v1"@ && b.proof->0.hash_alg@ == "sha256"@
        && b.proof->0.inclusions is None
        && leaf_pairs(b.proof->0.leaves@) == compile_leaves(sh, mh, req.created_at@, req.kind@)
        && leaves_ok(b.proof->0.leaves@)
        && b.proof->0.root@ == hex_of(proof_root_spec(b.proof->0.leaves@)))
}

/// Compiles a graph: validate, enforce limits, emit the schema, hash it,
/// assemble and hash the manifest, and build the proof when asked.
pub fn compile_from_ir(ir: &IrGraph, req: &CompileRequest) -> (r: Result<CompileReport, SigniaError>)
    ensures
        !(ir_valid(*ir) && within_limits(*ir, *req)) ==> r is Err,
        r is Err && ir_valid(*ir) && within_limits(*ir, *req) ==> exists|s: SchemaV1|
            emits(*ir, req.kind@, req.meta@, s) && (!encodable(#[trigger] schema_json(s)) || exists|m: ManifestV1|
                manifest_for(*req, Some(json_hash_hex(schema_json(s))), m) && !encodable(#[trigger] manifest_json(m))),
        r is Ok ==> compiled(*ir, *req, r->Ok_0.bundle),
        r is Ok ==> r->Ok_0.stats.entities == r->Ok_0.bundle.schema.entities@.len(),
        r is Ok ==> r->Ok_0.stats.edges == r->Ok_0.bundle.schema.edges@.len(),
        r is Ok ==> r->Ok_0.stats.leaf_count == (if req.build_proof { 4int } else { 0int }),
{
    ir.validate_basic()?;
    if ir.nodes.len() as u64 > req.limits.max_nodes {
        return Err(SigniaError::resource_limit("IR exceeds max_nodes"));
    }
    if ir.edges.len() as u64 > req.limits.max_edges {
        return Err(SigniaError::resource_limit("IR exceeds max_edges"));
    }
    let mut diagnostics: Vec<PipelineDiagnostic> = Vec::new();
    diagnostics.push(PipelineDiagnostic { level: DiagnosticLevel::Info, code: String::from_str("pipeline.stage.start"), message: String::from_str("emit.schema_v1") });
    let schema = emit_schema_v1(ir, req.kind.as_str(), &req.meta)?;
    diagnostics.push(PipelineDiagnostic { level: DiagnosticLevel::Info, code: String::from_str("pipeline.stage.end"), message: String::from_str("emit.schema_v1") });
    let schema_hash = match hash_schema_v1_hex(&schema) {
        Ok(h) => h,
        Err(e) => {
            return Err(e);
        },
    };
    let manifest = req.to_manifest_v1(Some(schema_hash.clone()));
    let manifest_hash = match hash_manifest_v1_hex(&manifest) {
        Ok(h) => h,
        Err(e) => {
            return Err(e);
        },
    };
    let commitment = if req.build_proof {
        Some(build_proof(&schema_hash, &manifest_hash, req.created_at.as_str(), req.kind.as_str()))
    } else {
        None
    };
    let leaf_count = match &commitment {
        Some(p) => p.leaves.len(),
        None => 0,
    };
    let stats = CompileStats { entities: schema.entities.len(), edges: schema.edges.len(), leaf_count };
    Ok(CompileReport { bundle: CompileBundle { schema, manifest, proof: commitment }, diagnostics, stats })
}

proof fn lemma_digits_len(n: nat)
    ensures
        digits(n).len() >= 1,
        n >= 10 ==> digits(n).len() >= 2,
    decreases n,
{
    if n >= 10 {
        lemma_digits_len(n / 10);
    }
}

proof fn lemma_digits_injective(a: nat, b: nat)
    requires
        digits(a) == digits(b),
    ensures
        a == b,
    decreases a,
{
    lemma_digits_len(a);
    lemma_digits_len(b);
    if a < 10 && b < 10 {
        assert(digits(a)[0] == digit_char(a));
        assert(digits(b)[0] == digit_char(b));
        assert((('0' as u8) + a) as char == (('0' as u8) + b) as char);
    } else if a >= 10 && b >= 10 {
        let da = digits(a);
        let db = digits(b);
        assert(da.last() == digit_char(a % 10));
        assert(db.last() == digit_char(b % 10));
        assert((('0' as u8) + (a % 10)) as char == (('0' as u8) + (b % 10)) as char);
        assert(da.drop_last() =~= digits(a / 10));
        assert(db.drop_last() =~= digits(b / 10));
        lemma_digits_injective(a / 10, b / 10);
    } else if a < 10 {
        lemma_digits_len(b);
    } else {
        lemma_digits_len(a);
    }
}

proof fn lemma_not_blank(s: Seq<char>)
    requires
        s.len() > 0,
        !is_ws(s[0]),
    ensures
        !blank(s),
{
    lemma_trail_ws(s);
    assert(lead_ws(s) == 0);
    assert(s.subrange(0, s.len() as int) =~= s);
    if trail_ws(s) == s.len() {
        assert(is_ws(s[0]));
    }
}

/// Verify inverts compile: the bundle of a compile with a proof verifies
/// under the default options, when the request's meta holds the required
/// keys and every node has a type.
pub proof fn lemma_verify_inverts_compile(ir: IrGraph, req: CompileRequest, b: CompileBundle)
    requires
        compiled(ir, req, b),
        ir_valid(ir),
        req.build_proof,
        !blank(req.kind@),
        meta_ok(req.meta@),
        forall|i: int| 0 <= i < ir.nodes@.len() ==> !blank((#[trigger] ir.nodes@[i]).node_type@),
    ensures
        ({
            let vb = VerifyBundle { schema: b.schema, manifest: b.manifest, proof: b.proof };
            let opts = VerifyOptions { require_proof: true, validate_inclusions: true, require_manifest_binding: true };
            bundle_checkable(vb) && bundle_ok(vb, opts, json_hash_hex(schema_json(b.schema)), json_hash_hex(manifest_json(b.manifest)))
        }),
{
    let s = b.schema;
    let m = b.manifest;
    let p = b.proof->0;
    let sh = json_hash_hex(schema_json(s));
    let mh = json_hash_hex(manifest_json(m));
    let g = ir;
    let nv = node_views(g);
    let no = node_order(g);
    // entities
    assert forall|j: int| 0 <= j < s.entities@.len() implies !entity_bad(s, j) by {
        let e = s.entities@[j];
        assert(entity_rec(e) == emitted_entity(g, j));
        let id = ordinal_id('n', j);
        assert(e.id@ == id);
        assert(id[0] == 'n');
        lemma_not_blank(id);
        // the node of this key is a node of the graph, whose type is set
        let kp = key_pairs(nv.map_values(|n: NodeView| n.0));
        let pk = sorted_pairs(kp);
        assert(pk.contains(pk[j]));
        assert(pk.to_set().contains(pk[j]));
        assert(kp.to_set().contains(pk[j]));
        let q = choose|q: int| 0 <= q < kp.len() && kp[q] == pk[j];
        assert(nv[q].0 == no[j]);
        assert(nv.contains(nv[q]));
        assert(nv.to_set().contains(nv[q]));
        let c = node_with(nv.to_set(), no[j]);
        assert(nv.to_set().contains(c));
        assert(nv.contains(c));
        let w = choose|w: int| 0 <= w < nv.len() && nv[w] == c;
        assert(g.nodes@[w].node_type@ == c.1);
        assert(e.entity_type@ == c.1);
        if exists|i: int| 0 <= i < j && (#[trigger] s.entities@[i]).id@ == s.entities@[j].id@ {
            let i = choose|i: int| 0 <= i < j && (#[trigger] s.entities@[i]).id@ == s.entities@[j].id@;
            assert(entity_rec(s.entities@[i]) == emitted_entity(g, i));
            assert(ordinal_id('n', i) == ordinal_id('n', j));
            assert(ordinal_id('n', i).drop_first() =~= digits(i as nat));
            assert(ordinal_id('n', j).drop_first() =~= digits(j as nat));
            lemma_digits_injective(i as nat, j as nat);
        }
    }
    // edges
    let ev = edge_views(g);
    let eo = edge_order(g);
    let kp = key_pairs(nv.map_values(|n: NodeView| n.0));
    let ekp = key_pairs(ev.map_values(|e: EdgeView| e.0));
    assert forall|k: int| 0 <= k < s.edges@.len() implies !edge_bad(s, k) by {
        let e = s.edges@[k];
        assert(edge_rec(e) == emitted_edge(g, k));
        let epk = sorted_pairs(ekp);
        assert(epk.contains(epk[k]));
        assert(epk.to_set().contains(epk[k]));
        assert(ekp.to_set().contains(epk[k]));
        let q = choose|q: int| 0 <= q < ekp.len() && ekp[q] == epk[k];
        assert(ev[q].0 == eo[k]);
        assert(ev.contains(ev[q]));
        assert(ev.to_set().contains(ev[q]));
        let x = edge_with(ev.to_set(), eo[k]);
        assert(ev.to_set().contains(x));
        assert(ev.contains(x));
        let w = choose|w: int| 0 <= w < ev.len() && ev[w] == x;
        assert(ev[w] == edge_view(g.edges@[w]));
        assert(has_node_key(g, g.edges@[w].from@) && has_node_key(g, g.edges@[w].to@));
        let pk = sorted_pairs(kp);
        // an endpoint key has a position in the node order
        assert forall|key: Seq<char>| has_node_key(g, key) implies 0 <= #[trigger] rank(no, key) < no.len() && no[rank(no, key)] == key by {
            let ni = choose|ni: int| 0 <= ni < g.nodes@.len() && (#[trigger] g.nodes@[ni]).key@ == key;
            assert(nv[ni].0 == key);
            assert(kp[ni] == (key, key));
            assert(kp.contains(kp[ni]));
            assert(kp.to_set().contains(kp[ni]));
            assert(pk.to_set().contains(kp[ni]));
            assert(pk.contains(kp[ni]));
            let t = choose|t: int| 0 <= t < pk.len() && pk[t] == kp[ni];
            assert(no[t] == key);
        }
        let rf = rank(no, x.2);
        let rt = rank(no, x.3);
        assert(e.from@ == ordinal_id('n', rf));
        assert(e.to@ == ordinal_id('n', rt));
        assert(entity_rec(s.entities@[rf]) == emitted_entity(g, rf));
        assert(s.entities@[rf].id@ == e.from@);
        assert(entity_rec(s.entities@[rt]) == emitted_entity(g, rt));
        assert(s.entities@[rt].id@ == e.to@);
        assert(ordinal_id('n', rf)[0] == 'n');
        assert(ordinal_id('n', rt)[0] == 'n');
        lemma_not_blank(ordinal_id('n', rf));
        lemma_not_blank(ordinal_id('n', rt));
    }
    // kind and manifest name
    assert(s.kind@ == req.kind@);
    reveal_strlit("signia-compile");
    assert(m.name@[0] == 's');
    lemma_not_blank(m.name@);
    // proof leaves
    let l = p.leaves@;
    reveal_strlit("digest:manifestHash");
    reveal_strlit("digest:schemaHash");
    reveal_strlit("meta:createdAt");
    reveal_strlit("meta:kind");
    let cl = compile_leaves(sh, mh, req.created_at@, req.kind@);
    assert(leaf_pairs(l) == cl);
    assert(l.len() == 4);
    assert(l[0].key@ == cl[0].0 && l[1].key@ == cl[1].0 && l[2].key@ == cl[2].0 && l[3].key@ == cl[3].0);
    assert(l[0].value@ == mh && l[1].value@ == sh);
    let l3 = l.drop_last();
    let l2 = l3.drop_last();
    let l1 = l2.drop_last();
    assert(l.last() == l[3] && l3.last() == l[2] && l2.last() == l[1] && l1.last() == l[0]);
    assert(l3.len() == 3 && l2.len() == 2 && l1.len() == 1);
    assert(l[3].key@[0] != "digest:schemaHash"@[0]);
    assert(l[2].key@[0] != "digest:schemaHash"@[0]);
    assert(l[3].key@ != "digest:schemaHash"@);
    assert(l[2].key@ != "digest:schemaHash"@);
    assert(leaf_lookup(l2, "digest:schemaHash"@) == Some(sh));
    assert(leaf_lookup(l3, "digest:schemaHash"@) == Some(sh));
    assert(leaf_lookup(l, "digest:schemaHash"@) == Some(sh));
    assert(l[3].key@ != "digest:manifestHash"@);
    assert(l[2].key@ != "digest:manifestHash"@);
    assert(l[1].key@[7] != "digest:manifestHash"@[7]);
    assert(l[1].key@ != "digest:manifestHash"@);
    assert(leaf_lookup(l1, "digest:manifestHash"@) == Some(mh));
    assert(leaf_lookup(l2, "digest:manifestHash"@) == Some(mh));
    assert(leaf_lookup(l3, "digest:manifestHash"@) == Some(mh));
    assert(leaf_lookup(l, "digest:manifestHash"@) == Some(mh));
    assert(m.schemas@[0].digest@ == sh);
}

/// Compile idempotence: two compiles of the same graph under the same
/// request produce the same canonical schema and manifest, hence the same
/// hashes, and the same proof leaves and root.
pub proof fn lemma_compile_deterministic(ir: IrGraph, req: CompileRequest, b1: CompileBundle, b2: CompileBundle)
    requires
        compiled(ir, req, b1),
        compiled(ir, req, b2),
    ensures
        schema_json(b1.schema) == schema_json(b2.schema),
        manifest_json(b1.manifest) == manifest_json(b2.manifest),
        b1.proof is Some ==> b2.proof is Some && leaf_pairs(b1.proof->0.leaves@) == leaf_pairs(b2.proof->0.leaves@)
            && b1.proof->0.root@ == b2.proof->0.root@,
{
    let s1 = b1.schema;
    let s2 = b2.schema;
    let a1 = s1.entities@.map_values(|e: EntityV1| entity_json(e));
    let a2 = s2.entities@.map_values(|e: EntityV1| entity_json(e));
    assert forall|i: int| 0 <= i < a1.len() implies a1[i] == a2[i] by {
        assert(entity_rec(s1.entities@[i]) == emitted_entity(ir, i));
        assert(entity_rec(s2.entities@[i]) == emitted_entity(ir, i));
    }
    assert(a1 =~= a2);
    let c1 = s1.edges@.map_values(|e: EdgeV1| edge_json(e));
    let c2 = s2.edges@.map_values(|e: EdgeV1| edge_json(e));
    assert forall|i: int| 0 <= i < c1.len() implies c1[i] == c2[i] by {
        assert(edge_rec(s1.edges@[i]) == emitted_edge(ir, i));
        assert(edge_rec(s2.edges@[i]) == emitted_edge(ir, i));
    }
    assert(c1 =~= c2);
    assert(schema_json(s1) =~~= schema_json(s2));
    let m1 = b1.manifest;
    let m2 = b2.manifest;
    let r1 = m1.schemas@.map_values(|r: SchemaRefV1| schema_ref_json(r));
    let r2 = m2.schemas@.map_values(|r: SchemaRefV1| schema_ref_json(r));
    assert(r1 =~= r2);
    let lab1 = m1.labels@.map_values(|p: (String, String)| (p.0@, jstr(p.1@)));
    let lab2 = m2.labels@.map_values(|p: (String, String)| (p.0@, jstr(p.1@)));
    let v1 = m1.labels@.map_values(|p: (String, String)| (p.0@, p.1@));
    let v2 = m2.labels@.map_values(|p: (String, String)| (p.0@, p.1@));
    assert(v1 == v2);
    assert(v1.len() == m1.labels@.len() && v2.len() == m2.labels@.len());
    assert(lab1.len() == lab2.len());
    assert forall|i: int| 0 <= i < lab1.len() implies lab1[i] == lab2[i] by {
        assert(v1[i] == v2[i]);
        assert(lab1[i] == (v1[i].0, jstr(v1[i].1)));
        assert(lab2[i] == (v2[i].0, jstr(v2[i].1)));
    }
    assert(lab1 =~= lab2);
    assert(manifest_json(m1) =~~= manifest_json(m2));
}
} // verus!
