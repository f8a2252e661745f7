use vstd::prelude::*;
use crate::canonical::{canonical_hash_hex, CanonicalError};
use crate::error::SigniaError;
use crate::hashing::{hex_of, sha256_of};
use crate::json::{
    depth_ok, enc, entries_view, items_view, json_clone, keys_ok, lemma_view_array,
    lemma_view_object, utf8_of, Json, JsonValue,
};

verus! {

/// Deepest nesting of arrays and objects that the canonical encoder accepts.
pub const MAX_JSON_DEPTH: usize = 128;

/// An entity of a schema.
#[derive(Debug)]
pub struct EntityV1 {
    pub id: String,
    pub entity_type: String,
    pub name: String,
    pub attrs: JsonValue,
}

/// An edge of a schema, between two entity ids.
#[derive(Debug)]
pub struct EdgeV1 {
    pub id: String,
    pub edge_type: String,
    pub from: String,
    pub to: String,
    pub attrs: JsonValue,
}

/// A schema: `{version, kind, meta, entities, edges}`.
#[derive(Debug)]
pub struct SchemaV1 {
    pub version: String,
    pub kind: String,
    pub meta: JsonValue,
    pub entities: Vec<EntityV1>,
    pub edges: Vec<EdgeV1>,
}

/// A manifest's reference to a schema by its digest.
#[derive(Debug, Clone)]
pub struct SchemaRefV1 {
    pub name: String,
    pub digest: String,
}

/// Resource limits recorded in a manifest.
#[derive(Debug, Clone)]
pub struct LimitsV1 {
    pub max_files: u64,
    pub max_bytes: u64,
    pub max_nodes: u64,
    pub max_edges: u64,
    pub timeout_ms: u64,
    pub network: String,
}

/// A manifest: `{version, name, schemas, inputs, outputs, plugins, limits, labels}`.
#[derive(Debug)]
pub struct ManifestV1 {
    pub version: String,
    pub name: String,
    pub schemas: Vec<SchemaRefV1>,
    pub inputs: Vec<JsonValue>,
    pub outputs: Vec<JsonValue>,
    pub plugins: Vec<JsonValue>,
    pub limits: LimitsV1,
    pub labels: Vec<(String, String)>,
}

/// A committed leaf: the Merkle payload is `key=value`.
#[derive(Debug, Clone)]
pub struct LeafV1 {
    pub key: String,
    pub value: String,
}

/// A sibling on an inclusion path; `side` is `left` or `right`.
#[derive(Debug, Clone)]
pub struct SiblingV1 {
    pub side: String,
    pub hash: String,
}

/// An inclusion proof of one leaf.
#[derive(Debug, Clone)]
pub struct InclusionProofV1 {
    pub key: String,
    pub value: String,
    pub siblings: Vec<SiblingV1>,
}

/// A proof: the Merkle root over the leaves, and optional inclusion proofs.
#[derive(Debug, Clone)]
pub struct ProofV1 {
    pub version: String,
    pub hash_alg: String,
    pub root: String,
    pub leaves: Vec<LeafV1>,
    pub inclusions: Option<Vec<InclusionProofV1>>,
}

pub open spec fn jstr(s: Seq<char>) -> Json {
    Json::Str(s)
}

pub open spec fn entity_json(e: EntityV1) -> Json {
    Json::Object(
        seq![("id"@, jstr(e.id@)), ("type"@, jstr(e.entity_type@)), ("name"@, jstr(e.name@)), ("attrs"@, e.attrs@)],
    )
}

pub open spec fn edge_json(e: EdgeV1) -> Json {
    Json::Object(
        seq![
            ("id"@, jstr(e.id@)),
            ("type"@, jstr(e.edge_type@)),
            ("from"@, jstr(e.from@)),
            ("to"@, jstr(e.to@)),
            ("attrs"@, e.attrs@),
        ],
    )
}

/// The JSON form of a schema, whose canonical bytes are hashed.
pub open spec fn schema_json(s: SchemaV1) -> Json {
    Json::Object(
        seq![
            ("version"@, jstr(s.version@)),
            ("kind"@, jstr(s.kind@)),
            ("meta"@, s.meta@),
            ("entities"@, Json::Array(s.entities@.map_values(|e: EntityV1| entity_json(e)))),
            ("edges"@, Json::Array(s.edges@.map_values(|e: EdgeV1| edge_json(e)))),
        ],
    )
}

pub open spec fn schema_ref_json(r: SchemaRefV1) -> Json {
    Json::Object(seq![("name"@, jstr(r.name@)), ("digest"@, jstr(r.digest@))])
}

pub open spec fn limits_json(l: LimitsV1) -> Json {
    Json::Object(
        seq![
            ("maxFiles"@, Json::Int(l.max_files as int)),
            ("maxBytes"@, Json::Int(l.max_bytes as int)),
            ("maxNodes"@, Json::Int(l.max_nodes as int)),
            ("maxEdges"@, Json::Int(l.max_edges as int)),
            ("timeoutMs"@, Json::Int(l.timeout_ms as int)),
            ("network"@, jstr(l.network@)),
        ],
    )
}

/// The JSON form of a manifest, whose canonical bytes are hashed.
pub open spec fn manifest_json(m: ManifestV1) -> Json {
    Json::Object(
        seq![
            ("version"@, jstr(m.version@)),
            ("name"@, jstr(m.name@)),
            ("schemas"@, Json::Array(m.schemas@.map_values(|r: SchemaRefV1| schema_ref_json(r)))),
            ("inputs"@, Json::Array(items_view(m.inputs@))),
            ("outputs"@, Json::Array(items_view(m.outputs@))),
            ("plugins"@, Json::Array(items_view(m.plugins@))),
            ("limits"@, limits_json(m.limits)),
            ("labels"@, Json::Object(m.labels@.map_values(|p: (String, String)| (p.0@, jstr(p.1@))))),
        ],
    )
}

/// Hash of the canonical bytes of a JSON form.
pub open spec fn json_hash_hex(j: Json) -> Seq<char> {
    hex_of(sha256_of(utf8_of(enc(j))))
}

/// Whether a JSON form has canonical bytes under the depth cap.
pub open spec fn encodable(j: Json) -> bool {
    depth_ok(j, MAX_JSON_DEPTH as int) && keys_ok(j)
}

fn key(s: &str) -> (r: String)
    ensures
        r@ == s@,
{
    String::from_str(s)
}

fn jstr_exec(s: &String) -> (r: JsonValue)
    ensures
        r@ == jstr(s@),
{
    JsonValue::Str(s.clone())
}

fn entity_to_json(e: &EntityV1) -> (r: JsonValue)
    ensures
        r@ == entity_json(*e),
{
    let r = JsonValue::Object(
        vec![
            (key("id"), jstr_exec(&e.id)),
            (key("type"), jstr_exec(&e.entity_type)),
            (key("name"), jstr_exec(&e.name)),
            (key("attrs"), json_clone(&e.attrs)),
        ],
    );
    proof {
        lemma_view_object(r);
        assert(entries_view(r->Object_0@) =~= entity_json(*e)->Object_0);
    }
    r
}

fn edge_to_json(e: &EdgeV1) -> (r: JsonValue)
    ensures
        r@ == edge_json(*e),
{
    let r = JsonValue::Object(
        vec![
            (key("id"), jstr_exec(&e.id)),
            (key("type"), jstr_exec(&e.edge_type)),
            (key("from"), jstr_exec(&e.from)),
            (key("to"), jstr_exec(&e.to)),
            (key("attrs"), json_clone(&e.attrs)),
        ],
    );
    proof {
        lemma_view_object(r);
        assert(entries_view(r->Object_0@) =~= edge_json(*e)->Object_0);
    }
    r
}

fn entities_to_json(v: &Vec<EntityV1>) -> (r: JsonValue)
    ensures
        r@ == Json::Array(v@.map_values(|e: EntityV1| entity_json(e))),
{
    let mut out: Vec<JsonValue> = Vec::new();
    let mut k: usize = 0;
    while k < v.len()
        invariant
            k <= v@.len(),
            out@.len() == k,
            forall|j: int| 0 <= j < k ==> (#[trigger] out@[j])@ == entity_json(v@[j]),
        decreases v@.len() - k,
    {
        out.push(entity_to_json(&v[k]));
        k = k + 1;
    }
    let r = JsonValue::Array(out);
    proof {
        lemma_view_array(r);
        assert(items_view(out@) =~= v@.map_values(|e: EntityV1| entity_json(e)));
    }
    r
}

fn edges_to_json(v: &Vec<EdgeV1>) -> (r: JsonValue)
    ensures
        r@ == Json::Array(v@.map_values(|e: EdgeV1| edge_json(e))),
{
    let mut out: Vec<JsonValue> = Vec::new();
    let mut k: usize = 0;
    while k < v.len()
        invariant
            k <= v@.len(),
            out@.len() == k,
            forall|j: int| 0 <= j < k ==> (#[trigger] out@[j])@ == edge_json(v@[j]),
        decreases v@.len() - k,
    {
        out.push(edge_to_json(&v[k]));
        k = k + 1;
    }
    let r = JsonValue::Array(out);
    proof {
        lemma_view_array(r);
        assert(items_view(out@) =~= v@.map_values(|e: EdgeV1| edge_json(e)));
    }
    r
}

fn values_to_json(v: &Vec<JsonValue>) -> (r: JsonValue)
    ensures
        r@ == Json::Array(items_view(v@)),
{
    let mut out: Vec<JsonValue> = Vec::new();
    let mut k: usize = 0;
    while k < v.len()
        invariant
            k <= v@.len(),
            out@.len() == k,
            forall|j: int| 0 <= j < k ==> (#[trigger] out@[j])@ == v@[j]@,
        decreases v@.len() - k,
    {
        out.push(json_clone(&v[k]));
        k = k + 1;
    }
    let r = JsonValue::Array(out);
    proof {
        lemma_view_array(r);
        assert(items_view(out@) =~= items_view(v@));
    }
    r
}

/// The JSON form of a schema.
pub fn schema_to_json(s: &SchemaV1) -> (r: JsonValue)
    ensures
        r@ == schema_json(*s),
{
    let r = JsonValue::Object(
        vec![
            (key("version"), jstr_exec(&s.version)),
            (key("kind"), jstr_exec(&s.kind)),
            (key("meta"), json_clone(&s.meta)),
            (key("entities"), entities_to_json(&s.entities)),
            (key("edges"), edges_to_json(&s.edges)),
        ],
    );
    proof {
        lemma_view_object(r);
        assert(entries_view(r->Object_0@) =~= schema_json(*s)->Object_0);
    }
    r
}

/// The JSON form of a manifest.
pub fn manifest_to_json(m: &ManifestV1) -> (r: JsonValue)
    ensures
        r@ == manifest_json(*m),
{
    let mut refs: Vec<JsonValue> = Vec::new();
    let mut k: usize = 0;
    while k < m.schemas.len()
        invariant
            k <= m.schemas@.len(),
            refs@.len() == k,
            forall|j: int| 0 <= j < k ==> (#[trigger] refs@[j])@ == schema_ref_json(m.schemas@[j]),
        decreases m.schemas@.len() - k,
    {
        let o = JsonValue::Object(
            vec![(key("name"), jstr_exec(&m.schemas[k].name)), (key("digest"), jstr_exec(&m.schemas[k].digest))],
        );
        proof {
            lemma_view_object(o);
            assert(entries_view(o->Object_0@) =~= schema_ref_json(m.schemas@[k as int])->Object_0);
        }
        refs.push(o);
        k = k + 1;
    }
    let schemas = JsonValue::Array(refs);
    proof {
        lemma_view_array(schemas);
        assert(items_view(refs@) =~= m.schemas@.map_values(|r: SchemaRefV1| schema_ref_json(r)));
    }
    let mut labels: Vec<(String, JsonValue)> = Vec::new();
    let mut k: usize = 0;
    while k < m.labels.len()
        invariant
            k <= m.labels@.len(),
            labels@.len() == k,
            forall|j: int| 0 <= j < k ==> (#[trigger] labels@[j]).0@ == m.labels@[j].0@ && labels@[j].1@ == jstr(m.labels@[j].1@),
        decreases m.labels@.len() - k,
    {
        labels.push((m.labels[k].0.clone(), jstr_exec(&m.labels[k].1)));
        k = k + 1;
    }
    let labels_json = JsonValue::Object(labels);
    proof {
        lemma_view_object(labels_json);
        assert(entries_view(labels@) =~= m.labels@.map_values(|p: (String, String)| (p.0@, jstr(p.1@))));
    }
    let l = &m.limits;
    let limits = JsonValue::Object(
        vec![
            (key("maxFiles"), JsonValue::Int(l.max_files as i128)),
            (key("maxBytes"), JsonValue::Int(l.max_bytes as i128)),
            (key("maxNodes"), JsonValue::Int(l.max_nodes as i128)),
            (key("maxEdges"), JsonValue::Int(l.max_edges as i128)),
            (key("timeoutMs"), JsonValue::Int(l.timeout_ms as i128)),
            (key("network"), jstr_exec(&l.network)),
        ],
    );
    proof {
        lemma_view_object(limits);
        assert(entries_view(limits->Object_0@) =~= limits_json(m.limits)->Object_0);
    }
    let r = JsonValue::Object(
        vec![
            (key("version"), jstr_exec(&m.version)),
            (key("name"), jstr_exec(&m.name)),
            (key("schemas"), schemas),
            (key("inputs"), values_to_json(&m.inputs)),
            (key("outputs"), values_to_json(&m.outputs)),
            (key("plugins"), values_to_json(&m.plugins)),
            (key("limits"), limits),
            (key("labels"), labels_json),
        ],
    );
    proof {
        lemma_view_object(r);
        assert(entries_view(r->Object_0@) =~= manifest_json(*m)->Object_0);
    }
    r
}

/// Hex SHA-256 of the canonical bytes of the schema.
pub fn hash_schema_v1_hex(s: &SchemaV1) -> (r: Result<String, SigniaError>)
    ensures
        r is Ok <==> encodable(schema_json(*s)),
        r is Ok ==> r->Ok_0@ == json_hash_hex(schema_json(*s)),
{
    let j = schema_to_json(s);
    match canonical_hash_hex(&j, MAX_JSON_DEPTH) {
        Ok(h) => Ok(h),
        Err(e) => Err(e.to_error()),
    }
}

/// Hex SHA-256 of the canonical bytes of the manifest.
pub fn hash_manifest_v1_hex(m: &ManifestV1) -> (r: Result<String, SigniaError>)
    ensures
        r is Ok <==> encodable(manifest_json(*m)),
        r is Ok ==> r->Ok_0@ == json_hash_hex(manifest_json(*m)),
{
    let j = manifest_to_json(m);
    match canonical_hash_hex(&j, MAX_JSON_DEPTH) {
        Ok(h) => Ok(h),
        Err(e) => Err(e.to_error()),
    }
}

} // verus!
