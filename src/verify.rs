use vstd::prelude::*;
use crate::canonical::{lemma_sorted_pairs_determined, pv, sort_pairs};
use crate::error::{ErrorKind, SigniaError};
use crate::hashing::{
    hex_bytes, hex_of, is_hex, leaf_hash, merkle_leaf, merkle_node, node_hash, from_hex, to_hex,
};
use crate::json::{has_key, json_has_key, key_lt, lemma_key_lt_irrefl, same_elems, sorted_pairs,
    strictly_sorted, utf8_bytes, utf8_of, Json};
use crate::merkle::{merkle_root, merkle_root_spec, views};
use crate::model::{
    hash_manifest_v1_hex, hash_schema_v1_hex, json_hash_hex, manifest_json, schema_json,
    encodable, InclusionProofV1, LeafV1, ManifestV1, ProofV1, SchemaV1, SiblingV1,
};
use crate::strs::{chars_of, is_blank, str_eq, string_of, trim_spec};

verus! {

/// Severity of a finding.
#[derive(Debug, Clone, Copy, PartialEq, Eq, Structural)]
pub enum VerifyLevel {
    Info,
    Warning,
    Error,
}

/// A structured verification finding with a stable code.
#[derive(Debug, Clone)]
pub struct VerifyFinding {
    pub level: VerifyLevel,
    pub code: String,
    pub message: String,
    pub data: Vec<(String, String)>,
}

/// The artifacts of one compile.
#[derive(Debug)]
pub struct VerifyBundle {
    pub schema: SchemaV1,
    pub manifest: ManifestV1,
    pub proof: Option<ProofV1>,
}

/// Which checks beyond structure and hashes are required.
#[derive(Debug, Clone, Copy)]
pub struct VerifyOptions {
    pub require_proof: bool,
    pub validate_inclusions: bool,
    pub require_manifest_binding: bool,
}

impl Default for VerifyOptions {
    fn default() -> (r: Self)
        ensures
            r.require_proof && r.validate_inclusions && r.require_manifest_binding,
    {
        VerifyOptions { require_proof: true, validate_inclusions: true, require_manifest_binding: true }
    }
}

/// Outcome of a verification.
#[derive(Debug)]
pub struct VerifyReport {
    pub ok: bool,
    pub findings: Vec<VerifyFinding>,
    pub schema_hash_hex: Option<String>,
    pub manifest_hash_hex: Option<String>,
    pub proof_root_hex: Option<String>,
}

pub open spec fn has_error(f: Seq<VerifyFinding>) -> bool {
    exists|i: int| 0 <= i < f.len() && (#[trigger] f[i]).level == VerifyLevel::Error
}

/// `b` starts with `a`.
pub open spec fn extends<A>(a: Seq<A>, b: Seq<A>) -> bool {
    b.len() >= a.len() && forall|i: int| 0 <= i < a.len() ==> #[trigger] b[i] == a[i]
}

/// Codes of schema findings start with `s`.
pub open spec fn schema_code(c: Seq<char>) -> bool {
    c.len() > 0 && c[0] == 's'
}

/// Codes of manifest findings start with `manifest.` but not `manifest.b`.
pub open spec fn manifest_code(c: Seq<char>) -> bool {
    c.len() > 9 && c[0] == 'm' && c[9] != 'b'
}

/// Every finding with the code is an Error.
pub open spec fn only_errors(f: Seq<VerifyFinding>, c: Seq<char>) -> bool {
    forall|i: int| 0 <= i < f.len() && (#[trigger] f[i]).code@ == c ==> f[i].level == VerifyLevel::Error
}

proof fn lemma_absent_only(f: Seq<VerifyFinding>, c: Seq<char>)
    requires
        !has_code(f, c),
    ensures
        only_errors(f, c),
{
    assert forall|i: int| 0 <= i < f.len() && (#[trigger] f[i]).code@ == c implies f[i].level == VerifyLevel::Error by {
        assert(has_code(f, c));
    }
}

proof fn lemma_error_code(f: Seq<VerifyFinding>, c: Seq<char>)
    requires
        only_errors(f, c),
    ensures
        has_error_code(f, c) == has_code(f, c),
{
    if has_code(f, c) {
        let i = choose|i: int| 0 <= i < f.len() && (#[trigger] f[i]).code@ == c;
        assert(f[i].level == VerifyLevel::Error);
    }
}

/// Some Error finding carries the code.
pub open spec fn has_error_code(f: Seq<VerifyFinding>, c: Seq<char>) -> bool {
    exists|i: int| 0 <= i < f.len() && (#[trigger] f[i]).code@ == c && f[i].level == VerifyLevel::Error
}

pub const BIND: &'static str = "manifest.binding.missing";
pub const PMISS: &'static str = "proof.missing";
pub const INCL: &'static str = "proof.inclusion.invalid";

pub open spec fn has_code(f: Seq<VerifyFinding>, c: Seq<char>) -> bool {
    exists|i: int| 0 <= i < f.len() && (#[trigger] f[i]).code@ == c
}

pub proof fn lemma_has_error_push(f: Seq<VerifyFinding>, x: VerifyFinding)
    ensures
        has_error(f.push(x)) == (has_error(f) || x.level == VerifyLevel::Error),
        has_code(f.push(x), x.code@),
        forall|c: Seq<char>| has_code(f, c) ==> #[trigger] has_code(f.push(x), c),
{
    if has_error(f) {
        let i = choose|i: int| 0 <= i < f.len() && (#[trigger] f[i]).level == VerifyLevel::Error;
        assert(f.push(x)[i] == f[i]);
    }
    if has_error(f.push(x)) && x.level != VerifyLevel::Error {
        let i = choose|i: int| 0 <= i < f.push(x).len() && (#[trigger] f.push(x)[i]).level == VerifyLevel::Error;
        assert(f[i] == f.push(x)[i]);
    }
    assert(f.push(x)[f.len() as int] == x);
    assert forall|c: Seq<char>| has_code(f, c) implies #[trigger] has_code(f.push(x), c) by {
        let i = choose|i: int| 0 <= i < f.len() && (#[trigger] f[i]).code@ == c;
        assert(f.push(x)[i] == f[i]);
    }
}

impl VerifyReport {
    pub fn has_errors(&self) -> (r: bool)
        ensures
            r == has_error(self.findings@),
    {
        let mut i: usize = 0;
        while i < self.findings.len()
            invariant
                i <= self.findings@.len(),
                forall|j: int| 0 <= j < i ==> (#[trigger] self.findings@[j]).level != VerifyLevel::Error,
            decreases self.findings@.len() - i,
        {
            if self.findings[i].level == VerifyLevel::Error {
                return true;
            }
            i = i + 1;
        }
        false
    }
}

/// Appends a finding with no data.
pub fn push(findings: &mut Vec<VerifyFinding>, level: VerifyLevel, code: &str, message: &str)
    ensures
        final(findings)@.len() == old(findings)@.len() + 1,
        final(findings)@.drop_last() == old(findings)@,
        final(findings)@.last().level == level,
        final(findings)@.last().code@ == code@,
        final(findings)@.last().message@ == message@,
        has_error(final(findings)@) == (has_error(old(findings)@) || level == VerifyLevel::Error),
        has_code(final(findings)@, code@),
        forall|c: Seq<char>| has_code(old(findings)@, c) ==> #[trigger] has_code(final(findings)@, c),
        forall|c: Seq<char>| #[trigger] has_code(final(findings)@, c) == (has_code(old(findings)@, c) || c == code@),
        extends(old(findings)@, final(findings)@),
        forall|c: Seq<char>| only_errors(old(findings)@, c) && (c == code@ ==> level == VerifyLevel::Error) ==> #[trigger] only_errors(final(findings)@, c),
        forall|n: int| 0 <= n <= old(findings)@.len() ==> #[trigger] has_error(final(findings)@.subrange(n, final(findings)@.len() as int))
            == (has_error(old(findings)@.subrange(n, old(findings)@.len() as int)) || level == VerifyLevel::Error),
{
    let f = VerifyFinding {
        level,
        code: String::from_str(code),
        message: String::from_str(message),
        data: Vec::new(),
    };
    proof {
        lemma_has_error_push(findings@, f);
    }
    let ghost o = findings@;
    findings.push(f);
    assert(findings@.drop_last() =~= old(findings)@);
    assert forall|c: Seq<char>| only_errors(o, c) && (c == code@ ==> level == VerifyLevel::Error) implies #[trigger] only_errors(findings@, c) by {
        assert forall|i: int| 0 <= i < findings@.len() && (#[trigger] findings@[i]).code@ == c implies findings@[i].level == VerifyLevel::Error by {
            if i < o.len() {
                assert(findings@[i] == o[i]);
            }
        }
    }
    assert forall|c: Seq<char>| #[trigger] has_code(findings@, c) == (has_code(o, c) || c == code@) by {
        if has_code(findings@, c) {
            let i = choose|i: int| 0 <= i < findings@.len() && (#[trigger] findings@[i]).code@ == c;
            if i < o.len() {
                assert(o[i] == findings@[i]);
            }
        }
        if has_code(o, c) {
            let i = choose|i: int| 0 <= i < o.len() && (#[trigger] o[i]).code@ == c;
            assert(findings@[i] == o[i]);
        }
    }
    assert forall|n: int| 0 <= n <= o.len() implies #[trigger] has_error(findings@.subrange(n, findings@.len() as int))
        == (has_error(o.subrange(n, o.len() as int)) || level == VerifyLevel::Error) by {
        assert(findings@.subrange(n, findings@.len() as int) =~= o.subrange(n, o.len() as int).push(f));
        lemma_has_error_push(o.subrange(n, o.len() as int), f);
    }
}


pub open spec fn blank(s: Seq<char>) -> bool {
    trim_spec(s).len() == 0
}

/// `meta` is an object holding at least `name`, `createdAt`, `source`, `normalization`.
pub open spec fn meta_ok(m: Json) -> bool {
    m is Object && has_key(m, "name"@) && has_key(m, "createdAt"@) && has_key(m, "source"@)
        && has_key(m, "normalization"@)
}

pub open spec fn entity_bad(s: SchemaV1, j: int) -> bool {
    blank(s.entities@[j].id@) || blank(s.entities@[j].entity_type@) || exists|i: int|
        0 <= i < j && (#[trigger] s.entities@[i]).id@ == s.entities@[j].id@
}

pub open spec fn entity_has_id(s: SchemaV1, id: Seq<char>) -> bool {
    exists|i: int| 0 <= i < s.entities@.len() && (#[trigger] s.entities@[i]).id@ == id
}

pub open spec fn edge_bad(s: SchemaV1, k: int) -> bool {
    blank(s.edges@[k].from@) || blank(s.edges@[k].to@) || !entity_has_id(s, s.edges@[k].from@)
        || !entity_has_id(s, s.edges@[k].to@)
}

/// Structural validity of a schema: version `v1`, a kind, the required meta
/// keys, non-blank unique entity ids with types, and edges between known,
/// non-blank entity ids.
pub open spec fn schema_struct_ok(s: SchemaV1) -> bool {
    s.version@ == "v1"@ && !blank(s.kind@) && meta_ok(s.meta@) && (forall|j: int|
        0 <= j < s.entities@.len() ==> !entity_bad(s, j)) && (forall|k: int|
        0 <= k < s.edges@.len() ==> !edge_bad(s, k))
}

/// Structural validity of a manifest: version `v1` and a name.
pub open spec fn manifest_struct_ok(m: ManifestV1) -> bool {
    m.version@ == "v1"@ && !blank(m.name@)
}

fn schema_has_entity(s: &SchemaV1, id: &str) -> (r: bool)
    ensures
        r == entity_has_id(*s, id@),
{
    let mut i: usize = 0;
    while i < s.entities.len()
        invariant
            i <= s.entities@.len(),
            forall|j: int| 0 <= j < i ==> (#[trigger] s.entities@[j]).id@ != id@,
        decreases s.entities@.len() - i,
    {
        if str_eq(s.entities[i].id.as_str(), id) {
            return true;
        }
        i = i + 1;
    }
    false
}

/// Records an error finding for each structural defect of the schema.
fn verify_schema_structure(schema: &SchemaV1, findings: &mut Vec<VerifyFinding>) -> (r: Result<(), SigniaError>)
    ensures
        r is Ok,
        has_error(final(findings)@) == (has_error(old(findings)@) || !schema_struct_ok(*schema)),
        final(findings)@.len() >= old(findings)@.len(),
        final(findings)@.subrange(0, old(findings)@.len() as int) == old(findings)@,
        has_error(final(findings)@.subrange(old(findings)@.len() as int, final(findings)@.len() as int)) == !schema_struct_ok(*schema),
        forall|c: Seq<char>| #[trigger] has_code(final(findings)@, c) ==> has_code(old(findings)@, c) || schema_code(c),
        forall|c: Seq<char>| has_code(old(findings)@, c) ==> #[trigger] has_code(final(findings)@, c),
{
    let ghost f0 = findings@;
    let ghost n0 = f0.len() as int;
    let ghost mut bad = false;
    assert(findings@.subrange(n0, findings@.len() as int) =~= Seq::<VerifyFinding>::empty());
    if !str_eq(schema.version.as_str(), "v1") {
        proof {
            reveal_strlit("schema.version");
        }
        push(findings, VerifyLevel::Error, "schema.version", "unsupported schema version");
        proof { bad = true; }
    }
    if is_blank(schema.kind.as_str()) {
        proof {
            reveal_strlit("schema.kind");
        }
        push(findings, VerifyLevel::Error, "schema.kind", "schema.kind is empty");
        proof { bad = true; }
    }
    let m = &schema.meta;
    if !(json_has_key(m, "name") && json_has_key(m, "createdAt") && json_has_key(m, "source")
        && json_has_key(m, "normalization")) {
        if json_has_key(m, "name") || json_has_key(m, "createdAt") || json_has_key(m, "source")
            || json_has_key(m, "normalization") {
            proof {
                reveal_strlit("schema.meta.missing");
            }
            push(findings, VerifyLevel::Error, "schema.meta.missing", "schema.meta missing required key");
        } else {
            proof {
                reveal_strlit("schema.meta");
            }
            push(findings, VerifyLevel::Error, "schema.meta", "schema.meta must be an object with the required keys");
        }
        proof { bad = true; }
    }
    let ghost head_bad = bad;
    assert(head_bad == !(schema.version@ == "v1"@ && !blank(schema.kind@) && meta_ok(schema.meta@)));
    assert(has_error(findings@) == (has_error(f0) || bad));
    assert(has_error(findings@.subrange(n0, findings@.len() as int)) == bad);
    assert(extends(f0, findings@));
    let n = schema.entities.len();
    let mut j: usize = 0;
    while j < n
        invariant
            n == schema.entities@.len(),
            j <= n,
            has_error(findings@) == (has_error(f0) || bad),
            n0 == f0.len(),
            extends(f0, findings@),
            has_error(findings@.subrange(n0, findings@.len() as int)) == bad,
            forall|c: Seq<char>| #[trigger] has_code(findings@, c) ==> has_code(f0, c) || schema_code(c),
            bad == (head_bad || exists|q: int| 0 <= q < j && entity_bad(*schema, q)),
            forall|c: Seq<char>| has_code(f0, c) ==> #[trigger] has_code(findings@, c),
        decreases n - j,
    {
        let e = &schema.entities[j];
        let ghost before = bad;
        if is_blank(e.id.as_str()) {
            proof {
                reveal_strlit("schema.entity.id");
            }
            push(findings, VerifyLevel::Error, "schema.entity.id", "entity id is empty");
        }
        let mut i: usize = 0;
        let mut dup = false;
        while i < j
            invariant
                j < n,
                n == schema.entities@.len(),
                i <= j,
                dup == exists|q: int| 0 <= q < i && (#[trigger] schema.entities@[q]).id@ == schema.entities@[j as int].id@,
            decreases j - i,
        {
            if str_eq(schema.entities[i].id.as_str(), schema.entities[j].id.as_str()) {
                dup = true;
            }
            i = i + 1;
        }
        if dup {
            proof {
                reveal_strlit("schema.entity.id.duplicate");
            }
            push(findings, VerifyLevel::Error, "schema.entity.id.duplicate", "duplicate entity id");
        }
        if is_blank(e.entity_type.as_str()) {
            proof {
                reveal_strlit("schema.entity.type");
            }
            push(findings, VerifyLevel::Error, "schema.entity.type", "entity type is empty");
        }
        proof {
            bad = before || entity_bad(*schema, j as int);
            if entity_bad(*schema, j as int) {
                assert(exists|q: int| 0 <= q < j + 1 && entity_bad(*schema, q));
            }
            if exists|q: int| 0 <= q < j + 1 && entity_bad(*schema, q) {
                let q = choose|q: int| 0 <= q < j + 1 && entity_bad(*schema, q);
                if q < j {
                    assert(exists|q: int| 0 <= q < j && entity_bad(*schema, q));
                }
            }
        }
        j = j + 1;
    }
    let ghost mid_bad = bad;
    let m2 = schema.edges.len();
    let mut k: usize = 0;
    while k < m2
        invariant
            m2 == schema.edges@.len(),
            k <= m2,
            has_error(findings@) == (has_error(f0) || bad),
            n0 == f0.len(),
            extends(f0, findings@),
            has_error(findings@.subrange(n0, findings@.len() as int)) == bad,
            forall|c: Seq<char>| #[trigger] has_code(findings@, c) ==> has_code(f0, c) || schema_code(c),
            bad == (mid_bad || exists|q: int| 0 <= q < k && edge_bad(*schema, q)),
            mid_bad == (head_bad || exists|q: int| 0 <= q < schema.entities@.len() && entity_bad(*schema, q)),
            forall|c: Seq<char>| has_code(f0, c) ==> #[trigger] has_code(findings@, c),
        decreases m2 - k,
    {
        let ed = &schema.edges[k];
        let ghost before = bad;
        if is_blank(ed.from.as_str()) || is_blank(ed.to.as_str()) {
            proof {
                reveal_strlit("schema.edge.refs");
            }
            push(findings, VerifyLevel::Error, "schema.edge.refs", "edge refs empty");
        }
        if !schema_has_entity(schema, ed.from.as_str()) {
            proof {
                reveal_strlit("schema.edge.from.unknown");
            }
            push(findings, VerifyLevel::Error, "schema.edge.from.unknown", "edge.from refers to unknown entity");
        }
        if !schema_has_entity(schema, ed.to.as_str()) {
            proof {
                reveal_strlit("schema.edge.to.unknown");
            }
            push(findings, VerifyLevel::Error, "schema.edge.to.unknown", "edge.to refers to unknown entity");
        }
        proof {
            bad = before || edge_bad(*schema, k as int);
            if edge_bad(*schema, k as int) {
                assert(exists|q: int| 0 <= q < k + 1 && edge_bad(*schema, q));
            }
            if exists|q: int| 0 <= q < k + 1 && edge_bad(*schema, q) {
                let q = choose|q: int| 0 <= q < k + 1 && edge_bad(*schema, q);
                if q < k {
                    assert(exists|q: int| 0 <= q < k && edge_bad(*schema, q));
                }
            }
        }
        k = k + 1;
    }
    assert(findings@.subrange(0, n0) =~= f0);
    Ok(())
}

/// Records an error finding for each structural defect of the manifest, and
/// warnings for zero limits.
fn verify_manifest_structure(manifest: &ManifestV1, findings: &mut Vec<VerifyFinding>) -> (r: Result<(), SigniaError>)
    ensures
        r is Ok,
        has_error(final(findings)@) == (has_error(old(findings)@) || !manifest_struct_ok(*manifest)),
        final(findings)@.len() >= old(findings)@.len(),
        final(findings)@.subrange(0, old(findings)@.len() as int) == old(findings)@,
        has_error(final(findings)@.subrange(old(findings)@.len() as int, final(findings)@.len() as int)) == !manifest_struct_ok(*manifest),
        forall|c: Seq<char>| #[trigger] has_code(final(findings)@, c) ==> has_code(old(findings)@, c) || manifest_code(c),
        forall|c: Seq<char>| has_code(old(findings)@, c) ==> #[trigger] has_code(final(findings)@, c),
{
    let ghost f0 = findings@;
    let ghost n0 = f0.len() as int;
    assert(findings@.subrange(n0, findings@.len() as int) =~= Seq::<VerifyFinding>::empty());
    if !str_eq(manifest.version.as_str(), "v1") {
        proof {
            reveal_strlit("manifest.version");
        }
        push(findings, VerifyLevel::Error, "manifest.version", "unsupported manifest version");
    }
    if is_blank(manifest.name.as_str()) {
        proof {
            reveal_strlit("manifest.name");
        }
        push(findings, VerifyLevel::Error, "manifest.name", "manifest.name is empty");
    }
    if manifest.limits.max_files == 0 {
        proof {
            reveal_strlit("manifest.limits.maxFiles");
        }
        push(findings, VerifyLevel::Warning, "manifest.limits.maxFiles", "maxFiles is 0");
    }
    if manifest.limits.timeout_ms == 0 {
        proof {
            reveal_strlit("manifest.limits.timeoutMs");
        }
        push(findings, VerifyLevel::Warning, "manifest.limits.timeoutMs", "timeoutMs is 0");
    }
    assert(findings@.subrange(0, n0) =~= f0);
    Ok(())
}

/// A leaf as its key and value texts.
pub open spec fn leaf_pairs(l: Seq<LeafV1>) -> Seq<(Seq<char>, Seq<char>)> {
    l.map_values(|x: LeafV1| (x.key@, x.value@))
}

/// Merkle payload of a leaf: UTF-8 of `key=value`.
pub open spec fn payload_of(p: (Seq<char>, Seq<char>)) -> Seq<u8> {
    utf8_of(p.0 + seq!['='] + p.1)
}

/// Leaves can be committed: keys are distinct and hold no `=`.
pub open spec fn leaves_ok(l: Seq<LeafV1>) -> bool {
    (forall|i: int, j: int| 0 <= i < j < l.len() ==> (#[trigger] l[i]).key@ != (#[trigger] l[j]).key@)
        && (forall|i: int| 0 <= i < l.len() ==> !(#[trigger] l[i]).key@.contains('='))
}

/// Root over the leaves taken in ascending key order.
pub open spec fn leaves_root(p: Seq<(Seq<char>, Seq<char>)>) -> Seq<u8> {
    merkle_root_spec(sorted_pairs(p).map_values(|x: (Seq<char>, Seq<char>)| payload_of(x)))
}

pub open spec fn proof_root_spec(l: Seq<LeafV1>) -> Seq<u8> {
    leaves_root(leaf_pairs(l))
}

/// Merkle determinism: leaves supplied in any order give the same root once
/// sorted by key.
pub proof fn lemma_root_independent_of_order(a: Seq<LeafV1>, b: Seq<LeafV1>)
    requires
        leaf_pairs(a).to_multiset() == leaf_pairs(b).to_multiset(),
    ensures
        proof_root_spec(a) == proof_root_spec(b),
{
    let pa = leaf_pairs(a);
    let pb = leaf_pairs(b);
    pa.to_multiset_ensures();
    pb.to_multiset_ensures();
    assert forall|x: (Seq<char>, Seq<char>)| pa.to_set().contains(x) == pb.to_set().contains(x) by {
        assert(pa.to_set().contains(x) == pa.contains(x));
        assert(pb.to_set().contains(x) == pb.contains(x));
        assert(pa.contains(x) == (pa.to_multiset().count(x) > 0));
        assert(pb.contains(x) == (pb.to_multiset().count(x) > 0));
    }
    assert(pa.to_set() =~= pb.to_set());
}

fn has_equals(s: &str) -> (r: bool)
    ensures
        r == s@.contains('='),
{
    let v = chars_of(s);
    let mut i: usize = 0;
    while i < v.len()
        invariant
            i <= v@.len(),
            v@ == s@,
            forall|j: int| 0 <= j < i ==> v@[j] != '=',
        decreases v@.len() - i,
    {
        if v[i] == '=' {
            assert(s@[i as int] == '=');
            return true;
        }
        i = i + 1;
    }
    false
}

fn check_leaves(l: &Vec<LeafV1>) -> (r: bool)
    ensures
        r == leaves_ok(l@),
{
    let n = l.len();
    let mut i: usize = 0;
    while i < n
        invariant
            n == l@.len(),
            i <= n,
            forall|a: int| 0 <= a < i ==> !(#[trigger] l@[a]).key@.contains('='),
            forall|a: int, b: int| 0 <= a < b < n && a < i ==> (#[trigger] l@[a]).key@ != (#[trigger] l@[b]).key@,
        decreases n - i,
    {
        if has_equals(l[i].key.as_str()) {
            return false;
        }
        let mut j: usize = i + 1;
        while j < n
            invariant
                n == l@.len(),
                i < j <= n,
                forall|b: int| i < b < j ==> l@[i as int].key@ != (#[trigger] l@[b]).key@,
            decreases n - j,
        {
            if str_eq(l[i].key.as_str(), l[j].key.as_str()) {
                return false;
            }
            j = j + 1;
        }
        i = i + 1;
    }
    true
}

/// UTF-8 bytes of `key=value`.
fn leaf_payload(k: &Vec<char>, v: &Vec<char>) -> (r: Vec<u8>)
    ensures
        r@ == payload_of((k@, v@)),
{
    let mut buf: Vec<char> = Vec::new();
    let mut i: usize = 0;
    while i < k.len()
        invariant
            i <= k@.len(),
            buf@ == k@.subrange(0, i as int),
        decreases k@.len() - i,
    {
        buf.push(k[i]);
        i = i + 1;
    }
    buf.push('=');
    let mut i: usize = 0;
    while i < v.len()
        invariant
            i <= v@.len(),
            buf@ == k@ + seq!['='] + v@.subrange(0, i as int),
        decreases v@.len() - i,
    {
        buf.push(v[i]);
        i = i + 1;
    }
    assert(buf@ =~= k@ + seq!['='] + v@);
    let s = string_of(buf.as_slice());
    utf8_bytes(s.as_str())
}

/// Recomputes the root over the proof's leaves, sorted by key; each payload
/// is `key=value`. Fails unless the algorithm is `sha256`, and on leaves with
/// a repeated key or a key holding `=`.
pub fn recompute_proof_root_hex(proof: &ProofV1) -> (r: Result<String, SigniaError>)
    ensures
        r is Ok <==> (proof.hash_alg@ == "sha256"@ && leaves_ok(proof.leaves@)),
        r is Ok ==> r->Ok_0@ == hex_of(proof_root_spec(proof.leaves@)),
{
    if !str_eq(proof.hash_alg.as_str(), "sha256") {
        return Err(SigniaError::with_detail(ErrorKind::InvalidArgument, "unsupported hash algorithm: ", proof.hash_alg.as_str()));
    }
    if !check_leaves(&proof.leaves) {
        return Err(SigniaError::invalid_argument("proof leaves must have distinct keys without '='"));
    }
    let l = &proof.leaves;
    let ghost lp = leaf_pairs(l@);
    let mut pairs: Vec<(Vec<char>, Vec<char>)> = Vec::new();
    let mut i: usize = 0;
    while i < l.len()
        invariant
            i <= l@.len(),
            lp == leaf_pairs(l@),
            pv(pairs@) == lp.subrange(0, i as int),
        decreases l@.len() - i,
    {
        let ghost pp = pairs@;
        pairs.push((chars_of(l[i].key.as_str()), chars_of(l[i].value.as_str())));
        assert(pv(pairs@) =~= pv(pp).push(lp[i as int]));
        assert(lp.subrange(0, i + 1) =~= lp.subrange(0, i as int).push(lp[i as int]));
        i = i + 1;
    }
    proof {
        assert(lp.subrange(0, l@.len() as int) =~= lp);
        assert forall|a: int, b: int| 0 <= a < b < pairs@.len() implies (#[trigger] pairs@[a]).0@ != (#[trigger] pairs@[b]).0@ by {
            assert(pv(pairs@)[a] == lp[a] && pv(pairs@)[b] == lp[b]);
        }
    }
    let sorted = sort_pairs(pairs);
    proof {
        lemma_sorted_pairs_determined(lp, pv(sorted@));
    }
    let ghost sp = pv(sorted@);
    let mut payloads: Vec<Vec<u8>> = Vec::new();
    let mut k: usize = 0;
    while k < sorted.len()
        invariant
            k <= sorted@.len(),
            sp == pv(sorted@),
            payloads@.len() == k,
            forall|j: int| 0 <= j < k ==> (#[trigger] payloads@[j])@ == payload_of(sp[j]),
        decreases sorted@.len() - k,
    {
        payloads.push(leaf_payload(&sorted[k].0, &sorted[k].1));
        k = k + 1;
    }
    assert(views(payloads@) =~= sp.map_values(|x: (Seq<char>, Seq<char>)| payload_of(x)));
    let root = merkle_root(&payloads);
    Ok(to_hex(root.as_slice()))
}

/// Folds siblings onto a hash; `None` on a side other than `left`/`right` or
/// a sibling hash that is not hex.
pub open spec fn fold_sides(h: Seq<u8>, sibs: Seq<SiblingV1>) -> Option<Seq<u8>>
    decreases sibs.len(),
{
    if sibs.len() == 0 {
        Some(h)
    } else {
        let s = sibs[0];
        if s.side@ != "left"@ && s.side@ != "right"@ {
            None
        } else if !is_hex(s.hash@) {
            None
        } else {
            let nh = if s.side@ == "left"@ {
                node_hash(hex_bytes(s.hash@), h)
            } else {
                node_hash(h, hex_bytes(s.hash@))
            };
            fold_sides(nh, sibs.drop_first())
        }
    }
}

pub open spec fn leaf_present(p: ProofV1, inc: InclusionProofV1) -> bool {
    exists|i: int| 0 <= i < p.leaves@.len() && (#[trigger] p.leaves@[i]).key@ == inc.key@ && p.leaves@[i].value@ == inc.value@
}

/// An inclusion proof holds: its leaf is among the proof's leaves, and the
/// siblings fold its leaf hash to the proof's root.
pub open spec fn inclusion_ok(p: ProofV1, inc: InclusionProofV1) -> bool {
    leaf_present(p, inc) && p.hash_alg@ == "sha256"@ && match fold_sides(leaf_hash(payload_of((inc.key@, inc.value@))), inc.siblings@) {
        Some(h) => hex_of(h) == p.root@,
        None => false,
    }
}

/// Verifies one inclusion proof against the proof's root.
pub fn verify_inclusion(proof: &ProofV1, inc: &InclusionProofV1) -> (r: Result<(), SigniaError>)
    ensures
        r is Ok <==> inclusion_ok(*proof, *inc),
{
    let mut found = false;
    let mut i: usize = 0;
    while i < proof.leaves.len()
        invariant
            i <= proof.leaves@.len(),
            found == exists|j: int| 0 <= j < i && (#[trigger] proof.leaves@[j]).key@ == inc.key@ && proof.leaves@[j].value@ == inc.value@,
        decreases proof.leaves@.len() - i,
    {
        if str_eq(proof.leaves[i].key.as_str(), inc.key.as_str()) && str_eq(proof.leaves[i].value.as_str(), inc.value.as_str()) {
            found = true;
        }
        i = i + 1;
    }
    if !found {
        return Err(SigniaError::invalid_argument("inclusion leaf not present in proof"));
    }
    if !str_eq(proof.hash_alg.as_str(), "sha256") {
        return Err(SigniaError::invalid_argument("unsupported hash algorithm"));
    }
    let payload = leaf_payload(&chars_of(inc.key.as_str()), &chars_of(inc.value.as_str()));
    let mut h = merkle_leaf(payload.as_slice());
    let ghost h0 = h@;
    let sibs = &inc.siblings;
    let mut k: usize = 0;
    assert(sibs@.subrange(0, sibs@.len() as int) =~= sibs@);
    while k < sibs.len()
        invariant
            k <= sibs@.len(),
            sibs@ == inc.siblings@,
            h0 == leaf_hash(payload_of((inc.key@, inc.value@))),
            fold_sides(h0, sibs@) == fold_sides(h@, sibs@.subrange(k as int, sibs@.len() as int)),
        decreases sibs@.len() - k,
    {
        let ghost rest = sibs@.subrange(k as int, sibs@.len() as int);
        assert(rest.drop_first() =~= sibs@.subrange(k + 1, sibs@.len() as int));
        assert(rest[0] == sibs@[k as int]);
        let s = &sibs[k];
        let left = str_eq(s.side.as_str(), "left");
        if !left && !str_eq(s.side.as_str(), "right") {
            return Err(SigniaError::invalid_argument("sibling.side must be left or right"));
        }
        let sib = match from_hex(s.hash.as_str()) {
            Some(b) => b,
            None => { return Err(SigniaError::invalid_argument("invalid sibling hex")); },
        };
        h = if left {
            merkle_node(sib.as_slice(), h.as_slice())
        } else {
            merkle_node(h.as_slice(), sib.as_slice())
        };
        k = k + 1;
    }
    assert(sibs@.subrange(k as int, sibs@.len() as int) =~= Seq::<SiblingV1>::empty());
    let hx = to_hex(h.as_slice());
    if !str_eq(hx.as_str(), proof.root.as_str()) {
        return Err(SigniaError::invariant_violation("inclusion proof root mismatch"));
    }
    Ok(())
}

/// The value of the last leaf with key `k`.
pub open spec fn leaf_lookup(l: Seq<LeafV1>, k: Seq<char>) -> Option<Seq<char>>
    decreases l.len(),
{
    if l.len() == 0 {
        None
    } else if l.last().key@ == k {
        Some(l.last().value@)
    } else {
        leaf_lookup(l.drop_last(), k)
    }
}

fn leaf_is(l: &Vec<LeafV1>, k: &str, h: &str) -> (r: bool)
    ensures
        r == (leaf_lookup(l@, k@) == Some(h@)),
{
    let mut i: usize = l.len();
    assert(l@.subrange(0, l@.len() as int) =~= l@);
    while i > 0
        invariant
            i <= l@.len(),
            leaf_lookup(l@, k@) == leaf_lookup(l@.subrange(0, i as int), k@),
        decreases i,
    {
        let ghost pre = l@.subrange(0, i as int);
        assert(pre.drop_last() =~= l@.subrange(0, i - 1));
        if str_eq(l[i - 1].key.as_str(), k) {
            return str_eq(l[i - 1].value.as_str(), h);
        }
        i = i - 1;
    }
    false
}

pub open spec fn binding_ok(m: ManifestV1, sh: Seq<char>) -> bool {
    exists|i: int| 0 <= i < m.schemas@.len() && (#[trigger] m.schemas@[i]).digest@ == sh
}

/// What a present proof must satisfy.
pub open spec fn proof_checks_ok(p: ProofV1, sh: Seq<char>, mh: Seq<char>, opts: VerifyOptions) -> bool {
    leaf_lookup(p.leaves@, "digest:schemaHash"@) == Some(sh) && leaf_lookup(p.leaves@, "digest:manifestHash"@) == Some(mh)
        && hex_of(proof_root_spec(p.leaves@)) == p.root@
        && (opts.validate_inclusions && p.inclusions is Some ==> forall|i: int|
        0 <= i < p.inclusions->0@.len() ==> inclusion_ok(p, #[trigger] p.inclusions->0@[i]))
}

/// A bundle verifies when its schema and manifest are well-formed, the
/// manifest names the schema's hash (when binding is required), a proof is
/// present (when required), and a present proof commits to both hashes under
/// its root, with valid inclusion proofs (when they are checked).
pub open spec fn bundle_ok(b: VerifyBundle, opts: VerifyOptions, sh: Seq<char>, mh: Seq<char>) -> bool {
    schema_struct_ok(b.schema) && manifest_struct_ok(b.manifest) && (opts.require_manifest_binding
        ==> binding_ok(b.manifest, sh)) && (opts.require_proof ==> b.proof is Some) && (b.proof is Some
        ==> proof_checks_ok(b.proof->0, sh, mh, opts))
}

/// The bundle can be checked at all: both forms encode, and a present proof
/// uses `sha256` over committable leaves.
pub open spec fn bundle_checkable(b: VerifyBundle) -> bool {
    encodable(schema_json(b.schema)) && encodable(manifest_json(b.manifest)) && (b.proof is Some ==> (
    b.proof->0.hash_alg@ == "sha256"@ && leaves_ok(b.proof->0.leaves@)))
}

/// Verifies a bundle. The report is `ok` exactly when `bundle_ok` holds of the
/// recomputed schema and manifest hashes; each failed check leaves an error
/// finding with its code.
pub fn verify_bundle(bundle: VerifyBundle, opts: VerifyOptions) -> (r: Result<VerifyReport, SigniaError>)
    ensures
        r is Ok <==> bundle_checkable(bundle),
        r is Ok ==> ({
            let rep = r->Ok_0;
            let sh = json_hash_hex(schema_json(bundle.schema));
            let mh = json_hash_hex(manifest_json(bundle.manifest));
            &&& rep.ok == bundle_ok(bundle, opts, sh, mh)
            &&& rep.ok == !has_error(rep.findings@)
            &&& rep.schema_hash_hex is Some && rep.schema_hash_hex->0@ == sh
            &&& rep.manifest_hash_hex is Some && rep.manifest_hash_hex->0@ == mh
            &&& (bundle.proof is Some <==> rep.proof_root_hex is Some)
            &&& (bundle.proof is Some ==> rep.proof_root_hex->0@ == hex_of(proof_root_spec(bundle.proof->0.leaves@)))
            &&& (has_error_code(rep.findings@, "manifest.binding.missing"@) <==> (opts.require_manifest_binding && !binding_ok(bundle.manifest, sh)))
            &&& (has_error_code(rep.findings@, "proof.missing"@) <==> (opts.require_proof && bundle.proof is None))
            &&& (opts.validate_inclusions && bundle.proof is Some && bundle.proof->0.inclusions is Some && (exists|i: int|
                0 <= i < bundle.proof->0.inclusions->0@.len() && !inclusion_ok(bundle.proof->0, #[trigger] bundle.proof->0.inclusions->0@[i]))
                ==> has_error_code(rep.findings@, "proof.inclusion.invalid"@))
            &&& (opts.require_manifest_binding && !binding_ok(bundle.manifest, sh) ==> has_code(rep.findings@, "manifest.binding.missing"@))
            &&& (opts.require_proof && bundle.proof is None ==> has_code(rep.findings@, "proof.missing"@))
            &&& (bundle.proof is Some && hex_of(proof_root_spec(bundle.proof->0.leaves@)) != bundle.proof->0.root@
                ==> has_code(rep.findings@, "proof.root.mismatch"@))
            &&& (bundle.proof is Some && leaf_lookup(bundle.proof->0.leaves@, "digest:schemaHash"@) != Some(sh)
                ==> has_code(rep.findings@, "proof.leaf.schemaHash.mismatch"@))
            &&& (bundle.proof is Some && leaf_lookup(bundle.proof->0.leaves@, "digest:manifestHash"@) != Some(mh)
                ==> has_code(rep.findings@, "proof.leaf.manifestHash.mismatch"@))
        }),
{
    let mut findings: Vec<VerifyFinding> = Vec::new();
    proof {
        reveal_strlit("manifest.binding.missing");
        reveal_strlit("proof.missing");
        reveal_strlit("proof.inclusion.invalid");
        assert(BIND@[0] == 'm' && BIND@[9] == 'b' && BIND@.len() > 9);
        assert(PMISS@[0] == 'p' && PMISS@.len() > 9);
        assert(INCL@[0] == 'p' && INCL@.len() > 9);
        assert(!schema_code(BIND@) && !schema_code(PMISS@) && !schema_code(INCL@));
        assert(!manifest_code(BIND@) && !manifest_code(PMISS@) && !manifest_code(INCL@));
        assert(!has_code(findings@, BIND@) && !has_code(findings@, PMISS@) && !has_code(findings@, INCL@));
    }
    verify_schema_structure(&bundle.schema, &mut findings)?;
    assert(!has_code(findings@, BIND@) && !has_code(findings@, PMISS@) && !has_code(findings@, INCL@));
    verify_manifest_structure(&bundle.manifest, &mut findings)?;
    assert(!has_code(findings@, BIND@) && !has_code(findings@, PMISS@) && !has_code(findings@, INCL@));
    let schema_hash = hash_schema_v1_hex(&bundle.schema)?;
    let manifest_hash = hash_manifest_v1_hex(&bundle.manifest)?;
    let ghost sh = schema_hash@;
    let ghost mh = manifest_hash@;
    push(&mut findings, VerifyLevel::Info, "hash.schema", "schema hash computed");
    push(&mut findings, VerifyLevel::Info, "hash.manifest", "manifest hash computed");
    let ghost struct_bad = !schema_struct_ok(bundle.schema) || !manifest_struct_ok(bundle.manifest);
    assert(has_error(findings@) == struct_bad);
    proof {
        reveal_strlit("manifest.binding.missing");
        reveal_strlit("proof.missing");
        reveal_strlit("proof.inclusion.invalid");
        reveal_strlit("hash.schema");
        reveal_strlit("hash.manifest");
        assert(!has_code(Seq::<VerifyFinding>::empty(), BIND@));
        assert(!has_code(Seq::<VerifyFinding>::empty(), PMISS@));
        assert(!has_code(Seq::<VerifyFinding>::empty(), INCL@));
        assert(!has_code(findings@, BIND@));
        assert(!has_code(findings@, PMISS@));
        assert(!has_code(findings@, INCL@));
        lemma_absent_only(findings@, BIND@);
        lemma_absent_only(findings@, PMISS@);
        lemma_absent_only(findings@, INCL@);
    }

    if opts.require_manifest_binding {
        let mut found = false;
        let mut i: usize = 0;
        while i < bundle.manifest.schemas.len()
            invariant
                i <= bundle.manifest.schemas@.len(),
                found == exists|j: int| 0 <= j < i && (#[trigger] bundle.manifest.schemas@[j]).digest@ == sh,
                sh == schema_hash@,
            decreases bundle.manifest.schemas@.len() - i,
        {
            if str_eq(bundle.manifest.schemas[i].digest.as_str(), schema_hash.as_str()) {
                found = true;
            }
            i = i + 1;
        }
        if !found {
            push(&mut findings, VerifyLevel::Error, "manifest.binding.missing", "manifest.schemas does not contain schema digest");
        }
    }
    let ghost bind_bad = struct_bad || (opts.require_manifest_binding && !binding_ok(bundle.manifest, sh));
    assert(has_error(findings@) == bind_bad);
    let ghost cb = opts.require_manifest_binding && !binding_ok(bundle.manifest, sh);
    let ghost cp = opts.require_proof && bundle.proof is None;
    assert(has_code(findings@, BIND@) == cb);
    assert(!has_code(findings@, PMISS@));
    assert(only_errors(findings@, BIND@) && only_errors(findings@, PMISS@) && only_errors(findings@, INCL@));

    if opts.require_proof && bundle.proof.is_none() {
        push(&mut findings, VerifyLevel::Error, "proof.missing", "proof is required but not provided");
    }
    let ghost pre_proof_bad = bind_bad || (opts.require_proof && bundle.proof is None);
    assert(has_error(findings@) == pre_proof_bad);
    assert(has_code(findings@, BIND@) == cb);
    assert(has_code(findings@, PMISS@) == cp);
    assert(only_errors(findings@, BIND@) && only_errors(findings@, PMISS@) && only_errors(findings@, INCL@));

    let mut proof_root: Option<String> = None;
    match &bundle.proof {
        Some(p) => {
            proof {
                reveal_strlit("proof.leaf.schemaHash.mismatch");
                reveal_strlit("proof.leaf.manifestHash.mismatch");
                reveal_strlit("proof.root.mismatch");
                reveal_strlit("proof.root.ok");
                reveal_strlit("manifest.binding.missing");
                reveal_strlit("proof.missing");
                reveal_strlit("proof.inclusion.invalid");
                assert("proof.root.ok"@[6] != PMISS@[6]);
                assert("proof.root.mismatch"@[6] != PMISS@[6]);
                assert("proof.leaf.schemaHash.mismatch"@[6] != PMISS@[6]);
                assert("proof.leaf.manifestHash.mismatch"@[6] != PMISS@[6]);
                assert("proof.inclusion.invalid"@[6] != PMISS@[6]);
            }
            let s_ok = leaf_is(&p.leaves, "digest:schemaHash", schema_hash.as_str());
            if !s_ok {
                push(&mut findings, VerifyLevel::Error, "proof.leaf.schemaHash.mismatch", "proof leaf digest:schemaHash does not match computed schema hash");
            }
            let m_ok = leaf_is(&p.leaves, "digest:manifestHash", manifest_hash.as_str());
            if !m_ok {
                push(&mut findings, VerifyLevel::Error, "proof.leaf.manifestHash.mismatch", "proof leaf digest:manifestHash does not match computed manifest hash");
            }
            let root = recompute_proof_root_hex(p)?;
            let root_ok = str_eq(root.as_str(), p.root.as_str());
            if !root_ok {
                push(&mut findings, VerifyLevel::Error, "proof.root.mismatch", "recomputed proof root does not match provided root");
            } else {
                push(&mut findings, VerifyLevel::Info, "proof.root.ok", "proof root matches");
            }
            proof_root = Some(root);
            let ghost head_bad = pre_proof_bad || !s_ok || !m_ok || !root_ok;
            assert(has_error(findings@) == head_bad);
            assert(has_code(findings@, BIND@) == cb);
            assert(has_code(findings@, PMISS@) == cp);
            assert(only_errors(findings@, BIND@) && only_errors(findings@, PMISS@) && only_errors(findings@, INCL@));
            let ghost mut inc_bad = false;
            let ghost f_before = findings@;
            if opts.validate_inclusions {
                match &p.inclusions {
                    Some(incs) => {
                        let mut i: usize = 0;
                        while i < incs.len()
                            invariant
                                i <= incs@.len(),
                                has_error(findings@) == (head_bad || inc_bad),
                                inc_bad == exists|j: int| 0 <= j < i && !inclusion_ok(*p, #[trigger] incs@[j]),
                                forall|c: Seq<char>| has_code(f_before, c) ==> #[trigger] has_code(findings@, c),
                                has_code(findings@, BIND@) == cb,
                                has_code(findings@, PMISS@) == cp,
                                only_errors(findings@, BIND@) && only_errors(findings@, PMISS@) && only_errors(findings@, INCL@),
                                inc_bad ==> has_code(findings@, INCL@),
                                BIND@ != INCL@ && PMISS@ != INCL@,
                            decreases incs@.len() - i,
                        {
                            let ghost before = inc_bad;
                            if verify_inclusion(p, &incs[i]).is_err() {
                                push(&mut findings, VerifyLevel::Error, "proof.inclusion.invalid", "inclusion proof invalid");
                            }
                            proof {
                                inc_bad = before || !inclusion_ok(*p, incs@[i as int]);
                                if !inclusion_ok(*p, incs@[i as int]) {
                                    assert(exists|j: int| 0 <= j < i + 1 && !inclusion_ok(*p, #[trigger] incs@[j]));
                                }
                                if exists|j: int| 0 <= j < i + 1 && !inclusion_ok(*p, #[trigger] incs@[j]) {
                                    let j = choose|j: int| 0 <= j < i + 1 && !inclusion_ok(*p, #[trigger] incs@[j]);
                                    if j < i {
                                        assert(exists|j: int| 0 <= j < i && !inclusion_ok(*p, #[trigger] incs@[j]));
                                    }
                                }
                            }
                            i = i + 1;
                        }
                    },
                    None => {},
                }
            }
            proof {
                assert(bundle.proof == Some(*p));
                assert(s_ok == (leaf_lookup(p.leaves@, "digest:schemaHash"@) == Some(sh)));
                assert(m_ok == (leaf_lookup(p.leaves@, "digest:manifestHash"@) == Some(mh)));
                assert(root_ok == (hex_of(proof_root_spec(p.leaves@)) == p.root@));
                assert(inc_bad == !(opts.validate_inclusions && p.inclusions is Some ==> forall|i: int|
                    0 <= i < p.inclusions->0@.len() ==> inclusion_ok(*p, #[trigger] p.inclusions->0@[i])));
                assert(has_error(findings@) == !bundle_ok(bundle, opts, sh, mh));
                assert(has_code(findings@, BIND@) == cb);
                assert(has_code(findings@, PMISS@) == cp);
                assert(inc_bad ==> has_code(findings@, INCL@));
            }
        },
        None => {
            assert(has_error(findings@) == !bundle_ok(bundle, opts, sh, mh));
        },
    }
    proof {
        lemma_error_code(findings@, BIND@);
        lemma_error_code(findings@, PMISS@);
        lemma_error_code(findings@, INCL@);
    }

    let ok = !has_errors_in(&findings);
    Ok(VerifyReport {
        ok,
        findings,
        schema_hash_hex: Some(schema_hash),
        manifest_hash_hex: Some(manifest_hash),
        proof_root_hex: proof_root,
    })
}

fn has_errors_in(f: &Vec<VerifyFinding>) -> (r: bool)
    ensures
        r == has_error(f@),
{
    let mut i: usize = 0;
    while i < f.len()
        invariant
            i <= f@.len(),
            forall|j: int| 0 <= j < i ==> (#[trigger] f@[j]).level != VerifyLevel::Error,
        decreases f@.len() - i,
    {
        if f[i].level == VerifyLevel::Error {
            return true;
        }
        i = i + 1;
    }
    false
}

/// A leaf entry of a proof description: string `key` and `value`.
pub open spec fn leaf_json_ok(x: Json) -> bool {
    crate::json::get_text(x, "key"@) is Some && crate::json::get_text(x, "value"@) is Some
}

pub open spec fn json_leaf(x: Json) -> (Seq<char>, Seq<char>) {
    (crate::json::get_text(x, "key"@)->0, crate::json::get_text(x, "value"@)->0)
}

pub open spec fn leaves_field_is_array(v: Json) -> bool {
    crate::json::get_field(v, "leaves"@) matches Some(Json::Array(_))
}

/// The leaf entries of a proof description.
pub open spec fn leaf_items(v: Json) -> Seq<Json> {
    crate::json::get_field(v, "leaves"@)->0->Array_0
}

/// The key/value pairs of a proof description, in the order given.
pub open spec fn json_leaf_pairs(v: Json) -> Seq<(Seq<char>, Seq<char>)> {
    leaf_items(v).map_values(|x: Json| json_leaf(x))
}

/// A proof description can be built: `hashAlg` is `sha256`, `leaves` is an
/// array of `{key, value}` strings, keys distinct and free of `=`.
pub open spec fn proof_json_ok(v: Json) -> bool {
    &&& crate::json::get_text(v, "hashAlg"@) == Some("sha256"@)
    &&& leaves_field_is_array(v)
    &&& forall|i: int| 0 <= i < leaf_items(v).len() ==> leaf_json_ok(#[trigger] leaf_items(v)[i])
    &&& forall|i: int, j: int| 0 <= i < j < leaf_items(v).len() ==> (#[trigger] json_leaf_pairs(v)[i]).0 != (#[trigger] json_leaf_pairs(v)[j]).0
    &&& forall|i: int| 0 <= i < leaf_items(v).len() ==> !(#[trigger] json_leaf_pairs(v)[i]).0.contains('=')
}

/// Leaves given in any order give the same proof leaves and root.
pub proof fn lemma_proof_json_order_independent(a: Json, b: Json)
    requires
        json_leaf_pairs(a).to_multiset() == json_leaf_pairs(b).to_multiset(),
    ensures
        sorted_pairs(json_leaf_pairs(a)) == sorted_pairs(json_leaf_pairs(b)),
{
    let pa = json_leaf_pairs(a);
    let pb = json_leaf_pairs(b);
    pa.to_multiset_ensures();
    pb.to_multiset_ensures();
    assert forall|x: (Seq<char>, Seq<char>)| pa.to_set().contains(x) == pb.to_set().contains(x) by {
        assert(pa.contains(x) == (pa.to_multiset().count(x) > 0));
        assert(pb.contains(x) == (pb.to_multiset().count(x) > 0));
    }
    assert(pa.to_set() =~= pb.to_set());
}

/// Builds a proof from its JSON description `{hashAlg, leaves: [{key, value}]}`:
/// the leaves are put in key order and the root is computed over them.
pub fn build_proof_from_json(v: &crate::json::JsonValue) -> (r: Result<ProofV1, SigniaError>)
    ensures
        r is Ok <==> proof_json_ok(v@),
        r is Ok ==> leaf_pairs(r->Ok_0.leaves@) == sorted_pairs(json_leaf_pairs(v@)),
        r is Ok ==> r->Ok_0.hash_alg@ == "sha256"@ && leaves_ok(r->Ok_0.leaves@)
            && strictly_sorted(leaf_pairs(r->Ok_0.leaves@))
            && r->Ok_0.root@ == hex_of(proof_root_spec(r->Ok_0.leaves@))
            && r->Ok_0.version@ == "v1"@ && r->Ok_0.inclusions is None,
{
    let alg = match crate::json::json_get_str(v, "hashAlg") {
        Some(a) => a.clone(),
        None => { return Err(SigniaError::invalid_argument("proof input missing hashAlg string")); },
    };
    if !str_eq(alg.as_str(), "sha256") {
        return Err(SigniaError::invalid_argument("unsupported hash algorithm"));
    }
    let items = match crate::json::json_get(v, "leaves") {
        Some(crate::json::JsonValue::Array(a)) => a,
        _ => { return Err(SigniaError::invalid_argument("proof input missing leaves array")); },
    };
    proof {
        crate::json::lemma_view_array(crate::json::JsonValue::Array(*items));
    }
    let ghost its = crate::json::items_view(items@);
    assert(leaf_items(v@) == its);
    let mut leaves: Vec<LeafV1> = Vec::new();
    let mut i: usize = 0;
    while i < items.len()
        invariant
            i <= items@.len(),
            its == crate::json::items_view(items@),
            leaf_items(v@) == its,
            leaves@.len() == i,
            forall|q: int| 0 <= q < i ==> leaf_json_ok(#[trigger] its[q]),
            forall|q: int| 0 <= q < i ==> leaf_pairs(leaves@)[q] == json_leaf(#[trigger] its[q]),
        decreases items@.len() - i,
    {
        assert(its[i as int] == items@[i as int]@);
        let key = match crate::json::json_get_str(&items[i], "key") {
            Some(k) => k.clone(),
            None => {
                assert(!leaf_json_ok(its[i as int]));
                return Err(SigniaError::invalid_argument("leaf.key must be a string"));
            },
        };
        let value = match crate::json::json_get_str(&items[i], "value") {
            Some(x) => x.clone(),
            None => {
                assert(!leaf_json_ok(its[i as int]));
                return Err(SigniaError::invalid_argument("leaf.value must be a string"));
            },
        };
        leaves.push(LeafV1 { key, value });
        proof {
            assert forall|q: int| 0 <= q < i + 1 implies leaf_pairs(leaves@)[q] == json_leaf(#[trigger] its[q]) by {
                if q < i {
                    assert(leaf_pairs(leaves@)[q] == (leaves@[q].key@, leaves@[q].value@));
                }
            }
        }
        i = i + 1;
    }
    proof {
        assert(leaf_pairs(leaves@) =~= json_leaf_pairs(v@));
    }
    if !check_leaves(&leaves) {
        proof {
            let lp0 = leaf_pairs(leaves@);
            if proof_json_ok(v@) {
                assert forall|a: int, b: int| 0 <= a < b < leaves@.len() implies (#[trigger] leaves@[a]).key@ != (#[trigger] leaves@[b]).key@ by {
                    assert(lp0[a].0 == leaves@[a].key@ && lp0[b].0 == leaves@[b].key@);
                }
                assert forall|a: int| 0 <= a < leaves@.len() implies !(#[trigger] leaves@[a]).key@.contains('=') by {
                    assert(lp0[a].0 == leaves@[a].key@);
                }
            }
        }
        return Err(SigniaError::invalid_argument("proof leaves must have distinct keys without '='"));
    }
    proof {
        let lp0 = leaf_pairs(leaves@);
        assert forall|a: int, b: int| 0 <= a < b < its.len() implies (#[trigger] json_leaf_pairs(v@)[a]).0 != (#[trigger] json_leaf_pairs(v@)[b]).0 by {
            assert(lp0[a].0 == leaves@[a].key@ && lp0[b].0 == leaves@[b].key@);
        }
        assert forall|a: int| 0 <= a < its.len() implies !(#[trigger] json_leaf_pairs(v@)[a]).0.contains('=') by {
            assert(lp0[a].0 == leaves@[a].key@);
        }
        assert(proof_json_ok(v@));
    }
    let ghost lp = leaf_pairs(leaves@);
    let mut pairs: Vec<(Vec<char>, Vec<char>)> = Vec::new();
    let mut i: usize = 0;
    while i < leaves.len()
        invariant
            i <= leaves@.len(),
            lp == leaf_pairs(leaves@),
            pv(pairs@) == lp.subrange(0, i as int),
        decreases leaves@.len() - i,
    {
        let ghost pp = pairs@;
        pairs.push((chars_of(leaves[i].key.as_str()), chars_of(leaves[i].value.as_str())));
        assert(pv(pairs@) =~= pv(pp).push(lp[i as int]));
        assert(lp.subrange(0, i + 1) =~= lp.subrange(0, i as int).push(lp[i as int]));
        i = i + 1;
    }
    proof {
        assert(lp.subrange(0, leaves@.len() as int) =~= lp);
        assert forall|a: int, b: int| 0 <= a < b < pairs@.len() implies (#[trigger] pairs@[a]).0@ != (#[trigger] pairs@[b]).0@ by {
            assert(pv(pairs@)[a] == lp[a] && pv(pairs@)[b] == lp[b]);
        }
    }
    let sorted = sort_pairs(pairs);
    let ghost sp = pv(sorted@);
    let mut out: Vec<LeafV1> = Vec::new();
    let mut k: usize = 0;
    while k < sorted.len()
        invariant
            k <= sorted@.len(),
            sp == pv(sorted@),
            out@.len() == k,
            forall|j: int| 0 <= j < k ==> (#[trigger] out@[j]).key@ == sp[j].0 && out@[j].value@ == sp[j].1,
        decreases sorted@.len() - k,
    {
        out.push(LeafV1 { key: string_of(sorted[k].0.as_slice()), value: string_of(sorted[k].1.as_slice()) });
        k = k + 1;
    }
    proof {
        assert(leaf_pairs(out@) =~= sp);
        // keys of the sorted leaves are those of the input leaves
        assert forall|j: int| 0 <= j < out@.len() implies !(#[trigger] out@[j]).key@.contains('=') by {
            assert(sp.contains(sp[j]));
            assert(lp.contains(sp[j]));
            let q = choose|q: int| 0 <= q < lp.len() && lp[q] == sp[j];
            assert(leaves@[q].key@ == sp[j].0);
        }
        assert forall|a: int, b: int| 0 <= a < b < out@.len() implies (#[trigger] out@[a]).key@ != (#[trigger] out@[b]).key@ by {
            assert(key_lt(sp[a].0, sp[b].0));
            lemma_key_lt_irrefl(sp[a].0);
        }
    }
    proof {
        lemma_sorted_pairs_determined(lp, sp);
    }
    let mut p = ProofV1 { version: String::from_str("v1"), hash_alg: alg, root: String::new(), leaves: out, inclusions: None };
    let root = recompute_proof_root_hex(&p)?;
    p.root = root;
    Ok(p)
}

/// Basic invariants of a schema: entity ids unique, edge ids unique, and
/// every edge endpoint an entity id.
pub open spec fn schema_basic_ok(s: SchemaV1) -> bool {
    (forall|i: int, j: int| 0 <= i < j < s.entities@.len() ==> (#[trigger] s.entities@[i]).id@ != (#[trigger] s.entities@[j]).id@)
        && (forall|i: int, j: int| 0 <= i < j < s.edges@.len() ==> (#[trigger] s.edges@[i]).id@ != (#[trigger] s.edges@[j]).id@)
        && (forall|k: int| 0 <= k < s.edges@.len() ==> entity_has_id(s, (#[trigger] s.edges@[k]).from@) && entity_has_id(s, s.edges@[k].to@))
}

/// Checks the basic invariants of a schema.
pub fn schema_v1_basic(schema: &SchemaV1) -> (r: Result<(), SigniaError>)
    ensures
        r is Ok <==> schema_basic_ok(*schema),
        r is Err ==> r->Err_0.kind == ErrorKind::InvalidArgument,
{
    let n = schema.entities.len();
    let mut i: usize = 0;
    while i < n
        invariant
            n == schema.entities@.len(),
            i <= n,
            forall|a: int, b: int| 0 <= a < b < n && a < i ==> (#[trigger] schema.entities@[a]).id@ != (#[trigger] schema.entities@[b]).id@,
        decreases n - i,
    {
        let mut j: usize = i + 1;
        while j < n
            invariant
                n == schema.entities@.len(),
                i < j <= n,
                forall|b: int| i < b < j ==> schema.entities@[i as int].id@ != (#[trigger] schema.entities@[b]).id@,
            decreases n - j,
        {
            if str_eq(schema.entities[i].id.as_str(), schema.entities[j].id.as_str()) {
                return Err(SigniaError::invalid_argument("duplicate entity id"));
            }
            j = j + 1;
        }
        i = i + 1;
    }
    let m = schema.edges.len();
    let mut i: usize = 0;
    while i < m
        invariant
            m == schema.edges@.len(),
            n == schema.entities@.len(),
            i <= m,
            forall|a: int, b: int| 0 <= a < b < n ==> (#[trigger] schema.entities@[a]).id@ != (#[trigger] schema.entities@[b]).id@,
            forall|a: int, b: int| 0 <= a < b < m && a < i ==> (#[trigger] schema.edges@[a]).id@ != (#[trigger] schema.edges@[b]).id@,
            forall|k: int| 0 <= k < i ==> entity_has_id(*schema, (#[trigger] schema.edges@[k]).from@) && entity_has_id(*schema, schema.edges@[k].to@),
        decreases m - i,
    {
        let mut j: usize = i + 1;
        while j < m
            invariant
                m == schema.edges@.len(),
                i < j <= m,
                forall|b: int| i < b < j ==> schema.edges@[i as int].id@ != (#[trigger] schema.edges@[b]).id@,
            decreases m - j,
        {
            if str_eq(schema.edges[i].id.as_str(), schema.edges[j].id.as_str()) {
                return Err(SigniaError::invalid_argument("duplicate edge id"));
            }
            j = j + 1;
        }
        if !schema_has_entity(schema, schema.edges[i].from.as_str()) {
            return Err(SigniaError::invalid_argument("edge references missing from-entity id"));
        }
        if !schema_has_entity(schema, schema.edges[i].to.as_str()) {
            return Err(SigniaError::invalid_argument("edge references missing to-entity id"));
        }
        i = i + 1;
    }
    Ok(())
}
} // verus!
