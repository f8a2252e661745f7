use vstd::prelude::*;
use crate::error::{ErrorKind, SigniaError};
use crate::json::{get_field, get_text, has_key, items_view, json_get, json_get_str, json_has_key, lemma_view_array, Json, JsonValue};
use crate::strs::str_eq;

verus! {

/// Which artifact a JSON document is.
#[derive(Debug, Clone, Copy, PartialEq, Eq, Structural)]
pub enum ArtifactKind {
    Schema,
    Manifest,
    Proof,
    Unknown,
}

/// Artifact of a document: it needs a string `version`; a schema has `kind`,
/// `entities` and `edges`; a manifest `schemas`, `inputs`, `outputs` and
/// `limits`; a proof `hashAlg`, `root` and `leaves`; first match wins.
pub open spec fn artifact_of(v: Json) -> ArtifactKind {
    if !(v is Object) || get_text(v, "version"@) is None {
        ArtifactKind::Unknown
    } else if has_key(v, "kind"@) && has_key(v, "entities"@) && has_key(v, "edges"@) {
        ArtifactKind::Schema
    } else if has_key(v, "schemas"@) && has_key(v, "inputs"@) && has_key(v, "outputs"@) && has_key(v, "limits"@) {
        ArtifactKind::Manifest
    } else if has_key(v, "hashAlg"@) && has_key(v, "root"@) && has_key(v, "leaves"@) {
        ArtifactKind::Proof
    } else {
        ArtifactKind::Unknown
    }
}

pub fn detect_kind(v: &JsonValue) -> (r: ArtifactKind)
    ensures
        r == artifact_of(v@),
{
    let is_obj = match v {
        JsonValue::Object(_) => true,
        _ => false,
    };
    if !is_obj || json_get_str(v, "version").is_none() {
        return ArtifactKind::Unknown;
    }
    if json_has_key(v, "kind") && json_has_key(v, "entities") && json_has_key(v, "edges") {
        return ArtifactKind::Schema;
    }
    if json_has_key(v, "schemas") && json_has_key(v, "inputs") && json_has_key(v, "outputs") && json_has_key(v, "limits") {
        return ArtifactKind::Manifest;
    }
    if json_has_key(v, "hashAlg") && json_has_key(v, "root") && json_has_key(v, "leaves") {
        return ArtifactKind::Proof;
    }
    ArtifactKind::Unknown
}

/// The `version` string of a document.
pub fn read_version(v: &JsonValue) -> (r: Result<String, SigniaError>)
    ensures
        r is Ok <==> get_text(v@, "version"@) is Some,
        r is Ok ==> r->Ok_0@ == get_text(v@, "version"@)->0,
{
    match json_get_str(v, "version") {
        Some(s) => Ok(s.clone()),
        None => Err(SigniaError::invalid_argument("missing version string")),
    }
}

/// Source archetype of an input.
#[derive(Debug, Clone, Copy, PartialEq, Eq, Structural)]
pub enum InputKind {
    Repo,
    Dataset,
    Workflow,
    OpenApi,
}

pub open spec fn array_field(v: Json, k: Seq<char>) -> bool {
    get_field(v, k) matches Some(Json::Array(_))
}

pub open spec fn string_field(v: Json, k: Seq<char>) -> bool {
    get_text(v, k) is Some
}

/// Every element of the array field `k` has the key `e`.
pub open spec fn all_have(v: Json, k: Seq<char>, e: Seq<char>) -> bool {
    array_field(v, k) && forall|i: int|
        0 <= i < get_field(v, k)->0->Array_0.len() ==> has_key(#[trigger] get_field(v, k)->0->Array_0[i], e)
}

pub open spec fn edge_kind_ok(x: Json) -> bool {
    match get_text(x, "kind"@) {
        Some(k) => k == "data"@ || k == "control"@ || k == "event"@,
        None => false,
    }
}

pub open spec fn workflow_shaped(v: Json) -> bool {
    all_have(v, "nodes"@, "type"@) && array_field(v, "edges"@) && forall|i: int|
        0 <= i < get_field(v, "edges"@)->0->Array_0.len() ==> edge_kind_ok(#[trigger] get_field(v, "edges"@)->0->Array_0[i])
}

/// Kind of an input, first match wins: repo, dataset, workflow, openapi.
pub open spec fn input_kind_of(v: Json) -> Option<InputKind> {
    if !(v is Object) {
        None
    } else if array_field(v, "files"@) && has_key(v, "name"@) {
        Some(InputKind::Repo)
    } else if array_field(v, "rows"@) || (all_have(v, "files"@, "size"@) && !has_key(v, "nodes"@) && !has_key(v, "edges"@)) {
        Some(InputKind::Dataset)
    } else if workflow_shaped(v) {
        Some(InputKind::Workflow)
    } else if string_field(v, "openapi"@) || string_field(v, "swagger"@) {
        Some(InputKind::OpenApi)
    } else {
        None
    }
}

fn is_array_field(v: &JsonValue, k: &str) -> (r: bool)
    ensures
        r == array_field(v@, k@),
{
    match json_get(v, k) {
        Some(JsonValue::Array(_)) => true,
        _ => false,
    }
}

fn every_has(v: &JsonValue, k: &str, e: &str) -> (r: bool)
    ensures
        r == all_have(v@, k@, e@),
{
    match json_get(v, k) {
        Some(f) => match f {
            JsonValue::Array(a) => {
                proof {
                    lemma_view_array(*f);
                }
                let ghost items = items_view(a@);
                let mut i: usize = 0;
                while i < a.len()
                    invariant
                        i <= a@.len(),
                        items == items_view(a@),
                        get_field(v@, k@) == Some(Json::Array(items)),
                        forall|q: int| 0 <= q < i ==> has_key(#[trigger] items[q], e@),
                    decreases a@.len() - i,
                {
                    if !json_has_key(&a[i], e) {
                        assert(items[i as int] == a@[i as int]@);
                        assert(!has_key(get_field(v@, k@)->0->Array_0[i as int], e@));
                        return false;
                    }
                    i = i + 1;
                }
                true
            },
            _ => false,
        },
        None => false,
    }
}

fn edges_kinds_ok(v: &JsonValue) -> (r: bool)
    ensures
        r == (array_field(v@, "edges"@) && forall|i: int|
            0 <= i < get_field(v@, "edges"@)->0->Array_0.len() ==> edge_kind_ok(#[trigger] get_field(v@, "edges"@)->0->Array_0[i])),
{
    match json_get(v, "edges") {
        Some(f) => match f {
            JsonValue::Array(a) => {
                proof {
                    lemma_view_array(*f);
                }
                let ghost items = items_view(a@);
                let mut i: usize = 0;
                while i < a.len()
                    invariant
                        i <= a@.len(),
                        items == items_view(a@),
                        get_field(v@, "edges"@) == Some(Json::Array(items)),
                        forall|q: int| 0 <= q < i ==> edge_kind_ok(#[trigger] items[q]),
                    decreases a@.len() - i,
                {
                    assert(items[i as int] == a@[i as int]@);
                    let ok = match json_get_str(&a[i], "kind") {
                        Some(k) => str_eq(k.as_str(), "data") || str_eq(k.as_str(), "control") || str_eq(k.as_str(), "event"),
                        None => false,
                    };
                    if !ok {
                        assert(!edge_kind_ok(get_field(v@, "edges"@)->0->Array_0[i as int]));
                        return false;
                    }
                    i = i + 1;
                }
                true
            },
            _ => false,
        },
        None => false,
    }
}

/// Detects the kind of an input; `UnknownKind` when no rule matches.
pub fn detect_input_kind(v: &JsonValue) -> (r: Result<InputKind, SigniaError>)
    ensures
        r is Ok <==> input_kind_of(v@) is Some,
        r is Ok ==> r->Ok_0 == input_kind_of(v@)->0,
{
    let is_obj = match v {
        JsonValue::Object(_) => true,
        _ => false,
    };
    if !is_obj {
        return Err(SigniaError::invalid_argument("UnknownKind: input is not an object"));
    }
    if is_array_field(v, "files") && json_has_key(v, "name") {
        return Ok(InputKind::Repo);
    }
    if is_array_field(v, "rows") || (every_has(v, "files", "size") && !json_has_key(v, "nodes") && !json_has_key(v, "edges")) {
        return Ok(InputKind::Dataset);
    }
    if every_has(v, "nodes", "type") && edges_kinds_ok(v) {
        return Ok(InputKind::Workflow);
    }
    if json_get_str(v, "openapi").is_some() || json_get_str(v, "swagger").is_some() {
        return Ok(InputKind::OpenApi);
    }
    Err(SigniaError::invalid_argument("UnknownKind: no detection rule matches"))
}

} // verus!
