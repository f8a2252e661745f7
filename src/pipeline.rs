use vstd::prelude::*;
use crate::compile::{DeterministicClock, DiagnosticLevel, PipelineDiagnostic};
use crate::error::SigniaError;
use crate::ir::{emit_schema_v1, emits, ir_valid, IrGraph};
use crate::json::{entries_view, json_clone, lemma_view_object, Json, JsonValue};
use crate::model::SchemaV1;
use crate::strs::str_eq;

verus! {

/// What flows between stages.
#[derive(Debug)]
pub enum PipelineData {
    Nothing,
    Json(JsonValue),
    Ir(IrGraph),
    Schema(SchemaV1),
    Proof(crate::model::ProofV1),
}

/// Shared state of a run: the injected clock, the schema kind and meta, and
/// the diagnostics gathered so far.
#[derive(Debug)]
pub struct PipelineContext {
    pub clock: DeterministicClock,
    pub kind: String,
    pub meta: JsonValue,
    pub diagnostics: Vec<PipelineDiagnostic>,
}

#[derive(Debug, Clone)]
pub struct ValidateJsonObjectStage {
    pub id: String,
}

#[derive(Debug, Clone)]
pub struct ValidateIrStage {
    pub id: String,
}

#[derive(Debug, Clone)]
pub struct NormalizeIrStage {
    pub id: String,
}

#[derive(Debug, Clone)]
pub struct EmitSchemaV1Stage {
    pub id: String,
}

#[derive(Debug, Clone)]
pub struct SchemaSummaryStage {
    pub id: String,
}

impl ValidateJsonObjectStage {
    pub fn new(id: &str) -> (r: Self)
        ensures
            r.id@ == id@,
    {
        ValidateJsonObjectStage { id: String::from_str(id) }
    }
}

impl ValidateIrStage {
    pub fn new(id: &str) -> (r: Self)
        ensures
            r.id@ == id@,
    {
        ValidateIrStage { id: String::from_str(id) }
    }
}

impl NormalizeIrStage {
    pub fn new(id: &str) -> (r: Self)
        ensures
            r.id@ == id@,
    {
        NormalizeIrStage { id: String::from_str(id) }
    }
}

impl EmitSchemaV1Stage {
    pub fn new(id: &str) -> (r: Self)
        ensures
            r.id@ == id@,
    {
        EmitSchemaV1Stage { id: String::from_str(id) }
    }
}

impl SchemaSummaryStage {
    pub fn new(id: &str) -> (r: Self)
        ensures
            r.id@ == id@,
    {
        SchemaSummaryStage { id: String::from_str(id) }
    }
}

/// Builds a proof from a JSON description of its leaves.
#[derive(Debug, Clone)]
pub struct BuildProofV1Stage {
    pub id: String,
}

impl BuildProofV1Stage {
    pub fn new(id: &str) -> (r: Self)
        ensures
            r.id@ == id@,
    {
        BuildProofV1Stage { id: String::from_str(id) }
    }

    /// Builds the proof described by a JSON input, recording `proof.built`.
    pub fn run(&self, ctx: &mut PipelineContext, input: &JsonValue) -> (r: Result<crate::model::ProofV1, SigniaError>)
        ensures
            r is Ok <==> crate::verify::proof_json_ok(input@),
            r is Ok ==> crate::verify::leaf_pairs(r->Ok_0.leaves@) == crate::json::sorted_pairs(crate::verify::json_leaf_pairs(input@)),
            r is Ok ==> r->Ok_0.hash_alg@ == "sha256"@ && crate::verify::leaves_ok(r->Ok_0.leaves@)
                && crate::json::strictly_sorted(crate::verify::leaf_pairs(r->Ok_0.leaves@))
                && r->Ok_0.root@ == crate::hashing::hex_of(crate::verify::proof_root_spec(r->Ok_0.leaves@)),
            final(ctx).kind == old(ctx).kind,
            final(ctx).meta == old(ctx).meta,
    {
        let p = crate::verify::build_proof_from_json(input)?;
        ctx.diagnostics.push(info("proof.built", "built ProofV1 Merkle root"));
        Ok(p)
    }
}

/// A stage of a pipeline.
#[derive(Debug, Clone)]
pub enum Stage {
    ValidateJsonObject(ValidateJsonObjectStage),
    ValidateIr(ValidateIrStage),
    NormalizeIr(NormalizeIrStage),
    EmitSchemaV1(EmitSchemaV1Stage),
    SchemaSummary(SchemaSummaryStage),
    BuildProofV1(BuildProofV1Stage),
}

/// `{kind, entities, edges}` with the counts of a schema.
pub open spec fn summary_json(s: SchemaV1) -> Json {
    Json::Object(
        seq![
            ("kind"@, Json::Str(s.kind@)),
            ("entities"@, Json::Int(s.entities@.len() as int)),
            ("edges"@, Json::Int(s.edges@.len() as int)),
        ],
    )
}

/// One stage turns `input` into `output` under the context's kind and meta.
pub open spec fn step(st: Stage, kind: Seq<char>, meta: Json, input: PipelineData, output: PipelineData) -> bool {
    match st {
        Stage::ValidateJsonObject(_) => input matches PipelineData::Json(j) && j@ is Object && output == input,
        Stage::ValidateIr(_) => input matches PipelineData::Ir(g) && ir_valid(g) && output == input,
        Stage::NormalizeIr(_) => input matches PipelineData::Ir(g) && ir_valid(g) && output == input,
        Stage::EmitSchemaV1(_) => input matches PipelineData::Ir(g) && output matches PipelineData::Schema(s) && emits(g, kind, meta, s),
        Stage::SchemaSummary(_) => input matches PipelineData::Schema(s) && output matches PipelineData::Json(j) && j@ == summary_json(s),
        Stage::BuildProofV1(_) => input matches PipelineData::Json(j) && output matches PipelineData::Proof(p)
            && crate::verify::leaf_pairs(p.leaves@) == crate::json::sorted_pairs(crate::verify::json_leaf_pairs(j@))
            && p.hash_alg@ == "sha256"@ && p.root@ == crate::hashing::hex_of(crate::verify::proof_root_spec(p.leaves@)),
    }
}

/// Whether a stage accepts its input at all.
pub open spec fn accepts(st: Stage, input: PipelineData) -> bool {
    match st {
        Stage::ValidateJsonObject(_) => input matches PipelineData::Json(j) && j@ is Object,
        Stage::ValidateIr(_) => input matches PipelineData::Ir(g) && ir_valid(g),
        Stage::NormalizeIr(_) => input matches PipelineData::Ir(g) && ir_valid(g),
        Stage::EmitSchemaV1(_) => input matches PipelineData::Ir(g) && ir_valid(g),
        Stage::SchemaSummary(_) => input is Schema,
        Stage::BuildProofV1(_) => input matches PipelineData::Json(j) && crate::verify::proof_json_ok(j@),
    }
}

/// A trace of a run: `trace[i]` enters stage `i` and `trace[i + 1]` leaves it.
pub open spec fn is_trace(stages: Seq<Stage>, kind: Seq<char>, meta: Json, trace: Seq<PipelineData>) -> bool {
    trace.len() == stages.len() + 1 && forall|i: int|
        0 <= i < stages.len() ==> step(#[trigger] stages[i], kind, meta, trace[i], trace[i + 1])
}

/// The stages, in order, turn `input` into `output`.
pub open spec fn runs(stages: Seq<Stage>, kind: Seq<char>, meta: Json, input: PipelineData, output: PipelineData) -> bool {
    exists|trace: Seq<PipelineData>| #[trigger] is_trace(stages, kind, meta, trace) && trace[0] == input && trace.last() == output
}

pub const STAGE_START: &'static str = "pipeline.stage.start";
pub const STAGE_END: &'static str = "pipeline.stage.end";

/// Diagnostics in `s` carrying the code `c`.
pub open spec fn count_code(s: Seq<PipelineDiagnostic>, c: Seq<char>) -> nat
    decreases s.len(),
{
    if s.len() == 0 {
        0
    } else {
        count_code(s.drop_last(), c) + if s.last().code@ == c { 1nat } else { 0nat }
    }
}

/// What a stage adds to the diagnostics: nothing, or one entry that is not a
/// start or end mark.
pub open spec fn stage_adds(before: Seq<PipelineDiagnostic>, after: Seq<PipelineDiagnostic>) -> bool {
    after == before || (after.len() == before.len() + 1 && after.drop_last() == before && after.last().code@ != STAGE_START@
        && after.last().code@ != STAGE_END@)
}

proof fn lemma_suffix_push(s: Seq<PipelineDiagnostic>, n: int, x: PipelineDiagnostic)
    requires
        0 <= n <= s.len(),
    ensures
        s.push(x).subrange(n, s.len() as int + 1) == s.subrange(n, s.len() as int).push(x),
{
    assert(s.push(x).subrange(n, s.len() as int + 1) =~= s.subrange(n, s.len() as int).push(x));
}

proof fn lemma_marks_differ()
    ensures
        "ir.normalized"@ != STAGE_START@ && "ir.normalized"@ != STAGE_END@ && "emit.schema_v1"@ != STAGE_START@
            && "emit.schema_v1"@ != STAGE_END@ && "proof.built"@ != STAGE_START@ && "proof.built"@ != STAGE_END@,
{
    reveal_strlit("ir.normalized");
    reveal_strlit("emit.schema_v1");
    reveal_strlit("proof.built");
    reveal_strlit("pipeline.stage.start");
    reveal_strlit("pipeline.stage.end");
    assert("ir.normalized"@[0] != STAGE_START@[0] && "ir.normalized"@[0] != STAGE_END@[0]);
    assert("emit.schema_v1"@[0] != STAGE_START@[0] && "emit.schema_v1"@[0] != STAGE_END@[0]);
    assert("proof.built"@[1] != STAGE_START@[1] && "proof.built"@[1] != STAGE_END@[1]);
}

proof fn lemma_stage_counts(before: Seq<PipelineDiagnostic>, after: Seq<PipelineDiagnostic>, n: int)
    requires
        stage_adds(before, after),
        0 <= n <= before.len(),
    ensures
        count_code(after.subrange(n, after.len() as int), STAGE_START@) == count_code(before.subrange(n, before.len() as int), STAGE_START@),
        count_code(after.subrange(n, after.len() as int), STAGE_END@) == count_code(before.subrange(n, before.len() as int), STAGE_END@),
{
    if after != before {
        let x = after.last();
        assert(after =~= before.push(x));
        lemma_suffix_push(before, n, x);
        assert(after.subrange(n, after.len() as int).drop_last() == before.subrange(n, before.len() as int));
    }
}

fn info(code: &str, message: &str) -> (d: PipelineDiagnostic)
    ensures
        d.level == DiagnosticLevel::Info,
        d.code@ == code@,
{
    PipelineDiagnostic { level: DiagnosticLevel::Info, code: String::from_str(code), message: String::from_str(message) }
}

/// Runs one stage.
pub fn run_stage(st: &Stage, ctx: &mut PipelineContext, input: PipelineData) -> (r: Result<PipelineData, SigniaError>)
    ensures
        r is Ok <==> accepts(*st, input),
        r is Ok ==> step(*st, old(ctx).kind@, old(ctx).meta@, input, r->Ok_0),
        final(ctx).kind == old(ctx).kind,
        final(ctx).meta == old(ctx).meta,
        final(ctx).diagnostics@.len() >= old(ctx).diagnostics@.len(),
        final(ctx).diagnostics@.subrange(0, old(ctx).diagnostics@.len() as int) == old(ctx).diagnostics@,
        stage_adds(old(ctx).diagnostics@, final(ctx).diagnostics@),
{
    let ghost d0 = ctx.diagnostics@;
    proof {
        lemma_marks_differ();
    }
    match st {
        Stage::ValidateJsonObject(_) => match input {
            PipelineData::Json(j) => {
                let is_obj = match &j {
                    JsonValue::Object(_) => true,
                    _ => false,
                };
                if is_obj {
                    Ok(PipelineData::Json(j))
                } else {
                    Err(SigniaError::invalid_argument("json.object.required: input must be a JSON object"))
                }
            },
            _ => Err(SigniaError::invalid_argument("expected JSON input")),
        },
        Stage::ValidateIr(_) | Stage::NormalizeIr(_) => match input {
            PipelineData::Ir(g) => {
                g.validate_basic()?;
                if let Stage::NormalizeIr(_) = st {
                    ctx.diagnostics.push(info("ir.normalized", "IR normalized"));
                    assert(ctx.diagnostics@.subrange(0, d0.len() as int) =~= d0);
                    assert(ctx.diagnostics@.drop_last() =~= d0);
                }
                Ok(PipelineData::Ir(g))
            },
            _ => Err(SigniaError::invalid_argument("expected IR input")),
        },
        Stage::EmitSchemaV1(_) => match input {
            PipelineData::Ir(g) => {
                let s = emit_schema_v1(&g, ctx.kind.as_str(), &ctx.meta)?;
                ctx.diagnostics.push(info("emit.schema_v1", "emitted SchemaV1 from IR"));
                assert(ctx.diagnostics@.subrange(0, d0.len() as int) =~= d0);
                assert(ctx.diagnostics@.drop_last() =~= d0);
                Ok(PipelineData::Schema(s))
            },
            _ => Err(SigniaError::invalid_argument("expected IR input")),
        },
        Stage::SchemaSummary(_) => match input {
            PipelineData::Schema(s) => {
                let j = JsonValue::Object(
                    vec![
                        (String::from_str("kind"), JsonValue::Str(s.kind.clone())),
                        (String::from_str("entities"), JsonValue::Int(s.entities.len() as i128)),
                        (String::from_str("edges"), JsonValue::Int(s.edges.len() as i128)),
                    ],
                );
                proof {
                    lemma_view_object(j);
                    assert(entries_view(j->Object_0@) =~= summary_json(s)->Object_0);
                }
                Ok(PipelineData::Json(j))
            },
            _ => Err(SigniaError::invalid_argument("expected SchemaV1 input")),
        },
        Stage::BuildProofV1(_) => match input {
            PipelineData::Json(j) => {
                let p = crate::verify::build_proof_from_json(&j)?;
                ctx.diagnostics.push(info("proof.built", "built ProofV1 Merkle root"));
                assert(ctx.diagnostics@.subrange(0, d0.len() as int) =~= d0);
                assert(ctx.diagnostics@.drop_last() =~= d0);
                Ok(PipelineData::Proof(p))
            },
            _ => Err(SigniaError::invalid_argument("expected JSON input")),
        },
    }
}

/// Stages run strictly in order.
#[derive(Debug, Clone)]
pub struct Pipeline {
    pub stages: Vec<Stage>,
}

impl Pipeline {
    pub fn new() -> (r: Self)
        ensures
            r.stages@.len() == 0,
    {
        Pipeline { stages: Vec::new() }
    }

    pub fn push_stage(&mut self, st: Stage)
        ensures
            final(self).stages@ == old(self).stages@.push(st),
    {
        self.stages.push(st);
    }

    /// Runs the stages in order, recording `pipeline.stage.start` and
    /// `pipeline.stage.end` around each; the first failing stage ends the run.
    pub fn run(&self, ctx: &mut PipelineContext, input: PipelineData) -> (r: Result<PipelineData, SigniaError>)
        ensures
            r is Ok ==> runs(self.stages@, old(ctx).kind@, old(ctx).meta@, input, r->Ok_0),
            r is Err ==> exists|k: int, mid: PipelineData|
                0 <= k < self.stages@.len() && runs(self.stages@.subrange(0, k), old(ctx).kind@, old(ctx).meta@, input, mid)
                    && !#[trigger] accepts(self.stages@[k], mid),
            final(ctx).diagnostics@.subrange(0, old(ctx).diagnostics@.len() as int) == old(ctx).diagnostics@,
            final(ctx).diagnostics@.len() >= old(ctx).diagnostics@.len(),
            r is Ok ==> count_code(final(ctx).diagnostics@.subrange(old(ctx).diagnostics@.len() as int, final(ctx).diagnostics@.len() as int), STAGE_START@)
                == self.stages@.len(),
            r is Ok ==> count_code(final(ctx).diagnostics@.subrange(old(ctx).diagnostics@.len() as int, final(ctx).diagnostics@.len() as int), STAGE_END@)
                == self.stages@.len(),
            r is Err ==> count_code(final(ctx).diagnostics@.subrange(old(ctx).diagnostics@.len() as int, final(ctx).diagnostics@.len() as int), STAGE_START@)
                == count_code(final(ctx).diagnostics@.subrange(old(ctx).diagnostics@.len() as int, final(ctx).diagnostics@.len() as int), STAGE_END@) + 1,
    {
        proof {
            reveal_strlit("pipeline.stage.start");
            reveal_strlit("pipeline.stage.end");
            assert(STAGE_START@[15] != STAGE_END@[15]);
        }
        let ghost kind = ctx.kind@;
        let ghost meta = ctx.meta@;
        let ghost d0 = ctx.diagnostics@;
        let ghost input0 = input;
        let mut data = input;
        let mut k: usize = 0;
        let ghost mut trace: Seq<PipelineData> = seq![input0];
        assert(ctx.diagnostics@.subrange(d0.len() as int, ctx.diagnostics@.len() as int) =~= Seq::<PipelineDiagnostic>::empty());
        while k < self.stages.len()
            invariant
                k <= self.stages@.len(),
                kind == old(ctx).kind@,
                meta == old(ctx).meta@,
                d0 == old(ctx).diagnostics@,
                input0 == input,
                ctx.kind@ == kind,
                ctx.meta@ == meta,
                is_trace(self.stages@.subrange(0, k as int), kind, meta, trace),
                trace[0] == input0,
                trace.last() == data,
                ctx.diagnostics@.len() >= d0.len(),
                ctx.diagnostics@.subrange(0, d0.len() as int) == d0,
                STAGE_START@ != STAGE_END@,
                count_code(ctx.diagnostics@.subrange(d0.len() as int, ctx.diagnostics@.len() as int), STAGE_START@) == k,
                count_code(ctx.diagnostics@.subrange(d0.len() as int, ctx.diagnostics@.len() as int), STAGE_END@) == k,
            decreases self.stages@.len() - k,
        {
            let ghost before = data;
            let ghost dk = ctx.diagnostics@;
            let st = info(STAGE_START, "stage started");
            ctx.diagnostics.push(st);
            assert(ctx.diagnostics@.subrange(0, d0.len() as int) =~= dk.subrange(0, d0.len() as int));
            let ghost dp = ctx.diagnostics@;
            proof {
                lemma_suffix_push(dk, d0.len() as int, st);
                let sp = dp.subrange(d0.len() as int, dp.len() as int);
                assert(sp.drop_last() == dk.subrange(d0.len() as int, dk.len() as int));
                assert(count_code(sp, STAGE_START@) == k + 1);
                assert(count_code(sp, STAGE_END@) == k);
            }
            match run_stage(&self.stages[k], ctx, data) {
                Ok(out) => {
                    proof {
                        let pre = self.stages@.subrange(0, k + 1);
                        let t1 = trace.push(out);
                        assert forall|i: int| 0 <= i < pre.len() implies step(#[trigger] pre[i], kind, meta, t1[i], t1[i + 1]) by {
                            if i < k {
                                assert(pre[i] == self.stages@.subrange(0, k as int)[i]);
                            } else {
                                assert(pre[i] == self.stages@[k as int]);
                            }
                        }
                        trace = t1;
                    }
                    data = out;
                    let ghost dm = ctx.diagnostics@;
                    proof {
                        lemma_stage_counts(dp, dm, d0.len() as int);
                    }
                    let en = info(STAGE_END, "stage finished");
                    ctx.diagnostics.push(en);
                    assert(ctx.diagnostics@.subrange(0, d0.len() as int) =~= dm.subrange(0, d0.len() as int));
                    proof {
                        lemma_suffix_push(dm, d0.len() as int, en);
                        let sp = ctx.diagnostics@.subrange(d0.len() as int, ctx.diagnostics@.len() as int);
                        assert(sp.drop_last() == dm.subrange(d0.len() as int, dm.len() as int));
                    }
                },
                Err(e) => {
                    proof {
                        assert(!accepts(self.stages@[k as int], before));
                        assert(runs(self.stages@.subrange(0, k as int), kind, meta, input0, before));
                        let cur = ctx.diagnostics@;
                        assert(cur.subrange(0, dp.len() as int) == dp);
                        assert forall|q: int| 0 <= q < d0.len() implies cur[q] == d0[q] by {
                            assert(cur.subrange(0, dp.len() as int)[q] == cur[q]);
                            assert(dp.subrange(0, d0.len() as int)[q] == dp[q]);
                        }
                        assert(cur.subrange(0, d0.len() as int) =~= d0);
                        lemma_stage_counts(dp, cur, d0.len() as int);
                    }
                    return Err(e);
                },
            }
            k = k + 1;
        }
        assert(self.stages@.subrange(0, self.stages@.len() as int) =~= self.stages@);
        assert(runs(self.stages@, kind, meta, input0, data));
        Ok(data)
    }
}

} // verus!
