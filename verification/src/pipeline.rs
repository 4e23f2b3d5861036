//! The request path's decision core: one call that plans a chat query —
//! inference, aggregation selection, SQL lowering — and phrases the outcome
//! the way the response envelope reports it. Executing the SQL and shaping
//! the JSON envelope belong to the surrounding application.

use vstd::prelude::*;
use vstd::string::StringExecFns;
use crate::models::{Aggregation, DimensionValue, InferenceOptions, MetricDimensionEdge, NodeRole};
use crate::text::{contains_sub, str_contains_sub, trim_spec};
use crate::fst_engine::FstEngine;
use crate::tokenizer::{date_capture_of, SemanticInferenceEngine};
use crate::inference::{infer_spec, ErrorView, InferenceError, InferenceResult, PlanView};
use crate::lowering::{agg_keyword, agg_name, effective_agg, lower_to_sql, sql_spec};

verus! {

/// What one chat query resolves to, before execution.
#[derive(Debug)]
pub enum ChatOutcome {
    /// A plan was found; the SQL to run and the aggregation note.
    Success { sql: String, logic: String },
    /// No metric anchor: the user-facing refusal.
    Fail { answer: String },
    /// Several metrics, or an unsupported dimension in strict mode.
    Ambiguous { answer: String, candidates: Vec<String> },
}

/// Mathematical image of a `ChatOutcome`.
#[verifier::ext_equal]
pub enum OutcomeView {
    Success { sql: Seq<char>, logic: Seq<char> },
    Fail { answer: Seq<char> },
    Ambiguous { answer: Seq<char>, candidates: Seq<Seq<char>> },
}

impl View for ChatOutcome {
    type V = OutcomeView;

    open spec fn view(&self) -> OutcomeView {
        match self {
            ChatOutcome::Success { sql, logic } => OutcomeView::Success {
                sql: sql@,
                logic: logic@,
            },
            ChatOutcome::Fail { answer } => OutcomeView::Fail { answer: answer@ },
            ChatOutcome::Ambiguous { answer, candidates } => OutcomeView::Ambiguous {
                answer: answer@,
                candidates: candidates.deep_view(),
            },
        }
    }
}

/// The aggregation note of a successful answer.
pub open spec fn logic_note(agg: Aggregation) -> Seq<char> {
    "基于"@ + agg_keyword(agg) + "聚合"@
}

/// The refusal when no metric anchors the question.
pub open spec fn no_metric_answer() -> Seq<char> {
    "未识别到指标，请尝试输入具体指标名称（如：收益额）。"@
}

/// The note above the candidate list when several metrics match.
pub open spec fn ambiguous_answer() -> Seq<char> {
    "发现多个相似指标，请确认您的意图"@
}

/// The warning when a dimension falls outside the metric's support.
pub open spec fn tbox_answer(metric_label: Seq<char>, dimension_label: Seq<char>) -> Seq<char> {
    "业务语义警告：指标 '"@ + metric_label + "' 并不支持按 '"@ + dimension_label
        + "' 维度分析。"@
}

/// The outcome an inference result maps to: the lowered SQL with its note on
/// success, the phrased refusal otherwise.
pub open spec fn outcome_spec(res: Result<PlanView, ErrorView>, has_avg: bool) -> OutcomeView {
    match res {
        Ok(p) => OutcomeView::Success {
            sql: sql_spec(p, effective_agg(has_avg, p.metric.default_agg)),
            logic: logic_note(effective_agg(has_avg, p.metric.default_agg)),
        },
        Err(ErrorView::NoMetricAnchor) => OutcomeView::Fail { answer: no_metric_answer() },
        Err(ErrorView::MetricAmbiguous { candidates }) => OutcomeView::Ambiguous {
            answer: ambiguous_answer(),
            candidates,
        },
        Err(ErrorView::TBoxViolation { metric_label, dimension_label }) => OutcomeView::Ambiguous {
            answer: tbox_answer(metric_label, dimension_label),
            candidates: Seq::empty(),
        },
    }
}

/// Maps one inference result onto the reported outcome: the lowered SQL
/// with its aggregation note on success, the phrased refusal otherwise.
pub fn outcome_of(res: Result<InferenceResult, InferenceError>, has_avg: bool) -> (r: ChatOutcome)
    ensures
        r@ == outcome_spec(crate::inference::infer_result_view(res), has_avg),
{
    let out = match res {
        Ok(plan) => {
            let sql = lower_to_sql(&plan, has_avg);
            let mut logic = "基于".to_owned();
            logic.append(agg_name(if has_avg {
                Aggregation::Avg
            } else {
                plan.metric.default_agg
            }));
            logic.append("聚合");
            ChatOutcome::Success { sql, logic }
        },
        Err(InferenceError::NoMetricAnchor) => {
            ChatOutcome::Fail {
                answer: "未识别到指标，请尝试输入具体指标名称（如：收益额）。".to_owned(),
            }
        },
        Err(InferenceError::MetricAmbiguous { candidates }) => {
            ChatOutcome::Ambiguous {
                answer: "发现多个相似指标，请确认您的意图".to_owned(),
                candidates,
            }
        },
        Err(InferenceError::TBoxViolation { metric_label, dimension_label }) => {
            let mut answer = "业务语义警告：指标 '".to_owned();
            answer.append(metric_label.as_str());
            answer.append("' 并不支持按 '");
            answer.append(dimension_label.as_str());
            answer.append("' 维度分析。");
            let none: Vec<String> = Vec::new();
            proof {
                assert(none.deep_view() =~= Seq::<Seq<char>>::empty());
            }
            ChatOutcome::Ambiguous { answer, candidates: none }
        },
    };
    proof {
        assert(out@ =~= outcome_spec(crate::inference::infer_result_view(res), has_avg));
    }
    out
}

/// Plans one chat query: trims and segments it, infers a logical plan over
/// the given index, A-Box and T-Box, and phrases the outcome; a literal
/// "平均" anywhere in the raw query forces AVG.
pub fn chat_plan(
    engine: &SemanticInferenceEngine,
    index: &FstEngine,
    abox: &Vec<DimensionValue>,
    edges: &Vec<MetricDimensionEdge>,
    options: &InferenceOptions,
    query: &str,
) -> (r: ChatOutcome)
    ensures
        exists|toks: Seq<Seq<char>>|
            r@ == outcome_spec(
                infer_spec(
                    index.node_cache.deep_view(),
                    toks,
                    abox.deep_view(),
                    edges.deep_view(),
                    date_capture_of(trim_spec(query@)),
                    *options,
                ),
                contains_sub(query@, "平均"@),
            ),
        (forall|j: int|
            0 <= j < index.node_cache.deep_view().len()
                ==> (#[trigger] index.node_cache.deep_view()[j]).node_role != NodeRole::Metric)
            ==> r@ is Fail,
{
    let has_avg = str_contains_sub(query, "平均");
    let res = engine.infer(index, abox, edges, options, query);
    let ghost toks = choose|toks: Seq<Seq<char>>|
        crate::inference::infer_result_view(res) == infer_spec(
            index.node_cache.deep_view(),
            toks,
            abox.deep_view(),
            edges.deep_view(),
            date_capture_of(trim_spec(query@)),
            *options,
        );
    let out = outcome_of(res, has_avg);
    proof {
        assert(out@ == outcome_spec(
            infer_spec(
                index.node_cache.deep_view(),
                toks,
                abox.deep_view(),
                edges.deep_view(),
                date_capture_of(trim_spec(query@)),
                *options,
            ),
            contains_sub(query@, "平均"@),
        ));
        let nodes = index.node_cache.deep_view();
        if forall|j: int|
            0 <= j < nodes.len() ==> (#[trigger] nodes[j]).node_role != NodeRole::Metric {
            assert(res is Err && res->Err_0 is NoMetricAnchor);
            assert(crate::inference::infer_result_view(res) == Err::<PlanView, ErrorView>(
                ErrorView::NoMetricAnchor,
            ));
            assert(out@ is Fail);
        }
    }
    out
}

} // verus!
