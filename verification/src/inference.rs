//! The inference engine's decision core: from a token sequence, the node
//! list of the semantic index, the A-Box value rows, the T-Box edges and an
//! optional captured date to a logical plan or a typed error.
//!
//! The whole pipeline is specified by `infer_spec`; `infer_tokens` is proved
//! to return exactly what the specification says, for every input.

use vstd::prelude::*;
use vstd::string::StrSliceExecFns;
use crate::models::{
    FullSemanticNode, NodeView, NodeRole, DimensionValue, DimValueView, MetricDimensionEdge,
    InferenceOptions,
};
use crate::text::{lower_of, to_lower, str_eq};

verus! {

/// The logical plan: one anchored metric and the bound dimension filters, in
/// binding order, each carrying the physical value to embed.
#[derive(Debug)]
pub struct InferenceResult {
    pub metric: FullSemanticNode,
    pub filters: Vec<(FullSemanticNode, String)>,
}

/// Mathematical image of an `InferenceResult`.
#[verifier::ext_equal]
pub struct PlanView {
    pub metric: NodeView,
    pub filters: Seq<(NodeView, Seq<char>)>,
}

impl View for InferenceResult {
    type V = PlanView;

    open spec fn view(&self) -> PlanView {
        PlanView { metric: self.metric@, filters: self.filters.deep_view() }
    }
}

/// The typed failures of the inference layer.
#[derive(Debug)]
pub enum InferenceError {
    /// No token named any metric.
    NoMetricAnchor,
    /// Several distinct metrics matched (strict mode); their labels.
    MetricAmbiguous { candidates: Vec<String> },
    /// A candidate dimension is outside the metric's supported set (strict
    /// mode).
    TBoxViolation { metric_label: String, dimension_label: String },
}

/// Mathematical image of an `InferenceError`.
#[verifier::ext_equal]
pub enum ErrorView {
    NoMetricAnchor,
    MetricAmbiguous { candidates: Seq<Seq<char>> },
    TBoxViolation { metric_label: Seq<char>, dimension_label: Seq<char> },
}

impl View for InferenceError {
    type V = ErrorView;

    open spec fn view(&self) -> ErrorView {
        match self {
            InferenceError::NoMetricAnchor => ErrorView::NoMetricAnchor,
            InferenceError::MetricAmbiguous { candidates } => ErrorView::MetricAmbiguous {
                candidates: candidates.deep_view(),
            },
            InferenceError::TBoxViolation { metric_label, dimension_label } =>
                ErrorView::TBoxViolation {
                metric_label: metric_label@,
                dimension_label: dimension_label@,
            },
        }
    }
}

/// The image of a whole inference outcome.
pub open spec fn infer_result_view(r: Result<InferenceResult, InferenceError>) -> Result<
    PlanView,
    ErrorView,
> {
    match r {
        Ok(p) => Ok(p@),
        Err(e) => Err(e@),
    }
}

// ---------------------------------------------------------------------------
// Label scan
// ---------------------------------------------------------------------------

/// A lowercased token names the node: it equals the label or one alias.
pub open spec fn node_matches(n: NodeView, w: Seq<char>) -> bool {
    n.label == w || n.alias_names.contains(w)
}

/// The token (lowercased) names this metric node.
pub open spec fn is_metric_match(n: NodeView, tok: Seq<char>) -> bool {
    n.node_role == NodeRole::Metric && node_matches(n, lower_of(tok))
}

/// The token (lowercased) names this dimension node.
pub open spec fn is_dimension_match(n: NodeView, tok: Seq<char>) -> bool {
    n.node_role == NodeRole::Dimension && node_matches(n, lower_of(tok))
}

/// The metric nodes a single token matches, in index order.
pub open spec fn metrics_for_token(nodes: Seq<NodeView>, tok: Seq<char>) -> Seq<NodeView>
    decreases nodes.len(),
{
    if nodes.len() == 0 {
        Seq::empty()
    } else {
        metrics_for_token(nodes.drop_last(), tok) + (if is_metric_match(nodes.last(), tok) {
            seq![nodes.last()]
        } else {
            Seq::empty()
        })
    }
}

/// All matched metrics in scan order: token-major, index-minor.
pub open spec fn matched_metrics(nodes: Seq<NodeView>, toks: Seq<Seq<char>>) -> Seq<NodeView>
    decreases toks.len(),
{
    if toks.len() == 0 {
        Seq::empty()
    } else {
        matched_metrics(nodes, toks.drop_last()) + metrics_for_token(nodes, toks.last())
    }
}

// ---------------------------------------------------------------------------
// Candidate collection
// ---------------------------------------------------------------------------

/// The token after position `i` can serve as a context-captured value: it
/// exists, is no reserved particle, and is at least two characters long.
pub open spec fn capture_value_ok(toks: Seq<Seq<char>>, i: int) -> bool {
    &&& i + 1 < toks.len()
    &&& toks[i + 1] != "是"@
    &&& toks[i + 1] != "为"@
    &&& toks[i + 1].len() >= 2
}

/// Context-adjacent value capture for token `i`, over a node prefix.
pub open spec fn capture_candidates(nodes: Seq<NodeView>, toks: Seq<Seq<char>>, i: int) -> Seq<
    (NodeView, Seq<char>),
>
    decreases nodes.len(),
{
    if nodes.len() == 0 {
        Seq::empty()
    } else {
        capture_candidates(nodes.drop_last(), toks, i) + (if is_dimension_match(
            nodes.last(),
            toks[i],
        ) && capture_value_ok(toks, i) {
            seq![(nodes.last(), toks[i + 1])]
        } else {
            Seq::empty()
        })
    }
}

/// The first node with the given id, in index order.
pub open spec fn find_node(nodes: Seq<NodeView>, id: u128) -> Option<NodeView>
    decreases nodes.len(),
{
    if nodes.len() == 0 {
        None
    } else if nodes.first().id == id {
        Some(nodes.first())
    } else {
        find_node(nodes.drop_first(), id)
    }
}

/// A-Box candidates for one raw token: every value row whose label equals the
/// token and whose dimension is present in the index yields (dimension,
/// value_code).
pub open spec fn abox_candidates(
    nodes: Seq<NodeView>,
    abox: Seq<DimValueView>,
    tok: Seq<char>,
) -> Seq<(NodeView, Seq<char>)>
    decreases abox.len(),
{
    if abox.len() == 0 {
        Seq::empty()
    } else {
        abox_candidates(nodes, abox.drop_last(), tok) + (if abox.last().value_label == tok {
            match find_node(nodes, abox.last().dimension_node_id) {
                Some(n) => seq![(n, abox.last().value_code)],
                None => Seq::empty(),
            }
        } else {
            Seq::empty()
        })
    }
}

/// All candidates one token position contributes.
pub open spec fn candidates_for_token(
    nodes: Seq<NodeView>,
    abox: Seq<DimValueView>,
    toks: Seq<Seq<char>>,
    i: int,
    opts: InferenceOptions,
) -> Seq<(NodeView, Seq<char>)> {
    (if opts.context_capture {
        capture_candidates(nodes, toks, i)
    } else {
        Seq::empty()
    }) + abox_candidates(nodes, abox, toks[i])
}

/// Candidates of the first `n` token positions, in order.
pub open spec fn candidates_upto(
    nodes: Seq<NodeView>,
    abox: Seq<DimValueView>,
    toks: Seq<Seq<char>>,
    opts: InferenceOptions,
    n: int,
) -> Seq<(NodeView, Seq<char>)>
    decreases n,
{
    if n <= 0 {
        Seq::empty()
    } else {
        candidates_upto(nodes, abox, toks, opts, n - 1) + candidates_for_token(
            nodes,
            abox,
            toks,
            n - 1,
            opts,
        )
    }
}

/// All raw candidate bindings of the query.
pub open spec fn all_candidates(
    nodes: Seq<NodeView>,
    abox: Seq<DimValueView>,
    toks: Seq<Seq<char>>,
    opts: InferenceOptions,
) -> Seq<(NodeView, Seq<char>)> {
    candidates_upto(nodes, abox, toks, opts, toks.len() as int)
}

// ---------------------------------------------------------------------------
// Anchor, T-Box validation, de-duplication, date binding
// ---------------------------------------------------------------------------

/// Some node with this id occurs in the sequence.
pub open spec fn seen_id(ms: Seq<NodeView>, id: u128) -> bool {
    exists|k: int| 0 <= k < ms.len() && ms[k].id == id
}

/// The matched metrics with later repetitions of an id dropped.
pub open spec fn dedup_metrics(ms: Seq<NodeView>) -> Seq<NodeView>
    decreases ms.len(),
{
    if ms.len() == 0 {
        Seq::empty()
    } else {
        dedup_metrics(ms.drop_last()) + (if seen_id(ms.drop_last(), ms.last().id) {
            Seq::empty()
        } else {
            seq![ms.last()]
        })
    }
}

/// The labels of a node sequence, in order.
pub open spec fn labels_of(ms: Seq<NodeView>) -> Seq<Seq<char>>
    decreases ms.len(),
{
    if ms.len() == 0 {
        Seq::empty()
    } else {
        labels_of(ms.drop_last()) + seq![ms.last().label]
    }
}

/// The T-Box holds an edge from the metric to the dimension.
pub open spec fn edge_supported(
    edges: Seq<MetricDimensionEdge>,
    metric_id: u128,
    dim_id: u128,
) -> bool {
    exists|k: int|
        0 <= k < edges.len() && edges[k].metric_node_id == metric_id
            && edges[k].dimension_node_id == dim_id
}

/// The first candidate whose dimension the metric does not support.
pub open spec fn first_unsupported(
    cands: Seq<(NodeView, Seq<char>)>,
    edges: Seq<MetricDimensionEdge>,
    metric_id: u128,
) -> Option<(NodeView, Seq<char>)>
    decreases cands.len(),
{
    if cands.len() == 0 {
        None
    } else if !edge_supported(edges, metric_id, cands.first().0.id) {
        Some(cands.first())
    } else {
        first_unsupported(cands.drop_first(), edges, metric_id)
    }
}

/// Some candidate with this (dimension id, value) pair occurs.
pub open spec fn has_pair(cands: Seq<(NodeView, Seq<char>)>, id: u128, value: Seq<char>) -> bool {
    exists|k: int| 0 <= k < cands.len() && cands[k].0.id == id && cands[k].1 == value
}

/// Candidates that survive T-Box validation, first occurrence of each
/// (dimension id, value) pair kept, in first-seen order.
pub open spec fn validated_filters(
    cands: Seq<(NodeView, Seq<char>)>,
    edges: Seq<MetricDimensionEdge>,
    metric_id: u128,
) -> Seq<(NodeView, Seq<char>)>
    decreases cands.len(),
{
    if cands.len() == 0 {
        Seq::empty()
    } else {
        validated_filters(cands.drop_last(), edges, metric_id) + (if edge_supported(
            edges,
            metric_id,
            cands.last().0.id,
        ) && !has_pair(cands.drop_last(), cands.last().0.id, cands.last().1) {
            seq![cands.last()]
        } else {
            Seq::empty()
        })
    }
}

/// Some filter binds this dimension id.
pub open spec fn dim_bound(fs: Seq<(NodeView, Seq<char>)>, id: u128) -> bool {
    exists|k: int| 0 <= k < fs.len() && fs[k].0.id == id
}

/// Some surviving filter binds a DATE-typed dimension.
pub open spec fn has_date_filter(fs: Seq<(NodeView, Seq<char>)>) -> bool {
    exists|k: int| 0 <= k < fs.len() && fs[k].0.semantic_type == "DATE"@
}

/// Type-directed time bindings: every supported DATE-typed dimension in the
/// index that is not yet bound gets the captured date, in index order.
pub open spec fn date_bindings(
    nodes: Seq<NodeView>,
    edges: Seq<MetricDimensionEdge>,
    metric_id: u128,
    fs: Seq<(NodeView, Seq<char>)>,
    date: Seq<char>,
) -> Seq<(NodeView, Seq<char>)>
    decreases nodes.len(),
{
    if nodes.len() == 0 {
        Seq::empty()
    } else {
        let prev = date_bindings(nodes.drop_last(), edges, metric_id, fs, date);
        prev + (if edge_supported(edges, metric_id, nodes.last().id) && nodes.last().semantic_type
            == "DATE"@ && !dim_bound(fs + prev, nodes.last().id) {
            seq![(nodes.last(), date)]
        } else {
            Seq::empty()
        })
    }
}

/// The final filter list: the validated candidates, plus the time bindings
/// when a date was captured and no DATE-typed filter survived.
pub open spec fn final_filters(
    nodes: Seq<NodeView>,
    edges: Seq<MetricDimensionEdge>,
    metric_id: u128,
    vf: Seq<(NodeView, Seq<char>)>,
    date: Option<Seq<char>>,
) -> Seq<(NodeView, Seq<char>)> {
    match date {
        None => vf,
        Some(d) => if has_date_filter(vf) {
            vf
        } else {
            vf + date_bindings(nodes, edges, metric_id, vf, d)
        },
    }
}

// ---------------------------------------------------------------------------
// The whole pipeline as one specification
// ---------------------------------------------------------------------------

/// What the inference returns: the anchored metric with its validated,
/// de-duplicated and date-augmented filters, or the error the options call
/// for.
pub open spec fn infer_spec(
    nodes: Seq<NodeView>,
    toks: Seq<Seq<char>>,
    abox: Seq<DimValueView>,
    edges: Seq<MetricDimensionEdge>,
    date: Option<Seq<char>>,
    opts: InferenceOptions,
) -> Result<PlanView, ErrorView> {
    let ms = matched_metrics(nodes, toks);
    if ms.len() == 0 {
        Err(ErrorView::NoMetricAnchor)
    } else if opts.strict_metric && dedup_metrics(ms).len() > 1 {
        Err(ErrorView::MetricAmbiguous { candidates: labels_of(dedup_metrics(ms)) })
    } else {
        let metric = ms[0];
        let cands = all_candidates(nodes, abox, toks, opts);
        if opts.strict_tbox && first_unsupported(cands, edges, metric.id) is Some {
            Err(
                ErrorView::TBoxViolation {
                    metric_label: metric.label,
                    dimension_label: first_unsupported(cands, edges, metric.id)->Some_0.0.label,
                },
            )
        } else {
            let vf = validated_filters(cands, edges, metric.id);
            Ok(
                PlanView {
                    metric,
                    filters: final_filters(nodes, edges, metric.id, vf, date),
                },
            )
        }
    }
}

// ---------------------------------------------------------------------------
// Executable helpers
// ---------------------------------------------------------------------------

/// Whether the lowercased token names the node.
fn node_matches_exec(n: &FullSemanticNode, lw: &String) -> (r: bool)
    ensures
        r == node_matches(n@, lw@),
{
    if n.label.eq(lw) {
        return true;
    }
    let mut i: usize = 0;
    while i < n.alias_names.len()
        invariant
            i <= n.alias_names.len(),
            forall|k: int| 0 <= k < i ==> n@.alias_names[k] != lw@,
        decreases n.alias_names.len() - i,
    {
        if n.alias_names[i].eq(lw) {
            proof {
                assert(n@.alias_names[i as int] == lw@);
            }
            return true;
        }
        i = i + 1;
    }
    proof {
        assert(forall|k: int| 0 <= k < n@.alias_names.len() ==> n@.alias_names[k] != lw@);
    }
    false
}

/// Index of the first node with the given id, if any.
pub(crate) fn find_node_exec(nodes: &Vec<FullSemanticNode>, id: u128) -> (r: Option<usize>)
    ensures
        match r {
            Some(ix) => ix < nodes.len() && find_node(nodes.deep_view(), id) == Some(
                nodes.deep_view()[ix as int],
            ),
            None => find_node(nodes.deep_view(), id) is None,
        },
{
    let mut i: usize = 0;
    while i < nodes.len()
        invariant
            i <= nodes.len(),
            forall|k: int| 0 <= k < i ==> nodes.deep_view()[k].id != id,
        decreases nodes.len() - i,
    {
        if nodes[i].id == id {
            proof {
                lemma_find_node_at(nodes.deep_view(), id, i as int);
            }
            return Some(i);
        }
        i = i + 1;
    }
    proof {
        lemma_find_node_none(nodes.deep_view(), id);
    }
    None
}

proof fn lemma_find_node_at(nodes: Seq<NodeView>, id: u128, i: int)
    requires
        0 <= i < nodes.len(),
        forall|k: int| 0 <= k < i ==> nodes[k].id != id,
        nodes[i].id == id,
    ensures
        find_node(nodes, id) == Some(nodes[i]),
    decreases i,
{
    if i > 0 {
        lemma_find_node_at(nodes.drop_first(), id, i - 1);
    }
}

proof fn lemma_find_node_none(nodes: Seq<NodeView>, id: u128)
    requires
        forall|k: int| 0 <= k < nodes.len() ==> nodes[k].id != id,
    ensures
        find_node(nodes, id) is None,
    decreases nodes.len(),
{
    if nodes.len() > 0 {
        lemma_find_node_none(nodes.drop_first(), id);
    }
}

/// Whether the T-Box holds the edge metric -> dimension.
fn edge_supported_exec(edges: &Vec<MetricDimensionEdge>, metric_id: u128, dim_id: u128) -> (r:
    bool)
    ensures
        r == edge_supported(edges.deep_view(), metric_id, dim_id),
{
    let mut i: usize = 0;
    while i < edges.len()
        invariant
            i <= edges.len(),
            forall|k: int|
                0 <= k < i ==> !(edges.deep_view()[k].metric_node_id == metric_id
                    && edges.deep_view()[k].dimension_node_id == dim_id),
        decreases edges.len() - i,
    {
        if edges[i].metric_node_id == metric_id && edges[i].dimension_node_id == dim_id {
            proof {
                assert(edges.deep_view()[i as int].metric_node_id == metric_id);
            }
            return true;
        }
        i = i + 1;
    }
    false
}

/// Whether some already-kept filter carries the same (dimension id, value).
fn has_pair_exec(fs: &Vec<(FullSemanticNode, String)>, id: u128, value: &String) -> (r: bool)
    ensures
        r == has_pair(fs.deep_view(), id, value@),
{
    let mut i: usize = 0;
    while i < fs.len()
        invariant
            i <= fs.len(),
            forall|k: int|
                0 <= k < i ==> !(fs.deep_view()[k].0.id == id && fs.deep_view()[k].1 == value@),
        decreases fs.len() - i,
    {
        if fs[i].0.id == id && fs[i].1.eq(value) {
            proof {
                assert(fs.deep_view()[i as int].0.id == id && fs.deep_view()[i as int].1
                    == value@);
            }
            return true;
        }
        i = i + 1;
    }
    false
}

/// Whether some already-kept filter binds the dimension id.
fn dim_bound_exec(fs: &Vec<(FullSemanticNode, String)>, id: u128) -> (r: bool)
    ensures
        r == dim_bound(fs.deep_view(), id),
{
    let mut i: usize = 0;
    while i < fs.len()
        invariant
            i <= fs.len(),
            forall|k: int| 0 <= k < i ==> fs.deep_view()[k].0.id != id,
        decreases fs.len() - i,
    {
        if fs[i].0.id == id {
            proof {
                assert(fs.deep_view()[i as int].0.id == id);
            }
            return true;
        }
        i = i + 1;
    }
    false
}

/// Whether some already-kept filter binds a DATE-typed dimension.
fn has_date_filter_exec(fs: &Vec<(FullSemanticNode, String)>) -> (r: bool)
    ensures
        r == has_date_filter(fs.deep_view()),
{
    let mut i: usize = 0;
    while i < fs.len()
        invariant
            i <= fs.len(),
            forall|k: int| 0 <= k < i ==> fs.deep_view()[k].0.semantic_type != "DATE"@,
        decreases fs.len() - i,
    {
        if str_eq(fs[i].0.semantic_type.as_str(), "DATE") {
            proof {
                assert(fs.deep_view()[i as int].0.semantic_type == "DATE"@);
            }
            return true;
        }
        i = i + 1;
    }
    false
}

/// Whether a node with this id was already collected.
fn contains_id_exec(ms: &Vec<FullSemanticNode>, id: u128) -> (r: bool)
    ensures
        r == seen_id(ms.deep_view(), id),
{
    let mut i: usize = 0;
    while i < ms.len()
        invariant
            i <= ms.len(),
            forall|k: int| 0 <= k < i ==> ms.deep_view()[k].id != id,
        decreases ms.len() - i,
    {
        if ms[i].id == id {
            proof {
                assert(ms.deep_view()[i as int].id == id);
            }
            return true;
        }
        i = i + 1;
    }
    false
}

// ---------------------------------------------------------------------------
// The inference itself
// ---------------------------------------------------------------------------

/// Runs the whole decision pipeline on an already-segmented query.
///
/// `index_nodes` is the node list of the semantic index, `tokens` the raw
/// token sequence, `abox` the known dimension values, `edges` the T-Box, and
/// `captured_date` the date string the pre-extraction found, if any.
#[verifier::loop_isolation(false)]
#[verifier::rlimit(60)]
pub fn infer_tokens(
    index_nodes: &Vec<FullSemanticNode>,
    tokens: &Vec<String>,
    abox: &Vec<DimensionValue>,
    edges: &Vec<MetricDimensionEdge>,
    captured_date: &Option<String>,
    options: &InferenceOptions,
) -> (r: Result<InferenceResult, InferenceError>)
    ensures
        infer_result_view(r) == infer_spec(
            index_nodes.deep_view(),
            tokens.deep_view(),
            abox.deep_view(),
            edges.deep_view(),
            captured_date.deep_view(),
            *options,
        ),
{
    let ghost nodes = index_nodes.deep_view();
    let ghost toks = tokens.deep_view();
    let ghost aboxv = abox.deep_view();
    let ghost edgesv = edges.deep_view();
    let ghost datev = captured_date.deep_view();

    // Label scan: collect matched metrics in token-major order.
    let mut metrics: Vec<FullSemanticNode> = Vec::new();
    let mut ti: usize = 0;
    while ti < tokens.len()
        invariant
            ti <= tokens.len(),
            nodes == index_nodes.deep_view(),
            toks == tokens.deep_view(),
            metrics.deep_view() =~= matched_metrics(nodes, toks.take(ti as int)),
        decreases tokens.len() - ti,
    {
        let lw = to_lower(tokens[ti].as_str());
        let mut nj: usize = 0;
        while nj < index_nodes.len()
            invariant
                nj <= index_nodes.len(),
                ti < tokens.len(),
                nodes == index_nodes.deep_view(),
                toks == tokens.deep_view(),
                lw@ == lower_of(toks[ti as int]),
                metrics.deep_view() =~= matched_metrics(nodes, toks.take(ti as int))
                    + metrics_for_token(nodes.take(nj as int), toks[ti as int]),
            decreases index_nodes.len() - nj,
        {
            let ghost pre = metrics.deep_view();
            let is_metric = index_nodes[nj].node_role == NodeRole::Metric;
            if is_metric && node_matches_exec(&index_nodes[nj], &lw) {
                let dup = index_nodes[nj].duplicate();
                metrics.push(dup);
                proof {
                    assert(metrics.deep_view() =~= pre.push(nodes[nj as int]));
                }
            }
            proof {
                assert(nodes.take(nj + 1).drop_last() =~= nodes.take(nj as int));
                assert(nodes.take(nj + 1).last() == nodes[nj as int]);
            }
            nj = nj + 1;
        }
        proof {
            assert(nodes.take(index_nodes.len() as int) =~= nodes);
            assert(toks.take(ti + 1).drop_last() =~= toks.take(ti as int));
            assert(toks.take(ti + 1).last() == toks[ti as int]);
        }
        ti = ti + 1;
    }
    proof {
        assert(toks.take(tokens.len() as int) =~= toks);
    }
    let ghost ms = matched_metrics(nodes, toks);
    assert(metrics.deep_view() == ms);

    // Candidate collection: context capture (when enabled) and A-Box scan,
    // token-major.
    let mut cands: Vec<(FullSemanticNode, String)> = Vec::new();
    let mut ci: usize = 0;
    while ci < tokens.len()
        invariant
            ci <= tokens.len(),
            nodes == index_nodes.deep_view(),
            toks == tokens.deep_view(),
            aboxv == abox.deep_view(),
            cands.deep_view() =~= candidates_upto(nodes, aboxv, toks, *options, ci as int),
        decreases tokens.len() - ci,
    {
        let ghost at_entry = cands.deep_view();
        // Context capture over the index nodes.
        if options.context_capture {
            let lw = to_lower(tokens[ci].as_str());
            let mut nj: usize = 0;
            while nj < index_nodes.len()
                invariant
                    nj <= index_nodes.len(),
                    ci < tokens.len(),
                    nodes == index_nodes.deep_view(),
                    toks == tokens.deep_view(),
                    lw@ == lower_of(toks[ci as int]),
                    cands.deep_view() =~= at_entry + capture_candidates(
                        nodes.take(nj as int),
                        toks,
                        ci as int,
                    ),
                decreases index_nodes.len() - nj,
            {
                let ghost pre = cands.deep_view();
                let is_dim = index_nodes[nj].node_role == NodeRole::Dimension;
                if is_dim && node_matches_exec(&index_nodes[nj], &lw) {
                    if ci + 1 < tokens.len() {
                        let next = &tokens[ci + 1];
                        if next.as_str().unicode_len() >= 2 && !str_eq(next.as_str(), "是")
                            && !str_eq(next.as_str(), "为") {
                            let dup = index_nodes[nj].duplicate();
                            cands.push((dup, next.clone()));
                            proof {
                                assert(capture_value_ok(toks, ci as int));
                                assert(cands.deep_view() =~= pre.push(
                                    (nodes[nj as int], toks[ci + 1]),
                                ));
                            }
                        } else {
                            proof {
                                assert(!capture_value_ok(toks, ci as int));
                            }
                        }
                    } else {
                        proof {
                            assert(!capture_value_ok(toks, ci as int));
                        }
                    }
                }
                proof {
                    assert(nodes.take(nj + 1).drop_last() =~= nodes.take(nj as int));
                    assert(nodes.take(nj + 1).last() == nodes[nj as int]);
                }
                nj = nj + 1;
            }
            proof {
                assert(nodes.take(index_nodes.len() as int) =~= nodes);
            }
        }
        let ghost after_capture = cands.deep_view();
        proof {
            if options.context_capture {
                assert(after_capture =~= at_entry + capture_candidates(nodes, toks, ci as int));
            } else {
                assert(after_capture =~= at_entry + Seq::<(NodeView, Seq<char>)>::empty());
            }
        }
        // A-Box scan for the raw token.
        let mut ai: usize = 0;
        while ai < abox.len()
            invariant
                ai <= abox.len(),
                ci < tokens.len(),
                nodes == index_nodes.deep_view(),
                toks == tokens.deep_view(),
                aboxv == abox.deep_view(),
                cands.deep_view() =~= after_capture + abox_candidates(
                    nodes,
                    aboxv.take(ai as int),
                    toks[ci as int],
                ),
            decreases abox.len() - ai,
        {
            let ghost pre = cands.deep_view();
            if abox[ai].value_label.eq(&tokens[ci]) {
                match find_node_exec(index_nodes, abox[ai].dimension_node_id) {
                    Some(ix) => {
                        let dup = index_nodes[ix].duplicate();
                        cands.push((dup, abox[ai].value_code.clone()));
                        proof {
                            assert(cands.deep_view() =~= pre.push(
                                (
                                    find_node(nodes, aboxv[ai as int].dimension_node_id)->Some_0,
                                    aboxv[ai as int].value_code,
                                ),
                            ));
                        }
                    },
                    None => {
                    },
                }
            }
            proof {
                assert(aboxv.take(ai + 1).drop_last() =~= aboxv.take(ai as int));
                assert(aboxv.take(ai + 1).last() == aboxv[ai as int]);
            }
            ai = ai + 1;
        }
        proof {
            assert(aboxv.take(abox.len() as int) =~= aboxv);
            assert(cands.deep_view() =~= at_entry + candidates_for_token(
                nodes,
                aboxv,
                toks,
                ci as int,
                *options,
            ));
        }
        ci = ci + 1;
    }
    let ghost candsv = all_candidates(nodes, aboxv, toks, *options);
    assert(cands.deep_view() == candsv);

    // Anchor selection.
    if metrics.len() == 0 {
        assert(ms.len() == 0);
        return Err(InferenceError::NoMetricAnchor);
    }

    // Strict multi-metric reporting.
    if options.strict_metric {
        let mut distinct: Vec<FullSemanticNode> = Vec::new();
        let mut mi: usize = 0;
        while mi < metrics.len()
            invariant
                mi <= metrics.len(),
                ms == metrics.deep_view(),
                distinct.deep_view() =~= dedup_metrics(ms.take(mi as int)),
                forall|id: u128|
                    #[trigger] seen_id(ms.take(mi as int), id) == seen_id(
                        distinct.deep_view(),
                        id,
                    ),
            decreases metrics.len() - mi,
        {
            let ghost pre = distinct.deep_view();
            let already = contains_id_exec(&distinct, metrics[mi].id);
            proof {
                assert(seen_id(ms.take(mi as int), ms[mi as int].id) == already);
            }
            if !already {
                let dup = metrics[mi].duplicate();
                distinct.push(dup);
                proof {
                    assert(distinct.deep_view() =~= pre.push(ms[mi as int]));
                }
            }
            proof {
                assert(ms.take(mi + 1).drop_last() =~= ms.take(mi as int));
                assert(ms.take(mi + 1).last() == ms[mi as int]);
                let ghost snew = ms.take(mi + 1);
                let ghost sold = ms.take(mi as int);
                let ghost dnew = distinct.deep_view();
                assert forall|id: u128| #[trigger] seen_id(snew, id) == seen_id(dnew, id) by {
                    if seen_id(snew, id) {
                        let k = choose|k: int| 0 <= k < snew.len() && #[trigger] snew[k].id == id;
                        if k < mi {
                            assert(sold[k].id == id);
                            assert(seen_id(sold, id));
                        } else {
                            assert(ms[mi as int].id == id);
                            assert(seen_id(sold, id) == seen_id(pre, id));
                            if !seen_id(pre, id) {
                                assert(dnew[dnew.len() - 1].id == id);
                            } else {
                                let j = choose|j: int|
                                    0 <= j < pre.len() && #[trigger] pre[j].id == id;
                                assert(dnew[j].id == id);
                            }
                        }
                        if seen_id(sold, id) {
                            assert(seen_id(pre, id));
                            let j = choose|j: int|
                                0 <= j < pre.len() && #[trigger] pre[j].id == id;
                            assert(dnew[j].id == id);
                        }
                        assert(seen_id(dnew, id));
                    }
                    if seen_id(dnew, id) {
                        let k = choose|k: int| 0 <= k < dnew.len() && #[trigger] dnew[k].id == id;
                        if k < pre.len() {
                            assert(pre[k].id == id);
                            assert(seen_id(pre, id));
                            assert(seen_id(sold, id));
                            let j = choose|j: int|
                                0 <= j < sold.len() && #[trigger] sold[j].id == id;
                            assert(snew[j].id == id);
                        } else {
                            assert(dnew[k] == ms[mi as int]);
                            assert(snew[mi as int].id == id);
                        }
                        assert(seen_id(snew, id));
                    }
                }
            }
            mi = mi + 1;
        }
        proof {
            assert(ms.take(metrics.len() as int) =~= ms);
        }
        assert(distinct.deep_view() == dedup_metrics(ms));
        if distinct.len() > 1 {
            let mut labels: Vec<String> = Vec::new();
            let mut li: usize = 0;
            while li < distinct.len()
                invariant
                    li <= distinct.len(),
                    labels.deep_view() =~= labels_of(distinct.deep_view().take(li as int)),
                decreases distinct.len() - li,
            {
                let ghost pre = labels.deep_view();
                labels.push(distinct[li].label.clone());
                proof {
                    let dv = distinct.deep_view();
                    assert(labels.deep_view() =~= pre.push(dv[li as int].label));
                    assert(dv.take(li + 1).drop_last() =~= dv.take(li as int));
                    assert(dv.take(li + 1).last() == dv[li as int]);
                }
                li = li + 1;
            }
            proof {
                assert(distinct.deep_view().take(distinct.len() as int) =~= distinct.deep_view());
            }
            let e = InferenceError::MetricAmbiguous { candidates: labels };
            assert(e@ =~= ErrorView::MetricAmbiguous { candidates: labels_of(dedup_metrics(ms)) });
            return Err(e);
        }
    }

    let metric = metrics[0].duplicate();
    assert(metric@ == ms[0]);

    // Strict T-Box reporting.
    if options.strict_tbox {
        let mut ki: usize = 0;
        while ki < cands.len()
            invariant
                ki <= cands.len(),
                candsv == cands.deep_view(),
                edgesv == edges.deep_view(),
                metric@ == ms[0],
                forall|k: int|
                    0 <= k < ki ==> edge_supported(edgesv, ms[0].id, candsv[k].0.id),
            decreases cands.len() - ki,
        {
            if !edge_supported_exec(edges, metric.id, cands[ki].0.id) {
                proof {
                    lemma_first_unsupported_at(candsv, edgesv, ms[0].id, ki as int);
                }
                let e = InferenceError::TBoxViolation {
                    metric_label: metric.label.clone(),
                    dimension_label: cands[ki].0.label.clone(),
                };
                assert(e@ =~= ErrorView::TBoxViolation {
                    metric_label: ms[0].label,
                    dimension_label: first_unsupported(candsv, edgesv, ms[0].id)->Some_0.0.label,
                });
                return Err(e);
            }
            ki = ki + 1;
        }
        proof {
            lemma_first_unsupported_none(candsv, edgesv, ms[0].id);
        }
    }

    // T-Box validation and de-duplication.
    let mut filters: Vec<(FullSemanticNode, String)> = Vec::new();
    let mut vi: usize = 0;
    while vi < cands.len()
        invariant
            vi <= cands.len(),
            candsv == cands.deep_view(),
            edgesv == edges.deep_view(),
            metric@ == ms[0],
            filters.deep_view() =~= validated_filters(candsv.take(vi as int), edgesv, ms[0].id),
        decreases cands.len() - vi,
    {
        let ghost pre = filters.deep_view();
        let supported = edge_supported_exec(edges, metric.id, cands[vi].0.id);
        if supported {
            let dup_now = !has_pair_exec(&filters, cands[vi].0.id, &cands[vi].1);
            proof {
                lemma_validated_pairs(candsv.take(vi as int), edgesv, ms[0].id);
                assert(has_pair(pre, candsv[vi as int].0.id, candsv[vi as int].1) == (has_pair(
                    candsv.take(vi as int),
                    candsv[vi as int].0.id,
                    candsv[vi as int].1,
                ) && edge_supported(edgesv, ms[0].id, candsv[vi as int].0.id)));
            }
            if dup_now {
                let dup = cands[vi].0.duplicate();
                let val = cands[vi].1.clone();
                filters.push((dup, val));
                proof {
                    assert(filters.deep_view() =~= pre.push(candsv[vi as int]));
                }
            }
        }
        proof {
            assert(candsv.take(vi + 1).drop_last() =~= candsv.take(vi as int));
            assert(candsv.take(vi + 1).last() == candsv[vi as int]);
        }
        vi = vi + 1;
    }
    proof {
        assert(candsv.take(cands.len() as int) =~= candsv);
    }
    let ghost vf = validated_filters(candsv, edgesv, ms[0].id);
    assert(filters.deep_view() == vf);

    // Type-directed time binding.
    match captured_date {
        None => {
        },
        Some(d) => {
            if !has_date_filter_exec(&filters) {
                let mut nj: usize = 0;
                while nj < index_nodes.len()
                    invariant
                        nj <= index_nodes.len(),
                        nodes == index_nodes.deep_view(),
                        edgesv == edges.deep_view(),
                        metric@ == ms[0],
                        d@ == datev->Some_0,
                        filters.deep_view() =~= vf + date_bindings(
                            nodes.take(nj as int),
                            edgesv,
                            ms[0].id,
                            vf,
                            d@,
                        ),
                    decreases index_nodes.len() - nj,
                {
                    let ghost pre = filters.deep_view();
                    let supported = edge_supported_exec(edges, metric.id, index_nodes[nj].id);
                    if supported && str_eq(index_nodes[nj].semantic_type.as_str(), "DATE")
                        && !dim_bound_exec(&filters, index_nodes[nj].id) {
                        let dup = index_nodes[nj].duplicate();
                        filters.push((dup, d.clone()));
                        proof {
                            assert(filters.deep_view() =~= pre.push((nodes[nj as int], d@)));
                        }
                    }
                    proof {
                        assert(nodes.take(nj + 1).drop_last() =~= nodes.take(nj as int));
                        assert(nodes.take(nj + 1).last() == nodes[nj as int]);
                    }
                    nj = nj + 1;
                }
                proof {
                    assert(nodes.take(index_nodes.len() as int) =~= nodes);
                }
            }
        },
    }

    let out = InferenceResult { metric, filters };
    proof {
        assert(out@ =~= infer_spec(nodes, toks, aboxv, edgesv, datev, *options)->Ok_0);
    }
    Ok(out)
}

proof fn lemma_first_unsupported_at(
    cands: Seq<(NodeView, Seq<char>)>,
    edges: Seq<MetricDimensionEdge>,
    metric_id: u128,
    i: int,
)
    requires
        0 <= i < cands.len(),
        forall|k: int| 0 <= k < i ==> edge_supported(edges, metric_id, cands[k].0.id),
        !edge_supported(edges, metric_id, cands[i].0.id),
    ensures
        first_unsupported(cands, edges, metric_id) == Some(cands[i]),
    decreases i,
{
    if i > 0 {
        lemma_first_unsupported_at(cands.drop_first(), edges, metric_id, i - 1);
    }
}

proof fn lemma_first_unsupported_none(
    cands: Seq<(NodeView, Seq<char>)>,
    edges: Seq<MetricDimensionEdge>,
    metric_id: u128,
)
    requires
        forall|k: int| 0 <= k < cands.len() ==> edge_supported(edges, metric_id, cands[k].0.id),
    ensures
        first_unsupported(cands, edges, metric_id) is None,
    decreases cands.len(),
{
    if cands.len() > 0 {
        lemma_first_unsupported_none(cands.drop_first(), edges, metric_id);
    }
}

/// In the validated filters a pair occurs exactly when it occurs among the
/// candidates and its dimension is supported.
proof fn lemma_validated_pairs(
    cands: Seq<(NodeView, Seq<char>)>,
    edges: Seq<MetricDimensionEdge>,
    metric_id: u128,
)
    ensures
        forall|id: u128, v: Seq<char>|
            #[trigger] has_pair(validated_filters(cands, edges, metric_id), id, v) == (has_pair(
                cands,
                id,
                v,
            ) && edge_supported(edges, metric_id, id)),
    decreases cands.len(),
{
    if cands.len() > 0 {
        let prefix = cands.drop_last();
        lemma_validated_pairs(prefix, edges, metric_id);
        let whole = validated_filters(cands, edges, metric_id);
        let part = validated_filters(prefix, edges, metric_id);
        assert forall|id: u128, v: Seq<char>| #[trigger]
            has_pair(whole, id, v) == (has_pair(cands, id, v) && edge_supported(
                edges,
                metric_id,
                id,
            )) by {
            if has_pair(whole, id, v) {
                let k = choose|k: int| 0 <= k < whole.len() && whole[k].0.id == id && whole[k].1
                    == v;
                if k < part.len() {
                    assert(has_pair(part, id, v));
                    let j = choose|j: int|
                        0 <= j < prefix.len() && prefix[j].0.id == id && prefix[j].1 == v;
                    assert(cands[j].0.id == id && cands[j].1 == v);
                    assert(has_pair(cands, id, v));
                } else {
                    assert(whole[k] == cands.last());
                    assert(cands[cands.len() - 1].0.id == id && cands[cands.len() - 1].1 == v);
                    assert(has_pair(cands, id, v));
                }
            }
            if has_pair(cands, id, v) && edge_supported(edges, metric_id, id) {
                let k = choose|k: int| 0 <= k < cands.len() && cands[k].0.id == id && cands[k].1
                    == v;
                if k < cands.len() - 1 {
                    assert(prefix[k].0.id == id && prefix[k].1 == v);
                    assert(has_pair(prefix, id, v));
                    assert(has_pair(part, id, v));
                    let j = choose|j: int| 0 <= j < part.len() && part[j].0.id == id && part[j].1
                        == v;
                    assert(whole[j].0.id == id && whole[j].1 == v);
                    assert(has_pair(whole, id, v));
                } else {
                    if has_pair(prefix, cands.last().0.id, cands.last().1) {
                        assert(has_pair(part, id, v));
                        let j = choose|j: int|
                            0 <= j < part.len() && part[j].0.id == id && part[j].1 == v;
                        assert(whole[j].0.id == id && whole[j].1 == v);
                        assert(has_pair(whole, id, v));
                    } else {
                        assert(whole.last().0.id == id && whole.last().1 == v);
                        assert(has_pair(whole, id, v));
                    }
                }
            }
        }
    }
}

// ---------------------------------------------------------------------------
// Laws of the inference
// ---------------------------------------------------------------------------

proof fn lemma_metrics_for_token_empty(nodes: Seq<NodeView>, tok: Seq<char>)
    requires
        forall|j: int| 0 <= j < nodes.len() ==> !is_metric_match(nodes[j], tok),
    ensures
        metrics_for_token(nodes, tok) == Seq::<NodeView>::empty(),
    decreases nodes.len(),
{
    if nodes.len() > 0 {
        let prefix = nodes.drop_last();
        assert(forall|j: int| 0 <= j < prefix.len() ==> !is_metric_match(#[trigger] prefix[j], tok));
        lemma_metrics_for_token_empty(prefix, tok);
        assert(metrics_for_token(nodes, tok) =~= Seq::<NodeView>::empty());
    }
}

proof fn lemma_matched_metrics_empty(nodes: Seq<NodeView>, toks: Seq<Seq<char>>)
    requires
        forall|i: int, j: int|
            0 <= i < toks.len() && 0 <= j < nodes.len() ==> !is_metric_match(nodes[j], toks[i]),
    ensures
        matched_metrics(nodes, toks) == Seq::<NodeView>::empty(),
    decreases toks.len(),
{
    if toks.len() > 0 {
        let prefix = toks.drop_last();
        assert(forall|i: int, j: int|
            #![trigger nodes[j], prefix[i]]
            0 <= i < prefix.len() && 0 <= j < nodes.len() ==> !is_metric_match(
                nodes[j],
                prefix[i],
            ));
        lemma_matched_metrics_empty(nodes, prefix);
        assert(forall|j: int| 0 <= j < nodes.len() ==> !is_metric_match(
            #[trigger] nodes[j],
            toks.last(),
        ));
        lemma_metrics_for_token_empty(nodes, toks.last());
        assert(matched_metrics(nodes, toks) =~= Seq::<NodeView>::empty());
    }
}

/// Law: if no token names any metric, the inference fails with
/// `NoMetricAnchor`, whatever the index, the A-Box, the edges, the captured
/// date and the options.
pub proof fn lemma_no_metric_token_fails(
    nodes: Seq<NodeView>,
    toks: Seq<Seq<char>>,
    abox: Seq<DimValueView>,
    edges: Seq<MetricDimensionEdge>,
    date: Option<Seq<char>>,
    opts: InferenceOptions,
)
    requires
        forall|i: int, j: int|
            0 <= i < toks.len() && 0 <= j < nodes.len() ==> !is_metric_match(nodes[j], toks[i]),
    ensures
        infer_spec(nodes, toks, abox, edges, date, opts) == Err::<PlanView, ErrorView>(
            ErrorView::NoMetricAnchor,
        ),
{
    lemma_matched_metrics_empty(nodes, toks);
}

proof fn lemma_validated_supported(
    cands: Seq<(NodeView, Seq<char>)>,
    edges: Seq<MetricDimensionEdge>,
    metric_id: u128,
)
    ensures
        forall|k: int|
            0 <= k < validated_filters(cands, edges, metric_id).len() ==> edge_supported(
                edges,
                metric_id,
                #[trigger] validated_filters(cands, edges, metric_id)[k].0.id,
            ),
    decreases cands.len(),
{
    if cands.len() > 0 {
        lemma_validated_supported(cands.drop_last(), edges, metric_id);
    }
}

proof fn lemma_validated_distinct(
    cands: Seq<(NodeView, Seq<char>)>,
    edges: Seq<MetricDimensionEdge>,
    metric_id: u128,
)
    ensures
        forall|k1: int, k2: int|
            #![trigger validated_filters(cands, edges, metric_id)[k1],
                validated_filters(cands, edges, metric_id)[k2]]
            0 <= k1 < k2 < validated_filters(cands, edges, metric_id).len() ==> !(
            validated_filters(cands, edges, metric_id)[k1].0.id == validated_filters(
                cands,
                edges,
                metric_id,
            )[k2].0.id && validated_filters(cands, edges, metric_id)[k1].1 == validated_filters(
                cands,
                edges,
                metric_id,
            )[k2].1),
    decreases cands.len(),
{
    if cands.len() > 0 {
        let prefix = cands.drop_last();
        lemma_validated_distinct(prefix, edges, metric_id);
        let whole = validated_filters(cands, edges, metric_id);
        let part = validated_filters(prefix, edges, metric_id);
        if whole.len() > part.len() {
            // The appended candidate's pair occurs nowhere in the validated
            // prefix.
            lemma_validated_pairs(prefix, edges, metric_id);
            assert(!has_pair(prefix, cands.last().0.id, cands.last().1));
            assert forall|k1: int, k2: int|
                #![trigger whole[k1], whole[k2]]
                0 <= k1 < k2 < whole.len() implies !(whole[k1].0.id == whole[k2].0.id
                && whole[k1].1 == whole[k2].1) by {
                if k2 == part.len() {
                    assert(whole[k2] == cands.last());
                    assert(whole[k1] == part[k1]);
                    if whole[k1].0.id == cands.last().0.id && whole[k1].1 == cands.last().1 {
                        assert(has_pair(part, cands.last().0.id, cands.last().1));
                    }
                }
            }
        }
    }
}

proof fn lemma_date_bindings_facts(
    nodes: Seq<NodeView>,
    edges: Seq<MetricDimensionEdge>,
    metric_id: u128,
    fs: Seq<(NodeView, Seq<char>)>,
    date: Seq<char>,
)
    ensures
        forall|k: int|
            0 <= k < date_bindings(nodes, edges, metric_id, fs, date).len() ==> edge_supported(
                edges,
                metric_id,
                #[trigger] date_bindings(nodes, edges, metric_id, fs, date)[k].0.id,
            ),
        forall|k: int|
            0 <= k < date_bindings(nodes, edges, metric_id, fs, date).len() ==> !dim_bound(
                fs,
                #[trigger] date_bindings(nodes, edges, metric_id, fs, date)[k].0.id,
            ),
        forall|k1: int, k2: int|
            #![trigger date_bindings(nodes, edges, metric_id, fs, date)[k1],
                date_bindings(nodes, edges, metric_id, fs, date)[k2]]
            0 <= k1 < k2 < date_bindings(nodes, edges, metric_id, fs, date).len()
                ==> date_bindings(nodes, edges, metric_id, fs, date)[k1].0.id != date_bindings(
                nodes,
                edges,
                metric_id,
                fs,
                date,
            )[k2].0.id,
    decreases nodes.len(),
{
    if nodes.len() > 0 {
        let prev = date_bindings(nodes.drop_last(), edges, metric_id, fs, date);
        lemma_date_bindings_facts(nodes.drop_last(), edges, metric_id, fs, date);
        let whole = date_bindings(nodes, edges, metric_id, fs, date);
        if whole.len() > prev.len() {
            let id = nodes.last().id;
            assert(!dim_bound(fs + prev, id));
            assert(!dim_bound(fs, id)) by {
                if dim_bound(fs, id) {
                    let k = choose|k: int| 0 <= k < fs.len() && #[trigger] fs[k].0.id == id;
                    assert((fs + prev)[k].0.id == id);
                }
            }
            assert forall|k: int| 0 <= k < prev.len() implies #[trigger] prev[k].0.id != id by {
                if prev[k].0.id == id {
                    assert((fs + prev)[fs.len() + k].0.id == id);
                }
            }
        }
    }
}

/// Law: every filter of a successful plan binds a dimension the anchored
/// metric supports in the T-Box.
pub proof fn lemma_filters_supported(
    nodes: Seq<NodeView>,
    toks: Seq<Seq<char>>,
    abox: Seq<DimValueView>,
    edges: Seq<MetricDimensionEdge>,
    date: Option<Seq<char>>,
    opts: InferenceOptions,
    p: PlanView,
)
    requires
        infer_spec(nodes, toks, abox, edges, date, opts) == Ok::<PlanView, ErrorView>(p),
    ensures
        forall|k: int|
            0 <= k < p.filters.len() ==> edge_supported(
                edges,
                p.metric.id,
                #[trigger] p.filters[k].0.id,
            ),
{
    let ms = matched_metrics(nodes, toks);
    let metric = ms[0];
    let cands = all_candidates(nodes, abox, toks, opts);
    let vf = validated_filters(cands, edges, metric.id);
    lemma_validated_supported(cands, edges, metric.id);
    assert(p.metric == metric);
    match date {
        None => {},
        Some(d) => {
            if !has_date_filter(vf) {
                lemma_date_bindings_facts(nodes, edges, metric.id, vf, d);
                let db = date_bindings(nodes, edges, metric.id, vf, d);
                assert forall|k: int| 0 <= k < p.filters.len() implies edge_supported(
                    edges,
                    p.metric.id,
                    #[trigger] p.filters[k].0.id,
                ) by {
                    if k < vf.len() {
                        assert(p.filters[k] == vf[k]);
                    } else {
                        assert(p.filters[k] == db[k - vf.len()]);
                    }
                }
            }
        },
    }
}

/// Law: the filters of a successful plan carry pairwise distinct
/// (dimension id, value) keys.
pub proof fn lemma_filters_distinct(
    nodes: Seq<NodeView>,
    toks: Seq<Seq<char>>,
    abox: Seq<DimValueView>,
    edges: Seq<MetricDimensionEdge>,
    date: Option<Seq<char>>,
    opts: InferenceOptions,
    p: PlanView,
)
    requires
        infer_spec(nodes, toks, abox, edges, date, opts) == Ok::<PlanView, ErrorView>(p),
    ensures
        forall|k1: int, k2: int|
            #![trigger p.filters[k1], p.filters[k2]]
            0 <= k1 < k2 < p.filters.len() ==> !(p.filters[k1].0.id == p.filters[k2].0.id
                && p.filters[k1].1 == p.filters[k2].1),
{
    let ms = matched_metrics(nodes, toks);
    let metric = ms[0];
    let cands = all_candidates(nodes, abox, toks, opts);
    let vf = validated_filters(cands, edges, metric.id);
    lemma_validated_distinct(cands, edges, metric.id);
    match date {
        None => {},
        Some(d) => {
            if !has_date_filter(vf) {
                lemma_date_bindings_facts(nodes, edges, metric.id, vf, d);
                let db = date_bindings(nodes, edges, metric.id, vf, d);
                assert forall|k1: int, k2: int|
                    #![trigger p.filters[k1], p.filters[k2]]
                    0 <= k1 < k2 < p.filters.len() implies !(p.filters[k1].0.id
                    == p.filters[k2].0.id && p.filters[k1].1 == p.filters[k2].1) by {
                    if k2 < vf.len() {
                        assert(p.filters[k1] == vf[k1] && p.filters[k2] == vf[k2]);
                    } else if k1 < vf.len() {
                        assert(p.filters[k1] == vf[k1]);
                        assert(p.filters[k2] == db[k2 - vf.len()]);
                        if p.filters[k1].0.id == p.filters[k2].0.id {
                            assert(dim_bound(vf, db[k2 - vf.len()].0.id));
                        }
                    } else {
                        assert(p.filters[k1] == db[k1 - vf.len()]);
                        assert(p.filters[k2] == db[k2 - vf.len()]);
                    }
                }
            }
        },
    }
}


} // verus!
