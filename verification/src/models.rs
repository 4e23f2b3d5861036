//! Data model of the ontology: semantic nodes, their physical definitions,
//! T-Box edges, A-Box values, data sources and the small request types of the
//! public surface.

use vstd::prelude::*;
use crate::text::str_eq;

verus! {

/// Role of an ontology node.
#[derive(Clone, Copy, Debug, PartialEq, Eq, Structural)]
pub enum NodeRole {
    Metric,
    Dimension,
}

/// Default aggregation a metric asks for.
#[derive(Clone, Copy, Debug, PartialEq, Eq, Structural)]
pub enum Aggregation {
    NoAggregation,
    Sum,
    Avg,
    Count,
    Min,
    Max,
}

/// Operator of a query constraint.
#[derive(Clone, Copy, Debug, PartialEq, Eq, Structural)]
pub enum Operator {
    Eq,
    Gt,
    Lt,
    Gte,
    Lte,
    Like,
    Sum,
    Avg,
    Count,
}

/// An implicit predicate a node always conjoins into WHERE.
#[derive(Clone, Debug)]
pub struct BusinessConstraint {
    pub column: String,
    pub operator: String,
    pub value: String,
}

/// Mathematical image of a `BusinessConstraint`.
#[verifier::ext_equal]
pub struct ConstraintView {
    pub column: Seq<char>,
    pub operator: Seq<char>,
    pub value: Seq<char>,
}

impl View for BusinessConstraint {
    type V = ConstraintView;

    open spec fn view(&self) -> ConstraintView {
        ConstraintView { column: self.column@, operator: self.operator@, value: self.value@ }
    }
}

impl DeepView for BusinessConstraint {
    type V = ConstraintView;

    open spec fn deep_view(&self) -> ConstraintView {
        self.view()
    }
}

impl BusinessConstraint {
    /// An equal constraint as a fresh value.
    pub fn duplicate(&self) -> (r: Self)
        ensures
            r@ == self@,
    {
        BusinessConstraint {
            column: self.column.clone(),
            operator: self.operator.clone(),
            value: self.value.clone(),
        }
    }
}

/// A typed constraint as the admin surface states it.
#[derive(Clone, Debug)]
pub struct QueryConstraint {
    pub column: String,
    pub operator: Operator,
    pub value: String,
}

/// Intermediate shape of a multi-table inference state.
#[derive(Clone, Debug)]
pub struct InferencePath {
    pub target_tables: Vec<String>,
    pub join_conditions: Vec<String>,
    pub filters: Vec<String>,
    pub aggregation: Option<Operator>,
}

/// One ontology atom together with its physical definition and the ids of the
/// dimensions it supports.
#[derive(Clone, Debug)]
pub struct FullSemanticNode {
    pub id: u128,
    pub node_key: String,
    pub label: String,
    pub node_role: NodeRole,
    pub semantic_type: String,
    pub source_id: String,
    pub target_table: String,
    pub sql_expression: String,
    pub alias_names: Vec<String>,
    pub default_constraints: Vec<BusinessConstraint>,
    pub default_agg: Aggregation,
    pub supported_dimension_ids: Vec<u128>,
    pub dataset_id: Option<u128>,
    pub value_format: Option<String>,
}

/// Mathematical image of a `FullSemanticNode`.
#[verifier::ext_equal]
pub struct NodeView {
    pub id: u128,
    pub node_key: Seq<char>,
    pub label: Seq<char>,
    pub node_role: NodeRole,
    pub semantic_type: Seq<char>,
    pub source_id: Seq<char>,
    pub target_table: Seq<char>,
    pub sql_expression: Seq<char>,
    pub alias_names: Seq<Seq<char>>,
    pub default_constraints: Seq<ConstraintView>,
    pub default_agg: Aggregation,
    pub supported_dimension_ids: Seq<u128>,
    pub dataset_id: Option<u128>,
    pub value_format: Option<Seq<char>>,
}

impl View for FullSemanticNode {
    type V = NodeView;

    open spec fn view(&self) -> NodeView {
        NodeView {
            id: self.id,
            node_key: self.node_key@,
            label: self.label@,
            node_role: self.node_role,
            semantic_type: self.semantic_type@,
            source_id: self.source_id@,
            target_table: self.target_table@,
            sql_expression: self.sql_expression@,
            alias_names: self.alias_names.deep_view(),
            default_constraints: self.default_constraints.deep_view(),
            default_agg: self.default_agg,
            supported_dimension_ids: self.supported_dimension_ids@,
            dataset_id: self.dataset_id,
            value_format: self.value_format.deep_view(),
        }
    }
}

impl DeepView for FullSemanticNode {
    type V = NodeView;

    open spec fn deep_view(&self) -> NodeView {
        self.view()
    }
}

/// Clones a vector of strings, keeping the character contents.
pub fn clone_string_vec(v: &Vec<String>) -> (r: Vec<String>)
    ensures
        r.deep_view() == v.deep_view(),
{
    let mut r: Vec<String> = Vec::new();
    let mut i: usize = 0;
    while i < v.len()
        invariant
            i <= v.len(),
            r.deep_view() =~= v.deep_view().take(i as int),
        decreases v.len() - i,
    {
        let ghost pre = r.deep_view();
        let c = v[i].clone();
        r.push(c);
        proof {
            assert(r.deep_view() =~= pre.push(c.deep_view()));
        }
        i = i + 1;
    }
    assert(r.deep_view() =~= v.deep_view());
    r
}

/// Clones a vector of constraints, keeping their contents.
pub fn clone_constraint_vec(v: &Vec<BusinessConstraint>) -> (r: Vec<BusinessConstraint>)
    ensures
        r.deep_view() == v.deep_view(),
{
    let mut r: Vec<BusinessConstraint> = Vec::new();
    let mut i: usize = 0;
    while i < v.len()
        invariant
            i <= v.len(),
            r.deep_view() =~= v.deep_view().take(i as int),
        decreases v.len() - i,
    {
        let ghost pre = r.deep_view();
        let c = v[i].duplicate();
        r.push(c);
        proof {
            assert(r.deep_view() =~= pre.push(c.deep_view()));
        }
        i = i + 1;
    }
    assert(r.deep_view() =~= v.deep_view());
    r
}

/// Clones a vector of ids.
pub fn clone_id_vec(v: &Vec<u128>) -> (r: Vec<u128>)
    ensures
        r@ == v@,
{
    let mut r: Vec<u128> = Vec::new();
    let mut i: usize = 0;
    while i < v.len()
        invariant
            i <= v.len(),
            r@ =~= v@.take(i as int),
        decreases v.len() - i,
    {
        r.push(v[i]);
        i = i + 1;
    }
    assert(r@ =~= v@);
    r
}

/// Clones an optional string, keeping the character contents.
pub fn clone_opt_string(v: &Option<String>) -> (r: Option<String>)
    ensures
        r.deep_view() == v.deep_view(),
{
    match v {
        Some(s) => Some(s.clone()),
        None => None,
    }
}

impl FullSemanticNode {
    /// An equal node as a fresh value: the snapshot the index and the plans
    /// hand out.
    pub fn duplicate(&self) -> (r: Self)
        ensures
            r@ == self@,
    {
        FullSemanticNode {
            id: self.id,
            node_key: self.node_key.clone(),
            label: self.label.clone(),
            node_role: self.node_role,
            semantic_type: self.semantic_type.clone(),
            source_id: self.source_id.clone(),
            target_table: self.target_table.clone(),
            sql_expression: self.sql_expression.clone(),
            alias_names: clone_string_vec(&self.alias_names),
            default_constraints: clone_constraint_vec(&self.default_constraints),
            default_agg: self.default_agg,
            supported_dimension_ids: clone_id_vec(&self.supported_dimension_ids),
            dataset_id: self.dataset_id,
            value_format: clone_opt_string(&self.value_format),
        }
    }
}

/// One directed T-Box edge: the metric supports the dimension.
#[derive(Clone, Copy, Debug, PartialEq, Eq, Structural)]
pub struct MetricDimensionEdge {
    pub metric_node_id: u128,
    pub dimension_node_id: u128,
}

impl DeepView for MetricDimensionEdge {
    type V = MetricDimensionEdge;

    open spec fn deep_view(&self) -> MetricDimensionEdge {
        *self
    }
}

/// One A-Box row: a dimension value the user might utter and the physical
/// code to embed in SQL.
#[derive(Clone, Debug)]
pub struct DimensionValue {
    pub dimension_node_id: u128,
    pub value_label: String,
    pub value_code: String,
}

/// Mathematical image of a `DimensionValue`.
#[verifier::ext_equal]
pub struct DimValueView {
    pub dimension_node_id: u128,
    pub value_label: Seq<char>,
    pub value_code: Seq<char>,
}

impl View for DimensionValue {
    type V = DimValueView;

    open spec fn view(&self) -> DimValueView {
        DimValueView {
            dimension_node_id: self.dimension_node_id,
            value_label: self.value_label@,
            value_code: self.value_code@,
        }
    }
}

impl DeepView for DimensionValue {
    type V = DimValueView;

    open spec fn deep_view(&self) -> DimValueView {
        self.view()
    }
}

/// A registered external data source.
#[derive(Clone, Debug)]
pub struct DataSource {
    pub id: String,
    pub db_type: String,
    pub connection_url: String,
    pub display_name: Option<String>,
}

/// Admin request: register or update a data source.
#[derive(Clone, Debug)]
pub struct CreateDataSourceRequest {
    pub id: String,
    pub db_type: String,
    pub connection_url: String,
    pub display_name: Option<String>,
}

/// Admin request: probe metadata of a source.
#[derive(Clone, Debug)]
pub struct MetadataRequest {
    pub source_id: String,
    pub table_name: Option<String>,
}

/// Admin request: save or update an ontology node.
#[derive(Clone, Debug)]
pub struct CreateNodeRequest {
    pub node_key: String,
    pub label: String,
    pub node_role: NodeRole,
    pub semantic_type: String,
    pub source_id: String,
    pub target_table: String,
    pub sql_expression: String,
    pub alias_names: Vec<String>,
    pub default_constraints: Vec<BusinessConstraint>,
    pub supported_dimension_ids: Vec<u128>,
    pub default_agg: Aggregation,
    pub dataset_id: Option<u128>,
    pub value_format: Option<String>,
}

/// The one operation of the request path: the user's question.
#[derive(Clone, Debug)]
pub struct ChatRequest {
    pub query: String,
}

/// Logical query plan kept as an explicit intermediate form.
#[derive(Clone, Debug)]
pub struct QueryLogicalPlan {
    pub metric: FullSemanticNode,
    pub dimensions: Vec<(FullSemanticNode, String)>,
    pub implicit_filters: Vec<String>,
    pub final_agg: String,
    pub dataset_context: Option<u128>,
}

/// Switches the specification leaves open: how multiple metrics and T-Box
/// misses surface, and whether the context-adjacent value capture runs.
#[derive(Clone, Copy, Debug, PartialEq, Eq, Structural)]
pub struct InferenceOptions {
    /// Report several distinct matched metrics instead of picking the first.
    pub strict_metric: bool,
    /// Report a candidate outside the metric's supported dimensions instead
    /// of dropping it.
    pub strict_tbox: bool,
    /// Capture the token after a dimension name as its value.
    pub context_capture: bool,
}

impl Default for InferenceOptions {
    /// The permissive behaviour: first metric wins, unsupported candidates
    /// are dropped, no context capture.
    fn default() -> (r: Self)
        ensures
            !r.strict_metric,
            !r.strict_tbox,
            !r.context_capture,
    {
        InferenceOptions { strict_metric: false, strict_tbox: false, context_capture: false }
    }
}

/// Clones a vector of nodes, keeping their contents.
pub fn clone_node_vec(v: &Vec<FullSemanticNode>) -> (r: Vec<FullSemanticNode>)
    ensures
        r.deep_view() == v.deep_view(),
{
    let mut r: Vec<FullSemanticNode> = Vec::new();
    let mut i: usize = 0;
    while i < v.len()
        invariant
            i <= v.len(),
            r.deep_view() =~= v.deep_view().take(i as int),
        decreases v.len() - i,
    {
        let ghost pre = r.deep_view();
        let c = v[i].duplicate();
        r.push(c);
        proof {
            assert(r.deep_view() =~= pre.push(c.deep_view()));
        }
        i = i + 1;
    }
    assert(r.deep_view() =~= v.deep_view());
    r
}

/// Reads a stored aggregation keyword; the set is closed, so anything else
/// counts as no aggregation.
pub fn parse_aggregation(s: &str) -> (r: Aggregation)
    ensures
        r == (if s@ == "SUM"@ {
            Aggregation::Sum
        } else if s@ == "AVG"@ {
            Aggregation::Avg
        } else if s@ == "COUNT"@ {
            Aggregation::Count
        } else if s@ == "MIN"@ {
            Aggregation::Min
        } else if s@ == "MAX"@ {
            Aggregation::Max
        } else {
            Aggregation::NoAggregation
        }),
{
    if str_eq(s, "SUM") {
        Aggregation::Sum
    } else if str_eq(s, "AVG") {
        Aggregation::Avg
    } else if str_eq(s, "COUNT") {
        Aggregation::Count
    } else if str_eq(s, "MIN") {
        Aggregation::Min
    } else if str_eq(s, "MAX") {
        Aggregation::Max
    } else {
        Aggregation::NoAggregation
    }
}

/// Reads a stored node role; everything but METRIC is a dimension.
pub fn parse_node_role(s: &str) -> (r: NodeRole)
    ensures
        r == (if s@ == "METRIC"@ {
            NodeRole::Metric
        } else {
            NodeRole::Dimension
        }),
{
    if str_eq(s, "METRIC") {
        NodeRole::Metric
    } else {
        NodeRole::Dimension
    }
}

} // verus!
