// End-to-end scenarios: real tokenizer, real index, inference and lowering.

use sse_core::fst_engine::FstEngine;
use sse_core::inference::{infer_tokens, InferenceError};
use sse_core::models::{
    Aggregation, BusinessConstraint, DimensionValue, FullSemanticNode, InferenceOptions,
    MetricDimensionEdge, NodeRole,
};
use sse_core::pipeline::{chat_plan, ChatOutcome};
use sse_core::reload::collect_custom_words;
use sse_core::tokenizer::SemanticInferenceEngine;

fn node(
    id: u128,
    key: &str,
    label: &str,
    role: NodeRole,
    semantic_type: &str,
    expr: &str,
    table: &str,
    agg: Aggregation,
    aliases: Vec<String>,
    constraints: Vec<BusinessConstraint>,
) -> FullSemanticNode {
    FullSemanticNode {
        id,
        node_key: key.to_string(),
        label: label.to_string(),
        node_role: role,
        semantic_type: semantic_type.to_string(),
        source_id: "s1".to_string(),
        target_table: table.to_string(),
        sql_expression: expr.to_string(),
        alias_names: aliases,
        default_constraints: constraints,
        default_agg: agg,
        supported_dimension_ids: Vec::new(),
        dataset_id: None,
        value_format: None,
    }
}

fn standard_nodes() -> Vec<FullSemanticNode> {
    vec![
        node(
            1,
            "revenue",
            "收益额",
            NodeRole::Metric,
            "",
            "amount",
            "t_rev",
            Aggregation::Sum,
            Vec::new(),
            Vec::new(),
        ),
        node(
            2,
            "platform",
            "结算平台",
            NodeRole::Dimension,
            "",
            "platform_code",
            "t_rev",
            Aggregation::NoAggregation,
            Vec::new(),
            Vec::new(),
        ),
        node(
            3,
            "biz_date",
            "业务日期",
            NodeRole::Dimension,
            "DATE",
            "biz_date",
            "t_rev",
            Aggregation::NoAggregation,
            Vec::new(),
            Vec::new(),
        ),
    ]
}

fn standard_edges() -> Vec<MetricDimensionEdge> {
    vec![
        MetricDimensionEdge { metric_node_id: 1, dimension_node_id: 2 },
        MetricDimensionEdge { metric_node_id: 1, dimension_node_id: 3 },
    ]
}

fn standard_abox() -> Vec<DimensionValue> {
    vec![DimensionValue {
        dimension_node_id: 2,
        value_label: "A公司".to_string(),
        value_code: "A01".to_string(),
    }]
}

fn prepared_engine(nodes: &Vec<FullSemanticNode>, abox: &Vec<DimensionValue>)
    -> SemanticInferenceEngine {
    let mut engine = SemanticInferenceEngine::new();
    let labels: Vec<String> = abox.iter().map(|v| v.value_label.clone()).collect();
    engine.refresh_custom_words(collect_custom_words(nodes, &labels));
    engine
}

#[test]
fn anchor_abox_and_date_binding() {
    let nodes = standard_nodes();
    let abox = standard_abox();
    let edges = standard_edges();
    let engine = prepared_engine(&nodes, &abox);
    let index = FstEngine::build(&nodes).unwrap();
    let opts = InferenceOptions::default();
    let out = chat_plan(&engine, &index, &abox, &edges, &opts, "2024-01-01 结算平台 A公司 收益额");
    match out {
        ChatOutcome::Success { sql, logic } => {
            assert_eq!(
                sql,
                "SELECT platform_code AS \"结算平台\", biz_date AS \"业务日期\", \
                 SUM(amount) AS \"收益额\" FROM t_rev WHERE 1=1 \
                 AND platform_code = 'A01' AND biz_date = '2024-01-01' \
                 GROUP BY platform_code, biz_date"
            );
            assert_eq!(logic, "基于SUM聚合");
        }
        other => panic!("expected success, got {:?}", other),
    }
}

#[test]
fn average_keyword_forces_avg() {
    let nodes = standard_nodes();
    let abox = standard_abox();
    let edges = standard_edges();
    let engine = prepared_engine(&nodes, &abox);
    let index = FstEngine::build(&nodes).unwrap();
    let opts = InferenceOptions::default();
    let out = chat_plan(&engine, &index, &abox, &edges, &opts, "A公司 平均收益额");
    match out {
        ChatOutcome::Success { sql, logic } => {
            assert_eq!(
                sql,
                "SELECT platform_code AS \"结算平台\", AVG(amount) AS \"收益额\" \
                 FROM t_rev WHERE 1=1 AND platform_code = 'A01' \
                 GROUP BY platform_code"
            );
            assert_eq!(logic, "基于AVG聚合");
        }
        other => panic!("expected success, got {:?}", other),
    }
}

#[test]
fn no_metric_fails() {
    let nodes = standard_nodes();
    let abox = standard_abox();
    let edges = standard_edges();
    let engine = prepared_engine(&nodes, &abox);
    let index = FstEngine::build(&nodes).unwrap();
    let opts = InferenceOptions::default();
    let out = chat_plan(&engine, &index, &abox, &edges, &opts, "A公司");
    assert!(matches!(out, ChatOutcome::Fail { .. }));
}

#[test]
fn unlinked_dimension_is_dropped() {
    let mut nodes = standard_nodes();
    nodes.push(node(
        4,
        "department",
        "部门",
        NodeRole::Dimension,
        "",
        "dept_code",
        "t_rev",
        Aggregation::NoAggregation,
        Vec::new(),
        Vec::new(),
    ));
    let abox = standard_abox();
    let edges = standard_edges();
    let engine = prepared_engine(&nodes, &abox);
    let index = FstEngine::build(&nodes).unwrap();
    let opts = InferenceOptions {
        strict_metric: false,
        strict_tbox: false,
        context_capture: true,
    };
    let out = chat_plan(&engine, &index, &abox, &edges, &opts, "收益额 部门 销售部");
    match out {
        ChatOutcome::Success { sql, .. } => {
            assert_eq!(sql, "SELECT SUM(amount) AS \"收益额\" FROM t_rev WHERE 1=1");
        }
        other => panic!("expected success, got {:?}", other),
    }
}

#[test]
fn default_constraints_injected() {
    let mut nodes = standard_nodes();
    nodes[0].default_constraints = vec![BusinessConstraint {
        column: "status".to_string(),
        operator: "=".to_string(),
        value: "ACTIVE".to_string(),
    }];
    let abox = standard_abox();
    let edges = standard_edges();
    let engine = prepared_engine(&nodes, &abox);
    let index = FstEngine::build(&nodes).unwrap();
    let opts = InferenceOptions::default();
    let out = chat_plan(&engine, &index, &abox, &edges, &opts, "收益额");
    match out {
        ChatOutcome::Success { sql, .. } => {
            assert_eq!(
                sql,
                "SELECT SUM(amount) AS \"收益额\" FROM t_rev WHERE 1=1 AND status = 'ACTIVE'"
            );
        }
        other => panic!("expected success, got {:?}", other),
    }
}

#[test]
fn multi_metric_default_picks_first() {
    let mut nodes = standard_nodes();
    nodes.push(node(
        5,
        "net_revenue",
        "净收益额",
        NodeRole::Metric,
        "",
        "net_amount",
        "t_rev",
        Aggregation::Sum,
        vec!["收益额".to_string()],
        Vec::new(),
    ));
    let abox = standard_abox();
    let edges = standard_edges();
    let engine = prepared_engine(&nodes, &abox);
    let index = FstEngine::build(&nodes).unwrap();
    let opts = InferenceOptions::default();
    let out = chat_plan(&engine, &index, &abox, &edges, &opts, "收益额");
    match out {
        ChatOutcome::Success { sql, .. } => {
            assert!(sql.contains("SUM(amount)"), "first metric anchors: {}", sql);
        }
        other => panic!("expected success, got {:?}", other),
    }
}

#[test]
fn multi_metric_strict_reports_candidates() {
    let mut nodes = standard_nodes();
    nodes.push(node(
        5,
        "net_revenue",
        "净收益额",
        NodeRole::Metric,
        "",
        "net_amount",
        "t_rev",
        Aggregation::Sum,
        vec!["收益额".to_string()],
        Vec::new(),
    ));
    let abox = standard_abox();
    let edges = standard_edges();
    let engine = prepared_engine(&nodes, &abox);
    let index = FstEngine::build(&nodes).unwrap();
    let opts = InferenceOptions {
        strict_metric: true,
        strict_tbox: false,
        context_capture: false,
    };
    let out = chat_plan(&engine, &index, &abox, &edges, &opts, "收益额");
    match out {
        ChatOutcome::Ambiguous { candidates, .. } => {
            assert_eq!(candidates, vec!["收益额".to_string(), "净收益额".to_string()]);
        }
        other => panic!("expected ambiguous, got {:?}", other),
    }
}

#[test]
fn strict_tbox_surfaces_violation() {
    let mut nodes = standard_nodes();
    nodes.push(node(
        4,
        "department",
        "部门",
        NodeRole::Dimension,
        "",
        "dept_code",
        "t_rev",
        Aggregation::NoAggregation,
        Vec::new(),
        Vec::new(),
    ));
    let abox = vec![DimensionValue {
        dimension_node_id: 4,
        value_label: "销售部".to_string(),
        value_code: "D7".to_string(),
    }];
    let edges = standard_edges();
    let engine = prepared_engine(&nodes, &abox);
    let index = FstEngine::build(&nodes).unwrap();
    let opts = InferenceOptions {
        strict_metric: false,
        strict_tbox: true,
        context_capture: false,
    };
    let out = chat_plan(&engine, &index, &abox, &edges, &opts, "收益额 销售部");
    match out {
        ChatOutcome::Ambiguous { answer, candidates } => {
            assert!(answer.contains("收益额"));
            assert!(answer.contains("部门"));
            assert!(candidates.is_empty());
        }
        other => panic!("expected ambiguous, got {:?}", other),
    }
}

#[test]
fn tokens_no_metric_anchor() {
    let nodes = standard_nodes();
    let abox = standard_abox();
    let edges = standard_edges();
    let tokens = vec!["结算平台".to_string(), "A公司".to_string()];
    let r = infer_tokens(&nodes, &tokens, &abox, &edges, &None, &InferenceOptions::default());
    assert!(matches!(r, Err(InferenceError::NoMetricAnchor)));
}

#[test]
fn tokens_duplicate_binding_collapses() {
    let nodes = standard_nodes();
    let mut abox = standard_abox();
    abox.push(abox[0].clone());
    let edges = standard_edges();
    let tokens = vec!["收益额".to_string(), "A公司".to_string(), "A公司".to_string()];
    let r = infer_tokens(&nodes, &tokens, &abox, &edges, &None, &InferenceOptions::default())
        .unwrap();
    assert_eq!(r.filters.len(), 1);
    assert_eq!(r.filters[0].0.id, 2);
    assert_eq!(r.filters[0].1, "A01");
}

#[test]
fn tokens_filters_are_supported() {
    let mut nodes = standard_nodes();
    nodes.push(node(
        4,
        "department",
        "部门",
        NodeRole::Dimension,
        "",
        "dept_code",
        "t_rev",
        Aggregation::NoAggregation,
        Vec::new(),
        Vec::new(),
    ));
    let mut abox = standard_abox();
    abox.push(DimensionValue {
        dimension_node_id: 4,
        value_label: "销售部".to_string(),
        value_code: "D7".to_string(),
    });
    let edges = standard_edges();
    let tokens = vec!["收益额".to_string(), "A公司".to_string(), "销售部".to_string()];
    let r = infer_tokens(&nodes, &tokens, &abox, &edges, &None, &InferenceOptions::default())
        .unwrap();
    for (dim, _) in &r.filters {
        assert!(edges.iter().any(|e| e.metric_node_id == r.metric.id
            && e.dimension_node_id == dim.id));
    }
    assert_eq!(r.filters.len(), 1);
}

#[test]
fn tokens_date_binds_only_unbound_date_dimension() {
    let nodes = standard_nodes();
    let abox = standard_abox();
    let edges = standard_edges();
    let tokens = vec!["收益额".to_string()];
    let date = Some("2024-01-01".to_string());
    let r = infer_tokens(&nodes, &tokens, &abox, &edges, &date, &InferenceOptions::default())
        .unwrap();
    assert_eq!(r.filters.len(), 1);
    assert_eq!(r.filters[0].0.id, 3);
    assert_eq!(r.filters[0].1, "2024-01-01");
}

#[test]
fn blank_query_fails_like_no_metric() {
    let nodes = standard_nodes();
    let abox = standard_abox();
    let edges = standard_edges();
    let engine = prepared_engine(&nodes, &abox);
    let index = FstEngine::build(&nodes).unwrap();
    let opts = InferenceOptions::default();
    let out = chat_plan(&engine, &index, &abox, &edges, &opts, "   ");
    assert!(matches!(out, ChatOutcome::Fail { .. }));
}
