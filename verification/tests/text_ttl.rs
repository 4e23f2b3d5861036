// Text utilities, the date pre-extraction, and the Turtle export.

use sse_core::models::{Aggregation, FullSemanticNode, NodeRole};
use sse_core::text::{chars_vec, str_contains_sub, str_eq, to_lower, trim_str};
use sse_core::tokenizer::capture_date;
use sse_core::ttl::{export_ontology_ttl, uuid_string};

#[test]
fn trim_removes_edge_whitespace_only() {
    assert_eq!(trim_str("  收益额 查询  "), "收益额 查询");
    assert_eq!(trim_str("abc"), "abc");
    assert_eq!(trim_str("   "), "");
    assert_eq!(trim_str(""), "");
    assert_eq!(trim_str("\t x \n"), "x");
}

#[test]
fn substring_search_finds_and_misses() {
    assert!(str_contains_sub("查询平均收益额", "平均"));
    assert!(str_contains_sub("平均", "平均"));
    assert!(!str_contains_sub("平 均", "平均"));
    assert!(str_contains_sub("anything", ""));
    assert!(!str_contains_sub("短", "很长的串"));
}

#[test]
fn lowercasing_and_equality() {
    assert_eq!(to_lower("ReVeNuE"), "revenue");
    assert_eq!(to_lower("收益额"), "收益额");
    assert!(str_eq("abc", "abc"));
    assert!(!str_eq("abc", "abd"));
    assert_eq!(chars_vec("ab收"), vec!['a', 'b', '收']);
}

#[test]
fn date_capture_takes_first_match() {
    assert_eq!(
        capture_date("从2024-01-01到2024-02-01的收益").as_deref(),
        Some("2024-01-01")
    );
    assert_eq!(capture_date("收益额").as_deref(), None);
    assert_eq!(capture_date("2024-1-1").as_deref(), None);
}

#[test]
fn uuid_rendering_matches_canonical_form() {
    let raw: u128 = 0x0123_4567_89ab_cdef_0123_4567_89ab_cdef;
    let expected = uuid::Uuid::from_u128(raw).to_string();
    assert_eq!(uuid_string(raw), expected);
    assert_eq!(
        uuid_string(0),
        "00000000-0000-0000-0000-000000000000"
    );
}

#[test]
fn ttl_export_renders_nodes_and_links() {
    let metric = FullSemanticNode {
        id: 1,
        node_key: "revenue".to_string(),
        label: "收益额".to_string(),
        node_role: NodeRole::Metric,
        semantic_type: String::new(),
        source_id: "s1".to_string(),
        target_table: "t_rev".to_string(),
        sql_expression: "amount".to_string(),
        alias_names: Vec::new(),
        default_constraints: Vec::new(),
        default_agg: Aggregation::Sum,
        supported_dimension_ids: vec![2],
        dataset_id: None,
        value_format: None,
    };
    let mut dim = metric.clone();
    dim.id = 2;
    dim.node_key = "platform".to_string();
    dim.label = "结算平台".to_string();
    dim.node_role = NodeRole::Dimension;
    dim.sql_expression = "platform_code".to_string();
    dim.supported_dimension_ids = Vec::new();
    let ttl = export_ontology_ttl(&vec![metric, dim]);
    assert!(ttl.starts_with("@prefix sse: <http://example.org/sse#> .\n"));
    assert!(ttl.contains("sse:revenue rdf:type sse:Metric ;\n"));
    assert!(ttl.contains("    rdfs:label \"收益额\" ;\n"));
    assert!(ttl.contains("    sse:physicalTable \"t_rev\" ;\n"));
    assert!(ttl.contains("    sse:sqlExpression \"amount\" ;\n"));
    assert!(ttl.contains("    sse:hasDimension sse:platform ;\n"));
    assert!(ttl.contains("sse:platform rdf:type sse:Dimension ;\n"));
    assert!(ttl.contains(
        "    sse:systemId \"00000000-0000-0000-0000-000000000001\" .\n"
    ));
    assert!(!ttl.contains("sse:platform rdf:type sse:Metric"));
}
