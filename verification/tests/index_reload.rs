// The semantic index: build, lookup, duplicate keys, rebuild equivalence,
// and the reload vocabulary.

use sse_core::fst_engine::FstEngine;
use sse_core::models::{Aggregation, FullSemanticNode, NodeRole};
use sse_core::reload::collect_custom_words;

fn plain_node(id: u128, key: &str, label: &str, aliases: Vec<String>) -> FullSemanticNode {
    FullSemanticNode {
        id,
        node_key: key.to_string(),
        label: label.to_string(),
        node_role: NodeRole::Metric,
        semantic_type: String::new(),
        source_id: "s1".to_string(),
        target_table: "t".to_string(),
        sql_expression: "c".to_string(),
        alias_names: aliases,
        default_constraints: Vec::new(),
        default_agg: Aggregation::Sum,
        supported_dimension_ids: Vec::new(),
        dataset_id: None,
        value_format: None,
    }
}

#[test]
fn lookup_by_label_and_alias_is_case_insensitive() {
    let nodes = vec![
        plain_node(1, "rev", "Revenue", vec!["Gross Income".to_string()]),
        plain_node(2, "cost", "成本", Vec::new()),
    ];
    let index = FstEngine::build(&nodes).unwrap();
    assert_eq!(index.find_match("REVENUE").unwrap().id, 1);
    assert_eq!(index.find_match("revenue").unwrap().id, 1);
    assert_eq!(index.find_match("gross income").unwrap().id, 1);
    assert_eq!(index.find_match("成本").unwrap().id, 2);
    assert!(index.find_match("profit").is_none());
}

#[test]
fn duplicate_key_resolves_to_last_written_node() {
    let nodes = vec![
        plain_node(1, "a", "收益", Vec::new()),
        plain_node(2, "b", "收益", Vec::new()),
    ];
    let index = FstEngine::build(&nodes).unwrap();
    assert_eq!(index.find_match("收益").unwrap().id, 2);
}

#[test]
fn rebuild_yields_equivalent_lookup() {
    let nodes = vec![
        plain_node(1, "rev", "收益额", vec!["收益".to_string(), "revenue".to_string()]),
        plain_node(2, "cost", "成本", vec!["花费".to_string()]),
        plain_node(3, "n", "Net", Vec::new()),
    ];
    let first = FstEngine::build(&nodes).unwrap();
    let second = FstEngine::build(&nodes).unwrap();
    for q in ["收益额", "收益", "REVENUE", "成本", "花费", "net", "missing"] {
        let a = first.find_match(q).map(|n| n.id);
        let b = second.find_match(q).map(|n| n.id);
        assert_eq!(a, b);
    }
}

#[test]
fn many_unsorted_keys_build_and_resolve() {
    let mut nodes = Vec::new();
    for i in 0..40u128 {
        nodes.push(plain_node(
            i,
            &format!("k{}", i),
            &format!("标签{}", 39 - i),
            vec![format!("alias{}", 39 - i)],
        ));
    }
    let index = FstEngine::build(&nodes).unwrap();
    for i in 0..40u128 {
        let n = index.find_match(&format!("标签{}", 39 - i)).unwrap();
        assert_eq!(n.id, i);
        let a = index.find_match(&format!("ALIAS{}", 39 - i)).unwrap();
        assert_eq!(a.id, i);
    }
}

#[test]
fn custom_words_collects_labels_aliases_and_values() {
    let nodes = vec![
        plain_node(1, "rev", "收益额", vec!["收益".to_string()]),
        plain_node(2, "p", "结算平台", Vec::new()),
    ];
    let labels = vec!["A公司".to_string()];
    let words = collect_custom_words(&nodes, &labels);
    assert_eq!(
        words,
        vec![
            "收益额".to_string(),
            "收益".to_string(),
            "结算平台".to_string(),
            "A公司".to_string(),
        ]
    );
}

#[test]
fn reload_twice_gives_same_state() {
    let nodes = vec![
        plain_node(1, "rev", "收益额", vec!["收益".to_string()]),
        plain_node(2, "p", "结算平台", Vec::new()),
    ];
    let labels = vec!["A公司".to_string()];
    let w1 = collect_custom_words(&nodes, &labels);
    let w2 = collect_custom_words(&nodes, &labels);
    assert_eq!(w1, w2);
    let e1 = FstEngine::build(&nodes).unwrap();
    let e2 = FstEngine::build(&nodes).unwrap();
    for q in ["收益额", "收益", "结算平台", "x"] {
        assert_eq!(e1.find_match(q).map(|n| n.id), e2.find_match(q).map(|n| n.id));
    }
}
