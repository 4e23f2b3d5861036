// SQL lowering, placeholder rewriting, dialect resolution and the
// marshaller's type table.

use sse_core::inference::InferenceResult;
use sse_core::lowering::{join_with, lower_to_sql};
use sse_core::marshal::{classify_db_type, ColumnKind};
use sse_core::models::{
    parse_aggregation, parse_node_role, Aggregation, BusinessConstraint, FullSemanticNode,
    NodeRole,
};
use sse_core::router::{
    dialect_of, list_columns_sql, list_tables_sql, rewrite_placeholders, sync_values_sql,
    Dialect, RouterError,
};

fn dim(id: u128, label: &str, expr: &str, constraints: Vec<BusinessConstraint>)
    -> FullSemanticNode {
    FullSemanticNode {
        id,
        node_key: format!("d{}", id),
        label: label.to_string(),
        node_role: NodeRole::Dimension,
        semantic_type: String::new(),
        source_id: "s1".to_string(),
        target_table: "t_rev".to_string(),
        sql_expression: expr.to_string(),
        alias_names: Vec::new(),
        default_constraints: constraints,
        default_agg: Aggregation::NoAggregation,
        supported_dimension_ids: Vec::new(),
        dataset_id: None,
        value_format: None,
    }
}

fn metric(agg: Aggregation, constraints: Vec<BusinessConstraint>) -> FullSemanticNode {
    FullSemanticNode {
        id: 1,
        node_key: "rev".to_string(),
        label: "收益额".to_string(),
        node_role: NodeRole::Metric,
        semantic_type: String::new(),
        source_id: "s1".to_string(),
        target_table: "t_rev".to_string(),
        sql_expression: "amount".to_string(),
        alias_names: Vec::new(),
        default_constraints: constraints,
        default_agg: agg,
        supported_dimension_ids: Vec::new(),
        dataset_id: None,
        value_format: None,
    }
}

#[test]
fn group_by_lists_filters_in_select_order() {
    let plan = InferenceResult {
        metric: metric(Aggregation::Sum, Vec::new()),
        filters: vec![
            (dim(2, "结算平台", "platform_code", Vec::new()), "A01".to_string()),
            (dim(3, "业务日期", "biz_date", Vec::new()), "2024-01-01".to_string()),
        ],
    };
    let sql = lower_to_sql(&plan, false);
    assert_eq!(
        sql,
        "SELECT platform_code AS \"结算平台\", biz_date AS \"业务日期\", \
         SUM(amount) AS \"收益额\" FROM t_rev WHERE 1=1 \
         AND platform_code = 'A01' AND biz_date = '2024-01-01' \
         GROUP BY platform_code, biz_date"
    );
}

#[test]
fn no_aggregation_emits_no_group_by() {
    let plan = InferenceResult {
        metric: metric(Aggregation::NoAggregation, Vec::new()),
        filters: vec![(dim(2, "结算平台", "platform_code", Vec::new()), "A01".to_string())],
    };
    let sql = lower_to_sql(&plan, false);
    assert_eq!(
        sql,
        "SELECT platform_code AS \"结算平台\", amount AS \"收益额\" \
         FROM t_rev WHERE 1=1 AND platform_code = 'A01'"
    );
    assert!(!sql.contains("GROUP BY"));
}

#[test]
fn aggregation_without_filters_emits_no_group_by() {
    let plan = InferenceResult {
        metric: metric(Aggregation::Max, Vec::new()),
        filters: Vec::new(),
    };
    let sql = lower_to_sql(&plan, false);
    assert_eq!(sql, "SELECT MAX(amount) AS \"收益额\" FROM t_rev WHERE 1=1");
}

#[test]
fn filter_dimension_constraints_are_conjoined() {
    let plan = InferenceResult {
        metric: metric(Aggregation::Sum, vec![BusinessConstraint {
            column: "status".to_string(),
            operator: "=".to_string(),
            value: "ACTIVE".to_string(),
        }]),
        filters: vec![(
            dim(2, "结算平台", "platform_code", vec![BusinessConstraint {
                column: "region".to_string(),
                operator: "<>".to_string(),
                value: "X".to_string(),
            }]),
            "A01".to_string(),
        )],
    };
    let sql = lower_to_sql(&plan, false);
    assert_eq!(
        sql,
        "SELECT platform_code AS \"结算平台\", SUM(amount) AS \"收益额\" \
         FROM t_rev WHERE 1=1 AND platform_code = 'A01' \
         AND status = 'ACTIVE' AND region <> 'X' \
         GROUP BY platform_code"
    );
}

#[test]
fn avg_flag_overrides_default_aggregation() {
    let plan = InferenceResult {
        metric: metric(Aggregation::Sum, Vec::new()),
        filters: Vec::new(),
    };
    let sql = lower_to_sql(&plan, true);
    assert_eq!(sql, "SELECT AVG(amount) AS \"收益额\" FROM t_rev WHERE 1=1");
}

#[test]
fn join_with_separates_items() {
    let items = vec!["a".to_string(), "b".to_string(), "c".to_string()];
    assert_eq!(join_with(&items, ", "), "a, b, c");
    let one = vec!["solo".to_string()];
    assert_eq!(join_with(&one, " AND "), "solo");
    let none: Vec<String> = Vec::new();
    assert_eq!(join_with(&none, ", "), "");
}

#[test]
fn placeholders_rewritten_for_mysql_only() {
    let sql = "SELECT * FROM t WHERE a = $1 AND b = $23 OR c = '$x'";
    assert_eq!(
        rewrite_placeholders(sql, Dialect::MySql),
        "SELECT * FROM t WHERE a = ? AND b = ? OR c = '$x'"
    );
    assert_eq!(rewrite_placeholders(sql, Dialect::Postgres), sql);
    assert_eq!(rewrite_placeholders("$", Dialect::MySql), "$");
    assert_eq!(rewrite_placeholders("a$9b", Dialect::MySql), "a?b");
}

#[test]
fn dialects_resolve_case_insensitively() {
    assert_eq!(dialect_of("postgres"), Ok(Dialect::Postgres));
    assert_eq!(dialect_of("PostgreSQL"), Ok(Dialect::Postgres));
    assert_eq!(dialect_of("MYSQL"), Ok(Dialect::MySql));
    assert_eq!(dialect_of("oracle"), Err(RouterError::UnsupportedDbType));
    assert_eq!(dialect_of(""), Err(RouterError::UnsupportedDbType));
}

#[test]
fn metadata_probe_sql_per_dialect() {
    assert_eq!(
        list_tables_sql(Dialect::Postgres),
        "SELECT tablename FROM pg_catalog.pg_tables WHERE schemaname = 'public'"
    );
    assert_eq!(list_tables_sql(Dialect::MySql), "SHOW TABLES");
    assert_eq!(
        list_columns_sql(Dialect::Postgres, "t_rev"),
        "SELECT column_name FROM information_schema.columns WHERE table_name = $1"
    );
    assert_eq!(list_columns_sql(Dialect::MySql, "t_rev"), "DESCRIBE t_rev");
    assert_eq!(
        sync_values_sql("platform_code", "t_rev"),
        "SELECT DISTINCT (platform_code) :: text as val FROM t_rev"
    );
}

#[test]
fn column_type_table() {
    for n in ["INT2", "INT4", "SMALLINT", "INT", "MEDIUMINT", "TINYINT"] {
        assert_eq!(classify_db_type(n), ColumnKind::SmallInt);
    }
    for n in ["INT8", "BIGINT"] {
        assert_eq!(classify_db_type(n), ColumnKind::BigInt);
    }
    for n in ["FLOAT4", "FLOAT8", "FLOAT", "DOUBLE"] {
        assert_eq!(classify_db_type(n), ColumnKind::Float);
    }
    for n in ["NUMERIC", "DECIMAL", "NEWDECIMAL"] {
        assert_eq!(classify_db_type(n), ColumnKind::Decimal);
    }
    for n in ["TEXT", "VARCHAR", "CHAR", "BPCHAR", "NAME", "LONGTEXT"] {
        assert_eq!(classify_db_type(n), ColumnKind::Text);
    }
    assert_eq!(classify_db_type("BOOL"), ColumnKind::Boolean);
    assert_eq!(classify_db_type("DATE"), ColumnKind::Date);
    for n in ["TIMESTAMP", "TIMESTAMPTZ", "DATETIME"] {
        assert_eq!(classify_db_type(n), ColumnKind::DateTime);
    }
    for n in ["JSON", "JSONB"] {
        assert_eq!(classify_db_type(n), ColumnKind::Json);
    }
    assert_eq!(classify_db_type("UUID"), ColumnKind::Other);
    assert_eq!(classify_db_type("int4"), ColumnKind::Other);
}

#[test]
fn stored_keywords_parse_to_enums() {
    assert_eq!(parse_aggregation("SUM"), Aggregation::Sum);
    assert_eq!(parse_aggregation("AVG"), Aggregation::Avg);
    assert_eq!(parse_aggregation("COUNT"), Aggregation::Count);
    assert_eq!(parse_aggregation("MIN"), Aggregation::Min);
    assert_eq!(parse_aggregation("MAX"), Aggregation::Max);
    assert_eq!(parse_aggregation("NONE"), Aggregation::NoAggregation);
    assert_eq!(parse_aggregation("sum"), Aggregation::NoAggregation);
    assert_eq!(parse_node_role("METRIC"), NodeRole::Metric);
    assert_eq!(parse_node_role("DIMENSION"), NodeRole::Dimension);
}
