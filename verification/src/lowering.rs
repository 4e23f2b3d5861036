//! Lowering of a logical plan to SQL text: aggregation selection, SELECT
//! list, WHERE conjunction with the `1=1` sentinel and the default
//! constraints, and the GROUP BY clause.

use vstd::prelude::*;
use vstd::string::{StrSliceExecFns, StringExecFns};
use crate::models::{Aggregation, ConstraintView, NodeView};
use crate::inference::{InferenceResult, PlanView};

verus! {

/// The SQL keyword of an aggregation; `NONE` marks its absence.
pub open spec fn agg_keyword(a: Aggregation) -> Seq<char> {
    match a {
        Aggregation::NoAggregation => "NONE"@,
        Aggregation::Sum => "SUM"@,
        Aggregation::Avg => "AVG"@,
        Aggregation::Count => "COUNT"@,
        Aggregation::Min => "MIN"@,
        Aggregation::Max => "MAX"@,
    }
}

/// The keyword as text.
pub fn agg_name(a: Aggregation) -> (r: &'static str)
    ensures
        r@ == agg_keyword(a),
{
    match a {
        Aggregation::NoAggregation => "NONE",
        Aggregation::Sum => "SUM",
        Aggregation::Avg => "AVG",
        Aggregation::Count => "COUNT",
        Aggregation::Min => "MIN",
        Aggregation::Max => "MAX",
    }
}

/// The aggregation a query gets: a literal "平均" in the question forces AVG,
/// otherwise the metric's default stands.
pub open spec fn effective_agg(has_avg: bool, default_agg: Aggregation) -> Aggregation {
    if has_avg {
        Aggregation::Avg
    } else {
        default_agg
    }
}

/// Items joined by a separator, in order.
pub open spec fn join_spec(items: Seq<Seq<char>>, sep: Seq<char>) -> Seq<char>
    decreases items.len(),
{
    if items.len() == 0 {
        Seq::empty()
    } else if items.len() == 1 {
        items[0]
    } else {
        join_spec(items.drop_last(), sep) + sep + items.last()
    }
}

/// Joins string items with a separator.
#[verifier::loop_isolation(false)]
pub fn join_with(items: &Vec<String>, sep: &str) -> (r: String)
    ensures
        r@ == join_spec(items.deep_view(), sep@),
{
    let mut r = String::new();
    let mut i: usize = 0;
    while i < items.len()
        invariant
            i <= items.len(),
            r@ =~= join_spec(items.deep_view().take(i as int), sep@),
        decreases items.len() - i,
    {
        if i > 0 {
            r.append(sep);
        }
        r.append(items[i].as_str());
        proof {
            let dv = items.deep_view();
            assert(dv.take(i + 1).drop_last() =~= dv.take(i as int));
            assert(dv.take(i + 1).last() == dv[i as int]);
            if i == 0 {
                assert(r@ =~= join_spec(dv.take(1), sep@));
            }
        }
        i = i + 1;
    }
    proof {
        assert(items.deep_view().take(items.len() as int) =~= items.deep_view());
    }
    r
}

/// `<expr> AS "<label>"`.
pub open spec fn alias_item(expr: Seq<char>, label: Seq<char>) -> Seq<char> {
    expr + " AS \""@ + label + "\""@
}

/// Builds `<expr> AS "<label>"`.
pub fn alias_string(expr: &str, label: &str) -> (r: String)
    ensures
        r@ == alias_item(expr@, label@),
{
    let mut r = expr.to_owned();
    r.append(" AS \"");
    r.append(label);
    r.append("\"");
    r
}

/// The SELECT item of the metric: plain or aggregated projection.
pub open spec fn metric_item(m: NodeView, agg: Aggregation) -> Seq<char> {
    if agg == Aggregation::NoAggregation {
        alias_item(m.sql_expression, m.label)
    } else {
        agg_keyword(agg) + "("@ + m.sql_expression + ") AS \""@ + m.label + "\""@
    }
}

/// The SELECT items of the bound filters: one aliased projection each, in
/// binding order.
pub open spec fn filter_alias_items(fs: Seq<(NodeView, Seq<char>)>) -> Seq<Seq<char>>
    decreases fs.len(),
{
    if fs.len() == 0 {
        Seq::empty()
    } else {
        filter_alias_items(fs.drop_last()) + seq![
            alias_item(fs.last().0.sql_expression, fs.last().0.label),
        ]
    }
}

/// The whole SELECT list: filter projections first, the metric last.
pub open spec fn select_items_spec(p: PlanView, agg: Aggregation) -> Seq<Seq<char>> {
    filter_alias_items(p.filters) + seq![metric_item(p.metric, agg)]
}

/// `<expr> = '<value>'` for each bound filter, in order.
pub open spec fn filter_eq_items(fs: Seq<(NodeView, Seq<char>)>) -> Seq<Seq<char>>
    decreases fs.len(),
{
    if fs.len() == 0 {
        Seq::empty()
    } else {
        filter_eq_items(fs.drop_last()) + seq![
            fs.last().0.sql_expression + " = '"@ + fs.last().1 + "'"@,
        ]
    }
}

/// `<column> <operator> '<value>'` for each constraint, in order.
pub open spec fn constraint_items(cs: Seq<ConstraintView>) -> Seq<Seq<char>>
    decreases cs.len(),
{
    if cs.len() == 0 {
        Seq::empty()
    } else {
        constraint_items(cs.drop_last()) + seq![
            cs.last().column + " "@ + cs.last().operator + " '"@ + cs.last().value + "'"@,
        ]
    }
}

/// The default constraints of every bound filter dimension, filter-major.
pub open spec fn filter_constraint_items(fs: Seq<(NodeView, Seq<char>)>) -> Seq<Seq<char>>
    decreases fs.len(),
{
    if fs.len() == 0 {
        Seq::empty()
    } else {
        filter_constraint_items(fs.drop_last()) + constraint_items(
            fs.last().0.default_constraints,
        )
    }
}

/// The WHERE conjuncts: the `1=1` sentinel, the filter equalities, the
/// metric's default constraints, then each filter dimension's defaults.
pub open spec fn where_items_spec(p: PlanView) -> Seq<Seq<char>> {
    seq!["1=1"@] + filter_eq_items(p.filters) + constraint_items(p.metric.default_constraints)
        + filter_constraint_items(p.filters)
}

/// The GROUP BY operands: the filters' expressions in binding order.
pub open spec fn group_exprs(fs: Seq<(NodeView, Seq<char>)>) -> Seq<Seq<char>>
    decreases fs.len(),
{
    if fs.len() == 0 {
        Seq::empty()
    } else {
        group_exprs(fs.drop_last()) + seq![fs.last().0.sql_expression]
    }
}

/// The SQL up to and including the WHERE clause.
pub open spec fn base_sql_spec(p: PlanView, agg: Aggregation) -> Seq<char> {
    "SELECT "@ + join_spec(select_items_spec(p, agg), ", "@) + " FROM "@ + p.metric.target_table
        + " WHERE "@ + join_spec(where_items_spec(p), " AND "@)
}

/// The GROUP BY clause, emitted exactly when an aggregation applies and at
/// least one filter is bound.
pub open spec fn group_clause_spec(p: PlanView, agg: Aggregation) -> Seq<char> {
    if agg != Aggregation::NoAggregation && p.filters.len() > 0 {
        " GROUP BY "@ + join_spec(group_exprs(p.filters), ", "@)
    } else {
        Seq::empty()
    }
}

/// The whole SQL statement of a plan under an aggregation.
pub open spec fn sql_spec(p: PlanView, agg: Aggregation) -> Seq<char> {
    base_sql_spec(p, agg) + group_clause_spec(p, agg)
}

/// Lowers a plan to SQL text. `has_avg` says whether the raw query contains
/// the substring "平均", which forces AVG over the metric's default.
#[verifier::loop_isolation(false)]
pub fn lower_to_sql(plan: &InferenceResult, has_avg: bool) -> (sql: String)
    ensures
        sql@ == sql_spec(plan@, effective_agg(has_avg, plan.metric.default_agg)),
{
    let agg = if has_avg {
        Aggregation::Avg
    } else {
        plan.metric.default_agg
    };
    let ghost pv = plan@;
    let ghost fs = pv.filters;

    // SELECT list.
    let mut items: Vec<String> = Vec::new();
    let mut i: usize = 0;
    while i < plan.filters.len()
        invariant
            i <= plan.filters.len(),
            items.deep_view() =~= filter_alias_items(fs.take(i as int)),
        decreases plan.filters.len() - i,
    {
        let ghost pre = items.deep_view();
        let it = alias_string(plan.filters[i].0.sql_expression.as_str(), plan.filters[i].0.label.as_str());
        items.push(it);
        proof {
            assert(items.deep_view() =~= pre.push(
                alias_item(fs[i as int].0.sql_expression, fs[i as int].0.label),
            ));
            assert(fs.take(i + 1).drop_last() =~= fs.take(i as int));
            assert(fs.take(i + 1).last() == fs[i as int]);
        }
        i = i + 1;
    }
    let metric_sql = if agg == Aggregation::NoAggregation {
        alias_string(plan.metric.sql_expression.as_str(), plan.metric.label.as_str())
    } else {
        let mut s = agg_name(agg).to_owned();
        s.append("(");
        s.append(plan.metric.sql_expression.as_str());
        s.append(") AS \"");
        s.append(plan.metric.label.as_str());
        s.append("\"");
        s
    };
    assert(metric_sql@ == metric_item(pv.metric, agg));
    let ghost pre_items = items.deep_view();
    items.push(metric_sql);
    proof {
        assert(fs.take(plan.filters.len() as int) =~= fs);
        assert(items.deep_view() =~= pre_items.push(metric_item(pv.metric, agg)));
        assert(items.deep_view() =~= select_items_spec(pv, agg));
    }
    let select_clause = join_with(&items, ", ");

    // WHERE conjuncts.
    let mut conds: Vec<String> = Vec::new();
    conds.push("1=1".to_owned());
    let mut i: usize = 0;
    while i < plan.filters.len()
        invariant
            i <= plan.filters.len(),
            conds.deep_view() =~= seq!["1=1"@] + filter_eq_items(fs.take(i as int)),
        decreases plan.filters.len() - i,
    {
        let ghost pre = conds.deep_view();
        let mut c = plan.filters[i].0.sql_expression.clone();
        c.append(" = '");
        c.append(plan.filters[i].1.as_str());
        c.append("'");
        conds.push(c);
        proof {
            assert(conds.deep_view() =~= pre.push(
                fs[i as int].0.sql_expression + " = '"@ + fs[i as int].1 + "'"@,
            ));
            assert(fs.take(i + 1).drop_last() =~= fs.take(i as int));
            assert(fs.take(i + 1).last() == fs[i as int]);
        }
        i = i + 1;
    }
    proof {
        assert(fs.take(plan.filters.len() as int) =~= fs);
    }
    let ghost mcs = pv.metric.default_constraints;
    let mut i: usize = 0;
    while i < plan.metric.default_constraints.len()
        invariant
            i <= plan.metric.default_constraints.len(),
            conds.deep_view() =~= seq!["1=1"@] + filter_eq_items(fs) + constraint_items(
                mcs.take(i as int),
            ),
        decreases plan.metric.default_constraints.len() - i,
    {
        let ghost pre = conds.deep_view();
        let mut c = plan.metric.default_constraints[i].column.clone();
        c.append(" ");
        c.append(plan.metric.default_constraints[i].operator.as_str());
        c.append(" '");
        c.append(plan.metric.default_constraints[i].value.as_str());
        c.append("'");
        conds.push(c);
        proof {
            assert(conds.deep_view() =~= pre.push(
                mcs[i as int].column + " "@ + mcs[i as int].operator + " '"@ + mcs[i as int].value
                    + "'"@,
            ));
            assert(mcs.take(i + 1).drop_last() =~= mcs.take(i as int));
            assert(mcs.take(i + 1).last() == mcs[i as int]);
        }
        i = i + 1;
    }
    proof {
        assert(mcs.take(plan.metric.default_constraints.len() as int) =~= mcs);
    }
    let mut i: usize = 0;
    while i < plan.filters.len()
        invariant
            i <= plan.filters.len(),
            conds.deep_view() =~= seq!["1=1"@] + filter_eq_items(fs) + constraint_items(mcs)
                + filter_constraint_items(fs.take(i as int)),
        decreases plan.filters.len() - i,
    {
        let ghost at_filter = conds.deep_view();
        let ghost dcs = fs[i as int].0.default_constraints;
        let mut j: usize = 0;
        while j < plan.filters[i].0.default_constraints.len()
            invariant
                i < plan.filters.len(),
                j <= plan.filters[i as int].0.default_constraints.len(),
                dcs == fs[i as int].0.default_constraints,
                conds.deep_view() =~= at_filter + constraint_items(dcs.take(j as int)),
            decreases plan.filters[i as int].0.default_constraints.len() - j,
        {
            let ghost pre = conds.deep_view();
            let mut c = plan.filters[i].0.default_constraints[j].column.clone();
            c.append(" ");
            c.append(plan.filters[i].0.default_constraints[j].operator.as_str());
            c.append(" '");
            c.append(plan.filters[i].0.default_constraints[j].value.as_str());
            c.append("'");
            conds.push(c);
            proof {
                assert(conds.deep_view() =~= pre.push(
                    dcs[j as int].column + " "@ + dcs[j as int].operator + " '"@
                        + dcs[j as int].value + "'"@,
                ));
                assert(dcs.take(j + 1).drop_last() =~= dcs.take(j as int));
                assert(dcs.take(j + 1).last() == dcs[j as int]);
            }
            j = j + 1;
        }
        proof {
            assert(dcs.take(plan.filters[i as int].0.default_constraints.len() as int) =~= dcs);
            assert(fs.take(i + 1).drop_last() =~= fs.take(i as int));
            assert(fs.take(i + 1).last() == fs[i as int]);
        }
        i = i + 1;
    }
    proof {
        assert(fs.take(plan.filters.len() as int) =~= fs);
        assert(conds.deep_view() =~= where_items_spec(pv));
    }
    let where_clause = join_with(&conds, " AND ");

    // Assembly.
    let mut sql = "SELECT ".to_owned();
    sql.append(select_clause.as_str());
    sql.append(" FROM ");
    sql.append(plan.metric.target_table.as_str());
    sql.append(" WHERE ");
    sql.append(where_clause.as_str());
    assert(sql@ == base_sql_spec(pv, agg));

    // GROUP BY.
    if agg != Aggregation::NoAggregation && plan.filters.len() > 0 {
        let mut exprs: Vec<String> = Vec::new();
        let mut i: usize = 0;
        while i < plan.filters.len()
            invariant
                i <= plan.filters.len(),
                exprs.deep_view() =~= group_exprs(fs.take(i as int)),
            decreases plan.filters.len() - i,
        {
            let ghost pre = exprs.deep_view();
            exprs.push(plan.filters[i].0.sql_expression.clone());
            proof {
                assert(exprs.deep_view() =~= pre.push(fs[i as int].0.sql_expression));
                assert(fs.take(i + 1).drop_last() =~= fs.take(i as int));
                assert(fs.take(i + 1).last() == fs[i as int]);
            }
            i = i + 1;
        }
        proof {
            assert(fs.take(plan.filters.len() as int) =~= fs);
        }
        let group_list = join_with(&exprs, ", ");
        sql.append(" GROUP BY ");
        sql.append(group_list.as_str());
    }
    sql
}

// ---------------------------------------------------------------------------
// Laws of the lowering
// ---------------------------------------------------------------------------

proof fn lemma_group_exprs_index(fs: Seq<(NodeView, Seq<char>)>)
    ensures
        group_exprs(fs).len() == fs.len(),
        forall|i: int| 0 <= i < fs.len() ==> #[trigger] group_exprs(fs)[i]
            == fs[i].0.sql_expression,
    decreases fs.len(),
{
    if fs.len() > 0 {
        lemma_group_exprs_index(fs.drop_last());
    }
}

proof fn lemma_filter_alias_items_index(fs: Seq<(NodeView, Seq<char>)>)
    ensures
        filter_alias_items(fs).len() == fs.len(),
        forall|i: int| 0 <= i < fs.len() ==> #[trigger] filter_alias_items(fs)[i] == alias_item(
            fs[i].0.sql_expression,
            fs[i].0.label,
        ),
    decreases fs.len(),
{
    if fs.len() > 0 {
        lemma_filter_alias_items_index(fs.drop_last());
    }
}

/// Law: with an aggregation and at least one bound filter, the SQL is the
/// SELECT..WHERE text followed by one GROUP BY clause whose operands are
/// exactly the filters' sql_expressions, in binding order — the same order
/// in which the SELECT prefix projects them.
pub proof fn lemma_group_by_lists_filters(p: PlanView, agg: Aggregation)
    requires
        agg != Aggregation::NoAggregation,
        p.filters.len() > 0,
    ensures
        sql_spec(p, agg) == base_sql_spec(p, agg) + " GROUP BY "@ + join_spec(
            group_exprs(p.filters),
            ", "@,
        ),
        group_exprs(p.filters).len() == p.filters.len(),
        forall|i: int|
            0 <= i < p.filters.len() ==> #[trigger] group_exprs(p.filters)[i]
                == p.filters[i].0.sql_expression,
        forall|i: int|
            0 <= i < p.filters.len() ==> #[trigger] select_items_spec(p, agg)[i] == alias_item(
                p.filters[i].0.sql_expression,
                p.filters[i].0.label,
            ),
{
    lemma_group_exprs_index(p.filters);
    lemma_filter_alias_items_index(p.filters);
}

/// Law: without an aggregation the SQL is the SELECT..WHERE text alone — no
/// GROUP BY clause is appended. The same holds when no filter is bound.
pub proof fn lemma_no_aggregation_no_group_by(p: PlanView, agg: Aggregation)
    requires
        agg == Aggregation::NoAggregation || p.filters.len() == 0,
    ensures
        sql_spec(p, agg) == base_sql_spec(p, agg),
{
    assert(sql_spec(p, agg) =~= base_sql_spec(p, agg));
}

} // verus!
