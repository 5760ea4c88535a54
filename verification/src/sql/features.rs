//! Features of one statement: the tables it reads, its aggregates and
//! predicates, its shape, and whether its result can depend on more than
//! its text. They drive the soft fingerprint, the cache's determinism gate
//! and the router's size rule.
use crate::text::{
    insert_sorted_unique, str_eq, string_views, strictly_sorted, to_uppercase, unicode_uppercase,
};
use sqlparser::ast::{
    BinaryOperator as B, Expr, GroupByExpr, Query, SelectItem, SetExpr, Statement,
};
use vstd::prelude::*;

verus! {

/// `sqlparser::ast::Query`, opaque to Verus.
#[verifier::external_type_specification]
#[verifier::external_body]
pub struct ExQuery(Query);

/// `sqlparser::ast::Expr`, opaque to Verus.
#[verifier::external_type_specification]
#[verifier::external_body]
pub struct ExExpr(sqlparser::ast::Expr);

/// `sqlparser::ast::BinaryOperator`, opaque to Verus.
#[verifier::external_type_specification]
#[verifier::external_body]
pub struct ExBinaryOperator(sqlparser::ast::BinaryOperator);

/// `sqlparser::ast::SetExpr`, opaque to Verus.
#[verifier::external_type_specification]
#[verifier::external_body]
pub struct ExSetExpr(SetExpr);

/// A binary operator: the variants the features tell apart, one each.
#[derive(Debug, Clone, Copy, PartialEq, Eq)]
pub enum BinOpTag {
    Eq,
    NotEq,
    Lt,
    LtEq,
    Gt,
    GtEq,
    Other,
}

/// One expression of a statement, by its variant.
#[derive(Debug, Clone)]
pub enum ExprFact {
    /// A function call, with the parts of its name as written.
    Function(Vec<String>),
    /// `left op right`.
    BinaryOp(BinOpTag),
    /// `LIKE`.
    Like,
    /// `ILIKE`.
    ILike,
    /// `IN (list)`.
    InList,
    /// `BETWEEN`.
    Between,
    /// Any other expression.
    Other,
}

/// The name a function call is known by: the last part of its name,
/// empty where it has no parts.
pub open spec fn call_name(parts: Seq<String>) -> Seq<char> {
    if parts.len() == 0 {
        seq![]
    } else {
        parts.last()@
    }
}

/// The function's name as the features read it: the last part, upper-cased.
pub open spec fn fact_function(f: ExprFact) -> Option<Seq<char>> {
    match f {
        ExprFact::Function(parts) => Some(unicode_uppercase(call_name(parts@))),
        _ => None,
    }
}

/// A leaf predicate: the six comparisons, `LIKE`, `ILIKE`, `IN` and
/// `BETWEEN`.
pub open spec fn is_leaf_predicate(f: ExprFact) -> bool {
    match f {
        ExprFact::BinaryOp(op) => !(op is Other),
        ExprFact::Like | ExprFact::ILike | ExprFact::InList | ExprFact::Between => true,
        _ => false,
    }
}

/// The last part of a call's name (empty where it has none), upper-cased.
fn call_name_upper(parts: &Vec<String>) -> (r: String)
    ensures
        r@ == unicode_uppercase(call_name(parts@)),
{
    if parts.len() == 0 {
        proof {
            reveal_strlit("");
            assert(""@ =~= Seq::<char>::empty());
        }
        to_uppercase("")
    } else {
        to_uppercase(parts[parts.len() - 1].as_str())
    }
}

/// Whether an expression is a leaf predicate.
pub fn leaf_predicate(f: &ExprFact) -> (r: bool)
    ensures
        r == is_leaf_predicate(*f),
{
    match f {
        ExprFact::BinaryOp(op) => match op {
            BinOpTag::Other => false,
            _ => true,
        },
        ExprFact::Like | ExprFact::ILike | ExprFact::InList | ExprFact::Between => true,
        _ => false,
    }
}

#[derive(Debug, Clone)]
pub enum GroupByShape {
    /// `GROUP BY ALL`.
    All,
    /// `GROUP BY` with this many expressions and modifiers.
    Expressions(usize, usize),
}

/// One `SELECT` block.
#[derive(Debug, Clone)]
pub struct SelectShape {
    /// For each table of `FROM`, how many explicit joins hang off it.
    pub from_joins: Vec<usize>,
    pub group_by: GroupByShape,
    /// For each projection item, whether it is a bare `*`.
    pub wildcard_items: Vec<bool>,
}

/// The body of a query.
#[derive(Debug)]
pub enum SetShape {
    Select(SelectShape),
    Nested(Box<QueryShape>),
    SetOperation(Box<SetShape>, Box<SetShape>),
    Other,
}

/// A query: its `ORDER BY`/`LIMIT` and its body.
#[derive(Debug)]
pub struct QueryShape {
    pub has_order_by: bool,
    pub has_limit: bool,
    pub body: SetShape,
}

/// Everything the features are computed from.
#[derive(Debug)]
pub struct StatementFacts {
    /// Every relation the statement names, as written, in visit order.
    pub relations: Vec<String>,
    /// Every expression, in visit order.
    pub expressions: Vec<ExprFact>,
    /// The query's shape when the statement is a query.
    pub query: Option<QueryShape>,
}

/// The relations `relation_names` finds in a statement, as rendered.
pub uninterp spec fn relations_of(s: Statement) -> Seq<Seq<char>>;

/// The expressions `expression_facts` finds in a statement, in visit order.
pub uninterp spec fn expressions_of(s: Statement) -> Seq<ExprFact>;

/// Walks the statement's relations with `visit_relations` and renders
/// each with `Display`; the list is named `relations_of`.
#[verifier::external_body]
pub(crate) fn relation_names(stmt: &Statement) -> (r: Vec<String>)
    ensures
        r@.map_values(|x: String| x@) == relations_of(*stmt),
{
    let mut out = Vec::new();
    let _ = sqlparser::ast::visit_relations(stmt, |r| {
        out.push(r.to_string());
        std::ops::ControlFlow::<()>::Continue(())
    });
    out
}

/// Walks the statement's expressions with `visit_expressions`, each told
/// apart by `expr_fact`; the list is named `expressions_of`.
#[verifier::external_body]
pub(crate) fn expression_facts(stmt: &Statement) -> (r: Vec<ExprFact>)
    ensures
        r@ == expressions_of(*stmt),
{
    let mut out = Vec::new();
    let _ = sqlparser::ast::visit_expressions(stmt, |e: &Expr| {
        out.push(expr_fact(e));
        std::ops::ControlFlow::<()>::Continue(())
    });
    out
}

/// Tells an expression's variants apart, one arm each; a function by its
/// name's parts rendered with `Display`.
#[verifier::external_body]
fn expr_fact(e: &Expr) -> ExprFact {
    match e {
        Expr::Function(f) => ExprFact::Function(f.name.0.iter().map(|p| p.to_string()).collect()),
        Expr::BinaryOp { op, .. } => ExprFact::BinaryOp(op_tag(op)),
        Expr::Like { .. } => ExprFact::Like,
        Expr::ILike { .. } => ExprFact::ILike,
        Expr::InList { .. } => ExprFact::InList,
        Expr::Between { .. } => ExprFact::Between,
        _ => ExprFact::Other,
    }
}

/// Tells a binary operator's variants apart, one arm each.
#[verifier::external_body]
fn op_tag(op: &B) -> BinOpTag {
    match op {
        B::Eq => BinOpTag::Eq,
        B::NotEq => BinOpTag::NotEq,
        B::Lt => BinOpTag::Lt,
        B::LtEq => BinOpTag::LtEq,
        B::Gt => BinOpTag::Gt,
        B::GtEq => BinOpTag::GtEq,
        _ => BinOpTag::Other,
    }
}

/// The shape `query_shape_of` reads from a query.
pub uninterp spec fn query_shape_name(q: Query) -> QueryShape;

/// The query `statement_query` finds in a statement, if it is one.
pub uninterp spec fn query_part(s: Statement) -> Option<Query>;

/// Reads a query's `ORDER BY`/`LIMIT` presence and converts its body; the
/// shape is named `query_shape_name`.
#[verifier::external_body]
pub(crate) fn query_shape_of(q: &Query) -> (r: QueryShape)
    ensures
        r == query_shape_name(*q),
{
    QueryShape { has_order_by: q.order_by.is_some(), has_limit: q.limit_clause.is_some(), body: set_shape_of(&q.body) }
}

/// Converts a query body into its shape, variant for variant.
#[verifier::external_body]
pub(crate) fn set_shape_of(s: &SetExpr) -> SetShape {
    match s {
        SetExpr::Select(sel) => SetShape::Select(SelectShape {
            from_joins: sel.from.iter().map(|t| t.joins.len()).collect(),
            group_by: match &sel.group_by {
                GroupByExpr::All(_) => GroupByShape::All,
                GroupByExpr::Expressions(e, m) => GroupByShape::Expressions(e.len(), m.len()),
            },
            wildcard_items: sel.projection.iter().map(|p| matches!(p, SelectItem::Wildcard(_))).collect(),
        }),
        SetExpr::Query(q) => SetShape::Nested(Box::new(query_shape_of(q))),
        SetExpr::SetOperation { left, right, .. } => SetShape::SetOperation(Box::new(set_shape_of(left)), Box::new(set_shape_of(right))),
        _ => SetShape::Other,
    }
}

/// The query a statement holds, if it is a query; named `query_part`.
#[verifier::external_body]
pub(crate) fn statement_query(stmt: &Statement) -> (r: Option<&Query>)
    ensures
        match r {
            Some(q) => query_part(*stmt) == Some(*q),
            None => query_part(*stmt) is None,
        },
{
    match stmt {
        Statement::Query(q) => Some(q),
        _ => None,
    }
}

#[derive(Debug, Clone)]
pub struct QueryFeatures {
    /// Fully-qualified (as written), upper-cased, sorted, deduplicated.
    pub tables: Vec<String>,
    pub joins_count: usize,
    /// Upper-cased aggregate function names present, sorted, deduplicated.
    pub aggregates: Vec<String>,
    /// Leaf comparison predicates.
    pub predicates_count: usize,
    pub has_group_by: bool,
    pub has_order_by: bool,
    pub has_limit: bool,
    pub is_select_star: bool,
    /// False when any non-deterministic function is present.
    pub deterministic: bool,
    /// Estimated rows scanned; unknown (None) until statistics exist.
    pub scan_estimate_rows: Option<u64>,
}

/// Functions whose result depends on more than their arguments. A query
/// touching any of these is never cached.
pub open spec fn is_nondeterministic_fn(n: Seq<char>) -> bool {
    ||| n == "CURRENT_TIMESTAMP"@
    ||| n == "CURRENT_TIME"@
    ||| n == "CURRENT_DATE"@
    ||| n == "LOCALTIME"@
    ||| n == "LOCALTIMESTAMP"@
    ||| n == "SYSDATE"@
    ||| n == "GETDATE"@
    ||| n == "RANDOM"@
    ||| n == "RANDSTR"@
    ||| n == "UUID_STRING"@
    ||| n == "SEQ1"@
    ||| n == "SEQ2"@
    ||| n == "SEQ4"@
    ||| n == "SEQ8"@
    ||| n == "LAST_QUERY_ID"@
}

/// Aggregate functions.
pub open spec fn is_aggregate_fn(n: Seq<char>) -> bool {
    ||| n == "COUNT"@
    ||| n == "SUM"@
    ||| n == "AVG"@
    ||| n == "MIN"@
    ||| n == "MAX"@
    ||| n == "MEDIAN"@
    ||| n == "STDDEV"@
    ||| n == "VARIANCE"@
    ||| n == "LISTAGG"@
    ||| n == "ARRAY_AGG"@
    ||| n == "APPROX_COUNT_DISTINCT"@
    ||| n == "HLL"@
    ||| n == "PERCENTILE_CONT"@
    ||| n == "PERCENTILE_DISC"@
}

pub fn is_nondeterministic_name(n: &str) -> (r: bool)
    ensures
        r == is_nondeterministic_fn(n@),
{
    str_eq(n, "CURRENT_TIMESTAMP") || str_eq(n, "CURRENT_TIME") || str_eq(n, "CURRENT_DATE")
        || str_eq(n, "LOCALTIME") || str_eq(n, "LOCALTIMESTAMP") || str_eq(n, "SYSDATE")
        || str_eq(n, "GETDATE") || str_eq(n, "RANDOM") || str_eq(n, "RANDSTR") || str_eq(
        n,
        "UUID_STRING",
    ) || str_eq(n, "SEQ1") || str_eq(n, "SEQ2") || str_eq(n, "SEQ4") || str_eq(n, "SEQ8")
        || str_eq(n, "LAST_QUERY_ID")
}

pub fn is_aggregate_name(n: &str) -> (r: bool)
    ensures
        r == is_aggregate_fn(n@),
{
    str_eq(n, "COUNT") || str_eq(n, "SUM") || str_eq(n, "AVG") || str_eq(n, "MIN") || str_eq(
        n,
        "MAX",
    ) || str_eq(n, "MEDIAN") || str_eq(n, "STDDEV") || str_eq(n, "VARIANCE") || str_eq(
        n,
        "LISTAGG",
    ) || str_eq(n, "ARRAY_AGG") || str_eq(n, "APPROX_COUNT_DISTINCT") || str_eq(n, "HLL")
        || str_eq(n, "PERCENTILE_CONT") || str_eq(n, "PERCENTILE_DISC")
}

/// The upper-cased names of the aggregate calls among `es`, in order.
pub open spec fn aggregate_calls(es: Seq<ExprFact>) -> Seq<Seq<char>>
    decreases es.len(),
{
    if es.len() == 0 {
        seq![]
    } else {
        let rest = aggregate_calls(es.drop_last());
        match fact_function(es.last()) {
            Some(n) => if is_aggregate_fn(n) {
                rest.push(n)
            } else {
                rest
            },
            None => rest,
        }
    }
}

/// No expression calls a non-deterministic function.
pub open spec fn all_deterministic(es: Seq<ExprFact>) -> bool {
    forall|i: int|
        0 <= i < es.len() ==> match fact_function(#[trigger] es[i]) {
            Some(n) => !is_nondeterministic_fn(n),
            None => true,
        }
}

/// How many expressions are leaf predicates.
pub open spec fn predicate_count(es: Seq<ExprFact>) -> nat
    decreases es.len(),
{
    if es.len() == 0 {
        0
    } else {
        predicate_count(es.drop_last()) + if is_leaf_predicate(es.last()) {
            1nat
        } else {
            0nat
        }
    }
}

pub open spec fn sum_usize(s: Seq<usize>) -> int
    decreases s.len(),
{
    if s.len() == 0 {
        0
    } else {
        sum_usize(s.drop_last()) + s.last()
    }
}

/// Joins of one `SELECT`: its explicit joins plus the implicit ones between
/// the tables of its `FROM`.
pub open spec fn select_joins(sel: SelectShape) -> int {
    sum_usize(sel.from_joins@) + if sel.from_joins@.len() > 0 {
        sel.from_joins@.len() - 1
    } else {
        0
    }
}

pub open spec fn select_grouped(sel: SelectShape) -> bool {
    match sel.group_by {
        GroupByShape::All => true,
        GroupByShape::Expressions(e, m) => !(e == 0 && m == 0),
    }
}

pub open spec fn select_star(sel: SelectShape) -> bool {
    exists|i: int| 0 <= i < sel.wildcard_items@.len() && sel.wildcard_items@[i]
}

/// What a walk of a query and its nested bodies finds: order by, limit,
/// group by, star, and the number of joins.
pub open spec fn query_summary(q: QueryShape) -> (bool, bool, bool, bool, int)
    decreases q,
{
    let b = set_summary(q.body);
    (q.has_order_by || b.0, q.has_limit || b.1, b.2, b.3, b.4)
}

pub open spec fn set_summary(s: SetShape) -> (bool, bool, bool, bool, int)
    decreases s,
{
    match s {
        SetShape::Select(sel) => (false, false, select_grouped(sel), select_star(sel), select_joins(
            sel,
        )),
        SetShape::Nested(q) => query_summary(*q),
        SetShape::SetOperation(l, r) => {
            let a = set_summary(*l);
            let b = set_summary(*r);
            (a.0 || b.0, a.1 || b.1, a.2 || b.2, a.3 || b.3, a.4 + b.4)
        },
        SetShape::Other => (false, false, false, false, 0),
    }
}

pub open spec fn sat(n: int) -> int {
    if n > usize::MAX {
        usize::MAX as int
    } else {
        n
    }
}

/// `f` holds the features of a statement with these facts.
pub open spec fn features_of(f: QueryFeatures, facts: StatementFacts) -> bool {
    features_from_parts(
        f,
        facts.relations@.map_values(|r: String| r@),
        facts.expressions@,
        facts.query,
    )
}

/// `f` holds the features of a statement with these relations,
/// expressions and query shape.
pub open spec fn features_from_parts(
    f: QueryFeatures,
    relations: Seq<Seq<char>>,
    expressions: Seq<ExprFact>,
    query: Option<QueryShape>,
) -> bool {
    let rels = relations.map_values(|r: Seq<char>| unicode_uppercase(r));
    let summary = match query {
        Some(q) => query_summary(q),
        None => (false, false, false, false, 0),
    };
    &&& strictly_sorted(f.table_names())
    &&& f.table_names().to_set() == rels.to_set()
    &&& strictly_sorted(f.aggregate_names())
    &&& f.aggregate_names().to_set() == aggregate_calls(expressions).to_set()
    &&& f.deterministic == all_deterministic(expressions)
    &&& f.predicates_count == predicate_count(expressions)
    &&& f.has_order_by == summary.0
    &&& f.has_limit == summary.1
    &&& f.has_group_by == summary.2
    &&& f.is_select_star == summary.3
    &&& f.joins_count == sat(summary.4)
    &&& f.scan_estimate_rows is None
}

fn sat_add(x: usize, y: usize) -> (r: usize)
    ensures
        r == sat(x + y),
{
    if x > usize::MAX - y {
        usize::MAX
    } else {
        x + y
    }
}

proof fn lemma_sat_add(a: int, b: int)
    requires
        a >= 0,
        b >= 0,
    ensures
        sat(sat(a) + sat(b)) == sat(a + b),
{
}

fn summarize_select(sel: &SelectShape) -> (r: (bool, bool, bool, bool, usize))
    ensures
        r.0 == set_summary(SetShape::Select(*sel)).0,
        r.1 == set_summary(SetShape::Select(*sel)).1,
        r.2 == set_summary(SetShape::Select(*sel)).2,
        r.3 == set_summary(SetShape::Select(*sel)).3,
        r.4 == sat(set_summary(SetShape::Select(*sel)).4),
        set_summary(SetShape::Select(*sel)).4 >= 0,
{
    let mut joins: usize = 0;
    let mut i: usize = 0;
    while i < sel.from_joins.len()
        invariant
            i <= sel.from_joins.len(),
            joins == sat(sum_usize(sel.from_joins@.take(i as int))),
            sum_usize(sel.from_joins@.take(i as int)) >= 0,
        decreases sel.from_joins.len() - i,
    {
        assert(sel.from_joins@.take(i + 1).drop_last() =~= sel.from_joins@.take(i as int));
        proof {
            lemma_sat_add(sum_usize(sel.from_joins@.take(i as int)), sel.from_joins@[i as int] as int);
        }
        joins = sat_add(joins, sel.from_joins[i]);
        i = i + 1;
    }
    assert(sel.from_joins@.take(sel.from_joins.len() as int) =~= sel.from_joins@);
    let implicit: usize = if sel.from_joins.len() > 0 {
        sel.from_joins.len() - 1
    } else {
        0
    };
    proof {
        lemma_sat_add(sum_usize(sel.from_joins@), implicit as int);
    }
    let joins = sat_add(joins, implicit);
    let grouped = match &sel.group_by {
        GroupByShape::All => true,
        GroupByShape::Expressions(e, m) => !(*e == 0 && *m == 0),
    };
    let mut star = false;
    let mut k: usize = 0;
    while k < sel.wildcard_items.len()
        invariant
            k <= sel.wildcard_items.len(),
            star == exists|j: int| 0 <= j < k && sel.wildcard_items@[j],
        decreases sel.wildcard_items.len() - k,
    {
        if sel.wildcard_items[k] {
            star = true;
        }
        k = k + 1;
    }
    (false, false, grouped, star, joins)
}

/// The summary of a query's walk, joins saturated at `usize::MAX`.
fn summarize_query(q: &QueryShape) -> (r: (bool, bool, bool, bool, usize))
    ensures
        r.0 == query_summary(*q).0,
        r.1 == query_summary(*q).1,
        r.2 == query_summary(*q).2,
        r.3 == query_summary(*q).3,
        r.4 == sat(query_summary(*q).4),
        query_summary(*q).4 >= 0,
    decreases q,
{
    let b = summarize_set(&q.body);
    (q.has_order_by || b.0, q.has_limit || b.1, b.2, b.3, b.4)
}

fn summarize_set(s: &SetShape) -> (r: (bool, bool, bool, bool, usize))
    ensures
        r.0 == set_summary(*s).0,
        r.1 == set_summary(*s).1,
        r.2 == set_summary(*s).2,
        r.3 == set_summary(*s).3,
        r.4 == sat(set_summary(*s).4),
        set_summary(*s).4 >= 0,
    decreases s,
{
    match s {
        SetShape::Select(sel) => summarize_select(sel),
        SetShape::Nested(q) => summarize_query(q),
        SetShape::SetOperation(l, r) => {
            let a = summarize_set(l);
            let b = summarize_set(r);
            proof {
                lemma_sat_add(set_summary(**l).4, set_summary(**r).4);
            }
            (a.0 || b.0, a.1 || b.1, a.2 || b.2, a.3 || b.3, sat_add(a.4, b.4))
        },
        SetShape::Other => (false, false, false, false, 0),
    }
}

/// Compute the features of a statement from its facts.
pub fn features_from_facts(facts: &StatementFacts) -> (r: QueryFeatures)
    ensures
        features_of(r, *facts),
{
    let mut tables: Vec<String> = Vec::new();
    let ghost rels = facts.relations@.map_values(|r: String| unicode_uppercase(r@));
    let mut i: usize = 0;
    while i < facts.relations.len()
        invariant
            i <= facts.relations.len(),
            rels == facts.relations@.map_values(|r: String| unicode_uppercase(r@)),
            strictly_sorted(string_views(tables@)),
            string_views(tables@).to_set() == rels.take(i as int).to_set(),
        decreases facts.relations.len() - i,
    {
        let up = to_uppercase(facts.relations[i].as_str());
        insert_sorted_unique(&mut tables, up);
        assert(rels.take(i + 1) =~= rels.take(i as int).push(rels[i as int]));
        proof {
            rels.take(i as int).lemma_push_to_set_commute(rels[i as int]);
        }
        i = i + 1;
    }
    assert(rels.take(facts.relations.len() as int) =~= rels);
    assert(facts.relations@.map_values(|r: String| r@).map_values(|r: Seq<char>| unicode_uppercase(r))
        =~= rels);
    let mut aggregates: Vec<String> = Vec::new();
    let mut deterministic = true;
    let mut predicates: usize = 0;
    let ghost es = facts.expressions@;
    let mut k: usize = 0;
    while k < facts.expressions.len()
        invariant
            k <= facts.expressions.len(),
            es == facts.expressions@,
            strictly_sorted(string_views(aggregates@)),
            string_views(aggregates@).to_set() == aggregate_calls(es.take(k as int)).to_set(),
            deterministic == all_deterministic(es.take(k as int)),
            predicates == predicate_count(es.take(k as int)),
            predicates <= k,
        decreases facts.expressions.len() - k,
    {
        assert(es.take(k + 1).drop_last() =~= es.take(k as int));
        if leaf_predicate(&facts.expressions[k]) {
            predicates = predicates + 1;
        }
        match &facts.expressions[k] {
            ExprFact::Function(parts) => {
                let up = call_name_upper(parts);
                if is_nondeterministic_name(up.as_str()) {
                    deterministic = false;
                }
                if is_aggregate_name(up.as_str()) {
                    proof {
                        let prev = aggregate_calls(es.take(k as int));
                        prev.lemma_push_to_set_commute(up@);
                    }
                    insert_sorted_unique(&mut aggregates, up);
                }
            },
            _ => {},
        }
        k = k + 1;
    }
    assert(es.take(facts.expressions.len() as int) =~= es);
    let summary = match &facts.query {
        Some(q) => summarize_query(q),
        None => (false, false, false, false, 0),
    };
    QueryFeatures {
        tables,
        joins_count: summary.4,
        aggregates,
        predicates_count: predicates,
        has_group_by: summary.2,
        has_order_by: summary.0,
        has_limit: summary.1,
        is_select_star: summary.3,
        deterministic,
        scan_estimate_rows: None,
    }
}

/// The features of a statement: those of the relations, expressions and
/// query shape that its walks yield.
pub open spec fn statement_features(f: QueryFeatures, s: Statement) -> bool {
    features_from_parts(
        f,
        relations_of(s),
        expressions_of(s),
        match query_part(s) {
            Some(q) => Some(query_shape_name(q)),
            None => None,
        },
    )
}

/// The features of a parsed statement: those of the facts that the
/// statement's walk yields.
pub fn extract(statement: &Statement) -> (r: QueryFeatures)
    ensures
        statement_features(r, *statement),
{
    let query = match statement_query(statement) {
        Some(q) => Some(query_shape_of(q)),
        None => None,
    };
    let facts = StatementFacts {
        relations: relation_names(statement),
        expressions: expression_facts(statement),
        query,
    };
    features_from_facts(&facts)
}

impl QueryFeatures {
    pub open spec fn table_names(&self) -> Seq<Seq<char>> {
        self.tables@.map_values(|t: String| t@)
    }

    pub open spec fn aggregate_names(&self) -> Seq<Seq<char>> {
        self.aggregates@.map_values(|t: String| t@)
    }
}

impl Default for QueryFeatures {
    /// No tables, no aggregates, no shape flags, and not deterministic.
    fn default() -> (r: Self)
        ensures
            r.tables@.len() == 0,
            r.aggregates@.len() == 0,
            r.joins_count == 0,
            r.predicates_count == 0,
            !r.has_group_by && !r.has_order_by && !r.has_limit && !r.is_select_star,
            !r.deterministic,
            r.scan_estimate_rows is None,
    {
        QueryFeatures {
            tables: Vec::new(),
            joins_count: 0,
            aggregates: Vec::new(),
            predicates_count: 0,
            has_group_by: false,
            has_order_by: false,
            has_limit: false,
            is_select_star: false,
            deterministic: false,
            scan_estimate_rows: None,
        }
    }
}


/// A statement that calls a clock (`CURRENT_TIMESTAMP`, `CURRENT_TIME`,
/// `CURRENT_DATE`, `LOCALTIME`, `LOCALTIMESTAMP`, `SYSDATE`, `GETDATE`), a
/// random source (`RANDOM`, `RANDSTR`, `UUID_STRING`), a sequence (`SEQ1`,
/// `SEQ2`, `SEQ4`, `SEQ8`) or `LAST_QUERY_ID`, under any schema prefix and
/// in any letter case, is never deterministic, so it is never cached or
/// routed.
pub proof fn law_clock_and_random_calls_are_not_deterministic(f: QueryFeatures, s: Statement, i: int)
    requires
        statement_features(f, s),
        0 <= i < expressions_of(s).len(),
        fact_function(expressions_of(s)[i]) matches Some(n) && {
            ||| n == "CURRENT_TIMESTAMP"@
            ||| n == "CURRENT_TIME"@
            ||| n == "CURRENT_DATE"@
            ||| n == "LOCALTIME"@
            ||| n == "LOCALTIMESTAMP"@
            ||| n == "SYSDATE"@
            ||| n == "GETDATE"@
            ||| n == "RANDOM"@
            ||| n == "RANDSTR"@
            ||| n == "UUID_STRING"@
            ||| n == "SEQ1"@
            ||| n == "SEQ2"@
            ||| n == "SEQ4"@
            ||| n == "SEQ8"@
            ||| n == "LAST_QUERY_ID"@
        },
    ensures
        !f.deterministic,
{
    let es = expressions_of(s);
    assert(!all_deterministic(es)) by {
        assert(match fact_function(es[i]) {
            Some(n) => !is_nondeterministic_fn(n),
            None => true,
        } == false);
    }
}

} // verus!
