//! Parsing with sqlparser's Snowflake dialect.
use crate::error::{Error, Result};
use crate::text::{concat_chars, decimal, decimal_chars, from_chars, literal_chars};
use sqlparser::ast::Statement;
use vstd::prelude::*;

verus! {

/// `sqlparser::ast::Statement`: a parsed statement, opaque to Verus.
#[verifier::external_type_specification]
#[verifier::external_body]
pub struct ExStatement(Statement);

/// What `Parser::parse_sql` with the Snowflake dialect gives for `sql`:
/// the statements, or the parser error's message.
pub uninterp spec fn snowflake_parse(sql: Seq<char>) -> std::result::Result<Seq<Statement>, Seq<char>>;

/// `sql` parses to exactly one statement.
pub open spec fn parses_to_one(sql: Seq<char>) -> bool {
    snowflake_parse(sql) matches Ok(v) && v.len() == 1
}

/// Calls `Parser::parse_sql(&SnowflakeDialect {}, sql)`; the statements,
/// or the error's message, are named `snowflake_parse`.
#[verifier::external_body]
fn parse_snowflake(sql: &str) -> (r: std::result::Result<Vec<Statement>, String>)
    ensures
        match r {
            Ok(v) => snowflake_parse(sql@) == Ok::<Seq<Statement>, Seq<char>>(v@),
            Err(m) => snowflake_parse(sql@) == Err::<Seq<Statement>, Seq<char>>(m@),
        },
{
    sqlparser::parser::Parser::parse_sql(&sqlparser::dialect::SnowflakeDialect {}, sql).map_err(
        |e| e.to_string(),
    )
}

/// Parse every statement of a payload.
pub fn parse_all(sql: &str) -> (r: Result<Vec<Statement>>)
    ensures
        match r {
            Ok(v) => snowflake_parse(sql@) == Ok::<Seq<Statement>, Seq<char>>(v@),
            Err(Error::SqlParse(m)) => snowflake_parse(sql@) == Err::<Seq<Statement>, Seq<char>>(m@),
            Err(_) => false,
        },
{
    match parse_snowflake(sql) {
        Ok(v) => Ok(v),
        Err(m) => Err(Error::SqlParse(m)),
    }
}

pub open spec fn count_message(n: nat) -> Seq<char> {
    "expected exactly 1 statement, got "@ + decimal(n)
}

/// Parse a payload that must contain exactly one statement.
pub fn parse_single(sql: &str) -> (r: Result<Statement>)
    ensures
        r is Ok <==> parses_to_one(sql@),
        match r {
            Ok(s) => snowflake_parse(sql@) == Ok::<Seq<Statement>, Seq<char>>(seq![s]),
            Err(Error::SqlParse(m)) => match snowflake_parse(sql@) {
                Ok(v) => m@ == count_message(v.len()),
                Err(e) => m@ == e,
            },
            Err(_) => false,
        },
{
    let mut statements = parse_all(sql)?;
    if statements.len() == 1 {
        let ghost v = statements@;
        let s = statements.remove(0);
        assert(v =~= seq![s]);
        Ok(s)
    } else {
        let prefix = literal_chars("expected exactly 1 statement, got ");
        let n = decimal_chars(statements.len() as u64);
        let msg = concat_chars(&prefix, &n);
        Err(Error::SqlParse(from_chars(msg.as_slice())))
    }
}

/// The kinds of statement the proxy tells apart.
#[derive(Debug, Clone, PartialEq, Eq)]
pub enum StatementKind {
    /// A read: `SELECT`, `WITH`, set operations.
    Query,
    /// `USE WAREHOUSE name`, with the name as written.
    UseWarehouse(String),
    /// Runs on cloud services only: `SHOW`, `DESCRIBE`, `EXPLAIN`, other
    /// `USE`, `SET`, transaction control.
    Metadata,
    /// Anything else (writes, DDL, ...).
    Other,
}

/// The variant of a statement, as `sqlparser` names it: the variants the
/// proxy tells apart, one each, and `Other` for the rest.
#[derive(Debug, Clone, PartialEq, Eq)]
pub enum StatementTag {
    Query,
    /// `USE WAREHOUSE name`, with the name rendered.
    UseWarehouse(String),
    /// Any other `USE`.
    Use,
    ShowVariable,
    ShowVariables,
    ShowTables,
    ShowSchemas,
    ShowDatabases,
    ShowColumns,
    ShowFunctions,
    ShowObjects,
    ShowViews,
    ShowStatus,
    ShowCollation,
    ShowCreate,
    ExplainTable,
    Explain,
    SetVariable,
    StartTransaction,
    Commit,
    Rollback,
    Other,
}

/// The tag `statement_tag` gives a statement.
pub uninterp spec fn statement_variant(s: Statement) -> StatementTag;

/// The tag `show_tag` gives a statement.
pub uninterp spec fn show_variant(s: Statement) -> StatementTag;

/// Tells the statement's variants apart, one arm each, `SHOW` statements
/// aside (`Other`, as any other variant); `USE WAREHOUSE`'s name is
/// rendered with `Display`. The tag is named `statement_variant`.
#[verifier::external_body]
fn statement_tag(stmt: &Statement) -> (r: StatementTag)
    ensures
        r == statement_variant(*stmt),
{
    match stmt {
        Statement::Query(_) => StatementTag::Query,
        Statement::Use(sqlparser::ast::Use::Warehouse(name)) => StatementTag::UseWarehouse(name.to_string()),
        Statement::Use(_) => StatementTag::Use,
        Statement::ExplainTable { .. } => StatementTag::ExplainTable,
        Statement::Explain { .. } => StatementTag::Explain,
        Statement::Set(_) => StatementTag::SetVariable,
        Statement::StartTransaction { .. } => StatementTag::StartTransaction,
        Statement::Commit { .. } => StatementTag::Commit,
        Statement::Rollback { .. } => StatementTag::Rollback,
        _ => StatementTag::Other,
    }
}

/// Tells `SHOW` statements apart, one arm each; any other statement is
/// `Other`. The tag is named `show_variant`.
#[verifier::external_body]
fn show_tag(stmt: &Statement) -> (r: StatementTag)
    ensures
        r == show_variant(*stmt),
{
    match stmt {
        Statement::ShowVariable { .. } => StatementTag::ShowVariable,
        Statement::ShowVariables { .. } => StatementTag::ShowVariables,
        Statement::ShowTables { .. } => StatementTag::ShowTables,
        Statement::ShowSchemas { .. } => StatementTag::ShowSchemas,
        Statement::ShowDatabases { .. } => StatementTag::ShowDatabases,
        Statement::ShowColumns { .. } => StatementTag::ShowColumns,
        Statement::ShowFunctions { .. } => StatementTag::ShowFunctions,
        Statement::ShowObjects { .. } => StatementTag::ShowObjects,
        Statement::ShowViews { .. } => StatementTag::ShowViews,
        Statement::ShowStatus { .. } => StatementTag::ShowStatus,
        Statement::ShowCollation { .. } => StatementTag::ShowCollation,
        Statement::ShowCreate { .. } => StatementTag::ShowCreate,
        _ => StatementTag::Other,
    }
}

/// The kind of a statement with this tag: reads, `USE WAREHOUSE`, what
/// runs on cloud services only (`SHOW`, `DESCRIBE`/`EXPLAIN`, other `USE`,
/// `SET`, transaction control), and everything else.
pub open spec fn kind_of_tag(t: StatementTag) -> StatementKind {
    match t {
        StatementTag::Query => StatementKind::Query,
        StatementTag::UseWarehouse(name) => StatementKind::UseWarehouse(name),
        StatementTag::Other => StatementKind::Other,
        _ => StatementKind::Metadata,
    }
}

/// The kind of a statement with tag `t`.
pub fn kind_from_tag(t: StatementTag) -> (k: StatementKind)
    ensures
        k == kind_of_tag(t),
{
    match t {
        StatementTag::Query => StatementKind::Query,
        StatementTag::UseWarehouse(name) => StatementKind::UseWarehouse(name),
        StatementTag::Other => StatementKind::Other,
        _ => StatementKind::Metadata,
    }
}

/// The tag of a statement: its variant, or its `SHOW` variant where the
/// first reading finds none it tells apart.
pub open spec fn tag_of(s: Statement) -> StatementTag {
    match statement_variant(s) {
        StatementTag::Other => show_variant(s),
        t => t,
    }
}

/// The kind of a statement: that of its tag.
pub open spec fn kind_of_statement(s: Statement) -> StatementKind {
    kind_of_tag(tag_of(s))
}

/// The kind of a parsed statement: that of its tag (`kind_from_tag`).
pub(crate) fn statement_kind(stmt: &Statement) -> (k: StatementKind)
    ensures
        k == kind_of_statement(*stmt),
{
    let tag = match statement_tag(stmt) {
        StatementTag::Other => show_tag(stmt),
        t => t,
    };
    kind_from_tag(tag)
}

pub open spec fn kind_is_read_only(k: StatementKind) -> bool {
    k is Query
}

/// Does a statement of this kind consume warehouse compute? Metadata-only
/// statements (`USE WAREHOUSE` among them) run on cloud services.
pub open spec fn kind_runs_on_warehouse(k: StatementKind) -> bool {
    !(k is Metadata || k is UseWarehouse)
}

/// Whether a statement of kind `k` is a pure read.
pub fn kind_reads_only(k: &StatementKind) -> (r: bool)
    ensures
        r == kind_is_read_only(*k),
{
    match k {
        StatementKind::Query => true,
        _ => false,
    }
}

/// True if the statement is a pure read: `kind_reads_only` of its kind.
pub fn is_read_only(statement: &Statement) -> (r: bool)
    ensures
        r == kind_is_read_only(kind_of_statement(*statement)),
{
    kind_reads_only(&statement_kind(statement))
}

/// Whether a statement of kind `k` consumes warehouse compute.
pub fn runs_on_warehouse(k: &StatementKind) -> (r: bool)
    ensures
        r == kind_runs_on_warehouse(*k),
{
    match k {
        StatementKind::Metadata | StatementKind::UseWarehouse(_) => false,
        _ => true,
    }
}

} // verus!
