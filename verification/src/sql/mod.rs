//! The SQL pipeline:
//!
//! ```text
//! raw_sql → parse (Snowflake dialect) → normalise/parameterise
//!         → features → hard fingerprint (blake3) + soft fingerprint
//! ```
//!
//! Everything here is deterministic and synchronous.
use crate::error::{Error, Result};
use sqlparser::ast::Statement;
use vstd::prelude::*;

pub mod features;
pub mod fingerprint;
pub mod hints;
pub mod normalise;
pub mod parse;

pub use features::QueryFeatures;
pub use hints::Hints;

verus! {

/// The full analysis of one SQL statement, produced once per query and
/// shared immutably with every plugin.
#[derive(Debug)]
pub struct QueryAnalysis {
    pub raw_sql: String,
    pub statement: Statement,
    /// What kind of statement `statement` is: the one fact about the parse
    /// tree that the plugins and the wire layer read.
    pub kind: parse::StatementKind,
    /// Parameterised, whitespace-normalised, lowercased SQL.
    pub canonical_sql: String,
    /// Literal values extracted during parameterisation, in visit order.
    pub literals: Vec<String>,
    pub hard_fingerprint: [u8; 32],
    pub soft_fingerprint: [u8; 16],
    pub features: QueryFeatures,
    pub hints: Hints,
}

/// `a` is the analysis of `raw_sql`: its one statement, that statement's
/// kind, canonical text, literals and features, the fingerprints of those,
/// and the text's hints.
pub open spec fn analysis_of(a: QueryAnalysis, raw_sql: Seq<char>) -> bool {
    &&& a.raw_sql@ == raw_sql
    &&& parse::snowflake_parse(raw_sql) == Ok::<Seq<Statement>, Seq<char>>(seq![a.statement])
    &&& a.kind == parse::kind_of_statement(a.statement)
    &&& a.canonical_sql@ == normalise::canonical_of(a.statement)
    &&& a.literals@.map_values(|l: String| l@) == normalise::literals_of(a.statement)
    &&& a.hard_fingerprint@ == fingerprint::spec_hard(
        a.canonical_sql@,
        a.literals@.map_values(|l: String| l@),
    )
    &&& features::statement_features(a.features, a.statement)
    &&& a.soft_fingerprint@ == fingerprint::spec_soft(a.features)
    &&& a.hints.pairs() == hints::hint_pairs_from(raw_sql, 0)
}

/// Run the whole pipeline over one statement. Payloads that do not parse
/// to exactly one statement are rejected.
pub fn analyze(raw_sql: &str) -> (r: Result<QueryAnalysis>)
    ensures
        r is Ok <==> parse::parses_to_one(raw_sql@),
        match r {
            Ok(a) => analysis_of(a, raw_sql@),
            Err(Error::SqlParse(m)) => match parse::snowflake_parse(raw_sql@) {
                Ok(v) => m@ == parse::count_message(v.len()),
                Err(e) => m@ == e,
            },
            Err(_) => false,
        },
{
    let statement = parse::parse_single(raw_sql)?;
    let kind = parse::statement_kind(&statement);
    let (canonical, literals) = normalise::canonicalise(&statement);
    let features = features::extract(&statement);
    let hard = fingerprint::hard(canonical.as_str(), literals.as_slice());
    let soft = fingerprint::soft(&features);
    let hints = hints::parse(raw_sql);
    let raw = crate::text::from_chars(crate::text::to_chars(raw_sql).as_slice());
    Ok(
        QueryAnalysis {
            raw_sql: raw,
            statement,
            kind,
            canonical_sql: canonical,
            literals,
            hard_fingerprint: hard,
            soft_fingerprint: soft,
            features,
            hints,
        },
    )
}


/// Two analyses of one text agree on everything the proxy and the replay
/// read of them: the statement, its kind, canonical text, literals,
/// fingerprints, features and hints.
pub proof fn law_analysis_follows_the_text(a1: QueryAnalysis, a2: QueryAnalysis, raw_sql: Seq<char>)
    requires
        analysis_of(a1, raw_sql),
        analysis_of(a2, raw_sql),
    ensures
        a1.statement == a2.statement,
        a1.kind == a2.kind,
        a1.canonical_sql@ == a2.canonical_sql@,
        a1.literals@.map_values(|l: String| l@) == a2.literals@.map_values(|l: String| l@),
        a1.hard_fingerprint@ == a2.hard_fingerprint@,
        a1.soft_fingerprint@ == a2.soft_fingerprint@,
        a1.features.table_names() == a2.features.table_names(),
        a1.features.aggregate_names() == a2.features.aggregate_names(),
        a1.features.deterministic == a2.features.deterministic,
        a1.features.predicates_count == a2.features.predicates_count,
        a1.features.joins_count == a2.features.joins_count,
        a1.features.has_group_by == a2.features.has_group_by,
        a1.features.has_order_by == a2.features.has_order_by,
        a1.features.has_limit == a2.features.has_limit,
        a1.features.is_select_star == a2.features.is_select_star,
        a1.hints.pairs() == a2.hints.pairs(),
{
    assert(seq![a1.statement][0] == seq![a2.statement][0]);
    crate::text::lemma_sorted_by_set(a1.features.table_names(), a2.features.table_names());
    crate::text::lemma_sorted_by_set(a1.features.aggregate_names(), a2.features.aggregate_names());
    assert(fingerprint::soft_input(a1.features) == fingerprint::soft_input(a2.features));
}

/// The hard fingerprint is the identity of a result: two queries with the
/// same canonical text and the same literals share it, whatever their
/// spelling; with the same canonical text and different literals (each
/// under 2^64 bytes) the hashed inputs differ.
pub proof fn law_hard_fingerprint_identity(a1: QueryAnalysis, r1: Seq<char>, a2: QueryAnalysis, r2: Seq<char>)
    requires
        analysis_of(a1, r1),
        analysis_of(a2, r2),
        a1.canonical_sql@ == a2.canonical_sql@,
    ensures
        a1.literals@.map_values(|l: String| l@) == a2.literals@.map_values(|l: String| l@)
            ==> a1.hard_fingerprint@ == a2.hard_fingerprint@,
        (forall|i: int| 0 <= i < a1.literals@.len() ==> fingerprint::utf8(#[trigger] a1.literals@[i]@).len() < fingerprint::pow256(8))
            && (forall|i: int| 0 <= i < a2.literals@.len() ==> fingerprint::utf8(#[trigger] a2.literals@[i]@).len() < fingerprint::pow256(8))
            && a1.literals@.map_values(|l: String| l@) != a2.literals@.map_values(|l: String| l@)
            ==> fingerprint::hard_input(a1.canonical_sql@, a1.literals@.map_values(|l: String| l@))
            != fingerprint::hard_input(a2.canonical_sql@, a2.literals@.map_values(|l: String| l@)),
{
    let x = a1.literals@.map_values(|l: String| l@);
    let y = a2.literals@.map_values(|l: String| l@);
    if (forall|i: int| 0 <= i < a1.literals@.len() ==> fingerprint::utf8(#[trigger] a1.literals@[i]@).len() < fingerprint::pow256(8))
        && (forall|i: int| 0 <= i < a2.literals@.len() ==> fingerprint::utf8(#[trigger] a2.literals@[i]@).len() < fingerprint::pow256(8))
        && fingerprint::hard_input(a1.canonical_sql@, x) == fingerprint::hard_input(a2.canonical_sql@, y) {
        assert forall|i: int| 0 <= i < x.len() implies fingerprint::utf8(x[i]).len() < fingerprint::pow256(8) by {
            assert(x[i] == a1.literals@[i]@);
        }
        assert forall|i: int| 0 <= i < y.len() implies fingerprint::utf8(y[i]).len() < fingerprint::pow256(8) by {
            assert(y[i] == a2.literals@[i]@);
        }
        fingerprint::law_hard_input_determines_literals(a1.canonical_sql@, x, y);
    }
}

} // verus!
