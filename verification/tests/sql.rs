use chukei_core::sql::analyze;
use chukei_core::sql::features::extract;
use chukei_core::sql::fingerprint::{bucket, hard, hex, soft};
use chukei_core::sql::hints::parse;
use chukei_core::sql::normalise::canonicalise;
use chukei_core::sql::parse::{
    is_read_only, kind_from_tag, kind_reads_only, parse_single, runs_on_warehouse, StatementKind, StatementTag,
};

fn features(sql: &str) -> chukei_core::sql::QueryFeatures {
    extract(&parse_single(sql).unwrap())
}

#[test]
fn hex_renders() {
    assert_eq!(hex(&[0xab, 0x01]), "ab01");
}

#[test]
fn parses_hint_comment() {
    let h = parse("/*+ chukei:team=growth dag=daily_revenue */ SELECT 1");
    assert_eq!(h.get("team"), Some("growth"));
    assert_eq!(h.get("dag"), Some("daily_revenue"));
}

#[test]
fn ignores_plain_hints_and_no_hints() {
    assert!(parse("/*+ parallel(4) */ SELECT 1").is_empty());
    assert!(parse("SELECT 1").is_empty());
}

#[test]
fn multiple_comments_merge() {
    let h = parse("/*+ chukei:team=a */ SELECT 1 /*+ chukei:size=L */");
    assert_eq!(h.get("team"), Some("a"));
    assert_eq!(h.get("size"), Some("L"));
}

#[test]
fn later_hint_for_a_key_wins() {
    let h = parse("/*+ chukei:team=a */ SELECT 1 /*+ chukei:TEAM=b */");
    assert_eq!(h.get("team"), Some("b"));
}

#[test]
fn unterminated_hint_comment_is_ignored() {
    assert!(parse("/*+ chukei:team=a SELECT 1").is_empty());
    let h = parse("/*+ chukei:team=a dangling= =x */ SELECT 1");
    assert_eq!(h.get("team"), Some("a"));
    assert_eq!(h.get("dangling"), None);
}

#[test]
fn whitespace_and_case_variants_share_hard_fingerprint() {
    let a = analyze("SELECT id, name FROM customers WHERE region = 'EMEA'").unwrap();
    let b = analyze("select id,   name from CUSTOMERS where region='EMEA'").unwrap();
    assert_eq!(a.hard_fingerprint, b.hard_fingerprint);
    assert_eq!(a.soft_fingerprint, b.soft_fingerprint);
}

#[test]
fn different_literals_share_soft_but_not_hard_fingerprint() {
    let a = analyze("SELECT id, name FROM customers WHERE region = 'EMEA'").unwrap();
    let b = analyze("SELECT id, name FROM customers WHERE region = 'APAC'").unwrap();
    assert_ne!(a.hard_fingerprint, b.hard_fingerprint);
    assert_eq!(a.soft_fingerprint, b.soft_fingerprint);
    assert_eq!(a.canonical_sql, b.canonical_sql);
}

#[test]
fn different_queries_differ() {
    let a = analyze("SELECT id FROM customers").unwrap();
    let b = analyze("SELECT id FROM orders").unwrap();
    assert_ne!(a.hard_fingerprint, b.hard_fingerprint);
    assert_ne!(a.soft_fingerprint, b.soft_fingerprint);
}

#[test]
fn non_deterministic_query_flagged() {
    let a = analyze("SELECT id, CURRENT_TIMESTAMP() FROM events").unwrap();
    assert!(!a.features.deterministic);
    let b = analyze("SELECT id, name FROM events").unwrap();
    assert!(b.features.deterministic);
}

#[test]
fn analyze_rejects_what_does_not_parse_to_one_statement() {
    let e = analyze("SELECT 1; SELECT 2").unwrap_err();
    match e {
        chukei_core::error::Error::SqlParse(m) => {
            assert_eq!(m, "expected exactly 1 statement, got 2")
        }
        other => panic!("unexpected error {other:?}"),
    }
    assert!(matches!(
        analyze("SELEC nonsense"),
        Err(chukei_core::error::Error::SqlParse(_))
    ));
}

#[test]
fn analysis_keeps_raw_sql_and_hints() {
    let a = analyze("/*+ chukei:team=growth */ SELECT a FROM t").unwrap();
    assert_eq!(a.raw_sql, "/*+ chukei:team=growth */ SELECT a FROM t");
    assert_eq!(a.hints.get("team"), Some("growth"));
    assert_eq!(a.kind, StatementKind::Query);
}

#[test]
fn literals_are_parameterised_and_extracted() {
    let stmt = parse_single("SELECT a FROM t WHERE b = 'x' AND c = 42").unwrap();
    let (canon, literals) = canonicalise(&stmt);
    assert!(!canon.contains("'x'"), "canon: {canon}");
    assert!(!canon.contains("42"), "canon: {canon}");
    assert!(canon.contains('?'), "canon: {canon}");
    assert_eq!(literals, vec!["'x'".to_string(), "42".to_string()]);
}

#[test]
fn whitespace_and_case_insensitive() {
    let a = canonicalise(&parse_single("SELECT  a\nFROM   t").unwrap());
    let b = canonicalise(&parse_single("select a from T").unwrap());
    assert_eq!(a, b);
}

#[test]
fn literal_extraction_order_is_stable() {
    let sql = "SELECT a FROM t WHERE b = 'x' AND c IN (1, 2, 3)";
    let (_, a) = canonicalise(&parse_single(sql).unwrap());
    let (_, b) = canonicalise(&parse_single(sql).unwrap());
    assert_eq!(a, b);
    assert_eq!(a.len(), 4);
}

#[test]
fn parses_snowflake_flavoured_sql() {
    let sql = "SELECT id, ROW_NUMBER() OVER (PARTITION BY id ORDER BY ts) AS rn \
               FROM events QUALIFY rn = 1";
    assert!(parse_single(sql).is_ok());
}

#[test]
fn rejects_multi_statement() {
    assert!(parse_single("SELECT 1; SELECT 2").is_err());
}

#[test]
fn read_only_detection() {
    assert!(is_read_only(&parse_single("SELECT 1").unwrap()));
    assert!(!is_read_only(&parse_single("INSERT INTO t VALUES (1)").unwrap()));
}

#[test]
fn statement_kinds_and_warehouse_use() {
    let k = analyze("USE WAREHOUSE wh").unwrap().kind;
    assert!(matches!(k, StatementKind::UseWarehouse(_)));
    assert!(!runs_on_warehouse(&k));
    let k = analyze("SHOW WAREHOUSES").unwrap().kind;
    assert_eq!(k, StatementKind::Metadata);
    assert!(!runs_on_warehouse(&k));
    let k = analyze("INSERT INTO t VALUES (1)").unwrap().kind;
    assert_eq!(k, StatementKind::Other);
    assert!(runs_on_warehouse(&k));
    assert!(runs_on_warehouse(&StatementKind::Query));
}

#[test]
fn extracts_tables_and_joins() {
    let f = features(
        "SELECT c.id, SUM(o.amount) FROM customers c \
         JOIN orders o ON o.customer_id = c.id \
         WHERE o.ts > '2026-01-01' GROUP BY c.id ORDER BY 2 DESC LIMIT 10",
    );
    assert_eq!(f.tables, vec!["CUSTOMERS", "ORDERS"]);
    assert_eq!(f.joins_count, 1);
    assert_eq!(f.aggregates, vec!["SUM"]);
    assert!(f.has_group_by && f.has_order_by && f.has_limit);
    assert!(f.deterministic);
    assert!(f.predicates_count >= 1);
}

#[test]
fn select_star_detected() {
    assert!(features("SELECT * FROM t").is_select_star);
    assert!(!features("SELECT a FROM t").is_select_star);
}

#[test]
fn non_determinism_detected() {
    assert!(!features("SELECT UUID_STRING() FROM t").deterministic);
    assert!(!features("SELECT * FROM t WHERE ts < CURRENT_TIMESTAMP()").deterministic);
    assert!(features("SELECT a FROM t").deterministic);
}

#[test]
fn soft_fingerprint_clusters_similar_queries() {
    let a = soft(&extract(&parse_single("SELECT a, b FROM t WHERE x = 1").unwrap()));
    let b = soft(&extract(&parse_single("SELECT b, a FROM t WHERE x = 2 AND y = 3").unwrap()));
    assert_eq!(a, b, "same table/shape should cluster");
}

#[test]
fn hard_fingerprint_distinguishes_literals() {
    let canon = "select a from t where x = ?";
    let a = hard(canon, &["1".into()]);
    let b = hard(canon, &["2".into()]);
    assert_ne!(a, b, "different literals → different results → different keys");
    assert_eq!(a, hard(canon, &["1".into()]));
    assert_ne!(
        hard(canon, &["ab".into(), "c".into()]),
        hard(canon, &["a".into(), "bc".into()])
    );
}

#[test]
fn hard_fingerprint_is_blake3_of_the_framed_input() {
    // canonical text, then each literal as an 8-byte little-endian length
    // followed by its bytes
    let mut input = b"q".to_vec();
    input.extend_from_slice(&1u64.to_le_bytes());
    input.extend_from_slice(b"7");
    assert_eq!(hard("q", &["7".into()]), *blake3::hash(&input).as_bytes());
}

#[test]
fn predicate_buckets() {
    assert_eq!(bucket(0), 0);
    assert_eq!(bucket(1), 1);
    assert_eq!(bucket(2), 1);
    assert_eq!(bucket(3), 2);
    assert_eq!(bucket(5), 2);
    assert_eq!(bucket(6), 3);
    assert_eq!(bucket(1000), 3);
}

#[test]
fn statement_tags_map_to_kinds() {
    assert_eq!(kind_from_tag(StatementTag::Query), StatementKind::Query);
    assert_eq!(
        kind_from_tag(StatementTag::UseWarehouse("W".into())),
        StatementKind::UseWarehouse("W".into())
    );
    for tag in [
        StatementTag::Use,
        StatementTag::ShowTables,
        StatementTag::ShowCreate,
        StatementTag::Explain,
        StatementTag::ExplainTable,
        StatementTag::SetVariable,
        StatementTag::StartTransaction,
        StatementTag::Commit,
        StatementTag::Rollback,
    ] {
        assert_eq!(kind_from_tag(tag), StatementKind::Metadata);
    }
    assert_eq!(kind_from_tag(StatementTag::Other), StatementKind::Other);
    assert_eq!(analyze("DESCRIBE TABLE t").unwrap().kind, StatementKind::Metadata);
    assert_eq!(analyze("SELECT 1 UNION SELECT 2").unwrap().kind, StatementKind::Query);
    assert!(kind_reads_only(&StatementKind::Query));
    assert!(!kind_reads_only(&StatementKind::Metadata));
    assert!(!kind_reads_only(&StatementKind::UseWarehouse("W".into())));
    assert!(!kind_reads_only(&StatementKind::Other));
}
