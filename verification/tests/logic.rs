use base64::engine::general_purpose::URL_SAFE_NO_PAD;
use base64::Engine;
use chukei_core::cache::disk::{DiskStore, IndexEntry};
use chukei_core::cache::CacheEntry;
use chukei_core::config::{ExperimentalRewrite, RewriteConfig};
use chukei_core::doctor::{all_passed, check};
use chukei_core::error::Error;
use chukei_core::evidence::{
    check_signature, new_bundle_id, seed_from_bytes, sha256_hex, short_hash, sign,
};
use chukei_core::overrides::{override_steps, KeySchema, NodeKind, ScalarHint, Step};
use chukei_core::plugin::{Decision, WarehouseSize};
use chukei_core::pricing::WarehouseSizes;
use chukei_core::projection::{project_history, tally, ParsedFacts, RowFacts};
use chukei_core::replay::{
    count_distinct, has_dbt_meta, parse_time, parse_u64, project_cache_hits, read_csv,
    replay_order, router_candidate, table_key,
};
use chukei_core::rewrite::{
    approximate_tolerance, approximates_count, decision_for, distinct_is_redundant, fold_or_chain, join_names,
    like_prefix, null_or_empty_column, null_or_empty_matches, ChainExpr, ColumnRef, NullSide,
    RewritePlugin, Rule,
};
use chukei_core::savings::parse_window;
use chukei_core::sql::{analyze, hints};
use serde_json::Value;

const SEED: [u8; 32] = [42u8; 32];

fn bundle_json() -> String {
    let mut corpus = serde_json::Map::new();
    corpus.insert("file".into(), Value::from("test.csv"));
    corpus.insert("rows".into(), Value::from(1));
    let mut bundle = serde_json::Map::new();
    bundle.insert(
        "bundle_id".into(),
        Value::from(new_bundle_id("chukei-replay", "test", "2026-06-01T09:00:00Z")),
    );
    bundle.insert("kind".into(), Value::from("replay-projection"));
    bundle.insert("ephemeral_key".into(), Value::from(true));
    bundle.insert("corpus".into(), Value::Object(corpus));
    serde_json::to_string_pretty(&Value::Object(bundle)).unwrap()
}

// ── evidence ────────────────────────────────────────────────────────────

#[test]
fn sign_verify_roundtrip() {
    let signed = sign(bundle_json(), &SEED);
    assert!(check_signature(&signed).is_ok());
    let recovered: Value = serde_json::from_str(&signed.bundle_json).unwrap();
    assert_eq!(recovered["kind"], "replay-projection");
}

#[test]
fn tampered_bundle_fails_verification() {
    let mut signed = sign(bundle_json(), &SEED);
    signed.bundle_json = signed.bundle_json.replace("replay-projection", "x");
    assert!(check_signature(&signed).is_err());
    // Even pure whitespace tampering fails — verbatim bytes are signed.
    let mut signed2 = sign(bundle_json(), &SEED);
    signed2.bundle_json.push(' ');
    assert!(check_signature(&signed2).is_err());
}

#[test]
fn key_file_roundtrip() {
    let seed = [9u8; 32];
    let key_file_bytes: Vec<u8> = seed.to_vec();
    let loaded = seed_from_bytes(&key_file_bytes, "signing.key").unwrap();
    assert_eq!(loaded, seed);
    let pub_b64 = URL_SAFE_NO_PAD.encode(
        ed25519_dalek::SigningKey::from_bytes(&seed).verifying_key().as_bytes(),
    );
    let signed = sign(bundle_json(), &loaded);
    assert_eq!(signed.public_key_b64, pub_b64);
    check_signature(&signed).unwrap();
}

#[test]
fn wrong_size_key_rejected() {
    let key_file_bytes = [0u8; 31];
    assert!(seed_from_bytes(&key_file_bytes, "bad.key").is_err());
}

#[test]
fn wrong_size_key_message_names_path_and_length() {
    match seed_from_bytes(&[1u8; 5], "/keys/k") {
        Err(Error::Evidence(m)) => {
            assert_eq!(m, "signing key at /keys/k must be exactly 32 bytes (got 5)")
        }
        _ => panic!("a 5-byte key must be refused"),
    }
}

#[test]
fn signature_checks_name_the_broken_part() {
    let signed = sign(bundle_json(), &SEED);
    let mut bad_key = signed.clone();
    bad_key.public_key_b64 = "AAAA".into();
    match check_signature(&bad_key) {
        Err(Error::Evidence(m)) => assert_eq!(m, "public key must be 32 bytes"),
        _ => panic!("short key must be refused"),
    }
    let mut bad_sig = signed.clone();
    bad_sig.signature_b64 = "AAAA".into();
    match check_signature(&bad_sig) {
        Err(Error::Evidence(m)) => assert_eq!(m, "signature must be 64 bytes"),
        _ => panic!("short signature must be refused"),
    }
    let mut not_b64 = signed.clone();
    not_b64.signature_b64 = "!!".into();
    match check_signature(&not_b64) {
        Err(Error::Evidence(m)) => assert!(m.starts_with("invalid signature base64: ")),
        _ => panic!("bad base64 must be refused"),
    }
    let mut tampered = signed;
    tampered.bundle_json.push('\n');
    match check_signature(&tampered) {
        Err(Error::Evidence(m)) => assert_eq!(m, "signature verification failed"),
        _ => panic!("tampering must be detected"),
    }
}

#[test]
fn signing_is_deterministic_per_seed_and_text() {
    let a = sign(bundle_json(), &SEED);
    let b = sign(bundle_json(), &SEED);
    assert_eq!(a.signature_b64, b.signature_b64);
    let c = sign(bundle_json(), &[7u8; 32]);
    assert_ne!(a.public_key_b64, c.public_key_b64);
    assert_eq!(a.signature_b64.len(), 86);
    assert_eq!(a.public_key_b64.len(), 43);
}

#[test]
fn digests_and_ids() {
    assert_eq!(
        sha256_hex(b"abc"),
        "ba7816bf8f01cfea414140de5dae2223b00361a396177a9cb410ff61f20015ad"
    );
    let signed = sign(bundle_json(), &SEED);
    let h = short_hash(&signed);
    assert_eq!(h.len(), 12);
    let mut input = signed.bundle_json.clone().into_bytes();
    input.extend_from_slice(signed.signature_b64.as_bytes());
    assert_eq!(h, sha256_hex(&input)[..12]);
    assert_eq!(new_bundle_id("k", "s", "t"), "k--s--t");
}

// ── savings window and doctor ───────────────────────────────────────────

#[test]
fn windows_parse_to_milliseconds() {
    assert_eq!(parse_window("7d").unwrap(), 604_800_000);
    assert_eq!(parse_window(" 90m ").unwrap(), 5_400_000);
    assert_eq!(parse_window("24h").unwrap(), 86_400_000);
    assert_eq!(parse_window("+5m").unwrap(), 300_000);
    assert_eq!(parse_window("0d").unwrap(), 0);
}

#[test]
fn bad_windows_are_refused_with_their_text() {
    assert_eq!(
        parse_window("7x").unwrap_err(),
        "invalid window '7x' (use e.g. 90m, 24h, 7d)"
    );
    assert_eq!(parse_window("abc").unwrap_err(), "invalid window 'abc'");
    assert_eq!(parse_window("  ").unwrap_err(), "invalid window ''");
    assert_eq!(parse_window("d").unwrap_err(), "invalid window 'd'");
    assert_eq!(parse_window("-1d").unwrap_err(), "invalid window '-1d'");
}

#[test]
fn doctor_verdicts() {
    let ok = check("config", Ok("chukei.yaml valid".to_string()));
    assert!(ok.ok);
    assert_eq!(ok.name, "config");
    assert_eq!(ok.detail, "chukei.yaml valid");
    let bad = check("tls", Err("cannot load cert/key".to_string()));
    assert!(!bad.ok);
    assert_eq!(bad.detail, "cannot load cert/key");
    assert!(all_passed(&vec![check("listen", Ok("bindable".to_string()))]));
    assert!(!all_passed(&vec![ok, bad]));
    assert!(all_passed(&vec![]));
}

// ── replay ──────────────────────────────────────────────────────────────

fn csv_fixture() -> String {
    let mut out = String::from(
        "QUERY_ID,QUERY_TEXT,USER_NAME,WAREHOUSE_NAME,WAREHOUSE_SIZE,START_TIME,TOTAL_ELAPSED_TIME,BYTES_SCANNED,ROWS_PRODUCED,QUERY_TAG\n",
    );
    for i in 0..10 {
        out.push_str(&format!(
            "q{i},\"SELECT region, SUM(amount) FROM analytics.marts.revenue GROUP BY region\",SARA,DASH_WH,L,2026-06-01 09:{i:02}:00,4000,1048576,12,\n"
        ));
    }
    out.push_str(
        "qbig,\"SELECT * FROM analytics.raw.events WHERE ts > '2026-01-01'\",ETL,ETL_WH,XL,2026-06-01 12:00:00,90000,99999999999,5000000,etl\n",
    );
    out.push_str(
        "qbad,\"THIS IS NOT SQL AT ALL ;;;\",X,ETL_WH,XS,2026-06-01 13:00:00,1,1,1,\n",
    );
    out
}

#[test]
fn csv_reader_maps_columns() {
    let rows = read_csv(csv_fixture().as_bytes()).unwrap();
    assert_eq!(rows.len(), 12);
    assert_eq!(rows[0].warehouse_size.as_deref(), Some("L"));
    assert_eq!(rows[0].total_elapsed_ms, Some(4000));
    assert!(rows[0].start_time_ms.is_some());
    assert_eq!(rows[10].query_tag.as_deref(), Some("etl"));
}

#[test]
fn csv_rows_carry_every_named_column() {
    let rows = read_csv(csv_fixture().as_bytes()).unwrap();
    assert_eq!(rows[0].query_id.as_deref(), Some("q0"));
    assert_eq!(rows[0].user_name.as_deref(), Some("SARA"));
    assert_eq!(rows[0].warehouse_name.as_deref(), Some("DASH_WH"));
    assert_eq!(rows[0].start_time_ms, Some(1_780_304_400_000));
    assert_eq!(rows[1].start_time_ms, Some(1_780_304_460_000));
    assert_eq!(rows[0].bytes_scanned, Some(1_048_576));
    assert_eq!(rows[0].rows_produced, Some(12));
    assert_eq!(rows[0].query_tag, None);
    assert_eq!(rows[11].query_text, "THIS IS NOT SQL AT ALL ;;;");
}

#[test]
fn csv_without_query_text_is_refused() {
    match read_csv(b"QUERY_ID,USER_NAME\nq1,A\n") {
        Err(Error::Replay(m)) => assert_eq!(m, "CSV is missing required column QUERY_TEXT"),
        _ => panic!("missing QUERY_TEXT must be refused"),
    }
}

#[test]
fn csv_rows_without_text_are_skipped_and_headers_fold_case() {
    let rows = read_csv(b" Query_Text ,Total_Elapsed_Time\n  ,5\nSELECT 1,abc\n").unwrap();
    assert_eq!(rows.len(), 1);
    assert_eq!(rows[0].query_text, "SELECT 1");
    assert_eq!(rows[0].total_elapsed_ms, None);
}

#[test]
fn numbers_and_times() {
    assert_eq!(parse_u64("42"), Some(42));
    assert_eq!(parse_u64("+7"), Some(7));
    assert_eq!(parse_u64(""), None);
    assert_eq!(parse_u64("18446744073709551616"), None);
    assert_eq!(parse_u64("1.5"), None);
    assert_eq!(parse_time("2026-06-01T09:00:00Z"), Some(1_780_304_400_000));
    assert_eq!(parse_time("2026-06-01 09:00:00"), Some(1_780_304_400_000));
    assert_eq!(parse_time("2026-06-01 10:00:00.000 +0100"), Some(1_780_304_400_000));
    assert_eq!(parse_time("yesterday"), None);
}

#[test]
fn replay_order_is_a_stable_sort_with_untimed_rows_first() {
    let order = replay_order(&vec![Some(10), None, Some(5), Some(10), None]);
    assert_eq!(order, vec![1, 4, 2, 0, 3]);
    assert_eq!(replay_order(&vec![]), Vec::<usize>::new());
}

fn fingerprint(sql: &str) -> [u8; 32] {
    analyze(sql).unwrap().hard_fingerprint
}

#[test]
fn repeated_dashboard_reads_hit_within_ttl() {
    let rows = read_csv(csv_fixture().as_bytes()).unwrap();
    let times: Vec<Option<i64>> = rows.iter().map(|r| r.start_time_ms).collect();
    let order = replay_order(&times);
    let events: Vec<(bool, [u8; 32], Option<i64>)> = order
        .iter()
        .filter_map(|&i| analyze(&rows[i].query_text).ok().map(|a| (true, a.hard_fingerprint, rows[i].start_time_ms)))
        .collect();
    let hits = project_cache_hits(&events, 900_000);
    assert_eq!(hits.iter().filter(|h| **h).count(), 9);
}

#[test]
fn reversed_rows_project_no_spurious_hits() {
    let csv = "QUERY_TEXT,WAREHOUSE_NAME,WAREHOUSE_SIZE,START_TIME,TOTAL_ELAPSED_TIME\n\
               SELECT a FROM t,WH,XS,2026-06-01 10:00:00,1000\n\
               SELECT a FROM t,WH,XS,2026-06-01 09:00:00,1000\n";
    let rows = read_csv(csv.as_bytes()).unwrap();
    let times: Vec<Option<i64>> = rows.iter().map(|r| r.start_time_ms).collect();
    let order = replay_order(&times);
    assert_eq!(order, vec![1, 0]);
    let fp = fingerprint("SELECT a FROM t");
    let events: Vec<(bool, [u8; 32], Option<i64>)> =
        order.iter().map(|&i| (true, fp, rows[i].start_time_ms)).collect();
    assert_eq!(project_cache_hits(&events, 900_000), vec![false, false]);
}

#[test]
fn cache_projection_edges() {
    let fp = [1u8; 32];
    let other = [2u8; 32];
    let events = vec![
        (true, fp, Some(0)),
        (true, fp, Some(900_000)),
        (true, fp, Some(1_800_001)),
        (false, fp, Some(1_800_002)),
        (true, other, None),
        (true, other, Some(5)),
        (true, fp, Some(1_800_003)),
    ];
    assert_eq!(
        project_cache_hits(&events, 900_000),
        vec![false, true, false, false, false, false, true]
    );
    assert_eq!(count_distinct(&vec![fp, other, fp]), 2);
    assert_eq!(count_distinct(&vec![]), 0);
}

#[test]
fn router_candidates_and_table_keys() {
    let tables = vec!["A.B.C".to_string(), "A.B.D".to_string()];
    assert_eq!(table_key(&tables), "A.B.C,A.B.D");
    assert_eq!(table_key(&vec![]), "");
    assert!(router_candidate(true, true, 2, 5, 5, Some(10), 100));
    assert!(!router_candidate(true, true, 2, 4, 5, Some(10), 100));
    assert!(!router_candidate(true, true, 2, 5, 5, None, 100));
    assert!(!router_candidate(true, true, 0, 5, 5, Some(10), 100));
    assert!(!router_candidate(false, true, 2, 5, 5, Some(10), 100));
    assert!(!router_candidate(true, false, 2, 5, 5, Some(10), 100));
    assert!(!router_candidate(true, true, 2, 5, 5, Some(100), 100));
}

#[test]
fn dbt_meta_is_recognised() {
    assert!(has_dbt_meta("/* {\"app\": \"dbt\", \"node_id\": \"m\"} */ SELECT 1"));
    assert!(has_dbt_meta("/* {\"app\":\"dbt\"} */ SELECT 1"));
    assert!(!has_dbt_meta("SELECT 'dbt'"));
}

// ── rewrite decisions ───────────────────────────────────────────────────

#[test]
fn like_prefix_patterns() {
    assert_eq!(like_prefix("foo%").as_deref(), Some("foo"));
    assert_eq!(like_prefix("f%o%"), None);
    assert_eq!(like_prefix("%foo"), None);
    assert_eq!(like_prefix("%"), None);
    assert_eq!(like_prefix("a_%"), None);
    assert_eq!(like_prefix("foo"), None);
}

#[test]
fn distinct_redundancy_needs_every_item_grouped() {
    let ab = vec![Some("a".to_string()), Some("b".to_string())];
    let group_ab = vec!["a".to_string(), "b".to_string()];
    let group_a = vec!["a".to_string()];
    assert!(distinct_is_redundant(&ab, &group_ab, false));
    assert!(!distinct_is_redundant(&ab, &group_a, false));
    assert!(!distinct_is_redundant(&ab, &group_ab, true));
    assert!(!distinct_is_redundant(&ab, &vec![], false));
    assert!(!distinct_is_redundant(&vec![None], &group_ab, false));
}

fn col(text: &str, id: usize) -> Option<ColumnRef> {
    Some(ColumnRef { text: text.to_string(), id })
}

fn eq(text: &str, id: usize, value: usize) -> ChainExpr {
    ChainExpr::Eq { column: col(text, id), value: Some(value) }
}

fn or(a: ChainExpr, b: ChainExpr) -> ChainExpr {
    ChainExpr::Or(Box::new(a), Box::new(b))
}

#[test]
fn or_chains_fold_into_in_lists() {
    // status = 'a' OR status = 'b' OR status = 'c'
    let chain = or(or(eq("status", 0, 0), eq("status", 1, 1)), eq("status", 2, 2));
    assert_eq!(fold_or_chain(&chain), Some((0, vec![0, 1, 2])));
    // an inner pair already folded: (status IN ('a', 'b')) OR status = 'c'
    let folded = or(
        ChainExpr::Nested(Box::new(ChainExpr::InList {
            column: col("status", 0),
            values: vec![Some(0), Some(1)],
        })),
        eq("status", 1, 2),
    );
    assert_eq!(fold_or_chain(&folded), Some((0, vec![0, 1, 2])));
    // two columns never fold
    assert_eq!(fold_or_chain(&or(eq("a", 0, 0), eq("b", 1, 1))), None);
    // a non-literal leaf stops the fold
    let computed = or(eq("a", 0, 0), ChainExpr::Eq { column: col("a", 1), value: None });
    assert_eq!(fold_or_chain(&computed), None);
    let in_with_column = or(
        eq("a", 0, 0),
        ChainExpr::InList { column: col("a", 1), values: vec![Some(1), None] },
    );
    assert_eq!(fold_or_chain(&in_with_column), None);
    // not an OR at the top
    assert_eq!(fold_or_chain(&eq("a", 0, 0)), None);
    assert_eq!(
        fold_or_chain(&ChainExpr::InList { column: col("a", 0), values: vec![Some(0), Some(1)] }),
        None
    );
    // anything else inside the chain
    assert_eq!(fold_or_chain(&or(eq("a", 0, 0), ChainExpr::Other)), None);
}

#[test]
fn or_chains_and_null_checks() {
    assert!(null_or_empty_matches(true, "email", "email"));
    assert!(!null_or_empty_matches(true, "a", "b"));
    assert!(!null_or_empty_matches(false, "email", "email"));
    let is_null = |id| NullSide::IsNull(ColumnRef { text: "email".to_string(), id });
    let empty = NullSide::Eq { left: "email".to_string(), empty_literal: true };
    assert_eq!(null_or_empty_column(&is_null(0), &empty), Some(0));
    assert_eq!(null_or_empty_column(&empty, &is_null(0)), Some(0));
    // the left IS NULL is taken first
    assert_eq!(null_or_empty_column(&is_null(0), &is_null(1)), None);
    let other_column = NullSide::Eq { left: "name".to_string(), empty_literal: true };
    assert_eq!(null_or_empty_column(&is_null(0), &other_column), None);
    let non_empty = NullSide::Eq { left: "email".to_string(), empty_literal: false };
    assert_eq!(null_or_empty_column(&is_null(0), &non_empty), None);
    assert_eq!(null_or_empty_column(&NullSide::Other, &empty), None);
}

#[test]
fn only_single_argument_count_distinct_is_approximated() {
    assert!(approximates_count(Some("COUNT"), true, 1));
    assert!(approximates_count(Some("count"), true, 1));
    assert!(approximates_count(Some("CoUnT"), true, 1));
    assert!(!approximates_count(Some("COUNT"), false, 1));
    assert!(!approximates_count(Some("COUNT"), true, 2));
    assert!(!approximates_count(Some("SUM"), true, 1));
    assert!(!approximates_count(Some("COUNTS"), true, 1));
    assert!(!approximates_count(None, true, 1));
}

#[test]
fn approximation_needs_the_hint() {
    assert!(approximate_tolerance(&hints::parse("/*+ chukei:tolerance=approximate */ SELECT 1")));
    assert!(!approximate_tolerance(&hints::parse("SELECT COUNT(DISTINCT user_id) FROM events")));
    assert!(!approximate_tolerance(&hints::parse("/*+ chukei:tolerance=exact */ SELECT 1")));
}

#[test]
fn rule_selection_follows_config() {
    let all = RewritePlugin::new(RewriteConfig {
        enabled: true,
        rules: vec!["all".into()],
        experimental: ExperimentalRewrite { llm_rewrite: false },
    });
    assert_eq!(all.rules().len(), 5);
    let one = RewritePlugin::new(RewriteConfig {
        enabled: true,
        rules: vec!["like_prefix_to_startswith".into(), "unknown".into()],
        experimental: ExperimentalRewrite { llm_rewrite: false },
    });
    assert_eq!(one.rules(), &vec![Rule::LikePrefixToStartswith]);
    assert_eq!(Rule::NullOrEmptyToIfnull.name(), "null_or_empty_to_ifnull");
    let none = RewritePlugin::new(RewriteConfig::default());
    assert_eq!(none.rules().len(), 5);
}

#[test]
fn rewrite_decisions() {
    assert!(matches!(decision_for(false, Some(("x".into(), vec!["r"]))), Decision::Passthrough));
    assert!(matches!(decision_for(true, None), Decision::Passthrough));
    match decision_for(true, Some(("SELECT 2".into(), vec!["a", "b"]))) {
        Decision::Compose(ds) => {
            assert_eq!(ds.len(), 2);
            assert!(matches!(&ds[0], Decision::Rewrite(s) if s == "SELECT 2"));
            match &ds[1] {
                Decision::Annotate(tags) => {
                    assert_eq!(tags.get("chukei.rewrite_rules"), Some("a,b"))
                }
                _ => panic!("second decision annotates"),
            }
        }
        _ => panic!("a rewrite composes"),
    }
    assert_eq!(join_names(&vec!["x", "y", "z"]), "x,y,z");
}

// ── persistent cache index ──────────────────────────────────────────────

fn index_entry(table: &str, inserted: u64) -> IndexEntry {
    IndexEntry { tables: vec![table.to_uppercase()], inserted_unix_ms: inserted }
}

#[test]
fn invalidate_table_removes_files() {
    let mut store = DiskStore::new("/var/cache/chukei".to_string(), 100);
    store.record([1u8; 32], index_entry("A", 1));
    store.record([2u8; 32], index_entry("B", 2));
    let doomed = store.invalidate_table("a");
    assert_eq!(doomed, vec![[1u8; 32]]);
    assert_eq!(store.len(), 1);
    assert!(store.contains(&[2u8; 32]));
}

#[test]
fn expired_entries_are_dropped_on_read() {
    let mut store = DiskStore::new("/tmp/c".to_string(), 100);
    let key = [1u8; 32];
    store.record(key, index_entry("T1", 0));
    let entry = CacheEntry {
        data: Value::Array(vec![Value::from(1)]),
        tables: vec!["T1".to_string()],
        inserted_unix_ms: 0,
        ttl_secs: 1,
        canonical_wall_clock_ms: 1000,
    };
    assert!(entry.expired(10_000));
    store.forget(&key);
    assert_eq!(store.len(), 0, "expired entry must be tombstoned");
}

#[test]
fn disk_paths_and_capacity() {
    let mut store = DiskStore::new("/tmp/c/".to_string(), 0);
    let key = [0xabu8; 32];
    assert_eq!(store.path_for(&key), format!("/tmp/c/{}.json", "ab".repeat(32)));
    assert_eq!(store.tmp_path_for(&key), format!("/tmp/c/{}.tmp", "ab".repeat(32)));
    assert!(store.is_empty());
    store.record([1u8; 32], index_entry("T", 1));
    let evicted = store.record([2u8; 32], index_entry("T", 2));
    assert_eq!(evicted, vec![[1u8; 32]]);
    assert_eq!(store.len(), 1);
    assert!(store.contains(&[2u8; 32]));
}

// ── projection ──────────────────────────────────────────────────────────

const HUNDRED_MIB: u64 = 100 * 1024 * 1024;

#[test]
fn simulation_projects_cache_hits_and_counts_failures() {
    let rows = read_csv(csv_fixture().as_bytes()).unwrap();
    let (order, facts, t) = project_history(&rows, 900_000, 5, HUNDRED_MIB);
    assert_eq!(order.len(), 12);
    assert_eq!(facts.len(), 12);
    assert_eq!(t.parsed, 11);
    assert_eq!(t.parse_failures, 1);
    // parse coverage above 90 %
    assert!(t.parsed * 100 > 90 * order.len());
    // 10 identical dashboard queries inside a 15-min TTL → 9 hits.
    assert_eq!(t.projected_hits, 9);
    assert_eq!(t.eligible, 11);
    // The repeated small query family is routable; the big one is not.
    assert_eq!(t.routable_queries, 10);
    assert_eq!(t.distinct_hard, 2);
    assert_eq!(t.distinct_soft, 2);
    assert_eq!(t.with_query_tag, 1);
    assert_eq!(t.with_hints, 0);
    assert_eq!(t.with_dbt_meta, 0);
    assert_eq!(t.hits.iter().filter(|h| **h).count(), 9);
    assert_eq!(t.routable.iter().filter(|r| **r).count(), 10);
}

#[test]
fn out_of_order_rows_cannot_create_spurious_cache_hits() {
    let csv = "QUERY_TEXT,WAREHOUSE_NAME,WAREHOUSE_SIZE,START_TIME,TOTAL_ELAPSED_TIME\n\
               SELECT a FROM t,WH,XS,2026-06-01 10:00:00,1000\n\
               SELECT a FROM t,WH,XS,2026-06-01 09:00:00,1000\n";
    let rows = read_csv(csv.as_bytes()).unwrap();
    let (order, _, t) = project_history(&rows, 900_000, 5, HUNDRED_MIB);
    assert_eq!(order, vec![1, 0]);
    assert_eq!(t.projected_hits, 0);
}

#[test]
fn shuffled_input_equals_sorted_input() {
    let rows = read_csv(csv_fixture().as_bytes()).unwrap();
    let mut reversed = rows.clone();
    reversed.reverse();
    let (_, _, a) = project_history(&rows, 900_000, 5, HUNDRED_MIB);
    let (_, _, b) = project_history(&reversed, 900_000, 5, HUNDRED_MIB);
    assert_eq!(a.projected_hits, b.projected_hits);
    assert_eq!(a.routable_queries, b.routable_queries);
    assert_eq!(a.parsed, b.parsed);
    assert_eq!(a.parse_failures, b.parse_failures);
    assert_eq!(a.eligible, b.eligible);
    assert_eq!(a.distinct_hard, b.distinct_hard);
    assert_eq!(a.distinct_soft, b.distinct_soft);
    assert_eq!(a.with_query_tag, b.with_query_tag);
}

#[test]
fn tally_of_hand_made_facts() {
    let parsed = |hard: u8, key: &str, tag: bool| RowFacts {
        parsed: Some(ParsedFacts {
            read_only: true,
            deterministic: true,
            n_tables: 1,
            hard: [hard; 32],
            soft: [hard; 16],
            table_key: key.to_string(),
            has_hints: false,
        }),
        bytes_scanned: Some(10),
        start_ms: Some(1_000),
        has_query_tag: tag,
        dbt_meta: false,
    };
    let failed = RowFacts {
        parsed: None,
        bytes_scanned: None,
        start_ms: None,
        has_query_tag: true,
        dbt_meta: true,
    };
    let facts = vec![parsed(1, "A", true), failed, parsed(1, "A", false), parsed(2, "B", false)];
    let t = tally(&facts, 60_000, 2, 100);
    assert_eq!(t.parsed, 3);
    assert_eq!(t.parse_failures, 1);
    assert_eq!(t.hits, vec![false, false, true, false]);
    assert_eq!(t.routable, vec![true, false, true, false]);
    assert_eq!(t.with_query_tag, 1);
    assert_eq!(t.with_dbt_meta, 0);
    assert_eq!(t.distinct_hard, 2);
}

// ── environment overrides ───────────────────────────────────────────────

fn schema() -> KeySchema {
    let p = |keys: &[&str]| keys.iter().map(|k| k.to_string()).collect::<Vec<String>>();
    KeySchema {
        nodes: vec![
            (p(&[]), NodeKind::Section),
            (p(&["listen"]), NodeKind::Section),
            (p(&["listen", "bind"]), NodeKind::Leaf(ScalarHint::Infer)),
            (p(&["savings"]), NodeKind::Section),
            (p(&["savings", "usd_per_credit"]), NodeKind::Leaf(ScalarHint::Number)),
            (p(&["savings", "enabled"]), NodeKind::Leaf(ScalarHint::Bool)),
        ],
    }
}

fn path(keys: &[&str]) -> Vec<String> {
    keys.iter().map(|k| k.to_string()).collect()
}

#[test]
fn overrides_match_multi_word_fields_greedily() {
    let (found, steps) = override_steps(&schema(), "CHUKEI_SAVINGS_USD_PER_CREDIT").unwrap();
    assert!(found);
    assert_eq!(
        steps,
        vec![
            Step::Coerce(path(&[])),
            Step::Entry(path(&["savings"])),
            Step::Coerce(path(&["savings"])),
            Step::Store(path(&["savings", "usd_per_credit"]), ScalarHint::Number),
        ]
    );
    let (found, steps) = override_steps(&schema(), "CHUKEI_LISTEN_BIND").unwrap();
    assert!(found);
    assert_eq!(steps.last(), Some(&Step::Store(path(&["listen", "bind"]), ScalarHint::Infer)));
}

#[test]
fn overrides_that_match_nothing_are_reported() {
    let (found, steps) = override_steps(&schema(), "CHUKEI_NOPE_X").unwrap();
    assert!(!found);
    assert_eq!(steps, vec![Step::Coerce(path(&[]))]);
    let (found, steps) = override_steps(&schema(), "CHUKEI_SAVINGS_NOPE").unwrap();
    assert!(!found);
    assert_eq!(
        steps,
        vec![
            Step::Coerce(path(&[])),
            Step::Entry(path(&["savings"])),
            Step::Coerce(path(&["savings"])),
        ]
    );
    assert!(override_steps(&schema(), "HOME").is_none());
    assert!(override_steps(&schema(), "CHUKEI").is_none());
}

// ── pricing sizes ───────────────────────────────────────────────────────

#[test]
fn warehouse_sizes_for_pricing() {
    let pairs = vec![
        ("dash_wh".to_string(), "L".to_string()),
        ("etl".to_string(), "bogus".to_string()),
        ("DASH_WH".to_string(), "xs".to_string()),
    ];
    let sizes = WarehouseSizes::from_config("m", &pairs);
    assert_eq!(sizes.size_for(Some("Dash_Wh")), WarehouseSize::Xs);
    assert_eq!(sizes.size_for(Some("etl")), WarehouseSize::M);
    assert_eq!(sizes.size_for(None), WarehouseSize::M);
    let fallback = WarehouseSizes::from_config("huge", &vec![]);
    assert_eq!(fallback.size_for(Some("any")), WarehouseSize::M);
    assert_eq!(WarehouseSize::Xs.credits_per_hour(), 1);
    assert_eq!(WarehouseSize::L.credits_per_hour(), 8);
    assert_eq!(WarehouseSize::X4l.credits_per_hour(), 128);
}
