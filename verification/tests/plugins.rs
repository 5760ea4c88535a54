use chukei_core::attribute::{parse_dbt_meta, AttributePlugin};
use chukei_core::cache::disk::{parse_key, DiskStore, IndexEntry};
use chukei_core::cache::{glob_match, CacheEntry, CachePlugin, MemoryStore};
use chukei_core::config::{AttributeConfig, CacheConfig, DuckDbConfig, ReplicaConfig, RouterConfig};
use chukei_core::error::Error;
use chukei_core::plugin::bus::{execution_order, Resolution};
use chukei_core::plugin::registry::{catalog, enabled_plugins};
use chukei_core::plugin::{Decision, Engine, QueryContext, QueryTags, ResultSnapshot, Session, VetoReason};
use chukei_core::router::RouterPlugin;
use chukei_core::sql::analyze;

// ---------------------------------------------------------------- router

fn router(replicas: &[&str]) -> RouterPlugin {
    let mut cfg = RouterConfig::default();
    cfg.enabled = true;
    cfg.duckdb = DuckDbConfig {
        enabled: true,
        replicas: replicas
            .iter()
            .map(|s| ReplicaConfig {
                source: s.to_string(),
                iceberg_path: format!("s3://x/{s}"),
                refresh: "continuous".into(),
            })
            .collect(),
    };
    RouterPlugin::new(cfg)
}

fn route(router: &RouterPlugin, sql: &str, scan_rows: Option<u64>) -> Engine {
    let mut analysis = analyze(sql).unwrap();
    analysis.features.scan_estimate_rows = scan_rows;
    let session = Session::default();
    let ctx = QueryContext { analysis: &analysis, session: &session };
    router.route_for(&ctx)
}

#[test]
fn small_replicated_read_goes_to_duckdb() {
    let r = router(&["DIM.PUBLIC.COUNTRIES"]);
    assert_eq!(route(&r, "SELECT * FROM dim.public.countries", Some(5_000)), Engine::DuckDb);
}

#[test]
fn unknown_scan_estimate_stays_on_snowflake() {
    let r = router(&["DIM.PUBLIC.COUNTRIES"]);
    assert_eq!(route(&r, "SELECT * FROM dim.public.countries", None), Engine::Snowflake);
}

#[test]
fn unreplicated_table_stays_on_snowflake() {
    let r = router(&["DIM.PUBLIC.COUNTRIES"]);
    assert_eq!(route(&r, "SELECT * FROM analytics.raw.events", Some(10)), Engine::Snowflake);
}

#[test]
fn join_with_one_unreplicated_table_stays() {
    let r = router(&["DIM.PUBLIC.COUNTRIES"]);
    let sql = "SELECT * FROM dim.public.countries c JOIN analytics.raw.events e ON e.c = c.id";
    assert_eq!(route(&r, sql, Some(10)), Engine::Snowflake);
}

#[test]
fn large_scan_stays_on_snowflake() {
    let r = router(&["DIM.PUBLIC.COUNTRIES"]);
    assert_eq!(
        route(&r, "SELECT * FROM dim.public.countries", Some(50_000_000)),
        Engine::Snowflake
    );
}

#[test]
fn non_deterministic_stays_on_snowflake() {
    let r = router(&["DIM.PUBLIC.COUNTRIES"]);
    assert_eq!(
        route(&r, "SELECT UUID_STRING() FROM dim.public.countries", Some(10)),
        Engine::Snowflake
    );
}

#[test]
fn replica_names_match_case_insensitively_and_threshold_is_strict() {
    let r = router(&["dim.public.countries"]);
    assert_eq!(route(&r, "SELECT * FROM DIM.PUBLIC.COUNTRIES", Some(999_999)), Engine::DuckDb);
    assert_eq!(route(&r, "SELECT * FROM DIM.PUBLIC.COUNTRIES", Some(1_000_000)), Engine::Snowflake);
    let none = router(&[]);
    assert_eq!(route(&none, "SELECT * FROM t", Some(1)), Engine::Snowflake);
    let analysis = analyze("SELECT * FROM dim.public.countries").unwrap();
    let session = Session::default();
    let ctx = QueryContext { analysis: &analysis, session: &session };
    assert!(matches!(r.decide(&ctx), Decision::Passthrough));
}

// ------------------------------------------------------------- attribute

fn ctx_tags(sql: &str, session: &Session) -> QueryTags {
    let analysis = analyze(sql).unwrap();
    let ctx = QueryContext { analysis: &analysis, session };
    let mut cfg = AttributeConfig::default();
    cfg.enabled = true;
    AttributePlugin::new(cfg).tags_for(&ctx)
}

#[test]
fn hint_comment_tags_extracted() {
    let tags = ctx_tags("/*+ chukei:team=growth dag=daily_revenue */ SELECT 1", &Session::default());
    assert_eq!(tags.get("chukei.team"), Some("growth"));
    assert_eq!(tags.get("chukei.dag"), Some("daily_revenue"));
}

#[test]
fn dbt_meta_parsed() {
    let sql = r#"/* {"app": "dbt", "node_id": "model.proj.daily_revenue"} */ SELECT 1"#;
    let tags = ctx_tags(sql, &Session::default());
    assert_eq!(tags.get("chukei.dag"), Some("model.proj.daily_revenue"));
    assert_eq!(tags.get("chukei.app"), Some("dbt"));
}

#[test]
fn hint_beats_dbt_meta_for_dag() {
    let sql = r#"/*+ chukei:dag=pinned */ /* {"app": "dbt", "node_id": "model.x"} */ SELECT 1"#;
    let tags = ctx_tags(sql, &Session::default());
    assert_eq!(tags.get("chukei.dag"), Some("pinned"));
}

#[test]
fn session_facts_fill_gaps_and_auto_query_tag() {
    let session = Session {
        user: Some("SARA".into()),
        application_name: Some("looker".into()),
        warehouse: None,
        role: None,
        query_tag: Some(String::new()),
    };
    let tags = ctx_tags("/*+ chukei:team=growth */ SELECT 1", &session);
    assert_eq!(tags.get("chukei.app"), Some("looker"));
    assert_eq!(tags.get("chukei.user"), Some("SARA"));
    assert_eq!(tags.get("chukei.auto_query_tag"), Some("chukei:team=growth"));
}

#[test]
fn control_hints_are_not_provenance_and_set_query_tags_win() {
    let session = Session {
        user: None,
        application_name: None,
        warehouse: None,
        role: None,
        query_tag: Some("already".into()),
    };
    let tags = ctx_tags("/*+ chukei:team=a size=L tolerance=approximate */ SELECT 1", &session);
    assert_eq!(tags.get("chukei.size"), None);
    assert_eq!(tags.get("chukei.tolerance"), None);
    assert_eq!(tags.get("chukei.auto_query_tag"), None);
    assert_eq!(tags.len(), 1);
    let plain = ctx_tags("SELECT 1", &Session::default());
    assert!(plain.is_empty());
}

#[test]
fn dbt_comment_search() {
    let m = parse_dbt_meta(r#"/* plain */ /*  {"node_id": "model.y", "app": 3} */ SELECT 1"#).unwrap();
    assert_eq!(m.node_id.as_deref(), Some("model.y"));
    assert_eq!(m.app, None);
    assert!(parse_dbt_meta("/* {not json} */ SELECT 1").is_none());
    assert!(parse_dbt_meta(r#"/* unterminated {"app": "dbt"}"#).is_none());
}

// ----------------------------------------------------------------- cache

fn cache(table_ttls: &[(&str, u64)]) -> CachePlugin {
    let mut cfg = CacheConfig::default();
    cfg.enabled = true;
    cfg.default_ttl_secs = 900;
    cfg.table_ttls = table_ttls.iter().map(|(k, v)| (k.to_string(), *v)).collect();
    CachePlugin::new(cfg)
}

fn decide_and_fill(plugin: &mut CachePlugin, sql: &str, now: u64) -> Decision {
    let analysis = analyze(sql).unwrap();
    let session = Session::default();
    let ctx = QueryContext { analysis: &analysis, session: &session };
    let first = plugin.decide_at(&ctx, now);
    let mut snapshot = ResultSnapshot::default();
    snapshot.data = Some(serde_json::Value::from(vec![1, 2]));
    snapshot.row_count = 1;
    plugin.on_result_at(&ctx, &snapshot, now);
    first
}

#[test]
fn miss_then_hit() {
    let mut p = cache(&[]);
    let sql = "SELECT a FROM analytics.marts.revenue";
    assert!(matches!(decide_and_fill(&mut p, sql, 1_000), Decision::Passthrough));
    let analysis = analyze(sql).unwrap();
    let session = Session::default();
    let ctx = QueryContext { analysis: &analysis, session: &session };
    match p.decide_at(&ctx, 2_000) {
        Decision::ServeFromCache(k) => assert_eq!(k.hard_fingerprint, analysis.hard_fingerprint),
        other => panic!("{other:?}"),
    }
    // 900 s later the entry has expired
    assert!(matches!(p.decide_at(&ctx, 1_000 + 900_001), Decision::Passthrough));
}

#[test]
fn non_deterministic_never_cached() {
    let mut p = cache(&[]);
    decide_and_fill(&mut p, "SELECT a, CURRENT_TIMESTAMP() FROM t", 0);
    assert_eq!(p.store_len(), 0, "non-deterministic query must not be stored");
}

#[test]
fn writes_never_cached() {
    let mut p = cache(&[]);
    decide_and_fill(&mut p, "INSERT INTO t VALUES (1)", 0);
    assert_eq!(p.store_len(), 0);
}

#[test]
fn lineage_invalidation_tombstones_by_table() {
    let mut p = cache(&[]);
    decide_and_fill(&mut p, "SELECT a FROM analytics.raw.events", 0);
    decide_and_fill(&mut p, "SELECT b FROM analytics.marts.revenue", 0);
    assert_eq!(p.store_len(), 2);
    let removed = p.invalidate_table("analytics.raw.events");
    assert_eq!(removed, 1);
    assert_eq!(p.store_len(), 1);
}

#[test]
fn ttl_uses_minimum_across_families() {
    let p = cache(&[("ANALYTICS.MARTS.*", 86_400), ("ANALYTICS.RAW.*", 60)]);
    assert_eq!(p.ttl_for(&["ANALYTICS.MARTS.REVENUE".into()]), 900);
    assert_eq!(
        p.ttl_for(&["ANALYTICS.MARTS.REVENUE".into(), "ANALYTICS.RAW.EVENTS".into()]),
        60
    );
}

#[test]
fn expired_entries_miss() {
    let mut store = MemoryStore::default();
    store.put(
        [0u8; 32],
        CacheEntry {
            data: serde_json::Value::from(1),
            tables: vec![],
            inserted_unix_ms: 0,
            ttl_secs: 10,
            canonical_wall_clock_ms: 0,
        },
    );
    assert!(store.get(&[0u8; 32], 5_000).is_some());
    assert!(store.get(&[0u8; 32], 10_000).is_some());
    assert!(store.get(&[0u8; 32], 11_000).is_none());
}

fn entry(table: &str, inserted: u64) -> CacheEntry {
    CacheEntry {
        data: serde_json::Value::from(inserted),
        tables: vec![table.to_uppercase()],
        inserted_unix_ms: inserted,
        ttl_secs: 3600,
        canonical_wall_clock_ms: 1000,
    }
}

#[test]
fn eviction_keeps_newest() {
    let mut store = MemoryStore::with_capacity(10);
    for i in 0..20u8 {
        let mut key = [0u8; 32];
        key[0] = i;
        store.put(key, entry("t", 100 + i as u64));
    }
    assert!(store.len() <= 10, "cap enforced, len={}", store.len());
    let mut newest = [0u8; 32];
    newest[0] = 19;
    assert!(store.get(&newest, 200).is_some());
    let mut oldest = [0u8; 32];
    oldest[0] = 0;
    assert!(store.get(&oldest, 200).is_none());
}

#[test]
fn glob_patterns() {
    assert!(glob_match("analytics.marts.*", "ANALYTICS.MARTS.REVENUE"));
    assert!(glob_match("ANALYTICS.MARTS.REVENUE", "analytics.marts.revenue"));
    assert!(!glob_match("ANALYTICS.MARTS.*", "ANALYTICS.RAW.EVENTS"));
    assert!(glob_match("*", "anything"));
    assert!(!glob_match("A", "AB"));
}

#[test]
fn disk_index_names_files_and_evicts() {
    let mut d = DiskStore::new("/tmp/cache".into(), 10);
    let key = [0xabu8; 32];
    assert_eq!(d.path_for(&key), format!("/tmp/cache/{}.json", "ab".repeat(32)));
    assert_eq!(d.tmp_path_for(&key), format!("/tmp/cache/{}.tmp", "ab".repeat(32)));
    let mut evicted = Vec::new();
    for i in 0..20u8 {
        let mut k = [0u8; 32];
        k[0] = i;
        evicted.extend(d.record(k, IndexEntry { tables: vec!["T".into()], inserted_unix_ms: i as u64 }));
    }
    assert!(d.len() <= 10);
    assert!(evicted.iter().all(|k| k[0] < 10));
    let doomed = d.invalidate_table("t");
    assert_eq!(doomed.len() + d.len(), doomed.len());
    assert!(d.is_empty());
    let slash = DiskStore::new("/tmp/cache/".into(), 10);
    assert_eq!(slash.path_for(&key), format!("/tmp/cache/{}.json", "ab".repeat(32)));
}

#[test]
fn cache_file_stems_parse_back() {
    let key = [0x1fu8; 32];
    assert_eq!(parse_key(&"1f".repeat(32)), Some(key));
    assert_eq!(parse_key(&"1F".repeat(32)), Some(key));
    assert_eq!(parse_key("abc"), None);
    assert_eq!(parse_key(&"zz".repeat(32)), None);
    assert_eq!(parse_key(&"+f".repeat(32)), Some([0x0fu8; 32]));
    // a stray 64-byte stem whose first pair ends inside a character
    let stray = format!("z\u{e9}{}", "a".repeat(61));
    assert_eq!(stray.len(), 64);
    assert_eq!(parse_key(&stray), None);
}

// ------------------------------------------------------------------- bus

fn run(plugins: Vec<(&str, i32, Result<Decision, Error>)>) -> Resolution {
    let orders: Vec<i32> = plugins.iter().map(|p| p.1).collect();
    let order = execution_order(&orders);
    let mut slots: Vec<Option<(&str, i32, Result<Decision, Error>)>> =
        plugins.into_iter().map(Some).collect();
    let mut resolution = Resolution::new();
    for i in order {
        let (name, _, outcome) = slots[i].take().unwrap();
        if !resolution.absorb(name.to_string(), outcome) {
            break;
        }
    }
    resolution
}

fn tags(pairs: &[(&str, &str)]) -> QueryTags {
    let mut t = QueryTags::new();
    for (k, v) in pairs {
        t.insert(k.to_string(), v.to_string());
    }
    t
}

#[test]
fn veto_short_circuits() {
    let r = run(vec![
        ("policy", 1, Ok(Decision::Veto(VetoReason("blocked".into())))),
        ("rewriter", 2, Ok(Decision::Rewrite("SELECT 1".into()))),
    ]);
    assert!(r.veto.is_some());
    assert!(r.rewrite.is_none(), "later plugins must not run after veto");
    assert_eq!(r.trail.len(), 1);
}

#[test]
fn compose_flattens_and_merges() {
    let r = run(vec![(
        "multi",
        1,
        Ok(Decision::Compose(vec![
            Decision::Rewrite("SELECT b FROM t".into()),
            Decision::Annotate(tags(&[("team", "growth")])),
        ])),
    )]);
    assert_eq!(r.rewrite.as_deref(), Some("SELECT b FROM t"));
    assert_eq!(r.annotations.get("team"), Some("growth"));
}

#[test]
fn earliest_plugin_wins_per_kind_and_annotations_merge() {
    let r = run(vec![
        ("a", 1, Ok(Decision::Route(Engine::DuckDb))),
        ("b", 2, Ok(Decision::Route(Engine::Snowflake))),
        ("c", 3, Ok(Decision::Annotate(tags(&[("team", "x")])))),
        ("d", 4, Ok(Decision::Annotate(tags(&[("team", "y"), ("dag", "z")])))),
    ]);
    assert_eq!(r.route, Some(Engine::DuckDb));
    assert_eq!(r.annotations.get("team"), Some("x"), "first writer wins");
    assert_eq!(r.annotations.get("dag"), Some("z"));
}

#[test]
fn failing_plugin_is_fail_open() {
    let r = run(vec![
        ("failing", 0, Err(Error::Plugin { plugin: "failing".into(), message: "boom".into() })),
        ("ok", 1, Ok(Decision::Rewrite("SELECT 1".into()))),
    ]);
    assert_eq!(r.rewrite.as_deref(), Some("SELECT 1"));
}

#[test]
fn plugins_run_in_order_regardless_of_registration() {
    let r = run(vec![
        ("late", 50, Ok(Decision::Rewrite("late".into()))),
        ("early", 10, Ok(Decision::Rewrite("early".into()))),
    ]);
    assert_eq!(r.rewrite.as_deref(), Some("early"));
    assert_eq!(r.trail[0].0, "early");
}

#[test]
fn passthrough_resolution() {
    let r = run(vec![("noop", 1, Ok(Decision::Passthrough))]);
    assert!(r.is_passthrough());
}

#[test]
fn equal_orders_keep_registration_order() {
    assert_eq!(execution_order(&vec![20, 10, 20, 10]), vec![1, 3, 0, 2]);
}

// -------------------------------------------------------------- registry

#[test]
fn catalog_lists_every_builtin_in_bus_order() {
    let c = catalog();
    let names: Vec<&str> = c.iter().map(|p| p.name).collect();
    assert_eq!(names, vec!["cache", "router", "rewrite", "bandit", "suspend", "attribute"]);
    let orders: Vec<i32> = c.iter().map(|p| p.order).collect();
    assert_eq!(orders, vec![10, 20, 30, 40, 50, 60]);
    assert_eq!(c[3].status, "p1");
}

#[test]
fn only_enabled_plugins_join_the_bus() {
    let mut p = chukei_core::config::PluginsConfig::default();
    assert!(enabled_plugins(&p).is_empty());
    p.cache.enabled = true;
    p.attribute.enabled = true;
    p.bandit.enabled = true;
    assert_eq!(enabled_plugins(&p), vec!["cache", "attribute"]);
}

#[test]
fn key_stems_parse_back() {
    for k in [[0u8; 32], [0xffu8; 32], [0x5au8; 32]] {
        assert_eq!(parse_key(&chukei_core::sql::fingerprint::hex(&k)), Some(k));
    }
    let mut k = [0u8; 32];
    for (i, b) in k.iter_mut().enumerate() {
        *b = (i as u8).wrapping_mul(37);
    }
    assert_eq!(parse_key(&chukei_core::sql::fingerprint::hex(&k)), Some(k));
}
