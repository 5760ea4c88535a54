use chukei_core::suspend::{plugin_name, plugin_order, sweep_turn};
use chukei_core::plugin::registry::catalog;
use chukei_core::wire::{query_step, QueryEvent, QueryStep, ShortAnswer};
use chukei_core::service::{login_token, session_expired, use_role_statement};
use chukei_core::circuit_breaker::CircuitBreaker;
use chukei_core::config::{
    interpolate_env, interpolate_line, validate, CheckedSettings, SnowflakeUpstream, StorageBackend,
    SuspendConfig, SuspendMode, ServiceAccountConfig, TlsConfig,
};
use chukei_core::error::Error;
use chukei_core::suspend::{cooldown_after, cooldown_ms, plan_sweep, suspend_statement, Cooldowns, SuspendOutcome, SweepAction};
use chukei_core::wire::{
    blame_mismatch, coalesce_key, dedup_key, decode_body, encode_body_like, is_gzip, is_hop_by_hop, login_warehouse,
    query_param, request_id_from, token_from_auth, trim_trailing_slashes, unquoted, upstream_url,
    veto_message, RecentResponses, Sessions, DEDUP_CAP,
};
use chukei_core::plugin::Session;
use chukei_core::config::{CoalesceConfig, CoalesceScope};

#[test]
fn opens_after_threshold_and_recovers() {
    let mut breaker = CircuitBreaker::with_cooldown_ms(3, 50);
    assert!(breaker.allow_at(1_000));
    breaker.record_failure_at(1_000);
    breaker.record_failure_at(1_000);
    assert!(breaker.allow_at(1_000), "below threshold stays closed");
    breaker.record_failure_at(1_000);
    assert!(!breaker.allow_at(1_000), "threshold reached → open");
    assert!(!breaker.allow_at(1_049));
    assert!(breaker.allow_at(1_060), "cooldown elapsed → half-open probe allowed");
    breaker.record_success();
    assert!(breaker.allow_at(1_060));
    assert_eq!(breaker.consecutive_failures(), 0);
}

#[test]
fn default_breaker_trips_after_five() {
    let b = CircuitBreaker::default();
    assert_eq!(b.threshold(), 5);
    assert_eq!(b.cooldown_ms(), 2_000);
}

fn env(pairs: &[(&str, &str)]) -> Vec<(String, String)> {
    pairs.iter().map(|(k, v)| (k.to_string(), v.to_string())).collect()
}

#[test]
fn env_interpolation_works() {
    let e = env(&[("CHUKEI_TEST_BUCKET", "my-bucket")]);
    let yaml = "\nstorage:\n  backend: s3\n  bucket: \"${CHUKEI_TEST_BUCKET}\"\n";
    let out = interpolate_env(yaml, &e).unwrap().unwrap();
    assert_eq!(out, "\nstorage:\n  backend: s3\n  bucket: \"my-bucket\"\n");
}

#[test]
fn comments_mentioning_interpolation_are_ignored() {
    let yaml = "# env vars interpolate with ${VAR}\nlisten:\n  bind: \"0.0.0.0:1\" # not ${THIS} though\n";
    assert!(interpolate_env(yaml, &[]).unwrap().is_err());
    let yaml = "# env vars interpolate with ${VAR}\nlisten:\n  bind: \"0.0.0.0:1\"\n";
    assert_eq!(interpolate_env(yaml, &[]).unwrap().unwrap(), yaml);
}

#[test]
fn missing_env_var_is_an_error() {
    let yaml = "bucket: \"${CHUKEI_DEFINITELY_NOT_SET_12345}\"";
    match interpolate_env(yaml, &[]).unwrap().unwrap_err() {
        Error::Config(m) => {
            assert_eq!(m, "environment variable 'CHUKEI_DEFINITELY_NOT_SET_12345' is not set")
        }
        other => panic!("got: {other:?}"),
    }
}

#[test]
fn interpolation_errors_name_the_problem() {
    match interpolate_line("a ${BAD-NAME} b", &[]).unwrap().unwrap_err() {
        Error::Config(m) => assert_eq!(m, "invalid env var name in interpolation: 'BAD-NAME'"),
        other => panic!("{other:?}"),
    }
    match interpolate_line("x ${OPEN and then some more text to pass thirty bytes", &[]).unwrap().unwrap_err() {
        Error::Config(m) => {
            assert_eq!(m, "unterminated ${...} expression near: ${OPEN and then some more text")
        }
        other => panic!("{other:?}"),
    }
    let e = env(&[("A", "1"), ("B", "2")]);
    assert_eq!(interpolate_line("${A}-${B}-${A}", &e).unwrap().unwrap(), "1-2-1");
}

#[test]
fn unterminated_excerpt_cut_inside_a_character_is_flagged() {
    // The excerpt's 30th byte falls inside `é`: no excerpt can be cut there.
    let line = format!("${{{}é", "a".repeat(27));
    assert!(interpolate_line(&line, &[]).is_none());
    assert!(interpolate_env(&format!("ok: 1\n{line}"), &[]).is_none());
    // A comment line is never interpolated, so it cannot trip on it.
    assert!(interpolate_env(&format!("# {line}"), &[]).is_some());
}

#[test]
fn base_url_derivation() {
    let up = SnowflakeUpstream { account: "abc12345.us-east-1".into(), base_url_override: None };
    assert_eq!(up.base_url(), "https://abc12345.us-east-1.snowflakecomputing.com");
    let o = SnowflakeUpstream {
        account: "x".into(),
        base_url_override: Some("http://127.0.0.1:9".into()),
    };
    assert_eq!(o.base_url(), "http://127.0.0.1:9");
}

fn settings() -> CheckedSettings {
    CheckedSettings {
        tls: None,
        cache_enabled: false,
        suspend: SuspendConfig::default(),
        service_account: ServiceAccountConfig::default(),
        storage_backend: StorageBackend::Filesystem,
        storage_bucket_set: false,
    }
}

#[test]
fn enforce_without_role_rejected() {
    let mut s = settings();
    s.suspend.enabled = true;
    s.suspend.mode = SuspendMode::Enforce;
    match validate(&s, None).unwrap_err() {
        Error::Config(m) => assert_eq!(m, "plugins.suspend.mode=enforce requires plugins.suspend.role"),
        other => panic!("{other:?}"),
    }
    s.suspend.role = Some("R".into());
    match validate(&s, None).unwrap_err() {
        Error::Config(m) => {
            assert_eq!(m, "plugins.suspend.mode=enforce requires service_account.user/password")
        }
        other => panic!("{other:?}"),
    }
    s.service_account.user = Some("u".into());
    s.service_account.password = Some("p".into());
    assert!(validate(&s, None).is_ok());
}

#[test]
fn s3_without_bucket_rejected() {
    let mut s = settings();
    s.storage_backend = StorageBackend::S3;
    match validate(&s, None).unwrap_err() {
        Error::Config(m) => assert_eq!(m, "storage.backend=S3 requires storage.bucket"),
        other => panic!("{other:?}"),
    }
    s.storage_bucket_set = true;
    assert!(validate(&s, None).is_ok());
}

#[test]
fn tls_and_rate_checks() {
    let mut s = settings();
    s.tls = Some(TlsConfig { cert: String::new(), key: "k".into() });
    assert!(validate(&s, None).is_err());
    s.tls = None;
    s.cache_enabled = true;
    match validate(&s, Some("1.5")).unwrap_err() {
        Error::Config(m) => assert_eq!(m, "plugins.cache.blame_sample_rate must be in [0,1], got 1.5"),
        other => panic!("{other:?}"),
    }
    s.cache_enabled = false;
    assert!(validate(&s, Some("1.5")).is_ok());
}

#[test]
fn request_ids_and_params() {
    assert_eq!(request_id_from(Some("a=1&requestId=RID-1&b=2")), Some("RID-1".into()));
    assert_eq!(request_id_from(Some("requestId=")), Some(String::new()));
    assert_eq!(request_id_from(Some("xrequestId=1")), None);
    assert_eq!(request_id_from(None), None);
    assert_eq!(query_param(Some("x=1&WAREHOUSE=wh&warehouse=other"), "warehouse"), Some("wh".into()));
    assert_eq!(query_param(Some("warehouse=&warehouse=b"), "warehouse"), Some("b".into()));
    assert_eq!(query_param(Some("warehouse"), "warehouse"), None);
}

#[test]
fn tokens_from_authorization() {
    assert_eq!(token_from_auth(Some("Snowflake Token=\"tok\"")), Some("tok".into()));
    assert_eq!(token_from_auth(Some("Bearer abc")), Some("abc".into()));
    assert_eq!(token_from_auth(Some("Basic x")), None);
    assert_eq!(token_from_auth(Some("Snowflake Token=\"\"")), Some(String::new()));
    assert_eq!(token_from_auth(None), None);
}

#[test]
fn hop_by_hop_headers() {
    for h in ["connection", "host", "content-length", "accept-encoding", "te"] {
        assert!(is_hop_by_hop(h));
    }
    assert!(!is_hop_by_hop("authorization"));
    assert!(!is_hop_by_hop("Connection"));
    assert!(is_gzip(Some("GZip")));
    assert!(!is_gzip(Some("br")));
    assert!(!is_gzip(None));
}

#[test]
fn gzip_bodies_round_trip() {
    let body = b"{\"sqlText\":\"SELECT 1\"}".to_vec();
    let packed = encode_body_like(true, body.clone());
    assert_ne!(packed, body);
    assert_eq!(decode_body(true, &packed), Some(body.clone()));
    assert_eq!(decode_body(false, &body), Some(body.clone()));
    assert_eq!(encode_body_like(false, body.clone()), body);
    assert_eq!(decode_body(true, b"not gzip"), None);
}

#[test]
fn replay_and_coalesce_keys() {
    let fp = [0x11u8; 32];
    let k = dedup_key(true, true, "tok", Some("RID".into()), &fp, "").unwrap();
    let expected = format!("tok:RID:{}:{}", "11".repeat(8), blake3::hash(b"").to_hex());
    assert_eq!(k, expected);
    assert_eq!(dedup_key(false, true, "tok", Some("RID".into()), &fp, ""), None);
    assert_eq!(dedup_key(true, true, "tok", None, &fp, ""), None);

    let session = CoalesceConfig { enabled: true, scope: CoalesceScope::Session };
    let account = CoalesceConfig { enabled: true, scope: CoalesceScope::Account };
    let a = coalesce_key(&session, true, true, &fp, "[1]", "t1").unwrap();
    let b = coalesce_key(&session, true, true, &fp, "[1]", "t2").unwrap();
    assert_ne!(a, b, "session scope keeps sessions apart");
    let c = coalesce_key(&account, true, true, &fp, "[1]", "t1").unwrap();
    let d = coalesce_key(&account, true, true, &fp, "[1]", "t2").unwrap();
    assert_eq!(c, d);
    let mut input = fp.to_vec();
    input.extend_from_slice(b"[1]");
    assert_eq!(c, *blake3::hash(&input).as_bytes());
    assert_eq!(coalesce_key(&session, true, false, &fp, "", ""), None);
    let off = CoalesceConfig { enabled: false, scope: CoalesceScope::Session };
    assert_eq!(coalesce_key(&off, true, true, &fp, "", ""), None);
}

#[test]
fn recent_responses_replay_within_ttl_and_cap() {
    let mut r = RecentResponses::default();
    r.put("k".into(), 200, b"body".to_vec(), 42, 1_000);
    assert_eq!(r.get("k", 61_000), Some((200, b"body".to_vec(), 42)));
    assert_eq!(r.get("k", 61_001), None);
    assert_eq!(r.get("other", 1_000), None);
    for i in 0..(DEDUP_CAP + 5) {
        r.put(format!("key{i}"), 200, vec![], 0, 2_000);
    }
    assert!(r.len() <= DEDUP_CAP);
    assert_eq!(r.get("k", 2_000), None, "oldest keys go first");
    assert!(r.get(&format!("key{}", DEDUP_CAP + 4), 2_000).is_some());
}

#[test]
fn upstream_addressing_and_messages() {
    assert_eq!(trim_trailing_slashes("http://x//"), "http://x");
    assert_eq!(upstream_url("http://x", Some("/a?b=1")), "http://x/a?b=1");
    assert_eq!(upstream_url("http://x", None), "http://x/");
    assert_eq!(veto_message("blocked"), "chukei policy veto: blocked");
    assert_eq!(unquoted("\"My WH\""), "My WH");
    assert_eq!(login_warehouse(Some(""), Some("warehouse=W")), Some("W".into()));
    assert_eq!(login_warehouse(Some("R"), Some("warehouse=W")), Some("R".into()));
    assert_eq!(login_warehouse(None, None), None);
}

#[test]
fn session_facts_follow_renewed_tokens() {
    let mut s = Sessions::new();
    let sara = Session {
        user: Some("SARA".into()),
        application_name: None,
        warehouse: None,
        role: None,
        query_tag: None,
    };
    s.insert("token-OLD".into(), sara);
    s.rekey("token-OLD", "token-NEW".into());
    assert!(s.get("token-OLD").is_none());
    assert_eq!(s.get("token-NEW").unwrap().user.as_deref(), Some("SARA"));
    s.set_warehouse("token-NEW", "WH".into());
    assert_eq!(s.get("token-NEW").unwrap().warehouse.as_deref(), Some("WH"));
    s.rekey("unknown", "x".into());
    assert!(s.get("x").is_none());
}

#[test]
fn suspend_sweep_decisions() {
    assert_eq!(suspend_statement("IDLE_WH"), "ALTER WAREHOUSE \"IDLE_WH\" SUSPEND");
    assert_eq!(plan_sweep(SuspendMode::SuggestOnly, false, "W"), SweepAction::Suggest);
    assert_eq!(plan_sweep(SuspendMode::Enforce, false, "W"), SweepAction::NoServiceSession);
    assert_eq!(
        plan_sweep(SuspendMode::Enforce, true, "W"),
        SweepAction::Execute("ALTER WAREHOUSE \"W\" SUSPEND".into())
    );
    assert!(cooldown_after(true, SuspendOutcome::Failed));
    assert!(cooldown_after(false, SuspendOutcome::Rejected));
    assert!(!cooldown_after(false, SuspendOutcome::Failed));
    let mut c = Cooldowns::new();
    let five_minutes = cooldown_ms(300);
    assert_eq!(five_minutes, 300_000);
    assert!(!c.cooling("W", 0, five_minutes));
    c.start("W".into(), 1_000);
    assert!(c.cooling("W", 300_999, five_minutes));
    assert!(!c.cooling("W", 301_000, five_minutes));
    // a longer configured cooldown keeps the warehouse alone longer
    let ten_minutes = cooldown_ms(600);
    assert!(c.cooling("W", 301_000, ten_minutes));
    assert!(c.cooling("W", 600_999, ten_minutes));
    assert!(!c.cooling("W", 601_000, ten_minutes));
    assert_eq!(cooldown_ms(u64::MAX), u64::MAX);
}

#[test]
fn blame_verdicts() {
    assert!(blame_mismatch(200, true, false, false));
    assert!(!blame_mismatch(200, true, false, true));
    assert!(!blame_mismatch(500, true, false, false));
    assert!(!blame_mismatch(200, false, false, false));
    assert!(!blame_mismatch(200, true, true, false));
}

#[test]
fn service_login_replies() {
    assert_eq!(login_token(Some(true), None, Some("tok")).unwrap(), "tok");
    match login_token(Some(false), Some("bad password"), Some("tok")) {
        Err(Error::Auth(m)) => assert_eq!(m, "service login rejected: bad password"),
        _ => panic!("rejection expected"),
    }
    match login_token(None, None, None) {
        Err(Error::Auth(m)) => assert_eq!(m, "service login rejected: unknown"),
        _ => panic!("rejection expected"),
    }
    match login_token(Some(true), None, None) {
        Err(Error::Auth(m)) => assert_eq!(m, "service login: no token in response"),
        _ => panic!("missing token expected"),
    }
    assert!(session_expired(Some("390112")));
    assert!(!session_expired(Some("000000")));
    assert!(!session_expired(None));
    assert_eq!(use_role_statement("SYSADMIN"), "USE ROLE SYSADMIN");
}

#[test]
fn inspected_queries_follow_the_step_order() {
    assert_eq!(query_step(QueryEvent::Analysed { dedup: true }), QueryStep::LookUpReplay);
    assert_eq!(query_step(QueryEvent::Analysed { dedup: false }), QueryStep::Decide);
    assert_eq!(
        query_step(QueryEvent::ReplayLooked { found: true }),
        QueryStep::Respond(ShortAnswer::Replayed)
    );
    assert_eq!(query_step(QueryEvent::ReplayLooked { found: false }), QueryStep::Decide);
    assert_eq!(
        query_step(QueryEvent::Decided { vetoed: true, cache_key: true }),
        QueryStep::Respond(ShortAnswer::Vetoed)
    );
    assert_eq!(query_step(QueryEvent::Decided { vetoed: false, cache_key: true }), QueryStep::LookUpCache);
    assert_eq!(query_step(QueryEvent::Decided { vetoed: false, cache_key: false }), QueryStep::Forward);
    assert_eq!(
        query_step(QueryEvent::CacheLooked { found: true }),
        QueryStep::Respond(ShortAnswer::Cached)
    );
    assert_eq!(query_step(QueryEvent::CacheLooked { found: false }), QueryStep::Forward);
}

#[test]
fn sweeps_keep_the_cooldown_and_suggest_only_never_executes() {
    let cd = cooldown_ms(300);
    let mut c = Cooldowns::new();
    // no recommendation: nothing
    assert_eq!(sweep_turn(&c, cd, SuspendMode::SuggestOnly, true, "W", 1_000, false), None);
    // suggest-only suggests even with a service session
    assert_eq!(
        sweep_turn(&c, cd, SuspendMode::SuggestOnly, true, "W", 1_000, true),
        Some(SweepAction::Suggest)
    );
    c.record_turn("W".into(), 1_000, true, SuspendOutcome::Suspended);
    // within the cooldown the warehouse is left alone
    assert_eq!(sweep_turn(&c, cd, SuspendMode::Enforce, true, "W", 300_999, true), None);
    // after it, enforce executes
    assert_eq!(
        sweep_turn(&c, cd, SuspendMode::Enforce, true, "W", 301_000, true),
        Some(SweepAction::Execute(suspend_statement("W")))
    );
    assert_eq!(
        sweep_turn(&c, cd, SuspendMode::Enforce, false, "W", 301_000, true),
        Some(SweepAction::NoServiceSession)
    );
    // a failed call starts no cooldown; a rejection does
    c.record_turn("W".into(), 301_000, false, SuspendOutcome::Failed);
    assert!(!c.cooling("W", 301_001, cd));
    c.record_turn("W".into(), 301_001, false, SuspendOutcome::Rejected);
    assert!(c.cooling("W", 301_002, cd));
}

#[test]
fn breaker_stays_closed_below_threshold_after_success() {
    let mut b = CircuitBreaker::with_cooldown_ms(3, 50);
    for _ in 0..3 {
        b.record_failure_at(1_000);
    }
    assert!(!b.allow_at(1_010));
    b.record_success();
    assert!(b.allow());
    b.record_failure_at(2_000);
    b.record_failure_at(2_001);
    assert!(b.allow());
    assert!(b.allow_at(2_002));
    assert_eq!(b.consecutive_failures(), 2);
}

#[test]
fn suspend_plugin_identity_matches_catalog() {
    let row = catalog().into_iter().find(|p| p.name == plugin_name()).unwrap();
    assert_eq!(row.order, plugin_order());
    assert_eq!(plugin_order(), 50);
}
