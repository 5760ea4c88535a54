//! Configuration model.
//!
//! Override order (lowest precedence first): compiled defaults → config file
//! → environment variables → CLI flags. Env-var interpolation uses the
//! `${VAR}` syntax. Reading the file and the process environment happens
//! at the edge; everything here works on the text and on an environment
//! snapshot handed in as `(name, value)` pairs.
use crate::error::{Error, Result};
use crate::text::{
    concat_chars, find, find_from, from_chars, is_ws, lemma_find_from, literal_chars, skip_whitespace,
    skip_ws, slice_chars, str_eq, to_chars,
};
use vstd::prelude::*;
use vstd::string::StringExecFns;

verus! {

pub fn default_bind() -> (r: String)
    ensures
        r@ == "0.0.0.0:8443"@,
{
    String::from_str("0.0.0.0:8443")
}

#[derive(Debug, Clone)]
pub struct TlsConfig {
    pub cert: String,
    pub key: String,
}

#[derive(Debug, Clone)]
pub struct ListenConfig {
    pub bind: String,
    pub tls: Option<TlsConfig>,
}

impl Default for ListenConfig {
    fn default() -> (r: Self)
        ensures
            r.bind@ == "0.0.0.0:8443"@,
            r.tls is None,
    {
        ListenConfig { bind: default_bind(), tls: None }
    }
}

#[derive(Debug, Clone)]
pub struct SnowflakeUpstream {
    /// Account locator, e.g. `abc12345.us-east-1`. Auth is passed through
    /// from the client; no credentials live here.
    pub account: String,
    /// Overrides the derived snowflakecomputing.com URL (test harnesses).
    pub base_url_override: Option<String>,
}

/// The URL of an account's REST endpoint.
pub open spec fn account_url(account: Seq<char>) -> Seq<char> {
    "https://"@ + account + ".snowflakecomputing.com"@
}

impl SnowflakeUpstream {
    /// The override when set, else the account's snowflakecomputing.com URL.
    pub fn base_url(&self) -> (r: String)
        ensures
            r@ == match self.base_url_override {
                Some(u) => u@,
                None => account_url(self.account@),
            },
    {
        match &self.base_url_override {
            Some(u) => u.clone(),
            None => {
                let mut s = String::from_str("https://");
                s.append(self.account.as_str());
                s.append(".snowflakecomputing.com");
                s
            },
        }
    }
}

#[derive(Debug, Clone)]
pub struct DatabricksUpstream {
    pub workspace_url: String,
}

#[derive(Debug, Clone)]
pub struct UpstreamConfig {
    pub snowflake: Option<SnowflakeUpstream>,
    /// Accepted so files validate; unused.
    pub databricks: Option<DatabricksUpstream>,
}

impl Default for UpstreamConfig {
    fn default() -> (r: Self)
        ensures
            r.snowflake is None && r.databricks is None,
    {
        UpstreamConfig { snowflake: None, databricks: None }
    }
}

#[derive(Debug, Clone, Copy, PartialEq, Eq, Structural)]
pub enum StorageBackend {
    S3,
    Azure,
    Gcs,
    Filesystem,
}

pub fn default_backend() -> (r: StorageBackend)
    ensures
        r == StorageBackend::Filesystem,
{
    StorageBackend::Filesystem
}

/// How a backend is written in messages (its `Debug` form).
pub open spec fn backend_name(b: StorageBackend) -> Seq<char> {
    match b {
        StorageBackend::S3 => "S3"@,
        StorageBackend::Azure => "Azure"@,
        StorageBackend::Gcs => "Gcs"@,
        StorageBackend::Filesystem => "Filesystem"@,
    }
}

fn backend_name_exec(b: StorageBackend) -> (r: String)
    ensures
        r@ == backend_name(b),
{
    match b {
        StorageBackend::S3 => String::from_str("S3"),
        StorageBackend::Azure => String::from_str("Azure"),
        StorageBackend::Gcs => String::from_str("Gcs"),
        StorageBackend::Filesystem => String::from_str("Filesystem"),
    }
}

#[derive(Debug, Clone)]
pub struct StorageConfig {
    pub backend: StorageBackend,
    pub bucket: Option<String>,
    pub region: Option<String>,
    pub prefix: Option<String>,
    pub access_key: Option<String>,
    pub secret_key: Option<String>,
    /// Used when `backend: filesystem`.
    pub path: Option<String>,
}

impl Default for StorageConfig {
    fn default() -> (r: Self)
        ensures
            r.backend == StorageBackend::Filesystem,
            r.bucket is None && r.region is None && r.prefix is None && r.access_key is None
                && r.secret_key is None && r.path is None,
    {
        StorageConfig {
            backend: default_backend(),
            bucket: None,
            region: None,
            prefix: None,
            access_key: None,
            secret_key: None,
            path: None,
        }
    }
}

#[derive(Debug, Clone)]
pub struct ControlPlaneConfig {
    pub postgres_url: Option<String>,
}

/// Who may share one upstream execution of an identical read.
#[derive(Debug, Clone, Copy, PartialEq, Eq, Structural)]
pub enum CoalesceScope {
    /// Only requests carrying the same session token coalesce. Safe under
    /// row-level security and per-role masking.
    Session,
    /// All sessions coalesce. Only when no row-level security or masking
    /// can make the same SQL return different rows to different sessions.
    Account,
}

pub fn default_coalesce_scope() -> (r: CoalesceScope)
    ensures
        r == CoalesceScope::Session,
{
    CoalesceScope::Session
}

pub fn default_true() -> (r: bool)
    ensures
        r,
{
    true
}

/// In-flight request coalescing: concurrent identical deterministic reads
/// share one upstream execution.
#[derive(Debug, Clone, Copy)]
pub struct CoalesceConfig {
    pub enabled: bool,
    pub scope: CoalesceScope,
}

impl Default for CoalesceConfig {
    fn default() -> (r: Self)
        ensures
            r.enabled && r.scope == CoalesceScope::Session,
    {
        CoalesceConfig { enabled: default_true(), scope: default_coalesce_scope() }
    }
}

pub fn default_warehouse_size() -> (r: String)
    ensures
        r@ == "M"@,
{
    String::from_str("M")
}

#[derive(Debug, Clone, Copy, PartialEq, Eq, Structural)]
pub enum DeterminismGate {
    Strict,
    Relaxed,
}

pub fn default_determinism_gate() -> (r: DeterminismGate)
    ensures
        r == DeterminismGate::Strict,
{
    DeterminismGate::Strict
}

pub fn default_cache_ttl() -> (r: u64)
    ensures
        r == 900,
{
    900
}

pub fn default_cache_max_entries() -> (r: usize)
    ensures
        r == 10_000,
{
    10_000
}

/// The result cache's settings. (The blame-mode sample rate, a fraction,
/// is held beside this by the caller.)
#[derive(Debug, Clone)]
pub struct CacheConfig {
    pub enabled: bool,
    pub default_ttl_secs: u64,
    /// Table-family patterns → TTL seconds, e.g. `ANALYTICS.MARTS.*: 86400`.
    pub table_ttls: Vec<(String, u64)>,
    pub determinism_gate: DeterminismGate,
    /// Hard cap on cached entries; the oldest are evicted past it.
    pub max_entries: usize,
    /// When set, entries persist to this directory and survive restarts.
    pub persist_path: Option<String>,
}

impl Default for CacheConfig {
    fn default() -> (r: Self)
        ensures
            !r.enabled,
            r.default_ttl_secs == 900,
            r.table_ttls@.len() == 0,
            r.determinism_gate == DeterminismGate::Strict,
            r.max_entries == 10_000,
            r.persist_path is None,
    {
        CacheConfig {
            enabled: false,
            default_ttl_secs: default_cache_ttl(),
            table_ttls: Vec::new(),
            determinism_gate: default_determinism_gate(),
            max_entries: default_cache_max_entries(),
            persist_path: None,
        }
    }
}

pub fn default_small_scan_rows() -> (r: Option<u64>)
    ensures
        r == Some(1_000_000u64),
{
    Some(1_000_000)
}

pub fn default_refresh() -> (r: String)
    ensures
        r@ == "continuous"@,
{
    String::from_str("continuous")
}

#[derive(Debug, Clone)]
pub struct ReplicaConfig {
    /// Fully-qualified source table, e.g. `ANALYTICS.RAW.EVENTS`.
    pub source: String,
    pub iceberg_path: String,
    pub refresh: String,
}

#[derive(Debug, Clone)]
pub struct DuckDbConfig {
    pub enabled: bool,
    pub replicas: Vec<ReplicaConfig>,
}

impl Default for DuckDbConfig {
    fn default() -> (r: Self)
        ensures
            !r.enabled && r.replicas@.len() == 0,
    {
        DuckDbConfig { enabled: false, replicas: Vec::new() }
    }
}

#[derive(Debug, Clone, Copy)]
pub struct TrinoConfig {
    pub enabled: bool,
}

impl Default for TrinoConfig {
    fn default() -> (r: Self)
        ensures
            !r.enabled,
    {
        TrinoConfig { enabled: false }
    }
}

#[derive(Debug, Clone)]
pub struct RouterConfig {
    pub enabled: bool,
    pub duckdb: DuckDbConfig,
    pub trino: TrinoConfig,
    /// Route to DuckDB only below this estimated scan size.
    pub small_scan_rows: Option<u64>,
}

impl Default for RouterConfig {
    /// All off; no scan threshold of its own (a file that omits it gets
    /// `default_small_scan_rows`).
    fn default() -> (r: Self)
        ensures
            !r.enabled && !r.duckdb.enabled && r.duckdb.replicas@.len() == 0 && !r.trino.enabled
                && r.small_scan_rows is None,
    {
        RouterConfig {
            enabled: false,
            duckdb: DuckDbConfig::default(),
            trino: TrinoConfig::default(),
            small_scan_rows: None,
        }
    }
}

#[derive(Debug, Clone, Copy)]
pub struct ExperimentalRewrite {
    pub llm_rewrite: bool,
}

#[derive(Debug, Clone)]
pub struct RewriteConfig {
    pub enabled: bool,
    /// Rule names, or the single entry `all`.
    pub rules: Vec<String>,
    pub experimental: ExperimentalRewrite,
}

impl Default for RewriteConfig {
    fn default() -> (r: Self)
        ensures
            !r.enabled && r.rules@.len() == 0 && !r.experimental.llm_rewrite,
    {
        RewriteConfig {
            enabled: false,
            rules: Vec::new(),
            experimental: ExperimentalRewrite { llm_rewrite: false },
        }
    }
}

#[derive(Debug, Clone, Copy)]
pub struct BanditConfig {
    pub enabled: bool,
}

#[derive(Debug, Clone, Copy, PartialEq, Eq, Structural)]
pub enum SuspendMode {
    SuggestOnly,
    Enforce,
}

pub fn default_suspend_mode() -> (r: SuspendMode)
    ensures
        r == SuspendMode::SuggestOnly,
{
    SuspendMode::SuggestOnly
}

pub fn default_sweep_interval_secs() -> (r: u64)
    ensures
        r == 30,
{
    30
}

pub fn default_suspend_min_observations() -> (r: u64)
    ensures
        r == 20,
{
    20
}

pub fn default_suspend_cooldown_secs() -> (r: u64)
    ensures
        r == 300,
{
    300
}

/// The suspend plugin's integer settings. (Its horizon and probability
/// threshold, fractions, are held beside this by the caller.)
#[derive(Debug, Clone)]
pub struct SuspendConfig {
    pub enabled: bool,
    pub mode: SuspendMode,
    pub role: Option<String>,
    /// How often the background sweeper evaluates warehouses.
    pub sweep_interval_secs: u64,
    /// Arrivals the model must see per warehouse before it recommends
    /// anything (cold-start gate).
    pub min_observations: u64,
    /// Per-warehouse cooldown between suspend actions, seconds.
    pub cooldown_secs: u64,
}

impl Default for SuspendConfig {
    fn default() -> (r: Self)
        ensures
            !r.enabled,
            r.mode == SuspendMode::SuggestOnly,
            r.role is None,
            r.sweep_interval_secs == 30,
            r.min_observations == 20,
            r.cooldown_secs == 300,
    {
        SuspendConfig {
            enabled: false,
            mode: default_suspend_mode(),
            role: None,
            sweep_interval_secs: default_sweep_interval_secs(),
            min_observations: default_suspend_min_observations(),
            cooldown_secs: default_suspend_cooldown_secs(),
        }
    }
}

/// chukei's own Snowflake service account, used only for actions the proxy
/// takes itself (`suspend.mode: enforce`).
#[derive(Debug, Clone)]
pub struct ServiceAccountConfig {
    pub user: Option<String>,
    pub password: Option<String>,
    pub role: Option<String>,
}

impl Default for ServiceAccountConfig {
    fn default() -> (r: Self)
        ensures
            r.user is None && r.password is None && r.role is None,
    {
        ServiceAccountConfig { user: None, password: None, role: None }
    }
}

impl ServiceAccountConfig {
    /// Both a user and a password are set.
    pub fn is_configured(&self) -> (r: bool)
        ensures
            r == (self.user is Some && self.password is Some),
    {
        self.user.is_some() && self.password.is_some()
    }
}

pub fn default_attr_sources() -> (r: Vec<String>)
    ensures
        r@.len() == 3,
        r@[0]@ == "hint_comment"@,
        r@[1]@ == "application_name"@,
        r@[2]@ == "dbt_meta"@,
{
    let mut v: Vec<String> = Vec::new();
    v.push(String::from_str("hint_comment"));
    v.push(String::from_str("application_name"));
    v.push(String::from_str("dbt_meta"));
    v
}

#[derive(Debug, Clone)]
pub struct AttributeConfig {
    pub enabled: bool,
    pub auto_query_tag: bool,
    pub dbt_metadata_parser: bool,
    pub sources: Vec<String>,
}

impl Default for AttributeConfig {
    fn default() -> (r: Self)
        ensures
            !r.enabled && r.auto_query_tag && r.dbt_metadata_parser,
            r.sources@.len() == 3,
            r.sources@[0]@ == "hint_comment"@,
            r.sources@[1]@ == "application_name"@,
            r.sources@[2]@ == "dbt_meta"@,
    {
        AttributeConfig {
            enabled: false,
            auto_query_tag: true,
            dbt_metadata_parser: true,
            sources: default_attr_sources(),
        }
    }
}

pub fn default_prom_port() -> (r: u16)
    ensures
        r == 9090,
{
    9090
}

#[derive(Debug, Clone, Copy)]
pub struct PrometheusConfig {
    pub enabled: bool,
    pub port: u16,
}

impl Default for PrometheusConfig {
    fn default() -> (r: Self)
        ensures
            r.enabled && r.port == 9090,
    {
        PrometheusConfig { enabled: true, port: default_prom_port() }
    }
}

/// Every plugin's settings.
#[derive(Debug, Clone)]
pub struct PluginsConfig {
    pub cache: CacheConfig,
    pub router: RouterConfig,
    pub rewrite: RewriteConfig,
    pub bandit: BanditConfig,
    pub suspend: SuspendConfig,
    pub attribute: AttributeConfig,
}

impl Default for PluginsConfig {
    /// Every plugin off, with its own defaults.
    fn default() -> (r: Self)
        ensures
            !r.cache.enabled && !r.router.enabled && !r.rewrite.enabled && !r.bandit.enabled
                && !r.suspend.enabled && !r.attribute.enabled,
    {
        PluginsConfig {
            cache: CacheConfig::default(),
            router: RouterConfig::default(),
            rewrite: RewriteConfig::default(),
            bandit: BanditConfig { enabled: false },
            suspend: SuspendConfig::default(),
            attribute: AttributeConfig::default(),
        }
    }
}

/// The settings `validate` checks. (The cache's blame-mode sample rate is
/// a fraction; the caller passes whether it lies in [0,1] and how it reads.)
#[derive(Debug, Clone)]
pub struct CheckedSettings {
    pub tls: Option<TlsConfig>,
    pub cache_enabled: bool,
    pub suspend: SuspendConfig,
    pub service_account: ServiceAccountConfig,
    pub storage_backend: StorageBackend,
    pub storage_bucket_set: bool,
}

/// The first problem `validate` reports, by its message; `None` when the
/// settings are consistent. `rate_out_of_range` is `Some(shown)` when the
/// blame-mode sample rate lies outside [0,1], `shown` being how it prints.
pub open spec fn settings_problem(s: CheckedSettings, rate_out_of_range: Option<Seq<char>>) -> Option<
    Seq<char>,
> {
    if s.tls matches Some(t) && (t.cert@.len() == 0 || t.key@.len() == 0) {
        Some("listen.tls.cert and listen.tls.key must be non-empty"@)
    } else if s.cache_enabled && rate_out_of_range is Some {
        Some("plugins.cache.blame_sample_rate must be in [0,1], got "@ + rate_out_of_range->0)
    } else if s.suspend.enabled && s.suspend.mode == SuspendMode::Enforce && s.suspend.role is None {
        Some("plugins.suspend.mode=enforce requires plugins.suspend.role"@)
    } else if s.suspend.enabled && s.suspend.mode == SuspendMode::Enforce && !(
    s.service_account.user is Some && s.service_account.password is Some) {
        Some("plugins.suspend.mode=enforce requires service_account.user/password"@)
    } else if s.storage_backend != StorageBackend::Filesystem && !s.storage_bucket_set {
        Some("storage.backend="@ + backend_name(s.storage_backend) + " requires storage.bucket"@)
    } else {
        None
    }
}

/// Cross-field validation beyond what the file's schema can express.
pub fn validate(s: &CheckedSettings, rate_out_of_range: Option<&str>) -> (r: Result<()>)
    ensures
        match settings_problem(
            *s,
            match rate_out_of_range {
                Some(t) => Some(t@),
                None => None,
            },
        ) {
            None => r is Ok,
            Some(m) => r matches Err(Error::Config(e)) && e@ == m,
        },
{
    if let Some(t) = &s.tls {
        if t.cert.as_str().is_empty() || t.key.as_str().is_empty() {
            return Err(Error::Config(String::from_str("listen.tls.cert and listen.tls.key must be non-empty")));
        }
    }
    if s.cache_enabled {
        if let Some(shown) = rate_out_of_range {
            let mut m = String::from_str("plugins.cache.blame_sample_rate must be in [0,1], got ");
            m.append(shown);
            return Err(Error::Config(m));
        }
    }
    if s.suspend.enabled && s.suspend.mode == SuspendMode::Enforce {
        if s.suspend.role.is_none() {
            return Err(Error::Config(String::from_str("plugins.suspend.mode=enforce requires plugins.suspend.role")));
        }
        if !s.service_account.is_configured() {
            return Err(Error::Config(String::from_str("plugins.suspend.mode=enforce requires service_account.user/password")));
        }
    }
    match s.storage_backend {
        StorageBackend::Filesystem => {},
        _ => {
            if !s.storage_bucket_set {
                let mut m = String::from_str("storage.backend=");
                let name = backend_name_exec(s.storage_backend);
                m.append(name.as_str());
                m.append(" requires storage.bucket");
                return Err(Error::Config(m));
            }
        },
    }
    Ok(())
}

/// Bytes in the UTF-8 encoding of `c`.
pub open spec fn char_width(c: char) -> int {
    let u = c as u32;
    if u < 0x80 {
        1
    } else if u < 0x800 {
        2
    } else if u < 0x10000 {
        3
    } else {
        4
    }
}

fn char_width_exec(c: char) -> (r: usize)
    ensures
        r == char_width(c),
{
    let u = c as u32;
    if u < 0x80 {
        1
    } else if u < 0x800 {
        2
    } else if u < 0x10000 {
        3
    } else {
        4
    }
}

/// Where a cut `n` bytes after character `j` falls, as a character index
/// (the end of `s` if it comes first); `None` when it falls inside a
/// character, where slicing the text there would panic.
pub open spec fn byte_cut(s: Seq<char>, j: int, n: int) -> Option<int>
    decreases s.len() - j,
{
    if n <= 0 || j < 0 || j >= s.len() {
        Some(j)
    } else if char_width(s[j]) <= n {
        byte_cut(s, j + 1, n - char_width(s[j]))
    } else {
        None
    }
}

/// An environment variable name: ASCII letters, digits and `_`.
pub open spec fn is_name_char(c: char) -> bool {
    ('0' <= c && c <= '9') || ('a' <= c && c <= 'z') || ('A' <= c && c <= 'Z') || c == '_'
}

pub open spec fn is_var_name(v: Seq<char>) -> bool {
    v.len() > 0 && forall|i: int| 0 <= i < v.len() ==> is_name_char(#[trigger] v[i])
}

/// The value of variable `k` in an environment snapshot (first match).
pub open spec fn env_lookup(env: Seq<(Seq<char>, Seq<char>)>, k: Seq<char>) -> Option<Seq<char>>
    decreases env.len(),
{
    if env.len() == 0 {
        None
    } else if env[0].0 == k {
        Some(env[0].1)
    } else {
        env_lookup(env.drop_first(), k)
    }
}

pub open spec fn env_view(env: Seq<(String, String)>) -> Seq<(Seq<char>, Seq<char>)> {
    env.map_values(|p: (String, String)| (p.0@, p.1@))
}

pub open spec fn unterminated_message(near: Seq<char>) -> Seq<char> {
    "unterminated ${...} expression near: "@ + near
}

pub open spec fn bad_name_message(var: Seq<char>) -> Seq<char> {
    "invalid env var name in interpolation: '"@ + var + "'"@
}

pub open spec fn unset_message(var: Seq<char>) -> Seq<char> {
    "environment variable '"@ + var + "' is not set"@
}

/// What interpolating `s` from character `p` on gives: the text, an error
/// message, or `None` where the excerpt of an unterminated `${` would end
/// inside a character.
pub open spec fn interp_line(s: Seq<char>, p: int, env: Seq<(Seq<char>, Seq<char>)>) -> Option<
    std::result::Result<Seq<char>, Seq<char>>,
>
    decreases s.len() + 1 - p,
{
    if p < 0 || p > s.len() {
        Some(Ok(seq![]))
    } else {
        match find_from(s, "${"@, p) {
            None => Some(Ok(s.subrange(p, s.len() as int))),
            Some(st) => match find_from(s, "}"@, st + 2) {
                None => match byte_cut(s, st, 30) {
                    None => None,
                    Some(end) => Some(Err(unterminated_message(s.subrange(st, end)))),
                },
                Some(e) => {
                    proof {
                        lemma_find_from(s, "${"@, p);
                        lemma_find_from(s, "}"@, st + 2);
                    }
                    let var = s.subrange(st + 2, e);
                    if !is_var_name(var) {
                        Some(Err(bad_name_message(var)))
                    } else {
                        match env_lookup(env, var) {
                            None => Some(Err(unset_message(var))),
                            Some(v) => match interp_line(s, e + 1, env) {
                                Some(Ok(t)) => Some(Ok(s.subrange(p, st) + v + t)),
                                other => other,
                            },
                        }
                    }
                },
            },
        }
    }
}

/// `o` with `prefix` put in front of its text.
pub open spec fn glue(prefix: Seq<char>, o: Option<std::result::Result<Seq<char>, Seq<char>>>) -> Option<
    std::result::Result<Seq<char>, Seq<char>>,
> {
    match o {
        Some(Ok(t)) => Some(Ok(prefix + t)),
        other => other,
    }
}

/// A full-line comment: its first non-blank character is `#`.
pub open spec fn is_comment_line(l: Seq<char>) -> bool {
    skip_ws(l, 0) < l.len() && l[skip_ws(l, 0)] == '#'
}

/// Interpolating each line of `s` from character `p` on: comments are kept
/// verbatim, the lines are joined by newlines, the first error wins.
pub open spec fn interp_text(s: Seq<char>, p: int, env: Seq<(Seq<char>, Seq<char>)>) -> Option<
    std::result::Result<Seq<char>, Seq<char>>,
>
    decreases s.len() + 1 - p,
{
    if p < 0 || p > s.len() {
        Some(Ok(seq![]))
    } else {
        let nl = find_from(s, "\n"@, p);
        let end = match nl {
            Some(e) => e,
            None => s.len() as int,
        };
        proof {
            lemma_find_from(s, "\n"@, p);
        }
        let line = s.subrange(p, end);
        let first = if is_comment_line(line) {
            Some(Ok(line))
        } else {
            interp_line(line, 0, env)
        };
        match first {
            Some(Ok(t)) => match nl {
                None => Some(Ok(t)),
                Some(e) => glue(t + "\n"@, interp_text(s, e + 1, env)),
            },
            other => other,
        }
    }
}

fn marker(s: &str) -> (r: Vec<char>)
    ensures
        r@ == s@,
{
    literal_chars(s)
}

fn lookup(env: &[(String, String)], var: &str) -> (r: Option<String>)
    ensures
        match env_lookup(env_view(env@), var@) {
            Some(v) => r matches Some(x) && x@ == v,
            None => r is None,
        },
{
    let ghost all = env_view(env@);
    assert(all.subrange(0, all.len() as int) =~= all);
    let mut i: usize = 0;
    while i < env.len()
        invariant
            i <= env.len(),
            all == env_view(env@),
            env_lookup(all, var@) == env_lookup(all.subrange(i as int, all.len() as int), var@),
        decreases env.len() - i,
    {
        let ghost rest = all.subrange(i as int, all.len() as int);
        assert(rest.drop_first() =~= all.subrange(i + 1, all.len() as int));
        assert(rest[0] == (env@[i as int].0@, env@[i as int].1@));
        if str_eq(env[i].0.as_str(), var) {
            return Some(env[i].1.clone());
        }
        i = i + 1;
    }
    assert(all.subrange(i as int, all.len() as int).len() == 0);
    None
}

fn is_var_name_exec(v: &Vec<char>) -> (r: bool)
    ensures
        r == is_var_name(v@),
{
    if v.len() == 0 {
        return false;
    }
    let mut i: usize = 0;
    while i < v.len()
        invariant
            i <= v.len(),
            forall|j: int| 0 <= j < i ==> is_name_char(#[trigger] v@[j]),
        decreases v.len() - i,
    {
        let c = v[i];
        if !(('0' <= c && c <= '9') || ('a' <= c && c <= 'z') || ('A' <= c && c <= 'Z') || c == '_') {
            return false;
        }
        i = i + 1;
    }
    true
}

fn message2(prefix: &str, mid: &Vec<char>) -> (r: String)
    ensures
        r@ == prefix@ + mid@,
{
    let a = concat_chars(&marker(prefix), mid);
    from_chars(a.as_slice())
}

fn message(prefix: &str, mid: &Vec<char>, suffix: &str) -> (r: String)
    ensures
        r@ == prefix@ + mid@ + suffix@,
{
    let a = concat_chars(&marker(prefix), mid);
    let b = concat_chars(&a, &marker(suffix));
    from_chars(b.as_slice())
}

/// Replace `${VAR}` in one line with the value of `VAR` in `env`. Unset
/// variables are an error: silent empty strings hide misconfiguration.
pub fn interpolate_line(raw: &str, env: &[(String, String)]) -> (r: Option<Result<String>>)
    ensures
        match interp_line(raw@, 0, env_view(env@)) {
            Some(Ok(t)) => r matches Some(Ok(o)) && o@ == t,
            Some(Err(m)) => r matches Some(Err(Error::Config(e))) && e@ == m,
            None => r is None,
        },
{
    let s = to_chars(raw);
    let open = marker("${");
    let close = marker("}");
    let ghost ev = env_view(env@);
    let mut out: Vec<char> = Vec::new();
    let mut p: usize = 0;
    loop
        invariant
            p <= s.len(),
            s@ == raw@,
            open@ == "${"@,
            close@ == "}"@,
            ev == env_view(env@),
            interp_line(s@, 0, ev) == glue(out@, interp_line(s@, p as int, ev)),
        decreases s.len() - p,
    {
        proof {
            lemma_find_from(s@, "${"@, p as int);
        }
        let st = match find(&s, &open, p) {
            None => {
                let tail = slice_chars(&s, p, s.len());
                let all = concat_chars(&out, &tail);
                return Some(Ok(from_chars(all.as_slice())));
            },
            Some(st) => st,
        };
        proof {
            reveal_strlit("${");
            reveal_strlit("}");
            lemma_find_from(s@, "}"@, st + 2);
        }
        let e = match find(&s, &close, st + 2) {
            None => {
                assert(interp_line(s@, p as int, ev) == match byte_cut(s@, st as int, 30) {
                    None => None,
                    Some(end) => Some(Err::<Seq<char>, Seq<char>>(unterminated_message(s@.subrange(st as int, end)))),
                });
                let mut j = st;
                let mut left: usize = 30;
                while j < s.len() && left > 0
                    invariant
                        st <= j <= s.len(),
                        left <= 30,
                        byte_cut(s@, st as int, 30) == byte_cut(s@, j as int, left as int),
                        s@ == raw@,
                        ev == env_view(env@),
                        interp_line(s@, 0, ev) == glue(out@, interp_line(s@, p as int, ev)),
                        interp_line(s@, p as int, ev) == match byte_cut(s@, st as int, 30) {
                            None => None,
                            Some(end) => Some(Err::<Seq<char>, Seq<char>>(unterminated_message(s@.subrange(st as int, end)))),
                        },
                    decreases s.len() - j,
                {
                    let w = char_width_exec(s[j]);
                    if w > left {
                        assert(byte_cut(s@, j as int, left as int) is None);
                        return None;
                    }
                    left = left - w;
                    j = j + 1;
                }
                let near = slice_chars(&s, st, j);
                return Some(Err(Error::Config(message2("unterminated ${...} expression near: ", &near))));
            },
            Some(e) => e,
        };
        let var = slice_chars(&s, st + 2, e);
        if !is_var_name_exec(&var) {
            return Some(Err(Error::Config(message("invalid env var name in interpolation: '", &var, "'"))));
        }
        let name = from_chars(var.as_slice());
        let value = match lookup(env, name.as_str()) {
            None => {
                return Some(Err(Error::Config(message("environment variable '", &var, "' is not set"))));
            },
            Some(v) => v,
        };
        let head = slice_chars(&s, p, st);
        let with_head = concat_chars(&out, &head);
        let vchars = to_chars(value.as_str());
        let ghost old_out = out@;
        assert(interp_line(s@, p as int, ev) == match interp_line(s@, e + 1, ev) {
            Some(Ok(t)) => Some(Ok(s@.subrange(p as int, st as int) + value@ + t)),
            other => other,
        });
        out = concat_chars(&with_head, &vchars);
        assert forall|t: Seq<char>| #[trigger] (out@ + t) == old_out + (s@.subrange(p as int, st as int) + value@ + t) by {
            assert(out@ + t =~= old_out + (s@.subrange(p as int, st as int) + value@ + t));
        }
        p = e + 1;
    }
}

/// Replace `${VAR}` throughout a configuration text with the values in
/// `env`. Full-line comments are left untouched, so documentation can
/// mention `${VAR}`.
pub fn interpolate_env(raw: &str, env: &[(String, String)]) -> (r: Option<Result<String>>)
    ensures
        match interp_text(raw@, 0, env_view(env@)) {
            Some(Ok(t)) => r matches Some(Ok(o)) && o@ == t,
            Some(Err(m)) => r matches Some(Err(Error::Config(e))) && e@ == m,
            None => r is None,
        },
{
    let s = to_chars(raw);
    let nl = marker("\n");
    proof {
        reveal_strlit("\n");
    }
    let ghost ev = env_view(env@);
    let mut out: Vec<char> = Vec::new();
    let mut p: usize = 0;
    loop
        invariant
            p <= s.len(),
            s@ == raw@,
            nl@ == "\n"@,
            ev == env_view(env@),
            interp_text(s@, 0, ev) == glue(out@, interp_text(s@, p as int, ev)),
        decreases s.len() - p,
    {
        proof {
            reveal_strlit("\n");
            lemma_find_from(s@, "\n"@, p as int);
        }
        let found = find(&s, &nl, p);
        let end = match found {
            Some(e) => e,
            None => s.len(),
        };
        let line = slice_chars(&s, p, end);
        let st = skip_whitespace(&line, 0);
        let ghost first = if is_comment_line(line@) {
            Some(Ok(line@))
        } else {
            interp_line(line@, 0, ev)
        };
        assert(interp_text(s@, p as int, ev) == match first {
            Some(Ok(t)) => match found {
                None => Some(Ok(t)),
                Some(e) => glue(t + "\n"@, interp_text(s@, e + 1, ev)),
            },
            other => other,
        });
        let t: Vec<char> = if st < line.len() && line[st] == '#' {
            line
        } else {
            let text = from_chars(line.as_slice());
            match interpolate_line(text.as_str(), env) {
                Some(Ok(o)) => to_chars(o.as_str()),
                Some(Err(e)) => {
                    return Some(Err(e));
                },
                None => {
                    return None;
                },
            }
        };
        assert(first == Some(Ok::<Seq<char>, Seq<char>>(t@)));
        match found {
            None => {
                let all = concat_chars(&out, &t);
                return Some(Ok(from_chars(all.as_slice())));
            },
            Some(e) => {
                let with_line = concat_chars(&out, &t);
                let ghost old_out = out@;
                out = concat_chars(&with_line, &nl);
                assert forall|r: Seq<char>| #[trigger] (out@ + r) == old_out + (t@ + "\n"@ + r) by {
                    assert(out@ + r =~= old_out + (t@ + "\n"@ + r));
                }
                p = e + 1;
            },
        }
    }
}

} // verus!
