//! The semantic result cache.
//!
//! Hard-fingerprint exact-match cache with per-table-family TTLs, a strict
//! determinism gate, and lineage-aware invalidation by table.
//!
//! Correctness creed: **false-negative friendly, false-positive
//! intolerant.** When in doubt, miss.
use crate::cache::index::{EntryIndex, Stamped, evicted_oldest_first};
use crate::circuit_breaker::unix_now_ms;
use crate::config::CacheConfig;
use crate::plugin::{CacheKey, Decision, QueryContext, ResultSnapshot};
use crate::sql::parse::{StatementKind, kind_is_read_only};
use crate::sql::QueryAnalysis;
use crate::text::{str_eq, string_views, to_chars, to_uppercase, unicode_uppercase};
use vstd::prelude::*;

pub mod disk;
pub mod index;

verus! {

/// `serde_json::Value::clone`: the derived clone, an identical value.
#[verifier::external_body]
fn clone_json(v: &serde_json::Value) -> (r: serde_json::Value)
    ensures
        r == *v,
{
    v.clone()
}

/// The strings of `v`, copied.
pub fn clone_strings(v: &Vec<String>) -> (r: Vec<String>)
    ensures
        string_views(r@) == string_views(v@),
{
    let mut out: Vec<String> = Vec::new();
    let mut i: usize = 0;
    while i < v.len()
        invariant
            i <= v.len(),
            string_views(out@) == string_views(v@).take(i as int),
        decreases v.len() - i,
    {
        let c = v[i].clone();
        assert(c@ == v@[i as int]@);
        let ghost before = out@;
        out.push(c);
        assert(out@ == before.push(c));
        assert(string_views(out@) =~= string_views(before).push(c@));
        assert(string_views(v@).take(i + 1) =~= string_views(v@).take(i as int).push(v@[i as int]@));
        assert(string_views(out@) =~= string_views(v@).take(i + 1));
        i = i + 1;
    }
    assert(string_views(v@).take(v.len() as int) =~= string_views(v@));
    out
}

#[derive(Debug)]
pub struct CacheEntry {
    pub data: serde_json::Value,
    pub tables: Vec<String>,
    pub inserted_unix_ms: u64,
    pub ttl_secs: u64,
    /// Wall clock of the canonical upstream execution: every hit "avoids"
    /// this much warehouse time, which is what the savings ledger prices.
    pub canonical_wall_clock_ms: u64,
}

/// A TTL in milliseconds, as `Duration::as_millis` truncated to `u64`.
pub open spec fn ttl_millis(secs: u64) -> u64 {
    ((secs as nat * 1000) % 0x1_0000_0000_0000_0000) as u64
}

/// An entry inserted at `inserted` with a TTL of `ttl_secs` has expired at
/// `now_ms` (its age saturates at zero for clocks that went backwards).
pub open spec fn is_expired(inserted: u64, ttl_secs: u64, now_ms: u64) -> bool {
    (if now_ms >= inserted {
        now_ms - inserted
    } else {
        0
    }) > ttl_millis(ttl_secs)
}

/// Two entries carry the same payload, tables and timings.
pub open spec fn same_entry(a: CacheEntry, b: CacheEntry) -> bool {
    &&& a.data == b.data
    &&& string_views(a.tables@) == string_views(b.tables@)
    &&& a.inserted_unix_ms == b.inserted_unix_ms
    &&& a.ttl_secs == b.ttl_secs
    &&& a.canonical_wall_clock_ms == b.canonical_wall_clock_ms
}

impl CacheEntry {
    pub open spec fn spec_expired(&self, now_ms: u64) -> bool {
        is_expired(self.inserted_unix_ms, self.ttl_secs, now_ms)
    }

    pub fn expired(&self, now_ms: u64) -> (r: bool)
        ensures
            r == self.spec_expired(now_ms),
    {
        now_ms.saturating_sub(self.inserted_unix_ms) > self.ttl_secs.wrapping_mul(1000)
    }
}

impl Clone for CacheEntry {
    fn clone(&self) -> (r: Self)
        ensures
            same_entry(r, *self),
    {
        CacheEntry {
            data: clone_json(&self.data),
            tables: clone_strings(&self.tables),
            inserted_unix_ms: self.inserted_unix_ms,
            ttl_secs: self.ttl_secs,
            canonical_wall_clock_ms: self.canonical_wall_clock_ms,
        }
    }
}

/// `tables` holds `table`.
pub fn names_contain(tables: &Vec<String>, table: &str) -> (r: bool)
    ensures
        r == string_views(tables@).contains(table@),
{
    let mut i: usize = 0;
    while i < tables.len()
        invariant
            i <= tables.len(),
            forall|j: int| 0 <= j < i ==> string_views(tables@)[j] != table@,
        decreases tables.len() - i,
    {
        if str_eq(tables[i].as_str(), table) {
            assert(string_views(tables@)[i as int] == table@);
            return true;
        }
        i = i + 1;
    }
    false
}

impl Stamped for CacheEntry {
    open spec fn stamp(&self) -> u64 {
        self.inserted_unix_ms
    }

    open spec fn reads(&self, table: Seq<char>) -> bool {
        string_views(self.tables@).contains(table)
    }

    fn stamp_ms(&self) -> (r: u64) {
        self.inserted_unix_ms
    }

    fn reads_table(&self, table: &str) -> (r: bool) {
        names_contain(&self.tables, table)
    }
}

/// How many entries a store of capacity `max` keeps after an eviction:
/// the oldest ~10 % go.
pub open spec fn eviction_target(max: usize) -> nat {
    (max - max / 10) as nat
}

/// `after` is `before` with `key → e` stored, then trimmed oldest-first to
/// the eviction target when that took it past `max` entries.
pub open spec fn stored_then_trimmed<E: Stamped>(
    before: Map<Seq<u8>, E>,
    max: usize,
    key: Seq<u8>,
    e: E,
    after: Map<Seq<u8>, E>,
) -> bool {
    let ins = before.insert(key, e);
    &&& ins.dom().len() <= max ==> after == ins
    &&& ins.dom().len() > max ==> evicted_oldest_first(ins, after, eviction_target(max))
}

/// The in-memory store: at most `max_entries` entries, oldest evicted first.
#[derive(Debug)]
pub struct MemoryStore {
    entries: EntryIndex<CacheEntry>,
    max_entries: usize,
}

impl MemoryStore {
    pub closed spec fn capacity(&self) -> usize {
        self.max_entries
    }

    #[verifier::type_invariant]
    closed spec fn wf(&self) -> bool {
        &&& self.max_entries >= 1
        &&& self.entries@.dom().finite()
        &&& self.entries@.dom().len() <= self.max_entries
    }
}

impl View for MemoryStore {
    type V = Map<Seq<u8>, CacheEntry>;

    closed spec fn view(&self) -> Map<Seq<u8>, CacheEntry> {
        self.entries@
    }
}

impl Default for MemoryStore {
    /// An empty store holding up to 10 000 entries.
    fn default() -> (r: Self)
        ensures
            r@ == Map::<Seq<u8>, CacheEntry>::empty(),
            r.capacity() == 10_000,
    {
        Self::with_capacity(10_000)
    }
}

impl MemoryStore {
    /// An empty store holding up to `max_entries` entries (at least one).
    pub fn with_capacity(max_entries: usize) -> (r: Self)
        ensures
            r@ == Map::<Seq<u8>, CacheEntry>::empty(),
            r.capacity() == if max_entries < 1 {
                1
            } else {
                max_entries
            },
    {
        let entries = EntryIndex::new();
        assert(entries@.dom() =~= Set::<Seq<u8>>::empty());
        MemoryStore { entries, max_entries: if max_entries < 1 {
            1
        } else {
            max_entries
        } }
    }

    /// The entry under `key`, unless it has expired at `now_ms`.
    pub fn get(&self, key: &[u8; 32], now_ms: u64) -> (r: Option<CacheEntry>)
        ensures
            match r {
                Some(e) => self@.contains_key(key@) && !self@[key@].spec_expired(now_ms)
                    && same_entry(e, self@[key@]),
                None => !self@.contains_key(key@) || self@[key@].spec_expired(now_ms),
            },
    {
        match self.entries.get(key) {
            Some(e) => {
                if e.expired(now_ms) {
                    None
                } else {
                    Some(e.clone())
                }
            },
            None => None,
        }
    }

    /// Store `entry` under `key`; past capacity, evict the oldest ~10 %.
    pub fn put(&mut self, key: [u8; 32], entry: CacheEntry)
        ensures
            final(self).capacity() == old(self).capacity(),
            stored_then_trimmed(old(self)@, old(self).capacity(), key@, entry, final(self)@),
    {
        proof {
            use_type_invariant(&*self);
        }
        let ghost before = self.entries@;
        let ghost e = entry;
        let mut entries = EntryIndex::new();
        std::mem::swap(&mut entries, &mut self.entries);
        entries.insert(key, entry);
        let n = entries.len();
        if n > self.max_entries {
            let target = self.max_entries - self.max_entries / 10;
            let _evicted = entries.evict_oldest(target);
        }
        let m = entries.len();
        assert(m <= self.max_entries);
        self.entries = entries;
    }

    /// Drop the entry under `key` (a blame-mode mismatch: the entry is
    /// wrong, kill it).
    pub fn remove(&mut self, key: &[u8; 32])
        ensures
            final(self).capacity() == old(self).capacity(),
            final(self)@ == old(self)@.remove(key@),
    {
        proof {
            use_type_invariant(&*self);
        }
        let mut entries = EntryIndex::new();
        std::mem::swap(&mut entries, &mut self.entries);
        let ghost before = entries@;
        entries.remove(key);
        proof {
            if before.contains_key(key@) {
                assert(entries@.dom() =~= before.dom().remove(key@));
            } else {
                assert(entries@.dom() =~= before.dom());
            }
        }
        let _m = entries.len();
        assert(entries@.dom().len() <= before.dom().len());
        self.entries = entries;
    }

    /// Drop every entry that read `table` (compared upper-cased); returns
    /// how many went.
    pub fn invalidate_table(&mut self, table: &str) -> (r: usize)
        ensures
            final(self).capacity() == old(self).capacity(),
            final(self)@ == old(self)@.remove_keys(
                Set::new(
                    |k: Seq<u8>|
                        old(self)@.contains_key(k) && old(self)@[k].reads(unicode_uppercase(table@)),
                ),
            ),
            r == old(self)@.dom().len() - final(self)@.dom().len(),
    {
        proof {
            use_type_invariant(&*self);
        }
        let upper = to_uppercase(table);
        let mut entries = EntryIndex::new();
        std::mem::swap(&mut entries, &mut self.entries);
        let dropped = entries.remove_reading(upper.as_str());
        let n = dropped.len();
        let _m = entries.len();
        self.entries = entries;
        n
    }

    /// How many entries are held; never more than the capacity.
    pub fn len(&self) -> (r: usize)
        ensures
            r == self@.dom().len(),
            r <= self.capacity(),
    {
        proof {
            use_type_invariant(self);
        }
        self.entries.len()
    }

    pub fn is_empty(&self) -> (r: bool)
        ensures
            r == (self@.dom().len() == 0),
    {
        self.len() == 0
    }
}

/// What is stored can be read back: after storing `e` under `key`, the key
/// holds `e` unless the eviction the insertion set off took it, and below
/// capacity nothing is evicted.
pub proof fn law_stored_entry_reads_back<E: Stamped>(
    before: Map<Seq<u8>, E>,
    max: usize,
    key: Seq<u8>,
    e: E,
    after: Map<Seq<u8>, E>,
)
    requires
        stored_then_trimmed(before, max, key, e, after),
    ensures
        after.contains_key(key) ==> after[key] == e,
        before.insert(key, e).dom().len() <= max ==> after.contains_key(key),
{
}

/// Eviction keeps the newest: an entry stored later than every entry
/// already held survives the trim it sets off.
pub proof fn law_newest_entry_survives_eviction<E: Stamped>(
    before: Map<Seq<u8>, E>,
    max: usize,
    key: Seq<u8>,
    e: E,
    after: Map<Seq<u8>, E>,
)
    requires
        stored_then_trimmed(before, max, key, e, after),
        before.dom().finite(),
        max >= 1,
        forall|k: Seq<u8>| #[trigger] before.contains_key(k) && k != key ==> before[k].stamp() < e.stamp(),
    ensures
        after.contains_key(key),
        after[key] == e,
{
    let ins = before.insert(key, e);
    assert(ins.dom() =~= before.dom().insert(key));
    if ins.dom().len() > max {
        assert(after.dom().subset_of(ins.dom()));
        vstd::set_lib::lemma_len_subset(after.dom(), ins.dom());
        if !after.contains_key(key) {
            assert(after.dom().len() >= 1);
            let kept = after.dom().choose();
            assert(after.dom().contains(kept));
            assert(ins[key].stamp() <= after[kept].stamp());
            assert(kept != key);
            assert(before.contains_key(kept));
        }
    }
}

/// A table-family pattern matches a table name, both upper-cased: a
/// trailing `*` matches any suffix, anything else matches exactly.
pub open spec fn glob(pattern: Seq<char>, value: Seq<char>) -> bool {
    let p = unicode_uppercase(pattern);
    let v = unicode_uppercase(value);
    if p.len() > 0 && p.last() == '*' {
        p.len() - 1 <= v.len() && v.subrange(0, p.len() - 1) == p.drop_last()
    } else {
        v == p
    }
}

/// `ANALYTICS.MARTS.*` style matching: a trailing `*` matches any suffix;
/// otherwise an exact, case-insensitive match.
pub fn glob_match(pattern: &str, value: &str) -> (r: bool)
    ensures
        r == glob(pattern@, value@),
{
    let p = to_chars(to_uppercase(pattern).as_str());
    let v = to_chars(to_uppercase(value).as_str());
    if p.len() > 0 && p[p.len() - 1] == '*' {
        let n = p.len() - 1;
        if n > v.len() {
            return false;
        }
        let mut i: usize = 0;
        while i < n
            invariant
                p@ == unicode_uppercase(pattern@),
                v@ == unicode_uppercase(value@),
                p@.len() > 0 && p@.last() == '*',
                n == p.len() - 1,
                n <= v.len(),
                i <= n,
                forall|j: int| 0 <= j < i ==> v@[j] == p@[j],
            decreases n - i,
        {
            if v[i] != p[i] {
                assert(v@.subrange(0, n as int)[i as int] != p@.drop_last()[i as int]);
                return false;
            }
            i = i + 1;
        }
        assert(v@.subrange(0, n as int) =~= p@.drop_last());
        true
    } else {
        if p.len() != v.len() {
            assert(v@ != p@ ==> true);
            return false;
        }
        let mut i: usize = 0;
        while i < p.len()
            invariant
                p@ == unicode_uppercase(pattern@),
                v@ == unicode_uppercase(value@),
                !(p@.len() > 0 && p@.last() == '*'),
                p.len() == v.len(),
                i <= p.len(),
                forall|j: int| 0 <= j < i ==> v@[j] == p@[j],
            decreases p.len() - i,
        {
            if v[i] != p[i] {
                return false;
            }
            i = i + 1;
        }
        assert(v@ =~= p@);
        true
    }
}

/// `r` is the smallest of `default` and every TTL whose pattern matches
/// one of `tables`.
pub open spec fn is_min_ttl(
    r: u64,
    default: u64,
    tables: Seq<Seq<char>>,
    ttls: Seq<(Seq<char>, u64)>,
) -> bool {
    &&& r <= default
    &&& forall|i: int, j: int|
        0 <= i < ttls.len() && 0 <= j < tables.len() && #[trigger] glob(ttls[i].0, tables[j])
            ==> r <= ttls[i].1
    &&& (r == default || exists|i: int, j: int|
        0 <= i < ttls.len() && 0 <= j < tables.len() && #[trigger] glob(ttls[i].0, tables[j])
            && r == ttls[i].1)
}

pub open spec fn ttl_views(v: Seq<(String, u64)>) -> Seq<(Seq<char>, u64)> {
    v.map_values(|p: (String, u64)| (p.0@, p.1))
}

/// Whether a query may be cached: a deterministic read of at least one table.
pub open spec fn spec_cacheable(kind: StatementKind, deterministic: bool, n_tables: nat) -> bool {
    kind_is_read_only(kind) && deterministic && n_tables > 0
}

pub struct CachePlugin {
    config: CacheConfig,
    store: MemoryStore,
}

impl CachePlugin {
    pub closed spec fn spec_config(&self) -> CacheConfig {
        self.config
    }

    pub closed spec fn spec_store(&self) -> MemoryStore {
        self.store
    }

    /// A plugin over an empty in-memory store sized by `config.max_entries`.
    pub fn new(config: CacheConfig) -> (r: Self)
        ensures
            r.spec_config() == config,
            r.spec_store()@ == Map::<Seq<u8>, CacheEntry>::empty(),
            r.spec_store().capacity() == if config.max_entries < 1 {
                1
            } else {
                config.max_entries
            },
    {
        let store = MemoryStore::with_capacity(config.max_entries);
        CachePlugin { config, store }
    }

    pub fn name(&self) -> (r: &'static str)
        ensures
            r@ == "cache"@,
    {
        "cache"
    }

    pub fn order(&self) -> (r: i32)
        ensures
            r == 10,
            Some(r) == crate::plugin::registry::plugin_order_of("cache"@),
    {
        proof {
            crate::plugin::registry::lemma_plugin_orders();
        }
        10
    }

    /// TTL for a query, in seconds: the *minimum* across the table
    /// families it touches; the most volatile table bounds the answer's
    /// freshness.
    pub fn ttl_for(&self, tables: &[String]) -> (r: u64)
        ensures
            is_min_ttl(
                r,
                self.spec_config().default_ttl_secs,
                string_views(tables@),
                ttl_views(self.spec_config().table_ttls@),
            ),
    {
        let ghost ts = string_views(tables@);
        let ghost tt = ttl_views(self.config.table_ttls@);
        let default = self.config.default_ttl_secs;
        let mut ttl = default;
        let mut j: usize = 0;
        while j < tables.len()
            invariant
                j <= tables.len(),
                ts == string_views(tables@),
                tt == ttl_views(self.config.table_ttls@),
                default == self.config.default_ttl_secs,
                is_min_ttl(ttl, default, ts.take(j as int), tt),
            decreases tables.len() - j,
        {
            let ghost before = ttl;
            let mut i: usize = 0;
            while i < self.config.table_ttls.len()
                invariant
                    i <= self.config.table_ttls.len(),
                    j < tables.len(),
                    ts == string_views(tables@),
                    tt == ttl_views(self.config.table_ttls@),
                    ttl <= before,
                    is_min_ttl(before, default, ts.take(j as int), tt),
                    forall|a: int| 0 <= a < i && #[trigger] glob(tt[a].0, ts[j as int]) ==> ttl <= tt[a].1,
                    ttl == before || exists|a: int|
                        0 <= a < i && #[trigger] glob(tt[a].0, ts[j as int]) && ttl == tt[a].1,
                decreases self.config.table_ttls.len() - i,
            {
                let (pattern, secs) = (&self.config.table_ttls[i].0, self.config.table_ttls[i].1);
                assert(tt[i as int] == (pattern@, secs));
                assert(ts[j as int] == tables@[j as int]@);
                let ghost prev = ttl;
                if glob_match(pattern.as_str(), tables[j].as_str()) {
                    if secs < ttl {
                        ttl = secs;
                        assert(glob(tt[i as int].0, ts[j as int]) && ttl == tt[i as int].1);
                    }
                }
                assert(ttl == before || exists|a: int|
                    0 <= a < i + 1 && #[trigger] glob(tt[a].0, ts[j as int]) && ttl == tt[a].1) by {
                    if ttl != before {
                        if ttl == prev {
                            let a = choose|a: int|
                                0 <= a < i && #[trigger] glob(tt[a].0, ts[j as int]) && prev == tt[a].1;
                            assert(glob(tt[a].0, ts[j as int]) && ttl == tt[a].1);
                        } else {
                            assert(glob(tt[i as int].0, ts[j as int]) && ttl == tt[i as int].1);
                        }
                    }
                }
                i = i + 1;
            }
            proof {
                let tj = ts.take(j + 1);
                assert forall|a: int, b: int|
                    0 <= a < tt.len() && 0 <= b < tj.len() && #[trigger] glob(tt[a].0, tj[b]) implies ttl
                    <= tt[a].1 by {
                    if b < j {
                        assert(tj[b] == ts.take(j as int)[b]);
                    } else {
                        assert(tj[b] == ts[j as int]);
                    }
                }
                if ttl != default {
                    if ttl == before {
                        let (a, b) = choose|a: int, b: int|
                            0 <= a < tt.len() && 0 <= b < ts.take(j as int).len() && #[trigger] glob(
                                tt[a].0,
                                ts.take(j as int)[b],
                            ) && before == tt[a].1;
                        assert(tj[b] == ts.take(j as int)[b]);
                        assert(glob(tt[a].0, tj[b]));
                    } else {
                        let a = choose|a: int|
                            0 <= a < tt.len() && #[trigger] glob(tt[a].0, ts[j as int]) && ttl == tt[a].1;
                        assert(tj[j as int] == ts[j as int]);
                        assert(glob(tt[a].0, tj[j as int]));
                    }
                }
            }
            j = j + 1;
        }
        assert(ts.take(tables.len() as int) =~= ts);
        ttl
    }

    /// Deterministic reads of at least one table; never writes, never
    /// anything that touches a clock or a random source.
    pub fn cacheable(&self, ctx: &QueryContext<'_>) -> (r: bool)
        ensures
            r == spec_cacheable(
                ctx.analysis.kind,
                ctx.analysis.features.deterministic,
                ctx.analysis.features.tables@.len(),
            ),
    {
        let read_only = match &ctx.analysis.kind {
            StatementKind::Query => true,
            _ => false,
        };
        read_only && ctx.analysis.features.deterministic && ctx.analysis.features.tables.len() > 0
    }

    /// The cache serves a query only while its entry is live: whenever the
    /// decision at `now_ms` serves from cache, the query is a cacheable
    /// read, an entry holds its hard fingerprint, and that entry is at most
    /// its TTL old at `now_ms` (age counted from its insertion, zero before
    /// it); an entry older than its TTL is never served, at `now_ms` or
    /// any later time.
    pub proof fn law_served_only_while_live(&self, a: QueryAnalysis, now_ms: u64, later: u64)
        ensures
            self.decision_at(a, now_ms) != Decision::Passthrough ==> {
                let e = self.spec_store()@[a.hard_fingerprint@];
                &&& self.decision_at(a, now_ms) == Decision::ServeFromCache(
                    CacheKey { hard_fingerprint: a.hard_fingerprint },
                )
                &&& spec_cacheable(a.kind, a.features.deterministic, a.features.tables@.len())
                &&& self.spec_store()@.contains_key(a.hard_fingerprint@)
                &&& (if now_ms >= e.inserted_unix_ms {
                    now_ms - e.inserted_unix_ms
                } else {
                    0
                }) <= e.ttl_secs * 1000
            },
            ({
                let fp = a.hard_fingerprint@;
                self.spec_store()@.contains_key(fp) && now_ms >= self.spec_store()@[fp].inserted_unix_ms
                    && now_ms - self.spec_store()@[fp].inserted_unix_ms > self.spec_store()@[fp].ttl_secs * 1000
                    && later >= now_ms ==> self.decision_at(a, later) == Decision::Passthrough
            }),
    {
    }

    /// `r` is what a lookup of `key` at `now_ms` gives: the live entry, or
    /// nothing where there is none or it has expired.
    pub open spec fn looked_up_at(&self, key: Seq<u8>, now_ms: u64, r: Option<CacheEntry>) -> bool {
        match r {
            Some(e) => self.spec_store()@.contains_key(key) && !self.spec_store()@[key].spec_expired(
                now_ms,
            ) && same_entry(e, self.spec_store()@[key]),
            None => !self.spec_store()@.contains_key(key) || self.spec_store()@[key].spec_expired(
                now_ms,
            ),
        }
    }

    /// The decision for a query with this analysis at `now_ms`: serve from
    /// cache when it is cacheable and a live entry holds its hard
    /// fingerprint, else pass through.
    pub open spec fn decision_at(&self, a: QueryAnalysis, now_ms: u64) -> Decision {
        let fp = a.hard_fingerprint;
        if spec_cacheable(a.kind, a.features.deterministic, a.features.tables@.len())
            && self.spec_store()@.contains_key(fp@) && !self.spec_store()@[fp@].spec_expired(now_ms) {
            Decision::ServeFromCache(CacheKey { hard_fingerprint: fp })
        } else {
            Decision::Passthrough
        }
    }

    /// `after` is `before` once a result with this analysis has been
    /// recorded at `now_ms`: unchanged where the result came from the cache,
    /// carries no payload or the query is not cacheable; else the payload
    /// stored under the hard fingerprint with the tables' minimum TTL,
    /// stamped `now_ms`, and the store trimmed to its capacity.
    pub open spec fn recorded_at(
        before: CachePlugin,
        a: QueryAnalysis,
        result: ResultSnapshot,
        now_ms: u64,
        after: CachePlugin,
    ) -> bool {
        &&& after.spec_config() == before.spec_config()
        &&& after.spec_store().capacity() == before.spec_store().capacity()
        &&& (result.served_from_cache || result.data is None || !spec_cacheable(
            a.kind,
            a.features.deterministic,
            a.features.tables@.len(),
        ) ==> after.spec_store()@ == before.spec_store()@)
        &&& (!(result.served_from_cache || result.data is None || !spec_cacheable(
            a.kind,
            a.features.deterministic,
            a.features.tables@.len(),
        )) ==> exists|e: CacheEntry|
            {
                &&& e.data == result.data->0
                &&& string_views(e.tables@) == string_views(a.features.tables@)
                &&& e.inserted_unix_ms == now_ms
                &&& is_min_ttl(
                    e.ttl_secs,
                    before.spec_config().default_ttl_secs,
                    string_views(a.features.tables@),
                    ttl_views(before.spec_config().table_ttls@),
                )
                &&& e.canonical_wall_clock_ms == result.wall_clock_ms
                &&& stored_then_trimmed(
                    before.spec_store()@,
                    before.spec_store().capacity(),
                    a.hard_fingerprint@,
                    e,
                    after.spec_store()@,
                )
            })
    }

    /// The cached entry for `key` if it is live at `now_ms`.
    pub fn lookup_at(&self, key: &[u8; 32], now_ms: u64) -> (r: Option<CacheEntry>)
        ensures
            match r {
                Some(e) => self.spec_store()@.contains_key(key@) && !self.spec_store()@[key@].spec_expired(
                    now_ms,
                ) && same_entry(e, self.spec_store()@[key@]),
                None => !self.spec_store()@.contains_key(key@) || self.spec_store()@[key@].spec_expired(
                    now_ms,
                ),
            },
    {
        self.store.get(key, now_ms)
    }

    /// The cached entry for `key`, if live at the current time.
    pub fn lookup(&self, key: &[u8; 32]) -> (r: Option<CacheEntry>)
        ensures
            r matches Some(e) ==> self.spec_store()@.contains_key(key@) && same_entry(
                e,
                self.spec_store()@[key@],
            ),
            !self.spec_store()@.contains_key(key@) ==> r is None,
            exists|t: u64| #[trigger] self.looked_up_at(key@, t, r),
    {
        let t = now_ms();
        let r = self.lookup_at(key, t);
        assert(self.looked_up_at(key@, t, r));
        r
    }

    /// Evict one entry (blame-mode mismatch: the entry is wrong, kill it).
    pub fn remove(&mut self, key: &[u8; 32])
        ensures
            final(self).spec_config() == old(self).spec_config(),
            final(self).spec_store()@ == old(self).spec_store()@.remove(key@),
    {
        self.store.remove(key);
    }

    /// Called when a write to `table` is observed: drop every entry that
    /// read it. Returns how many went.
    pub fn invalidate_table(&mut self, table: &str) -> (r: usize)
        ensures
            final(self).spec_config() == old(self).spec_config(),
            final(self).spec_store()@ == old(self).spec_store()@.remove_keys(
                Set::new(
                    |k: Seq<u8>|
                        old(self).spec_store()@.contains_key(k) && old(self).spec_store()@[k].reads(
                            unicode_uppercase(table@),
                        ),
                ),
            ),
            r == old(self).spec_store()@.dom().len() - final(self).spec_store()@.dom().len(),
    {
        self.store.invalidate_table(table)
    }

    pub fn store_len(&self) -> (r: usize)
        ensures
            r == self.spec_store()@.dom().len(),
    {
        self.store.len()
    }

    /// The decision at `now_ms`: serve from cache when the query is
    /// cacheable and a live entry holds its hard fingerprint.
    pub fn decide_at(&self, ctx: &QueryContext<'_>, now_ms: u64) -> (r: Decision)
        ensures
            ({
                let fp = ctx.analysis.hard_fingerprint;
                let hit = spec_cacheable(
                    ctx.analysis.kind,
                    ctx.analysis.features.deterministic,
                    ctx.analysis.features.tables@.len(),
                ) && self.spec_store()@.contains_key(fp@) && !self.spec_store()@[fp@].spec_expired(
                    now_ms,
                );
                if hit {
                    r == Decision::ServeFromCache(CacheKey { hard_fingerprint: fp })
                } else {
                    r == Decision::Passthrough
                }
            }),
    {
        if !self.cacheable(ctx) {
            return Decision::Passthrough;
        }
        let key = ctx.fingerprint();
        if self.store.get(&key, now_ms).is_some() {
            Decision::ServeFromCache(CacheKey { hard_fingerprint: key })
        } else {
            Decision::Passthrough
        }
    }

    /// The decision now: `decide_at` at the current time.
    pub fn decide(&self, ctx: &QueryContext<'_>) -> (r: Decision)
        ensures
            !spec_cacheable(
                ctx.analysis.kind,
                ctx.analysis.features.deterministic,
                ctx.analysis.features.tables@.len(),
            ) ==> r == Decision::Passthrough,
            !self.spec_store()@.contains_key(ctx.analysis.hard_fingerprint@) ==> r
                == Decision::Passthrough,
            r is Passthrough || r == Decision::ServeFromCache(
                CacheKey { hard_fingerprint: ctx.analysis.hard_fingerprint },
            ),
            exists|t: u64| r == #[trigger] self.decision_at(*ctx.analysis, t),
    {
        let t = now_ms();
        let r = self.decide_at(ctx, t);
        assert(r == self.decision_at(*ctx.analysis, t));
        r
    }

    /// Fill the cache after a query completed at `now_ms`: a cacheable,
    /// upstream-served result with a payload is stored under its hard
    /// fingerprint with the TTL of its tables.
    pub fn on_result_at(&mut self, ctx: &QueryContext<'_>, result: &ResultSnapshot, now_ms: u64)
        ensures
            final(self).spec_config() == old(self).spec_config(),
            final(self).spec_store().capacity() == old(self).spec_store().capacity(),
            result.served_from_cache || result.data is None || !spec_cacheable(
                ctx.analysis.kind,
                ctx.analysis.features.deterministic,
                ctx.analysis.features.tables@.len(),
            ) ==> final(self).spec_store()@ == old(self).spec_store()@,
            !(result.served_from_cache || result.data is None || !spec_cacheable(
                ctx.analysis.kind,
                ctx.analysis.features.deterministic,
                ctx.analysis.features.tables@.len(),
            )) ==> exists|e: CacheEntry|
                {
                    &&& e.data == result.data->0
                    &&& string_views(e.tables@) == string_views(ctx.analysis.features.tables@)
                    &&& e.inserted_unix_ms == now_ms
                    &&& is_min_ttl(
                        e.ttl_secs,
                        old(self).spec_config().default_ttl_secs,
                        string_views(ctx.analysis.features.tables@),
                        ttl_views(old(self).spec_config().table_ttls@),
                    )
                    &&& e.canonical_wall_clock_ms == result.wall_clock_ms
                    &&& stored_then_trimmed(
                        old(self).spec_store()@,
                        old(self).spec_store().capacity(),
                        ctx.analysis.hard_fingerprint@,
                        e,
                        final(self).spec_store()@,
                    )
                },
    {
        if result.served_from_cache || !self.cacheable(ctx) {
            return ;
        }
        let data = match &result.data {
            Some(d) => clone_json(d),
            None => {
                return ;
            },
        };
        let tables = clone_strings(&ctx.analysis.features.tables);
        let ttl = self.ttl_for(tables.as_slice());
        let entry = CacheEntry {
            data,
            tables,
            inserted_unix_ms: now_ms,
            ttl_secs: ttl,
            canonical_wall_clock_ms: result.wall_clock_ms,
        };
        let ghost e = entry;
        let ghost before = self.store@;
        let ghost cap = self.store.capacity();
        let fp = ctx.fingerprint();
        self.store.put(fp, entry);
        assert(stored_then_trimmed(before, cap, fp@, e, self.store@));
        assert({
            &&& e.data == result.data->0
            &&& string_views(e.tables@) == string_views(ctx.analysis.features.tables@)
            &&& e.inserted_unix_ms == now_ms
            &&& is_min_ttl(
                e.ttl_secs,
                self.config.default_ttl_secs,
                string_views(ctx.analysis.features.tables@),
                ttl_views(self.config.table_ttls@),
            )
            &&& e.canonical_wall_clock_ms == result.wall_clock_ms
            &&& stored_then_trimmed(before, cap, ctx.analysis.hard_fingerprint@, e, self.store@)
        });
    }

    /// `on_result_at` at the current time.
    pub fn on_result(&mut self, ctx: &QueryContext<'_>, result: &ResultSnapshot)
        ensures
            final(self).spec_config() == old(self).spec_config(),
            result.served_from_cache || result.data is None || !spec_cacheable(
                ctx.analysis.kind,
                ctx.analysis.features.deterministic,
                ctx.analysis.features.tables@.len(),
            ) ==> final(self).spec_store()@ == old(self).spec_store()@,
            exists|t: u64| #[trigger] Self::recorded_at(*old(self), *ctx.analysis, *result, t, *final(self)),
    {
        let t = now_ms();
        let ghost before = *self;
        self.on_result_at(ctx, result, t);
        assert(Self::recorded_at(before, *ctx.analysis, *result, t, *self));
    }
}

/// Milliseconds since the Unix epoch (0 before it).
pub fn now_ms() -> u64 {
    unix_now_ms()
}

} // verus!
