//! Rules-based engine routing.
//!
//! The decision rule (no ML):
//!
//! ```text
//! read-only ∧ deterministic
//!   ∧ every table has an Iceberg replica
//!   ∧ scan_estimate_rows < small_scan_rows   → DuckDB
//! otherwise                                  → Snowflake (passthrough)
//! ```
//!
//! Unknown scan estimates route to Snowflake: bypassing the warehouse is an
//! optimisation that must be *proved* safe per query, never assumed.
use crate::config::RouterConfig;
use crate::plugin::{Decision, Engine, QueryContext};
use crate::sql::parse::{StatementKind, kind_is_read_only};
use crate::text::{str_eq, string_views, to_uppercase, unicode_uppercase};
use vstd::prelude::*;

verus! {

/// The engine a query goes to, given the routing settings, the set of
/// replicated tables and what the analysis found.
pub open spec fn route(
    duckdb_enabled: bool,
    small_scan_rows: Option<u64>,
    replicated: Set<Seq<char>>,
    kind: StatementKind,
    deterministic: bool,
    tables: Seq<Seq<char>>,
    scan_estimate_rows: Option<u64>,
) -> Engine {
    let threshold = match small_scan_rows {
        Some(t) => t,
        None => 1_000_000u64,
    };
    if !duckdb_enabled || replicated.len() == 0 {
        Engine::Snowflake
    } else if !kind_is_read_only(kind) || !deterministic {
        Engine::Snowflake
    } else if tables.len() == 0 || !(forall|i: int| 0 <= i < tables.len() ==> replicated.contains(#[trigger] tables[i])) {
        Engine::Snowflake
    } else {
        match scan_estimate_rows {
            Some(rows) => if rows < threshold {
                Engine::DuckDb
            } else {
                Engine::Snowflake
            },
            None => Engine::Snowflake,
        }
    }
}

pub struct RouterPlugin {
    config: RouterConfig,
    /// Upper-cased source names of the configured replicas.
    replicated_tables: Vec<String>,
}

impl RouterPlugin {
    pub closed spec fn spec_config(&self) -> RouterConfig {
        self.config
    }

    /// The tables with a replica, upper-cased.
    pub closed spec fn replicated(&self) -> Set<Seq<char>> {
        string_views(self.replicated_tables@).to_set()
    }

    /// A router over the configured replicas.
    pub fn new(config: RouterConfig) -> (r: Self)
        ensures
            r.spec_config() == config,
            r.replicated() == Set::new(
                |t: Seq<char>|
                    exists|i: int|
                        0 <= i < config.duckdb.replicas@.len() && t == unicode_uppercase(
                            #[trigger] config.duckdb.replicas@[i].source@,
                        ),
            ),
    {
        let mut names: Vec<String> = Vec::new();
        let mut i: usize = 0;
        while i < config.duckdb.replicas.len()
            invariant
                i <= config.duckdb.replicas.len(),
                names@.len() == i,
                forall|j: int| 0 <= j < i ==> #[trigger] names@[j]@ == unicode_uppercase(
                    config.duckdb.replicas@[j].source@,
                ),
            decreases config.duckdb.replicas.len() - i,
        {
            let up = to_uppercase(config.duckdb.replicas[i].source.as_str());
            names.push(up);
            i = i + 1;
        }
        let r = RouterPlugin { config, replicated_tables: names };
        assert(r.replicated() =~= Set::new(
            |t: Seq<char>|
                exists|i: int|
                    0 <= i < r.config.duckdb.replicas@.len() && t == unicode_uppercase(
                        #[trigger] r.config.duckdb.replicas@[i].source@,
                    ),
        )) by {
            assert forall|t: Seq<char>| r.replicated().contains(t) implies exists|i: int|
                0 <= i < r.config.duckdb.replicas@.len() && t == unicode_uppercase(
                    #[trigger] r.config.duckdb.replicas@[i].source@,
                ) by {
                let j = choose|j: int| 0 <= j < names@.len() && string_views(names@)[j] == t;
                assert(names@[j]@ == unicode_uppercase(r.config.duckdb.replicas@[j].source@));
            }
            assert forall|t: Seq<char>|
                (exists|i: int|
                    0 <= i < r.config.duckdb.replicas@.len() && t == unicode_uppercase(
                        #[trigger] r.config.duckdb.replicas@[i].source@,
                    )) implies r.replicated().contains(t) by {
                let i = choose|i: int|
                    0 <= i < r.config.duckdb.replicas@.len() && t == unicode_uppercase(
                        #[trigger] r.config.duckdb.replicas@[i].source@,
                    );
                assert(string_views(names@)[i] == t);
            }
        }
        r
    }

    pub fn name(&self) -> (r: &'static str)
        ensures
            r@ == "router"@,
    {
        "router"
    }

    pub fn order(&self) -> (r: i32)
        ensures
            r == 20,
            Some(r) == crate::plugin::registry::plugin_order_of("router"@),
    {
        proof {
            crate::plugin::registry::lemma_plugin_orders();
        }
        20
    }

    fn is_replicated(&self, table: &str) -> (r: bool)
        ensures
            r == self.replicated().contains(table@),
    {
        let mut i: usize = 0;
        while i < self.replicated_tables.len()
            invariant
                i <= self.replicated_tables.len(),
                forall|j: int| 0 <= j < i ==> string_views(self.replicated_tables@)[j] != table@,
            decreases self.replicated_tables.len() - i,
        {
            if str_eq(self.replicated_tables[i].as_str(), table) {
                assert(string_views(self.replicated_tables@)[i as int] == table@);
                return true;
            }
            i = i + 1;
        }
        false
    }

    /// The engine for one query.
    pub fn route_for(&self, ctx: &QueryContext<'_>) -> (r: Engine)
        ensures
            r == route(
                self.spec_config().duckdb.enabled,
                self.spec_config().small_scan_rows,
                self.replicated(),
                ctx.analysis.kind,
                ctx.analysis.features.deterministic,
                string_views(ctx.analysis.features.tables@),
                ctx.analysis.features.scan_estimate_rows,
            ),
            r != Engine::Snowflake ==> r == Engine::DuckDb && ctx.analysis.kind == StatementKind::Query
                && ctx.analysis.features.deterministic,
    {
        proof {
            law_only_small_replicated_reads_leave_snowflake(
                self.spec_config().duckdb.enabled,
                self.spec_config().small_scan_rows,
                self.replicated(),
                ctx.analysis.kind,
                ctx.analysis.features.deterministic,
                string_views(ctx.analysis.features.tables@),
                ctx.analysis.features.scan_estimate_rows,
            );
        }
        let ghost tables = string_views(ctx.analysis.features.tables@);
        if !self.config.duckdb.enabled || self.replicated_tables.len() == 0 {
            proof {
                if self.replicated_tables@.len() == 0 {
                    assert(self.replicated() =~= Set::<Seq<char>>::empty());
                }
            }
            return Engine::Snowflake;
        }
        proof {
            let t0 = string_views(self.replicated_tables@)[0];
            assert(self.replicated().contains(t0));
            vstd::seq_lib::seq_to_set_is_finite(string_views(self.replicated_tables@));
            vstd::set_lib::lemma_set_empty_equivalency_len(self.replicated());
            if self.replicated().len() == 0 {
                assert(self.replicated().contains(t0));
                assert(!Set::<Seq<char>>::empty().contains(t0));
            }
        }
        let read_only = match &ctx.analysis.kind {
            StatementKind::Query => true,
            _ => false,
        };
        if !read_only || !ctx.analysis.features.deterministic {
            return Engine::Snowflake;
        }
        let features = &ctx.analysis.features;
        if features.tables.len() == 0 {
            return Engine::Snowflake;
        }
        let mut i: usize = 0;
        while i < features.tables.len()
            invariant
                i <= features.tables.len(),
                tables == string_views(features.tables@),
                *features == ctx.analysis.features,
                self.config.duckdb.enabled,
                self.replicated().len() != 0,
                kind_is_read_only(ctx.analysis.kind),
                features.deterministic,
                features.tables@.len() > 0,
                forall|j: int| 0 <= j < i ==> self.replicated().contains(#[trigger] tables[j]),
            decreases features.tables.len() - i,
        {
            if !self.is_replicated(features.tables[i].as_str()) {
                assert(!self.replicated().contains(tables[i as int]));
                return Engine::Snowflake;
            }
            i = i + 1;
        }
        let threshold = match self.config.small_scan_rows {
            Some(t) => t,
            None => 1_000_000,
        };
        match features.scan_estimate_rows {
            Some(rows) => if rows < threshold {
                Engine::DuckDb
            } else {
                Engine::Snowflake
            },
            None => Engine::Snowflake,
        }
    }

    /// Route to an alternate engine, or pass through to Snowflake.
    pub fn decide(&self, ctx: &QueryContext<'_>) -> (r: Decision)
        ensures
            ({
                let e = route(
                    self.spec_config().duckdb.enabled,
                    self.spec_config().small_scan_rows,
                    self.replicated(),
                    ctx.analysis.kind,
                    ctx.analysis.features.deterministic,
                    string_views(ctx.analysis.features.tables@),
                    ctx.analysis.features.scan_estimate_rows,
                );
                if e == Engine::Snowflake {
                    r == Decision::Passthrough
                } else {
                    r == Decision::Route(e)
                }
            }),
    {
        match self.route_for(ctx) {
            Engine::Snowflake => Decision::Passthrough,
            engine => Decision::Route(engine),
        }
    }
}


/// Only small, deterministic reads of replicated tables leave Snowflake:
/// whatever the settings, a query routed elsewhere goes to DuckDB, is a
/// read (`StatementKind::Query`), is deterministic, names at least one
/// table, every one of them replicated, and has a known scan estimate
/// under the small-scan threshold (one million rows unless configured).
/// Writes, DDL and metadata statements always stay on the warehouse.
pub proof fn law_only_small_replicated_reads_leave_snowflake(
    duckdb_enabled: bool,
    small_scan_rows: Option<u64>,
    replicated: Set<Seq<char>>,
    kind: StatementKind,
    deterministic: bool,
    tables: Seq<Seq<char>>,
    scan_estimate_rows: Option<u64>,
)
    ensures
        ({
            let e = route(duckdb_enabled, small_scan_rows, replicated, kind, deterministic, tables, scan_estimate_rows);
            e != Engine::Snowflake ==> {
                &&& e == Engine::DuckDb
                &&& duckdb_enabled
                &&& kind == StatementKind::Query
                &&& deterministic
                &&& tables.len() > 0
                &&& forall|i: int| 0 <= i < tables.len() ==> replicated.contains(#[trigger] tables[i])
                &&& scan_estimate_rows matches Some(n) && n < match small_scan_rows {
                    Some(t) => t,
                    None => 1_000_000u64,
                }
            }
        }),
        !(kind is Query) ==> route(duckdb_enabled, small_scan_rows, replicated, kind, deterministic, tables, scan_estimate_rows)
            == Engine::Snowflake,
{
}

} // verus!
