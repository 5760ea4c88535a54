//! The built-in plugin registry: which plugins a configuration puts on the
//! bus, and the metadata behind `chukei plugins list/describe`.
use crate::config::PluginsConfig;
use vstd::prelude::*;

verus! {

/// Static descriptor for `chukei plugins list/describe`.
#[derive(Debug, Clone)]
pub struct PluginInfo {
    pub name: &'static str,
    pub order: i32,
    pub summary: &'static str,
    pub status: &'static str,
}

/// The built-in plugins: (name, bus order, summary, status).
pub open spec fn catalog_rows() -> Seq<(Seq<char>, i32, Seq<char>, Seq<char>)> {
    seq![
        ("cache"@, 10i32, "Semantic result cache (TTL + determinism gate; Iceberg backing planned)"@, "p0"@),
        ("router"@, 20i32, "Rules-based engine routing to embedded DuckDB on Iceberg replicas"@, "p0"@),
        ("rewrite"@, 30i32, "Deterministic SQL rewrite rule pack"@, "p0"@),
        ("bandit"@, 40i32, "Contextual bandit warehouse sizing"@, "p1"@),
        ("suspend"@, 50i32, "Predictive warehouse auto-suspend (suggest-only by default)"@, "p0"@),
        ("attribute"@, 60i32, "Per-query cost attribution via hints, dbt meta, APPLICATION_NAME"@, "p0"@),
    ]
}

/// Every built-in plugin, in bus order.
pub fn catalog() -> (r: Vec<PluginInfo>)
    ensures
        r@.len() == 6,
        forall|i: int|
            0 <= i < 6 ==> (#[trigger] r@[i]).name@ == catalog_rows()[i].0 && r@[i].order
                == catalog_rows()[i].1 && r@[i].summary@ == catalog_rows()[i].2 && r@[i].status@
                == catalog_rows()[i].3,
{
    let mut v: Vec<PluginInfo> = Vec::new();
    v.push(
        PluginInfo {
            name: "cache",
            order: 10,
            summary: "Semantic result cache (TTL + determinism gate; Iceberg backing planned)",
            status: "p0",
        },
    );
    v.push(
        PluginInfo {
            name: "router",
            order: 20,
            summary: "Rules-based engine routing to embedded DuckDB on Iceberg replicas",
            status: "p0",
        },
    );
    v.push(
        PluginInfo {
            name: "rewrite",
            order: 30,
            summary: "Deterministic SQL rewrite rule pack",
            status: "p0",
        },
    );
    v.push(
        PluginInfo {
            name: "bandit",
            order: 40,
            summary: "Contextual bandit warehouse sizing",
            status: "p1",
        },
    );
    v.push(
        PluginInfo {
            name: "suspend",
            order: 50,
            summary: "Predictive warehouse auto-suspend (suggest-only by default)",
            status: "p0",
        },
    );
    v.push(
        PluginInfo {
            name: "attribute",
            order: 60,
            summary: "Per-query cost attribution via hints, dbt meta, APPLICATION_NAME",
            status: "p0",
        },
    );
    v
}

/// The plugins a configuration puts on the bus, in registration order:
/// the enabled ones among cache, router, rewrite, suspend and attribute.
pub open spec fn enabled_names(p: PluginsConfig) -> Seq<Seq<char>> {
    (if p.cache.enabled {
        seq!["cache"@]
    } else {
        seq![]
    }) + (if p.router.enabled {
        seq!["router"@]
    } else {
        seq![]
    }) + (if p.rewrite.enabled {
        seq!["rewrite"@]
    } else {
        seq![]
    }) + (if p.suspend.enabled {
        seq!["suspend"@]
    } else {
        seq![]
    }) + (if p.attribute.enabled {
        seq!["attribute"@]
    } else {
        seq![]
    })
}

/// Which plugins the bus is built from. Disabled plugins simply don't
/// appear on the bus: there is no per-query enabled check on the hot path.
pub fn enabled_plugins(p: &PluginsConfig) -> (r: Vec<&'static str>)
    ensures
        r@.map_values(|s: &'static str| s@) == enabled_names(*p),
{
    let mut v: Vec<&'static str> = Vec::new();
    let ghost mut acc: Seq<Seq<char>> = seq![];
    if p.cache.enabled {
        v.push("cache");
        proof { acc = acc + seq!["cache"@]; }
    }
    assert(v@.map_values(|s: &'static str| s@) =~= acc);
    if p.router.enabled {
        v.push("router");
        proof { acc = acc + seq!["router"@]; }
    }
    assert(v@.map_values(|s: &'static str| s@) =~= acc);
    if p.rewrite.enabled {
        v.push("rewrite");
        proof { acc = acc + seq!["rewrite"@]; }
    }
    assert(v@.map_values(|s: &'static str| s@) =~= acc);
    if p.suspend.enabled {
        v.push("suspend");
        proof { acc = acc + seq!["suspend"@]; }
    }
    assert(v@.map_values(|s: &'static str| s@) =~= acc);
    if p.attribute.enabled {
        v.push("attribute");
        proof { acc = acc + seq!["attribute"@]; }
    }
    assert(v@.map_values(|s: &'static str| s@) =~= acc);
    assert(acc =~= enabled_names(*p));
    v
}


/// The bus order each built-in plugin runs at, by name.
pub open spec fn plugin_order_of(name: Seq<char>) -> Option<i32> {
    if name == "cache"@ {
        Some(10)
    } else if name == "router"@ {
        Some(20)
    } else if name == "rewrite"@ {
        Some(30)
    } else if name == "bandit"@ {
        Some(40)
    } else if name == "suspend"@ {
        Some(50)
    } else if name == "attribute"@ {
        Some(60)
    } else {
        None
    }
}

/// What `chukei plugins list/describe` shows matches the bus: every plugin
/// a configuration puts on the bus has exactly one catalog row, under its
/// name, with the order it runs at.
pub proof fn law_catalog_describes_the_bus(p: PluginsConfig, name: Seq<char>)
    requires
        enabled_names(p).contains(name),
    ensures
        exists|i: int| 0 <= i < catalog_rows().len() && (#[trigger] catalog_rows()[i]).0 == name
            && plugin_order_of(name) == Some(catalog_rows()[i].1),
        forall|i: int, j: int|
            0 <= i < j < catalog_rows().len() ==> (#[trigger] catalog_rows()[i]).0 != (#[trigger] catalog_rows()[j]).0,
{
    reveal_strlit("cache");
    reveal_strlit("router");
    reveal_strlit("rewrite");
    reveal_strlit("bandit");
    reveal_strlit("suspend");
    reveal_strlit("attribute");
    let rows = catalog_rows();
    assert forall|i: int, j: int| 0 <= i < j < rows.len() implies (#[trigger] rows[i]).0 != (#[trigger] rows[j]).0 by {
        assert(rows[i].0.len() != rows[j].0.len() || rows[i].0[0] != rows[j].0[0]);
    }
    let k = choose|k: int| 0 <= k < enabled_names(p).len() && enabled_names(p)[k] == name;
    assert(name == "cache"@ || name == "router"@ || name == "rewrite"@ || name == "suspend"@
        || name == "attribute"@);
    if name == "cache"@ {
        assert(rows[0].0 == name);
    } else if name == "router"@ {
        assert(rows[1].0 == name);
    } else if name == "rewrite"@ {
        assert(rows[2].0 == name);
    } else if name == "suspend"@ {
        assert(rows[4].0 == name);
    } else {
        assert(rows[5].0 == name);
    }
}


/// Each built-in plugin's bus order, by name.
pub proof fn lemma_plugin_orders()
    ensures
        plugin_order_of("cache"@) == Some(10i32),
        plugin_order_of("router"@) == Some(20i32),
        plugin_order_of("rewrite"@) == Some(30i32),
        plugin_order_of("bandit"@) == Some(40i32),
        plugin_order_of("suspend"@) == Some(50i32),
        plugin_order_of("attribute"@) == Some(60i32),
{
    reveal_strlit("cache");
    reveal_strlit("router");
    reveal_strlit("rewrite");
    reveal_strlit("bandit");
    reveal_strlit("suspend");
    reveal_strlit("attribute");
    assert("cache"@.len() == 5 && "router"@.len() == 6 && "rewrite"@.len() == 7);
    assert("bandit"@.len() == 6 && "suspend"@.len() == 7 && "attribute"@.len() == 9);
    assert("router"@[0] != "bandit"@[0] && "rewrite"@[0] != "suspend"@[0]);
    assert("router"@ != "cache"@);
    assert("rewrite"@ != "cache"@ && "rewrite"@ != "router"@);
    assert("bandit"@ != "cache"@ && "bandit"@ != "router"@ && "bandit"@ != "rewrite"@);
    assert("suspend"@ != "cache"@ && "suspend"@ != "router"@ && "suspend"@ != "rewrite"@ && "suspend"@ != "bandit"@);
    assert("attribute"@ != "cache"@ && "attribute"@ != "router"@ && "attribute"@ != "rewrite"@
        && "attribute"@ != "bandit"@ && "attribute"@ != "suspend"@);
}

} // verus!
