//! Per-query cost attribution.
//!
//! Provenance is assembled, in priority order, from:
//! 1. chukei hint comments (`/*+ chukei:team=growth dag=daily_revenue */`)
//! 2. dbt's injected JSON comment (`/* {"app": "dbt", "node_id": …} */`)
//! 3. the JDBC/Python `APPLICATION_NAME` session property
//!
//! The plugin only ever annotates; it never changes the query.
use crate::config::AttributeConfig;
use crate::plugin::{Decision, QueryContext, QueryTags, Session};
use crate::text::{
    find, find_from, from_chars, lemma_find_from, literal_chars, opt_view, slice_chars, str_eq,
    string_views, to_chars, trim_chars, trimmed,
};
use vstd::prelude::*;
use vstd::string::StringExecFns;

verus! {

/// What `serde_json::from_str::<serde_json::Value>` makes of a text, read
/// for the two fields dbt sets: `None` when the text is no JSON; otherwise
/// the string values under `app` and `node_id` (each `None` when absent or
/// not a string).
pub uninterp spec fn json_app_and_node(body: Seq<char>) -> Option<(Option<Seq<char>>, Option<Seq<char>>)>;

/// Parses `body` with `serde_json::from_str` and picks the `app` and
/// `node_id` strings; the outcome is named `json_app_and_node`.
#[verifier::external_body]
fn read_json_meta(body: &str) -> (r: Option<(Option<String>, Option<String>)>)
    ensures
        match json_app_and_node(body@) {
            None => r is None,
            Some((app, node)) => r matches Some((a, n)) && opt_view(a) == app && opt_view(n) == node,
        },
{
    let json: serde_json::Value = serde_json::from_str(body).ok()?;
    let app = json.get("app").and_then(|v| v.as_str()).map(String::from);
    let node = json.get("node_id").and_then(|v| v.as_str()).map(String::from);
    Some((app, node))
}

/// What dbt's comment says of a query.
#[derive(Debug)]
pub struct DbtMeta {
    pub app: Option<String>,
    pub node_id: Option<String>,
}

/// The dbt metadata of `s` from character `p` on: the first `/* ... */`
/// comment whose trimmed body starts with `{` and reads as JSON. An
/// unterminated comment ends the search.
pub open spec fn dbt_meta_from(s: Seq<char>, p: int) -> Option<(Option<Seq<char>>, Option<Seq<char>>)>
    decreases s.len() + 1 - p,
{
    if p < 0 || p > s.len() {
        None
    } else {
        match find_from(s, "/*"@, p) {
            None => None,
            Some(st) => match find_from(s, "*/"@, st + 2) {
                None => None,
                Some(e) => {
                    proof {
                        reveal_strlit("/*");
                        reveal_strlit("*/");
                        lemma_find_from(s, "/*"@, p);
                        lemma_find_from(s, "*/"@, st + 2);
                    }
                    let body = trimmed(s.subrange(st + 2, e));
                    if body.len() > 0 && body[0] == '{' && json_app_and_node(body) is Some {
                        json_app_and_node(body)
                    } else {
                        dbt_meta_from(s, e + 2)
                    }
                },
            },
        }
    }
}

/// dbt prepends a JSON block comment to every query it issues:
/// `/* {"app": "dbt", "dbt_version": "1.8.0", "node_id": "model.proj.x"} */`
pub fn parse_dbt_meta(raw_sql: &str) -> (r: Option<DbtMeta>)
    ensures
        match dbt_meta_from(raw_sql@, 0) {
            None => r is None,
            Some((app, node)) => r matches Some(m) && opt_view(m.app) == app && opt_view(m.node_id)
                == node,
        },
{
    let s = to_chars(raw_sql);
    let open = literal_chars("/*");
    let close = literal_chars("*/");
    proof {
        reveal_strlit("/*");
        reveal_strlit("*/");
    }
    let mut p: usize = 0;
    loop
        invariant
            p <= s.len(),
            s@ == raw_sql@,
            open@ == "/*"@,
            close@ == "*/"@,
            dbt_meta_from(s@, 0) == dbt_meta_from(s@, p as int),
        decreases s.len() - p,
    {
        proof {
            reveal_strlit("/*");
            reveal_strlit("*/");
            lemma_find_from(s@, "/*"@, p as int);
        }
        let st = match find(&s, &open, p) {
            None => {
                return None;
            },
            Some(st) => st,
        };
        proof {
            lemma_find_from(s@, "*/"@, st + 2);
        }
        let e = match find(&s, &close, st + 2) {
            None => {
                return None;
            },
            Some(e) => e,
        };
        let inner = slice_chars(&s, st + 2, e);
        let body = trim_chars(&inner);
        if body.len() > 0 && body[0] == '{' {
            let text = from_chars(body.as_slice());
            match read_json_meta(text.as_str()) {
                Some((app, node_id)) => {
                    return Some(DbtMeta { app, node_id });
                },
                None => {},
            }
        }
        p = e + 2;
    }
}

/// `m` with `k → v` unless `k` already has a value (first writer wins).
pub open spec fn or_insert(m: Map<Seq<char>, Seq<char>>, k: Seq<char>, v: Seq<char>) -> Map<
    Seq<char>,
    Seq<char>,
> {
    if m.contains_key(k) {
        m
    } else {
        m.insert(k, v)
    }
}

/// Hint pairs as provenance tags: `chukei.<key> → value`, in order (a later
/// pair for a key wins), leaving out the control hints `size` and
/// `tolerance`.
pub open spec fn hint_tags(ps: Seq<(Seq<char>, Seq<char>)>) -> Map<Seq<char>, Seq<char>>
    decreases ps.len(),
{
    if ps.len() == 0 {
        Map::empty()
    } else {
        let m = hint_tags(ps.drop_last());
        let k = ps.last().0;
        if k == "size"@ || k == "tolerance"@ {
            m
        } else {
            m.insert("chukei."@ + k, ps.last().1)
        }
    }
}

/// The tags of one query: hints first, then dbt's comment, then the
/// session's application name and user, each only where nothing earlier
/// set the tag; finally the automatic query tag from the team.
pub open spec fn attribution(
    sources: Seq<Seq<char>>,
    auto_query_tag: bool,
    dbt_metadata_parser: bool,
    hints: Seq<(Seq<char>, Seq<char>)>,
    dbt: Option<(Option<Seq<char>>, Option<Seq<char>>)>,
    application_name: Option<Seq<char>>,
    user: Option<Seq<char>>,
    query_tag: Option<Seq<char>>,
) -> Map<Seq<char>, Seq<char>> {
    let m1 = if sources.contains("hint_comment"@) {
        hint_tags(hints)
    } else {
        Map::empty()
    };
    let m2 = if sources.contains("dbt_meta"@) && dbt_metadata_parser {
        match dbt {
            Some((app, node)) => {
                let a = match node {
                    Some(n) => or_insert(m1, "chukei.dag"@, n),
                    None => m1,
                };
                match app {
                    Some(x) => or_insert(a, "chukei.app"@, x),
                    None => a,
                }
            },
            None => m1,
        }
    } else {
        m1
    };
    let m3 = if sources.contains("application_name"@) {
        match application_name {
            Some(x) => or_insert(m2, "chukei.app"@, x),
            None => m2,
        }
    } else {
        m2
    };
    let m4 = match user {
        Some(u) => or_insert(m3, "chukei.user"@, u),
        None => m3,
    };
    let blank = match query_tag {
        Some(t) => t.len() == 0,
        None => true,
    };
    if auto_query_tag && blank && m4.contains_key("chukei.team"@) {
        m4.insert("chukei.auto_query_tag"@, "chukei:team="@ + m4["chukei.team"@])
    } else {
        m4
    }
}

pub struct AttributePlugin {
    config: AttributeConfig,
}

impl AttributePlugin {
    pub closed spec fn spec_config(&self) -> AttributeConfig {
        self.config
    }

    pub fn new(config: AttributeConfig) -> (r: Self)
        ensures
            r.spec_config() == config,
    {
        AttributePlugin { config }
    }

    pub fn name(&self) -> (r: &'static str)
        ensures
            r@ == "attribute"@,
    {
        "attribute"
    }

    pub fn order(&self) -> (r: i32)
        ensures
            r == 60,
            Some(r) == crate::plugin::registry::plugin_order_of("attribute"@),
    {
        proof {
            crate::plugin::registry::lemma_plugin_orders();
        }
        60
    }

    /// Whether provenance source `name` is switched on.
    pub fn source_enabled(&self, name: &str) -> (r: bool)
        ensures
            r == string_views(self.spec_config().sources@).contains(name@),
    {
        let sources = &self.config.sources;
        let mut i: usize = 0;
        while i < sources.len()
            invariant
                i <= sources.len(),
                *sources == self.config.sources,
                forall|j: int| 0 <= j < i ==> string_views(sources@)[j] != name@,
            decreases sources.len() - i,
        {
            if str_eq(sources[i].as_str(), name) {
                assert(string_views(sources@)[i as int] == name@);
                return true;
            }
            i = i + 1;
        }
        false
    }

    /// The provenance tags of one query.
    pub fn tags_for(&self, ctx: &QueryContext<'_>) -> (r: QueryTags)
        ensures
            r@ == attribution(
                string_views(self.spec_config().sources@),
                self.spec_config().auto_query_tag,
                self.spec_config().dbt_metadata_parser,
                ctx.analysis.hints.pairs(),
                dbt_meta_from(ctx.analysis.raw_sql@, 0),
                opt_view(ctx.session.application_name),
                opt_view(ctx.session.user),
                opt_view(ctx.session.query_tag),
            ),
    {
        let ghost srcs = string_views(self.config.sources@);
        let mut tags = QueryTags::new();
        let hints_on = self.source_enabled("hint_comment");
        proof {
            assert(tags@ =~= Map::<Seq<char>, Seq<char>>::empty());
        }
        if hints_on {
            let values = &ctx.analysis.hints.values;
            let ghost ps = ctx.analysis.hints.pairs();
            let mut i: usize = 0;
            while i < values.len()
                invariant
                    i <= values.len(),
                    ps == values@.map_values(|p: (String, String)| (p.0@, p.1@)),
                    tags@ == hint_tags(ps.take(i as int)),
                decreases values.len() - i,
            {
                assert(ps.take(i + 1).drop_last() =~= ps.take(i as int));
                let k = &values[i].0;
                let size = str_eq(k.as_str(), "size");
                let tolerance = str_eq(k.as_str(), "tolerance");
                if !size && !tolerance {
                    let mut key = String::from_str("chukei.");
                    key.append(k.as_str());
                    tags.insert(key, values[i].1.clone());
                }
                i = i + 1;
            }
            assert(ps.take(values.len() as int) =~= ps);
        }
        let ghost m1 = tags@;
        if self.source_enabled("dbt_meta") && self.config.dbt_metadata_parser {
            match parse_dbt_meta(ctx.raw_sql()) {
                Some(meta) => {
                    if let Some(node) = meta.node_id {
                        tags.insert_if_absent(String::from_str("chukei.dag"), node);
                    }
                    if let Some(app) = meta.app {
                        tags.insert_if_absent(String::from_str("chukei.app"), app);
                    }
                },
                None => {},
            }
        }
        if self.source_enabled("application_name") {
            if let Some(app) = &ctx.session.application_name {
                tags.insert_if_absent(String::from_str("chukei.app"), app.clone());
            }
        }
        if let Some(user) = &ctx.session.user {
            tags.insert_if_absent(String::from_str("chukei.user"), user.clone());
        }
        let blank = match &ctx.session.query_tag {
            Some(t) => t.as_str().is_empty(),
            None => true,
        };
        if self.config.auto_query_tag && blank {
            match tags.get("chukei.team") {
                Some(team) => {
                    let mut v = String::from_str("chukei:team=");
                    v.append(team);
                    tags.insert(String::from_str("chukei.auto_query_tag"), v);
                },
                None => {},
            }
        }
        tags
    }

    /// Annotate with the query's tags, or pass through when there are none.
    pub fn decide(&self, ctx: &QueryContext<'_>) -> (r: Decision)
        ensures
            ({
                let m = attribution(
                    string_views(self.spec_config().sources@),
                    self.spec_config().auto_query_tag,
                    self.spec_config().dbt_metadata_parser,
                    ctx.analysis.hints.pairs(),
                    dbt_meta_from(ctx.analysis.raw_sql@, 0),
                    opt_view(ctx.session.application_name),
                    opt_view(ctx.session.user),
                    opt_view(ctx.session.query_tag),
                );
                if m.dom().len() == 0 {
                    r is Passthrough
                } else {
                    r matches Decision::Annotate(t) && t@ == m
                }
            }),
    {
        let tags = self.tags_for(ctx);
        if tags.is_empty() {
            Decision::Passthrough
        } else {
            Decision::Annotate(tags)
        }
    }
}

} // verus!
