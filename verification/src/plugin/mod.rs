//! The plugin contract.
//!
//! Plugins inspect an analysed query and emit a `Decision`. The bus (see
//! `bus.rs`) runs them in order and merges their decisions deterministically.
use crate::sql::hints::pairs_map;
use crate::sql::QueryAnalysis;
use crate::text::{str_eq, to_uppercase, unicode_uppercase};
use vstd::prelude::*;

pub mod bus;
pub mod registry;

verus! {

/// `serde_json::Value`, carried opaquely (result payloads).
#[verifier::external_type_specification]
#[verifier::external_body]
pub struct ExJsonValue(serde_json::Value);

/// Connection/session facts the wire layer knows about the client.
#[derive(Debug, Clone)]
pub struct Session {
    pub user: Option<String>,
    pub application_name: Option<String>,
    pub warehouse: Option<String>,
    pub role: Option<String>,
    pub query_tag: Option<String>,
}

impl Default for Session {
    /// A session with no known facts.
    fn default() -> (r: Self)
        ensures
            r.user is None && r.application_name is None && r.warehouse is None && r.role is None
                && r.query_tag is None,
    {
        Session { user: None, application_name: None, warehouse: None, role: None, query_tag: None }
    }
}

/// Everything a plugin may look at. Immutable; plugins communicate only
/// through their returned `Decision`.
#[derive(Debug, Clone, Copy)]
pub struct QueryContext<'a> {
    pub analysis: &'a QueryAnalysis,
    pub session: &'a Session,
}

impl<'a> QueryContext<'a> {
    pub fn raw_sql(&self) -> (r: &str)
        ensures
            r@ == self.analysis.raw_sql@,
    {
        self.analysis.raw_sql.as_str()
    }

    pub fn fingerprint(&self) -> (r: [u8; 32])
        ensures
            r == self.analysis.hard_fingerprint,
    {
        self.analysis.hard_fingerprint
    }
}

#[derive(Debug, Clone, Copy, PartialEq, Eq)]
pub struct CacheKey {
    pub hard_fingerprint: [u8; 32],
}

#[derive(Debug, Clone, Copy, PartialEq, Eq, Structural)]
pub enum Engine {
    Snowflake,
    DuckDb,
    /// Planned.
    Trino,
}

#[derive(Debug, Clone, Copy, PartialEq, Eq, Structural, PartialOrd, Ord)]
pub enum WarehouseSize {
    Xs,
    S,
    M,
    L,
    Xl,
    X2l,
    X3l,
    X4l,
}

/// The size a name denotes, after upper-casing; `None` for an unknown name.
pub open spec fn size_named(u: Seq<char>) -> Option<WarehouseSize> {
    if u == "XS"@ || u == "XSMALL"@ || u == "X-SMALL"@ {
        Some(WarehouseSize::Xs)
    } else if u == "S"@ || u == "SMALL"@ {
        Some(WarehouseSize::S)
    } else if u == "M"@ || u == "MEDIUM"@ {
        Some(WarehouseSize::M)
    } else if u == "L"@ || u == "LARGE"@ {
        Some(WarehouseSize::L)
    } else if u == "XL"@ || u == "XLARGE"@ || u == "X-LARGE"@ {
        Some(WarehouseSize::Xl)
    } else if u == "2XL"@ || u == "X2L"@ || u == "XXLARGE"@ || u == "2X-LARGE"@ {
        Some(WarehouseSize::X2l)
    } else if u == "3XL"@ || u == "X3L"@ || u == "3X-LARGE"@ {
        Some(WarehouseSize::X3l)
    } else if u == "4XL"@ || u == "X4L"@ || u == "4X-LARGE"@ {
        Some(WarehouseSize::X4l)
    } else {
        None
    }
}

/// The message for an unknown size name.
pub open spec fn unknown_size_message(u: Seq<char>) -> Seq<char> {
    "unknown warehouse size '"@ + u + "'"@
}

/// Credits per hour of a standard warehouse: one for XS, doubling with
/// each size up.
pub open spec fn size_credits(z: WarehouseSize) -> u32 {
    match z {
        WarehouseSize::Xs => 1,
        WarehouseSize::S => 2,
        WarehouseSize::M => 4,
        WarehouseSize::L => 8,
        WarehouseSize::Xl => 16,
        WarehouseSize::X2l => 32,
        WarehouseSize::X3l => 64,
        WarehouseSize::X4l => 128,
    }
}

impl WarehouseSize {
    /// Snowflake credits per hour for a standard warehouse of this size.
    pub fn credits_per_hour(&self) -> (r: u32)
        ensures
            r == size_credits(*self),
    {
        match self {
            WarehouseSize::Xs => 1,
            WarehouseSize::S => 2,
            WarehouseSize::M => 4,
            WarehouseSize::L => 8,
            WarehouseSize::Xl => 16,
            WarehouseSize::X2l => 32,
            WarehouseSize::X3l => 64,
            WarehouseSize::X4l => 128,
        }
    }

    /// Parse a size name, case-insensitively (`XS`, `small`, `2X-LARGE`, ...).
    pub fn from_str(s: &str) -> (r: std::result::Result<WarehouseSize, String>)
        ensures
            match size_named(unicode_uppercase(s@)) {
                Some(z) => r == Ok::<WarehouseSize, String>(z),
                None => r matches Err(m) && m@ == unknown_size_message(unicode_uppercase(s@)),
            },
    {
        let up = to_uppercase(s);
        let u = up.as_str();
        if str_eq(u, "XS") || str_eq(u, "XSMALL") || str_eq(u, "X-SMALL") {
            Ok(WarehouseSize::Xs)
        } else if str_eq(u, "S") || str_eq(u, "SMALL") {
            Ok(WarehouseSize::S)
        } else if str_eq(u, "M") || str_eq(u, "MEDIUM") {
            Ok(WarehouseSize::M)
        } else if str_eq(u, "L") || str_eq(u, "LARGE") {
            Ok(WarehouseSize::L)
        } else if str_eq(u, "XL") || str_eq(u, "XLARGE") || str_eq(u, "X-LARGE") {
            Ok(WarehouseSize::Xl)
        } else if str_eq(u, "2XL") || str_eq(u, "X2L") || str_eq(u, "XXLARGE") || str_eq(
            u,
            "2X-LARGE",
        ) {
            Ok(WarehouseSize::X2l)
        } else if str_eq(u, "3XL") || str_eq(u, "X3L") || str_eq(u, "3X-LARGE") {
            Ok(WarehouseSize::X3l)
        } else if str_eq(u, "4XL") || str_eq(u, "X4L") || str_eq(u, "4X-LARGE") {
            Ok(WarehouseSize::X4l)
        } else {
            let msg = crate::text::concat_chars(
                &crate::text::concat_chars(
                    &crate::text::literal_chars("unknown warehouse size '"),
                    &crate::text::to_chars(u),
                ),
                &crate::text::literal_chars("'"),
            );
            Err(crate::text::from_chars(msg.as_slice()))
        }
    }
}

/// Keys pairwise distinct.
pub open spec fn distinct_keys(ps: Seq<(Seq<char>, Seq<char>)>) -> bool {
    forall|i: int, j: int| 0 <= i < j < ps.len() ==> ps[i].0 != ps[j].0
}

pub proof fn lemma_pairs_map_contains(ps: Seq<(Seq<char>, Seq<char>)>, k: Seq<char>)
    ensures
        pairs_map(ps).contains_key(k) <==> exists|i: int| 0 <= i < ps.len() && ps[i].0 == k,
    decreases ps.len(),
{
    if ps.len() > 0 {
        lemma_pairs_map_contains(ps.drop_last(), k);
        if pairs_map(ps.drop_last()).contains_key(k) {
            let i = choose|i: int| 0 <= i < ps.drop_last().len() && ps.drop_last()[i].0 == k;
            assert(ps[i].0 == k);
        }
        if exists|i: int| 0 <= i < ps.len() && ps[i].0 == k {
            let i = choose|i: int| 0 <= i < ps.len() && ps[i].0 == k;
            if i < ps.len() - 1 {
                assert(ps.drop_last()[i].0 == k);
            }
        }
    }
}

/// With distinct keys, the map sends each pair's key to its value.
pub proof fn lemma_pairs_map_at(ps: Seq<(Seq<char>, Seq<char>)>, i: int)
    requires
        distinct_keys(ps),
        0 <= i < ps.len(),
    ensures
        pairs_map(ps).contains_key(ps[i].0),
        pairs_map(ps)[ps[i].0] == ps[i].1,
    decreases ps.len(),
{
    if i < ps.len() - 1 {
        assert(ps.drop_last()[i] == ps[i]);
        lemma_pairs_map_at(ps.drop_last(), i);
    }
}

/// Replacing one pair's value replaces it in the map.
pub proof fn lemma_pairs_map_update(ps: Seq<(Seq<char>, Seq<char>)>, i: int, v: Seq<char>)
    requires
        distinct_keys(ps),
        0 <= i < ps.len(),
    ensures
        pairs_map(ps.update(i, (ps[i].0, v))) == pairs_map(ps).insert(ps[i].0, v),
    decreases ps.len(),
{
    let qs = ps.update(i, (ps[i].0, v));
    if i == ps.len() - 1 {
        assert(qs.drop_last() =~= ps.drop_last());
        lemma_pairs_map_contains(ps.drop_last(), ps[i].0);
        assert(pairs_map(ps) =~= pairs_map(ps.drop_last()).insert(ps[i].0, ps[i].1));
        assert(pairs_map(qs) =~= pairs_map(ps).insert(ps[i].0, v));
    } else {
        assert(qs.drop_last() =~= ps.drop_last().update(i, (ps[i].0, v)));
        assert(ps.drop_last()[i] == ps[i]);
        lemma_pairs_map_update(ps.drop_last(), i, v);
        assert(ps.last().0 != ps[i].0);
        assert(pairs_map(qs) =~= pairs_map(ps).insert(ps[i].0, v));
    }
}

/// Attribution tags: a map from tag name to value.
#[derive(Debug)]
pub struct QueryTags {
    entries: Vec<(String, String)>,
}

impl QueryTags {
    pub closed spec fn pairs(&self) -> Seq<(Seq<char>, Seq<char>)> {
        self.entries@.map_values(|p: (String, String)| (p.0@, p.1@))
    }

    #[verifier::type_invariant]
    closed spec fn wf(&self) -> bool {
        distinct_keys(self.pairs())
    }
}

impl View for QueryTags {
    type V = Map<Seq<char>, Seq<char>>;

    closed spec fn view(&self) -> Map<Seq<char>, Seq<char>> {
        pairs_map(self.pairs())
    }
}

impl QueryTags {
    /// No tags.
    pub fn new() -> (r: Self)
        ensures
            r@ == Map::<Seq<char>, Seq<char>>::empty(),
    {
        let r = QueryTags { entries: Vec::new() };
        assert(r.pairs() =~= Seq::<(Seq<char>, Seq<char>)>::empty());
        r
    }

    fn index_of(&self, key: &str) -> (r: Option<usize>)
        ensures
            match r {
                Some(i) => i < self.entries@.len() && self.pairs()[i as int].0 == key@,
                None => forall|i: int| 0 <= i < self.pairs().len() ==> self.pairs()[i].0 != key@,
            },
    {
        let mut i: usize = 0;
        while i < self.entries.len()
            invariant
                i <= self.entries.len(),
                forall|j: int| 0 <= j < i ==> self.pairs()[j].0 != key@,
            decreases self.entries.len() - i,
        {
            if str_eq(self.entries[i].0.as_str(), key) {
                return Some(i);
            }
            i = i + 1;
        }
        None
    }

    /// The value of tag `key`.
    pub fn get(&self, key: &str) -> (r: Option<&str>)
        ensures
            match r {
                Some(v) => self@.contains_key(key@) && v@ == self@[key@],
                None => !self@.contains_key(key@),
            },
    {
        proof {
            use_type_invariant(self);
            lemma_pairs_map_contains(self.pairs(), key@);
        }
        match self.index_of(key) {
            Some(i) => {
                proof {
                    lemma_pairs_map_at(self.pairs(), i as int);
                }
                Some(self.entries[i].1.as_str())
            },
            None => None,
        }
    }

    pub fn contains_key(&self, key: &str) -> (r: bool)
        ensures
            r == self@.contains_key(key@),
    {
        self.get(key).is_some()
    }

    /// Set `key` to `value`, replacing any value it had.
    pub fn insert(&mut self, key: String, value: String)
        ensures
            final(self)@ == old(self)@.insert(key@, value@),
    {
        proof {
            use_type_invariant(&*self);
        }
        match self.index_of(key.as_str()) {
            Some(i) => {
                proof {
                    lemma_pairs_map_update(self.pairs(), i as int, value@);
                }
                let ghost old_pairs = self.pairs();
                let mut entries: Vec<(String, String)> = Vec::new();
                std::mem::swap(&mut entries, &mut self.entries);
                entries.set(i, (key, value));
                let ghost new_pairs = entries@.map_values(|p: (String, String)| (p.0@, p.1@));
                assert(new_pairs =~= old_pairs.update(i as int, (old_pairs[i as int].0, value@)));
                self.entries = entries;
            },
            None => {
                let ghost old_pairs = self.pairs();
                let mut entries: Vec<(String, String)> = Vec::new();
                std::mem::swap(&mut entries, &mut self.entries);
                entries.push((key, value));
                let ghost new_pairs = entries@.map_values(|p: (String, String)| (p.0@, p.1@));
                assert(new_pairs =~= old_pairs.push((key@, value@)));
                assert(new_pairs.drop_last() =~= old_pairs);
                self.entries = entries;
            },
        }
    }

    /// Set `key` to `value` unless it already has a value (first writer wins).
    pub fn insert_if_absent(&mut self, key: String, value: String)
        ensures
            final(self)@ == if old(self)@.contains_key(key@) {
                old(self)@
            } else {
                old(self)@.insert(key@, value@)
            },
    {
        if !self.contains_key(key.as_str()) {
            self.insert(key, value);
        }
    }

    /// How many tags there are.
    pub fn len(&self) -> (r: usize)
        ensures
            r == self@.dom().len(),
    {
        proof {
            use_type_invariant(self);
            lemma_distinct_pairs_dom_len(self.pairs());
        }
        self.entries.len()
    }

    pub fn is_empty(&self) -> (r: bool)
        ensures
            r == (self@.dom().len() == 0),
    {
        self.len() == 0
    }

    /// The tags as (name, value) pairs, names distinct.
    pub fn entries(&self) -> (r: &Vec<(String, String)>)
        ensures
            r@.map_values(|p: (String, String)| (p.0@, p.1@)) == self.pairs(),
            pairs_map(self.pairs()) == self@,
            distinct_keys(self.pairs()),
    {
        proof {
            use_type_invariant(self);
        }
        &self.entries
    }
}

impl Clone for QueryTags {
    /// The same tags.
    fn clone(&self) -> (r: Self)
        ensures
            r@ == self@,
    {
        proof {
            use_type_invariant(self);
        }
        let mut r = QueryTags::new();
        let ghost ps = self.pairs();
        let mut i: usize = 0;
        while i < self.entries.len()
            invariant
                i <= self.entries.len(),
                ps == self.pairs(),
                distinct_keys(ps),
                r@ == pairs_map(ps.take(i as int)),
            decreases self.entries.len() - i,
        {
            assert(ps.take(i + 1).drop_last() =~= ps.take(i as int));
            let k = self.entries[i].0.clone();
            let v = self.entries[i].1.clone();
            r.insert(k, v);
            i = i + 1;
        }
        assert(ps.take(ps.len() as int) =~= ps);
        r
    }
}

pub proof fn lemma_distinct_pairs_dom_len(ps: Seq<(Seq<char>, Seq<char>)>)
    requires
        distinct_keys(ps),
    ensures
        pairs_map(ps).dom().len() == ps.len(),
        pairs_map(ps).dom().finite(),
    decreases ps.len(),
{
    if ps.len() > 0 {
        let init = ps.drop_last();
        assert(distinct_keys(init));
        lemma_distinct_pairs_dom_len(init);
        lemma_pairs_map_contains(init, ps.last().0);
        assert(!pairs_map(init).contains_key(ps.last().0)) by {
            if pairs_map(init).contains_key(ps.last().0) {
                let i = choose|i: int| 0 <= i < init.len() && init[i].0 == ps.last().0;
                assert(ps[i].0 == ps[ps.len() - 1].0);
            }
        }
    } else {
        assert(pairs_map(ps).dom() =~= Set::<Seq<char>>::empty());
    }
}

#[derive(Debug, Clone, PartialEq, Eq)]
pub struct VetoReason(pub String);

/// What a plugin wants done with the query.
#[derive(Debug)]
pub enum Decision {
    Passthrough,
    ServeFromCache(CacheKey),
    Rewrite(String),
    Route(Engine),
    SetWarehouseSize(WarehouseSize),
    Annotate(QueryTags),
    Compose(Vec<Decision>),
    Veto(VetoReason),
}

/// Outcome facts handed to plugins after the query completes.
#[derive(Debug, Clone)]
pub struct ResultSnapshot {
    pub engine: Option<Engine>,
    pub row_count: u64,
    pub bytes_scanned: u64,
    pub wall_clock_ms: u64,
    pub served_from_cache: bool,
    /// Result payload, when a plugin (the cache) needs to persist it.
    pub data: Option<serde_json::Value>,
}

impl Default for ResultSnapshot {
    fn default() -> (r: Self)
        ensures
            r.engine is None && r.row_count == 0 && r.bytes_scanned == 0 && r.wall_clock_ms == 0
                && !r.served_from_cache && r.data is None,
    {
        ResultSnapshot {
            engine: None,
            row_count: 0,
            bytes_scanned: 0,
            wall_clock_ms: 0,
            served_from_cache: false,
            data: None,
        }
    }
}

} // verus!
