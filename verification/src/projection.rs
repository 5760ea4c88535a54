//! The counts a replay projects over a query history: what parsed, what the
//! cache would have served, what the router could have taken, and how much
//! of the history carries attribution. Rows come in replay order (see
//! `replay::replay_order`); pricing the counted rows is left to the caller.
use crate::cache::index::key_set;
use crate::replay::{
    time_le, cache_sim, count_distinct, events_view, has_dbt_meta, mentions_dbt, project_cache_hits,
    router_candidate, replay_order, replayed_before, table_key, table_set_key, HistoryRow,
};
use crate::sql::parse::{kind_is_read_only, parses_to_one, StatementKind};
use crate::sql::{analysis_of, analyze, QueryAnalysis};
use crate::text::string_views;
use crate::text_map::TextMap;
use vstd::prelude::*;

verus! {

/// What the analysis of a parsed row tells the projection.
pub struct ParsedFacts {
    pub read_only: bool,
    pub deterministic: bool,
    pub n_tables: usize,
    pub hard: [u8; 32],
    pub soft: [u8; 16],
    /// The row's tables joined by commas (`replay::table_key`).
    pub table_key: String,
    /// The query carries `chukei:` hints.
    pub has_hints: bool,
}

/// One history row as the projection sees it.
pub struct RowFacts {
    /// `None` when the query text did not parse.
    pub parsed: Option<ParsedFacts>,
    pub bytes_scanned: Option<u64>,
    pub start_ms: Option<i64>,
    pub has_query_tag: bool,
    /// The text carries dbt's metadata comment.
    pub dbt_meta: bool,
}

/// The projected counts; the per-row flags follow the rows' order.
pub struct ReplayTally {
    pub parsed: usize,
    pub parse_failures: usize,
    pub distinct_hard: usize,
    pub distinct_soft: usize,
    pub eligible: usize,
    /// Per row: the cache would have served it.
    pub hits: Vec<bool>,
    pub projected_hits: usize,
    /// Per row: the router could have taken it.
    pub routable: Vec<bool>,
    pub routable_queries: usize,
    pub with_query_tag: usize,
    pub with_hints: usize,
    pub with_dbt_meta: usize,
}

/// How many elements of `s` satisfy `p`.
pub open spec fn how_many<A>(s: Seq<A>, p: spec_fn(A) -> bool) -> nat
    decreases s.len(),
{
    if s.len() == 0 {
        0
    } else {
        how_many(s.drop_last(), p) + if p(s.last()) {
            1nat
        } else {
            0nat
        }
    }
}

pub open spec fn is_parsed(f: RowFacts) -> bool {
    f.parsed is Some
}

/// A parsed deterministic read of at least one table: what the cache takes.
pub open spec fn cache_eligible_row(f: RowFacts) -> bool {
    f.parsed matches Some(p) && p.read_only && p.deterministic && p.n_tables > 0
}

/// A parsed row that reads the table set `key`.
pub open spec fn reads_set(key: Seq<char>) -> spec_fn(RowFacts) -> bool {
    |f: RowFacts| f.parsed matches Some(p) && p.table_key@ == key
}

/// How many parsed rows read the table set `key`.
pub open spec fn repeats(fs: Seq<RowFacts>, key: Seq<char>) -> nat {
    how_many(fs, reads_set(key))
}

/// Row `f` of history `fs` is one the router could have taken.
pub open spec fn routable_row(fs: Seq<RowFacts>, f: RowFacts, min_occurrences: usize, max_bytes: u64) -> bool {
    f.parsed matches Some(p) && p.read_only && p.deterministic && p.n_tables > 0 && repeats(
        fs,
        p.table_key@,
    ) >= min_occurrences && match f.bytes_scanned {
        Some(b) => b < max_bytes,
        None => u64::MAX < max_bytes,
    }
}

/// The cache projection's events: one per row, eligible or not.
pub open spec fn cache_events(fs: Seq<RowFacts>) -> Seq<(bool, Seq<u8>, Option<i64>)> {
    fs.map_values(
        |f: RowFacts|
            (
                cache_eligible_row(f),
                match f.parsed {
                    Some(p) => p.hard@,
                    None => Seq::new(32, |i: int| 0u8),
                },
                f.start_ms,
            ),
    )
}

/// The hard fingerprints of the parsed rows, in order.
pub open spec fn parsed_hards(fs: Seq<RowFacts>) -> Seq<[u8; 32]>
    decreases fs.len(),
{
    if fs.len() == 0 {
        seq![]
    } else {
        let init = parsed_hards(fs.drop_last());
        match fs.last().parsed {
            Some(p) => init.push(p.hard),
            None => init,
        }
    }
}

/// A soft fingerprint widened to 32 bytes with zeros.
pub open spec fn widened(s: [u8; 16]) -> Seq<u8> {
    s@ + Seq::new(16, |i: int| 0u8)
}

/// The widened soft fingerprints of the parsed rows, in order.
pub open spec fn parsed_softs(fs: Seq<RowFacts>) -> Seq<Seq<u8>>
    decreases fs.len(),
{
    if fs.len() == 0 {
        seq![]
    } else {
        let init = parsed_softs(fs.drop_last());
        match fs.last().parsed {
            Some(p) => init.push(widened(p.soft)),
            None => init,
        }
    }
}

pub open spec fn seq_set(s: Seq<Seq<u8>>) -> Set<Seq<u8>> {
    Set::new(|k: Seq<u8>| s.contains(k))
}

proof fn lemma_how_many_le<A>(s: Seq<A>, p: spec_fn(A) -> bool)
    ensures
        how_many(s, p) <= s.len(),
    decreases s.len(),
{
    if s.len() > 0 {
        lemma_how_many_le(s.drop_last(), p);
    }
}

proof fn lemma_how_many_step<A>(s: Seq<A>, p: spec_fn(A) -> bool, i: int)
    requires
        0 <= i < s.len(),
    ensures
        how_many(s.take(i + 1), p) == how_many(s.take(i), p) + if p(s[i]) {
            1nat
        } else {
            0nat
        },
{
    assert(s.take(i + 1).drop_last() =~= s.take(i));
}

fn widen(s: &[u8; 16]) -> (r: [u8; 32])
    ensures
        r@ == widened(*s),
{
    let mut out = [0u8; 32];
    let mut i: usize = 0;
    while i < 16
        invariant
            i <= 16,
            out@.len() == 32,
            forall|j: int| 0 <= j < i ==> out@[j] == s@[j],
            forall|j: int| 16 <= j < 32 ==> out@[j] == 0u8,
        decreases 16 - i,
    {
        out[i] = s[i];
        i = i + 1;
    }
    assert(out@ =~= widened(*s));
    out
}

fn copy_text(s: &String) -> (r: String)
    ensures
        r@ == s@,
{
    let mut out = String::new();
    out.append(s.as_str());
    out
}

/// How many parsed rows read each table set, over the whole history.
fn table_set_counts(facts: &Vec<RowFacts>) -> (counts: TextMap<usize>)
    ensures
        forall|k: Seq<char>| #[trigger]
            counts@.contains_key(k) ==> counts@[k] == repeats(facts@, k),
        forall|k: Seq<char>| !#[trigger] counts@.contains_key(k) ==> repeats(facts@, k) == 0,
{
    let mut counts: TextMap<usize> = TextMap::new();
    let mut i: usize = 0;
    while i < facts.len()
        invariant
            i <= facts@.len(),
            forall|k: Seq<char>| #[trigger]
                counts@.contains_key(k) ==> counts@[k] == repeats(facts@.take(i as int), k),
            forall|k: Seq<char>| !#[trigger] counts@.contains_key(k) ==> repeats(facts@.take(i as int), k) == 0,
        decreases facts.len() - i,
    {
        proof {
            assert forall|k: Seq<char>| #[trigger] repeats(facts@.take(i + 1), k) == repeats(facts@.take(i as int), k)
                + if (facts@[i as int].parsed matches Some(p) && p.table_key@ == k) {
                1nat
            } else {
                0nat
            } by {
                lemma_how_many_step(facts@, reads_set(k), i as int);
            }
        }
        match &facts[i].parsed {
            Some(p) => {
                let ghost key = p.table_key@;
                let current: usize = match counts.get(p.table_key.as_str()) {
                    Some(c) => *c,
                    None => 0,
                };
                proof {
                    lemma_how_many_le(facts@.take(i as int), reads_set(key));
                    assert(current == repeats(facts@.take(i as int), key));
                    assert(current <= i);
                }
                counts.insert(copy_text(&p.table_key), current + 1);
                proof {
                    assert forall|k: Seq<char>| #[trigger] counts@.contains_key(k) implies counts@[k] == repeats(
                        facts@.take(i + 1),
                        k,
                    ) by {
                        assert(repeats(facts@.take(i + 1), k) == repeats(facts@.take(i as int), k)
                            + if (facts@[i as int].parsed matches Some(p) && p.table_key@ == k) {
                            1nat
                        } else {
                            0nat
                        });
                    }
                    assert forall|k: Seq<char>| !#[trigger] counts@.contains_key(k) implies repeats(
                        facts@.take(i + 1),
                        k,
                    ) == 0 by {
                        assert(repeats(facts@.take(i + 1), k) == repeats(facts@.take(i as int), k)
                            + if (facts@[i as int].parsed matches Some(p) && p.table_key@ == k) {
                            1nat
                        } else {
                            0nat
                        });
                    }
                }
            },
            None => {
                proof {
                    assert forall|k: Seq<char>| #[trigger] counts@.contains_key(k) implies counts@[k] == repeats(
                        facts@.take(i + 1),
                        k,
                    ) by {
                        assert(repeats(facts@.take(i + 1), k) == repeats(facts@.take(i as int), k)
                            + if (facts@[i as int].parsed matches Some(p) && p.table_key@ == k) {
                            1nat
                        } else {
                            0nat
                        });
                    }
                    assert forall|k: Seq<char>| !#[trigger] counts@.contains_key(k) implies repeats(
                        facts@.take(i + 1),
                        k,
                    ) == 0 by {
                        assert(repeats(facts@.take(i + 1), k) == repeats(facts@.take(i as int), k)
                            + if (facts@[i as int].parsed matches Some(p) && p.table_key@ == k) {
                            1nat
                        } else {
                            0nat
                        });
                    }
                }
            },
        }
        i = i + 1;
    }
    assert(facts@.take(facts@.len() as int) =~= facts@);
    counts
}

pub open spec fn parsed_row() -> spec_fn(RowFacts) -> bool {
    |f: RowFacts| f.parsed is Some
}

pub open spec fn eligible_row() -> spec_fn(RowFacts) -> bool {
    |f: RowFacts| cache_eligible_row(f)
}

pub open spec fn tagged_row() -> spec_fn(RowFacts) -> bool {
    |f: RowFacts| f.parsed is Some && f.has_query_tag
}

pub open spec fn hinted_row() -> spec_fn(RowFacts) -> bool {
    |f: RowFacts| f.parsed matches Some(p) && p.has_hints
}

pub open spec fn dbt_row() -> spec_fn(RowFacts) -> bool {
    |f: RowFacts| f.parsed is Some && f.dbt_meta
}

pub open spec fn is_true() -> spec_fn(bool) -> bool {
    |b: bool| b
}

fn count_true(v: &Vec<bool>) -> (r: usize)
    ensures
        r == how_many(v@, is_true()),
{
    let mut n: usize = 0;
    let mut i: usize = 0;
    while i < v.len()
        invariant
            i <= v@.len(),
            n == how_many(v@.take(i as int), is_true()),
        decreases v.len() - i,
    {
        proof {
            lemma_how_many_step(v@, is_true(), i as int);
            lemma_how_many_le(v@.take(i as int), is_true());
        }
        if v[i] {
            n = n + 1;
        }
        i = i + 1;
    }
    assert(v@.take(v@.len() as int) =~= v@);
    n
}

/// `t` holds the counts of history `fs`, rows in replay order.
pub open spec fn tallied(fs: Seq<RowFacts>, t: ReplayTally, ttl_ms: u64, min_occurrences: usize, max_bytes: u64) -> bool {
    &&& t.parsed == how_many(fs, parsed_row())
    &&& t.parse_failures == fs.len() - t.parsed
    &&& t.distinct_hard == key_set(parsed_hards(fs)).len()
    &&& t.distinct_soft == seq_set(parsed_softs(fs)).len()
    &&& t.eligible == how_many(fs, eligible_row())
    &&& t.hits@ == cache_sim(cache_events(fs), ttl_ms as int).1
    &&& t.projected_hits == how_many(t.hits@, is_true())
    &&& t.routable@.len() == fs.len()
    &&& forall|i: int|
        0 <= i < fs.len() ==> #[trigger] t.routable@[i] == routable_row(fs, fs[i], min_occurrences, max_bytes)
    &&& t.routable_queries == how_many(t.routable@, is_true())
    &&& t.with_query_tag == how_many(fs, tagged_row())
    &&& t.with_hints == how_many(fs, hinted_row())
    &&& t.with_dbt_meta == how_many(fs, dbt_row())
}

/// Project a history, rows in replay order, against a cache TTL of
/// `ttl_ms` and a router that needs a table set to recur
/// `min_occurrences` times and a scan under `max_bytes` bytes. Rows that
/// did not parse count as failures and take part in nothing else.
pub fn tally(facts: &Vec<RowFacts>, ttl_ms: u64, min_occurrences: usize, max_bytes: u64) -> (t: ReplayTally)
    ensures
        tallied(facts@, t, ttl_ms, min_occurrences, max_bytes),
{
    let counts = table_set_counts(facts);
    let mut parsed: usize = 0;
    let mut eligible: usize = 0;
    let mut tagged: usize = 0;
    let mut hinted: usize = 0;
    let mut dbt: usize = 0;
    let mut hards: Vec<[u8; 32]> = Vec::new();
    let mut softs: Vec<[u8; 32]> = Vec::new();
    let mut events: Vec<(bool, [u8; 32], Option<i64>)> = Vec::new();
    let mut routable: Vec<bool> = Vec::new();
    let ghost fs = facts@;
    let zero = [0u8; 32];
    assert(zero@ =~= Seq::new(32, |i: int| 0u8));
    let mut i: usize = 0;
    while i < facts.len()
        invariant
            i <= fs.len(),
            fs == facts@,
            zero@ == Seq::new(32, |i: int| 0u8),
            forall|k: Seq<char>| #[trigger] counts@.contains_key(k) ==> counts@[k] == repeats(fs, k),
            forall|k: Seq<char>| !#[trigger] counts@.contains_key(k) ==> repeats(fs, k) == 0,
            parsed == how_many(fs.take(i as int), parsed_row()),
            eligible == how_many(fs.take(i as int), eligible_row()),
            tagged == how_many(fs.take(i as int), tagged_row()),
            hinted == how_many(fs.take(i as int), hinted_row()),
            dbt == how_many(fs.take(i as int), dbt_row()),
            hards@ == parsed_hards(fs.take(i as int)),
            softs@.len() == parsed_softs(fs.take(i as int)).len(),
            forall|j: int| 0 <= j < softs@.len() ==> #[trigger] softs@[j]@ == parsed_softs(fs.take(i as int))[j],
            events_view(events@) == cache_events(fs.take(i as int)),
            events@.len() == i,
            routable@.len() == i,
            forall|j: int| 0 <= j < i ==> #[trigger] routable@[j] == routable_row(fs, fs[j], min_occurrences, max_bytes),
        decreases facts.len() - i,
    {
        let ghost before = fs.take(i as int);
        let ghost after = fs.take(i + 1);
        let ghost old_events = events@;
        proof {
            assert(after.drop_last() =~= before);
            assert(after.last() == fs[i as int]);
            lemma_how_many_step(fs, parsed_row(), i as int);
            lemma_how_many_step(fs, eligible_row(), i as int);
            lemma_how_many_step(fs, tagged_row(), i as int);
            lemma_how_many_step(fs, hinted_row(), i as int);
            lemma_how_many_step(fs, dbt_row(), i as int);
            lemma_how_many_le(before, parsed_row());
            lemma_how_many_le(before, eligible_row());
            lemma_how_many_le(before, tagged_row());
            lemma_how_many_le(before, hinted_row());
            lemma_how_many_le(before, dbt_row());
        }
        let f = &facts[i];
        match &f.parsed {
            Some(p) => {
                parsed = parsed + 1;
                if f.has_query_tag {
                    tagged = tagged + 1;
                }
                if p.has_hints {
                    hinted = hinted + 1;
                }
                if f.dbt_meta {
                    dbt = dbt + 1;
                }
                let is_eligible = p.read_only && p.deterministic && p.n_tables > 0;
                if is_eligible {
                    eligible = eligible + 1;
                }
                hards.push(p.hard);
                let ghost old_softs = softs@;
                softs.push(widen(&p.soft));
                proof {
                    assert(parsed_softs(after) =~= parsed_softs(before).push(widened(p.soft)));
                    assert forall|j: int| 0 <= j < softs@.len() implies #[trigger] softs@[j]@ == parsed_softs(after)[j] by {
                        if j < old_softs.len() {
                            assert(softs@[j] == old_softs[j]);
                        }
                    }
                }
                events.push((is_eligible, p.hard, f.start_ms));
                let n: usize = match counts.get(p.table_key.as_str()) {
                    Some(c) => *c,
                    None => 0,
                };
                let r = router_candidate(
                    p.read_only,
                    p.deterministic,
                    p.n_tables,
                    n,
                    min_occurrences,
                    f.bytes_scanned,
                    max_bytes,
                );
                routable.push(r);
            },
            None => {
                events.push((false, zero, f.start_ms));
                routable.push(false);
                proof {
                    assert(parsed_softs(after) =~= parsed_softs(before));
                }
            },
        }
        proof {
            assert(events@.len() == i + 1);
            assert(cache_events(after) =~= cache_events(before).push(cache_events(after)[i as int]));
            assert(events@ =~= old_events.push(events@[i as int]));
            assert(events_view(events@) =~= events_view(old_events).push(events_view(events@)[i as int]));
            assert(events_view(events@)[i as int] == cache_events(after)[i as int]);
            assert(events_view(events@) =~= cache_events(after));
        }
        i = i + 1;
    }
    proof {
        assert(fs.take(fs.len() as int) =~= fs);
    }
    let distinct_hard = count_distinct(&hards);
    let distinct_soft = count_distinct(&softs);
    proof {
        assert(key_set(softs@) =~= seq_set(parsed_softs(fs))) by {
            assert forall|k: Seq<u8>| key_set(softs@).contains(k) implies seq_set(parsed_softs(fs)).contains(k) by {
                let j = choose|j: int| 0 <= j < softs@.len() && softs@[j]@ == k;
                assert(parsed_softs(fs)[j] == k);
            }
            assert forall|k: Seq<u8>| seq_set(parsed_softs(fs)).contains(k) implies key_set(softs@).contains(k) by {
                let j = choose|j: int| 0 <= j < parsed_softs(fs).len() && parsed_softs(fs)[j] == k;
                assert(softs@[j]@ == k);
            }
        }
    }
    let hits = project_cache_hits(&events, ttl_ms);
    let projected_hits = count_true(&hits);
    let routable_queries = count_true(&routable);
    proof {
        lemma_how_many_le(fs, parsed_row());
    }
    ReplayTally {
        parsed,
        parse_failures: facts.len() - parsed,
        distinct_hard,
        distinct_soft,
        eligible,
        hits,
        projected_hits,
        routable,
        routable_queries,
        with_query_tag: tagged,
        with_hints: hinted,
        with_dbt_meta: dbt,
    }
}

/// `r` is what the projection reads of `row`.
pub open spec fn facts_of(row: HistoryRow, r: RowFacts) -> bool {
    &&& r.parsed is Some <==> parses_to_one(row.query_text@)
    &&& r.bytes_scanned == row.bytes_scanned
    &&& r.start_ms == row.start_time_ms
    &&& r.has_query_tag == (row.query_tag is Some)
    &&& r.dbt_meta == mentions_dbt(row.query_text@)
    &&& r.parsed matches Some(p) ==> exists|a: QueryAnalysis|
        {
            &&& analysis_of(a, row.query_text@)
            &&& p.read_only == kind_is_read_only(a.kind)
            &&& p.deterministic == a.features.deterministic
            &&& p.n_tables == a.features.tables@.len()
            &&& p.hard == a.hard_fingerprint
            &&& p.soft == a.soft_fingerprint
            &&& p.table_key@ == table_set_key(string_views(a.features.tables@))
            &&& p.has_hints == !(a.hints@.dom() =~= Set::<Seq<char>>::empty())
        }
}

/// Two rows with the same text, scan size, start time and tag presence
/// are read alike: the projection gives them the same facts, field by
/// field (the table key by its text).
pub proof fn law_row_facts_follow_the_row(row1: HistoryRow, row2: HistoryRow, r1: RowFacts, r2: RowFacts)
    requires
        facts_of(row1, r1),
        facts_of(row2, r2),
        row1.query_text@ == row2.query_text@,
        row1.bytes_scanned == row2.bytes_scanned,
        row1.start_time_ms == row2.start_time_ms,
        (row1.query_tag is Some) == (row2.query_tag is Some),
    ensures
        r1.bytes_scanned == r2.bytes_scanned,
        r1.start_ms == r2.start_ms,
        r1.has_query_tag == r2.has_query_tag,
        r1.dbt_meta == r2.dbt_meta,
        r1.parsed is Some <==> r2.parsed is Some,
        r1.parsed matches Some(p) ==> r2.parsed matches Some(q) && {
            &&& p.read_only == q.read_only
            &&& p.deterministic == q.deterministic
            &&& p.n_tables == q.n_tables
            &&& p.hard@ == q.hard@
            &&& p.soft@ == q.soft@
            &&& p.table_key@ == q.table_key@
            &&& p.has_hints == q.has_hints
        },
{
    if r1.parsed is Some {
        let p = r1.parsed->0;
        let q = r2.parsed->0;
        let text = row1.query_text@;
        let a1 = choose|a: QueryAnalysis|
            {
                &&& analysis_of(a, text)
                &&& p.read_only == kind_is_read_only(a.kind)
                &&& p.deterministic == a.features.deterministic
                &&& p.n_tables == a.features.tables@.len()
                &&& p.hard == a.hard_fingerprint
                &&& p.soft == a.soft_fingerprint
                &&& p.table_key@ == table_set_key(string_views(a.features.tables@))
                &&& p.has_hints == !(a.hints@.dom() =~= Set::<Seq<char>>::empty())
            };
        let a2 = choose|a: QueryAnalysis|
            {
                &&& analysis_of(a, text)
                &&& q.read_only == kind_is_read_only(a.kind)
                &&& q.deterministic == a.features.deterministic
                &&& q.n_tables == a.features.tables@.len()
                &&& q.hard == a.hard_fingerprint
                &&& q.soft == a.soft_fingerprint
                &&& q.table_key@ == table_set_key(string_views(a.features.tables@))
                &&& q.has_hints == !(a.hints@.dom() =~= Set::<Seq<char>>::empty())
            };
        crate::sql::law_analysis_follows_the_text(a1, a2, text);
        assert(string_views(a1.features.tables@) =~= a1.features.table_names());
        assert(string_views(a2.features.tables@) =~= a2.features.table_names());
        assert(a1.features.tables@.len() == a1.features.table_names().len());
        assert(a2.features.tables@.len() == a2.features.table_names().len());
        assert(a1.hints@ == a2.hints@);
    }
}

/// What the projection reads of one history row; the analysis of its text
/// when it parses as one statement.
pub fn row_facts(row: &HistoryRow) -> (r: RowFacts)
    ensures
        facts_of(*row, r),
{
    let parsed = match analyze(row.query_text.as_str()) {
        Ok(a) => {
            let read_only = match a.kind {
                StatementKind::Query => true,
                _ => false,
            };
            let key = table_key(&a.features.tables);
            let p = ParsedFacts {
                read_only,
                deterministic: a.features.deterministic,
                n_tables: a.features.tables.len(),
                hard: a.hard_fingerprint,
                soft: a.soft_fingerprint,
                table_key: key,
                has_hints: !a.hints.is_empty(),
            };
            assert(read_only == kind_is_read_only(a.kind));
            Some(p)
        },
        Err(_) => None,
    };
    RowFacts {
        parsed,
        bytes_scanned: row.bytes_scanned,
        start_ms: row.start_time_ms,
        has_query_tag: row.query_tag.is_some(),
        dbt_meta: has_dbt_meta(row.query_text.as_str()),
    }
}

/// The rows' start times, in file order.
pub open spec fn start_times(rows: Seq<HistoryRow>) -> Seq<Option<i64>> {
    rows.map_values(|r: HistoryRow| r.start_time_ms)
}

/// `order`, `fs` and `t` are a projection of `rows`: every row once, in
/// replay order, each read by `facts_of`, the cache events sorted by time,
/// and the counts tallied.
pub open spec fn history_projection(
    rows: Seq<HistoryRow>,
    order: Seq<usize>,
    fs: Seq<RowFacts>,
    t: ReplayTally,
    ttl_ms: u64,
    min_occurrences: usize,
    max_bytes: u64,
) -> bool {
    &&& rows.len() <= usize::MAX
    &&& order.len() == rows.len()
    &&& forall|i: int| 0 <= i < order.len() ==> order[i] < rows.len()
    &&& forall|p: usize| p < rows.len() ==> order.contains(p)
    &&& fs.len() == rows.len()
    &&& forall|i: int| 0 <= i < fs.len() ==> facts_of(#[trigger] rows[order[i] as int], fs[i])
    &&& time_sorted(cache_events(fs))
    &&& tallied(fs, t, ttl_ms, min_occurrences, max_bytes)
}

/// The projection of a whole history: the replay order, what was read of
/// each row in that order, and the counts.
pub fn project_history(rows: &Vec<HistoryRow>, ttl_ms: u64, min_occurrences: usize, max_bytes: u64) -> (r: (
    Vec<usize>,
    Vec<RowFacts>,
    ReplayTally,
))
    ensures
        r.0@.len() == rows@.len(),
        forall|i: int| 0 <= i < r.0@.len() ==> r.0@[i] < rows@.len(),
        forall|p: usize| p < rows@.len() ==> r.0@.contains(p),
        forall|i: int, j: int|
            0 <= i < j < r.0@.len() ==> replayed_before(start_times(rows@), r.0@[i] as int, r.0@[j] as int),
        r.1@.len() == rows@.len(),
        forall|i: int| 0 <= i < r.1@.len() ==> facts_of(#[trigger] rows@[r.0@[i] as int], r.1@[i]),
        time_sorted(cache_events(r.1@)),
        tallied(r.1@, r.2, ttl_ms, min_occurrences, max_bytes),
        history_projection(rows@, r.0@, r.1@, r.2, ttl_ms, min_occurrences, max_bytes),
{
    let mut times: Vec<Option<i64>> = Vec::new();
    let mut i: usize = 0;
    while i < rows.len()
        invariant
            i <= rows@.len(),
            times@ == start_times(rows@.take(i as int)),
        decreases rows.len() - i,
    {
        times.push(rows[i].start_time_ms);
        assert(start_times(rows@.take(i + 1)) =~= start_times(rows@.take(i as int)).push(rows@[i as int].start_time_ms));
        i = i + 1;
    }
    assert(rows@.take(rows@.len() as int) =~= rows@);
    let order = replay_order(&times);
    let mut facts: Vec<RowFacts> = Vec::new();
    let mut k: usize = 0;
    while k < order.len()
        invariant
            k <= order@.len(),
            order@.len() == rows@.len(),
            forall|i: int| 0 <= i < order@.len() ==> order@[i] < rows@.len(),
            facts@.len() == k,
            forall|i: int| 0 <= i < k ==> facts_of(#[trigger] rows@[order@[i] as int], facts@[i]),
        decreases order.len() - k,
    {
        let f = row_facts(&rows[order[k]]);
        facts.push(f);
        k = k + 1;
    }
    proof {
        let ts = start_times(rows@);
        assert forall|a: int, b: int| 0 <= a < b < cache_events(facts@).len() implies time_le(
            #[trigger] cache_events(facts@)[a].2,
            #[trigger] cache_events(facts@)[b].2,
        ) by {
            assert(facts_of(rows@[order@[a] as int], facts@[a]));
            assert(facts_of(rows@[order@[b] as int], facts@[b]));
            assert(replayed_before(ts, order@[a] as int, order@[b] as int));
            assert(ts[order@[a] as int] == rows@[order@[a] as int].start_time_ms);
            assert(ts[order@[b] as int] == rows@[order@[b] as int].start_time_ms);
        }
    }
    let t = tally(&facts, ttl_ms, min_occurrences, max_bytes);
    (order, facts, t)
}

// ---------------------------------------------------------------------------
// The projection does not depend on the order of the input

/// Events in replay order: by start time, events without one first.
pub open spec fn time_sorted(ev: Seq<(bool, Seq<u8>, Option<i64>)>) -> bool {
    forall|i: int, j: int| 0 <= i < j < ev.len() ==> time_le(#[trigger] ev[i].2, #[trigger] ev[j].2)
}

/// How many of the events the cache serves, replayed in order.
pub open spec fn hit_count(ev: Seq<(bool, Seq<u8>, Option<i64>)>, ttl_ms: int) -> nat {
    how_many(cache_sim(ev, ttl_ms).1, is_true())
}

/// Two replays end with the same cache and the same number of hits.
pub open spec fn same_outcome(a: Seq<(bool, Seq<u8>, Option<i64>)>, b: Seq<(bool, Seq<u8>, Option<i64>)>, ttl_ms: int) -> bool {
    cache_sim(a, ttl_ms).0 == cache_sim(b, ttl_ms).0 && hit_count(a, ttl_ms) == hit_count(b, ttl_ms)
}

proof fn lemma_how_many_push<A>(s: Seq<A>, p: spec_fn(A) -> bool, x: A)
    ensures
        how_many(s.push(x), p) == how_many(s, p) + if p(x) {
            1nat
        } else {
            0nat
        },
{
    assert(s.push(x).drop_last() =~= s);
}

/// One more event after replays with the same outcome keeps it the same.
proof fn lemma_same_outcome_push(a: Seq<(bool, Seq<u8>, Option<i64>)>, b: Seq<(bool, Seq<u8>, Option<i64>)>, e: (bool, Seq<u8>, Option<i64>), ttl_ms: int)
    requires
        same_outcome(a, b, ttl_ms),
    ensures
        same_outcome(a.push(e), b.push(e), ttl_ms),
{
    assert(a.push(e).drop_last() =~= a);
    assert(b.push(e).drop_last() =~= b);
    let fa = cache_sim(a.push(e), ttl_ms).1.last();
    let fb = cache_sim(b.push(e), ttl_ms).1.last();
    assert(cache_sim(a.push(e), ttl_ms).1 =~= cache_sim(a, ttl_ms).1.push(fa));
    assert(cache_sim(b.push(e), ttl_ms).1 =~= cache_sim(b, ttl_ms).1.push(fb));
    lemma_how_many_push(cache_sim(a, ttl_ms).1, is_true(), fa);
    lemma_how_many_push(cache_sim(b, ttl_ms).1, is_true(), fb);
}

/// The same events after replays with the same outcome keep it the same.
proof fn lemma_same_outcome_suffix(a: Seq<(bool, Seq<u8>, Option<i64>)>, b: Seq<(bool, Seq<u8>, Option<i64>)>, r: Seq<(bool, Seq<u8>, Option<i64>)>, ttl_ms: int)
    requires
        same_outcome(a, b, ttl_ms),
    ensures
        same_outcome(a + r, b + r, ttl_ms),
    decreases r.len(),
{
    if r.len() == 0 {
        assert(a + r =~= a);
        assert(b + r =~= b);
    } else {
        lemma_same_outcome_suffix(a, b, r.drop_last(), ttl_ms);
        lemma_same_outcome_push(a + r.drop_last(), b + r.drop_last(), r.last(), ttl_ms);
        assert((a + r.drop_last()).push(r.last()) =~= a + r);
        assert((b + r.drop_last()).push(r.last()) =~= b + r);
    }
}

/// Two events that start at the same time can be replayed in either order.
proof fn lemma_swap_ties(p: Seq<(bool, Seq<u8>, Option<i64>)>, x: (bool, Seq<u8>, Option<i64>), y: (bool, Seq<u8>, Option<i64>), ttl_ms: int)
    requires
        x.2 == y.2,
        ttl_ms >= 0,
    ensures
        same_outcome(p.push(x).push(y), p.push(y).push(x), ttl_ms),
{
    let pxy = p.push(x).push(y);
    let pyx = p.push(y).push(x);
    assert(pxy.drop_last() =~= p.push(x));
    assert(pyx.drop_last() =~= p.push(y));
    assert(p.push(x).drop_last() =~= p);
    assert(p.push(y).drop_last() =~= p);
    let s = cache_sim(p, ttl_ms).0;
    let h = cache_sim(p, ttl_ms).1;
    let sx = cache_sim(p.push(x), ttl_ms);
    let sy = cache_sim(p.push(y), ttl_ms);
    let sxy = cache_sim(pxy, ttl_ms);
    let syx = cache_sim(pyx, ttl_ms);
    if x.0 && x.2 is Some && y.0 && y.2 is Some && x.1 != y.1 {
        if !(s.contains_key(x.1) && x.2->0 - s[x.1] <= ttl_ms) && !(s.contains_key(y.1) && y.2->0 - s[y.1] <= ttl_ms) {
            assert(s.insert(x.1, x.2->0).insert(y.1, y.2->0) =~= s.insert(y.1, y.2->0).insert(x.1, x.2->0));
        }
    }
    assert(sxy.1 =~= sx.1.push(sxy.1.last()));
    assert(syx.1 =~= sy.1.push(syx.1.last()));
    assert(sx.1 =~= h.push(sx.1.last()));
    assert(sy.1 =~= h.push(sy.1.last()));
    lemma_how_many_push(sx.1, is_true(), sxy.1.last());
    lemma_how_many_push(sy.1, is_true(), syx.1.last());
    lemma_how_many_push(h, is_true(), sx.1.last());
    lemma_how_many_push(h, is_true(), sy.1.last());
}

/// An event followed only by events that start when it does can be
/// replayed last instead.
proof fn lemma_move_to_end(ev: Seq<(bool, Seq<u8>, Option<i64>)>, j: int, ttl_ms: int)
    requires
        0 <= j < ev.len(),
        ttl_ms >= 0,
        forall|m: int| j < m < ev.len() ==> #[trigger] ev[m].2 == ev[j].2,
    ensures
        same_outcome(ev, ev.remove(j).push(ev[j]), ttl_ms),
    decreases ev.len() - j,
{
    if j == ev.len() - 1 {
        assert(ev.remove(j).push(ev[j]) =~= ev);
    } else {
        let x = ev[j];
        let y = ev[j + 1];
        let p = ev.take(j);
        let r = ev.skip(j + 2);
        let swapped = p.push(y).push(x) + r;
        assert(ev =~= p.push(x).push(y) + r);
        lemma_swap_ties(p, x, y, ttl_ms);
        lemma_same_outcome_suffix(p.push(x).push(y), p.push(y).push(x), r, ttl_ms);
        assert(swapped[j + 1] == x);
        assert forall|m: int| j + 1 < m < swapped.len() implies #[trigger] swapped[m].2 == swapped[j + 1].2 by {
            assert(swapped[m] == ev[m]);
        }
        lemma_move_to_end(swapped, j + 1, ttl_ms);
        assert(swapped.remove(j + 1) =~= ev.remove(j));
    }
}

proof fn lemma_time_le_antisymmetric(a: Option<i64>, b: Option<i64>)
    requires
        time_le(a, b),
        time_le(b, a),
    ensures
        a == b,
{
}

/// The replay does not depend on the order the history came in: two
/// orderings of the same events, each in replay order (by start time),
/// serve the same number of reads from the cache and leave the same cache
/// behind.
pub proof fn law_projection_ignores_input_order(
    ev1: Seq<(bool, Seq<u8>, Option<i64>)>,
    ev2: Seq<(bool, Seq<u8>, Option<i64>)>,
    ttl_ms: int,
)
    requires
        time_sorted(ev1),
        time_sorted(ev2),
        ev1.to_multiset() == ev2.to_multiset(),
        ttl_ms >= 0,
    ensures
        cache_sim(ev1, ttl_ms).0 == cache_sim(ev2, ttl_ms).0,
        how_many(cache_sim(ev1, ttl_ms).1, is_true()) == how_many(cache_sim(ev2, ttl_ms).1, is_true()),
    decreases ev2.len(),
{
    ev1.to_multiset_ensures();
    ev2.to_multiset_ensures();
    assert(ev1.to_multiset().len() == ev2.to_multiset().len());
    if ev2.len() == 0 {
        assert(ev1.len() == 0);
        assert(ev1 =~= ev2);
    } else {
        let x = ev2.last();
        let rest2 = ev2.drop_last();
        assert(ev2 =~= rest2.push(x));
        rest2.to_multiset_ensures();
        assert(ev2.to_multiset().count(x) > 0) by {
            assert(ev2.contains(x)) by {
                assert(ev2[ev2.len() - 1] == x);
            }
        }
        assert(ev1.to_multiset().count(x) > 0);
        assert(ev1.contains(x));
        let j = choose|j: int| 0 <= j < ev1.len() && ev1[j] == x;
        assert forall|m: int| j < m < ev1.len() implies #[trigger] ev1[m].2 == ev1[j].2 by {
            assert(time_le(ev1[j].2, ev1[m].2));
            assert(ev1.contains(ev1[m]));
            assert(ev1.to_multiset().count(ev1[m]) > 0);
            assert(ev2.to_multiset().count(ev1[m]) > 0);
            assert(ev2.contains(ev1[m]));
            let i = choose|i: int| 0 <= i < ev2.len() && ev2[i] == ev1[m];
            if i < ev2.len() - 1 {
                assert(time_le(ev2[i].2, ev2[ev2.len() - 1].2));
            }
            lemma_time_le_antisymmetric(ev1[j].2, ev1[m].2);
        }
        lemma_move_to_end(ev1, j, ttl_ms);
        let rest1 = ev1.remove(j);
        assert(time_sorted(rest1)) by {
            assert forall|a: int, b: int| 0 <= a < b < rest1.len() implies time_le(#[trigger] rest1[a].2, #[trigger] rest1[b].2) by {
                let oa = if a < j { a } else { a + 1 };
                let ob = if b < j { b } else { b + 1 };
                assert(rest1[a] == ev1[oa]);
                assert(rest1[b] == ev1[ob]);
            }
        }
        assert(time_sorted(rest2)) by {
            assert forall|a: int, b: int| 0 <= a < b < rest2.len() implies time_le(#[trigger] rest2[a].2, #[trigger] rest2[b].2) by {
                assert(rest2[a] == ev2[a]);
                assert(rest2[b] == ev2[b]);
            }
        }
        assert(rest1.to_multiset() =~= ev1.to_multiset().remove(x));
        assert(ev2.to_multiset() =~= rest2.to_multiset().insert(x));
        assert(rest1.to_multiset() =~= rest2.to_multiset());
        law_projection_ignores_input_order(rest1, rest2, ttl_ms);
        lemma_same_outcome_push(rest1, rest2, x, ttl_ms);
    }
}

proof fn lemma_how_many_remove<A>(s: Seq<A>, p: spec_fn(A) -> bool, j: int)
    requires
        0 <= j < s.len(),
    ensures
        how_many(s, p) == how_many(s.remove(j), p) + if p(s[j]) {
            1nat
        } else {
            0nat
        },
    decreases s.len(),
{
    if j == s.len() - 1 {
        assert(s.remove(j) =~= s.drop_last());
    } else {
        lemma_how_many_remove(s.drop_last(), p, j);
        assert(s.remove(j).drop_last() =~= s.drop_last().remove(j));
        assert(s.remove(j).last() == s.last());
    }
}

/// Counting does not depend on the order of what is counted.
proof fn lemma_how_many_permutation<A>(s1: Seq<A>, s2: Seq<A>, p: spec_fn(A) -> bool)
    requires
        s1.to_multiset() == s2.to_multiset(),
    ensures
        how_many(s1, p) == how_many(s2, p),
    decreases s2.len(),
{
    s1.to_multiset_ensures();
    s2.to_multiset_ensures();
    assert(s1.to_multiset().len() == s2.to_multiset().len());
    if s2.len() == 0 {
        assert(s1 =~= s2);
    } else {
        let x = s2.last();
        let rest2 = s2.drop_last();
        assert(s2 =~= rest2.push(x));
        rest2.to_multiset_ensures();
        assert(s2.to_multiset().count(x) > 0) by {
            assert(s2.contains(x)) by {
                assert(s2[s2.len() - 1] == x);
            }
        }
        assert(s1.to_multiset().count(x) > 0);
        let j = choose|j: int| 0 <= j < s1.len() && s1[j] == x;
        lemma_how_many_remove(s1, p, j);
        assert(s1.remove(j).to_multiset() =~= s1.to_multiset().remove(x));
        assert(s2.to_multiset() =~= rest2.to_multiset().insert(x));
        assert(s1.remove(j).to_multiset() =~= rest2.to_multiset());
        lemma_how_many_permutation(s1.remove(j), rest2, p);
        lemma_how_many_push(rest2, p, x);
    }
}

/// Mapping keeps two orderings of the same elements orderings of the same
/// elements.
proof fn lemma_map_permutation<A, B>(s1: Seq<A>, s2: Seq<A>, f: spec_fn(A) -> B)
    requires
        s1.to_multiset() == s2.to_multiset(),
    ensures
        s1.map_values(f).to_multiset() == s2.map_values(f).to_multiset(),
    decreases s2.len(),
{
    s1.to_multiset_ensures();
    s2.to_multiset_ensures();
    s1.map_values(f).to_multiset_ensures();
    s2.map_values(f).to_multiset_ensures();
    assert(s1.to_multiset().len() == s2.to_multiset().len());
    if s2.len() == 0 {
        assert(s1 =~= s2);
    } else {
        let x = s2.last();
        let rest2 = s2.drop_last();
        assert(s2 =~= rest2.push(x));
        rest2.to_multiset_ensures();
        assert(s2.to_multiset().count(x) > 0) by {
            assert(s2.contains(x)) by {
                assert(s2[s2.len() - 1] == x);
            }
        }
        assert(s1.to_multiset().count(x) > 0);
        let j = choose|j: int| 0 <= j < s1.len() && s1[j] == x;
        assert(s1.remove(j).to_multiset() =~= s1.to_multiset().remove(x));
        assert(s2.to_multiset() =~= rest2.to_multiset().insert(x));
        assert(s1.remove(j).to_multiset() =~= rest2.to_multiset());
        lemma_map_permutation(s1.remove(j), rest2, f);
        assert(s1.map_values(f).remove(j) =~= s1.remove(j).map_values(f));
        assert(s2.map_values(f) =~= rest2.map_values(f).push(f(x)));
        rest2.map_values(f).to_multiset_ensures();
        assert(s1.map_values(f)[j] == f(x));
        assert(s1.map_values(f).to_multiset() =~= s1.map_values(f).remove(j).to_multiset().insert(f(x)));
    }
}

/// A sequence of flags, each the predicate on the matching element, has as
/// many set flags as elements satisfying the predicate.
proof fn lemma_how_many_flags<A>(s: Seq<A>, flags: Seq<bool>, q: spec_fn(A) -> bool)
    requires
        flags.len() == s.len(),
        forall|i: int| 0 <= i < s.len() ==> #[trigger] flags[i] == q(s[i]),
    ensures
        how_many(flags, is_true()) == how_many(s, q),
    decreases s.len(),
{
    if s.len() > 0 {
        lemma_how_many_flags(s.drop_last(), flags.drop_last(), q);
        assert(flags[flags.len() - 1] == q(s[s.len() - 1]));
    }
}


/// `f` parsed with hard fingerprint `v`.
pub open spec fn has_hard(f: RowFacts, v: Seq<u8>) -> bool {
    f.parsed matches Some(p) && p.hard@ == v
}

/// `f` parsed with soft fingerprint `v`, widened.
pub open spec fn has_soft(f: RowFacts, v: Seq<u8>) -> bool {
    f.parsed matches Some(p) && widened(p.soft) == v
}

/// The hard fingerprints among the parsed rows are those of the rows.
proof fn lemma_parsed_hards_members(fs: Seq<RowFacts>, v: Seq<u8>)
    ensures
        key_set(parsed_hards(fs)).contains(v) <==> exists|i: int|
            0 <= i < fs.len() && has_hard(#[trigger] fs[i], v),
    decreases fs.len(),
{
    if fs.len() > 0 {
        let init = fs.drop_last();
        lemma_parsed_hards_members(init, v);
        let h = parsed_hards(fs);
        let hi = parsed_hards(init);
        if key_set(h).contains(v) {
            let k = choose|k: int| 0 <= k < h.len() && h[k]@ == v;
            if k < hi.len() {
                assert(h[k] == hi[k]);
                assert(key_set(hi).contains(v));
                let i = choose|i: int| 0 <= i < init.len() && has_hard(#[trigger] init[i], v);
                assert(fs[i] == init[i]);
            } else {
                assert(fs[fs.len() - 1] == fs.last());
            }
        }
        if exists|i: int| 0 <= i < fs.len() && has_hard(#[trigger] fs[i], v) {
            let i = choose|i: int| 0 <= i < fs.len() && has_hard(#[trigger] fs[i], v);
            if i < init.len() {
                assert(init[i] == fs[i]);
                assert(key_set(hi).contains(v));
                let k = choose|k: int| 0 <= k < hi.len() && hi[k]@ == v;
                assert(h[k] == hi[k]);
            } else {
                assert(h[h.len() - 1]@ == v);
            }
        }
    }
}

/// The widened soft fingerprints among the parsed rows are those of the
/// rows.
proof fn lemma_parsed_softs_members(fs: Seq<RowFacts>, v: Seq<u8>)
    ensures
        seq_set(parsed_softs(fs)).contains(v) <==> exists|i: int|
            0 <= i < fs.len() && has_soft(#[trigger] fs[i], v),
    decreases fs.len(),
{
    if fs.len() > 0 {
        let init = fs.drop_last();
        lemma_parsed_softs_members(init, v);
        let h = parsed_softs(fs);
        let hi = parsed_softs(init);
        if seq_set(h).contains(v) {
            let k = choose|k: int| 0 <= k < h.len() && h[k] == v;
            if k < hi.len() {
                assert(h[k] == hi[k]);
                assert(seq_set(hi).contains(v));
                let i = choose|i: int| 0 <= i < init.len() && has_soft(#[trigger] init[i], v);
                assert(fs[i] == init[i]);
            } else {
                assert(fs[fs.len() - 1] == fs.last());
            }
        }
        if exists|i: int| 0 <= i < fs.len() && has_soft(#[trigger] fs[i], v) {
            let i = choose|i: int| 0 <= i < fs.len() && has_soft(#[trigger] fs[i], v);
            if i < init.len() {
                assert(init[i] == fs[i]);
                assert(seq_set(hi).contains(v));
                let k = choose|k: int| 0 <= k < hi.len() && hi[k] == v;
                assert(h[k] == hi[k]);
            } else {
                assert(h[h.len() - 1] == v);
            }
        }
    }
}

/// Two orderings of the same rows have the same members.
proof fn lemma_same_members(fs1: Seq<RowFacts>, fs2: Seq<RowFacts>, f: RowFacts)
    requires
        fs1.to_multiset() == fs2.to_multiset(),
    ensures
        fs1.contains(f) <==> fs2.contains(f),
{
    fs1.to_multiset_ensures();
    fs2.to_multiset_ensures();
    assert(fs1.contains(f) <==> fs1.to_multiset().count(f) > 0);
    assert(fs2.contains(f) <==> fs2.to_multiset().count(f) > 0);
}

/// The counts of a replay do not depend on the order the history came in:
/// two orderings of the same rows, each in replay order, parse, qualify
/// for the cache, hit it, qualify for the router and carry attribution
/// equally often.
pub proof fn law_tally_ignores_input_order(
    fs1: Seq<RowFacts>,
    fs2: Seq<RowFacts>,
    t1: ReplayTally,
    t2: ReplayTally,
    ttl_ms: u64,
    min_occurrences: usize,
    max_bytes: u64,
)
    requires
        tallied(fs1, t1, ttl_ms, min_occurrences, max_bytes),
        tallied(fs2, t2, ttl_ms, min_occurrences, max_bytes),
        time_sorted(cache_events(fs1)),
        time_sorted(cache_events(fs2)),
        fs1.to_multiset() == fs2.to_multiset(),
    ensures
        t1.parsed == t2.parsed,
        t1.parse_failures == t2.parse_failures,
        t1.distinct_hard == t2.distinct_hard,
        t1.distinct_soft == t2.distinct_soft,
        t1.eligible == t2.eligible,
        t1.projected_hits == t2.projected_hits,
        t1.routable_queries == t2.routable_queries,
        t1.with_query_tag == t2.with_query_tag,
        t1.with_hints == t2.with_hints,
        t1.with_dbt_meta == t2.with_dbt_meta,
{
    fs1.to_multiset_ensures();
    fs2.to_multiset_ensures();
    assert(fs1.to_multiset().len() == fs2.to_multiset().len());
    lemma_how_many_permutation(fs1, fs2, parsed_row());
    lemma_how_many_permutation(fs1, fs2, eligible_row());
    lemma_how_many_permutation(fs1, fs2, tagged_row());
    lemma_how_many_permutation(fs1, fs2, hinted_row());
    lemma_how_many_permutation(fs1, fs2, dbt_row());
    let ev = |f: RowFacts|
        (
            cache_eligible_row(f),
            match f.parsed {
                Some(p) => p.hard@,
                None => Seq::new(32, |i: int| 0u8),
            },
            f.start_ms,
        );
    assert(cache_events(fs1) == fs1.map_values(ev));
    assert(cache_events(fs2) == fs2.map_values(ev));
    lemma_map_permutation(fs1, fs2, ev);
    law_projection_ignores_input_order(cache_events(fs1), cache_events(fs2), ttl_ms as int);
    let q1 = |f: RowFacts| routable_row(fs1, f, min_occurrences, max_bytes);
    let q2 = |f: RowFacts| routable_row(fs2, f, min_occurrences, max_bytes);
    lemma_how_many_flags(fs1, t1.routable@, q1);
    lemma_how_many_flags(fs2, t2.routable@, q2);
    assert forall|k: Seq<char>| #[trigger] repeats(fs1, k) == repeats(fs2, k) by {
        lemma_how_many_permutation(fs1, fs2, reads_set(k));
    }
    assert(q1 =~= q2) by {
        assert forall|f: RowFacts| #[trigger] q1(f) == q2(f) by {
            if let Some(p) = f.parsed {
                assert(repeats(fs1, p.table_key@) == repeats(fs2, p.table_key@));
            }
        }
    }
    lemma_how_many_permutation(fs1, fs2, q1);
    assert(key_set(parsed_hards(fs1)) =~= key_set(parsed_hards(fs2))) by {
        assert forall|v: Seq<u8>| #[trigger] key_set(parsed_hards(fs1)).contains(v) <==> key_set(parsed_hards(fs2)).contains(v) by {
            lemma_parsed_hards_members(fs1, v);
            lemma_parsed_hards_members(fs2, v);
            if key_set(parsed_hards(fs1)).contains(v) {
                let i = choose|i: int| 0 <= i < fs1.len() && has_hard(#[trigger] fs1[i], v);
                lemma_same_members(fs1, fs2, fs1[i]);
                assert(fs1.contains(fs1[i]));
                let k = choose|k: int| 0 <= k < fs2.len() && fs2[k] == fs1[i];
                assert(has_hard(fs2[k], v));
            }
            if key_set(parsed_hards(fs2)).contains(v) {
                let i = choose|i: int| 0 <= i < fs2.len() && has_hard(#[trigger] fs2[i], v);
                lemma_same_members(fs1, fs2, fs2[i]);
                assert(fs2.contains(fs2[i]));
                let k = choose|k: int| 0 <= k < fs1.len() && fs1[k] == fs2[i];
                assert(has_hard(fs1[k], v));
            }
        }
    }
    assert(seq_set(parsed_softs(fs1)) =~= seq_set(parsed_softs(fs2))) by {
        assert forall|v: Seq<u8>| #[trigger] seq_set(parsed_softs(fs1)).contains(v) <==> seq_set(parsed_softs(fs2)).contains(v) by {
            lemma_parsed_softs_members(fs1, v);
            lemma_parsed_softs_members(fs2, v);
            if seq_set(parsed_softs(fs1)).contains(v) {
                let i = choose|i: int| 0 <= i < fs1.len() && has_soft(#[trigger] fs1[i], v);
                lemma_same_members(fs1, fs2, fs1[i]);
                assert(fs1.contains(fs1[i]));
                let k = choose|k: int| 0 <= k < fs2.len() && fs2[k] == fs1[i];
                assert(has_soft(fs2[k], v));
            }
            if seq_set(parsed_softs(fs2)).contains(v) {
                let i = choose|i: int| 0 <= i < fs2.len() && has_soft(#[trigger] fs2[i], v);
                lemma_same_members(fs1, fs2, fs2[i]);
                assert(fs2.contains(fs2[i]));
                let k = choose|k: int| 0 <= k < fs1.len() && fs1[k] == fs2[i];
                assert(has_soft(fs1[k], v));
            }
        }
    }
}


proof fn lemma_how_many_implied<A>(s: Seq<A>, p: spec_fn(A) -> bool, q: spec_fn(A) -> bool)
    requires
        forall|a: A| #[trigger] p(a) ==> q(a),
    ensures
        how_many(s, p) <= how_many(s, q),
    decreases s.len(),
{
    if s.len() > 0 {
        lemma_how_many_implied(s.drop_last(), p, q);
    }
}

pub open spec fn event_eligible() -> spec_fn((bool, Seq<u8>, Option<i64>)) -> bool {
    |e: (bool, Seq<u8>, Option<i64>)| e.0
}

proof fn lemma_hits_only_on_eligible_events(ev: Seq<(bool, Seq<u8>, Option<i64>)>, ttl_ms: int)
    ensures
        cache_sim(ev, ttl_ms).1.len() == ev.len(),
        how_many(cache_sim(ev, ttl_ms).1, is_true()) <= how_many(ev, event_eligible()),
    decreases ev.len(),
{
    if ev.len() > 0 {
        lemma_hits_only_on_eligible_events(ev.drop_last(), ttl_ms);
        let hits = cache_sim(ev, ttl_ms).1;
        assert(hits.drop_last() =~= cache_sim(ev.drop_last(), ttl_ms).1);
    }
}

proof fn lemma_events_count_eligible_rows(fs: Seq<RowFacts>)
    ensures
        how_many(cache_events(fs), event_eligible()) == how_many(fs, eligible_row()),
    decreases fs.len(),
{
    if fs.len() > 0 {
        lemma_events_count_eligible_rows(fs.drop_last());
        assert(cache_events(fs).drop_last() =~= cache_events(fs.drop_last()));
    }
}

proof fn lemma_parsed_hards_count(fs: Seq<RowFacts>)
    ensures
        parsed_hards(fs).len() == how_many(fs, parsed_row()),
        key_set(parsed_hards(fs)).finite(),
        key_set(parsed_hards(fs)).len() <= parsed_hards(fs).len(),
    decreases fs.len(),
{
    if fs.len() > 0 {
        lemma_parsed_hards_count(fs.drop_last());
        let v = parsed_hards(fs);
        let w = parsed_hards(fs.drop_last());
        match fs.last().parsed {
            Some(p) => {
                assert(key_set(v) =~= key_set(w).insert(p.hard@)) by {
                    assert forall|k: Seq<u8>| key_set(v).contains(k) <==> key_set(w).insert(p.hard@).contains(k) by {
                        if key_set(v).contains(k) {
                            let i = choose|i: int| 0 <= i < v.len() && v[i]@ == k;
                            if i < w.len() {
                                assert(v[i] == w[i]);
                            }
                        }
                        if key_set(w).contains(k) {
                            let i = choose|i: int| 0 <= i < w.len() && w[i]@ == k;
                            assert(v[i] == w[i]);
                        }
                        if k == p.hard@ {
                            assert(v[w.len() as int] == p.hard);
                        }
                    }
                }
            },
            None => {
                assert(key_set(v) =~= key_set(w));
            },
        }
    } else {
        assert(key_set(parsed_hards(fs)) =~= Set::<Seq<u8>>::empty());
    }
}

/// The counts of a projection nest: the cache serves only reads it could
/// take, it takes only rows that parsed, and there are no more distinct
/// hard fingerprints than parsed rows.
pub proof fn law_tally_counts_nest(
    fs: Seq<RowFacts>,
    t: ReplayTally,
    ttl_ms: u64,
    min_occurrences: usize,
    max_bytes: u64,
)
    requires
        tallied(fs, t, ttl_ms, min_occurrences, max_bytes),
    ensures
        t.projected_hits <= t.eligible,
        t.eligible <= t.parsed,
        t.parsed <= fs.len(),
        t.distinct_hard <= t.parsed,
{
    lemma_hits_only_on_eligible_events(cache_events(fs), ttl_ms as int);
    lemma_events_count_eligible_rows(fs);
    lemma_how_many_implied(fs, eligible_row(), parsed_row());
    lemma_how_many_le(fs, parsed_row());
    lemma_parsed_hards_count(fs);
}


/// What the projection reads of a parsed row, by value: read-only,
/// deterministic, table count, hard and soft fingerprints, table key, hints.
pub open spec fn parsed_key(p: ParsedFacts) -> (bool, bool, usize, Seq<u8>, Seq<u8>, Seq<char>, bool) {
    (p.read_only, p.deterministic, p.n_tables, p.hard@, p.soft@, p.table_key@, p.has_hints)
}

/// What the projection reads of a row, by value.
pub open spec fn fact_key(f: RowFacts) -> (
    Option<(bool, bool, usize, Seq<u8>, Seq<u8>, Seq<char>, bool)>,
    Option<u64>,
    Option<i64>,
    bool,
    bool,
) {
    (
        match f.parsed {
            Some(p) => Some(parsed_key(p)),
            None => None,
        },
        f.bytes_scanned,
        f.start_ms,
        f.has_query_tag,
        f.dbt_meta,
    )
}

pub open spec fn fact_keys(fs: Seq<RowFacts>) -> Seq<
    (Option<(bool, bool, usize, Seq<u8>, Seq<u8>, Seq<char>, bool)>, Option<u64>, Option<i64>, bool, bool),
> {
    fs.map_values(|f: RowFacts| fact_key(f))
}

proof fn lemma_how_many_map<A, B>(s: Seq<A>, f: spec_fn(A) -> B, p: spec_fn(A) -> bool, q: spec_fn(B) -> bool)
    requires
        forall|x: A| #[trigger] p(x) == q(f(x)),
    ensures
        how_many(s, p) == how_many(s.map_values(f), q),
    decreases s.len(),
{
    if s.len() > 0 {
        lemma_how_many_map(s.drop_last(), f, p, q);
        assert(s.map_values(f).drop_last() =~= s.drop_last().map_values(f));
        assert(s.map_values(f).last() == f(s.last()));
    }
}

proof fn lemma_same_elements<A>(s1: Seq<A>, s2: Seq<A>, x: A)
    requires
        s1.to_multiset() == s2.to_multiset(),
    ensures
        s1.contains(x) <==> s2.contains(x),
{
    s1.to_multiset_ensures();
    s2.to_multiset_ensures();
    assert(s1.contains(x) <==> s1.to_multiset().count(x) > 0);
    assert(s2.contains(x) <==> s2.to_multiset().count(x) > 0);
}

/// A row with this key reads the table set `key`.
pub open spec fn key_reads_set(
    k: (Option<(bool, bool, usize, Seq<u8>, Seq<u8>, Seq<char>, bool)>, Option<u64>, Option<i64>, bool, bool),
    key: Seq<char>,
) -> bool {
    k.0 matches Some(p) && p.5 == key
}

proof fn lemma_repeats_by_keys(fs: Seq<RowFacts>, key: Seq<char>)
    ensures
        repeats(fs, key) == how_many(
            fact_keys(fs),
            |k: (Option<(bool, bool, usize, Seq<u8>, Seq<u8>, Seq<char>, bool)>, Option<u64>, Option<i64>, bool, bool)|
                key_reads_set(k, key),
        ),
{
    lemma_how_many_map(
        fs,
        |f: RowFacts| fact_key(f),
        reads_set(key),
        |k: (Option<(bool, bool, usize, Seq<u8>, Seq<u8>, Seq<char>, bool)>, Option<u64>, Option<i64>, bool, bool)|
            key_reads_set(k, key),
    );
}

/// The counts of a replay depend on what was read of the rows, not on the
/// rows' order or on which values carried it: two histories, each in
/// replay order, whose rows read alike up to order tally alike.
pub proof fn law_tally_follows_fact_keys(
    fs1: Seq<RowFacts>,
    fs2: Seq<RowFacts>,
    t1: ReplayTally,
    t2: ReplayTally,
    ttl_ms: u64,
    min_occurrences: usize,
    max_bytes: u64,
)
    requires
        tallied(fs1, t1, ttl_ms, min_occurrences, max_bytes),
        tallied(fs2, t2, ttl_ms, min_occurrences, max_bytes),
        time_sorted(cache_events(fs1)),
        time_sorted(cache_events(fs2)),
        fact_keys(fs1).to_multiset() == fact_keys(fs2).to_multiset(),
    ensures
        t1.parsed == t2.parsed,
        t1.parse_failures == t2.parse_failures,
        t1.distinct_hard == t2.distinct_hard,
        t1.distinct_soft == t2.distinct_soft,
        t1.eligible == t2.eligible,
        t1.projected_hits == t2.projected_hits,
        t1.routable_queries == t2.routable_queries,
        t1.with_query_tag == t2.with_query_tag,
        t1.with_hints == t2.with_hints,
        t1.with_dbt_meta == t2.with_dbt_meta,
{
    let k1 = fact_keys(fs1);
    let k2 = fact_keys(fs2);
    let fk = |f: RowFacts| fact_key(f);
    k1.to_multiset_ensures();
    k2.to_multiset_ensures();
    assert(k1.to_multiset().len() == k2.to_multiset().len());
    assert(fs1.len() == k1.len() && fs2.len() == k2.len());
    let kp = |k: (Option<(bool, bool, usize, Seq<u8>, Seq<u8>, Seq<char>, bool)>, Option<u64>, Option<i64>, bool, bool)| k.0 is Some;
    lemma_how_many_map(fs1, fk, parsed_row(), kp);
    lemma_how_many_map(fs2, fk, parsed_row(), kp);
    lemma_how_many_permutation(k1, k2, kp);
    let ke = |k: (Option<(bool, bool, usize, Seq<u8>, Seq<u8>, Seq<char>, bool)>, Option<u64>, Option<i64>, bool, bool)|
        k.0 matches Some(p) && p.0 && p.1 && p.2 > 0;
    lemma_how_many_map(fs1, fk, eligible_row(), ke);
    lemma_how_many_map(fs2, fk, eligible_row(), ke);
    lemma_how_many_permutation(k1, k2, ke);
    let kt = |k: (Option<(bool, bool, usize, Seq<u8>, Seq<u8>, Seq<char>, bool)>, Option<u64>, Option<i64>, bool, bool)| k.0 is Some && k.3;
    lemma_how_many_map(fs1, fk, tagged_row(), kt);
    lemma_how_many_map(fs2, fk, tagged_row(), kt);
    lemma_how_many_permutation(k1, k2, kt);
    let kh = |k: (Option<(bool, bool, usize, Seq<u8>, Seq<u8>, Seq<char>, bool)>, Option<u64>, Option<i64>, bool, bool)|
        k.0 matches Some(p) && p.6;
    lemma_how_many_map(fs1, fk, hinted_row(), kh);
    lemma_how_many_map(fs2, fk, hinted_row(), kh);
    lemma_how_many_permutation(k1, k2, kh);
    let kd = |k: (Option<(bool, bool, usize, Seq<u8>, Seq<u8>, Seq<char>, bool)>, Option<u64>, Option<i64>, bool, bool)| k.0 is Some && k.4;
    lemma_how_many_map(fs1, fk, dbt_row(), kd);
    lemma_how_many_map(fs2, fk, dbt_row(), kd);
    lemma_how_many_permutation(k1, k2, kd);
    // the cache events are a function of the keys
    let kev = |k: (Option<(bool, bool, usize, Seq<u8>, Seq<u8>, Seq<char>, bool)>, Option<u64>, Option<i64>, bool, bool)|
        (
            k.0 matches Some(p) && p.0 && p.1 && p.2 > 0,
            match k.0 {
                Some(p) => p.3,
                None => Seq::new(32, |i: int| 0u8),
            },
            k.2,
        );
    assert(cache_events(fs1) =~= k1.map_values(kev));
    assert(cache_events(fs2) =~= k2.map_values(kev));
    lemma_map_permutation(k1, k2, kev);
    law_projection_ignores_input_order(cache_events(fs1), cache_events(fs2), ttl_ms as int);
    // routing
    let q1 = |f: RowFacts| routable_row(fs1, f, min_occurrences, max_bytes);
    let q2 = |f: RowFacts| routable_row(fs2, f, min_occurrences, max_bytes);
    lemma_how_many_flags(fs1, t1.routable@, q1);
    lemma_how_many_flags(fs2, t2.routable@, q2);
    assert forall|key: Seq<char>| #[trigger] repeats(fs1, key) == repeats(fs2, key) by {
        lemma_repeats_by_keys(fs1, key);
        lemma_repeats_by_keys(fs2, key);
        lemma_how_many_permutation(
            k1,
            k2,
            |k: (Option<(bool, bool, usize, Seq<u8>, Seq<u8>, Seq<char>, bool)>, Option<u64>, Option<i64>, bool, bool)|
                key_reads_set(k, key),
        );
    }
    let kr = |k: (Option<(bool, bool, usize, Seq<u8>, Seq<u8>, Seq<char>, bool)>, Option<u64>, Option<i64>, bool, bool)|
        k.0 matches Some(p) && p.0 && p.1 && p.2 > 0 && repeats(fs1, p.5) >= min_occurrences && match k.1 {
            Some(b) => b < max_bytes,
            None => u64::MAX < max_bytes,
        };
    assert forall|f: RowFacts| #[trigger] q1(f) == kr(fk(f)) by {}
    assert forall|f: RowFacts| #[trigger] q2(f) == kr(fk(f)) by {
        if let Some(p) = f.parsed {
            assert(repeats(fs1, p.table_key@) == repeats(fs2, p.table_key@));
        }
    }
    lemma_how_many_map(fs1, fk, q1, kr);
    lemma_how_many_map(fs2, fk, q2, kr);
    lemma_how_many_permutation(k1, k2, kr);
    // distinct fingerprints
    assert(key_set(parsed_hards(fs1)) =~= key_set(parsed_hards(fs2))) by {
        assert forall|v: Seq<u8>| #[trigger] key_set(parsed_hards(fs1)).contains(v) <==> key_set(parsed_hards(fs2)).contains(v) by {
            lemma_parsed_hards_members(fs1, v);
            lemma_parsed_hards_members(fs2, v);
            if key_set(parsed_hards(fs1)).contains(v) {
                let i = choose|i: int| 0 <= i < fs1.len() && has_hard(#[trigger] fs1[i], v);
                assert(k1[i] == fact_key(fs1[i]));
                lemma_same_elements(k1, k2, k1[i]);
                assert(k1.contains(k1[i]));
                let j = choose|j: int| 0 <= j < k2.len() && k2[j] == k1[i];
                assert(k2[j] == fact_key(fs2[j]));
                assert(has_hard(fs2[j], v));
            }
            if key_set(parsed_hards(fs2)).contains(v) {
                let i = choose|i: int| 0 <= i < fs2.len() && has_hard(#[trigger] fs2[i], v);
                assert(k2[i] == fact_key(fs2[i]));
                lemma_same_elements(k1, k2, k2[i]);
                assert(k2.contains(k2[i]));
                let j = choose|j: int| 0 <= j < k1.len() && k1[j] == k2[i];
                assert(k1[j] == fact_key(fs1[j]));
                assert(has_hard(fs1[j], v));
            }
        }
    }
    assert(seq_set(parsed_softs(fs1)) =~= seq_set(parsed_softs(fs2))) by {
        assert forall|v: Seq<u8>| #[trigger] seq_set(parsed_softs(fs1)).contains(v) <==> seq_set(parsed_softs(fs2)).contains(v) by {
            lemma_parsed_softs_members(fs1, v);
            lemma_parsed_softs_members(fs2, v);
            if seq_set(parsed_softs(fs1)).contains(v) {
                let i = choose|i: int| 0 <= i < fs1.len() && has_soft(#[trigger] fs1[i], v);
                assert(k1[i] == fact_key(fs1[i]));
                lemma_same_elements(k1, k2, k1[i]);
                assert(k1.contains(k1[i]));
                let j = choose|j: int| 0 <= j < k2.len() && k2[j] == k1[i];
                assert(k2[j] == fact_key(fs2[j]));
                assert(has_soft(fs2[j], v));
            }
            if seq_set(parsed_softs(fs2)).contains(v) {
                let i = choose|i: int| 0 <= i < fs2.len() && has_soft(#[trigger] fs2[i], v);
                assert(k2[i] == fact_key(fs2[i]));
                lemma_same_elements(k1, k2, k2[i]);
                assert(k2.contains(k2[i]));
                let j = choose|j: int| 0 <= j < k1.len() && k1[j] == k2[i];
                assert(k1[j] == fact_key(fs1[j]));
                assert(has_soft(fs1[j], v));
            }
        }
    }
}


/// What every reading of `row` by `facts_of` gives, by value.
pub open spec fn row_key(row: HistoryRow) -> (
    Option<(bool, bool, usize, Seq<u8>, Seq<u8>, Seq<char>, bool)>,
    Option<u64>,
    Option<i64>,
    bool,
    bool,
) {
    fact_key(choose|f: RowFacts| facts_of(row, f))
}

proof fn lemma_fact_key_of_row(row: HistoryRow, f: RowFacts)
    requires
        facts_of(row, f),
    ensures
        fact_key(f) == row_key(row),
{
    let g = choose|g: RowFacts| facts_of(row, g);
    law_row_facts_follow_the_row(row, row, f, g);
    if f.parsed is Some {
        assert(parsed_key(f.parsed->0) == parsed_key(g.parsed->0));
    }
}

proof fn lemma_index_permutation<B>(order: Seq<usize>, s: Seq<B>)
    requires
        s.len() <= usize::MAX,
        order.len() == s.len(),
        forall|i: int| 0 <= i < order.len() ==> order[i] < s.len(),
        forall|p: usize| p < s.len() ==> order.contains(p),
    ensures
        order.map_values(|j: usize| s[j as int]).to_multiset() == s.to_multiset(),
{
    let n = s.len();
    let r = Seq::new(n, |i: int| i as usize);
    assert forall|i: int| 0 <= i < n implies #[trigger] r[i] as int == i by {}
    assert(r.no_duplicates()) by {
        assert forall|i: int, j: int| 0 <= i < r.len() && 0 <= j < r.len() && i != j implies r[i] != r[j] by {
            assert(r[i] as int == i);
            assert(r[j] as int == j);
        }
    }
    r.unique_seq_to_set();
    assert(order.to_set() =~= r.to_set()) by {
        assert forall|x: usize| order.to_set().contains(x) <==> r.to_set().contains(x) by {
            if order.contains(x) {
                let i = choose|i: int| 0 <= i < order.len() && order[i] == x;
                assert(r[x as int] == x);
            }
            if r.contains(x) {
                let i = choose|i: int| 0 <= i < r.len() && r[i] == x;
                assert(order.contains(x));
            }
        }
    }
    order.lemma_no_dup_set_cardinality();
    order.lemma_multiset_has_no_duplicates();
    r.lemma_multiset_has_no_duplicates();
    order.to_multiset_ensures();
    r.to_multiset_ensures();
    assert(order.to_multiset() =~= r.to_multiset()) by {
        assert forall|x: usize| order.to_multiset().count(x) == r.to_multiset().count(x) by {
            assert(order.contains(x) <==> order.to_multiset().count(x) > 0);
            assert(r.contains(x) <==> r.to_multiset().count(x) > 0);
            assert(order.to_set().contains(x) == r.to_set().contains(x));
            if order.contains(x) {
                assert(order.to_multiset().contains(x));
                assert(r.to_multiset().contains(x));
            }
        }
    }
    lemma_map_permutation(order, r, |j: usize| s[j as int]);
    assert(r.map_values(|j: usize| s[j as int]) =~= s) by {
        assert forall|i: int| 0 <= i < n implies r.map_values(|j: usize| s[j as int])[i] == s[i] by {
            assert(r[i] as int == i);
        }
    }
}

/// The replay projection does not depend on the order of the history:
/// two histories holding the same rows, in any order, project the same
/// counts (parse coverage, distinct fingerprints, cache eligibility and
/// hits, routable reads, attribution).
pub proof fn law_history_projection_ignores_row_order(
    rows1: Seq<HistoryRow>,
    order1: Seq<usize>,
    fs1: Seq<RowFacts>,
    t1: ReplayTally,
    rows2: Seq<HistoryRow>,
    order2: Seq<usize>,
    fs2: Seq<RowFacts>,
    t2: ReplayTally,
    ttl_ms: u64,
    min_occurrences: usize,
    max_bytes: u64,
)
    requires
        history_projection(rows1, order1, fs1, t1, ttl_ms, min_occurrences, max_bytes),
        history_projection(rows2, order2, fs2, t2, ttl_ms, min_occurrences, max_bytes),
        rows1.to_multiset() == rows2.to_multiset(),
    ensures
        t1.parsed == t2.parsed,
        t1.parse_failures == t2.parse_failures,
        t1.distinct_hard == t2.distinct_hard,
        t1.distinct_soft == t2.distinct_soft,
        t1.eligible == t2.eligible,
        t1.projected_hits == t2.projected_hits,
        t1.routable_queries == t2.routable_queries,
        t1.with_query_tag == t2.with_query_tag,
        t1.with_hints == t2.with_hints,
        t1.with_dbt_meta == t2.with_dbt_meta,
{
    let rk = |row: HistoryRow| row_key(row);
    let s1 = rows1.map_values(rk);
    let s2 = rows2.map_values(rk);
    assert(fact_keys(fs1) =~= order1.map_values(|j: usize| s1[j as int])) by {
        assert forall|i: int| 0 <= i < fs1.len() implies fact_keys(fs1)[i] == s1[order1[i] as int] by {
            lemma_fact_key_of_row(rows1[order1[i] as int], fs1[i]);
        }
    }
    assert(fact_keys(fs2) =~= order2.map_values(|j: usize| s2[j as int])) by {
        assert forall|i: int| 0 <= i < fs2.len() implies fact_keys(fs2)[i] == s2[order2[i] as int] by {
            lemma_fact_key_of_row(rows2[order2[i] as int], fs2[i]);
        }
    }
    lemma_index_permutation(order1, s1);
    lemma_index_permutation(order2, s2);
    lemma_map_permutation(rows1, rows2, rk);
    law_tally_follows_fact_keys(fs1, fs2, t1, t2, ttl_ms, min_occurrences, max_bytes);
}

} // verus!
