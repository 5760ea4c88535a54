//! Ordered plugin execution and deterministic decision merging.
//!
//! Conflict precedence (highest first):
//! 1. `Veto` short-circuits everything (admin policy).
//! 2. `ServeFromCache` short-circuits the response.
//! 3. `Route` chooses the target engine.
//! 4. `Rewrite` is applied before submission to the chosen engine.
//! 5. `SetWarehouseSize` is applied iff the route is Snowflake.
//! 6. `Annotate` is additive.
//!
//! Within one kind the earliest plugin (lowest order) wins; annotations
//! merge first-writer-wins per key. Plugin failures are fail-open.
use crate::error::Result;
use crate::plugin::{CacheKey, Decision, Engine, QueryTags, VetoReason, WarehouseSize};
use vstd::prelude::*;

verus! {

/// What a resolution decides: veto reason, cache key, engine, rewritten
/// SQL, warehouse size, annotations.
pub type ResolutionModel = (
    Option<Seq<char>>,
    Option<CacheKey>,
    Option<Engine>,
    Option<Seq<char>>,
    Option<WarehouseSize>,
    Map<Seq<char>, Seq<char>>,
);

pub open spec fn first<T>(cur: Option<T>, new: T) -> Option<T> {
    if cur is Some {
        cur
    } else {
        Some(new)
    }
}

/// Merge one decision into a resolution: the first value of each kind
/// stays, annotations keep the first value per key, compositions merge in
/// order.
pub open spec fn merge_model(m: ResolutionModel, d: Decision) -> ResolutionModel
    decreases d,
{
    match d {
        Decision::Passthrough => m,
        Decision::Veto(r) => (first(m.0, r.0@), m.1, m.2, m.3, m.4, m.5),
        Decision::ServeFromCache(k) => (m.0, first(m.1, k), m.2, m.3, m.4, m.5),
        Decision::Route(e) => (m.0, m.1, first(m.2, e), m.3, m.4, m.5),
        Decision::Rewrite(s) => (m.0, m.1, m.2, first(m.3, s@), m.4, m.5),
        Decision::SetWarehouseSize(z) => (m.0, m.1, m.2, m.3, first(m.4, z), m.5),
        Decision::Annotate(t) => (m.0, m.1, m.2, m.3, m.4, t@.union_prefer_right(m.5)),
        Decision::Compose(ds) => merge_seq(m, ds@),
    }
}

pub open spec fn merge_seq(m: ResolutionModel, ds: Seq<Decision>) -> ResolutionModel
    decreases ds,
{
    if ds.len() == 0 {
        m
    } else {
        merge_seq(merge_model(m, ds[0]), ds.drop_first())
    }
}

/// `later` keeps every decision `earlier` had already taken: each kind
/// already set keeps its value, and each annotation keeps its value.
pub open spec fn keeps(earlier: ResolutionModel, later: ResolutionModel) -> bool {
    &&& earlier.0 is Some ==> later.0 == earlier.0
    &&& earlier.1 is Some ==> later.1 == earlier.1
    &&& earlier.2 is Some ==> later.2 == earlier.2
    &&& earlier.3 is Some ==> later.3 == earlier.3
    &&& earlier.4 is Some ==> later.4 == earlier.4
    &&& forall|k: Seq<char>|
        #[trigger] earlier.5.contains_key(k) ==> later.5.contains_key(k) && later.5[k]
            == earlier.5[k]
}

/// First writer wins: merging any decision, however composed, never
/// overrides what earlier plugins decided.
pub proof fn law_first_writer_wins(m: ResolutionModel, d: Decision)
    ensures
        keeps(m, merge_model(m, d)),
    decreases d,
{
    match d {
        Decision::Compose(ds) => {
            assert(decreases_to!(d => d->Compose_0));
            lemma_merge_seq_keeps(m, ds@);
        },
        _ => {},
    }
}

proof fn lemma_merge_seq_keeps(m: ResolutionModel, ds: Seq<Decision>)
    ensures
        keeps(m, merge_seq(m, ds)),
    decreases ds,
{
    if ds.len() > 0 {
        law_first_writer_wins(m, ds[0]);
        lemma_merge_seq_keeps(merge_model(m, ds[0]), ds.drop_first());
    }
}

/// Plugin `a` runs before plugin `b`: lower order first, ties in
/// registration order.
pub open spec fn runs_before(orders: Seq<i32>, a: int, b: int) -> bool {
    orders[a] < orders[b] || (orders[a] == orders[b] && a < b)
}

/// The execution order of plugins registered with these orders: every
/// position once, lower order first, ties in registration order.
pub fn execution_order(orders: &Vec<i32>) -> (r: Vec<usize>)
    ensures
        r@.len() == orders@.len(),
        forall|i: int| 0 <= i < r@.len() ==> r@[i] < orders@.len(),
        forall|p: usize| p < orders@.len() ==> r@.contains(p),
        forall|i: int, j: int|
            0 <= i < j < r@.len() ==> runs_before(orders@, r@[i] as int, r@[j] as int),
{
    let mut r: Vec<usize> = Vec::new();
    let mut idx: usize = 0;
    while idx < orders.len()
        invariant
            idx <= orders.len(),
            r@.len() == idx,
            forall|i: int| 0 <= i < r@.len() ==> r@[i] < idx,
            forall|p: usize| p < idx ==> r@.contains(p),
            forall|i: int, j: int|
                0 <= i < j < r@.len() ==> runs_before(orders@, r@[i] as int, r@[j] as int),
        decreases orders.len() - idx,
    {
        let mut pos: usize = 0;
        while pos < r.len() && orders[r[pos]] <= orders[idx]
            invariant
                pos <= r@.len(),
                r@.len() == idx,
                idx < orders.len(),
                forall|i: int| 0 <= i < r@.len() ==> r@[i] < idx,
                forall|k: int| 0 <= k < pos ==> orders@[r@[k] as int] <= orders@[idx as int],
            decreases r@.len() - pos,
        {
            pos = pos + 1;
        }
        let ghost old_r = r@;
        r.insert(pos, idx);
        proof {
            assert(r@ =~= old_r.insert(pos as int, idx));
            assert forall|i: int, j: int| 0 <= i < j < r@.len() implies runs_before(
                orders@,
                r@[i] as int,
                r@[j] as int,
            ) by {
                if j == pos {
                    assert(r@[i] == old_r[i]);
                } else if i == pos {
                    assert(r@[j] == old_r[j - 1]);
                    if pos < old_r.len() {
                        assert(orders@[old_r[pos as int] as int] > orders@[idx as int]);
                        if j - 1 > pos {
                            assert(runs_before(orders@, old_r[pos as int] as int, old_r[j - 1] as int));
                        }
                    }
                } else if i < pos && j > pos {
                    assert(r@[i] == old_r[i]);
                    assert(r@[j] == old_r[j - 1]);
                } else if j < pos {
                    assert(r@[i] == old_r[i]);
                    assert(r@[j] == old_r[j]);
                } else {
                    assert(r@[i] == old_r[i - 1]);
                    assert(r@[j] == old_r[j - 1]);
                }
            }
            assert forall|p: usize| p < idx + 1 implies r@.contains(p) by {
                if p == idx {
                    assert(r@[pos as int] == idx);
                } else {
                    assert(old_r.contains(p));
                    let k = choose|k: int| 0 <= k < old_r.len() && old_r[k] == p;
                    if k < pos {
                        assert(r@[k] == p);
                    } else {
                        assert(r@[k + 1] == p);
                    }
                }
            }
        }
        idx = idx + 1;
    }
    r
}

/// The merged outcome of one bus pass.
#[derive(Debug)]
pub struct Resolution {
    pub veto: Option<VetoReason>,
    pub serve_from_cache: Option<CacheKey>,
    pub route: Option<Engine>,
    pub rewrite: Option<String>,
    pub warehouse_size: Option<WarehouseSize>,
    pub annotations: QueryTags,
    /// (plugin name, decision) in execution order.
    pub trail: Vec<(String, Decision)>,
}

impl Resolution {
    pub open spec fn model(&self) -> ResolutionModel {
        (
            match self.veto {
                Some(r) => Some(r.0@),
                None => None,
            },
            self.serve_from_cache,
            self.route,
            match self.rewrite {
                Some(s) => Some(s@),
                None => None,
            },
            self.warehouse_size,
            self.annotations@,
        )
    }

    /// Nothing decided yet.
    pub fn new() -> (r: Self)
        ensures
            r.model() == (
                None::<Seq<char>>,
                None::<CacheKey>,
                None::<Engine>,
                None::<Seq<char>>,
                None::<WarehouseSize>,
                Map::<Seq<char>, Seq<char>>::empty(),
            ),
            r.trail@.len() == 0,
    {
        Resolution {
            veto: None,
            serve_from_cache: None,
            route: None,
            rewrite: None,
            warehouse_size: None,
            annotations: QueryTags::new(),
            trail: Vec::new(),
        }
    }

    /// No plugin asked for anything but annotations.
    pub fn is_passthrough(&self) -> (r: bool)
        ensures
            r == (self.veto is None && self.serve_from_cache is None && self.route is None
                && self.rewrite is None && self.warehouse_size is None),
    {
        self.veto.is_none() && self.serve_from_cache.is_none() && self.route.is_none()
            && self.rewrite.is_none() && self.warehouse_size.is_none()
    }

    /// Take one plugin's outcome in. A failed plugin is skipped (fail-open);
    /// a decision is merged and recorded in the trail. Returns whether later
    /// plugins should still run: not once a veto stands.
    pub fn absorb(&mut self, plugin: String, outcome: Result<Decision>) -> (keep_going: bool)
        ensures
            match outcome {
                Ok(d) => final(self).model() == merge_model(old(self).model(), d)
                    && final(self).trail@ == old(self).trail@.push((plugin, d)),
                Err(_) => final(self).model() == old(self).model() && final(self).trail@ == old(
                    self,
                ).trail@,
            },
            keep_going == (final(self).veto is None),
    {
        match outcome {
            Ok(d) => {
                merge(self, &d);
                self.trail.push((plugin, d));
                self.veto.is_none()
            },
            Err(_) => self.veto.is_none(),
        }
    }
}

/// Merge one decision into the resolution.
pub fn merge(resolution: &mut Resolution, decision: &Decision)
    ensures
        final(resolution).model() == merge_model(old(resolution).model(), *decision),
        final(resolution).trail@ == old(resolution).trail@,
    decreases decision,
{
    match decision {
        Decision::Passthrough => {},
        Decision::Veto(reason) => {
            if resolution.veto.is_none() {
                resolution.veto = Some(VetoReason(reason.0.clone()));
            }
        },
        Decision::ServeFromCache(key) => {
            if resolution.serve_from_cache.is_none() {
                resolution.serve_from_cache = Some(*key);
            }
        },
        Decision::Route(engine) => {
            if resolution.route.is_none() {
                resolution.route = Some(*engine);
            }
        },
        Decision::Rewrite(sql) => {
            if resolution.rewrite.is_none() {
                resolution.rewrite = Some(sql.clone());
            }
        },
        Decision::SetWarehouseSize(size) => {
            if resolution.warehouse_size.is_none() {
                resolution.warehouse_size = Some(*size);
            }
        },
        Decision::Annotate(tags) => {
            let entries = tags.entries();
            let ghost ps = entries@.map_values(|p: (String, String)| (p.0@, p.1@));
            let ghost start = resolution.annotations@;
            let mut i: usize = 0;
            while i < entries.len()
                invariant
                    i <= entries.len(),
                    ps == entries@.map_values(|p: (String, String)| (p.0@, p.1@)),
                    crate::sql::hints::pairs_map(ps) == tags@,
                    crate::plugin::distinct_keys(ps),
                    resolution.annotations@ == crate::sql::hints::pairs_map(
                        ps.take(i as int),
                    ).union_prefer_right(start),
                    resolution.veto == old(resolution).veto,
                    resolution.serve_from_cache == old(resolution).serve_from_cache,
                    resolution.route == old(resolution).route,
                    resolution.rewrite == old(resolution).rewrite,
                    resolution.warehouse_size == old(resolution).warehouse_size,
                    resolution.trail == old(resolution).trail,
                    start == old(resolution).annotations@,
                decreases entries.len() - i,
            {
                assert(ps.take(i + 1).drop_last() =~= ps.take(i as int));
                let k = entries[i].0.clone();
                let v = entries[i].1.clone();
                proof {
                    crate::plugin::lemma_pairs_map_contains(ps.take(i as int), k@);
                    if crate::sql::hints::pairs_map(ps.take(i as int)).contains_key(k@) {
                        let j = choose|j: int|
                            0 <= j < ps.take(i as int).len() && ps.take(i as int)[j].0 == k@;
                        assert(ps[j].0 == ps[i as int].0);
                    }
                }
                resolution.annotations.insert_if_absent(k, v);
                assert(resolution.annotations@ =~= crate::sql::hints::pairs_map(
                    ps.take(i + 1),
                ).union_prefer_right(start));
                i = i + 1;
            }
            assert(ps.take(entries.len() as int) =~= ps);
        },
        Decision::Compose(decisions) => {
            let ghost m0 = old(resolution).model();
            assert(decisions@.skip(0) =~= decisions@);
            let mut i: usize = 0;
            while i < decisions.len()
                invariant
                    i <= decisions.len(),
                    merge_seq(resolution.model(), decisions@.skip(i as int)) == merge_seq(
                        m0,
                        decisions@,
                    ),
                    resolution.trail@ == old(resolution).trail@,
                    *decision == Decision::Compose(*decisions),
                decreases decisions.len() - i,
            {
                assert(decisions@.skip(i as int)[0] == decisions@[i as int]);
                assert(decisions@.skip(i as int).drop_first() =~= decisions@.skip(i + 1));
                proof {
                    assert(decreases_to!(*decision => (*decision)->Compose_0));
                    assert((*decision)->Compose_0 == *decisions);
                    assert(decreases_to!(*decisions => decisions@));
                    assert(decreases_to!(decisions@ => decisions@[i as int]));
                    assert(decreases_to!(*decision => decisions@[i as int]));
                }
                merge(resolution, &decisions[i]);
                i = i + 1;
            }
        },
    }
}

} // verus!
