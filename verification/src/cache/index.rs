//! The keyed index behind both cache stores: entries by 32-byte fingerprint,
//! with age-ordered eviction and lineage (by-table) invalidation.
use crate::keyed::{as_map, distinct_keys, has_key, lemma_at, lemma_dom_len, lemma_push, lemma_remove, lemma_update};
use vstd::prelude::*;

verus! {

/// What the index needs to know of an entry: when it was inserted, and
/// which tables it read.
pub trait Stamped {
    /// Insertion time, Unix milliseconds.
    spec fn stamp(&self) -> u64;

    /// The entry read `table` (names as stored, upper-cased).
    spec fn reads(&self, table: Seq<char>) -> bool;

    fn stamp_ms(&self) -> (r: u64)
        ensures
            r == self.stamp(),
    ;

    fn reads_table(&self, table: &str) -> (r: bool)
        ensures
            r == self.reads(table@),
    ;
}

/// The set of keys a vector of fingerprints holds.
pub open spec fn key_set(v: Seq<[u8; 32]>) -> Set<Seq<u8>> {
    Set::new(|k: Seq<u8>| exists|i: int| 0 <= i < v.len() && v[i]@ == k)
}

/// `after` is what is left of `before` once entries were evicted, oldest
/// first, down to `target` entries: a sub-map of `before`, of size `target`,
/// and no evicted entry is younger than a kept one.
pub open spec fn evicted_oldest_first<E: Stamped>(
    before: Map<Seq<u8>, E>,
    after: Map<Seq<u8>, E>,
    target: nat,
) -> bool {
    &&& forall|k: Seq<u8>| #[trigger]
        after.contains_key(k) ==> before.contains_key(k) && after[k] == before[k]
    &&& after.dom().len() == target
    &&& forall|gone: Seq<u8>, kept: Seq<u8>|
        before.contains_key(gone) && !after.contains_key(gone) && #[trigger] after.contains_key(kept)
            ==> #[trigger] before[gone].stamp() <= after[kept].stamp()
}

/// Some pair before position `i` has key `k` and an entry that read `t`.
pub open spec fn read_before<E: Stamped>(ps: Seq<(Seq<u8>, E)>, i: int, k: Seq<u8>, t: Seq<char>) -> bool {
    exists|j: int| 0 <= j < i && ps[j].0 == k && ps[j].1.reads(t)
}

/// Two fingerprints are the same bytes.
pub fn same_key(a: &[u8; 32], b: &[u8; 32]) -> (r: bool)
    ensures
        r == (a@ == b@),
{
    let mut i: usize = 0;
    while i < 32
        invariant
            i <= 32,
            forall|j: int| 0 <= j < i ==> a@[j] == b@[j],
        decreases 32 - i,
    {
        if a[i] != b[i] {
            return false;
        }
        i = i + 1;
    }
    assert(a@ =~= b@);
    true
}

/// Entries keyed by fingerprint; no key occurs twice.
#[derive(Debug)]
pub struct EntryIndex<E> {
    items: Vec<([u8; 32], E)>,
}

/// The (key view, entry) pairs of a vector of items.
pub open spec fn item_pairs<E>(items: Seq<([u8; 32], E)>) -> Seq<(Seq<u8>, E)> {
    items.map_values(|p: ([u8; 32], E)| (p.0@, p.1))
}

impl<E> EntryIndex<E> {
    pub closed spec fn pairs(&self) -> Seq<(Seq<u8>, E)> {
        item_pairs(self.items@)
    }

    #[verifier::type_invariant]
    closed spec fn wf(&self) -> bool {
        distinct_keys(self.pairs())
    }
}

impl<E> View for EntryIndex<E> {
    type V = Map<Seq<u8>, E>;

    closed spec fn view(&self) -> Map<Seq<u8>, E> {
        as_map(self.pairs())
    }
}

fn position_in<E>(items: &Vec<([u8; 32], E)>, key: &[u8; 32]) -> (r: Option<usize>)
    ensures
        match r {
            Some(i) => i < items@.len() && item_pairs(items@)[i as int].0 == key@,
            None => !has_key(item_pairs(items@), key@),
        },
{
    let mut i: usize = 0;
    while i < items.len()
        invariant
            i <= items.len(),
            forall|j: int| 0 <= j < i ==> item_pairs(items@)[j].0 != key@,
        decreases items.len() - i,
    {
        if same_key(&items[i].0, key) {
            return Some(i);
        }
        i = i + 1;
    }
    None
}

impl<E> EntryIndex<E> {
    /// No entries.
    pub fn new() -> (r: Self)
        ensures
            r@ == Map::<Seq<u8>, E>::empty(),
    {
        let r = EntryIndex { items: Vec::new() };
        assert(r.pairs() =~= Seq::<(Seq<u8>, E)>::empty());
        assert(r@ =~= Map::<Seq<u8>, E>::empty());
        r
    }

    /// The entry under `key`.
    pub fn get(&self, key: &[u8; 32]) -> (r: Option<&E>)
        ensures
            match r {
                Some(e) => self@.contains_key(key@) && *e == self@[key@],
                None => !self@.contains_key(key@),
            },
    {
        proof {
            use_type_invariant(self);
        }
        match position_in(&self.items, key) {
            Some(i) => {
                proof {
                    lemma_at(self.pairs(), i as int);
                }
                Some(&self.items[i].1)
            },
            None => None,
        }
    }

    pub fn contains_key(&self, key: &[u8; 32]) -> (r: bool)
        ensures
            r == self@.contains_key(key@),
    {
        self.get(key).is_some()
    }

    /// How many entries there are.
    pub fn len(&self) -> (r: usize)
        ensures
            r == self@.dom().len(),
            self@.dom().finite(),
    {
        proof {
            use_type_invariant(self);
            lemma_dom_len(self.pairs());
        }
        self.items.len()
    }

    /// Store `e` under `key`, replacing any entry there.
    pub fn insert(&mut self, key: [u8; 32], e: E)
        ensures
            final(self)@ == old(self)@.insert(key@, e),
    {
        proof {
            use_type_invariant(&*self);
        }
        let mut items: Vec<([u8; 32], E)> = Vec::new();
        std::mem::swap(&mut items, &mut self.items);
        let ghost ps = item_pairs(items@);
        match position_in(&items, &key) {
            Some(i) => {
                proof {
                    lemma_update(ps, i as int, e);
                }
                items.set(i, (key, e));
                assert(item_pairs(items@) =~= ps.update(i as int, (ps[i as int].0, e)));
            },
            None => {
                proof {
                    lemma_push(ps, key@, e);
                }
                items.push((key, e));
                assert(item_pairs(items@) =~= ps.push((key@, e)));
            },
        }
        self.items = items;
    }

    /// Drop the entry under `key`, if any.
    pub fn remove(&mut self, key: &[u8; 32])
        ensures
            final(self)@ == old(self)@.remove(key@),
    {
        proof {
            use_type_invariant(&*self);
        }
        let mut items: Vec<([u8; 32], E)> = Vec::new();
        std::mem::swap(&mut items, &mut self.items);
        let ghost ps = item_pairs(items@);
        match position_in(&items, key) {
            Some(i) => {
                proof {
                    lemma_remove(ps, i as int);
                }
                let _gone = items.remove(i);
                assert(item_pairs(items@) =~= ps.remove(i as int));
            },
            None => {
                assert(as_map(ps) =~= as_map(ps).remove(key@));
            },
        }
        self.items = items;
    }
}

/// The position of an oldest entry of a non-empty item vector.
fn oldest_position<E: Stamped>(items: &Vec<([u8; 32], E)>) -> (r: usize)
    requires
        items@.len() > 0,
    ensures
        r < items@.len(),
        forall|j: int| 0 <= j < items@.len() ==> items@[r as int].1.stamp() <= #[trigger] items@[j].1.stamp(),
{
    let mut m: usize = 0;
    let mut i: usize = 1;
    while i < items.len()
        invariant
            1 <= i <= items.len(),
            m < i,
            forall|j: int| 0 <= j < i ==> items@[m as int].1.stamp() <= #[trigger] items@[j].1.stamp(),
        decreases items.len() - i,
    {
        if items[i].1.stamp_ms() < items[m].1.stamp_ms() {
            m = i;
        }
        i = i + 1;
    }
    m
}

impl<E: Stamped> EntryIndex<E> {
    /// Evict oldest entries until at most `target` remain; returns the
    /// evicted keys. Entries inserted at the same instant leave in no
    /// particular order.
    pub fn evict_oldest(&mut self, target: usize) -> (evicted: Vec<[u8; 32]>)
        ensures
            old(self)@.dom().len() <= target ==> final(self)@ == old(self)@ && evicted@.len() == 0,
            old(self)@.dom().len() > target ==> evicted_oldest_first(
                old(self)@,
                final(self)@,
                target as nat,
            ),
            key_set(evicted@) == old(self)@.dom().difference(final(self)@.dom()),
    {
        proof {
            use_type_invariant(&*self);
            lemma_dom_len(self.pairs());
        }
        let mut items: Vec<([u8; 32], E)> = Vec::new();
        std::mem::swap(&mut items, &mut self.items);
        let ghost orig = as_map(item_pairs(items@));
        let mut evicted: Vec<[u8; 32]> = Vec::new();
        assert(key_set(evicted@) =~= Set::<Seq<u8>>::empty());
        if items.len() <= target {
            self.items = items;
            assert(key_set(evicted@) =~= orig.dom().difference(self@.dom()));
            return evicted;
        }
        while items.len() > target
            invariant
                distinct_keys(item_pairs(items@)),
                items@.len() >= target,
                forall|k: Seq<u8>| #[trigger]
                    as_map(item_pairs(items@)).contains_key(k) ==> orig.contains_key(k)
                        && as_map(item_pairs(items@))[k] == orig[k],
                forall|k: Seq<u8>|
                    orig.contains_key(k) && !as_map(item_pairs(items@)).contains_key(k)
                        <==> #[trigger] key_set(evicted@).contains(k),
                forall|gone: Seq<u8>, kept: Seq<u8>|
                    orig.contains_key(gone) && !as_map(item_pairs(items@)).contains_key(gone)
                        && #[trigger] as_map(item_pairs(items@)).contains_key(kept) ==> #[trigger] orig[gone].stamp()
                        <= as_map(item_pairs(items@))[kept].stamp(),
            decreases items@.len(),
        {
            let ghost ps = item_pairs(items@);
            let ghost cur = as_map(ps);
            let m = oldest_position(&items);
            proof {
                lemma_remove(ps, m as int);
                lemma_at(ps, m as int);
            }
            let (k, e) = items.remove(m);
            let ghost es = e.stamp();
            let ghost qs = item_pairs(items@);
            assert(qs =~= ps.remove(m as int));
            assert(k@ == ps[m as int].0);
            assert(as_map(qs) == cur.remove(k@));
            // the removed entry is no younger than any that stays
            assert forall|kept: Seq<u8>| #[trigger] as_map(qs).contains_key(kept) implies e.stamp()
                <= as_map(qs)[kept].stamp() by {
                let j = choose|j: int| 0 <= j < ps.len() && ps[j].0 == kept;
                lemma_at(ps, j);
                assert(items@.len() + 1 == ps.len());
            }
            let ghost before = evicted@;
            evicted.push(k);
            assert(key_set(evicted@) =~= key_set(before).insert(k@)) by {
                assert forall|x: Seq<u8>| key_set(evicted@).contains(x) implies key_set(
                    before,
                ).insert(k@).contains(x) by {
                    let i = choose|i: int| 0 <= i < evicted@.len() && evicted@[i]@ == x;
                    if i < before.len() {
                        assert(evicted@[i] == before[i]);
                    }
                }
                assert forall|x: Seq<u8>| key_set(before).insert(k@).contains(x) implies key_set(
                    evicted@,
                ).contains(x) by {
                    if x == k@ {
                        assert(evicted@[before.len() as int]@ == x);
                    } else {
                        let i = choose|i: int| 0 <= i < before.len() && before[i]@ == x;
                        assert(evicted@[i] == before[i]);
                    }
                }
            }

        }
        proof {
            lemma_dom_len(item_pairs(items@));
        }
        self.items = items;
        assert(key_set(evicted@) =~= orig.dom().difference(self@.dom()));
        evicted
    }

    /// Drop every entry that read `table`; returns the dropped keys.
    pub fn remove_reading(&mut self, table: &str) -> (dropped: Vec<[u8; 32]>)
        ensures
            key_set(dropped@) == Set::new(
                |k: Seq<u8>| old(self)@.contains_key(k) && old(self)@[k].reads(table@),
            ),
            final(self)@ == old(self)@.remove_keys(key_set(dropped@)),
            final(self)@.dom().len() + dropped@.len() == old(self)@.dom().len(),
    {
        proof {
            use_type_invariant(&*self);
            lemma_dom_len(self.pairs());
        }
        let ghost ps = self.pairs();
        let ghost orig = self@;
        let mut doomed: Vec<[u8; 32]> = Vec::new();
        let mut i: usize = 0;
        while i < self.items.len()
            invariant
                i <= self.items.len(),
                ps == self.pairs(),
                orig == self@,
                distinct_keys(ps),
                forall|a: int| 0 <= a < doomed@.len() ==> #[trigger] read_before(ps, i as int, doomed@[a]@, table@),
                forall|j: int| 0 <= j < i && #[trigger] ps[j].1.reads(table@) ==> key_set(
                    doomed@,
                ).contains(ps[j].0),
                forall|a: int, b: int|
                    0 <= a < b < doomed@.len() ==> #[trigger] doomed@[a]@ != #[trigger] doomed@[b]@,
            decreases self.items.len() - i,
        {
            if self.items[i].1.reads_table(table) {
                let ghost before = doomed@;
                let k = self.items[i].0;
                assert(ps[i as int].0 == k@);
                assert forall|a: int| 0 <= a < before.len() implies before[a]@ != k@ by {
                    assert(read_before(ps, i as int, before[a]@, table@));
                    let j = choose|j: int|
                        0 <= j < i && ps[j].0 == before[a]@ && ps[j].1.reads(table@);
                    assert(j != i);
                }
                doomed.push(k);
                assert(doomed@[before.len() as int] == k);
                assert forall|j: int| 0 <= j <= i && #[trigger] ps[j].1.reads(table@) implies key_set(
                    doomed@,
                ).contains(ps[j].0) by {
                    if j < i {
                        let a = choose|a: int| 0 <= a < before.len() && before[a]@ == ps[j].0;
                        assert(doomed@[a] == before[a]);
                    } else {
                        assert(doomed@[before.len() as int]@ == ps[j].0);
                    }
                }
                assert forall|a: int| 0 <= a < doomed@.len() implies #[trigger] read_before(
                    ps,
                    i + 1,
                    doomed@[a]@,
                    table@,
                ) by {
                    if a < before.len() {
                        assert(doomed@[a] == before[a]);
                        assert(read_before(ps, i as int, before[a]@, table@));
                        let j = choose|j: int|
                            0 <= j < i && ps[j].0 == before[a]@ && ps[j].1.reads(table@);
                        assert(ps[j].0 == doomed@[a]@);
                    } else {
                        assert(ps[i as int].0 == doomed@[a]@);
                    }
                }
            } else {
                assert forall|a: int| 0 <= a < doomed@.len() implies #[trigger] read_before(
                    ps,
                    i + 1,
                    doomed@[a]@,
                    table@,
                ) by {
                    assert(read_before(ps, i as int, doomed@[a]@, table@));
                    let j = choose|j: int|
                        0 <= j < i && ps[j].0 == doomed@[a]@ && ps[j].1.reads(table@);
                    assert(ps[j].0 == doomed@[a]@);
                }
            }
            i = i + 1;
        }
        let ghost target_set = Set::new(
            |k: Seq<u8>| orig.contains_key(k) && orig[k].reads(table@),
        );
        assert(key_set(doomed@) =~= target_set) by {
            assert forall|k: Seq<u8>| key_set(doomed@).contains(k) implies target_set.contains(k) by {
                let a = choose|a: int| 0 <= a < doomed@.len() && doomed@[a]@ == k;
                assert(read_before(ps, ps.len() as int, doomed@[a]@, table@));
                let j = choose|j: int|
                    0 <= j < ps.len() && ps[j].0 == doomed@[a]@ && ps[j].1.reads(table@);
                lemma_at(ps, j);
            }
            assert forall|k: Seq<u8>| target_set.contains(k) implies key_set(doomed@).contains(k) by {
                let j = choose|j: int| 0 <= j < ps.len() && ps[j].0 == k;
                lemma_at(ps, j);
                assert(ps[j].1.reads(table@));
            }
        }
        assert(doomed@.take(0) =~= Seq::<[u8; 32]>::empty());
        assert(key_set(doomed@.take(0)) =~= Set::<Seq<u8>>::empty());
        assert(orig.remove_keys(Set::<Seq<u8>>::empty()) =~= orig);
        let mut d: usize = 0;
        while d < doomed.len()
            invariant
                d <= doomed.len(),
                self@ == orig.remove_keys(key_set(doomed@.take(d as int))),
                self@.dom().finite(),
                self@.dom().len() + d == orig.dom().len(),
                key_set(doomed@) == target_set,
                target_set == Set::new(
                    |k: Seq<u8>| orig.contains_key(k) && orig[k].reads(table@),
                ),
                forall|a: int, b: int|
                    0 <= a < b < doomed@.len() ==> #[trigger] doomed@[a]@ != #[trigger] doomed@[b]@,
            decreases doomed.len() - d,
        {
            let k = doomed[d];
            let ghost prev = self@;
            assert(key_set(doomed@).contains(k@)) by {
                assert(doomed@[d as int]@ == k@);
            }
            assert(!key_set(doomed@.take(d as int)).contains(k@)) by {
                if key_set(doomed@.take(d as int)).contains(k@) {
                    let a = choose|a: int|
                        0 <= a < doomed@.take(d as int).len() && doomed@.take(d as int)[a]@ == k@;
                    assert(doomed@[a]@ == doomed@[d as int]@);
                }
            }
            assert(target_set.contains(k@));
            assert(orig.contains_key(k@));
            assert(prev.contains_key(k@));
            self.remove(&k);
            let ghost t0 = doomed@.take(d as int);
            let ghost t1 = doomed@.take(d + 1);
            assert(key_set(t1) =~= key_set(t0).insert(k@)) by {
                assert forall|x: Seq<u8>| key_set(t1).contains(x) implies key_set(t0).insert(
                    k@,
                ).contains(x) by {
                    let a = choose|a: int| 0 <= a < t1.len() && t1[a]@ == x;
                    if a < t0.len() {
                        assert(t0[a] == t1[a]);
                    }
                }
                assert forall|x: Seq<u8>| key_set(t0).insert(k@).contains(x) implies key_set(
                    t1,
                ).contains(x) by {
                    if x == k@ {
                        assert(t1[t0.len() as int]@ == x);
                    } else {
                        let a = choose|a: int| 0 <= a < t0.len() && t0[a]@ == x;
                        assert(t1[a] == t0[a]);
                    }
                }
            }
            assert(self@ =~= orig.remove_keys(key_set(doomed@.take(d + 1))));
            assert(self@.dom() =~= prev.dom().remove(k@));
            d = d + 1;
        }
        assert(doomed@.take(doomed@.len() as int) =~= doomed@);
        doomed
    }
}

} // verus!
