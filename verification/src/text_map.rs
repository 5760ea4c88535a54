//! A small map keyed by text: a vector of `(key, value)` pairs in which no
//! key occurs twice.
use crate::keyed::{as_map, distinct_keys, has_key, lemma_at, lemma_dom_len, lemma_push, lemma_remove, lemma_update};
use crate::text::str_eq;
use vstd::prelude::*;

verus! {

#[derive(Debug)]
pub struct TextMap<V> {
    entries: Vec<(String, V)>,
}

pub open spec fn text_pairs<V>(v: Seq<(String, V)>) -> Seq<(Seq<char>, V)> {
    v.map_values(|p: (String, V)| (p.0@, p.1))
}

impl<V> TextMap<V> {
    #[verifier::type_invariant]
    closed spec fn wf(&self) -> bool {
        distinct_keys(text_pairs(self.entries@))
    }
}

impl<V> View for TextMap<V> {
    type V = Map<Seq<char>, V>;

    closed spec fn view(&self) -> Map<Seq<char>, V> {
        as_map(text_pairs(self.entries@))
    }
}

fn position_of<V>(v: &Vec<(String, V)>, key: &str) -> (r: Option<usize>)
    ensures
        match r {
            Some(i) => i < v@.len() && text_pairs(v@)[i as int].0 == key@,
            None => !has_key(text_pairs(v@), key@),
        },
{
    let mut i: usize = 0;
    while i < v.len()
        invariant
            i <= v.len(),
            forall|j: int| 0 <= j < i ==> text_pairs(v@)[j].0 != key@,
        decreases v.len() - i,
    {
        if str_eq(v[i].0.as_str(), key) {
            return Some(i);
        }
        i = i + 1;
    }
    None
}

impl<V> TextMap<V> {
    pub fn new() -> (r: Self)
        ensures
            r@ == Map::<Seq<char>, V>::empty(),
    {
        let r = TextMap { entries: Vec::new() };
        assert(text_pairs(r.entries@) =~= Seq::<(Seq<char>, V)>::empty());
        assert(r@ =~= Map::<Seq<char>, V>::empty());
        r
    }

    pub fn get(&self, key: &str) -> (r: Option<&V>)
        ensures
            match r {
                Some(v) => self@.contains_key(key@) && *v == self@[key@],
                None => !self@.contains_key(key@),
            },
    {
        proof {
            use_type_invariant(self);
        }
        match position_of(&self.entries, key) {
            Some(i) => {
                proof {
                    lemma_at(text_pairs(self.entries@), i as int);
                }
                Some(&self.entries[i].1)
            },
            None => None,
        }
    }

    pub fn contains_key(&self, key: &str) -> (r: bool)
        ensures
            r == self@.contains_key(key@),
    {
        self.get(key).is_some()
    }

    pub fn len(&self) -> (r: usize)
        ensures
            r == self@.dom().len(),
            self@.dom().finite(),
    {
        proof {
            use_type_invariant(self);
            lemma_dom_len(text_pairs(self.entries@));
        }
        self.entries.len()
    }

    /// Set `key` to `value`, replacing any value it had.
    pub fn insert(&mut self, key: String, value: V)
        ensures
            final(self)@ == old(self)@.insert(key@, value),
    {
        proof {
            use_type_invariant(&*self);
        }
        let mut entries: Vec<(String, V)> = Vec::new();
        std::mem::swap(&mut entries, &mut self.entries);
        let ghost ps = text_pairs(entries@);
        let ghost k = key@;
        match position_of(&entries, key.as_str()) {
            Some(i) => {
                proof {
                    lemma_update(ps, i as int, value);
                }
                entries.set(i, (key, value));
                assert(text_pairs(entries@) =~= ps.update(i as int, (ps[i as int].0, value)));
            },
            None => {
                proof {
                    lemma_push(ps, k, value);
                }
                entries.push((key, value));
                assert(text_pairs(entries@) =~= ps.push((k, value)));
            },
        }
        self.entries = entries;
    }

    /// Take the value under `key` out of the map.
    pub fn remove(&mut self, key: &str) -> (r: Option<V>)
        ensures
            final(self)@ == old(self)@.remove(key@),
            match r {
                Some(v) => old(self)@.contains_key(key@) && v == old(self)@[key@],
                None => !old(self)@.contains_key(key@),
            },
    {
        proof {
            use_type_invariant(&*self);
        }
        let mut entries: Vec<(String, V)> = Vec::new();
        std::mem::swap(&mut entries, &mut self.entries);
        let ghost ps = text_pairs(entries@);
        match position_of(&entries, key) {
            Some(i) => {
                proof {
                    lemma_remove(ps, i as int);
                    lemma_at(ps, i as int);
                }
                let (_k, v) = entries.remove(i);
                assert(text_pairs(entries@) =~= ps.remove(i as int));
                self.entries = entries;
                Some(v)
            },
            None => {
                assert(as_map(ps) =~= as_map(ps).remove(key@));
                self.entries = entries;
                None
            },
        }
    }
}

} // verus!
