//! chukei hint comments:
//!
//! ```sql
//! /*+ chukei:team=growth dag=daily_revenue tolerance=approximate size=L */
//! SELECT ...
//! ```
//!
//! Hints ride inside an ordinary SQL comment so they survive every driver
//! and are invisible to Snowflake. They are read from the raw text because
//! the SQL parser discards comments.
use crate::text::{
    find, find_from, from_chars, is_ws, lemma_find_from, literal_chars, occurs_at, occurs_at_exec,
    skip_whitespace, skip_ws, slice_chars, split_whitespace, str_eq, to_chars, to_lowercase,
    unicode_lowercase, words_from,
};
use vstd::prelude::*;

verus! {

pub open spec fn open_marker() -> Seq<char> {
    seq!['/', '*', '+']
}

pub open spec fn close_marker() -> Seq<char> {
    seq!['*', '/']
}

pub open spec fn chukei_marker() -> Seq<char> {
    seq!['c', 'h', 'u', 'k', 'e', 'i', ':']
}

pub open spec fn eq_marker() -> Seq<char> {
    seq!['=']
}

/// A `key=value` word split at its first `=`: the lowercased key and the
/// value, when both are non-empty.
pub open spec fn word_pair(w: Seq<char>) -> Option<(Seq<char>, Seq<char>)> {
    match find_from(w, eq_marker(), 0) {
        Some(i) => {
            let k = w.subrange(0, i);
            let v = w.subrange(i + 1, w.len() as int);
            if k.len() > 0 && v.len() > 0 {
                Some((unicode_lowercase(k), v))
            } else {
                None
            }
        },
        None => None,
    }
}

/// The pairs of a list of words, in order.
pub open spec fn word_pairs(ws: Seq<Seq<char>>) -> Seq<(Seq<char>, Seq<char>)>
    decreases ws.len(),
{
    if ws.len() == 0 {
        seq![]
    } else {
        word_pairs(ws.drop_last()) + match word_pair(ws.last()) {
            Some(p) => seq![p],
            None => seq![],
        }
    }
}

/// The pairs of one comment body: its trimmed text must start with
/// `chukei:`, and the words after that prefix are the pairs.
pub open spec fn comment_pairs(body: Seq<char>) -> Seq<(Seq<char>, Seq<char>)> {
    let st = skip_ws(body, 0);
    if occurs_at(body, chukei_marker(), st) {
        word_pairs(words_from(body, st + 7))
    } else {
        seq![]
    }
}

/// The pairs of every `/*+ ... */` comment of `s` from `pos` on, in order.
pub open spec fn hint_pairs_from(s: Seq<char>, pos: int) -> Seq<(Seq<char>, Seq<char>)>
    decreases s.len() + 1 - pos,
{
    match find_from(s, open_marker(), pos) {
        None => seq![],
        Some(st) => match find_from(s, close_marker(), st + 3) {
            None => seq![],
            Some(e) => {
                proof {
                    lemma_find_from(s, open_marker(), pos);
                    lemma_find_from(s, close_marker(), st + 3);
                }
                comment_pairs(s.subrange(st + 3, e)) + hint_pairs_from(s, e + 2)
            },
        },
    }
}

/// Pairs read in order into a map: a later pair replaces an earlier one
/// with the same key.
pub open spec fn pairs_map(ps: Seq<(Seq<char>, Seq<char>)>) -> Map<Seq<char>, Seq<char>>
    decreases ps.len(),
{
    if ps.len() == 0 {
        Map::empty()
    } else {
        pairs_map(ps.drop_last()).insert(ps.last().0, ps.last().1)
    }
}

/// The hints of one query: every `key=value` pair read, in order. A later
/// pair for the same key wins.
#[derive(Debug, Clone, Default)]
pub struct Hints {
    pub values: Vec<(String, String)>,
}

impl Hints {
    pub open spec fn pairs(&self) -> Seq<(Seq<char>, Seq<char>)> {
        self.values@.map_values(|p: (String, String)| (p.0@, p.1@))
    }
}

impl View for Hints {
    type V = Map<Seq<char>, Seq<char>>;

    open spec fn view(&self) -> Map<Seq<char>, Seq<char>> {
        pairs_map(self.pairs())
    }
}

impl Hints {
    /// The value of `key`, as the last pair for it set it.
    pub fn get(&self, key: &str) -> (r: Option<&str>)
        ensures
            match r {
                Some(v) => self@.contains_key(key@) && v@ == self@[key@],
                None => !self@.contains_key(key@),
            },
    {
        let ghost ps = self.pairs();
        assert(ps.take(ps.len() as int) =~= ps);
        let mut j = self.values.len();
        while j > 0
            invariant
                j <= self.values.len(),
                ps == self.pairs(),
                pairs_map(ps).contains_key(key@) == pairs_map(ps.take(j as int)).contains_key(
                    key@,
                ),
                pairs_map(ps.take(j as int)).contains_key(key@) ==> pairs_map(ps)[key@]
                    == pairs_map(ps.take(j as int))[key@],
            decreases j,
        {
            assert(ps.take(j as int).drop_last() =~= ps.take(j - 1));
            let (k, v) = &self.values[j - 1];
            if str_eq(k.as_str(), key) {
                return Some(v.as_str());
            }
            j = j - 1;
        }
        assert(ps.take(0) =~= Seq::<(Seq<char>, Seq<char>)>::empty());
        None
    }

    /// Whether no hint was read.
    pub fn is_empty(&self) -> (r: bool)
        ensures
            r == (self@.dom() =~= Set::empty()),
    {
        if self.values.len() == 0 {
            assert(self.pairs() =~= Seq::<(Seq<char>, Seq<char>)>::empty());
            true
        } else {
            assert(self@.contains_key(self.pairs().last().0));
            false
        }
    }
}

fn marker(s: &str) -> (r: Vec<char>)
    ensures
        r@ == s@,
{
    literal_chars(s)
}

/// The pair of one word, as `word_pair` states it.
fn word_pair_exec(w: &Vec<char>) -> (r: Option<(String, String)>)
    ensures
        match r {
            Some(p) => word_pair(w@) == Some((p.0@, p.1@)),
            None => word_pair(w@) is None,
        },
{
    let eq = marker("=");
    proof {
        reveal_strlit("=");
    }
    assert(eq@ =~= eq_marker());
    match find(w, &eq, 0) {
        Some(i) => {
            proof {
                lemma_find_from(w@, eq_marker(), 0);
                assert(occurs_at(w@, eq_marker(), i as int));
                assert(eq_marker().len() == 1);
            }
            let n = w.len();
            if i > 0 && i + 1 < n {
                let k = slice_chars(w, 0, i);
                let v = slice_chars(w, i + 1, w.len());
                let ks = from_chars(k.as_slice());
                let kl = to_lowercase(ks.as_str());
                Some((kl, from_chars(v.as_slice())))
            } else {
                None
            }
        },
        None => None,
    }
}

/// Append the pairs of one comment body to `out`.
fn push_comment_pairs(body: &Vec<char>, out: &mut Vec<(String, String)>)
    ensures
        final(out)@.map_values(|p: (String, String)| (p.0@, p.1@)) == old(out)@.map_values(
            |p: (String, String)| (p.0@, p.1@),
        ) + comment_pairs(body@),
{
    let prefix = marker("chukei:");
    proof {
        reveal_strlit("chukei:");
    }
    assert(prefix@ =~= chukei_marker());
    let st = skip_whitespace(body, 0);
    if !occurs_at_exec(body, &prefix, st) {
        assert(old(out)@.map_values(|p: (String, String)| (p.0@, p.1@)) + comment_pairs(body@)
            =~= old(out)@.map_values(|p: (String, String)| (p.0@, p.1@)));
        return ;
    }
    let words = split_whitespace(body, st + 7);
    let ghost ws = words@.map_values(|w: Vec<char>| w@);
    let ghost start = old(out)@.map_values(|p: (String, String)| (p.0@, p.1@));
    let mut i: usize = 0;
    while i < words.len()
        invariant
            i <= words.len(),
            ws == words@.map_values(|w: Vec<char>| w@),
            out@.map_values(|p: (String, String)| (p.0@, p.1@)) == start + word_pairs(
                ws.take(i as int),
            ),
        decreases words.len() - i,
    {
        assert(ws.take(i + 1).drop_last() =~= ws.take(i as int));
        let ghost before = out@.map_values(|p: (String, String)| (p.0@, p.1@));
        match word_pair_exec(&words[i]) {
            Some(p) => {
                out.push(p);
                assert(out@.map_values(|p: (String, String)| (p.0@, p.1@)) =~= before + seq![
                    (p.0@, p.1@),
                ]);
            },
            None => {},
        }
        i = i + 1;
    }
    assert(ws.take(words.len() as int) =~= ws);
}

/// Extract `key=value` pairs from every `/*+ chukei:... */` comment.
pub fn parse(raw_sql: &str) -> (h: Hints)
    ensures
        h.pairs() == hint_pairs_from(raw_sql@, 0),
        h@ == pairs_map(hint_pairs_from(raw_sql@, 0)),
{
    let s = to_chars(raw_sql);
    let open = marker("/*+");
    let close = marker("*/");
    proof {
        reveal_strlit("/*+");
        reveal_strlit("*/");
    }
    assert(open@ =~= open_marker());
    assert(close@ =~= close_marker());
    let mut values: Vec<(String, String)> = Vec::new();
    let mut pos: usize = 0;
    loop
        invariant
            pos <= s.len() + 1,
            s@ == raw_sql@,
            open@ == open_marker(),
            close@ == close_marker(),
            hint_pairs_from(s@, 0) == values@.map_values(|p: (String, String)| (p.0@, p.1@))
                + hint_pairs_from(s@, pos as int),
        ensures
            hint_pairs_from(s@, 0) == values@.map_values(|p: (String, String)| (p.0@, p.1@)),
        decreases s.len() + 1 - pos,
    {
        proof {
            lemma_find_from(s@, open_marker(), pos as int);
        }
        let st = match find(&s, &open, pos) {
            Some(st) => st,
            None => {
                assert(hint_pairs_from(s@, pos as int) =~= Seq::<(Seq<char>, Seq<char>)>::empty());
                assert(values@.map_values(|p: (String, String)| (p.0@, p.1@)) + hint_pairs_from(
                    s@,
                    pos as int,
                ) =~= values@.map_values(|p: (String, String)| (p.0@, p.1@)));
                break ;
            },
        };
        proof {
            lemma_find_from(s@, close_marker(), st + 3);
        }
        let e = match find(&s, &close, st + 3) {
            Some(e) => e,
            None => {
                assert(hint_pairs_from(s@, pos as int) =~= Seq::<(Seq<char>, Seq<char>)>::empty());
                assert(values@.map_values(|p: (String, String)| (p.0@, p.1@)) + hint_pairs_from(
                    s@,
                    pos as int,
                ) =~= values@.map_values(|p: (String, String)| (p.0@, p.1@)));
                break ;
            },
        };
        let body = slice_chars(&s, st + 3, e);
        let ghost before = values@.map_values(|p: (String, String)| (p.0@, p.1@));
        push_comment_pairs(&body, &mut values);
        assert(before + hint_pairs_from(s@, pos as int) =~= values@.map_values(
            |p: (String, String)| (p.0@, p.1@),
        ) + hint_pairs_from(s@, e + 2));
        pos = e + 2;
    }
    Hints { values }
}

} // verus!
