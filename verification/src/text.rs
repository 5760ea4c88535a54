//! Character-level text helpers shared by the SQL, config and wire logic.
//! Text is handled as `Vec<char>`, whose view is the string's `Seq<char>`.
use vstd::prelude::*;

verus! {

/// The Unicode `White_Space` property, as `char::is_whitespace` documents it.
pub open spec fn is_ws(c: char) -> bool {
    let u = c as u32;
    ||| (0x09 <= u && u <= 0x0d)
    ||| u == 0x20
    ||| u == 0x85
    ||| u == 0xa0
    ||| u == 0x1680
    ||| (0x2000 <= u && u <= 0x200a)
    ||| u == 0x2028
    ||| u == 0x2029
    ||| u == 0x202f
    ||| u == 0x205f
    ||| u == 0x3000
}

/// Whether `c` is Unicode white space.
pub fn is_whitespace(c: char) -> (r: bool)
    ensures
        r == is_ws(c),
{
    let u = c as u32;
    (0x09 <= u && u <= 0x0d) || u == 0x20 || u == 0x85 || u == 0xa0 || u == 0x1680 || (0x2000
        <= u && u <= 0x200a) || u == 0x2028 || u == 0x2029 || u == 0x202f || u == 0x205f || u
        == 0x3000
}

/// The characters of `s`, in order.
pub fn to_chars(s: &str) -> (r: Vec<char>)
    ensures
        r@ == s@,
{
    let mut out: Vec<char> = Vec::new();
    for c in it: s.chars()
        invariant
            out@ == it.seq().take(it.index() as int),
            it.seq() == s@,
    {
        out.push(c);
    }
    out
}

/// A `String` holding exactly the characters of `v`.
/// Calls `Iterator::collect` into `String`, which appends each `char` in turn.
#[verifier::external_body]
pub(crate) fn from_chars(v: &[char]) -> (r: String)
    ensures
        r@ == v@,
{
    v.iter().collect()
}

/// What `str::to_lowercase` returns for a string. It follows Unicode's
/// lowercase mapping, which takes tables to state; it depends on the
/// characters alone.
pub uninterp spec fn unicode_lowercase(s: Seq<char>) -> Seq<char>;

/// What `str::to_uppercase` returns for a string (Unicode uppercase mapping).
pub uninterp spec fn unicode_uppercase(s: Seq<char>) -> Seq<char>;

/// Every character is ASCII.
pub open spec fn all_ascii(s: Seq<char>) -> bool {
    forall|i: int| 0 <= i < s.len() ==> (#[trigger] s[i] as u32) < 128
}

/// The ASCII lowercase of one character: `A`–`Z` to `a`–`z`, others kept.
pub open spec fn ascii_lower(c: char) -> char {
    if 'A' <= c && c <= 'Z' {
        ((c as u32) + 32) as char
    } else {
        c
    }
}

/// The ASCII uppercase of one character: `a`–`z` to `A`–`Z`, others kept.
pub open spec fn ascii_upper(c: char) -> char {
    if 'a' <= c && c <= 'z' {
        ((c as u32) - 32) as char
    } else {
        c
    }
}

/// Calls `str::to_lowercase`; the result is named `unicode_lowercase`. On
/// ASCII text Unicode's mapping is the ASCII one, character by character.
#[verifier::external_body]
pub(crate) fn to_lowercase(s: &str) -> (r: String)
    ensures
        r@ == unicode_lowercase(s@),
        all_ascii(s@) ==> r@ == s@.map_values(|c: char| ascii_lower(c)),
{
    s.to_lowercase()
}

/// Calls `str::to_uppercase`; the result is named `unicode_uppercase`. On
/// ASCII text Unicode's mapping is the ASCII one, character by character.
#[verifier::external_body]
pub(crate) fn to_uppercase(s: &str) -> (r: String)
    ensures
        r@ == unicode_uppercase(s@),
        all_ascii(s@) ==> r@ == s@.map_values(|c: char| ascii_upper(c)),
{
    s.to_uppercase()
}

/// Calls `<str as PartialEq>::eq`, which compares the characters.
#[verifier::external_body]
pub(crate) fn str_eq(a: &str, b: &str) -> (r: bool)
    ensures
        r == (a@ == b@),
{
    a == b
}

/// `pat` occurs in `s` at position `i`.
pub open spec fn occurs_at(s: Seq<char>, pat: Seq<char>, i: int) -> bool {
    0 <= i && i + pat.len() <= s.len() && s.subrange(i, i + pat.len()) == pat
}

/// The first position at or after `from` where `pat` occurs in `s`.
pub open spec fn find_from(s: Seq<char>, pat: Seq<char>, from: int) -> Option<int>
    decreases s.len() + 1 - from,
{
    if from < 0 || from + pat.len() > s.len() {
        None
    } else if occurs_at(s, pat, from) {
        Some(from)
    } else {
        find_from(s, pat, from + 1)
    }
}

/// Whether `pat` occurs in `s` at `i`, compared character by character.
pub fn occurs_at_exec(s: &Vec<char>, pat: &Vec<char>, i: usize) -> (r: bool)
    ensures
        r == occurs_at(s@, pat@, i as int),
{
    if i > s.len() || pat.len() > s.len() - i {
        return false;
    }
    let mut k: usize = 0;
    while k < pat.len()
        invariant
            k <= pat.len(),
            i + pat.len() <= s.len(),
            forall|j: int| 0 <= j < k ==> s@[i + j] == pat@[j],
        decreases pat.len() - k,
    {
        if s[i + k] != pat[k] {
            assert(s@.subrange(i as int, i + pat.len())[k as int] != pat@[k as int]);
            return false;
        }
        k = k + 1;
    }
    assert(s@.subrange(i as int, i + pat.len()) =~= pat@);
    true
}

/// The first position at or after `from` where `pat` occurs in `s`.
pub fn find(s: &Vec<char>, pat: &Vec<char>, from: usize) -> (r: Option<usize>)
    ensures
        r matches Some(i) ==> find_from(s@, pat@, from as int) == Some(i as int),
        r is None ==> find_from(s@, pat@, from as int) is None,
{
    let mut i = from;
    while i <= s.len() && pat.len() <= s.len() - i
        invariant
            from <= i,
            find_from(s@, pat@, from as int) == find_from(s@, pat@, i as int),
        decreases s.len() + 1 - i,
    {
        if occurs_at_exec(s, pat, i) {
            return Some(i);
        }
        if i == s.len() {
            assert(find_from(s@, pat@, i + 1) is None);
            return None;
        }
        i = i + 1;
    }
    None
}

/// The characters `lo..hi` of `s`, copied.
pub fn slice_chars(s: &Vec<char>, lo: usize, hi: usize) -> (r: Vec<char>)
    requires
        lo <= hi <= s.len(),
    ensures
        r@ == s@.subrange(lo as int, hi as int),
{
    let mut out: Vec<char> = Vec::new();
    let mut i = lo;
    while i < hi
        invariant
            lo <= i <= hi <= s.len(),
            out@ == s@.subrange(lo as int, i as int),
        decreases hi - i,
    {
        out.push(s[i]);
        i = i + 1;
        assert(out@ =~= s@.subrange(lo as int, i as int));
    }
    out
}

/// The first index at or after `i` that is not white space (or `s.len()`).
pub open spec fn skip_ws(s: Seq<char>, i: int) -> int
    decreases s.len() - i,
{
    if 0 <= i < s.len() && is_ws(s[i]) {
        skip_ws(s, i + 1)
    } else {
        i
    }
}

/// The maximal runs of non-white-space characters of `s` from `i` on, as
/// `str::split_whitespace` yields them; `cur` is where the run being read
/// started, or -1 between runs.
pub open spec fn words_acc(s: Seq<char>, i: int, cur: int) -> Seq<Seq<char>>
    decreases s.len() - i,
{
    if i < 0 || i >= s.len() {
        if 0 <= cur <= s.len() {
            seq![s.subrange(cur, s.len() as int)]
        } else {
            seq![]
        }
    } else if is_ws(s[i]) {
        (if 0 <= cur <= i {
            seq![s.subrange(cur, i)]
        } else {
            Seq::<Seq<char>>::empty()
        }) + words_acc(s, i + 1, -1)
    } else {
        words_acc(s, i + 1, if cur >= 0 { cur } else { i })
    }
}

/// The white-space separated words of `s` from `i` on.
pub open spec fn words_from(s: Seq<char>, i: int) -> Seq<Seq<char>> {
    words_acc(s, i, -1)
}

/// The white-space separated words of `s` from index `from` on.
pub fn split_whitespace(s: &Vec<char>, from: usize) -> (r: Vec<Vec<char>>)
    requires
        from <= s.len(),
    ensures
        r@.map_values(|w: Vec<char>| w@) == words_from(s@, from as int),
{
    let mut out: Vec<Vec<char>> = Vec::new();
    let mut i = from;
    let mut cur: usize = 0;
    let mut in_word = false;
    while i < s.len()
        invariant
            from <= i <= s.len(),
            in_word ==> cur <= i,
            words_from(s@, from as int) == out@.map_values(|w: Vec<char>| w@) + words_acc(
                s@,
                i as int,
                if in_word { cur as int } else { -1 },
            ),
        decreases s.len() - i,
    {
        let ghost before = out@.map_values(|w: Vec<char>| w@);
        if is_whitespace(s[i]) {
            if in_word {
                let w = slice_chars(s, cur, i);
                out.push(w);
                assert(out@.map_values(|w: Vec<char>| w@) =~= before + seq![s@.subrange(cur as int, i as int)]);
            }
            in_word = false;
        } else if !in_word {
            in_word = true;
            cur = i;
        }
        i = i + 1;
        proof {
            if !is_ws(s@[i - 1]) {
                assert(out@.map_values(|w: Vec<char>| w@) =~= before);
            }
        }
    }
    if in_word {
        let ghost before = out@.map_values(|w: Vec<char>| w@);
        let w = slice_chars(s, cur, s.len());
        out.push(w);
        assert(out@.map_values(|w: Vec<char>| w@) =~= before + seq![s@.subrange(cur as int, s.len() as int)]);
    } else {
        assert(words_acc(s@, i as int, -1) =~= Seq::<Seq<char>>::empty());
    }
    out
}

/// The first index at or after `i` that is not white space.
pub fn skip_whitespace(s: &Vec<char>, i: usize) -> (r: usize)
    requires
        i <= s.len(),
    ensures
        r as int == skip_ws(s@, i as int),
        i <= r <= s.len(),
{
    let mut j = i;
    while j < s.len() && is_whitespace(s[j])
        invariant
            i <= j <= s.len(),
            skip_ws(s@, i as int) == skip_ws(s@, j as int),
        decreases s.len() - j,
    {
        j = j + 1;
    }
    j
}

/// A found position lies at or after the start and `pat` occurs there;
/// no earlier position from the start holds it.
pub proof fn lemma_find_from(s: Seq<char>, pat: Seq<char>, from: int)
    ensures
        find_from(s, pat, from) matches Some(i) ==> from <= i && occurs_at(s, pat, i) && (forall|
            j: int,
        | from <= j < i ==> !occurs_at(s, pat, j)),
        from >= 0 && find_from(s, pat, from) is None ==> forall|j: int|
            from <= j ==> !occurs_at(s, pat, j),
    decreases s.len() + 1 - from,
{
    if from < 0 || from + pat.len() > s.len() {
    } else if occurs_at(s, pat, from) {
    } else {
        lemma_find_from(s, pat, from + 1);
    }
}

/// The characters of a string literal, as a vector.
pub fn literal_chars(s: &str) -> (r: Vec<char>)
    ensures
        r@ == s@,
{
    to_chars(s)
}

/// Lexicographic order on character sequences from position `i` on,
/// characters compared by code point: the order of `str`'s `Ord`.
pub open spec fn seq_lt_from(a: Seq<char>, b: Seq<char>, i: int) -> bool
    decreases a.len() - i,
{
    if i < 0 {
        false
    } else if i >= a.len() {
        i < b.len()
    } else if i >= b.len() {
        false
    } else if a[i] < b[i] {
        true
    } else if a[i] > b[i] {
        false
    } else {
        seq_lt_from(a, b, i + 1)
    }
}

/// `a` sorts strictly before `b`.
pub open spec fn seq_lt(a: Seq<char>, b: Seq<char>) -> bool {
    seq_lt_from(a, b, 0)
}

pub proof fn lemma_seq_lt_from_irreflexive(a: Seq<char>, i: int)
    ensures
        !seq_lt_from(a, a, i),
    decreases a.len() - i,
{
    if 0 <= i < a.len() {
        lemma_seq_lt_from_irreflexive(a, i + 1);
    }
}

pub proof fn lemma_seq_lt_from_transitive(a: Seq<char>, b: Seq<char>, c: Seq<char>, i: int)
    requires
        seq_lt_from(a, b, i),
        seq_lt_from(b, c, i),
    ensures
        seq_lt_from(a, c, i),
    decreases a.len() - i,
{
    if 0 <= i < a.len() && i < b.len() && i < c.len() && a[i] == b[i] && b[i] == c[i] {
        lemma_seq_lt_from_transitive(a, b, c, i + 1);
    }
}

pub proof fn lemma_seq_lt_from_total(a: Seq<char>, b: Seq<char>, i: int)
    requires
        0 <= i <= a.len(),
        i <= b.len(),
        a.subrange(0, i) == b.subrange(0, i),
    ensures
        a == b || seq_lt_from(a, b, i) || seq_lt_from(b, a, i),
    decreases a.len() - i,
{
    if i == a.len() && i == b.len() {
        assert(a.subrange(0, i) =~= a);
        assert(b.subrange(0, i) =~= b);
        assert(a =~= b) by {
            assert forall|k: int| 0 <= k < a.len() implies a[k] == b[k] by {
                assert(a.subrange(0, i)[k] == b.subrange(0, i)[k]);
            }
        }
    } else if i < a.len() && i < b.len() && a[i] == b[i] {
        assert(a.subrange(0, i + 1) =~= a.subrange(0, i).push(a[i]));
        assert(b.subrange(0, i + 1) =~= b.subrange(0, i).push(b[i]));
        lemma_seq_lt_from_total(a, b, i + 1);
    } else if i < a.len() && i < b.len() {
    }
}

pub proof fn lemma_seq_lt_from_asymmetric(a: Seq<char>, b: Seq<char>, i: int)
    requires
        seq_lt_from(a, b, i),
    ensures
        !seq_lt_from(b, a, i),
    decreases a.len() - i,
{
    if 0 <= i < a.len() && i < b.len() && a[i] == b[i] {
        lemma_seq_lt_from_asymmetric(a, b, i + 1);
    }
}

/// `seq_lt` is a strict total order.
pub proof fn lemma_seq_lt_order(a: Seq<char>, b: Seq<char>, c: Seq<char>)
    ensures
        !seq_lt(a, a),
        seq_lt(a, b) && seq_lt(b, c) ==> seq_lt(a, c),
        seq_lt(a, b) ==> !seq_lt(b, a),
        a == b || seq_lt(a, b) || seq_lt(b, a),
{
    lemma_seq_lt_from_irreflexive(a, 0);
    if seq_lt(a, b) && seq_lt(b, c) {
        lemma_seq_lt_from_transitive(a, b, c, 0);
    }
    if seq_lt(a, b) {
        lemma_seq_lt_from_asymmetric(a, b, 0);
    }
    assert(a.subrange(0, 0) =~= b.subrange(0, 0));
    lemma_seq_lt_from_total(a, b, 0);
}

/// Whether `a` sorts strictly before `b`.
pub fn chars_lt(a: &Vec<char>, b: &Vec<char>) -> (r: bool)
    ensures
        r == seq_lt(a@, b@),
{
    let mut i: usize = 0;
    while i < a.len() && i < b.len() && a[i] == b[i]
        invariant
            i <= a.len(),
            i <= b.len(),
            seq_lt(a@, b@) == seq_lt_from(a@, b@, i as int),
        decreases a.len() - i,
    {
        i = i + 1;
    }
    if i == a.len() {
        i < b.len()
    } else if i == b.len() {
        false
    } else {
        a[i] < b[i]
    }
}

/// Every element sorts strictly before every later one.
pub open spec fn strictly_sorted(s: Seq<Seq<char>>) -> bool {
    forall|i: int, j: int| 0 <= i < j < s.len() ==> seq_lt(s[i], s[j])
}

/// A strictly sorted sequence is fixed by its set of elements.
pub proof fn lemma_sorted_by_set(x: Seq<Seq<char>>, y: Seq<Seq<char>>)
    requires
        strictly_sorted(x),
        strictly_sorted(y),
        x.to_set() == y.to_set(),
    ensures
        x == y,
    decreases x.len(),
{
    if x.len() == 0 {
        if y.len() > 0 {
            assert(y.to_set().contains(y[0]));
        }
        assert(x =~= y);
    } else {
        assert(x.to_set().contains(x[0]));
        assert(y.contains(x[0]));
        let j = choose|j: int| 0 <= j < y.len() && y[j] == x[0];
        assert(x.to_set().contains(y[0])) by {
            assert(y.to_set().contains(y[0]));
        }
        let k = choose|k: int| 0 <= k < x.len() && x[k] == y[0];
        lemma_seq_lt_order(x[0], y[0], x[0]);
        if j > 0 && k > 0 {
            assert(seq_lt(y[0], y[j]));
            assert(seq_lt(x[0], x[k]));
        } else if j > 0 {
            assert(seq_lt(y[0], y[j]));
            lemma_seq_lt_order(y[0], y[0], y[0]);
        } else if k > 0 {
            assert(seq_lt(x[0], x[k]));
            lemma_seq_lt_order(x[0], x[0], x[0]);
        }
        assert(x[0] == y[0]);
        let xt = x.drop_first();
        let yt = y.drop_first();
        assert forall|e: Seq<char>| xt.to_set().contains(e) <==> yt.to_set().contains(e) by {
            if xt.contains(e) {
                let i = choose|i: int| 0 <= i < xt.len() && xt[i] == e;
                assert(x[i + 1] == e);
                assert(seq_lt(x[0], e));
                lemma_seq_lt_order(e, e, e);
                assert(x.to_set().contains(e));
                let m = choose|m: int| 0 <= m < y.len() && y[m] == e;
                assert(m != 0);
                assert(yt[m - 1] == e);
            }
            if yt.contains(e) {
                let i = choose|i: int| 0 <= i < yt.len() && yt[i] == e;
                assert(y[i + 1] == e);
                assert(seq_lt(y[0], e));
                lemma_seq_lt_order(e, e, e);
                assert(y.to_set().contains(e));
                let m = choose|m: int| 0 <= m < x.len() && x[m] == e;
                assert(m != 0);
                assert(xt[m - 1] == e);
            }
        }
        assert(xt.to_set() =~= yt.to_set());
        assert(strictly_sorted(xt)) by {
            assert forall|a: int, b: int| 0 <= a < b < xt.len() implies seq_lt(xt[a], xt[b]) by {
                assert(xt[a] == x[a + 1] && xt[b] == x[b + 1]);
            }
        }
        assert(strictly_sorted(yt)) by {
            assert forall|a: int, b: int| 0 <= a < b < yt.len() implies seq_lt(yt[a], yt[b]) by {
                assert(yt[a] == y[a + 1] && yt[b] == y[b + 1]);
            }
        }
        lemma_sorted_by_set(xt, yt);
        assert(x =~= y) by {
            assert forall|i: int| 0 <= i < x.len() implies x[i] == y[i] by {
                if i > 0 {
                    assert(x[i] == xt[i - 1]);
                    assert(y[i] == yt[i - 1]);
                }
            }
        }
    }
}

/// The views of a vector of strings.
pub open spec fn string_views(v: Seq<String>) -> Seq<Seq<char>> {
    v.map_values(|s: String| s@)
}

/// Insert `x` into a strictly sorted vector unless it is already there.
pub fn insert_sorted_unique(v: &mut Vec<String>, x: String)
    requires
        strictly_sorted(string_views(old(v)@)),
    ensures
        strictly_sorted(string_views(final(v)@)),
        string_views(final(v)@).to_set() == string_views(old(v)@).to_set().insert(x@),
{
    let xc = to_chars(x.as_str());
    let ghost old_views = string_views(v@);
    let mut j: usize = 0;
    while j < v.len()
        invariant
            j <= v.len(),
            v@ == old(v)@,
            old_views == string_views(v@),
            xc@ == x@,
            forall|k: int| 0 <= k < j ==> seq_lt(old_views[k], x@),
        ensures
            j <= v.len(),
            v@ == old(v)@,
            forall|k: int| 0 <= k < j ==> seq_lt(old_views[k], x@),
            j < v.len() ==> !seq_lt(old_views[j as int], x@),
        decreases v.len() - j,
    {
        let yc = to_chars(v[j].as_str());
        assert(yc@ == old_views[j as int]);
        if !chars_lt(&yc, &xc) {
            break ;
        }
        j = j + 1;
    }
    if j < v.len() {
        let yc = to_chars(v[j].as_str());
        assert(yc@ == old_views[j as int]);
        if !chars_lt(&xc, &yc) {
            proof {
                lemma_seq_lt_order(x@, old_views[j as int], x@);
                assert(old_views.to_set().insert(x@) =~= old_views.to_set()) by {
                    assert(old_views[j as int] == x@);
                    assert(old_views.contains(x@));
                }
            }
            return ;
        }
    }
    proof {
        assert forall|k: int| j <= k < old_views.len() implies seq_lt(x@, old_views[k]) by {
            if k > j {
                lemma_seq_lt_order(x@, old_views[j as int], old_views[k]);
            }
        }
    }
    v.insert(j, x);
    proof {
        let nv = string_views(v@);
        assert(nv =~= old_views.insert(j as int, x@));
        assert forall|a: int, b: int| 0 <= a < b < nv.len() implies seq_lt(nv[a], nv[b]) by {
            if a < j as int && b > j as int {
                lemma_seq_lt_order(nv[a], x@, nv[b]);
            }
        }
        assert(nv.to_set() =~= old_views.to_set().insert(x@)) by {
            assert forall|e: Seq<char>| nv.to_set().contains(e) <==> old_views.to_set().insert(
                x@,
            ).contains(e) by {
                if nv.contains(e) {
                    let k = choose|k: int| 0 <= k < nv.len() && nv[k] == e;
                    if k < j {
                        assert(old_views[k] == e);
                    } else if k > j {
                        assert(old_views[k - 1] == e);
                    }
                }
                if old_views.contains(e) {
                    let k = choose|k: int| 0 <= k < old_views.len() && old_views[k] == e;
                    if k < j {
                        assert(nv[k] == e);
                    } else {
                        assert(nv[k + 1] == e);
                    }
                }
                if e == x@ {
                    assert(nv[j as int] == e);
                }
            }
        }
    }
}

pub open spec fn digit_char(d: int) -> char {
    ('0' as int + d) as char
}

/// The decimal rendering of `n`, as `Display` for integers writes it.
pub open spec fn decimal(n: nat) -> Seq<char>
    decreases n,
{
    if n < 10 {
        seq![digit_char(n as int)]
    } else {
        decimal(n / 10) + seq![digit_char((n % 10) as int)]
    }
}

/// The decimal rendering of `n`.
pub fn decimal_chars(n: u64) -> (r: Vec<char>)
    ensures
        r@ == decimal(n as nat),
    decreases n,
{
    if n < 10 {
        let mut v: Vec<char> = Vec::new();
        v.push((('0' as u8) + (n as u8)) as char);
        assert(v@ =~= decimal(n as nat));
        v
    } else {
        let mut v = decimal_chars(n / 10);
        v.push((('0' as u8) + ((n % 10) as u8)) as char);
        v
    }
}

/// `a` followed by `b`.
pub fn concat_chars(a: &Vec<char>, b: &Vec<char>) -> (r: Vec<char>)
    ensures
        r@ == a@ + b@,
{
    let mut out = slice_chars(a, 0, a.len());
    assert(a@.subrange(0, a.len() as int) =~= a@);
    let mut i: usize = 0;
    while i < b.len()
        invariant
            i <= b.len(),
            out@ == a@ + b@.take(i as int),
        decreases b.len() - i,
    {
        out.push(b[i]);
        assert(b@.take(i + 1) =~= b@.take(i as int).push(b@[i as int]));
        i = i + 1;
    }
    assert(b@.take(b.len() as int) =~= b@);
    out
}

/// The length of `s.take(e)` once trailing white space is dropped.
pub open spec fn trim_end_len(s: Seq<char>, e: int) -> int
    decreases e,
{
    if 0 < e <= s.len() && is_ws(s[e - 1]) {
        trim_end_len(s, e - 1)
    } else {
        e
    }
}

/// `s` without leading and trailing white space, as `str::trim` gives it.
pub open spec fn trimmed(s: Seq<char>) -> Seq<char> {
    let a = skip_ws(s, 0);
    let b = trim_end_len(s, s.len() as int);
    if a < b {
        s.subrange(a, b)
    } else {
        seq![]
    }
}

/// `s` without leading and trailing white space.
pub fn trim_chars(s: &Vec<char>) -> (r: Vec<char>)
    ensures
        r@ == trimmed(s@),
{
    let a = skip_whitespace(s, 0);
    let mut b = s.len();
    while b > 0 && is_whitespace(s[b - 1])
        invariant
            b <= s.len(),
            trim_end_len(s@, s.len() as int) == trim_end_len(s@, b as int),
        decreases b,
    {
        b = b - 1;
    }
    if a < b {
        slice_chars(s, a, b)
    } else {
        Vec::new()
    }
}

/// The view of an optional string.
pub open spec fn opt_view(o: Option<String>) -> Option<Seq<char>> {
    match o {
        Some(s) => Some(s@),
        None => None,
    }
}

} // verus!
