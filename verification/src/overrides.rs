//! `CHUKEI_*` environment overrides. A variable's name, after the prefix,
//! is lower-cased and split on `_`; the segments are matched greedily,
//! longest key first, against the key tree of the default configuration,
//! so `CHUKEI_SAVINGS_USD_PER_CREDIT` reaches `savings.usd_per_credit`.
//!
//! The walk is computed here as the list of edits it makes to the
//! configuration document; the edge applies them to the JSON value.
use crate::text::{str_eq, to_lowercase, unicode_lowercase};
use vstd::prelude::*;
use vstd::string::StringExecFns;

verus! {

/// How an override's text is read at a leaf: the default value's kind.
#[derive(Debug, Clone, Copy, PartialEq, Eq, Structural)]
pub enum ScalarHint {
    Bool,
    Number,
    /// No usable default (absent option, text, list, section): inferred.
    Infer,
}

/// A node of the default configuration's key tree.
#[derive(Debug, Clone, Copy, PartialEq, Eq, Structural)]
pub enum NodeKind {
    /// A section: a JSON object.
    Section,
    Leaf(ScalarHint),
}

/// The key tree of the default configuration, as every node's key path
/// with its kind. The root is the path with no keys.
pub struct KeySchema {
    pub nodes: Vec<(Vec<String>, NodeKind)>,
}

/// One edit the walk makes to the configuration document.
#[derive(Debug, Clone, PartialEq, Eq)]
pub enum Step {
    /// Replace the value at the path by an empty object unless it is one.
    Coerce(Vec<String>),
    /// Insert an empty object at the path unless the key is present.
    Entry(Vec<String>),
    /// Store the override's text, read by the hint, at the path.
    Store(Vec<String>, ScalarHint),
}

/// The abstract edit: paths as sequences of keys.
pub enum StepV {
    Coerce(Seq<Seq<char>>),
    Entry(Seq<Seq<char>>),
    Store(Seq<Seq<char>>, ScalarHint),
}

pub open spec fn path_view(p: Vec<String>) -> Seq<Seq<char>> {
    p@.map_values(|s: String| s@)
}

pub open spec fn step_view(s: Step) -> StepV {
    match s {
        Step::Coerce(p) => StepV::Coerce(path_view(p)),
        Step::Entry(p) => StepV::Entry(path_view(p)),
        Step::Store(p, h) => StepV::Store(path_view(p), h),
    }
}

pub open spec fn steps_view(v: Seq<Step>) -> Seq<StepV> {
    v.map_values(|s: Step| step_view(s))
}

pub open spec fn schema_view(s: Seq<(Vec<String>, NodeKind)>) -> Seq<(Seq<Seq<char>>, NodeKind)> {
    s.map_values(|n: (Vec<String>, NodeKind)| (path_view(n.0), n.1))
}

/// The kind of the first node listed at path `p`.
pub open spec fn node_at(schema: Seq<(Seq<Seq<char>>, NodeKind)>, p: Seq<Seq<char>>) -> Option<NodeKind>
    decreases schema.len(),
{
    if schema.len() == 0 {
        None
    } else if schema[0].0 == p {
        Some(schema[0].1)
    } else {
        node_at(schema.drop_first(), p)
    }
}

/// Keys joined by `_`.
pub open spec fn underscored(keys: Seq<Seq<char>>) -> Seq<char>
    decreases keys.len(),
{
    if keys.len() == 0 {
        seq![]
    } else if keys.len() == 1 {
        keys[0]
    } else {
        underscored(keys.drop_last()) + "_"@ + keys.last()
    }
}

/// The pieces of `s` between occurrences of `c`, as `str::split` gives
/// them: always at least one, possibly empty.
pub open spec fn pieces(s: Seq<char>, c: char) -> Seq<Seq<char>>
    decreases s.len(),
{
    if s.len() == 0 {
        seq![seq![]]
    } else {
        let p = pieces(s.drop_last(), c);
        if s.last() == c {
            p.push(seq![])
        } else {
            p.update(p.len() - 1, p.last().push(s.last()))
        }
    }
}

pub open spec fn hint_of(k: NodeKind) -> ScalarHint {
    match k {
        NodeKind::Leaf(h) => h,
        NodeKind::Section => ScalarHint::Infer,
    }
}

/// The walk below the section at `p` for the remaining segments: whether it
/// stored the value, and the edits it made.
pub open spec fn walk(schema: Seq<(Seq<Seq<char>>, NodeKind)>, p: Seq<Seq<char>>, segs: Seq<Seq<char>>) -> (bool, Seq<StepV>)
    decreases segs.len(), segs.len() + 1,
{
    if node_at(schema, p) == Some(NodeKind::Section) {
        let r = walk_from(schema, p, segs, segs.len() as int);
        (r.0, seq![StepV::Coerce(p)] + r.1)
    } else {
        (false, seq![])
    }
}

/// The walk's candidates at `p` that join the first `take` segments or
/// fewer, longest first.
pub open spec fn walk_from(schema: Seq<(Seq<Seq<char>>, NodeKind)>, p: Seq<Seq<char>>, segs: Seq<Seq<char>>, take: int) -> (bool, Seq<StepV>)
    decreases segs.len(), take,
{
    if take <= 0 || take > segs.len() {
        (false, seq![])
    } else {
        let c = p.push(underscored(segs.take(take)));
        match node_at(schema, c) {
            None => walk_from(schema, p, segs, take - 1),
            Some(kind) => if take == segs.len() {
                (true, seq![StepV::Store(c, hint_of(kind))])
            } else {
                let below = walk(schema, c, segs.skip(take));
                let pre = seq![StepV::Entry(c)] + below.1;
                if below.0 {
                    (true, pre)
                } else {
                    let rest = walk_from(schema, p, segs, take - 1);
                    (rest.0, pre + rest.1)
                }
            },
        }
    }
}

/// The segments of an override variable: the name after `CHUKEI_`,
/// lower-cased and split on `_`. `None` for any other variable.
pub open spec fn override_segments(name: Seq<char>) -> Option<Seq<Seq<char>>> {
    if name.len() >= 7 && name.take(7) == "CHUKEI_"@ {
        Some(pieces(unicode_lowercase(name.skip(7)), '_'))
    } else {
        None
    }
}

/// `a` then the keys of `b`, joined by `_`.
proof fn lemma_underscored_cons(a: Seq<char>, b: Seq<Seq<char>>)
    requires
        b.len() > 0,
    ensures
        underscored(seq![a] + b) == a + "_"@ + underscored(b),
    decreases b.len(),
{
    let ab = seq![a] + b;
    assert(ab.last() == b.last());
    if b.len() == 1 {
        assert(ab.drop_last() =~= seq![a]);
        assert(underscored(seq![a]) == a);
    } else {
        lemma_underscored_cons(a, b.drop_last());
        assert(ab.drop_last() =~= seq![a] + b.drop_last());
        assert(a + "_"@ + underscored(b.drop_last()) + "_"@ + b.last() =~= a + "_"@ + (underscored(
            b.drop_last(),
        ) + "_"@ + b.last()));
    }
}

/// Splitting the keys anywhere and joining both halves with `_` gives the
/// whole joined.
proof fn lemma_underscored_split(s: Seq<Seq<char>>, t: int)
    requires
        0 < t < s.len(),
    ensures
        underscored(s.take(t)) + "_"@ + underscored(s.skip(t)) == underscored(s),
    decreases s.len(),
{
    if t == s.len() - 1 {
        assert(s.take(t) =~= s.drop_last());
        assert(s.skip(t) =~= seq![s.last()]);
    } else {
        lemma_underscored_split(s.drop_last(), t);
        assert(s.drop_last().take(t) =~= s.take(t));
        assert(s.skip(t).drop_last() =~= s.drop_last().skip(t));
        assert(s.skip(t).last() == s.last());
        let a = underscored(s.take(t));
        let b = underscored(s.drop_last().skip(t));
        assert(a + "_"@ + (b + "_"@ + s.last()) =~= (a + "_"@ + b) + "_"@ + s.last());
    }
}

/// The edits end by storing at a path below `p` that is in the schema and
/// whose keys below `p`, joined by `_`, spell the segments joined by `_`.
pub open spec fn stores_named(schema: Seq<(Seq<Seq<char>>, NodeKind)>, steps: Seq<StepV>, p: Seq<Seq<char>>, segs: Seq<Seq<char>>) -> bool {
    &&& steps.len() > 0
    &&& steps.last() matches StepV::Store(c, _) && {
        &&& c.len() > p.len()
        &&& c.take(p.len() as int) == p
        &&& underscored(c.skip(p.len() as int)) == underscored(segs)
        &&& node_at(schema, c) is Some
    }
}

proof fn lemma_walk_stores(schema: Seq<(Seq<Seq<char>>, NodeKind)>, p: Seq<Seq<char>>, segs: Seq<Seq<char>>)
    ensures
        walk(schema, p, segs).0 ==> stores_named(schema, walk(schema, p, segs).1, p, segs),
    decreases segs.len(), segs.len() + 1,
{
    if node_at(schema, p) == Some(NodeKind::Section) {
        lemma_walk_from_stores(schema, p, segs, segs.len() as int);
        let r = walk_from(schema, p, segs, segs.len() as int);
        if r.0 {
            assert((seq![StepV::Coerce(p)] + r.1).last() == r.1.last());
        }
    }
}

proof fn lemma_walk_from_stores(schema: Seq<(Seq<Seq<char>>, NodeKind)>, p: Seq<Seq<char>>, segs: Seq<Seq<char>>, take: int)
    ensures
        walk_from(schema, p, segs, take).0 ==> stores_named(schema, walk_from(schema, p, segs, take).1, p, segs),
    decreases segs.len(), take,
{
    if take <= 0 || take > segs.len() {
    } else {
        let key = underscored(segs.take(take));
        let c = p.push(key);
        match node_at(schema, c) {
            None => {
                lemma_walk_from_stores(schema, p, segs, take - 1);
            },
            Some(kind) => {
                assert(c.take(p.len() as int) =~= p);
                if take == segs.len() {
                    assert(segs.take(take) =~= segs);
                    assert(c.skip(p.len() as int) =~= seq![key]);
                } else {
                    let rest = segs.skip(take);
                    lemma_walk_stores(schema, c, rest);
                    let below = walk(schema, c, rest);
                    let pre = seq![StepV::Entry(c)] + below.1;
                    if below.0 {
                        assert(pre.last() == below.1.last());
                        if let StepV::Store(c2, _) = below.1.last() {
                            assert(c2.take(p.len() as int) =~= c2.take(c.len() as int).take(p.len() as int));
                            assert(c2[p.len() as int] == c2.take(c.len() as int)[p.len() as int]);
                            assert(c[p.len() as int] == key);
                            assert(c2.skip(p.len() as int) =~= seq![key] + c2.skip(c.len() as int));
                            lemma_underscored_cons(key, c2.skip(c.len() as int));
                            lemma_underscored_split(segs, take);
                        }
                    } else {
                        lemma_walk_from_stores(schema, p, segs, take - 1);
                        let r = walk_from(schema, p, segs, take - 1);
                        if r.0 {
                            assert((pre + r.1).last() == r.1.last());
                        }
                    }
                }
            },
        }
    }
}

/// A variable that reaches a field stores its value at a field the default
/// configuration has, whose dotted path, written with `_` in place of the
/// dots, is the variable's name after the prefix, lower-cased.
pub proof fn law_override_reaches_the_named_field(schema: Seq<(Seq<Seq<char>>, NodeKind)>, segs: Seq<Seq<char>>)
    requires
        walk(schema, seq![], segs).0,
    ensures
        walk(schema, seq![], segs).1.last() matches StepV::Store(c, _) && node_at(schema, c) is Some
            && underscored(c) == underscored(segs),
{
    lemma_walk_stores(schema, seq![], segs);
    if let StepV::Store(c, _) = walk(schema, seq![], segs).1.last() {
        assert(c.skip(0) =~= c);
    }
}

fn same_path(a: &Vec<String>, b: &Vec<String>) -> (r: bool)
    ensures
        r == (path_view(*a) == path_view(*b)),
{
    if a.len() != b.len() {
        assert(path_view(*a).len() != path_view(*b).len());
        return false;
    }
    let mut i: usize = 0;
    while i < a.len()
        invariant
            i <= a.len(),
            a.len() == b.len(),
            forall|j: int| 0 <= j < i ==> a@[j]@ == b@[j]@,
        decreases a.len() - i,
    {
        if !str_eq(a[i].as_str(), b[i].as_str()) {
            assert(path_view(*a)[i as int] != path_view(*b)[i as int]);
            return false;
        }
        i = i + 1;
    }
    assert(path_view(*a) =~= path_view(*b));
    true
}

fn kind_at(schema: &KeySchema, p: &Vec<String>) -> (r: Option<NodeKind>)
    ensures
        r == node_at(schema_view(schema.nodes@), path_view(*p)),
{
    let ghost sv = schema_view(schema.nodes@);
    assert(sv.skip(0) =~= sv);
    let mut i: usize = 0;
    while i < schema.nodes.len()
        invariant
            i <= schema.nodes@.len(),
            sv == schema_view(schema.nodes@),
            node_at(sv, path_view(*p)) == node_at(sv.skip(i as int), path_view(*p)),
        decreases schema.nodes.len() - i,
    {
        assert(sv.skip(i as int).drop_first() =~= sv.skip(i + 1));
        if same_path(&schema.nodes[i].0, p) {
            return Some(schema.nodes[i].1);
        }
        i = i + 1;
    }
    None
}

fn join_underscored(segs: &Vec<String>, take: usize) -> (r: String)
    requires
        take <= segs@.len(),
    ensures
        r@ == underscored(path_view(*segs).take(take as int)),
{
    let ghost sv = path_view(*segs);
    let mut out = String::new();
    let mut i: usize = 0;
    while i < take
        invariant
            i <= take <= segs@.len(),
            sv == path_view(*segs),
            out@ == underscored(sv.take(i as int)),
        decreases take - i,
    {
        assert(sv.take(i + 1).drop_last() =~= sv.take(i as int));
        if i > 0 {
            out.append("_");
        }
        out.append(segs[i].as_str());
        i = i + 1;
    }
    out
}

fn copy_string(s: &String) -> (r: String)
    ensures
        r@ == s@,
{
    String::from_str(s.as_str())
}

fn child_path(p: &Vec<String>, key: String) -> (r: Vec<String>)
    ensures
        path_view(r) == path_view(*p).push(key@),
{
    let mut c = clone_path(p);
    let ghost k = key@;
    c.push(key);
    assert(path_view(c) =~= path_view(*p).push(k));
    c
}

fn tail(segs: &Vec<String>, from: usize) -> (r: Vec<String>)
    requires
        from <= segs@.len(),
    ensures
        path_view(r) == path_view(*segs).skip(from as int),
{
    let mut out: Vec<String> = Vec::new();
    let mut i: usize = from;
    while i < segs.len()
        invariant
            from <= i <= segs@.len(),
            out@.len() == i - from,
            forall|j: int| 0 <= j < out@.len() ==> #[trigger] out@[j]@ == segs@[j + from]@,
        decreases segs.len() - i,
    {
        out.push(copy_string(&segs[i]));
        i = i + 1;
    }
    assert(path_view(out) =~= path_view(*segs).skip(from as int));
    out
}

fn walk_exec(schema: &KeySchema, p: &Vec<String>, segs: &Vec<String>, steps: &mut Vec<Step>) -> (found: bool)
    ensures
        (found, steps_view(final(steps)@)) == ({
            let w = walk(schema_view(schema.nodes@), path_view(*p), path_view(*segs));
            (w.0, steps_view(old(steps)@) + w.1)
        }),
    decreases segs@.len(), segs@.len() + 1,
{
    let ghost sv = schema_view(schema.nodes@);
    match kind_at(schema, p) {
        Some(NodeKind::Section) => {
            let ghost before = steps@;
            steps.push(Step::Coerce(clone_path(p)));
            proof {
                assert(steps_view(steps@) =~= steps_view(before) + seq![StepV::Coerce(path_view(*p))]);
            }
            let ghost mid = steps@;
            let f = walk_from_exec(schema, p, segs, segs.len(), steps);
            proof {
                let r = walk_from(sv, path_view(*p), path_view(*segs), segs@.len() as int);
                assert(path_view(*segs).len() == segs@.len());
                assert(steps_view(steps@) =~= steps_view(before) + (seq![StepV::Coerce(path_view(*p))] + r.1));
            }
            f
        },
        _ => {
            proof {
                assert(steps_view(steps@) =~= steps_view(old(steps)@) + Seq::<StepV>::empty());
            }
            false
        },
    }
}

fn clone_path(p: &Vec<String>) -> (r: Vec<String>)
    ensures
        path_view(r) == path_view(*p),
{
    let mut c: Vec<String> = Vec::new();
    let mut i: usize = 0;
    while i < p.len()
        invariant
            i <= p.len(),
            c@.len() == i,
            forall|j: int| 0 <= j < i ==> #[trigger] c@[j]@ == p@[j]@,
        decreases p.len() - i,
    {
        c.push(copy_string(&p[i]));
        i = i + 1;
    }
    assert(path_view(c) =~= path_view(*p));
    c
}

fn walk_from_exec(schema: &KeySchema, p: &Vec<String>, segs: &Vec<String>, take: usize, steps: &mut Vec<Step>) -> (found: bool)
    requires
        take <= segs@.len(),
    ensures
        (found, steps_view(final(steps)@)) == ({
            let w = walk_from(schema_view(schema.nodes@), path_view(*p), path_view(*segs), take as int);
            (w.0, steps_view(old(steps)@) + w.1)
        }),
    decreases segs@.len(), take,
{
    let ghost sv = schema_view(schema.nodes@);
    let ghost before = steps@;
    if take == 0 {
        assert(steps_view(steps@) =~= steps_view(before) + Seq::<StepV>::empty());
        return false;
    }
    let key = join_underscored(segs, take);
    let c = child_path(p, key);
    match kind_at(schema, &c) {
        None => walk_from_exec(schema, p, segs, take - 1, steps),
        Some(kind) => {
            if take == segs.len() {
                let hint = match kind {
                    NodeKind::Leaf(h) => h,
                    NodeKind::Section => ScalarHint::Infer,
                };
                steps.push(Step::Store(c, hint));
                proof {
                    assert(steps_view(steps@) =~= steps_view(before) + seq![StepV::Store(path_view(c), hint)]);
                }
                true
            } else {
                steps.push(Step::Entry(clone_path(&c)));
                let ghost after_entry = steps@;
                proof {
                    assert(steps_view(after_entry) =~= steps_view(before) + seq![StepV::Entry(path_view(c))]);
                }
                let rest_segs = tail(segs, take);
                assert(rest_segs@.len() < segs@.len()) by {
                    assert(path_view(rest_segs).len() == rest_segs@.len());
                    assert(path_view(*segs).len() == segs@.len());
                }
                let below = walk_exec(schema, &c, &rest_segs, steps);
                let ghost after_below = steps@;
                proof {
                    let b = walk(sv, path_view(c), path_view(*segs).skip(take as int));
                    assert(steps_view(after_below) =~= steps_view(before) + (seq![StepV::Entry(path_view(c))] + b.1));
                }
                if below {
                    true
                } else {
                    let f = walk_from_exec(schema, p, segs, take - 1, steps);
                    proof {
                        let b = walk(sv, path_view(c), path_view(*segs).skip(take as int));
                        let r = walk_from(sv, path_view(*p), path_view(*segs), take - 1);
                        assert(steps_view(steps@) =~= steps_view(before) + ((seq![StepV::Entry(path_view(c))] + b.1) + r.1));
                    }
                    f
                }
            }
        },
    }
}

fn split_underscores(s: &str) -> (r: Vec<String>)
    ensures
        path_view(r) == pieces(s@, '_'),
{
    let chars = crate::text::to_chars(s);
    let mut out: Vec<String> = Vec::new();
    let mut cur: Vec<char> = Vec::new();
    let mut i: usize = 0;
    while i < chars.len()
        invariant
            i <= chars@.len(),
            chars@ == s@,
            path_view(out).push(cur@) == pieces(s@.take(i as int), '_'),
        decreases chars.len() - i,
    {
        assert(s@.take(i + 1).drop_last() =~= s@.take(i as int));
        let ch = chars[i];
        if ch == '_' {
            let piece = crate::text::from_chars(cur.as_slice());
            out.push(piece);
            cur = Vec::new();
            assert(path_view(out).push(cur@) =~= pieces(s@.take(i as int), '_').push(seq![]));
        } else {
            let ghost old_cur = cur@;
            cur.push(ch);
            assert(path_view(out).push(cur@) =~= path_view(out).push(old_cur).update(
                path_view(out).len() as int,
                old_cur.push(ch),
            ));
        }
        i = i + 1;
    }
    assert(s@.take(chars.len() as int) =~= s@);
    let last = crate::text::from_chars(cur.as_slice());
    out.push(last);
    assert(path_view(out) =~= pieces(s@, '_'));
    out
}

/// The edits an override variable makes to the configuration document, and
/// whether it reached a field. `None` for a variable without the `CHUKEI_`
/// prefix, which is no override.
pub fn override_steps(schema: &KeySchema, name: &str) -> (r: Option<(bool, Vec<Step>)>)
    ensures
        match override_segments(name@) {
            None => r is None,
            Some(segs) => r matches Some((found, steps)) && ({
                let w = walk(schema_view(schema.nodes@), seq![], segs);
                found == w.0 && steps_view(steps@) == w.1
            }),
        },
{
    let chars = crate::text::to_chars(name);
    let prefix = crate::text::literal_chars("CHUKEI_");
    if chars.len() < 7 {
        return None;
    }
    proof {
        reveal_strlit("CHUKEI_");
    }
    let mut i: usize = 0;
    while i < 7
        invariant
            i <= 7,
            chars@ == name@,
            prefix@ == "CHUKEI_"@,
            chars@.len() >= 7,
            prefix@.len() == 7,
            forall|j: int| 0 <= j < i ==> chars@[j] == prefix@[j],
        decreases 7 - i,
    {
        if chars[i] != prefix[i] {
            assert(name@.take(7)[i as int] != "CHUKEI_"@[i as int]);
            return None;
        }
        i = i + 1;
    }
    assert(name@.take(7) =~= "CHUKEI_"@);
    let rest = crate::text::slice_chars(&chars, 7, chars.len());
    let rest_s = crate::text::from_chars(rest.as_slice());
    assert(rest_s@ =~= name@.skip(7));
    let lower = to_lowercase(rest_s.as_str());
    let segs = split_underscores(lower.as_str());
    let root: Vec<String> = Vec::new();
    assert(path_view(root) =~= Seq::<Seq<char>>::empty());
    let mut steps: Vec<Step> = Vec::new();
    let found = walk_exec(schema, &root, &segs, &mut steps);
    assert(steps_view(Seq::<Step>::empty()) =~= Seq::<StepV>::empty());
    Some((found, steps))
}

} // verus!
