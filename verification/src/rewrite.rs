//! Deterministic SQL rewrites: the rule pack's selection and the decisions
//! each rule makes. The rules themselves walk and edit `sqlparser`'s syntax
//! tree, which the edge does with these decisions.
use crate::config::RewriteConfig;
use crate::plugin::{Decision, QueryTags};
use crate::sql::hints::Hints;
use crate::text::{literal_chars, slice_chars, str_eq, string_views, to_chars, from_chars};
use vstd::prelude::*;
use vstd::string::StringExecFns;

verus! {

/// The rules of the pack.
#[derive(Debug, Clone, Copy, PartialEq, Eq, Structural)]
pub enum Rule {
    /// `COUNT(DISTINCT x)` → `APPROX_COUNT_DISTINCT(x)`, only when hinted
    /// `/*+ chukei:tolerance=approximate */`.
    ApproxCountDistinct,
    /// `SELECT DISTINCT a, b … GROUP BY a, b`: the DISTINCT is redundant
    /// when every selected expression appears in the GROUP BY.
    EliminateRedundantDistinct,
    /// `c = 'a' OR c = 'b' OR c = 'c'` → `c IN ('a', 'b', 'c')`.
    OrChainToInList,
    /// `c LIKE 'foo%'` (prefix-only pattern) → `STARTSWITH(c, 'foo')`.
    LikePrefixToStartswith,
    /// `c IS NULL OR c = ''` → `IFNULL(c, '') = ''`.
    NullOrEmptyToIfnull,
}

pub open spec fn rule_name(r: Rule) -> Seq<char> {
    match r {
        Rule::ApproxCountDistinct => "approx_count_distinct"@,
        Rule::EliminateRedundantDistinct => "eliminate_redundant_distinct"@,
        Rule::OrChainToInList => "or_chain_to_in_list"@,
        Rule::LikePrefixToStartswith => "like_prefix_to_startswith"@,
        Rule::NullOrEmptyToIfnull => "null_or_empty_to_ifnull"@,
    }
}

impl Rule {
    pub fn name(&self) -> (r: &'static str)
        ensures
            r@ == rule_name(*self),
    {
        match self {
            Rule::ApproxCountDistinct => "approx_count_distinct",
            Rule::EliminateRedundantDistinct => "eliminate_redundant_distinct",
            Rule::OrChainToInList => "or_chain_to_in_list",
            Rule::LikePrefixToStartswith => "like_prefix_to_startswith",
            Rule::NullOrEmptyToIfnull => "null_or_empty_to_ifnull",
        }
    }
}

pub open spec fn every_rule() -> Seq<Rule> {
    seq![
        Rule::ApproxCountDistinct,
        Rule::EliminateRedundantDistinct,
        Rule::OrChainToInList,
        Rule::LikePrefixToStartswith,
        Rule::NullOrEmptyToIfnull,
    ]
}

/// Every rule, in pack order.
pub fn all_rules() -> (r: Vec<Rule>)
    ensures
        r@ == every_rule(),
{
    let mut v: Vec<Rule> = Vec::new();
    v.push(Rule::ApproxCountDistinct);
    v.push(Rule::EliminateRedundantDistinct);
    v.push(Rule::OrChainToInList);
    v.push(Rule::LikePrefixToStartswith);
    v.push(Rule::NullOrEmptyToIfnull);
    assert(v@ =~= every_rule());
    v
}

/// The rules a configuration selects, in pack order: all of them for an
/// empty list or one that names `all`, else those it names.
pub open spec fn selected_rules(names: Seq<Seq<char>>) -> Seq<Rule> {
    if names.len() == 0 || names.contains("all"@) {
        every_rule()
    } else {
        every_rule().filter(|r: Rule| names.contains(rule_name(r)))
    }
}

fn names_contain(names: &Vec<String>, name: &str) -> (r: bool)
    ensures
        r == string_views(names@).contains(name@),
{
    let mut i: usize = 0;
    while i < names.len()
        invariant
            i <= names.len(),
            forall|j: int| 0 <= j < i ==> string_views(names@)[j] != name@,
        decreases names.len() - i,
    {
        if str_eq(names[i].as_str(), name) {
            assert(string_views(names@)[i as int] == name@);
            return true;
        }
        i = i + 1;
    }
    false
}

/// The rule pack as configured.
pub struct RewritePlugin {
    rules: Vec<Rule>,
}

impl RewritePlugin {
    pub closed spec fn spec_rules(&self) -> Seq<Rule> {
        self.rules@
    }

    pub fn new(config: RewriteConfig) -> (r: Self)
        ensures
            r.spec_rules() == selected_rules(string_views(config.rules@)),
    {
        let all = all_rules();
        let ghost names = string_views(config.rules@);
        if config.rules.len() == 0 || names_contain(&config.rules, "all") {
            return RewritePlugin { rules: all };
        }
        let mut rules: Vec<Rule> = Vec::new();
        let mut i: usize = 0;
        while i < all.len()
            invariant
                i <= all.len(),
                all@ == every_rule(),
                names == string_views(config.rules@),
                rules@ == every_rule().take(i as int).filter(|r: Rule| names.contains(rule_name(r))),
            decreases all.len() - i,
        {
            proof {
                assert(every_rule().take(i + 1) =~= every_rule().take(i as int).push(every_rule()[i as int]));
                every_rule().take(i as int).lemma_filter_push(
                    every_rule()[i as int],
                    |r: Rule| names.contains(rule_name(r)),
                );
            }
            let r = all[i];
            if names_contain(&config.rules, r.name()) {
                rules.push(r);
            }
            i = i + 1;
        }
        assert(every_rule().take(5) =~= every_rule());
        RewritePlugin { rules }
    }

    /// The selected rules, in pack order.
    pub fn rules(&self) -> (r: &Vec<Rule>)
        ensures
            r@ == self.spec_rules(),
    {
        &self.rules
    }

    pub fn name(&self) -> (r: &'static str)
        ensures
            r@ == "rewrite"@,
    {
        "rewrite"
    }

    pub fn order(&self) -> (r: i32)
        ensures
            r == 30,
            Some(r) == crate::plugin::registry::plugin_order_of("rewrite"@),
    {
        proof {
            crate::plugin::registry::lemma_plugin_orders();
        }
        30
    }
}

/// The rule names joined by commas, as the `chukei.rewrite_rules` tag shows
/// them.
pub open spec fn joined(names: Seq<Seq<char>>) -> Seq<char>
    decreases names.len(),
{
    if names.len() == 0 {
        seq![]
    } else if names.len() == 1 {
        names[0]
    } else {
        joined(names.drop_last()) + ","@ + names.last()
    }
}

pub fn join_names(names: &Vec<&'static str>) -> (r: String)
    ensures
        r@ == joined(names@.map_values(|s: &'static str| s@)),
{
    let ghost ns = names@.map_values(|s: &'static str| s@);
    let mut out = String::new();
    let mut i: usize = 0;
    while i < names.len()
        invariant
            i <= names.len(),
            ns == names@.map_values(|s: &'static str| s@),
            out@ == joined(ns.take(i as int)),
        decreases names.len() - i,
    {
        assert(ns.take(i + 1).drop_last() =~= ns.take(i as int));
        if i > 0 {
            out.append(",");
        }
        out.append(names[i]);
        i = i + 1;
    }
    assert(ns.take(names.len() as int) =~= ns);
    out
}

/// What the plugin decides for a read: when rules fired, the rewritten SQL
/// together with a tag naming them; otherwise nothing. Writes are never
/// rewritten.
pub fn decision_for(read_only: bool, outcome: Option<(String, Vec<&'static str>)>) -> (r: Decision)
    ensures
        !read_only ==> r is Passthrough,
        read_only ==> match outcome {
            None => r is Passthrough,
            Some((text, fired)) => {
                &&& r matches Decision::Compose(ds)
                &&& ds@.len() == 2
                &&& ds@[0] matches Decision::Rewrite(sql) && sql@ == text@
                &&& ds@[1] matches Decision::Annotate(t) && t@ == map![
                    "chukei.rewrite_rules"@ => joined(fired@.map_values(|s: &'static str| s@)),
                ]
            },
        },
{
    if !read_only {
        return Decision::Passthrough;
    }
    match outcome {
        Some((sql, fired)) => {
            let mut tags = QueryTags::new();
            let joined_names = join_names(&fired);
            let ghost j = joined_names@;
            tags.insert(String::from_str("chukei.rewrite_rules"), joined_names);
            assert(tags@ =~= map!["chukei.rewrite_rules"@ => j]);
            let mut ds: Vec<Decision> = Vec::new();
            ds.push(Decision::Rewrite(sql));
            ds.push(Decision::Annotate(tags));
            Decision::Compose(ds)
        },
        None => Decision::Passthrough,
    }
}

/// Whether the query is hinted `tolerance=approximate`.
pub fn approximate_tolerance(hints: &Hints) -> (r: bool)
    ensures
        r == (hints@.contains_key("tolerance"@) && hints@["tolerance"@] == "approximate"@),
{
    match hints.get("tolerance") {
        Some(v) => str_eq(v, "approximate"),
        None => false,
    }
}

/// `s` is `COUNT` in any ASCII letter case.
pub open spec fn names_count(s: Seq<char>) -> bool {
    &&& s.len() == 5
    &&& (s[0] == 'C' || s[0] == 'c')
    &&& (s[1] == 'O' || s[1] == 'o')
    &&& (s[2] == 'U' || s[2] == 'u')
    &&& (s[3] == 'N' || s[3] == 'n')
    &&& (s[4] == 'T' || s[4] == 't')
}

/// A call `name(DISTINCT x)` becomes `APPROX_COUNT_DISTINCT(x)`: the last
/// part of its name is `COUNT` in any letter case, its argument list is
/// `DISTINCT` and it has exactly one argument.
pub fn approximates_count(name: Option<&str>, distinct: bool, arg_count: usize) -> (r: bool)
    ensures
        r == (name matches Some(n) && names_count(n@) && distinct && arg_count == 1),
{
    let n = match name {
        Some(n) => n,
        None => return false,
    };
    if !distinct || arg_count != 1 {
        return false;
    }
    let c = to_chars(n);
    if c.len() != 5 {
        return false;
    }
    (c[0] == 'C' || c[0] == 'c') && (c[1] == 'O' || c[1] == 'o') && (c[2] == 'U' || c[2] == 'u')
        && (c[3] == 'N' || c[3] == 'n') && (c[4] == 'T' || c[4] == 't')
}

/// The prefix a `LIKE` pattern tests for, when it is a pure prefix
/// pattern: a non-empty text without `%` or `_`, followed by one `%`.
pub open spec fn like_prefix_of(p: Seq<char>) -> Option<Seq<char>> {
    if p.len() > 0 && p.last() == '%' {
        let prefix = p.drop_last();
        if prefix.len() > 0 && !prefix.contains('%') && !prefix.contains('_') {
            Some(prefix)
        } else {
            None
        }
    } else {
        None
    }
}

pub fn like_prefix(pattern: &str) -> (r: Option<String>)
    ensures
        match like_prefix_of(pattern@) {
            Some(p) => r matches Some(s) && s@ == p,
            None => r is None,
        },
{
    let p = to_chars(pattern);
    if p.len() == 0 || p[p.len() - 1] != '%' {
        return None;
    }
    let n = p.len() - 1;
    if n == 0 {
        return None;
    }
    let mut i: usize = 0;
    while i < n
        invariant
            p@ == pattern@,
            p@.len() > 1,
            p@.last() == '%',
            n == p.len() - 1,
            i <= n,
            forall|j: int| 0 <= j < i ==> p@[j] != '%' && p@[j] != '_',
        decreases n - i,
    {
        if p[i] == '%' || p[i] == '_' {
            assert(p@.drop_last()[i as int] == p@[i as int]);
            assert(p@.drop_last().contains(p@[i as int]));
            return None;
        }
        i = i + 1;
    }
    let prefix = slice_chars(&p, 0, n);
    assert(prefix@ =~= p@.drop_last());
    Some(from_chars(prefix.as_slice()))
}

/// `DISTINCT` is redundant when the GROUP BY lists plain expressions (no
/// modifiers) and every select item is an expression, aliased or not,
/// written as one of them. Items are given by their text, `None` for any
/// other kind of item.
pub open spec fn distinct_redundant(items: Seq<Option<Seq<char>>>, group: Seq<Seq<char>>, has_modifiers: bool) -> bool {
    &&& group.len() > 0
    &&& !has_modifiers
    &&& forall|i: int| 0 <= i < items.len() ==> (#[trigger] items[i] matches Some(t) && group.contains(t))
}

pub open spec fn opt_views(v: Seq<Option<String>>) -> Seq<Option<Seq<char>>> {
    v.map_values(|o: Option<String>| match o {
        Some(s) => Some(s@),
        None => None,
    })
}

pub fn distinct_is_redundant(items: &Vec<Option<String>>, group: &Vec<String>, has_modifiers: bool) -> (r: bool)
    ensures
        r == distinct_redundant(opt_views(items@), string_views(group@), has_modifiers),
{
    if group.len() == 0 || has_modifiers {
        return false;
    }
    let mut i: usize = 0;
    while i < items.len()
        invariant
            i <= items.len(),
            group@.len() > 0,
            !has_modifiers,
            forall|j: int| 0 <= j < i ==> (#[trigger] opt_views(items@)[j] matches Some(t) && string_views(group@).contains(t)),
        decreases items.len() - i,
    {
        assert(opt_views(items@)[i as int] == match items@[i as int] {
            Some(s) => Some(s@),
            None => None::<Seq<char>>,
        });
        match &items[i] {
            Some(t) => {
                if !names_contain(group, t.as_str()) {
                    assert(!(opt_views(items@)[i as int] matches Some(t) && string_views(group@).contains(t)));
                    return false;
                }
            },
            None => {
                assert(!(opt_views(items@)[i as int] matches Some(t) && string_views(group@).contains(t)));
                return false;
            },
        }
        i = i + 1;
    }
    true
}

/// `c IS NULL OR c = ''` collapses when the compared value is the empty
/// string literal and both sides name the same column.
pub fn null_or_empty_matches(empty_literal: bool, null_col: &str, eq_col: &str) -> (r: bool)
    ensures
        r == (empty_literal && null_col@ == eq_col@),
{
    empty_literal && str_eq(null_col, eq_col)
}


/// A column reference as the rewrite rules read it: its rendered text, by
/// which two references are the same column, and its position among the
/// column expressions the caller met, by which the caller finds it again.
#[derive(Debug, Clone)]
pub struct ColumnRef {
    pub text: String,
    pub id: usize,
}

/// What the OR-chain rule reads of an expression. A literal value stands by
/// its position among the values the caller met.
#[derive(Debug)]
pub enum ChainExpr {
    /// `left OR right`.
    Or(Box<ChainExpr>, Box<ChainExpr>),
    /// `( inner )`.
    Nested(Box<ChainExpr>),
    /// `left = right`: `column` where the left side is a column reference,
    /// `value` where the right side is a literal.
    Eq { column: Option<ColumnRef>, value: Option<usize> },
    /// `expr IN (list)`, not negated: `column` where `expr` is a column
    /// reference, and per item of the list its value where it is a literal.
    InList { column: Option<ColumnRef>, values: Vec<Option<usize>> },
    /// Any other expression.
    Other,
}

/// Every item is a literal.
pub open spec fn all_literal(values: Seq<Option<usize>>) -> bool {
    forall|i: int| 0 <= i < values.len() ==> (#[trigger] values[i]) is Some
}

/// The literals themselves, where every item is one.
pub open spec fn literal_values(values: Seq<Option<usize>>) -> Seq<usize> {
    values.map_values(|v: Option<usize>| v->0)
}

/// Every leaf of the OR tree is `column = literal` or `column IN (literals)`.
pub open spec fn chain_fits(e: ChainExpr) -> bool
    decreases e,
{
    match e {
        ChainExpr::Or(l, r) => chain_fits(*l) && chain_fits(*r),
        ChainExpr::Nested(inner) => chain_fits(*inner),
        ChainExpr::Eq { column, value } => column is Some && value is Some,
        ChainExpr::InList { column, values } => column is Some && all_literal(values@),
        ChainExpr::Other => false,
    }
}

/// The leaves' columns, left to right, as (text, position).
pub open spec fn chain_columns(e: ChainExpr) -> Seq<(Seq<char>, usize)>
    decreases e,
{
    match e {
        ChainExpr::Or(l, r) => chain_columns(*l) + chain_columns(*r),
        ChainExpr::Nested(inner) => chain_columns(*inner),
        ChainExpr::Eq { column, .. } => match column {
            Some(c) => seq![(c.text@, c.id)],
            None => Seq::empty(),
        },
        ChainExpr::InList { column, .. } => match column {
            Some(c) => seq![(c.text@, c.id)],
            None => Seq::empty(),
        },
        ChainExpr::Other => Seq::empty(),
    }
}

/// The leaves' values, left to right.
pub open spec fn chain_values(e: ChainExpr) -> Seq<usize>
    decreases e,
{
    match e {
        ChainExpr::Or(l, r) => chain_values(*l) + chain_values(*r),
        ChainExpr::Nested(inner) => chain_values(*inner),
        ChainExpr::Eq { value, .. } => match value {
            Some(v) => seq![v],
            None => Seq::empty(),
        },
        ChainExpr::InList { values, .. } => literal_values(values@),
        ChainExpr::Other => Seq::empty(),
    }
}

/// Every column in `cols` has the text `name`.
pub open spec fn all_named(cols: Seq<(Seq<char>, usize)>, name: Seq<char>) -> bool {
    forall|i: int| 0 <= i < cols.len() ==> (#[trigger] cols[i]).0 == name
}

/// What `c = 'a' OR c = 'b' OR …` folds into: the first leaf's column and
/// every value in order, when the expression is an OR whose leaves all fit,
/// all name one column, and hold at least two values.
pub open spec fn or_chain_fold(e: ChainExpr) -> Option<(usize, Seq<usize>)> {
    let cols = chain_columns(e);
    if e is Or && chain_fits(e) && cols.len() > 0 && all_named(cols, cols[0].0)
        && chain_values(e).len() >= 2 {
        Some((cols[0].1, chain_values(e)))
    } else {
        None
    }
}

proof fn lemma_fitting_chain_has_a_column(e: ChainExpr)
    requires
        chain_fits(e),
    ensures
        chain_columns(e).len() > 0,
    decreases e,
{
    match e {
        ChainExpr::Or(l, r) => lemma_fitting_chain_has_a_column(*l),
        ChainExpr::Nested(inner) => lemma_fitting_chain_has_a_column(*inner),
        _ => {},
    }
}

proof fn lemma_all_named_concat(a: Seq<(Seq<char>, usize)>, b: Seq<(Seq<char>, usize)>, name: Seq<char>)
    ensures
        all_named(a + b, name) <==> (all_named(a, name) && all_named(b, name)),
{
    if all_named(a + b, name) {
        assert forall|i: int| 0 <= i < a.len() implies (#[trigger] a[i]).0 == name by {
            assert((a + b)[i] == a[i]);
        }
        assert forall|i: int| 0 <= i < b.len() implies (#[trigger] b[i]).0 == name by {
            assert((a + b)[a.len() + i] == b[i]);
        }
    }
    if all_named(a, name) && all_named(b, name) {
        assert forall|i: int| 0 <= i < (a + b).len() implies (#[trigger] (a + b)[i]).0 == name by {
            if i < a.len() {
                assert((a + b)[i] == a[i]);
            } else {
                assert((a + b)[i] == b[i - a.len()]);
            }
        }
    }
}

proof fn lemma_one_column_named(text: Seq<char>, id: usize)
    ensures
        forall|name: Seq<char>| #[trigger] all_named(seq![(text, id)], name) <==> text == name,
{
    assert(seq![(text, id)][0] == (text, id));
}

/// Gathers the leaves of `e` behind the column already met (`col`) and the
/// values already gathered.
fn collect_chain(e: &ChainExpr, col: &mut Option<(String, usize)>, values: &mut Vec<usize>) -> (r: bool)
    ensures
        r == (chain_fits(*e) && match *old(col) {
            Some(c) => all_named(chain_columns(*e), c.0@),
            None => chain_columns(*e).len() > 0 && all_named(chain_columns(*e), chain_columns(*e)[0].0),
        }),
        r ==> final(values)@ == old(values)@ + chain_values(*e),
        r ==> match *old(col) {
            Some(c) => *final(col) == Some(c),
            None => *final(col) matches Some(c) && c.0@ == chain_columns(*e)[0].0 && c.1 == chain_columns(*e)[0].1,
        },
    decreases e,
{
    match e {
        ChainExpr::Or(left, right) => {
            let ghost c0 = *col;
            let ghost v0 = values@;
            let ghost lc = chain_columns(**left);
            let ghost rc = chain_columns(**right);
            proof {
                assert(chain_columns(*e) == lc + rc);
                if chain_fits(**left) {
                    lemma_fitting_chain_has_a_column(**left);
                    assert((lc + rc)[0] == lc[0]);
                }
            }
            if !collect_chain(left, col, values) {
                proof {
                    if chain_fits(**left) {
                        let name = match c0 {
                            Some(c) => c.0@,
                            None => lc[0].0,
                        };
                        lemma_all_named_concat(lc, rc, name);
                    }
                }
                return false;
            }
            let ghost c1 = *col;
            let ok = collect_chain(right, col, values);
            proof {
                let name = c1->Some_0.0@;
                lemma_all_named_concat(lc, rc, name);
                if chain_fits(**right) {
                    lemma_fitting_chain_has_a_column(**right);
                }
                if ok {
                    assert(values@ == v0 + (chain_values(**left) + chain_values(**right)));
                }
            }
            ok
        },
        ChainExpr::Nested(inner) => collect_chain(inner, col, values),
        ChainExpr::Eq { column, value } => {
            match (column, value) {
                (Some(c), Some(v)) => {
                    proof {
                        lemma_one_column_named(c.text@, c.id);
                    }
                    if accept_column_at(col, c) {
                        values.push(*v);
                        true
                    } else {
                        false
                    }
                },
                _ => false,
            }
        },
        ChainExpr::InList { column, values: items } => {
            match column {
                Some(c) => {
                    let mut gathered: Vec<usize> = Vec::new();
                    let mut literal = true;
                    let mut i: usize = 0;
                    while i < items.len() && literal
                        invariant
                            i <= items.len(),
                            literal ==> all_literal(items@.subrange(0, i as int)),
                            literal ==> gathered@ == literal_values(items@.subrange(0, i as int)),
                            !literal ==> !all_literal(items@),
                        decreases (items.len() - i) * 2 + if literal { 1int } else { 0int },
                    {
                        match items[i] {
                            Some(v) => {
                                gathered.push(v);
                                assert(items@.subrange(0, i + 1) == items@.subrange(0, i as int).push(items@[i as int]));
                                i = i + 1;
                            },
                            None => {
                                assert(items@[i as int] is None);
                                literal = false;
                            },
                        }
                    }
                    if !literal {
                        return false;
                    }
                    assert(items@.subrange(0, i as int) == items@);
                    proof {
                        lemma_one_column_named(c.text@, c.id);
                    }
                    if accept_column_at(col, c) {
                        values.append(&mut gathered);
                        true
                    } else {
                        false
                    }
                },
                None => false,
            }
        },
        ChainExpr::Other => false,
    }
}

/// A leaf naming column `c` joins the chain when no column was met yet, or
/// the one met has the same text.
fn accept_column_at(col: &mut Option<(String, usize)>, c: &ColumnRef) -> (r: bool)
    ensures
        r == match *old(col) {
            Some(m) => m.0@ == c.text@,
            None => true,
        },
        match *old(col) {
            Some(m) => *final(col) == Some(m),
            None => *final(col) matches Some(m) && m.0@ == c.text@ && m.1 == c.id,
        },
{
    match col {
        Some(m) => str_eq(m.0.as_str(), c.text.as_str()),
        None => {
            *col = Some((String::from_str(c.text.as_str()), c.id));
            true
        },
    }
}

/// Folds `c = 'a' OR c = 'b' OR …` (and OR-ed `c IN (…)` lists of literals)
/// into one IN list: the position of the column and the values in order.
pub fn fold_or_chain(e: &ChainExpr) -> (r: Option<(usize, Vec<usize>)>)
    ensures
        r matches Some(p) ==> or_chain_fold(*e) == Some((p.0, p.1@)),
        r is None ==> or_chain_fold(*e) is None,
{
    if !(e matches ChainExpr::Or(..)) {
        return None;
    }
    let mut col: Option<(String, usize)> = None;
    let mut values: Vec<usize> = Vec::new();
    let fits = collect_chain(e, &mut col, &mut values);
    proof {
        if chain_fits(*e) {
            lemma_fitting_chain_has_a_column(*e);
        }
    }
    if fits && values.len() >= 2 {
        match col {
            Some(c) => Some((c.1, values)),
            None => None,
        }
    } else {
        None
    }
}


/// One side of `a OR b` as the IS-NULL-or-empty rule reads it.
#[derive(Debug, Clone)]
pub enum NullSide {
    /// `expr IS NULL`, with `expr` as a column reference.
    IsNull(ColumnRef),
    /// `left = right`: the text of `left`, and whether `right` is the empty
    /// string literal.
    Eq { left: String, empty_literal: bool },
    /// Any other expression.
    Other,
}

/// `c IS NULL` beside `other`: the column when `other` compares the same
/// column with `''`.
pub open spec fn null_beside(c: ColumnRef, other: NullSide) -> Option<usize> {
    match other {
        NullSide::Eq { left, empty_literal } => if empty_literal && left@ == c.text@ {
            Some(c.id)
        } else {
            None
        },
        _ => None,
    }
}

/// The column of `c IS NULL OR c = ''` (either order; a left `IS NULL` is
/// taken first).
pub open spec fn null_or_empty_of(left: NullSide, right: NullSide) -> Option<usize> {
    match left {
        NullSide::IsNull(c) => null_beside(c, right),
        _ => match right {
            NullSide::IsNull(c) => null_beside(c, left),
            _ => None,
        },
    }
}

fn null_beside_exec(c: &ColumnRef, other: &NullSide) -> (r: Option<usize>)
    ensures
        r == null_beside(*c, *other),
{
    match other {
        NullSide::Eq { left, empty_literal } => if null_or_empty_matches(*empty_literal, c.text.as_str(), left.as_str()) {
            Some(c.id)
        } else {
            None
        },
        _ => None,
    }
}

/// `c IS NULL OR c = ''` (sides in either order) collapses to
/// `IFNULL(c, '') = ''`: the position of the column `c`, where it does.
pub fn null_or_empty_column(left: &NullSide, right: &NullSide) -> (r: Option<usize>)
    ensures
        r == null_or_empty_of(*left, *right),
{
    match left {
        NullSide::IsNull(c) => null_beside_exec(c, right),
        _ => match right {
            NullSide::IsNull(c) => null_beside_exec(c, left),
            _ => None,
        },
    }
}

} // verus!
