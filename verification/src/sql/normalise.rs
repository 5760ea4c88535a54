//! Canonicalisation: literals become placeholders, the rendering is
//! whitespace-collapsed and case-folded.
//!
//! The canonical form is what the hard fingerprint hashes, together with
//! the literals in visit order: two queries with the same canonical text but
//! different literals return different data, so both are hashed.
use crate::text::{
    concat_chars, from_chars, split_whitespace, to_chars, to_lowercase, unicode_lowercase,
    words_from,
};
use sqlparser::ast::Statement;
use vstd::prelude::*;

verus! {

/// Words joined by single spaces.
pub open spec fn join_words(ws: Seq<Seq<char>>) -> Seq<char>
    decreases ws.len(),
{
    if ws.len() == 0 {
        seq![]
    } else if ws.len() == 1 {
        ws[0]
    } else {
        join_words(ws.drop_last()) + seq![' '] + ws.last()
    }
}

/// The canonical text of a rendering: its words joined by single spaces,
/// lowercased.
pub open spec fn canonical_text(rendered: Seq<char>) -> Seq<char> {
    unicode_lowercase(join_words(words_from(rendered, 0)))
}

/// The placeholder that stands for every literal in the canonical text.
pub open spec fn placeholder() -> Seq<char> {
    "?"@
}

/// What `parameterise` gives for a statement and a placeholder: the
/// rendering of the statement with every literal value replaced by the
/// placeholder, and the literals' renderings in visit order.
pub uninterp spec fn parameterised(s: Statement, placeholder: Seq<char>) -> (Seq<char>, Seq<Seq<char>>);

/// Walks a copy of the statement with sqlparser's `visit_expressions_mut`,
/// swapping each `Value` for `Value::Placeholder(placeholder)` and keeping
/// its `Display` text, then renders the copy with `Display`. The result is
/// named `parameterised`.
#[verifier::external_body]
pub(crate) fn parameterise(statement: &Statement, placeholder: &str) -> (r: (String, Vec<String>))
    ensures
        (r.0@, r.1@.map_values(|l: String| l@)) == parameterised(*statement, placeholder@),
{
    let mut stmt = statement.clone();
    let mut literals = Vec::new();
    let _ = sqlparser::ast::visit_expressions_mut(&mut stmt, |expr: &mut sqlparser::ast::Expr| {
        if let sqlparser::ast::Expr::Value(v) = expr {
            literals.push(v.value.to_string());
            v.value = sqlparser::ast::Value::Placeholder(placeholder.to_string());
        }
        std::ops::ControlFlow::<()>::Continue(())
    });
    (stmt.to_string(), literals)
}

/// Collapse white space to single spaces and fold case.
pub fn canonical_form(rendered: &str) -> (r: String)
    ensures
        r@ == canonical_text(rendered@),
{
    let chars = to_chars(rendered);
    let words = split_whitespace(&chars, 0);
    let ghost ws = words@.map_values(|w: Vec<char>| w@);
    let mut out: Vec<char> = Vec::new();
    let mut i: usize = 0;
    while i < words.len()
        invariant
            i <= words.len(),
            ws == words@.map_values(|w: Vec<char>| w@),
            ws == words_from(chars@, 0),
            out@ == join_words(ws.take(i as int)),
        decreases words.len() - i,
    {
        assert(ws.take(i + 1).drop_last() =~= ws.take(i as int));
        if i == 0 {
            out = concat_chars(&out, &words[i]);
            assert(out@ =~= join_words(ws.take(i + 1)));
        } else {
            out.push(' ');
            out = concat_chars(&out, &words[i]);
        }
        i = i + 1;
    }
    assert(ws.take(words.len() as int) =~= ws);
    let joined = from_chars(out.as_slice());
    to_lowercase(joined.as_str())
}

/// The canonical text of a statement: its rendering with placeholders for
/// literals, whitespace-collapsed and lowercased.
pub open spec fn canonical_of(s: Statement) -> Seq<char> {
    canonical_text(parameterised(s, placeholder()).0)
}

/// The literals of a statement, in visit order.
pub open spec fn literals_of(s: Statement) -> Seq<Seq<char>> {
    parameterised(s, placeholder()).1
}

/// The canonical text of a statement and its literals in visit order.
pub fn canonicalise(statement: &Statement) -> (r: (String, Vec<String>))
    ensures
        r.0@ == canonical_of(*statement),
        r.1@.map_values(|l: String| l@) == literals_of(*statement),
{
    let (rendered, literals) = parameterise(statement, "?");
    (canonical_form(rendered.as_str()), literals)
}

} // verus!
