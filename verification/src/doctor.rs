//! The checks of the `doctor` command: each probe ends in a named verdict,
//! and the command fails when any of them failed.
use vstd::prelude::*;

verus! {

/// One probe's verdict.
pub struct Check {
    pub name: &'static str,
    pub ok: bool,
    pub detail: String,
}

/// The verdict of the probe `name` from what it returned: passed with its
/// detail on `Ok`, failed with the error text on `Err`.
pub fn check(name: &'static str, result: Result<String, String>) -> (c: Check)
    ensures
        c.name == name,
        c.ok == (result is Ok),
        c.detail == (match result {
            Ok(d) => d,
            Err(d) => d,
        }),
{
    match result {
        Ok(detail) => Check { name, ok: true, detail },
        Err(detail) => Check { name, ok: false, detail },
    }
}

/// Whether every probe passed.
pub fn all_passed(checks: &Vec<Check>) -> (r: bool)
    ensures
        r == (forall|i: int| 0 <= i < checks@.len() ==> #[trigger] checks@[i].ok),
{
    let mut i: usize = 0;
    while i < checks.len()
        invariant
            i <= checks@.len(),
            forall|j: int| 0 <= j < i ==> #[trigger] checks@[j].ok,
        decreases checks.len() - i,
    {
        if !checks[i].ok {
            return false;
        }
        i = i + 1;
    }
    true
}

} // verus!
