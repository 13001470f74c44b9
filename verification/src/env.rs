//! The process environment as plain values.

use crate::text::{lowered, same, to_lower, trim, trimmed};
use vstd::prelude::*;

verus! {

/// The variables of an environment, name and value. Where a name occurs twice,
/// the later entry counts.
#[derive(Debug)]
pub struct Env {
    pub vars: Vec<(String, String)>,
}

/// The last value under `name`.
pub open spec fn var_in(vars: Seq<(String, String)>, name: Seq<char>) -> Option<Seq<char>>
    decreases vars.len(),
{
    if vars.len() == 0 {
        None
    } else if vars.last().0@ == name {
        Some(vars.last().1@)
    } else {
        var_in(vars.drop_last(), name)
    }
}

/// `value`, or `fallback` where there is none.
pub open spec fn or_else(value: Option<Seq<char>>, fallback: Seq<char>) -> Seq<char> {
    match value {
        Some(v) => v,
        None => fallback,
    }
}

/// `value`, unless it is empty.
pub open spec fn non_empty(value: Option<Seq<char>>) -> Option<Seq<char>> {
    match value {
        Some(v) => if v.len() == 0 {
            None
        } else {
            Some(v)
        },
        None => None,
    }
}

/// `value` without outer white space, unless nothing is left.
pub open spec fn trimmed_non_empty(value: Option<Seq<char>>) -> Option<Seq<char>> {
    match value {
        Some(v) => if trimmed(v).len() == 0 {
            None
        } else {
            Some(trimmed(v))
        },
        None => None,
    }
}

/// One of the words for yes: `1`, `true`, `yes`, `on`, in any case.
pub open spec fn truthy(s: Seq<char>) -> bool {
    let n = lowered(s);
    n == "1"@ || n == "true"@ || n == "yes"@ || n == "on"@
}

/// Whether `s` is a word for yes.
pub fn is_truthy(s: &str) -> (r: bool)
    ensures
        r == truthy(s@),
{
    let n = to_lower(s);
    let n = n.as_str();
    same(n, "1") || same(n, "true") || same(n, "yes") || same(n, "on")
}

impl Env {
    /// The value of the variable `name`.
    pub open spec fn value(&self, name: Seq<char>) -> Option<Seq<char>> {
        var_in(self.vars@, name)
    }

    /// The value of the variable `name`.
    pub fn get(&self, name: &str) -> (r: Option<&str>)
        ensures
            crate::json::text_view(r) == self.value(name@),
    {
        let ghost all = self.vars@;
        let mut i: usize = self.vars.len();
        assert(all.take(i as int) =~= all);
        while i > 0
            invariant
                i <= self.vars@.len(),
                all == self.vars@,
                var_in(all, name@) == var_in(all.take(i as int), name@),
            decreases i,
        {
            assert(all.take(i as int).drop_last() =~= all.take(i - 1));
            if same(self.vars[i - 1].0.as_str(), name) {
                return Some(self.vars[i - 1].1.as_str());
            }
            i -= 1;
        }
        None
    }

    /// The value of the variable `name`, or `fallback` where it is not set.
    pub fn get_or(&self, name: &str, fallback: &str) -> (r: String)
        ensures
            r@ == or_else(self.value(name@), fallback@),
    {
        match self.get(name) {
            Some(v) => v.to_owned(),
            None => fallback.to_owned(),
        }
    }

    /// The value of the variable `name`, or `fallback` where it is not set or
    /// empty.
    pub fn get_non_empty_or(&self, name: &str, fallback: &str) -> (r: String)
        ensures
            r@ == or_else(non_empty(self.value(name@)), fallback@),
    {
        match self.get(name) {
            Some(v) => if v.is_empty() {
                fallback.to_owned()
            } else {
                v.to_owned()
            },
            None => fallback.to_owned(),
        }
    }

    /// The value of the variable `name` without outer white space, unless
    /// nothing is left of it.
    pub fn get_trimmed(&self, name: &str) -> (r: Option<String>)
        ensures
            match r {
                Some(v) => trimmed_non_empty(self.value(name@)) == Some(v@),
                None => trimmed_non_empty(self.value(name@)) is None,
            },
    {
        match self.get(name) {
            Some(v) => {
                let t = trim(v);
                if t.is_empty() {
                    None
                } else {
                    Some(t.to_owned())
                }
            },
            None => None,
        }
    }

    /// Whether the variable `name` says yes; `default` where it is not set.
    pub fn parse_bool_env(&self, name: &str, default: bool) -> (r: bool)
        ensures
            r == match self.value(name@) {
                Some(v) => truthy(v),
                None => default,
            },
    {
        match self.get(name) {
            Some(v) => is_truthy(v),
            None => default,
        }
    }
}

/// The words for yes are these four and no others, whatever their case.
pub proof fn four_words_say_yes(s: Seq<char>)
    ensures
        truthy(s) <==> seq!["1"@, "true"@, "yes"@, "on"@].contains(lowered(s)),
{
    let words = seq!["1"@, "true"@, "yes"@, "on"@];
    assert(words[0] == "1"@ && words[1] == "true"@ && words[2] == "yes"@ && words[3] == "on"@);
}

/// A variable has the value that it was last given, and none where it never was.
pub proof fn the_last_value_counts(vars: Seq<(String, String)>, name: Seq<char>, k: int)
    requires
        0 <= k < vars.len(),
        vars[k].0@ == name,
        forall|i: int| k < i < vars.len() ==> (#[trigger] vars[i]).0@ != name,
    ensures
        var_in(vars, name) == Some(vars[k].1@),
    decreases vars.len(),
{
    if k < vars.len() - 1 {
        assert(vars[vars.len() - 1].0@ != name);
        the_last_value_counts(vars.drop_last(), name, k);
    }
}

/// A variable that was never given has no value.
pub proof fn unnamed_variables_have_no_value(vars: Seq<(String, String)>, name: Seq<char>)
    requires
        forall|i: int| 0 <= i < vars.len() ==> (#[trigger] vars[i]).0@ != name,
    ensures
        var_in(vars, name) is None,
    decreases vars.len(),
{
    if vars.len() > 0 {
        assert(vars[vars.len() - 1].0@ != name);
        unnamed_variables_have_no_value(vars.drop_last(), name);
    }
}

} // verus!
