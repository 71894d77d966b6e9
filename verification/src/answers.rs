//! Answers at a prompt.

use crate::text::{is_space, str_eq, trim, trim_by};
use vstd::prelude::*;

verus! {

/// Whether an answer is a yes.
pub open spec fn is_yes(answer: Seq<char>) -> bool {
    let t = trim_by(answer, is_space());
    t == "y"@ || t == "Y"@ || t == "yes"@ || t == "Yes"@
}

/// Whether an answer is a yes. Everything else, the empty answer too, is a no.
pub fn accepts(answer: &str) -> (r: bool)
    ensures
        r == is_yes(answer@),
{
    let t: String = trim(answer);
    str_eq(t.as_str(), "y") || str_eq(t.as_str(), "Y") || str_eq(t.as_str(), "yes") || str_eq(
        t.as_str(),
        "Yes",
    )
}

/// What a line at a prompt stands for; an empty one for `default_value`.
pub open spec fn answer_of(line: Seq<char>, default_value: Seq<char>) -> Seq<char> {
    let t = trim_by(line, is_space());
    if t.len() == 0 {
        default_value
    } else {
        t
    }
}

/// What a line at a prompt stands for; an empty one for `default_value`.
pub fn answer_or(line: &str, default_value: &str) -> (r: String)
    ensures
        r@ == answer_of(line@, default_value@),
{
    let t: String = trim(line);
    if t.as_str().is_empty() {
        default_value.to_owned()
    } else {
        t
    }
}

/// The first of two that is there.
pub open spec fn either<A>(a: Option<A>, b: Option<A>) -> Option<A> {
    match a {
        Some(x) => Some(x),
        None => b,
    }
}

/// The first of two texts that is there.
pub fn either_text(a: &Option<String>, b: &Option<String>) -> (r: Option<String>)
    ensures
        r.deep_view() == either(a.deep_view(), b.deep_view()),
{
    match a {
        Some(s) => Some(s.clone()),
        None => match b {
            Some(s) => Some(s.clone()),
            None => None,
        },
    }
}

} // verus!
