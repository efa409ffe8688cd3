//! Executable functions as mathematical ones.
//!
//! A parser can be built from a function that parses, and `bind` takes a
//! function that picks the next parser. The contract of an executable
//! function is a relation between its argument and its result. Where that
//! relation is a function, these definitions name it.

use vstd::prelude::*;
use crate::model::{all_suffixes, outcomes_view, Continuation, Meaning, Outcomes};
use crate::parser::Parser;

verus! {

/// `f` can be called on every value, and the parsers it may return for one
/// value all mean the same: `f` is a function into parsers.
pub open spec fn is_function<T, U, F: Fn(T) -> Parser<U>>(f: F) -> bool {
    &&& forall|v: T| call_requires(f, (v,))
    &&& forall|v: T, q1: Parser<U>, q2: Parser<U>|
        call_ensures(f, (v,), q1) && call_ensures(f, (v,), q2) ==> q1@ == q2@
}

/// What the parser `f(v)` means.
pub open spec fn applied<T, U, F: Fn(T) -> Parser<U>>(f: F, v: T) -> Meaning<U> {
    (choose|q: Parser<U>| call_ensures(f, (v,), q))@
}

/// What `f` means: for each value, what the parser `f(v)` means.
pub open spec fn continuation<T, U, F: Fn(T) -> Parser<U>>(f: F) -> Continuation<T, U> {
    |v: T| applied(f, v)
}

/// Whatever parser a function into parsers returns for `v`, it means
/// `applied(f, v)`.
pub proof fn lemma_applied<T, U, F: Fn(T) -> Parser<U>>(f: F, v: T, q: Parser<U>)
    requires
        is_function(f),
        call_ensures(f, (v,), q),
    ensures
        applied(f, v) == q@,
{
}

/// `f` can be called on every input; what it returns depends on the
/// characters of the input alone; and each remainder it returns is a suffix
/// of the input: `f` is a parse function.
pub open spec fn is_parse_fn<T, F: Fn(&str) -> Vec<(T, &str)>>(f: F) -> bool {
    &&& forall|inp: &str| call_requires(f, (inp,))
    &&& forall|inp1: &str, inp2: &str, r1: Vec<(T, &str)>, r2: Vec<(T, &str)>|
        inp1@ == inp2@ && call_ensures(f, (inp1,), r1) && call_ensures(f, (inp2,), r2)
            ==> outcomes_view(r1@) == outcomes_view(r2@)
    &&& forall|inp: &str, r: Vec<(T, &str)>| #[trigger]
        call_ensures(f, (inp,), r) ==> all_suffixes(outcomes_view(r@), inp@)
}

/// What `f` returns on an input that holds the characters `s`.
pub open spec fn computed<T, F: Fn(&str) -> Vec<(T, &str)>>(f: F, s: Seq<char>) -> Outcomes<T> {
    let run = choose|run: (&str, Vec<(T, &str)>)| run.0@ == s && call_ensures(f, (run.0,), run.1);
    outcomes_view(run.1@)
}

/// What `f` means as a parser.
pub open spec fn parse_fn_spec<T, F: Fn(&str) -> Vec<(T, &str)>>(f: F) -> Meaning<T> {
    |s: Seq<char>| computed(f, s)
}

/// Whatever a parse function returns on `inp`, its view is what
/// `parse_fn_spec(f)` gives on the characters of `inp`.
pub proof fn lemma_computed<T, F: Fn(&str) -> Vec<(T, &str)>>(f: F, inp: &str, r: Vec<(T, &str)>)
    requires
        is_parse_fn(f),
        call_ensures(f, (inp,), r),
    ensures
        parse_fn_spec(f)(inp@) == outcomes_view(r@),
{
    let run = (inp, r);
    assert(run.0@ == inp@ && call_ensures(f, (run.0,), run.1));
}

} // verus!
