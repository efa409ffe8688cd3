//! The parser abstraction, its three primitives and its two combinators.

use vstd::prelude::*;
use crate::function::{continuation, is_function, is_parse_fn, parse_fn_spec};
use crate::model::{
    all_suffixes, bind_spec, item_spec, outcomes_view, result_spec, seq_spec, zero_spec, Meaning,
};
use crate::rule::{Chain, Custom, Fail, Item, Rule, Succeed, Then};

verus! {

/// A rule for consuming a prefix of a string and producing a value, possibly
/// in more than one way.
#[verifier::reject_recursive_types(T)]
pub struct Parser<T> {
    rule: Box<dyn Rule<T>>,
}

impl<T> View for Parser<T> {
    type V = Meaning<T>;

    /// The function that the parser computes: from an input to every way of
    /// parsing it, in order.
    closed spec fn view(&self) -> Meaning<T> {
        self.rule.meaning()
    }
}

impl<T> Parser<T> {
    /// `parse` on a parser that is only borrowed.
    pub(crate) fn run<'a>(&self, inp: &'a str) -> (r: Vec<(T, &'a str)>)
        ensures
            outcomes_view(r@) == self@(inp@),
            all_suffixes(outcomes_view(r@), inp@),
    {
        self.rule.run(inp)
    }
}

impl<T> Parser<T> where T: 'static + Copy {
    /// The parser that a parse function gives: it returns on each input what
    /// `parse_fn` returns on it.
    pub fn new<F>(parse_fn: Box<F>) -> (p: Parser<T>) where
        F: Fn(&str) -> Vec<(T, &str)> + 'static,

        requires
            is_parse_fn(*parse_fn),
        ensures
            p@ == parse_fn_spec(*parse_fn),
    {
        Parser { rule: Box::new(Custom::new(*parse_fn)) }
    }

    /// Runs the parser on `inp` and returns every way in which it consumes a
    /// prefix of `inp`, in order; the empty vector is failure. Each remainder
    /// borrows from `inp` and is a suffix of it.
    pub fn parse<'a>(self, inp: &'a str) -> (r: Vec<(T, &'a str)>)
        ensures
            outcomes_view(r@) == self@(inp@),
            all_suffixes(outcomes_view(r@), inp@),
    {
        self.rule.run(inp)
    }

    /// The parser that runs `self`, then `other` on each remainder, and pairs
    /// the two values: every alternative of `self` with every alternative
    /// of `other` after it, those of `self` outermost.
    pub fn seq<U>(self, other: Parser<U>) -> (p: Parser<(T, U)>) where U: 'static + Copy
        ensures
            p@ == seq_spec(self@, other@),
    {
        Parser { rule: Box::new(Then { first: self, second: other }) }
    }

    /// The parser that runs `self`, then on each outcome `(v, rest)` runs the
    /// parser `f(v)` on `rest`, and hands back what those parsers give, in
    /// order.
    pub fn bind<U, F>(self, f: Box<F>) -> (p: Parser<U>) where
        U: 'static + Copy,
        F: Fn(T) -> Parser<U> + 'static,

        requires
            is_function(*f),
        ensures
            p@ == bind_spec(self@, continuation(*f)),
    {
        Parser { rule: Box::new(Chain::new(self, *f)) }
    }
}

/// The parser that succeeds with `v` and consumes nothing.
pub fn result<T>(v: T) -> (p: Parser<T>) where T: 'static + Copy
    ensures
        p@ == result_spec(v),
{
    Parser { rule: Box::new(Succeed { value: v }) }
}

/// The parser that always fails.
pub fn zero<T>() -> (p: Parser<T>) where T: 'static + Copy
    ensures
        p@ == zero_spec::<T>(),
{
    Parser { rule: Box::new(Fail {  }) }
}

/// The parser that consumes one character: the first of the input, with the
/// rest of the input left over; it fails on the empty input.
pub fn item() -> (p: Parser<char>)
    ensures
        p@ == item_spec(),
{
    Parser { rule: Box::new(Item {  }) }
}

} // verus!
