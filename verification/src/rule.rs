//! What a parser holds: a rule. There is one type of rule for each primitive
//! and each combinator, and one trait through which all are run.

use vstd::prelude::*;
use crate::function::{
    continuation, is_function, is_parse_fn, lemma_applied, lemma_computed, parse_fn_spec,
};
use crate::model::{
    all_suffixes, bind_spec, continue_with, item_spec, lemma_flatten_take_next, outcomes_view,
    pair_with, result_spec, seq_spec, zero_spec, Meaning,
};
use crate::parser::Parser;
use crate::text::split_first;

verus! {

/// A way of consuming a prefix of an input.
///
/// `meaning` is the rule as a mathematical function. `run` computes it: the
/// outcomes it returns are those of `meaning`, in the same order, and each
/// remainder borrows from the input and is a suffix of it.
pub trait Rule<T> {
    /// The rule as a function from an input to its outcomes.
    spec fn meaning(&self) -> Meaning<T>;

    /// Applies the rule to `inp`.
    fn run<'a>(&self, inp: &'a str) -> (r: Vec<(T, &'a str)>)
        ensures
            outcomes_view(r@) == self.meaning()(inp@),
            all_suffixes(outcomes_view(r@), inp@),
    ;
}

/// The rule that succeeds with a fixed value and consumes nothing.
pub struct Succeed<T> {
    pub value: T,
}

impl<T: Copy> Rule<T> for Succeed<T> {
    open spec fn meaning(&self) -> Meaning<T> {
        result_spec(self.value)
    }

    fn run<'a>(&self, inp: &'a str) -> (r: Vec<(T, &'a str)>) {
        let mut r: Vec<(T, &'a str)> = Vec::new();
        r.push((self.value, inp));
        assert(outcomes_view(r@) =~= result_spec(self.value)(inp@));
        r
    }
}

/// The rule that always fails.
pub struct Fail {}

impl<T> Rule<T> for Fail {
    open spec fn meaning(&self) -> Meaning<T> {
        zero_spec()
    }

    fn run<'a>(&self, inp: &'a str) -> (r: Vec<(T, &'a str)>) {
        let r: Vec<(T, &'a str)> = Vec::new();
        assert(outcomes_view(r@) =~= zero_spec::<T>()(inp@));
        r
    }
}

/// The rule that consumes one character.
pub struct Item {}

impl Rule<char> for Item {
    open spec fn meaning(&self) -> Meaning<char> {
        item_spec()
    }

    fn run<'a>(&self, inp: &'a str) -> (r: Vec<(char, &'a str)>) {
        let mut r: Vec<(char, &'a str)> = Vec::new();
        match split_first(inp) {
            Some((c, rest)) => {
                r.push((c, rest));
            },
            None => {},
        }
        assert(outcomes_view(r@) =~= item_spec()(inp@));
        r
    }
}

/// The rule that runs `first`, then `second` on each remainder, and pairs the
/// values.
#[verifier::reject_recursive_types(T)]
#[verifier::reject_recursive_types(U)]
pub struct Then<T, U> {
    pub first: Parser<T>,
    pub second: Parser<U>,
}

impl<T: Copy, U: Copy> Rule<(T, U)> for Then<T, U> {
    open spec fn meaning(&self) -> Meaning<(T, U)> {
        seq_spec(self.first@, self.second@)
    }

    fn run<'a>(&self, inp: &'a str) -> (r: Vec<((T, U), &'a str)>) {
        let firsts = self.first.run(inp);
        let ghost q = self.second@;
        let ghost branches = outcomes_view(firsts@).map_values(|a: (T, Seq<char>)| pair_with(a, q));
        let mut r: Vec<((T, U), &'a str)> = Vec::new();
        let mut i: usize = 0;
        assert(outcomes_view(r@) =~= branches.take(0).flatten());
        while i < firsts.len()
            invariant
                i <= firsts.len(),
                branches.len() == firsts.len(),
                all_suffixes(outcomes_view(firsts@), inp@),
                q == self.second@,
                branches == outcomes_view(firsts@).map_values(|a: (T, Seq<char>)| pair_with(a, q)),
                outcomes_view(r@) == branches.take(i as int).flatten(),
                all_suffixes(outcomes_view(r@), inp@),
            decreases firsts.len() - i,
        {
            let (v, rest1) = firsts[i];
            let seconds = self.second.run(rest1);
            let ghost done = outcomes_view(r@);
            let ghost a = outcomes_view(firsts@)[i as int];
            assert(a == (v, rest1@));
            assert(a.1.is_suffix_of(inp@));
            let mut j: usize = 0;
            assert(outcomes_view(r@) =~= done + branches[i as int].take(0));
            while j < seconds.len()
                invariant
                    j <= seconds.len(),
                    i < firsts.len(),
                    branches.len() == firsts.len(),
                    rest1@.is_suffix_of(inp@),
                    all_suffixes(outcomes_view(seconds@), rest1@),
                    branches[i as int] == outcomes_view(seconds@).map_values(
                        |b: (U, Seq<char>)| ((v, b.0), b.1),
                    ),
                    outcomes_view(r@) == done + branches[i as int].take(j as int),
                    all_suffixes(outcomes_view(r@), inp@),
                decreases seconds.len() - j,
            {
                let (w, rest2) = seconds[j];
                let ghost before = outcomes_view(r@);
                r.push(((v, w), rest2));
                proof {
                    let b = outcomes_view(seconds@)[j as int];
                    assert(b == (w, rest2@));
                    assert(b.1.is_suffix_of(rest1@));
                    assert(outcomes_view(r@) =~= before.push(((v, w), rest2@)));
                    assert(branches[i as int].take(j + 1) =~= branches[i as int].take(j as int).push(
                        ((v, w), rest2@),
                    ));
                    assert(outcomes_view(r@) =~= done + branches[i as int].take(j + 1));
                }
                j += 1;
            }
            proof {
                assert(branches[i as int].take(j as int) =~= branches[i as int]);
                lemma_flatten_take_next(branches, i as int);
            }
            i += 1;
        }
        assert(branches.take(i as int) =~= branches);
        r
    }
}

/// The rule that runs `first`, then on each outcome the parser that `next`
/// picks for its value.
#[verifier::reject_recursive_types(T)]
#[verifier::reject_recursive_types(U)]
pub struct Chain<T: Copy, U: Copy + 'static, F: Fn(T) -> Parser<U>> {
    first: Parser<T>,
    next: F,
    picks: core::marker::PhantomData<U>,
}

impl<T: Copy, U: Copy + 'static, F: Fn(T) -> Parser<U>> Chain<T, U, F> {
    #[verifier::type_invariant]
    spec fn next_is_function(&self) -> bool {
        is_function(self.next)
    }

    /// The parser that runs first.
    pub closed spec fn first(&self) -> Parser<T> {
        self.first
    }

    /// The function that picks what runs next.
    pub closed spec fn next(&self) -> F {
        self.next
    }

    /// The rule that runs `first`, then what `next` picks.
    pub fn new(first: Parser<T>, next: F) -> (c: Self)
        requires
            is_function(next),
        ensures
            c.first() == first,
            c.next() == next,
    {
        Chain { first, next, picks: core::marker::PhantomData }
    }
}

impl<T: Copy, U: Copy + 'static, F: Fn(T) -> Parser<U>> Rule<U> for Chain<T, U, F> {
    open spec fn meaning(&self) -> Meaning<U> {
        bind_spec(self.first()@, continuation(self.next()))
    }

    fn run<'a>(&self, inp: &'a str) -> (r: Vec<(U, &'a str)>) {
        proof {
            use_type_invariant(self);
        }
        let firsts = self.first.run(inp);
        let ghost k = continuation(self.next);
        let ghost branches = outcomes_view(firsts@).map_values(
            |a: (T, Seq<char>)| continue_with(a, k),
        );
        let mut r: Vec<(U, &'a str)> = Vec::new();
        let mut i: usize = 0;
        assert(outcomes_view(r@) =~= branches.take(0).flatten());
        while i < firsts.len()
            invariant
                i <= firsts.len(),
                branches.len() == firsts.len(),
                is_function(self.next),
                all_suffixes(outcomes_view(firsts@), inp@),
                k == continuation(self.next),
                branches == outcomes_view(firsts@).map_values(
                    |a: (T, Seq<char>)| continue_with(a, k),
                ),
                outcomes_view(r@) == branches.take(i as int).flatten(),
                all_suffixes(outcomes_view(r@), inp@),
            decreases firsts.len() - i,
        {
            let (v, rest1) = firsts[i];
            let chosen = (self.next)(v);
            proof {
                lemma_applied(self.next, v, chosen);
            }
            let seconds = chosen.parse(rest1);
            let ghost done = outcomes_view(r@);
            let ghost a = outcomes_view(firsts@)[i as int];
            assert(a == (v, rest1@));
            assert(a.1.is_suffix_of(inp@));
            let mut j: usize = 0;
            assert(outcomes_view(r@) =~= done + branches[i as int].take(0));
            while j < seconds.len()
                invariant
                    j <= seconds.len(),
                    i < firsts.len(),
                    branches.len() == firsts.len(),
                    rest1@.is_suffix_of(inp@),
                    all_suffixes(outcomes_view(seconds@), rest1@),
                    branches[i as int] == outcomes_view(seconds@),
                    outcomes_view(r@) == done + branches[i as int].take(j as int),
                    all_suffixes(outcomes_view(r@), inp@),
                decreases seconds.len() - j,
            {
                let (w, rest2) = seconds[j];
                let ghost before = outcomes_view(r@);
                r.push((w, rest2));
                proof {
                    let b = outcomes_view(seconds@)[j as int];
                    assert(b == (w, rest2@));
                    assert(b.1.is_suffix_of(rest1@));
                    assert(outcomes_view(r@) =~= before.push((w, rest2@)));
                    assert(branches[i as int].take(j + 1) =~= branches[i as int].take(j as int).push(
                        (w, rest2@),
                    ));
                    assert(outcomes_view(r@) =~= done + branches[i as int].take(j + 1));
                }
                j += 1;
            }
            proof {
                assert(branches[i as int].take(j as int) =~= branches[i as int]);
                lemma_flatten_take_next(branches, i as int);
            }
            i += 1;
        }
        assert(branches.take(i as int) =~= branches);
        r
    }
}

/// The rule that a parse function gives.
#[verifier::reject_recursive_types(T)]
pub struct Custom<T, F: Fn(&str) -> Vec<(T, &str)>> {
    parse_fn: F,
    gives: core::marker::PhantomData<T>,
}

impl<T, F: Fn(&str) -> Vec<(T, &str)>> Custom<T, F> {
    #[verifier::type_invariant]
    spec fn holds_parse_fn(&self) -> bool {
        is_parse_fn(self.parse_fn)
    }

    /// The parse function that the rule applies.
    pub closed spec fn parse_fn(&self) -> F {
        self.parse_fn
    }

    /// The rule that applies `parse_fn`.
    pub fn new(parse_fn: F) -> (c: Self)
        requires
            is_parse_fn(parse_fn),
        ensures
            c.parse_fn() == parse_fn,
    {
        Custom { parse_fn, gives: core::marker::PhantomData }
    }
}

impl<T, F: Fn(&str) -> Vec<(T, &str)>> Rule<T> for Custom<T, F> {
    open spec fn meaning(&self) -> Meaning<T> {
        parse_fn_spec(self.parse_fn())
    }

    fn run<'a>(&self, inp: &'a str) -> (r: Vec<(T, &'a str)>) {
        proof {
            use_type_invariant(self);
        }
        let r = (self.parse_fn)(inp);
        proof {
            lemma_computed(self.parse_fn, inp, r);
        }
        r
    }
}

} // verus!
