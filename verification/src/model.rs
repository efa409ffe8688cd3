//! The mathematical model of parsing.
//!
//! A parser denotes a function from an input, seen as a sequence of
//! characters, to the ordered sequence of all the ways in which a prefix of
//! that input can be consumed. Each way is a pair of the value produced and
//! the input left over. The empty sequence is failure.

use vstd::prelude::*;

verus! {

/// Every way of parsing one input, in order: the value produced, paired with
/// the input that is left.
pub type Outcomes<T> = Seq<(T, Seq<char>)>;

/// What a parser denotes.
pub type Meaning<T> = spec_fn(Seq<char>) -> Seq<(T, Seq<char>)>;

/// What a function from values to parsers denotes.
pub type Continuation<T, U> = spec_fn(T) -> spec_fn(Seq<char>) -> Seq<(U, Seq<char>)>;

/// The outcomes of a run, with each borrowed remainder replaced by the
/// characters it holds.
pub open spec fn outcomes_view<T>(r: Seq<(T, &str)>) -> Outcomes<T> {
    r.map_values(|e: (T, &str)| (e.0, e.1@))
}

/// Every remainder in `out` is what is left of `s` after a prefix was taken
/// away.
pub open spec fn all_suffixes<T>(out: Outcomes<T>, s: Seq<char>) -> bool {
    forall|i: int| 0 <= i < out.len() ==> (#[trigger] out[i]).1.is_suffix_of(s)
}

/// On every input, `m` hands back only suffixes of that input.
pub open spec fn respects_input<T>(m: Meaning<T>) -> bool {
    forall|s: Seq<char>| all_suffixes(#[trigger] m(s), s)
}

/// Succeed with `v` once, consuming nothing.
pub open spec fn result_spec<T>(v: T) -> Meaning<T> {
    |s: Seq<char>| seq![(v, s)]
}

/// Fail, whatever the input.
pub open spec fn zero_spec<T>() -> Meaning<T> {
    |s: Seq<char>| Seq::empty()
}

/// Consume the first character, if there is one.
pub open spec fn item_spec() -> Meaning<char> {
    |s: Seq<char>|
        if s.len() == 0 {
            Seq::empty()
        } else {
            seq![(s[0], s.skip(1))]
        }
}

/// One outcome `a` of a first parser, continued by every outcome of `q` on
/// what `a` left over, the two values paired.
pub open spec fn pair_with<T, U>(a: (T, Seq<char>), q: Meaning<U>) -> Outcomes<(T, U)> {
    q(a.1).map_values(|b: (U, Seq<char>)| ((a.0, b.0), b.1))
}

/// Run `p`, then `q` on each remainder: the cross product of their
/// alternatives, `p`'s outermost.
pub open spec fn seq_spec<T, U>(p: Meaning<T>, q: Meaning<U>) -> Meaning<(T, U)> {
    |s: Seq<char>| p(s).map_values(|a: (T, Seq<char>)| pair_with(a, q)).flatten()
}

/// One outcome `a` of a first parser, continued by the parser that `f` picks
/// for its value.
pub open spec fn continue_with<T, U>(a: (T, Seq<char>), f: Continuation<T, U>) -> Outcomes<U> {
    f(a.0)(a.1)
}

/// Run `p`, then on each outcome `(v, rest)` the parser `f(v)` on `rest`: the
/// concatenation, in order, of what those parsers give.
pub open spec fn bind_spec<T, U>(p: Meaning<T>, f: Continuation<T, U>) -> Meaning<U> {
    |s: Seq<char>| p(s).map_values(|a: (T, Seq<char>)| continue_with(a, f)).flatten()
}

/// Flattening one element more appends that element.
pub proof fn lemma_flatten_take_next<A>(xs: Seq<Seq<A>>, i: int)
    requires
        0 <= i < xs.len(),
    ensures
        xs.take(i + 1).flatten() == xs.take(i).flatten() + xs[i],
{
    assert(xs.take(i + 1) =~= xs.take(i).push(xs[i]));
    xs.take(i).lemma_flatten_push(xs[i]);
}

} // verus!
