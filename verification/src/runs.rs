//! What running a parser returns, stated of the vectors that `parse` hands
//! back.
//!
//! In each law, a vector `r` is a run of a parser `p` on an input `inp` where
//! `outcomes_view(r@) == p@(inp@)`: that is what `parse` ensures.

use vstd::prelude::*;
use crate::function::{continuation, is_function, lemma_applied};
use crate::model::{
    bind_spec, continue_with, item_spec, outcomes_view, pair_with, result_spec, seq_spec,
    zero_spec, Outcomes,
};
use crate::parser::Parser;

verus! {

/// A run of `result(v)` is the one outcome `(v, inp)`: nothing is consumed.
pub proof fn lemma_run_of_result<T>(p: Parser<T>, v: T, inp: &str, r: Vec<(T, &str)>)
    requires
        p@ == result_spec(v),
        outcomes_view(r@) == p@(inp@),
    ensures
        r.len() == 1,
        r[0].0 == v,
        r[0].1@ == inp@,
{
    assert(outcomes_view(r@).len() == r.len());
    assert(outcomes_view(r@)[0] == (r[0].0, r[0].1@));
}

/// A run of `zero()` is empty.
pub proof fn lemma_run_of_zero<T>(p: Parser<T>, inp: &str, r: Vec<(T, &str)>)
    requires
        p@ == zero_spec::<T>(),
        outcomes_view(r@) == p@(inp@),
    ensures
        r.len() == 0,
{
    assert(outcomes_view(r@).len() == r.len());
}

/// A run of `item()` is empty on the empty input, and on any other the one
/// outcome of its first character with the characters after it.
pub proof fn lemma_run_of_item(p: Parser<char>, inp: &str, r: Vec<(char, &str)>)
    requires
        p@ == item_spec(),
        outcomes_view(r@) == p@(inp@),
    ensures
        inp@.len() == 0 ==> r.len() == 0,
        inp@.len() > 0 ==> r.len() == 1 && r[0].0 == inp@[0] && r[0].1@ == inp@.skip(1),
{
    assert(outcomes_view(r@).len() == r.len());
    if inp@.len() > 0 {
        assert(outcomes_view(r@)[0] == (r[0].0, r[0].1@));
    }
}

/// A run of `p.seq(q)` is, for each outcome `(v, rest)` of a run of `p` in
/// turn, each outcome `(w, rest2)` of a run of `q` on `rest` in turn, as
/// `((v, w), rest2)`.
pub proof fn lemma_run_of_seq<T, U>(
    p: Parser<T>,
    q: Parser<U>,
    both: Parser<(T, U)>,
    inp: &str,
    r: Vec<((T, U), &str)>,
    firsts: Vec<(T, &str)>,
    seconds: Seq<Vec<(U, &str)>>,
)
    requires
        both@ == seq_spec(p@, q@),
        outcomes_view(r@) == both@(inp@),
        outcomes_view(firsts@) == p@(inp@),
        seconds.len() == firsts.len(),
        forall|i: int|
            0 <= i < firsts.len() ==> outcomes_view((#[trigger] seconds[i])@) == q@(firsts[i].1@),
    ensures
        outcomes_view(r@) == Seq::new(
            firsts.len() as nat,
            |i: int| outcomes_view(seconds[i]@).map_values(|b: (U, Seq<char>)| ((firsts[i].0, b.0), b.1)),
        ).flatten(),
{
    let branches = p@(inp@).map_values(|a: (T, Seq<char>)| pair_with(a, q@));
    let runs = Seq::new(
        firsts.len() as nat,
        |i: int| outcomes_view(seconds[i]@).map_values(|b: (U, Seq<char>)| ((firsts[i].0, b.0), b.1)),
    );
    assert(outcomes_view(firsts@).len() == firsts.len());
    assert forall|i: int| 0 <= i < branches.len() implies branches[i] == runs[i] by {
        assert(outcomes_view(firsts@)[i] == (firsts[i].0, firsts[i].1@));
        assert(outcomes_view(seconds[i]@) == q@(firsts[i].1@));
    }
    assert(branches =~= runs);
}

/// A run of `p.bind(f)` is the concatenation, in order, of the runs of the
/// parsers `f(v)` on `rest`, for each outcome `(v, rest)` of a run of `p`.
pub proof fn lemma_run_of_bind<T, U, F: Fn(T) -> Parser<U>>(
    p: Parser<T>,
    f: F,
    bound: Parser<U>,
    inp: &str,
    r: Vec<(U, &str)>,
    firsts: Vec<(T, &str)>,
    picked: Seq<Parser<U>>,
    seconds: Seq<Vec<(U, &str)>>,
)
    requires
        is_function(f),
        bound@ == bind_spec(p@, continuation(f)),
        outcomes_view(r@) == bound@(inp@),
        outcomes_view(firsts@) == p@(inp@),
        picked.len() == firsts.len(),
        seconds.len() == firsts.len(),
        forall|i: int| 0 <= i < firsts.len() ==> call_ensures(f, (firsts[i].0,), #[trigger] picked[i]),
        forall|i: int|
            0 <= i < firsts.len() ==> outcomes_view((#[trigger] seconds[i])@) == picked[i]@(
                firsts[i].1@,
            ),
    ensures
        outcomes_view(r@) == seconds.map_values(|run: Vec<(U, &str)>| outcomes_view(run@)).flatten(),
{
    let k = continuation(f);
    let branches = p@(inp@).map_values(|a: (T, Seq<char>)| continue_with(a, k));
    let runs: Seq<Outcomes<U>> = seconds.map_values(|run: Vec<(U, &str)>| outcomes_view(run@));
    assert(outcomes_view(firsts@).len() == firsts.len());
    assert forall|i: int| 0 <= i < branches.len() implies branches[i] == runs[i] by {
        assert(outcomes_view(firsts@)[i] == (firsts[i].0, firsts[i].1@));
        assert(call_ensures(f, (firsts[i].0,), picked[i]));
        lemma_applied(f, firsts[i].0, picked[i]);
        assert(outcomes_view(seconds[i]@) == picked[i]@(firsts[i].1@));
    }
    assert(branches =~= runs);
}

/// A run of `result(v).bind(f)` is a run of `f(v)`.
pub proof fn lemma_run_of_result_bound<T, U, F: Fn(T) -> Parser<U>>(
    v: T,
    f: F,
    lifted: Parser<T>,
    bound: Parser<U>,
    picked: Parser<U>,
    inp: &str,
    r: Vec<(U, &str)>,
    direct: Vec<(U, &str)>,
)
    requires
        is_function(f),
        lifted@ == result_spec(v),
        bound@ == bind_spec(lifted@, continuation(f)),
        call_ensures(f, (v,), picked),
        outcomes_view(r@) == bound@(inp@),
        outcomes_view(direct@) == picked@(inp@),
    ensures
        outcomes_view(r@) == outcomes_view(direct@),
{
    let k = continuation(f);
    lemma_applied(f, v, picked);
    let branches = result_spec(v)(inp@).map_values(|a: (T, Seq<char>)| continue_with(a, k));
    assert(branches.len() == 1);
    branches.lemma_flatten_singleton();
}

/// A parser is a function of the characters of its input: two runs of one
/// parser on inputs that hold the same characters give the same values and
/// the same remainders, in the same order.
pub proof fn lemma_runs_agree<T>(
    p: Parser<T>,
    inp1: &str,
    inp2: &str,
    r1: Vec<(T, &str)>,
    r2: Vec<(T, &str)>,
)
    requires
        inp1@ == inp2@,
        outcomes_view(r1@) == p@(inp1@),
        outcomes_view(r2@) == p@(inp2@),
    ensures
        outcomes_view(r1@) == outcomes_view(r2@),
        r1.len() == r2.len(),
        forall|i: int| 0 <= i < r1.len() ==> r1[i].0 == r2[i].0 && r1[i].1@ == r2[i].1@,
{
    assert(outcomes_view(r1@).len() == r1.len());
    assert(outcomes_view(r2@).len() == r2.len());
    assert forall|i: int| 0 <= i < r1.len() implies r1[i].0 == r2[i].0 && r1[i].1@ == r2[i].1@ by {
        assert(outcomes_view(r1@)[i] == (r1[i].0, r1[i].1@));
        assert(outcomes_view(r2@)[i] == (r2[i].0, r2[i].1@));
    }
}

} // verus!
