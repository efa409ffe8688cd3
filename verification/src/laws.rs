//! The laws of the combinators, proved of their meanings.
//!
//! `result` and `bind` form a monad: `result` is an identity of `bind` on both
//! sides and `bind` is associative. `seq` is `bind` twice. `zero` absorbs.
//! Every parser built from the primitives hands back only suffixes of its
//! input.

use vstd::prelude::*;
use vstd::seq_lib::lemma_flatten_concat;
use crate::model::{
    all_suffixes, bind_spec, continue_with, item_spec, pair_with, respects_input, result_spec,
    seq_spec, zero_spec, Continuation, Meaning,
};

verus! {

/// Mapping each element to a one-element sequence and flattening is mapping.
proof fn lemma_flatten_singletons<A, B>(xs: Seq<A>, g: spec_fn(A) -> B)
    ensures
        xs.map_values(|x: A| seq![g(x)]).flatten() == xs.map_values(g),
    decreases xs.len(),
{
    let wrapped = xs.map_values(|x: A| seq![g(x)]);
    if xs.len() == 0 {
        assert(wrapped.flatten() =~= xs.map_values(g));
    } else {
        lemma_flatten_singletons(xs.drop_first(), g);
        assert(wrapped.drop_first() =~= xs.drop_first().map_values(|x: A| seq![g(x)]));
        assert(wrapped.flatten() =~= xs.map_values(g));
    }
}

/// A flattened sequence is empty exactly where every inner sequence is.
proof fn lemma_flatten_empty_iff<A>(xss: Seq<Seq<A>>)
    ensures
        xss.flatten().len() == 0 <==> forall|i: int|
            0 <= i < xss.len() ==> (#[trigger] xss[i]).len() == 0,
    decreases xss.len(),
{
    if xss.len() != 0 {
        let rest = xss.drop_first();
        lemma_flatten_empty_iff(rest);
        assert(xss.flatten().len() == xss[0].len() + rest.flatten().len());
        if xss.flatten().len() == 0 {
            assert forall|i: int| 0 <= i < xss.len() implies (#[trigger] xss[i]).len() == 0 by {
                if i > 0 {
                    assert(xss[i] == rest[i - 1]);
                }
            }
        }
        if forall|i: int| 0 <= i < xss.len() ==> (#[trigger] xss[i]).len() == 0 {
            assert forall|i: int| 0 <= i < rest.len() implies (#[trigger] rest[i]).len() == 0 by {
                assert(rest[i] == xss[i + 1]);
            }
        }
    }
}

/// Mapping, flattening, mapping and flattening again is mapping each element
/// to its own mapped and flattened sequence, and flattening once.
proof fn lemma_flatten_nested<A, B, C>(xs: Seq<A>, h: spec_fn(A) -> Seq<B>, k: spec_fn(B) -> Seq<C>)
    ensures
        xs.map_values(h).flatten().map_values(k).flatten() == xs.map_values(
            |x: A| h(x).map_values(k).flatten(),
        ).flatten(),
    decreases xs.len(),
{
    let inner = xs.map_values(h);
    let outer = xs.map_values(|x: A| h(x).map_values(k).flatten());
    if xs.len() == 0 {
        assert(inner.flatten().map_values(k) =~= Seq::<Seq<C>>::empty());
    } else {
        let rest = xs.drop_first();
        lemma_flatten_nested(rest, h, k);
        assert(inner.drop_first() =~= rest.map_values(h));
        assert(outer.drop_first() =~= rest.map_values(|x: A| h(x).map_values(k).flatten()));
        let head = h(xs[0]);
        let tail = rest.map_values(h).flatten();
        assert(inner.flatten() == head + tail);
        assert((head + tail).map_values(k) =~= head.map_values(k) + tail.map_values(k));
        lemma_flatten_concat(head.map_values(k), tail.map_values(k));
        assert(outer.first() == head.map_values(k).flatten());
    }
}

/// Each element of a flattened sequence has a property that all elements of
/// all the inner sequences have.
proof fn lemma_flatten_all<A>(xss: Seq<Seq<A>>, good: spec_fn(A) -> bool)
    requires
        forall|i: int, j: int|
            0 <= i < xss.len() && 0 <= j < xss[i].len() ==> good(#[trigger] xss[i][j]),
    ensures
        forall|n: int| 0 <= n < xss.flatten().len() ==> good(#[trigger] xss.flatten()[n]),
    decreases xss.len(),
{
    if xss.len() != 0 {
        let rest = xss.drop_first();
        assert forall|i: int, j: int| 0 <= i < rest.len() && 0 <= j < rest[i].len() implies good(
            #[trigger] rest[i][j],
        ) by {
            assert(rest[i] == xss[i + 1]);
            assert(good(xss[i + 1][j]));
        }
        lemma_flatten_all(rest, good);
        assert forall|n: int| 0 <= n < xss.flatten().len() implies good(
            #[trigger] xss.flatten()[n],
        ) by {
            if n < xss.first().len() {
                assert(xss.flatten()[n] == xss[0][n]);
            } else {
                assert(xss.flatten()[n] == rest.flatten()[n - xss.first().len()]);
            }
        }
    }
}

/// Left identity: binding `result(v)` to `f` is `f(v)`.
pub proof fn lemma_result_then_bind<T, U>(v: T, f: Continuation<T, U>)
    ensures
        bind_spec(result_spec(v), f) == f(v),
{
    assert forall|s: Seq<char>| #[trigger] bind_spec(result_spec(v), f)(s) == f(v)(s) by {
        let branches = result_spec(v)(s).map_values(|a: (T, Seq<char>)| continue_with(a, f));
        assert(branches.len() == 1);
        branches.lemma_flatten_singleton();
    }
    assert(bind_spec(result_spec(v), f) =~= f(v));
}

/// Right identity: binding `p` to `result` is `p`.
pub proof fn lemma_bind_then_result<T>(p: Meaning<T>)
    ensures
        bind_spec(p, |v: T| result_spec(v)) == p,
{
    let f: Continuation<T, T> = |v: T| result_spec(v);
    assert forall|s: Seq<char>| #[trigger] bind_spec(p, f)(s) == p(s) by {
        let same = |a: (T, Seq<char>)| a;
        lemma_flatten_singletons(p(s), same);
        assert(p(s).map_values(|a: (T, Seq<char>)| continue_with(a, f)) =~= p(s).map_values(
            |a: (T, Seq<char>)| seq![same(a)],
        ));
        assert(p(s).map_values(same) =~= p(s));
    }
    assert(bind_spec(p, f) =~= p);
}

/// Associativity: binding `p` to `f` and the whole to `g` is binding `p` to
/// the function that binds each `f(v)` to `g`.
pub proof fn lemma_bind_associative<T, U, W>(
    p: Meaning<T>,
    f: Continuation<T, U>,
    g: Continuation<U, W>,
)
    ensures
        bind_spec(bind_spec(p, f), g) == bind_spec(p, |v: T| bind_spec(f(v), g)),
{
    let fg: Continuation<T, W> = |v: T| bind_spec(f(v), g);
    assert forall|s: Seq<char>| #[trigger] bind_spec(bind_spec(p, f), g)(s) == bind_spec(p, fg)(s) by {
        let h = |a: (T, Seq<char>)| continue_with(a, f);
        let k = |b: (U, Seq<char>)| continue_with(b, g);
        lemma_flatten_nested(p(s), h, k);
        assert(p(s).map_values(|a: (T, Seq<char>)| h(a).map_values(k).flatten()) =~= p(s).map_values(
            |a: (T, Seq<char>)| continue_with(a, fg),
        ));
    }
    assert(bind_spec(bind_spec(p, f), g) =~= bind_spec(p, fg));
}

/// `seq` is `bind` twice: `p`, then `q`, then `result` of the pair.
pub proof fn lemma_seq_is_bind<T, U>(p: Meaning<T>, q: Meaning<U>)
    ensures
        seq_spec(p, q) == bind_spec(p, |v: T| bind_spec(q, |w: U| result_spec((v, w)))),
{
    let f: Continuation<T, (T, U)> = |v: T| bind_spec(q, |w: U| result_spec((v, w)));
    assert forall|s: Seq<char>| #[trigger] seq_spec(p, q)(s) == bind_spec(p, f)(s) by {
        assert forall|a: (T, Seq<char>)| pair_with(a, q) == continue_with(a, f) by {
            let pairing = |b: (U, Seq<char>)| ((a.0, b.0), b.1);
            let g: Continuation<U, (T, U)> = |w: U| result_spec((a.0, w));
            lemma_flatten_singletons(q(a.1), pairing);
            assert(q(a.1).map_values(|b: (U, Seq<char>)| continue_with(b, g)) =~= q(a.1).map_values(
                |b: (U, Seq<char>)| seq![pairing(b)],
            ));
        }
        assert(p(s).map_values(|a: (T, Seq<char>)| pair_with(a, q)) =~= p(s).map_values(
            |a: (T, Seq<char>)| continue_with(a, f),
        ));
    }
    assert(seq_spec(p, q) =~= bind_spec(p, f));
}

/// `bind` fails on an input exactly where every parser picked for an outcome
/// of `p` fails on what that outcome left; so it fails where `p` fails.
pub proof fn lemma_bind_fails_iff<T, U>(p: Meaning<T>, f: Continuation<T, U>, s: Seq<char>)
    ensures
        bind_spec(p, f)(s).len() == 0 <==> forall|i: int|
            0 <= i < p(s).len() ==> (#[trigger] f(p(s)[i].0)(p(s)[i].1)).len() == 0,
{
    let branches = p(s).map_values(|a: (T, Seq<char>)| continue_with(a, f));
    lemma_flatten_empty_iff(branches);
    if bind_spec(p, f)(s).len() == 0 {
        assert forall|i: int| 0 <= i < p(s).len() implies (#[trigger] f(p(s)[i].0)(
            p(s)[i].1,
        )).len() == 0 by {
            assert(branches[i].len() == 0);
        }
    }
    if forall|i: int| 0 <= i < p(s).len() ==> (#[trigger] f(p(s)[i].0)(p(s)[i].1)).len() == 0 {
        assert forall|i: int| 0 <= i < branches.len() implies (#[trigger] branches[i]).len()
            == 0 by {
            assert(f(p(s)[i].0)(p(s)[i].1).len() == 0);
        }
    }
}

/// `seq` fails on an input exactly where `q` fails on every remainder of
/// `p`; so it fails where `p` fails.
pub proof fn lemma_seq_fails_iff<T, U>(p: Meaning<T>, q: Meaning<U>, s: Seq<char>)
    ensures
        seq_spec(p, q)(s).len() == 0 <==> forall|i: int|
            0 <= i < p(s).len() ==> (#[trigger] q(p(s)[i].1)).len() == 0,
{
    let branches = p(s).map_values(|a: (T, Seq<char>)| pair_with(a, q));
    lemma_flatten_empty_iff(branches);
    if seq_spec(p, q)(s).len() == 0 {
        assert forall|i: int| 0 <= i < p(s).len() implies (#[trigger] q(p(s)[i].1)).len() == 0 by {
            assert(branches[i].len() == 0);
        }
    }
    if forall|i: int| 0 <= i < p(s).len() ==> (#[trigger] q(p(s)[i].1)).len() == 0 {
        assert forall|i: int| 0 <= i < branches.len() implies (#[trigger] branches[i]).len()
            == 0 by {
            assert(q(p(s)[i].1).len() == 0);
        }
    }
}

/// `zero` absorbs `bind` on both sides: after a parser that fails nothing is
/// run, and where every continuation fails the whole fails.
pub proof fn lemma_bind_with_zero<T, U>(p: Meaning<T>, f: Continuation<T, U>)
    ensures
        bind_spec(zero_spec::<T>(), f) == zero_spec::<U>(),
        bind_spec(p, |v: T| zero_spec::<U>()) == zero_spec::<U>(),
{
    let fail: Continuation<T, U> = |v: T| zero_spec::<U>();
    assert forall|s: Seq<char>| #[trigger] bind_spec(zero_spec::<T>(), f)(s) == zero_spec::<U>()(s) by {
        lemma_bind_fails_iff(zero_spec::<T>(), f, s);
        assert(bind_spec(zero_spec::<T>(), f)(s) =~= zero_spec::<U>()(s));
    }
    assert forall|s: Seq<char>| #[trigger] bind_spec(p, fail)(s) == zero_spec::<U>()(s) by {
        lemma_bind_fails_iff(p, fail, s);
        assert(bind_spec(p, fail)(s) =~= zero_spec::<U>()(s));
    }
    assert(bind_spec(zero_spec::<T>(), f) =~= zero_spec::<U>());
    assert(bind_spec(p, fail) =~= zero_spec::<U>());
}

/// `zero` absorbs `seq` on both sides.
pub proof fn lemma_seq_with_zero<T, U>(p: Meaning<T>, q: Meaning<U>)
    ensures
        seq_spec(zero_spec::<T>(), q) == zero_spec::<(T, U)>(),
        seq_spec(p, zero_spec::<U>()) == zero_spec::<(T, U)>(),
{
    assert forall|s: Seq<char>| #[trigger]
        seq_spec(zero_spec::<T>(), q)(s) == zero_spec::<(T, U)>()(s) by {
        lemma_seq_fails_iff(zero_spec::<T>(), q, s);
        assert(seq_spec(zero_spec::<T>(), q)(s) =~= zero_spec::<(T, U)>()(s));
    }
    assert forall|s: Seq<char>| #[trigger]
        seq_spec(p, zero_spec::<U>())(s) == zero_spec::<(T, U)>()(s) by {
        lemma_seq_fails_iff(p, zero_spec::<U>(), s);
        assert(seq_spec(p, zero_spec::<U>())(s) =~= zero_spec::<(T, U)>()(s));
    }
    assert(seq_spec(zero_spec::<T>(), q) =~= zero_spec::<(T, U)>());
    assert(seq_spec(p, zero_spec::<U>()) =~= zero_spec::<(T, U)>());
}

/// The three primitives hand back only suffixes of their input.
pub proof fn lemma_primitives_respect_input<T>(v: T)
    ensures
        respects_input(result_spec(v)),
        respects_input(zero_spec::<T>()),
        respects_input(item_spec()),
{
    assert forall|s: Seq<char>| all_suffixes(#[trigger] result_spec(v)(s), s) by {
        assert(s.subrange(0, s.len() as int) =~= s);
    }
    assert forall|s: Seq<char>| all_suffixes(#[trigger] item_spec()(s), s) by {
        if s.len() > 0 {
            assert(s.subrange(1, s.len() as int) =~= s.skip(1));
        }
    }
}

/// `bind` of parsers that hand back only suffixes of their input hands back
/// only suffixes of its input.
pub proof fn lemma_bind_respects_input<T, U>(p: Meaning<T>, f: Continuation<T, U>)
    requires
        respects_input(p),
        forall|v: T| respects_input(#[trigger] f(v)),
    ensures
        respects_input(bind_spec(p, f)),
{
    assert forall|s: Seq<char>| all_suffixes(#[trigger] bind_spec(p, f)(s), s) by {
        let branches = p(s).map_values(|a: (T, Seq<char>)| continue_with(a, f));
        let good = |b: (U, Seq<char>)| b.1.is_suffix_of(s);
        assert forall|i: int, j: int|
            0 <= i < branches.len() && 0 <= j < branches[i].len() implies good(
            #[trigger] branches[i][j],
        ) by {
            let a = p(s)[i];
            assert(all_suffixes(p(s), s));
            assert(a.1.is_suffix_of(s));
            assert(respects_input(f(a.0)));
            assert(all_suffixes(f(a.0)(a.1), a.1));
            assert(branches[i] == f(a.0)(a.1));
            assert(branches[i][j].1.is_suffix_of(a.1));
        }
        lemma_flatten_all(branches, good);
        assert forall|n: int| 0 <= n < bind_spec(p, f)(s).len() implies (#[trigger] bind_spec(
            p,
            f,
        )(s)[n]).1.is_suffix_of(s) by {
            assert(good(branches.flatten()[n]));
        }
    }
}

/// `seq` of parsers that hand back only suffixes of their input hands back
/// only suffixes of its input.
pub proof fn lemma_seq_respects_input<T, U>(p: Meaning<T>, q: Meaning<U>)
    requires
        respects_input(p),
        respects_input(q),
    ensures
        respects_input(seq_spec(p, q)),
{
    let f: Continuation<T, (T, U)> = |v: T| bind_spec(q, |w: U| result_spec((v, w)));
    lemma_seq_is_bind(p, q);
    assert forall|v: T| respects_input(#[trigger] f(v)) by {
        let g: Continuation<U, (T, U)> = |w: U| result_spec((v, w));
        assert forall|w: U| respects_input(#[trigger] g(w)) by {
            lemma_primitives_respect_input((v, w));
        }
        lemma_bind_respects_input(q, g);
    }
    lemma_bind_respects_input(p, f);
}

} // verus!
