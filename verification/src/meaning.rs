//! What a comprehension means, and the proof that its chain means the same.
//!
//! A comprehension `MAPPING for P0 in S0 CONDS0 for P1 in S1 CONDS1 ...` means
//! the items of nested loops: for every item of `S0`, bound to `P0`, that
//! passes `CONDS0`, every item of `S1` that passes `CONDS1`, and so on, the
//! value of `MAPPING`.  A condition `if EXPR` passes when `EXPR` holds; `if
//! let PAT = EXPR` passes when `PAT` matches, and its bindings are visible to
//! every later condition, every later clause and the mapping.
//!
//! The user's code is not interpreted here: what its fragments do is a
//! [`Behaviour`], given as functions of their position in the input and of an
//! environment of bindings.  [`theorem_chain_means_comprehension`] holds for
//! every behaviour.
use vstd::prelude::*;
use proc_macro2::Span;
use crate::expand::{Chain, Guard, guard_of, plan};
use crate::grammar::{ClauseShape, Condition};
use crate::tokens::Range;

verus! {

/// What the fragments of the user's code do, in an environment of type `E`,
/// with values of type `V`.
#[verifier::reject_recursive_types(E)]
#[verifier::reject_recursive_types(V)]
pub struct Behaviour<E, V> {
    /// The items that the sequence expression at this range yields, in order.
    pub items: spec_fn(Range, E) -> Seq<V>,
    /// The environment once the (irrefutable) pattern at this range is bound
    /// to a value.
    pub bind: spec_fn(Range, V, E) -> E,
    /// Whether the condition at this range holds.
    pub test: spec_fn(Range, E) -> bool,
    /// The value of the expression at this range.
    pub value: spec_fn(Range, E) -> V,
    /// The environment once the pattern at this range matches a value, or
    /// `None` when it does not match.
    pub matches: spec_fn(Range, V, E) -> Option<E>,
}

/// The environment in which a clause's conditions all pass, or `None` when
/// one fails.
pub open spec fn conditions_pass<E, V>(
    conditions: Seq<Condition>,
    b: Behaviour<E, V>,
    env: E,
) -> Option<E>
    decreases conditions.len(),
{
    if conditions.len() == 0 {
        Some(env)
    } else {
        match conditions[0] {
            Condition::Test { expr } => if (b.test)(expr, env) {
                conditions_pass(conditions.drop_first(), b, env)
            } else {
                None
            },
            Condition::Match { pat, expr } => match (b.matches)(pat, (b.value)(expr, env), env) {
                Some(bound) => conditions_pass(conditions.drop_first(), b, bound),
                None => None,
            },
        }
    }
}

/// The items of a comprehension: nested loops over the clauses, the first
/// outermost, yielding the mapping (`out`) in the innermost environment.
pub open spec fn comprehension_items<E, V>(
    clauses: Seq<ClauseShape>,
    out: spec_fn(E) -> V,
    b: Behaviour<E, V>,
    env: E,
) -> Seq<V>
    decreases clauses.len(), 0int,
{
    if clauses.len() == 0 {
        seq![out(env)]
    } else {
        loop_items(
            clauses[0],
            clauses.drop_first(),
            out,
            b,
            env,
            (b.items)(clauses[0].sequence, env),
        )
    }
}

/// The items of the loop of clause `c` over the items `vs`: for each item
/// whose binding passes the conditions, the items of the clauses `rest`.
pub open spec fn loop_items<E, V>(
    c: ClauseShape,
    rest: Seq<ClauseShape>,
    out: spec_fn(E) -> V,
    b: Behaviour<E, V>,
    env: E,
    vs: Seq<V>,
) -> Seq<V>
    decreases rest.len(), vs.len() + 1,
{
    if vs.len() == 0 {
        Seq::empty()
    } else {
        let here = match conditions_pass(c.conditions, b, (b.bind)(c.pattern, vs[0], env)) {
            Some(e) => comprehension_items(rest, out, b, e),
            None => Seq::empty(),
        };
        here + loop_items(c, rest, out, b, env, vs.drop_first())
    }
}

/// What a guard's `if` / `if let` chain reaches: `Some` of the environment of
/// its innermost branch, or `None` when a branch yields `None`.
pub open spec fn guard_reaches<E, V>(g: Guard, b: Behaviour<E, V>, env: E) -> Option<E>
    decreases g,
{
    match g {
        Guard::Pass => Some(env),
        Guard::Test { expr, then, .. } => if (b.test)(expr, env) {
            guard_reaches(*then, b, env)
        } else {
            None
        },
        Guard::Bind { pat, expr, then, .. } => match (b.matches)(pat, (b.value)(expr, env), env) {
            Some(bound) => guard_reaches(*then, b, bound),
            None => None,
        },
    }
}

/// The items that a chain yields: those of its outermost clause's adapter
/// applied to the items of the clause's sequence, evaluated once where the
/// clause's block is (`let __seq = SEQ;`).
pub open spec fn chain_items<E, V>(ch: Chain, out: spec_fn(E) -> V, b: Behaviour<E, V>, env: E) -> Seq<
    V,
>
    decreases ch, 0int,
{
    match ch {
        Chain::Innermost { pattern, sequence, guard, .. } => if guard is Pass {
            mapped(pattern, out, b, env, (b.items)(sequence, env))
        } else {
            filter_mapped(pattern, guard, out, b, env, (b.items)(sequence, env))
        },
        Chain::Outer { pattern, sequence, guard, inner, .. } => if guard is Pass {
            flat_mapped(pattern, *inner, out, b, env, (b.items)(sequence, env))
        } else {
            filter_flattened(pattern, guard, *inner, out, b, env, (b.items)(sequence, env))
        },
    }
}

/// `.map(move |PAT| MAPPING)` over the items `vs`: the mapping, once for each
/// item.
pub open spec fn mapped<E, V>(
    pattern: Range,
    out: spec_fn(E) -> V,
    b: Behaviour<E, V>,
    env: E,
    vs: Seq<V>,
) -> Seq<V>
    decreases vs.len(),
{
    if vs.len() == 0 {
        Seq::empty()
    } else {
        seq![out((b.bind)(pattern, vs[0], env))] + mapped(pattern, out, b, env, vs.drop_first())
    }
}

/// `.filter_map(move |PAT| { GUARD(Some(MAPPING)) })` over the items `vs`:
/// the mapping for each item whose guard reaches `Some`.
pub open spec fn filter_mapped<E, V>(
    pattern: Range,
    guard: Guard,
    out: spec_fn(E) -> V,
    b: Behaviour<E, V>,
    env: E,
    vs: Seq<V>,
) -> Seq<V>
    decreases vs.len(),
{
    if vs.len() == 0 {
        Seq::empty()
    } else {
        let here = match guard_reaches(guard, b, (b.bind)(pattern, vs[0], env)) {
            Some(e) => seq![out(e)],
            None => Seq::empty(),
        };
        here + filter_mapped(pattern, guard, out, b, env, vs.drop_first())
    }
}

/// `.flat_map(move |PAT| INNER)` over the items `vs`: the items of the inner
/// chain for each item, concatenated.
pub open spec fn flat_mapped<E, V>(
    pattern: Range,
    inner: Chain,
    out: spec_fn(E) -> V,
    b: Behaviour<E, V>,
    env: E,
    vs: Seq<V>,
) -> Seq<V>
    decreases inner, vs.len() + 1,
{
    if vs.len() == 0 {
        Seq::empty()
    } else {
        chain_items(inner, out, b, (b.bind)(pattern, vs[0], env)) + flat_mapped(
            pattern,
            inner,
            out,
            b,
            env,
            vs.drop_first(),
        )
    }
}

/// `.filter_map(move |PAT| { GUARD(Some(INNER)) }).flatten()` over the items
/// `vs`: the items of the inner chain for each item whose guard reaches
/// `Some`, concatenated.
pub open spec fn filter_flattened<E, V>(
    pattern: Range,
    guard: Guard,
    inner: Chain,
    out: spec_fn(E) -> V,
    b: Behaviour<E, V>,
    env: E,
    vs: Seq<V>,
) -> Seq<V>
    decreases inner, vs.len() + 1,
{
    if vs.len() == 0 {
        Seq::empty()
    } else {
        let here = match guard_reaches(guard, b, (b.bind)(pattern, vs[0], env)) {
            Some(e) => chain_items(inner, out, b, e),
            None => Seq::empty(),
        };
        here + filter_flattened(pattern, guard, inner, out, b, env, vs.drop_first())
    }
}

/// The nested `if` chain of a clause's conditions reaches what the
/// conditions pass, and there is a chain exactly when there are conditions.
pub proof fn lemma_guard_reaches<E, V>(
    conditions: Seq<Condition>,
    spans: Seq<Span>,
    b: Behaviour<E, V>,
    env: E,
)
    ensures
        guard_reaches(guard_of(conditions, spans), b, env) == conditions_pass(conditions, b, env),
        (guard_of(conditions, spans) is Pass) <==> conditions.len() == 0,
    decreases conditions.len(),
{
    if conditions.len() > 0 {
        match conditions[0] {
            Condition::Test { expr } => {
                lemma_guard_reaches(conditions.drop_first(), spans.drop_first(), b, env);
            },
            Condition::Match { pat, expr } => {
                if let Some(bound) = (b.matches)(pat, (b.value)(expr, env), env) {
                    lemma_guard_reaches(conditions.drop_first(), spans.drop_first(), b, bound);
                }
            },
        }
    }
}

/// The outermost clause's adapter, over any items, yields what the
/// comprehension's outermost loop yields over them.
proof fn lemma_adapter<E, V>(
    clauses: Seq<ClauseShape>,
    spans: Seq<(Span, Seq<Span>)>,
    out: spec_fn(E) -> V,
    b: Behaviour<E, V>,
    env: E,
    vs: Seq<V>,
)
    requires
        clauses.len() >= 1,
        clauses.len() >= 2 ==> forall|e: E|
            chain_items(plan(clauses.drop_first(), spans.drop_first()), out, b, e)
                == #[trigger] comprehension_items(clauses.drop_first(), out, b, e),
    ensures
        ({
            let c = clauses[0];
            let guard = guard_of(c.conditions, spans[0].1);
            let rest = clauses.drop_first();
            let inner = plan(rest, spans.drop_first());
            loop_items(c, rest, out, b, env, vs) == if clauses.len() == 1 {
                if guard is Pass {
                    mapped(c.pattern, out, b, env, vs)
                } else {
                    filter_mapped(c.pattern, guard, out, b, env, vs)
                }
            } else {
                if guard is Pass {
                    flat_mapped(c.pattern, inner, out, b, env, vs)
                } else {
                    filter_flattened(c.pattern, guard, inner, out, b, env, vs)
                }
            }
        }),
    decreases vs.len(),
{
    let c = clauses[0];
    if vs.len() > 0 {
        lemma_adapter(clauses, spans, out, b, env, vs.drop_first());
        let bound = (b.bind)(c.pattern, vs[0], env);
        lemma_guard_reaches(c.conditions, spans[0].1, b, bound);
        if clauses.len() == 1 {
            assert(clauses.drop_first().len() == 0);
            if let Some(e) = conditions_pass(c.conditions, b, bound) {
                assert(comprehension_items(clauses.drop_first(), out, b, e) == seq![out(e)]);
            }
            if c.conditions.len() == 0 {
                assert(conditions_pass(c.conditions, b, bound) == Some(bound));
            }
        } else {
            if c.conditions.len() == 0 {
                assert(conditions_pass(c.conditions, b, bound) == Some(bound));
                assert(chain_items(plan(clauses.drop_first(), spans.drop_first()), out, b, bound)
                    == comprehension_items(clauses.drop_first(), out, b, bound));
            } else if let Some(e) = conditions_pass(c.conditions, b, bound) {
                assert(chain_items(plan(clauses.drop_first(), spans.drop_first()), out, b, e)
                    == comprehension_items(clauses.drop_first(), out, b, e));
            }
        }
    }
}

/// The chain of a comprehension yields exactly the comprehension's items, in
/// the same order, for every behaviour of the user's code and in every
/// environment: the first clause is the outermost loop, each condition
/// filters, and an `if let`'s bindings reach every later condition, every
/// later clause and the mapping.
pub proof fn theorem_chain_means_comprehension<E, V>(
    clauses: Seq<ClauseShape>,
    spans: Seq<(Span, Seq<Span>)>,
    out: spec_fn(E) -> V,
    b: Behaviour<E, V>,
    env: E,
)
    requires
        clauses.len() >= 1,
    ensures
        chain_items(plan(clauses, spans), out, b, env) == comprehension_items(clauses, out, b, env),
    decreases clauses.len(),
{
    if clauses.len() >= 2 {
        assert forall|e: E|
            chain_items(plan(clauses.drop_first(), spans.drop_first()), out, b, e)
                == #[trigger] comprehension_items(clauses.drop_first(), out, b, e) by {
            theorem_chain_means_comprehension(clauses.drop_first(), spans.drop_first(), out, b, e);
        }
    }
    lemma_adapter(clauses, spans, out, b, env, (b.items)(clauses[0].sequence, env));
}

/// Two runs of clauses that differ at most in their conditions, where each
/// clause's conditions pass in the same environments with the same bindings.
pub open spec fn same_but_conditions<E, V>(
    c1: Seq<ClauseShape>,
    c2: Seq<ClauseShape>,
    b: Behaviour<E, V>,
) -> bool {
    &&& c1.len() == c2.len()
    &&& forall|k: int|
        0 <= k < c1.len() ==> {
            &&& (#[trigger] c1[k]).pattern == c2[k].pattern
            &&& c1[k].sequence == c2[k].sequence
            &&& forall|e: E|
                conditions_pass(c1[k].conditions, b, e) == #[trigger] conditions_pass(
                    c2[k].conditions,
                    b,
                    e,
                )
        }
}

proof fn lemma_same_rest<E, V>(c1: Seq<ClauseShape>, c2: Seq<ClauseShape>, b: Behaviour<E, V>)
    requires
        c1.len() > 0,
        same_but_conditions(c1, c2, b),
    ensures
        same_but_conditions(c1.drop_first(), c2.drop_first(), b),
{
    let r1 = c1.drop_first();
    let r2 = c2.drop_first();
    assert forall|k: int| 0 <= k < r1.len() implies {
        &&& (#[trigger] r1[k]).pattern == r2[k].pattern
        &&& r1[k].sequence == r2[k].sequence
        &&& forall|e: E|
            conditions_pass(r1[k].conditions, b, e) == #[trigger] conditions_pass(r2[k].conditions, b, e)
    } by {
        assert(r1[k] == c1[k + 1] && r2[k] == c2[k + 1]);
        assert(c1[k + 1].pattern == c2[k + 1].pattern);
    }
}

proof fn lemma_same_items<E, V>(
    c1: Seq<ClauseShape>,
    c2: Seq<ClauseShape>,
    out: spec_fn(E) -> V,
    b: Behaviour<E, V>,
    env: E,
)
    requires
        same_but_conditions(c1, c2, b),
    ensures
        comprehension_items(c1, out, b, env) == comprehension_items(c2, out, b, env),
    decreases c1.len(), 0int,
{
    if c1.len() > 0 {
        assert(c1[0].pattern == c2[0].pattern);
        lemma_same_rest(c1, c2, b);
        lemma_same_loop(c1, c2, out, b, env, (b.items)(c1[0].sequence, env));
    }
}

proof fn lemma_same_loop<E, V>(
    c1: Seq<ClauseShape>,
    c2: Seq<ClauseShape>,
    out: spec_fn(E) -> V,
    b: Behaviour<E, V>,
    env: E,
    vs: Seq<V>,
)
    requires
        c1.len() > 0,
        same_but_conditions(c1, c2, b),
    ensures
        loop_items(c1[0], c1.drop_first(), out, b, env, vs) == loop_items(
            c2[0],
            c2.drop_first(),
            out,
            b,
            env,
            vs,
        ),
    decreases c1.len() - 1, vs.len() + 1,
{
    if vs.len() > 0 {
        assert(c1[0].pattern == c2[0].pattern);
        let bound = (b.bind)(c1[0].pattern, vs[0], env);
        assert(conditions_pass(c1[0].conditions, b, bound) == conditions_pass(c2[0].conditions, b, bound));
        lemma_same_rest(c1, c2, b);
        if let Some(e) = conditions_pass(c1[0].conditions, b, bound) {
            lemma_same_items(c1.drop_first(), c2.drop_first(), out, b, e);
        }
        lemma_same_loop(c1, c2, out, b, env, vs.drop_first());
    }
}

/// Clauses that differ only in conditions that pass alike yield the same
/// items: the chains of two such comprehensions yield the same items, in the
/// same order.
pub proof fn law_alike_conditions_alike_items<E, V>(
    c1: Seq<ClauseShape>,
    c2: Seq<ClauseShape>,
    spans1: Seq<(Span, Seq<Span>)>,
    spans2: Seq<(Span, Seq<Span>)>,
    out: spec_fn(E) -> V,
    b: Behaviour<E, V>,
    env: E,
)
    requires
        c1.len() >= 1,
        same_but_conditions(c1, c2, b),
    ensures
        chain_items(plan(c1, spans1), out, b, env) == chain_items(plan(c2, spans2), out, b, env),
{
    theorem_chain_means_comprehension(c1, spans1, out, b, env);
    theorem_chain_means_comprehension(c2, spans2, out, b, env);
    lemma_same_items(c1, c2, out, b, env);
}

proof fn lemma_pass_concat<E, V>(pre: Seq<Condition>, post: Seq<Condition>, b: Behaviour<E, V>, env: E)
    ensures
        conditions_pass(pre + post, b, env) == match conditions_pass(pre, b, env) {
            Some(e) => conditions_pass(post, b, e),
            None => None,
        },
    decreases pre.len(),
{
    if pre.len() == 0 {
        assert(pre + post =~= post);
    } else {
        assert((pre + post).drop_first() =~= pre.drop_first() + post);
        assert((pre + post)[0] == pre[0]);
        match pre[0] {
            Condition::Test { expr } => {
                lemma_pass_concat(pre.drop_first(), post, b, env);
            },
            Condition::Match { pat, expr } => {
                if let Some(bound) = (b.matches)(pat, (b.value)(expr, env), env) {
                    lemma_pass_concat(pre.drop_first(), post, b, bound);
                }
            },
        }
    }
}

/// Successive `if`s act as one `if` of their conjunction: `if A if B` passes
/// exactly where `if C` passes, when `C` holds exactly where `A` and `B` both
/// do, whatever conditions come before and after.
pub proof fn law_successive_tests_are_conjunction<E, V>(
    pre: Seq<Condition>,
    post: Seq<Condition>,
    a: Range,
    bb: Range,
    c: Range,
    b: Behaviour<E, V>,
    env: E,
)
    requires
        forall|e: E| #[trigger] (b.test)(c, e) == ((b.test)(a, e) && (b.test)(bb, e)),
    ensures
        conditions_pass(
            pre + seq![Condition::Test { expr: a }, Condition::Test { expr: bb }] + post,
            b,
            env,
        ) == conditions_pass(pre + seq![Condition::Test { expr: c }] + post, b, env),
{
    let two = seq![Condition::Test { expr: a }, Condition::Test { expr: bb }];
    let one = seq![Condition::Test { expr: c }];
    lemma_pass_concat(pre, two + post, b, env);
    lemma_pass_concat(pre, one + post, b, env);
    assert(pre + two + post =~= pre + (two + post));
    assert(pre + one + post =~= pre + (one + post));
    if let Some(e) = conditions_pass(pre, b, env) {
        reveal_with_fuel(conditions_pass, 3);
        assert((two + post)[0] == Condition::Test { expr: a });
        assert((two + post).drop_first()[0] == Condition::Test { expr: bb });
        assert((two + post).drop_first().drop_first() =~= post);
        assert((one + post)[0] == Condition::Test { expr: c });
        assert((one + post).drop_first() =~= post);
    }
}

proof fn lemma_mapped_items<E, V>(
    clauses: Seq<ClauseShape>,
    out: spec_fn(E) -> V,
    f: spec_fn(V) -> V,
    b: Behaviour<E, V>,
    env: E,
)
    ensures
        comprehension_items(clauses, |e: E| f(out(e)), b, env) == comprehension_items(
            clauses,
            out,
            b,
            env,
        ).map_values(f),
    decreases clauses.len(), 0int,
{
    if clauses.len() == 0 {
        assert(seq![out(env)].map_values(f) =~= seq![f(out(env))]);
    } else {
        lemma_mapped_loop(clauses, out, f, b, env, (b.items)(clauses[0].sequence, env));
    }
}

proof fn lemma_mapped_loop<E, V>(
    clauses: Seq<ClauseShape>,
    out: spec_fn(E) -> V,
    f: spec_fn(V) -> V,
    b: Behaviour<E, V>,
    env: E,
    vs: Seq<V>,
)
    requires
        clauses.len() > 0,
    ensures
        loop_items(clauses[0], clauses.drop_first(), |e: E| f(out(e)), b, env, vs) == loop_items(
            clauses[0],
            clauses.drop_first(),
            out,
            b,
            env,
            vs,
        ).map_values(f),
    decreases clauses.len() - 1, vs.len() + 1,
{
    let c = clauses[0];
    let rest = clauses.drop_first();
    if vs.len() == 0 {
        assert(Seq::<V>::empty().map_values(f) =~= Seq::<V>::empty());
    } else {
        lemma_mapped_loop(clauses, out, f, b, env, vs.drop_first());
        let here = match conditions_pass(c.conditions, b, (b.bind)(c.pattern, vs[0], env)) {
            Some(e) => comprehension_items(rest, out, b, e),
            None => Seq::empty(),
        };
        if let Some(e) = conditions_pass(c.conditions, b, (b.bind)(c.pattern, vs[0], env)) {
            lemma_mapped_items(rest, out, f, b, e);
        } else {
            assert(Seq::<V>::empty().map_values(f) =~= Seq::<V>::empty());
        }
        let later = loop_items(c, rest, out, b, env, vs.drop_first());
        assert((here + later).map_values(f) =~= here.map_values(f) + later.map_values(f));
    }
}

/// The mapping only transforms items: a comprehension whose mapping is `f`
/// of another's mapping yields `f` of each of the other's items, no more and
/// no fewer, in the same order.
pub proof fn law_mapping_only_transforms<E, V>(
    clauses: Seq<ClauseShape>,
    spans: Seq<(Span, Seq<Span>)>,
    out: spec_fn(E) -> V,
    f: spec_fn(V) -> V,
    b: Behaviour<E, V>,
    env: E,
)
    requires
        clauses.len() >= 1,
    ensures
        chain_items(plan(clauses, spans), |e: E| f(out(e)), b, env) == chain_items(
            plan(clauses, spans),
            out,
            b,
            env,
        ).map_values(f),
{
    theorem_chain_means_comprehension(clauses, spans, |e: E| f(out(e)), b, env);
    theorem_chain_means_comprehension(clauses, spans, out, b, env);
    lemma_mapped_items(clauses, out, f, b, env);
}

} // verus!
