//! Properties of the text that the library writes, over all inputs.
use vstd::prelude::*;
use proc_macro2::{Span, TokenTree};
use crate::expand::{
    Chain, Guard, Mode, bind_text, clause_head, closure_head, colon2, guard_of, into_iter_path,
    none_path, path4, plan, render_chain, render_guard, render_innermost, render_outer, some_of,
    src, test_text,
};
use crate::grammar::{
    ClauseShape, Condition, Fault, clause_within, condition_within, lemma_comprehension_within,
    spec_comprehension, spec_map_comprehension,
};
use crate::macros::{Collection, Refusal, collect_text, comprehension_text, refusal};
use crate::tokens::{OutToken, Range, Word};

verus! {

/// Every input position in `s` is below `n`, and every `__seq` in `s` has the
/// span `mixed_site`.
pub open spec fn tokens_ok(s: Seq<OutToken>, n: int, mixed_site: Span) -> bool {
    forall|k: int|
        0 <= k < s.len() ==> {
            &&& (#[trigger] s[k] matches OutToken::Src(i) ==> i < n)
            &&& (s[k] matches OutToken::Ident(w, sp) ==> (w == Word::SeqBinding ==> sp == mixed_site))
        }
}

pub broadcast proof fn lemma_tokens_ok_concat(a: Seq<OutToken>, b: Seq<OutToken>, n: int, ms: Span)
    requires
        tokens_ok(a, n, ms),
        tokens_ok(b, n, ms),
    ensures
        #[trigger] tokens_ok(a + b, n, ms),
{
    assert forall|k: int| 0 <= k < (a + b).len() implies {
        &&& (#[trigger] (a + b)[k] matches OutToken::Src(i) ==> i < n)
        &&& ((a + b)[k] matches OutToken::Ident(w, sp) ==> (w == Word::SeqBinding ==> sp == ms))
    } by {
        if k < a.len() {
            assert((a + b)[k] == a[k]);
        } else {
            assert((a + b)[k] == b[k - a.len()]);
        }
    }
}

proof fn lemma_src_ok(r: Range, n: int, ms: Span)
    requires
        r.within(n),
    ensures
        tokens_ok(src(r), n, ms),
{
}

proof fn lemma_literals_ok(s: Span, n: int, ms: Span)
    ensures
        tokens_ok(colon2(s), n, ms),
        forall|a: Word, b: Word, c: Word, d: Word|
            a != Word::SeqBinding && b != Word::SeqBinding && c != Word::SeqBinding && d
                != Word::SeqBinding ==> tokens_ok(#[trigger] path4(a, b, c, d, s), n, ms),
{
    broadcast use lemma_tokens_ok_concat;

    assert forall|a: Word, b: Word, c: Word, d: Word|
        a != Word::SeqBinding && b != Word::SeqBinding && c != Word::SeqBinding && d
            != Word::SeqBinding implies tokens_ok(#[trigger] path4(a, b, c, d, s), n, ms) by {
        assert(tokens_ok(seq![OutToken::Ident(a, s)], n, ms));
        assert(tokens_ok(seq![OutToken::Ident(b, s)], n, ms));
        assert(tokens_ok(seq![OutToken::Ident(c, s)], n, ms));
        assert(tokens_ok(seq![OutToken::Ident(d, s)], n, ms));
    }
}

proof fn lemma_guard_ok(g: Guard, body: Seq<OutToken>, n: int, ms: Span)
    requires
        tokens_ok(body, n, ms),
        guard_within(g, n),
    ensures
        tokens_ok(render_guard(g, body), n, ms),
    decreases g,
{
    broadcast use lemma_tokens_ok_concat;

    match g {
        Guard::Pass => {},
        Guard::Test { expr, span, then } => {
            lemma_guard_ok(*then, body, n, ms);
            lemma_literals_ok(span, n, ms);
            lemma_src_ok(expr, n, ms);
        },
        Guard::Bind { pat, expr, span, then } => {
            lemma_guard_ok(*then, body, n, ms);
            lemma_literals_ok(span, n, ms);
            lemma_src_ok(pat, n, ms);
            lemma_src_ok(expr, n, ms);
        },
    }
}

/// Every range of a guard lies within the first `n` positions.
pub open spec fn guard_within(g: Guard, n: int) -> bool
    decreases g,
{
    match g {
        Guard::Pass => true,
        Guard::Test { expr, then, .. } => expr.within(n) && guard_within(*then, n),
        Guard::Bind { pat, expr, then, .. } => pat.within(n) && expr.within(n) && guard_within(
            *then,
            n,
        ),
    }
}

/// Every range of a chain lies within the first `n` positions.
pub open spec fn chain_within(ch: Chain, n: int) -> bool
    decreases ch,
{
    match ch {
        Chain::Innermost { pattern, sequence, guard, .. } => pattern.within(n) && sequence.within(n)
            && guard_within(guard, n),
        Chain::Outer { pattern, sequence, guard, inner, .. } => pattern.within(n) && sequence.within(
            n,
        ) && guard_within(guard, n) && chain_within(*inner, n),
    }
}

proof fn lemma_guard_of_within(conditions: Seq<Condition>, spans: Seq<Span>, n: int)
    requires
        forall|j: int| 0 <= j < conditions.len() ==> condition_within(#[trigger] conditions[j], n),
    ensures
        guard_within(guard_of(conditions, spans), n),
    decreases conditions.len(),
{
    if conditions.len() > 0 {
        assert(condition_within(conditions[0], n));
        assert forall|j: int| 0 <= j < conditions.drop_first().len() implies condition_within(
            #[trigger] conditions.drop_first()[j],
            n,
        ) by {
            assert(conditions.drop_first()[j] == conditions[j + 1]);
        }
        lemma_guard_of_within(conditions.drop_first(), spans.drop_first(), n);
    }
}

proof fn lemma_plan_within(clauses: Seq<ClauseShape>, spans: Seq<(Span, Seq<Span>)>, n: int)
    requires
        clauses.len() >= 1,
        forall|k: int| 0 <= k < clauses.len() ==> clause_within(#[trigger] clauses[k], n),
    ensures
        chain_within(plan(clauses, spans), n),
    decreases clauses.len(),
{
    assert(clause_within(clauses[0], n));
    lemma_guard_of_within(clauses[0].conditions, spans[0].1, n);
    if clauses.len() > 1 {
        assert forall|k: int| 0 <= k < clauses.drop_first().len() implies clause_within(
            #[trigger] clauses.drop_first()[k],
            n,
        ) by {
            assert(clauses.drop_first()[k] == clauses[k + 1]);
        }
        lemma_plan_within(clauses.drop_first(), spans.drop_first(), n);
    }
}

proof fn lemma_head_ok(sequence: Range, span: Span, mode: Mode, call_site: Span, n: int, ms: Span)
    requires
        sequence.within(n),
    ensures
        tokens_ok(clause_head(sequence, span, mode, call_site, ms), n, ms),
{
    broadcast use lemma_tokens_ok_concat;

    lemma_literals_ok(call_site, n, ms);
    lemma_src_ok(sequence, n, ms);
    assert(tokens_ok(into_iter_path(mode, call_site), n, ms));
    let a = seq![
        OutToken::Open(crate::tokens::Delim::Brace, span),
        OutToken::Ident(Word::Let, span),
        OutToken::Ident(Word::SeqBinding, ms),
        OutToken::Punct(crate::tokens::Sym::Eq, false, span),
    ];
    assert(tokens_ok(a, n, ms));
    let b = seq![
        OutToken::Open(crate::tokens::Delim::Paren, span),
        OutToken::Ident(Word::SeqBinding, ms),
        OutToken::Close,
        OutToken::Punct(crate::tokens::Sym::Dot, false, span),
    ];
    assert(tokens_ok(b, n, ms));
    assert(tokens_ok(seq![OutToken::Punct(crate::tokens::Sym::Semi, false, span)], n, ms));
}

proof fn lemma_closure_head_ok(adapter: Word, pattern: Range, span: Span, n: int, ms: Span)
    requires
        pattern.within(n),
        adapter != Word::SeqBinding,
    ensures
        tokens_ok(closure_head(adapter, pattern, span), n, ms),
{
    broadcast use lemma_tokens_ok_concat;

    lemma_src_ok(pattern, n, ms);
    let a = seq![
        OutToken::Ident(adapter, span),
        OutToken::Open(crate::tokens::Delim::Paren, span),
        OutToken::Ident(Word::Move, span),
        OutToken::Punct(crate::tokens::Sym::Bar, false, span),
    ];
    assert(tokens_ok(a, n, ms));
    assert(tokens_ok(seq![OutToken::Punct(crate::tokens::Sym::Bar, false, span)], n, ms));
}

proof fn lemma_some_ok(x: Seq<OutToken>, s: Span, n: int, ms: Span)
    requires
        tokens_ok(x, n, ms),
    ensures
        tokens_ok(some_of(x, s), n, ms),
{
    broadcast use lemma_tokens_ok_concat;

    lemma_literals_ok(s, n, ms);
    assert(tokens_ok(seq![OutToken::Open(crate::tokens::Delim::Paren, s)], n, ms));
    assert(tokens_ok(seq![OutToken::Close], n, ms));
}

proof fn lemma_innermost_ok(
    pattern: Range,
    sequence: Range,
    span: Span,
    guard: Guard,
    mapping: Seq<OutToken>,
    mode: Mode,
    call_site: Span,
    n: int,
    ms: Span,
)
    requires
        pattern.within(n),
        sequence.within(n),
        guard_within(guard, n),
        tokens_ok(mapping, n, ms),
    ensures
        tokens_ok(
            render_innermost(pattern, sequence, span, guard, mapping, mode, call_site, ms),
            n,
            ms,
        ),
{
    broadcast use lemma_tokens_ok_concat;

    lemma_head_ok(sequence, span, mode, call_site, n, ms);
    lemma_closure_head_ok(Word::MapMethod, pattern, span, n, ms);
    lemma_closure_head_ok(Word::FilterMap, pattern, span, n, ms);
    lemma_some_ok(mapping, call_site, n, ms);
    lemma_guard_ok(guard, some_of(mapping, call_site), n, ms);
    assert(tokens_ok(seq![OutToken::Close, OutToken::Close], n, ms));
    assert(tokens_ok(seq![OutToken::Close, OutToken::Close, OutToken::Close], n, ms));
    assert(tokens_ok(seq![OutToken::Open(crate::tokens::Delim::Brace, span)], n, ms));
}

proof fn lemma_outer_ok(
    pattern: Range,
    sequence: Range,
    span: Span,
    guard: Guard,
    inner: Seq<OutToken>,
    mode: Mode,
    call_site: Span,
    n: int,
    ms: Span,
)
    requires
        pattern.within(n),
        sequence.within(n),
        guard_within(guard, n),
        tokens_ok(inner, n, ms),
    ensures
        tokens_ok(render_outer(pattern, sequence, span, guard, inner, mode, call_site, ms), n, ms),
{
    broadcast use lemma_tokens_ok_concat;

    lemma_head_ok(sequence, span, mode, call_site, n, ms);
    lemma_closure_head_ok(Word::FlatMap, pattern, span, n, ms);
    lemma_closure_head_ok(Word::FilterMap, pattern, span, n, ms);
    lemma_some_ok(inner, call_site, n, ms);
    lemma_guard_ok(guard, some_of(inner, call_site), n, ms);
    assert(tokens_ok(seq![OutToken::Close, OutToken::Close], n, ms));
    assert(tokens_ok(seq![OutToken::Open(crate::tokens::Delim::Brace, span)], n, ms));
    let tail = seq![
        OutToken::Close,
        OutToken::Close,
        OutToken::Punct(crate::tokens::Sym::Dot, false, span),
        OutToken::Ident(Word::Flatten, span),
        OutToken::Open(crate::tokens::Delim::Paren, span),
        OutToken::Close,
        OutToken::Close,
    ];
    assert(tokens_ok(tail, n, ms));
}

proof fn lemma_chain_ok(
    ch: Chain,
    mapping: Seq<OutToken>,
    mode: Mode,
    call_site: Span,
    n: int,
    ms: Span,
)
    requires
        chain_within(ch, n),
        tokens_ok(mapping, n, ms),
    ensures
        tokens_ok(render_chain(ch, mapping, mode, call_site, ms), n, ms),
    decreases ch,
{
    match ch {
        Chain::Innermost { pattern, sequence, span, guard } => {
            lemma_innermost_ok(pattern, sequence, span, guard, mapping, mode, call_site, n, ms);
        },
        Chain::Outer { pattern, sequence, span, guard, inner } => {
            lemma_chain_ok(*inner, mapping, mode, call_site, n, ms);
            let inner_text = render_chain(*inner, mapping, mode, call_site, ms);
            lemma_outer_ok(pattern, sequence, span, guard, inner_text, mode, call_site, n, ms);
        },
    }
}

/// What a comprehension becomes names no position outside its input, and
/// every `__seq` that it binds and uses carries the mixed-site span, so that
/// the binding cannot capture or shadow a `__seq` of the caller's code.
pub proof fn law_output_positions_and_hygiene(
    t: Seq<TokenTree>,
    spans: Seq<(Span, Seq<Span>)>,
    mode: Mode,
    collection: Option<Collection>,
    call_site: Span,
    mixed_site: Span,
)
    requires
        t.len() <= usize::MAX,
        spec_comprehension(t) is Ok,
    ensures
        tokens_ok(
            comprehension_text(spec_comprehension(t)->Ok_0, spans, mode, collection, call_site, mixed_site),
            t.len() as int,
            mixed_site,
        ),
{
    broadcast use lemma_tokens_ok_concat;

    let shape = spec_comprehension(t)->Ok_0;
    let n = t.len() as int;
    lemma_comprehension_within(t);
    lemma_plan_within(shape.clauses, spans, n);
    lemma_src_ok(shape.mapping, n, mixed_site);
    lemma_chain_ok(plan(shape.clauses, spans), src(shape.mapping), mode, call_site, n, mixed_site);
    lemma_literals_ok(call_site, n, mixed_site);
    let chain = render_chain(plan(shape.clauses, spans), src(shape.mapping), mode, call_site, mixed_site);
    if let Some(c) = collection {
        assert(tokens_ok(crate::macros::target_text(c, call_site), n, mixed_site)) by {
            match c {
                Collection::ToVec => {},
                Collection::ToHashSet => {},
                Collection::ToHashMap => {},
            }
        }
        assert(tokens_ok(collect_text(c, chain, call_site), n, mixed_site));
    }
}


/// Two tokens are equal, or the first names the sequential start of the
/// iteration (`core`, `IntoIterator`, `into_iter`) where the second names
/// the parallel one (`rayon`, `IntoParallelIterator`, `into_par_iter`), at
/// the same span.
pub open spec fn start_swapped(a: OutToken, b: OutToken) -> bool {
    ||| a == b
    ||| (a matches OutToken::Ident(w, s) && b == OutToken::Ident(
        match w {
            Word::Core => Word::Rayon,
            Word::IntoIterator => Word::IntoParallelIterator,
            _ => Word::IntoParIter,
        },
        s,
    ) && (w == Word::Core || w == Word::IntoIterator || w == Word::IntoIter))
}

/// Two texts of the same length that differ only where the iteration starts.
pub open spec fn differ_in_start(a: Seq<OutToken>, b: Seq<OutToken>) -> bool {
    &&& a.len() == b.len()
    &&& forall|k: int| 0 <= k < a.len() ==> start_swapped(#[trigger] a[k], b[k])
}

pub broadcast proof fn lemma_differ_concat(a1: Seq<OutToken>, a2: Seq<OutToken>, b1: Seq<OutToken>, b2: Seq<OutToken>)
    requires
        differ_in_start(a1, b1),
        differ_in_start(a2, b2),
    ensures
        #[trigger] differ_in_start(a1 + a2, b1 + b2),
{
    assert forall|k: int| 0 <= k < (a1 + a2).len() implies start_swapped(#[trigger] (a1 + a2)[k], (b1 + b2)[k]) by {
        if k < a1.len() {
            assert((a1 + a2)[k] == a1[k]);
            assert((b1 + b2)[k] == b1[k]);
        } else {
            assert((a1 + a2)[k] == a2[k - a1.len()]);
            assert((b1 + b2)[k] == b2[k - a1.len()]);
        }
    }
}

proof fn lemma_differ_same(a: Seq<OutToken>)
    ensures
        differ_in_start(a, a),
{
}

proof fn lemma_chain_differs(ch: Chain, mapping: Seq<OutToken>, call_site: Span, ms: Span)
    ensures
        differ_in_start(
            render_chain(ch, mapping, Mode::Sequential, call_site, ms),
            render_chain(ch, mapping, Mode::Parallel, call_site, ms),
        ),
    decreases ch,
{
    broadcast use lemma_differ_concat;

    let seq_path = into_iter_path(Mode::Sequential, call_site);
    let par_path = into_iter_path(Mode::Parallel, call_site);
    assert(differ_in_start(seq_path, par_path)) by {
        assert(seq_path.len() == par_path.len());
        assert forall|k: int| 0 <= k < seq_path.len() implies start_swapped(#[trigger] seq_path[k], par_path[k]) by {
            assert(seq_path =~= seq![
                OutToken::Punct(crate::tokens::Sym::Colon, true, call_site),
                OutToken::Punct(crate::tokens::Sym::Colon, false, call_site),
                OutToken::Ident(Word::Core, call_site),
                OutToken::Punct(crate::tokens::Sym::Colon, true, call_site),
                OutToken::Punct(crate::tokens::Sym::Colon, false, call_site),
                OutToken::Ident(Word::Iter, call_site),
                OutToken::Punct(crate::tokens::Sym::Colon, true, call_site),
                OutToken::Punct(crate::tokens::Sym::Colon, false, call_site),
                OutToken::Ident(Word::IntoIterator, call_site),
                OutToken::Punct(crate::tokens::Sym::Colon, true, call_site),
                OutToken::Punct(crate::tokens::Sym::Colon, false, call_site),
                OutToken::Ident(Word::IntoIter, call_site),
            ]);
            assert(par_path =~= seq![
                OutToken::Punct(crate::tokens::Sym::Colon, true, call_site),
                OutToken::Punct(crate::tokens::Sym::Colon, false, call_site),
                OutToken::Ident(Word::Rayon, call_site),
                OutToken::Punct(crate::tokens::Sym::Colon, true, call_site),
                OutToken::Punct(crate::tokens::Sym::Colon, false, call_site),
                OutToken::Ident(Word::Iter, call_site),
                OutToken::Punct(crate::tokens::Sym::Colon, true, call_site),
                OutToken::Punct(crate::tokens::Sym::Colon, false, call_site),
                OutToken::Ident(Word::IntoParallelIterator, call_site),
                OutToken::Punct(crate::tokens::Sym::Colon, true, call_site),
                OutToken::Punct(crate::tokens::Sym::Colon, false, call_site),
                OutToken::Ident(Word::IntoParIter, call_site),
            ]);
        }
    }
    match ch {
        Chain::Innermost { pattern, sequence, span, guard } => {
            let pre = seq![
                OutToken::Open(crate::tokens::Delim::Brace, span),
                OutToken::Ident(Word::Let, span),
                OutToken::Ident(Word::SeqBinding, ms),
                OutToken::Punct(crate::tokens::Sym::Eq, false, span),
            ] + src(sequence) + seq![OutToken::Punct(crate::tokens::Sym::Semi, false, span)];
            let post = seq![
                OutToken::Open(crate::tokens::Delim::Paren, span),
                OutToken::Ident(Word::SeqBinding, ms),
                OutToken::Close,
                OutToken::Punct(crate::tokens::Sym::Dot, false, span),
            ];
            lemma_differ_same(pre);
            lemma_differ_same(post);
            let rest = render_innermost(pattern, sequence, span, guard, mapping, Mode::Sequential, call_site, ms).subrange(
                clause_head(sequence, span, Mode::Sequential, call_site, ms).len() as int,
                render_innermost(pattern, sequence, span, guard, mapping, Mode::Sequential, call_site, ms).len() as int,
            );
            lemma_differ_same(rest);
            assert(render_innermost(pattern, sequence, span, guard, mapping, Mode::Sequential, call_site, ms)
                =~= pre + seq_path + post + rest);
            assert(render_innermost(pattern, sequence, span, guard, mapping, Mode::Parallel, call_site, ms)
                =~= pre + par_path + post + rest);
        },
        Chain::Outer { pattern, sequence, span, guard, inner } => {
            lemma_chain_differs(*inner, mapping, call_site, ms);
            let seq_inner = render_chain(*inner, mapping, Mode::Sequential, call_site, ms);
            let par_inner = render_chain(*inner, mapping, Mode::Parallel, call_site, ms);
            let pre = seq![
                OutToken::Open(crate::tokens::Delim::Brace, span),
                OutToken::Ident(Word::Let, span),
                OutToken::Ident(Word::SeqBinding, ms),
                OutToken::Punct(crate::tokens::Sym::Eq, false, span),
            ] + src(sequence) + seq![OutToken::Punct(crate::tokens::Sym::Semi, false, span)];
            let post = seq![
                OutToken::Open(crate::tokens::Delim::Paren, span),
                OutToken::Ident(Word::SeqBinding, ms),
                OutToken::Close,
                OutToken::Punct(crate::tokens::Sym::Dot, false, span),
            ];
            lemma_differ_same(pre);
            lemma_differ_same(post);
            if guard is Pass {
                let mid = closure_head(Word::FlatMap, pattern, span);
                let end = seq![OutToken::Close, OutToken::Close];
                lemma_differ_same(mid);
                lemma_differ_same(end);
                assert(render_outer(pattern, sequence, span, guard, seq_inner, Mode::Sequential, call_site, ms)
                    =~= pre + seq_path + post + mid + seq_inner + end);
                assert(render_outer(pattern, sequence, span, guard, par_inner, Mode::Parallel, call_site, ms)
                    =~= pre + par_path + post + mid + par_inner + end);
            } else {
                let mid = closure_head(Word::FilterMap, pattern, span) + seq![
                    OutToken::Open(crate::tokens::Delim::Brace, span),
                ];
                lemma_differ_same(mid);
                lemma_guard_differs(guard, seq_inner, par_inner, call_site);
                let end = seq![
                    OutToken::Close,
                    OutToken::Close,
                    OutToken::Punct(crate::tokens::Sym::Dot, false, span),
                    OutToken::Ident(Word::Flatten, span),
                    OutToken::Open(crate::tokens::Delim::Paren, span),
                    OutToken::Close,
                    OutToken::Close,
                ];
                lemma_differ_same(end);
                assert(render_outer(pattern, sequence, span, guard, seq_inner, Mode::Sequential, call_site, ms)
                    =~= pre + seq_path + post + mid + render_guard(guard, some_of(seq_inner, call_site)) + end);
                assert(render_outer(pattern, sequence, span, guard, par_inner, Mode::Parallel, call_site, ms)
                    =~= pre + par_path + post + mid + render_guard(guard, some_of(par_inner, call_site)) + end);
            }
        },
    }
}

proof fn lemma_guard_differs(g: Guard, a: Seq<OutToken>, b: Seq<OutToken>, call_site: Span)
    requires
        differ_in_start(a, b),
    ensures
        differ_in_start(render_guard(g, some_of(a, call_site)), render_guard(g, some_of(b, call_site))),
    decreases g,
{
    broadcast use lemma_differ_concat;

    lemma_differ_same(path4(Word::Core, Word::Option, Word::OptionType, Word::SomeVariant, call_site));
    lemma_differ_same(seq![OutToken::Open(crate::tokens::Delim::Paren, call_site)]);
    lemma_differ_same(seq![OutToken::Close]);
    match g {
        Guard::Pass => {},
        Guard::Test { expr, span, then } => {
            lemma_guard_differs(*then, a, b, call_site);
            let x = render_guard(*then, some_of(a, call_site));
            let y = render_guard(*then, some_of(b, call_site));
            let pre = seq![OutToken::Ident(Word::If, span)] + src(expr) + seq![OutToken::Open(crate::tokens::Delim::Brace, span)];
            let post = seq![OutToken::Close, OutToken::Ident(Word::Else, span), OutToken::Open(crate::tokens::Delim::Brace, span)]
                + none_path(span) + seq![OutToken::Close];
            lemma_differ_same(pre);
            lemma_differ_same(post);
            assert(test_text(expr, span, x) =~= pre + x + post);
            assert(test_text(expr, span, y) =~= pre + y + post);
        },
        Guard::Bind { pat, expr, span, then } => {
            lemma_guard_differs(*then, a, b, call_site);
            let x = render_guard(*then, some_of(a, call_site));
            let y = render_guard(*then, some_of(b, call_site));
            let pre = seq![OutToken::Ident(Word::If, span), OutToken::Ident(Word::Let, span)] + src(pat)
                + seq![OutToken::Punct(crate::tokens::Sym::Eq, false, span)] + src(expr) + seq![
                OutToken::Open(crate::tokens::Delim::Brace, span),
            ];
            let post = seq![OutToken::Close, OutToken::Ident(Word::Else, span), OutToken::Open(crate::tokens::Delim::Brace, span)]
                + none_path(span) + seq![OutToken::Close];
            lemma_differ_same(pre);
            lemma_differ_same(post);
            assert(bind_text(pat, expr, span, x) =~= pre + x + post);
            assert(bind_text(pat, expr, span, y) =~= pre + y + post);
        },
    }
}

/// `par_comp` and `comp` write the same chain for the same input, token for
/// token, except where the iteration starts: `::rayon::iter::IntoParallelIterator::into_par_iter`
/// in place of `::core::iter::IntoIterator::into_iter`.
pub proof fn law_parallel_differs_only_in_start(
    shape: crate::grammar::Shape,
    spans: Seq<(Span, Seq<Span>)>,
    call_site: Span,
    mixed_site: Span,
)
    ensures
        differ_in_start(
            comprehension_text(shape, spans, Mode::Sequential, None, call_site, mixed_site),
            comprehension_text(shape, spans, Mode::Parallel, None, call_site, mixed_site),
        ),
{
    lemma_chain_differs(plan(shape.clauses, spans), src(shape.mapping), call_site, mixed_site);
}

/// `vec_comp`, `set_comp` write the chain that `comp` writes for the same
/// input, passed to `Iterator::collect` into a `Vec` or a `HashSet`.
pub proof fn law_collections_collect_the_chain(
    shape: crate::grammar::Shape,
    spans: Seq<(Span, Seq<Span>)>,
    collection: Collection,
    call_site: Span,
    mixed_site: Span,
)
    ensures
        comprehension_text(shape, spans, Mode::Sequential, Some(collection), call_site, mixed_site)
            == collect_text(
            collection,
            comprehension_text(shape, spans, Mode::Sequential, None, call_site, mixed_site),
            call_site,
        ),
{
}


/// The number of groups open after the tokens `s`, starting with `d` open;
/// `-1` once a `Close` finds no open group.
pub open spec fn depth_after(s: Seq<OutToken>, d: int) -> int
    decreases s.len(),
{
    if d < 0 || s.len() == 0 {
        d
    } else {
        match s[0] {
            OutToken::Open(..) => depth_after(s.drop_first(), d + 1),
            OutToken::Close => depth_after(s.drop_first(), d - 1),
            _ => depth_after(s.drop_first(), d),
        }
    }
}

/// Every group that the tokens open they close, and every group they close
/// they opened: from any depth they come back to it without going below it.
pub open spec fn balanced(s: Seq<OutToken>) -> bool {
    forall|d: int| d >= 0 ==> #[trigger] depth_after(s, d) == d
}

/// The tokens open `k` groups more than they close, and close none that
/// they did not open.
pub open spec fn opens(s: Seq<OutToken>, k: int) -> bool {
    forall|d: int| d >= 0 ==> #[trigger] depth_after(s, d) == d + k
}

pub(crate) proof fn lemma_depth_concat(a: Seq<OutToken>, b: Seq<OutToken>, d: int)
    ensures
        depth_after(a + b, d) == depth_after(b, depth_after(a, d)),
    decreases a.len(),
{
    if d < 0 {
        assert(depth_after(b, d) == d) by { lemma_depth_negative(b, d); }
    } else if a.len() == 0 {
        assert(a + b =~= b);
    } else {
        assert((a + b).drop_first() =~= a.drop_first() + b);
        let d2 = match a[0] {
            OutToken::Open(..) => d + 1,
            OutToken::Close => d - 1,
            _ => d,
        };
        lemma_depth_concat(a.drop_first(), b, d2);
    }
}

pub(crate) proof fn lemma_depth_negative(s: Seq<OutToken>, d: int)
    requires
        d < 0,
    ensures
        depth_after(s, d) == d,
{
}

/// Two pieces that open `j` and `k` groups together open `j + k`.
proof fn lemma_opens_concat(a: Seq<OutToken>, b: Seq<OutToken>, j: int, k: int)
    requires
        opens(a, j),
        opens(b, k),
        j >= 0,
    ensures
        opens(a + b, j + k),
{
    assert forall|d: int| d >= 0 implies #[trigger] depth_after(a + b, d) == d + j + k by {
        lemma_depth_concat(a, b, d);
        assert(depth_after(a, d) == d + j);
        assert(depth_after(b, d + j) == d + j + k);
    }
}

/// Tokens that neither open nor close a group.
pub open spec fn flat(s: Seq<OutToken>) -> bool {
    forall|k: int| 0 <= k < s.len() ==> !(#[trigger] s[k] is Open) && !(s[k] is Close)
}

proof fn lemma_flat_opens_none(s: Seq<OutToken>)
    requires
        flat(s),
    ensures
        opens(s, 0),
    decreases s.len(),
{
    if s.len() > 0 {
        assert(flat(s.drop_first())) by {
            assert forall|k: int| 0 <= k < s.drop_first().len() implies !(#[trigger] s.drop_first()[k] is Open)
                && !(s.drop_first()[k] is Close) by {
                assert(s.drop_first()[k] == s[k + 1]);
            }
        }
        lemma_flat_opens_none(s.drop_first());
        assert(!(s[0] is Open) && !(s[0] is Close));
        assert forall|d: int| d >= 0 implies #[trigger] depth_after(s, d) == d by {
            assert(depth_after(s.drop_first(), d) == d);
        }
    }
}

proof fn lemma_open_token(t: OutToken)
    requires
        t is Open,
    ensures
        opens(seq![t], 1),
{
    assert forall|d: int| d >= 0 implies #[trigger] depth_after(seq![t], d) == d + 1 by {
        assert(seq![t].drop_first() =~= Seq::<OutToken>::empty());
        assert(depth_after(seq![t].drop_first(), d + 1) == d + 1);
    }
}

/// A group around tokens that open none opens none.
proof fn lemma_group(open: OutToken, x: Seq<OutToken>)
    requires
        open is Open,
        balanced(x),
    ensures
        balanced(seq![open] + x + seq![OutToken::Close]),
{
    lemma_open_token(open);
    assert(opens(x, 0));
    lemma_opens_concat(seq![open], x, 1, 0);
    assert forall|d: int| d >= 0 implies #[trigger] depth_after(seq![open] + x + seq![OutToken::Close], d) == d by {
        lemma_depth_concat(seq![open] + x, seq![OutToken::Close], d);
        assert(depth_after(seq![open] + x, d) == d + 1);
        assert(seq![OutToken::Close].drop_first() =~= Seq::<OutToken>::empty());
        assert(depth_after(seq![OutToken::Close].drop_first(), d) == d);
    }
}

proof fn lemma_close_tokens(n: nat, d: int)
    requires
        d >= n,
    ensures
        depth_after(Seq::new(n, |i: int| OutToken::Close), d) == d - n,
    decreases n,
{
    if n > 0 {
        let s = Seq::new(n, |i: int| OutToken::Close);
        assert(s.drop_first() =~= Seq::new((n - 1) as nat, |i: int| OutToken::Close));
        lemma_close_tokens((n - 1) as nat, d - 1);
    }
}

proof fn lemma_src_flat(r: Range)
    ensures
        flat(src(r)),
{
}

/// `::core::option::Option::Some(X)` around balanced tokens is balanced.
proof fn lemma_some_balanced(x: Seq<OutToken>, s: Span)
    requires
        balanced(x),
    ensures
        balanced(some_of(x, s)),
{
    let p = path4(Word::Core, Word::Option, Word::OptionType, Word::SomeVariant, s);
    assert(flat(p));
    lemma_flat_opens_none(p);
    let g = seq![OutToken::Open(crate::tokens::Delim::Paren, s)] + x + seq![OutToken::Close];
    lemma_group(OutToken::Open(crate::tokens::Delim::Paren, s), x);
    lemma_opens_concat(p, g, 0, 0);
    assert(some_of(x, s) =~= p + g);
}

proof fn lemma_guard_balanced(g: Guard, body: Seq<OutToken>)
    requires
        balanced(body),
    ensures
        balanced(render_guard(g, body)),
    decreases g,
{
    match g {
        Guard::Pass => {},
        Guard::Test { expr, span, then } => {
            lemma_guard_balanced(*then, body);
            let inner = render_guard(*then, body);
            let head = seq![OutToken::Ident(Word::If, span)] + src(expr);
            assert(flat(head));
            lemma_flat_opens_none(head);
            let np = none_path(span);
            assert(flat(np));
            lemma_flat_opens_none(np);
            let g1 = seq![OutToken::Open(crate::tokens::Delim::Brace, span)] + inner + seq![OutToken::Close];
            lemma_group(OutToken::Open(crate::tokens::Delim::Brace, span), inner);
            let els = seq![OutToken::Ident(Word::Else, span)];
            assert(flat(els));
            lemma_flat_opens_none(els);
            let g2 = seq![OutToken::Open(crate::tokens::Delim::Brace, span)] + np + seq![OutToken::Close];
            lemma_group(OutToken::Open(crate::tokens::Delim::Brace, span), np);
            lemma_opens_concat(head, g1, 0, 0);
            lemma_opens_concat(head + g1, els, 0, 0);
            lemma_opens_concat(head + g1 + els, g2, 0, 0);
            assert(test_text(expr, span, inner) =~= head + g1 + els + g2);
        },
        Guard::Bind { pat, expr, span, then } => {
            lemma_guard_balanced(*then, body);
            let inner = render_guard(*then, body);
            let head = seq![OutToken::Ident(Word::If, span), OutToken::Ident(Word::Let, span)] + src(pat)
                + seq![OutToken::Punct(crate::tokens::Sym::Eq, false, span)] + src(expr);
            assert(flat(head));
            lemma_flat_opens_none(head);
            let np = none_path(span);
            assert(flat(np));
            lemma_flat_opens_none(np);
            let g1 = seq![OutToken::Open(crate::tokens::Delim::Brace, span)] + inner + seq![OutToken::Close];
            lemma_group(OutToken::Open(crate::tokens::Delim::Brace, span), inner);
            let els = seq![OutToken::Ident(Word::Else, span)];
            assert(flat(els));
            lemma_flat_opens_none(els);
            let g2 = seq![OutToken::Open(crate::tokens::Delim::Brace, span)] + np + seq![OutToken::Close];
            lemma_group(OutToken::Open(crate::tokens::Delim::Brace, span), np);
            lemma_opens_concat(head, g1, 0, 0);
            lemma_opens_concat(head + g1, els, 0, 0);
            lemma_opens_concat(head + g1 + els, g2, 0, 0);
            assert(bind_text(pat, expr, span, inner) =~= head + g1 + els + g2);
        },
    }
}


proof fn lemma_cat(a: Seq<OutToken>, b: Seq<OutToken>)
    requires
        balanced(a),
        balanced(b),
    ensures
        balanced(a + b),
{
    lemma_opens_concat(a, b, 0, 0);
}

proof fn lemma_flat_balanced(s: Seq<OutToken>)
    requires
        flat(s),
    ensures
        balanced(s),
{
    lemma_flat_opens_none(s);
}

/// The part of a clause's head within its block: `let __seq = SEQ; INTO_ITER(__seq).`
proof fn lemma_head_body_balanced(sequence: Range, span: Span, mode: Mode, call_site: Span, ms: Span)
    ensures
        balanced(
            seq![
                OutToken::Ident(Word::Let, span),
                OutToken::Ident(Word::SeqBinding, ms),
                OutToken::Punct(crate::tokens::Sym::Eq, false, span),
            ] + src(sequence) + seq![OutToken::Punct(crate::tokens::Sym::Semi, false, span)]
                + into_iter_path(mode, call_site) + (seq![
                OutToken::Open(crate::tokens::Delim::Paren, span),
            ] + seq![OutToken::Ident(Word::SeqBinding, ms)] + seq![OutToken::Close]) + seq![
                OutToken::Punct(crate::tokens::Sym::Dot, false, span),
            ],
        ),
{
    let a = seq![
        OutToken::Ident(Word::Let, span),
        OutToken::Ident(Word::SeqBinding, ms),
        OutToken::Punct(crate::tokens::Sym::Eq, false, span),
    ] + src(sequence) + seq![OutToken::Punct(crate::tokens::Sym::Semi, false, span)]
        + into_iter_path(mode, call_site);
    assert(flat(a));
    lemma_flat_balanced(a);
    let inner = seq![OutToken::Ident(Word::SeqBinding, ms)];
    assert(flat(inner));
    lemma_flat_balanced(inner);
    lemma_group(OutToken::Open(crate::tokens::Delim::Paren, span), inner);
    let dot = seq![OutToken::Punct(crate::tokens::Sym::Dot, false, span)];
    assert(flat(dot));
    lemma_flat_balanced(dot);
    lemma_cat(a, seq![OutToken::Open(crate::tokens::Delim::Paren, span)] + inner + seq![OutToken::Close]);
    lemma_cat(
        a + (seq![OutToken::Open(crate::tokens::Delim::Paren, span)] + inner + seq![OutToken::Close]),
        dot,
    );
}

/// `{ let __seq = SEQ; INTO_ITER(__seq).ADAPTER(move |PAT| BODY) TAIL }` is
/// balanced when `BODY` and `TAIL` are.
proof fn lemma_clause_balanced(
    sequence: Range,
    span: Span,
    mode: Mode,
    call_site: Span,
    ms: Span,
    adapter: Word,
    pattern: Range,
    body: Seq<OutToken>,
    tail: Seq<OutToken>,
)
    requires
        balanced(body),
        balanced(tail),
    ensures
        balanced(
            clause_head(sequence, span, mode, call_site, ms) + closure_head(adapter, pattern, span)
                + body + seq![OutToken::Close] + tail + seq![OutToken::Close],
        ),
{
    let h1 = seq![
        OutToken::Ident(Word::Let, span),
        OutToken::Ident(Word::SeqBinding, ms),
        OutToken::Punct(crate::tokens::Sym::Eq, false, span),
    ] + src(sequence) + seq![OutToken::Punct(crate::tokens::Sym::Semi, false, span)]
        + into_iter_path(mode, call_site) + (seq![
        OutToken::Open(crate::tokens::Delim::Paren, span),
    ] + seq![OutToken::Ident(Word::SeqBinding, ms)] + seq![OutToken::Close]) + seq![
        OutToken::Punct(crate::tokens::Sym::Dot, false, span),
    ];
    lemma_head_body_balanced(sequence, span, mode, call_site, ms);
    let c1 = seq![OutToken::Ident(Word::Move, span), OutToken::Punct(crate::tokens::Sym::Bar, false, span)]
        + src(pattern) + seq![OutToken::Punct(crate::tokens::Sym::Bar, false, span)];
    assert(flat(c1));
    lemma_flat_balanced(c1);
    lemma_cat(c1, body);
    let call = seq![OutToken::Open(crate::tokens::Delim::Paren, span)] + (c1 + body) + seq![OutToken::Close];
    lemma_group(OutToken::Open(crate::tokens::Delim::Paren, span), c1 + body);
    let ad = seq![OutToken::Ident(adapter, span)];
    assert(flat(ad));
    lemma_flat_balanced(ad);
    lemma_cat(h1, ad);
    lemma_cat(h1 + ad, call);
    lemma_cat(h1 + ad + call, tail);
    let block = seq![OutToken::Open(crate::tokens::Delim::Brace, span)] + (h1 + ad + call + tail) + seq![
        OutToken::Close,
    ];
    lemma_group(OutToken::Open(crate::tokens::Delim::Brace, span), h1 + ad + call + tail);
    assert(clause_head(sequence, span, mode, call_site, ms) + closure_head(adapter, pattern, span) + body
        + seq![OutToken::Close] + tail + seq![OutToken::Close] =~= block);
}

proof fn lemma_chain_balanced(
    ch: Chain,
    mapping: Seq<OutToken>,
    mode: Mode,
    call_site: Span,
    ms: Span,
)
    requires
        balanced(mapping),
    ensures
        balanced(render_chain(ch, mapping, mode, call_site, ms)),
    decreases ch,
{
    let empty = Seq::<OutToken>::empty();
    assert(flat(empty));
    lemma_flat_balanced(empty);
    match ch {
        Chain::Innermost { pattern, sequence, span, guard } => {
            if guard is Pass {
                lemma_clause_balanced(sequence, span, mode, call_site, ms, Word::MapMethod, pattern, mapping, empty);
                assert(render_innermost(pattern, sequence, span, guard, mapping, mode, call_site, ms)
                    =~= clause_head(sequence, span, mode, call_site, ms) + closure_head(Word::MapMethod, pattern, span)
                    + mapping + seq![OutToken::Close] + empty + seq![OutToken::Close]);
            } else {
                lemma_some_balanced(mapping, call_site);
                lemma_guard_balanced(guard, some_of(mapping, call_site));
                let g = render_guard(guard, some_of(mapping, call_site));
                lemma_group(OutToken::Open(crate::tokens::Delim::Brace, span), g);
                let body = seq![OutToken::Open(crate::tokens::Delim::Brace, span)] + g + seq![OutToken::Close];
                lemma_clause_balanced(sequence, span, mode, call_site, ms, Word::FilterMap, pattern, body, empty);
                assert(render_innermost(pattern, sequence, span, guard, mapping, mode, call_site, ms)
                    =~= clause_head(sequence, span, mode, call_site, ms) + closure_head(Word::FilterMap, pattern, span)
                    + body + seq![OutToken::Close] + empty + seq![OutToken::Close]);
            }
        },
        Chain::Outer { pattern, sequence, span, guard, inner } => {
            lemma_chain_balanced(*inner, mapping, mode, call_site, ms);
            let it = render_chain(*inner, mapping, mode, call_site, ms);
            if guard is Pass {
                lemma_clause_balanced(sequence, span, mode, call_site, ms, Word::FlatMap, pattern, it, empty);
                assert(render_outer(pattern, sequence, span, guard, it, mode, call_site, ms)
                    =~= clause_head(sequence, span, mode, call_site, ms) + closure_head(Word::FlatMap, pattern, span)
                    + it + seq![OutToken::Close] + empty + seq![OutToken::Close]);
            } else {
                lemma_some_balanced(it, call_site);
                lemma_guard_balanced(guard, some_of(it, call_site));
                let g = render_guard(guard, some_of(it, call_site));
                lemma_group(OutToken::Open(crate::tokens::Delim::Brace, span), g);
                let body = seq![OutToken::Open(crate::tokens::Delim::Brace, span)] + g + seq![OutToken::Close];
                let dots = seq![
                    OutToken::Punct(crate::tokens::Sym::Dot, false, span),
                    OutToken::Ident(Word::Flatten, span),
                ];
                assert(flat(dots));
                lemma_flat_balanced(dots);
                lemma_group(OutToken::Open(crate::tokens::Delim::Paren, span), empty);
                let call = seq![OutToken::Open(crate::tokens::Delim::Paren, span)] + empty + seq![OutToken::Close];
                lemma_cat(dots, call);
                lemma_clause_balanced(sequence, span, mode, call_site, ms, Word::FilterMap, pattern, body, dots + call);
                assert(render_outer(pattern, sequence, span, guard, it, mode, call_site, ms)
                    =~= clause_head(sequence, span, mode, call_site, ms) + closure_head(Word::FilterMap, pattern, span)
                    + body + seq![OutToken::Close] + (dots + call) + seq![OutToken::Close]);
            }
        },
    }
}


proof fn lemma_collect_balanced(c: Collection, iter: Seq<OutToken>, s: Span)
    requires
        balanced(iter),
    ensures
        balanced(collect_text(c, iter, s)),
{
    let pre = path4(Word::Core, Word::Iter, Word::Iterator, Word::Collect, s) + colon2(s) + seq![
        OutToken::Punct(crate::tokens::Sym::Lt, false, s),
    ] + crate::macros::target_text(c, s);
    assert(flat(pre)) by {
        match c {
            Collection::ToVec => {},
            Collection::ToHashSet => {},
            Collection::ToHashMap => {},
        }
    }
    lemma_flat_balanced(pre);
    lemma_group(OutToken::Open(crate::tokens::Delim::Paren, s), iter);
    lemma_cat(pre, seq![OutToken::Open(crate::tokens::Delim::Paren, s)] + iter + seq![OutToken::Close]);
    assert(collect_text(c, iter, s) =~= pre + (seq![OutToken::Open(crate::tokens::Delim::Paren, s)] + iter
        + seq![OutToken::Close]));
}

/// Every group that the text of a comprehension opens it closes, and it
/// closes none that it did not open, whatever the comprehension, the mode,
/// the collection and the spans.
pub proof fn law_output_balanced(
    shape: crate::grammar::Shape,
    spans: Seq<(Span, Seq<Span>)>,
    mode: Mode,
    collection: Option<Collection>,
    call_site: Span,
    mixed_site: Span,
)
    ensures
        balanced(comprehension_text(shape, spans, mode, collection, call_site, mixed_site)),
{
    lemma_src_flat(shape.mapping);
    lemma_flat_balanced(src(shape.mapping));
    lemma_chain_balanced(plan(shape.clauses, spans), src(shape.mapping), mode, call_site, mixed_site);
    if let Some(c) = collection {
        lemma_collect_balanced(
            c,
            render_chain(plan(shape.clauses, spans), src(shape.mapping), mode, call_site, mixed_site),
            call_site,
        );
    }
}

/// Every group that the text of a map comprehension opens it closes, and it
/// closes none that it did not open.
pub proof fn law_map_output_balanced(
    shape: crate::grammar::MapShape,
    spans: Seq<(Span, Seq<Span>)>,
    call_site: Span,
    mixed_site: Span,
)
    ensures
        balanced(crate::macros::map_comprehension_text(shape, spans, call_site, mixed_site)),
{
    let inner = src(shape.key) + seq![OutToken::Punct(crate::tokens::Sym::Comma, false, call_site)] + src(shape.value);
    assert(flat(inner));
    lemma_flat_balanced(inner);
    lemma_group(OutToken::Open(crate::tokens::Delim::Paren, call_site), inner);
    let pair = crate::macros::pair_text(shape.key, shape.value, call_site);
    assert(pair =~= seq![OutToken::Open(crate::tokens::Delim::Paren, call_site)] + inner + seq![OutToken::Close]);
    lemma_chain_balanced(plan(shape.clauses, spans), pair, Mode::Sequential, call_site, mixed_site);
    lemma_collect_balanced(
        Collection::ToHashMap,
        render_chain(plan(shape.clauses, spans), pair, Mode::Sequential, call_site, mixed_site),
        call_site,
    );
}

/// What a map comprehension becomes names no position outside its input,
/// and every `__seq` that it binds and uses carries the mixed-site span.
pub proof fn law_map_output_positions_and_hygiene(
    t: Seq<TokenTree>,
    spans: Seq<(Span, Seq<Span>)>,
    call_site: Span,
    mixed_site: Span,
)
    requires
        t.len() <= usize::MAX,
        spec_map_comprehension(t) is Ok,
    ensures
        tokens_ok(
            crate::macros::map_comprehension_text(spec_map_comprehension(t)->Ok_0, spans, call_site, mixed_site),
            t.len() as int,
            mixed_site,
        ),
{
    broadcast use lemma_tokens_ok_concat;

    let shape = spec_map_comprehension(t)->Ok_0;
    let n = t.len() as int;
    crate::grammar::lemma_map_comprehension_within(t);
    lemma_plan_within(shape.clauses, spans, n);
    lemma_src_ok(shape.key, n, mixed_site);
    lemma_src_ok(shape.value, n, mixed_site);
    let pair = crate::macros::pair_text(shape.key, shape.value, call_site);
    assert(tokens_ok(seq![OutToken::Open(crate::tokens::Delim::Paren, call_site)], n, mixed_site));
    assert(tokens_ok(seq![OutToken::Punct(crate::tokens::Sym::Comma, false, call_site)], n, mixed_site));
    assert(tokens_ok(seq![OutToken::Close], n, mixed_site));
    assert(tokens_ok(pair, n, mixed_site));
    lemma_chain_ok(plan(shape.clauses, spans), pair, Mode::Sequential, call_site, n, mixed_site);
    lemma_literals_ok(call_site, n, mixed_site);
    let chain = render_chain(plan(shape.clauses, spans), pair, Mode::Sequential, call_site, mixed_site);
    assert(tokens_ok(crate::macros::target_text(Collection::ToHashMap, call_site), n, mixed_site));
    assert(tokens_ok(collect_text(Collection::ToHashMap, chain, call_site), n, mixed_site));
}


/// A span that fits a fragment as `syn` gives it, for any compiler: the
/// call-site span for no tree, else the first tree's span.
pub open spec fn first_span(t: Seq<TokenTree>, r: Range, call_site: Span) -> Span {
    if r.len() == 0 {
        call_site
    } else {
        crate::bridge::tree_span(t[r.start as int])
    }
}

/// Spans that fit the clauses: each fragment's first span.
pub open spec fn first_spans(t: Seq<TokenTree>, clauses: Seq<ClauseShape>, call_site: Span) -> Seq<
    (Span, Seq<Span>),
> {
    Seq::new(
        clauses.len(),
        |i: int|
            (
                first_span(t, clauses[i].sequence, call_site),
                Seq::new(
                    clauses[i].conditions.len(),
                    |j: int| first_span(t, crate::expand::condition_expr(clauses[i].conditions[j]), call_site),
                ),
            ),
    )
}

proof fn lemma_first_spans_fit(t: Seq<TokenTree>, clauses: Seq<ClauseShape>, call_site: Span)
    ensures
        crate::expand::spans_fit(t, clauses, first_spans(t, clauses, call_site), call_site),
{
}

/// The five comprehensions read one grammar: whatever the mode and the
/// collection, a comprehension is written exactly when the grammar accepts
/// its input.
pub proof fn law_one_grammar(
    t: Seq<TokenTree>,
    mode: Mode,
    collection: Option<Collection>,
    call_site: Span,
    mixed_site: Span,
)
    ensures
        (exists|out: Seq<OutToken>|
            crate::macros::comprehension_output(t, mode, collection, call_site, mixed_site, out))
            <==> spec_comprehension(t) is Ok,
{
    if let Ok(shape) = spec_comprehension(t) {
        let spans = first_spans(t, shape.clauses, call_site);
        lemma_first_spans_fit(t, shape.clauses, call_site);
        let out = comprehension_text(shape, spans, mode, collection, call_site, mixed_site);
        assert(crate::macros::comprehension_output(t, mode, collection, call_site, mixed_site, out));
    }
}

/// The message that a refusal is answered with.
pub open spec fn refusal_message(r: Refusal) -> Seq<char> {
    match r {
        Refusal::Syn(_, message) => message@,
        Refusal::At(_, message) => message@,
    }
}

/// A refused comprehension is answered with one message whatever the call
/// site, and, at one call site, at one span where the grammar places it.
/// `comp`, `vec_comp`, `set_comp` and `par_comp` refuse the same inputs for
/// the same fault, so they answer a malformed input alike.
pub proof fn law_one_refusal(
    t: Seq<TokenTree>,
    f: Fault,
    cs1: Span,
    cs2: Span,
    r1: Refusal,
    r2: Refusal,
)
    requires
        refusal(t, f, cs1, r1),
        refusal(t, f, cs2, r2),
    ensures
        refusal_message(r1) == refusal_message(r2),
        (r1 is Syn) == (r2 is Syn),
        cs1 == cs2 ==> (r1 matches Refusal::At(s1, _) ==> r2 matches Refusal::At(s2, _) && s1 == s2),
{
}

} // verus!
