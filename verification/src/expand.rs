//! The iterator chain that a comprehension becomes.
//!
//! A comprehension with clauses `c0, c1, ..., cn` becomes the chain
//! `chain(c0, chain(c1, ... innermost(cn, MAPPING)))` where each clause reads
//!
//! ```text
//! { let __seq = SEQ; INTO_ITER(__seq).ADAPTER(move |PAT| BODY) }
//! ```
//!
//! and the adapter is `map` (innermost clause, no conditions), `filter_map`
//! (innermost clause with conditions), `flat_map` (outer clause, no
//! conditions) or `filter_map(..).flatten()` (outer clause with conditions).
//! Conditions become nested `if` / `if let` expressions whose innermost branch
//! is `Some(..)` and every other branch `None`, the first condition outermost.
//! [`Chain`] is that structure; [`render_chain`] is its text, token by token.
use vstd::prelude::*;
use proc_macro2::{Span, TokenTree};
use crate::bridge::{syn_span, tree_span};
use crate::grammar::{Clause, ClauseShape, Condition, clause_within, clauses_view, condition_within};
use crate::tokens::{Delim, OutToken, Range, Sym, Word};

verus! {

/// Sequential (`core::iter`) or parallel (`rayon`) iteration.
#[derive(Clone, Copy, Debug, PartialEq, Eq)]
pub enum Mode {
    Sequential,
    Parallel,
}

/// The spans given to the tokens written for one clause: one for the clause
/// itself (the span of its sequence expression) and one for each condition
/// (the span of the condition's expression).
#[derive(Debug)]
pub struct ClauseSpans {
    pub sequence: Span,
    pub conditions: Vec<Span>,
}

impl View for ClauseSpans {
    type V = (Span, Seq<Span>);

    open spec fn view(&self) -> (Span, Seq<Span>) {
        (self.sequence, self.conditions@)
    }
}

pub open spec fn spans_view(spans: Seq<ClauseSpans>) -> Seq<(Span, Seq<Span>)> {
    spans.map_values(|s: ClauseSpans| s@)
}

/// The conditions of one closure, nested: the first condition outermost.
pub enum Guard {
    /// No condition is left: the closure yields `Some(..)`.
    Pass,
    /// `if EXPR { THEN } else { None }`
    Test { expr: Range, span: Span, then: Box<Guard> },
    /// `if let PAT = EXPR { THEN } else { None }`
    Bind { pat: Range, expr: Range, span: Span, then: Box<Guard> },
}

/// The chain: the innermost clause yields the mapping, every other clause
/// yields the items of the chain within it.
pub enum Chain {
    Innermost { pattern: Range, sequence: Range, span: Span, guard: Guard },
    Outer { pattern: Range, sequence: Range, span: Span, guard: Guard, inner: Box<Chain> },
}

/// The guard of a clause's conditions, with one span for each.
pub open spec fn guard_of(conditions: Seq<Condition>, spans: Seq<Span>) -> Guard
    decreases conditions.len(),
{
    if conditions.len() == 0 {
        Guard::Pass
    } else {
        let then = Box::new(guard_of(conditions.drop_first(), spans.drop_first()));
        match conditions[0] {
            Condition::Test { expr } => Guard::Test { expr, span: spans[0], then },
            Condition::Match { pat, expr } => Guard::Bind { pat, expr, span: spans[0], then },
        }
    }
}

/// The chain of one or more clauses, the first clause outermost.
pub open spec fn plan(clauses: Seq<ClauseShape>, spans: Seq<(Span, Seq<Span>)>) -> Chain
    decreases clauses.len(),
{
    let c = clauses[0];
    let guard = guard_of(c.conditions, spans[0].1);
    if clauses.len() <= 1 {
        Chain::Innermost { pattern: c.pattern, sequence: c.sequence, span: spans[0].0, guard }
    } else {
        Chain::Outer {
            pattern: c.pattern,
            sequence: c.sequence,
            span: spans[0].0,
            guard,
            inner: Box::new(plan(clauses.drop_first(), spans.drop_first())),
        }
    }
}

/// The input tokens of a range, in order.
pub open spec fn src(r: Range) -> Seq<OutToken> {
    Seq::new((r.end - r.start) as nat, |k: int| OutToken::Src((r.start + k) as usize))
}

pub open spec fn ident(w: Word, s: Span) -> OutToken {
    OutToken::Ident(w, s)
}

pub open spec fn punct(c: Sym, s: Span) -> OutToken {
    OutToken::Punct(c, false, s)
}

/// `::`
pub open spec fn colon2(s: Span) -> Seq<OutToken> {
    seq![OutToken::Punct(Sym::Colon, true, s), OutToken::Punct(Sym::Colon, false, s)]
}

/// `::a::b::c::d`
pub open spec fn path4(a: Word, b: Word, c: Word, d: Word, s: Span) -> Seq<OutToken> {
    colon2(s) + seq![ident(a, s)] + colon2(s) + seq![ident(b, s)] + colon2(s) + seq![ident(c, s)]
        + colon2(s) + seq![ident(d, s)]
}

/// The function that starts the iteration: `::core::iter::IntoIterator::into_iter`
/// or `::rayon::iter::IntoParallelIterator::into_par_iter`.
pub open spec fn into_iter_path(mode: Mode, call_site: Span) -> Seq<OutToken> {
    match mode {
        Mode::Sequential => path4(
            Word::Core,
            Word::Iter,
            Word::IntoIterator,
            Word::IntoIter,
            call_site,
        ),
        Mode::Parallel => path4(
            Word::Rayon,
            Word::Iter,
            Word::IntoParallelIterator,
            Word::IntoParIter,
            call_site,
        ),
    }
}

/// `::core::option::Option::Some(X)`
pub open spec fn some_of(x: Seq<OutToken>, s: Span) -> Seq<OutToken> {
    path4(Word::Core, Word::Option, Word::OptionType, Word::SomeVariant, s) + seq![
        OutToken::Open(Delim::Paren, s),
    ] + x + seq![OutToken::Close]
}

/// `::core::option::Option::None`
pub open spec fn none_path(s: Span) -> Seq<OutToken> {
    path4(Word::Core, Word::Option, Word::OptionType, Word::NoneVariant, s)
}

/// `if EXPR { BODY } else { ::core::option::Option::None }`
pub open spec fn test_text(expr: Range, span: Span, body: Seq<OutToken>) -> Seq<OutToken> {
    seq![ident(Word::If, span)] + src(expr) + seq![OutToken::Open(Delim::Brace, span)] + body
        + seq![OutToken::Close, ident(Word::Else, span), OutToken::Open(Delim::Brace, span)]
        + none_path(span) + seq![OutToken::Close]
}

/// `if let PAT = EXPR { BODY } else { ::core::option::Option::None }`
pub open spec fn bind_text(pat: Range, expr: Range, span: Span, body: Seq<OutToken>) -> Seq<
    OutToken,
> {
    seq![ident(Word::If, span), ident(Word::Let, span)] + src(pat) + seq![punct(Sym::Eq, span)]
        + src(expr) + seq![OutToken::Open(Delim::Brace, span)] + body + seq![
        OutToken::Close,
        ident(Word::Else, span),
        OutToken::Open(Delim::Brace, span),
    ] + none_path(span) + seq![OutToken::Close]
}

/// One condition around a body.
pub open spec fn condition_text(c: Condition, span: Span, body: Seq<OutToken>) -> Seq<OutToken> {
    match c {
        Condition::Test { expr } => test_text(expr, span, body),
        Condition::Match { pat, expr } => bind_text(pat, expr, span, body),
    }
}

/// Every condition of the guard around a body, the first outermost.
pub open spec fn render_guard(g: Guard, body: Seq<OutToken>) -> Seq<OutToken>
    decreases g,
{
    match g {
        Guard::Pass => body,
        Guard::Test { expr, span, then } => test_text(expr, span, render_guard(*then, body)),
        Guard::Bind { pat, expr, span, then } => bind_text(
            pat,
            expr,
            span,
            render_guard(*then, body),
        ),
    }
}

/// `{ let __seq = SEQ; INTO_ITER(__seq).` : the common start of a clause.
pub open spec fn clause_head(
    sequence: Range,
    span: Span,
    mode: Mode,
    call_site: Span,
    mixed_site: Span,
) -> Seq<OutToken> {
    seq![
        OutToken::Open(Delim::Brace, span),
        ident(Word::Let, span),
        ident(Word::SeqBinding, mixed_site),
        punct(Sym::Eq, span),
    ] + src(sequence) + seq![punct(Sym::Semi, span)] + into_iter_path(mode, call_site) + seq![
        OutToken::Open(Delim::Paren, span),
        ident(Word::SeqBinding, mixed_site),
        OutToken::Close,
        punct(Sym::Dot, span),
    ]
}

/// `ADAPTER(move |PAT|` : the adapter's name and the closure's head.
pub open spec fn closure_head(adapter: Word, pattern: Range, span: Span) -> Seq<OutToken> {
    seq![
        ident(adapter, span),
        OutToken::Open(Delim::Paren, span),
        ident(Word::Move, span),
        punct(Sym::Bar, span),
    ] + src(pattern) + seq![punct(Sym::Bar, span)]
}

/// The innermost clause, around the tokens of the mapping.
pub open spec fn render_innermost(
    pattern: Range,
    sequence: Range,
    span: Span,
    guard: Guard,
    mapping: Seq<OutToken>,
    mode: Mode,
    call_site: Span,
    mixed_site: Span,
) -> Seq<OutToken> {
    let head = clause_head(sequence, span, mode, call_site, mixed_site);
    if guard is Pass {
        head + closure_head(Word::MapMethod, pattern, span) + mapping + seq![
            OutToken::Close,
            OutToken::Close,
        ]
    } else {
        head + closure_head(Word::FilterMap, pattern, span) + seq![
            OutToken::Open(Delim::Brace, span),
        ] + render_guard(guard, some_of(mapping, call_site)) + seq![
            OutToken::Close,
            OutToken::Close,
            OutToken::Close,
        ]
    }
}

/// An outer clause, around the tokens of the chain within it.
pub open spec fn render_outer(
    pattern: Range,
    sequence: Range,
    span: Span,
    guard: Guard,
    inner: Seq<OutToken>,
    mode: Mode,
    call_site: Span,
    mixed_site: Span,
) -> Seq<OutToken> {
    let head = clause_head(sequence, span, mode, call_site, mixed_site);
    if guard is Pass {
        head + closure_head(Word::FlatMap, pattern, span) + inner + seq![
            OutToken::Close,
            OutToken::Close,
        ]
    } else {
        head + closure_head(Word::FilterMap, pattern, span) + seq![
            OutToken::Open(Delim::Brace, span),
        ] + render_guard(guard, some_of(inner, call_site)) + seq![
            OutToken::Close,
            OutToken::Close,
            punct(Sym::Dot, span),
            ident(Word::Flatten, span),
            OutToken::Open(Delim::Paren, span),
            OutToken::Close,
            OutToken::Close,
        ]
    }
}

/// The text of a chain, whose innermost clause yields `mapping`.
pub open spec fn render_chain(
    chain: Chain,
    mapping: Seq<OutToken>,
    mode: Mode,
    call_site: Span,
    mixed_site: Span,
) -> Seq<OutToken>
    decreases chain,
{
    match chain {
        Chain::Innermost { pattern, sequence, span, guard } => render_innermost(
            pattern,
            sequence,
            span,
            guard,
            mapping,
            mode,
            call_site,
            mixed_site,
        ),
        Chain::Outer { pattern, sequence, span, guard, inner } => render_outer(
            pattern,
            sequence,
            span,
            guard,
            render_chain(*inner, mapping, mode, call_site, mixed_site),
            mode,
            call_site,
            mixed_site,
        ),
    }
}


/// Appends the input tokens of a range.
pub(crate) fn push_src(out: &mut Vec<OutToken>, r: Range)
    requires
        r.start <= r.end,
    ensures
        final(out)@ == old(out)@ + src(r),
{
    let mut k = r.start;
    while k < r.end
        invariant
            r.start <= k <= r.end,
            out@ == old(out)@ + src(Range { start: r.start, end: k }),
        decreases r.end - k,
    {
        out.push(OutToken::Src(k));
        k = k + 1;
        assert(out@ =~= old(out)@ + src(Range { start: r.start, end: k }));
    }
    assert(src(Range { start: r.start, end: k }) =~= src(r));
}

/// Appends `::`.
pub(crate) fn push_colon2(out: &mut Vec<OutToken>, s: Span)
    ensures
        final(out)@ == old(out)@ + colon2(s),
{
    out.push(OutToken::Punct(Sym::Colon, true, s));
    out.push(OutToken::Punct(Sym::Colon, false, s));
    assert(out@ =~= old(out)@ + colon2(s));
}

/// Appends `::a::b::c::d`.
pub(crate) fn push_path4(out: &mut Vec<OutToken>, a: Word, b: Word, c: Word, d: Word, s: Span)
    ensures
        final(out)@ == old(out)@ + path4(a, b, c, d, s),
{
    push_colon2(out, s);
    out.push(OutToken::Ident(a, s));
    push_colon2(out, s);
    out.push(OutToken::Ident(b, s));
    push_colon2(out, s);
    out.push(OutToken::Ident(c, s));
    push_colon2(out, s);
    out.push(OutToken::Ident(d, s));
    assert(out@ =~= old(out)@ + path4(a, b, c, d, s));
}

impl Mode {
    /// The path of the function that starts the iteration in this mode.
    pub fn into_iter_path(self, call_site: Span) -> (r: Vec<OutToken>)
        ensures
            r@ == into_iter_path(self, call_site),
    {
        let mut out: Vec<OutToken> = Vec::new();
        match self {
            Mode::Sequential => push_path4(
                &mut out,
                Word::Core,
                Word::Iter,
                Word::IntoIterator,
                Word::IntoIter,
                call_site,
            ),
            Mode::Parallel => push_path4(
                &mut out,
                Word::Rayon,
                Word::Iter,
                Word::IntoParallelIterator,
                Word::IntoParIter,
                call_site,
            ),
        }
        assert(out@ =~= into_iter_path(self, call_site));
        out
    }
}

/// The name that a clause binds its sequence to: `__seq`, with the
/// mixed-site span, which the caller's code cannot name.
pub fn seq_ident(mixed_site: Span) -> (r: OutToken)
    ensures
        r == OutToken::Ident(Word::SeqBinding, mixed_site),
{
    OutToken::Ident(Word::SeqBinding, mixed_site)
}

/// `::core::option::Option::Some(X)`
fn wrap_some(x: Vec<OutToken>, s: Span) -> (r: Vec<OutToken>)
    ensures
        r@ == some_of(x@, s),
{
    let ghost x0 = x@;
    let mut x = x;
    let mut out: Vec<OutToken> = Vec::new();
    push_path4(&mut out, Word::Core, Word::Option, Word::OptionType, Word::SomeVariant, s);
    out.push(OutToken::Open(Delim::Paren, s));
    out.append(&mut x);
    out.push(OutToken::Close);
    assert(out@ =~= some_of(x0, s));
    out
}


/// Appends `::core::option::Option::None`.
fn push_none(out: &mut Vec<OutToken>, s: Span)
    ensures
        final(out)@ == old(out)@ + none_path(s),
{
    push_path4(out, Word::Core, Word::Option, Word::OptionType, Word::NoneVariant, s);
}

/// One condition around a body.
fn wrap_condition(c: Condition, span: Span, body: Vec<OutToken>) -> (r: Vec<OutToken>)
    requires
        condition_ok(c),
    ensures
        r@ == condition_text(c, span, body@),
{
    let ghost b0 = body@;
    let mut body = body;
    let mut out: Vec<OutToken> = Vec::new();
    out.push(OutToken::Ident(Word::If, span));
    match c {
        Condition::Test { expr } => {
            push_src(&mut out, expr);
        },
        Condition::Match { pat, expr } => {
            out.push(OutToken::Ident(Word::Let, span));
            push_src(&mut out, pat);
            out.push(OutToken::Punct(Sym::Eq, false, span));
            push_src(&mut out, expr);
        },
    }
    out.push(OutToken::Open(Delim::Brace, span));
    out.append(&mut body);
    out.push(OutToken::Close);
    out.push(OutToken::Ident(Word::Else, span));
    out.push(OutToken::Open(Delim::Brace, span));
    push_none(&mut out, span);
    out.push(OutToken::Close);
    assert(out@ =~= condition_text(c, span, b0));
    out
}

pub open spec fn condition_ok(c: Condition) -> bool {
    match c {
        Condition::Test { expr } => expr.start <= expr.end,
        Condition::Match { pat, expr } => pat.start <= pat.end && expr.start <= expr.end,
    }
}

/// The guard of these conditions is one condition around the guard of the rest.
proof fn lemma_guard_step(conditions: Seq<Condition>, spans: Seq<Span>, body: Seq<OutToken>)
    requires
        conditions.len() > 0,
    ensures
        render_guard(guard_of(conditions, spans), body) == condition_text(
            conditions[0],
            spans[0],
            render_guard(guard_of(conditions.drop_first(), spans.drop_first()), body),
        ),
{
}

/// Builds the nested `if` / `if let` chain of the conditions around `tail`:
/// the first condition outermost, every other branch `None`.
pub fn wrap_conditions(conditions: &Vec<Condition>, spans: &Vec<Span>, tail: Vec<OutToken>) -> (r:
    Vec<OutToken>)
    requires
        spans@.len() == conditions@.len(),
        forall|i: int| 0 <= i < conditions@.len() ==> condition_ok(#[trigger] conditions@[i]),
    ensures
        r@ == render_guard(guard_of(conditions@, spans@), tail@),
{
    let n = conditions.len();
    let mut out = tail;
    let mut k = n;
    proof {
        assert(conditions@.subrange(n as int, n as int).len() == 0);
    }
    while k > 0
        invariant
            0 <= k <= n,
            n == conditions@.len(),
            spans@.len() == n,
            forall|i: int| 0 <= i < conditions@.len() ==> condition_ok(#[trigger] conditions@[i]),
            out@ == render_guard(
                guard_of(conditions@.subrange(k as int, n as int), spans@.subrange(k as int, n as int)),
                tail@,
            ),
        decreases k,
    {
        let ghost inner = out@;
        k = k - 1;
        out = wrap_condition(conditions[k], spans[k], out);
        proof {
            let cs = conditions@.subrange(k as int, n as int);
            let ss = spans@.subrange(k as int, n as int);
            lemma_guard_step(cs, ss, tail@);
            assert(cs.drop_first() =~= conditions@.subrange(k + 1, n as int));
            assert(ss.drop_first() =~= spans@.subrange(k + 1, n as int));
        }
    }
    proof {
        assert(conditions@.subrange(0, n as int) =~= conditions@);
        assert(spans@.subrange(0, n as int) =~= spans@);
    }
    out
}


/// The ranges of a clause are in order and its conditions' too.
pub open spec fn clause_ok(c: ClauseShape) -> bool {
    &&& c.pattern.start <= c.pattern.end
    &&& c.sequence.start <= c.sequence.end
    &&& forall|i: int| 0 <= i < c.conditions.len() ==> condition_ok(#[trigger] c.conditions[i])
}

/// The spans of a clause give one span for each condition.
pub open spec fn spans_fit_shape(c: ClauseShape, s: (Span, Seq<Span>)) -> bool {
    s.1.len() == c.conditions.len()
}

/// Clauses and their spans, ready to be written.
pub open spec fn chain_ok(clauses: Seq<ClauseShape>, spans: Seq<(Span, Seq<Span>)>) -> bool {
    &&& clauses.len() >= 1
    &&& spans.len() == clauses.len()
    &&& forall|i: int| 0 <= i < clauses.len() ==> clause_ok(#[trigger] clauses[i])
    &&& forall|i: int| 0 <= i < clauses.len() ==> spans_fit_shape(#[trigger] clauses[i], spans[i])
}

/// Appends `{ let __seq = SEQ; INTO_ITER(__seq).`.
fn push_clause_head(
    out: &mut Vec<OutToken>,
    sequence: Range,
    span: Span,
    mode: Mode,
    call_site: Span,
    mixed_site: Span,
)
    requires
        sequence.start <= sequence.end,
    ensures
        final(out)@ == old(out)@ + clause_head(sequence, span, mode, call_site, mixed_site),
{
    out.push(OutToken::Open(Delim::Brace, span));
    out.push(OutToken::Ident(Word::Let, span));
    out.push(seq_ident(mixed_site));
    out.push(OutToken::Punct(Sym::Eq, false, span));
    push_src(out, sequence);
    out.push(OutToken::Punct(Sym::Semi, false, span));
    let mut path = mode.into_iter_path(call_site);
    out.append(&mut path);
    out.push(OutToken::Open(Delim::Paren, span));
    out.push(seq_ident(mixed_site));
    out.push(OutToken::Close);
    out.push(OutToken::Punct(Sym::Dot, false, span));
    assert(out@ =~= old(out)@ + clause_head(sequence, span, mode, call_site, mixed_site));
}

/// Appends `ADAPTER(move |PAT|`.
fn push_closure_head(out: &mut Vec<OutToken>, adapter: Word, pattern: Range, span: Span)
    requires
        pattern.start <= pattern.end,
    ensures
        final(out)@ == old(out)@ + closure_head(adapter, pattern, span),
{
    out.push(OutToken::Ident(adapter, span));
    out.push(OutToken::Open(Delim::Paren, span));
    out.push(OutToken::Ident(Word::Move, span));
    out.push(OutToken::Punct(Sym::Bar, false, span));
    push_src(out, pattern);
    out.push(OutToken::Punct(Sym::Bar, false, span));
    assert(out@ =~= old(out)@ + closure_head(adapter, pattern, span));
}

/// The innermost clause, which yields the mapping: `map` without conditions,
/// `filter_map` over the conditions' `if` chain with them.
pub fn expand_innermost(
    clause: &Clause,
    spans: &ClauseSpans,
    mapping: Vec<OutToken>,
    mode: Mode,
    call_site: Span,
    mixed_site: Span,
) -> (r: Vec<OutToken>)
    requires
        clause_ok(clause@),
        spans_fit_shape(clause@, spans@),
    ensures
        r@ == render_innermost(
            clause.pattern,
            clause.sequence,
            spans.sequence,
            guard_of(clause.conditions@, spans.conditions@),
            mapping@,
            mode,
            call_site,
            mixed_site,
        ),
{
    let ghost m0 = mapping@;
    let ghost guard = guard_of(clause.conditions@, spans.conditions@);
    let span = spans.sequence;
    let mut out: Vec<OutToken> = Vec::new();
    push_clause_head(&mut out, clause.sequence, span, mode, call_site, mixed_site);
    if clause.conditions.len() == 0 {
        let mut mapping = mapping;
        push_closure_head(&mut out, Word::MapMethod, clause.pattern, span);
        out.append(&mut mapping);
        out.push(OutToken::Close);
        out.push(OutToken::Close);
        assert(out@ =~= render_innermost(
            clause.pattern,
            clause.sequence,
            span,
            guard,
            m0,
            mode,
            call_site,
            mixed_site,
        ));
    } else {
        push_closure_head(&mut out, Word::FilterMap, clause.pattern, span);
        out.push(OutToken::Open(Delim::Brace, span));
        let some = wrap_some(mapping, call_site);
        let mut body = wrap_conditions(&clause.conditions, &spans.conditions, some);
        out.append(&mut body);
        out.push(OutToken::Close);
        out.push(OutToken::Close);
        out.push(OutToken::Close);
        assert(out@ =~= render_innermost(
            clause.pattern,
            clause.sequence,
            span,
            guard,
            m0,
            mode,
            call_site,
            mixed_site,
        ));
    }
    out
}

/// An outer clause, which yields the items of the chain within it:
/// `flat_map` without conditions, `filter_map(..).flatten()` over the
/// conditions' `if` chain with them.
pub fn expand_outer(
    clause: &Clause,
    spans: &ClauseSpans,
    inner: Vec<OutToken>,
    mode: Mode,
    call_site: Span,
    mixed_site: Span,
) -> (r: Vec<OutToken>)
    requires
        clause_ok(clause@),
        spans_fit_shape(clause@, spans@),
    ensures
        r@ == render_outer(
            clause.pattern,
            clause.sequence,
            spans.sequence,
            guard_of(clause.conditions@, spans.conditions@),
            inner@,
            mode,
            call_site,
            mixed_site,
        ),
{
    let ghost i0 = inner@;
    let ghost guard = guard_of(clause.conditions@, spans.conditions@);
    let span = spans.sequence;
    let mut out: Vec<OutToken> = Vec::new();
    push_clause_head(&mut out, clause.sequence, span, mode, call_site, mixed_site);
    if clause.conditions.len() == 0 {
        let mut inner = inner;
        push_closure_head(&mut out, Word::FlatMap, clause.pattern, span);
        out.append(&mut inner);
        out.push(OutToken::Close);
        out.push(OutToken::Close);
        assert(out@ =~= render_outer(
            clause.pattern,
            clause.sequence,
            span,
            guard,
            i0,
            mode,
            call_site,
            mixed_site,
        ));
    } else {
        push_closure_head(&mut out, Word::FilterMap, clause.pattern, span);
        out.push(OutToken::Open(Delim::Brace, span));
        let some = wrap_some(inner, call_site);
        let mut body = wrap_conditions(&clause.conditions, &spans.conditions, some);
        out.append(&mut body);
        out.push(OutToken::Close);
        out.push(OutToken::Close);
        out.push(OutToken::Punct(Sym::Dot, false, span));
        out.push(OutToken::Ident(Word::Flatten, span));
        out.push(OutToken::Open(Delim::Paren, span));
        out.push(OutToken::Close);
        out.push(OutToken::Close);
        assert(out@ =~= render_outer(
            clause.pattern,
            clause.sequence,
            span,
            guard,
            i0,
            mode,
            call_site,
            mixed_site,
        ));
    }
    out
}


/// The text of a chain of two clauses or more is the first clause around the
/// text of the rest.
proof fn lemma_plan_step(
    clauses: Seq<ClauseShape>,
    spans: Seq<(Span, Seq<Span>)>,
    mapping: Seq<OutToken>,
    mode: Mode,
    call_site: Span,
    mixed_site: Span,
)
    requires
        clauses.len() >= 2,
    ensures
        render_chain(plan(clauses, spans), mapping, mode, call_site, mixed_site) == render_outer(
            clauses[0].pattern,
            clauses[0].sequence,
            spans[0].0,
            guard_of(clauses[0].conditions, spans[0].1),
            render_chain(
                plan(clauses.drop_first(), spans.drop_first()),
                mapping,
                mode,
                call_site,
                mixed_site,
            ),
            mode,
            call_site,
            mixed_site,
        ),
{
}

/// Builds the whole chain: the last clause innermost around the mapping, each
/// earlier clause around the chain that follows it.
pub fn expand(
    clauses: &Vec<Clause>,
    spans: &Vec<ClauseSpans>,
    mapping: Vec<OutToken>,
    mode: Mode,
    call_site: Span,
    mixed_site: Span,
) -> (r: Vec<OutToken>)
    requires
        chain_ok(clauses_view(clauses@), spans_view(spans@)),
    ensures
        r@ == render_chain(
            plan(clauses_view(clauses@), spans_view(spans@)),
            mapping@,
            mode,
            call_site,
            mixed_site,
        ),
{
    let ghost cv = clauses_view(clauses@);
    let ghost sv = spans_view(spans@);
    let ghost m0 = mapping@;
    let n = clauses.len();
    assert(clause_ok(cv[n - 1]) && spans_fit_shape(cv[n - 1], sv[n - 1]));
    let mut out = expand_innermost(&clauses[n - 1], &spans[n - 1], mapping, mode, call_site, mixed_site);
    let mut k = n - 1;
    proof {
        let cs = cv.subrange(k as int, n as int);
        let ss = sv.subrange(k as int, n as int);
        assert(cs[0] == clauses@[n - 1]@);
        assert(ss[0] == spans@[n - 1]@);
    }
    while k > 0
        invariant
            0 <= k < n,
            n == clauses@.len(),
            cv == clauses_view(clauses@),
            sv == spans_view(spans@),
            chain_ok(cv, sv),
            out@ == render_chain(
                plan(cv.subrange(k as int, n as int), sv.subrange(k as int, n as int)),
                m0,
                mode,
                call_site,
                mixed_site,
            ),
        decreases k,
    {
        k = k - 1;
        assert(clause_ok(cv[k as int]) && spans_fit_shape(cv[k as int], sv[k as int]));
        out = expand_outer(&clauses[k], &spans[k], out, mode, call_site, mixed_site);
        proof {
            let cs = cv.subrange(k as int, n as int);
            let ss = sv.subrange(k as int, n as int);
            lemma_plan_step(cs, ss, m0, mode, call_site, mixed_site);
            assert(cs.drop_first() =~= cv.subrange(k + 1, n as int));
            assert(ss.drop_first() =~= sv.subrange(k + 1, n as int));
        }
    }
    proof {
        assert(cv.subrange(0, n as int) =~= cv);
        assert(sv.subrange(0, n as int) =~= sv);
    }
    out
}


/// What is stated of the span that `syn` gives a fragment of the input: the
/// call-site span for no tree, the tree's own span for one tree.  For more
/// trees it is the first tree's span joined to the last's, where the compiler
/// can join spans, and the first tree's otherwise; which of the two is not
/// stated.
pub open spec fn span_fits(t: Seq<TokenTree>, r: Range, call_site: Span, s: Span) -> bool {
    &&& r.len() == 0 ==> s == call_site
    &&& r.len() == 1 ==> s == tree_span(t[r.start as int])
}

/// The expression of a condition.
pub open spec fn condition_expr(c: Condition) -> Range {
    match c {
        Condition::Test { expr } => expr,
        Condition::Match { expr, .. } => expr,
    }
}

/// The spans of clauses as `syn` gives them: each clause's is that of its
/// sequence expression, each condition's that of its expression.
pub open spec fn spans_fit(
    t: Seq<TokenTree>,
    clauses: Seq<ClauseShape>,
    spans: Seq<(Span, Seq<Span>)>,
    call_site: Span,
) -> bool {
    &&& spans.len() == clauses.len()
    &&& forall|i: int|
        0 <= i < clauses.len() ==> {
            &&& span_fits(t, #[trigger] clauses[i].sequence, call_site, spans[i].0)
            &&& spans[i].1.len() == clauses[i].conditions.len()
            &&& forall|j: int|
                0 <= j < clauses[i].conditions.len() ==> span_fits(
                    t,
                    condition_expr(#[trigger] clauses[i].conditions[j]),
                    call_site,
                    spans[i].1[j],
                )
        }
}

/// The span of the trees in `r`, as `syn` computes it for the expression
/// they form (`Spanned::span`).
pub fn fragment_span(t: &Vec<TokenTree>, r: Range, call_site: Span) -> (s: Span)
    requires
        r.start <= r.end <= t@.len(),
    ensures
        span_fits(t@, r, call_site, s),
{
    if r.start == r.end {
        return call_site;
    }
    syn_span(t.as_slice(), r.start, r.end)
}

/// The expression of a condition.
fn expr_of(c: Condition) -> (r: Range)
    ensures
        r == condition_expr(c),
{
    match c {
        Condition::Test { expr } => expr,
        Condition::Match { expr, .. } => expr,
    }
}

/// The spans of the clauses' sequences and conditions.
pub fn span_table(t: &Vec<TokenTree>, clauses: &Vec<Clause>, call_site: Span) -> (r: Vec<ClauseSpans>)
    requires
        forall|i: int| 0 <= i < clauses@.len() ==> clause_within(#[trigger] clauses@[i]@, t@.len() as int),
    ensures
        spans_fit(t@, clauses_view(clauses@), spans_view(r@), call_site),
{
    let mut table: Vec<ClauseSpans> = Vec::new();
    let mut i: usize = 0;
    while i < clauses.len()
        invariant
            0 <= i <= clauses@.len(),
            table@.len() == i,
            forall|k: int| 0 <= k < clauses@.len() ==> clause_within(#[trigger] clauses@[k]@, t@.len() as int),
            forall|k: int| 0 <= k < i ==> {
                &&& span_fits(t@, #[trigger] clauses@[k].sequence, call_site, table@[k].sequence)
                &&& table@[k].conditions@.len() == clauses@[k].conditions@.len()
                &&& forall|j: int|
                    0 <= j < clauses@[k].conditions@.len() ==> span_fits(
                        t@,
                        condition_expr(#[trigger] clauses@[k].conditions@[j]),
                        call_site,
                        table@[k].conditions@[j],
                    )
            },
        decreases clauses@.len() - i,
    {
        let clause = &clauses[i];
        assert(clause_within(clauses@[i as int]@, t@.len() as int));
        let sequence = fragment_span(t, clause.sequence, call_site);
        let mut conditions: Vec<Span> = Vec::new();
        let mut j: usize = 0;
        while j < clause.conditions.len()
            invariant
                0 <= j <= clause.conditions@.len(),
                conditions@.len() == j,
                clause_within(clause@, t@.len() as int),
                forall|m: int|
                    0 <= m < j ==> span_fits(
                        t@,
                        condition_expr(#[trigger] clause.conditions@[m]),
                        call_site,
                        conditions@[m],
                    ),
            decreases clause.conditions@.len() - j,
        {
            let c = clause.conditions[j];
            assert(condition_within(clause@.conditions[j as int], t@.len() as int));
            let s = fragment_span(t, expr_of(c), call_site);
            conditions.push(s);
            j = j + 1;
        }
        table.push(ClauseSpans { sequence, conditions });
        i = i + 1;
    }
    proof {
        let cv = clauses_view(clauses@);
        let sv = spans_view(table@);
        assert forall|k: int| 0 <= k < cv.len() implies {
            &&& span_fits(t@, #[trigger] cv[k].sequence, call_site, sv[k].0)
            &&& sv[k].1.len() == cv[k].conditions.len()
            &&& forall|j: int|
                0 <= j < cv[k].conditions.len() ==> span_fits(
                    t@,
                    condition_expr(#[trigger] cv[k].conditions[j]),
                    call_site,
                    sv[k].1[j],
                )
        } by {
            assert(cv[k] == clauses@[k]@);
            assert(sv[k] == table@[k]@);
        }
    }
    table
}

} // verus!
