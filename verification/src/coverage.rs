//! How often the text of a comprehension writes each input position.
//!
//! The fragments of a comprehension (its mapping, and each clause's pattern,
//! sequence and conditions' patterns and expressions) lie in the input in
//! order, without overlap; the text writes every position of every fragment
//! exactly once, and no other input position.
use vstd::prelude::*;
use proc_macro2::{Span, TokenTree};
use crate::expand::{
    Chain, Guard, Mode, bind_text, clause_head, closure_head, guard_of, none_path, path4, plan,
    render_chain, render_guard, render_innermost, render_outer, some_of, src, test_text,
};
use crate::grammar::{
    ClauseShape, Condition, MapShape, Shape, clause_within, condition_within, is_char, is_word,
    lemma_clause_advances, lemma_condition_advances, lemma_fragment_advances, spec_clause,
    spec_clauses, spec_comprehension, spec_condition, spec_conditions, spec_expr_end,
    spec_map_comprehension, spec_more_clauses, spec_pat_end,
};
use crate::macros::{Collection, collect_text, comprehension_text, map_comprehension_text};
use crate::tokens::{OutToken, Range};

verus! {

/// How many times `s` writes the input position `i`.
pub open spec fn src_count(s: Seq<OutToken>, i: usize) -> nat
    decreases s.len(),
{
    if s.len() == 0 {
        0
    } else {
        (if s[0] == OutToken::Src(i) {
            1nat
        } else {
            0nat
        }) + src_count(s.drop_first(), i)
    }
}

/// 1 when the range holds position `i`, else 0.
pub open spec fn hit(r: Range, i: usize) -> nat {
    if r.start <= i < r.end {
        1
    } else {
        0
    }
}

/// How many of the ranges hold position `i`.
pub open spec fn hits(fs: Seq<Range>, i: usize) -> nat
    decreases fs.len(),
{
    if fs.len() == 0 {
        0
    } else {
        hit(fs[0], i) + hits(fs.drop_first(), i)
    }
}

/// The fragments of a condition, in input order.
pub open spec fn condition_fragments(c: Condition) -> Seq<Range> {
    match c {
        Condition::Test { expr } => seq![expr],
        Condition::Match { pat, expr } => seq![pat, expr],
    }
}

/// The fragments of conditions, in input order.
pub open spec fn conditions_fragments(cs: Seq<Condition>) -> Seq<Range>
    decreases cs.len(),
{
    if cs.len() == 0 {
        Seq::empty()
    } else {
        condition_fragments(cs[0]) + conditions_fragments(cs.drop_first())
    }
}

/// The fragments of clauses, in input order.
pub open spec fn clauses_fragments(cs: Seq<ClauseShape>) -> Seq<Range>
    decreases cs.len(),
{
    if cs.len() == 0 {
        Seq::empty()
    } else {
        seq![cs[0].pattern, cs[0].sequence] + conditions_fragments(cs[0].conditions)
            + clauses_fragments(cs.drop_first())
    }
}

/// The fragments of a comprehension, in input order: the mapping, then each
/// clause's pattern, sequence and conditions.
pub open spec fn fragments(shape: Shape) -> Seq<Range> {
    seq![shape.mapping] + clauses_fragments(shape.clauses)
}

/// The ranges lie within `lo..hi`, in order, without overlap.
pub open spec fn in_order(fs: Seq<Range>, lo: int, hi: int) -> bool {
    &&& forall|k: int| 0 <= k < fs.len() ==> lo <= #[trigger] fs[k].start <= fs[k].end <= hi
    &&& forall|k: int, l: int| 0 <= k < l < fs.len() ==> #[trigger] fs[k].end <= #[trigger] fs[l].start
}

pub broadcast proof fn lemma_count_concat(a: Seq<OutToken>, b: Seq<OutToken>, i: usize)
    ensures
        #[trigger] src_count(a + b, i) == src_count(a, i) + src_count(b, i),
    decreases a.len(),
{
    if a.len() == 0 {
        assert(a + b =~= b);
    } else {
        assert((a + b).drop_first() =~= a.drop_first() + b);
        lemma_count_concat(a.drop_first(), b, i);
    }
}

proof fn lemma_count_src(r: Range, i: usize)
    requires
        r.start <= r.end,
    ensures
        src_count(src(r), i) == hit(r, i),
    decreases r.end - r.start,
{
    if r.start < r.end {
        let next = Range { start: (r.start + 1) as usize, end: r.end };
        lemma_count_src(next, i);
        assert(src(r).drop_first() =~= src(next));
    } else {
        assert(src(r) =~= Seq::<OutToken>::empty());
    }
}

/// Tokens that write no input position.
pub open spec fn no_src(s: Seq<OutToken>) -> bool {
    forall|k: int| 0 <= k < s.len() ==> !(#[trigger] s[k] is Src)
}

proof fn lemma_count_no_src(s: Seq<OutToken>, i: usize)
    requires
        no_src(s),
    ensures
        src_count(s, i) == 0,
    decreases s.len(),
{
    if s.len() > 0 {
        assert(no_src(s.drop_first())) by {
            assert forall|k: int| 0 <= k < s.drop_first().len() implies !(#[trigger] s.drop_first()[k] is Src) by {
                assert(s.drop_first()[k] == s[k + 1]);
            }
        }
        lemma_count_no_src(s.drop_first(), i);
        assert(!(s[0] is Src));
    }
}

/// How many of a guard's fragments hold position `i`.
pub open spec fn guard_hits(g: Guard, i: usize) -> nat
    decreases g,
{
    match g {
        Guard::Pass => 0,
        Guard::Test { expr, then, .. } => hit(expr, i) + guard_hits(*then, i),
        Guard::Bind { pat, expr, then, .. } => hit(pat, i) + hit(expr, i) + guard_hits(*then, i),
    }
}

/// How many of a chain's fragments hold position `i`.
pub open spec fn chain_hits(ch: Chain, i: usize) -> nat
    decreases ch,
{
    match ch {
        Chain::Innermost { pattern, sequence, guard, .. } => hit(pattern, i) + hit(sequence, i)
            + guard_hits(guard, i),
        Chain::Outer { pattern, sequence, guard, inner, .. } => hit(pattern, i) + hit(sequence, i)
            + guard_hits(guard, i) + chain_hits(*inner, i),
    }
}

/// The ranges of a guard are in order (start before end).
pub open spec fn guard_ordered(g: Guard) -> bool
    decreases g,
{
    match g {
        Guard::Pass => true,
        Guard::Test { expr, then, .. } => expr.start <= expr.end && guard_ordered(*then),
        Guard::Bind { pat, expr, then, .. } => pat.start <= pat.end && expr.start <= expr.end
            && guard_ordered(*then),
    }
}

/// The ranges of a chain are in order (start before end).
pub open spec fn chain_ordered(ch: Chain) -> bool
    decreases ch,
{
    match ch {
        Chain::Innermost { pattern, sequence, guard, .. } => pattern.start <= pattern.end
            && sequence.start <= sequence.end && guard_ordered(guard),
        Chain::Outer { pattern, sequence, guard, inner, .. } => pattern.start <= pattern.end
            && sequence.start <= sequence.end && guard_ordered(guard) && chain_ordered(*inner),
    }
}

proof fn lemma_guard_count(g: Guard, body: Seq<OutToken>, i: usize)
    requires
        guard_ordered(g),
    ensures
        src_count(render_guard(g, body), i) == guard_hits(g, i) + src_count(body, i),
    decreases g,
{
    broadcast use lemma_count_concat;

    match g {
        Guard::Pass => {},
        Guard::Test { expr, span, then } => {
            lemma_guard_count(*then, body, i);
            lemma_count_src(expr, i);
            let inner = render_guard(*then, body);
            let a = seq![OutToken::Ident(crate::tokens::Word::If, span)];
            let b = seq![OutToken::Open(crate::tokens::Delim::Brace, span)];
            let c = seq![
                OutToken::Close,
                OutToken::Ident(crate::tokens::Word::Else, span),
                OutToken::Open(crate::tokens::Delim::Brace, span),
            ] + none_path(span) + seq![OutToken::Close];
            lemma_count_no_src(a, i);
            lemma_count_no_src(b, i);
            assert(no_src(c));
            lemma_count_no_src(c, i);
            assert(test_text(expr, span, inner) =~= a + src(expr) + b + inner + c);
        },
        Guard::Bind { pat, expr, span, then } => {
            lemma_guard_count(*then, body, i);
            lemma_count_src(pat, i);
            lemma_count_src(expr, i);
            let inner = render_guard(*then, body);
            let a = seq![
                OutToken::Ident(crate::tokens::Word::If, span),
                OutToken::Ident(crate::tokens::Word::Let, span),
            ];
            let eq = seq![OutToken::Punct(crate::tokens::Sym::Eq, false, span)];
            let b = seq![OutToken::Open(crate::tokens::Delim::Brace, span)];
            let c = seq![
                OutToken::Close,
                OutToken::Ident(crate::tokens::Word::Else, span),
                OutToken::Open(crate::tokens::Delim::Brace, span),
            ] + none_path(span) + seq![OutToken::Close];
            lemma_count_no_src(a, i);
            lemma_count_no_src(eq, i);
            lemma_count_no_src(b, i);
            assert(no_src(c));
            lemma_count_no_src(c, i);
            assert(bind_text(pat, expr, span, inner) =~= a + src(pat) + eq + src(expr) + b + inner + c);
        },
    }
}

proof fn lemma_clause_count(
    sequence: Range,
    span: Span,
    mode: Mode,
    call_site: Span,
    ms: Span,
    adapter: crate::tokens::Word,
    pattern: Range,
    i: usize,
)
    requires
        sequence.start <= sequence.end,
        pattern.start <= pattern.end,
    ensures
        src_count(clause_head(sequence, span, mode, call_site, ms), i) == hit(sequence, i),
        src_count(closure_head(adapter, pattern, span), i) == hit(pattern, i),
{
    broadcast use lemma_count_concat;

    lemma_count_src(sequence, i);
    lemma_count_src(pattern, i);
    let h1 = seq![
        OutToken::Open(crate::tokens::Delim::Brace, span),
        OutToken::Ident(crate::tokens::Word::Let, span),
        OutToken::Ident(crate::tokens::Word::SeqBinding, ms),
        OutToken::Punct(crate::tokens::Sym::Eq, false, span),
    ];
    let h2 = seq![OutToken::Punct(crate::tokens::Sym::Semi, false, span)] + crate::expand::into_iter_path(
        mode,
        call_site,
    ) + seq![
        OutToken::Open(crate::tokens::Delim::Paren, span),
        OutToken::Ident(crate::tokens::Word::SeqBinding, ms),
        OutToken::Close,
        OutToken::Punct(crate::tokens::Sym::Dot, false, span),
    ];
    lemma_count_no_src(h1, i);
    assert(no_src(h2));
    lemma_count_no_src(h2, i);
    assert(clause_head(sequence, span, mode, call_site, ms) =~= h1 + src(sequence) + h2);
    let c1 = seq![
        OutToken::Ident(adapter, span),
        OutToken::Open(crate::tokens::Delim::Paren, span),
        OutToken::Ident(crate::tokens::Word::Move, span),
        OutToken::Punct(crate::tokens::Sym::Bar, false, span),
    ];
    let c2 = seq![OutToken::Punct(crate::tokens::Sym::Bar, false, span)];
    lemma_count_no_src(c1, i);
    lemma_count_no_src(c2, i);
}

proof fn lemma_some_count(x: Seq<OutToken>, s: Span, i: usize)
    ensures
        src_count(some_of(x, s), i) == src_count(x, i),
{
    broadcast use lemma_count_concat;

    let p = path4(
        crate::tokens::Word::Core,
        crate::tokens::Word::Option,
        crate::tokens::Word::OptionType,
        crate::tokens::Word::SomeVariant,
        s,
    );
    assert(no_src(p));
    lemma_count_no_src(p, i);
    lemma_count_no_src(seq![OutToken::Open(crate::tokens::Delim::Paren, s)], i);
    lemma_count_no_src(seq![OutToken::Close], i);
}

proof fn lemma_chain_count(ch: Chain, mapping: Seq<OutToken>, mode: Mode, call_site: Span, ms: Span, i: usize)
    requires
        chain_ordered(ch),
    ensures
        src_count(render_chain(ch, mapping, mode, call_site, ms), i) == chain_hits(ch, i)
            + src_count(mapping, i),
    decreases ch,
{
    broadcast use lemma_count_concat;

    let two = seq![OutToken::Close, OutToken::Close];
    let three = seq![OutToken::Close, OutToken::Close, OutToken::Close];
    lemma_count_no_src(two, i);
    lemma_count_no_src(three, i);
    match ch {
        Chain::Innermost { pattern, sequence, span, guard } => {
            lemma_clause_count(sequence, span, mode, call_site, ms, crate::tokens::Word::MapMethod, pattern, i);
            lemma_clause_count(sequence, span, mode, call_site, ms, crate::tokens::Word::FilterMap, pattern, i);
            lemma_some_count(mapping, call_site, i);
            lemma_guard_count(guard, some_of(mapping, call_site), i);
            lemma_count_no_src(seq![OutToken::Open(crate::tokens::Delim::Brace, span)], i);
        },
        Chain::Outer { pattern, sequence, span, guard, inner } => {
            lemma_chain_count(*inner, mapping, mode, call_site, ms, i);
            let it = render_chain(*inner, mapping, mode, call_site, ms);
            lemma_clause_count(sequence, span, mode, call_site, ms, crate::tokens::Word::FlatMap, pattern, i);
            lemma_clause_count(sequence, span, mode, call_site, ms, crate::tokens::Word::FilterMap, pattern, i);
            lemma_some_count(it, call_site, i);
            lemma_guard_count(guard, some_of(it, call_site), i);
            lemma_count_no_src(seq![OutToken::Open(crate::tokens::Delim::Brace, span)], i);
            let tail = seq![
                OutToken::Close,
                OutToken::Close,
                OutToken::Punct(crate::tokens::Sym::Dot, false, span),
                OutToken::Ident(crate::tokens::Word::Flatten, span),
                OutToken::Open(crate::tokens::Delim::Paren, span),
                OutToken::Close,
                OutToken::Close,
            ];
            lemma_count_no_src(tail, i);
        },
    }
}


pub broadcast proof fn lemma_hits_concat(a: Seq<Range>, b: Seq<Range>, i: usize)
    ensures
        #[trigger] hits(a + b, i) == hits(a, i) + hits(b, i),
    decreases a.len(),
{
    if a.len() == 0 {
        assert(a + b =~= b);
    } else {
        assert((a + b).drop_first() =~= a.drop_first() + b);
        lemma_hits_concat(a.drop_first(), b, i);
    }
}

proof fn lemma_hits_one(r: Range, i: usize)
    ensures
        hits(seq![r], i) == hit(r, i),
{
    reveal_with_fuel(hits, 2);
    assert(seq![r].drop_first() =~= Seq::<Range>::empty());
    assert(seq![r][0] == r);
}

proof fn lemma_guard_of_hits(conditions: Seq<Condition>, spans: Seq<Span>, i: usize)
    ensures
        guard_hits(guard_of(conditions, spans), i) == hits(conditions_fragments(conditions), i),
    decreases conditions.len(),
{
    broadcast use lemma_hits_concat;

    if conditions.len() > 0 {
        lemma_guard_of_hits(conditions.drop_first(), spans.drop_first(), i);
        match conditions[0] {
            Condition::Test { expr } => {
                lemma_hits_one(expr, i);
            },
            Condition::Match { pat, expr } => {
                lemma_hits_one(pat, i);
                lemma_hits_one(expr, i);
                assert(seq![pat, expr] =~= seq![pat] + seq![expr]);
            },
        }
    }
}

proof fn lemma_plan_hits(clauses: Seq<ClauseShape>, spans: Seq<(Span, Seq<Span>)>, i: usize)
    requires
        clauses.len() >= 1,
    ensures
        chain_hits(plan(clauses, spans), i) == hits(clauses_fragments(clauses), i),
    decreases clauses.len(),
{
    broadcast use lemma_hits_concat;

    let c = clauses[0];
    lemma_guard_of_hits(c.conditions, spans[0].1, i);
    lemma_hits_one(c.pattern, i);
    lemma_hits_one(c.sequence, i);
    assert(seq![c.pattern, c.sequence] =~= seq![c.pattern] + seq![c.sequence]);
    if clauses.len() > 1 {
        lemma_plan_hits(clauses.drop_first(), spans.drop_first(), i);
    } else {
        assert(clauses_fragments(clauses.drop_first()) =~= Seq::<Range>::empty());
    }
}

/// Ranges in order hold a position at most once.
proof fn lemma_in_order_hits(fs: Seq<Range>, lo: int, hi: int, i: usize)
    requires
        in_order(fs, lo, hi),
    ensures
        hits(fs, i) <= 1,
        hits(fs, i) == 0 || (fs.len() > 0 && fs[0].start <= i || hits(fs.drop_first(), i) == 1),
    decreases fs.len(),
{
    if fs.len() > 0 {
        let rest = fs.drop_first();
        assert(in_order(rest, lo, hi)) by {
            assert forall|k: int, l: int| 0 <= k < l < rest.len() implies #[trigger] rest[k].end
                <= #[trigger] rest[l].start by {
                assert(rest[k] == fs[k + 1] && rest[l] == fs[l + 1]);
                assert(fs[k + 1].end <= fs[l + 1].start);
            }
            assert forall|k: int| 0 <= k < rest.len() implies lo <= #[trigger] rest[k].start <= rest[k].end <= hi by {
                assert(rest[k] == fs[k + 1]);
            }
        }
        lemma_in_order_hits(rest, lo, hi, i);
        if hit(fs[0], i) == 1 {
            lemma_no_later_hits(fs, i);
        }
    }
}

/// When the first range holds `i`, no later range of ranges in order does.
proof fn lemma_no_later_hits(fs: Seq<Range>, i: usize)
    requires
        fs.len() > 0,
        fs[0].start <= i < fs[0].end,
        forall|k: int, l: int| 0 <= k < l < fs.len() ==> #[trigger] fs[k].end <= #[trigger] fs[l].start,
    ensures
        hits(fs.drop_first(), i) == 0,
    decreases fs.len(),
{
    let rest = fs.drop_first();
    if rest.len() > 0 {
        assert(fs[0].end <= fs[1].start);
        let shorter = seq![fs[0]] + rest.drop_first();
        assert forall|k: int, l: int| 0 <= k < l < shorter.len() implies #[trigger] shorter[k].end
            <= #[trigger] shorter[l].start by {
            if k == 0 {
                assert(shorter[l] == fs[l + 1]);
                assert(fs[0].end <= fs[l + 1].start);
            } else {
                assert(shorter[k] == fs[k + 1] && shorter[l] == fs[l + 1]);
                assert(fs[k + 1].end <= fs[l + 1].start);
            }
        }
        assert(shorter[0] == fs[0]);
        lemma_no_later_hits(shorter, i);
        assert(shorter.drop_first() =~= rest.drop_first());
    }
}

/// Two runs of ranges in order, the second after the first, are in order.
proof fn lemma_in_order_concat(a: Seq<Range>, b: Seq<Range>, lo: int, mid: int, hi: int)
    requires
        lo <= mid <= hi,
        in_order(a, lo, mid),
        in_order(b, mid, hi),
    ensures
        in_order(a + b, lo, hi),
{
    let ab = a + b;
    assert forall|k: int| 0 <= k < ab.len() implies lo <= #[trigger] ab[k].start <= ab[k].end <= hi by {
        if k < a.len() {
            assert(ab[k] == a[k]);
            assert(lo <= a[k].start <= a[k].end <= mid);
        } else {
            assert(ab[k] == b[k - a.len()]);
            assert(mid <= b[k - a.len()].start <= b[k - a.len()].end <= hi);
        }
    }
    assert forall|k: int, l: int| 0 <= k < l < ab.len() implies #[trigger] ab[k].end <= #[trigger] ab[l].start by {
        if l < a.len() {
            assert(ab[k] == a[k] && ab[l] == a[l]);
            assert(a[k].end <= a[l].start);
        } else if k >= a.len() {
            assert(ab[k] == b[k - a.len()] && ab[l] == b[l - a.len()]);
            assert(b[k - a.len()].end <= b[l - a.len()].start);
        } else {
            assert(ab[k] == a[k] && ab[l] == b[l - a.len()]);
            assert(lo <= a[k].start <= a[k].end <= mid);
            assert(mid <= b[l - a.len()].start <= b[l - a.len()].end <= hi);
        }
    }
}

proof fn lemma_in_order_one(r: Range, lo: int, hi: int)
    requires
        lo <= r.start <= r.end <= hi,
    ensures
        in_order(seq![r], lo, hi),
{
}

proof fn lemma_condition_in_order(t: Seq<TokenTree>, i: int)
    requires
        0 <= i < t.len() <= usize::MAX,
    ensures
        spec_condition(t, i) matches Ok((c, j)) ==> in_order(condition_fragments(c), i, j),
{
    lemma_fragment_advances(t, i + 1);
    if is_word(t, i + 1, "let"@) {
        lemma_fragment_advances(t, i + 2);
        if let Ok(p) = spec_pat_end(t, i + 2) {
            if p < t.len() {
                lemma_fragment_advances(t, p + 1);
                if let Ok(e) = spec_expr_end(t, p + 1) {
                    if is_char(t, p, '=') {
                        let pat = crate::grammar::range(i + 2, p);
                        let expr = crate::grammar::range(p + 1, e);
                        lemma_in_order_one(pat, i, p);
                        lemma_in_order_one(expr, p, e);
                        lemma_in_order_concat(seq![pat], seq![expr], i, p, e);
                        assert(seq![pat] + seq![expr] =~= seq![pat, expr]);
                    }
                }
            }
        }
    } else {
        if let Ok(e) = spec_expr_end(t, i + 1) {
            lemma_in_order_one(crate::grammar::range(i + 1, e), i, e);
        }
    }
}

proof fn lemma_conditions_in_order(t: Seq<TokenTree>, i: int)
    requires
        0 <= i <= t.len() <= usize::MAX,
    ensures
        spec_conditions(t, i) matches Ok((cs, j)) ==> in_order(conditions_fragments(cs), i, j),
    decreases t.len() - i,
{
    if is_word(t, i, "if"@) {
        lemma_condition_advances(t, i);
        lemma_condition_in_order(t, i);
        if let Ok((c, j)) = spec_condition(t, i) {
            lemma_conditions_in_order(t, j);
            crate::grammar::lemma_conditions_advance(t, j);
            if let Ok((rest, k)) = spec_conditions(t, j) {
                let cs = seq![c] + rest;
                assert(cs[0] == c);
                assert(cs.drop_first() =~= rest);
                lemma_in_order_concat(condition_fragments(c), conditions_fragments(rest), i, j, k);
            }
        }
    } else {
        assert(conditions_fragments(Seq::<Condition>::empty()) =~= Seq::<Range>::empty());
    }
}

proof fn lemma_clause_in_order(t: Seq<TokenTree>, i: int)
    requires
        0 <= i <= t.len() <= usize::MAX,
    ensures
        spec_clause(t, i) matches Ok((c, j)) ==> in_order(
            seq![c.pattern, c.sequence] + conditions_fragments(c.conditions),
            i,
            j,
        ),
{
    if is_word(t, i, "for"@) {
        lemma_fragment_advances(t, i + 1);
        if let Ok(p) = spec_pat_end(t, i + 1) {
            if p < t.len() {
                lemma_fragment_advances(t, p + 1);
                if let Ok(s) = spec_expr_end(t, p + 1) {
                    lemma_conditions_in_order(t, s);
                    crate::grammar::lemma_conditions_advance(t, s);
                    if let Ok((cs, k)) = spec_conditions(t, s) {
                        let pat = crate::grammar::range(i + 1, p);
                        let sq = crate::grammar::range(p + 1, s);
                        lemma_in_order_one(pat, i, p);
                        lemma_in_order_one(sq, p, s);
                        lemma_in_order_concat(seq![pat], seq![sq], i, p, s);
                        assert(seq![pat] + seq![sq] =~= seq![pat, sq]);
                        lemma_in_order_concat(seq![pat, sq], conditions_fragments(cs), i, s, k);
                    }
                }
            }
        }
    }
}

proof fn lemma_more_clauses_in_order(t: Seq<TokenTree>, i: int)
    requires
        0 <= i <= t.len() <= usize::MAX,
    ensures
        spec_more_clauses(t, i) matches Ok((cs, j)) ==> in_order(clauses_fragments(cs), i, j),
    decreases t.len() - i,
{
    if is_word(t, i, "for"@) {
        lemma_clause_advances(t, i);
        lemma_clause_in_order(t, i);
        if let Ok((c, j)) = spec_clause(t, i) {
            lemma_more_clauses_in_order(t, j);
            crate::grammar::lemma_more_clauses_advance(t, j);
            if let Ok((rest, k)) = spec_more_clauses(t, j) {
                let cs = seq![c] + rest;
                assert(cs[0] == c);
                assert(cs.drop_first() =~= rest);
                lemma_in_order_concat(
                    seq![c.pattern, c.sequence] + conditions_fragments(c.conditions),
                    clauses_fragments(rest),
                    i,
                    j,
                    k,
                );
            }
        }
    } else {
        assert(clauses_fragments(Seq::<ClauseShape>::empty()) =~= Seq::<Range>::empty());
    }
}

proof fn lemma_clauses_in_order(t: Seq<TokenTree>, i: int)
    requires
        0 <= i <= t.len() <= usize::MAX,
    ensures
        spec_clauses(t, i) matches Ok((cs, k)) ==> i <= k && in_order(clauses_fragments(cs), i, k),
{
    lemma_clause_advances(t, i);
    lemma_clause_in_order(t, i);
    if let Ok((c, j)) = spec_clause(t, i) {
        crate::grammar::lemma_more_clauses_advance(t, j);
        lemma_more_clauses_in_order(t, j);
        if let Ok((rest, k)) = spec_more_clauses(t, j) {
            let cs = seq![c] + rest;
            assert(cs[0] == c);
            assert(cs.drop_first() =~= rest);
            lemma_in_order_concat(
                seq![c.pattern, c.sequence] + conditions_fragments(c.conditions),
                clauses_fragments(rest),
                i,
                j,
                k,
            );
        }
    }
}

/// The fragments of a parsed comprehension lie in its input in order,
/// without overlap.
proof fn lemma_fragments_in_order(t: Seq<TokenTree>)
    requires
        t.len() <= usize::MAX,
    ensures
        spec_comprehension(t) matches Ok(shape) ==> in_order(fragments(shape), 0, t.len() as int),
{
    lemma_fragment_advances(t, 0);
    if let Ok(m) = spec_expr_end(t, 0) {
        lemma_clauses_in_order(t, m);
        if let Ok((cs, k)) = spec_clauses(t, m) {
            let mapping = crate::grammar::range(0, m);
            lemma_in_order_one(mapping, 0, m);
            lemma_in_order_concat(seq![mapping], clauses_fragments(cs), 0, m, k);
        }
    }
}

/// The fragments of a map comprehension, in input order: the key, the value,
/// then each clause's pattern, sequence and conditions.
pub open spec fn map_fragments(shape: MapShape) -> Seq<Range> {
    seq![shape.key, shape.value] + clauses_fragments(shape.clauses)
}

proof fn lemma_map_fragments_in_order(t: Seq<TokenTree>)
    requires
        t.len() <= usize::MAX,
    ensures
        spec_map_comprehension(t) matches Ok(shape) ==> in_order(map_fragments(shape), 0, t.len() as int),
{
    lemma_fragment_advances(t, 0);
    if let Ok(k) = spec_expr_end(t, 0) {
        if crate::grammar::is_fat_arrow(t, k) {
            lemma_fragment_advances(t, k + 2);
            if let Ok(v) = spec_expr_end(t, k + 2) {
                lemma_clauses_in_order(t, v);
                if let Ok((cs, e)) = spec_clauses(t, v) {
                    let key = crate::grammar::range(0, k);
                    let value = crate::grammar::range(k + 2, v);
                    lemma_in_order_one(key, 0, k);
                    lemma_in_order_one(value, k, v);
                    lemma_in_order_concat(seq![key], seq![value], 0, k, v);
                    assert(seq![key] + seq![value] =~= seq![key, value]);
                    lemma_in_order_concat(seq![key, value], clauses_fragments(cs), 0, v, e);
                }
            }
        }
    }
}

proof fn lemma_guard_ordered(conditions: Seq<Condition>, spans: Seq<Span>, n: int)
    requires
        forall|j: int| 0 <= j < conditions.len() ==> condition_within(#[trigger] conditions[j], n),
    ensures
        guard_ordered(guard_of(conditions, spans)),
    decreases conditions.len(),
{
    if conditions.len() > 0 {
        let rest = conditions.drop_first();
        assert forall|j: int| 0 <= j < rest.len() implies condition_within(#[trigger] rest[j], n) by {
            assert(rest[j] == conditions[j + 1]);
        }
        lemma_guard_ordered(rest, spans.drop_first(), n);
        assert(condition_within(conditions[0], n));
    }
}

proof fn lemma_plan_ordered(clauses: Seq<ClauseShape>, spans: Seq<(Span, Seq<Span>)>, n: int)
    requires
        clauses.len() >= 1,
        forall|k: int| 0 <= k < clauses.len() ==> clause_within(#[trigger] clauses[k], n),
    ensures
        chain_ordered(plan(clauses, spans)),
    decreases clauses.len(),
{
    assert(clause_within(clauses[0], n));
    lemma_guard_ordered(clauses[0].conditions, spans[0].1, n);
    if clauses.len() > 1 {
        let rest = clauses.drop_first();
        assert forall|k: int| 0 <= k < rest.len() implies clause_within(#[trigger] rest[k], n) by {
            assert(rest[k] == clauses[k + 1]);
        }
        lemma_plan_ordered(rest, spans.drop_first(), n);
    }
}

proof fn lemma_collect_count(c: Collection, iter: Seq<OutToken>, s: Span, i: usize)
    ensures
        src_count(collect_text(c, iter, s), i) == src_count(iter, i),
{
    broadcast use lemma_count_concat;

    let head = path4(
        crate::tokens::Word::Core,
        crate::tokens::Word::Iter,
        crate::tokens::Word::Iterator,
        crate::tokens::Word::Collect,
        s,
    ) + crate::expand::colon2(s) + seq![OutToken::Punct(crate::tokens::Sym::Lt, false, s)]
        + crate::macros::target_text(c, s) + seq![OutToken::Open(crate::tokens::Delim::Paren, s)];
    assert(no_src(head)) by {
        match c {
            Collection::ToVec => {},
            Collection::ToHashSet => {},
            Collection::ToHashMap => {},
        }
    }
    lemma_count_no_src(head, i);
    lemma_count_no_src(seq![OutToken::Close], i);
    assert(collect_text(c, iter, s) =~= head + iter + seq![OutToken::Close]);
}

/// What a comprehension becomes writes each input position as often as the
/// comprehension's fragments (its mapping, each clause's pattern and
/// sequence, each condition's pattern and expression) hold it, and that is
/// at most once: every fragment is copied exactly once, in full, and no
/// other input position is copied at all.
pub proof fn law_each_fragment_written_once(
    t: Seq<TokenTree>,
    spans: Seq<(Span, Seq<Span>)>,
    mode: Mode,
    collection: Option<Collection>,
    call_site: Span,
    mixed_site: Span,
    i: usize,
)
    requires
        t.len() <= usize::MAX,
        spec_comprehension(t) is Ok,
    ensures
        src_count(
            comprehension_text(spec_comprehension(t)->Ok_0, spans, mode, collection, call_site, mixed_site),
            i,
        ) == hits(fragments(spec_comprehension(t)->Ok_0), i),
        hits(fragments(spec_comprehension(t)->Ok_0), i) <= 1,
        in_order(fragments(spec_comprehension(t)->Ok_0), 0, t.len() as int),
{
    broadcast use lemma_hits_concat;

    let shape = spec_comprehension(t)->Ok_0;
    let n = t.len() as int;
    crate::grammar::lemma_comprehension_within(t);
    lemma_plan_ordered(shape.clauses, spans, n);
    let ch = plan(shape.clauses, spans);
    lemma_chain_count(ch, src(shape.mapping), mode, call_site, mixed_site, i);
    lemma_count_src(shape.mapping, i);
    lemma_plan_hits(shape.clauses, spans, i);
    lemma_hits_one(shape.mapping, i);
    lemma_fragments_in_order(t);
    lemma_in_order_hits(fragments(shape), 0, n, i);
    if let Some(c) = collection {
        lemma_collect_count(c, render_chain(ch, src(shape.mapping), mode, call_site, mixed_site), call_site, i);
    }
}

/// What a map comprehension becomes writes each input position as often as
/// its fragments (the key, the value, each clause's pattern and sequence,
/// each condition's pattern and expression) hold it, and that is at most
/// once.
pub proof fn law_map_each_fragment_written_once(
    t: Seq<TokenTree>,
    spans: Seq<(Span, Seq<Span>)>,
    call_site: Span,
    mixed_site: Span,
    i: usize,
)
    requires
        t.len() <= usize::MAX,
        spec_map_comprehension(t) is Ok,
    ensures
        src_count(map_comprehension_text(spec_map_comprehension(t)->Ok_0, spans, call_site, mixed_site), i)
            == hits(map_fragments(spec_map_comprehension(t)->Ok_0), i),
        hits(map_fragments(spec_map_comprehension(t)->Ok_0), i) <= 1,
        in_order(map_fragments(spec_map_comprehension(t)->Ok_0), 0, t.len() as int),
{
    broadcast use lemma_hits_concat, lemma_count_concat;

    let shape = spec_map_comprehension(t)->Ok_0;
    let n = t.len() as int;
    crate::grammar::lemma_map_comprehension_within(t);
    lemma_plan_ordered(shape.clauses, spans, n);
    let ch = plan(shape.clauses, spans);
    let pair = crate::macros::pair_text(shape.key, shape.value, call_site);
    lemma_count_src(shape.key, i);
    lemma_count_src(shape.value, i);
    lemma_count_no_src(seq![OutToken::Open(crate::tokens::Delim::Paren, call_site)], i);
    lemma_count_no_src(seq![OutToken::Punct(crate::tokens::Sym::Comma, false, call_site)], i);
    lemma_count_no_src(seq![OutToken::Close], i);
    lemma_chain_count(ch, pair, Mode::Sequential, call_site, mixed_site, i);
    lemma_plan_hits(shape.clauses, spans, i);
    lemma_hits_one(shape.key, i);
    lemma_hits_one(shape.value, i);
    assert(seq![shape.key, shape.value] =~= seq![shape.key] + seq![shape.value]);
    lemma_map_fragments_in_order(t);
    lemma_in_order_hits(map_fragments(shape), 0, n, i);
    lemma_collect_count(
        Collection::ToHashMap,
        render_chain(ch, pair, Mode::Sequential, call_site, mixed_site),
        call_site,
        i,
    );
}

/// `small` stands in `big` as one contiguous piece.
pub open spec fn contains(big: Seq<OutToken>, small: Seq<OutToken>) -> bool {
    exists|p: int| 0 <= p && p + small.len() <= big.len() && #[trigger] big.subrange(p, p + small.len()) == small
}

proof fn lemma_contains_self(s: Seq<OutToken>)
    ensures
        contains(s, s),
{
    let p: int = 0;
    assert(s.subrange(p, p + s.len()) =~= s);
}

proof fn lemma_contains_within(a: Seq<OutToken>, x: Seq<OutToken>, b: Seq<OutToken>, s: Seq<OutToken>)
    requires
        contains(x, s),
    ensures
        contains(a + x + b, s),
{
    let p = choose|p: int| 0 <= p && p + s.len() <= x.len() && #[trigger] x.subrange(p, p + s.len()) == s;
    let y = a + x + b;
    let q = a.len() + p;
    assert(y.subrange(q, q + s.len()) =~= x.subrange(p, p + s.len()));
}

proof fn lemma_contains_trans(y: Seq<OutToken>, x: Seq<OutToken>, s: Seq<OutToken>)
    requires
        contains(y, x),
        contains(x, s),
    ensures
        contains(y, s),
{
    let q = choose|q: int| 0 <= q && q + x.len() <= y.len() && #[trigger] y.subrange(q, q + x.len()) == x;
    let p = choose|p: int| 0 <= p && p + s.len() <= x.len() && #[trigger] x.subrange(p, p + s.len()) == s;
    assert(y.subrange(q + p, q + p + s.len()) =~= x.subrange(p, p + s.len()));
}

proof fn lemma_guard_contains(g: Guard, body: Seq<OutToken>)
    ensures
        contains(render_guard(g, body), body),
    decreases g,
{
    match g {
        Guard::Pass => {
            lemma_contains_self(body);
        },
        Guard::Test { expr, span, then } => {
            let inner = render_guard(*then, body);
            lemma_guard_contains(*then, body);
            let a = seq![OutToken::Ident(crate::tokens::Word::If, span)] + src(expr) + seq![
                OutToken::Open(crate::tokens::Delim::Brace, span),
            ];
            let c = seq![
                OutToken::Close,
                OutToken::Ident(crate::tokens::Word::Else, span),
                OutToken::Open(crate::tokens::Delim::Brace, span),
            ] + none_path(span) + seq![OutToken::Close];
            assert(test_text(expr, span, inner) =~= a + inner + c);
            lemma_contains_self(inner);
            lemma_contains_within(a, inner, c, inner);
            lemma_contains_trans(a + inner + c, inner, body);
        },
        Guard::Bind { pat, expr, span, then } => {
            let inner = render_guard(*then, body);
            lemma_guard_contains(*then, body);
            let a = seq![
                OutToken::Ident(crate::tokens::Word::If, span),
                OutToken::Ident(crate::tokens::Word::Let, span),
            ] + src(pat) + seq![OutToken::Punct(crate::tokens::Sym::Eq, false, span)] + src(expr) + seq![
                OutToken::Open(crate::tokens::Delim::Brace, span),
            ];
            let c = seq![
                OutToken::Close,
                OutToken::Ident(crate::tokens::Word::Else, span),
                OutToken::Open(crate::tokens::Delim::Brace, span),
            ] + none_path(span) + seq![OutToken::Close];
            assert(bind_text(pat, expr, span, inner) =~= a + inner + c);
            lemma_contains_self(inner);
            lemma_contains_within(a, inner, c, inner);
            lemma_contains_trans(a + inner + c, inner, body);
        },
    }
}

proof fn lemma_wrapped(g: Guard, x: Seq<OutToken>, s: Span)
    ensures
        contains(render_guard(g, some_of(x, s)), x),
{
    lemma_guard_contains(g, some_of(x, s));
    let p = path4(
        crate::tokens::Word::Core,
        crate::tokens::Word::Option,
        crate::tokens::Word::OptionType,
        crate::tokens::Word::SomeVariant,
        s,
    ) + seq![OutToken::Open(crate::tokens::Delim::Paren, s)];
    assert(some_of(x, s) =~= p + x + seq![OutToken::Close]);
    lemma_contains_self(x);
    lemma_contains_within(p, x, seq![OutToken::Close], x);
    lemma_contains_trans(render_guard(g, some_of(x, s)), some_of(x, s), x);
}

/// The text of a chain writes its innermost mapping in one piece.
proof fn lemma_chain_contains(ch: Chain, mapping: Seq<OutToken>, mode: Mode, cs: Span, ms: Span)
    ensures
        contains(render_chain(ch, mapping, mode, cs, ms), mapping),
    decreases ch,
{
    lemma_contains_self(mapping);
    match ch {
        Chain::Innermost { pattern, sequence, span, guard } => {
            let head = clause_head(sequence, span, mode, cs, ms);
            if guard is Pass {
                let a = head + closure_head(crate::tokens::Word::MapMethod, pattern, span);
                let c = seq![OutToken::Close, OutToken::Close];
                assert(render_innermost(pattern, sequence, span, guard, mapping, mode, cs, ms) =~= a + mapping + c);
                lemma_contains_within(a, mapping, c, mapping);
            } else {
                let a = head + closure_head(crate::tokens::Word::FilterMap, pattern, span) + seq![
                    OutToken::Open(crate::tokens::Delim::Brace, span),
                ];
                let g = render_guard(guard, some_of(mapping, cs));
                let c = seq![OutToken::Close, OutToken::Close, OutToken::Close];
                assert(render_innermost(pattern, sequence, span, guard, mapping, mode, cs, ms) =~= a + g + c);
                lemma_wrapped(guard, mapping, cs);
                lemma_contains_self(g);
                lemma_contains_within(a, g, c, g);
                lemma_contains_trans(a + g + c, g, mapping);
            }
        },
        Chain::Outer { pattern, sequence, span, guard, inner } => {
            let it = render_chain(*inner, mapping, mode, cs, ms);
            lemma_chain_contains(*inner, mapping, mode, cs, ms);
            lemma_contains_self(it);
            let head = clause_head(sequence, span, mode, cs, ms);
            let whole = render_outer(pattern, sequence, span, guard, it, mode, cs, ms);
            if guard is Pass {
                let a = head + closure_head(crate::tokens::Word::FlatMap, pattern, span);
                let c = seq![OutToken::Close, OutToken::Close];
                assert(whole =~= a + it + c);
                lemma_contains_within(a, it, c, it);
                lemma_contains_trans(whole, it, mapping);
            } else {
                let a = head + closure_head(crate::tokens::Word::FilterMap, pattern, span) + seq![
                    OutToken::Open(crate::tokens::Delim::Brace, span),
                ];
                let g = render_guard(guard, some_of(it, cs));
                let c = seq![
                    OutToken::Close,
                    OutToken::Close,
                    OutToken::Punct(crate::tokens::Sym::Dot, false, span),
                    OutToken::Ident(crate::tokens::Word::Flatten, span),
                    OutToken::Open(crate::tokens::Delim::Paren, span),
                    OutToken::Close,
                    OutToken::Close,
                ];
                assert(whole =~= a + g + c);
                lemma_wrapped(guard, it, cs);
                lemma_contains_self(g);
                lemma_contains_within(a, g, c, g);
                lemma_contains_trans(whole, g, it);
                lemma_contains_trans(whole, it, mapping);
            }
        },
    }
}

proof fn lemma_collect_contains(c: Collection, iter: Seq<OutToken>, s: Span)
    ensures
        contains(collect_text(c, iter, s), iter),
{
    let head = path4(
        crate::tokens::Word::Core,
        crate::tokens::Word::Iter,
        crate::tokens::Word::Iterator,
        crate::tokens::Word::Collect,
        s,
    ) + crate::expand::colon2(s) + seq![OutToken::Punct(crate::tokens::Sym::Lt, false, s)]
        + crate::macros::target_text(c, s) + seq![OutToken::Open(crate::tokens::Delim::Paren, s)];
    assert(collect_text(c, iter, s) =~= head + iter + seq![OutToken::Close]);
    lemma_contains_self(iter);
    lemma_contains_within(head, iter, seq![OutToken::Close], iter);
}

/// What a comprehension becomes writes its whole mapping, every token of it
/// in order, as one piece.
pub proof fn law_mapping_written_whole(
    shape: Shape,
    spans: Seq<(Span, Seq<Span>)>,
    mode: Mode,
    collection: Option<Collection>,
    call_site: Span,
    mixed_site: Span,
)
    ensures
        contains(
            comprehension_text(shape, spans, mode, collection, call_site, mixed_site),
            src(shape.mapping),
        ),
{
    let chain = render_chain(plan(shape.clauses, spans), src(shape.mapping), mode, call_site, mixed_site);
    lemma_chain_contains(plan(shape.clauses, spans), src(shape.mapping), mode, call_site, mixed_site);
    if let Some(c) = collection {
        lemma_collect_contains(c, chain, call_site);
        lemma_contains_trans(collect_text(c, chain, call_site), chain, src(shape.mapping));
    }
}

/// What a map comprehension becomes writes the pair `(KEY, VALUE)`: an open
/// parenthesis, the whole key, a comma, the whole value and the closing
/// parenthesis, in this order and as one piece.
pub proof fn law_map_writes_key_then_value(
    shape: MapShape,
    spans: Seq<(Span, Seq<Span>)>,
    call_site: Span,
    mixed_site: Span,
)
    ensures
        contains(
            map_comprehension_text(shape, spans, call_site, mixed_site),
            seq![OutToken::Open(crate::tokens::Delim::Paren, call_site)] + src(shape.key) + seq![
                OutToken::Punct(crate::tokens::Sym::Comma, false, call_site),
            ] + src(shape.value) + seq![OutToken::Close],
        ),
{
    let pair = seq![OutToken::Open(crate::tokens::Delim::Paren, call_site)] + src(shape.key) + seq![
        OutToken::Punct(crate::tokens::Sym::Comma, false, call_site),
    ] + src(shape.value) + seq![OutToken::Close];
    assert(crate::macros::pair_text(shape.key, shape.value, call_site) =~= pair);
    let chain = render_chain(plan(shape.clauses, spans), pair, Mode::Sequential, call_site, mixed_site);
    lemma_chain_contains(plan(shape.clauses, spans), pair, Mode::Sequential, call_site, mixed_site);
    lemma_collect_contains(Collection::ToHashMap, chain, call_site);
    lemma_contains_trans(collect_text(Collection::ToHashMap, chain, call_site), chain, pair);
}

} // verus!
