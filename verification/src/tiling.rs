//! A parsed comprehension accounts for every token of its input.
//!
//! The input is tiled, in order and without gap or overlap, by the
//! comprehension's fragments and the grammar's own tokens: the mapping (or
//! the key, `=>` and the value), then for each clause `for`, its pattern,
//! `in`, its sequence, and for each of its conditions `if` and the
//! expression, or `if let`, the pattern, `=` and the expression.  So no token
//! is dropped: every `if` of the input is a condition of the clause it
//! follows, and every token before the first `for` is the mapping's.
use vstd::prelude::*;
use proc_macro2::TokenTree;
use crate::grammar::{
    ClauseShape, Condition, MapShape, Shape, is_char, is_fat_arrow, is_word,
    lemma_clause_advances, lemma_condition_advances, lemma_conditions_advance,
    lemma_fragment_advances, lemma_more_clauses_advance, range, spec_clause, spec_clauses,
    spec_comprehension, spec_condition, spec_conditions, spec_expr_end, spec_map_comprehension,
    spec_more_clauses, spec_pat_end,
};
use crate::tokens::Range;

verus! {

/// The `n` positions just before the range `r`.
pub open spec fn before(r: Range, n: int) -> Range {
    Range { start: (r.start - n) as usize, end: r.start }
}

/// The ranges follow one another from `lo` to `hi`, each starting where the
/// one before it ends, the first at `lo` and the last ending at `hi`.
pub open spec fn tiled(ts: Seq<Range>, lo: int, hi: int) -> bool
    decreases ts.len(),
{
    if ts.len() == 0 {
        lo == hi
    } else {
        &&& ts[0].start == lo
        &&& ts[0].start <= ts[0].end
        &&& tiled(ts.drop_first(), ts[0].end as int, hi)
    }
}

/// The tiles of a condition: `if` and the expression, or `if let`, the
/// pattern, `=` and the expression.
pub open spec fn condition_tiles(c: Condition) -> Seq<Range> {
    match c {
        Condition::Test { expr } => seq![before(expr, 1), expr],
        Condition::Match { pat, expr } => seq![before(pat, 2), pat, before(expr, 1), expr],
    }
}

/// The tiles of conditions, in order.
pub open spec fn conditions_tiles(cs: Seq<Condition>) -> Seq<Range>
    decreases cs.len(),
{
    if cs.len() == 0 {
        Seq::empty()
    } else {
        condition_tiles(cs[0]) + conditions_tiles(cs.drop_first())
    }
}

/// The tiles of a clause: `for`, the pattern, `in`, the sequence, then its
/// conditions' tiles.
pub open spec fn clause_tiles(c: ClauseShape) -> Seq<Range> {
    seq![before(c.pattern, 1), c.pattern, before(c.sequence, 1), c.sequence] + conditions_tiles(
        c.conditions,
    )
}

/// The tiles of clauses, in order.
pub open spec fn clauses_tiles(cs: Seq<ClauseShape>) -> Seq<Range>
    decreases cs.len(),
{
    if cs.len() == 0 {
        Seq::empty()
    } else {
        clause_tiles(cs[0]) + clauses_tiles(cs.drop_first())
    }
}

/// The tiles of a comprehension: the mapping, then its clauses' tiles.
pub open spec fn tiles(shape: Shape) -> Seq<Range> {
    seq![shape.mapping] + clauses_tiles(shape.clauses)
}

/// The tiles of a map comprehension: the key, `=>`, the value, then its
/// clauses' tiles.
pub open spec fn map_tiles(shape: MapShape) -> Seq<Range> {
    seq![shape.key, before(shape.value, 2), shape.value] + clauses_tiles(shape.clauses)
}

/// The grammar's own tokens stand where the tiles of a condition say.
pub open spec fn condition_marked(t: Seq<TokenTree>, c: Condition) -> bool {
    match c {
        Condition::Test { expr } => is_word(t, expr.start - 1, "if"@),
        Condition::Match { pat, expr } => is_word(t, pat.start - 2, "if"@) && is_word(
            t,
            pat.start - 1,
            "let"@,
        ) && is_char(t, expr.start - 1, '='),
    }
}

/// The grammar's own tokens stand where the tiles of a clause say.
pub open spec fn clause_marked(t: Seq<TokenTree>, c: ClauseShape) -> bool {
    &&& is_word(t, c.pattern.start - 1, "for"@)
    &&& is_word(t, c.sequence.start - 1, "in"@)
    &&& forall|k: int| 0 <= k < c.conditions.len() ==> condition_marked(t, #[trigger] c.conditions[k])
}

proof fn lemma_tiled_concat(a: Seq<Range>, b: Seq<Range>, lo: int, mid: int, hi: int)
    requires
        tiled(a, lo, mid),
        tiled(b, mid, hi),
    ensures
        tiled(a + b, lo, hi),
    decreases a.len(),
{
    if a.len() == 0 {
        assert(a + b =~= b);
    } else {
        assert((a + b).drop_first() =~= a.drop_first() + b);
        assert((a + b)[0] == a[0]);
        lemma_tiled_concat(a.drop_first(), b, a[0].end as int, mid, hi);
    }
}

proof fn lemma_tiled_one(r: Range, lo: int, hi: int)
    requires
        r.start == lo,
        r.end == hi,
        lo <= hi,
    ensures
        tiled(seq![r], lo, hi),
{
    reveal_with_fuel(tiled, 2);
    assert(seq![r][0] == r);
    assert(seq![r].drop_first() =~= Seq::<Range>::empty());
}

proof fn lemma_tiled_two(a: Range, b: Range, lo: int, mid: int, hi: int)
    requires
        a.start == lo,
        a.end == mid,
        b.start == mid,
        b.end == hi,
        lo <= mid <= hi,
    ensures
        tiled(seq![a, b], lo, hi),
{
    lemma_tiled_one(a, lo, mid);
    lemma_tiled_one(b, mid, hi);
    lemma_tiled_concat(seq![a], seq![b], lo, mid, hi);
    assert(seq![a] + seq![b] =~= seq![a, b]);
}

proof fn lemma_condition_tiled(t: Seq<TokenTree>, i: int)
    requires
        0 <= i < t.len() <= usize::MAX,
    ensures
        spec_condition(t, i) matches Ok((c, j)) ==> tiled(condition_tiles(c), i, j) && condition_marked(
            t,
            c,
        ),
{
    lemma_fragment_advances(t, i + 1);
    if is_word(t, i, "if"@) {
        if is_word(t, i + 1, "let"@) {
            lemma_fragment_advances(t, i + 2);
            if let Ok(p) = spec_pat_end(t, i + 2) {
                if p < t.len() {
                    lemma_fragment_advances(t, p + 1);
                    if let Ok(e) = spec_expr_end(t, p + 1) {
                        if is_char(t, p, '=') {
                            let pat = range(i + 2, p);
                            let expr = range(p + 1, e);
                            lemma_tiled_two(before(pat, 2), pat, i, i + 2, p);
                            lemma_tiled_two(before(expr, 1), expr, p, p + 1, e);
                            lemma_tiled_concat(seq![before(pat, 2), pat], seq![before(expr, 1), expr], i, p, e);
                            assert(seq![before(pat, 2), pat] + seq![before(expr, 1), expr] =~= seq![
                                before(pat, 2),
                                pat,
                                before(expr, 1),
                                expr,
                            ]);
                        }
                    }
                }
            }
        } else {
            if let Ok(e) = spec_expr_end(t, i + 1) {
                let expr = range(i + 1, e);
                lemma_tiled_two(before(expr, 1), expr, i, i + 1, e);
            }
        }
    }
}

proof fn lemma_conditions_tiled(t: Seq<TokenTree>, i: int)
    requires
        0 <= i <= t.len() <= usize::MAX,
    ensures
        spec_conditions(t, i) matches Ok((cs, j)) ==> {
            &&& tiled(conditions_tiles(cs), i, j)
            &&& forall|k: int| 0 <= k < cs.len() ==> condition_marked(t, #[trigger] cs[k])
        },
    decreases t.len() - i,
{
    if is_word(t, i, "if"@) {
        lemma_condition_advances(t, i);
        lemma_condition_tiled(t, i);
        if let Ok((c, j)) = spec_condition(t, i) {
            lemma_conditions_tiled(t, j);
            lemma_conditions_advance(t, j);
            if let Ok((rest, k)) = spec_conditions(t, j) {
                let cs = seq![c] + rest;
                assert(cs[0] == c);
                assert(cs.drop_first() =~= rest);
                lemma_tiled_concat(condition_tiles(c), conditions_tiles(rest), i, j, k);
                assert forall|m: int| 0 <= m < cs.len() implies condition_marked(t, #[trigger] cs[m]) by {
                    if m > 0 {
                        assert(cs[m] == rest[m - 1]);
                    }
                }
            }
        }
    } else {
        assert(conditions_tiles(Seq::<Condition>::empty()) =~= Seq::<Range>::empty());
    }
}

proof fn lemma_clause_tiled(t: Seq<TokenTree>, i: int)
    requires
        0 <= i <= t.len() <= usize::MAX,
    ensures
        spec_clause(t, i) matches Ok((c, j)) ==> tiled(clause_tiles(c), i, j) && clause_marked(t, c),
{
    if is_word(t, i, "for"@) {
        lemma_fragment_advances(t, i + 1);
        if let Ok(p) = spec_pat_end(t, i + 1) {
            if p < t.len() {
                lemma_fragment_advances(t, p + 1);
                if let Ok(s) = spec_expr_end(t, p + 1) {
                    lemma_conditions_tiled(t, s);
                    lemma_conditions_advance(t, s);
                    if let Ok((cs, k)) = spec_conditions(t, s) {
                        let pat = range(i + 1, p);
                        let sq = range(p + 1, s);
                        lemma_tiled_two(before(pat, 1), pat, i, i + 1, p);
                        lemma_tiled_two(before(sq, 1), sq, p, p + 1, s);
                        lemma_tiled_concat(seq![before(pat, 1), pat], seq![before(sq, 1), sq], i, p, s);
                        assert(seq![before(pat, 1), pat] + seq![before(sq, 1), sq] =~= seq![
                            before(pat, 1),
                            pat,
                            before(sq, 1),
                            sq,
                        ]);
                        lemma_tiled_concat(
                            seq![before(pat, 1), pat, before(sq, 1), sq],
                            conditions_tiles(cs),
                            i,
                            s,
                            k,
                        );
                    }
                }
            }
        }
    }
}

proof fn lemma_more_clauses_tiled(t: Seq<TokenTree>, i: int)
    requires
        0 <= i <= t.len() <= usize::MAX,
    ensures
        spec_more_clauses(t, i) matches Ok((cs, j)) ==> {
            &&& tiled(clauses_tiles(cs), i, j)
            &&& forall|k: int| 0 <= k < cs.len() ==> clause_marked(t, #[trigger] cs[k])
        },
    decreases t.len() - i,
{
    if is_word(t, i, "for"@) {
        lemma_clause_advances(t, i);
        lemma_clause_tiled(t, i);
        if let Ok((c, j)) = spec_clause(t, i) {
            lemma_more_clauses_tiled(t, j);
            lemma_more_clauses_advance(t, j);
            if let Ok((rest, k)) = spec_more_clauses(t, j) {
                let cs = seq![c] + rest;
                assert(cs[0] == c);
                assert(cs.drop_first() =~= rest);
                lemma_tiled_concat(clause_tiles(c), clauses_tiles(rest), i, j, k);
                assert forall|m: int| 0 <= m < cs.len() implies clause_marked(t, #[trigger] cs[m]) by {
                    if m > 0 {
                        assert(cs[m] == rest[m - 1]);
                    }
                }
            }
        }
    } else {
        assert(clauses_tiles(Seq::<ClauseShape>::empty()) =~= Seq::<Range>::empty());
    }
}

proof fn lemma_clauses_tiled(t: Seq<TokenTree>, i: int)
    requires
        0 <= i <= t.len() <= usize::MAX,
    ensures
        spec_clauses(t, i) matches Ok((cs, k)) ==> {
            &&& tiled(clauses_tiles(cs), i, k)
            &&& forall|m: int| 0 <= m < cs.len() ==> clause_marked(t, #[trigger] cs[m])
        },
{
    lemma_clause_advances(t, i);
    lemma_clause_tiled(t, i);
    if let Ok((c, j)) = spec_clause(t, i) {
        lemma_more_clauses_advance(t, j);
        lemma_more_clauses_tiled(t, j);
        if let Ok((rest, k)) = spec_more_clauses(t, j) {
            let cs = seq![c] + rest;
            assert(cs[0] == c);
            assert(cs.drop_first() =~= rest);
            lemma_tiled_concat(clause_tiles(c), clauses_tiles(rest), i, j, k);
            assert forall|m: int| 0 <= m < cs.len() implies clause_marked(t, #[trigger] cs[m]) by {
                if m > 0 {
                    assert(cs[m] == rest[m - 1]);
                }
            }
        }
    }
}

/// A parsed comprehension accounts for every token of its input: its
/// mapping, then each clause's `for`, pattern, `in`, sequence and each of
/// its conditions (`if` and the expression, or `if let`, the pattern, `=`
/// and the expression) follow one another from the first token to the last,
/// and the keywords and `=` stand where they say.  No `if` of the input is
/// left out of its clause's conditions, and the mapping is all that comes
/// before the first `for`.
pub proof fn law_input_tiled(t: Seq<TokenTree>)
    requires
        t.len() <= usize::MAX,
        spec_comprehension(t) is Ok,
    ensures
        tiled(tiles(spec_comprehension(t)->Ok_0), 0, t.len() as int),
        forall|k: int|
            0 <= k < spec_comprehension(t)->Ok_0.clauses.len() ==> clause_marked(
                t,
                #[trigger] spec_comprehension(t)->Ok_0.clauses[k],
            ),
{
    lemma_fragment_advances(t, 0);
    if let Ok(m) = spec_expr_end(t, 0) {
        lemma_clauses_tiled(t, m);
        if let Ok((cs, k)) = spec_clauses(t, m) {
            let mapping = range(0, m);
            lemma_tiled_one(mapping, 0, m);
            lemma_tiled_concat(seq![mapping], clauses_tiles(cs), 0, m, k);
        }
    }
}

/// A parsed map comprehension accounts for every token of its input: its
/// key, `=>`, its value, then each clause's tiles as for a comprehension,
/// from the first token to the last.
pub proof fn law_map_input_tiled(t: Seq<TokenTree>)
    requires
        t.len() <= usize::MAX,
        spec_map_comprehension(t) is Ok,
    ensures
        tiled(map_tiles(spec_map_comprehension(t)->Ok_0), 0, t.len() as int),
        is_fat_arrow(t, spec_map_comprehension(t)->Ok_0.key.end as int),
        forall|k: int|
            0 <= k < spec_map_comprehension(t)->Ok_0.clauses.len() ==> clause_marked(
                t,
                #[trigger] spec_map_comprehension(t)->Ok_0.clauses[k],
            ),
{
    lemma_fragment_advances(t, 0);
    if let Ok(k) = spec_expr_end(t, 0) {
        if is_fat_arrow(t, k) {
            lemma_fragment_advances(t, k + 2);
            if let Ok(v) = spec_expr_end(t, k + 2) {
                lemma_clauses_tiled(t, v);
                if let Ok((cs, e)) = spec_clauses(t, v) {
                    let key = range(0, k);
                    let value = range(k + 2, v);
                    lemma_tiled_one(key, 0, k);
                    lemma_tiled_two(before(value, 2), value, k, k + 2, v);
                    lemma_tiled_concat(seq![key], seq![before(value, 2), value], 0, k, v);
                    assert(seq![key] + seq![before(value, 2), value] =~= seq![key, before(value, 2), value]);
                    lemma_tiled_concat(seq![key, before(value, 2), value], clauses_tiles(cs), 0, v, e);
                }
            }
        }
    }
}

} // verus!
