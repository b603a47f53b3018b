//! The five comprehensions: `comp`, `vec_comp`, `set_comp`, `map_comp` and
//! `par_comp`, from input tokens to output tokens.
//!
//! All five read the same grammar (`map_comp` with `KEY => VALUE` in place of
//! the mapping) and write the same chain; `vec_comp`, `set_comp` and
//! `map_comp` collect it into a `Vec`, `HashSet` or `HashMap`, and `par_comp`
//! starts it with `rayon`'s `into_par_iter` in place of `into_iter`.
use vstd::prelude::*;
use proc_macro2::{Span, TokenStream, TokenTree};
use crate::bridge::{
    call_site, error_span_of_tree, mixed_site, span_of_tree, stream_trees,
    tree_error_span, tree_span, trees_of,
};
use crate::expand::{
    push_colon2, push_path4, push_src, Mode, chain_ok, clause_ok, colon2, condition_ok, expand, path4, plan,
    render_chain, span_table, spans_fit, spans_view, src,
};
use crate::grammar::{
    Expected, Fault, MapShape, ParseError, Shape, clause_within, clauses_view,
    lemma_comprehension_within, lemma_map_comprehension_within, parse_comprehension,
    parse_map_comprehension, spec_comprehension, spec_map_comprehension,
};
use crate::laws::{
    law_map_output_balanced, law_map_output_positions_and_hygiene, law_output_balanced,
    law_output_positions_and_hygiene,
};
use crate::stream::{build_stream, stream_of};
use crate::tokens::{Delim, OutToken, Range, Sym, Word};

verus! {

/// The collection that a comprehension is gathered into.
#[derive(Clone, Copy, Debug, PartialEq, Eq)]
pub enum Collection {
    ToVec,
    ToHashSet,
    ToHashMap,
}

/// `::a::b::c`
pub open spec fn path3(a: Word, b: Word, c: Word, s: Span) -> Seq<OutToken> {
    colon2(s) + seq![OutToken::Ident(a, s)] + colon2(s) + seq![OutToken::Ident(b, s)] + colon2(s)
        + seq![OutToken::Ident(c, s)]
}

/// `>>`, as two joined `>`.
pub open spec fn close2(s: Span) -> Seq<OutToken> {
    seq![OutToken::Punct(Sym::Gt, true, s), OutToken::Punct(Sym::Gt, false, s)]
}

/// The collection type with its item types left to inference, and the `>`
/// that closes the turbofish: `::std::vec::Vec<_>>`,
/// `::std::collections::HashSet<_>>` or `::std::collections::HashMap<_, _>>`.
pub open spec fn target_text(c: Collection, s: Span) -> Seq<OutToken> {
    let lt = OutToken::Punct(Sym::Lt, false, s);
    let any = OutToken::Ident(Word::Underscore, s);
    match c {
        Collection::ToVec => path3(Word::Std, Word::Vec, Word::VecType, s) + seq![lt, any]
            + close2(s),
        Collection::ToHashSet => path3(Word::Std, Word::Collections, Word::HashSet, s) + seq![
            lt,
            any,
        ] + close2(s),
        Collection::ToHashMap => path3(Word::Std, Word::Collections, Word::HashMap, s) + seq![
            lt,
            any,
            OutToken::Punct(Sym::Comma, false, s),
            any,
        ] + close2(s),
    }
}

/// `::core::iter::Iterator::collect::<TARGET>(ITER)`
pub open spec fn collect_text(c: Collection, iter: Seq<OutToken>, s: Span) -> Seq<OutToken> {
    path4(Word::Core, Word::Iter, Word::Iterator, Word::Collect, s) + colon2(s) + seq![
        OutToken::Punct(Sym::Lt, false, s),
    ] + target_text(c, s) + seq![OutToken::Open(Delim::Paren, s)] + iter + seq![OutToken::Close]
}

/// `(KEY, VALUE)`
pub open spec fn pair_text(key: Range, value: Range, s: Span) -> Seq<OutToken> {
    seq![OutToken::Open(Delim::Paren, s)] + src(key) + seq![OutToken::Punct(Sym::Comma, false, s)]
        + src(value) + seq![OutToken::Close]
}

/// The text of a comprehension: its chain, collected where asked.
pub open spec fn comprehension_text(
    shape: Shape,
    spans: Seq<(Span, Seq<Span>)>,
    mode: Mode,
    collection: Option<Collection>,
    call_site: Span,
    mixed_site: Span,
) -> Seq<OutToken> {
    let chain = render_chain(plan(shape.clauses, spans), src(shape.mapping), mode, call_site, mixed_site);
    match collection {
        None => chain,
        Some(c) => collect_text(c, chain, call_site),
    }
}

/// The text of a map comprehension: the chain of `(KEY, VALUE)` pairs,
/// collected into a `HashMap`.
pub open spec fn map_comprehension_text(
    shape: MapShape,
    spans: Seq<(Span, Seq<Span>)>,
    call_site: Span,
    mixed_site: Span,
) -> Seq<OutToken> {
    collect_text(
        Collection::ToHashMap,
        render_chain(
            plan(shape.clauses, spans),
            pair_text(shape.key, shape.value, call_site),
            Mode::Sequential,
            call_site,
            mixed_site,
        ),
        call_site,
    )
}

/// `out` is what the comprehension in `t` becomes, for spans as `syn` gives
/// them.
pub open spec fn comprehension_output(
    t: Seq<TokenTree>,
    mode: Mode,
    collection: Option<Collection>,
    call_site: Span,
    mixed_site: Span,
    out: Seq<OutToken>,
) -> bool {
    match spec_comprehension(t) {
        Ok(shape) => exists|spans: Seq<(Span, Seq<Span>)>|
            #[trigger] spans_fit(t, shape.clauses, spans, call_site) && out == comprehension_text(
                shape,
                spans,
                mode,
                collection,
                call_site,
                mixed_site,
            ),
        Err(_) => false,
    }
}

/// `out` is what the map comprehension in `t` becomes, for spans as `syn`
/// gives them.
pub open spec fn map_comprehension_output(
    t: Seq<TokenTree>,
    call_site: Span,
    mixed_site: Span,
    out: Seq<OutToken>,
) -> bool {
    match spec_map_comprehension(t) {
        Ok(shape) => exists|spans: Seq<(Span, Seq<Span>)>|
            #[trigger] spans_fit(t, shape.clauses, spans, call_site) && out
                == map_comprehension_text(shape, spans, call_site, mixed_site),
        Err(_) => false,
    }
}

/// Clauses whose ranges lie within the input, with spans that fit them, are
/// ready to be written.
proof fn lemma_ready(
    t: Seq<TokenTree>,
    clauses: Seq<crate::grammar::ClauseShape>,
    spans: Seq<(Span, Seq<Span>)>,
    call_site: Span,
)
    requires
        clauses.len() >= 1,
        forall|k: int| 0 <= k < clauses.len() ==> clause_within(#[trigger] clauses[k], t.len() as int),
        spans_fit(t, clauses, spans, call_site),
    ensures
        chain_ok(clauses, spans),
{
    assert forall|i: int| 0 <= i < clauses.len() implies clause_ok(#[trigger] clauses[i]) by {
        assert(clause_within(clauses[i], t.len() as int));
        assert forall|j: int| 0 <= j < clauses[i].conditions.len() implies condition_ok(
            #[trigger] clauses[i].conditions[j],
        ) by {
            assert(crate::grammar::condition_within(clauses[i].conditions[j], t.len() as int));
        }
    }
}

/// Appends `::a::b::c`.
fn push_path3(out: &mut Vec<OutToken>, a: Word, b: Word, c: Word, s: Span)
    ensures
        final(out)@ == old(out)@ + path3(a, b, c, s),
{
    push_colon2(out, s);
    out.push(OutToken::Ident(a, s));
    push_colon2(out, s);
    out.push(OutToken::Ident(b, s));
    push_colon2(out, s);
    out.push(OutToken::Ident(c, s));
    assert(out@ =~= old(out)@ + path3(a, b, c, s));
}

/// `::core::iter::Iterator::collect::<TARGET>(ITER)`
pub fn collect_into(c: Collection, iter: Vec<OutToken>, s: Span) -> (r: Vec<OutToken>)
    ensures
        r@ == collect_text(c, iter@, s),
{
    let ghost i0 = iter@;
    let mut iter = iter;
    let mut out: Vec<OutToken> = Vec::new();
    push_path4(&mut out, Word::Core, Word::Iter, Word::Iterator, Word::Collect, s);
    assert(out@ =~= path4(Word::Core, Word::Iter, Word::Iterator, Word::Collect, s));
    push_colon2(&mut out, s);
    out.push(OutToken::Punct(Sym::Lt, false, s));
    let ghost before_target = out@;
    match c {
        Collection::ToVec => {
            push_path3(&mut out, Word::Std, Word::Vec, Word::VecType, s);
            out.push(OutToken::Punct(Sym::Lt, false, s));
            out.push(OutToken::Ident(Word::Underscore, s));
        },
        Collection::ToHashSet => {
            push_path3(&mut out, Word::Std, Word::Collections, Word::HashSet, s);
            out.push(OutToken::Punct(Sym::Lt, false, s));
            out.push(OutToken::Ident(Word::Underscore, s));
        },
        Collection::ToHashMap => {
            push_path3(&mut out, Word::Std, Word::Collections, Word::HashMap, s);
            out.push(OutToken::Punct(Sym::Lt, false, s));
            out.push(OutToken::Ident(Word::Underscore, s));
            out.push(OutToken::Punct(Sym::Comma, false, s));
            out.push(OutToken::Ident(Word::Underscore, s));
        },
    }
    out.push(OutToken::Punct(Sym::Gt, true, s));
    out.push(OutToken::Punct(Sym::Gt, false, s));
    assert(out@ =~= before_target + target_text(c, s));
    out.push(OutToken::Open(Delim::Paren, s));
    out.append(&mut iter);
    out.push(OutToken::Close);
    assert(out@ =~= collect_text(c, i0, s));
    out
}

/// `(KEY, VALUE)`
fn pair(key: Range, value: Range, s: Span) -> (r: Vec<OutToken>)
    requires
        key.start <= key.end,
        value.start <= value.end,
    ensures
        r@ == pair_text(key, value, s),
{
    let mut out: Vec<OutToken> = Vec::new();
    out.push(OutToken::Open(Delim::Paren, s));
    push_src(&mut out, key);
    out.push(OutToken::Punct(Sym::Comma, false, s));
    push_src(&mut out, value);
    out.push(OutToken::Close);
    assert(out@ =~= pair_text(key, value, s));
    out
}

/// The tokens of a range of the input.
fn fragment(r: Range) -> (v: Vec<OutToken>)
    requires
        r.start <= r.end,
    ensures
        v@ == src(r),
{
    let mut out: Vec<OutToken> = Vec::new();
    push_src(&mut out, r);
    assert(out@ =~= src(r));
    out
}

/// Reads the comprehension in `t` and writes its chain, iterating in `mode`
/// and collected where asked.
///
/// The result is `Ok` exactly when the grammar accepts `t`; an error is the
/// one the grammar states.  The output is the text of the comprehension's
/// chain ([`comprehension_text`]) for spans as `syn` gives them.
pub fn expand_comprehension(
    t: &Vec<TokenTree>,
    mode: Mode,
    collection: Option<Collection>,
    call_site: Span,
    mixed_site: Span,
) -> (r: Result<Vec<OutToken>, ParseError>)
    ensures
        match r {
            Ok(out) => comprehension_output(t@, mode, collection, call_site, mixed_site, out@),
            Err(e) => spec_comprehension(t@) == Err::<Shape, Fault>(e.fault()),
        },
{
    let parsed = parse_comprehension(t)?;
    let n = t.len();
    proof {
        assert(t@.len() == n);  // the input's length fits in a `usize`
        lemma_comprehension_within(t@);
        assert forall|i: int| 0 <= i < parsed.clauses@.len() implies clause_within(
            #[trigger] parsed.clauses@[i]@,
            t@.len() as int,
        ) by {
            assert(clauses_view(parsed.clauses@)[i] == parsed.clauses@[i]@);
        }
    }
    let spans = span_table(t, &parsed.clauses, call_site);
    proof {
        lemma_ready(t@, clauses_view(parsed.clauses@), spans_view(spans@), call_site);
    }
    let mapping = fragment(parsed.mapping);
    let chain = expand(&parsed.clauses, &spans, mapping, mode, call_site, mixed_site);
    let out = match collection {
        None => chain,
        Some(c) => collect_into(c, chain, call_site),
    };
    proof {
        let shape = parsed@;
        let sv = spans_view(spans@);
        assert(spans_fit(t@, shape.clauses, sv, call_site));
        assert(out@ == comprehension_text(shape, sv, mode, collection, call_site, mixed_site));
    }
    Ok(out)
}

/// Reads the map comprehension in `t` and writes its chain of `(KEY, VALUE)`
/// pairs, collected into a `HashMap`.
///
/// The result is `Ok` exactly when the grammar accepts `t`; an error is the
/// one the grammar states.  The output is [`map_comprehension_text`] for
/// spans as `syn` gives them.
pub fn expand_map_comprehension(t: &Vec<TokenTree>, call_site: Span, mixed_site: Span) -> (r: Result<
    Vec<OutToken>,
    ParseError,
>)
    ensures
        match r {
            Ok(out) => map_comprehension_output(t@, call_site, mixed_site, out@),
            Err(e) => spec_map_comprehension(t@) == Err::<MapShape, Fault>(e.fault()),
        },
{
    let parsed = parse_map_comprehension(t)?;
    let n = t.len();
    proof {
        assert(t@.len() == n);  // the input's length fits in a `usize`
        lemma_map_comprehension_within(t@);
        assert forall|i: int| 0 <= i < parsed.clauses@.len() implies clause_within(
            #[trigger] parsed.clauses@[i]@,
            t@.len() as int,
        ) by {
            assert(clauses_view(parsed.clauses@)[i] == parsed.clauses@[i]@);
        }
    }
    let spans = span_table(t, &parsed.clauses, call_site);
    proof {
        lemma_ready(t@, clauses_view(parsed.clauses@), spans_view(spans@), call_site);
    }
    let mapping = pair(parsed.key, parsed.value, call_site);
    let chain = expand(&parsed.clauses, &spans, mapping, Mode::Sequential, call_site, mixed_site);
    let out = collect_into(Collection::ToHashMap, chain, call_site);
    proof {
        let shape = parsed@;
        let sv = spans_view(spans@);
        assert(spans_fit(t@, shape.clauses, sv, call_site));
        assert(out@ == map_comprehension_text(shape, sv, call_site, mixed_site));
    }
    Ok(out)
}


/// The message of a missing keyword or punctuation, as `syn` words it: a
/// keyword missing at the end of the input reads "unexpected end of input,
/// expected `..`"; punctuation reads "expected `..`" wherever it is missing.
pub open spec fn expected_message(what: Expected, at_end: bool) -> &'static str {
    match what {
        Expected::For => if at_end {
            "unexpected end of input, expected `for`"
        } else {
            "expected `for`"
        },
        Expected::In => if at_end {
            "unexpected end of input, expected `in`"
        } else {
            "expected `in`"
        },
        Expected::If => if at_end {
            "unexpected end of input, expected `if`"
        } else {
            "expected `if`"
        },
        Expected::Eq => "expected `=`",
        Expected::FatArrow => "expected `=>`",
    }
}

/// The message of a missing keyword or punctuation.
pub fn message_of(what: Expected, at_end: bool) -> (m: &'static str)
    ensures
        m == expected_message(what, at_end),
{
    match what {
        Expected::For => if at_end {
            "unexpected end of input, expected `for`"
        } else {
            "expected `for`"
        },
        Expected::In => if at_end {
            "unexpected end of input, expected `in`"
        } else {
            "expected `in`"
        },
        Expected::If => if at_end {
            "unexpected end of input, expected `if`"
        } else {
            "expected `if`"
        },
        Expected::Eq => "expected `=`",
        Expected::FatArrow => "expected `=>`",
    }
}

/// How a refused comprehension is answered.
#[derive(Debug)]
pub enum Refusal {
    /// `syn` could not read an expression or a pattern: its own error, and
    /// that error's message.
    Syn(syn::Error, String),
    /// A token is missing or unexpected: the message, and the span to report
    /// it at.
    At(Span, &'static str),
}

/// `r` answers the fault `f` of the comprehension's trees `t` as `syn` words
/// and places it: `syn`'s own error, with the message `syn` words from the
/// fragment's trees, where it could not read an expression or pattern; else the message of [`expected_message`] or "unexpected token" at
/// the span of the tree where the comprehension went wrong (the opening
/// delimiter of a group for a missing token), or at the call site at the end
/// of the input.
pub open spec fn refusal(t: Seq<TokenTree>, f: Fault, call_site: Span, r: Refusal) -> bool {
    match f {
        Fault::Syntax(_, _, m) => r matches Refusal::Syn(_, message) && message@ == m,
        Fault::Expected(what, at) => r matches Refusal::At(span, message) && message@ == expected_message(
            what,
            at >= t.len(),
        )@ && span == if at >= t.len() {
            call_site
        } else {
            tree_error_span(t[at])
        },
        Fault::Unexpected(at) => r matches Refusal::At(span, message) && message@ == "unexpected token"@
            && span == if at < t.len() {
            tree_span(t[at])
        } else {
            call_site
        },
    }
}

/// The answer to a refused comprehension.
fn to_refusal(e: ParseError, t: &Vec<TokenTree>, call_site: Span) -> (r: Refusal)
    ensures
        refusal(t@, e.fault(), call_site, r),
{
    match e {
        ParseError::Syntax { error, message, .. } => Refusal::Syn(error, message),
        ParseError::Expected { what, at } => {
            if at >= t.len() {
                Refusal::At(call_site, message_of(what, true))
            } else {
                Refusal::At(error_span_of_tree(&t[at]), message_of(what, false))
            }
        },
        ParseError::UnexpectedToken { at } => {
            if at < t.len() {
                Refusal::At(span_of_tree(&t[at]), "unexpected token")
            } else {
                Refusal::At(call_site, "unexpected token")
            }
        },
    }
}

/// Reads the trees of `input` as a comprehension and writes the stream of
/// `expand_comprehension`, or the [`refusal`] of the grammar's fault.
fn run(input: TokenStream, mode: Mode, collection: Option<Collection>) -> (r: Result<
    TokenStream,
    Refusal,
>)
    ensures
        r is Ok <==> spec_comprehension(trees_of(input)) is Ok,
        r matches Ok(s) ==> exists|cs: Span, ms: Span, out: Seq<OutToken>|
            #[trigger] comprehension_output(trees_of(input), mode, collection, cs, ms, out)
                && stream_of(out, trees_of(input), s),
        r matches Err(e) ==> exists|cs: Span|
            #[trigger] refusal(trees_of(input), spec_comprehension(trees_of(input))->Err_0, cs, e),
{
    let t = stream_trees(input);
    let cs = call_site();
    let ms = mixed_site();
    match expand_comprehension(&t, mode, collection, cs, ms) {
        Ok(out) => {
            proof {
                let shape = spec_comprehension(t@)->Ok_0;
                let spans = choose|spans: Seq<(Span, Seq<Span>)>|
                    #[trigger] spans_fit(t@, shape.clauses, spans, cs) && out@ == comprehension_text(
                        shape,
                        spans,
                        mode,
                        collection,
                        cs,
                        ms,
                    );
                law_output_balanced(shape, spans, mode, collection, cs, ms);
                law_output_positions_and_hygiene(t@, spans, mode, collection, cs, ms);
                assert forall|k: int| 0 <= k < out@.len() implies (#[trigger] out@[k] matches OutToken::Src(
                    i,
                ) ==> i < t@.len()) by {
                    assert(out@[k] == out@[k]);
                }
            }
            let s = build_stream(&t, &out);
            proof {
                assert(comprehension_output(t@, mode, collection, cs, ms, out@));
            }
            Ok(s)
        },
        Err(e) => {
            let err = to_refusal(e, &t, cs);
            proof {
                assert(refusal(t@, spec_comprehension(t@)->Err_0, cs, err));
            }
            Err(err)
        },
    }
}

/// `comp!`: the comprehension as an iterator.
///
/// `Ok` exactly when the grammar accepts the input's trees; then the stream
/// is that of the comprehension's chain, for the spans that the compiler and
/// `syn` give.  Otherwise it is refused as [`refusal`] states for the
/// grammar's fault.
pub fn comp(input: TokenStream) -> (r: Result<TokenStream, Refusal>)
    ensures
        r is Ok <==> spec_comprehension(trees_of(input)) is Ok,
        r matches Ok(s) ==> exists|cs: Span, ms: Span, out: Seq<OutToken>|
            #[trigger] comprehension_output(trees_of(input), Mode::Sequential, None, cs, ms, out)
                && stream_of(out, trees_of(input), s),
        r matches Err(e) ==> exists|cs: Span|
            #[trigger] refusal(trees_of(input), spec_comprehension(trees_of(input))->Err_0, cs, e),
{
    run(input, Mode::Sequential, None)
}

/// `vec_comp!`: the comprehension collected into a `Vec`.
///
/// `Ok` exactly when the grammar accepts the input's trees; then the stream
/// is that of the chain collected into a `Vec`.  Otherwise it is refused
/// as [`refusal`] states for the grammar's fault.
pub fn vec_comp(input: TokenStream) -> (r: Result<TokenStream, Refusal>)
    ensures
        r is Ok <==> spec_comprehension(trees_of(input)) is Ok,
        r matches Ok(s) ==> exists|cs: Span, ms: Span, out: Seq<OutToken>|
            #[trigger] comprehension_output(
                trees_of(input),
                Mode::Sequential,
                Some(Collection::ToVec),
                cs,
                ms,
                out,
            ) && stream_of(out, trees_of(input), s),
        r matches Err(e) ==> exists|cs: Span|
            #[trigger] refusal(trees_of(input), spec_comprehension(trees_of(input))->Err_0, cs, e),
{
    run(input, Mode::Sequential, Some(Collection::ToVec))
}

/// `set_comp!`: the comprehension collected into a `HashSet`.
///
/// `Ok` exactly when the grammar accepts the input's trees; then the stream
/// is that of the chain collected into a `HashSet`.  Otherwise it is
/// refused as [`refusal`] states for the grammar's fault.
pub fn set_comp(input: TokenStream) -> (r: Result<TokenStream, Refusal>)
    ensures
        r is Ok <==> spec_comprehension(trees_of(input)) is Ok,
        r matches Ok(s) ==> exists|cs: Span, ms: Span, out: Seq<OutToken>|
            #[trigger] comprehension_output(
                trees_of(input),
                Mode::Sequential,
                Some(Collection::ToHashSet),
                cs,
                ms,
                out,
            ) && stream_of(out, trees_of(input), s),
        r matches Err(e) ==> exists|cs: Span|
            #[trigger] refusal(trees_of(input), spec_comprehension(trees_of(input))->Err_0, cs, e),
{
    run(input, Mode::Sequential, Some(Collection::ToHashSet))
}

/// `par_comp!`: the comprehension as a `rayon` parallel iterator.
///
/// `Ok` exactly when the grammar accepts the input's trees; then the stream
/// is that of the chain started with `into_par_iter`.  Otherwise it is
/// refused as [`refusal`] states for the grammar's fault.
pub fn par_comp(input: TokenStream) -> (r: Result<TokenStream, Refusal>)
    ensures
        r is Ok <==> spec_comprehension(trees_of(input)) is Ok,
        r matches Ok(s) ==> exists|cs: Span, ms: Span, out: Seq<OutToken>|
            #[trigger] comprehension_output(trees_of(input), Mode::Parallel, None, cs, ms, out)
                && stream_of(out, trees_of(input), s),
        r matches Err(e) ==> exists|cs: Span|
            #[trigger] refusal(trees_of(input), spec_comprehension(trees_of(input))->Err_0, cs, e),
{
    run(input, Mode::Parallel, None)
}

/// `map_comp!`: the `KEY => VALUE` comprehension collected into a `HashMap`.
///
/// `Ok` exactly when the grammar accepts the input's trees; then the stream
/// is that of the chain of pairs collected into a `HashMap`.  Otherwise it
/// is refused as [`refusal`] states for the grammar's fault.
pub fn map_comp(input: TokenStream) -> (r: Result<TokenStream, Refusal>)
    ensures
        r is Ok <==> spec_map_comprehension(trees_of(input)) is Ok,
        r matches Ok(s) ==> exists|cs: Span, ms: Span, out: Seq<OutToken>|
            #[trigger] map_comprehension_output(trees_of(input), cs, ms, out)
                && stream_of(out, trees_of(input), s),
        r matches Err(e) ==> exists|cs: Span|
            #[trigger] refusal(trees_of(input), spec_map_comprehension(trees_of(input))->Err_0, cs, e),
{
    let t = stream_trees(input);
    let cs = call_site();
    let ms = mixed_site();
    match expand_map_comprehension(&t, cs, ms) {
        Ok(out) => {
            proof {
                let shape = spec_map_comprehension(t@)->Ok_0;
                let spans = choose|spans: Seq<(Span, Seq<Span>)>|
                    #[trigger] spans_fit(t@, shape.clauses, spans, cs) && out@
                        == map_comprehension_text(shape, spans, cs, ms);
                law_map_output_balanced(shape, spans, cs, ms);
                law_map_output_positions_and_hygiene(t@, spans, cs, ms);
                assert forall|k: int| 0 <= k < out@.len() implies (#[trigger] out@[k] matches OutToken::Src(
                    i,
                ) ==> i < t@.len()) by {
                    assert(out@[k] == out@[k]);
                }
            }
            let s = build_stream(&t, &out);
            proof {
                assert(map_comprehension_output(t@, cs, ms, out@));
            }
            Ok(s)
        },
        Err(e) => {
            let err = to_refusal(e, &t, cs);
            proof {
                assert(refusal(t@, spec_map_comprehension(t@)->Err_0, cs, err));
            }
            Err(err)
        },
    }
}

} // verus!
