use list_comp::expand::Mode;
use list_comp::grammar::{
    parse_comprehension, parse_map_comprehension, Condition, Expected, ParseError,
};
use list_comp::macros::{expand_comprehension, expand_map_comprehension, Collection, Refusal};
use list_comp::tokens::{OutToken, Range, Word};
use list_comp::{comp, map_comp, par_comp, set_comp, vec_comp};
use proc_macro2::{Span, TokenStream, TokenTree};

fn trees(text: &str) -> Vec<TokenTree> {
    text.parse::<TokenStream>().unwrap().into_iter().collect()
}

fn stream(text: &str) -> TokenStream {
    text.parse().unwrap()
}

fn range(start: usize, end: usize) -> Range {
    Range { start, end }
}

fn no_space(text: &str) -> String {
    text.chars().filter(|c| !c.is_whitespace()).collect()
}

fn message(r: Result<TokenStream, Refusal>) -> String {
    match r {
        Ok(_) => panic!("the comprehension was accepted"),
        Err(Refusal::Syn(e, m)) => {
            assert_eq!(e.to_string(), m);
            m
        }
        Err(Refusal::At(_, m)) => m.to_string(),
    }
}

#[test]
fn readme_diagnostic_missing_for() {
    assert_eq!(message(comp(stream("42"))), "unexpected end of input, expected `for`");
}

#[test]
fn readme_diagnostic_missing_in() {
    assert_eq!(message(comp(stream("x for x 0..3"))), "expected `in`");
}

#[test]
fn readme_diagnostic_unexpected_token() {
    assert_eq!(message(comp(stream("x for x in 0..3 blob"))), "unexpected token");
}

#[test]
fn readme_diagnostic_missing_fat_arrow() {
    assert_eq!(message(map_comp(stream("k v for k in 0..3"))), "expected `=>`");
}

#[test]
fn syntax_errors_are_syn_s_own() {
    assert!(matches!(comp(stream("x for x in")), Err(Refusal::Syn(..))));
    assert!(matches!(comp(stream("x for in xs")), Err(Refusal::Syn(..))));
    assert!(matches!(comp(stream("x for x 0..3")), Err(Refusal::At(_, "expected `in`"))));
}

#[test]
fn missing_eq_in_if_let() {
    assert_eq!(message(comp(stream("y for x in xs if let Some(y) y"))), "expected `=`");
}

#[test]
fn every_macro_reads_the_same_grammar() {
    for bad in ["42", "x for x 0..3", "x for x in 0..3 blob", "x for in xs"] {
        assert!(comp(stream(bad)).is_err());
        assert!(vec_comp(stream(bad)).is_err());
        assert!(set_comp(stream(bad)).is_err());
        assert!(par_comp(stream(bad)).is_err());
    }
    for good in ["x for x in xs", "(x, y) for x in a if x > 0 for y in b if let Some(z) = y"] {
        assert!(comp(stream(good)).is_ok());
        assert!(vec_comp(stream(good)).is_ok());
        assert!(set_comp(stream(good)).is_ok());
        assert!(par_comp(stream(good)).is_ok());
    }
}

#[test]
fn positions_of_every_fragment() {
    // n * 10 for x in data if let Some ( n ) = x if n ! = 2
    // 0 1 2  3   4 5  6    7  8   9    10     11 12 13 14 15 16 17
    let t = trees("n * 10 for x in data if let Some(n) = x if n != 2");
    assert_eq!(t.len(), 18);
    let c = parse_comprehension(&t).unwrap();
    assert_eq!(c.mapping, range(0, 3));
    assert_eq!(c.clauses.len(), 1);
    assert_eq!(c.clauses[0].pattern, range(4, 5));
    assert_eq!(c.clauses[0].sequence, range(6, 7));
    assert_eq!(
        c.clauses[0].conditions,
        vec![
            Condition::Match { pat: range(9, 11), expr: range(12, 13) },
            Condition::Test { expr: range(14, 18) },
        ]
    );
}

#[test]
fn positions_of_nested_clauses() {
    // ( x , y ) for x in 0 . . 2 for y in a if y > x
    // 0         1   2 3  4 5 6 7 8   9 10 11 12 13 14 15
    let t = trees("(x, y) for x in 0..2 for y in a if y > x");
    let c = parse_comprehension(&t).unwrap();
    assert_eq!(c.mapping, range(0, 1));
    assert_eq!(c.clauses.len(), 2);
    assert_eq!(c.clauses[0].pattern, range(2, 3));
    assert_eq!(c.clauses[0].sequence, range(4, 8));
    assert!(c.clauses[0].conditions.is_empty());
    assert_eq!(c.clauses[1].pattern, range(9, 10));
    assert_eq!(c.clauses[1].sequence, range(11, 12));
    assert_eq!(c.clauses[1].conditions, vec![Condition::Test { expr: range(13, 16) }]);
}

#[test]
fn positions_of_a_map_comprehension() {
    // x = > x * x for x in 1 . . = 4
    // 0 1 2 3 4 5 6   7 8  9 10 11 12 13
    let t = trees("x => x * x for x in 1..=4");
    let c = parse_map_comprehension(&t).unwrap();
    assert_eq!(c.key, range(0, 1));
    assert_eq!(c.value, range(3, 6));
    assert_eq!(c.clauses[0].pattern, range(7, 8));
    assert_eq!(c.clauses[0].sequence, range(9, 14));
}

#[test]
fn error_expected_for_at_end() {
    match parse_comprehension(&trees("42")) {
        Err(ParseError::Expected { what: Expected::For, at: 1 }) => {}
        other => panic!("unexpected result {:?}", other),
    }
}

#[test]
fn raw_identifier_is_not_the_keyword() {
    match parse_comprehension(&trees("x r#for x in y")) {
        Err(ParseError::Expected { what: Expected::For, at: 1 }) => {}
        other => panic!("unexpected result {:?}", other),
    }
}

#[test]
fn error_expected_in() {
    match parse_comprehension(&trees("x for x 0..3")) {
        Err(ParseError::Expected { what: Expected::In, at: 3 }) => {}
        other => panic!("unexpected result {:?}", other),
    }
}

#[test]
fn separated_eq_and_gt_are_an_assignment_for_syn() {
    match parse_map_comprehension(&trees("k = > v for k in 0..3")) {
        Err(ParseError::Syntax { at: 0, .. }) => {}
        other => panic!("unexpected result {:?}", other),
    }
}

#[test]
fn error_expected_eq() {
    match parse_comprehension(&trees("y for x in xs if let Some(y) y")) {
        Err(ParseError::Expected { what: Expected::Eq, at: 9 }) => {}
        other => panic!("unexpected result {:?}", other),
    }
}

#[test]
fn error_expected_fat_arrow() {
    match parse_map_comprehension(&trees("k v for k in 0..3")) {
        Err(ParseError::Expected { what: Expected::FatArrow, at: 1 }) => {}
        other => panic!("unexpected result {:?}", other),
    }
}

#[test]
fn fat_arrow_is_not_other_punctuation() {
    match parse_map_comprehension(&trees("k ; v for k in 0..3")) {
        Err(ParseError::Expected { what: Expected::FatArrow, at: 1 }) => {}
        other => panic!("unexpected result {:?}", other),
    }
}

#[test]
fn error_unexpected_token() {
    // x for x in 0 . . 3 blob
    // 0 1   2 3  4 5 6 7 8
    match parse_comprehension(&trees("x for x in 0..3 blob")) {
        Err(ParseError::UnexpectedToken { at: 8 }) => {}
        other => panic!("unexpected result {:?}", other),
    }
}

#[test]
fn error_syntax_in_pattern() {
    match parse_comprehension(&trees("x for in xs")) {
        Err(ParseError::Syntax { at: 2, .. }) => {}
        other => panic!("unexpected result {:?}", other),
    }
}

#[test]
fn error_syntax_in_expression() {
    match parse_comprehension(&trees("x for x in")) {
        Err(ParseError::Syntax { at: 4, .. }) => {}
        other => panic!("unexpected result {:?}", other),
    }
}

#[test]
fn eq_of_a_double_eq_is_taken_then_the_expression_fails() {
    match parse_comprehension(&trees("y for x in xs if let y == x")) {
        Err(ParseError::Syntax { at: 9, .. }) => {}
        other => panic!("unexpected result {:?}", other),
    }
}

#[test]
fn expression_ends_where_syn_ends_it() {
    // an `if` expression as the mapping is one expression
    let t = trees("if x { 1 } else { 2 } for x in xs");
    let c = parse_comprehension(&t).unwrap();
    assert_eq!(c.mapping, range(0, 5));
    assert_eq!(c.clauses[0].pattern, range(6, 7));
}

/// The nesting depth after `out`, or `None` when a `Close` closes nothing.
fn depth(out: &[OutToken]) -> Option<usize> {
    let mut d: usize = 0;
    for t in out {
        match t {
            OutToken::Open(..) => d += 1,
            OutToken::Close => d = d.checked_sub(1)?,
            _ => {}
        }
    }
    Some(d)
}

#[test]
fn output_is_balanced_names_only_input_positions_and_hides_seq() {
    let t = trees("(x, v) for x in a if let Some(v) = x for y in v if y > 0");
    let cs = Span::call_site();
    let ms = Span::mixed_site();
    for (mode, collection) in [
        (Mode::Sequential, None),
        (Mode::Parallel, None),
        (Mode::Sequential, Some(Collection::ToVec)),
        (Mode::Sequential, Some(Collection::ToHashSet)),
    ] {
        let out = expand_comprehension(&t, mode, collection, cs, ms).unwrap();
        assert_eq!(depth(&out), Some(0));
        let mut seq_bindings = 0;
        for tok in &out {
            match tok {
                OutToken::Src(i) => assert!(*i < t.len()),
                OutToken::Ident(Word::SeqBinding, _) => seq_bindings += 1,
                _ => {}
            }
        }
        // two clauses, each binding `__seq` and passing it on
        assert_eq!(seq_bindings, 4);
    }
    let m = trees("k => v for (k, v) in pairs if k > 0");
    let out = expand_map_comprehension(&m, cs, ms).unwrap();
    assert_eq!(depth(&out), Some(0));
}

#[test]
fn parallel_chain_differs_only_where_it_starts() {
    let input = "(x, y) for x in a if x > 0 for y in b if let Some(z) = y";
    let sequential = comp(stream(input)).unwrap().to_string();
    let parallel = par_comp(stream(input)).unwrap().to_string();
    let retargeted = no_space(&sequential).replace(
        "::core::iter::IntoIterator::into_iter",
        "::rayon::iter::IntoParallelIterator::into_par_iter",
    );
    assert_eq!(no_space(&parallel), retargeted);
}

#[test]
fn collections_collect_the_chain() {
    let input = "x % 3 for x in 0..10 if x > 2";
    let chain = no_space(&comp(stream(input)).unwrap().to_string());
    assert_eq!(
        no_space(&vec_comp(stream(input)).unwrap().to_string()),
        format!("::core::iter::Iterator::collect::<::std::vec::Vec<_>>({})", chain)
    );
    assert_eq!(
        no_space(&set_comp(stream(input)).unwrap().to_string()),
        format!("::core::iter::Iterator::collect::<::std::collections::HashSet<_>>({})", chain)
    );
}

#[test]
fn readme_set_of_remainders() {
    let out = set_comp(stream("x % 3 for x in 0..10")).unwrap();
    assert_eq!(
        no_space(&out.to_string()),
        no_space(
            "::core::iter::Iterator::collect::<::std::collections::HashSet<_>>({ let __seq = 0..10; \
             ::core::iter::IntoIterator::into_iter(__seq).map(move |x| x % 3) })"
        )
    );
    let s: std::collections::HashSet<i32> =
        ::core::iter::Iterator::collect::<::std::collections::HashSet<_>>({
            let __seq = 0..10;
            ::core::iter::IntoIterator::into_iter(__seq).map(move |x| x % 3)
        });
    assert_eq!(s, [0, 1, 2].into_iter().collect());
}

#[test]
fn expansion_keeps_the_input_tokens() {
    let out = comp(stream("a + b for (a, b) in pairs")).unwrap();
    let text = out.to_string();
    assert!(text.contains("pairs"));
    assert!(text.contains("(a , b)") || text.contains("(a, b)"));
    assert!(text.contains("a + b"));
}

#[test]
fn syn_error_of_an_expression_is_passed_on() {
    let expected = match syn::parse2::<syn::Expr>(TokenStream::new()) {
        Ok(_) => panic!("an empty expression was read"),
        Err(e) => e.to_string(),
    };
    assert_eq!(message(comp(stream("x for x in"))), expected);
}

#[test]
fn syn_error_of_a_pattern_is_passed_on() {
    let expected = match syn::parse::Parser::parse2(syn::Pat::parse_single, stream("in xs")) {
        Ok(_) => panic!("`in` was read as a pattern"),
        Err(e) => e.to_string(),
    };
    assert_eq!(message(comp(stream("x for in xs"))), expected);
}

#[test]
fn each_fragment_is_written_once_and_keywords_never() {
    // n * 10 for x in data if let Some ( n ) = x if n ! = 2
    // 0 1 2  3   4 5  6    7  8   9    10     11 12 13 14 15 16 17
    let t = trees("n * 10 for x in data if let Some(n) = x if n != 2");
    let keywords = [3, 5, 7, 8, 11, 13];
    for collection in [None, Some(Collection::ToVec)] {
        let out =
            expand_comprehension(&t, Mode::Sequential, collection, Span::call_site(), Span::mixed_site())
                .unwrap();
        for i in 0..t.len() {
            let count = out.iter().filter(|tok| matches!(tok, OutToken::Src(j) if *j == i)).count();
            let expected = if keywords.contains(&i) { 0 } else { 1 };
            assert_eq!(count, expected, "position {}", i);
        }
    }
}

#[test]
fn map_fragments_are_written_once() {
    // k = > v for ( k , v ) in pairs if k > 0
    // 0 1 2 3 4   5         6  7     8  9 10 11
    let t = trees("k => v for (k, v) in pairs if k > 0");
    let out = expand_map_comprehension(&t, Span::call_site(), Span::mixed_site()).unwrap();
    for i in 0..t.len() {
        let count = out.iter().filter(|tok| matches!(tok, OutToken::Src(j) if *j == i)).count();
        let expected = if [1, 2, 4, 6, 8].contains(&i) { 0 } else { 1 };
        assert_eq!(count, expected, "position {}", i);
    }
}

#[test]
fn groups_of_the_output_are_nested_trees() {
    let out: Vec<TokenTree> = comp(stream("x for x in xs")).unwrap().into_iter().collect();
    assert_eq!(out.len(), 1);
    match &out[0] {
        TokenTree::Group(g) => {
            assert_eq!(g.delimiter(), proc_macro2::Delimiter::Brace);
            let inner: Vec<TokenTree> = g.stream().into_iter().collect();
            // let __seq = xs ; :: core :: iter :: IntoIterator :: into_iter ( __seq ) . map ( .. )
            assert_eq!(inner.len(), 21);
            assert!(matches!(&inner[inner.len() - 1], TokenTree::Group(p)
                if p.delimiter() == proc_macro2::Delimiter::Parenthesis));
        }
        other => panic!("expected a group, got {}", other),
    }
}

#[test]
fn the_same_input_gives_the_same_stream() {
    let input = "(x, y) for x in a if x > 0 for y in b if let Some(z) = y";
    assert_eq!(comp(stream(input)).unwrap().to_string(), comp(stream(input)).unwrap().to_string());
}

#[test]
fn successive_ifs_act_as_their_conjunction() {
    let two = comp(stream("x for x in 0..10 if x > 2 if x < 6")).unwrap();
    assert_eq!(
        no_space(&two.to_string()),
        no_space(
            "{ let __seq = 0..10; ::core::iter::IntoIterator::into_iter(__seq).filter_map(move |x| { \
             if x > 2 { if x < 6 { ::core::option::Option::Some(x) } else { ::core::option::Option::None } } \
             else { ::core::option::Option::None } }) }"
        )
    );
    let nested: Vec<i32> = {
        let __seq = 0..10;
        ::core::iter::IntoIterator::into_iter(__seq).filter_map(move |x| {
            if x > 2 {
                if x < 6 {
                    ::core::option::Option::Some(x)
                } else {
                    ::core::option::Option::None
                }
            } else {
                ::core::option::Option::None
            }
        })
    }
    .collect();
    let one: Vec<i32> = {
        let __seq = 0..10;
        ::core::iter::IntoIterator::into_iter(__seq).filter_map(move |x| {
            if (x > 2) && (x < 6) {
                ::core::option::Option::Some(x)
            } else {
                ::core::option::Option::None
            }
        })
    }
    .collect();
    assert_eq!(nested, one);
    assert_eq!(one, vec![3, 4, 5]);
}

#[test]
fn mapping_only_transforms_the_items() {
    let out = comp(stream("x * 10 for x in 0..6 if x % 2 == 0")).unwrap();
    assert_eq!(
        no_space(&out.to_string()),
        no_space(
            "{ let __seq = 0..6; ::core::iter::IntoIterator::into_iter(__seq).filter_map(move |x| { \
             if x % 2 == 0 { ::core::option::Option::Some(x * 10) } else { ::core::option::Option::None } }) }"
        )
    );
    let mapped: Vec<i32> = {
        let __seq = 0..6;
        ::core::iter::IntoIterator::into_iter(__seq).filter_map(move |x| {
            if x % 2 == 0 {
                ::core::option::Option::Some(x * 10)
            } else {
                ::core::option::Option::None
            }
        })
    }
    .collect();
    let plain: Vec<i32> = {
        let __seq = 0..6;
        ::core::iter::IntoIterator::into_iter(__seq).filter_map(move |x| {
            if x % 2 == 0 {
                ::core::option::Option::Some(x)
            } else {
                ::core::option::Option::None
            }
        })
    }
    .collect();
    assert_eq!(mapped, plain.iter().map(|v| v * 10).collect::<Vec<i32>>());
}


#[test]
fn the_four_refuse_a_malformed_input_alike() {
    for bad in ["42", "x for x 0..3", "x for x in 0..3 blob", "x for in xs", "x for x in", "y for x in xs if let y == x"] {
        let m = message(comp(stream(bad)));
        assert_eq!(message(vec_comp(stream(bad))), m, "{}", bad);
        assert_eq!(message(set_comp(stream(bad))), m, "{}", bad);
        assert_eq!(message(par_comp(stream(bad))), m, "{}", bad);
    }
}
