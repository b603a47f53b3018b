use list_comp::comp;
use proc_macro2::TokenStream;

fn parse_tokens(text: &str) -> TokenStream {
    text.parse().unwrap()
}

/// The text of a stream with all white space taken out.
fn without_space(text: &str) -> String {
    text.chars().filter(|c| !c.is_whitespace()).collect()
}

/// The expansion of `input` is, token for token, the code in `expected`.
fn expands_to(input: &str, expected: &str) {
    let out = comp(parse_tokens(input)).unwrap();
    assert_eq!(
        without_space(&out.to_string()),
        without_space(&parse_tokens(expected).to_string())
    );
}

#[test]
fn test_simple_comprehension() {
    expands_to(
        "x * 2 for x in 1..4",
        "{ let __seq = 1..4; ::core::iter::IntoIterator::into_iter(__seq).map(move |x| x * 2) }",
    );
    let result: Vec<_> = {
        let __seq = 1..4;
        ::core::iter::IntoIterator::into_iter(__seq).map(move |x| x * 2)
    }
    .collect();
    assert_eq!(result, vec![2, 4, 6]);
}

#[test]
fn test_boolean_filter() {
    expands_to(
        "x for x in 0..10 if x % 2 == 0",
        "{ let __seq = 0..10; ::core::iter::IntoIterator::into_iter(__seq).filter_map(move |x| { \
         if x % 2 == 0 { ::core::option::Option::Some(x) } \
         else { ::core::option::Option::None } }) }",
    );
    let result: Vec<_> = {
        let __seq = 0..10;
        ::core::iter::IntoIterator::into_iter(__seq).filter_map(move |x| {
            if x % 2 == 0 {
                ::core::option::Option::Some(x)
            } else {
                ::core::option::Option::None
            }
        })
    }
    .collect();
    assert_eq!(result, vec![0, 2, 4, 6, 8]);
}

#[test]
fn test_nested_loops() {
    expands_to(
        "(x, y) for x in 0..2 for y in 0..2",
        "{ let __seq = 0..2; ::core::iter::IntoIterator::into_iter(__seq).flat_map(move |x| \
         { let __seq = 0..2; ::core::iter::IntoIterator::into_iter(__seq).map(move |y| (x, y)) }) }",
    );
    let result: Vec<_> = {
        let __seq = 0..2;
        ::core::iter::IntoIterator::into_iter(__seq).flat_map(move |x| {
            let __seq = 0..2;
            ::core::iter::IntoIterator::into_iter(__seq).map(move |y| (x, y))
        })
    }
    .collect();
    assert_eq!(result, vec![(0, 0), (0, 1), (1, 0), (1, 1)]);
}

#[test]
fn test_if_let_filter() {
    expands_to(
        "v for x in data if let Some(v) = x",
        "{ let __seq = data; ::core::iter::IntoIterator::into_iter(__seq).filter_map(move |x| { \
         if let Some(v) = x { ::core::option::Option::Some(v) } \
         else { ::core::option::Option::None } }) }",
    );
    let data = vec![Some(1), None, Some(3), None];
    let result: Vec<_> = {
        let __seq = data;
        ::core::iter::IntoIterator::into_iter(__seq).filter_map(move |x| {
            if let Some(v) = x {
                ::core::option::Option::Some(v)
            } else {
                ::core::option::Option::None
            }
        })
    }
    .collect();
    assert_eq!(result, vec![1, 3]);
}

#[test]
fn test_multiple_filters() {
    expands_to(
        "x for x in 0..20 if x % 2 == 0 if x % 3 == 0",
        "{ let __seq = 0..20; ::core::iter::IntoIterator::into_iter(__seq).filter_map(move |x| { \
         if x % 2 == 0 { if x % 3 == 0 { ::core::option::Option::Some(x) } \
         else { ::core::option::Option::None } } else { ::core::option::Option::None } }) }",
    );
    let result: Vec<_> = {
        let __seq = 0..20;
        ::core::iter::IntoIterator::into_iter(__seq).filter_map(move |x| {
            if x % 2 == 0 {
                if x % 3 == 0 {
                    ::core::option::Option::Some(x)
                } else {
                    ::core::option::Option::None
                }
            } else {
                ::core::option::Option::None
            }
        })
    }
    .collect();
    assert_eq!(result, vec![0, 6, 12, 18]);
}

#[test]
fn test_destructuring_patterns() {
    expands_to(
        "a + b for (a, b) in pairs",
        "{ let __seq = pairs; ::core::iter::IntoIterator::into_iter(__seq).map(move |(a, b)| a + b) }",
    );
    let pairs = vec![(1, 10), (2, 20), (3, 30)];
    let result: Vec<_> = {
        let __seq = pairs;
        ::core::iter::IntoIterator::into_iter(__seq).map(move |(a, b)| a + b)
    }
    .collect();
    assert_eq!(result, vec![11, 22, 33]);
}

#[test]
fn test_complex_nesting_with_filters() {
    expands_to(
        "val * 10 for row in matrix for val in row if val % 2 == 0",
        "{ let __seq = matrix; ::core::iter::IntoIterator::into_iter(__seq).flat_map(move |row| \
         { let __seq = row; ::core::iter::IntoIterator::into_iter(__seq).filter_map(move |val| { \
         if val % 2 == 0 { ::core::option::Option::Some(val * 10) } \
         else { ::core::option::Option::None } }) }) }",
    );
    let matrix = vec![vec![1, 2], vec![3, 4]];
    let result: Vec<_> = {
        let __seq = matrix;
        ::core::iter::IntoIterator::into_iter(__seq).flat_map(move |row| {
            let __seq = row;
            ::core::iter::IntoIterator::into_iter(__seq).filter_map(move |val| {
                if val % 2 == 0 {
                    ::core::option::Option::Some(val * 10)
                } else {
                    ::core::option::Option::None
                }
            })
        })
    }
    .collect();
    assert_eq!(result, vec![20, 40]);
}
