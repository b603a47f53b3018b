use list_comp::par_comp;
use proc_macro2::TokenStream;
use rayon::iter::ParallelIterator;

fn stream_of(text: &str) -> TokenStream {
    text.parse().unwrap()
}

/// The text of a stream with all white space taken out.
fn bare(text: &str) -> String {
    text.chars().filter(|c| !c.is_whitespace()).collect()
}

/// The parallel expansion of `input` is, token for token, the code in `expected`.
fn par_expands_to(input: &str, expected: &str) {
    let out = par_comp(stream_of(input)).unwrap();
    assert_eq!(bare(&out.to_string()), bare(&stream_of(expected).to_string()));
}

#[test]
fn par_simple_map() {
    par_expands_to(
        "x * 2 for x in 0..1000i32",
        "{ let __seq = 0..1000i32; \
         ::rayon::iter::IntoParallelIterator::into_par_iter(__seq).map(move |x| x * 2) }",
    );
    let mut v: Vec<i32> = {
        let __seq = 0..1000i32;
        ::rayon::iter::IntoParallelIterator::into_par_iter(__seq).map(move |x| x * 2)
    }
    .collect();
    v.sort();
    let expected: Vec<i32> = (0..1000).map(|x| x * 2).collect();
    assert_eq!(v, expected);
}

#[test]
fn par_with_boolean_filter() {
    par_expands_to(
        "x as i64 for x in 0..1000i32 if x % 2 == 0",
        "{ let __seq = 0..1000i32; \
         ::rayon::iter::IntoParallelIterator::into_par_iter(__seq).filter_map(move |x| { \
         if x % 2 == 0 { ::core::option::Option::Some(x as i64) } \
         else { ::core::option::Option::None } }) }",
    );
    let sum: i64 = {
        let __seq = 0..1000i32;
        ::rayon::iter::IntoParallelIterator::into_par_iter(__seq).filter_map(move |x| {
            if x % 2 == 0 {
                ::core::option::Option::Some(x as i64)
            } else {
                ::core::option::Option::None
            }
        })
    }
    .sum();
    let expected: i64 = (0..1000i32).filter(|x| x % 2 == 0).map(|x| x as i64).sum();
    assert_eq!(sum, expected);
}

#[test]
fn par_with_if_let_binding() {
    par_expands_to(
        "v as i64 for x in data if let Some(v) = x",
        "{ let __seq = data; \
         ::rayon::iter::IntoParallelIterator::into_par_iter(__seq).filter_map(move |x| { \
         if let Some(v) = x { ::core::option::Option::Some(v as i64) } \
         else { ::core::option::Option::None } }) }",
    );
    let data: Vec<Option<i32>> = (0..100)
        .map(|x| if x % 3 == 0 { Some(x) } else { None })
        .collect();
    let sum: i64 = {
        let __seq = data;
        ::rayon::iter::IntoParallelIterator::into_par_iter(__seq).filter_map(move |x| {
            if let Some(v) = x {
                ::core::option::Option::Some(v as i64)
            } else {
                ::core::option::Option::None
            }
        })
    }
    .sum();
    let expected: i64 = (0..100i32).filter(|x| x % 3 == 0).map(|x| x as i64).sum();
    assert_eq!(sum, expected);
}

#[test]
fn par_nested_loops() {
    par_expands_to(
        "(x, y) for x in 0..10i32 for y in 0..10i32 if (x + y) % 2 == 0",
        "{ let __seq = 0..10i32; \
         ::rayon::iter::IntoParallelIterator::into_par_iter(__seq).flat_map(move |x| { \
         let __seq = 0..10i32; \
         ::rayon::iter::IntoParallelIterator::into_par_iter(__seq).filter_map(move |y| { \
         if (x + y) % 2 == 0 { ::core::option::Option::Some((x, y)) } \
         else { ::core::option::Option::None } }) }) }",
    );
    let count = {
        let __seq = 0..10i32;
        ::rayon::iter::IntoParallelIterator::into_par_iter(__seq).flat_map(move |x| {
            let __seq = 0..10i32;
            ::rayon::iter::IntoParallelIterator::into_par_iter(__seq).filter_map(move |y| {
                if (x + y) % 2 == 0 {
                    ::core::option::Option::Some((x, y))
                } else {
                    ::core::option::Option::None
                }
            })
        })
    }
    .count();
    assert_eq!(count, 50);
}
