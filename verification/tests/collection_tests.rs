use list_comp::{map_comp, set_comp, vec_comp};
use proc_macro2::TokenStream;
use std::collections::{HashMap, HashSet};

fn tokens(text: &str) -> TokenStream {
    text.parse().unwrap()
}

/// The text of a stream with all white space taken out.
fn squash(text: &str) -> String {
    text.chars().filter(|c| !c.is_whitespace()).collect()
}

/// The expansion is, token for token, the code in `expected`.
fn same_code(out: &TokenStream, expected: &str) {
    assert_eq!(squash(&out.to_string()), squash(&tokens(expected).to_string()));
}

#[test]
fn vec_comp_basic() {
    let out = vec_comp(tokens("x * x for x in 1..=3")).unwrap();
    same_code(
        &out,
        "::core::iter::Iterator::collect::<::std::vec::Vec<_>>({ let __seq = 1..=3; \
         ::core::iter::IntoIterator::into_iter(__seq).map(move |x| x * x) })",
    );
    let v = ::core::iter::Iterator::collect::<::std::vec::Vec<_>>({
        let __seq = 1..=3;
        ::core::iter::IntoIterator::into_iter(__seq).map(move |x| x * x)
    });
    assert_eq!(v, vec![1, 4, 9]);
}

#[test]
fn vec_comp_with_filter_and_if_let() {
    let out = vec_comp(tokens("n * 10 for x in data if let Some(n) = x if n != 2")).unwrap();
    same_code(
        &out,
        "::core::iter::Iterator::collect::<::std::vec::Vec<_>>({ let __seq = data; \
         ::core::iter::IntoIterator::into_iter(__seq).filter_map(move |x| { \
         if let Some(n) = x { if n != 2 { ::core::option::Option::Some(n * 10) } \
         else { ::core::option::Option::None } } else { ::core::option::Option::None } }) })",
    );
    let data = vec![Some(1), None, Some(2), None, Some(3)];
    let v = ::core::iter::Iterator::collect::<::std::vec::Vec<_>>({
        let __seq = data;
        ::core::iter::IntoIterator::into_iter(__seq).filter_map(move |x| {
            if let Some(n) = x {
                if n != 2 {
                    ::core::option::Option::Some(n * 10)
                } else {
                    ::core::option::Option::None
                }
            } else {
                ::core::option::Option::None
            }
        })
    });
    assert_eq!(v, vec![10, 30]);
}

#[test]
fn set_comp_dedups() {
    let out = set_comp(tokens("x % 3 for x in 0..10")).unwrap();
    same_code(
        &out,
        "::core::iter::Iterator::collect::<::std::collections::HashSet<_>>({ let __seq = 0..10; \
         ::core::iter::IntoIterator::into_iter(__seq).map(move |x| x % 3) })",
    );
    let s: HashSet<i32> = ::core::iter::Iterator::collect::<::std::collections::HashSet<_>>({
        let __seq = 0..10;
        ::core::iter::IntoIterator::into_iter(__seq).map(move |x| x % 3)
    });
    let expected: HashSet<i32> = [0, 1, 2].into_iter().collect();
    assert_eq!(s, expected);
}

#[test]
fn map_comp_squares() {
    let out = map_comp(tokens("x => x * x for x in 1..=4")).unwrap();
    same_code(
        &out,
        "::core::iter::Iterator::collect::<::std::collections::HashMap<_, _>>({ let __seq = 1..=4; \
         ::core::iter::IntoIterator::into_iter(__seq).map(move |x| (x, x * x)) })",
    );
    let m: HashMap<i32, i32> =
        ::core::iter::Iterator::collect::<::std::collections::HashMap<_, _>>({
            let __seq = 1..=4;
            ::core::iter::IntoIterator::into_iter(__seq).map(move |x| (x, x * x))
        });
    assert_eq!(m.get(&1), Some(&1));
    assert_eq!(m.get(&2), Some(&4));
    assert_eq!(m.get(&3), Some(&9));
    assert_eq!(m.get(&4), Some(&16));
    assert_eq!(m.len(), 4);
}

#[test]
fn map_comp_with_filter() {
    let out = map_comp(tokens(
        "name => name.len() for name in [\"a\", \"bb\", \"ccc\"] if name.len() >= 2",
    ))
    .unwrap();
    same_code(
        &out,
        "::core::iter::Iterator::collect::<::std::collections::HashMap<_, _>>({ \
         let __seq = [\"a\", \"bb\", \"ccc\"]; \
         ::core::iter::IntoIterator::into_iter(__seq).filter_map(move |name| { \
         if name.len() >= 2 { ::core::option::Option::Some((name, name.len())) } \
         else { ::core::option::Option::None } }) })",
    );
    let m: HashMap<&'static str, usize> =
        ::core::iter::Iterator::collect::<::std::collections::HashMap<_, _>>({
            let __seq = ["a", "bb", "ccc"];
            ::core::iter::IntoIterator::into_iter(__seq).filter_map(move |name| {
                if name.len() >= 2 {
                    ::core::option::Option::Some((name, name.len()))
                } else {
                    ::core::option::Option::None
                }
            })
        });
    assert_eq!(m.len(), 2);
    assert_eq!(m.get("bb"), Some(&2));
    assert_eq!(m.get("ccc"), Some(&3));
}

// The caller's own `__seq` stays the sequence expression in the text, and the
// text runs.  The comparison drops spans, and spans cannot be compared here:
// that the binding carries the mixed-site span is stated by the contract of
// `expand_comprehension` and by `law_output_positions_and_hygiene`, not
// checked by this test.
#[test]
fn caller_can_use_seq_name() {
    let out = vec_comp(tokens("x * 2 for x in __seq")).unwrap();
    same_code(
        &out,
        "::core::iter::Iterator::collect::<::std::vec::Vec<_>>({ let __seq = __seq; \
         ::core::iter::IntoIterator::into_iter(__seq).map(move |x| x * 2) })",
    );
    let __seq = vec![1, 2, 3];
    let v = ::core::iter::Iterator::collect::<::std::vec::Vec<_>>({
        let __seq = __seq;
        ::core::iter::IntoIterator::into_iter(__seq).map(move |x| x * 2)
    });
    assert_eq!(v, vec![2, 4, 6]);
}
