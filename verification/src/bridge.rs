//! The library's contact with `proc_macro2` and `syn`.
//!
//! Every item here is trusted: Verus believes its contract, which states only
//! what the crates' sources show.  Token trees, spans, streams and `syn`'s
//! errors are opaque to Verus; what the grammar needs to know of a tree is
//! named below and reported by a wrapper.  A `syn` error value is carried
//! through, never named, since it holds the call site of the running macro
//! and the thread it was made on; its message, which `syn` derives from the
//! trees alone, is named.
use vstd::prelude::*;
use proc_macro2::{Span, TokenStream, TokenTree};
use crate::grammar::SynFailure;
use crate::tokens::{ident_text_ok, punct_char_ok, Delim};

verus! {

#[verifier::external_type_specification]
#[verifier::external_body]
pub struct ExTokenTree(proc_macro2::TokenTree);

#[verifier::external_type_specification]
#[verifier::external_body]
pub struct ExTokenStream(proc_macro2::TokenStream);

#[verifier::external_type_specification]
#[verifier::external_body]
pub struct ExSpan(proc_macro2::Span);

#[verifier::external_type_specification]
#[verifier::external_body]
pub struct ExSynError(syn::Error);

#[verifier::external_type_specification]
#[verifier::external_body]
pub struct ExParseBuffer<'a>(syn::parse::ParseBuffer<'a>);

/// The text of an identifier tree (`r#` included for a raw identifier), or
/// `None` for a tree that is not an identifier.
pub uninterp spec fn ident_name(tree: TokenTree) -> Option<Seq<char>>;

/// The character and spacing (`true` for joint) of a punctuation tree, or
/// `None` for a tree that is not punctuation.
pub uninterp spec fn punct_of(tree: TokenTree) -> Option<(char, bool)>;

/// The span of a tree.
pub uninterp spec fn tree_span(tree: TokenTree) -> Span;

/// The span at which `syn` reports an error at this tree: the span of its
/// opening delimiter for a group, its span otherwise.
pub uninterp spec fn tree_error_span(tree: TokenTree) -> Span;

/// The top-level trees of a stream, in order.
pub uninterp spec fn trees_of(stream: TokenStream) -> Seq<TokenTree>;

/// After `syn` parses one expression from the front of these trees: the
/// stream of the trees that are left; `None` when it reports an error.
pub uninterp spec fn expr_rest(trees: Seq<TokenTree>) -> Option<TokenStream>;

/// After `syn` parses one pattern (as `Pat::parse_single` does) from the front
/// of these trees: the stream of the trees that are left; `None` when it
/// reports an error.
pub uninterp spec fn pat_rest(trees: Seq<TokenTree>) -> Option<TokenStream>;

/// The message (the `Display` of the error) that `syn` reports when it cannot
/// read an expression at the front of these trees.
pub uninterp spec fn expr_error_message(trees: Seq<TokenTree>) -> Seq<char>;

/// The message (the `Display` of the error) that `syn` reports when it cannot
/// read a pattern (as `Pat::parse_single` reads it) at the front of these
/// trees.
pub uninterp spec fn pat_error_message(trees: Seq<TokenTree>) -> Seq<char>;

/// The identifier tree that `Ident::new` makes of this text at this span.
pub uninterp spec fn made_ident(text: Seq<char>, span: Span) -> TokenTree;

/// The punctuation tree that `Punct::new` makes of this character and
/// spacing (`true` for joint), at this span.
pub uninterp spec fn made_punct(ch: char, joint: bool, span: Span) -> TokenTree;

/// The group tree that `Group::new` makes of this delimiter and these trees,
/// at this span.
pub uninterp spec fn made_group(delim: Delim, trees: Seq<TokenTree>, span: Span) -> TokenTree;

/// The stream of these trees.
pub uninterp spec fn made_stream(trees: Seq<TokenTree>) -> TokenStream;

/// `TokenTree::Ident`'s `to_string`: the identifier's text, or `None` for
/// another kind of tree.
#[verifier::external_body]
pub(crate) fn ident_text(tree: &TokenTree) -> (r: Option<String>)
    ensures
        r is Some <==> ident_name(*tree) is Some,
        r matches Some(s) ==> ident_name(*tree) == Some(s@),
{
    match tree {
        TokenTree::Ident(ident) => Some(ident.to_string()),
        TokenTree::Punct(_) => None,
        TokenTree::Literal(_) => None,
        TokenTree::Group(_) => None,
    }
}

/// `Punct::as_char` and `Punct::spacing` of a punctuation tree (`true` for
/// `Spacing::Joint`), or `None` for another kind of tree.
#[verifier::external_body]
pub(crate) fn punct_info(tree: &TokenTree) -> (r: Option<(char, bool)>)
    ensures
        r == punct_of(*tree),
{
    match tree {
        TokenTree::Punct(p) => Some(
            (
                p.as_char(),
                match p.spacing() {
                    proc_macro2::Spacing::Joint => true,
                    proc_macro2::Spacing::Alone => false,
                },
            ),
        ),
        TokenTree::Ident(_) => None,
        TokenTree::Literal(_) => None,
        TokenTree::Group(_) => None,
    }
}

/// `TokenTree::span`.
#[verifier::external_body]
pub(crate) fn span_of_tree(tree: &TokenTree) -> (r: Span)
    ensures
        r == tree_span(*tree),
{
    tree.span()
}

/// `Group::span_open` for a group, `TokenTree::span` for another tree.
#[verifier::external_body]
pub(crate) fn error_span_of_tree(tree: &TokenTree) -> (r: Span)
    ensures
        r == tree_error_span(*tree),
{
    match tree {
        TokenTree::Group(g) => g.span_open(),
        TokenTree::Ident(i) => i.span(),
        TokenTree::Punct(p) => p.span(),
        TokenTree::Literal(l) => l.span(),
    }
}

/// `syn::spanned::Spanned::span` of the stream of the trees
/// `trees[start..end]`: the first tree's span joined to the last one's where
/// the compiler can join them, the first tree's span otherwise.  Stated: for
/// one tree, its span.  Whether two spans can be joined depends on the
/// compiler the macro runs in, so nothing is stated for more trees.
#[verifier::external_body]
pub(crate) fn syn_span(trees: &[TokenTree], start: usize, end: usize) -> (r: Span)
    requires
        start < end <= trees@.len(),
    ensures
        end == start + 1 ==> r == tree_span(trees@[start as int]),
{
    let stream: TokenStream = trees[start..end].iter().cloned().collect();
    syn::spanned::Spanned::span(&stream)
}

/// `Span::call_site`.  Nothing is stated of the span: the compiler gives it.
#[verifier::external_body]
pub(crate) fn call_site() -> Span {
    Span::call_site()
}

/// `Span::mixed_site`.  Nothing is stated of the span: the compiler gives it.
#[verifier::external_body]
pub(crate) fn mixed_site() -> Span {
    Span::mixed_site()
}

/// `TokenStream::into_iter`, collected: the top-level trees of the stream.
#[verifier::external_body]
pub(crate) fn stream_trees(stream: TokenStream) -> (r: Vec<TokenTree>)
    ensures
        r@ == trees_of(stream),
{
    stream.into_iter().collect()
}

/// `TokenTree::clone`: a copy of the tree.
#[verifier::external_body]
pub(crate) fn tree_clone(tree: &TokenTree) -> (r: TokenTree)
    ensures
        r == *tree,
{
    tree.clone()
}

/// `<syn::Expr as Parse>::parse` on the stream, keeping only whether it
/// succeeded.  Nothing is stated: the stream's position is not visible here.
#[verifier::external_body]
pub(crate) fn parse_expression(input: &syn::parse::ParseBuffer) -> Result<(), syn::Error> {
    input.parse::<syn::Expr>().map(|_| ())
}

/// `syn::Pat::parse_single` on the stream, keeping only whether it
/// succeeded.  Nothing is stated: the stream's position is not visible here.
#[verifier::external_body]
pub(crate) fn parse_pattern(input: &syn::parse::ParseBuffer) -> Result<(), syn::Error> {
    syn::Pat::parse_single(input).map(|_| ())
}

/// `<TokenStream as Parse>::parse`: the rest of the stream.  Nothing is
/// stated: the stream's position is not visible here.
#[verifier::external_body]
pub(crate) fn parse_rest(input: &syn::parse::ParseBuffer) -> Result<TokenStream, syn::Error> {
    input.parse::<TokenStream>()
}

/// One expression, then the rest of the stream.
fn expression_then_rest(input: &syn::parse::ParseBuffer) -> Result<TokenStream, syn::Error> {
    parse_expression(input)?;
    parse_rest(input)
}

/// One pattern, then the rest of the stream.
fn pattern_then_rest(input: &syn::parse::ParseBuffer) -> Result<TokenStream, syn::Error> {
    parse_pattern(input)?;
    parse_rest(input)
}

/// `syn::parse::Parser::parse2` of an expression followed by the rest, on
/// the trees `trees[start..]`: the stream left after the expression, or
/// `syn`'s error with its message (`to_string`).  Of the error value only its
/// message is stated: `syn` places the error with the call-site span of the
/// running macro and records the thread it was made on, but words it from the
/// trees alone.
#[verifier::external_body]
pub(crate) fn syn_expr_rest(trees: &[TokenTree], start: usize) -> (r: Result<TokenStream, SynFailure>)
    requires
        start <= trees@.len(),
    ensures
        r is Ok <==> expr_rest(trees@.subrange(start as int, trees@.len() as int)) is Some,
        r matches Ok(rest) ==> expr_rest(trees@.subrange(start as int, trees@.len() as int))
            == Some(rest),
        r matches Err(f) ==> f.message@ == expr_error_message(trees@.subrange(start as int, trees@.len() as int)),
{
    let stream: TokenStream = trees[start..].iter().cloned().collect();
    match syn::parse::Parser::parse2(|input: syn::parse::ParseStream| expression_then_rest(input), stream) {
        Ok(rest) => Ok(rest),
        Err(error) => {
            let message = error.to_string();
            Err(SynFailure { error, message })
        },
    }
}

/// `syn::parse::Parser::parse2` of a pattern (as `syn::Pat::parse_single`
/// reads it) followed by the rest, on the trees `trees[start..]`: the stream
/// left after the pattern, or `syn`'s error with its message.  Of the error
/// value only its message is stated, as for [`syn_expr_rest`].
#[verifier::external_body]
pub(crate) fn syn_pat_rest(trees: &[TokenTree], start: usize) -> (r: Result<TokenStream, SynFailure>)
    requires
        start <= trees@.len(),
    ensures
        r is Ok <==> pat_rest(trees@.subrange(start as int, trees@.len() as int)) is Some,
        r matches Ok(rest) ==> pat_rest(trees@.subrange(start as int, trees@.len() as int))
            == Some(rest),
        r matches Err(f) ==> f.message@ == pat_error_message(trees@.subrange(start as int, trees@.len() as int)),
{
    let stream: TokenStream = trees[start..].iter().cloned().collect();
    match syn::parse::Parser::parse2(|input: syn::parse::ParseStream| pattern_then_rest(input), stream) {
        Ok(rest) => Ok(rest),
        Err(error) => {
            let message = error.to_string();
            Err(SynFailure { error, message })
        },
    }
}

/// `Ident::new` of the text at the span, as a tree.
#[verifier::external_body]
pub(crate) fn new_ident(text: &str, span: Span) -> (r: TokenTree)
    requires
        ident_text_ok(text@),
    ensures
        r == made_ident(text@, span),
{
    TokenTree::Ident(proc_macro2::Ident::new(text, span))
}

/// `Punct::new` followed by `Punct::set_span`, as a tree; `joint` selects
/// `Spacing::Joint`, otherwise `Spacing::Alone`.
#[verifier::external_body]
pub(crate) fn new_punct(ch: char, joint: bool, span: Span) -> (r: TokenTree)
    requires
        punct_char_ok(ch),
    ensures
        r == made_punct(ch, joint, span),
{
    let spacing = match joint {
        true => proc_macro2::Spacing::Joint,
        false => proc_macro2::Spacing::Alone,
    };
    let mut punct = proc_macro2::Punct::new(ch, spacing);
    punct.set_span(span);
    TokenTree::Punct(punct)
}

/// `Group::new` over the trees, followed by `Group::set_span`, as a tree.
#[verifier::external_body]
pub(crate) fn new_group(delim: Delim, trees: Vec<TokenTree>, span: Span) -> (r: TokenTree)
    ensures
        r == made_group(delim, trees@, span),
{
    let delimiter = match delim {
        Delim::Paren => proc_macro2::Delimiter::Parenthesis,
        Delim::Brace => proc_macro2::Delimiter::Brace,
    };
    let mut group = proc_macro2::Group::new(delimiter, trees.into_iter().collect());
    group.set_span(span);
    TokenTree::Group(group)
}

/// `TokenStream`'s `FromIterator`: the stream of these trees.
#[verifier::external_body]
pub(crate) fn trees_stream(trees: Vec<TokenTree>) -> (r: TokenStream)
    ensures
        r == made_stream(trees@),
{
    trees.into_iter().collect()
}

} // verus!
