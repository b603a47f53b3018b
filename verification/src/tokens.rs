//! The tokens that the library writes.
//!
//! Input tokens are `proc_macro2` token trees, which the library never looks
//! into beyond what [`crate::bridge`] reports.  Output is a flat sequence of
//! [`OutToken`]s: groups are written as an `Open` marker, their contents and a
//! `Close` marker, and a token of the input is written as its index.
use vstd::prelude::*;
use proc_macro2::Span;

verus! {

/// A half-open range `start..end` of positions in the input token sequence.
#[derive(Clone, Copy, Debug, PartialEq, Eq)]
pub struct Range {
    pub start: usize,
    pub end: usize,
}

impl Range {
    pub open spec fn len(self) -> int {
        self.end - self.start
    }

    pub open spec fn within(self, n: int) -> bool {
        self.start <= self.end <= n
    }
}

/// The delimiters of the groups that the library writes.
#[derive(Clone, Copy, Debug, PartialEq, Eq)]
pub enum Delim {
    Paren,
    Brace,
}

/// The identifiers that the library writes.
#[derive(Clone, Copy, Debug, PartialEq, Eq)]
pub enum Word {
    Let,
    SeqBinding,
    Move,
    MapMethod,
    FilterMap,
    FlatMap,
    Flatten,
    If,
    Else,
    Core,
    Std,
    Rayon,
    Iter,
    Option,
    OptionType,
    SomeVariant,
    NoneVariant,
    IntoIterator,
    IntoIter,
    IntoParallelIterator,
    IntoParIter,
    Iterator,
    Collect,
    Vec,
    VecType,
    Collections,
    HashSet,
    HashMap,
    Underscore,
}

/// The punctuation characters that the library writes.
#[derive(Clone, Copy, Debug, PartialEq, Eq)]
pub enum Sym {
    Colon,
    Eq,
    Semi,
    Dot,
    Bar,
    Lt,
    Gt,
    Comma,
}

/// One token of the output.
#[derive(Clone, Copy, Debug)]
pub enum OutToken {
    /// The input token at this position, written unchanged.
    Src(usize),
    /// An identifier.
    Ident(Word, Span),
    /// A punctuation character; `true` when it is joined to the next one.
    Punct(Sym, bool, Span),
    /// The start of a group.
    Open(Delim, Span),
    /// The end of the innermost open group.
    Close,
}

/// What `proc_macro2` accepts as the text of an identifier: characters that
/// start and continue an identifier, and not all digits.  (Stated for ASCII,
/// which is all the library writes.)
pub open spec fn ident_text_ok(s: Seq<char>) -> bool {
    &&& s.len() > 0
    &&& (('a' <= s[0] <= 'z') || ('A' <= s[0] <= 'Z') || s[0] == '_')
    &&& forall|i: int|
        1 <= i < s.len() ==> (('a' <= #[trigger] s[i] <= 'z') || ('A' <= s[i] <= 'Z') || ('0'
            <= s[i] <= '9') || s[i] == '_')
}

/// The characters that `proc_macro2` accepts as punctuation.
pub open spec fn punct_char_ok(c: char) -> bool {
    c == '!' || c == '#' || c == '$' || c == '%' || c == '&' || c == '\'' || c == '*' || c == '+'
        || c == ',' || c == '-' || c == '.' || c == '/' || c == ':' || c == ';' || c == '<' || c
        == '=' || c == '>' || c == '?' || c == '@' || c == '^' || c == '|' || c == '~'
}

impl Sym {
    pub open spec fn spec_char(self) -> char {
        match self {
            Sym::Colon => ':',
            Sym::Eq => '=',
            Sym::Semi => ';',
            Sym::Dot => '.',
            Sym::Bar => '|',
            Sym::Lt => '<',
            Sym::Gt => '>',
            Sym::Comma => ',',
        }
    }

    /// The character of this symbol.
    pub fn char(self) -> (c: char)
        ensures
            c == self.spec_char(),
            punct_char_ok(c),
    {
        match self {
            Sym::Colon => ':',
            Sym::Eq => '=',
            Sym::Semi => ';',
            Sym::Dot => '.',
            Sym::Bar => '|',
            Sym::Lt => '<',
            Sym::Gt => '>',
            Sym::Comma => ',',
        }
    }
}

impl Word {
    /// The text of this identifier.
    pub open spec fn spec_text(self) -> Seq<char> {
        match self {
            Word::Let => "let"@,
            Word::SeqBinding => "__seq"@,
            Word::Move => "move"@,
            Word::MapMethod => "map"@,
            Word::FilterMap => "filter_map"@,
            Word::FlatMap => "flat_map"@,
            Word::Flatten => "flatten"@,
            Word::If => "if"@,
            Word::Else => "else"@,
            Word::Core => "core"@,
            Word::Std => "std"@,
            Word::Rayon => "rayon"@,
            Word::Iter => "iter"@,
            Word::Option => "option"@,
            Word::OptionType => "Option"@,
            Word::SomeVariant => "Some"@,
            Word::NoneVariant => "None"@,
            Word::IntoIterator => "IntoIterator"@,
            Word::IntoIter => "into_iter"@,
            Word::IntoParallelIterator => "IntoParallelIterator"@,
            Word::IntoParIter => "into_par_iter"@,
            Word::Iterator => "Iterator"@,
            Word::Collect => "collect"@,
            Word::Vec => "vec"@,
            Word::VecType => "Vec"@,
            Word::Collections => "collections"@,
            Word::HashSet => "HashSet"@,
            Word::HashMap => "HashMap"@,
            Word::Underscore => "_"@,
        }
    }

    /// The text of this identifier.
    pub fn text(self) -> (s: &'static str)
        ensures
            s@ == self.spec_text(),
            ident_text_ok(s@),
    {
        let s = match self {
            Word::Let => "let",
            Word::SeqBinding => "__seq",
            Word::Move => "move",
            Word::MapMethod => "map",
            Word::FilterMap => "filter_map",
            Word::FlatMap => "flat_map",
            Word::Flatten => "flatten",
            Word::If => "if",
            Word::Else => "else",
            Word::Core => "core",
            Word::Std => "std",
            Word::Rayon => "rayon",
            Word::Iter => "iter",
            Word::Option => "option",
            Word::OptionType => "Option",
            Word::SomeVariant => "Some",
            Word::NoneVariant => "None",
            Word::IntoIterator => "IntoIterator",
            Word::IntoIter => "into_iter",
            Word::IntoParallelIterator => "IntoParallelIterator",
            Word::IntoParIter => "into_par_iter",
            Word::Iterator => "Iterator",
            Word::Collect => "collect",
            Word::Vec => "vec",
            Word::VecType => "Vec",
            Word::Collections => "collections",
            Word::HashSet => "HashSet",
            Word::HashMap => "HashMap",
            Word::Underscore => "_",
        };
        proof {
            reveal_strlit("let");
            reveal_strlit("__seq");
            reveal_strlit("move");
            reveal_strlit("map");
            reveal_strlit("filter_map");
            reveal_strlit("flat_map");
            reveal_strlit("flatten");
            reveal_strlit("if");
            reveal_strlit("else");
            reveal_strlit("core");
            reveal_strlit("std");
            reveal_strlit("rayon");
            reveal_strlit("iter");
            reveal_strlit("option");
            reveal_strlit("Option");
            reveal_strlit("Some");
            reveal_strlit("None");
            reveal_strlit("IntoIterator");
            reveal_strlit("into_iter");
            reveal_strlit("IntoParallelIterator");
            reveal_strlit("into_par_iter");
            reveal_strlit("Iterator");
            reveal_strlit("collect");
            reveal_strlit("vec");
            reveal_strlit("Vec");
            reveal_strlit("collections");
            reveal_strlit("HashSet");
            reveal_strlit("HashMap");
            reveal_strlit("_");
        }
        s
    }
}

} // verus!
