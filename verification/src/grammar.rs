//! The comprehension grammar.
//!
//! ```text
//! MAPPING
//!     for PAT in SEQ
//!     [if COND | if let PAT = EXPR]*
//!     [for PAT in SEQ [if COND | if let PAT = EXPR]*]*
//! ```
//!
//! `MAPPING`, `SEQ`, `COND` and `EXPR` are expressions and `PAT` a pattern, as
//! `syn` reads them; the keywords and punctuation between them are read here.
//! A parse does not copy the input: it reports the position range of every
//! fragment.  The `spec_*` functions state the grammar over the input trees,
//! position by position; each parser's contract says that it computes them.
//!
//! The positions are those of the input's top-level trees, and a
//! `None`-delimited group (which `macro_rules!` forwarding can produce) is one
//! tree here.  `syn` itself looks through such groups when it matches a
//! keyword or punctuation, and passes over empty ones at the end of the
//! input; an input with such a group outside its fragments (an empty
//! forwarded `$v:vis` at the end, say) is refused here where `syn` would
//! accept it.
use vstd::prelude::*;
use proc_macro2::TokenTree;
use crate::bridge::{
    expr_error_message, expr_rest, ident_name, ident_text, pat_error_message, pat_rest, punct_info,
    punct_of,
    stream_trees, syn_expr_rest, syn_pat_rest, trees_of,
};
use crate::tokens::Range;

verus! {

/// A token that the grammar asked for and did not find.
#[derive(Clone, Copy, Debug, PartialEq, Eq)]
pub enum Expected {
    For,
    In,
    If,
    Eq,
    FatArrow,
}

/// The kind of fragment that `syn` reads.
#[derive(Clone, Copy, Debug, PartialEq, Eq)]
pub enum Fragment {
    Expression,
    Pattern,
}

/// `syn`'s refusal of a fragment: its error, and that error's message.
#[derive(Debug)]
pub struct SynFailure {
    pub error: syn::Error,
    pub message: String,
}

/// Why a comprehension was refused, at which position of the input (the
/// input's length when the input ended too early).
#[derive(Debug)]
pub enum ParseError {
    /// The keyword or punctuation `what` is missing at `at`.
    Expected { what: Expected, at: usize },
    /// The comprehension ended before the token at `at`.
    UnexpectedToken { at: usize },
    /// `syn` could not read the expression or pattern that starts at `at`:
    /// its error, and that error's message.
    Syntax { at: usize, fragment: Fragment, error: syn::Error, message: String },
}

/// A [`ParseError`] as the grammar states it: for a fragment that `syn`
/// could not read, its kind, position and `syn`'s message.  `syn`'s error
/// value is left out: it holds the call site of the running macro and the
/// thread it was made on.
pub enum Fault {
    Expected(Expected, int),
    Unexpected(int),
    Syntax(Fragment, int, Seq<char>),
}

impl ParseError {
    pub open spec fn fault(&self) -> Fault {
        match self {
            ParseError::Expected { what, at } => Fault::Expected(*what, *at as int),
            ParseError::UnexpectedToken { at } => Fault::Unexpected(*at as int),
            ParseError::Syntax { at, fragment, message, .. } => Fault::Syntax(
                *fragment,
                *at as int,
                message@,
            ),
        }
    }
}

/// A condition of a `for` clause.
#[derive(Clone, Copy, Debug, PartialEq, Eq)]
pub enum Condition {
    /// `if EXPR`
    Test { expr: Range },
    /// `if let PAT = EXPR`
    Match { pat: Range, expr: Range },
}

/// `for PAT in SEQ` followed by its conditions.
#[derive(Debug)]
pub struct Clause {
    pub pattern: Range,
    pub sequence: Range,
    pub conditions: Vec<Condition>,
}

pub struct ClauseShape {
    pub pattern: Range,
    pub sequence: Range,
    pub conditions: Seq<Condition>,
}

impl View for Clause {
    type V = ClauseShape;

    open spec fn view(&self) -> ClauseShape {
        ClauseShape {
            pattern: self.pattern,
            sequence: self.sequence,
            conditions: self.conditions@,
        }
    }
}

/// `MAPPING` followed by one clause or more.
#[derive(Debug)]
pub struct Comprehension {
    pub mapping: Range,
    pub clauses: Vec<Clause>,
}

/// `KEY => VALUE` followed by one clause or more.
#[derive(Debug)]
pub struct MapComprehension {
    pub key: Range,
    pub value: Range,
    pub clauses: Vec<Clause>,
}

pub open spec fn clauses_view(clauses: Seq<Clause>) -> Seq<ClauseShape> {
    clauses.map_values(|c: Clause| c@)
}

pub struct Shape {
    pub mapping: Range,
    pub clauses: Seq<ClauseShape>,
}

pub struct MapShape {
    pub key: Range,
    pub value: Range,
    pub clauses: Seq<ClauseShape>,
}

impl View for Comprehension {
    type V = Shape;

    open spec fn view(&self) -> Shape {
        Shape { mapping: self.mapping, clauses: clauses_view(self.clauses@) }
    }
}

impl View for MapComprehension {
    type V = MapShape;

    open spec fn view(&self) -> MapShape {
        MapShape { key: self.key, value: self.value, clauses: clauses_view(self.clauses@) }
    }
}

pub open spec fn range(start: int, end: int) -> Range {
    Range { start: start as usize, end: end as usize }
}

/// The tree at `i` is the identifier `word`.
pub open spec fn is_word(t: Seq<TokenTree>, i: int, word: Seq<char>) -> bool {
    0 <= i < t.len() && ident_name(t[i]) == Some(word)
}

/// The tree at `i` is the punctuation character `c`, of either spacing.
pub open spec fn is_char(t: Seq<TokenTree>, i: int, c: char) -> bool {
    &&& 0 <= i < t.len()
    &&& punct_of(t[i]) matches Some((ch, _)) && ch == c
}

/// The trees at `i` and `i + 1` are `=` joined to `>`.
pub open spec fn is_fat_arrow(t: Seq<TokenTree>, i: int) -> bool {
    &&& is_char(t, i, '=')
    &&& punct_of(t[i]) matches Some((_, joint)) && joint
    &&& is_char(t, i + 1, '>')
}

/// Where the expression that starts at `i` ends.
pub open spec fn spec_expr_end(t: Seq<TokenTree>, i: int) -> Result<int, Fault> {
    match expr_rest(t.subrange(i, t.len() as int)) {
        Some(rest) => if trees_of(rest).len() < t.len() - i {
            Ok(t.len() - trees_of(rest).len())
        } else {
            Err(Fault::Unexpected(i))
        },
        None => Err(
            Fault::Syntax(Fragment::Expression, i, expr_error_message(t.subrange(i, t.len() as int))),
        ),
    }
}

/// Where the pattern that starts at `i` ends.
pub open spec fn spec_pat_end(t: Seq<TokenTree>, i: int) -> Result<int, Fault> {
    match pat_rest(t.subrange(i, t.len() as int)) {
        Some(rest) => if trees_of(rest).len() < t.len() - i {
            Ok(t.len() - trees_of(rest).len())
        } else {
            Err(Fault::Unexpected(i))
        },
        None => Err(
            Fault::Syntax(Fragment::Pattern, i, pat_error_message(t.subrange(i, t.len() as int))),
        ),
    }
}

/// The condition that starts at `i` (with `if`), and where it ends.
pub open spec fn spec_condition(t: Seq<TokenTree>, i: int) -> Result<(Condition, int), Fault> {
    if !is_word(t, i, "if"@) {
        Err(Fault::Expected(Expected::If, i))
    } else if is_word(t, i + 1, "let"@) {
        match spec_pat_end(t, i + 2) {
            Err(f) => Err(f),
            Ok(p) => if is_char(t, p, '=') {
                match spec_expr_end(t, p + 1) {
                    Err(f) => Err(f),
                    Ok(e) => Ok((Condition::Match { pat: range(i + 2, p), expr: range(p + 1, e) }, e)),
                }
            } else {
                Err(Fault::Expected(Expected::Eq, p))
            },
        }
    } else {
        match spec_expr_end(t, i + 1) {
            Err(f) => Err(f),
            Ok(e) => Ok((Condition::Test { expr: range(i + 1, e) }, e)),
        }
    }
}

/// The conditions from `i` on: as many as start with `if`.
pub open spec fn spec_conditions(t: Seq<TokenTree>, i: int) -> Result<(Seq<Condition>, int), Fault>
    decreases t.len() - i,
{
    if is_word(t, i, "if"@) {
        match spec_condition(t, i) {
            Err(f) => Err(f),
            Ok((c, j)) => if i < j <= t.len() {
                match spec_conditions(t, j) {
                    Err(f) => Err(f),
                    Ok((cs, k)) => Ok((seq![c] + cs, k)),
                }
            } else {
                Err(Fault::Unexpected(j))
            },
        }
    } else {
        Ok((seq![], i))
    }
}

/// The clause that starts at `i`: `for`, a pattern, `in`, an expression and
/// its conditions.
pub open spec fn spec_clause(t: Seq<TokenTree>, i: int) -> Result<(ClauseShape, int), Fault> {
    if !is_word(t, i, "for"@) {
        Err(Fault::Expected(Expected::For, i))
    } else {
        match spec_pat_end(t, i + 1) {
            Err(f) => Err(f),
            Ok(p) => if !is_word(t, p, "in"@) {
                Err(Fault::Expected(Expected::In, p))
            } else {
                match spec_expr_end(t, p + 1) {
                    Err(f) => Err(f),
                    Ok(s) => match spec_conditions(t, s) {
                        Err(f) => Err(f),
                        Ok((cs, k)) => Ok(
                            (
                                ClauseShape {
                                    pattern: range(i + 1, p),
                                    sequence: range(p + 1, s),
                                    conditions: cs,
                                },
                                k,
                            ),
                        ),
                    },
                }
            },
        }
    }
}

/// The clauses from `i` on that start with `for`.
pub open spec fn spec_more_clauses(t: Seq<TokenTree>, i: int) -> Result<
    (Seq<ClauseShape>, int),
    Fault,
>
    decreases t.len() - i,
{
    if is_word(t, i, "for"@) {
        match spec_clause(t, i) {
            Err(f) => Err(f),
            Ok((c, j)) => if i < j <= t.len() {
                match spec_more_clauses(t, j) {
                    Err(f) => Err(f),
                    Ok((cs, k)) => Ok((seq![c] + cs, k)),
                }
            } else {
                Err(Fault::Unexpected(j))
            },
        }
    } else {
        Ok((seq![], i))
    }
}

/// One clause at `i`, then as many as follow.
pub open spec fn spec_clauses(t: Seq<TokenTree>, i: int) -> Result<(Seq<ClauseShape>, int), Fault> {
    match spec_clause(t, i) {
        Err(f) => Err(f),
        Ok((c, j)) => match spec_more_clauses(t, j) {
            Err(f) => Err(f),
            Ok((cs, k)) => Ok((seq![c] + cs, k)),
        },
    }
}

/// A whole comprehension: a mapping, its clauses, and nothing after them.
pub open spec fn spec_comprehension(t: Seq<TokenTree>) -> Result<Shape, Fault> {
    match spec_expr_end(t, 0) {
        Err(f) => Err(f),
        Ok(m) => match spec_clauses(t, m) {
            Err(f) => Err(f),
            Ok((cs, k)) => if k == t.len() {
                Ok(Shape { mapping: range(0, m), clauses: cs })
            } else {
                Err(Fault::Unexpected(k))
            },
        },
    }
}

/// A whole map comprehension: a key, `=>`, a value, its clauses, and nothing
/// after them.
pub open spec fn spec_map_comprehension(t: Seq<TokenTree>) -> Result<MapShape, Fault> {
    match spec_expr_end(t, 0) {
        Err(f) => Err(f),
        Ok(k) => if !is_fat_arrow(t, k) {
            Err(Fault::Expected(Expected::FatArrow, k))
        } else {
            match spec_expr_end(t, k + 2) {
                Err(f) => Err(f),
                Ok(v) => match spec_clauses(t, v) {
                    Err(f) => Err(f),
                    Ok((cs, e)) => if e == t.len() {
                        Ok(MapShape { key: range(0, k), value: range(k + 2, v), clauses: cs })
                    } else {
                        Err(Fault::Unexpected(e))
                    },
                },
            }
        },
    }
}

/// Whether the tree at `i` is the identifier `word`.
fn is_keyword(t: &Vec<TokenTree>, i: usize, word: &str) -> (r: bool)
    ensures
        r == is_word(t@, i as int, word@),
{
    if i < t.len() {
        match ident_text(&t[i]) {
            Some(s) => s == word.to_owned(),
            None => false,
        }
    } else {
        false
    }
}

/// Whether the tree at `i` is the punctuation character `c`.
fn is_punct(t: &Vec<TokenTree>, i: usize, c: char) -> (r: bool)
    ensures
        r == is_char(t@, i as int, c),
{
    if i < t.len() {
        match punct_info(&t[i]) {
            Some((ch, _)) => ch == c,
            None => false,
        }
    } else {
        false
    }
}

/// Reads the expression that starts at `i` and returns where it ends.
fn parse_expr(t: &Vec<TokenTree>, i: usize) -> (r: Result<usize, ParseError>)
    requires
        i <= t@.len(),
    ensures
        match r {
            Ok(e) => spec_expr_end(t@, i as int) == Ok::<int, Fault>(e as int),
            Err(f) => spec_expr_end(t@, i as int) == Err::<int, Fault>(f.fault()),
        },
{
    match syn_expr_rest(t.as_slice(), i) {
        Ok(rest) => {
            let left = stream_trees(rest).len();
            if left < t.len() - i {
                Ok(t.len() - left)
            } else {
                Err(ParseError::UnexpectedToken { at: i })
            }
        },
        Err(f) => Err(
            ParseError::Syntax { at: i, fragment: Fragment::Expression, error: f.error, message: f.message },
        ),
    }
}

/// Reads the pattern that starts at `i` and returns where it ends.
fn parse_pat(t: &Vec<TokenTree>, i: usize) -> (r: Result<usize, ParseError>)
    requires
        i <= t@.len(),
    ensures
        match r {
            Ok(e) => spec_pat_end(t@, i as int) == Ok::<int, Fault>(e as int),
            Err(f) => spec_pat_end(t@, i as int) == Err::<int, Fault>(f.fault()),
        },
{
    match syn_pat_rest(t.as_slice(), i) {
        Ok(rest) => {
            let left = stream_trees(rest).len();
            if left < t.len() - i {
                Ok(t.len() - left)
            } else {
                Err(ParseError::UnexpectedToken { at: i })
            }
        },
        Err(f) => Err(
            ParseError::Syntax { at: i, fragment: Fragment::Pattern, error: f.error, message: f.message },
        ),
    }
}


/// An expression or pattern that ends, ends after it starts and within the input.
pub proof fn lemma_fragment_advances(t: Seq<TokenTree>, i: int)
    requires
        0 <= i <= t.len(),
    ensures
        spec_expr_end(t, i) matches Ok(e) ==> i < e <= t.len(),
        spec_pat_end(t, i) matches Ok(e) ==> i < e <= t.len(),
{
}

/// A condition ends after the `if` that starts it.
pub proof fn lemma_condition_advances(t: Seq<TokenTree>, i: int)
    requires
        0 <= i < t.len(),
    ensures
        spec_condition(t, i) matches Ok((_, j)) ==> i < j <= t.len(),
{
    lemma_fragment_advances(t, i + 1);
    if is_word(t, i + 1, "let"@) {
        lemma_fragment_advances(t, i + 2);
        if let Ok(p) = spec_pat_end(t, i + 2) {
            if p < t.len() {
                lemma_fragment_advances(t, p + 1);
            }
        }
    }
}

/// Conditions end at or after where they start.
pub proof fn lemma_conditions_advance(t: Seq<TokenTree>, i: int)
    requires
        0 <= i <= t.len(),
    ensures
        spec_conditions(t, i) matches Ok((_, j)) ==> i <= j <= t.len(),
    decreases t.len() - i,
{
    if is_word(t, i, "if"@) {
        lemma_condition_advances(t, i);
        if let Ok((c, j)) = spec_condition(t, i) {
            lemma_conditions_advance(t, j);
        }
    }
}

/// A clause ends after the `for` that starts it.
pub proof fn lemma_clause_advances(t: Seq<TokenTree>, i: int)
    requires
        0 <= i <= t.len(),
    ensures
        spec_clause(t, i) matches Ok((_, j)) ==> i < j <= t.len(),
{
    if is_word(t, i, "for"@) {
        lemma_fragment_advances(t, i + 1);
        if let Ok(p) = spec_pat_end(t, i + 1) {
            if p < t.len() {
                lemma_fragment_advances(t, p + 1);
                if let Ok(s) = spec_expr_end(t, p + 1) {
                    lemma_conditions_advance(t, s);
                }
            }
        }
    }
}

/// Reads the condition that starts at `i`: `if` followed by an expression,
/// or by `let`, a pattern, `=` and an expression.
fn parse_condition(t: &Vec<TokenTree>, i: usize) -> (r: Result<(Condition, usize), ParseError>)
    requires
        i <= t@.len(),
    ensures
        match r {
            Ok((c, j)) => spec_condition(t@, i as int) == Ok::<(Condition, int), Fault>((c, j as int)),
            Err(e) => spec_condition(t@, i as int) == Err::<(Condition, int), Fault>(e.fault()),
        },
{
    let n = t.len();
    proof { assert(t@.len() == n); }  // the input's length fits in a `usize`
    if !is_keyword(t, i, "if") {
        return Err(ParseError::Expected { what: Expected::If, at: i });
    }
    proof { lemma_fragment_advances(t@, i + 1); }
    if is_keyword(t, i + 1, "let") {
        let p = parse_pat(t, i + 2)?;
        proof { lemma_fragment_advances(t@, i + 2); }
        if !is_punct(t, p, '=') {
            return Err(ParseError::Expected { what: Expected::Eq, at: p });
        }
        let e = parse_expr(t, p + 1)?;
        Ok((Condition::Match { pat: Range { start: i + 2, end: p }, expr: Range { start: p + 1, end: e } }, e))
    } else {
        let e = parse_expr(t, i + 1)?;
        Ok((Condition::Test { expr: Range { start: i + 1, end: e } }, e))
    }
}

/// Reads the conditions from `i` on: as many as start with `if`.
fn parse_conditions(t: &Vec<TokenTree>, i: usize) -> (r: Result<(Vec<Condition>, usize), ParseError>)
    requires
        i <= t@.len(),
    ensures
        match r {
            Ok((cs, j)) => spec_conditions(t@, i as int) == Ok::<(Seq<Condition>, int), Fault>((cs@, j as int)),
            Err(e) => spec_conditions(t@, i as int) == Err::<(Seq<Condition>, int), Fault>(e.fault()),
        },
{
    let mut conditions: Vec<Condition> = Vec::new();
    let mut pos = i;
    while is_keyword(t, pos, "if")
        invariant
            i <= pos <= t@.len(),
            spec_conditions(t@, i as int) == match spec_conditions(t@, pos as int) {
                Ok((cs, k)) => Ok::<(Seq<Condition>, int), Fault>((conditions@ + cs, k)),
                Err(f) => Err(f),
            },
        decreases t@.len() - pos,
    {
        proof { lemma_condition_advances(t@, pos as int); }
        let (c, j) = parse_condition(t, pos)?;
        proof {
            lemma_conditions_advance(t@, j as int);
            if let Ok((cs, k)) = spec_conditions(t@, j as int) {
                assert(conditions@ + (seq![c] + cs) =~= conditions@.push(c) + cs);
            }
        }
        conditions.push(c);
        pos = j;
    }
    proof { assert(conditions@ + Seq::<Condition>::empty() =~= conditions@); }
    Ok((conditions, pos))
}


/// More clauses end at or after where they start.
pub proof fn lemma_more_clauses_advance(t: Seq<TokenTree>, i: int)
    requires
        0 <= i <= t.len(),
    ensures
        spec_more_clauses(t, i) matches Ok((_, j)) ==> i <= j <= t.len(),
    decreases t.len() - i,
{
    if is_word(t, i, "for"@) {
        lemma_clause_advances(t, i);
        if let Ok((c, j)) = spec_clause(t, i) {
            lemma_more_clauses_advance(t, j);
        }
    }
}

/// Reads the clause that starts at `i`.
fn parse_clause(t: &Vec<TokenTree>, i: usize) -> (r: Result<(Clause, usize), ParseError>)
    requires
        i <= t@.len(),
    ensures
        match r {
            Ok((c, j)) => spec_clause(t@, i as int) == Ok::<(ClauseShape, int), Fault>((c@, j as int)),
            Err(e) => spec_clause(t@, i as int) == Err::<(ClauseShape, int), Fault>(e.fault()),
        },
{
    let n = t.len();
    proof { assert(t@.len() == n); }  // the input's length fits in a `usize`
    if !is_keyword(t, i, "for") {
        return Err(ParseError::Expected { what: Expected::For, at: i });
    }
    let p = parse_pat(t, i + 1)?;
    proof { lemma_fragment_advances(t@, i + 1); }
    if !is_keyword(t, p, "in") {
        return Err(ParseError::Expected { what: Expected::In, at: p });
    }
    let s = parse_expr(t, p + 1)?;
    proof { lemma_fragment_advances(t@, p + 1); }
    let (conditions, k) = parse_conditions(t, s)?;
    let clause = Clause {
        pattern: Range { start: i + 1, end: p },
        sequence: Range { start: p + 1, end: s },
        conditions,
    };
    Ok((clause, k))
}

/// Reads one clause at `i` and then as many as start with `for`.
fn parse_clauses(t: &Vec<TokenTree>, i: usize) -> (r: Result<(Vec<Clause>, usize), ParseError>)
    requires
        i <= t@.len(),
    ensures
        match r {
            Ok((cs, j)) => spec_clauses(t@, i as int) == Ok::<(Seq<ClauseShape>, int), Fault>(
                (clauses_view(cs@), j as int),
            ),
            Err(e) => spec_clauses(t@, i as int) == Err::<(Seq<ClauseShape>, int), Fault>(e.fault()),
        },
{
    let (first, j) = parse_clause(t, i)?;
    proof { lemma_clause_advances(t@, i as int); }
    let mut clauses: Vec<Clause> = Vec::new();
    clauses.push(first);
    let mut pos = j;
    proof {
        assert(clauses_view(clauses@) =~= seq![clauses@[0]@]);
    }
    while is_keyword(t, pos, "for")
        invariant
            j <= pos <= t@.len(),
            spec_clauses(t@, i as int) == match spec_more_clauses(t@, pos as int) {
                Ok((cs, k)) => Ok::<(Seq<ClauseShape>, int), Fault>((clauses_view(clauses@) + cs, k)),
                Err(f) => Err(f),
            },
        decreases t@.len() - pos,
    {
        proof { lemma_clause_advances(t@, pos as int); }
        let (c, k) = parse_clause(t, pos)?;
        proof {
            lemma_more_clauses_advance(t@, k as int);
            if let Ok((cs, e)) = spec_more_clauses(t@, k as int) {
                assert(clauses_view(clauses@) + (seq![c@] + cs) =~= clauses_view(clauses@.push(c)) + cs);
            }
        }
        clauses.push(c);
        pos = k;
    }
    proof {
        assert(clauses_view(clauses@) + Seq::<ClauseShape>::empty() =~= clauses_view(clauses@));
    }
    Ok((clauses, pos))
}

/// Reads a comprehension: `MAPPING` followed by its clauses, which must take
/// all of the input.
///
/// The result is `Ok` exactly when the grammar accepts the trees; every error
/// is the one the grammar states for them.
pub fn parse_comprehension(t: &Vec<TokenTree>) -> (r: Result<Comprehension, ParseError>)
    ensures
        match r {
            Ok(c) => spec_comprehension(t@) == Ok::<Shape, Fault>(c@),
            Err(e) => spec_comprehension(t@) == Err::<Shape, Fault>(e.fault()),
        },
{
    let m = parse_expr(t, 0)?;
    proof { lemma_fragment_advances(t@, 0); }
    let (clauses, k) = parse_clauses(t, m)?;
    if k != t.len() {
        return Err(ParseError::UnexpectedToken { at: k });
    }
    Ok(Comprehension { mapping: Range { start: 0, end: m }, clauses })
}

/// Reads a map comprehension: `KEY => VALUE` followed by its clauses, which
/// must take all of the input.
///
/// The result is `Ok` exactly when the grammar accepts the trees; every error
/// is the one the grammar states for them.
pub fn parse_map_comprehension(t: &Vec<TokenTree>) -> (r: Result<MapComprehension, ParseError>)
    ensures
        match r {
            Ok(c) => spec_map_comprehension(t@) == Ok::<MapShape, Fault>(c@),
            Err(e) => spec_map_comprehension(t@) == Err::<MapShape, Fault>(e.fault()),
        },
{
    let n = t.len();
    proof { assert(t@.len() == n); }  // the input's length fits in a `usize`
    let k = parse_expr(t, 0)?;
    proof { lemma_fragment_advances(t@, 0); }
    if !(is_punct(t, k, '=') && joint_at(t, k) && is_punct(t, k + 1, '>')) {
        return Err(ParseError::Expected { what: Expected::FatArrow, at: k });
    }
    let v = parse_expr(t, k + 2)?;
    proof { lemma_fragment_advances(t@, k + 2); }
    let (clauses, e) = parse_clauses(t, v)?;
    if e != t.len() {
        return Err(ParseError::UnexpectedToken { at: e });
    }
    Ok(MapComprehension { key: Range { start: 0, end: k }, value: Range { start: k + 2, end: v }, clauses })
}

/// Whether the tree at `i` is punctuation joined to the next tree.
fn joint_at(t: &Vec<TokenTree>, i: usize) -> (r: bool)
    requires
        i < t@.len(),
    ensures
        r == (punct_of(t@[i as int]) matches Some((_, joint)) && joint),
{
    match punct_info(&t[i]) {
        Some((_, joint)) => joint,
        None => false,
    }
}


/// A condition's ranges lie within the first `n` positions.
pub open spec fn condition_within(c: Condition, n: int) -> bool {
    match c {
        Condition::Test { expr } => expr.within(n),
        Condition::Match { pat, expr } => pat.within(n) && expr.within(n),
    }
}

/// A clause's ranges lie within the first `n` positions.
pub open spec fn clause_within(c: ClauseShape, n: int) -> bool {
    &&& c.pattern.within(n)
    &&& c.sequence.within(n)
    &&& forall|j: int| 0 <= j < c.conditions.len() ==> condition_within(#[trigger] c.conditions[j], n)
}

proof fn lemma_condition_within(t: Seq<TokenTree>, i: int)
    requires
        0 <= i < t.len() <= usize::MAX,
    ensures
        spec_condition(t, i) matches Ok((c, _)) ==> condition_within(c, t.len() as int),
{
    lemma_fragment_advances(t, i + 1);
    if is_word(t, i + 1, "let"@) {
        lemma_fragment_advances(t, i + 2);
        if let Ok(p) = spec_pat_end(t, i + 2) {
            if p < t.len() {
                lemma_fragment_advances(t, p + 1);
            }
        }
    }
}

proof fn lemma_conditions_within(t: Seq<TokenTree>, i: int)
    requires
        0 <= i <= t.len() <= usize::MAX,
    ensures
        spec_conditions(t, i) matches Ok((cs, _)) ==> forall|k: int|
            0 <= k < cs.len() ==> condition_within(#[trigger] cs[k], t.len() as int),
    decreases t.len() - i,
{
    if is_word(t, i, "if"@) {
        lemma_condition_advances(t, i);
        lemma_condition_within(t, i);
        if let Ok((c, j)) = spec_condition(t, i) {
            lemma_conditions_within(t, j);
            if let Ok((rest, k)) = spec_conditions(t, j) {
                let cs = seq![c] + rest;
                assert forall|m: int| 0 <= m < cs.len() implies condition_within(
                    #[trigger] cs[m],
                    t.len() as int,
                ) by {
                    if m > 0 {
                        assert(cs[m] == rest[m - 1]);
                    }
                }
            }
        }
    }
}

proof fn lemma_clause_within(t: Seq<TokenTree>, i: int)
    requires
        0 <= i <= t.len() <= usize::MAX,
    ensures
        spec_clause(t, i) matches Ok((c, _)) ==> clause_within(c, t.len() as int),
{
    if is_word(t, i, "for"@) {
        lemma_fragment_advances(t, i + 1);
        if let Ok(p) = spec_pat_end(t, i + 1) {
            if p < t.len() {
                lemma_fragment_advances(t, p + 1);
                if let Ok(s) = spec_expr_end(t, p + 1) {
                    lemma_conditions_within(t, s);
                }
            }
        }
    }
}

proof fn lemma_more_clauses_within(t: Seq<TokenTree>, i: int)
    requires
        0 <= i <= t.len() <= usize::MAX,
    ensures
        spec_more_clauses(t, i) matches Ok((cs, _)) ==> forall|k: int|
            0 <= k < cs.len() ==> clause_within(#[trigger] cs[k], t.len() as int),
    decreases t.len() - i,
{
    if is_word(t, i, "for"@) {
        lemma_clause_advances(t, i);
        lemma_clause_within(t, i);
        if let Ok((c, j)) = spec_clause(t, i) {
            lemma_more_clauses_within(t, j);
            if let Ok((rest, k)) = spec_more_clauses(t, j) {
                let cs = seq![c] + rest;
                assert forall|m: int| 0 <= m < cs.len() implies clause_within(
                    #[trigger] cs[m],
                    t.len() as int,
                ) by {
                    if m > 0 {
                        assert(cs[m] == rest[m - 1]);
                    }
                }
            }
        }
    }
}

/// Every range of parsed clauses lies within the input, and there is at
/// least one clause.
pub proof fn lemma_clauses_within(t: Seq<TokenTree>, i: int)
    requires
        0 <= i <= t.len() <= usize::MAX,
    ensures
        spec_clauses(t, i) matches Ok((cs, _)) ==> {
            &&& cs.len() >= 1
            &&& forall|k: int| 0 <= k < cs.len() ==> clause_within(#[trigger] cs[k], t.len() as int)
        },
{
    lemma_clause_advances(t, i);
    lemma_clause_within(t, i);
    if let Ok((c, j)) = spec_clause(t, i) {
        lemma_more_clauses_within(t, j);
        if let Ok((rest, k)) = spec_more_clauses(t, j) {
            let cs = seq![c] + rest;
            assert forall|m: int| 0 <= m < cs.len() implies clause_within(
                #[trigger] cs[m],
                t.len() as int,
            ) by {
                if m > 0 {
                    assert(cs[m] == rest[m - 1]);
                }
            }
        }
    }
}

/// Every range of a parsed comprehension lies within the input, and there is
/// at least one clause.
pub proof fn lemma_comprehension_within(t: Seq<TokenTree>)
    requires
        t.len() <= usize::MAX,
    ensures
        spec_comprehension(t) matches Ok(c) ==> {
            &&& c.mapping.within(t.len() as int)
            &&& c.clauses.len() >= 1
            &&& forall|k: int| 0 <= k < c.clauses.len() ==> clause_within(#[trigger] c.clauses[k], t.len() as int)
        },
{
    lemma_fragment_advances(t, 0);
    if let Ok(m) = spec_expr_end(t, 0) {
        lemma_clauses_within(t, m);
    }
}

/// Every range of a parsed map comprehension lies within the input, and
/// there is at least one clause.
pub proof fn lemma_map_comprehension_within(t: Seq<TokenTree>)
    requires
        t.len() <= usize::MAX,
    ensures
        spec_map_comprehension(t) matches Ok(c) ==> {
            &&& c.key.within(t.len() as int)
            &&& c.value.within(t.len() as int)
            &&& c.clauses.len() >= 1
            &&& forall|k: int| 0 <= k < c.clauses.len() ==> clause_within(#[trigger] c.clauses[k], t.len() as int)
        },
{
    lemma_fragment_advances(t, 0);
    if let Ok(k) = spec_expr_end(t, 0) {
        if is_fat_arrow(t, k) {
            lemma_fragment_advances(t, k + 2);
            if let Ok(v) = spec_expr_end(t, k + 2) {
                lemma_clauses_within(t, v);
            }
        }
    }
}

} // verus!
