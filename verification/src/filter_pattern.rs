//! Parses the `--filter` SQL-like boolean expression DSL into a [`Filter`] tree.
//!
//! Grammar (keywords case-insensitive):
//!
//! ```text
//! expr       := or_expr
//! or_expr    := and_expr ("OR" and_expr)*
//! and_expr   := unary ("AND" unary)*
//! unary      := "NOT" unary | atom
//! atom       := "(" expr ")" | comparison
//! comparison := field ("NOT")? op value
//!             | field ("NOT")? ("LIKE" | "ILIKE") 'pattern'
//!             | field ("NOT")? ("IN" | "ANY") "(" value ("," value)* ")"
//! field      := identifier("." identifier)*
//! op         := "=" | "!=" | "<>" | ">=" | "<=" | ">" | "<"
//! value      := 'quoted string' | bare word | bare number
//! ```
//!
//! `LIKE`/`ILIKE` patterns take a single leading and/or trailing `%`: `'a%'` is a
//! starts-with test, `'%os'` ends-with, `'%foo%'` contains, and a pattern without `%` an
//! exact match. A `%` anywhere else is refused. `IN (...)` tests that the row's value is
//! one of the listed values; `ANY (...)` that the row's value is an array sharing an
//! element with them. `!=`, `<>` and a `NOT` before the operator negate the comparison.
//!
//! Quoted strings use SQL's `''` doubling for a literal quote; the split into quoted
//! and plain spans is done by `enclose-strings`.
use vstd::prelude::*;
use crate::text::{concat, i64_to_string, int_decimal, push_char, copy_string, chars_of, string_of, is_whitespace, is_alphabetic, is_alphanumeric, to_lowercase, str_equal, contains_char, parse_i64_at, whitespace_char, alphabetic_char, alphanumeric_char, lower_text, is_digit, parse_i64};
use enclose_strings::{CapturedSegment, EscapeStyle, ScanOptions, SimpleExtract};

verus! {

broadcast use vstd::string::group_string_axioms;

// ---------------------------------------------------------------------------
// The parsed filter
// ---------------------------------------------------------------------------

/// A literal value in a comparison.
#[derive(Debug, Clone)]
pub enum Literal {
    /// A quoted string or a bare word.
    Text(String),
    /// A number without a decimal point.
    Int(i64),
    /// A number with one decimal point, kept as written (a valid `f64` literal).
    Decimal(String),
}

/// Case sensitivity of a text comparison.
#[derive(Debug, Clone, Copy, PartialEq, Eq, Structural)]
pub enum CaseMode {
    Cs,
    Ci,
}

/// The test applied to the value found at a field's path.
#[derive(Debug, Clone)]
pub enum ValueTest {
    Exact(Literal, CaseMode),
    StartsWith(Literal, CaseMode),
    EndsWith(Literal, CaseMode),
    Contains(Literal, CaseMode),
    Gt(Literal),
    Gte(Literal),
    Lt(Literal),
    Lte(Literal),
    /// The row's (scalar) value equals one of these.
    OneOf(Vec<Literal>),
    /// The row's value is an array sharing at least one element with these.
    AnyOneOf(Vec<Literal>),
}

/// A test on the value at a dot-separated field path (`size.width` is `["size", "width"]`).
#[derive(Debug, Clone)]
pub struct FieldTest {
    pub path: Vec<String>,
    pub test: ValueTest,
}

/// A boolean combination of field tests.
#[derive(Debug)]
pub enum Filter {
    Match(FieldTest),
    And(Vec<Filter>),
    Or(Vec<Filter>),
    Not(Box<Filter>),
}

// Mathematical counterparts of the types above.

pub enum LitV {
    Text(Seq<char>),
    Int(i64),
    Decimal(Seq<char>),
}

pub enum TestV {
    Exact(LitV, CaseMode),
    StartsWith(LitV, CaseMode),
    EndsWith(LitV, CaseMode),
    Contains(LitV, CaseMode),
    Gt(LitV),
    Gte(LitV),
    Lt(LitV),
    Lte(LitV),
    OneOf(Seq<LitV>),
    AnyOneOf(Seq<LitV>),
}

pub enum FilterV {
    Match(Seq<Seq<char>>, TestV),
    And(Seq<FilterV>),
    Or(Seq<FilterV>),
    Not(Box<FilterV>),
}

impl View for Literal {
    type V = LitV;

    open spec fn view(&self) -> LitV {
        match self {
            Literal::Text(s) => LitV::Text(s@),
            Literal::Int(n) => LitV::Int(*n),
            Literal::Decimal(s) => LitV::Decimal(s@),
        }
    }
}

pub open spec fn lits_view(v: Seq<Literal>) -> Seq<LitV> {
    v.map_values(|l: Literal| l@)
}

pub open spec fn strings_view(v: Seq<String>) -> Seq<Seq<char>> {
    v.map_values(|s: String| s@)
}

impl View for ValueTest {
    type V = TestV;

    open spec fn view(&self) -> TestV {
        match self {
            ValueTest::Exact(l, m) => TestV::Exact(l@, *m),
            ValueTest::StartsWith(l, m) => TestV::StartsWith(l@, *m),
            ValueTest::EndsWith(l, m) => TestV::EndsWith(l@, *m),
            ValueTest::Contains(l, m) => TestV::Contains(l@, *m),
            ValueTest::Gt(l) => TestV::Gt(l@),
            ValueTest::Gte(l) => TestV::Gte(l@),
            ValueTest::Lt(l) => TestV::Lt(l@),
            ValueTest::Lte(l) => TestV::Lte(l@),
            ValueTest::OneOf(v) => TestV::OneOf(lits_view(v@)),
            ValueTest::AnyOneOf(v) => TestV::AnyOneOf(lits_view(v@)),
        }
    }
}

impl Filter {
    pub open spec fn model(self) -> FilterV
        decreases self, 0int,
    {
        match self {
            Filter::Match(t) => FilterV::Match(strings_view(t.path@), t.test@),
            Filter::And(v) => FilterV::And(Filter::models(v@)),
            Filter::Or(v) => FilterV::Or(Filter::models(v@)),
            Filter::Not(b) => FilterV::Not(Box::new((*b).model())),
        }
    }

    pub open spec fn models(s: Seq<Filter>) -> Seq<FilterV>
        decreases s, 1int,
    {
        if s.len() == 0 {
            Seq::empty()
        } else {
            Filter::models(s.subrange(0, s.len() - 1)).push(s[s.len() - 1].model())
        }
    }
}

// ---------------------------------------------------------------------------
// Tokens and errors
// ---------------------------------------------------------------------------

/// A comparison operator as written.
#[derive(Debug, Clone, Copy, PartialEq, Eq, Structural)]
pub enum CmpOp {
    Eq,
    /// `!=`
    Ne,
    /// `<>`
    LtGt,
    Ge,
    Le,
    Gt,
    Lt,
}

#[derive(Debug)]
pub enum Token {
    Ident(String),
    Int(i64),
    Decimal(String),
    Str(String),
    And,
    Or,
    Not,
    Like,
    Ilike,
    In,
    Any,
    Op(CmpOp),
    LParen,
    RParen,
    Comma,
}

pub enum TokV {
    Ident(Seq<char>),
    Int(i64),
    Decimal(Seq<char>),
    Str(Seq<char>),
    And,
    Or,
    Not,
    Like,
    Ilike,
    In,
    Any,
    Op(CmpOp),
    LParen,
    RParen,
    Comma,
}

impl View for Token {
    type V = TokV;

    open spec fn view(&self) -> TokV {
        match self {
            Token::Ident(s) => TokV::Ident(s@),
            Token::Int(n) => TokV::Int(*n),
            Token::Decimal(s) => TokV::Decimal(s@),
            Token::Str(s) => TokV::Str(s@),
            Token::And => TokV::And,
            Token::Or => TokV::Or,
            Token::Not => TokV::Not,
            Token::Like => TokV::Like,
            Token::Ilike => TokV::Ilike,
            Token::In => TokV::In,
            Token::Any => TokV::Any,
            Token::Op(op) => TokV::Op(*op),
            Token::LParen => TokV::LParen,
            Token::RParen => TokV::RParen,
            Token::Comma => TokV::Comma,
        }
    }
}

pub open spec fn toks_view(v: Seq<Token>) -> Seq<TokV> {
    v.map_values(|t: Token| t@)
}

/// Why a `--filter` string was refused.
#[derive(Debug)]
pub enum FilterError {
    /// A `'` that opens a string literal is never closed.
    UnterminatedString,
    /// A `!` not followed by `=`.
    StrayBang,
    /// A number that does not parse (too large, or more than one `.`).
    InvalidNumber(String),
    UnexpectedChar(char),
    /// Nothing but whitespace.
    Empty,
    /// Tokens left over after a complete expression.
    TrailingContent,
    /// A `(` opened a group that is not closed; holds what was found instead.
    ExpectedCloseParen(Option<Token>),
    /// `IN`/`ANY` not followed by `(`.
    ExpectedListOpen(Option<Token>),
    ExpectedField(Option<Token>),
    /// A field reference with an empty segment between dots.
    EmptyPathSegment(String),
    /// A field not followed by an operator; holds the field and what was found.
    ExpectedOperator(String, Option<Token>),
    /// `LIKE`/`ILIKE` not followed by a quoted pattern.
    ExpectedPattern(Option<Token>),
    ExpectedValue(Option<Token>),
    ExpectedCommaOrClose(Option<Token>),
    /// A `LIKE` pattern with `%` other than at its ends.
    MiddleWildcard(String),
}

pub enum ErrV {
    UnterminatedString,
    StrayBang,
    InvalidNumber(Seq<char>),
    UnexpectedChar(char),
    Empty,
    TrailingContent,
    ExpectedCloseParen(Option<TokV>),
    ExpectedListOpen(Option<TokV>),
    ExpectedField(Option<TokV>),
    EmptyPathSegment(Seq<char>),
    ExpectedOperator(Seq<char>, Option<TokV>),
    ExpectedPattern(Option<TokV>),
    ExpectedValue(Option<TokV>),
    ExpectedCommaOrClose(Option<TokV>),
    MiddleWildcard(Seq<char>),
}

pub open spec fn opt_tok_view(t: Option<Token>) -> Option<TokV> {
    match t {
        Some(t) => Some(t@),
        None => None,
    }
}

impl View for FilterError {
    type V = ErrV;

    open spec fn view(&self) -> ErrV {
        match self {
            FilterError::UnterminatedString => ErrV::UnterminatedString,
            FilterError::StrayBang => ErrV::StrayBang,
            FilterError::InvalidNumber(s) => ErrV::InvalidNumber(s@),
            FilterError::UnexpectedChar(c) => ErrV::UnexpectedChar(*c),
            FilterError::Empty => ErrV::Empty,
            FilterError::TrailingContent => ErrV::TrailingContent,
            FilterError::ExpectedCloseParen(t) => ErrV::ExpectedCloseParen(opt_tok_view(*t)),
            FilterError::ExpectedListOpen(t) => ErrV::ExpectedListOpen(opt_tok_view(*t)),
            FilterError::ExpectedField(t) => ErrV::ExpectedField(opt_tok_view(*t)),
            FilterError::EmptyPathSegment(s) => ErrV::EmptyPathSegment(s@),
            FilterError::ExpectedOperator(f, t) => ErrV::ExpectedOperator(f@, opt_tok_view(*t)),
            FilterError::ExpectedPattern(t) => ErrV::ExpectedPattern(opt_tok_view(*t)),
            FilterError::ExpectedValue(t) => ErrV::ExpectedValue(opt_tok_view(*t)),
            FilterError::ExpectedCommaOrClose(t) => ErrV::ExpectedCommaOrClose(opt_tok_view(*t)),
            FilterError::MiddleWildcard(s) => ErrV::MiddleWildcard(s@),
        }
    }
}

// ---------------------------------------------------------------------------
// Lexing
// ---------------------------------------------------------------------------

/// Prepends `t` to a successful token list.
pub open spec fn cons_ok(t: TokV, r: Result<Seq<TokV>, ErrV>) -> Result<Seq<TokV>, ErrV> {
    match r {
        Ok(ts) => Ok(seq![t] + ts),
        Err(e) => Err(e),
    }
}

/// Prepends `ts` to a successful token list.
pub open spec fn join_ok(ts: Seq<TokV>, r: Result<Seq<TokV>, ErrV>) -> Result<Seq<TokV>, ErrV> {
    match r {
        Ok(us) => Ok(ts + us),
        Err(e) => Err(e),
    }
}

/// The end of the run of digits and dots starting at `i`.
pub open spec fn number_end(cs: Seq<char>, i: int) -> int
    decreases cs.len() - i,
{
    if 0 <= i < cs.len() && (is_digit(cs[i]) || cs[i] == '.') {
        number_end(cs, i + 1)
    } else {
        i
    }
}

/// The end of the run of identifier characters (alphanumeric, `_`, `.`) starting at `i`.
pub open spec fn word_end(cs: Seq<char>, i: int) -> int
    decreases cs.len() - i,
{
    if 0 <= i < cs.len() && (alphanumeric_char(cs[i]) || cs[i] == '_' || cs[i] == '.') {
        word_end(cs, i + 1)
    } else {
        i
    }
}

pub proof fn lemma_number_end(cs: Seq<char>, i: int)
    requires
        0 <= i <= cs.len(),
    ensures
        i <= number_end(cs, i) <= cs.len(),
        forall|k: int| i <= k < number_end(cs, i) ==> is_digit(#[trigger] cs[k]) || cs[k] == '.',
    decreases cs.len() - i,
{
    if i < cs.len() && (is_digit(cs[i]) || cs[i] == '.') {
        lemma_number_end(cs, i + 1);
    }
}

pub proof fn lemma_word_end(cs: Seq<char>, i: int)
    requires
        0 <= i <= cs.len(),
    ensures
        i <= word_end(cs, i) <= cs.len(),
    decreases cs.len() - i,
{
    if i < cs.len() && (alphanumeric_char(cs[i]) || cs[i] == '_' || cs[i] == '.') {
        lemma_word_end(cs, i + 1);
    }
}

/// How many times `c` occurs in `s`.
pub open spec fn count_char(s: Seq<char>, c: char) -> nat
    decreases s.len(),
{
    if s.len() == 0 {
        0
    } else {
        count_char(s.drop_last(), c) + if s.last() == c { 1nat } else { 0nat }
    }
}

/// The token for a run of digits and dots (with an optional leading `-`): an `i64` when
/// there is no `.`, a decimal when there is exactly one (the shape `f64` parsing accepts
/// here), an error otherwise.
pub open spec fn number_token(text: Seq<char>) -> Result<TokV, ErrV> {
    if text.contains('.') {
        if count_char(text, '.') == 1 {
            Ok(TokV::Decimal(text))
        } else {
            Err(ErrV::InvalidNumber(text))
        }
    } else {
        match parse_i64(text) {
            Some(v) => Ok(TokV::Int(v as i64)),
            None => Err(ErrV::InvalidNumber(text)),
        }
    }
}

/// The token for a word: a keyword when its lowercase form is one, else an identifier.
pub open spec fn word_token(text: Seq<char>) -> TokV {
    let l = lower_text(text);
    if l == "and"@ {
        TokV::And
    } else if l == "or"@ {
        TokV::Or
    } else if l == "not"@ {
        TokV::Not
    } else if l == "like"@ {
        TokV::Like
    } else if l == "ilike"@ {
        TokV::Ilike
    } else if l == "in"@ {
        TokV::In
    } else if l == "any"@ {
        TokV::Any
    } else {
        TokV::Ident(text)
    }
}

/// The two-character operator starting with `a` `b`, if any.
pub open spec fn two_char_op(a: char, b: char) -> Option<CmpOp> {
    if a == '>' && b == '=' {
        Some(CmpOp::Ge)
    } else if a == '<' && b == '=' {
        Some(CmpOp::Le)
    } else if a == '!' && b == '=' {
        Some(CmpOp::Ne)
    } else if a == '<' && b == '>' {
        Some(CmpOp::LtGt)
    } else {
        None
    }
}

pub open spec fn starts_number(cs: Seq<char>, i: int) -> bool {
    is_digit(cs[i]) || (cs[i] == '-' && i + 1 < cs.len() && is_digit(cs[i + 1]))
}

/// The tokens of the quote-free text `cs` from position `i` on.
pub open spec fn lex_from(cs: Seq<char>, i: int) -> Result<Seq<TokV>, ErrV>
    decreases cs.len() - i,
{
    if i < 0 || i >= cs.len() {
        Ok(Seq::empty())
    } else {
        let c = cs[i];
        if whitespace_char(c) {
            lex_from(cs, i + 1)
        } else if c == '(' {
            cons_ok(TokV::LParen, lex_from(cs, i + 1))
        } else if c == ')' {
            cons_ok(TokV::RParen, lex_from(cs, i + 1))
        } else if c == '>' || c == '<' || c == '!' || c == '=' {
            if i + 1 < cs.len() && two_char_op(c, cs[i + 1]) is Some {
                cons_ok(TokV::Op(two_char_op(c, cs[i + 1])->0), lex_from(cs, i + 2))
            } else if c == '>' {
                cons_ok(TokV::Op(CmpOp::Gt), lex_from(cs, i + 1))
            } else if c == '<' {
                cons_ok(TokV::Op(CmpOp::Lt), lex_from(cs, i + 1))
            } else if c == '=' {
                cons_ok(TokV::Op(CmpOp::Eq), lex_from(cs, i + 1))
            } else {
                Err(ErrV::StrayBang)
            }
        } else if starts_number(cs, i) {
            let j = number_end(cs, i + 1);
            proof {
                lemma_number_end(cs, i + 1);
            }
            match number_token(cs.subrange(i, j)) {
                Ok(t) => cons_ok(t, lex_from(cs, j)),
                Err(e) => Err(e),
            }
        } else if alphabetic_char(c) || c == '_' {
            let j = word_end(cs, i + 1);
            proof {
                lemma_word_end(cs, i + 1);
            }
            cons_ok(word_token(cs.subrange(i, j)), lex_from(cs, j))
        } else if c == ',' {
            cons_ok(TokV::Comma, lex_from(cs, i + 1))
        } else {
            Err(ErrV::UnexpectedChar(c))
        }
    }
}

proof fn lemma_join_cons(cur: Seq<TokV>, t: TokV, r: Result<Seq<TokV>, ErrV>)
    ensures
        join_ok(cur, cons_ok(t, r)) == join_ok(cur.push(t), r),
{
    if let Ok(us) = r {
        assert(cur + (seq![t] + us) =~= cur.push(t) + us);
    }
}

proof fn lemma_join_join(a: Seq<TokV>, b: Seq<TokV>, r: Result<Seq<TokV>, ErrV>)
    ensures
        join_ok(a, join_ok(b, r)) == join_ok(a + b, r),
{
    if let Ok(us) = r {
        assert(a + (b + us) =~= (a + b) + us);
    }
}

proof fn lemma_toks_view_push(v: Seq<Token>, t: Token)
    ensures
        toks_view(v.push(t)) == toks_view(v).push(t@),
{
    assert(toks_view(v.push(t)) =~= toks_view(v).push(t@));
}

/// `count_char(cs[from..to], c)`.
fn count_char_in(cs: &Vec<char>, from: usize, to: usize, c: char) -> (n: usize)
    requires
        from <= to <= cs.len(),
    ensures
        n == count_char(cs@.subrange(from as int, to as int), c),
{
    let mut n: usize = 0;
    let mut i: usize = from;
    while i < to
        invariant
            from <= i <= to <= cs.len(),
            n == count_char(cs@.subrange(from as int, i as int), c),
            n <= i - from,
        decreases to - i,
    {
        assert(cs@.subrange(from as int, i + 1).drop_last() =~= cs@.subrange(from as int, i as int));
        if cs[i] == c {
            n += 1;
        }
        i += 1;
    }
    n
}

/// The token for the number written in `cs[from..to]`, as `number_token` describes it.
fn number_token_at(cs: &Vec<char>, from: usize, to: usize) -> (r: Result<Token, FilterError>)
    requires
        from <= to <= cs.len(),
    ensures
        match number_token(cs@.subrange(from as int, to as int)) {
            Ok(t) => r matches Ok(x) && x@ == t,
            Err(e) => r matches Err(x) && x@ == e,
        },
{
    let ghost text = cs@.subrange(from as int, to as int);
    let text_string = string_of(cs, from, to);
    let dots = count_char_in(cs, from, to, '.');
    let has_dot = contains_char(&chars_of(text_string.as_str()), '.');
    if has_dot {
        if dots == 1 {
            Ok(Token::Decimal(text_string))
        } else {
            Err(FilterError::InvalidNumber(text_string))
        }
    } else {
        match parse_i64_at(cs, from, to) {
            Some(v) => Ok(Token::Int(v)),
            None => Err(FilterError::InvalidNumber(text_string)),
        }
    }
}

/// The token for the word `text`, as `word_token` describes it.
fn word_token_of(text: String) -> (t: Token)
    ensures
        t@ == word_token(text@),
{
    let lower = to_lowercase(text.as_str());
    let l = lower.as_str();
    if str_equal(l, "and") {
        Token::And
    } else if str_equal(l, "or") {
        Token::Or
    } else if str_equal(l, "not") {
        Token::Not
    } else if str_equal(l, "like") {
        Token::Like
    } else if str_equal(l, "ilike") {
        Token::Ilike
    } else if str_equal(l, "in") {
        Token::In
    } else if str_equal(l, "any") {
        Token::Any
    } else {
        Token::Ident(text)
    }
}

fn two_char_op_of(a: char, b: char) -> (r: Option<CmpOp>)
    ensures
        r == two_char_op(a, b),
{
    if a == '>' && b == '=' {
        Some(CmpOp::Ge)
    } else if a == '<' && b == '=' {
        Some(CmpOp::Le)
    } else if a == '!' && b == '=' {
        Some(CmpOp::Ne)
    } else if a == '<' && b == '>' {
        Some(CmpOp::LtGt)
    } else {
        None
    }
}

/// Tokenizes a quote-free span, appending its tokens to `tokens`.
pub fn tokenize_plain(span: &str, tokens: &mut Vec<Token>) -> (r: Result<(), FilterError>)
    ensures
        match lex_from(span@, 0) {
            Ok(ts) => r is Ok && toks_view(final(tokens)@) == toks_view(old(tokens)@) + ts,
            Err(e) => r matches Err(x) && x@ == e,
        },
{
    let chars = chars_of(span);
    let ghost cs = chars@;
    let ghost base = toks_view(old(tokens)@);
    let mut i: usize = 0;
    proof {
        assert(base =~= base + Seq::<TokV>::empty());
        assert(join_ok(base, lex_from(cs, 0)) == join_ok(toks_view(tokens@), lex_from(cs, 0)));
    }
    while i < chars.len()
        invariant
            cs == chars@,
            cs == span@,
            0 <= i <= chars.len(),
            join_ok(base, lex_from(cs, 0)) == join_ok(toks_view(tokens@), lex_from(cs, i as int)),
        decreases chars.len() - i,
    {
        let c = chars[i];
        let ghost cur = toks_view(tokens@);
        if is_whitespace(c) {
            i += 1;
            continue;
        }
        if c == '(' {
            proof {
                lemma_join_cons(cur, TokV::LParen, lex_from(cs, i + 1));
                lemma_toks_view_push(tokens@, Token::LParen);
            }
            tokens.push(Token::LParen);
            i += 1;
        } else if c == ')' {
            proof {
                lemma_join_cons(cur, TokV::RParen, lex_from(cs, i + 1));
                lemma_toks_view_push(tokens@, Token::RParen);
            }
            tokens.push(Token::RParen);
            i += 1;
        } else if c == '>' || c == '<' || c == '!' || c == '=' {
            let two: Option<CmpOp> = if i + 1 < chars.len() {
                two_char_op_of(c, chars[i + 1])
            } else {
                None
            };
            if let Some(op) = two {
                proof {
                    lemma_join_cons(cur, TokV::Op(op), lex_from(cs, i + 2));
                    lemma_toks_view_push(tokens@, Token::Op(op));
                }
                tokens.push(Token::Op(op));
                i += 2;
            } else {
                let op = if c == '>' {
                    CmpOp::Gt
                } else if c == '<' {
                    CmpOp::Lt
                } else if c == '=' {
                    CmpOp::Eq
                } else {
                    return Err(FilterError::StrayBang);
                };
                proof {
                    lemma_join_cons(cur, TokV::Op(op), lex_from(cs, i + 1));
                    lemma_toks_view_push(tokens@, Token::Op(op));
                }
                tokens.push(Token::Op(op));
                i += 1;
            }
        } else if ('0' <= c && c <= '9') || (c == '-' && i + 1 < chars.len() && '0' <= chars[i + 1]
            && chars[i + 1] <= '9') {
            let start: usize = i;
            i += 1;
            proof {
                lemma_number_end(cs, i as int);
            }
            while i < chars.len() && (('0' <= chars[i] && chars[i] <= '9') || chars[i] == '.')
                invariant
                    cs == chars@,
                    start < i <= chars.len(),
                    number_end(cs, start + 1) == number_end(cs, i as int),
                decreases chars.len() - i,
            {
                i += 1;
            }
            let t = number_token_at(&chars, start, i)?;
            proof {
                lemma_join_cons(cur, t@, lex_from(cs, i as int));
                lemma_toks_view_push(tokens@, t);
            }
            tokens.push(t);
        } else if is_alphabetic(c) || c == '_' {
            let start: usize = i;
            i += 1;
            while i < chars.len() && (is_alphanumeric(chars[i]) || chars[i] == '_' || chars[i] == '.')
                invariant
                    cs == chars@,
                    start < i <= chars.len(),
                    word_end(cs, start + 1) == word_end(cs, i as int),
                decreases chars.len() - i,
            {
                i += 1;
            }
            let t = word_token_of(string_of(&chars, start, i));
            proof {
                lemma_join_cons(cur, t@, lex_from(cs, i as int));
                lemma_toks_view_push(tokens@, t);
            }
            tokens.push(t);
        } else if c == ',' {
            proof {
                lemma_join_cons(cur, TokV::Comma, lex_from(cs, i + 1));
                lemma_toks_view_push(tokens@, Token::Comma);
            }
            tokens.push(Token::Comma);
            i += 1;
        } else {
            return Err(FilterError::UnexpectedChar(c));
        }
    }
    proof {
        assert(toks_view(tokens@) =~= toks_view(tokens@) + Seq::<TokV>::empty());
    }
    Ok(())
}

/// A piece of a `--filter` string: the content of a `'...'` literal (with `''` already
/// turned into `'`), or the text between literals.
pub enum QuotePiece {
    Quoted(String),
    Plain(String),
}

impl View for QuotePiece {
    type V = (bool, Seq<char>);

    open spec fn view(&self) -> (bool, Seq<char>) {
        match self {
            QuotePiece::Quoted(s) => (true, s@),
            QuotePiece::Plain(s) => (false, s@),
        }
    }
}

pub open spec fn pieces_view(v: Seq<QuotePiece>) -> Seq<(bool, Seq<char>)> {
    v.map_values(|p: QuotePiece| p@)
}

/// The text of a quoted literal, read from just after its opening `'`: up to the next
/// single `'`, with each doubled `''` read as one `'`; with how many characters that uses
/// up, the closing `'` included. `None` where no closing `'` comes.
pub open spec fn quoted_body(t: Seq<char>) -> Option<(Seq<char>, int)>
    decreases t.len(),
{
    if t.len() == 0 {
        None
    } else if t[0] == '\'' {
        if t.len() > 1 && t[1] == '\'' {
            match quoted_body(t.skip(2)) {
                Some((c, n)) => Some((seq!['\''] + c, n + 2)),
                None => None,
            }
        } else {
            Some((Seq::empty(), 1))
        }
    } else {
        match quoted_body(t.drop_first()) {
            Some((c, n)) => Some((seq![t[0]] + c, n + 1)),
            None => None,
        }
    }
}

/// How `s` splits into single-quoted literals (`true`, with the quotes removed and `''`
/// read as `'`) and the text around them (`false`), in order, with no empty plain piece.
/// An opening `'` that is never closed makes it and everything after it plain text.
pub open spec fn quote_split(s: Seq<char>) -> Seq<(bool, Seq<char>)>
    decreases s.len(),
{
    match crate::key_pattern::first_index(s, '\'') {
        None => if s.len() == 0 {
            Seq::empty()
        } else {
            seq![(false, s)]
        },
        Some(o) => match quoted_body(s.skip(o + 1)) {
            Some((c, n)) => if 0 <= o && 0 < n && o + 1 + n <= s.len() {
                (if o > 0 { seq![(false, s.take(o))] } else { Seq::empty() }) + seq![(true, c)] + quote_split(
                    s.skip(o + 1 + n),
                )
            } else {
                seq![(false, s)]
            },
            None => seq![(false, s)],
        },
    }
}

/// Trusted: calls `SimpleExtract::extract_enclosures_with` of `enclose-strings` with `'`
/// as both delimiters, SQL's doubling convention (`EscapeStyle::Doubled`), no quoted
/// regions and no nesting, and copies each segment out. Its source splits as
/// `quote_split` describes: from each next `'`, the literal up to the next single `'`
/// (a doubled `''` is one `'`); the text before it as a plain piece where it is not
/// empty; an unterminated literal and everything after it as one plain piece.
#[verifier::external_body]
fn split_single_quoted(input: &str) -> (pieces: Vec<QuotePiece>)
    ensures
        pieces_view(pieces@) == quote_split(input@),
{
    input.extract_enclosures_with('\'', '\'', ScanOptions::escaped(EscapeStyle::Doubled))
        .into_iter()
        .map(|segment| match segment {
            CapturedSegment::Enclosure(content) => QuotePiece::Quoted(content.into_owned()),
            CapturedSegment::Outside(text) => QuotePiece::Plain(text.to_string()),
        })
        .collect()
}

/// The tokens of a string split into quoted and plain pieces: a quoted piece is one
/// string token; a plain piece holding a `'` means a literal was never closed; any other
/// plain piece is lexed by `lex_from`. The first error met, in order, is the result.
pub open spec fn lex_pieces(ps: Seq<(bool, Seq<char>)>) -> Result<Seq<TokV>, ErrV>
    decreases ps.len(),
{
    if ps.len() == 0 {
        Ok(Seq::empty())
    } else {
        let (quoted, text) = ps[0];
        let first: Result<Seq<TokV>, ErrV> = if quoted {
            Ok(seq![TokV::Str(text)])
        } else if text.contains('\'') {
            Err(ErrV::UnterminatedString)
        } else {
            lex_from(text, 0)
        };
        match first {
            Ok(ts) => join_ok(ts, lex_pieces(ps.drop_first())),
            Err(e) => Err(e),
        }
    }
}

/// Tokenizes the pieces of a split `--filter` string, as `lex_pieces` describes.
pub fn tokenize_pieces(pieces: &Vec<QuotePiece>) -> (r: Result<Vec<Token>, FilterError>)
    ensures
        match lex_pieces(pieces_view(pieces@)) {
            Ok(ts) => r matches Ok(v) && toks_view(v@) == ts,
            Err(e) => r matches Err(x) && x@ == e,
        },
{
    let ghost ps = pieces_view(pieces@);
    let mut tokens: Vec<Token> = Vec::new();
    let mut k: usize = 0;
    let n = pieces.len();
    proof {
        assert(toks_view(tokens@) =~= Seq::<TokV>::empty());
        assert(ps.skip(0) =~= ps);
        if let Ok(ts) = lex_pieces(ps) {
            assert(Seq::<TokV>::empty() + ts =~= ts);
        }
    }
    while k < n
        invariant
            0 <= k <= n,
            n == ps.len(),
            ps == pieces_view(pieces@),
            lex_pieces(ps) == join_ok(toks_view(tokens@), lex_pieces(ps.skip(k as int))),
        decreases n - k,
    {
        let ghost cur = toks_view(tokens@);
        let ghost tail = ps.skip(k as int);
        assert(pieces@[k as int]@ == tail[0]);
        assert(tail.drop_first() =~= ps.skip(k + 1));
        match &pieces[k] {
            QuotePiece::Quoted(content) => {
                let t = Token::Str(copy_string(content));
                proof {
                    lemma_join_join(cur, seq![TokV::Str(content@)], lex_pieces(ps.skip(k + 1)));
                    lemma_toks_view_push(tokens@, t);
                    assert(cur + seq![TokV::Str(content@)] =~= cur.push(TokV::Str(content@)));
                }
                tokens.push(t);
            },
            QuotePiece::Plain(text) => {
                let text_chars = chars_of(text.as_str());
                if contains_char(&text_chars, '\'') {
                    return Err(FilterError::UnterminatedString);
                }
                let res = tokenize_plain(text.as_str(), &mut tokens);
                match res {
                    Ok(()) => {
                        proof {
                            let ts = lex_from(text@, 0)->Ok_0;
                            lemma_join_join(cur, ts, lex_pieces(ps.skip(k + 1)));
                        }
                    },
                    Err(e) => {
                        return Err(e);
                    },
                }
            },
        }
        k += 1;
    }
    proof {
        assert(ps.skip(n as int) =~= Seq::<(bool, Seq<char>)>::empty());
        assert(toks_view(tokens@) + Seq::<TokV>::empty() =~= toks_view(tokens@));
    }
    Ok(tokens)
}

/// Splits `input` into tokens: quoted literals first (by `enclose-strings`), then the text
/// between them character by character.
pub fn tokenize(input: &str) -> (r: Result<Vec<Token>, FilterError>)
    ensures
        match lex_pieces(quote_split(input@)) {
            Ok(ts) => r matches Ok(v) && toks_view(v@) == ts,
            Err(e) => r matches Err(x) && x@ == e,
        },
{
    let pieces = split_single_quoted(input);
    tokenize_pieces(&pieces)
}

// ---------------------------------------------------------------------------
// What a token list parses to
// ---------------------------------------------------------------------------

/// The pieces of `s` between occurrences of `c`, as `str::split` gives them: one more
/// piece than there are `c`s, any of them possibly empty.
pub open spec fn split_on(s: Seq<char>, c: char) -> Seq<Seq<char>>
    decreases s.len(),
{
    if s.len() == 0 {
        seq![Seq::empty()]
    } else {
        let init = split_on(s.drop_last(), c);
        if s.last() == c {
            init.push(Seq::empty())
        } else {
            init.update(init.len() - 1, init.last().push(s.last()))
        }
    }
}

pub proof fn lemma_split_on_nonempty(s: Seq<char>, c: char)
    ensures
        split_on(s, c).len() >= 1,
    decreases s.len(),
{
    if s.len() > 0 {
        lemma_split_on_nonempty(s.drop_last(), c);
    }
}

pub open spec fn has_empty_piece(ps: Seq<Seq<char>>) -> bool {
    exists|i: int| 0 <= i < ps.len() && (#[trigger] ps[i]).len() == 0
}

/// `s` without its leading run of `c`s.
pub open spec fn trim_start_char(s: Seq<char>, c: char) -> Seq<char>
    decreases s.len(),
{
    if s.len() > 0 && s[0] == c {
        trim_start_char(s.drop_first(), c)
    } else {
        s
    }
}

/// `s` without its trailing run of `c`s.
pub open spec fn trim_end_char(s: Seq<char>, c: char) -> Seq<char>
    decreases s.len(),
{
    if s.len() > 0 && s.last() == c {
        trim_end_char(s.drop_last(), c)
    } else {
        s
    }
}

/// The test a `LIKE`/`ILIKE` pattern stands for: a leading `%` anchors at the end, a
/// trailing one at the start, both make a contains test, neither an exact match; a `%`
/// left after trimming the leading and trailing runs is refused.
pub open spec fn like_test(pattern: Seq<char>, mode: CaseMode) -> Result<TestV, ErrV> {
    let leading = pattern.len() > 0 && pattern[0] == '%';
    let trailing = pattern.len() > 0 && pattern.last() == '%';
    let trimmed = trim_end_char(trim_start_char(pattern, '%'), '%');
    if trimmed.contains('%') {
        Err(ErrV::MiddleWildcard(pattern))
    } else if leading && trailing {
        Ok(TestV::Contains(LitV::Text(trimmed), mode))
    } else if leading {
        Ok(TestV::EndsWith(LitV::Text(trimmed), mode))
    } else if trailing {
        Ok(TestV::StartsWith(LitV::Text(trimmed), mode))
    } else {
        Ok(TestV::Exact(LitV::Text(trimmed), mode))
    }
}

/// The test an operator makes against `v` (`!=` and `<>` are an exact test that the
/// comparison then negates).
pub open spec fn op_test(op: CmpOp, v: LitV) -> TestV {
    match op {
        CmpOp::Eq | CmpOp::Ne | CmpOp::LtGt => TestV::Exact(v, CaseMode::Cs),
        CmpOp::Gt => TestV::Gt(v),
        CmpOp::Ge => TestV::Gte(v),
        CmpOp::Lt => TestV::Lt(v),
        CmpOp::Le => TestV::Lte(v),
    }
}

pub open spec fn negates(op: CmpOp) -> bool {
    op == CmpOp::Ne || op == CmpOp::LtGt
}

pub open spec fn negate_if(neg: bool, f: FilterV) -> FilterV {
    if neg {
        FilterV::Not(Box::new(f))
    } else {
        f
    }
}

/// `l OR r`, extending `l` when it already is a disjunction.
pub open spec fn or_join(l: FilterV, r: FilterV) -> FilterV {
    match l {
        FilterV::Or(cs) => FilterV::Or(cs.push(r)),
        _ => FilterV::Or(seq![l, r]),
    }
}

/// `l AND r`, extending `l` when it already is a conjunction.
pub open spec fn and_join(l: FilterV, r: FilterV) -> FilterV {
    match l {
        FilterV::And(cs) => FilterV::And(cs.push(r)),
        _ => FilterV::And(seq![l, r]),
    }
}

pub open spec fn tok_at(toks: Seq<TokV>, p: int) -> Option<TokV> {
    if 0 <= p < toks.len() {
        Some(toks[p])
    } else {
        None
    }
}

/// A value: a quoted string or a bare word as text, or a number.
pub open spec fn p_value(toks: Seq<TokV>, p: int) -> Result<(LitV, int), ErrV> {
    match tok_at(toks, p) {
        Some(TokV::Str(s)) => Ok((LitV::Text(s), p + 1)),
        Some(TokV::Ident(s)) => Ok((LitV::Text(s), p + 1)),
        Some(TokV::Int(n)) => Ok((LitV::Int(n), p + 1)),
        Some(TokV::Decimal(t)) => Ok((LitV::Decimal(t), p + 1)),
        other => Err(ErrV::ExpectedValue(other)),
    }
}

/// The rest of a value list after `acc`: `("," value)* ")"`.
pub open spec fn p_list_rest(toks: Seq<TokV>, p: int, acc: Seq<LitV>) -> Result<(Seq<LitV>, int), ErrV>
    decreases toks.len() - p,
{
    match tok_at(toks, p) {
        Some(TokV::Comma) => match p_value(toks, p + 1) {
            Ok((v, q)) => p_list_rest(toks, p + 2, acc.push(v)),
            Err(e) => Err(e),
        },
        Some(TokV::RParen) => Ok((acc, p + 1)),
        other => Err(ErrV::ExpectedCommaOrClose(other)),
    }
}

/// `"(" value ("," value)* ")"`.
pub open spec fn p_list(toks: Seq<TokV>, p: int) -> Result<(Seq<LitV>, int), ErrV> {
    if tok_at(toks, p) == Some(TokV::LParen) {
        match p_value(toks, p + 1) {
            Ok((v, q)) => p_list_rest(toks, p + 2, seq![v]),
            Err(e) => Err(e),
        }
    } else {
        Err(ErrV::ExpectedListOpen(tok_at(toks, p)))
    }
}

/// What follows a field (and its optional `NOT`): an operator and a value, a
/// `LIKE`/`ILIKE` pattern, or an `IN`/`ANY` list. Gives the test, whether the operator
/// itself negates it (`!=`, `<>`), and the position after it.
pub open spec fn p_condition(toks: Seq<TokV>, field: Seq<char>, p: int) -> Result<(TestV, bool, int), ErrV> {
    match tok_at(toks, p) {
        Some(TokV::Op(op)) => match p_value(toks, p + 1) {
            Ok((v, q)) => Ok((op_test(op, v), negates(op), q)),
            Err(e) => Err(e),
        },
        Some(TokV::Like) | Some(TokV::Ilike) => {
            let mode = if tok_at(toks, p) == Some(TokV::Ilike) { CaseMode::Ci } else { CaseMode::Cs };
            match tok_at(toks, p + 1) {
                Some(TokV::Str(pattern)) => match like_test(pattern, mode) {
                    Ok(t) => Ok((t, false, p + 2)),
                    Err(e) => Err(e),
                },
                other => Err(ErrV::ExpectedPattern(other)),
            }
        },
        Some(TokV::In) => match p_list(toks, p + 1) {
            Ok((vs, q)) => Ok((TestV::OneOf(vs), false, q)),
            Err(e) => Err(e),
        },
        Some(TokV::Any) => match p_list(toks, p + 1) {
            Ok((vs, q)) => Ok((TestV::AnyOneOf(vs), false, q)),
            Err(e) => Err(e),
        },
        other => Err(ErrV::ExpectedOperator(field, other)),
    }
}

/// One comparison: a field, an optional `NOT`, then what `p_condition` reads. The
/// comparison is negated when either the `NOT` or the operator asks for it.
pub open spec fn p_comparison(toks: Seq<TokV>, p: int) -> Result<(FilterV, int), ErrV> {
    match tok_at(toks, p) {
        Some(TokV::Ident(field)) => {
            let path = split_on(field, '.');
            if has_empty_piece(path) {
                Err(ErrV::EmptyPathSegment(field))
            } else {
                let neg = tok_at(toks, p + 1) == Some(TokV::Not);
                let p1 = if neg { p + 2 } else { p + 1 };
                match p_condition(toks, field, p1) {
                    Ok((t, op_neg, q)) => Ok((negate_if(neg || op_neg, FilterV::Match(path, t)), q)),
                    Err(e) => Err(e),
                }
            }
        },
        other => Err(ErrV::ExpectedField(other)),
    }
}

/// `expr := and_expr ("OR" and_expr)*`
pub open spec fn p_expr(toks: Seq<TokV>, p: int) -> Result<(FilterV, int), ErrV>
    decreases toks.len() - p, 5int,
{
    match p_and(toks, p) {
        Ok((l, q)) => if p < q <= toks.len() {
            p_or_rest(toks, q, l)
        } else {
            Ok((l, q))
        },
        Err(e) => Err(e),
    }
}

/// The `("OR" and_expr)*` continuing `left` from `p`.
pub open spec fn p_or_rest(toks: Seq<TokV>, p: int, left: FilterV) -> Result<(FilterV, int), ErrV>
    decreases toks.len() - p, 0int,
{
    if tok_at(toks, p) == Some(TokV::Or) {
        match p_and(toks, p + 1) {
            Ok((r, q)) => if p < q <= toks.len() {
                p_or_rest(toks, q, or_join(left, r))
            } else {
                Ok((or_join(left, r), q))
            },
            Err(e) => Err(e),
        }
    } else {
        Ok((left, p))
    }
}

/// `and_expr := unary ("AND" unary)*`
pub open spec fn p_and(toks: Seq<TokV>, p: int) -> Result<(FilterV, int), ErrV>
    decreases toks.len() - p, 4int,
{
    match p_unary(toks, p) {
        Ok((l, q)) => if p < q <= toks.len() {
            p_and_rest(toks, q, l)
        } else {
            Ok((l, q))
        },
        Err(e) => Err(e),
    }
}

/// The `("AND" unary)*` continuing `left` from `p`.
pub open spec fn p_and_rest(toks: Seq<TokV>, p: int, left: FilterV) -> Result<(FilterV, int), ErrV>
    decreases toks.len() - p, 0int,
{
    if tok_at(toks, p) == Some(TokV::And) {
        match p_unary(toks, p + 1) {
            Ok((r, q)) => if p < q <= toks.len() {
                p_and_rest(toks, q, and_join(left, r))
            } else {
                Ok((and_join(left, r), q))
            },
            Err(e) => Err(e),
        }
    } else {
        Ok((left, p))
    }
}

/// `unary := "NOT" unary | atom`
pub open spec fn p_unary(toks: Seq<TokV>, p: int) -> Result<(FilterV, int), ErrV>
    decreases toks.len() - p, 3int,
{
    if tok_at(toks, p) == Some(TokV::Not) {
        match p_unary(toks, p + 1) {
            Ok((f, q)) => Ok((FilterV::Not(Box::new(f)), q)),
            Err(e) => Err(e),
        }
    } else {
        p_atom(toks, p)
    }
}

/// `atom := "(" expr ")" | comparison`
pub open spec fn p_atom(toks: Seq<TokV>, p: int) -> Result<(FilterV, int), ErrV>
    decreases toks.len() - p, 2int,
{
    if tok_at(toks, p) == Some(TokV::LParen) {
        match p_expr(toks, p + 1) {
            Ok((f, q)) => if tok_at(toks, q) == Some(TokV::RParen) {
                Ok((f, q + 1))
            } else {
                Err(ErrV::ExpectedCloseParen(tok_at(toks, q)))
            },
            Err(e) => Err(e),
        }
    } else {
        p_comparison(toks, p)
    }
}

/// What a whole token list parses to: an expression that uses up every token.
pub open spec fn parse_tokens_spec(toks: Seq<TokV>) -> Result<FilterV, ErrV> {
    if toks.len() == 0 {
        Err(ErrV::Empty)
    } else {
        match p_expr(toks, 0) {
            Ok((f, q)) => if q == toks.len() {
                Ok(f)
            } else {
                Err(ErrV::TrailingContent)
            },
            Err(e) => Err(e),
        }
    }
}

/// What a `--filter` string parses to, once split into quoted and plain pieces.
pub open spec fn parse_pieces_spec(ps: Seq<(bool, Seq<char>)>) -> Result<FilterV, ErrV> {
    match lex_pieces(ps) {
        Ok(ts) => parse_tokens_spec(ts),
        Err(e) => Err(e),
    }
}

// Every successful parse consumes at least one token and stays within the list.

pub proof fn lemma_list_rest_progress(toks: Seq<TokV>, p: int, acc: Seq<LitV>)
    requires
        0 <= p,
    ensures
        p_list_rest(toks, p, acc) matches Ok((_, q)) ==> p < q <= toks.len(),
    decreases toks.len() - p,
{
    if tok_at(toks, p) == Some(TokV::Comma) {
        if let Ok((v, q)) = p_value(toks, p + 1) {
            lemma_list_rest_progress(toks, p + 2, acc.push(v));
        }
    }
}

pub proof fn lemma_comparison_progress(toks: Seq<TokV>, p: int)
    requires
        0 <= p,
    ensures
        p_comparison(toks, p) matches Ok((_, q)) ==> p < q <= toks.len(),
{
    if let Some(TokV::Ident(field)) = tok_at(toks, p) {
        let neg = tok_at(toks, p + 1) == Some(TokV::Not);
        let p1 = if neg { p + 2 } else { p + 1 };
        if let Ok((v, q)) = p_value(toks, p1 + 2) {
            lemma_list_rest_progress(toks, p1 + 3, seq![v]);
        }
    }
}

pub proof fn lemma_expr_progress(toks: Seq<TokV>, p: int)
    requires
        0 <= p,
    ensures
        p_expr(toks, p) matches Ok((_, q)) ==> p < q <= toks.len(),
    decreases toks.len() - p, 5int,
{
    lemma_and_progress(toks, p);
    if let Ok((l, q)) = p_and(toks, p) {
        if p < q <= toks.len() {
            lemma_or_rest_progress(toks, q, l);
        }
    }
}

pub proof fn lemma_or_rest_progress(toks: Seq<TokV>, p: int, left: FilterV)
    requires
        0 <= p <= toks.len(),
    ensures
        p_or_rest(toks, p, left) matches Ok((_, q)) ==> p <= q <= toks.len(),
    decreases toks.len() - p, 0int,
{
    if tok_at(toks, p) == Some(TokV::Or) {
        lemma_and_progress(toks, p + 1);
        if let Ok((r, q)) = p_and(toks, p + 1) {
            if p < q <= toks.len() {
                lemma_or_rest_progress(toks, q, or_join(left, r));
            }
        }
    }
}

pub proof fn lemma_and_progress(toks: Seq<TokV>, p: int)
    requires
        0 <= p,
    ensures
        p_and(toks, p) matches Ok((_, q)) ==> p < q <= toks.len(),
    decreases toks.len() - p, 4int,
{
    lemma_unary_progress(toks, p);
    if let Ok((l, q)) = p_unary(toks, p) {
        if p < q <= toks.len() {
            lemma_and_rest_progress(toks, q, l);
        }
    }
}

pub proof fn lemma_and_rest_progress(toks: Seq<TokV>, p: int, left: FilterV)
    requires
        0 <= p <= toks.len(),
    ensures
        p_and_rest(toks, p, left) matches Ok((_, q)) ==> p <= q <= toks.len(),
    decreases toks.len() - p, 0int,
{
    if tok_at(toks, p) == Some(TokV::And) {
        lemma_unary_progress(toks, p + 1);
        if let Ok((r, q)) = p_unary(toks, p + 1) {
            if p < q <= toks.len() {
                lemma_and_rest_progress(toks, q, and_join(left, r));
            }
        }
    }
}

pub proof fn lemma_unary_progress(toks: Seq<TokV>, p: int)
    requires
        0 <= p,
    ensures
        p_unary(toks, p) matches Ok((_, q)) ==> p < q <= toks.len(),
    decreases toks.len() - p, 3int,
{
    if tok_at(toks, p) == Some(TokV::Not) {
        lemma_unary_progress(toks, p + 1);
    } else {
        lemma_atom_progress(toks, p);
    }
}

pub proof fn lemma_atom_progress(toks: Seq<TokV>, p: int)
    requires
        0 <= p,
    ensures
        p_atom(toks, p) matches Ok((_, q)) ==> p < q <= toks.len(),
    decreases toks.len() - p, 2int,
{
    if tok_at(toks, p) == Some(TokV::LParen) {
        lemma_expr_progress(toks, p + 1);
    } else {
        lemma_comparison_progress(toks, p);
    }
}

// ---------------------------------------------------------------------------
// The parser
// ---------------------------------------------------------------------------

fn clone_token(t: &Token) -> (r: Token)
    ensures
        r@ == t@,
{
    match t {
        Token::Ident(s) => Token::Ident(copy_string(s)),
        Token::Int(n) => Token::Int(*n),
        Token::Decimal(s) => Token::Decimal(copy_string(s)),
        Token::Str(s) => Token::Str(copy_string(s)),
        Token::And => Token::And,
        Token::Or => Token::Or,
        Token::Not => Token::Not,
        Token::Like => Token::Like,
        Token::Ilike => Token::Ilike,
        Token::In => Token::In,
        Token::Any => Token::Any,
        Token::Op(op) => Token::Op(*op),
        Token::LParen => Token::LParen,
        Token::RParen => Token::RParen,
        Token::Comma => Token::Comma,
    }
}

/// The pieces of `cs` between occurrences of `c`, as `split_on` describes them.
pub fn split_chars(cs: &Vec<char>, c: char) -> (r: Vec<String>)
    ensures
        strings_view(r@) == split_on(cs@, c),
{
    let mut pieces: Vec<String> = Vec::new();
    let mut cur = String::new();
    let mut i: usize = 0;
    proof {
        assert(cs@.take(0) =~= Seq::<char>::empty());
        assert(strings_view(pieces@).push(cur@) =~= seq![Seq::<char>::empty()]);
    }
    while i < cs.len()
        invariant
            0 <= i <= cs.len(),
            split_on(cs@.take(i as int), c) == strings_view(pieces@).push(cur@),
        decreases cs.len() - i,
    {
        let ch = cs[i];
        assert(cs@.take(i + 1).drop_last() =~= cs@.take(i as int));
        if ch == c {
            let done = cur;
            cur = String::new();
            assert(strings_view(pieces@.push(done)) =~= strings_view(pieces@).push(done@));
            pieces.push(done);
            assert(split_on(cs@.take(i + 1), c) =~= strings_view(pieces@).push(cur@));
        } else {
            push_char(&mut cur, ch);
            assert(split_on(cs@.take(i + 1), c) =~= strings_view(pieces@).push(cur@));
        }
        i += 1;
    }
    assert(cs@.take(cs.len() as int) =~= cs@);
    assert(strings_view(pieces@.push(cur)) =~= strings_view(pieces@).push(cur@));
    pieces.push(cur);
    pieces
}

fn has_empty_string(v: &Vec<String>) -> (r: bool)
    ensures
        r == has_empty_piece(strings_view(v@)),
{
    let mut i: usize = 0;
    while i < v.len()
        invariant
            0 <= i <= v.len(),
            forall|k: int| 0 <= k < i ==> (#[trigger] strings_view(v@)[k]).len() > 0,
        decreases v.len() - i,
    {
        if chars_of(v[i].as_str()).len() == 0 {
            assert(strings_view(v@)[i as int].len() == 0);
            return true;
        }
        i += 1;
    }
    false
}

/// Translates a `LIKE`/`ILIKE` pattern into a starts-with, ends-with, contains or exact
/// test, as `like_test` describes.
pub fn like_to_filter_match(pattern: &str, mode: CaseMode) -> (r: Result<ValueTest, FilterError>)
    ensures
        match like_test(pattern@, mode) {
            Ok(t) => r matches Ok(x) && x@ == t,
            Err(e) => r matches Err(x) && x@ == e,
        },
{
    let cs = chars_of(pattern);
    let n = cs.len();
    let leading = n > 0 && cs[0] == '%';
    let trailing = n > 0 && cs[n - 1] == '%';
    let mut start: usize = 0;
    proof {
        assert(cs@.subrange(0, n as int) =~= cs@);
    }
    while start < n && cs[start] == '%'
        invariant
            0 <= start <= n == cs.len(),
            trim_start_char(cs@, '%') == trim_start_char(cs@.subrange(start as int, n as int), '%'),
        decreases n - start,
    {
        assert(cs@.subrange(start as int, n as int).drop_first() =~= cs@.subrange(start + 1, n as int));
        start += 1;
    }
    let mut end: usize = n;
    proof {
        assert(trim_start_char(cs@, '%') == cs@.subrange(start as int, n as int));
    }
    while end > start && cs[end - 1] == '%'
        invariant
            0 <= start <= end <= n == cs.len(),
            trim_end_char(trim_start_char(cs@, '%'), '%') == trim_end_char(cs@.subrange(start as int, end as int), '%'),
        decreases end - start,
    {
        assert(cs@.subrange(start as int, end as int).drop_last() =~= cs@.subrange(start as int, end - 1));
        end -= 1;
    }
    let trimmed = string_of(&cs, start, end);
    let trimmed_chars = chars_of(trimmed.as_str());
    if contains_char(&trimmed_chars, '%') {
        return Err(FilterError::MiddleWildcard(string_of(&cs, 0, n)));
    }
    let lit = Literal::Text(trimmed);
    if leading && trailing {
        Ok(ValueTest::Contains(lit, mode))
    } else if leading {
        Ok(ValueTest::EndsWith(lit, mode))
    } else if trailing {
        Ok(ValueTest::StartsWith(lit, mode))
    } else {
        Ok(ValueTest::Exact(lit, mode))
    }
}

fn op_test_of(op: CmpOp, v: Literal) -> (t: ValueTest)
    ensures
        t@ == op_test(op, v@),
{
    match op {
        CmpOp::Eq | CmpOp::Ne | CmpOp::LtGt => ValueTest::Exact(v, CaseMode::Cs),
        CmpOp::Gt => ValueTest::Gt(v),
        CmpOp::Ge => ValueTest::Gte(v),
        CmpOp::Lt => ValueTest::Lt(v),
        CmpOp::Le => ValueTest::Lte(v),
    }
}

proof fn lemma_models_push(s: Seq<Filter>, f: Filter)
    ensures
        Filter::models(s.push(f)) == Filter::models(s).push(f.model()),
{
    assert(s.push(f).subrange(0, s.len() as int) =~= s);
}

proof fn lemma_models_pair(a: Filter, b: Filter)
    ensures
        Filter::models(seq![a, b]) == seq![a.model(), b.model()],
{
    let s1: Seq<Filter> = seq![a];
    lemma_models_push(Seq::empty(), a);
    assert(Seq::<Filter>::empty().push(a) =~= s1);
    lemma_models_push(s1, b);
    assert(s1.push(b) =~= seq![a, b]);
    assert(Filter::models(seq![a, b]) =~= seq![a.model(), b.model()]);
}

fn or_join_exec(left: Filter, right: Filter) -> (r: Filter)
    ensures
        r.model() == or_join(left.model(), right.model()),
{
    match left {
        Filter::Or(mut conditions) => {
            proof {
                lemma_models_push(conditions@, right);
            }
            conditions.push(right);
            Filter::Or(conditions)
        },
        other => {
            proof {
                lemma_models_pair(other, right);
            }
            Filter::Or(vec![other, right])
        },
    }
}

fn and_join_exec(left: Filter, right: Filter) -> (r: Filter)
    ensures
        r.model() == and_join(left.model(), right.model()),
{
    match left {
        Filter::And(mut conditions) => {
            proof {
                lemma_models_push(conditions@, right);
            }
            conditions.push(right);
            Filter::And(conditions)
        },
        other => {
            proof {
                lemma_models_pair(other, right);
            }
            Filter::And(vec![other, right])
        },
    }
}

/// Whether `r` is the result that `s` describes, with the parser left at the end position.
pub open spec fn parsed_as(r: Result<Filter, FilterError>, s: Result<(FilterV, int), ErrV>, pos: int) -> bool {
    match s {
        Ok((f, q)) => r matches Ok(x) && x.model() == f && pos == q,
        Err(e) => r matches Err(x) && x@ == e,
    }
}

/// Which delimiter `Parser::expect` wants.
enum Expected {
    CloseParen,
    ListOpen,
}

struct Parser {
    tokens: Vec<Token>,
    pos: usize,
}

impl Parser {
    spec fn toks(&self) -> Seq<TokV> {
        toks_view(self.tokens@)
    }

    spec fn wf(&self) -> bool {
        self.pos <= self.tokens.len()
    }

    fn peek(&self) -> (r: Option<&Token>)
        requires
            self.wf(),
        ensures
            match tok_at(self.toks(), self.pos as int) {
                Some(t) => r matches Some(x) && x@ == t,
                None => r is None,
            },
    {
        if self.pos < self.tokens.len() {
            Some(&self.tokens[self.pos])
        } else {
            None
        }
    }

    fn next(&mut self) -> (r: Option<Token>)
        requires
            old(self).wf(),
        ensures
            final(self).wf(),
            final(self).toks() == old(self).toks(),
            opt_tok_view(r) == tok_at(old(self).toks(), old(self).pos as int),
            r is Some ==> final(self).pos == old(self).pos + 1,
    {
        if self.pos < self.tokens.len() {
            let t = clone_token(&self.tokens[self.pos]);
            self.pos += 1;
            Some(t)
        } else {
            None
        }
    }

    fn expect(&mut self, want: Expected) -> (r: Result<(), FilterError>)
        requires
            old(self).wf(),
        ensures
            final(self).wf(),
            final(self).toks() == old(self).toks(),
            ({
                let found = tok_at(old(self).toks(), old(self).pos as int);
                match want {
                    Expected::CloseParen => if found == Some(TokV::RParen) {
                        r is Ok && final(self).pos == old(self).pos + 1
                    } else {
                        r matches Err(x) && x@ == ErrV::ExpectedCloseParen(found)
                    },
                    Expected::ListOpen => if found == Some(TokV::LParen) {
                        r is Ok && final(self).pos == old(self).pos + 1
                    } else {
                        r matches Err(x) && x@ == ErrV::ExpectedListOpen(found)
                    },
                }
            }),
    {
        let found = self.next();
        match want {
            Expected::CloseParen => match found {
                Some(Token::RParen) => Ok(()),
                other => Err(FilterError::ExpectedCloseParen(other)),
            },
            Expected::ListOpen => match found {
                Some(Token::LParen) => Ok(()),
                other => Err(FilterError::ExpectedListOpen(other)),
            },
        }
    }

    fn parse_value(&mut self) -> (r: Result<Literal, FilterError>)
        requires
            old(self).wf(),
        ensures
            final(self).wf(),
            final(self).toks() == old(self).toks(),
            match p_value(old(self).toks(), old(self).pos as int) {
                Ok((v, q)) => r matches Ok(x) && x@ == v && final(self).pos == q,
                Err(e) => r matches Err(x) && x@ == e,
            },
    {
        match self.next() {
            Some(Token::Str(s)) => Ok(Literal::Text(s)),
            Some(Token::Int(n)) => Ok(Literal::Int(n)),
            Some(Token::Decimal(t)) => Ok(Literal::Decimal(t)),
            Some(Token::Ident(s)) => Ok(Literal::Text(s)),
            other => Err(FilterError::ExpectedValue(other)),
        }
    }

    fn parse_value_list(&mut self) -> (r: Result<Vec<Literal>, FilterError>)
        requires
            old(self).wf(),
        ensures
            final(self).wf(),
            final(self).toks() == old(self).toks(),
            match p_list(old(self).toks(), old(self).pos as int) {
                Ok((vs, q)) => r matches Ok(x) && lits_view(x@) == vs && final(self).pos == q,
                Err(e) => r matches Err(x) && x@ == e,
            },
    {
        let ghost toks = self.toks();
        let ghost p0 = self.pos as int;
        self.expect(Expected::ListOpen)?;
        let first = self.parse_value()?;
        let mut values: Vec<Literal> = Vec::new();
        values.push(first);
        assert(lits_view(values@) =~= seq![first@]);
        loop
            invariant
                self.wf(),
                self.toks() == toks,
                toks == old(self).toks(),
                p0 == old(self).pos as int,
                self.tokens.len() == toks.len(),
                toks.len() == old(self).tokens.len(),
                p_list(toks, p0) == p_list_rest(toks, self.pos as int, lits_view(values@)),
            decreases self.tokens.len() - self.pos,
        {
            let ghost p = self.pos as int;
            match self.next() {
                Some(Token::Comma) => {
                    let v = self.parse_value()?;
                    assert(lits_view(values@.push(v)) =~= lits_view(values@).push(v@));
                    values.push(v);
                },
                Some(Token::RParen) => {
                    return Ok(values);
                },
                other => {
                    return Err(FilterError::ExpectedCommaOrClose(other));
                },
            }
        }
    }

    fn parse_condition(&mut self, field: &String) -> (r: Result<(ValueTest, bool), FilterError>)
        requires
            old(self).wf(),
        ensures
            final(self).wf(),
            final(self).toks() == old(self).toks(),
            match p_condition(old(self).toks(), field@, old(self).pos as int) {
                Ok((t, neg, q)) => r matches Ok((x, n)) && x@ == t && n == neg && final(self).pos == q,
                Err(e) => r matches Err(x) && x@ == e,
            },
    {
        match self.next() {
            Some(Token::Op(op)) => {
                let value = self.parse_value()?;
                let negates = op == CmpOp::Ne || op == CmpOp::LtGt;
                Ok((op_test_of(op, value), negates))
            },
            Some(Token::Like) => {
                match self.next() {
                    Some(Token::Str(pattern)) => {
                        let t = like_to_filter_match(pattern.as_str(), CaseMode::Cs)?;
                        Ok((t, false))
                    },
                    other => Err(FilterError::ExpectedPattern(other)),
                }
            },
            Some(Token::Ilike) => {
                match self.next() {
                    Some(Token::Str(pattern)) => {
                        let t = like_to_filter_match(pattern.as_str(), CaseMode::Ci)?;
                        Ok((t, false))
                    },
                    other => Err(FilterError::ExpectedPattern(other)),
                }
            },
            Some(Token::In) => {
                let values = self.parse_value_list()?;
                Ok((ValueTest::OneOf(values), false))
            },
            Some(Token::Any) => {
                let values = self.parse_value_list()?;
                Ok((ValueTest::AnyOneOf(values), false))
            },
            other => Err(FilterError::ExpectedOperator(copy_string(field), other)),
        }
    }

    fn parse_comparison(&mut self) -> (r: Result<Filter, FilterError>)
        requires
            old(self).wf(),
        ensures
            final(self).wf(),
            final(self).toks() == old(self).toks(),
            parsed_as(r, p_comparison(old(self).toks(), old(self).pos as int), final(self).pos as int),
    {
        let ghost toks = self.toks();
        let ghost p = self.pos as int;
        let field = match self.next() {
            Some(Token::Ident(name)) => name,
            other => {
                return Err(FilterError::ExpectedField(other));
            },
        };
        assert(tok_at(toks, p) == Some(TokV::Ident(field@)));
        let field_chars = chars_of(field.as_str());
        let path = split_chars(&field_chars, '.');
        if has_empty_string(&path) {
            return Err(FilterError::EmptyPathSegment(field));
        }
        let negate = match self.peek() {
            Some(Token::Not) => true,
            _ => false,
        };
        assert(negate == (tok_at(toks, p + 1) == Some(TokV::Not)));
        if negate {
            self.next();
        }
        assert(self.pos as int == if negate { p + 2 } else { p + 1 });
        let ghost cond = p_condition(toks, field@, self.pos as int);
        let (test, op_negates) = self.parse_condition(&field)?;
        let ghost spec_t = cond->Ok_0.0;
        assert(test@ == spec_t);
        let base = Filter::Match(FieldTest { path, test });
        assert(base.model() == FilterV::Match(split_on(field@, '.'), spec_t));
        if negate || op_negates {
            Ok(Filter::Not(Box::new(base)))
        } else {
            Ok(base)
        }
    }

    fn parse_expr(&mut self) -> (r: Result<Filter, FilterError>)
        requires
            old(self).wf(),
        ensures
            final(self).wf(),
            final(self).toks() == old(self).toks(),
            parsed_as(r, p_expr(old(self).toks(), old(self).pos as int), final(self).pos as int),
        decreases old(self).tokens.len() - old(self).pos, 5int,
    {
        let ghost toks = self.toks();
        let ghost p0 = self.pos as int;
        proof {
            lemma_and_progress(toks, p0);
        }
        let mut left = self.parse_and()?;
        loop
            invariant
                self.wf(),
                self.toks() == toks,
                toks == old(self).toks(),
                p0 == old(self).pos as int,
                self.tokens.len() == toks.len(),
                toks.len() == old(self).tokens.len(),
                p0 < self.pos,
                p_expr(toks, p0) == p_or_rest(toks, self.pos as int, left.model()),
            decreases self.tokens.len() - self.pos,
        {
            let is_or = match self.peek() {
                Some(Token::Or) => true,
                _ => false,
            };
            if !is_or {
                return Ok(left);
            }
            let ghost p = self.pos as int;
            self.next();
            proof {
                lemma_and_progress(toks, p + 1);
            }
            let right = self.parse_and()?;
            left = or_join_exec(left, right);
        }
    }

    fn parse_and(&mut self) -> (r: Result<Filter, FilterError>)
        requires
            old(self).wf(),
        ensures
            final(self).wf(),
            final(self).toks() == old(self).toks(),
            parsed_as(r, p_and(old(self).toks(), old(self).pos as int), final(self).pos as int),
        decreases old(self).tokens.len() - old(self).pos, 4int,
    {
        let ghost toks = self.toks();
        let ghost p0 = self.pos as int;
        proof {
            lemma_unary_progress(toks, p0);
        }
        let mut left = self.parse_unary()?;
        loop
            invariant
                self.wf(),
                self.toks() == toks,
                toks == old(self).toks(),
                p0 == old(self).pos as int,
                self.tokens.len() == toks.len(),
                toks.len() == old(self).tokens.len(),
                p0 < self.pos,
                p_and(toks, p0) == p_and_rest(toks, self.pos as int, left.model()),
            decreases self.tokens.len() - self.pos,
        {
            let is_and = match self.peek() {
                Some(Token::And) => true,
                _ => false,
            };
            if !is_and {
                return Ok(left);
            }
            let ghost p = self.pos as int;
            self.next();
            proof {
                lemma_unary_progress(toks, p + 1);
            }
            let right = self.parse_unary()?;
            left = and_join_exec(left, right);
        }
    }

    fn parse_unary(&mut self) -> (r: Result<Filter, FilterError>)
        requires
            old(self).wf(),
        ensures
            final(self).wf(),
            final(self).toks() == old(self).toks(),
            parsed_as(r, p_unary(old(self).toks(), old(self).pos as int), final(self).pos as int),
        decreases old(self).tokens.len() - old(self).pos, 3int,
    {
        let is_not = match self.peek() {
            Some(Token::Not) => true,
            _ => false,
        };
        if is_not {
            self.next();
            let inner = self.parse_unary()?;
            return Ok(Filter::Not(Box::new(inner)));
        }
        self.parse_atom()
    }

    fn parse_atom(&mut self) -> (r: Result<Filter, FilterError>)
        requires
            old(self).wf(),
        ensures
            final(self).wf(),
            final(self).toks() == old(self).toks(),
            parsed_as(r, p_atom(old(self).toks(), old(self).pos as int), final(self).pos as int),
        decreases old(self).tokens.len() - old(self).pos, 2int,
    {
        let is_open = match self.peek() {
            Some(Token::LParen) => true,
            _ => false,
        };
        if is_open {
            self.next();
            let inner = self.parse_expr()?;
            self.expect(Expected::CloseParen)?;
            return Ok(inner);
        }
        self.parse_comparison()
    }
}

/// Parses a token list into a [`Filter`], as `parse_tokens_spec` describes: an empty list
/// and tokens left after a complete expression are refused.
pub fn parse_tokens(tokens: Vec<Token>) -> (r: Result<Filter, FilterError>)
    ensures
        match parse_tokens_spec(toks_view(tokens@)) {
            Ok(f) => r matches Ok(x) && x.model() == f,
            Err(e) => r matches Err(x) && x@ == e,
        },
{
    if tokens.len() == 0 {
        return Err(FilterError::Empty);
    }
    let mut parser = Parser { tokens, pos: 0 };
    let condition = parser.parse_expr()?;
    if parser.pos != parser.tokens.len() {
        return Err(FilterError::TrailingContent);
    }
    Ok(condition)
}

/// Parses a `--filter` string already split into quoted and plain pieces, as
/// `parse_pieces_spec` describes.
pub fn parse_filter_pieces(pieces: &Vec<QuotePiece>) -> (r: Result<Filter, FilterError>)
    ensures
        match parse_pieces_spec(pieces_view(pieces@)) {
            Ok(f) => r matches Ok(x) && x.model() == f,
            Err(e) => r matches Err(x) && x@ == e,
        },
{
    let tokens = tokenize_pieces(pieces)?;
    parse_tokens(tokens)
}

/// Parses one `--filter` string already split into quoted and plain pieces, with the
/// error as a value, as `parse_pieces_spec` describes for `quote_split(input@)`.
/// Without any `'` in `input`, the result is that of parsing the tokens of the whole
/// string.
pub fn parse_filter_detailed(input: &str) -> (r: Result<Filter, FilterError>)
    ensures
        match parse_pieces_spec(quote_split(input@)) {
            Ok(f) => r matches Ok(x) && x.model() == f,
            Err(e) => r matches Err(x) && x@ == e,
        },
        !input@.contains('\'') ==> match lex_from(input@, 0) {
            Ok(ts) => match parse_tokens_spec(ts) {
                Ok(f) => r matches Ok(x) && x.model() == f,
                Err(e) => r matches Err(x) && x@ == e,
            },
            Err(e) => r matches Err(x) && x@ == e,
        },
{
    let pieces = split_single_quoted(input);
    proof {
        let s = input@;
        crate::key_pattern::lemma_first_index(s, '\'');
        if !s.contains('\'') && s.len() > 0 {
            let ps = seq![(false, s)];
            assert(ps.drop_first() =~= Seq::<(bool, Seq<char>)>::empty());
            assert(lex_pieces(ps.drop_first()) == Ok::<Seq<TokV>, ErrV>(Seq::empty()));
            assert(ps[0] == (false, s));
            if let Ok(ts) = lex_from(s, 0) {
                assert(ts + Seq::<TokV>::empty() =~= ts);
                assert(lex_pieces(ps) == Ok::<Seq<TokV>, ErrV>(ts));
            } else {
                assert(lex_pieces(ps) == lex_from(s, 0));
            }
            assert(pieces_view(pieces@) == ps);
        }
        if s.len() == 0 {
            assert(lex_from(s, 0) == Ok::<Seq<TokV>, ErrV>(Seq::empty()));
        }
    }
    parse_filter_pieces(&pieces)
}

/// What parsing `input` gives, with an error described by its message.
pub open spec fn filter_outcome(r: Result<FilterV, ErrV>, input: Seq<char>) -> Result<FilterV, Seq<char>> {
    match r {
        Ok(f) => Ok(f),
        Err(e) => Err(error_message(e, input)),
    }
}

pub open spec fn filter_result_view(r: Result<Filter, String>) -> Result<FilterV, Seq<char>> {
    match r {
        Ok(f) => Ok(f.model()),
        Err(m) => Err(m@),
    }
}

/// Parses one `--filter` string into a [`Filter`] tree; an error comes with its message.
/// Without any `'` in `input`, the result is that of parsing the tokens of the whole
/// string.
pub fn parse_filter(input: &str) -> (r: Result<Filter, String>)
    ensures
        filter_result_view(r) == filter_outcome(parse_pieces_spec(quote_split(input@)), input@),
        !input@.contains('\'') ==> filter_result_view(r) == filter_outcome(
            match lex_from(input@, 0) {
                Ok(ts) => parse_tokens_spec(ts),
                Err(e) => Err(e),
            },
            input@,
        ),
{
    match parse_filter_detailed(input) {
        Ok(f) => Ok(f),
        Err(e) => Err(e.message(input)),
    }
}

// ---------------------------------------------------------------------------
// Error messages
// ---------------------------------------------------------------------------

/// `s` written as `{:?}` writes a string: quoted, with quotes, backslashes and
/// unprintable characters escaped.
pub uninterp spec fn debug_str(s: Seq<char>) -> Seq<char>;

/// Trusted: formats `s` with `{:?}` (`<str as Debug>::fmt`); the text depends on `s`
/// alone.
#[verifier::external_body]
fn debug_text(s: &str) -> (r: String)
    ensures
        r@ == debug_str(s@),
{
    format!("{:?}", s)
}

pub open spec fn op_text(op: CmpOp) -> Seq<char> {
    match op {
        CmpOp::Eq => "="@,
        CmpOp::Ne => "!="@,
        CmpOp::LtGt => "<>"@,
        CmpOp::Ge => ">="@,
        CmpOp::Le => "<="@,
        CmpOp::Gt => ">"@,
        CmpOp::Lt => "<"@,
    }
}

/// How a token is shown in an error message: as `{:?}` shows it, a number as the JSON
/// number it stands for (a decimal one as written).
pub open spec fn token_text(t: TokV) -> Seq<char> {
    match t {
        TokV::Ident(s) => "Ident("@ + debug_str(s) + ")"@,
        TokV::Int(n) => "Number(Number("@ + int_decimal(n as int) + "))"@,
        TokV::Decimal(s) => "Number(Number("@ + s + "))"@,
        TokV::Str(s) => "Str("@ + debug_str(s) + ")"@,
        TokV::And => "And"@,
        TokV::Or => "Or"@,
        TokV::Not => "Not"@,
        TokV::Like => "Like"@,
        TokV::Ilike => "Ilike"@,
        TokV::In => "In"@,
        TokV::Any => "Any"@,
        TokV::Op(op) => "Op(\""@ + op_text(op) + "\")"@,
        TokV::LParen => "LParen"@,
        TokV::RParen => "RParen"@,
        TokV::Comma => "Comma"@,
    }
}

/// What was found instead of an expected token, as an optional token shows: `Some(..)`
/// or `None`.
pub open spec fn found_text(t: Option<TokV>) -> Seq<char> {
    match t {
        Some(t) => "Some("@ + token_text(t) + ")"@,
        None => "None"@,
    }
}

/// What was found instead of an expected `(` or `)`: the token, or the end of the input.
pub open spec fn expect_found_text(t: Option<TokV>) -> Seq<char> {
    match t {
        Some(t) => token_text(t),
        None => "end of --filter"@,
    }
}

/// The message describing an error in the `--filter` value `input`.
pub open spec fn error_message(e: ErrV, input: Seq<char>) -> Seq<char> {
    match e {
        ErrV::UnterminatedString => "unterminated string literal in --filter: \""@ + input + "\""@,
        ErrV::StrayBang => "unexpected '!' in --filter (did you mean '!='?): \""@ + input + "\""@,
        ErrV::InvalidNumber(t) => "invalid number '"@ + t + "' in --filter"@,
        ErrV::UnexpectedChar(c) => "unexpected character '"@ + seq![c] + "' in --filter: \""@ + input + "\""@,
        ErrV::Empty => "--filter value is empty"@,
        ErrV::TrailingContent => "unexpected trailing content in --filter after a complete expression: \""@ + input
            + "\" (unbalanced parentheses, or a missing AND/OR between clauses?)"@,
        ErrV::ExpectedCloseParen(f) => "expected RParen to close '(', found "@ + expect_found_text(f),
        ErrV::ExpectedListOpen(f) => "expected LParen to start an IN/ANY value list, found "@ + expect_found_text(f),
        ErrV::ExpectedField(f) => "expected a field name in --filter, found "@ + found_text(f),
        ErrV::EmptyPathSegment(field) => "invalid field reference '"@ + field + "' in --filter (empty segment between dots)"@,
        ErrV::ExpectedOperator(field, f) => "expected a comparison operator (=, !=, >, >=, <, <=, LIKE, ILIKE, IN, ANY) after field '"@ + field + "', found "@ + found_text(f),
        ErrV::ExpectedPattern(f) => "expected a quoted pattern after LIKE/ILIKE, found "@ + found_text(f),
        ErrV::ExpectedValue(f) => "expected a value (quoted string, bare word, or number), found "@ + found_text(f),
        ErrV::ExpectedCommaOrClose(f) => "expected ',' or ')' in IN/ANY value list, found "@ + found_text(f),
        ErrV::MiddleWildcard(p) => "LIKE pattern '"@ + p + "' has '%' in the middle -- only a single leading and/or trailing '%' is supported (StartsWith/EndsWith/Contains), not a two-anchor pattern"@,
    }
}

fn op_text_of(op: CmpOp) -> (r: &'static str)
    ensures
        r@ == op_text(op),
{
    match op {
        CmpOp::Eq => "=",
        CmpOp::Ne => "!=",
        CmpOp::LtGt => "<>",
        CmpOp::Ge => ">=",
        CmpOp::Le => "<=",
        CmpOp::Gt => ">",
        CmpOp::Lt => "<",
    }
}

fn surround(before: &str, middle: &str, after: &str) -> (r: String)
    ensures
        r@ == before@ + middle@ + after@,
{
    let mut r = String::from_str(before);
    r.append(middle);
    r.append(after);
    r
}

fn token_text_of(t: &Token) -> (r: String)
    ensures
        r@ == token_text(t@),
{
    match t {
        Token::Ident(s) => surround("Ident(", debug_text(s.as_str()).as_str(), ")"),
        Token::Int(n) => surround("Number(Number(", i64_to_string(*n).as_str(), "))"),
        Token::Decimal(s) => surround("Number(Number(", s.as_str(), "))"),
        Token::Str(s) => surround("Str(", debug_text(s.as_str()).as_str(), ")"),
        Token::And => String::from_str("And"),
        Token::Or => String::from_str("Or"),
        Token::Not => String::from_str("Not"),
        Token::Like => String::from_str("Like"),
        Token::Ilike => String::from_str("Ilike"),
        Token::In => String::from_str("In"),
        Token::Any => String::from_str("Any"),
        Token::Op(op) => surround("Op(\"", op_text_of(*op), "\")"),
        Token::LParen => String::from_str("LParen"),
        Token::RParen => String::from_str("RParen"),
        Token::Comma => String::from_str("Comma"),
    }
}

fn with_found(prefix: &str, found: &Option<Token>) -> (r: String)
    ensures
        r@ == prefix@ + found_text(opt_tok_view(*found)),
{
    match found {
        Some(t) => {
            let text = token_text_of(t);
            let inner = surround("Some(", text.as_str(), ")");
            concat(prefix, inner.as_str())
        },
        None => {
            concat(prefix, "None")
        },
    }
}

fn with_expect_found(prefix: &str, found: &Option<Token>) -> (r: String)
    ensures
        r@ == prefix@ + expect_found_text(opt_tok_view(*found)),
{
    match found {
        Some(t) => {
            let text = token_text_of(t);
            concat(prefix, text.as_str())
        },
        None => {
            concat(prefix, "end of --filter")
        },
    }
}

impl FilterError {
    /// A human-readable description of the error in the `--filter` value `input`.
    pub fn message(&self, input: &str) -> (r: String)
        ensures
            r@ == error_message(self@, input@),
    {
        match self {
            FilterError::UnterminatedString => surround("unterminated string literal in --filter: \"", input, "\""),
            FilterError::StrayBang => surround("unexpected '!' in --filter (did you mean '!='?): \"", input, "\""),
            FilterError::InvalidNumber(t) => surround("invalid number '", t.as_str(), "' in --filter"),
            FilterError::UnexpectedChar(c) => {
                let mut one = String::new();
                push_char(&mut one, *c);
                let head = surround("unexpected character '", one.as_str(), "' in --filter: \"");
                surround(head.as_str(), input, "\"")
            },
            FilterError::Empty => String::from_str("--filter value is empty"),
            FilterError::TrailingContent => surround(
                "unexpected trailing content in --filter after a complete expression: \"",
                input,
                "\" (unbalanced parentheses, or a missing AND/OR between clauses?)",
            ),
            FilterError::ExpectedCloseParen(f) => with_expect_found("expected RParen to close '(', found ", f),
            FilterError::ExpectedListOpen(f) => with_expect_found("expected LParen to start an IN/ANY value list, found ", f),
            FilterError::ExpectedField(f) => with_found("expected a field name in --filter, found ", f),
            FilterError::EmptyPathSegment(field) => surround("invalid field reference '", field.as_str(), "' in --filter (empty segment between dots)"),
            FilterError::ExpectedOperator(field, f) => {
                let head = surround("expected a comparison operator (=, !=, >, >=, <, <=, LIKE, ILIKE, IN, ANY) after field '", field.as_str(), "', found ");
                with_found(head.as_str(), f)
            },
            FilterError::ExpectedPattern(f) => with_found("expected a quoted pattern after LIKE/ILIKE, found ", f),
            FilterError::ExpectedValue(f) => with_found("expected a value (quoted string, bare word, or number), found ", f),
            FilterError::ExpectedCommaOrClose(f) => with_found("expected ',' or ')' in IN/ANY value list, found ", f),
            FilterError::MiddleWildcard(p) => surround("LIKE pattern '", p.as_str(), "' has '%' in the middle -- only a single leading and/or trailing '%' is supported (StartsWith/EndsWith/Contains), not a two-anchor pattern"),
        }
    }
}

} // verus!
