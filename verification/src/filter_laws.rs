//! Properties of the `--filter` language that hold of every input, proved from the
//! parser's specification.
use vstd::prelude::*;
use crate::filter_pattern::{
    CaseMode, CmpOp, ErrV, FilterV, LitV, TestV, TokV, like_test, negates, p_list, p_list_rest, p_and,
    or_join, and_join,
    p_and_rest, p_atom, p_comparison, p_condition, p_expr, p_or_rest, p_unary, p_value,
    parse_tokens_spec, tok_at, split_on, has_empty_piece,
    trim_end_char, trim_start_char, word_token,
};
use crate::text::{lower_text, is_ascii_text, ascii_alphabetic, ascii_alphanumeric, whitespace_char,
    alphabetic_char, alphanumeric_char};
use crate::filter_pattern::{quoted_body, quote_split, lex_from, lex_pieces, parse_pieces_spec, word_end,
    cons_ok, two_char_op, starts_number};
use crate::key_pattern::{first_index, lemma_first_index};
use crate::filter_pattern::lemma_comparison_progress;

verus! {

/// A comparison that uses up `toks` from `p` on parses, as a whole expression, to the
/// comparison itself.
proof fn lemma_single_comparison(toks: Seq<TokV>, p: int)
    requires
        0 <= p,
        tok_at(toks, p) matches Some(TokV::Ident(_)),
        p_comparison(toks, p) matches Ok((_, q)) ==> q == toks.len(),
    ensures
        p_unary(toks, p) == p_comparison(toks, p),
        p_expr(toks, p) == p_comparison(toks, p),
{
    lemma_comparison_progress(toks, p);
    if tok_at(toks, p) != Some(TokV::LParen) && tok_at(toks, p) != Some(TokV::Not) {
        assert(p_atom(toks, p) == p_comparison(toks, p));
        assert(p_unary(toks, p) == p_comparison(toks, p));
        if let Ok((f, q)) = p_comparison(toks, p) {
            assert(p_and_rest(toks, q, f) == Ok::<(FilterV, int), ErrV>((f, q)));
            assert(p_or_rest(toks, q, f) == Ok::<(FilterV, int), ErrV>((f, q)));
            if p < q {
                assert(p_and(toks, p) == p_comparison(toks, p));
            }
        }
    }
}

/// `field != value` and `field <> value` parse exactly as `NOT field = value`, for every
/// field and every token in the value's place (refused alike when it is no value).
pub proof fn law_not_equal_is_negated_equality(field: Seq<char>, op: CmpOp, v: TokV)
    requires
        op == CmpOp::Ne || op == CmpOp::LtGt,
    ensures
        parse_tokens_spec(seq![TokV::Ident(field), TokV::Op(op), v])
            == parse_tokens_spec(seq![TokV::Not, TokV::Ident(field), TokV::Op(CmpOp::Eq), v]),
{
    let a = seq![TokV::Ident(field), TokV::Op(op), v];
    let b = seq![TokV::Not, TokV::Ident(field), TokV::Op(CmpOp::Eq), v];
    assert(tok_at(a, 0) == Some(TokV::Ident(field)));
    assert(tok_at(a, 1) == Some(TokV::Op(op)));
    assert(tok_at(a, 2) == Some(v));
    assert(tok_at(a, 3) == None::<TokV>);
    assert(tok_at(b, 0) == Some(TokV::Not));
    assert(tok_at(b, 1) == Some(TokV::Ident(field)));
    assert(tok_at(b, 2) == Some(TokV::Op(CmpOp::Eq)));
    assert(tok_at(b, 3) == Some(v));
    assert(tok_at(b, 4) == None::<TokV>);
    lemma_single_comparison(a, 0);
    lemma_single_comparison(b, 1);
    let ca = p_comparison(a, 0);
    let cb = p_comparison(b, 1);
    match cb {
        Ok((f, q)) => {
            assert(p_unary(b, 0) == Ok::<(FilterV, int), ErrV>((FilterV::Not(Box::new(f)), 4)));
            assert(p_and_rest(b, 4, FilterV::Not(Box::new(f))) == Ok::<(FilterV, int), ErrV>((FilterV::Not(Box::new(f)), 4)));
            assert(p_or_rest(b, 4, FilterV::Not(Box::new(f))) == Ok::<(FilterV, int), ErrV>((FilterV::Not(Box::new(f)), 4)));
            assert(p_expr(b, 0) == Ok::<(FilterV, int), ErrV>((FilterV::Not(Box::new(f)), 4)));
        },
        Err(e) => {
            assert(p_unary(b, 0) == Err::<(FilterV, int), ErrV>(e));
            assert(p_expr(b, 0) == Err::<(FilterV, int), ErrV>(e));
        },
    }
}

/// Each comparison operator makes its own test of the field's value, for every dotted
/// field and every value written as a quoted string, a bare word, or a number: `=` an
/// exact, case-sensitive match; `!=` and `<>` the negation of that match; `>` greater
/// than, `>=` at least, `<` less than and `<=` at most the value. A field with an empty
/// segment between its dots is refused.
pub proof fn law_comparison_operators_test_as_written(field: Seq<char>, op: CmpOp, v: TokV, lit: LitV)
    requires
        match v {
            TokV::Str(s) => lit == LitV::Text(s),
            TokV::Ident(s) => lit == LitV::Text(s),
            TokV::Int(n) => lit == LitV::Int(n),
            TokV::Decimal(t) => lit == LitV::Decimal(t),
            _ => false,
        },
    ensures
        ({
            let path = split_on(field, '.');
            parse_tokens_spec(seq![TokV::Ident(field), TokV::Op(op), v]) == if has_empty_piece(path) {
                Err::<FilterV, ErrV>(ErrV::EmptyPathSegment(field))
            } else {
                Ok(
                    match op {
                        CmpOp::Eq => FilterV::Match(path, TestV::Exact(lit, CaseMode::Cs)),
                        CmpOp::Ne => FilterV::Not(Box::new(FilterV::Match(path, TestV::Exact(lit, CaseMode::Cs)))),
                        CmpOp::LtGt => FilterV::Not(Box::new(FilterV::Match(path, TestV::Exact(lit, CaseMode::Cs)))),
                        CmpOp::Gt => FilterV::Match(path, TestV::Gt(lit)),
                        CmpOp::Ge => FilterV::Match(path, TestV::Gte(lit)),
                        CmpOp::Lt => FilterV::Match(path, TestV::Lt(lit)),
                        CmpOp::Le => FilterV::Match(path, TestV::Lte(lit)),
                    },
                )
            }
        }),
{
    let a = seq![TokV::Ident(field), TokV::Op(op), v];
    assert(tok_at(a, 0) == Some(TokV::Ident(field)));
    assert(tok_at(a, 1) == Some(TokV::Op(op)));
    assert(tok_at(a, 2) == Some(v));
    assert(tok_at(a, 3) == None::<TokV>);
    assert(p_value(a, 2) == Ok::<(LitV, int), ErrV>((lit, 3)));
    lemma_single_comparison(a, 0);
}

/// A `LIKE`/`ILIKE` comparison of a field parses to a test of that field, the test the
/// pattern stands for.
proof fn lemma_like_comparison(field: Seq<char>, ilike: bool, pattern: Seq<char>)
    requires
        !has_empty_piece(split_on(field, '.')),
    ensures
        parse_tokens_spec(seq![TokV::Ident(field), if ilike { TokV::Ilike } else { TokV::Like }, TokV::Str(pattern)])
            == match like_test(pattern, if ilike { CaseMode::Ci } else { CaseMode::Cs }) {
            Ok(t) => Ok(FilterV::Match(split_on(field, '.'), t)),
            Err(e) => Err::<FilterV, ErrV>(e),
        },
{
    let kw = if ilike { TokV::Ilike } else { TokV::Like };
    let a = seq![TokV::Ident(field), kw, TokV::Str(pattern)];
    assert(tok_at(a, 0) == Some(TokV::Ident(field)));
    assert(tok_at(a, 1) == Some(kw));
    assert(tok_at(a, 2) == Some(TokV::Str(pattern)));
    lemma_single_comparison(a, 0);
}

/// The `%` wildcards of a `LIKE` pattern choose its test: on both ends a contains test,
/// at the end alone a starts-with test, at the start alone an ends-with test, and none an
/// exact match, each of the text between them; `LIKE` compares case-sensitively and
/// `ILIKE` ignoring case. This holds for every dotted field and every non-empty text
/// without a `%` of its own.
pub proof fn law_like_wildcards_choose_the_test(field: Seq<char>, text: Seq<char>, ilike: bool)
    requires
        text.len() > 0,
        !text.contains('%'),
        !has_empty_piece(split_on(field, '.')),
    ensures
        ({
            let kw = if ilike { TokV::Ilike } else { TokV::Like };
            let mode = if ilike { CaseMode::Ci } else { CaseMode::Cs };
            let path = split_on(field, '.');
            &&& parse_tokens_spec(seq![TokV::Ident(field), kw, TokV::Str(seq!['%'] + text + seq!['%'])])
                == Ok::<FilterV, ErrV>(FilterV::Match(path, TestV::Contains(LitV::Text(text), mode)))
            &&& parse_tokens_spec(seq![TokV::Ident(field), kw, TokV::Str(text + seq!['%'])])
                == Ok::<FilterV, ErrV>(FilterV::Match(path, TestV::StartsWith(LitV::Text(text), mode)))
            &&& parse_tokens_spec(seq![TokV::Ident(field), kw, TokV::Str(seq!['%'] + text)])
                == Ok::<FilterV, ErrV>(FilterV::Match(path, TestV::EndsWith(LitV::Text(text), mode)))
            &&& parse_tokens_spec(seq![TokV::Ident(field), kw, TokV::Str(text)])
                == Ok::<FilterV, ErrV>(FilterV::Match(path, TestV::Exact(LitV::Text(text), mode)))
        }),
{
    let mode = if ilike { CaseMode::Ci } else { CaseMode::Cs };
    assert(text[0] != '%' && text.last() != '%') by {
        assert(text.contains(text[0]));
        assert(text.contains(text[text.len() - 1]));
    }
    let both = seq!['%'] + text + seq!['%'];
    let tail = text + seq!['%'];
    let head = seq!['%'] + text;
    // both ends
    assert(both[0] == '%' && both.last() == '%');
    assert(both.drop_first() =~= tail);
    assert(tail[0] == text[0]);
    assert(trim_start_char(tail, '%') == tail);
    assert(trim_start_char(both, '%') == tail);
    assert(tail.last() == '%' && tail.drop_last() =~= text);
    assert(trim_end_char(text, '%') == text);
    assert(trim_end_char(tail, '%') == text);
    assert(like_test(both, mode) == Ok::<TestV, ErrV>(TestV::Contains(LitV::Text(text), mode)));
    // trailing only
    assert(like_test(tail, mode) == Ok::<TestV, ErrV>(TestV::StartsWith(LitV::Text(text), mode)));
    // leading only
    assert(head[0] == '%' && head.drop_first() =~= text);
    assert(trim_start_char(text, '%') == text);
    assert(trim_start_char(head, '%') == text);
    assert(head.last() == text.last());
    assert(like_test(head, mode) == Ok::<TestV, ErrV>(TestV::EndsWith(LitV::Text(text), mode)));
    // none
    assert(like_test(text, mode) == Ok::<TestV, ErrV>(TestV::Exact(LitV::Text(text), mode)));
    lemma_like_comparison(field, ilike, both);
    lemma_like_comparison(field, ilike, tail);
    lemma_like_comparison(field, ilike, head);
    lemma_like_comparison(field, ilike, text);
}

/// `IN` and `ANY` lists keep every value, in the order written: `field IN (a, b)` tests
/// that the field's value is one of `a`, `b`, and `field ANY (a, b)` that one of the
/// field's values is, for every dotted field and every two values.
pub proof fn law_in_and_any_lists_keep_their_values(
    field: Seq<char>,
    any: bool,
    v1: TokV,
    l1: LitV,
    v2: TokV,
    l2: LitV,
)
    requires
        !has_empty_piece(split_on(field, '.')),
        p_value(seq![v1], 0) == Ok::<(LitV, int), ErrV>((l1, 1)),
        p_value(seq![v2], 0) == Ok::<(LitV, int), ErrV>((l2, 1)),
    ensures
        parse_tokens_spec(
            seq![
                TokV::Ident(field),
                if any { TokV::Any } else { TokV::In },
                TokV::LParen,
                v1,
                TokV::Comma,
                v2,
                TokV::RParen,
            ],
        ) == Ok::<FilterV, ErrV>(
            FilterV::Match(
                split_on(field, '.'),
                if any { TestV::AnyOneOf(seq![l1, l2]) } else { TestV::OneOf(seq![l1, l2]) },
            ),
        ),
{
    let kw = if any { TokV::Any } else { TokV::In };
    let a = seq![TokV::Ident(field), kw, TokV::LParen, v1, TokV::Comma, v2, TokV::RParen];
    assert(tok_at(a, 0) == Some(TokV::Ident(field)));
    assert(tok_at(a, 1) == Some(kw));
    assert(tok_at(a, 2) == Some(TokV::LParen));
    assert(tok_at(a, 3) == Some(v1));
    assert(tok_at(a, 4) == Some(TokV::Comma));
    assert(tok_at(a, 5) == Some(v2));
    assert(tok_at(a, 6) == Some(TokV::RParen));
    assert(tok_at(a, 7) == None::<TokV>);
    assert(tok_at(seq![v1], 0) == Some(v1));
    assert(tok_at(seq![v2], 0) == Some(v2));
    assert(p_value(a, 3) == Ok::<(LitV, int), ErrV>((l1, 4)));
    assert(p_value(a, 5) == Ok::<(LitV, int), ErrV>((l2, 6)));
    assert(p_list_rest(a, 6, seq![l1, l2]) == Ok::<(Seq<LitV>, int), ErrV>((seq![l1, l2], 7)));
    assert(seq![l1].push(l2) =~= seq![l1, l2]);
    assert(p_list_rest(a, 4, seq![l1]) == Ok::<(Seq<LitV>, int), ErrV>((seq![l1, l2], 7)));
    assert(p_list(a, 2) == Ok::<(Seq<LitV>, int), ErrV>((seq![l1, l2], 7)));
    lemma_single_comparison(a, 0);
}

/// A leading `NOT` negates what follows and nothing else: `NOT c` is the negation of the
/// comparison `c`, for every comparison of a field with an operator and a value, and it
/// is refused exactly as `c` is.
pub proof fn law_leading_not_negates(field: Seq<char>, op: CmpOp, v: TokV)
    ensures
        parse_tokens_spec(seq![TokV::Not, TokV::Ident(field), TokV::Op(op), v]) == match parse_tokens_spec(
            seq![TokV::Ident(field), TokV::Op(op), v],
        ) {
            Ok(f) => Ok(FilterV::Not(Box::new(f))),
            Err(e) => Err::<FilterV, ErrV>(e),
        },
{
    let a = seq![TokV::Ident(field), TokV::Op(op), v];
    let b = seq![TokV::Not, TokV::Ident(field), TokV::Op(op), v];
    assert(tok_at(a, 0) == Some(TokV::Ident(field)));
    assert(tok_at(a, 1) == Some(TokV::Op(op)));
    assert(tok_at(a, 2) == Some(v));
    assert(tok_at(a, 3) == None::<TokV>);
    assert(tok_at(b, 0) == Some(TokV::Not));
    assert(tok_at(b, 1) == Some(TokV::Ident(field)));
    assert(tok_at(b, 2) == Some(TokV::Op(op)));
    assert(tok_at(b, 3) == Some(v));
    assert(tok_at(b, 4) == None::<TokV>);
    lemma_single_comparison(a, 0);
    lemma_single_comparison(b, 1);
    match p_comparison(b, 1) {
        Ok((f, q)) => {
            assert(p_unary(b, 0) == Ok::<(FilterV, int), ErrV>((FilterV::Not(Box::new(f)), 4)));
            assert(p_and_rest(b, 4, FilterV::Not(Box::new(f))) == Ok::<(FilterV, int), ErrV>((FilterV::Not(Box::new(f)), 4)));
            assert(p_or_rest(b, 4, FilterV::Not(Box::new(f))) == Ok::<(FilterV, int), ErrV>((FilterV::Not(Box::new(f)), 4)));
            assert(p_expr(b, 0) == Ok::<(FilterV, int), ErrV>((FilterV::Not(Box::new(f)), 4)));
        },
        Err(e) => {
            assert(p_unary(b, 0) == Err::<(FilterV, int), ErrV>(e));
            assert(p_expr(b, 0) == Err::<(FilterV, int), ErrV>(e));
        },
    }
}

/// `AND` and `OR` join two comparisons into the conjunction or the disjunction of exactly
/// those two comparisons, in the order written, for every two comparisons of a field with
/// an operator and a value that parse on their own.
pub proof fn law_and_or_join_two_comparisons(
    f1: Seq<char>,
    o1: CmpOp,
    v1: TokV,
    g1: FilterV,
    joiner: TokV,
    f2: Seq<char>,
    o2: CmpOp,
    v2: TokV,
    g2: FilterV,
)
    requires
        joiner == TokV::And || joiner == TokV::Or,
        parse_tokens_spec(seq![TokV::Ident(f1), TokV::Op(o1), v1]) == Ok::<FilterV, ErrV>(g1),
        parse_tokens_spec(seq![TokV::Ident(f2), TokV::Op(o2), v2]) == Ok::<FilterV, ErrV>(g2),
    ensures
        parse_tokens_spec(seq![TokV::Ident(f1), TokV::Op(o1), v1, joiner, TokV::Ident(f2), TokV::Op(o2), v2])
            == Ok::<FilterV, ErrV>(
            if joiner == TokV::And {
                FilterV::And(seq![g1, g2])
            } else {
                FilterV::Or(seq![g1, g2])
            },
        ),
{
    let a = seq![TokV::Ident(f1), TokV::Op(o1), v1];
    let b = seq![TokV::Ident(f2), TokV::Op(o2), v2];
    let t = seq![TokV::Ident(f1), TokV::Op(o1), v1, joiner, TokV::Ident(f2), TokV::Op(o2), v2];
    assert(tok_at(a, 0) == Some(TokV::Ident(f1)));
    assert(tok_at(a, 1) == Some(TokV::Op(o1)));
    assert(tok_at(a, 2) == Some(v1));
    assert(tok_at(a, 3) == None::<TokV>);
    assert(tok_at(b, 0) == Some(TokV::Ident(f2)));
    assert(tok_at(b, 1) == Some(TokV::Op(o2)));
    assert(tok_at(b, 2) == Some(v2));
    assert(tok_at(b, 3) == None::<TokV>);
    assert(tok_at(t, 0) == Some(TokV::Ident(f1)));
    assert(tok_at(t, 1) == Some(TokV::Op(o1)));
    assert(tok_at(t, 2) == Some(v1));
    assert(tok_at(t, 3) == Some(joiner));
    assert(tok_at(t, 4) == Some(TokV::Ident(f2)));
    assert(tok_at(t, 5) == Some(TokV::Op(o2)));
    assert(tok_at(t, 6) == Some(v2));
    assert(tok_at(t, 7) == None::<TokV>);
    lemma_single_comparison(a, 0);
    lemma_single_comparison(b, 0);
    assert(p_comparison(a, 0) == Ok::<(FilterV, int), ErrV>((g1, 3)));
    assert(p_comparison(b, 0) == Ok::<(FilterV, int), ErrV>((g2, 3)));
    assert(p_value(t, 2) == p_value(a, 2));
    assert(p_comparison(t, 0) == Ok::<(FilterV, int), ErrV>((g1, 3)));
    assert(p_comparison(t, 4) == Ok::<(FilterV, int), ErrV>((g2, 7)));
    assert(!(g1 is And) && !(g1 is Or));
    assert(p_unary(t, 0) == Ok::<(FilterV, int), ErrV>((g1, 3)));
    assert(p_unary(t, 4) == Ok::<(FilterV, int), ErrV>((g2, 7)));
    assert(p_and_rest(t, 7, g2) == Ok::<(FilterV, int), ErrV>((g2, 7)));
    if joiner == TokV::And {
        let j = FilterV::And(seq![g1, g2]);
        assert(and_join(g1, g2) == j);
        assert(p_and_rest(t, 7, j) == Ok::<(FilterV, int), ErrV>((j, 7)));
        assert(p_and_rest(t, 3, g1) == Ok::<(FilterV, int), ErrV>((j, 7)));
        assert(p_and(t, 0) == Ok::<(FilterV, int), ErrV>((j, 7)));
        assert(p_or_rest(t, 7, j) == Ok::<(FilterV, int), ErrV>((j, 7)));
        assert(p_expr(t, 0) == Ok::<(FilterV, int), ErrV>((j, 7)));
    } else {
        let j = FilterV::Or(seq![g1, g2]);
        assert(or_join(g1, g2) == j);
        assert(p_and_rest(t, 3, g1) == Ok::<(FilterV, int), ErrV>((g1, 3)));
        assert(p_and(t, 0) == Ok::<(FilterV, int), ErrV>((g1, 3)));
        assert(p_and(t, 4) == Ok::<(FilterV, int), ErrV>((g2, 7)));
        assert(p_or_rest(t, 7, j) == Ok::<(FilterV, int), ErrV>((j, 7)));
        assert(p_or_rest(t, 3, g1) == Ok::<(FilterV, int), ErrV>((j, 7)));
        assert(p_expr(t, 0) == Ok::<(FilterV, int), ErrV>((j, 7)));
    }
}

/// Each comparison operator is read as written, wherever it stands in the text: `>=`,
/// `<=`, `!=` and `<>` as one operator each, and `>`, `<` and `=` on their own where no
/// `=` or `>` follows that would make them part of a longer one.
pub proof fn law_operators_read_as_written(cs: Seq<char>, i: int)
    requires
        0 <= i < cs.len(),
    ensures
        ({
            let alone = i + 1 == cs.len() || (cs[i + 1] != '=' && cs[i + 1] != '>');
            let pair = i + 1 < cs.len();
            &&& cs[i] == '>' && alone ==> lex_from(cs, i) == cons_ok(TokV::Op(CmpOp::Gt), lex_from(cs, i + 1))
            &&& cs[i] == '<' && alone ==> lex_from(cs, i) == cons_ok(TokV::Op(CmpOp::Lt), lex_from(cs, i + 1))
            &&& cs[i] == '=' ==> lex_from(cs, i) == cons_ok(TokV::Op(CmpOp::Eq), lex_from(cs, i + 1))
            &&& pair && cs[i] == '>' && cs[i + 1] == '=' ==> lex_from(cs, i) == cons_ok(
                TokV::Op(CmpOp::Ge),
                lex_from(cs, i + 2),
            )
            &&& pair && cs[i] == '<' && cs[i + 1] == '=' ==> lex_from(cs, i) == cons_ok(
                TokV::Op(CmpOp::Le),
                lex_from(cs, i + 2),
            )
            &&& pair && cs[i] == '!' && cs[i + 1] == '=' ==> lex_from(cs, i) == cons_ok(
                TokV::Op(CmpOp::Ne),
                lex_from(cs, i + 2),
            )
            &&& pair && cs[i] == '<' && cs[i + 1] == '>' ==> lex_from(cs, i) == cons_ok(
                TokV::Op(CmpOp::LtGt),
                lex_from(cs, i + 2),
            )
        }),
{
    let c = cs[i];
    if c == '>' || c == '<' || c == '=' || c == '!' {
        assert(crate::text::is_ascii_char(c));
        assert(!whitespace_char(c));
    }
}

/// Parentheses only group: a comparison in parentheses parses to the comparison itself,
/// for every comparison of a field with an operator and a value that parses on its own.
pub proof fn law_parentheses_only_group(field: Seq<char>, op: CmpOp, v: TokV, g: FilterV)
    requires
        parse_tokens_spec(seq![TokV::Ident(field), TokV::Op(op), v]) == Ok::<FilterV, ErrV>(g),
    ensures
        parse_tokens_spec(seq![TokV::LParen, TokV::Ident(field), TokV::Op(op), v, TokV::RParen]) == Ok::<
            FilterV,
            ErrV,
        >(g),
{
    let a = seq![TokV::Ident(field), TokV::Op(op), v];
    let t = seq![TokV::LParen, TokV::Ident(field), TokV::Op(op), v, TokV::RParen];
    assert(tok_at(a, 0) == Some(TokV::Ident(field)));
    assert(tok_at(a, 1) == Some(TokV::Op(op)));
    assert(tok_at(a, 2) == Some(v));
    assert(tok_at(a, 3) == None::<TokV>);
    assert(tok_at(t, 0) == Some(TokV::LParen));
    assert(tok_at(t, 1) == Some(TokV::Ident(field)));
    assert(tok_at(t, 2) == Some(TokV::Op(op)));
    assert(tok_at(t, 3) == Some(v));
    assert(tok_at(t, 4) == Some(TokV::RParen));
    assert(tok_at(t, 5) == None::<TokV>);
    lemma_single_comparison(a, 0);
    assert(p_comparison(a, 0) == Ok::<(FilterV, int), ErrV>((g, 3)));
    assert(p_comparison(t, 1) == Ok::<(FilterV, int), ErrV>((g, 4)));
    assert(p_unary(t, 1) == Ok::<(FilterV, int), ErrV>((g, 4)));
    assert(p_and_rest(t, 4, g) == Ok::<(FilterV, int), ErrV>((g, 4)));
    assert(p_and(t, 1) == Ok::<(FilterV, int), ErrV>((g, 4)));
    assert(p_or_rest(t, 4, g) == Ok::<(FilterV, int), ErrV>((g, 4)));
    assert(p_expr(t, 1) == Ok::<(FilterV, int), ErrV>((g, 4)));
    assert(p_atom(t, 0) == Ok::<(FilterV, int), ErrV>((g, 5)));
    assert(p_unary(t, 0) == Ok::<(FilterV, int), ErrV>((g, 5)));
    assert(p_and_rest(t, 5, g) == Ok::<(FilterV, int), ErrV>((g, 5)));
    assert(p_and(t, 0) == Ok::<(FilterV, int), ErrV>((g, 5)));
    assert(p_or_rest(t, 5, g) == Ok::<(FilterV, int), ErrV>((g, 5)));
    assert(p_expr(t, 0) == Ok::<(FilterV, int), ErrV>((g, 5)));
}

/// `field LIKE 'text'` with no `%` in `text` parses exactly as `field = 'text'`.
pub proof fn law_like_without_wildcard_is_equality(field: Seq<char>, text: Seq<char>)
    requires
        !text.contains('%'),
    ensures
        parse_tokens_spec(seq![TokV::Ident(field), TokV::Like, TokV::Str(text)])
            == parse_tokens_spec(seq![TokV::Ident(field), TokV::Op(CmpOp::Eq), TokV::Str(text)]),
{
    let a = seq![TokV::Ident(field), TokV::Like, TokV::Str(text)];
    let b = seq![TokV::Ident(field), TokV::Op(CmpOp::Eq), TokV::Str(text)];
    assert(tok_at(a, 1) == Some(TokV::Like));
    assert(tok_at(a, 2) == Some(TokV::Str(text)));
    assert(tok_at(b, 1) == Some(TokV::Op(CmpOp::Eq)));
    assert(tok_at(b, 2) == Some(TokV::Str(text)));
    assert(text.len() > 0 ==> text[0] != '%');
    assert(text.len() > 0 ==> text.last() != '%');
    assert(trim_start_char(text, '%') == text);
    assert(trim_end_char(text, '%') == text);
    assert(like_test(text, CaseMode::Cs) == Ok::<TestV, ErrV>(TestV::Exact(LitV::Text(text), CaseMode::Cs)));
    assert(p_condition(a, field, 1) == p_condition(b, field, 1));
    assert(p_comparison(a, 0) == p_comparison(b, 0));
    lemma_single_comparison(a, 0);
    lemma_single_comparison(b, 0);
}

/// Keywords are matched whatever their case: two words with the same lowercase form that
/// is a keyword give the same token.
pub proof fn law_keywords_ignore_case(a: Seq<char>, b: Seq<char>)
    requires
        lower_text(a) == lower_text(b),
        !(word_token(a) is Ident),
    ensures
        word_token(a) == word_token(b),
{
}

/// A bare word and a quoted string with the same characters are the same value.
pub proof fn law_bare_word_is_a_text_value(toks: Seq<TokV>, p: int, s: Seq<char>)
    requires
        0 <= p < toks.len(),
    ensures
        p_value(toks.update(p, TokV::Ident(s)), p) == p_value(toks.update(p, TokV::Str(s)), p),
        p_value(toks.update(p, TokV::Ident(s)), p) == Ok::<(LitV, int), ErrV>((LitV::Text(s), p + 1)),
{
}


/// The list functions read no token before their starting position: two token lists
/// that agree from `p` on give the same result from `p`.
proof fn lemma_list_rest_reads_from_p(a: Seq<TokV>, b: Seq<TokV>, p: int, acc: Seq<LitV>)
    requires
        a.len() == b.len(),
        0 <= p,
        forall|k: int| p <= k < a.len() ==> a[k] == b[k],
    ensures
        p_list_rest(a, p, acc) == p_list_rest(b, p, acc),
    decreases a.len() - p,
{
    assert(tok_at(a, p) == tok_at(b, p));
    assert(tok_at(a, p + 1) == tok_at(b, p + 1));
    if let Some(TokV::Comma) = tok_at(a, p) {
        if let Ok((v, q)) = p_value(a, p + 1) {
            lemma_list_rest_reads_from_p(a, b, p + 2, acc.push(v));
        }
    }
}

proof fn lemma_condition_reads_from_p(a: Seq<TokV>, b: Seq<TokV>, field: Seq<char>, p: int)
    requires
        a.len() == b.len(),
        0 <= p,
        forall|k: int| p <= k < a.len() ==> a[k] == b[k],
    ensures
        p_condition(a, field, p) == p_condition(b, field, p),
{
    assert(tok_at(a, p) == tok_at(b, p));
    assert(tok_at(a, p + 1) == tok_at(b, p + 1));
    assert(tok_at(a, p + 2) == tok_at(b, p + 2));
    if let Ok((v, q)) = p_value(a, p + 2) {
        lemma_list_rest_reads_from_p(a, b, p + 3, seq![v]);
    }
    assert(p_list(a, p + 1) == p_list(b, p + 1));
}

/// Whether two token lists have the same length and agree from `p` on.
pub open spec fn agree_from(a: Seq<TokV>, b: Seq<TokV>, p: int) -> bool {
    a.len() == b.len() && forall|k: int| p <= k < a.len() ==> a[k] == b[k]
}

proof fn lemma_comparison_reads_from_p(a: Seq<TokV>, b: Seq<TokV>, p: int)
    requires
        0 <= p,
        agree_from(a, b, p),
    ensures
        p_comparison(a, p) == p_comparison(b, p),
{
    assert(tok_at(a, p) == tok_at(b, p));
    assert(tok_at(a, p + 1) == tok_at(b, p + 1));
    lemma_condition_reads_from_p(a, b, tok_at(a, p)->0->Ident_0, p + 1);
    lemma_condition_reads_from_p(a, b, tok_at(a, p)->0->Ident_0, p + 2);
}

proof fn lemma_expr_reads_from_p(a: Seq<TokV>, b: Seq<TokV>, p: int)
    requires
        0 <= p,
        agree_from(a, b, p),
    ensures
        p_expr(a, p) == p_expr(b, p),
    decreases a.len() - p, 5int,
{
    lemma_and_reads_from_p(a, b, p);
    if let Ok((l, q)) = p_and(a, p) {
        if p < q <= a.len() {
            lemma_or_rest_reads_from_p(a, b, q, l);
        }
    }
}

proof fn lemma_or_rest_reads_from_p(a: Seq<TokV>, b: Seq<TokV>, p: int, left: FilterV)
    requires
        0 <= p,
        agree_from(a, b, p),
    ensures
        p_or_rest(a, p, left) == p_or_rest(b, p, left),
    decreases a.len() - p, 0int,
{
    assert(tok_at(a, p) == tok_at(b, p));
    if tok_at(a, p) == Some(TokV::Or) {
        lemma_and_reads_from_p(a, b, p + 1);
        if let Ok((r, q)) = p_and(a, p + 1) {
            if p < q <= a.len() {
                lemma_or_rest_reads_from_p(a, b, q, or_join(left, r));
            }
        }
    }
}

proof fn lemma_and_reads_from_p(a: Seq<TokV>, b: Seq<TokV>, p: int)
    requires
        0 <= p,
        agree_from(a, b, p),
    ensures
        p_and(a, p) == p_and(b, p),
    decreases a.len() - p, 4int,
{
    lemma_unary_reads_from_p(a, b, p);
    if let Ok((l, q)) = p_unary(a, p) {
        if p < q <= a.len() {
            lemma_and_rest_reads_from_p(a, b, q, l);
        }
    }
}

proof fn lemma_and_rest_reads_from_p(a: Seq<TokV>, b: Seq<TokV>, p: int, left: FilterV)
    requires
        0 <= p,
        agree_from(a, b, p),
    ensures
        p_and_rest(a, p, left) == p_and_rest(b, p, left),
    decreases a.len() - p, 0int,
{
    assert(tok_at(a, p) == tok_at(b, p));
    if tok_at(a, p) == Some(TokV::And) {
        lemma_unary_reads_from_p(a, b, p + 1);
        if let Ok((r, q)) = p_unary(a, p + 1) {
            if p < q <= a.len() {
                lemma_and_rest_reads_from_p(a, b, q, and_join(left, r));
            }
        }
    }
}

proof fn lemma_unary_reads_from_p(a: Seq<TokV>, b: Seq<TokV>, p: int)
    requires
        0 <= p,
        agree_from(a, b, p),
    ensures
        p_unary(a, p) == p_unary(b, p),
    decreases a.len() - p, 3int,
{
    assert(tok_at(a, p) == tok_at(b, p));
    if tok_at(a, p) == Some(TokV::Not) {
        lemma_unary_reads_from_p(a, b, p + 1);
    } else {
        lemma_atom_reads_from_p(a, b, p);
    }
}

proof fn lemma_atom_reads_from_p(a: Seq<TokV>, b: Seq<TokV>, p: int)
    requires
        0 <= p,
        agree_from(a, b, p),
    ensures
        p_atom(a, p) == p_atom(b, p),
    decreases a.len() - p, 2int,
{
    assert(tok_at(a, p) == tok_at(b, p));
    if tok_at(a, p) == Some(TokV::LParen) {
        lemma_expr_reads_from_p(a, b, p + 1);
        if let Ok((f, q)) = p_expr(a, p + 1) {
            crate::filter_pattern::lemma_expr_progress(a, p + 1);
            assert(tok_at(a, q) == tok_at(b, q));
        }
    } else {
        lemma_comparison_reads_from_p(a, b, p);
    }
}

/// A `NOT` after the field negates a comparison exactly as a `NOT` before it does:
/// `field NOT IN (..)` is `NOT field IN (..)`, `field NOT LIKE 'p'` is `NOT field LIKE
/// 'p'`, and so on, whatever follows the comparison, for every comparison whose operator
/// does not negate by itself (`!=`, `<>`, which a field-level `NOT` leaves as they are)
/// and that does not repeat the `NOT`. Refusals agree too.
pub proof fn law_not_after_field_is_not_before(field: Seq<char>, rest: Seq<TokV>)
    requires
        rest.len() > 0,
        rest[0] != TokV::Not,
        !(rest[0] matches TokV::Op(op) && negates(op)),
    ensures
        parse_tokens_spec(seq![TokV::Ident(field), TokV::Not] + rest) == parse_tokens_spec(
            seq![TokV::Not, TokV::Ident(field)] + rest,
        ),
{
    let a = seq![TokV::Ident(field), TokV::Not] + rest;
    let b = seq![TokV::Not, TokV::Ident(field)] + rest;
    assert(tok_at(a, 0) == Some(TokV::Ident(field)));
    assert(tok_at(a, 1) == Some(TokV::Not));
    assert(tok_at(b, 0) == Some(TokV::Not));
    assert(tok_at(b, 1) == Some(TokV::Ident(field)));
    assert(tok_at(b, 2) == Some(rest[0]));
    assert(tok_at(a, 2) == Some(rest[0]));
    assert(agree_from(a, b, 2));
    lemma_condition_reads_from_p(a, b, field, 2);
    lemma_comparison_progress(a, 0);
    lemma_comparison_progress(b, 1);
    assert(p_unary(a, 0) == p_comparison(a, 0));
    assert(p_unary(b, 1) == p_comparison(b, 1));
    assert(p_unary(a, 0) == p_unary(b, 0));
    if let Ok((l, q)) = p_unary(a, 0) {
        if 0 < q <= a.len() {
            assert(agree_from(a, b, q));
            lemma_and_rest_reads_from_p(a, b, q, l);
            crate::filter_pattern::lemma_and_rest_progress(a, q, l);
        }
    }
    assert(p_and(a, 0) == p_and(b, 0));
    if let Ok((l, q)) = p_and(a, 0) {
        if 0 < q <= a.len() {
            assert(agree_from(a, b, q));
            lemma_or_rest_reads_from_p(a, b, q, l);
        }
    }
    assert(p_expr(a, 0) == p_expr(b, 0));
}


// ---------------------------------------------------------------------------
// Filter strings
// ---------------------------------------------------------------------------

proof fn lemma_quoted_body_plain(x: Seq<char>)
    requires
        !x.contains('\''),
    ensures
        quoted_body(x + seq!['\'']) == Some((x, x.len() as int + 1)),
    decreases x.len(),
{
    let t = x + seq!['\''];
    if x.len() == 0 {
        assert(t =~= seq!['\'']);
    } else {
        assert(t[0] == x[0]);
        assert(x[0] != '\'');
        assert(!x.drop_first().contains('\'')) by {
            assert forall|k: int| 0 <= k < x.drop_first().len() implies x.drop_first()[k] != '\'' by {
                assert(x.drop_first()[k] == x[k + 1]);
            }
        }
        lemma_quoted_body_plain(x.drop_first());
        assert(t.drop_first() =~= x.drop_first() + seq!['\'']);
        assert(seq![x[0]] + x.drop_first() =~= x);
    }
}

/// Plain text without quotes, then one quoted literal without quotes of its own, splits
/// into that text and that literal.
proof fn lemma_quote_split_text_then_literal(a: Seq<char>, x: Seq<char>)
    requires
        a.len() > 0,
        !a.contains('\''),
        !x.contains('\''),
    ensures
        quote_split(a + seq!['\''] + x + seq!['\'']) == seq![(false, a), (true, x)],
{
    let s = a + seq!['\''] + x + seq!['\''];
    lemma_first_index(s, '\'');
    assert(s[a.len() as int] == '\'');
    assert forall|k: int| 0 <= k < a.len() implies s[k] != '\'' by {
        assert(s[k] == a[k]);
    }
    assert(first_index(s, '\'') == Some(a.len() as int));
    assert(s.skip(a.len() as int + 1) =~= x + seq!['\'']);
    lemma_quoted_body_plain(x);
    let rest = s.skip(a.len() as int + 1 + x.len() as int + 1);
    assert(rest =~= Seq::<char>::empty());
    lemma_first_index(rest, '\'');
    assert(quote_split(rest) == Seq::<(bool, Seq<char>)>::empty());
    assert(s.take(a.len() as int) =~= a);
    assert(seq![(false, a)] + seq![(true, x)] + Seq::<(bool, Seq<char>)>::empty() =~= seq![(false, a), (true, x)]);
}

/// A field name as plainly written: ASCII, a letter or `_` first, then letters, digits
/// and `_`.
pub open spec fn plain_field(f: Seq<char>) -> bool {
    &&& f.len() > 0
    &&& is_ascii_text(f)
    &&& (ascii_alphabetic(f[0]) || f[0] == '_')
    &&& forall|i: int| 0 <= i < f.len() ==> ascii_alphanumeric(#[trigger] f[i]) || f[i] == '_'
}

proof fn lemma_word_end_at(cs: Seq<char>, i: int, e: int)
    requires
        0 <= i <= e < cs.len(),
        forall|k: int| i <= k < e ==> alphanumeric_char(#[trigger] cs[k]) || cs[k] == '_' || cs[k] == '.',
        !(alphanumeric_char(cs[e]) || cs[e] == '_' || cs[e] == '.'),
    ensures
        word_end(cs, i) == e,
    decreases e - i,
{
    if i < e {
        lemma_word_end_at(cs, i + 1, e);
    }
}

/// The plain field `f` followed by a space lexes as the field, then whatever follows.
proof fn lemma_lex_plain_field(f: Seq<char>, tail: Seq<char>)
    requires
        plain_field(f),
        word_token(f) is Ident,
        tail.len() > 0,
        tail[0] == ' ',
    ensures
        lex_from(f + tail, 0) == cons_ok(TokV::Ident(f), lex_from(f + tail, f.len() as int)),
{
    let cs = f + tail;
    assert(cs[0] == f[0]);
    assert(crate::text::is_ascii_char(f[0]));
    assert(cs[f.len() as int] == ' ');
    assert forall|k: int| 1 <= k < f.len() implies alphanumeric_char(#[trigger] cs[k]) || cs[k] == '_' || cs[k] == '.' by {
        assert(cs[k] == f[k]);
        assert(crate::text::is_ascii_char(f[k]));
    }
    lemma_word_end_at(cs, 1, f.len() as int);
    assert(cs.subrange(0, f.len() as int) =~= f);
    assert(!whitespace_char(cs[0]));
    assert(!starts_number(cs, 0));
    assert(alphabetic_char(cs[0]) || cs[0] == '_');
}

proof fn lemma_lex_field_equals(field: Seq<char>)
    requires
        plain_field(field),
        word_token(field) is Ident,
    ensures
        lex_from(field + seq![' ', '=', ' '], 0) == Ok::<Seq<TokV>, ErrV>(seq![TokV::Ident(field), TokV::Op(CmpOp::Eq)]),
{
    let tail = seq![' ', '=', ' '];
    let ea = field + tail;
    lemma_lex_plain_field(field, tail);
    let n = field.len() as int;
    assert(ea[n] == ' ' && ea[n + 1] == '=' && ea[n + 2] == ' ');
    assert(whitespace_char(' '));
    assert(two_char_op('=', ' ') is None);
    assert(lex_from(ea, n + 3) == Ok::<Seq<TokV>, ErrV>(Seq::empty()));
    assert(lex_from(ea, n + 2) == Ok::<Seq<TokV>, ErrV>(Seq::empty()));
    assert(seq![TokV::Op(CmpOp::Eq)] + Seq::<TokV>::empty() =~= seq![TokV::Op(CmpOp::Eq)]);
    assert(lex_from(ea, n + 1) == Ok::<Seq<TokV>, ErrV>(seq![TokV::Op(CmpOp::Eq)]));
    assert(lex_from(ea, n) == Ok::<Seq<TokV>, ErrV>(seq![TokV::Op(CmpOp::Eq)]));
    assert(seq![TokV::Ident(field)] + seq![TokV::Op(CmpOp::Eq)] =~= seq![TokV::Ident(field), TokV::Op(CmpOp::Eq)]);
}

proof fn lemma_lex_field_like(field: Seq<char>)
    requires
        plain_field(field),
        word_token(field) is Ident,
    ensures
        lex_from(field + seq![' ', 'L', 'I', 'K', 'E', ' '], 0) == Ok::<Seq<TokV>, ErrV>(
            seq![TokV::Ident(field), TokV::Like],
        ),
{
    reveal_strlit("and");
    reveal_strlit("or");
    reveal_strlit("not");
    reveal_strlit("like");
    let tail = seq![' ', 'L', 'I', 'K', 'E', ' '];
    let la = field + tail;
    lemma_lex_plain_field(field, tail);
    let n = field.len() as int;
    assert(la[n] == ' ' && la[n + 1] == 'L' && la[n + 2] == 'I' && la[n + 3] == 'K' && la[n + 4] == 'E' && la[n + 5] == ' ');
    assert(whitespace_char(' '));
    assert forall|k: int| n + 2 <= k < n + 5 implies alphanumeric_char(#[trigger] la[k]) || la[k] == '_' || la[k] == '.' by {}
    lemma_word_end_at(la, n + 2, n + 5);
    let word = la.subrange(n + 1, n + 5);
    assert(word =~= seq!['L', 'I', 'K', 'E']);
    assert(is_ascii_text(word));
    assert(lower_text(word) =~= seq!['l', 'i', 'k', 'e']);
    assert(lower_text(word) =~= "like"@);
    assert(lower_text(word) != "and"@ && lower_text(word) != "or"@ && lower_text(word) != "not"@) by {
        assert("and"@.len() == 3 && "or"@.len() == 2 && "not"@.len() == 3);
    }
    assert(word_token(word) == TokV::Like);
    assert(!starts_number(la, n + 1));
    assert(alphabetic_char(la[n + 1]));
    assert(lex_from(la, n + 6) == Ok::<Seq<TokV>, ErrV>(Seq::empty()));
    assert(lex_from(la, n + 5) == Ok::<Seq<TokV>, ErrV>(Seq::empty()));
    assert(seq![TokV::Like] + Seq::<TokV>::empty() =~= seq![TokV::Like]);
    assert(lex_from(la, n + 1) == Ok::<Seq<TokV>, ErrV>(seq![TokV::Like]));
    assert(lex_from(la, n) == Ok::<Seq<TokV>, ErrV>(seq![TokV::Like]));
    assert(seq![TokV::Ident(field)] + seq![TokV::Like] =~= seq![TokV::Ident(field), TokV::Like]);
}

proof fn lemma_lex_text_then_literal(head: Seq<char>, toks: Seq<TokV>, text: Seq<char>)
    requires
        !head.contains('\''),
        lex_from(head, 0) == Ok::<Seq<TokV>, ErrV>(toks),
    ensures
        lex_pieces(seq![(false, head), (true, text)]) == Ok::<Seq<TokV>, ErrV>(toks.push(TokV::Str(text))),
{
    let ps = seq![(false, head), (true, text)];
    assert(ps.drop_first().drop_first() =~= Seq::<(bool, Seq<char>)>::empty());
    assert(ps.drop_first()[0] == (true, text));
    assert(seq![TokV::Str(text)] + Seq::<TokV>::empty() =~= seq![TokV::Str(text)]);
    assert(lex_pieces(ps.drop_first().drop_first()) == Ok::<Seq<TokV>, ErrV>(Seq::empty()));
    assert(lex_pieces(ps.drop_first()) == Ok::<Seq<TokV>, ErrV>(seq![TokV::Str(text)]));
    assert(toks + seq![TokV::Str(text)] =~= toks.push(TokV::Str(text)));
}

/// `field = 'text'` and `field LIKE 'text'` read alike: the same filter, or the same
/// refusal, for every plain field name that is not a keyword and every text without `%`
/// or `'`.
#[verifier::rlimit(40)]
pub proof fn law_quoted_like_without_wildcard_is_equality(field: Seq<char>, text: Seq<char>)
    requires
        plain_field(field),
        word_token(field) is Ident,
        !text.contains('%'),
        !text.contains('\''),
    ensures
        parse_pieces_spec(quote_split(field + seq![' ', 'L', 'I', 'K', 'E', ' ', '\''] + text + seq!['\'']))
            == parse_pieces_spec(quote_split(field + seq![' ', '=', ' ', '\''] + text + seq!['\''])),
{
    let la = field + seq![' ', 'L', 'I', 'K', 'E', ' '];
    let ea = field + seq![' ', '=', ' '];
    assert(field + seq![' ', 'L', 'I', 'K', 'E', ' ', '\''] + text + seq!['\''] =~= la + seq!['\''] + text + seq!['\'']);
    assert(field + seq![' ', '=', ' ', '\''] + text + seq!['\''] =~= ea + seq!['\''] + text + seq!['\'']);
    assert(!la.contains('\'')) by {
        assert forall|k: int| 0 <= k < la.len() implies la[k] != '\'' by {
            if k < field.len() {
                assert(la[k] == field[k]);
            }
        }
    }
    assert(!ea.contains('\'')) by {
        assert forall|k: int| 0 <= k < ea.len() implies ea[k] != '\'' by {
            if k < field.len() {
                assert(ea[k] == field[k]);
            }
        }
    }
    lemma_quote_split_text_then_literal(la, text);
    lemma_quote_split_text_then_literal(ea, text);
    let sl = field + seq![' ', 'L', 'I', 'K', 'E', ' ', '\''] + text + seq!['\''];
    let se = field + seq![' ', '=', ' ', '\''] + text + seq!['\''];
    assert(quote_split(sl) == seq![(false, la), (true, text)]);
    assert(quote_split(se) == seq![(false, ea), (true, text)]);
    lemma_lex_field_equals(field);
    lemma_lex_field_like(field);
    lemma_lex_text_then_literal(ea, seq![TokV::Ident(field), TokV::Op(CmpOp::Eq)], text);
    lemma_lex_text_then_literal(la, seq![TokV::Ident(field), TokV::Like], text);
    assert(seq![TokV::Ident(field), TokV::Op(CmpOp::Eq)].push(TokV::Str(text)) =~= seq![
        TokV::Ident(field),
        TokV::Op(CmpOp::Eq),
        TokV::Str(text),
    ]);
    assert(seq![TokV::Ident(field), TokV::Like].push(TokV::Str(text)) =~= seq![
        TokV::Ident(field),
        TokV::Like,
        TokV::Str(text),
    ]);
    law_like_without_wildcard_is_equality(field, text);
}

} // verus!
