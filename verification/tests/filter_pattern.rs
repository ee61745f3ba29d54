use spread_cli::filter_pattern::{
    like_to_filter_match, parse_filter, tokenize, CaseMode, CmpOp, FieldTest, Filter, Literal, Token,
    ValueTest,
};
use spreadsheet_to_json::indexmap::IndexMap;
use spreadsheet_to_json::serde_json::{self, Value};
use spreadsheet_to_json::{ColumnMatch, FilterCondition, FilterMatch, MatchMode};
use std::sync::Arc;

fn value_of(l: &Literal) -> Value {
    match l {
        Literal::Text(s) => Value::String(s.clone()),
        Literal::Int(n) => Value::from(*n),
        Literal::Decimal(t) => Value::from(t.parse::<f64>().unwrap()),
    }
}

fn mode_of(m: CaseMode) -> MatchMode {
    match m {
        CaseMode::Cs => MatchMode::Cs,
        CaseMode::Ci => MatchMode::Ci,
    }
}

fn match_of(t: &ValueTest) -> FilterMatch {
    match t {
        ValueTest::Exact(v, m) => FilterMatch::Exact(value_of(v), mode_of(*m)),
        ValueTest::StartsWith(v, m) => FilterMatch::StartsWith(value_of(v), mode_of(*m)),
        ValueTest::EndsWith(v, m) => FilterMatch::EndsWith(value_of(v), mode_of(*m)),
        ValueTest::Contains(v, m) => FilterMatch::Contains(value_of(v), mode_of(*m)),
        ValueTest::Gt(v) => FilterMatch::Gt(value_of(v)),
        ValueTest::Gte(v) => FilterMatch::Gte(value_of(v)),
        ValueTest::Lt(v) => FilterMatch::Lt(value_of(v)),
        ValueTest::Lte(v) => FilterMatch::Lte(value_of(v)),
        ValueTest::OneOf(vs) => FilterMatch::OneOf(vs.iter().map(value_of).collect()),
        ValueTest::AnyOneOf(vs) => FilterMatch::AnyOneOf(vs.iter().map(value_of).collect()),
    }
}

fn condition_of(f: &Filter) -> FilterCondition {
    match f {
        Filter::Match(FieldTest { path, test }) => {
            let m = match_of(test);
            if path.len() == 1 {
                FilterCondition::Match(ColumnMatch::new(path[0].as_str(), m))
            } else {
                let parts: Vec<&str> = path.iter().map(String::as_str).collect();
                FilterCondition::Match(ColumnMatch::at_path(&parts, m))
            }
        }
        Filter::And(fs) => FilterCondition::And(fs.iter().map(condition_of).collect()),
        Filter::Or(fs) => FilterCondition::Or(fs.iter().map(condition_of).collect()),
        Filter::Not(inner) => FilterCondition::Not(Arc::new(condition_of(inner))),
    }
}

fn evaluate(f: &Filter, row: &IndexMap<String, Value>) -> bool {
    condition_of(f).evaluate(row)
}

fn row(pairs: &[(&str, Value)]) -> IndexMap<String, Value> {
    pairs.iter().map(|(k, v)| (k.to_string(), v.clone())).collect()
}

fn s(text: &str) -> Value {
    Value::String(text.to_string())
}

fn n(v: i64) -> Value {
    Value::from(v)
}

fn object(pairs: &[(&str, Value)]) -> Value {
    let mut m = serde_json::Map::new();
    for (k, v) in pairs {
        m.insert(k.to_string(), v.clone());
    }
    Value::Object(m)
}

fn strings(items: &[&str]) -> Value {
    Value::Array(items.iter().map(|t| s(t)).collect())
}

#[test]
fn test_and_logic_on_mapped_fields() {
    let condition = parse_filter("first_name ILIKE 'a%' and last_name  ILIKE '%os' ").unwrap();
    assert!(evaluate(&condition, &row(&[("first_name", s("Amos")), ("last_name", s("Santos"))])));
    assert!(!evaluate(&condition, &row(&[("first_name", s("Bob")), ("last_name", s("Santos"))])));
    assert!(!evaluate(&condition, &row(&[("first_name", s("Amos")), ("last_name", s("Smith"))])));
    // ILIKE is case-insensitive
    assert!(evaluate(&condition, &row(&[("first_name", s("AMOS")), ("last_name", s("SANTOS"))])));
}

#[test]
fn test_or_logic_on_mapped_fields() {
    let condition = parse_filter("first_name ILIKE 'a%'  or last_name  ILIKE '%os'").unwrap();
    assert!(evaluate(&condition, &row(&[("first_name", s("Amos")), ("last_name", s("Smith"))])));
    assert!(evaluate(&condition, &row(&[("first_name", s("Bob")), ("last_name", s("Santos"))])));
    assert!(!evaluate(&condition, &row(&[("first_name", s("Bob")), ("last_name", s("Smith"))])));
}

#[test]
fn test_and_with_nested_or_and_numeric_comparison() {
    let condition = parse_filter("(first_name ILIKE 'a%' or last_name  ILIKE '%os' ) and age>=18").unwrap();
    assert!(evaluate(&condition, &row(&[("first_name", s("Amos")), ("last_name", s("Smith")), ("age", n(20))])));
    assert!(!evaluate(&condition, &row(&[("first_name", s("Amos")), ("last_name", s("Smith")), ("age", n(16))])));
    assert!(!evaluate(&condition, &row(&[("first_name", s("Bob")), ("last_name", s("Smith")), ("age", n(20))])));
}

#[test]
fn test_unbalanced_parens_is_a_clear_error_not_silently_accepted() {
    let err = parse_filter("first_name ILIKE 'a%'  or last_name  ILIKE '%os' )").unwrap_err();
    assert!(err.contains("trailing") || err.contains("expected"), "got: {err}");
}

#[test]
fn test_not_negates_a_parenthesised_group() {
    let condition = parse_filter("NOT (age >= 18)").unwrap();
    assert!(evaluate(&condition, &row(&[("age", n(16))])));
    assert!(!evaluate(&condition, &row(&[("age", n(20))])));
}

#[test]
fn test_not_like_and_not_equal() {
    let not_like = parse_filter("first_name NOT ILIKE 'a%'").unwrap();
    assert!(evaluate(&not_like, &row(&[("first_name", s("Bob"))])));
    assert!(!evaluate(&not_like, &row(&[("first_name", s("Amos"))])));

    let not_eq = parse_filter("age != 18").unwrap();
    assert!(evaluate(&not_eq, &row(&[("age", n(20))])));
    assert!(!evaluate(&not_eq, &row(&[("age", n(18))])));
}

#[test]
fn test_like_pattern_with_middle_wildcard_is_rejected() {
    let err = parse_filter("first_name ILIKE 'a%b'").unwrap_err();
    assert!(err.contains("middle"), "got: {err}");
}

#[test]
fn test_exact_string_and_no_wildcard_like_are_equivalent() {
    let eq = parse_filter("engine_type = 'electric'").unwrap();
    let like = parse_filter("engine_type LIKE 'electric'").unwrap();
    let r = row(&[("engine_type", s("electric"))]);
    assert!(evaluate(&eq, &r));
    assert!(evaluate(&like, &r));
}

#[test]
fn test_in_matches_a_quoted_or_bare_value_list() {
    let quoted = parse_filter("country_code IN ('us', 'gb', 'ca')").unwrap();
    let bare = parse_filter("country_code IN (us, gb, ca)").unwrap();
    assert!(evaluate(&quoted, &row(&[("country_code", s("gb"))])));
    assert!(evaluate(&bare, &row(&[("country_code", s("gb"))])));
    assert!(!evaluate(&quoted, &row(&[("country_code", s("fr"))])));
}

#[test]
fn test_not_in_negates_the_membership_check() {
    let condition = parse_filter("country_code NOT IN (us, gb)").unwrap();
    assert!(evaluate(&condition, &row(&[("country_code", s("fr"))])));
    assert!(!evaluate(&condition, &row(&[("country_code", s("us"))])));
}

#[test]
fn test_any_matches_when_the_row_array_intersects_the_list() {
    let condition = parse_filter("codes ANY (us, ca)").unwrap();
    assert!(evaluate(&condition, &row(&[("codes", strings(&["us", "de"]))])));
    assert!(!evaluate(&condition, &row(&[("codes", strings(&["fr", "de"]))])));
    // a scalar field never satisfies ANY, even if it equals a candidate
    assert!(!evaluate(&condition, &row(&[("codes", s("us"))])));
}

#[test]
fn test_dot_path_field_reaches_a_nested_keys_built_object() {
    let condition = parse_filter("size.width < 10").unwrap();
    let narrow = row(&[("size", object(&[("width", n(5)), ("height", n(20))]))]);
    let wide = row(&[("size", object(&[("width", n(15)), ("height", n(20))]))]);
    assert!(evaluate(&condition, &narrow));
    assert!(!evaluate(&condition, &wide));
}

#[test]
fn test_malformed_dot_path_is_a_clear_error() {
    // A dot with nothing alphabetic before it isn't part of any token at all --
    // caught at tokenization, before path-splitting ever runs.
    let err = parse_filter(".width < 10").unwrap_err();
    assert!(err.contains("unexpected character"), "got: {err}");

    // A trailing or doubled dot tokenizes fine (it's still "alphabetic-started"),
    // but splits into an empty path segment -- caught explicitly when the field
    // reference is parsed.
    for expr in ["size. < 10", "size..width < 10"] {
        let err = parse_filter(expr).unwrap_err();
        assert!(err.contains("empty segment"), "expr '{expr}' got: {err}");
    }
}

#[test]
fn test_doubled_single_quote_inside_a_string_literal_is_a_literal_quote() {
    let condition = parse_filter("last_name = 'O''Brien'").unwrap();
    assert!(evaluate(&condition, &row(&[("last_name", s("O'Brien"))])));
    assert!(!evaluate(&condition, &row(&[("last_name", s("OBrien"))])));
}

#[test]
fn test_unterminated_string_literal_is_a_clear_error() {
    let err = parse_filter("first_name = 'Amos").unwrap_err();
    assert!(err.contains("unterminated string literal"), "got: {err}");
}

// ---------------------------------------------------------------------------
// Tokens
// ---------------------------------------------------------------------------

#[test]
fn tokens_of_a_comparison_with_every_kind_of_value() {
    let toks = tokenize("a >= -12 AND b <> 'x y' or c in (1.5, z)").unwrap();
    assert_eq!(toks.len(), 15);
    assert!(matches!(&toks[0], Token::Ident(t) if t == "a"));
    assert!(matches!(&toks[1], Token::Op(CmpOp::Ge)));
    assert!(matches!(&toks[2], Token::Int(-12)));
    assert!(matches!(&toks[3], Token::And));
    assert!(matches!(&toks[5], Token::Op(CmpOp::LtGt)));
    assert!(matches!(&toks[6], Token::Str(t) if t == "x y"));
    assert!(matches!(&toks[7], Token::Or));
    assert!(matches!(&toks[9], Token::In));
    assert!(matches!(&toks[10], Token::LParen));
    assert!(matches!(&toks[11], Token::Decimal(t) if t == "1.5"));
    assert!(matches!(&toks[12], Token::Comma));
    assert!(matches!(&toks[14], Token::RParen));
}

#[test]
fn keywords_are_read_in_any_case() {
    let a = tokenize("NoT x LiKe 'a'").unwrap();
    assert!(matches!(&a[0], Token::Not));
    assert!(matches!(&a[2], Token::Like));
}

// ---------------------------------------------------------------------------
// LIKE patterns
// ---------------------------------------------------------------------------

#[test]
fn like_patterns_map_to_anchored_tests() {
    assert!(matches!(like_to_filter_match("a%", CaseMode::Cs), Ok(ValueTest::StartsWith(Literal::Text(t), CaseMode::Cs)) if t == "a"));
    assert!(matches!(like_to_filter_match("%os", CaseMode::Ci), Ok(ValueTest::EndsWith(Literal::Text(t), CaseMode::Ci)) if t == "os"));
    assert!(matches!(like_to_filter_match("%oo%", CaseMode::Cs), Ok(ValueTest::Contains(Literal::Text(t), _)) if t == "oo"));
    assert!(matches!(like_to_filter_match("exact", CaseMode::Cs), Ok(ValueTest::Exact(Literal::Text(t), _)) if t == "exact"));
    assert!(like_to_filter_match("a%b", CaseMode::Cs).is_err());
}

#[test]
fn not_equal_matches_negated_equality_on_rows() {
    let a = parse_filter("age <> 18").unwrap();
    let b = parse_filter("NOT age = 18").unwrap();
    for v in [16, 18, 20] {
        let r = row(&[("age", n(v))]);
        assert_eq!(evaluate(&a, &r), evaluate(&b, &r));
    }
}

#[test]
fn decimal_literal_compares_numerically() {
    let c = parse_filter("price < 2.5").unwrap();
    assert!(evaluate(&c, &row(&[("price", Value::from(2.25))])));
    assert!(!evaluate(&c, &row(&[("price", Value::from(3.0))])));
}

#[test]
fn chained_or_flattens_into_one_group() {
    let f = parse_filter("a = 1 or b = 2 or c = 3").unwrap();
    assert!(matches!(&f, Filter::Or(parts) if parts.len() == 3));
    let g = parse_filter("a = 1 and b = 2 and c = 3").unwrap();
    assert!(matches!(&g, Filter::And(parts) if parts.len() == 3));
}

// ---------------------------------------------------------------------------
// Error messages
// ---------------------------------------------------------------------------

#[test]
fn each_error_has_its_message() {
    assert_eq!(parse_filter("   ").unwrap_err(), "--filter value is empty");
    assert_eq!(
        parse_filter("a ! 1").unwrap_err(),
        "unexpected '!' in --filter (did you mean '!='?): \"a ! 1\""
    );
    assert_eq!(parse_filter("a = 1.2.3").unwrap_err(), "invalid number '1.2.3' in --filter");
    assert_eq!(
        parse_filter("a = 99999999999999999999").unwrap_err(),
        "invalid number '99999999999999999999' in --filter"
    );
    assert_eq!(parse_filter("a # 1").unwrap_err(), "unexpected character '#' in --filter: \"a # 1\"");
    assert_eq!(
        parse_filter("a = 'x").unwrap_err(),
        "unterminated string literal in --filter: \"a = 'x\""
    );
    assert_eq!(
        parse_filter("a = 1 b").unwrap_err(),
        "unexpected trailing content in --filter after a complete expression: \"a = 1 b\" (unbalanced parentheses, or a missing AND/OR between clauses?)"
    );
    assert_eq!(parse_filter("(a = 1").unwrap_err(), "expected RParen to close '(', found end of --filter");
    assert_eq!(parse_filter("(a = 1 ,").unwrap_err(), "expected RParen to close '(', found Comma");
    assert_eq!(
        parse_filter("a IN 1").unwrap_err(),
        "expected LParen to start an IN/ANY value list, found Number(Number(1))"
    );
    assert_eq!(parse_filter("= 1").unwrap_err(), "expected a field name in --filter, found Some(Op(\"=\"))");
    assert_eq!(
        parse_filter("a..b = 1").unwrap_err(),
        "invalid field reference 'a..b' in --filter (empty segment between dots)"
    );
    assert_eq!(
        parse_filter("a b").unwrap_err(),
        "expected a comparison operator (=, !=, >, >=, <, <=, LIKE, ILIKE, IN, ANY) after field 'a', found Some(Ident(\"b\"))"
    );
    assert_eq!(parse_filter("a LIKE b").unwrap_err(), "expected a quoted pattern after LIKE/ILIKE, found Some(Ident(\"b\"))");
    assert_eq!(parse_filter("a =").unwrap_err(), "expected a value (quoted string, bare word, or number), found None");
    assert_eq!(parse_filter("a IN (1 2)").unwrap_err(), "expected ',' or ')' in IN/ANY value list, found Some(Number(Number(2)))");
    assert_eq!(
        parse_filter("a LIKE 'x%y'").unwrap_err(),
        "LIKE pattern 'x%y' has '%' in the middle -- only a single leading and/or trailing '%' is supported (StartsWith/EndsWith/Contains), not a two-anchor pattern"
    );
}

#[test]
fn not_after_the_field_is_not_before_it() {
    let pairs = [
        ("code NOT IN (us, gb)", "NOT code IN (us, gb)"),
        ("code NOT LIKE 'u%'", "NOT code LIKE 'u%'"),
        ("code NOT = 'us'", "NOT code = 'us'"),
        ("code NOT IN (us) AND code != 'fr'", "NOT code IN (us) AND code != 'fr'"),
    ];
    for (after, before) in pairs {
        let a = parse_filter(after).unwrap();
        let b = parse_filter(before).unwrap();
        for v in ["us", "gb", "fr", "uk"] {
            let r = row(&[("code", s(v))]);
            assert_eq!(evaluate(&a, &r), evaluate(&b, &r), "{after} / {before} on {v}");
        }
    }
    // A field-level NOT leaves a negating operator as it is.
    let kept = parse_filter("code NOT != 'us'").unwrap();
    assert!(evaluate(&kept, &row(&[("code", s("fr"))])));
    let twice = parse_filter("NOT code != 'us'").unwrap();
    assert!(!evaluate(&twice, &row(&[("code", s("fr"))])));
}
