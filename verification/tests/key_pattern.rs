use spread_cli::key_pattern::{
    build_suppression_column, expand_pattern_entry, parse_brace_groups, parse_source_pattern,
    parse_target_segment, parse_target_tokens, resolve_suppression_key, scan_brace_groups,
    target_splits_at_char, BraceScan, CaptureId, ColumnSpec, KeyPath, TargetToken,
};
use spreadsheet_to_json::Format;

fn keys(cols: &[ColumnSpec]) -> Vec<String> {
    cols.iter().map(|c| c.source_key.clone()).collect()
}

#[test]
fn test_plain_array_pattern_matches_any_suffix_regardless_of_bracket_type() {
    let natural_keys = vec!["file_1".to_string(), "file_2".to_string(), "file_a".to_string(), "other".to_string()];
    let cols = expand_pattern_entry("file_[n]", "files[]", &Format::Auto, &natural_keys).unwrap();
    assert_eq!(keys(&cols), vec!["file_1".to_string(), "file_2".to_string(), "file_a".to_string()]);
    for col in &cols {
        assert!(matches!(&col.key, Some(KeyPath::PlainArray(name)) if name == "files"));
    }
}

#[test]
fn test_glob_star_shorthand_is_equivalent_to_an_anonymous_bracket_capture() {
    let natural_keys = vec!["download_1".to_string(), "download_2".to_string(), "other".to_string()];
    let cols = expand_pattern_entry("download_*", "downloads[]", &Format::Auto, &natural_keys).unwrap();
    assert_eq!(keys(&cols), vec!["download_1".to_string(), "download_2".to_string()]);
    for col in &cols {
        assert!(matches!(&col.key, Some(KeyPath::PlainArray(name)) if name == "downloads"));
    }
}

#[test]
fn test_empty_brackets_shorthand_is_equivalent_to_an_anonymous_bracket_capture() {
    let natural_keys = vec!["download_1".to_string(), "download_2".to_string(), "other".to_string()];
    let cols = expand_pattern_entry("download_[]", "downloads[]", &Format::Auto, &natural_keys).unwrap();
    assert_eq!(keys(&cols), vec!["download_1".to_string(), "download_2".to_string()]);
    for col in &cols {
        assert!(matches!(&col.key, Some(KeyPath::PlainArray(name)) if name == "downloads"));
    }
}

#[test]
fn test_bare_star_or_empty_brackets_with_no_prefix_at_all_is_rejected() {
    // Matching every column in the sheet is almost certainly never intended.
    assert!(parse_source_pattern("*").is_none());
    assert!(parse_source_pattern("[]").is_none());
}

#[test]
fn test_object_pattern_uses_captured_value_as_the_key() {
    let natural_keys = vec!["sales_north_west".to_string(), "sales_south_east".to_string()];
    let cols = expand_pattern_entry("sales_{region}", "sales.{region}", &Format::Float, &natural_keys).unwrap();
    assert_eq!(cols.len(), 2);
    let seg = cols[0].key.as_ref().unwrap();
    match seg {
        KeyPath::Object(key, next) => {
            assert_eq!(key, "sales");
            assert!(matches!(&**next, KeyPath::Simple(k) if k == "north_west"));
        }
        other => panic!("expected Object, got {other:?}"),
    }
}

#[test]
fn test_array_inner_object_pattern_types_the_capture_as_integer() {
    let natural_keys = vec!["sales_2024".to_string(), "sales_2025".to_string()];
    let cols = expand_pattern_entry("sales_[year]", "sales[].{year}{amount}", &Format::Float, &natural_keys).unwrap();
    assert_eq!(cols.len(), 2);
    let seg = cols[0].key.as_ref().unwrap();
    match seg {
        KeyPath::Array(container, id, key_field, next) => {
            assert_eq!(container, "sales");
            assert_eq!(*id, CaptureId::Integer(2024));
            assert_eq!(key_field, "year");
            assert!(matches!(&**next, KeyPath::Simple(k) if k == "amount"));
        }
        other => panic!("expected Array, got {other:?}"),
    }
}

#[test]
fn test_non_pattern_source_returns_none() {
    assert!(expand_pattern_entry("weight", "weight_kg", &Format::Float, &["weight".to_string()]).is_none());
}

#[test]
fn test_prefix_matching_is_case_insensitive() {
    let natural_keys = vec!["file_1".to_string()];
    let cols = expand_pattern_entry("FILE_[n]", "files[]", &Format::Auto, &natural_keys).unwrap();
    assert_eq!(cols.len(), 1);
}

#[test]
fn test_resolve_suppression_matches_natural_key_case_insensitively() {
    let natural_keys = vec!["id".to_string(), "colour".to_string(), "title".to_string()];
    assert_eq!(resolve_suppression_key("colour", &natural_keys), Some("colour".to_string()));
    assert_eq!(resolve_suppression_key("COLOUR", &natural_keys), Some("colour".to_string()));
    assert_eq!(resolve_suppression_key("nope", &natural_keys), None);
}

#[test]
fn test_resolve_suppression_matches_a1_letter_directly_in_a1_mode() {
    let natural_keys = vec!["a".to_string(), "b".to_string(), "c".to_string(), "d".to_string()];
    assert_eq!(resolve_suppression_key("d", &natural_keys), Some("d".to_string()));
    assert_eq!(resolve_suppression_key("D", &natural_keys), Some("d".to_string()));
}

#[test]
fn test_resolve_suppression_falls_back_to_a_plain_number_for_r1c1_mode() {
    let natural_keys = vec!["c01".to_string(), "c02".to_string(), "c03".to_string(), "c04".to_string()];
    assert_eq!(resolve_suppression_key("4", &natural_keys), Some("c04".to_string()));
    assert_eq!(resolve_suppression_key("c4", &natural_keys), Some("c04".to_string()));
    assert_eq!(resolve_suppression_key("c04", &natural_keys), Some("c04".to_string()));
    assert_eq!(resolve_suppression_key("c004", &natural_keys), Some("c04".to_string()));
}

#[test]
fn test_resolve_suppression_number_fallback_out_of_range_is_none() {
    let natural_keys = vec!["c01".to_string(), "c02".to_string()];
    assert_eq!(resolve_suppression_key("0", &natural_keys), None);
    assert_eq!(resolve_suppression_key("9", &natural_keys), None);
}

// ---------------------------------------------------------------------------
// Source patterns
// ---------------------------------------------------------------------------

#[test]
fn source_pattern_forms_give_prefix_name_and_type() {
    let p = parse_source_pattern("Sales_{Region}").unwrap();
    assert_eq!(p.prefix, "sales_");
    assert_eq!(p.capture_name, "region");
    assert!(!p.capture_is_int);

    let p = parse_source_pattern("sales_[year]").unwrap();
    assert_eq!(p.prefix, "sales_");
    assert_eq!(p.capture_name, "year");
    assert!(p.capture_is_int);

    let p = parse_source_pattern("download_*").unwrap();
    assert_eq!(p.prefix, "download_");
    assert_eq!(p.capture_name, "*");
    assert!(!p.capture_is_int);
}

#[test]
fn star_and_empty_brackets_give_the_same_pattern() {
    let a = parse_source_pattern("Download_*").unwrap();
    let b = parse_source_pattern("download_[]").unwrap();
    assert_eq!(a.prefix, b.prefix);
    assert_eq!(a.capture_name, b.capture_name);
    assert_eq!(a.capture_is_int, b.capture_is_int);
}

#[test]
fn source_without_a_capture_or_with_an_empty_brace_group_is_no_pattern() {
    assert!(parse_source_pattern("weight").is_none());
    assert!(parse_source_pattern("sales_{}").is_none());
    assert!(parse_source_pattern("a]").is_none());
    // Nothing before the capture: it would match every column.
    assert!(parse_source_pattern("{region}").is_none());
    let natural_keys = vec!["north".to_string()];
    assert!(expand_pattern_entry("{region}", "sales.{region}", &Format::Auto, &natural_keys).is_none());
}

// ---------------------------------------------------------------------------
// Target specs
// ---------------------------------------------------------------------------

#[test]
fn target_segments_are_read_by_shape() {
    assert!(matches!(parse_target_segment("files[]"), Some(TargetToken::ArrayOpen(n)) if n == "files"));
    assert!(matches!(parse_target_segment("sales"), Some(TargetToken::Literal(n)) if n == "sales"));
    match parse_target_segment("{year}{amount}") {
        Some(TargetToken::Braces(names)) => assert_eq!(names, vec!["year".to_string(), "amount".to_string()]),
        other => panic!("expected Braces, got {other:?}"),
    }
    assert!(parse_target_segment("").is_none());
    assert!(parse_target_segment("[]").is_some());
    assert!(parse_target_segment("{year}x").is_none());
}

#[test]
fn brace_groups_must_fill_the_whole_segment() {
    assert_eq!(parse_brace_groups("{a}{b}"), Some(vec!["a".to_string(), "b".to_string()]));
    assert_eq!(parse_brace_groups("{a}b"), None);
    assert_eq!(parse_brace_groups("{}"), None);
    assert_eq!(parse_brace_groups(""), None);
    assert!(matches!(scan_brace_groups("{a}"), BraceScan::Groups(g) if g == vec!["a".to_string()]));
}

#[test]
fn target_tokens_split_on_dots_and_fail_on_any_bad_segment() {
    let toks = parse_target_tokens("sales[].{year}{amount}").unwrap();
    assert_eq!(toks.len(), 2);
    assert!(parse_target_tokens("sales..x").is_none());
    assert!(!target_splits_at_char("sales[].{year}{amount}"));
}

// ---------------------------------------------------------------------------
// Expansion
// ---------------------------------------------------------------------------

#[test]
fn integer_capture_that_is_no_integer_takes_zero() {
    let natural_keys = vec!["sales_x1".to_string()];
    let cols = expand_pattern_entry("sales_[year]", "sales[].{year}{amount}", &Format::Float, &natural_keys).unwrap();
    match cols[0].key.as_ref().unwrap() {
        KeyPath::Array(_, id, _, _) => assert_eq!(*id, CaptureId::Integer(0)),
        other => panic!("expected Array, got {other:?}"),
    }
}

#[test]
fn string_capture_inside_an_array_item_chain() {
    let natural_keys = vec!["sales_north".to_string()];
    let cols = expand_pattern_entry("sales_{region}", "sales[].{region}{region}{amount}", &Format::Auto, &natural_keys).unwrap();
    match cols[0].key.as_ref().unwrap() {
        KeyPath::Array(c, id, f, next) => {
            assert_eq!(c, "sales");
            assert_eq!(*id, CaptureId::Text("north".to_string()));
            assert_eq!(f, "region");
            match &**next {
                KeyPath::InnerObject(id2, f2, leaf) => {
                    assert_eq!(*id2, CaptureId::Text("north".to_string()));
                    assert_eq!(f2, "region");
                    assert!(matches!(&**leaf, KeyPath::Simple(k) if k == "amount"));
                }
                other => panic!("expected InnerObject, got {other:?}"),
            }
        }
        other => panic!("expected Array, got {other:?}"),
    }
}

#[test]
fn malformed_target_is_refused_even_with_no_matching_column() {
    let natural_keys = vec!["other".to_string()];
    // An array not followed by a brace group, and a brace group not naming the capture.
    assert!(expand_pattern_entry("sales_{region}", "sales[].x", &Format::Auto, &natural_keys).is_none());
    assert!(expand_pattern_entry("sales_{region}", "sales.{other}", &Format::Auto, &natural_keys).is_none());
    assert!(expand_pattern_entry("sales_{region}", "sales[].{amount}", &Format::Auto, &natural_keys).is_none());
    // A well-formed target with nothing matching gives no columns, not a refusal.
    assert_eq!(expand_pattern_entry("sales_{region}", "sales.{region}", &Format::Auto, &natural_keys).unwrap().len(), 0);
}

#[test]
fn key_equal_to_the_prefix_alone_is_not_matched() {
    let natural_keys = vec!["file_".to_string(), "file_9".to_string()];
    let cols = expand_pattern_entry("file_*", "files[]", &Format::Auto, &natural_keys).unwrap();
    assert_eq!(keys(&cols), vec!["file_9".to_string()]);
    assert!(cols.iter().all(|c| c.default.is_none() && c.format.is_some()));
}

#[test]
fn negative_integer_capture_is_written_in_decimal_as_a_field_name() {
    let natural_keys = vec!["t_-5".to_string()];
    let cols = expand_pattern_entry("t_[n]", "temps.{n}", &Format::Auto, &natural_keys).unwrap();
    match cols[0].key.as_ref().unwrap() {
        KeyPath::Object(k, next) => {
            assert_eq!(k, "temps");
            assert!(matches!(&**next, KeyPath::Simple(s) if s == "-5"));
        }
        other => panic!("expected Object, got {other:?}"),
    }
}

// ---------------------------------------------------------------------------
// Suppression
// ---------------------------------------------------------------------------

#[test]
fn suppression_prefers_a_named_column_over_a_number() {
    let natural_keys = vec!["1".to_string(), "b".to_string()];
    assert_eq!(resolve_suppression_key("1", &natural_keys), Some("1".to_string()));
    assert_eq!(resolve_suppression_key("C2", &natural_keys), Some("b".to_string()));
    assert_eq!(resolve_suppression_key("-1", &natural_keys), None);
    assert_eq!(resolve_suppression_key("+2", &natural_keys), Some("b".to_string()));
    assert_eq!(resolve_suppression_key("c", &natural_keys), None);
}

#[test]
fn suppression_column_excludes_its_key() {
    let col = build_suppression_column("colour");
    assert_eq!(col.source_key, "colour");
    assert!(matches!(col.key, Some(KeyPath::Excluded)));
    assert!(col.format.is_none());
    assert!(col.default.is_none());
}

#[test]
fn escaped_group_whose_length_lands_inside_a_character_is_reported() {
    // The group's content is shorter than its text (the escapes before the two `}` go),
    // so skipping the content's length plus two lands inside the 'é'.
    let segment = "{\\}\\}é}";
    assert!(matches!(scan_brace_groups(segment), BraceScan::SplitsChar));
    assert!(target_splits_at_char("sales.{\\}\\}é}"));
    assert!(!target_splits_at_char("sales.{\\}x}"));
    let natural_keys = vec!["sales_x".to_string()];
    assert!(expand_pattern_entry("sales_{region}", "sales.{\\}\\}é}", &Format::Auto, &natural_keys).is_none());
}

#[test]
fn unreferenced_capture_takes_the_same_columns_whatever_its_type() {
    let natural_keys = vec!["file_1".to_string(), "file_x".to_string(), "file".to_string()];
    let ints = expand_pattern_entry("file_[n]", "files[]", &Format::Auto, &natural_keys).unwrap();
    let texts = expand_pattern_entry("file_{n}", "files[]", &Format::Auto, &natural_keys).unwrap();
    assert_eq!(keys(&ints), keys(&texts));
    assert_eq!(keys(&ints), vec!["file_1".to_string(), "file_x".to_string()]);
}

#[test]
fn suppression_only_names_real_keys() {
    let natural_keys = vec!["a".to_string(), "b".to_string()];
    for id in ["A", "2", "c1", "zz", "0", "3"] {
        if let Some(k) = resolve_suppression_key(id, &natural_keys) {
            assert!(natural_keys.contains(&k));
        }
    }
}

#[test]
fn adjacent_brace_groups_read_back_as_their_names() {
    let names = vec!["year".to_string(), "región".to_string(), "a_1".to_string()];
    let segment: String = names.iter().map(|n| format!("{{{}}}", n)).collect();
    assert_eq!(parse_brace_groups(&segment), Some(names.clone()));
    assert!(matches!(parse_target_segment(&segment), Some(TargetToken::Braces(v)) if v == names));
}
