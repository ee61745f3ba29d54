use spread_cli::args::{
    field_style_from_colstyle, parse_column_entry, parse_key_columns, trim, Args, DateMode, FieldStyle,
    FromArgs, ReadKind, ReadOptions,
};
use spread_cli::key_pattern::{DefaultValue, KeyPath};

fn base_args() -> Args {
    Args {
        path: Some("data.xlsx".to_string()),
        sheet: None,
        number: None,
        max: None,
        top: None,
        body_start: None,
        omit_header: false,
        exclude_cells: false,
        keys: None,
        colstyle: None,
        json: false,
        deferred: false,
        preview: false,
        lines: false,
        rows: false,
        index: 0,
        header_index: None,
        body_index: None,
        debug: false,
        date_only: false,
        time_only: false,
        hm_only: false,
        simple: false,
        euro_number_format: false,
        background_worker: false,
    }
}

fn options(args: &Args) -> ReadOptions {
    ReadOptions::from_args(args).unwrap()
}

#[test]
fn defaults_read_the_first_sheet_with_header_detection() {
    let o = options(&base_args());
    assert_eq!(o.indices, vec![0]);
    assert_eq!(o.path, Some("data.xlsx".to_string()));
    assert_eq!(o.max, None);
    assert_eq!(o.header_row, None);
    assert_eq!(o.data_row_index, None);
    assert!(o.detect_header);
    assert!(!o.jsonl);
    assert_eq!(o.read_mode, ReadKind::Sync);
    assert_eq!(o.field_mode, FieldStyle::AutoA1);
    assert_eq!(o.datetime_mode, DateMode::Full);
    assert!(o.columns.is_empty());
    assert!(o.selected.is_none());
}

#[test]
fn number_is_index_plus_one() {
    let mut a = base_args();
    a.number = Some(3);
    let mut b = base_args();
    b.index = 2;
    assert_eq!(options(&a).indices, options(&b).indices);
    assert_eq!(options(&a).indices, vec![2]);
}

#[test]
fn top_and_body_start_are_one_based() {
    let mut a = base_args();
    a.top = Some(2);
    a.body_start = Some(5);
    let o = options(&a);
    assert_eq!(o.header_row, Some(1));
    assert_eq!(o.data_row_index, Some(4));

    let mut b = base_args();
    b.header_index = Some(1);
    b.body_index = Some(4);
    let p = options(&b);
    assert_eq!(p.header_row, o.header_row);
    assert_eq!(p.data_row_index, o.data_row_index);
}

#[test]
fn zero_for_a_one_based_position_is_refused() {
    let mut a = base_args();
    a.number = Some(0);
    assert_eq!(
        ReadOptions::from_args(&a).unwrap_err(),
        "invalid --number value: sheets are numbered starting at 1"
    );
    let mut b = base_args();
    b.top = Some(0);
    assert_eq!(ReadOptions::from_args(&b).unwrap_err(), "invalid --top value: rows are numbered starting at 1");
    let mut c = base_args();
    c.body_start = Some(0);
    assert_eq!(
        ReadOptions::from_args(&c).unwrap_err(),
        "invalid --body-start value: rows are numbered starting at 1"
    );
}

#[test]
fn preview_samples_ten_rows_by_default_and_deferred_streams_jsonl() {
    let mut a = base_args();
    a.preview = true;
    assert_eq!(options(&a).max, Some(10));
    a.max = Some(50);
    let o = options(&a);
    assert_eq!(o.max, Some(50));
    assert_eq!(o.read_mode, ReadKind::PreviewMultiple);
    assert!(!o.jsonl);

    let mut b = base_args();
    b.deferred = true;
    let p = options(&b);
    assert_eq!(p.read_mode, ReadKind::Async);
    assert!(p.jsonl);

    let mut c = base_args();
    c.lines = true;
    assert!(options(&c).jsonl);
}

#[test]
fn date_modes_have_a_precedence() {
    let mut a = base_args();
    a.time_only = true;
    a.simple = true;
    assert_eq!(options(&a).datetime_mode, DateMode::TimeOnly);
    a.date_only = true;
    assert_eq!(options(&a).datetime_mode, DateMode::DateOnly);
    let mut b = base_args();
    b.simple = true;
    assert_eq!(options(&b).datetime_mode, DateMode::Simple);
    let mut c = base_args();
    c.hm_only = true;
    assert_eq!(options(&c).datetime_mode, DateMode::HmOnly);
}

#[test]
fn sheet_names_are_split_on_commas() {
    let mut a = base_args();
    a.sheet = Some("Q1,Q2".to_string());
    assert_eq!(options(&a).selected, Some(vec!["Q1".to_string(), "Q2".to_string()]));
    a.sheet = Some("a,,b".to_string());
    assert_eq!(options(&a).selected, Some(vec!["a".to_string(), ",b".to_string()]));
}

#[test]
fn euro_number_format_sets_decimal_comma() {
    let mut a = base_args();
    a.euro_number_format = true;
    a.omit_header = true;
    let o = options(&a);
    assert!(o.decimal_comma);
    assert!(o.omit_header);
}

// ---------------------------------------------------------------------------
// --keys
// ---------------------------------------------------------------------------

#[test]
fn keys_entry_with_rename_format_and_integer_default() {
    let c = parse_column_entry("Weight KG:Weight|int|5").unwrap().unwrap();
    assert_eq!(c.source_key, "weight_kg");
    assert!(matches!(&c.key, Some(KeyPath::Simple(k)) if k == "weight"));
    assert!(c.format.is_some());
    assert_eq!(c.default, Some(DefaultValue::Integer(5)));
}

#[test]
fn keys_entry_without_rename_keeps_the_natural_name() {
    let c = parse_column_entry("start_date|date").unwrap().unwrap();
    assert_eq!(c.source_key, "start_date");
    assert!(c.key.is_none());
    assert!(c.format.is_some());
    assert!(c.default.is_none());
    let d = parse_column_entry("title").unwrap().unwrap();
    assert!(d.format.is_none());
}

#[test]
fn empty_format_slot_keeps_the_default_in_place() {
    let c = parse_column_entry("weight_kg||0").unwrap().unwrap();
    assert_eq!(c.default, Some(DefaultValue::Text("0".to_string())));
}

#[test]
fn boolean_defaults_are_truthy_values() {
    let c = parse_column_entry("active|bool|Yes").unwrap().unwrap();
    assert_eq!(c.default, None);
    let d = parse_column_entry("active|bool| TRUE ").unwrap().unwrap();
    assert_eq!(d.default, Some(DefaultValue::Boolean(true)));
    let e = parse_column_entry("active|b|0").unwrap().unwrap();
    assert_eq!(e.default, Some(DefaultValue::Boolean(false)));
}

#[test]
fn bad_integer_defaults_are_refused_with_the_entry() {
    assert_eq!(
        parse_column_entry("age|int|x").unwrap_err(),
        "invalid --keys entry 'age|int|x': 'x' is not a valid integer default"
    );
    assert_eq!(
        parse_column_entry("age|integer|99999999999999999999").unwrap_err(),
        "invalid --keys entry 'age|integer|99999999999999999999': integer default '99999999999999999999' is out of range"
    );
    assert!(parse_column_entry("age|int|18446744073709551615").is_ok());
}

#[test]
fn entries_with_no_source_key_are_skipped() {
    assert!(parse_column_entry(":x|int").unwrap().is_none());
    let cols = parse_key_columns("a:b|int,,c:d|text").unwrap();
    assert_eq!(cols.len(), 2);
    assert_eq!(cols[0].source_key, "a");
    assert_eq!(cols[1].source_key, "c");
}

#[test]
fn the_first_bad_entry_refuses_the_whole_value() {
    let mut a = base_args();
    a.keys = Some("a|int|1,b|int|x,c|int|y".to_string());
    a.number = Some(0);
    assert_eq!(
        ReadOptions::from_args(&a).unwrap_err(),
        "invalid --keys entry 'b|int|x': 'x' is not a valid integer default"
    );
}

#[test]
fn blank_new_key_is_no_rename() {
    let c = parse_column_entry("a:   |int").unwrap().unwrap();
    assert!(c.key.is_none());
}

// ---------------------------------------------------------------------------
// --colstyle
// ---------------------------------------------------------------------------

#[test]
fn colstyle_styles_and_modes() {
    assert_eq!(field_style_from_colstyle(&None), FieldStyle::AutoA1);
    assert_eq!(field_style_from_colstyle(&Some("c01".to_string())), FieldStyle::NumPadded);
    assert_eq!(field_style_from_colstyle(&Some("a1".to_string())), FieldStyle::A1);
    assert_eq!(field_style_from_colstyle(&Some("c01:all".to_string())), FieldStyle::NumPadded);
    assert_eq!(field_style_from_colstyle(&Some("a1:auto".to_string())), FieldStyle::AutoA1);
    assert_eq!(field_style_from_colstyle(&Some("c01:auto".to_string())), FieldStyle::AutoNumPadded);
    assert_eq!(field_style_from_colstyle(&Some("r1".to_string())), FieldStyle::NumPadded);
    assert_eq!(field_style_from_colstyle(&Some("R1C1".to_string())), FieldStyle::NumPadded);
    assert_eq!(field_style_from_colstyle(&Some("n".to_string())), FieldStyle::NumPadded);
    assert_eq!(field_style_from_colstyle(&Some("x".to_string())), FieldStyle::AutoA1);
}

#[test]
fn trim_removes_surrounding_whitespace_only() {
    assert_eq!(trim("  a b \t"), "a b");
    assert_eq!(trim(""), "");
    assert_eq!(trim("   "), "");
}

#[test]
fn colstyle_ignores_punctuation_in_the_style() {
    assert_eq!(field_style_from_colstyle(&Some("a-1".to_string())), FieldStyle::A1);
    assert_eq!(field_style_from_colstyle(&Some(" C_01 :ALL".to_string())), FieldStyle::NumPadded);
}

#[test]
fn key_entries_read_together_or_apart_agree() {
    let together = parse_key_columns("a:x|int|1,b|text,c").unwrap();
    let mut apart = parse_key_columns("a:x|int|1").unwrap();
    apart.extend(parse_key_columns("b|text,c").unwrap());
    let sources = |v: &[spread_cli::key_pattern::ColumnSpec]| v.iter().map(|c| c.source_key.clone()).collect::<Vec<_>>();
    assert_eq!(sources(&together), sources(&apart));
    assert_eq!(together[0].default, apart[0].default);
}

#[test]
fn colstyle_without_mode_is_the_same_as_all() {
    for style in ["c01", "a1", "n", "x"] {
        assert_eq!(
            field_style_from_colstyle(&Some(style.to_string())),
            field_style_from_colstyle(&Some(format!("{style}:all")))
        );
    }
}
