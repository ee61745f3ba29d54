use spread_cli::output::{
    build_indented_json_rows, describe_error, error_line, export_file_name, json_result_fields,
    output_plan, result_field_key_of, sheet_block_fields, sheet_block_key_of, validate_path, OutputPlan,
    ResultField,
};

#[test]
fn indented_rows_put_one_row_per_line() {
    let rows = vec!["{\"a\":1}".to_string(), "{\"a\":2}".to_string()];
    assert_eq!(build_indented_json_rows(&rows), "[\n\t{\"a\":1},\n\t{\"a\":2}\n]");
    assert_eq!(build_indented_json_rows(&[]), "[\n\t\n]");
    assert_eq!(build_indented_json_rows(&["1".to_string()]), "[\n\t1\n]");
}

#[test]
fn known_error_codes_have_plain_messages() {
    assert_eq!(describe_error("file_unavailable"), "file not found.");
    assert_eq!(describe_error("file_not_found"), "file not found.");
    assert_eq!(
        describe_error("unsupported_format"),
        "incompatible file format. Supported formats: xlsx, xls, xlsb, ods, csv, tsv."
    );
    assert_eq!(describe_error("no_filepath_specified"), "no spreadsheet file specified.");
    assert_eq!(describe_error("workbook_with_no_sheets"), "the workbook has no readable worksheets.");
    assert_eq!(
        describe_error("cannot_open_workbook"),
        "could not open the workbook; the file may be corrupt or not a valid spreadsheet."
    );
    assert_eq!(describe_error("unreadable_csv_file"), "could not read the CSV file.");
    assert_eq!(describe_error("unreadable_tsv_file"), "could not read the TSV file.");
    assert_eq!(describe_error("xlsx_error"), "the Excel file appears to be corrupt or invalid.");
    assert_eq!(describe_error("ods_error"), "the OpenDocument file appears to be corrupt or invalid.");
    assert_eq!(describe_error("permission_denied"), "permission denied while accessing the file.");
    assert_eq!(describe_error("io_error"), "an I/O error occurred while reading the file.");
}

#[test]
fn unknown_error_codes_are_named() {
    assert_eq!(describe_error("write_error"), "an unexpected error occurred (write_error).");
}

#[test]
fn error_lines_in_both_modes() {
    assert_eq!(error_line(false, "file not found."), "error: file not found.");
    assert_eq!(error_line(true, "file not found."), "{\"error\":\"file not found.\"}");
    assert_eq!(error_line(true, "say \"hi\""), "{\"error\":\"say \\\"hi\\\"\"}");
}

#[test]
fn path_checks_in_order() {
    assert_eq!(
        validate_path(None, false, false).unwrap_err(),
        "no spreadsheet file specified. Usage: spreadsheet-to-json-cli [OPTIONS] <PATH>"
    );
    assert_eq!(validate_path(Some("x.xlsx"), false, false).unwrap_err(), "file not found: x.xlsx");
    assert_eq!(
        validate_path(Some("dir.xlsx"), true, true).unwrap_err(),
        "expected a file but found a directory: dir.xlsx"
    );
    assert_eq!(
        validate_path(Some("notes.txt"), true, false).unwrap_err(),
        "incompatible file format '.txt'. Supported formats: xlsx, xls, xlsb, ods, csv, tsv"
    );
    assert_eq!(
        validate_path(Some("README"), true, false).unwrap_err(),
        "incompatible file format '.(none)'. Supported formats: xlsx, xls, xlsb, ods, csv, tsv"
    );
    assert!(validate_path(Some("Sales.XLSM"), true, false).is_ok());
    assert!(validate_path(Some("a/b.tsv"), true, false).is_ok());
}

#[test]
fn export_files_are_named_after_the_identifier() {
    assert_eq!(export_file_name("abc"), "abc.jsonl");
}

#[test]
fn output_forms_for_each_flag_combination() {
    assert_eq!(output_plan(true, false, false, false, false), OutputPlan::JsonLines);
    assert_eq!(output_plan(true, false, false, true, false), OutputPlan::JsonLines);
    assert_eq!(output_plan(false, false, true, true, false), OutputPlan::PrettyRows);
    assert_eq!(output_plan(false, false, true, false, false), OutputPlan::IndentedRows);
    assert_eq!(output_plan(true, true, false, true, false), OutputPlan::PrettyResult);
    assert_eq!(output_plan(true, true, false, false, true), OutputPlan::OptionLines);
    assert_eq!(output_plan(false, false, false, false, false), OutputPlan::OutputLines);
    assert_eq!(output_plan(true, true, true, false, false), OutputPlan::JsonLines);
}

fn field_keys(fields: &[ResultField]) -> Vec<&'static str> {
    fields.iter().map(result_field_key_of).collect()
}

#[test]
fn result_fields_for_a_workbook_with_a_selected_sheet() {
    let selected = Some(vec!["Q1".to_string()]);
    let fields = json_result_fields("xlsx", &selected, &[2], true, false, false);
    assert_eq!(
        field_keys(&fields),
        vec![
            "extension", "sheets", "column_style", "selected_sheet", "row_count", "fields", "multimode",
            "sheet_indices", "file name", "max_rows", "mode", "headers", "header_row",
            "decimal_separator", "date_mode", "output_reference", "data",
        ]
    );
    assert!(matches!(&fields[3], ResultField::SelectedSheet(s) if s == "Q1"));
    assert!(matches!(&fields[7], ResultField::SheetIndices(2)));
}

#[test]
fn result_fields_for_csv_leave_out_sheet_fields() {
    let selected = Some(vec!["Q1".to_string()]);
    let fields = json_result_fields("csv", &selected, &[0], false, false, false);
    assert_eq!(
        field_keys(&fields),
        vec![
            "extension", "row_count", "fields", "multimode", "file name", "max_rows", "mode", "headers",
            "header_row", "decimal_separator", "date_mode", "data",
        ]
    );
}

#[test]
fn result_fields_without_a_selection_or_names() {
    let fields = json_result_fields("ods", &None, &[], false, false, false);
    assert_eq!(field_keys(&fields).len(), 14);
    let empty = Some(Vec::new());
    let fields = json_result_fields("ods", &empty, &[], false, false, false);
    assert!(matches!(&fields[3], ResultField::SelectedSheet(s) if s.is_empty()));
    assert!(matches!(&fields[7], ResultField::SheetIndices(0)));
}

#[test]
fn json_flag_changes_layout_not_content() {
    for lines in [false, true] {
        for preview in [false, true] {
            for rows in [false, true] {
                for exclude in [false, true] {
                    let with = output_plan(lines, preview, rows, true, exclude);
                    let without = output_plan(lines, preview, rows, false, exclude);
                    let rows_only = |p: OutputPlan| {
                        matches!(p, OutputPlan::JsonLines | OutputPlan::PrettyRows | OutputPlan::IndentedRows)
                    };
                    assert_eq!(rows_only(with), rows_only(without));
                    assert_eq!(with == OutputPlan::JsonLines, without == OutputPlan::JsonLines);
                }
            }
        }
    }
}

#[test]
fn several_sheets_give_field_names_by_sheet() {
    let fields = json_result_fields("xlsx", &None, &[0], false, true, false);
    let keys = field_keys(&fields);
    assert!(keys.contains(&"columns"));
    assert!(!keys.contains(&"fields"));
    assert!(!keys.contains(&"selected_sheet"));
    assert!(!keys.contains(&"sheet_indices"));
    assert_eq!(keys.last(), Some(&"data"));
    let block: Vec<&str> = sheet_block_fields().into_iter().map(sheet_block_key_of).collect();
    assert_eq!(block, vec!["sheet", "row_count", "rows"]);
}

#[test]
fn excluded_cells_leave_out_the_data() {
    let multi = field_keys(&json_result_fields("xlsx", &None, &[0], false, true, true));
    assert!(!multi.contains(&"data"));
    assert!(multi.contains(&"columns"));
    assert_eq!(multi.last(), Some(&"row_counts"));
    let single = field_keys(&json_result_fields("xlsx", &Some(vec!["products".to_string()]), &[0], false, false, true));
    assert!(!single.contains(&"data"));
    assert!(!single.contains(&"row_counts"));
    assert!(single.contains(&"fields"));
    assert_eq!(single.last(), Some(&"date_mode"));
}
