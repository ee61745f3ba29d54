//! What the command prints: plain-English error messages, the checks on the source path,
//! the indented row array, and which form of output each combination of flags asks for.
use vstd::prelude::*;
use crate::text::{concat, copy_string, lower_text, str_equal};
use crate::filter_pattern::strings_view;
use spreadsheet_to_json::serde_json;
use spreadsheet_to_json::PathData;
use std::path::Path;

verus! {

broadcast use vstd::string::group_string_axioms;

// ---------------------------------------------------------------------------
// Error messages
// ---------------------------------------------------------------------------

/// The plain-English message for an error code of the spreadsheet reader.
pub open spec fn error_description(code: Seq<char>) -> Seq<char> {
    if code == "file_unavailable"@ {
        "file not found."@
    } else if code == "unsupported_format"@ {
        "incompatible file format. Supported formats: xlsx, xls, xlsb, ods, csv, tsv."@
    } else if code == "no_filepath_specified"@ {
        "no spreadsheet file specified."@
    } else if code == "workbook_with_no_sheets"@ {
        "the workbook has no readable worksheets."@
    } else if code == "cannot_open_workbook"@ {
        "could not open the workbook; the file may be corrupt or not a valid spreadsheet."@
    } else if code == "unreadable_csv_file"@ {
        "could not read the CSV file."@
    } else if code == "unreadable_tsv_file"@ {
        "could not read the TSV file."@
    } else if code == "xlsx_error"@ {
        "the Excel file appears to be corrupt or invalid."@
    } else if code == "ods_error"@ {
        "the OpenDocument file appears to be corrupt or invalid."@
    } else if code == "file_not_found"@ {
        "file not found."@
    } else if code == "permission_denied"@ {
        "permission denied while accessing the file."@
    } else if code == "io_error"@ {
        "an I/O error occurred while reading the file."@
    } else {
        "an unexpected error occurred ("@ + code + ")."@
    }
}

/// Maps an error code of the spreadsheet reader to a plain-English message.
pub fn describe_error(code: &str) -> (r: String)
    ensures
        r@ == error_description(code@),
{
    if str_equal(code, "file_unavailable") {
        String::from_str("file not found.")
    } else if str_equal(code, "unsupported_format") {
        String::from_str("incompatible file format. Supported formats: xlsx, xls, xlsb, ods, csv, tsv.")
    } else if str_equal(code, "no_filepath_specified") {
        String::from_str("no spreadsheet file specified.")
    } else if str_equal(code, "workbook_with_no_sheets") {
        String::from_str("the workbook has no readable worksheets.")
    } else if str_equal(code, "cannot_open_workbook") {
        String::from_str("could not open the workbook; the file may be corrupt or not a valid spreadsheet.")
    } else if str_equal(code, "unreadable_csv_file") {
        String::from_str("could not read the CSV file.")
    } else if str_equal(code, "unreadable_tsv_file") {
        String::from_str("could not read the TSV file.")
    } else if str_equal(code, "xlsx_error") {
        String::from_str("the Excel file appears to be corrupt or invalid.")
    } else if str_equal(code, "ods_error") {
        String::from_str("the OpenDocument file appears to be corrupt or invalid.")
    } else if str_equal(code, "file_not_found") {
        String::from_str("file not found.")
    } else if str_equal(code, "permission_denied") {
        String::from_str("permission denied while accessing the file.")
    } else if str_equal(code, "io_error") {
        String::from_str("an I/O error occurred while reading the file.")
    } else {
        concat(&concat("an unexpected error occurred (", code), ").")
    }
}

/// `s` as a JSON string literal, as `serde_json` writes it.
pub uninterp spec fn json_string(s: Seq<char>) -> Seq<char>;

/// Trusted: calls `serde_json::to_string` on a string, which writes it as a quoted JSON
/// string literal with its special characters escaped; the text depends on `s` alone.
#[verifier::external_body]
fn quote_json(s: &str) -> (r: String)
    ensures
        r@ == json_string(s@),
{
    serde_json::to_string(s).unwrap_or_default()
}

/// The line an error is reported with: a JSON object with one `error` field in JSON mode,
/// `error: ` and the message otherwise.
pub open spec fn error_line_text(json_mode: bool, msg: Seq<char>) -> Seq<char> {
    if json_mode {
        "{\"error\":"@ + json_string(msg) + "}"@
    } else {
        "error: "@ + msg
    }
}

/// Builds the line an error is reported with, as `error_line_text` describes.
pub fn error_line(json_mode: bool, msg: &str) -> (r: String)
    ensures
        r@ == error_line_text(json_mode, msg@),
{
    if json_mode {
        let quoted = quote_json(msg);
        concat(&concat("{\"error\":", quoted.as_str()), "}")
    } else {
        concat("error: ", msg)
    }
}

// ---------------------------------------------------------------------------
// The source path
// ---------------------------------------------------------------------------

/// The extension of a path, as `Path::extension` reads it.
pub uninterp spec fn file_extension(path: Seq<char>) -> Option<Seq<char>>;

/// Trusted: calls `Path::extension` (the part of the file name after its last `.`, where
/// there is one and the name is not just a leading dot); the result depends on `path`
/// alone.
#[verifier::external_body]
fn path_extension(path: &str) -> (r: Option<String>)
    ensures
        match file_extension(path@) {
            Some(e) => r matches Some(x) && x@ == e,
            None => r is None,
        },
{
    Path::new(path).extension().map(|e| e.to_string_lossy().to_string())
}

/// Whether the reader accepts a file with this path: its extension, lowercased, is one
/// of `ods`, `xlsx`, `xlsm`, `xlsb`, `xls`, `csv` and `tsv`.
pub open spec fn supported_path(path: Seq<char>) -> bool {
    match file_extension(path) {
        Some(e) => {
            let l = lower_text(e);
            l == "ods"@ || l == "xlsx"@ || l == "xlsm"@ || l == "xlsb"@ || l == "xls"@ || l == "csv"@
                || l == "tsv"@
        },
        None => false,
    }
}

/// Trusted: calls `PathData::is_valid` of `spreadsheet-to-json`, whose source matches the
/// lowercased extension as `supported_path` describes.
#[verifier::external_body]
fn is_supported_path(path: &str) -> (r: bool)
    ensures
        r == supported_path(path@),
{
    PathData::new(Path::new(path)).is_valid()
}

pub open spec fn no_path_message() -> Seq<char> {
    "no spreadsheet file specified. Usage: spreadsheet-to-json-cli [OPTIONS] <PATH>"@
}

/// The test of the source path, given whether it exists and whether it is a directory:
/// refused where no path is given, where nothing is there, where a directory is, or
/// where its extension is not a supported one.
pub open spec fn path_check(path: Option<Seq<char>>, exists: bool, is_dir: bool) -> Result<(), Seq<char>> {
    match path {
        None => Err(no_path_message()),
        Some(p) => if !exists {
            Err("file not found: "@ + p)
        } else if is_dir {
            Err("expected a file but found a directory: "@ + p)
        } else if !supported_path(p) {
            Err(
                "incompatible file format '."@ + match file_extension(p) {
                    Some(e) => e,
                    None => "(none)"@,
                } + "'. Supported formats: xlsx, xls, xlsb, ods, csv, tsv"@,
            )
        } else {
            Ok(())
        },
    }
}

/// Checks the source path before anything is read, as `path_check` describes;
/// `exists` and `is_dir` say what is on disk at `path`.
pub fn validate_path(path: Option<&str>, exists: bool, is_dir: bool) -> (r: Result<(), String>)
    ensures
        match path_check(
            match path {
                Some(p) => Some(p@),
                None => None,
            },
            exists,
            is_dir,
        ) {
            Ok(()) => r is Ok,
            Err(m) => r matches Err(x) && x@ == m,
        },
{
    let p = match path {
        Some(p) => p,
        None => {
            return Err(String::from_str("no spreadsheet file specified. Usage: spreadsheet-to-json-cli [OPTIONS] <PATH>"));
        },
    };
    if !exists {
        return Err(concat("file not found: ", p));
    }
    if is_dir {
        return Err(concat("expected a file but found a directory: ", p));
    }
    if !is_supported_path(p) {
        let ext = match path_extension(p) {
            Some(e) => e,
            None => String::from_str("(none)"),
        };
        return Err(concat(&concat("incompatible file format '.", ext.as_str()), "'. Supported formats: xlsx, xls, xlsb, ods, csv, tsv"));
    }
    Ok(())
}

// ---------------------------------------------------------------------------
// Rows and export files
// ---------------------------------------------------------------------------

/// The rows joined by `sep`.
pub open spec fn join(rows: Seq<Seq<char>>, sep: Seq<char>) -> Seq<char>
    decreases rows.len(),
{
    if rows.len() == 0 {
        Seq::empty()
    } else if rows.len() == 1 {
        rows[0]
    } else {
        join(rows.drop_last(), sep) + sep + rows.last()
    }
}

/// The rows as an indented JSON array: one row per line, each after a tab.
pub open spec fn indented_rows(rows: Seq<Seq<char>>) -> Seq<char> {
    "[\n\t"@ + join(rows, ",\n\t"@) + "\n]"@
}

/// Writes rows that are already JSON text as one indented array, as `indented_rows`
/// describes.
pub fn build_indented_json_rows(rows: &[String]) -> (r: String)
    ensures
        r@ == indented_rows(strings_view(rows@)),
{
    let ghost rs = strings_view(rows@);
    let mut body = String::new();
    let mut i: usize = 0;
    assert(rs.take(0) =~= Seq::<Seq<char>>::empty());
    while i < rows.len()
        invariant
            0 <= i <= rows.len(),
            rs == strings_view(rows@),
            body@ == join(rs.take(i as int), ",\n\t"@),
        decreases rows.len() - i,
    {
        assert(rs.take(i + 1).drop_last() =~= rs.take(i as int));
        assert(rs.take(i + 1).last() == rows@[i as int]@);
        if i > 0 {
            body = concat(body.as_str(), ",\n\t");
        } else {
            assert(rs.take(1) =~= seq![rows@[0]@]);
        }
        body = concat(body.as_str(), rows[i].as_str());
        i += 1;
    }
    assert(rs.take(rows.len() as int) =~= rs);
    concat(&concat("[\n\t", body.as_str()), "\n]")
}

/// The name of a new export file: the identifier with `.jsonl` after it.
pub fn export_file_name(id: &str) -> (r: String)
    ensures
        r@ == id@ + ".jsonl"@,
{
    concat(id, ".jsonl")
}

// ---------------------------------------------------------------------------
// What is printed
// ---------------------------------------------------------------------------

/// The form the result is printed in.
#[derive(Debug, Clone, Copy, PartialEq, Eq, Structural)]
pub enum OutputPlan {
    /// The rows as JSON Lines, one compact object per line.
    JsonLines,
    /// The rows as one pretty-printed JSON array.
    PrettyRows,
    /// The rows as one array, a row per line.
    IndentedRows,
    /// The whole structured result as pretty-printed JSON.
    PrettyResult,
    /// The options only, one per line, with no cell values.
    OptionLines,
    /// The result's own lines.
    OutputLines,
}

/// The form that the flags ask for: rows alone where `--rows` is given or `--lines`
/// without `--preview` (as JSON Lines with `--lines`, pretty with `--json`, else one row
/// per line); else the structured result with `--json`; else the options alone with
/// `--exclude-cells`; else the result's own lines.
pub open spec fn output_plan_of(lines: bool, preview: bool, rows: bool, json: bool, exclude_cells: bool) -> OutputPlan {
    if (lines && !preview) || rows {
        if lines {
            OutputPlan::JsonLines
        } else if json {
            OutputPlan::PrettyRows
        } else {
            OutputPlan::IndentedRows
        }
    } else if json {
        OutputPlan::PrettyResult
    } else if exclude_cells {
        OutputPlan::OptionLines
    } else {
        OutputPlan::OutputLines
    }
}

/// Picks the form the result is printed in, as `output_plan_of` describes.
pub fn output_plan(lines: bool, preview: bool, rows: bool, json: bool, exclude_cells: bool) -> (r: OutputPlan)
    ensures
        r == output_plan_of(lines, preview, rows, json, exclude_cells),
{
    let rows_only = (lines && !preview) || rows;
    if rows_only {
        if lines {
            OutputPlan::JsonLines
        } else if json {
            OutputPlan::PrettyRows
        } else {
            OutputPlan::IndentedRows
        }
    } else if json {
        OutputPlan::PrettyResult
    } else if exclude_cells {
        OutputPlan::OptionLines
    } else {
        OutputPlan::OutputLines
    }
}


// ---------------------------------------------------------------------------
// The structured result printed with `--json`
// ---------------------------------------------------------------------------

/// One field of the structured result, in the order printed. The sheet selected and the
/// sheet index carry their values; the others are read from the result and the options.
#[derive(Debug)]
pub enum ResultField {
    Extension,
    Sheets,
    ColumnStyle,
    SelectedSheet(String),
    RowCount,
    /// The field names of a single sheet.
    Fields,
    /// The field names of every sheet, by sheet key.
    Columns,
    Multimode,
    SheetIndices(u32),
    FileName,
    MaxRows,
    Mode,
    Headers,
    HeaderRow,
    DecimalSeparator,
    DateMode,
    OutputReference,
    /// The row count of every sheet, by sheet key.
    RowCounts,
    Data,
}

pub enum ResultFieldV {
    Extension,
    Sheets,
    ColumnStyle,
    SelectedSheet(Seq<char>),
    RowCount,
    Fields,
    Columns,
    Multimode,
    SheetIndices(u32),
    FileName,
    MaxRows,
    Mode,
    Headers,
    HeaderRow,
    DecimalSeparator,
    DateMode,
    OutputReference,
    RowCounts,
    Data,
}

impl View for ResultField {
    type V = ResultFieldV;

    open spec fn view(&self) -> ResultFieldV {
        match self {
            ResultField::Extension => ResultFieldV::Extension,
            ResultField::Sheets => ResultFieldV::Sheets,
            ResultField::ColumnStyle => ResultFieldV::ColumnStyle,
            ResultField::SelectedSheet(s) => ResultFieldV::SelectedSheet(s@),
            ResultField::RowCount => ResultFieldV::RowCount,
            ResultField::Fields => ResultFieldV::Fields,
            ResultField::Columns => ResultFieldV::Columns,
            ResultField::Multimode => ResultFieldV::Multimode,
            ResultField::SheetIndices(i) => ResultFieldV::SheetIndices(*i),
            ResultField::FileName => ResultFieldV::FileName,
            ResultField::MaxRows => ResultFieldV::MaxRows,
            ResultField::Mode => ResultFieldV::Mode,
            ResultField::Headers => ResultFieldV::Headers,
            ResultField::HeaderRow => ResultFieldV::HeaderRow,
            ResultField::DecimalSeparator => ResultFieldV::DecimalSeparator,
            ResultField::DateMode => ResultFieldV::DateMode,
            ResultField::OutputReference => ResultFieldV::OutputReference,
            ResultField::RowCounts => ResultFieldV::RowCounts,
            ResultField::Data => ResultFieldV::Data,
        }
    }
}

pub open spec fn result_fields_view(v: Seq<ResultField>) -> Seq<ResultFieldV> {
    v.map_values(|f: ResultField| f@)
}

/// The key each field is printed under.
pub open spec fn result_field_key(f: ResultFieldV) -> Seq<char> {
    match f {
        ResultFieldV::Extension => "extension"@,
        ResultFieldV::Sheets => "sheets"@,
        ResultFieldV::ColumnStyle => "column_style"@,
        ResultFieldV::SelectedSheet(_) => "selected_sheet"@,
        ResultFieldV::RowCount => "row_count"@,
        ResultFieldV::Fields => "fields"@,
        ResultFieldV::Columns => "columns"@,
        ResultFieldV::Multimode => "multimode"@,
        ResultFieldV::SheetIndices(_) => "sheet_indices"@,
        ResultFieldV::FileName => "file name"@,
        ResultFieldV::MaxRows => "max_rows"@,
        ResultFieldV::Mode => "mode"@,
        ResultFieldV::Headers => "headers"@,
        ResultFieldV::HeaderRow => "header_row"@,
        ResultFieldV::DecimalSeparator => "decimal_separator"@,
        ResultFieldV::DateMode => "date_mode"@,
        ResultFieldV::OutputReference => "output_reference"@,
        ResultFieldV::RowCounts => "row_counts"@,
        ResultFieldV::Data => "data"@,
    }
}

/// The key a field is printed under, as `result_field_key` gives it.
pub fn result_field_key_of(f: &ResultField) -> (r: &'static str)
    ensures
        r@ == result_field_key(f@),
{
    match f {
        ResultField::Extension => "extension",
        ResultField::Sheets => "sheets",
        ResultField::ColumnStyle => "column_style",
        ResultField::SelectedSheet(_) => "selected_sheet",
        ResultField::RowCount => "row_count",
        ResultField::Fields => "fields",
        ResultField::Columns => "columns",
        ResultField::Multimode => "multimode",
        ResultField::SheetIndices(_) => "sheet_indices",
        ResultField::FileName => "file name",
        ResultField::MaxRows => "max_rows",
        ResultField::Mode => "mode",
        ResultField::Headers => "headers",
        ResultField::HeaderRow => "header_row",
        ResultField::DecimalSeparator => "decimal_separator",
        ResultField::DateMode => "date_mode",
        ResultField::OutputReference => "output_reference",
        ResultField::RowCounts => "row_counts",
        ResultField::Data => "data",
    }
}

/// Whether a result with this extension comes from a workbook rather than a CSV or TSV
/// file.
pub open spec fn is_workbook(extension: Seq<char>) -> bool {
    extension != "csv"@ && extension != "tsv"@
}

/// The fields of the structured result, in order. Sheet names, the column style, and
/// (where a sheet was selected) the selected sheet's name and index appear for workbooks
/// only; the output reference where there is one. A result of several sheets gives its
/// field names by sheet (`columns`) in place of a single list (`fields`). With cells
/// excluded there is no data: a result of several sheets gives its row counts by sheet
/// (`row_counts`) instead, a single sheet nothing.
pub open spec fn result_fields_of(
    extension: Seq<char>,
    selected: Option<Seq<Seq<char>>>,
    indices: Seq<u32>,
    has_output_reference: bool,
    multimode: bool,
    exclude_cells: bool,
) -> Seq<ResultFieldV> {
    let picked = is_workbook(extension) && selected is Some;
    leading_fields(is_workbook(extension), picked, selected) + shape_fields(picked, indices, multimode)
        + trailing_fields(has_output_reference, multimode, exclude_cells)
}

/// The extension, and for a workbook its sheet names, column style and selected sheet.
pub open spec fn leading_fields(wb: bool, picked: bool, selected: Option<Seq<Seq<char>>>) -> Seq<ResultFieldV> {
    seq![ResultFieldV::Extension]
        + (if wb { seq![ResultFieldV::Sheets, ResultFieldV::ColumnStyle] } else { Seq::empty() })
        + (if picked {
            seq![ResultFieldV::SelectedSheet(
                if selected->0.len() > 0 { selected->0[0] } else { Seq::empty() },
            )]
        } else {
            Seq::empty()
        })
}

/// The row count, the field names (by sheet for several sheets), whether there are
/// several sheets, and the selected sheet's index.
pub open spec fn shape_fields(picked: bool, indices: Seq<u32>, multimode: bool) -> Seq<ResultFieldV> {
    seq![ResultFieldV::RowCount]
        + (if multimode { seq![ResultFieldV::Columns] } else { seq![ResultFieldV::Fields] })
        + seq![ResultFieldV::Multimode]
        + (if picked {
            seq![ResultFieldV::SheetIndices(if indices.len() > 0 { indices[0] } else { 0 })]
        } else {
            Seq::empty()
        })
}

/// The options read, the output reference, and the data (or, with cells excluded, the
/// row counts by sheet for several sheets).
pub open spec fn trailing_fields(has_output_reference: bool, multimode: bool, exclude_cells: bool) -> Seq<ResultFieldV> {
    seq![
        ResultFieldV::FileName,
        ResultFieldV::MaxRows,
        ResultFieldV::Mode,
        ResultFieldV::Headers,
        ResultFieldV::HeaderRow,
        ResultFieldV::DecimalSeparator,
        ResultFieldV::DateMode,
    ]
        + (if has_output_reference { seq![ResultFieldV::OutputReference] } else { Seq::empty() })
        + (if !exclude_cells {
            seq![ResultFieldV::Data]
        } else if multimode {
            seq![ResultFieldV::RowCounts]
        } else {
            Seq::empty()
        })
}

/// Lists the fields of the structured result, as `result_fields_of` describes;
/// `multimode` says whether the result holds several sheets, `exclude_cells` whether
/// cell values are left out.
pub fn json_result_fields(
    extension: &str,
    selected: &Option<Vec<String>>,
    indices: &[u32],
    has_output_reference: bool,
    multimode: bool,
    exclude_cells: bool,
) -> (r: Vec<ResultField>)
    ensures
        result_fields_view(r@) == result_fields_of(
            extension@,
            match selected {
                Some(v) => Some(strings_view(v@)),
                None => None,
            },
            indices@,
            has_output_reference,
            multimode,
            exclude_cells,
        ),
{
    let wb = !str_equal(extension, "csv") && !str_equal(extension, "tsv");
    let picked = wb && selected.is_some();
    let mut out: Vec<ResultField> = Vec::new();
    assert(result_fields_view(out@) =~= Seq::<ResultFieldV>::empty());
    push_leading_fields(&mut out, wb, picked, selected);
    push_shape_fields(&mut out, picked, indices, multimode);
    push_trailing_fields(&mut out, has_output_reference, multimode, exclude_cells);
    out
}

fn push_leading_fields(out: &mut Vec<ResultField>, wb: bool, picked: bool, selected: &Option<Vec<String>>)
    requires
        picked ==> selected is Some,
    ensures
        result_fields_view(final(out)@) == result_fields_view(old(out)@) + leading_fields(
            wb,
            picked,
            match selected {
                Some(v) => Some(strings_view(v@)),
                None => None,
            },
        ),
{
    let ghost start = result_fields_view(out@);
    push_field(out, ResultField::Extension);
    if wb {
        push_field(out, ResultField::Sheets);
        push_field(out, ResultField::ColumnStyle);
    }
    if picked {
        let first = match selected {
            Some(names) => if names.len() > 0 {
                assert(strings_view(names@)[0] == names@[0]@);
                copy_string(&names[0])
            } else {
                String::new()
            },
            None => String::new(),
        };
        push_field(out, ResultField::SelectedSheet(first));
    }
    assert(result_fields_view(out@) =~= start + leading_fields(
        wb,
        picked,
        match selected {
            Some(v) => Some(strings_view(v@)),
            None => None,
        },
    ));
}

fn push_shape_fields(out: &mut Vec<ResultField>, picked: bool, indices: &[u32], multimode: bool)
    ensures
        result_fields_view(final(out)@) == result_fields_view(old(out)@) + shape_fields(picked, indices@, multimode),
{
    let ghost start = result_fields_view(out@);
    push_field(out, ResultField::RowCount);
    if multimode {
        push_field(out, ResultField::Columns);
    } else {
        push_field(out, ResultField::Fields);
    }
    push_field(out, ResultField::Multimode);
    if picked {
        let index = if indices.len() > 0 {
            indices[0]
        } else {
            0
        };
        push_field(out, ResultField::SheetIndices(index));
    }
    assert(result_fields_view(out@) =~= start + shape_fields(picked, indices@, multimode));
}

fn push_trailing_fields(out: &mut Vec<ResultField>, has_output_reference: bool, multimode: bool, exclude_cells: bool)
    ensures
        result_fields_view(final(out)@) == result_fields_view(old(out)@) + trailing_fields(
            has_output_reference,
            multimode,
            exclude_cells,
        ),
{
    let ghost start = result_fields_view(out@);
    push_field(out, ResultField::FileName);
    push_field(out, ResultField::MaxRows);
    push_field(out, ResultField::Mode);
    push_field(out, ResultField::Headers);
    push_field(out, ResultField::HeaderRow);
    push_field(out, ResultField::DecimalSeparator);
    push_field(out, ResultField::DateMode);
    if has_output_reference {
        push_field(out, ResultField::OutputReference);
    }
    if !exclude_cells {
        push_field(out, ResultField::Data);
    } else if multimode {
        push_field(out, ResultField::RowCounts);
    }
    assert(result_fields_view(out@) =~= start + trailing_fields(has_output_reference, multimode, exclude_cells));
}

/// Appends one field.
fn push_field(out: &mut Vec<ResultField>, f: ResultField)
    ensures
        result_fields_view(final(out)@) == result_fields_view(old(out)@).push(f@),
{
    let ghost fv = f@;
    out.push(f);
    assert(result_fields_view(out@) =~= result_fields_view(old(out)@).push(fv));
}

/// One field of the block that the data of each sheet is printed as, in a result of
/// several sheets.
#[derive(Debug, Clone, Copy, PartialEq, Eq, Structural)]
pub enum SheetBlockField {
    Sheet,
    RowCount,
    Rows,
}

/// The fields of a sheet's data block, in order: its name, its row count and its rows;
/// its field names are printed once, in `columns`, not here.
pub open spec fn sheet_block_fields_of() -> Seq<SheetBlockField> {
    seq![SheetBlockField::Sheet, SheetBlockField::RowCount, SheetBlockField::Rows]
}

/// Lists the fields of a sheet's data block, as `sheet_block_fields_of` gives them.
pub fn sheet_block_fields() -> (r: Vec<SheetBlockField>)
    ensures
        r@ == sheet_block_fields_of(),
{
    let mut v: Vec<SheetBlockField> = Vec::new();
    v.push(SheetBlockField::Sheet);
    v.push(SheetBlockField::RowCount);
    v.push(SheetBlockField::Rows);
    assert(v@ =~= sheet_block_fields_of());
    v
}

/// The key each field of a sheet's data block is printed under.
pub open spec fn sheet_block_key(f: SheetBlockField) -> Seq<char> {
    match f {
        SheetBlockField::Sheet => "sheet"@,
        SheetBlockField::RowCount => "row_count"@,
        SheetBlockField::Rows => "rows"@,
    }
}

/// The key a field of a sheet's data block is printed under, as `sheet_block_key`
/// gives it.
pub fn sheet_block_key_of(f: SheetBlockField) -> (r: &'static str)
    ensures
        r@ == sheet_block_key(f),
{
    match f {
        SheetBlockField::Sheet => "sheet",
        SheetBlockField::RowCount => "row_count",
        SheetBlockField::Rows => "rows",
    }
}

/// Whether a plan prints the rows alone.
pub open spec fn prints_rows_only(p: OutputPlan) -> bool {
    p == OutputPlan::JsonLines || p == OutputPlan::PrettyRows || p == OutputPlan::IndentedRows
}

/// `--json` changes only how JSON is laid out, never what is printed: with or without
/// it, the same flags print the rows alone or not, JSON Lines stay JSON Lines, and
/// without rows alone `--json` only swaps the listing for the structured result.
pub proof fn law_json_flag_only_changes_layout(lines: bool, preview: bool, rows: bool, exclude_cells: bool)
    ensures
        prints_rows_only(output_plan_of(lines, preview, rows, true, exclude_cells)) == prints_rows_only(
            output_plan_of(lines, preview, rows, false, exclude_cells),
        ),
        (output_plan_of(lines, preview, rows, true, exclude_cells) == OutputPlan::JsonLines) == (
        output_plan_of(lines, preview, rows, false, exclude_cells) == OutputPlan::JsonLines),
        !prints_rows_only(output_plan_of(lines, preview, rows, true, exclude_cells)) ==> output_plan_of(
            lines,
            preview,
            rows,
            true,
            exclude_cells,
        ) == OutputPlan::PrettyResult,
{
}


/// A source path is accepted exactly when one is given, something is there, it is no
/// directory, and its extension is a supported one; each refusal names the path it is
/// about (or, with no path, says how to give one), tested in that order.
pub proof fn law_path_accepted_exactly_when_readable(path: Option<Seq<char>>, exists: bool, is_dir: bool)
    ensures
        path_check(path, exists, is_dir) is Ok <==> (path matches Some(p) && exists && !is_dir && supported_path(p)),
        path is None ==> path_check(path, exists, is_dir) == Err::<(), Seq<char>>(no_path_message()),
        path matches Some(p) ==> (!exists ==> path_check(path, exists, is_dir) == Err::<(), Seq<char>>(
            "file not found: "@ + p,
        )),
        path matches Some(p) ==> (exists && is_dir ==> path_check(path, exists, is_dir) == Err::<(), Seq<char>>(
            "expected a file but found a directory: "@ + p,
        )),
{
}

/// What each combination of flags prints. Rows alone where `--rows` is given or `--lines`
/// without `--preview`: as JSON Lines with `--lines`, else pretty-printed with `--json`,
/// else one row per line. Otherwise the structured result with `--json`; and outside
/// both, `--exclude-cells` alone decides the listing: the options alone with it, the
/// result's own lines, cell values included, without it.
pub proof fn law_output_plan_by_flags(lines: bool, preview: bool, rows: bool, json: bool, exclude_cells: bool)
    ensures
        ({
            let p = output_plan_of(lines, preview, rows, json, exclude_cells);
            let rows_only = (lines && !preview) || rows;
            &&& (p == OutputPlan::JsonLines) <==> (rows_only && lines)
            &&& (p == OutputPlan::PrettyRows) <==> (rows_only && !lines && json)
            &&& (p == OutputPlan::IndentedRows) <==> (rows_only && !lines && !json)
            &&& (p == OutputPlan::PrettyResult) <==> (!rows_only && json)
            &&& (p == OutputPlan::OptionLines) <==> (!rows_only && !json && exclude_cells)
            &&& (p == OutputPlan::OutputLines) <==> (!rows_only && !json && !exclude_cells)
        }),
        !((lines && !preview) || rows) && !json ==> (output_plan_of(lines, preview, rows, json, exclude_cells)
            == OutputPlan::OptionLines <==> exclude_cells),
{
}

/// With cells excluded the structured result holds no data; a result of several sheets
/// gives its field names and row counts by sheet, and never a single list of field names.
pub proof fn law_structured_result_shape(
    extension: Seq<char>,
    selected: Option<Seq<Seq<char>>>,
    indices: Seq<u32>,
    has_output_reference: bool,
    multimode: bool,
    exclude_cells: bool,
)
    ensures
        ({
            let fs = result_fields_of(extension, selected, indices, has_output_reference, multimode, exclude_cells);
            &&& exclude_cells <==> !fs.contains(ResultFieldV::Data)
            &&& multimode <==> fs.contains(ResultFieldV::Columns)
            &&& multimode <==> !fs.contains(ResultFieldV::Fields)
            &&& (multimode && exclude_cells) <==> fs.contains(ResultFieldV::RowCounts)
        }),
{
    let picked = is_workbook(extension) && selected is Some;
    let l = leading_fields(is_workbook(extension), picked, selected);
    let m = shape_fields(picked, indices, multimode);
    let t = trailing_fields(has_output_reference, multimode, exclude_cells);
    let fs = l + m + t;
    assert(fs == result_fields_of(extension, selected, indices, has_output_reference, multimode, exclude_cells));
    assert(forall|x: ResultFieldV| #[trigger] fs.contains(x) <==> (l.contains(x) || m.contains(x) || t.contains(x))) by {
        assert forall|x: ResultFieldV| #[trigger] fs.contains(x) implies (l.contains(x) || m.contains(x) || t.contains(x)) by {
            let i = choose|i: int| 0 <= i < fs.len() && fs[i] == x;
            if i < l.len() {
                assert(l[i] == x);
            } else if i < l.len() + m.len() {
                assert(m[i - l.len()] == x);
            } else {
                assert(t[i - l.len() - m.len()] == x);
            }
        }
        assert forall|x: ResultFieldV| (l.contains(x) || m.contains(x) || t.contains(x)) implies #[trigger] fs.contains(x) by {
            if l.contains(x) {
                let i = choose|i: int| 0 <= i < l.len() && l[i] == x;
                assert(fs[i] == x);
            } else if m.contains(x) {
                let i = choose|i: int| 0 <= i < m.len() && m[i] == x;
                assert(fs[l.len() + i] == x);
            } else {
                let i = choose|i: int| 0 <= i < t.len() && t[i] == x;
                assert(fs[l.len() + m.len() + i] == x);
            }
        }
    }
    assert(!l.contains(ResultFieldV::Data) && !l.contains(ResultFieldV::Columns) && !l.contains(ResultFieldV::Fields)
        && !l.contains(ResultFieldV::RowCounts)) by {
        assert forall|i: int| 0 <= i < l.len() implies l[i] != ResultFieldV::Data && l[i] != ResultFieldV::Columns
            && l[i] != ResultFieldV::Fields && l[i] != ResultFieldV::RowCounts by {}
    }
    assert(!m.contains(ResultFieldV::Data) && !m.contains(ResultFieldV::RowCounts)) by {
        assert forall|i: int| 0 <= i < m.len() implies m[i] != ResultFieldV::Data && m[i] != ResultFieldV::RowCounts by {}
    }
    assert(!t.contains(ResultFieldV::Columns) && !t.contains(ResultFieldV::Fields)) by {
        assert forall|i: int| 0 <= i < t.len() implies t[i] != ResultFieldV::Columns && t[i] != ResultFieldV::Fields by {}
    }
    if multimode {
        assert(m[1] == ResultFieldV::Columns);
        assert forall|i: int| 0 <= i < m.len() implies m[i] != ResultFieldV::Fields by {}
    } else {
        assert(m[1] == ResultFieldV::Fields);
        assert forall|i: int| 0 <= i < m.len() implies m[i] != ResultFieldV::Columns by {}
    }
    if !exclude_cells {
        assert(t[t.len() - 1] == ResultFieldV::Data);
        assert forall|i: int| 0 <= i < t.len() implies t[i] != ResultFieldV::RowCounts by {}
    } else {
        assert forall|i: int| 0 <= i < t.len() implies t[i] != ResultFieldV::Data by {}
        if multimode {
            assert(t[t.len() - 1] == ResultFieldV::RowCounts);
        } else {
            assert forall|i: int| 0 <= i < t.len() implies t[i] != ResultFieldV::RowCounts by {}
        }
    }
}

} // verus!
