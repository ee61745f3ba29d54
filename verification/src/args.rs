//! Turns the command-line arguments into the options a spreadsheet read runs with:
//! column overrides from `--keys`, the fallback column naming style from `--colstyle`,
//! the 1-based/0-based sheet and row positions, and the row-wide date/time mode.
use vstd::prelude::*;
use crate::text::{
    chars_of, string_of, copy_string, concat, lower_text, whitespace_char, alphanumeric_char,
    is_whitespace, is_alphanumeric, parse_i128_at, parse_i128, parse_int_in, is_ascii_text,
    ascii_alphanumeric, ascii_lower, eq_ignore_ascii_case,
};
use crate::filter_pattern::{split_on, strings_view};
use crate::key_pattern::{ColumnSpec, DefaultValue, KeyPath, KeyPathV, opt_key_model};
use spreadsheet_to_json::heck::ToSnakeCase;
use spreadsheet_to_json::serde_json::Number;
use spreadsheet_to_json::is_truthy::is_truthy_core;
use spreadsheet_to_json::{FieldNameMode, Format};
use simple_string_patterns::{SimpleMatch, StripCharacters};
use to_segments::ToSegments;

verus! {

broadcast use vstd::string::group_string_axioms;

// ---------------------------------------------------------------------------
// Arguments and options
// ---------------------------------------------------------------------------

/// The command-line arguments, as parsed from the command line.
pub struct Args {
    pub path: Option<String>,
    pub sheet: Option<String>,
    pub number: Option<u32>,
    pub max: Option<u32>,
    pub top: Option<u32>,
    pub body_start: Option<u32>,
    pub omit_header: bool,
    pub exclude_cells: bool,
    pub keys: Option<String>,
    pub colstyle: Option<String>,
    pub json: bool,
    pub deferred: bool,
    pub preview: bool,
    pub lines: bool,
    pub rows: bool,
    pub index: u32,
    pub header_index: Option<u32>,
    pub body_index: Option<u32>,
    pub debug: bool,
    pub date_only: bool,
    pub time_only: bool,
    pub hm_only: bool,
    pub simple: bool,
    pub euro_number_format: bool,
    pub background_worker: bool,
}

/// How a date-time cell is written out, row-wide.
#[derive(Debug, Clone, Copy, PartialEq, Eq, Structural)]
pub enum DateMode {
    Full,
    Simple,
    DateOnly,
    TimeOnly,
    HmOnly,
}

/// Whether one sheet is read at once, every sheet is sampled, or rows are streamed to a
/// file.
#[derive(Debug, Clone, Copy, PartialEq, Eq, Structural)]
pub enum ReadKind {
    Sync,
    PreviewMultiple,
    Async,
}

/// The column naming convention: letters (`a`, `b`, ...) or padded numbers (`c01`, ...),
/// either only where a header is missing (`Auto...`) or for every column.
#[derive(Debug, Clone, Copy, PartialEq, Eq, Structural)]
pub enum FieldStyle {
    AutoA1,
    AutoNumPadded,
    A1,
    NumPadded,
}

/// The options a spreadsheet read runs with.
#[derive(Debug)]
pub struct ReadOptions {
    pub selected: Option<Vec<String>>,
    pub indices: Vec<u32>,
    pub path: Option<String>,
    pub max: Option<u32>,
    pub header_row: Option<usize>,
    pub data_row_index: Option<usize>,
    pub detect_header: bool,
    pub omit_header: bool,
    pub decimal_comma: bool,
    pub datetime_mode: DateMode,
    pub columns: Vec<ColumnSpec>,
    pub jsonl: bool,
    pub read_mode: ReadKind,
    pub field_mode: FieldStyle,
}

/// Built from the command-line arguments, or refused with a message.
pub trait FromArgs: Sized {
    fn from_args(args: &Args) -> Result<Self, String>;
}

// ---------------------------------------------------------------------------
// Text helpers from std
// ---------------------------------------------------------------------------

/// `s` without its leading whitespace.
pub open spec fn trim_ws_start(s: Seq<char>) -> Seq<char>
    decreases s.len(),
{
    if s.len() > 0 && whitespace_char(s[0]) {
        trim_ws_start(s.drop_first())
    } else {
        s
    }
}

/// `s` without its trailing whitespace.
pub open spec fn trim_ws_end(s: Seq<char>) -> Seq<char>
    decreases s.len(),
{
    if s.len() > 0 && whitespace_char(s.last()) {
        trim_ws_end(s.drop_last())
    } else {
        s
    }
}

/// `s` without leading and trailing whitespace, as `str::trim` gives it.
pub open spec fn trim_ws(s: Seq<char>) -> Seq<char> {
    trim_ws_end(trim_ws_start(s))
}

/// The alphanumeric characters of `s`, in order.
pub open spec fn alphanumeric_only(s: Seq<char>) -> Seq<char>
    decreases s.len(),
{
    if s.len() == 0 {
        s
    } else if alphanumeric_char(s.last()) {
        alphanumeric_only(s.drop_last()).push(s.last())
    } else {
        alphanumeric_only(s.drop_last())
    }
}

/// `s` without leading and trailing whitespace.
pub fn trim(s: &str) -> (r: String)
    ensures
        r@ == trim_ws(s@),
{
    let cs = chars_of(s);
    let mut start: usize = 0;
    assert(cs@.skip(0) =~= cs@);
    while start < cs.len() && is_whitespace(cs[start])
        invariant
            0 <= start <= cs.len(),
            trim_ws_start(cs@) == trim_ws_start(cs@.skip(start as int)),
        decreases cs.len() - start,
    {
        assert(cs@.skip(start as int).drop_first() =~= cs@.skip(start + 1));
        start += 1;
    }
    let ghost front = cs@.skip(start as int);
    assert(trim_ws_start(cs@) == front);
    let mut end: usize = cs.len();
    assert(front.take(front.len() as int) =~= front);
    while end > start && is_whitespace(cs[end - 1])
        invariant
            start <= end <= cs.len(),
            front == cs@.skip(start as int),
            trim_ws_end(front) == trim_ws_end(front.take(end - start)),
        decreases end,
    {
        assert(front.take(end - start).drop_last() =~= front.take(end - 1 - start));
        end -= 1;
    }
    assert(front.take(end - start) =~= cs@.subrange(start as int, end as int));
    string_of(&cs, start, end)
}

// ---------------------------------------------------------------------------
// Trusted: string utilities of `to_segments`, `heck` and `simple-string-patterns`
// ---------------------------------------------------------------------------

/// Trusted: calls `ToSegments::to_parts` of `to_segments`, which is `str::split` with the
/// pieces collected: one more piece than there are separators, empty ones kept.
#[verifier::external_body]
fn split_parts(s: &str, sep: char) -> (r: Vec<String>)
    ensures
        strings_view(r@) == split_on(s@, sep),
{
    s.to_parts(&sep.to_string())
}

/// `n` copies of `c`.
pub open spec fn repeat_char(c: char, n: nat) -> Seq<char> {
    Seq::new(n, |i: int| c)
}

/// Walks the pieces of a split, holding back the empty ones: each non-empty piece is kept
/// with one separator in front for every empty piece just before it.
pub open spec fn segments_fold(parts: Seq<Seq<char>>, sep: char) -> (Seq<Seq<char>>, nat)
    decreases parts.len(),
{
    if parts.len() == 0 {
        (Seq::empty(), 0)
    } else {
        let (segs, pending) = segments_fold(parts.drop_last(), sep);
        let part = parts.last();
        if part.len() == 0 {
            (segs, pending + 1)
        } else {
            (segs.push(repeat_char(sep, pending) + part), 0)
        }
    }
}

/// What `ToSegments::to_segments` gives: the non-empty pieces of the split, each with the
/// separators of the empty pieces before it in front, and the separators of trailing
/// empty pieces appended to the last one.
pub open spec fn segments_of(s: Seq<char>, sep: char) -> Seq<Seq<char>> {
    let (segs, pending) = segments_fold(split_on(s, sep), sep);
    if pending > 0 && segs.len() > 0 {
        segs.update(segs.len() - 1, segs.last() + repeat_char(sep, pending))
    } else {
        segs
    }
}

/// Trusted: calls `ToSegments::to_segments` of `to_segments`; its source builds the
/// segments as `segments_of` describes.
#[verifier::external_body]
fn split_segments(s: &str, sep: char) -> (r: Vec<String>)
    ensures
        strings_view(r@) == segments_of(s@, sep),
{
    s.to_segments(&sep.to_string())
}

/// What `ToSegments::to_head_tail` gives for a one-character separator: the search for
/// the separator starts after a leading one; the head is everything before the separator
/// found (the whole string where none is), the tail everything after it (`None` where
/// that is empty).
pub open spec fn head_tail_of(s: Seq<char>, sep: char) -> (Seq<char>, Option<Seq<char>>) {
    let from: int = if s.len() > 0 && s[0] == sep { 1 } else { 0 };
    match crate::key_pattern::first_index(s.skip(from), sep) {
        Some(i) => {
            let pos = from + i;
            (s.take(pos), if pos + 1 == s.len() { None } else { Some(s.skip(pos + 1)) })
        },
        None => (s, None),
    }
}

/// Trusted: calls `ToSegments::to_head_tail` of `to_segments`, whose head is always
/// present; both parts as `head_tail_of` describes.
#[verifier::external_body]
fn head_tail(s: &str, sep: char) -> (r: (String, Option<String>))
    ensures
        r.0@ == head_tail_of(s@, sep).0,
        match head_tail_of(s@, sep).1 {
            Some(t) => r.1 matches Some(x) && x@ == t,
            None => r.1 is None,
        },
{
    let (head, tail) = s.to_head_tail(&sep.to_string());
    (head.unwrap_or_default().to_string(), tail.map(|t| t.to_string()))
}

/// The snake_case form of `s` as `heck` writes it.
pub uninterp spec fn snake_case(s: Seq<char>) -> Seq<char>;

/// Trusted: calls `ToSnakeCase::to_snake_case` of `heck` (word boundaries from case
/// changes and punctuation, lowercased, joined with `_`); the result depends on `s`
/// alone.
#[verifier::external_body]
fn to_snake_case(s: &str) -> (r: String)
    ensures
        r@ == snake_case(s@),
{
    s.to_snake_case()
}

/// Whether `s` starts with `p`, case-insensitively, as `simple-string-patterns` decides.
pub uninterp spec fn ci_prefix(s: Seq<char>, p: Seq<char>) -> bool;

/// Whether the alphanumeric characters of `s` start with those of `p`,
/// case-insensitively, as `simple-string-patterns` decides.
pub uninterp spec fn ci_alphanum_prefix(s: Seq<char>, p: Seq<char>) -> bool;

/// The ASCII letters and digits of `s`, lowered, in order.
pub open spec fn ascii_alnum_lower(s: Seq<char>) -> Seq<char>
    decreases s.len(),
{
    if s.len() == 0 {
        s
    } else if ascii_alphanumeric(s.last()) {
        ascii_alnum_lower(s.drop_last()).push(ascii_lower(s.last()))
    } else {
        ascii_alnum_lower(s.drop_last())
    }
}

/// Whether `s` starts with `p` ignoring case: for ASCII text, its first characters equal
/// those of `p` up to ASCII case.
pub open spec fn starts_with_ci_of(s: Seq<char>, p: Seq<char>) -> bool {
    if is_ascii_text(s) && is_ascii_text(p) {
        p.len() <= s.len() && eq_ignore_ascii_case(s.take(p.len() as int), p)
    } else {
        ci_prefix(s, p)
    }
}

/// Whether the letters and digits of `s` start with those of `p` ignoring case: for
/// ASCII text, compared lowered.
pub open spec fn starts_with_ci_alnum_of(s: Seq<char>, p: Seq<char>) -> bool {
    if is_ascii_text(s) && is_ascii_text(p) {
        let a = ascii_alnum_lower(s);
        let b = ascii_alnum_lower(p);
        b.len() <= a.len() && a.take(b.len() as int) == b
    } else {
        ci_alphanum_prefix(s, p)
    }
}

/// Trusted: calls `SimpleMatch::starts_with_ci` of `simple-string-patterns`. For ASCII
/// text its source compares the first bytes with `eq_ignore_ascii_case`; otherwise the
/// answer depends on `s` and `p` alone.
#[verifier::external_body]
fn starts_with_ci(s: &str, p: &str) -> (r: bool)
    ensures
        is_ascii_text(s@) && is_ascii_text(p@) ==> r == (p@.len() <= s@.len() && eq_ignore_ascii_case(
            s@.take(p@.len() as int),
            p@,
        )),
        !(is_ascii_text(s@) && is_ascii_text(p@)) ==> r == ci_prefix(s@, p@),
{
    s.starts_with_ci(p)
}

/// Trusted: calls `SimpleMatch::starts_with_ci_alphanum` of `simple-string-patterns`. For
/// ASCII text its source keeps the ASCII letters and digits of each, lowered, and tests
/// for a prefix; otherwise the answer depends on `s` and `p` alone.
#[verifier::external_body]
fn starts_with_ci_alphanum(s: &str, p: &str) -> (r: bool)
    ensures
        is_ascii_text(s@) && is_ascii_text(p@) ==> r == (ascii_alnum_lower(p@).len() <= ascii_alnum_lower(
            s@,
        ).len() && ascii_alnum_lower(s@).take(ascii_alnum_lower(p@).len() as int) == ascii_alnum_lower(p@)),
        !(is_ascii_text(s@) && is_ascii_text(p@)) ==> r == ci_alphanum_prefix(s@, p@),
{
    s.starts_with_ci_alphanum(p)
}

/// Trusted: calls `StripCharacters::strip_non_alphanum` (of `alphanumeric`, re-exported by
/// `simple-string-patterns`), which keeps the characters for which `char::is_alphanumeric`
/// holds.
#[verifier::external_body]
fn strip_non_alphanum(s: &str) -> (r: String)
    ensures
        r@ == alphanumeric_only(s@),
{
    s.strip_non_alphanum()
}


// ---------------------------------------------------------------------------
// Trusted: formats, truthy values and numbers of `spreadsheet-to-json`
// ---------------------------------------------------------------------------

/// The formats whose default value is read specially: an integer default for `Integer`,
/// a truthy value for `Boolean`, text for any other.
#[derive(Debug, Clone, Copy, PartialEq, Eq, Structural)]
pub enum FormatKind {
    Integer,
    Boolean,
    Other,
}

/// Whether `s` holds `[` directly followed by `]`.
pub open spec fn has_empty_brackets(s: Seq<char>) -> bool {
    exists|i: int| 0 <= i < s.len() - 1 && s[i] == '[' && #[trigger] s[i + 1] == ']'
}

/// The key that `Format::from_str` matches a format name by: trimmed, lowercased, with
/// everything but letters and digits removed.
pub open spec fn format_key(s: Seq<char>) -> Seq<char> {
    alphanumeric_only(lower_text(trim_ws(s)))
}

/// Which kind of format `Format::from_str` reads from `s`: `Integer` for `i`, `int` or
/// `integer`, `Boolean` for `b`, `bool` or `boolean` (neither where `s` holds `[]`, which
/// makes an array format).
pub open spec fn format_kind_of(s: Seq<char>) -> FormatKind {
    let k = format_key(s);
    if has_empty_brackets(s) {
        FormatKind::Other
    } else if k == "i"@ || k == "int"@ || k == "integer"@ {
        FormatKind::Integer
    } else if k == "b"@ || k == "bool"@ || k == "boolean"@ {
        FormatKind::Boolean
    } else {
        FormatKind::Other
    }
}

/// The format `Format::from_str` reads from `s`.
pub uninterp spec fn parsed_format(s: Seq<char>) -> Format;

/// Trusted: calls `Format::from_str` of `spreadsheet-to-json`, which never fails; the
/// format depends on `s` alone, and its kind is as `format_kind_of` describes.
#[verifier::external_body]
fn parse_format(s: &str) -> (r: (Format, FormatKind))
    ensures
        r.0 == parsed_format(s@),
        r.1 == format_kind_of(s@),
{
    let f = s.parse::<Format>().unwrap_or(Format::Auto);
    let k = match f {
        Format::Integer => FormatKind::Integer,
        Format::Boolean => FormatKind::Boolean,
        _ => FormatKind::Other,
    };
    (f, k)
}

/// What `is_truthy_core(s, false)` of `is-truthy` gives: on the trimmed, lowercased text,
/// `false` and `true` for themselves, an integer 0 or 1 for `false` or `true`, nothing for
/// anything else (the empty text included).
pub open spec fn truthy_value(s: Seq<char>) -> Option<bool> {
    let t = lower_text(trim_ws(s));
    if t == "false"@ {
        Some(false)
    } else if t == "true"@ {
        Some(true)
    } else {
        match parse_int_in(t, -128, 127) {
            Some(n) => if 0 <= n <= 1 {
                Some(n > 0)
            } else {
                None
            },
            None => None,
        }
    }
}

/// Trusted: calls `is_truthy_core(s, false)` of `is-truthy`, as `truthy_value`
/// describes.
#[verifier::external_body]
fn truthy(s: &str) -> (r: Option<bool>)
    ensures
        r == truthy_value(s@),
{
    is_truthy_core(s, false)
}

/// Trusted: calls `Number::from_i128` of `serde_json` (without `arbitrary_precision`,
/// which nothing here enables), which succeeds exactly for values within `i64` or `u64`.
#[verifier::external_body]
fn fits_json_number(n: i128) -> (r: bool)
    ensures
        r == (i64::MIN <= n <= u64::MAX),
{
    Number::from_i128(n).is_some()
}

/// The naming style `FieldNameMode::from_key` picks: a key starting with `a1` gives
/// letters, one starting with `c` or `n` padded numbers (both for every column when
/// `override_all`, else only where a header is missing); any other key the default.
pub open spec fn field_style_of(key: Seq<char>, override_all: bool) -> FieldStyle {
    if starts_with_ci_of(key, "a1"@) {
        if override_all { FieldStyle::A1 } else { FieldStyle::AutoA1 }
    } else if starts_with_ci_of(key, "c"@) || starts_with_ci_of(key, "n"@) {
        if override_all { FieldStyle::NumPadded } else { FieldStyle::AutoNumPadded }
    } else {
        FieldStyle::AutoA1
    }
}

/// Trusted: calls `FieldNameMode::from_key` of `spreadsheet-to-json`, whose source tests
/// the key with `starts_with_ci` as `field_style_of` describes.
#[verifier::external_body]
fn field_style_from_key(key: &str, override_all: bool) -> (r: FieldStyle)
    ensures
        r == field_style_of(key@, override_all),
{
    match FieldNameMode::from_key(key, override_all) {
        FieldNameMode::AutoA1 => FieldStyle::AutoA1,
        FieldNameMode::AutoNumPadded => FieldStyle::AutoNumPadded,
        FieldNameMode::A1 => FieldStyle::A1,
        FieldNameMode::NumPadded => FieldStyle::NumPadded,
    }
}


// ---------------------------------------------------------------------------
// `--keys` column overrides
// ---------------------------------------------------------------------------

/// A default value, as a mathematical value.
pub enum DefaultV {
    Integer(int),
    Boolean(bool),
    Text(Seq<char>),
}

pub open spec fn default_view(d: DefaultValue) -> DefaultV {
    match d {
        DefaultValue::Integer(n) => DefaultV::Integer(n as int),
        DefaultValue::Boolean(b) => DefaultV::Boolean(b),
        DefaultValue::Text(t) => DefaultV::Text(t@),
    }
}

pub open spec fn opt_default_view(d: Option<DefaultValue>) -> Option<DefaultV> {
    match d {
        Some(d) => Some(default_view(d)),
        None => None,
    }
}

/// A column override, as a mathematical value.
pub struct ColumnV {
    pub source_key: Seq<char>,
    pub key: Option<KeyPathV>,
    pub format: Option<Format>,
    pub default: Option<DefaultV>,
}

pub open spec fn column_view(c: ColumnSpec) -> ColumnV {
    ColumnV { source_key: c.source_key@, key: opt_key_model(c.key), format: c.format, default: opt_default_view(c.default) }
}

pub open spec fn columns_view(cs: Seq<ColumnSpec>) -> Seq<ColumnV> {
    cs.map_values(|c: ColumnSpec| column_view(c))
}

/// The message for an integer default that is no integer.
pub open spec fn not_integer_message(entry: Seq<char>, text: Seq<char>) -> Seq<char> {
    "invalid --keys entry '"@ + entry + "': '"@ + text + "' is not a valid integer default"@
}

/// The message for an integer default outside what a JSON number holds.
pub open spec fn out_of_range_message(entry: Seq<char>, text: Seq<char>) -> Seq<char> {
    "invalid --keys entry '"@ + entry + "': integer default '"@ + text + "' is out of range"@
}

/// The default that `text` gives a column of this kind: an integer within `i64` or
/// `u64` (an error naming `entry` otherwise), a truthy value (none where `text` is not
/// one), or the text itself.
pub open spec fn default_of(entry: Seq<char>, text: Seq<char>, kind: FormatKind) -> Result<Option<DefaultV>, Seq<char>> {
    match kind {
        FormatKind::Integer => match parse_i128(text) {
            None => Err(not_integer_message(entry, text)),
            Some(n) => if i64::MIN <= n <= u64::MAX {
                Ok(Some(DefaultV::Integer(n)))
            } else {
                Err(out_of_range_message(entry, text))
            },
        },
        FormatKind::Boolean => Ok(
            match truthy_value(text) {
                Some(b) => Some(DefaultV::Boolean(b)),
                None => None,
            },
        ),
        FormatKind::Other => Ok(Some(DefaultV::Text(text))),
    }
}

/// The override one `--keys` entry `source_key[:new_key][|format[|default]]` stands for:
/// none where the snake_cased source key is empty; the new key trimmed and snake_cased
/// where it is not empty; the format read from its text (the automatic one where there is
/// none); the default as `default_of` reads it where its text is not empty.
pub open spec fn column_of_entry(entry: Seq<char>) -> Result<Option<ColumnV>, Seq<char>> {
    let pipe = split_on(entry, '|');
    let key_sub = split_on(pipe[0], ':');
    let source = snake_case(key_sub[0]);
    if source.len() == 0 {
        Ok(None)
    } else {
        let new_key = if key_sub.len() > 1 && trim_ws(key_sub[1]).len() > 0 {
            Some(KeyPathV::Simple(snake_case(trim_ws(key_sub[1]))))
        } else {
            None
        };
        let format = if pipe.len() > 1 { Some(parsed_format(pipe[1])) } else { None };
        let kind = if pipe.len() > 1 { format_kind_of(pipe[1]) } else { FormatKind::Other };
        let default = if pipe.len() > 2 && pipe[2].len() > 0 {
            default_of(entry, pipe[2], kind)
        } else {
            Ok(None)
        };
        match default {
            Err(m) => Err(m),
            Ok(d) => Ok(Some(ColumnV { source_key: source, key: new_key, format, default: d })),
        }
    }
}

/// The overrides of the entries in order, skipping those that stand for none; the first
/// entry's error where one is refused.
pub open spec fn columns_of_entries(entries: Seq<Seq<char>>) -> Result<Seq<ColumnV>, Seq<char>>
    decreases entries.len(),
{
    if entries.len() == 0 {
        Ok(Seq::empty())
    } else {
        match columns_of_entries(entries.drop_last()) {
            Err(m) => Err(m),
            Ok(cols) => match column_of_entry(entries.last()) {
                Err(m) => Err(m),
                Ok(None) => Ok(cols),
                Ok(Some(c)) => Ok(cols.push(c)),
            },
        }
    }
}

/// The overrides of a whole `--keys` value, its entries separated by `,`.
pub open spec fn key_columns(keys: Seq<char>) -> Result<Seq<ColumnV>, Seq<char>> {
    columns_of_entries(split_on(keys, ','))
}

/// Reads the default of one entry, as `default_of` describes.
fn parse_default(entry: &str, text: &str, kind: FormatKind) -> (r: Result<Option<DefaultValue>, String>)
    ensures
        match default_of(entry@, text@, kind) {
            Ok(d) => r matches Ok(x) && opt_default_view(x) == d,
            Err(m) => r matches Err(x) && x@ == m,
        },
{
    match kind {
        FormatKind::Integer => {
            let cs = chars_of(text);
            assert(cs@.subrange(0, cs.len() as int) =~= cs@);
            match parse_i128_at(&cs, 0, cs.len()) {
                None => {
                    let m = concat(&concat(&concat(&concat("invalid --keys entry '", entry), "': '"), text),
                        "' is not a valid integer default");
                    Err(m)
                },
                Some(n) => {
                    if fits_json_number(n) {
                        Ok(Some(DefaultValue::Integer(n)))
                    } else {
                        let m = concat(&concat(&concat(&concat("invalid --keys entry '", entry),
                            "': integer default '"), text), "' is out of range");
                        Err(m)
                    }
                },
            }
        },
        FormatKind::Boolean => Ok(
            match truthy(text) {
                Some(b) => Some(DefaultValue::Boolean(b)),
                None => None,
            },
        ),
        FormatKind::Other => Ok(Some(DefaultValue::Text(String::from_str(text)))),
    }
}

/// Reads one `--keys` entry, as `column_of_entry` describes.
pub fn parse_column_entry(entry: &str) -> (r: Result<Option<ColumnSpec>, String>)
    ensures
        match column_of_entry(entry@) {
            Ok(Some(c)) => r matches Ok(Some(x)) && column_view(x) == c,
            Ok(None) => r matches Ok(None),
            Err(m) => r matches Err(x) && x@ == m,
        },
{
    let pipe = split_parts(entry, '|');
    proof {
        crate::filter_pattern::lemma_split_on_nonempty(entry@, '|');
        crate::filter_pattern::lemma_split_on_nonempty(pipe@[0]@, ':');
    }
    let key_sub = split_parts(pipe[0].as_str(), ':');
    let source = to_snake_case(key_sub[0].as_str());
    if chars_of(source.as_str()).len() == 0 {
        return Ok(None);
    }
    let new_key = if key_sub.len() > 1 {
        let t = trim(key_sub[1].as_str());
        if chars_of(t.as_str()).len() > 0 {
            Some(KeyPath::Simple(to_snake_case(t.as_str())))
        } else {
            None
        }
    } else {
        None
    };
    let (format, kind) = if pipe.len() > 1 {
        let (f, k) = parse_format(pipe[1].as_str());
        (Some(f), k)
    } else {
        (None, FormatKind::Other)
    };
    let default = if pipe.len() > 2 && chars_of(pipe[2].as_str()).len() > 0 {
        match parse_default(entry, pipe[2].as_str(), kind) {
            Ok(d) => d,
            Err(m) => {
                return Err(m);
            },
        }
    } else {
        None
    };
    Ok(Some(ColumnSpec { source_key: source, key: new_key, format, default }))
}

/// Reads a whole `--keys` value, as `key_columns` describes.
pub fn parse_key_columns(keys: &str) -> (r: Result<Vec<ColumnSpec>, String>)
    ensures
        match key_columns(keys@) {
            Ok(cols) => r matches Ok(v) && columns_view(v@) == cols,
            Err(m) => r matches Err(x) && x@ == m,
        },
{
    let entries = split_parts(keys, ',');
    let ghost es = strings_view(entries@);
    let mut columns: Vec<ColumnSpec> = Vec::new();
    let mut i: usize = 0;
    assert(es.take(0) =~= Seq::<Seq<char>>::empty());
    assert(columns_view(columns@) =~= Seq::<ColumnV>::empty());
    while i < entries.len()
        invariant
            0 <= i <= entries.len(),
            es == strings_view(entries@),
            es == split_on(keys@, ','),
            columns_of_entries(es.take(i as int)) == Ok::<Seq<ColumnV>, Seq<char>>(columns_view(columns@)),
        decreases entries.len() - i,
    {
        assert(es.take(i + 1).drop_last() =~= es.take(i as int));
        assert(es.take(i + 1).last() == entries@[i as int]@);
        let ghost before = columns@;
        match parse_column_entry(entries[i].as_str()) {
            Err(m) => {
                assert(columns_of_entries(es.take(i + 1)) is Err);
                proof { lemma_error_persists(es, i as int + 1); }
                assert(es.take(es.len() as int) =~= es);
                return Err(m);
            },
            Ok(None) => {},
            Ok(Some(c)) => {
                let ghost cv = column_view(c);
                columns.push(c);
                assert(columns_view(columns@) =~= columns_view(before).push(cv));
            },
        }
        i += 1;
    }
    assert(es.take(entries.len() as int) =~= es);
    Ok(columns)
}

/// Once an entry is refused, every longer run of entries is refused with the same
/// message.
proof fn lemma_error_persists(es: Seq<Seq<char>>, n: int)
    requires
        0 <= n <= es.len(),
        columns_of_entries(es.take(n)) is Err,
    ensures
        columns_of_entries(es) == columns_of_entries(es.take(n)),
    decreases es.len() - n,
{
    if n < es.len() {
        assert(es.take(n + 1).drop_last() =~= es.take(n));
        lemma_error_persists(es, n + 1);
    } else {
        assert(es.take(n) =~= es);
    }
}


// ---------------------------------------------------------------------------
// `--colstyle`
// ---------------------------------------------------------------------------

/// The naming style that a `--colstyle` value `style[:mode]` picks: the style with
/// everything but letters and digits removed (`r1...` read as `c1`), for every column
/// unless a mode is given that does not start with `all`. The default without a value.
pub open spec fn colstyle_field_style(colstyle: Option<Seq<char>>) -> FieldStyle {
    match colstyle {
        None => FieldStyle::AutoA1,
        Some(c) => {
            let (key, mode) = head_tail_of(c, ':');
            let override_all = match mode {
                None => true,
                Some(m) => starts_with_ci_alnum_of(m, "all"@),
            };
            let stripped = alphanumeric_only(key);
            let k = if starts_with_ci_of(stripped, "r1"@) { "c1"@ } else { stripped };
            field_style_of(k, override_all)
        },
    }
}

/// Reads a `--colstyle` value, as `colstyle_field_style` describes.
pub fn field_style_from_colstyle(colstyle: &Option<String>) -> (r: FieldStyle)
    ensures
        r == colstyle_field_style(
            match colstyle {
                Some(c) => Some(c@),
                None => None,
            },
        ),
{
    match colstyle {
        None => FieldStyle::AutoA1,
        Some(c) => {
            let (key, mode) = head_tail(c.as_str(), ':');
            let override_all = match &mode {
                None => true,
                Some(m) => starts_with_ci_alphanum(m.as_str(), "all"),
            };
            let stripped = strip_non_alphanum(key.as_str());
            if starts_with_ci(stripped.as_str(), "r1") {
                field_style_from_key("c1", override_all)
            } else {
                field_style_from_key(stripped.as_str(), override_all)
            }
        },
    }
}

// ---------------------------------------------------------------------------
// The options of a read
// ---------------------------------------------------------------------------

/// How many rows each sheet is sampled for in preview mode when `--max` is not given.
pub const DEFAULT_MAX_FOR_PREVIEW: u32 = 10;

pub open spec fn opt_string_view(s: Option<String>) -> Option<Seq<char>> {
    match s {
        Some(x) => Some(x@),
        None => None,
    }
}

pub open spec fn opt_strings_view(s: Option<Vec<String>>) -> Option<Seq<Seq<char>>> {
    match s {
        Some(v) => Some(strings_view(v@)),
        None => None,
    }
}

/// The row-wide date-time mode: `--date-only` over `--time-only` over `--hm-only` over
/// `--simple`, else the full form.
pub open spec fn date_mode_of(args: Args) -> DateMode {
    if args.date_only {
        DateMode::DateOnly
    } else if args.time_only {
        DateMode::TimeOnly
    } else if args.hm_only {
        DateMode::HmOnly
    } else if args.simple {
        DateMode::Simple
    } else {
        DateMode::Full
    }
}

/// Preview mode samples every sheet; otherwise a deferred read streams rows to a file.
pub open spec fn read_kind_of(args: Args) -> ReadKind {
    if args.preview {
        ReadKind::PreviewMultiple
    } else if args.deferred {
        ReadKind::Async
    } else {
        ReadKind::Sync
    }
}

/// The 0-based sheet index: `--number` less one where given, else `--index`.
pub open spec fn sheet_index_of(args: Args) -> u32 {
    match args.number {
        Some(n) => (n - 1) as u32,
        None => args.index,
    }
}

/// A 0-based row position from its 1-based (`one`) and 0-based (`zero`) options, the
/// 1-based one first; none where neither is given.
pub open spec fn row_position_of(one: Option<u32>, zero: Option<u32>) -> Option<usize> {
    match one {
        Some(t) => Some((t - 1) as usize),
        None => match zero {
            Some(z) => Some(z as usize),
            None => None,
        },
    }
}

/// The column overrides of the arguments: none without `--keys`.
pub open spec fn args_columns(args: Args) -> Result<Seq<ColumnV>, Seq<char>> {
    match args.keys {
        Some(k) => key_columns(k@),
        None => Ok(Seq::empty()),
    }
}

/// The options that valid arguments give, with `cols` the column overrides of `--keys`.
pub open spec fn options_of(o: ReadOptions, args: Args, cols: Seq<ColumnV>) -> bool {
    let read_mode = read_kind_of(args);
    &&& opt_strings_view(o.selected) == match args.sheet {
        Some(s) => Some(segments_of(s@, ',')),
        None => None,
    }
    &&& o.indices@ == seq![sheet_index_of(args)]
    &&& opt_string_view(o.path) == opt_string_view(args.path)
    &&& o.max == (if args.preview {
        Some(
            match args.max {
                Some(m) => m,
                None => DEFAULT_MAX_FOR_PREVIEW,
            },
        )
    } else {
        args.max
    })
    &&& o.header_row == row_position_of(args.top, args.header_index)
    &&& o.data_row_index == row_position_of(args.body_start, args.body_index)
    &&& o.detect_header
    &&& o.omit_header == args.omit_header
    &&& o.decimal_comma == args.euro_number_format
    &&& o.datetime_mode == date_mode_of(args)
    &&& columns_view(o.columns@) == cols
    &&& o.read_mode == read_mode
    &&& o.jsonl == (args.lines || read_mode == ReadKind::Async)
    &&& o.field_mode == colstyle_field_style(opt_string_view(args.colstyle))
}

pub open spec fn number_message() -> Seq<char> {
    "invalid --number value: sheets are numbered starting at 1"@
}

pub open spec fn top_message() -> Seq<char> {
    "invalid --top value: rows are numbered starting at 1"@
}

pub open spec fn body_start_message() -> Seq<char> {
    "invalid --body-start value: rows are numbered starting at 1"@
}

fn copy_opt_string(s: &Option<String>) -> (r: Option<String>)
    ensures
        opt_string_view(r) == opt_string_view(*s),
{
    match s {
        Some(x) => Some(copy_string(x)),
        None => None,
    }
}

/// The 0-based row position from its 1-based and 0-based options; `None` where the
/// 1-based one is 0.
fn row_position(one: Option<u32>, zero: Option<u32>) -> (r: Option<Option<usize>>)
    ensures
        one == Some(0u32) ==> r is None,
        one != Some(0u32) ==> r == Some(row_position_of(one, zero)),
{
    match one {
        Some(0) => None,
        Some(t) => Some(Some((t - 1) as usize)),
        None => match zero {
            Some(z) => Some(Some(z as usize)),
            None => Some(None),
        },
    }
}

impl FromArgs for ReadOptions {
    /// Reads the options from the arguments. Refused, with the message of the first
    /// problem, where a `--keys` entry has an integer default that is no integer or is out
    /// of range, or where `--number`, `--top` or `--body-start` is 0 (they count from 1).
    fn from_args(args: &Args) -> (r: Result<ReadOptions, String>)
        ensures
            match args_columns(*args) {
                Err(m) => r matches Err(x) && x@ == m,
                Ok(cols) => if args.number == Some(0u32) {
                    r matches Err(x) && x@ == number_message()
                } else if args.top == Some(0u32) {
                    r matches Err(x) && x@ == top_message()
                } else if args.body_start == Some(0u32) {
                    r matches Err(x) && x@ == body_start_message()
                } else {
                    r matches Ok(o) && options_of(o, *args, cols)
                },
            },
    {
        let columns = match &args.keys {
            Some(k) => match parse_key_columns(k.as_str()) {
                Ok(c) => c,
                Err(m) => {
                    return Err(m);
                },
            },
            None => {
                let c: Vec<ColumnSpec> = Vec::new();
                assert(columns_view(c@) =~= Seq::<ColumnV>::empty());
                c
            },
        };
        let read_mode = if args.preview {
            ReadKind::PreviewMultiple
        } else if args.deferred {
            ReadKind::Async
        } else {
            ReadKind::Sync
        };
        let field_mode = field_style_from_colstyle(&args.colstyle);
        let jsonl = args.lines || read_mode == ReadKind::Async;
        let selected = match &args.sheet {
            Some(sheet) => Some(split_segments(sheet.as_str(), ',')),
            None => None,
        };
        let max = if args.preview {
            Some(
                match args.max {
                    Some(m) => m,
                    None => DEFAULT_MAX_FOR_PREVIEW,
                },
            )
        } else {
            args.max
        };
        let index = match args.number {
            Some(0) => {
                return Err(String::from_str("invalid --number value: sheets are numbered starting at 1"));
            },
            Some(n) => n - 1,
            None => args.index,
        };
        let header_row = match row_position(args.top, args.header_index) {
            Some(h) => h,
            None => {
                return Err(String::from_str("invalid --top value: rows are numbered starting at 1"));
            },
        };
        let data_row_index = match row_position(args.body_start, args.body_index) {
            Some(d) => d,
            None => {
                return Err(String::from_str("invalid --body-start value: rows are numbered starting at 1"));
            },
        };
        let datetime_mode = if args.date_only {
            DateMode::DateOnly
        } else if args.time_only {
            DateMode::TimeOnly
        } else if args.hm_only {
            DateMode::HmOnly
        } else if args.simple {
            DateMode::Simple
        } else {
            DateMode::Full
        };
        let mut indices: Vec<u32> = Vec::new();
        indices.push(index);
        assert(indices@ =~= seq![sheet_index_of(*args)]);
        Ok(ReadOptions {
            selected,
            indices,
            path: copy_opt_string(&args.path),
            max,
            header_row,
            data_row_index,
            detect_header: true,
            omit_header: args.omit_header,
            decimal_comma: args.euro_number_format,
            datetime_mode,
            columns,
            jsonl,
            read_mode,
            field_mode,
        })
    }
}


// ---------------------------------------------------------------------------
// Laws
// ---------------------------------------------------------------------------

/// Whether two sets of arguments agree on everything but the sheet and row positions.
pub open spec fn agree_apart_from_positions(a: Args, b: Args) -> bool {
    &&& a.path == b.path
    &&& a.sheet == b.sheet
    &&& a.max == b.max
    &&& a.omit_header == b.omit_header
    &&& a.exclude_cells == b.exclude_cells
    &&& a.keys == b.keys
    &&& a.colstyle == b.colstyle
    &&& a.json == b.json
    &&& a.deferred == b.deferred
    &&& a.preview == b.preview
    &&& a.lines == b.lines
    &&& a.rows == b.rows
    &&& a.debug == b.debug
    &&& a.date_only == b.date_only
    &&& a.time_only == b.time_only
    &&& a.hm_only == b.hm_only
    &&& a.simple == b.simple
    &&& a.euro_number_format == b.euro_number_format
    &&& a.background_worker == b.background_worker
}

/// The 1-based positions are the 0-based ones plus one: `--number n` reads the same
/// sheet as `--index n-1`, `--top t` the same header row as `--header-index t-1`, and
/// `--body-start b` the same first data row as `--body-index b-1`. Options valid for
/// arguments given the 1-based way are exactly those valid for the 0-based way.
pub proof fn law_one_based_positions_match_zero_based(
    one: Args,
    zero: Args,
    o: ReadOptions,
    cols: Seq<ColumnV>,
)
    requires
        agree_apart_from_positions(one, zero),
        one.number matches Some(n) && n > 0 && zero.number is None && zero.index == n - 1,
        one.top matches Some(t) && t > 0 && zero.top is None && zero.header_index == Some((t - 1) as u32),
        one.body_start matches Some(b) && b > 0 && zero.body_start is None && zero.body_index == Some(
            (b - 1) as u32,
        ),
    ensures
        args_columns(one) == args_columns(zero),
        options_of(o, one, cols) <==> options_of(o, zero, cols),
{
}


/// `--keys` entries are read one by one, each on its own: the overrides of two runs of
/// entries one after the other are those of the first followed by those of the second,
/// and the first refused entry decides the error.
pub proof fn law_key_entries_are_read_independently(xs: Seq<Seq<char>>, ys: Seq<Seq<char>>)
    ensures
        columns_of_entries(xs + ys) == match columns_of_entries(xs) {
            Err(m) => Err(m),
            Ok(a) => match columns_of_entries(ys) {
                Err(m) => Err(m),
                Ok(b) => Ok(a + b),
            },
        },
    decreases ys.len(),
{
    if ys.len() == 0 {
        assert(xs + ys =~= xs);
        if let Ok(a) = columns_of_entries(xs) {
            assert(a + Seq::<ColumnV>::empty() =~= a);
        }
    } else {
        law_key_entries_are_read_independently(xs, ys.drop_last());
        assert((xs + ys).drop_last() =~= xs + ys.drop_last());
        assert((xs + ys).last() == ys.last());
        if let (Ok(a), Ok(b)) = (columns_of_entries(xs), columns_of_entries(ys.drop_last())) {
            if let Ok(Some(c)) = column_of_entry(ys.last()) {
                assert((a + b).push(c) =~= a + b.push(c));
            }
        }
    }
}

/// A `--colstyle` style without a `:mode` applies to every column, exactly as the same
/// style with `:all` does, for every non-empty style without a `:` of its own.
pub proof fn law_colstyle_without_mode_means_all(style: Seq<char>)
    requires
        style.len() > 0,
        !style.contains(':'),
    ensures
        colstyle_field_style(Some(style)) == colstyle_field_style(Some(style + ":all"@)),
{
    reveal_strlit(":all");
    reveal_strlit("all");
    let all = "all"@;
    assert(is_ascii_text(all));
    let s0 = Seq::<char>::empty();
    let s1 = seq!['a'];
    let s2 = seq!['a', 'l'];
    assert(ascii_alnum_lower(s0) == s0);
    assert(s1.drop_last() =~= s0 && s1.last() == 'a' && ascii_alphanumeric('a') && ascii_lower('a') == 'a');
    assert(ascii_alnum_lower(s1) =~= s1);
    assert(s2.drop_last() =~= s1 && s2.last() == 'l' && ascii_alphanumeric('l') && ascii_lower('l') == 'l');
    assert(ascii_alnum_lower(s2) =~= s2);
    assert(all.drop_last() =~= s2 && all.last() == 'l');
    assert(ascii_alnum_lower(all) =~= all);
    assert(ascii_alnum_lower(all).take(all.len() as int) =~= all);
    assert(starts_with_ci_alnum_of(all, all));
    let with = style + ":all"@;
    crate::key_pattern::lemma_first_index(with, ':');
    crate::key_pattern::lemma_first_index(style, ':');
    assert(with.skip(0) =~= with);
    assert(style.skip(0) =~= style);
    assert(with[style.len() as int] == ':');
    assert forall|k: int| 0 <= k < style.len() implies with[k] != ':' by {
        assert(with[k] == style[k]);
    }
    assert(with.take(style.len() as int) =~= style);
    assert(with.skip(style.len() as int + 1) =~= "all"@);
    assert(head_tail_of(style, ':') == (style, None::<Seq<char>>));
}

/// `--max` is the cap on rows read: outside preview mode the options read at most the
/// rows `--max` gives, and every row where it is not given; in preview mode every sheet
/// is capped, at `--max` where given and at ten rows otherwise.
pub proof fn law_max_is_the_row_cap(o: ReadOptions, args: Args, cols: Seq<ColumnV>)
    requires
        options_of(o, args, cols),
    ensures
        !args.preview ==> o.max == args.max,
        args.preview && args.max is Some ==> o.max == args.max,
        args.preview && args.max is None ==> o.max == Some(10u32),
{
}

/// How the flags shape a read. `--preview` samples every sheet, else `--deferred`
/// streams rows to a file, else one sheet is read at once; rows come as JSON Lines with
/// `--lines` or when streamed. The row-wide date form is, in this order of precedence,
/// date only, time only, hours and minutes, simple, else full. The sheet read is
/// `--number` less one where given, else `--index`; the header row is `--top` less one,
/// else `--header-index`, else found by the reader; the first data row likewise from
/// `--body-start` and `--body-index` (the 1-based options are never 0 in options that a
/// read accepts). `--omit-header` and the decimal comma pass through.
pub proof fn law_read_follows_the_flags(o: ReadOptions, args: Args, cols: Seq<ColumnV>)
    requires
        options_of(o, args, cols),
    ensures
        args.preview ==> o.read_mode == ReadKind::PreviewMultiple,
        !args.preview && args.deferred ==> o.read_mode == ReadKind::Async,
        !args.preview && !args.deferred ==> o.read_mode == ReadKind::Sync,
        o.jsonl <==> (args.lines || (!args.preview && args.deferred)),
        args.date_only ==> o.datetime_mode == DateMode::DateOnly,
        !args.date_only && args.time_only ==> o.datetime_mode == DateMode::TimeOnly,
        !args.date_only && !args.time_only && args.hm_only ==> o.datetime_mode == DateMode::HmOnly,
        !args.date_only && !args.time_only && !args.hm_only && args.simple ==> o.datetime_mode == DateMode::Simple,
        !args.date_only && !args.time_only && !args.hm_only && !args.simple ==> o.datetime_mode == DateMode::Full,
        o.indices@.len() == 1,
        args.number matches Some(n) ==> (n > 0 ==> o.indices@[0] == n - 1),
        args.number is None ==> o.indices@[0] == args.index,
        args.top matches Some(t) ==> (t > 0 ==> o.header_row == Some((t - 1) as usize)),
        args.top is None ==> (args.header_index matches Some(h) ==> o.header_row == Some(h as usize)),
        args.top is None && args.header_index is None ==> o.header_row is None,
        args.body_start matches Some(b) ==> (b > 0 ==> o.data_row_index == Some((b - 1) as usize)),
        args.body_start is None ==> (args.body_index matches Some(h) ==> o.data_row_index == Some(h as usize)),
        args.body_start is None && args.body_index is None ==> o.data_row_index is None,
        o.detect_header,
        o.omit_header == args.omit_header,
        o.decimal_comma == args.euro_number_format,
{
}

/// Appending text without the separator only lengthens the last piece.
proof fn lemma_split_on_append(a: Seq<char>, b: Seq<char>, c: char)
    requires
        !b.contains(c),
    ensures
        ({
            let i = split_on(a, c);
            split_on(a + b, c) == i.update(i.len() - 1, i.last() + b)
        }),
    decreases b.len(),
{
    crate::filter_pattern::lemma_split_on_nonempty(a, c);
    let i = split_on(a, c);
    if b.len() == 0 {
        assert(a + b =~= a);
        assert(i.last() + b =~= i.last());
        assert(i.update(i.len() - 1, i.last() + b) =~= i);
    } else {
        let b0 = b.drop_last();
        assert(!b0.contains(c)) by {
            assert forall|k: int| 0 <= k < b0.len() implies b0[k] != c by {
                assert(b[k] == b0[k]);
            }
        }
        assert(b.contains(b.last()));
        lemma_split_on_append(a, b0, c);
        assert((a + b).drop_last() =~= a + b0);
        assert((a + b).last() == b.last());
        assert((i.last() + b0).push(b.last()) =~= i.last() + b);
        assert(split_on(a + b, c) =~= i.update(i.len() - 1, i.last() + b));
    }
}

/// Text without the separator is a single piece.
pub proof fn lemma_split_on_whole(s: Seq<char>, c: char)
    requires
        !s.contains(c),
    ensures
        split_on(s, c) == seq![s],
{
    lemma_split_on_append(Seq::empty(), s, c);
    assert(Seq::<char>::empty() + s =~= s);
    assert(split_on(Seq::<char>::empty(), c) == seq![Seq::<char>::empty()]);
    assert(seq![Seq::<char>::empty()].update(0, Seq::<char>::empty() + s) =~= seq![s]);
}

/// Two texts without the separator, joined by it, are its two pieces.
proof fn lemma_split_on_two(a: Seq<char>, b: Seq<char>, c: char)
    requires
        !a.contains(c),
        !b.contains(c),
    ensures
        split_on(a + seq![c] + b, c) == seq![a, b],
{
    lemma_split_on_whole(a, c);
    let ac = a + seq![c];
    assert(ac.drop_last() =~= a && ac.last() == c);
    assert(split_on(ac, c) =~= seq![a, Seq::<char>::empty()]);
    lemma_split_on_append(ac, b, c);
    assert(seq![a, Seq::<char>::empty()].update(1, Seq::<char>::empty() + b) =~= seq![a, b]);
}

/// A `--keys` entry `source:new` renames the column `source`, snake_cased, to `new`,
/// trimmed and snake_cased, with the automatic format and no default. An empty new key
/// keeps the column's own name, and a source that snake_cases to nothing stands for no
/// column at all. This holds for every source and new key without `:` or `|`.
pub proof fn law_rename_entry(source: Seq<char>, new_key: Seq<char>)
    requires
        !source.contains(':') && !source.contains('|'),
        !new_key.contains(':') && !new_key.contains('|'),
    ensures
        column_of_entry(source + seq![':'] + new_key) == if snake_case(source).len() == 0 {
            Ok::<Option<ColumnV>, Seq<char>>(None)
        } else {
            Ok(
                Some(
                    ColumnV {
                        source_key: snake_case(source),
                        key: if trim_ws(new_key).len() > 0 {
                            Some(KeyPathV::Simple(snake_case(trim_ws(new_key))))
                        } else {
                            None
                        },
                        format: None,
                        default: None,
                    },
                ),
            )
        },
{
    let e = source + seq![':'] + new_key;
    assert(!e.contains('|')) by {
        assert forall|k: int| 0 <= k < e.len() implies e[k] != '|' by {
            if k < source.len() {
                assert(e[k] == source[k]);
            } else if k > source.len() {
                assert(e[k] == new_key[k - source.len() - 1]);
            }
        }
    }
    lemma_split_on_whole(e, '|');
    lemma_split_on_two(source, new_key, ':');
}

/// A `--keys` entry `source|format|default` keeps the column's name and gives it the
/// format that the second part names and the default that the third part holds, read as
/// that format's kind asks (an integer, a truthy value, or the text itself); an empty
/// default part gives none. This holds for every source, format and default without `|`
/// and a source without `:`.
pub proof fn law_format_and_default_entry(source: Seq<char>, format: Seq<char>, default: Seq<char>)
    requires
        !source.contains(':') && !source.contains('|'),
        !format.contains('|'),
        !default.contains('|'),
        snake_case(source).len() > 0,
    ensures
        ({
            let e = source + seq!['|'] + format + seq!['|'] + default;
            column_of_entry(e) == match (if default.len() > 0 {
                default_of(e, default, format_kind_of(format))
            } else {
                Ok(None)
            }) {
                Err(m) => Err(m),
                Ok(d) => Ok(
                    Some(
                        ColumnV {
                            source_key: snake_case(source),
                            key: None,
                            format: Some(parsed_format(format)),
                            default: d,
                        },
                    ),
                ),
            }
        }),
{
    let sf = source + seq!['|'] + format;
    let e = sf + seq!['|'] + default;
    lemma_split_on_two(source, format, '|');
    lemma_split_on_append(sf + seq!['|'], default, '|');
    assert((sf + seq!['|']).drop_last() =~= sf && (sf + seq!['|']).last() == '|');
    assert(split_on(sf + seq!['|'], '|') =~= seq![source, format, Seq::<char>::empty()]);
    assert(seq![source, format, Seq::<char>::empty()].update(2, Seq::<char>::empty() + default) =~= seq![
        source,
        format,
        default,
    ]);
    assert(split_on(e, '|') == seq![source, format, default]);
    lemma_split_on_whole(source, ':');
}

} // verus!
