//! Parses the placeholder-capture `--keys` patterns on top of plain exact-match column
//! overrides:
//!
//! - `file_[n]:files[]` -- sequential columns into a plain array
//! - `sales_{region}:sales.{region}` -- columns into a dynamic-keyed object
//! - `sales_[year]:sales[].{year}{amount}` -- columns into an array of `{year, amount}`
//!   items
//!
//! `[name]`/`{name}` in the *source* pattern is a capture: `[]` types it as an integer,
//! `{}` as a string. `download_*` and `download_[]` are shorthands for an anonymous
//! capture that is never referenced. On the *target* side, a `{name}` matching the
//! capture's own name binds the captured value; any other `{name}` is the leaf, the field
//! the cell's own value lands under.
//!
//! Also resolves `--keys '-identifier'` column suppression against the real column keys.
use vstd::prelude::*;
use crate::text::{
    chars_of, string_of, copy_string, to_lowercase, lower_text, chars_eq_ignore_ascii_case,
    eq_ignore_ascii_case, parse_usize_at, parse_usize, parse_i64_at, parse_i64, i64_to_string,
    int_decimal, str_equal,
};
use crate::filter_pattern::{split_on, split_chars, strings_view};
use enclose_strings::SimpleExtract;
use spreadsheet_to_json::Format;

verus! {

broadcast use vstd::string::group_string_axioms;

// ---------------------------------------------------------------------------
// Column overrides
// ---------------------------------------------------------------------------

#[verifier::external_type_specification]
#[verifier::external_body]
pub struct ExFormat(Format);

/// Trusted: `Format` derives `Clone`, which copies every field (the `Arc`s inside share
/// their contents), so the copy equals `f`.
#[verifier::external_body]
pub fn clone_format(f: &Format) -> (r: Format)
    ensures
        r == *f,
{
    f.clone()
}

/// The value a captured column is identified by within its array item: a string, or an
/// integer when the capture was typed with `[]`.
#[derive(Debug, Clone, PartialEq, Eq)]
pub enum CaptureId {
    Text(String),
    Integer(i64),
}

pub enum CaptureIdV {
    Text(Seq<char>),
    Integer(i64),
}

impl View for CaptureId {
    type V = CaptureIdV;

    open spec fn view(&self) -> CaptureIdV {
        match self {
            CaptureId::Text(s) => CaptureIdV::Text(s@),
            CaptureId::Integer(n) => CaptureIdV::Integer(*n),
        }
    }
}

/// How an identifier is written: a string as itself, an integer in decimal.
pub open spec fn capture_id_text(id: CaptureIdV) -> Seq<char> {
    match id {
        CaptureIdV::Text(s) => s,
        CaptureIdV::Integer(n) => int_decimal(n as int),
    }
}

/// Where a column's value lands in the output row.
#[derive(Debug)]
pub enum KeyPath {
    /// The column is left out of the output.
    Excluded,
    /// A plain field under this key.
    Simple(String),
    /// Into the nested object under this key, then the rest of the path.
    Object(String, Box<KeyPath>),
    /// Into the item of the named array whose `key_field` is the identifier, then the
    /// rest of the path inside that item.
    Array(String, CaptureId, String, Box<KeyPath>),
    /// A field holding the identifier on the current item, then the rest of the path.
    InnerObject(CaptureId, String, Box<KeyPath>),
    /// Appended as a bare value to the named array.
    PlainArray(String),
}

pub enum KeyPathV {
    Excluded,
    Simple(Seq<char>),
    Object(Seq<char>, Box<KeyPathV>),
    Array(Seq<char>, CaptureIdV, Seq<char>, Box<KeyPathV>),
    InnerObject(CaptureIdV, Seq<char>, Box<KeyPathV>),
    PlainArray(Seq<char>),
}

impl KeyPath {
    pub open spec fn model(self) -> KeyPathV
        decreases self,
    {
        match self {
            KeyPath::Excluded => KeyPathV::Excluded,
            KeyPath::Simple(s) => KeyPathV::Simple(s@),
            KeyPath::Object(k, next) => KeyPathV::Object(k@, Box::new((*next).model())),
            KeyPath::Array(c, id, f, next) => KeyPathV::Array(c@, id@, f@, Box::new((*next).model())),
            KeyPath::InnerObject(id, f, next) => KeyPathV::InnerObject(id@, f@, Box::new((*next).model())),
            KeyPath::PlainArray(c) => KeyPathV::PlainArray(c@),
        }
    }
}

pub open spec fn opt_key_model(k: Option<KeyPath>) -> Option<KeyPathV> {
    match k {
        Some(k) => Some(k.model()),
        None => None,
    }
}

/// A default value for an overridden column.
#[derive(Debug, Clone, PartialEq, Eq)]
pub enum DefaultValue {
    /// An integer default, within the range a JSON number holds.
    Integer(i128),
    Boolean(bool),
    Text(String),
}

/// One column override, matched against a column's natural (snake_cased) header key.
/// A `format` of `None` is the automatic interpretation.
#[derive(Debug)]
pub struct ColumnSpec {
    pub source_key: String,
    pub key: Option<KeyPath>,
    pub format: Option<Format>,
    pub default: Option<DefaultValue>,
}

// ---------------------------------------------------------------------------
// Source patterns
// ---------------------------------------------------------------------------

/// The content of the first `[...]` group of `s` as `enclose-strings` reads it.
pub uninterp spec fn first_bracket_group(s: Seq<char>) -> Option<Seq<char>>;

/// The content of the first `{...}` group of `s` as `enclose-strings` reads it.
pub uninterp spec fn first_brace_group(s: Seq<char>) -> Option<Seq<char>>;

/// The plain case of reading the first group opened by `open`: where `close` follows
/// the first `open` and no `\` stands between them, the text between them.
pub open spec fn plain_first_group(s: Seq<char>, open: char, close: char) -> Option<Seq<char>> {
    match first_index(s, open) {
        Some(i) => {
            let t = s.skip(i + 1);
            match first_index(t, close) {
                Some(j) => if !t.take(j).contains('\\') {
                    Some(t.take(j))
                } else {
                    None
                },
                None => None,
            }
        },
        None => None,
    }
}

/// The content of the first `[...]` group of `s`: the text between the first `[` and
/// the next `]` in the plain case, else as `enclose-strings` reads it.
pub open spec fn bracket_group(s: Seq<char>) -> Option<Seq<char>> {
    match plain_first_group(s, '[', ']') {
        Some(g) => Some(g),
        None => first_bracket_group(s),
    }
}

/// The content of the first `{...}` group of `s`: the text between the first `{` and
/// the next `}` in the plain case, else as `enclose-strings` reads it.
pub open spec fn brace_group(s: Seq<char>) -> Option<Seq<char>> {
    match plain_first_group(s, '{', '}') {
        Some(g) => Some(g),
        None => first_brace_group(s),
    }
}

/// Trusted: calls `SimpleExtract::extract_from_brackets` of `enclose-strings`, which scans
/// with `\` as the escape character and no quoted regions or nesting. Its source reads
/// the first group as `bracket_group` gives it: from the first `[`, everything up to the
/// next `]` when no `\` comes before it (a `\` only drops itself before a `[` or `]`).
/// What it gives when a `\` does come first depends on `s` alone and is not stated.
#[verifier::external_body]
fn extract_from_brackets(s: &str) -> (r: Option<String>)
    ensures
        match plain_first_group(s@, '[', ']') {
            Some(g) => r matches Some(x) && x@ == g,
            None => match r {
                Some(x) => first_bracket_group(s@) == Some(x@),
                None => first_bracket_group(s@) is None,
            },
        },
{
    s.extract_from_brackets()
}

/// Trusted: calls `SimpleExtract::extract_from_braces` of `enclose-strings`, which scans
/// with `\` as the escape character and no quoted regions or nesting. Its source reads
/// the first group as `brace_group` gives it: from the first `{`, everything up to the
/// next `}` when no `\` comes before it (a `\` only drops itself before a `{` or `}`).
/// What it gives when a `\` does come first depends on `s` alone and is not stated.
#[verifier::external_body]
fn extract_from_braces(s: &str) -> (r: Option<String>)
    ensures
        match plain_first_group(s@, '{', '}') {
            Some(g) => r matches Some(x) && x@ == g,
            None => match r {
                Some(x) => first_brace_group(s@) == Some(x@),
                None => first_brace_group(s@) is None,
            },
        },
{
    s.extract_from_braces()
}

/// The name given to a capture that is never referenced (`*`, `[]`).
pub open spec fn anonymous_capture() -> Seq<char> {
    "*"@
}

/// A parsed source pattern: the column-key prefix, the capture's name, and whether the
/// capture is typed as an integer (`[name]`) rather than a string.
pub struct SourcePattern {
    pub prefix: String,
    pub capture_name: String,
    pub capture_is_int: bool,
}

pub struct SourcePatternV {
    pub prefix: Seq<char>,
    pub capture_name: Seq<char>,
    pub capture_is_int: bool,
}

impl View for SourcePattern {
    type V = SourcePatternV;

    open spec fn view(&self) -> SourcePatternV {
        SourcePatternV { prefix: self.prefix@, capture_name: self.capture_name@, capture_is_int: self.capture_is_int }
    }
}

/// The position of the first `c` in `s`.
pub open spec fn first_index(s: Seq<char>, c: char) -> Option<int>
    decreases s.len(),
{
    if s.len() == 0 {
        None
    } else if s[0] == c {
        Some(0)
    } else {
        match first_index(s.drop_first(), c) {
            Some(i) => Some(i + 1),
            None => None,
        }
    }
}

/// The pattern that a `--keys` source key stands for, read from its lowercase form:
/// `prefix*`, `prefix[]` (anonymous), `prefix[name]` (integer capture) or
/// `prefix{name}` (string capture). A source without a capture, or with nothing before
/// its `*`, `[` or `{`, is no pattern: an empty prefix would match every column.
pub open spec fn source_pattern(source: Seq<char>) -> Option<SourcePatternV> {
    let lower = lower_text(source);
    if lower.len() > 1 && lower.last() == '*' {
        Some(SourcePatternV { prefix: lower.drop_last(), capture_name: anonymous_capture(), capture_is_int: false })
    } else if lower.len() > 0 && lower.last() == ']' && first_index(lower, '[') is Some {
        let open = first_index(lower, '[')->0;
        if open == 0 {
            None
        } else {
            match bracket_group(lower) {
                Some(name) => if name.len() == 0 {
                    Some(SourcePatternV { prefix: lower.take(open), capture_name: anonymous_capture(), capture_is_int: false })
                } else {
                    Some(SourcePatternV { prefix: lower.take(open), capture_name: name, capture_is_int: true })
                },
                None => None,
            }
        }
    } else if lower.len() > 0 && lower.last() == '}' && first_index(lower, '{') is Some {
        let open = first_index(lower, '{')->0;
        if open == 0 {
            None
        } else {
            match brace_group(lower) {
                Some(name) => if name.len() > 0 {
                    Some(SourcePatternV { prefix: lower.take(open), capture_name: name, capture_is_int: false })
                } else {
                    None
                },
                None => None,
            }
        }
    } else {
        None
    }
}

pub proof fn lemma_first_index(s: Seq<char>, c: char)
    ensures
        match first_index(s, c) {
            Some(i) => 0 <= i < s.len() && s[i] == c && forall|k: int| 0 <= k < i ==> s[k] != c,
            None => forall|k: int| 0 <= k < s.len() ==> s[k] != c,
        },
    decreases s.len(),
{
    if s.len() > 0 {
        lemma_first_index(s.drop_first(), c);
        if s[0] != c {
            assert forall|k: int| 1 <= k < s.len() implies s[k] == s.drop_first()[k - 1] by {}
        }
    }
}

fn first_index_of(cs: &Vec<char>, c: char) -> (r: Option<usize>)
    ensures
        match first_index(cs@, c) {
            Some(i) => r == Some(i as usize),
            None => r is None,
        },
{
    proof {
        lemma_first_index(cs@, c);
    }
    let mut i: usize = 0;
    assert(cs@.skip(0) =~= cs@);
    while i < cs.len()
        invariant
            0 <= i <= cs.len(),
            forall|k: int| 0 <= k < i ==> cs@[k] != c,
            first_index(cs@, c) == match first_index(cs@.skip(i as int), c) {
                Some(j) => Some(j + i),
                None => None::<int>,
            },
        decreases cs.len() - i,
    {
        if cs[i] == c {
            return Some(i);
        }
        assert(cs@.skip(i as int).drop_first() =~= cs@.skip(i + 1));
        i += 1;
    }
    None
}

/// Reads the source side of a `--keys` entry, as `source_pattern` describes.
pub fn parse_source_pattern(source: &str) -> (r: Option<SourcePattern>)
    ensures
        match source_pattern(source@) {
            Some(p) => r matches Some(x) && x@ == p,
            None => r is None,
        },
{
    let lower = to_lowercase(source);
    let cs = chars_of(lower.as_str());
    let n = cs.len();
    proof {
        lemma_first_index(cs@, '[');
        lemma_first_index(cs@, '{');
    }
    if n > 1 && cs[n - 1] == '*' {
        return Some(SourcePattern {
            prefix: string_of(&cs, 0, n - 1),
            capture_name: String::from_str("*"),
            capture_is_int: false,
        });
    }
    if n > 0 && cs[n - 1] == ']' {
        if let Some(open) = first_index_of(&cs, '[') {
            if open == 0 {
                return None;
            }
            let name = match extract_from_brackets(lower.as_str()) {
                Some(name) => name,
                None => {
                    return None;
                },
            };
            let (capture_name, capture_is_int) = if chars_of(name.as_str()).len() == 0 {
                (String::from_str("*"), false)
            } else {
                (name, true)
            };
            return Some(SourcePattern { prefix: string_of(&cs, 0, open), capture_name, capture_is_int });
        }
    }
    if n > 0 && cs[n - 1] == '}' {
        if let Some(open) = first_index_of(&cs, '{') {
            if open == 0 {
                return None;
            }
            let name = match extract_from_braces(lower.as_str()) {
                Some(name) => name,
                None => {
                    return None;
                },
            };
            if chars_of(name.as_str()).len() == 0 {
                return None;
            }
            return Some(SourcePattern { prefix: string_of(&cs, 0, open), capture_name: name, capture_is_int: false });
        }
    }
    None
}

// ---------------------------------------------------------------------------
// Target specs
// ---------------------------------------------------------------------------

/// How many bytes UTF-8 takes for `c`.
pub open spec fn utf8_width(c: char) -> nat {
    if (c as int) < 0x80 {
        1
    } else if (c as int) < 0x800 {
        2
    } else if (c as int) < 0x10000 {
        3
    } else {
        4
    }
}

/// How many bytes UTF-8 takes for `s`.
pub open spec fn utf8_len(s: Seq<char>) -> nat
    decreases s.len(),
{
    if s.len() == 0 {
        0
    } else {
        utf8_len(s.drop_last()) + utf8_width(s.last())
    }
}

/// The index of the character that starts at byte `b` of `s` (`s.len()` for the end), or
/// `None` when byte `b` falls inside a character or past the end.
pub open spec fn char_at_byte(s: Seq<char>, b: int) -> Option<int>
    decreases s.len(),
{
    if b == 0 {
        Some(0)
    } else if s.len() == 0 || b < 0 || b < utf8_width(s[0]) {
        None
    } else {
        match char_at_byte(s.drop_first(), b - utf8_width(s[0])) {
            Some(i) => Some(i + 1),
            None => None,
        }
    }
}

/// The outcome of reading a run of adjacent `{name}` groups: the names; no match; or a
/// byte position, computed from a group's length in bytes, that falls inside a character
/// (where slicing the string there panics).
pub enum BraceScanV {
    Groups(Seq<Seq<char>>),
    NoMatch,
    SplitsChar,
}

/// Reads `seg` as a run of adjacent non-empty `{name}` groups, each found by
/// `enclose-strings` and skipped by its content's byte length plus two.
pub open spec fn brace_scan(seg: Seq<char>) -> BraceScanV
    decreases seg.len(),
{
    if seg.len() == 0 {
        BraceScanV::Groups(Seq::empty())
    } else if seg[0] != '{' {
        BraceScanV::NoMatch
    } else {
        match brace_group(seg) {
            Some(c) => if c.len() == 0 {
                BraceScanV::NoMatch
            } else if utf8_len(c) + 2 > utf8_len(seg) {
                BraceScanV::NoMatch
            } else {
                match char_at_byte(seg, (utf8_len(c) + 2) as int) {
                    Some(j) => if 0 < j <= seg.len() {
                        match brace_scan(seg.skip(j)) {
                            BraceScanV::Groups(g) => BraceScanV::Groups(seq![c] + g),
                            other => other,
                        }
                    } else {
                        BraceScanV::NoMatch
                    },
                    None => BraceScanV::SplitsChar,
                }
            },
            None => BraceScanV::NoMatch,
        }
    }
}

/// One `.`-separated segment of a target spec.
#[derive(Debug)]
pub enum TargetToken {
    /// A literal key: descend into (or create) a nested object under it.
    Literal(String),
    /// `name[]`: opens an array.
    ArrayOpen(String),
    /// One or more adjacent `{name}` groups.
    Braces(Vec<String>),
}

pub enum TargetTokV {
    Literal(Seq<char>),
    ArrayOpen(Seq<char>),
    Braces(Seq<Seq<char>>),
}

impl View for TargetToken {
    type V = TargetTokV;

    open spec fn view(&self) -> TargetTokV {
        match self {
            TargetToken::Literal(s) => TargetTokV::Literal(s@),
            TargetToken::ArrayOpen(s) => TargetTokV::ArrayOpen(s@),
            TargetToken::Braces(v) => TargetTokV::Braces(strings_view(v@)),
        }
    }
}

pub open spec fn target_toks_view(v: Seq<TargetToken>) -> Seq<TargetTokV> {
    v.map_values(|t: TargetToken| t@)
}

pub open spec fn is_array_open(seg: Seq<char>) -> bool {
    seg.len() > 2 && seg[seg.len() - 2] == '[' && seg[seg.len() - 1] == ']'
}

/// What one target segment stands for: `name[]` (non-empty name) opens an array; a
/// segment starting with `{` must be a run of brace groups; anything else non-empty is a
/// literal key.
pub open spec fn target_segment(seg: Seq<char>) -> Option<TargetTokV> {
    if is_array_open(seg) {
        Some(TargetTokV::ArrayOpen(seg.take(seg.len() - 2)))
    } else if seg.len() > 0 && seg[0] == '{' {
        match brace_scan(seg) {
            BraceScanV::Groups(g) => if g.len() > 0 {
                Some(TargetTokV::Braces(g))
            } else {
                None
            },
            _ => None,
        }
    } else if seg.len() > 0 {
        Some(TargetTokV::Literal(seg))
    } else {
        None
    }
}

/// Whether reading `seg` slices a string inside a character (where the reading panics).
pub open spec fn segment_splits_char(seg: Seq<char>) -> bool {
    !is_array_open(seg) && seg.len() > 0 && seg[0] == '{' && brace_scan(seg) is SplitsChar
}

/// The segments read in order; `None` at the first one that is refused.
pub open spec fn segments_tokens(ps: Seq<Seq<char>>) -> Option<Seq<TargetTokV>>
    decreases ps.len(),
{
    if ps.len() == 0 {
        Some(Seq::empty())
    } else {
        match target_segment(ps[0]) {
            Some(t) => match segments_tokens(ps.drop_first()) {
                Some(ts) => Some(seq![t] + ts),
                None => None,
            },
            None => None,
        }
    }
}

/// Whether reading the segments in order reaches one that splits a character.
pub open spec fn segments_split_char(ps: Seq<Seq<char>>) -> bool
    decreases ps.len(),
{
    ps.len() > 0 && (segment_splits_char(ps[0]) || (target_segment(ps[0]) is Some
        && segments_split_char(ps.drop_first())))
}

/// The tokens of a whole target spec, split on `.`.
pub open spec fn target_tokens(target: Seq<char>) -> Option<Seq<TargetTokV>> {
    segments_tokens(split_on(target, '.'))
}

pub open spec fn target_splits_char(target: Seq<char>) -> bool {
    segments_split_char(split_on(target, '.'))
}

fn utf8_width_of(c: char) -> (w: u128)
    ensures
        w == utf8_width(c),
{
    let code: u32 = c as u32;
    if code < 0x80 {
        1
    } else if code < 0x800 {
        2
    } else if code < 0x10000 {
        3
    } else {
        4
    }
}

/// `utf8_len(cs[from..to])`.
fn utf8_len_of(cs: &Vec<char>, from: usize, to: usize) -> (n: u128)
    requires
        from <= to <= cs.len(),
    ensures
        n == utf8_len(cs@.subrange(from as int, to as int)),
        n <= 4 * (to - from),
{
    let mut n: u128 = 0;
    let mut i: usize = from;
    while i < to
        invariant
            from <= i <= to <= cs.len(),
            n == utf8_len(cs@.subrange(from as int, i as int)),
            n <= 4 * (i - from),
        decreases to - i,
    {
        assert(cs@.subrange(from as int, i + 1).drop_last() =~= cs@.subrange(from as int, i as int));
        n = n + utf8_width_of(cs[i]);
        i += 1;
    }
    n
}

/// `char_at_byte(cs[from..to], b)`, as an index into `cs[from..to]`.
fn char_at_byte_of(cs: &Vec<char>, from: usize, to: usize, b: u128) -> (r: Option<usize>)
    requires
        from <= to <= cs.len(),
    ensures
        match char_at_byte(cs@.subrange(from as int, to as int), b as int) {
            Some(j) => r == Some(j as usize) && 0 <= j <= to - from,
            None => r is None,
        },
{
    let ghost s = cs@.subrange(from as int, to as int);
    let mut i: usize = from;
    let mut left: u128 = b;
    assert(s.skip(0) =~= s);
    while left > 0
        invariant
            from <= i <= to <= cs.len(),
            s == cs@.subrange(from as int, to as int),
            char_at_byte(s, b as int) == match char_at_byte(s.skip(i - from), left as int) {
                Some(j) => Some(j + (i - from)),
                None => None::<int>,
            },
        decreases left,
    {
        if i == to {
            return None;
        }
        let w = utf8_width_of(cs[i]);
        if left < w {
            assert(s.skip(i - from)[0] == cs@[i as int]);
            return None;
        }
        assert(s.skip(i - from)[0] == cs@[i as int]);
        assert(s.skip(i - from).drop_first() =~= s.skip(i + 1 - from));
        left = left - w;
        i += 1;
    }
    Some(i - from)
}

/// The outcome of reading a run of `{name}` groups, as `brace_scan` describes.
pub enum BraceScan {
    Groups(Vec<String>),
    NoMatch,
    SplitsChar,
}

pub open spec fn prepend_groups(g: Seq<Seq<char>>, r: BraceScanV) -> BraceScanV {
    match r {
        BraceScanV::Groups(h) => BraceScanV::Groups(g + h),
        other => other,
    }
}

/// Reads `segment` as a run of adjacent `{name}` groups, reporting instead of slicing
/// where a computed byte position falls inside a character.
pub fn scan_brace_groups(segment: &str) -> (r: BraceScan)
    ensures
        match brace_scan(segment@) {
            BraceScanV::Groups(g) => r matches BraceScan::Groups(v) && strings_view(v@) == g,
            BraceScanV::NoMatch => r is NoMatch,
            BraceScanV::SplitsChar => r is SplitsChar,
        },
{
    let cs = chars_of(segment);
    let ghost seg = cs@;
    let n = cs.len();
    let mut groups: Vec<String> = Vec::new();
    let mut pos: usize = 0;
    proof {
        assert(seg.skip(0) =~= seg);
        assert(strings_view(groups@) =~= Seq::<Seq<char>>::empty());
        if let BraceScanV::Groups(h) = brace_scan(seg) {
            assert(Seq::<Seq<char>>::empty() + h =~= h);
        }
    }
    while pos < n
        invariant
            0 <= pos <= n == cs.len(),
            seg == cs@,
            seg == segment@,
            brace_scan(seg) == prepend_groups(strings_view(groups@), brace_scan(seg.skip(pos as int))),
        decreases n - pos,
    {
        let ghost rest = seg.skip(pos as int);
        assert(rest[0] == cs@[pos as int]);
        assert(rest.len() > 0);
        if cs[pos] != '{' {
            assert(brace_scan(rest) is NoMatch);
            return BraceScan::NoMatch;
        }
        let rest_string = string_of(&cs, pos, n);
        assert(rest_string@ =~= rest);
        let content = match extract_from_braces(rest_string.as_str()) {
            Some(c) => c,
            None => {
                return BraceScan::NoMatch;
            },
        };
        let content_chars = chars_of(content.as_str());
        if content_chars.len() == 0 {
            assert(brace_scan(rest) is NoMatch);
            return BraceScan::NoMatch;
        }
        assert(content_chars@.subrange(0, content_chars.len() as int) =~= content_chars@);
        let consumed = utf8_len_of(&content_chars, 0, content_chars.len()) + 2;
        assert(cs@.subrange(pos as int, n as int) =~= rest);
        let rest_bytes = utf8_len_of(&cs, pos, n);
        if consumed > rest_bytes {
            return BraceScan::NoMatch;
        }
        let j = match char_at_byte_of(&cs, pos, n, consumed) {
            Some(j) => j,
            None => {
                return BraceScan::SplitsChar;
            },
        };
        if j == 0 {
            return BraceScan::NoMatch;
        }
        proof {
            assert(j <= n - pos);
            assert(rest.len() == n - pos);
            assert(rest.skip(j as int) =~= seg.skip(pos + j));
            let g = strings_view(groups@);
            if let BraceScanV::Groups(h) = brace_scan(seg.skip(pos + j)) {
                assert(g + (seq![content@] + h) =~= g.push(content@) + h);
            }
            assert(strings_view(groups@.push(content)) =~= g.push(content@));
        }
        groups.push(content);
        pos = pos + j;
    }
    proof {
        assert(seg.skip(n as int) =~= Seq::<char>::empty());
        assert(strings_view(groups@) + Seq::<Seq<char>>::empty() =~= strings_view(groups@));
    }
    BraceScan::Groups(groups)
}

/// Reads a run of adjacent `{name}` groups, with no separator between them. `None` if
/// `segment` is not entirely made of non-empty groups.
pub fn parse_brace_groups(segment: &str) -> (r: Option<Vec<String>>)
    requires
        !(brace_scan(segment@) is SplitsChar),
    ensures
        match brace_scan(segment@) {
            BraceScanV::Groups(g) => if g.len() > 0 {
                r matches Some(v) && strings_view(v@) == g
            } else {
                r is None
            },
            _ => r is None,
        },
{
    match scan_brace_groups(segment) {
        BraceScan::Groups(g) => if g.len() > 0 {
            Some(g)
        } else {
            None
        },
        _ => None,
    }
}

/// Reads one `.`-separated target segment, as `target_segment` describes.
pub fn parse_target_segment(segment: &str) -> (r: Option<TargetToken>)
    requires
        !segment_splits_char(segment@),
    ensures
        match target_segment(segment@) {
            Some(t) => r matches Some(x) && x@ == t,
            None => r is None,
        },
{
    let cs = chars_of(segment);
    let n = cs.len();
    if n > 2 && cs[n - 2] == '[' && cs[n - 1] == ']' {
        return Some(TargetToken::ArrayOpen(string_of(&cs, 0, n - 2)));
    }
    if n > 0 && cs[0] == '{' {
        return match parse_brace_groups(segment) {
            Some(g) => Some(TargetToken::Braces(g)),
            None => None,
        };
    }
    if n > 0 {
        assert(cs@.subrange(0, n as int) =~= cs@);
        return Some(TargetToken::Literal(string_of(&cs, 0, n)));
    }
    None
}

/// Reads one target segment, first testing whether reading it would slice a string inside
/// a character: the `bool` is set, and no token given, where it would.
pub fn scan_target_segment(segment: &str) -> (r: (Option<TargetToken>, bool))
    ensures
        r.1 == segment_splits_char(segment@),
        !r.1 ==> match target_segment(segment@) {
            Some(t) => r.0 matches Some(x) && x@ == t,
            None => r.0 is None,
        },
        r.1 ==> r.0 is None,
{
    let cs = chars_of(segment);
    let n = cs.len();
    let array_open = n > 2 && cs[n - 2] == '[' && cs[n - 1] == ']';
    if !array_open && n > 0 && cs[0] == '{' {
        let splits = match scan_brace_groups(segment) {
            BraceScan::SplitsChar => true,
            _ => false,
        };
        if splits {
            return (None, true);
        }
    }
    (parse_target_segment(segment), false)
}

/// Whether reading the target spec `target` slices a string inside a character, as
/// `target_splits_char` describes.
pub fn target_splits_at_char(target: &str) -> (r: bool)
    ensures
        r == target_splits_char(target@),
{
    let cs = chars_of(target);
    let pieces = split_chars(&cs, '.');
    let ghost ps = split_on(target@, '.');
    let mut k: usize = 0;
    assert(ps.skip(0) =~= ps);
    while k < pieces.len()
        invariant
            0 <= k <= pieces.len(),
            strings_view(pieces@) == ps,
            ps == split_on(target@, '.'),
            segments_split_char(ps) == segments_split_char(ps.skip(k as int)),
        decreases pieces.len() - k,
    {
        let ghost tail = ps.skip(k as int);
        assert(tail[0] == pieces@[k as int]@);
        assert(tail.drop_first() =~= ps.skip(k + 1));
        let (t, splits) = scan_target_segment(pieces[k].as_str());
        if splits {
            return true;
        }
        if t.is_none() {
            return false;
        }
        k += 1;
    }
    false
}

/// Splits `target` on `.` and reads each segment. `None` if any segment is not one of
/// the recognised shapes.
pub fn parse_target_tokens(target: &str) -> (r: Option<Vec<TargetToken>>)
    requires
        !target_splits_char(target@),
    ensures
        match target_tokens(target@) {
            Some(ts) => r matches Some(v) && target_toks_view(v@) == ts,
            None => r is None,
        },
{
    let cs = chars_of(target);
    let pieces = split_chars(&cs, '.');
    let ghost ps = split_on(target@, '.');
    let mut tokens: Vec<TargetToken> = Vec::new();
    let mut k: usize = 0;
    proof {
        assert(ps.skip(0) =~= ps);
        assert(target_toks_view(tokens@) =~= Seq::<TargetTokV>::empty());
        if let Some(ts) = segments_tokens(ps) {
            assert(Seq::<TargetTokV>::empty() + ts =~= ts);
        }
    }
    while k < pieces.len()
        invariant
            0 <= k <= pieces.len(),
            strings_view(pieces@) == ps,
            ps == split_on(target@, '.'),
            !segments_split_char(ps.skip(k as int)),
            segments_tokens(ps) == match segments_tokens(ps.skip(k as int)) {
                Some(ts) => Some(target_toks_view(tokens@) + ts),
                None => None::<Seq<TargetTokV>>,
            },
        decreases pieces.len() - k,
    {
        let ghost tail = ps.skip(k as int);
        assert(tail[0] == pieces@[k as int]@);
        assert(tail.drop_first() =~= ps.skip(k + 1));
        match parse_target_segment(pieces[k].as_str()) {
            Some(t) => {
                proof {
                    let cur = target_toks_view(tokens@);
                    if let Some(ts) = segments_tokens(ps.skip(k + 1)) {
                        assert(cur + (seq![t@] + ts) =~= cur.push(t@) + ts);
                    }
                    assert(target_toks_view(tokens@.push(t)) =~= cur.push(t@));
                }
                tokens.push(t);
            },
            None => {
                return None;
            },
        }
        k += 1;
    }
    proof {
        assert(ps.skip(k as int) =~= Seq::<Seq<char>>::empty());
        assert(target_toks_view(tokens@) + Seq::<TargetTokV>::empty() =~= target_toks_view(tokens@));
    }
    Some(tokens)
}

// ---------------------------------------------------------------------------
// Building a key path for one matched column
// ---------------------------------------------------------------------------

/// The names inside an array item after its discriminator: each name equal to the
/// capture binds the identifier as an inner field; the first other name is the leaf and
/// must come last.
pub open spec fn inner_chain(names: Seq<Seq<char>>, capture: Seq<char>, id: CaptureIdV) -> Option<KeyPathV>
    decreases names.len(),
{
    if names.len() == 0 {
        None
    } else if names[0] == capture {
        match inner_chain(names.drop_first(), capture, id) {
            Some(next) => Some(KeyPathV::InnerObject(id, names[0], Box::new(next))),
            None => None,
        }
    } else if names.len() == 1 {
        Some(KeyPathV::Simple(names[0]))
    } else {
        None
    }
}

/// `container[].{capture}{...}`: the first name must be the capture, which identifies the
/// array item; the rest chain as `inner_chain` describes.
pub open spec fn array_with_braces(container: Seq<char>, names: Seq<Seq<char>>, capture: Seq<char>, id: CaptureIdV) -> Option<KeyPathV> {
    if names.len() == 0 || names[0] != capture {
        None
    } else {
        match inner_chain(names.drop_first(), capture, id) {
            Some(chain) => Some(KeyPathV::Array(container, id, names[0], Box::new(chain))),
            None => None,
        }
    }
}

/// The key path that the target tokens give one column whose capture is `id`: literals
/// nest objects; `name[]` alone is a plain array, `name[]` followed by one brace segment
/// an array of items; a lone `{capture}` at the end is a field named by the identifier.
pub open spec fn key_path_of(toks: Seq<TargetTokV>, capture: Seq<char>, id: CaptureIdV) -> Option<KeyPathV>
    decreases toks.len(),
{
    if toks.len() == 0 {
        None
    } else {
        match toks[0] {
            TargetTokV::Literal(name) => match key_path_of(toks.drop_first(), capture, id) {
                Some(next) => Some(KeyPathV::Object(name, Box::new(next))),
                None => None,
            },
            TargetTokV::ArrayOpen(name) => if toks.len() == 1 {
                Some(KeyPathV::PlainArray(name))
            } else {
                match toks[1] {
                    TargetTokV::Braces(names) => if toks.len() == 2 {
                        array_with_braces(name, names, capture, id)
                    } else {
                        None
                    },
                    _ => None,
                }
            },
            TargetTokV::Braces(names) => if toks.len() == 1 && names.len() == 1 && names[0] == capture {
                Some(KeyPathV::Simple(capture_id_text(id)))
            } else {
                None
            },
        }
    }
}

/// A copy of `id`.
pub fn copy_capture_id(id: &CaptureId) -> (r: CaptureId)
    ensures
        r@ == id@,
{
    match id {
        CaptureId::Text(s) => CaptureId::Text(copy_string(s)),
        CaptureId::Integer(n) => CaptureId::Integer(*n),
    }
}

/// The identifier written out, as `capture_id_text` describes.
pub fn capture_id_string(id: &CaptureId) -> (r: String)
    ensures
        r@ == capture_id_text(id@),
{
    match id {
        CaptureId::Text(s) => copy_string(s),
        CaptureId::Integer(n) => i64_to_string(*n),
    }
}

/// Builds the chain of `names[from..]` inside an array item, as `inner_chain` describes.
pub fn build_inner_object_chain(names: &Vec<String>, from: usize, capture_name: &str, capture_id: &CaptureId) -> (r: Option<KeyPath>)
    requires
        from <= names.len(),
    ensures
        opt_key_model(r) == inner_chain(strings_view(names@).skip(from as int), capture_name@, capture_id@),
    decreases names.len() - from,
{
    let ghost ns = strings_view(names@).skip(from as int);
    if from == names.len() {
        return None;
    }
    assert(ns[0] == names@[from as int]@);
    assert(ns.drop_first() =~= strings_view(names@).skip(from + 1));
    let name = &names[from];
    if str_equal(name.as_str(), capture_name) {
        match build_inner_object_chain(names, from + 1, capture_name, capture_id) {
            Some(next) => Some(KeyPath::InnerObject(copy_capture_id(capture_id), copy_string(name), Box::new(next))),
            None => None,
        }
    } else if from + 1 == names.len() {
        Some(KeyPath::Simple(copy_string(name)))
    } else {
        None
    }
}

/// Builds the path into the array `container` for the brace names `names`, as
/// `array_with_braces` describes.
pub fn build_array_with_braces(container: &str, names: &Vec<String>, capture_name: &str, capture_id: &CaptureId) -> (r: Option<KeyPath>)
    ensures
        opt_key_model(r) == array_with_braces(container@, strings_view(names@), capture_name@, capture_id@),
{
    if names.len() == 0 {
        return None;
    }
    let first = &names[0];
    assert(strings_view(names@)[0] == first@);
    if !str_equal(first.as_str(), capture_name) {
        return None;
    }
    assert(strings_view(names@).skip(1) =~= strings_view(names@).drop_first());
    match build_inner_object_chain(names, 1, capture_name, capture_id) {
        Some(chain) => Some(KeyPath::Array(
            String::from_str(container),
            copy_capture_id(capture_id),
            copy_string(first),
            Box::new(chain),
        )),
        None => None,
    }
}

/// Builds the key path that `tokens[from..]` give a column whose capture value is
/// `capture_id`, as `key_path_of` describes.
pub fn build_key_segment(tokens: &Vec<TargetToken>, from: usize, capture_name: &str, capture_id: &CaptureId) -> (r: Option<KeyPath>)
    requires
        from <= tokens.len(),
    ensures
        opt_key_model(r) == key_path_of(target_toks_view(tokens@).skip(from as int), capture_name@, capture_id@),
    decreases tokens.len() - from,
{
    let ghost ts = target_toks_view(tokens@).skip(from as int);
    if from == tokens.len() {
        return None;
    }
    assert(ts[0] == tokens@[from as int]@);
    assert(ts.drop_first() =~= target_toks_view(tokens@).skip(from + 1));
    match &tokens[from] {
        TargetToken::Literal(name) => {
            match build_key_segment(tokens, from + 1, capture_name, capture_id) {
                Some(next) => Some(KeyPath::Object(copy_string(name), Box::new(next))),
                None => None,
            }
        },
        TargetToken::ArrayOpen(name) => {
            if from + 1 == tokens.len() {
                return Some(KeyPath::PlainArray(copy_string(name)));
            }
            assert(ts[1] == tokens@[from + 1]@);
            match &tokens[from + 1] {
                TargetToken::Braces(names) => {
                    if from + 2 != tokens.len() {
                        return None;
                    }
                    build_array_with_braces(name.as_str(), names, capture_name, capture_id)
                },
                _ => None,
            }
        },
        TargetToken::Braces(names) => {
            if from + 1 != tokens.len() || names.len() != 1 {
                return None;
            }
            assert(strings_view(names@)[0] == names@[0]@);
            if str_equal(names[0].as_str(), capture_name) {
                Some(KeyPath::Simple(capture_id_string(capture_id)))
            } else {
                None
            }
        },
    }
}


/// Whether a column of the target spec is built at all does not depend on the value its
/// capture took: `inner_chain` succeeds for one identifier exactly when it does for any
/// other.
proof fn lemma_inner_chain_ignores_value(names: Seq<Seq<char>>, capture: Seq<char>, a: CaptureIdV, b: CaptureIdV)
    ensures
        inner_chain(names, capture, a) is Some <==> inner_chain(names, capture, b) is Some,
    decreases names.len(),
{
    if names.len() > 0 {
        lemma_inner_chain_ignores_value(names.drop_first(), capture, a, b);
    }
}

/// Whether a target spec yields a key path depends only on the spec and the capture's
/// name, never on the value that was captured: one check with any identifier settles it
/// for every column.
pub proof fn law_target_shape_ignores_captured_value(toks: Seq<TargetTokV>, capture: Seq<char>, a: CaptureIdV, b: CaptureIdV)
    ensures
        key_path_of(toks, capture, a) is Some <==> key_path_of(toks, capture, b) is Some,
    decreases toks.len(),
{
    if toks.len() > 0 {
        match toks[0] {
            TargetTokV::Literal(_) => {
                law_target_shape_ignores_captured_value(toks.drop_first(), capture, a, b);
            },
            TargetTokV::ArrayOpen(_) => {
                if toks.len() > 1 {
                    if let TargetTokV::Braces(names) = toks[1] {
                        if names.len() > 0 {
                            lemma_inner_chain_ignores_value(names.drop_first(), capture, a, b);
                        }
                    }
                }
            },
            TargetTokV::Braces(_) => {},
        }
    }
}

// ---------------------------------------------------------------------------
// Expanding a pattern entry against the real column keys
// ---------------------------------------------------------------------------

/// The identifier a target spec is checked with before any column is expanded.
pub open spec fn validation_id() -> CaptureIdV {
    CaptureIdV::Text("__validate__"@)
}

/// Whether a natural key is matched by a pattern with this prefix: it starts with the
/// prefix and has something after it.
pub open spec fn has_pattern_prefix(key: Seq<char>, prefix: Seq<char>) -> bool {
    prefix.len() < key.len() && key.take(prefix.len() as int) == prefix
}

/// The identifier that the rest of a matched key gives: its text, or for an integer
/// capture the `i64` it spells (0 where it spells none).
pub open spec fn captured_id(p: SourcePatternV, remainder: Seq<char>) -> CaptureIdV {
    if p.capture_is_int {
        CaptureIdV::Integer(
            match parse_i64(remainder) {
                Some(n) => n as i64,
                None => 0,
            },
        )
    } else {
        CaptureIdV::Text(remainder)
    }
}

/// The columns that a pattern expands to over `keys`, in their order: each matched key
/// with the key path built from what its capture took.
pub open spec fn expanded_columns(keys: Seq<Seq<char>>, p: SourcePatternV, toks: Seq<TargetTokV>) -> Seq<(Seq<char>, Option<KeyPathV>)>
    decreases keys.len(),
{
    if keys.len() == 0 {
        Seq::empty()
    } else {
        let rest = expanded_columns(keys.drop_last(), p, toks);
        let k = keys.last();
        if has_pattern_prefix(k, p.prefix) {
            rest.push((k, key_path_of(toks, p.capture_name, captured_id(p, k.skip(p.prefix.len() as int)))))
        } else {
            rest
        }
    }
}

/// Each column's source key and key path.
pub open spec fn column_entries(cols: Seq<ColumnSpec>) -> Seq<(Seq<char>, Option<KeyPathV>)> {
    cols.map_values(|c: ColumnSpec| (c.source_key@, opt_key_model(c.key)))
}

/// Whether `p` is a prefix of `a`.
fn has_prefix_chars(a: &Vec<char>, p: &Vec<char>) -> (r: bool)
    ensures
        r == (p.len() <= a.len() && a@.take(p.len() as int) == p@),
{
    if p.len() > a.len() {
        return false;
    }
    let mut i: usize = 0;
    while i < p.len()
        invariant
            p.len() <= a.len(),
            0 <= i <= p.len(),
            forall|k: int| 0 <= k < i ==> a@[k] == p@[k],
        decreases p.len() - i,
    {
        if a[i] != p[i] {
            assert(a@.take(p.len() as int)[i as int] != p@[i as int]);
            return false;
        }
        i += 1;
    }
    assert(a@.take(p.len() as int) =~= p@);
    true
}

/// The identifier an integer capture takes from `cs[from..to]`: the `i64` it spells, or 0.
fn integer_capture(cs: &Vec<char>, from: usize, to: usize) -> (r: CaptureId)
    requires
        from <= to <= cs.len(),
    ensures
        r@ == CaptureIdV::Integer(
            match parse_i64(cs@.subrange(from as int, to as int)) {
                Some(n) => n as i64,
                None => 0,
            },
        ),
{
    match parse_i64_at(cs, from, to) {
        Some(n) => CaptureId::Integer(n),
        None => CaptureId::Integer(0),
    }
}

/// Expands one placeholder `--keys` entry (`source` holding a capture) against the real
/// natural column keys: one column per key that starts with the pattern's prefix and has
/// something after it, with that key as its source and a concrete key path. `None` where
/// `source` holds no capture, where the target spec does not fit one of the supported
/// shapes, or where reading the target spec would slice a string inside a character.
pub fn expand_pattern_entry(source: &str, target: &str, format: &Format, natural_keys: &[String]) -> (r: Option<Vec<ColumnSpec>>)
    ensures
        match source_pattern(source@) {
            None => r is None,
            Some(p) => if target_splits_char(target@) {
                r is None
            } else {
                match target_tokens(target@) {
                    None => r is None,
                    Some(toks) => if key_path_of(toks, p.capture_name, validation_id()) is None {
                        r is None
                    } else {
                        r matches Some(cols) && column_entries(cols@) == expanded_columns(
                            strings_view(natural_keys@),
                            p,
                            toks,
                        ) && forall|i: int|
                            0 <= i < cols.len() ==> (#[trigger] cols@[i]).format == Some(*format)
                                && cols@[i].default is None && cols@[i].key is Some
                    }
                }
            }
        },
{
    let pattern = match parse_source_pattern(source) {
        Some(p) => p,
        None => {
            return None;
        },
    };
    if target_splits_at_char(target) {
        return None;
    }
    let tokens = match parse_target_tokens(target) {
        Some(t) => t,
        None => {
            return None;
        },
    };
    let ghost toks = target_toks_view(tokens@);
    assert(toks.skip(0) =~= toks);
    let placeholder = CaptureId::Text(String::from_str("__validate__"));
    if build_key_segment(&tokens, 0, pattern.capture_name.as_str(), &placeholder).is_none() {
        return None;
    }
    let prefix_chars = chars_of(pattern.prefix.as_str());
    let plen = prefix_chars.len();
    let ghost keys = strings_view(natural_keys@);
    let mut columns: Vec<ColumnSpec> = Vec::new();
    let mut i: usize = 0;
    assert(keys.take(0) =~= Seq::<Seq<char>>::empty());
    assert(column_entries(columns@) =~= Seq::<(Seq<char>, Option<KeyPathV>)>::empty());
    while i < natural_keys.len()
        invariant
            0 <= i <= natural_keys.len(),
            keys == strings_view(natural_keys@),
            toks == target_toks_view(tokens@),
            toks.skip(0) == toks,
            prefix_chars@ == pattern@.prefix,
            plen == prefix_chars.len(),
            key_path_of(toks, pattern@.capture_name, validation_id()) is Some,
            column_entries(columns@) == expanded_columns(keys.take(i as int), pattern@, toks),
            forall|j: int|
                0 <= j < columns.len() ==> (#[trigger] columns@[j]).format == Some(*format)
                    && columns@[j].default is None && columns@[j].key is Some,
        decreases natural_keys.len() - i,
    {
        let key = &natural_keys[i];
        let kc = chars_of(key.as_str());
        let ghost before = columns@;
        proof {
            assert(keys.take(i + 1).drop_last() =~= keys.take(i as int));
            assert(keys.take(i + 1).last() == key@);
        }
        if plen < kc.len() && has_prefix_chars(&kc, &prefix_chars) {
            let id = if pattern.capture_is_int {
                integer_capture(&kc, plen, kc.len())
            } else {
                CaptureId::Text(string_of(&kc, plen, kc.len()))
            };
            proof {
                assert(kc@.subrange(plen as int, kc.len() as int) =~= key@.skip(plen as int));
                law_target_shape_ignores_captured_value(toks, pattern@.capture_name, validation_id(), id@);
            }
            let seg = build_key_segment(&tokens, 0, pattern.capture_name.as_str(), &id);
            let ghost seg_v = opt_key_model(seg);
            columns.push(ColumnSpec {
                source_key: copy_string(key),
                key: seg,
                format: Some(clone_format(format)),
                default: None,
            });
            proof {
                assert(column_entries(columns@) =~= column_entries(before).push((key@, seg_v)));
            }
        }
        i += 1;
    }
    assert(keys.take(natural_keys.len() as int) =~= keys);
    Some(columns)
}


// ---------------------------------------------------------------------------
// Column suppression
// ---------------------------------------------------------------------------

/// The position of the first key equal to `id` ignoring ASCII case.
pub open spec fn first_match_ignoring_case(keys: Seq<Seq<char>>, id: Seq<char>) -> Option<int>
    decreases keys.len(),
{
    if keys.len() == 0 {
        None
    } else if eq_ignore_ascii_case(keys[0], id) {
        Some(0)
    } else {
        match first_match_ignoring_case(keys.drop_first(), id) {
            Some(i) => Some(i + 1),
            None => None,
        }
    }
}

/// `id` without one leading `c` or `C`.
pub open spec fn strip_column_letter(id: Seq<char>) -> Seq<char> {
    if id.len() > 0 && (id[0] == 'c' || id[0] == 'C') {
        id.drop_first()
    } else {
        id
    }
}

/// The column that `-identifier` suppresses: the first natural key equal to it ignoring
/// ASCII case; failing that, with one leading `c`/`C` dropped, a 1-based column number
/// within range.
pub open spec fn suppression_target(id: Seq<char>, keys: Seq<Seq<char>>) -> Option<Seq<char>> {
    match first_match_ignoring_case(keys, id) {
        Some(i) => Some(keys[i]),
        None => match parse_usize(strip_column_letter(id)) {
            Some(n) => if 1 <= n <= keys.len() {
                Some(keys[n - 1])
            } else {
                None
            },
            None => None,
        },
    }
}

/// Resolves a `--keys '-identifier'` suppression entry against the real column keys, as
/// `suppression_target` describes. `None` where nothing matches.
pub fn resolve_suppression_key(identifier: &str, natural_keys: &[String]) -> (r: Option<String>)
    ensures
        match suppression_target(identifier@, strings_view(natural_keys@)) {
            Some(k) => r matches Some(x) && x@ == k,
            None => r is None,
        },
{
    let ghost keys = strings_view(natural_keys@);
    let id_chars = chars_of(identifier);
    let mut i: usize = 0;
    assert(keys.skip(0) =~= keys);
    while i < natural_keys.len()
        invariant
            0 <= i <= natural_keys.len(),
            keys == strings_view(natural_keys@),
            id_chars@ == identifier@,
            first_match_ignoring_case(keys, identifier@) == match first_match_ignoring_case(keys.skip(i as int), identifier@) {
                Some(j) => Some(j + i),
                None => None::<int>,
            },
        decreases natural_keys.len() - i,
    {
        let ghost tail = keys.skip(i as int);
        assert(tail[0] == natural_keys@[i as int]@);
        assert(tail.drop_first() =~= keys.skip(i + 1));
        let kc = chars_of(natural_keys[i].as_str());
        if chars_eq_ignore_ascii_case(&kc, &id_chars) {
            return Some(copy_string(&natural_keys[i]));
        }
        i += 1;
    }
    assert(keys.skip(i as int) =~= Seq::<Seq<char>>::empty());
    let n = id_chars.len();
    let from: usize = if n > 0 && (id_chars[0] == 'c' || id_chars[0] == 'C') {
        1
    } else {
        0
    };
    assert(id_chars@.subrange(from as int, n as int) =~= strip_column_letter(identifier@));
    let num = match parse_usize_at(&id_chars, from, n) {
        Some(v) => v,
        None => {
            return None;
        },
    };
    if num == 0 || num > natural_keys.len() {
        return None;
    }
    assert(keys[num - 1] == natural_keys@[num - 1]@);
    Some(copy_string(&natural_keys[num - 1]))
}

/// The column that suppresses `natural_key` from the output: its key path is `Excluded`,
/// with the automatic format and no default.
pub fn build_suppression_column(natural_key: &str) -> (c: ColumnSpec)
    ensures
        c.source_key@ == natural_key@,
        opt_key_model(c.key) == Some(KeyPathV::Excluded),
        c.format is None,
        c.default is None,
{
    ColumnSpec { source_key: String::from_str(natural_key), key: Some(KeyPath::Excluded), format: None, default: None }
}

} // verus!
