//! Character and string helpers shared by the `--filter` and `--keys` parsers:
//! Unicode character classes and lowercasing (delegated to `std`), ASCII case folding,
//! and decimal integer parsing and printing.
use vstd::prelude::*;

verus! {

broadcast use vstd::string::group_string_axioms;

// ---------------------------------------------------------------------------
// Unicode character classes and case mapping, as `std` defines them
// ---------------------------------------------------------------------------

/// Whether `c` has the Unicode `White_Space` property (`char::is_whitespace`).
pub uninterp spec fn char_is_whitespace(c: char) -> bool;

/// Whether `c` has the Unicode `Alphabetic` property (`char::is_alphabetic`).
pub uninterp spec fn char_is_alphabetic(c: char) -> bool;

/// Whether `c` is alphabetic or numeric in Unicode's sense (`char::is_alphanumeric`).
pub uninterp spec fn char_is_alphanumeric(c: char) -> bool;

/// The Unicode lowercase mapping of a whole string (`str::to_lowercase`).
pub uninterp spec fn lowercase(s: Seq<char>) -> Seq<char>;

/// Whether `c` is an ASCII character.
pub open spec fn is_ascii_char(c: char) -> bool {
    (c as int) < 128
}

/// Whether every character of `s` is ASCII.
pub open spec fn is_ascii_text(s: Seq<char>) -> bool {
    forall|i: int| 0 <= i < s.len() ==> is_ascii_char(#[trigger] s[i])
}

/// The ASCII characters with the `White_Space` property: space, and tab through
/// carriage return.
pub open spec fn ascii_whitespace(c: char) -> bool {
    c == ' ' || ('\t' <= c && c <= '\r')
}

pub open spec fn ascii_alphabetic(c: char) -> bool {
    ('a' <= c && c <= 'z') || ('A' <= c && c <= 'Z')
}

pub open spec fn ascii_alphanumeric(c: char) -> bool {
    ascii_alphabetic(c) || ('0' <= c && c <= '9')
}

/// Whether `c` is whitespace (`char::is_whitespace`): stated for ASCII.
pub open spec fn whitespace_char(c: char) -> bool {
    if is_ascii_char(c) { ascii_whitespace(c) } else { char_is_whitespace(c) }
}

/// Whether `c` is alphabetic (`char::is_alphabetic`): stated for ASCII.
pub open spec fn alphabetic_char(c: char) -> bool {
    if is_ascii_char(c) { ascii_alphabetic(c) } else { char_is_alphabetic(c) }
}

/// Whether `c` is alphanumeric (`char::is_alphanumeric`): stated for ASCII.
pub open spec fn alphanumeric_char(c: char) -> bool {
    if is_ascii_char(c) { ascii_alphanumeric(c) } else { char_is_alphanumeric(c) }
}

/// The lowercase form of `s` (`str::to_lowercase`): for ASCII text, each upper-case
/// letter lowered.
pub open spec fn lower_text(s: Seq<char>) -> Seq<char> {
    if is_ascii_text(s) {
        s.map_values(|c: char| ascii_lower(c))
    } else {
        lowercase(s)
    }
}

/// Trusted: calls `char::is_whitespace`; for ASCII it holds of space and tab through
/// carriage return, otherwise the answer depends on `c` alone.
#[verifier::external_body]
pub fn is_whitespace(c: char) -> (b: bool)
    ensures
        is_ascii_char(c) ==> b == ascii_whitespace(c),
        !is_ascii_char(c) ==> b == char_is_whitespace(c),
{
    c.is_whitespace()
}

/// Trusted: calls `char::is_alphabetic`; for ASCII it holds of the letters, otherwise the
/// answer depends on `c` alone.
#[verifier::external_body]
pub fn is_alphabetic(c: char) -> (b: bool)
    ensures
        is_ascii_char(c) ==> b == ascii_alphabetic(c),
        !is_ascii_char(c) ==> b == char_is_alphabetic(c),
{
    c.is_alphabetic()
}

/// Trusted: calls `char::is_alphanumeric`; for ASCII it holds of letters and digits,
/// otherwise the answer depends on `c` alone.
#[verifier::external_body]
pub fn is_alphanumeric(c: char) -> (b: bool)
    ensures
        is_ascii_char(c) ==> b == ascii_alphanumeric(c),
        !is_ascii_char(c) ==> b == char_is_alphanumeric(c),
{
    c.is_alphanumeric()
}

/// Trusted: calls `str::to_lowercase`; ASCII text comes back with each upper-case letter
/// lowered, other text as its Unicode lowercase mapping, which depends on `s` alone.
#[verifier::external_body]
pub fn to_lowercase(s: &str) -> (r: String)
    ensures
        is_ascii_text(s@) ==> r@ == s@.map_values(|c: char| ascii_lower(c)),
        !is_ascii_text(s@) ==> r@ == lowercase(s@),
{
    s.to_lowercase()
}

/// Appends one character to a string.
///
/// Trusted: calls `String::push`, which appends `c` to the end of `s`.
#[verifier::external_body]
pub fn push_char(s: &mut String, c: char)
    ensures
        final(s)@ == old(s)@.push(c),
{
    s.push(c);
}

// ---------------------------------------------------------------------------
// Conversions between strings and character vectors
// ---------------------------------------------------------------------------

/// The characters of `s`, in order.
pub fn chars_of(s: &str) -> (v: Vec<char>)
    ensures
        v@ == s@,
{
    let mut v: Vec<char> = Vec::new();
    for c in it: s.chars()
        invariant
            it.seq() == s@,
            v@ == it.seq().take(it.index() as int),
    {
        v.push(c);
    }
    v
}

/// The string made of the characters `cs[from..to]`.
pub fn string_of(cs: &Vec<char>, from: usize, to: usize) -> (s: String)
    requires
        from <= to <= cs.len(),
    ensures
        s@ == cs@.subrange(from as int, to as int),
{
    let mut s = String::new();
    let mut i: usize = from;
    while i < to
        invariant
            from <= i <= to <= cs.len(),
            s@ == cs@.subrange(from as int, i as int),
        decreases to - i,
    {
        push_char(&mut s, cs[i]);
        i += 1;
    }
    s
}

/// A copy of `s`.
pub fn copy_string(s: &String) -> (r: String)
    ensures
        r@ == s@,
{
    s.clone()
}

/// `a` followed by `b`.
pub fn concat(a: &str, b: &str) -> (r: String)
    ensures
        r@ == a@ + b@,
{
    let mut r = String::from_str(a);
    r.append(b);
    r
}

/// Whether the two character sequences are equal.
pub fn chars_equal(a: &Vec<char>, b: &Vec<char>) -> (r: bool)
    ensures
        r == (a@ == b@),
{
    if a.len() != b.len() {
        return false;
    }
    let mut i: usize = 0;
    while i < a.len()
        invariant
            a.len() == b.len(),
            0 <= i <= a.len(),
            forall|k: int| 0 <= k < i ==> a@[k] == b@[k],
        decreases a.len() - i,
    {
        if a[i] != b[i] {
            return false;
        }
        i += 1;
    }
    assert(a@ =~= b@);
    true
}

/// Whether two strings hold the same characters.
pub fn str_equal(a: &str, b: &str) -> (r: bool)
    ensures
        r == (a@ == b@),
{
    let ca = chars_of(a);
    let cb = chars_of(b);
    chars_equal(&ca, &cb)
}

/// Whether `c` occurs in `s`.
pub fn contains_char(s: &Vec<char>, c: char) -> (r: bool)
    ensures
        r == s@.contains(c),
{
    let mut i: usize = 0;
    while i < s.len()
        invariant
            0 <= i <= s.len(),
            forall|k: int| 0 <= k < i ==> s@[k] != c,
        decreases s.len() - i,
    {
        if s[i] == c {
            assert(s@[i as int] == c);
            return true;
        }
        i += 1;
    }
    false
}

// ---------------------------------------------------------------------------
// ASCII case folding
// ---------------------------------------------------------------------------

/// `c` with an ASCII upper-case letter mapped to its lower-case form; every other
/// character unchanged.
pub open spec fn ascii_lower(c: char) -> char {
    if 'A' <= c <= 'Z' {
        ((c as int) + 32) as char
    } else {
        c
    }
}

/// Equality ignoring ASCII case, as `str::eq_ignore_ascii_case` defines it.
pub open spec fn eq_ignore_ascii_case(a: Seq<char>, b: Seq<char>) -> bool {
    &&& a.len() == b.len()
    &&& forall|i: int| 0 <= i < a.len() ==> ascii_lower(#[trigger] a[i]) == ascii_lower(b[i])
}

/// `c` with an ASCII upper-case letter lowered, as `char::to_ascii_lowercase` gives it.
pub fn to_ascii_lower(c: char) -> (r: char)
    ensures
        r == ascii_lower(c),
{
    if 'A' <= c && c <= 'Z' {
        let code: u32 = c as u32;
        let b: u8 = (code + 32) as u8;
        b as char
    } else {
        c
    }
}

/// `str::eq_ignore_ascii_case` on character vectors.
pub fn chars_eq_ignore_ascii_case(a: &Vec<char>, b: &Vec<char>) -> (r: bool)
    ensures
        r == eq_ignore_ascii_case(a@, b@),
{
    if a.len() != b.len() {
        return false;
    }
    let mut i: usize = 0;
    while i < a.len()
        invariant
            a.len() == b.len(),
            0 <= i <= a.len(),
            forall|k: int| 0 <= k < i ==> ascii_lower(#[trigger] a@[k]) == ascii_lower(b@[k]),
        decreases a.len() - i,
    {
        if to_ascii_lower(a[i]) != to_ascii_lower(b[i]) {
            return false;
        }
        i += 1;
    }
    true
}

// ---------------------------------------------------------------------------
// Decimal integers
// ---------------------------------------------------------------------------

pub open spec fn is_digit(c: char) -> bool {
    '0' <= c <= '9'
}

pub open spec fn digit_value(c: char) -> int {
    (c as int) - ('0' as int)
}

pub open spec fn all_digits(s: Seq<char>) -> bool {
    forall|i: int| 0 <= i < s.len() ==> is_digit(#[trigger] s[i])
}

/// The number that the decimal digits `s` spell, most significant first.
pub open spec fn digits_value(s: Seq<char>) -> nat
    decreases s.len(),
{
    if s.len() == 0 {
        0
    } else {
        (digits_value(s.drop_last()) * 10 + digit_value(s.last())) as nat
    }
}

/// What `str::parse` gives for a signed or unsigned integer type whose range is
/// `lo..=hi`: an optional `+` sign (or `-`, for a signed type), then at least one ASCII
/// digit, and a value within the range. `None` for anything else.
pub open spec fn parse_int_in(s: Seq<char>, lo: int, hi: int) -> Option<int> {
    if s.len() > 0 && s[0] == '-' {
        let d = s.drop_first();
        if lo < 0 && d.len() > 0 && all_digits(d) && lo <= -digits_value(d) {
            Some(-digits_value(d))
        } else {
            None
        }
    } else {
        let d = if s.len() > 0 && s[0] == '+' { s.drop_first() } else { s };
        if d.len() > 0 && all_digits(d) && digits_value(d) <= hi {
            Some(digits_value(d) as int)
        } else {
            None
        }
    }
}

pub open spec fn parse_i64(s: Seq<char>) -> Option<int> {
    parse_int_in(s, i64::MIN as int, i64::MAX as int)
}

pub open spec fn parse_i128(s: Seq<char>) -> Option<int> {
    parse_int_in(s, i128::MIN as int, i128::MAX as int)
}

pub open spec fn parse_usize(s: Seq<char>) -> Option<int> {
    parse_int_in(s, 0, usize::MAX as int)
}

proof fn lemma_digits_value_grows(s: Seq<char>, c: char)
    requires
        is_digit(c),
    ensures
        digits_value(s.push(c)) >= digits_value(s),
        digits_value(s.push(c)) == digits_value(s) * 10 + digit_value(c),
{
    assert(s.push(c).drop_last() =~= s);
}

proof fn lemma_digits_value_prefix(s: Seq<char>, i: int)
    requires
        0 <= i <= s.len(),
        all_digits(s),
    ensures
        digits_value(s.take(i)) <= digits_value(s),
    decreases s.len() - i,
{
    if i < s.len() {
        lemma_digits_value_prefix(s, i + 1);
        assert(s.take(i + 1) =~= s.take(i).push(s[i]));
        lemma_digits_value_grows(s.take(i), s[i]);
    } else {
        assert(s.take(i) =~= s);
    }
}

/// The value of the digits `cs[from..to]` when all are ASCII digits, at least one, and
/// the value is at most `limit`; `None` otherwise.
pub fn digits_up_to(cs: &Vec<char>, from: usize, to: usize, limit: u128) -> (r: Option<u128>)
    requires
        from <= to <= cs.len(),
    ensures
        ({
            let d = cs@.subrange(from as int, to as int);
            match r {
                Some(v) => d.len() > 0 && all_digits(d) && v == digits_value(d) && v <= limit,
                None => !(d.len() > 0 && all_digits(d) && digits_value(d) <= limit),
            }
        }),
{
    let ghost d = cs@.subrange(from as int, to as int);
    if from == to {
        return None;
    }
    let mut v: u128 = 0;
    let mut i: usize = from;
    while i < to
        invariant
            from <= i <= to <= cs.len(),
            d == cs@.subrange(from as int, to as int),
            all_digits(d.take(i - from)),
            v == digits_value(d.take(i - from)),
            v <= limit,
        decreases to - i,
    {
        let c = cs[i];
        assert(d.take(i + 1 - from) =~= d.take(i - from).push(c));
        if !('0' <= c && c <= '9') {
            assert(!all_digits(d)) by {
                assert(d[i - from] == c);
            }
            return None;
        }
        let dv: u128 = ((c as u32) - ('0' as u32)) as u128;
        proof {
            lemma_digits_value_grows(d.take(i - from), c);
        }
        if dv > limit || v > (limit - dv) / 10 {
            proof {
                assert(all_digits(d.take(i + 1 - from)));
                let w = digits_value(d.take(i + 1 - from));
                assert(w > limit) by (nonlinear_arith)
                    requires
                        w == v * 10 + dv,
                        dv > limit || v > (limit - dv) / 10,
                        v >= 0,
                ;
                if all_digits(d) {
                    lemma_digits_value_prefix(d, i + 1 - from);
                }
            }
            return None;
        }
        v = v * 10 + dv;
        i += 1;
        proof {
            assert(all_digits(d.take(i - from)));
        }
    }
    assert(d.take(to - from) =~= d);
    Some(v)
}

/// What `str::parse` gives for the characters `cs[from..to]`, for an integer type whose
/// range is `-neg_limit..=pos_limit`, as a sign (`true` for negative) and a magnitude.
pub fn parse_int_at(cs: &Vec<char>, from: usize, to: usize, neg_limit: u128, pos_limit: u128) -> (r:
    Option<(bool, u128)>)
    requires
        from <= to <= cs.len(),
    ensures
        ({
            let s = cs@.subrange(from as int, to as int);
            match parse_int_in(s, -(neg_limit as int), pos_limit as int) {
                Some(v) => r matches Some((neg, m)) && v == (if neg { -(m as int) } else { m as int }),
                None => r is None,
            }
        }),
{
    let ghost s = cs@.subrange(from as int, to as int);
    if from < to && cs[from] == '-' {
        assert(s.drop_first() =~= cs@.subrange(from + 1, to as int));
        if neg_limit == 0 {
            return None;
        }
        match digits_up_to(cs, from + 1, to, neg_limit) {
            Some(m) => Some((true, m)),
            None => None,
        }
    } else {
        let start: usize = if from < to && cs[from] == '+' { from + 1 } else { from };
        assert(start > from ==> s.drop_first() =~= cs@.subrange(start as int, to as int));
        assert(start == from ==> s =~= cs@.subrange(start as int, to as int));
        match digits_up_to(cs, start, to, pos_limit) {
            Some(m) => Some((false, m)),
            None => None,
        }
    }
}

/// `str::parse::<i64>` on the characters `cs[from..to]`.
pub fn parse_i64_at(cs: &Vec<char>, from: usize, to: usize) -> (r: Option<i64>)
    requires
        from <= to <= cs.len(),
    ensures
        match parse_i64(cs@.subrange(from as int, to as int)) {
            Some(v) => r == Some(v as i64),
            None => r is None,
        },
{
    match parse_int_at(cs, from, to, 0x8000_0000_0000_0000u128, 0x7fff_ffff_ffff_ffffu128) {
        Some((neg, m)) => {
            if neg {
                let v: i128 = -(m as i128);
                Some(v as i64)
            } else {
                Some(m as i64)
            }
        },
        None => None,
    }
}

/// `str::parse::<i128>` on the characters `cs[from..to]`.
pub fn parse_i128_at(cs: &Vec<char>, from: usize, to: usize) -> (r: Option<i128>)
    requires
        from <= to <= cs.len(),
    ensures
        match parse_i128(cs@.subrange(from as int, to as int)) {
            Some(v) => r == Some(v as i128),
            None => r is None,
        },
{
    match parse_int_at(cs, from, to, 0x8000_0000_0000_0000_0000_0000_0000_0000u128,
        0x7fff_ffff_ffff_ffff_ffff_ffff_ffff_ffffu128) {
        Some((neg, m)) => {
            if neg {
                if m == 0x8000_0000_0000_0000_0000_0000_0000_0000u128 {
                    Some(i128::MIN)
                } else {
                    let v: i128 = m as i128;
                    Some(-v)
                }
            } else {
                Some(m as i128)
            }
        },
        None => None,
    }
}

/// `str::parse::<usize>` on the characters `cs[from..to]`.
pub fn parse_usize_at(cs: &Vec<char>, from: usize, to: usize) -> (r: Option<usize>)
    requires
        from <= to <= cs.len(),
    ensures
        match parse_usize(cs@.subrange(from as int, to as int)) {
            Some(v) => r == Some(v as usize),
            None => r is None,
        },
{
    match parse_int_at(cs, from, to, 0, usize::MAX as u128) {
        Some((_, m)) => Some(m as usize),
        None => None,
    }
}

/// The decimal digits of `n`, most significant first, with no leading zeros.
pub open spec fn nat_decimal(n: nat) -> Seq<char>
    decreases n,
{
    if n < 10 {
        seq![((n + 48) as char)]
    } else {
        nat_decimal(n / 10).push(((n % 10 + 48) as char))
    }
}

/// How `i64`'s `Display` writes `n`: a `-` for a negative number, then its digits.
pub open spec fn int_decimal(n: int) -> Seq<char> {
    if n < 0 {
        seq!['-'] + nat_decimal((-n) as nat)
    } else {
        nat_decimal(n as nat)
    }
}

fn digit_char(d: u128) -> (c: char)
    requires
        d < 10,
    ensures
        c == ((d + 48) as char),
{
    if d == 0 { '0' }
    else if d == 1 { '1' }
    else if d == 2 { '2' }
    else if d == 3 { '3' }
    else if d == 4 { '4' }
    else if d == 5 { '5' }
    else if d == 6 { '6' }
    else if d == 7 { '7' }
    else if d == 8 { '8' }
    else { '9' }
}

fn nat_decimal_chars(n: u128) -> (r: Vec<char>)
    ensures
        r@ == nat_decimal(n as nat),
    decreases n,
{
    if n < 10 {
        let mut r: Vec<char> = Vec::new();
        r.push(digit_char(n));
        assert(r@ =~= nat_decimal(n as nat));
        r
    } else {
        let mut r = nat_decimal_chars(n / 10);
        r.push(digit_char(n % 10));
        r
    }
}

/// `n` written in decimal, as `i64`'s `Display` writes it.
pub fn i64_to_string(n: i64) -> (s: String)
    ensures
        s@ == int_decimal(n as int),
{
    let mut s = String::new();
    let magnitude: u128 = if n < 0 {
        let w: i128 = n as i128;
        (-w) as u128
    } else {
        n as u128
    };
    if n < 0 {
        push_char(&mut s, '-');
    }
    let digits = nat_decimal_chars(magnitude);
    let mut i: usize = 0;
    let ghost start = s@;
    while i < digits.len()
        invariant
            0 <= i <= digits.len(),
            s@ == start + digits@.take(i as int),
        decreases digits.len() - i,
    {
        push_char(&mut s, digits[i]);
        assert(digits@.take(i + 1) =~= digits@.take(i as int).push(digits@[i as int]));
        i += 1;
    }
    assert(digits@.take(digits.len() as int) =~= digits@);
    assert(n < 0 ==> start =~= seq!['-']);
    assert(n >= 0 ==> start =~= Seq::<char>::empty());
    s
}

} // verus!
