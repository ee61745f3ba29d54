//! Properties of `--keys` patterns and column suppression that hold of every input,
//! proved from the specifications of the readers.
use vstd::prelude::*;
use crate::key_pattern::{
    SourcePatternV, TargetTokV, KeyPathV, CaptureIdV, anonymous_capture, plain_first_group, first_index, BraceScanV, brace_scan,
    target_segment, utf8_len, utf8_width, char_at_byte,
    lemma_first_index, source_pattern, suppression_target, first_match_ignoring_case,
    strip_column_letter, expanded_columns, key_path_of, capture_id_text, inner_chain, array_with_braces,
    has_pattern_prefix, captured_id, target_tokens,
};
use crate::filter_pattern::{split_on, lemma_split_on_nonempty};
use crate::text::{lower_text, all_digits, digits_value, parse_usize, is_digit, eq_ignore_ascii_case};

verus! {

/// `prefix*` and `prefix[]` stand for the same pattern: an anonymous string capture after
/// `prefix`. This holds for every non-empty prefix without a `[` of its own.
pub proof fn law_star_and_empty_brackets_agree(star: Seq<char>, brackets: Seq<char>, prefix: Seq<char>)
    requires
        prefix.len() > 0,
        !prefix.contains('['),
        lower_text(star) == prefix.push('*'),
        lower_text(brackets) == prefix + seq!['[', ']'],
    ensures
        source_pattern(star) == Some(
            SourcePatternV { prefix: prefix, capture_name: anonymous_capture(), capture_is_int: false },
        ),
        source_pattern(brackets) == source_pattern(star),
{
    let a = prefix.push('*');
    let b = prefix + seq!['[', ']'];
    assert(a.drop_last() =~= prefix);
    lemma_first_index(b, '[');
    assert(b[prefix.len() as int] == '[');
    assert forall|k: int| 0 <= k < prefix.len() implies b[k] != '[' by {
        assert(b[k] == prefix[k]);
    }
    assert(first_index(b, '[') == Some(prefix.len() as int));
    assert(b.take(prefix.len() as int) =~= prefix);
    let t = b.skip(prefix.len() as int + 1);
    assert(t =~= seq![']']);
    assert(first_index(t, ']') == Some(0int));
    assert(t.take(0) =~= Seq::<char>::empty());
    assert(plain_first_group(b, '[', ']') == Some(Seq::<char>::empty()));
}

/// A source pattern is read from the lowercase form of the source alone, so sources
/// that differ only in case stand for the same pattern.
pub proof fn law_source_pattern_ignores_case(a: Seq<char>, b: Seq<char>)
    requires
        lower_text(a) == lower_text(b),
    ensures
        source_pattern(a) == source_pattern(b),
{
}

/// `n` zeros.
pub open spec fn zeros(n: nat) -> Seq<char> {
    Seq::new(n, |i: int| '0')
}

proof fn lemma_digits_value_of_zeros(n: nat)
    ensures
        all_digits(zeros(n)),
        digits_value(zeros(n)) == 0,
    decreases n,
{
    if n > 0 {
        lemma_digits_value_of_zeros((n - 1) as nat);
        assert(zeros(n).drop_last() =~= zeros((n - 1) as nat));
    }
}

/// Leading zeros add nothing to the value of a run of digits.
proof fn lemma_leading_zeros(n: nat, d: Seq<char>)
    requires
        all_digits(d),
    ensures
        all_digits(zeros(n) + d),
        digits_value(zeros(n) + d) == digits_value(d),
    decreases d.len(),
{
    if d.len() == 0 {
        lemma_digits_value_of_zeros(n);
        assert(zeros(n) + d =~= zeros(n));
    } else {
        lemma_leading_zeros(n, d.drop_last());
        assert((zeros(n) + d).drop_last() =~= zeros(n) + d.drop_last());
        assert((zeros(n) + d).last() == d.last());
        assert(is_digit(d.last()));
    }
}

/// A column number may be written with or without a leading `c` or `C` and with any
/// number of leading zeros: `4`, `c4`, `c04` and `C004` suppress the same column,
/// wherever none of the spellings is itself the name of a column.
pub proof fn law_column_number_spellings_agree(digits: Seq<char>, n: nat, letter: char, keys: Seq<Seq<char>>)
    requires
        digits.len() > 0,
        all_digits(digits),
        letter == 'c' || letter == 'C',
        first_match_ignoring_case(keys, digits) is None,
        first_match_ignoring_case(keys, seq![letter] + zeros(n) + digits) is None,
    ensures
        suppression_target(seq![letter] + zeros(n) + digits, keys) == suppression_target(digits, keys),
{
    let spelled = seq![letter] + zeros(n) + digits;
    assert(spelled.drop_first() =~= zeros(n) + digits);
    assert(strip_column_letter(spelled) == zeros(n) + digits);
    assert(!is_digit('c') && !is_digit('C'));
    assert(digits[0] != 'c' && digits[0] != 'C') by {
        assert(is_digit(digits[0]));
    }
    assert(strip_column_letter(digits) == digits);
    lemma_leading_zeros(n, digits);
    let padded = zeros(n) + digits;
    assert(padded.len() > 0);
    assert(padded[0] != '-' && padded[0] != '+') by {
        assert(is_digit(padded[0]));
    }
    assert(digits[0] != '-' && digits[0] != '+') by {
        assert(is_digit(digits[0]));
    }
    assert(parse_usize(padded) == parse_usize(digits));
}


/// A capture that the target never refers to only matches: with `name[]` as the target,
/// the columns a pattern expands to depend on its prefix alone, not on the capture's name
/// or on whether `[]` typed it as an integer. Every key with the prefix and something
/// after it is taken, whatever that is.
pub proof fn law_unreferenced_capture_accepts_any_suffix(keys: Seq<Seq<char>>, p: SourcePatternV, q: SourcePatternV, name: Seq<char>)
    requires
        p.prefix == q.prefix,
    ensures
        expanded_columns(keys, p, seq![TargetTokV::ArrayOpen(name)]) == expanded_columns(
            keys,
            q,
            seq![TargetTokV::ArrayOpen(name)],
        ),
        forall|i: int|
            0 <= i < expanded_columns(keys, p, seq![TargetTokV::ArrayOpen(name)]).len() ==> (
            #[trigger] expanded_columns(keys, p, seq![TargetTokV::ArrayOpen(name)])[i]).1 == Some(
                KeyPathV::PlainArray(name),
            ),
    decreases keys.len(),
{
    let toks = seq![TargetTokV::ArrayOpen(name)];
    if keys.len() > 0 {
        law_unreferenced_capture_accepts_any_suffix(keys.drop_last(), p, q, name);
        let k = keys.last();
        let rest = k.skip(p.prefix.len() as int);
        assert(key_path_of(toks, p.capture_name, crate::key_pattern::captured_id(p, rest)) == Some(
            KeyPathV::PlainArray(name),
        ));
        assert(key_path_of(toks, q.capture_name, crate::key_pattern::captured_id(q, rest)) == Some(
            KeyPathV::PlainArray(name),
        ));
    }
}

/// A suppression entry only ever resolves to one of the real column keys.
pub proof fn law_suppression_resolves_to_a_real_key(id: Seq<char>, keys: Seq<Seq<char>>)
    ensures
        suppression_target(id, keys) matches Some(k) ==> keys.contains(k),
{
    lemma_first_match_in_range(keys, id);
    if let Some(k) = suppression_target(id, keys) {
        match first_match_ignoring_case(keys, id) {
            Some(i) => {
                assert(keys[i] == k);
            },
            None => {
                let n = crate::text::parse_usize(strip_column_letter(id))->0;
                assert(keys[n - 1] == k);
            },
        }
    }
}

proof fn lemma_first_match_in_range(keys: Seq<Seq<char>>, id: Seq<char>)
    ensures
        first_match_ignoring_case(keys, id) matches Some(i) ==> {
            &&& 0 <= i < keys.len()
            &&& eq_ignore_ascii_case(keys[i], id)
            &&& forall|j: int| 0 <= j < i ==> !eq_ignore_ascii_case(#[trigger] keys[j], id)
        },
        first_match_ignoring_case(keys, id) is None ==> forall|j: int|
            0 <= j < keys.len() ==> !eq_ignore_ascii_case(#[trigger] keys[j], id),
    decreases keys.len(),
{
    if keys.len() > 0 {
        let rest = keys.drop_first();
        lemma_first_match_in_range(rest, id);
        if !eq_ignore_ascii_case(keys[0], id) {
            assert forall|j: int| 1 <= j < keys.len() implies keys[j] == rest[j - 1] by {}
            if let Some(i) = first_match_ignoring_case(rest, id) {
                assert(keys[i + 1] == rest[i]);
                assert forall|j: int| 0 <= j < i + 1 implies !eq_ignore_ascii_case(#[trigger] keys[j], id) by {
                    if j > 0 {
                        assert(keys[j] == rest[j - 1]);
                    }
                }
            } else {
                assert forall|j: int| 0 <= j < keys.len() implies !eq_ignore_ascii_case(#[trigger] keys[j], id) by {
                    if j > 0 {
                        assert(keys[j] == rest[j - 1]);
                    }
                }
            }
        }
    }
}

/// A suppression by name is an exact match, ignoring ASCII case only: where some key
/// equals the identifier that way, the column suppressed is the first such key, never a
/// key that merely begins with the identifier; and only where no key equals it is the
/// identifier read as a 1-based column number, with one leading `c` or `C` allowed.
pub proof fn law_suppression_by_name_is_exact(id: Seq<char>, keys: Seq<Seq<char>>)
    ensures
        (exists|i: int| 0 <= i < keys.len() && eq_ignore_ascii_case(#[trigger] keys[i], id)) ==> exists|i: int|
            {
                &&& 0 <= i < keys.len()
                &&& eq_ignore_ascii_case(#[trigger] keys[i], id)
                &&& forall|j: int| 0 <= j < i ==> !eq_ignore_ascii_case(#[trigger] keys[j], id)
                &&& suppression_target(id, keys) == Some(keys[i])
            },
        (forall|i: int| 0 <= i < keys.len() ==> !eq_ignore_ascii_case(#[trigger] keys[i], id))
            ==> suppression_target(id, keys) == match parse_usize(strip_column_letter(id)) {
            Some(n) => if 1 <= n <= keys.len() {
                Some(keys[n - 1])
            } else {
                None
            },
            None => None,
        },
{
    lemma_first_match_in_range(keys, id);
    if let Some(i) = first_match_ignoring_case(keys, id) {
        assert(suppression_target(id, keys) == Some(keys[i]));
    }
}

/// What the last segments of a target make of a matched column: `name[]` alone an array
/// of plain values under `name`; a lone `{capture}` a field named by what the capture
/// took; `name[].{capture}{leaf}` an array under `name` whose items are told apart by the
/// capture and hold the column under `leaf`; with `{capture}` twice, the identifier also
/// keys an inner object around the leaf. A lone brace group that names anything else, or
/// an array item that does not start with the capture, makes no path.
pub proof fn law_target_tail_shapes(name: Seq<char>, capture: Seq<char>, leaf: Seq<char>, other: Seq<char>, id: CaptureIdV)
    requires
        leaf != capture,
        other != capture,
    ensures
        key_path_of(seq![TargetTokV::ArrayOpen(name)], capture, id) == Some(KeyPathV::PlainArray(name)),
        key_path_of(seq![TargetTokV::Braces(seq![capture])], capture, id) == Some(
            KeyPathV::Simple(capture_id_text(id)),
        ),
        key_path_of(seq![TargetTokV::Braces(seq![other])], capture, id) is None,
        key_path_of(
            seq![TargetTokV::ArrayOpen(name), TargetTokV::Braces(seq![capture, leaf])],
            capture,
            id,
        ) == Some(KeyPathV::Array(name, id, capture, Box::new(KeyPathV::Simple(leaf)))),
        key_path_of(
            seq![TargetTokV::ArrayOpen(name), TargetTokV::Braces(seq![capture, capture, leaf])],
            capture,
            id,
        ) == Some(
            KeyPathV::Array(
                name,
                id,
                capture,
                Box::new(KeyPathV::InnerObject(id, capture, Box::new(KeyPathV::Simple(leaf)))),
            ),
        ),
        key_path_of(
            seq![TargetTokV::ArrayOpen(name), TargetTokV::Braces(seq![other, leaf])],
            capture,
            id,
        ) is None,
{
    let one = seq![capture, leaf];
    let two = seq![capture, capture, leaf];
    assert(one.drop_first() =~= seq![leaf]);
    assert(two.drop_first() =~= seq![capture, leaf]);
    assert(seq![capture, leaf].drop_first() =~= seq![leaf]);
    assert(inner_chain(seq![leaf], capture, id) == Some(KeyPathV::Simple(leaf)));
    assert(inner_chain(seq![capture, leaf], capture, id) == Some(
        KeyPathV::InnerObject(id, capture, Box::new(KeyPathV::Simple(leaf))),
    ));
    assert(array_with_braces(name, one, capture, id) == Some(
        KeyPathV::Array(name, id, capture, Box::new(KeyPathV::Simple(leaf))),
    ));
}

/// The keys that carry a pattern's prefix, with more after it, in their order.
pub open spec fn keys_with_prefix(keys: Seq<Seq<char>>, prefix: Seq<char>) -> Seq<Seq<char>> {
    keys.filter(|k: Seq<char>| has_pattern_prefix(k, prefix))
}

/// A pattern expands to one column for each key that carries its prefix with more after
/// it, no other, in the order of the keys; each column's path is the one the target gives
/// for what the capture took of that key.
pub proof fn law_pattern_expands_exactly_the_matching_keys(keys: Seq<Seq<char>>, p: SourcePatternV, toks: Seq<TargetTokV>)
    ensures
        ({
            let cols = expanded_columns(keys, p, toks);
            &&& cols.len() == keys_with_prefix(keys, p.prefix).len()
            &&& forall|i: int| 0 <= i < cols.len() ==> {
                &&& (#[trigger] cols[i]).0 == keys_with_prefix(keys, p.prefix)[i]
                &&& cols[i].1 == key_path_of(toks, p.capture_name, captured_id(p, cols[i].0.skip(p.prefix.len() as int)))
            }
        }),
    decreases keys.len(),
{
    let pred = |k: Seq<char>| has_pattern_prefix(k, p.prefix);
    if keys.len() == 0 {
        reveal(Seq::filter);
        assert(keys_with_prefix(keys, p.prefix) =~= Seq::<Seq<char>>::empty());
    } else {
        let init = keys.drop_last();
        let k = keys.last();
        law_pattern_expands_exactly_the_matching_keys(init, p, toks);
        assert(keys =~= init.push(k));
        init.lemma_filter_push(k, pred);
        assert(keys_with_prefix(keys, p.prefix) == init.push(k).filter(pred));
    }
}

/// Splitting text joined by the separator gives the pieces of each side, in order.
proof fn lemma_split_on_join(a: Seq<char>, b: Seq<char>, c: char)
    ensures
        split_on(a + seq![c] + b, c) == split_on(a, c) + split_on(b, c),
    decreases b.len(),
{
    let ac = a + seq![c];
    assert(ac.drop_last() =~= a && ac.last() == c);
    if b.len() == 0 {
        assert(ac + b =~= ac);
        assert(split_on(a, c).push(Seq::<char>::empty()) =~= split_on(a, c) + seq![Seq::<char>::empty()]);
    } else {
        let b0 = b.drop_last();
        let x = b.last();
        lemma_split_on_join(a, b0, c);
        lemma_split_on_nonempty(b0, c);
        assert((ac + b).drop_last() =~= ac + b0);
        assert((ac + b).last() == x);
        let i = split_on(a, c);
        let j = split_on(b0, c);
        if x == c {
            assert((i + j).push(Seq::<char>::empty()) =~= i + j.push(Seq::<char>::empty()));
        } else {
            assert((i + j).update((i + j).len() - 1, (i + j).last().push(x)) =~= i + j.update(
                j.len() - 1,
                j.last().push(x),
            ));
        }
    }
}

/// A target that starts with a plain name and a dot reads as a literal key for that
/// name, followed by what the rest of the target reads as: `report.sales.{region}` is the
/// literal `report` before the tokens of `sales.{region}`. This holds for every non-empty
/// name without a dot that neither opens a brace group nor ends in `[]`.
pub proof fn law_dotted_name_reads_as_a_literal(name: Seq<char>, rest: Seq<char>)
    requires
        name.len() > 0,
        name[0] != '{',
        !name.contains('.'),
        !(name.len() > 2 && name[name.len() - 2] == '[' && name[name.len() - 1] == ']'),
    ensures
        target_tokens(name + seq!['.'] + rest) == match target_tokens(rest) {
            Some(ts) => Some(seq![TargetTokV::Literal(name)] + ts),
            None => None,
        },
{
    lemma_split_on_join(name, rest, '.');
    crate::filter_pattern::lemma_split_on_nonempty(name, '.');
    assert(split_on(name, '.') == seq![name]) by {
        crate::args::lemma_split_on_whole(name, '.');
    }
    let ps = split_on(name + seq!['.'] + rest, '.');
    assert(ps =~= seq![name] + split_on(rest, '.'));
    assert(ps[0] == name);
    assert(ps.drop_first() =~= split_on(rest, '.'));
    assert(target_segment(name) == Some(TargetTokV::Literal(name)));
}

/// Every literal segment of a target adds exactly one object level, named by the literal
/// itself: a dotted target such as `report.sales.{region}` nests `report`, then `sales`,
/// and never an object whose key holds the dot.
pub proof fn law_literal_segment_nests_one_object(
    name: Seq<char>,
    rest: Seq<TargetTokV>,
    capture: Seq<char>,
    id: CaptureIdV,
)
    ensures
        key_path_of(seq![TargetTokV::Literal(name)] + rest, capture, id) == match key_path_of(rest, capture, id) {
            Some(p) => Some(KeyPathV::Object(name, Box::new(p))),
            None => None,
        },
{
    let toks = seq![TargetTokV::Literal(name)] + rest;
    assert(toks[0] == TargetTokV::Literal(name));
    assert(toks.drop_first() =~= rest);
}

/// The names written as adjacent `{name}` groups.
pub open spec fn braced(names: Seq<Seq<char>>) -> Seq<char>
    decreases names.len(),
{
    if names.len() == 0 {
        Seq::empty()
    } else {
        seq!['{'] + names[0] + seq!['}'] + braced(names.drop_first())
    }
}

proof fn lemma_utf8_len_concat(a: Seq<char>, b: Seq<char>)
    ensures
        utf8_len(a + b) == utf8_len(a) + utf8_len(b),
    decreases b.len(),
{
    if b.len() == 0 {
        assert(a + b =~= a);
    } else {
        lemma_utf8_len_concat(a, b.drop_last());
        assert((a + b).drop_last() =~= a + b.drop_last());
        assert((a + b).last() == b.last());
    }
}

proof fn lemma_utf8_len_one(x: char)
    ensures
        utf8_len(seq![x]) == utf8_width(x),
{
    let s = seq![x];
    assert(s.drop_last() =~= Seq::<char>::empty());
    assert(utf8_len(s.drop_last()) == 0);
    assert(s.last() == x);
}

proof fn lemma_utf8_width_positive(c: char)
    ensures
        1 <= utf8_width(c) <= 4,
{
}

/// The byte length of `a` is where the characters after `a` start.
proof fn lemma_char_at_end_of_prefix(a: Seq<char>, b: Seq<char>)
    ensures
        char_at_byte(a + b, utf8_len(a) as int) == Some(a.len() as int),
    decreases a.len(),
{
    if a.len() > 0 {
        let x = a[0];
        let r = a.drop_first();
        assert(a =~= seq![x] + r);
        lemma_utf8_len_concat(seq![x], r);
        lemma_utf8_len_one(x);
        lemma_utf8_width_positive(x);
        lemma_char_at_end_of_prefix(r, b);
        assert((a + b)[0] == x);
        assert((a + b).drop_first() =~= r + b);
    }
}

/// A name that reads back unchanged from `{name}`: not empty, and without a `}` or a
/// `\` of its own.
pub open spec fn plain_name(n: Seq<char>) -> bool {
    n.len() > 0 && !n.contains('}') && !n.contains('\\')
}

/// Adjacent `{name}` groups read back as the same names, in order, for any names without
/// a `}` or `\` of their own; as a target segment they are one brace token.
pub proof fn law_brace_groups_read_back(names: Seq<Seq<char>>)
    requires
        forall|i: int| 0 <= i < names.len() ==> plain_name(#[trigger] names[i]),
    ensures
        brace_scan(braced(names)) == BraceScanV::Groups(names),
        names.len() > 0 ==> target_segment(braced(names)) == Some(TargetTokV::Braces(names)),
    decreases names.len(),
{
    let seg = braced(names);
    if names.len() == 0 {
        assert(names =~= Seq::<Seq<char>>::empty());
    } else {
        let n = names[0];
        let rest = names.drop_first();
        assert forall|i: int| 0 <= i < rest.len() implies plain_name(#[trigger] rest[i]) by {
            assert(rest[i] == names[i + 1]);
        }
        law_brace_groups_read_back(rest);
        assert(plain_name(n));
        let head = seq!['{'] + n + seq!['}'];
        assert(seg == head + braced(rest));
        assert(seg[0] == '{');
        lemma_first_index(seg, '{');
        assert(first_index(seg, '{') == Some(0int));
        let t = seg.skip(1);
        assert(t =~= n + seq!['}'] + braced(rest));
        lemma_first_index(t, '}');
        assert(t[n.len() as int] == '}');
        assert forall|k: int| 0 <= k < n.len() implies t[k] != '}' by {
            assert(t[k] == n[k]);
        }
        assert(first_index(t, '}') == Some(n.len() as int));
        assert(t.take(n.len() as int) =~= n);
        assert(plain_first_group(seg, '{', '}') == Some(n));
        lemma_utf8_len_concat(head, braced(rest));
        lemma_utf8_len_concat(seq!['{'] + n, seq!['}']);
        lemma_utf8_len_concat(seq!['{'], n);
        lemma_utf8_len_one('{');
        lemma_utf8_len_one('}');
        assert(utf8_len(head) == utf8_len(n) + 2);
        lemma_char_at_end_of_prefix(head, braced(rest));
        assert(seg.skip(head.len() as int) =~= braced(rest));
        assert(seq![n] + rest =~= names);
        assert(brace_scan(seg) == BraceScanV::Groups(names));
        assert(seg.len() >= 3);
        assert(seg[seg.len() - 1] != ']') by {
            if rest.len() == 0 {
                assert(seg =~= head);
            } else {
                let rs = braced(rest);
                assert(rs.len() > 0);
                assert(seg[seg.len() - 1] == rs[rs.len() - 1]);
                lemma_braced_ends_with_close(rest);
            }
        }
    }
}

proof fn lemma_braced_ends_with_close(names: Seq<Seq<char>>)
    requires
        names.len() > 0,
    ensures
        braced(names).len() > 0,
        braced(names)[braced(names).len() - 1] == '}',
    decreases names.len(),
{
    let head = seq!['{'] + names[0] + seq!['}'];
    let rest = names.drop_first();
    if rest.len() == 0 {
        assert(braced(rest) =~= Seq::<char>::empty());
        assert(braced(names) =~= head);
    } else {
        lemma_braced_ends_with_close(rest);
        assert(braced(names)[braced(names).len() - 1] == braced(rest)[braced(rest).len() - 1]);
    }
}


/// Every pattern has a real prefix, which the lowercase source starts with, and a named
/// capture: a source with nothing before its capture (`*`, `[]`, `{region}`) is no
/// pattern, since it would match every column.
pub proof fn law_patterns_have_a_real_prefix(source: Seq<char>)
    ensures
        source_pattern(source) matches Some(p) ==> p.prefix.len() > 0 && p.capture_name.len() > 0
            && lower_text(source).take(p.prefix.len() as int) == p.prefix,
{
    reveal_strlit("*");
    let lower = lower_text(source);
    lemma_first_index(lower, '[');
    lemma_first_index(lower, '{');
    if let Some(p) = source_pattern(source) {
        assert(lower.take(p.prefix.len() as int) =~= p.prefix);
    }
}

} // verus!
