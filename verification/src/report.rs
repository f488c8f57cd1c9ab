//! Reading the platform's `REPORT` line out of a decoded log tail.
//!
//! A cold start reports an `Init Duration`, a start restored from a snapshot a
//! `Restore Duration`, and a warm invocation neither.
use crate::text::{
    chars_of, contains_text, first_of, has_text, is_digit, joined, lines, lines_of, pieces,
    same_text, split_once, texts,
};
use vstd::prelude::*;
use vstd::string::*;

verus! {

/// The always-present fields of a report line.
pub const REPORT_PATTERN: &'static str =
    r"REPORT RequestId:\s*(?P<rid>[0-9a-fA-F-]+)\s+.*?Duration:\s*(?P<dur>[0-9.]+)\s*ms\s+Billed Duration:\s*(?P<billed>[0-9.]+)\s*ms\s+Memory Size:\s*(?P<memsize>[0-9]+)\s*MB\s+Max Memory Used:\s*(?P<maxmem>[0-9]+)\s*MB";

/// The cold marker of a plain start, with its billed sibling set apart.
pub const INIT_PATTERN: &'static str =
    r"(?P<billed>Billed )?Init Duration:\s*(?P<init>[0-9.]+)\s*ms";

/// The cold marker of a restored start, with its billed sibling set apart.
pub const RESTORE_PATTERN: &'static str =
    r"(?P<billed>Billed )?Restore Duration:\s*(?P<restore>[0-9.]+)\s*ms";

/// What marks the platform's line.
pub const REPORT_MARK: &'static str = "REPORT RequestId:";

/// Whether a text is a plain decimal number: digits with at most one point, and
/// at least one digit.
pub open spec fn is_number(t: Seq<char>) -> bool {
    &&& forall|i: int| 0 <= i < t.len() ==> is_digit(#[trigger] t[i]) || t[i] == '.'
    &&& exists|i: int| 0 <= i < t.len() && is_digit(#[trigger] t[i])
    &&& forall|i: int, j: int|
        0 <= i < j < t.len() ==> !(#[trigger] t[i] == '.' && #[trigger] t[j] == '.')
}

/// Whether a text is a plain decimal number.
pub fn check_number(t: &str) -> (r: bool)
    ensures
        r == is_number(t@),
{
    let chars: Vec<char> = chars_of(t);
    let mut digits: bool = false;
    let mut point: Option<usize> = None;
    let mut i: usize = 0;
    while i < chars.len()
        invariant
            i <= chars.len(),
            chars@ == t@,
            forall|k: int| 0 <= k < i ==> is_digit(#[trigger] t@[k]) || t@[k] == '.',
            digits <==> exists|k: int| 0 <= k < i && is_digit(#[trigger] t@[k]),
            match point {
                None => forall|k: int| 0 <= k < i ==> #[trigger] t@[k] != '.',
                Some(p) => p < i && t@[p as int] == '.' && forall|k: int|
                    0 <= k < i && k != p ==> #[trigger] t@[k] != '.',
            },
        decreases chars.len() - i,
    {
        let c: char = chars[i];
        if '0' <= c && c <= '9' {
            digits = true;
            proof {
                assert(is_digit(t@[i as int]));
            }
        } else if c == '.' {
            if let Some(p) = point {
                proof {
                    assert(t@[p as int] == '.' && t@[i as int] == '.');
                }
                return false;
            }
            point = Some(i);
        } else {
            proof {
                assert(!is_digit(t@[i as int]) && t@[i as int] != '.');
            }
            return false;
        }
        i = i + 1;
    }
    digits
}

/// A measured number of milliseconds, as the platform printed it.
#[derive(Debug, Clone)]
pub struct Millis {
    pub text: String,
}

impl Millis {
    /// Whether the text is a number.
    pub open spec fn wf(self) -> bool {
        is_number(self.text@)
    }
}

/// Digits without the zeros that lead them.
pub open spec fn without_leading_zeros(t: Seq<char>) -> Seq<char>
    decreases t.len(),
{
    if t.len() > 0 && t[0] == '0' {
        without_leading_zeros(t.drop_first())
    } else {
        t
    }
}

/// Digits without the zeros that trail them.
pub open spec fn without_trailing_zeros(t: Seq<char>) -> Seq<char>
    decreases t.len(),
{
    if t.len() > 0 && t.last() == '0' {
        without_trailing_zeros(t.drop_last())
    } else {
        t
    }
}

/// Digits, or a zero where there are none.
pub open spec fn or_zero(t: Seq<char>) -> Seq<char> {
    if t.len() == 0 {
        "0"@
    } else {
        t
    }
}

/// What stands before the point of a number.
pub open spec fn whole_part(t: Seq<char>) -> Seq<char> {
    t.take(first_of(t, '.'))
}

/// What stands after the point of a number.
pub open spec fn fraction_part(t: Seq<char>) -> Seq<char> {
    if first_of(t, '.') < t.len() {
        t.skip(first_of(t, '.') + 1)
    } else {
        Seq::empty()
    }
}

/// A number in the one form that all its spellings share: no zero more than it
/// takes to have a digit on either side of the point.
pub open spec fn canonical(t: Seq<char>) -> Seq<char> {
    or_zero(without_leading_zeros(whole_part(t))) + "."@ + or_zero(
        without_trailing_zeros(fraction_part(t)),
    )
}

/// Whether a number is one of everyday size: it takes at most fifteen digits, and is
/// zero or no less than a ten-thousandth. Such a number is printed in its shared form
/// by everything that reads it as a double; others may come out rounded, or with an
/// exponent.
pub open spec fn is_everyday(t: Seq<char>) -> bool {
    let whole = without_leading_zeros(whole_part(t));
    let fraction = without_trailing_zeros(fraction_part(t));
    &&& whole.len() + fraction.len() <= 15
    &&& whole.len() > 0 || fraction.len() <= 4 || fraction.take(4) != "0000"@
}

/// A number as it is shown: one of everyday size in its shared form, any other as it
/// is spelled.
pub open spec fn shown_number(t: Seq<char>) -> Seq<char> {
    if is_everyday(t) {
        canonical(t)
    } else {
        t
    }
}

fn strip_leading_zeros(t: &str) -> (r: &str)
    ensures
        r@ == without_leading_zeros(t@),
{
    let n: usize = t.unicode_len();
    let mut i: usize = 0;
    proof {
        assert(t@.skip(0) =~= t@);
    }
    while i < n && t.get_char(i) == '0'
        invariant
            i <= n,
            n == t@.len(),
            without_leading_zeros(t@.skip(i as int)) == without_leading_zeros(t@),
        decreases n - i,
    {
        proof {
            assert(t@.skip(i as int).drop_first() =~= t@.skip(i + 1));
        }
        i = i + 1;
    }
    let r: &str = t.substring_char(i, n);
    proof {
        assert(r@ =~= t@.skip(i as int));
    }
    r
}

fn strip_trailing_zeros(t: &str) -> (r: &str)
    ensures
        r@ == without_trailing_zeros(t@),
{
    let mut n: usize = t.unicode_len();
    proof {
        assert(t@.take(n as int) =~= t@);
    }
    while n > 0 && t.get_char(n - 1) == '0'
        invariant
            n <= t@.len(),
            without_trailing_zeros(t@.take(n as int)) == without_trailing_zeros(t@),
        decreases n,
    {
        proof {
            assert(t@.take(n as int).drop_last() =~= t@.take(n - 1));
        }
        n = n - 1;
    }
    let r: &str = t.substring_char(0, n);
    proof {
        assert(r@ =~= t@.take(n as int));
    }
    r
}

fn append_or_zero(out: &mut String, t: &str)
    ensures
        final(out)@ == old(out)@ + or_zero(t@),
{
    if t.unicode_len() == 0 {
        out.append("0");
    } else {
        out.append(t);
    }
}

/// A number as it is shown.
pub fn show_number(t: &str) -> (r: String)
    ensures
        r@ == shown_number(t@),
{
    proof {
        reveal_strlit("");
    }
    let (before, after): (&str, &str) = match split_once(t, '.') {
        None => (t, ""),
        Some((before, after)) => (before, after),
    };
    proof {
        assert(before@ =~= whole_part(t@));
        assert(after@ =~= fraction_part(t@));
    }
    let whole: &str = strip_leading_zeros(before);
    let fraction: &str = strip_trailing_zeros(after);
    let w: usize = whole.unicode_len();
    let f: usize = fraction.unicode_len();
    if w > 15 || f > 15 - w {
        return t.to_owned();
    }
    if w == 0 && f > 4 {
        let first: &str = fraction.substring_char(0, 4);
        proof {
            assert(first@ =~= fraction@.take(4));
        }
        if same_text(first, "0000") {
            return t.to_owned();
        }
    }
    let mut out: String = String::new();
    append_or_zero(&mut out, whole);
    out.append(".");
    append_or_zero(&mut out, fraction);
    proof {
        assert(out@ =~= canonical(t@));
    }
    out
}

/// Zeros before a number, or after its fraction, do not show where it is of everyday
/// size, nor do they change whether it is.
pub proof fn law_padding_does_not_show(t: Seq<char>)
    ensures
        is_everyday("0"@ + t) == is_everyday(t),
        is_everyday(t) ==> shown_number("0"@ + t) == shown_number(t),
        first_of(t, '.') < t.len() ==> is_everyday(t + "0"@) == is_everyday(t),
        first_of(t, '.') < t.len() && is_everyday(t) ==> shown_number(t + "0"@) == shown_number(t),
{
    reveal_strlit("0");
    let led = "0"@ + t;
    assert(led[0] == '0');
    assert(led.drop_first() =~= t);
    assert(first_of(led, '.') == 1 + first_of(t, '.'));
    lemma_first_of_bounds(t, '.');
    assert(whole_part(led).drop_first() =~= whole_part(t));
    assert(fraction_part(led) =~= fraction_part(t));
    if first_of(t, '.') < t.len() {
        lemma_first_of_extended(t, "0"@, '.');
        let trailed = t + "0"@;
        assert(whole_part(trailed) =~= whole_part(t));
        assert(fraction_part(trailed).drop_last() =~= fraction_part(t));
        assert(fraction_part(trailed).last() == '0');
    }
}

proof fn lemma_first_of_bounds(t: Seq<char>, c: char)
    ensures
        0 <= first_of(t, c) <= t.len(),
    decreases t.len(),
{
    if t.len() > 0 && t[0] != c {
        lemma_first_of_bounds(t.drop_first(), c);
    }
}

proof fn lemma_first_of_extended(t: Seq<char>, more: Seq<char>, c: char)
    requires
        first_of(t, c) < t.len(),
    ensures
        first_of(t + more, c) == first_of(t, c),
    decreases t.len(),
{
    assert((t + more)[0] == t[0]);
    if t[0] != c {
        lemma_first_of_extended(t.drop_first(), more, c);
        assert((t + more).drop_first() =~= t.drop_first() + more);
    }
}

/// Timings read from a single report line.
#[derive(Debug, Clone)]
pub struct Report {
    pub request_id: String,
    pub duration_ms: Millis,
    pub billed_ms: Millis,
    pub memory_size_mb: i64,
    pub max_memory_used_mb: i64,
    /// Present only on a plain cold start.
    pub init_ms: Option<Millis>,
    /// Present only on a start restored from a snapshot.
    pub restore_ms: Option<Millis>,
}

impl Report {
    /// Whether the report shows a cold start.
    pub open spec fn cold(self) -> bool {
        self.init_ms is Some || self.restore_ms is Some
    }

    /// Whether the report shows a cold start, plain or restored.
    pub fn is_cold(&self) -> (r: bool)
        ensures
            r == self.cold(),
    {
        self.init_ms.is_some() || self.restore_ms.is_some()
    }

    /// What the report says, in plain values.
    pub open spec fn view(self) -> ReportView {
        ReportView {
            request_id: self.request_id@,
            duration: self.duration_ms.text@,
            billed: self.billed_ms.text@,
            memory_size_mb: self.memory_size_mb as int,
            max_memory_used_mb: self.max_memory_used_mb as int,
            init: match self.init_ms {
                Some(m) => Some(m.text@),
                None => None,
            },
            restore: match self.restore_ms {
                Some(m) => Some(m.text@),
                None => None,
            },
        }
    }
}

/// A report in plain values.
pub ghost struct ReportView {
    pub request_id: Seq<char>,
    pub duration: Seq<char>,
    pub billed: Seq<char>,
    pub memory_size_mb: int,
    pub max_memory_used_mb: int,
    pub init: Option<Seq<char>>,
    pub restore: Option<Seq<char>>,
}

/// The number that decimal digits denote.
pub open spec fn digits_value(t: Seq<char>) -> int
    decreases t.len(),
{
    if t.len() == 0 {
        0
    } else {
        digits_value(t.drop_last()) * 10 + (t.last() as u32 - '0' as u32)
    }
}

/// The number that a text of digits denotes, where it is no greater than `limit`.
pub open spec fn number_upto(t: Seq<char>, limit: int) -> Option<int> {
    if t.len() > 0 && (forall|i: int| 0 <= i < t.len() ==> is_digit(#[trigger] t[i]))
        && digits_value(t) <= limit {
        Some(digits_value(t))
    } else {
        None
    }
}

/// The number that a text of digits denotes, where it fits 64 bits.
pub open spec fn whole_number(t: Seq<char>) -> Option<int> {
    number_upto(t, i64::MAX as int)
}

/// The number that digits, with or without a minus before them, denote, where it
/// fits 64 bits.
pub open spec fn signed_number(t: Seq<char>) -> Option<int> {
    if t.len() > 0 && t[0] == '-' {
        match number_upto(t.drop_first(), 0x8000_0000_0000_0000) {
            Some(n) => Some(-n),
            None => None,
        }
    } else {
        whole_number(t)
    }
}

/// More digits never denote a smaller number.
proof fn lemma_digits_value_grows(t: Seq<char>, k: int)
    requires
        0 <= k <= t.len(),
        forall|i: int| 0 <= i < t.len() ==> is_digit(#[trigger] t[i]),
    ensures
        0 <= digits_value(t.take(k)) <= digits_value(t),
    decreases t.len(),
{
    if t.len() == 0 {
        assert(t.take(k) =~= t);
    } else if k == t.len() {
        assert(t.take(k) =~= t);
        lemma_digits_value_grows(t.drop_last(), t.len() - 1);
        assert(t.drop_last().take(t.len() - 1) =~= t.drop_last());
        assert(is_digit(t[t.len() - 1]));
    } else {
        lemma_digits_value_grows(t.drop_last(), k);
        assert(t.drop_last().take(k) =~= t.take(k));
        assert(is_digit(t[t.len() - 1]));
    }
}

/// Reads a text of digits as a number no greater than `limit`.
fn parse_upto(t: &str, limit: i128) -> (r: Option<i128>)
    requires
        0 <= limit <= 0x8000_0000_0000_0000,
    ensures
        match r {
            Some(n) => 0 <= n <= limit && number_upto(t@, limit as int) == Some(n as int),
            None => number_upto(t@, limit as int) is None,
        },
{
    let chars: Vec<char> = chars_of(t);
    if chars.len() == 0 {
        return None;
    }
    let mut i: usize = 0;
    while i < chars.len()
        invariant
            i <= chars.len(),
            chars@ == t@,
            forall|k: int| 0 <= k < i ==> is_digit(#[trigger] t@[k]),
        decreases chars.len() - i,
    {
        let c: char = chars[i];
        if !('0' <= c && c <= '9') {
            proof {
                assert(!is_digit(t@[i as int]));
            }
            return None;
        }
        i = i + 1;
    }
    let mut value: i128 = 0;
    let mut j: usize = 0;
    while j < chars.len()
        invariant
            j <= chars.len(),
            chars@ == t@,
            0 <= limit <= 0x8000_0000_0000_0000,
            forall|k: int| 0 <= k < t@.len() ==> is_digit(#[trigger] t@[k]),
            value as int == digits_value(t@.take(j as int)),
            0 <= value <= limit,
        decreases chars.len() - j,
    {
        let c: char = chars[j];
        let d: i128 = (c as u32 - '0' as u32) as i128;
        proof {
            assert(is_digit(t@[j as int]));
            assert(t@.take(j + 1).drop_last() =~= t@.take(j as int));
            assert(t@.take(j + 1).last() == c);
            lemma_digits_value_grows(t@, j + 1);
        }
        value = value * 10 + d;
        if value > limit {
            return None;
        }
        j = j + 1;
    }
    proof {
        assert(t@.take(t@.len() as int) =~= t@);
    }
    Some(value)
}

/// Reads a text of digits as a number.
pub fn parse_whole(t: &str) -> (r: Option<i64>)
    ensures
        match r {
            Some(n) => whole_number(t@) == Some(n as int),
            None => whole_number(t@) is None,
        },
{
    match parse_upto(t, 0x7fff_ffff_ffff_ffff) {
        Some(n) => Some(n as i64),
        None => None,
    }
}

/// Reads digits, with or without a minus before them, as a number.
pub fn parse_signed(t: &str) -> (r: Option<i64>)
    ensures
        match r {
            Some(n) => signed_number(t@) == Some(n as int),
            None => signed_number(t@) is None,
        },
{
    let n: usize = t.unicode_len();
    if n > 0 && t.get_char(0) == '-' {
        let rest: &str = t.substring_char(1, n);
        proof {
            assert(rest@ =~= t@.drop_first());
        }
        match parse_upto(rest, 0x8000_0000_0000_0000) {
            Some(v) => Some((-v) as i64),
            None => None,
        }
    } else {
        parse_whole(t)
    }
}

/// The texts of the captured groups of one match, the whole match first; a group
/// that took no part in it is missing.
pub open spec fn group_texts(g: Seq<Option<String>>) -> Seq<Option<Seq<char>>> {
    g.map_values(
        |o: Option<String>|
            match o {
                Some(s) => Some(s@),
                None => None,
            },
    )
}

/// The texts of the captured groups of several matches.
pub open spec fn all_group_texts(v: Seq<Vec<Option<String>>>) -> Seq<Seq<Option<Seq<char>>>> {
    v.map_values(|g: Vec<Option<String>>| group_texts(g@))
}

/// Whether `regex::Regex::new` accepts a pattern.
pub uninterp spec fn compiles(pattern: Seq<char>) -> bool;

/// The groups that `regex::Regex::captures` gives for a pattern in a text.
pub uninterp spec fn first_match(pattern: Seq<char>, text: Seq<char>) -> Option<
    Seq<Option<Seq<char>>>,
>;

/// The groups of every match that `regex::Regex::captures_iter` yields for a
/// pattern in a text.
pub uninterp spec fn all_matches(pattern: Seq<char>, text: Seq<char>) -> Seq<
    Seq<Option<Seq<char>>>,
>;

/// What stands in a field between a beginning and an end, where it has both.
pub open spec fn between(field: Seq<char>, before: Seq<char>, after: Seq<char>) -> Option<Seq<char>> {
    if before.len() + after.len() <= field.len() && field.take(before.len() as int) == before
        && field.skip(field.len() - after.len()) == after {
        Some(field.subrange(before.len() as int, field.len() - after.len()))
    } else {
        None
    }
}

/// Whether a text is made of digits and points alone, at least one of them.
pub open spec fn is_measure(t: Seq<char>) -> bool {
    t.len() > 0 && forall|i: int| 0 <= i < t.len() ==> is_digit(#[trigger] t[i]) || t[i] == '.'
}

/// Whether a text is made of digits alone, at least one of them.
pub open spec fn is_digits(t: Seq<char>) -> bool {
    t.len() > 0 && forall|i: int| 0 <= i < t.len() ==> is_digit(#[trigger] t[i])
}

/// Whether a text is made of hexadecimal digits and hyphens alone, at least one of
/// them.
pub open spec fn is_request_id(t: Seq<char>) -> bool {
    t.len() > 0 && forall|i: int|
        0 <= i < t.len() ==> is_digit(#[trigger] t[i]) || ('a' <= t[i] && t[i] <= 'f') || ('A'
            <= t[i] && t[i] <= 'F') || t[i] == '-'
}

/// The always-present fields of a line as the platform lays it out, where it is
/// laid out so: five fields first, set apart by tabs, each with its label and unit.
pub open spec fn laid_out(line: Seq<char>) -> Option<Seq<Option<Seq<char>>>> {
    let fields = pieces(line, '\t');
    if fields.len() < 5 {
        None
    } else {
        match (
            between(fields[0], "REPORT RequestId: "@, ""@),
            between(fields[1], "Duration: "@, " ms"@),
            between(fields[2], "Billed Duration: "@, " ms"@),
            between(fields[3], "Memory Size: "@, " MB"@),
            between(fields[4], "Max Memory Used: "@, " MB"@),
        ) {
            (Some(rid), Some(dur), Some(billed), Some(memsize), Some(maxmem)) => if is_request_id(
                rid,
            ) && is_measure(dur) && is_measure(billed) && is_digits(memsize) && is_digits(maxmem) {
                Some(
                    seq![
                        Some(joined(fields.take(5), "\t"@)),
                        Some(rid),
                        Some(dur),
                        Some(billed),
                        Some(memsize),
                        Some(maxmem),
                    ],
                )
            } else {
                None
            },
            _ => None,
        }
    }
}

/// What one field says of a cold marker: nothing; or the captured groups of the
/// marker, or of its billed sibling.
pub open spec fn marker_in(field: Seq<char>, label: Seq<char>) -> Option<Seq<Option<Seq<char>>>> {
    match between(field, label + " "@, " ms"@) {
        Some(v) => if is_measure(v) {
            Some(seq![Some(field), None, Some(v)])
        } else {
            None
        },
        None => match between(field, "Billed "@ + label + " "@, " ms"@) {
            Some(v) => if is_measure(v) {
                Some(seq![Some(field), Some("Billed "@), Some(v)])
            } else {
                None
            },
            None => None,
        },
    }
}

/// Whether every field that holds a marker's label is laid out as the marker or its
/// billed sibling.
pub open spec fn markers_laid_out(fields: Seq<Seq<char>>, label: Seq<char>) -> bool {
    forall|i: int|
        0 <= i < fields.len() && has_text(#[trigger] fields[i], label) ==> marker_in(
            fields[i],
            label,
        ) is Some
}

/// The captured groups of the markers among fields, in order.
pub open spec fn markers_in(fields: Seq<Seq<char>>, label: Seq<char>) -> Seq<
    Seq<Option<Seq<char>>>,
>
    decreases fields.len(),
{
    if fields.len() == 0 {
        Seq::empty()
    } else {
        match marker_in(fields.last(), label) {
            Some(g) => markers_in(fields.drop_last(), label).push(g),
            None => markers_in(fields.drop_last(), label),
        }
    }
}

/// The label of the marker of a plain cold start.
pub const INIT_LABEL: &'static str = "Init Duration:";

/// The label of the marker of a restored start.
pub const RESTORE_LABEL: &'static str = "Restore Duration:";

/// Whether a pattern is one of the three that reports are read with.
pub open spec fn is_report_pattern(pattern: Seq<char>) -> bool {
    pattern == REPORT_PATTERN@ || pattern == INIT_PATTERN@ || pattern == RESTORE_PATTERN@
}

/// `regex::Regex::captures`: the groups of the leftmost match of a pattern, by
/// number. Fails exactly where the pattern does not compile, which the report
/// patterns do. Which text matches is the regex crate's to say: the result is
/// named; spelled out is what the pattern of the always-present fields captures in
/// a line as the platform lays it out.
#[verifier::external_body]
fn regex_captures(pattern: &str, text: &str) -> (r: Result<Option<Vec<Option<String>>>, String>)
    ensures
        r is Ok <==> compiles(pattern@),
        is_report_pattern(pattern@) ==> r is Ok,
        match r {
            Ok(Some(g)) => first_match(pattern@, text@) == Some(group_texts(g@)),
            Ok(None) => first_match(pattern@, text@) is None,
            Err(_) => true,
        },
        r is Ok && pattern@ == REPORT_PATTERN@ && laid_out(text@) is Some ==> maybe_group_texts(
            r->Ok_0,
        ) == laid_out(text@),
{
    let re = regex::Regex::new(pattern).map_err(|e| e.to_string())?;
    Ok(re.captures(text).map(
        |c| c.iter().map(|m| m.map(|m| m.as_str().to_owned())).collect(),
    ))
}

/// `regex::Regex::captures_iter`: the groups of every match of a pattern, in the
/// order of the text. Fails exactly where the pattern does not compile, which the
/// report patterns do. Which text matches is the regex crate's to say: the result
/// is named; spelled out is what the patterns of the cold markers capture in
/// tab-separated fields that hold a marker's label only as the platform lays it
/// out.
#[verifier::external_body]
fn regex_captures_iter(pattern: &str, text: &str) -> (r: Result<Vec<Vec<Option<String>>>, String>)
    ensures
        r is Ok <==> compiles(pattern@),
        is_report_pattern(pattern@) ==> r is Ok,
        match r {
            Ok(v) => all_matches(pattern@, text@) == all_group_texts(v@),
            Err(_) => true,
        },
        r is Ok && pattern@ == INIT_PATTERN@ && markers_laid_out(pieces(text@, '\t'), INIT_LABEL@)
            ==> all_group_texts(r->Ok_0@) == markers_in(pieces(text@, '\t'), INIT_LABEL@),
        r is Ok && pattern@ == RESTORE_PATTERN@ && markers_laid_out(
            pieces(text@, '\t'),
            RESTORE_LABEL@,
        ) ==> all_group_texts(r->Ok_0@) == markers_in(pieces(text@, '\t'), RESTORE_LABEL@),
{
    let re = regex::Regex::new(pattern).map_err(|e| e.to_string())?;
    Ok(re.captures_iter(text).map(
        |c| c.iter().map(|m| m.map(|m| m.as_str().to_owned())).collect(),
    ).collect())
}

/// The last line that bears the platform's mark.
pub open spec fn last_marked(v: Seq<Seq<char>>) -> Option<Seq<char>>
    decreases v.len(),
{
    if v.len() == 0 {
        None
    } else if has_text(v.last(), REPORT_MARK@) {
        Some(v.last())
    } else {
        last_marked(v.drop_last())
    }
}

/// The platform's line in a log tail: the last one that bears its mark, so that
/// a line which a handler logged earlier cannot stand in for it.
pub open spec fn report_line(log_tail: Seq<char>) -> Option<Seq<char>> {
    last_marked(lines_of(log_tail))
}

/// Finds the platform's line in a log tail.
pub fn find_report_line(log_tail: &str) -> (r: Option<String>)
    ensures
        match r {
            Some(line) => report_line(log_tail@) == Some(line@),
            None => report_line(log_tail@) is None,
        },
{
    let all: Vec<String> = lines(log_tail);
    let mut i: usize = all.len();
    proof {
        assert(texts(all@).take(i as int) =~= texts(all@));
    }
    while i > 0
        invariant
            i <= all.len(),
            texts(all@) == lines_of(log_tail@),
            last_marked(texts(all@).take(i as int)) == report_line(log_tail@),
        decreases i,
    {
        proof {
            let head = texts(all@).take(i as int);
            assert(head.last() == all@[i - 1]@);
            assert(head.drop_last() =~= texts(all@).take(i - 1));
        }
        if contains_text(all[i - 1].as_str(), REPORT_MARK) {
            return Some(all[i - 1].clone());
        }
        i = i - 1;
    }
    None
}

/// The captured value of the first match that is not the billed sibling: group 1
/// is the billed prefix, group 2 the value.
pub open spec fn unbilled(matches: Seq<Seq<Option<Seq<char>>>>) -> Option<Seq<char>>
    decreases matches.len(),
{
    if matches.len() == 0 {
        None
    } else if group_of(matches[0], 1) is None {
        group_of(matches[0], 2)
    } else {
        unbilled(matches.drop_first())
    }
}

/// The text of a group, where it took part in the match.
pub open spec fn group_of(g: Seq<Option<Seq<char>>>, n: int) -> Option<Seq<char>> {
    if n < g.len() {
        g[n]
    } else {
        None
    }
}

fn group_text(g: &Vec<Option<String>>, n: usize) -> (r: Option<String>)
    ensures
        match r {
            Some(s) => group_of(group_texts(g@), n as int) == Some(s@),
            None => group_of(group_texts(g@), n as int) is None,
        },
{
    if n < g.len() {
        match &g[n] {
            Some(s) => Some(s.clone()),
            None => None,
        }
    } else {
        None
    }
}

/// The value of the first match that is not the billed sibling.
fn first_unbilled(matches: &Vec<Vec<Option<String>>>) -> (r: Option<String>)
    ensures
        match r {
            Some(s) => unbilled(all_group_texts(matches@)) == Some(s@),
            None => unbilled(all_group_texts(matches@)) is None,
        },
{
    let ghost all = all_group_texts(matches@);
    let mut i: usize = 0;
    proof {
        assert(all.skip(0) =~= all);
    }
    while i < matches.len()
        invariant
            i <= matches.len(),
            all == all_group_texts(matches@),
            unbilled(all.skip(i as int)) == unbilled(all),
        decreases matches.len() - i,
    {
        proof {
            assert(all.skip(i as int)[0] == group_texts(matches@[i as int]@));
            assert(all.skip(i as int).drop_first() =~= all.skip(i + 1));
        }
        if group_text(&matches[i], 1).is_none() {
            return group_text(&matches[i], 2);
        }
        i = i + 1;
    }
    None
}

/// The value of a cold marker: absent, a number, or the complaint.
pub open spec fn marker_value(
    matches: Seq<Seq<Option<Seq<char>>>>,
    label: Seq<char>,
    line: Seq<char>,
) -> Result<Option<Seq<char>>, Seq<char>> {
    match unbilled(matches) {
        None => Ok(None),
        Some(t) => if is_number(t) {
            Ok(Some(t))
        } else {
            Err("parsing "@ + label + ": "@ + line)
        },
    }
}

fn read_marker(matches: &Vec<Vec<Option<String>>>, label: &str, line: &str) -> (r: Result<
    Option<Millis>,
    String,
>)
    ensures
        match r {
            Ok(Some(m)) => m.wf() && marker_value(all_group_texts(matches@), label@, line@) == Ok::<
                Option<Seq<char>>,
                Seq<char>,
            >(Some(m.text@)),
            Ok(None) => marker_value(all_group_texts(matches@), label@, line@) == Ok::<
                Option<Seq<char>>,
                Seq<char>,
            >(None),
            Err(e) => marker_value(all_group_texts(matches@), label@, line@) == Err::<
                Option<Seq<char>>,
                Seq<char>,
            >(e@),
        },
{
    match first_unbilled(matches) {
        None => Ok(None),
        Some(t) => {
            if check_number(t.as_str()) {
                Ok(Some(Millis { text: t }))
            } else {
                let mut out: String = "parsing ".to_owned();
                out.append(label);
                out.append(": ");
                out.append(line);
                Err(out)
            }
        },
    }
}

/// A number field of the report: its text, or the complaint.
pub open spec fn number_field(
    groups: Seq<Option<Seq<char>>>,
    n: int,
    name: Seq<char>,
    line: Seq<char>,
) -> Result<Seq<char>, Seq<char>> {
    match group_of(groups, n) {
        None => Err("missing field "@ + name + " in REPORT: "@ + line),
        Some(t) => if is_number(t) {
            Ok(t)
        } else {
            Err("parsing "@ + name + " as f64 in REPORT: "@ + line)
        },
    }
}

fn read_number(groups: &Vec<Option<String>>, n: usize, name: &str, line: &str) -> (r: Result<
    Millis,
    String,
>)
    ensures
        match r {
            Ok(m) => m.wf() && number_field(group_texts(groups@), n as int, name@, line@) == Ok::<
                Seq<char>,
                Seq<char>,
            >(m.text@),
            Err(e) => number_field(group_texts(groups@), n as int, name@, line@) == Err::<
                Seq<char>,
                Seq<char>,
            >(e@),
        },
{
    match group_text(groups, n) {
        None => Err(field_complaint("missing field ", name, " in REPORT: ", line)),
        Some(t) => {
            if check_number(t.as_str()) {
                Ok(Millis { text: t })
            } else {
                Err(field_complaint("parsing ", name, " as f64 in REPORT: ", line))
            }
        },
    }
}

fn field_complaint(before: &str, name: &str, after: &str, line: &str) -> (r: String)
    ensures
        r@ == before@ + name@ + after@ + line@,
{
    let mut out: String = before.to_owned();
    out.append(name);
    out.append(after);
    out.append(line);
    out
}

/// A whole-number field of the report: its value, or the complaint.
pub open spec fn whole_field(
    groups: Seq<Option<Seq<char>>>,
    n: int,
    name: Seq<char>,
    line: Seq<char>,
) -> Result<int, Seq<char>> {
    match group_of(groups, n) {
        None => Err("missing field "@ + name + " in REPORT: "@ + line),
        Some(t) => match whole_number(t) {
            Some(v) => Ok(v),
            None => Err("parsing "@ + name + " as i64 in REPORT: "@ + line),
        },
    }
}

fn read_whole(groups: &Vec<Option<String>>, n: usize, name: &str, line: &str) -> (r: Result<
    i64,
    String,
>)
    ensures
        match r {
            Ok(v) => whole_field(group_texts(groups@), n as int, name@, line@) == Ok::<
                int,
                Seq<char>,
            >(v as int),
            Err(e) => whole_field(group_texts(groups@), n as int, name@, line@) == Err::<
                int,
                Seq<char>,
            >(e@),
        },
{
    match group_text(groups, n) {
        None => Err(field_complaint("missing field ", name, " in REPORT: ", line)),
        Some(t) => match parse_whole(t.as_str()) {
            Some(v) => Ok(v),
            None => Err(field_complaint("parsing ", name, " as i64 in REPORT: ", line)),
        },
    }
}

/// The report that a line and its captured fields make, or the first complaint:
/// the cold markers are read before the other fields.
pub open spec fn report_of(
    line: Seq<char>,
    fields: Option<Seq<Option<Seq<char>>>>,
    inits: Seq<Seq<Option<Seq<char>>>>,
    restores: Seq<Seq<Option<Seq<char>>>>,
) -> Result<ReportView, Seq<char>> {
    match fields {
        None => Err("REPORT line did not match expected format: "@ + line),
        Some(g) => match marker_value(inits, "Init Duration"@, line) {
            Err(e) => Err(e),
            Ok(init) => match marker_value(restores, "Restore Duration"@, line) {
                Err(e) => Err(e),
                Ok(restore) => match group_of(g, 1) {
                    None => Err("missing RequestId in REPORT: "@ + line),
                    Some(request_id) => match number_field(g, 2, "dur"@, line) {
                        Err(e) => Err(e),
                        Ok(duration) => match number_field(g, 3, "billed"@, line) {
                            Err(e) => Err(e),
                            Ok(billed) => match whole_field(g, 4, "memsize"@, line) {
                                Err(e) => Err(e),
                                Ok(memory_size_mb) => match whole_field(g, 5, "maxmem"@, line) {
                                    Err(e) => Err(e),
                                    Ok(max_memory_used_mb) => Ok(
                                        ReportView {
                                            request_id,
                                            duration,
                                            billed,
                                            memory_size_mb,
                                            max_memory_used_mb,
                                            init,
                                            restore,
                                        },
                                    ),
                                },
                            },
                        },
                    },
                },
            },
        },
    }
}

/// The texts of an optional match.
pub open spec fn maybe_group_texts(g: Option<Vec<Option<String>>>) -> Option<
    Seq<Option<Seq<char>>>,
> {
    match g {
        Some(v) => Some(group_texts(v@)),
        None => None,
    }
}

/// Builds the report from a line and what was captured in it: `fields` holds the
/// groups of the always-present fields, `inits` and `restores` those of every
/// cold marker.
pub fn report_from_captures(
    line: &str,
    fields: &Option<Vec<Option<String>>>,
    inits: &Vec<Vec<Option<String>>>,
    restores: &Vec<Vec<Option<String>>>,
) -> (r: Result<Report, String>)
    ensures
        match (
            r,
            report_of(
                line@,
                maybe_group_texts(*fields),
                all_group_texts(inits@),
                all_group_texts(restores@),
            ),
        ) {
            (Ok(report), Ok(v)) => report@ == v,
            (Err(e), Err(m)) => e@ == m,
            _ => false,
        },
{
    let g: &Vec<Option<String>> = match fields {
        None => {
            let mut out: String = "REPORT line did not match expected format: ".to_owned();
            out.append(line);
            return Err(out);
        },
        Some(g) => g,
    };
    let init_ms: Option<Millis> = match read_marker(inits, "Init Duration", line) {
        Ok(m) => m,
        Err(e) => {
            return Err(e);
        },
    };
    let restore_ms: Option<Millis> = match read_marker(restores, "Restore Duration", line) {
        Ok(m) => m,
        Err(e) => {
            return Err(e);
        },
    };
    let request_id: String = match group_text(g, 1) {
        Some(s) => s,
        None => {
            let mut out: String = "missing RequestId in REPORT: ".to_owned();
            out.append(line);
            return Err(out);
        },
    };
    let duration_ms: Millis = match read_number(g, 2, "dur", line) {
        Ok(m) => m,
        Err(e) => {
            return Err(e);
        },
    };
    let billed_ms: Millis = match read_number(g, 3, "billed", line) {
        Ok(m) => m,
        Err(e) => {
            return Err(e);
        },
    };
    let memory_size_mb: i64 = match read_whole(g, 4, "memsize", line) {
        Ok(v) => v,
        Err(e) => {
            return Err(e);
        },
    };
    let max_memory_used_mb: i64 = match read_whole(g, 5, "maxmem", line) {
        Ok(v) => v,
        Err(e) => {
            return Err(e);
        },
    };
    Ok(
        Report {
            request_id,
            duration_ms,
            billed_ms,
            memory_size_mb,
            max_memory_used_mb,
            init_ms,
            restore_ms,
        },
    )
}

/// What a log tail reports: a complaint where no line bears the mark, else what
/// the last such line says.
pub open spec fn report_in(log_tail: Seq<char>) -> Result<ReportView, Seq<char>> {
    match report_line(log_tail) {
        None => Err("no REPORT line in log tail:\n"@ + log_tail),
        Some(line) => report_of(
            line,
            first_match(REPORT_PATTERN@, line),
            all_matches(INIT_PATTERN@, line),
            all_matches(RESTORE_PATTERN@, line),
        ),
    }
}

/// Whether a line is laid out as the platform does it, markers and all.
pub open spec fn is_tidy(line: Seq<char>) -> bool {
    &&& laid_out(line) is Some
    &&& markers_laid_out(pieces(line, '\t'), INIT_LABEL@)
    &&& markers_laid_out(pieces(line, '\t'), RESTORE_LABEL@)
}

/// What a line that is laid out as the platform does it reports.
pub open spec fn tidy_report(line: Seq<char>) -> Result<ReportView, Seq<char>> {
    report_of(
        line,
        laid_out(line),
        markers_in(pieces(line, '\t'), INIT_LABEL@),
        markers_in(pieces(line, '\t'), RESTORE_LABEL@),
    )
}

/// Reads the report out of a decoded log tail. Fails where no report line is
/// present or a field of it cannot be read, never with partial data. A line laid
/// out as the platform does it gives back its fields, whatever follows them and
/// wherever the cold markers stand.
pub fn parse_report(log_tail: &str) -> (r: Result<Report, String>)
    ensures
        report_line(log_tail@) is Some && is_tidy(report_line(log_tail@)->0) ==> match (
            r,
            tidy_report(report_line(log_tail@)->0),
        ) {
            (Ok(report), Ok(v)) => report@ == v,
            (Err(e), Err(m)) => e@ == m,
            _ => false,
        },
        match (r, report_in(log_tail@)) {
            (Ok(report), Ok(v)) => report@ == v,
            (Err(e), Err(m)) => e@ == m,
            _ => false,
        },
{
    let line: String = match find_report_line(log_tail) {
        Some(line) => line,
        None => {
            let mut out: String = "no REPORT line in log tail:\n".to_owned();
            out.append(log_tail);
            return Err(out);
        },
    };
    let fields: Option<Vec<Option<String>>> = match regex_captures(REPORT_PATTERN, line.as_str()) {
        Ok(fields) => fields,
        Err(e) => {
            return Err(e);
        },
    };
    let inits: Vec<Vec<Option<String>>> = match regex_captures_iter(INIT_PATTERN, line.as_str()) {
        Ok(inits) => inits,
        Err(e) => {
            return Err(e);
        },
    };
    let restores: Vec<Vec<Option<String>>> = match regex_captures_iter(
        RESTORE_PATTERN,
        line.as_str(),
    ) {
        Ok(restores) => restores,
        Err(e) => {
            return Err(e);
        },
    };
    report_from_captures(line.as_str(), &fields, &inits, &restores)
}

} // verus!
