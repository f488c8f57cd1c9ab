//! What reading a report is for: the numbers that the platform printed, each under
//! its own label.
use crate::report::{
    between, digits_value, group_of, is_number, is_tidy, marker_in, markers_in,
    markers_laid_out, report_line, report_of, shown_number, tidy_report, unbilled, whole_number,
    without_leading_zeros, without_trailing_zeros, INIT_LABEL, REPORT_MARK, RESTORE_LABEL,
};
use crate::report_laws::{
    is_unbilled_marker, law_last_report_line_wins, law_marker_is_read_wherever_it_stands,
};
use crate::text::{first_of, has_text, is_digit, joined, occurs_at, pieces};
use crate::text_lemmas::{all_lack, lacks, lemma_joined_lacks};
use crate::text_rules::{law_first_occurrence, law_splitting_undoes_joining};
use vstd::prelude::*;
use vstd::string::*;

verus! {

/// Whether a text is made of the ten digits, at least one of them.
pub open spec fn all_digits(t: Seq<char>) -> bool {
    t.len() > 0 && forall|i: int| 0 <= i < t.len() ==> '0' <= #[trigger] t[i] && t[i] <= '9'
}

/// Digits are a number, and so are digits with one point among them; nothing, a point
/// alone, two points, or any other character make no number.
pub proof fn law_what_is_a_number(a: Seq<char>, b: Seq<char>, c: char)
    requires
        all_digits(a),
        all_digits(b),
    ensures
        is_number(a),
        is_number(a + seq!['.'] + b),
        is_number(a.push('.')),
        is_number(seq!['.'] + b),
        !is_number(Seq::empty()),
        !is_number(seq!['.']),
        !is_number(a + seq!['.'] + b + seq!['.']),
        !('0' <= c && c <= '9') && c != '.' ==> !is_number(a + seq![c] + b) && !is_number(a.push(c)),
{
    assert(is_digit(a[0]));
    let mid = a + seq!['.'] + b;
    assert(mid[0] == a[0]);
    assert(a.push('.')[0] == a[0]);
    let led = seq!['.'] + b;
    assert(led[1] == b[0]);
    assert(is_digit(led[1]));
    let two = mid + seq!['.'];
    assert(two[a.len() as int] == '.' && two[two.len() - 1] == '.');
    let dot = seq!['.'];
    assert(!is_digit(dot[0]));
    let odd = a + seq![c] + b;
    assert(odd[a.len() as int] == c);
    assert(a.push(c)[a.len() as int] == c);
}

/// Further fields of a report line.
pub ghost enum Extra {
    /// The marker of a plain cold start.
    Init(Seq<char>),
    /// Its billed sibling.
    BilledInit(Seq<char>),
    /// The marker of a restored start.
    Restore(Seq<char>),
    /// Its billed sibling.
    BilledRestore(Seq<char>),
    /// Anything else.
    Other(Seq<char>),
}

impl Extra {
    /// The field as the platform prints it.
    pub open spec fn text(self) -> Seq<char> {
        match self {
            Extra::Init(v) => "Init Duration: "@ + v + " ms"@,
            Extra::BilledInit(v) => "Billed Init Duration: "@ + v + " ms"@,
            Extra::Restore(v) => "Restore Duration: "@ + v + " ms"@,
            Extra::BilledRestore(v) => "Billed Restore Duration: "@ + v + " ms"@,
            Extra::Other(t) => t,
        }
    }

    /// Whether the field can be told apart: a measurement is digits and points, and
    /// anything else holds no marker and no end of a field or line.
    pub open spec fn plain(self) -> bool {
        match self {
            Extra::Init(v) => measured(v),
            Extra::BilledInit(v) => measured(v),
            Extra::Restore(v) => measured(v),
            Extra::BilledRestore(v) => measured(v),
            Extra::Other(t) => {
                &&& lacks(t, '\t')
                &&& lacks(t, '\n')
                &&& lacks(t, '\r')
                &&& !has_text(t, "Init Duration:"@)
                &&& !has_text(t, "Restore Duration:"@)
            },
        }
    }
}

/// Whether a text is made of digits and points, at least one of them.
pub open spec fn measured(t: Seq<char>) -> bool {
    t.len() > 0 && forall|i: int|
        0 <= i < t.len() ==> ('0' <= #[trigger] t[i] && t[i] <= '9') || t[i] == '.'
}

/// Whether a text is made of hexadecimal digits and hyphens, at least one of them.
pub open spec fn hex_and_hyphens(t: Seq<char>) -> bool {
    t.len() > 0 && forall|i: int|
        0 <= i < t.len() ==> ('0' <= #[trigger] t[i] && t[i] <= '9') || ('a' <= t[i] && t[i] <= 'f')
            || ('A' <= t[i] && t[i] <= 'F') || t[i] == '-'
}

/// The always-present fields, as the platform prints them.
pub open spec fn first_fields(
    rid: Seq<char>,
    d: Seq<char>,
    b: Seq<char>,
    s: Seq<char>,
    m: Seq<char>,
) -> Seq<Seq<char>> {
    seq![
        "REPORT RequestId: "@ + rid,
        "Duration: "@ + d + " ms"@,
        "Billed Duration: "@ + b + " ms"@,
        "Memory Size: "@ + s + " MB"@,
        "Max Memory Used: "@ + m + " MB"@,
    ]
}

/// All fields of a line, as the platform prints them.
pub open spec fn printed_fields(
    rid: Seq<char>,
    d: Seq<char>,
    b: Seq<char>,
    s: Seq<char>,
    m: Seq<char>,
    extras: Seq<Extra>,
) -> Seq<Seq<char>> {
    first_fields(rid, d, b, s, m) + extras.map_values(|e: Extra| e.text())
}

/// A report line as the platform prints it: its fields, set apart by tabs.
pub open spec fn printed_line(
    rid: Seq<char>,
    d: Seq<char>,
    b: Seq<char>,
    s: Seq<char>,
    m: Seq<char>,
    extras: Seq<Extra>,
) -> Seq<char> {
    joined(printed_fields(rid, d, b, s, m, extras), "\t"@)
}

proof fn lemma_between(before: Seq<char>, v: Seq<char>, after: Seq<char>)
    ensures
        between(before + v + after, before, after) == Some(v),
{
    let field = before + v + after;
    assert(field.take(before.len() as int) =~= before);
    assert(field.skip(field.len() - after.len()) =~= after);
    assert(field.subrange(before.len() as int, field.len() - after.len()) =~= v);
}

proof fn lemma_between_starts(field: Seq<char>, before: Seq<char>, after: Seq<char>, i: int)
    requires
        between(field, before, after) is Some,
        0 <= i < before.len(),
    ensures
        i < field.len(),
        field[i] == before[i],
{
    assert(field.take(before.len() as int)[i] == before[i]);
}

/// A text without one of the pattern's characters does not hold the pattern.
proof fn lemma_cannot_hold(t: Seq<char>, pat: Seq<char>, j: int)
    requires
        0 <= j < pat.len(),
        lacks(t, pat[j]),
    ensures
        !has_text(t, pat),
{
    if has_text(t, pat) {
        let i = choose|i: int| #[trigger] occurs_at(t, pat, i);
        assert(t.subrange(i, i + pat.len())[j] == pat[j]);
        assert(t[i + j] == pat[j]);
    }
}

/// A field that holds no marker's label is no marker.
proof fn lemma_no_label_no_marker(field: Seq<char>, label: Seq<char>)
    requires
        !has_text(field, label),
        label.len() > 0,
    ensures
        marker_in(field, label) is None,
{
    let plain = label + " "@;
    if between(field, plain, " ms"@) is Some {
        assert(field.subrange(0, label.len() as int) =~= label) by {
            assert forall|i: int| 0 <= i < label.len() implies field[i] == label[i] by {
                lemma_between_starts(field, plain, " ms"@, i);
            }
        }
        assert(occurs_at(field, label, 0));
    }
    let billed = "Billed "@ + label + " "@;
    if between(field, billed, " ms"@) is Some {
        let n = "Billed "@.len() as int;
        assert(field.subrange(n, n + label.len()) =~= label) by {
            assert forall|i: int| 0 <= i < label.len() implies field[n + i] == label[i] by {
                lemma_between_starts(field, billed, " ms"@, n + i);
            }
        }
        assert(occurs_at(field, label, n));
    }
}

proof fn lemma_literals()
    ensures
        "\t"@ == seq!['\t'],
        " "@ == seq![' '],
        ""@ == Seq::<char>::empty(),
        INIT_LABEL@ == "Init Duration:"@,
        RESTORE_LABEL@ == "Restore Duration:"@,
        "Init Duration: "@ == INIT_LABEL@ + " "@,
        "Restore Duration: "@ == RESTORE_LABEL@ + " "@,
        "Billed Init Duration: "@ == "Billed "@ + INIT_LABEL@ + " "@,
        "Billed Restore Duration: "@ == "Billed "@ + RESTORE_LABEL@ + " "@,
        INIT_LABEL@.len() == 14,
        INIT_LABEL@[0] == 'I',
        INIT_LABEL@[1] == 'n',
        RESTORE_LABEL@.len() == 17,
        RESTORE_LABEL@[0] == 'R',
        RESTORE_LABEL@[4] == 'o',
        "Billed "@.len() == 7,
        "Billed "@[0] == 'B',
{
    reveal_strlit("\t");
    reveal_strlit(" ");
    reveal_strlit("");
    reveal_strlit("Init Duration:");
    reveal_strlit("Restore Duration:");
    reveal_strlit("Init Duration: ");
    reveal_strlit("Restore Duration: ");
    reveal_strlit("Billed ");
    reveal_strlit("Billed Init Duration: ");
    reveal_strlit("Billed Restore Duration: ");
    assert("\t"@ =~= seq!['\t']);
    assert(" "@ =~= seq![' ']);
    assert(""@ =~= Seq::<char>::empty());
    assert("Init Duration: "@ =~= INIT_LABEL@ + " "@);
    assert("Restore Duration: "@ =~= RESTORE_LABEL@ + " "@);
    assert("Billed Init Duration: "@ =~= "Billed "@ + INIT_LABEL@ + " "@);
    assert("Billed Restore Duration: "@ =~= "Billed "@ + RESTORE_LABEL@ + " "@);
}

/// Which characters the labels and units lack.
proof fn lemma_labels_lack(c: char)
    requires
        c == '\t' || c == '\n' || c == '\r' || c == 'I' || c == 'R' || c == 'o' || c == 'n',
    ensures
        c != 'I' && c != 'R' ==> lacks("REPORT RequestId: "@, c),
        c != 'o' && c != 'n' ==> lacks("Duration: "@, c),
        c != 'o' && c != 'n' ==> lacks("Billed Duration: "@, c),
        c != 'o' && c != 'n' ==> lacks("Memory Size: "@, c),
        c != 'o' && c != 'n' ==> lacks("Max Memory Used: "@, c),
        c != 'I' && c != 'o' && c != 'n' ==> lacks("Init Duration: "@, c),
        c != 'I' && c != 'o' && c != 'n' ==> lacks("Billed Init Duration: "@, c),
        c != 'R' && c != 'o' && c != 'n' ==> lacks("Restore Duration: "@, c),
        c != 'R' && c != 'o' && c != 'n' ==> lacks("Billed Restore Duration: "@, c),
        lacks(" ms"@, c),
        lacks(" MB"@, c),
{
    reveal_strlit("REPORT RequestId: ");
    reveal_strlit("Duration: ");
    reveal_strlit("Billed Duration: ");
    reveal_strlit("Memory Size: ");
    reveal_strlit("Max Memory Used: ");
    reveal_strlit("Init Duration: ");
    reveal_strlit("Billed Init Duration: ");
    reveal_strlit("Restore Duration: ");
    reveal_strlit("Billed Restore Duration: ");
    reveal_strlit(" ms");
    reveal_strlit(" MB");
}

proof fn lemma_lacks_sum(a: Seq<char>, b: Seq<char>, c: char)
    requires
        lacks(a, c),
        lacks(b, c),
    ensures
        lacks(a + b, c),
{
}

/// The always-present fields hold no separator and no marker.
proof fn lemma_first_fields(
    rid: Seq<char>,
    d: Seq<char>,
    b: Seq<char>,
    s: Seq<char>,
    m: Seq<char>,
    i: int,
)
    requires
        hex_and_hyphens(rid),
        measured(d),
        measured(b),
        all_digits(s),
        all_digits(m),
        0 <= i < 5,
    ensures
        ({
            let f = first_fields(rid, d, b, s, m)[i];
            &&& lacks(f, '\t') && lacks(f, '\n') && lacks(f, '\r')
            &&& !has_text(f, INIT_LABEL@) && !has_text(f, RESTORE_LABEL@)
        }),
{
    let f = first_fields(rid, d, b, s, m)[i];
    lemma_literals();
    lemma_labels_lack('\t');
    lemma_labels_lack('\n');
    lemma_labels_lack('\r');
    lemma_labels_lack('I');
    lemma_labels_lack('R');
    lemma_labels_lack('n');
    lemma_labels_lack('o');
    if i == 0 {
        lemma_lacks_sum("REPORT RequestId: "@, rid, '\t');
        lemma_lacks_sum("REPORT RequestId: "@, rid, 'n');
        lemma_lacks_sum("REPORT RequestId: "@, rid, 'o');
        lemma_cannot_hold(f, INIT_LABEL@, 1);
        lemma_cannot_hold(f, RESTORE_LABEL@, 4);
    } else {
        lemma_cannot_hold(f, INIT_LABEL@, 0);
        lemma_cannot_hold(f, RESTORE_LABEL@, 0);
    }
}

/// What a further field says of either marker.
proof fn lemma_extra(e: Extra)
    requires
        e.plain(),
    ensures
        lacks(e.text(), '\t') && lacks(e.text(), '\n') && lacks(e.text(), '\r'),
        has_text(e.text(), INIT_LABEL@) ==> marker_in(e.text(), INIT_LABEL@) is Some,
        has_text(e.text(), RESTORE_LABEL@) ==> marker_in(e.text(), RESTORE_LABEL@) is Some,
        is_unbilled_marker(e.text(), INIT_LABEL@) <==> e is Init,
        is_unbilled_marker(e.text(), RESTORE_LABEL@) <==> e is Restore,
        e is Init ==> between(e.text(), INIT_LABEL@ + " "@, " ms"@) == Some(e->Init_0),
        e is Restore ==> between(e.text(), RESTORE_LABEL@ + " "@, " ms"@) == Some(e->Restore_0),
{
    lemma_literals();
    lemma_labels_lack('\t');
    lemma_labels_lack('\n');
    lemma_labels_lack('\r');
    lemma_labels_lack('I');
    lemma_labels_lack('R');
    let t = e.text();
    let init = INIT_LABEL@ + " "@;
    let restore = RESTORE_LABEL@ + " "@;
    let billed_init = "Billed "@ + INIT_LABEL@ + " "@;
    let billed_restore = "Billed "@ + RESTORE_LABEL@ + " "@;
    match e {
        Extra::Init(v) => {
            lemma_between(init, v, " ms"@);
            lemma_cannot_hold(t, RESTORE_LABEL@, 0);
            lemma_no_label_no_marker(t, RESTORE_LABEL@);
        },
        Extra::BilledInit(v) => {
            lemma_between(billed_init, v, " ms"@);
            assert(t[0] == 'B');
            if between(t, init, " ms"@) is Some {
                lemma_between_starts(t, init, " ms"@, 0);
            }
            lemma_cannot_hold(t, RESTORE_LABEL@, 0);
            lemma_no_label_no_marker(t, RESTORE_LABEL@);
        },
        Extra::Restore(v) => {
            lemma_between(restore, v, " ms"@);
            lemma_cannot_hold(t, INIT_LABEL@, 0);
            lemma_no_label_no_marker(t, INIT_LABEL@);
        },
        Extra::BilledRestore(v) => {
            lemma_between(billed_restore, v, " ms"@);
            assert(t[0] == 'B');
            if between(t, restore, " ms"@) is Some {
                lemma_between_starts(t, restore, " ms"@, 0);
            }
            lemma_cannot_hold(t, INIT_LABEL@, 0);
            lemma_no_label_no_marker(t, INIT_LABEL@);
        },
        Extra::Other(_) => {
            lemma_no_label_no_marker(t, INIT_LABEL@);
            lemma_no_label_no_marker(t, RESTORE_LABEL@);
        },
    }
}

/// The fields of a printed line are read as they were printed.
proof fn lemma_printed_fields(
    rid: Seq<char>,
    d: Seq<char>,
    b: Seq<char>,
    s: Seq<char>,
    m: Seq<char>,
    extras: Seq<Extra>,
)
    requires
        hex_and_hyphens(rid),
        measured(d),
        measured(b),
        all_digits(s),
        all_digits(m),
        forall|i: int| 0 <= i < extras.len() ==> (#[trigger] extras[i]).plain(),
    ensures
        pieces(printed_line(rid, d, b, s, m, extras), '\t') == printed_fields(
            rid,
            d,
            b,
            s,
            m,
            extras,
        ),
        all_lack(printed_fields(rid, d, b, s, m, extras), '\n'),
        all_lack(printed_fields(rid, d, b, s, m, extras), '\r'),
{
    let first = first_fields(rid, d, b, s, m);
    let fields = printed_fields(rid, d, b, s, m, extras);
    assert forall|i: int| 0 <= i < fields.len() implies lacks(#[trigger] fields[i], '\t') && lacks(
        fields[i],
        '\n',
    ) && lacks(fields[i], '\r') by {
        if i < 5 {
            lemma_first_fields(rid, d, b, s, m, i);
            assert(fields[i] == first[i]);
        } else {
            let e = extras[i - 5];
            lemma_extra(e);
            assert(fields[i] == e.text());
        }
    }
    lemma_literals();
    law_splitting_undoes_joining(fields, '\t');
}

/// The first unbilled marker among the fields of a printed line.
proof fn lemma_first_marker(
    rid: Seq<char>,
    d: Seq<char>,
    b: Seq<char>,
    s: Seq<char>,
    m: Seq<char>,
    extras: Seq<Extra>,
    restored: bool,
    k: int,
)
    requires
        hex_and_hyphens(rid),
        measured(d),
        measured(b),
        all_digits(s),
        all_digits(m),
        forall|i: int| 0 <= i < extras.len() ==> (#[trigger] extras[i]).plain(),
        0 <= k <= extras.len(),
        forall|i: int|
            0 <= i < k ==> if restored {
                !(#[trigger] extras[i] is Restore)
            } else {
                !(extras[i] is Init)
            },
        k < extras.len() ==> if restored {
            extras[k] is Restore
        } else {
            extras[k] is Init
        },
    ensures
        ({
            let label = if restored {
                RESTORE_LABEL@
            } else {
                INIT_LABEL@
            };
            let fields = printed_fields(rid, d, b, s, m, extras);
            &&& markers_laid_out(fields, label)
            &&& unbilled(markers_in(fields, label)) == (if k == extras.len() {
                None
            } else if restored {
                Some(extras[k]->Restore_0)
            } else {
                Some(extras[k]->Init_0)
            })
        }),
{
    lemma_literals();
    let label = if restored {
        RESTORE_LABEL@
    } else {
        INIT_LABEL@
    };
    let first = first_fields(rid, d, b, s, m);
    let fields = printed_fields(rid, d, b, s, m, extras);
    assert forall|i: int| 0 <= i < fields.len() && has_text(#[trigger] fields[i], label) implies marker_in(
        fields[i],
        label,
    ) is Some by {
        if i < 5 {
            lemma_first_fields(rid, d, b, s, m, i);
            assert(fields[i] == first[i]);
        } else {
            lemma_extra(extras[i - 5]);
            assert(fields[i] == extras[i - 5].text());
        }
    }
    assert forall|i: int| 0 <= i < k + 5 implies !is_unbilled_marker(#[trigger] fields[i], label) by {
        if i < 5 {
            lemma_first_fields(rid, d, b, s, m, i);
            assert(fields[i] == first[i]);
            lemma_no_label_no_marker(fields[i], label);
        } else {
            let e = extras[i - 5];
            lemma_extra(e);
            assert(fields[i] == e.text());
        }
    }
    if k < extras.len() {
        lemma_extra(extras[k]);
        assert(fields[k + 5] == extras[k].text());
    }
    law_marker_is_read_wherever_it_stands(fields, label, k + 5);
}

/// A line as the platform prints it, at the end of whatever was logged before, gives
/// back what was printed under each label: the duration, the billed duration, the
/// memory size and the memory used, whatever markers follow; and of the markers, the
/// first of each that is not the billed one.
pub proof fn law_report_says_what_was_printed(
    earlier: Seq<char>,
    rid: Seq<char>,
    d: Seq<char>,
    b: Seq<char>,
    s: Seq<char>,
    m: Seq<char>,
    extras: Seq<Extra>,
    init: int,
    restore: int,
)
    requires
        hex_and_hyphens(rid),
        measured(d) && is_number(d),
        measured(b) && is_number(b),
        all_digits(s) && digits_value(s) <= i64::MAX,
        all_digits(m) && digits_value(m) <= i64::MAX,
        forall|i: int| 0 <= i < extras.len() ==> (#[trigger] extras[i]).plain(),
        0 <= init <= extras.len(),
        forall|i: int| 0 <= i < init ==> !(#[trigger] extras[i] is Init),
        init < extras.len() ==> extras[init] is Init && is_number(extras[init]->Init_0),
        0 <= restore <= extras.len(),
        forall|i: int| 0 <= i < restore ==> !(#[trigger] extras[i] is Restore),
        restore < extras.len() ==> extras[restore] is Restore && is_number(
            extras[restore]->Restore_0,
        ),
    ensures
        ({
            let line = printed_line(rid, d, b, s, m, extras);
            let v = tidy_report(line);
            &&& report_line(earlier.push('\n') + line) == Some(line)
            &&& is_tidy(line)
            &&& v is Ok
            &&& v->Ok_0.request_id == rid
            &&& v->Ok_0.duration == d
            &&& v->Ok_0.billed == b
            &&& v->Ok_0.memory_size_mb == digits_value(s)
            &&& v->Ok_0.max_memory_used_mb == digits_value(m)
            &&& v->Ok_0.init == (if init < extras.len() {
                Some(extras[init]->Init_0)
            } else {
                None
            })
            &&& v->Ok_0.restore == (if restore < extras.len() {
                Some(extras[restore]->Restore_0)
            } else {
                None
            })
        }),
{
    let line = printed_line(rid, d, b, s, m, extras);
    let fields = printed_fields(rid, d, b, s, m, extras);
    lemma_literals();
    lemma_printed_fields(rid, d, b, s, m, extras);
    lemma_first_marker(rid, d, b, s, m, extras, false, init);
    lemma_first_marker(rid, d, b, s, m, extras, true, restore);
    assert("REPORT RequestId: "@ + rid + ""@ =~= "REPORT RequestId: "@ + rid);
    lemma_between("REPORT RequestId: "@, rid, ""@);
    lemma_between("Duration: "@, d, " ms"@);
    lemma_between("Billed Duration: "@, b, " ms"@);
    lemma_between("Memory Size: "@, s, " MB"@);
    lemma_between("Max Memory Used: "@, m, " MB"@);
    assert(fields[0] == "REPORT RequestId: "@ + rid);
    assert(fields[1] == "Duration: "@ + d + " ms"@);
    assert(fields[2] == "Billed Duration: "@ + b + " ms"@);
    assert(fields[3] == "Memory Size: "@ + s + " MB"@);
    assert(fields[4] == "Max Memory Used: "@ + m + " MB"@);
    lemma_joined_lacks(fields, "\t"@, '\n');
    lemma_joined_lacks(fields, "\t"@, '\r');
    lemma_line_starts(fields, fields[0]);
    assert(has_text(line, REPORT_MARK@)) by {
        reveal_strlit("REPORT RequestId:");
        reveal_strlit("REPORT RequestId: ");
        let n = REPORT_MARK@.len() as int;
        assert(fields[0].take(n) =~= REPORT_MARK@);
        assert(line.subrange(0, n) =~= REPORT_MARK@) by {
            assert forall|i: int| 0 <= i < n implies line[i] == REPORT_MARK@[i] by {
                assert(line[i] == fields[0][i]);
                assert(fields[0].take(n)[i] == fields[0][i]);
            }
        }
        assert(occurs_at(line, REPORT_MARK@, 0));
    }
    law_last_report_line_wins(earlier, line);
}

/// A joined text begins with its first part.
proof fn lemma_line_starts(fields: Seq<Seq<char>>, first: Seq<char>)
    requires
        fields.len() > 0,
        fields[0] == first,
    ensures
        first.len() <= joined(fields, "\t"@).len(),
        forall|i: int| 0 <= i < first.len() ==> #[trigger] joined(fields, "\t"@)[i] == first[i],
    decreases fields.len(),
{
    if fields.len() > 1 {
        lemma_line_starts(fields.drop_last(), first);
    }
}

/// A report is made of what was captured, each value from its own group, whatever the
/// markers say; it is refused exactly where there is no match, a group is missing, or
/// a value is no number of its kind.
pub proof fn law_report_is_what_was_captured(
    line: Seq<char>,
    g: Seq<Option<Seq<char>>>,
    inits: Seq<Seq<Option<Seq<char>>>>,
    restores: Seq<Seq<Option<Seq<char>>>>,
)
    requires
        g.len() == 6,
    ensures
        report_of(line, None, inits, restores) is Err,
        report_of(line, Some(g), inits, restores) is Ok <==> {
            &&& g[1] is Some && g[2] is Some && g[3] is Some && g[4] is Some && g[5] is Some
            &&& is_number(g[2]->0) && is_number(g[3]->0)
            &&& all_digits(g[4]->0) && digits_value(g[4]->0) <= i64::MAX
            &&& all_digits(g[5]->0) && digits_value(g[5]->0) <= i64::MAX
            &&& unbilled(inits) is Some ==> is_number(unbilled(inits)->0)
            &&& unbilled(restores) is Some ==> is_number(unbilled(restores)->0)
        },
        match report_of(line, Some(g), inits, restores) {
            Ok(v) => {
                &&& v.request_id == g[1]->0
                &&& v.duration == g[2]->0
                &&& v.billed == g[3]->0
                &&& v.memory_size_mb == digits_value(g[4]->0)
                &&& v.max_memory_used_mb == digits_value(g[5]->0)
                &&& v.init == unbilled(inits)
                &&& v.restore == unbilled(restores)
            },
            Err(_) => true,
        },
{
    assert forall|t: Seq<char>| all_digits(t) && digits_value(t) <= i64::MAX implies
        #[trigger] whole_number(t) == Some(digits_value(t)) by {
        assert forall|i: int| 0 <= i < t.len() implies is_digit(#[trigger] t[i]) by {}
    }
    assert forall|t: Seq<char>| #[trigger] whole_number(t) is Some implies all_digits(t)
        && digits_value(t) <= i64::MAX by {
        assert forall|i: int| 0 <= i < t.len() implies '0' <= #[trigger] t[i] && t[i] <= '9' by {
            assert(is_digit(t[i]));
        }
    }
}

/// Of a marker and its billed sibling the sibling is passed over, and of several
/// markers the first counts.
pub proof fn law_first_unbilled_counts(
    billed: Seq<Option<Seq<char>>>,
    found: Seq<Option<Seq<char>>>,
    after: Seq<Seq<Option<Seq<char>>>>,
)
    requires
        billed.len() == 3 && billed[1] is Some,
        found.len() == 3 && found[1] is None,
    ensures
        unbilled(Seq::empty()) is None,
        unbilled(seq![found] + after) == found[2],
        unbilled(seq![billed] + after) == unbilled(after),
{
    assert((seq![found] + after)[0] == found);
    assert((seq![billed] + after)[0] == billed);
    assert((seq![billed] + after).drop_first() =~= after);
    assert(group_of(billed, 1) == billed[1]);
}

/// A number that is written without needless zeros is shown as it is written, with `.0`
/// behind it where it has no point and no more than fifteen digits.
pub proof fn law_plain_numbers_show_as_written(a: Seq<char>, b: Seq<char>)
    requires
        all_digits(a) && a[0] != '0',
        all_digits(b) && b[b.len() - 1] != '0',
    ensures
        shown_number(a + "."@ + b) == a + "."@ + b,
        a.len() <= 15 ==> shown_number(a) == a + "."@ + "0"@,
        a.len() > 15 ==> shown_number(a) == a,
{
    reveal_strlit(".");
    let t = a + "."@ + b;
    lemma_point_at(a, b);
    lemma_no_point(a);
    assert(t.take(a.len() as int) =~= a);
    assert(t.skip(a.len() as int + 1) =~= b);
    assert(a.take(a.len() as int) =~= a);
    assert(without_leading_zeros(a) == a);
    assert(b.last() == b[b.len() - 1]);
    assert(without_trailing_zeros(b) == b);
    assert(without_trailing_zeros(Seq::<char>::empty()) == Seq::<char>::empty());
}

/// A fraction is shown with the zero before its point, written or not, unless four
/// zeros and more digits follow the point: such a one is shown as it is spelled.
pub proof fn law_fractions_show_their_zero(b: Seq<char>)
    requires
        all_digits(b) && b[b.len() - 1] != '0',
        b.len() <= 15,
    ensures
        b.len() <= 4 || b.take(4) != "0000"@ ==> shown_number("."@ + b) == "0"@ + "."@ + b,
        b.len() > 4 && b.take(4) == "0000"@ ==> shown_number("."@ + b) == "."@ + b,
{
    reveal_strlit(".");
    let none = Seq::<char>::empty();
    lemma_point_at(none, b);
    let t = "."@ + b;
    assert(none + "."@ + b =~= t);
    assert(t.take(0) =~= none);
    assert(t.skip(1) =~= b);
    assert(without_leading_zeros(none) == none);
    assert(b.last() == b[b.len() - 1]);
    assert(without_trailing_zeros(b) == b);
}

proof fn lemma_no_point(a: Seq<char>)
    requires
        forall|i: int| 0 <= i < a.len() ==> '0' <= #[trigger] a[i] && a[i] <= '9',
    ensures
        first_of(a, '.') == a.len(),
{
    law_first_occurrence(a, '.');
    if first_of(a, '.') < a.len() {
        assert(a[first_of(a, '.')] == '.');
    }
}

proof fn lemma_point_at(a: Seq<char>, b: Seq<char>)
    requires
        forall|i: int| 0 <= i < a.len() ==> '0' <= #[trigger] a[i] && a[i] <= '9',
    ensures
        first_of(a + "."@ + b, '.') == a.len(),
{
    reveal_strlit(".");
    let t = a + "."@ + b;
    law_first_occurrence(t, '.');
    let k = first_of(t, '.');
    assert(t[a.len() as int] == '.');
    if k < a.len() {
        assert(t[k] == a[k]);
    }
}

} // verus!
