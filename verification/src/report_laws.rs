//! What holds of reading reports.
use crate::report::{
    between, group_of, is_number, marker_in, markers_in, report_line, report_of, unbilled,
    REPORT_MARK,
};
use crate::text::{has_text, lines_of, occurs_at, pieces, without_cr};
use crate::text_lemmas::{lacks, lemma_last_piece};
use vstd::prelude::*;

verus! {

/// Whatever a handler logged before, marked lines too, the platform's own line at
/// the end of the tail is the one that is read.
pub proof fn law_last_report_line_wins(earlier: Seq<char>, line: Seq<char>)
    requires
        lacks(line, '\n'),
        lacks(line, '\r'),
        has_text(line, REPORT_MARK@),
    ensures
        report_line(earlier.push('\n') + line) == Some(line),
        report_line((earlier.push('\n') + line).push('\n')) == Some(line),
{
    let open_tail = earlier.push('\n') + line;
    let closed_tail = open_tail.push('\n');
    reveal_strlit("REPORT RequestId:");
    assert(line.len() > 0) by {
        let i = choose|i: int| occurs_at(line, REPORT_MARK@, i);
        assert(i + REPORT_MARK@.len() <= line.len());
    }
    lemma_last_piece(earlier, line, '\n');
    let split = pieces(earlier, '\n').push(line);
    assert(split.last() == line);
    assert(lines_of(open_tail).last() == line);
    lemma_last_piece(open_tail, Seq::empty(), '\n');
    assert(closed_tail + Seq::<char>::empty() =~= closed_tail);
    let closed = split.push(Seq::<char>::empty());
    assert(pieces(closed_tail, '\n') == closed);
    assert(closed.drop_last() =~= split);
    let ended = split.map_values(|p: Seq<char>| without_cr(p));
    assert(line[line.len() - 1] != '\r');
    assert(ended.last() == line);
    assert(lines_of(closed_tail) =~= ended);
}

/// The billed sibling of a cold marker is never read, before the marker or after
/// it.
pub proof fn law_billed_sibling_ignored(
    before: Seq<Seq<Option<Seq<char>>>>,
    billed: Seq<Option<Seq<char>>>,
    after: Seq<Seq<Option<Seq<char>>>>,
)
    requires
        group_of(billed, 1) is Some,
    ensures
        unbilled(before.push(billed) + after) == unbilled(before + after),
    decreases before.len(),
{
    let with = before.push(billed) + after;
    let without = before + after;
    if before.len() == 0 {
        assert(with[0] == billed);
        assert(with.drop_first() =~= after);
        assert(without =~= after);
    } else {
        assert(with[0] == before[0] && without[0] == before[0]);
        assert(with.drop_first() =~= before.drop_first().push(billed) + after);
        assert(without.drop_first() =~= before.drop_first() + after);
        law_billed_sibling_ignored(before.drop_first(), billed, after);
    }
}

/// A report that could be read shows a cold start exactly where an unbilled cold
/// marker stands in the line, and its durations are numbers.
pub proof fn law_cold_exactly_with_marker(
    line: Seq<char>,
    fields: Option<Seq<Option<Seq<char>>>>,
    inits: Seq<Seq<Option<Seq<char>>>>,
    restores: Seq<Seq<Option<Seq<char>>>>,
)
    requires
        report_of(line, fields, inits, restores) is Ok,
    ensures
        ({
            let v = report_of(line, fields, inits, restores)->Ok_0;
            &&& v.init == unbilled(inits)
            &&& v.restore == unbilled(restores)
            &&& is_number(v.duration) && is_number(v.billed)
            &&& v.init is Some ==> is_number(v.init->0)
            &&& v.restore is Some ==> is_number(v.restore->0)
        }),
{
}

/// A line without its mandatory fields is refused, cold marker or not.
pub proof fn law_no_partial_report(
    line: Seq<char>,
    inits: Seq<Seq<Option<Seq<char>>>>,
    restores: Seq<Seq<Option<Seq<char>>>>,
)
    ensures
        report_of(line, None, inits, restores) is Err,
{
}

/// Whether a field is an unbilled cold marker.
pub open spec fn is_unbilled_marker(field: Seq<char>, label: Seq<char>) -> bool {
    marker_in(field, label) is Some && group_of(marker_in(field, label)->0, 1) is None
}

proof fn lemma_no_unbilled(fields: Seq<Seq<char>>, label: Seq<char>)
    requires
        forall|i: int| 0 <= i < fields.len() ==> !is_unbilled_marker(#[trigger] fields[i], label),
    ensures
        unbilled(markers_in(fields, label)) is None,
        forall|i: int|
            0 <= i < markers_in(fields, label).len() ==> group_of(
                #[trigger] markers_in(fields, label)[i],
                1,
            ) is Some,
    decreases fields.len(),
{
    if fields.len() > 0 {
        let front = fields.drop_last();
        assert forall|i: int| 0 <= i < front.len() implies !is_unbilled_marker(
            #[trigger] front[i],
            label,
        ) by {
            assert(front[i] == fields[i]);
        }
        lemma_no_unbilled(front, label);
        assert(!is_unbilled_marker(fields[fields.len() - 1], label));
    }
    lemma_all_billed(markers_in(fields, label));
}

proof fn lemma_all_billed(matches: Seq<Seq<Option<Seq<char>>>>)
    requires
        forall|i: int| 0 <= i < matches.len() ==> group_of(#[trigger] matches[i], 1) is Some,
    ensures
        unbilled(matches) is None,
    decreases matches.len(),
{
    if matches.len() > 0 {
        let rest = matches.drop_first();
        assert forall|i: int| 0 <= i < rest.len() implies group_of(
            #[trigger] rest[i],
            1,
        ) is Some by {
            assert(rest[i] == matches[i + 1]);
        }
        lemma_all_billed(rest);
    }
}

/// Matches after the first unbilled one do not matter.
proof fn lemma_unbilled_push(
    matches: Seq<Seq<Option<Seq<char>>>>,
    m: Seq<Option<Seq<char>>>,
)
    ensures
        (exists|i: int| 0 <= i < matches.len() && group_of(#[trigger] matches[i], 1) is None)
            ==> unbilled(matches.push(m)) == unbilled(matches),
        (forall|i: int| 0 <= i < matches.len() ==> group_of(#[trigger] matches[i], 1) is Some)
            && group_of(m, 1) is None ==> unbilled(matches.push(m)) == group_of(m, 2),
    decreases matches.len(),
{
    let more = matches.push(m);
    if matches.len() == 0 {
        assert(more[0] == m);
    } else {
        assert(more[0] == matches[0]);
        let rest = matches.drop_first();
        assert(more.drop_first() =~= rest.push(m));
        if group_of(matches[0], 1) is Some {
            lemma_unbilled_push(rest, m);
            if exists|i: int| 0 <= i < matches.len() && group_of(#[trigger] matches[i], 1) is None {
                let i = choose|i: int|
                    0 <= i < matches.len() && group_of(#[trigger] matches[i], 1) is None;
                assert(rest[i - 1] == matches[i]);
            }
            assert forall|i: int| 0 <= i < rest.len() implies rest[i] == #[trigger] matches[i + 1] by {}
        }
    }
}

proof fn lemma_unbilled_in(fields: Seq<Seq<char>>, label: Seq<char>, k: int)
    requires
        0 <= k < fields.len(),
        is_unbilled_marker(fields[k], label),
    ensures
        exists|i: int|
            0 <= i < markers_in(fields, label).len() && group_of(
                #[trigger] markers_in(fields, label)[i],
                1,
            ) is None,
    decreases fields.len(),
{
    let front = fields.drop_last();
    let before = markers_in(front, label);
    let all = markers_in(fields, label);
    if k < front.len() {
        assert(front[k] == fields[k]);
        lemma_unbilled_in(front, label, k);
        let i = choose|i: int| 0 <= i < before.len() && group_of(#[trigger] before[i], 1) is None;
        assert(all[i] == before[i]);
    } else {
        assert(all[before.len() as int] == marker_in(fields[k], label)->0);
    }
}

/// In a line laid out as the platform does it, the first unbilled marker is the one
/// that is read, wherever it stands, whatever follows it, and whether its billed
/// sibling comes before or after it; without one the line shows no such start.
pub proof fn law_marker_is_read_wherever_it_stands(
    fields: Seq<Seq<char>>,
    label: Seq<char>,
    k: int,
)
    requires
        0 <= k <= fields.len(),
        forall|i: int| 0 <= i < k ==> !is_unbilled_marker(#[trigger] fields[i], label),
        k < fields.len() ==> is_unbilled_marker(fields[k], label),
    ensures
        unbilled(markers_in(fields, label)) == (if k < fields.len() {
            between(fields[k], label + " "@, " ms"@)
        } else {
            None
        }),
    decreases fields.len(),
{
    if k == fields.len() {
        lemma_no_unbilled(fields, label);
    } else {
        let front = fields.drop_last();
        let last = fields[fields.len() - 1];
        if k == front.len() {
            assert forall|i: int| 0 <= i < front.len() implies !is_unbilled_marker(
                #[trigger] front[i],
                label,
            ) by {
                assert(front[i] == fields[i]);
            }
            lemma_no_unbilled(front, label);
            lemma_unbilled_push(markers_in(front, label), marker_in(last, label)->0);
        } else {
            assert forall|i: int| 0 <= i < k implies !is_unbilled_marker(
                #[trigger] front[i],
                label,
            ) by {
                assert(front[i] == fields[i]);
            }
            assert(front[k] == fields[k]);
            law_marker_is_read_wherever_it_stands(front, label, k);
            lemma_unbilled_in(front, label, k);
            if marker_in(last, label) is Some {
                lemma_unbilled_push(markers_in(front, label), marker_in(last, label)->0);
            }
        }
    }
}

} // verus!
