//! What holds of the run of a cell.

use crate::run::{
    law_step_keeps_order, next, row_fits, ActionView, EventView, InvokedView, RunView, StageView,
};
use vstd::prelude::*;

verus! {

/// The rows are written only when every cycle is complete, and then there is one
/// cold row and the full number of warm rows for each cycle.
pub proof fn law_written_cell_is_complete(s: RunView, e: EventView, fresh: Seq<char>, now: u128)
    requires
        s.wf(),
        s.expects(e),
        next(s, e, fresh, now).1 is Flush,
    ensures
        ({
            let t = next(s, e, fresh, now).0;
            &&& t.cycle == t.cold
            &&& t.rows.len() == t.cold * (1 + t.warm)
            &&& t.rows_fit()
        }),
{
    law_step_keeps_order(s, e, fresh, now);
}

/// A warm invocation is never recorded as cold, nor a cold one as warm; a cold
/// row of a SnapStart cell shows a restore.
pub proof fn law_no_mislabelled_row(s: RunView, k: int)
    requires
        s.wf(),
        0 <= k < s.rows.len(),
    ensures
        ({
            let row = s.rows[k];
            &&& row.is_cold <==> row.idx_in_cycle == 0
            &&& row.is_cold <==> (row.report.init is Some || row.report.restore is Some)
            &&& row.is_cold && s.cell.snapstart ==> row.report.restore is Some
        }),
{
    let n = 1 + s.warm as int;
    assert(row_fits(s, s.rows[k], k / n, k % n));
}

/// A step that does not complete a cycle keeps the rows and the cycle as they
/// are: an attempt that fails or is recycled leaves nothing behind, and the next
/// one starts at the cycle that failed.
pub proof fn law_failed_attempt_leaves_no_rows(
    s: RunView,
    e: EventView,
    fresh: Seq<char>,
    now: u128,
)
    requires
        s.wf(),
        s.expects(e),
        next(s, e, fresh, now).1 is Pause || next(s, e, fresh, now).1 is Failed,
    ensures
        ({
            let t = next(s, e, fresh, now).0;
            &&& t.rows == s.rows
            &&& t.cycle == s.cycle
            &&& t.pending.len() == 0
        }),
{
    law_step_keeps_order(s, e, fresh, now);
}

/// Rows of completed cycles are never dropped or changed.
pub proof fn law_completed_rows_stay(s: RunView, e: EventView, fresh: Seq<char>, now: u128)
    requires
        s.wf(),
        s.expects(e),
    ensures
        ({
            let t = next(s, e, fresh, now).0;
            &&& t.rows.len() >= s.rows.len()
            &&& t.rows.take(s.rows.len() as int) == s.rows
            &&& t.cycle == s.cycle || t.cycle == s.cycle + 1
        }),
{
    let t = next(s, e, fresh, now).0;
    assert(t.rows.take(s.rows.len() as int) =~= s.rows);
}

/// A published version is given up only by deleting it, and no other is taken
/// before that: every pause, every end and every new cycle finds none in use.
pub proof fn law_versions_are_deleted(s: RunView, e: EventView, fresh: Seq<char>, now: u128)
    requires
        s.wf(),
        s.expects(e),
    ensures
        ({
            let (t, a) = next(s, e, fresh, now);
            &&& s.version is Some && t.version is None ==> e is Deleted
            &&& s.version is Some && t.version is Some ==> t.version == s.version
            &&& a is Publish || a is Pause || a is Flush || a is Done || a is Failed ==> t.version
                is None
            &&& t.stage is Deleting ==> a == ActionView::Delete(t.version->0)
        }),
{
    law_step_keeps_order(s, e, fresh, now);
}

/// Within a cycle every invocation goes to the same place: the version that the
/// cycle published, or the function itself.
pub proof fn law_invokes_one_sandbox(s: RunView, e: EventView, fresh: Seq<char>, now: u128)
    requires
        s.wf(),
        s.expects(e),
        next(s, e, fresh, now).1 is Invoke,
    ensures
        ({
            let (t, a) = next(s, e, fresh, now);
            &&& a == ActionView::Invoke(t.version)
            &&& t.version is Some <==> t.cell.snapstart
            &&& t.nonce == s.nonce
            &&& t.cycle == s.cycle
            &&& e is Invoked ==> t.version == s.version
        }),
{
    law_step_keeps_order(s, e, fresh, now);
}

/// A cold force that landed warm is followed by a pause, never by a row.
pub proof fn law_warm_landing_not_recorded(
    s: RunView,
    i: InvokedView,
    fresh: Seq<char>,
    now: u128,
)
    requires
        s.wf(),
        s.stage is ColdInvoke,
        i is Seen,
        i->Seen_1.init is None,
        i->Seen_1.restore is None,
    ensures
        ({
            let (t, a) = next(s, EventView::Invoked(i), fresh, now);
            &&& t.rows == s.rows
            &&& t.pending == s.pending
            &&& if s.cell.snapstart {
                a is Delete
            } else {
                a is Pause
            }
        }),
{
}

/// How far a run is from its end: cycles left, attempts left of each kind, and
/// the phase of the attempt.
pub open spec fn left(s: RunView) -> Seq<int> {
    seq![
        s.cold - s.cycle,
        3 - s.cell_attempt,
        4 - s.cycle_attempt,
        6 - s.force_attempt,
        phase(s),
    ]
}

/// The phase of an attempt, counted down.
pub open spec fn phase(s: RunView) -> int {
    match s.stage {
        StageView::Ready => s.warm + 20,
        StageView::Forcing | StageView::Publishing => s.warm + 15,
        StageView::ColdInvoke => s.warm + 14,
        StageView::WarmInvoke => s.warm - s.idx + 9,
        StageView::Deleting(_) => 8,
        StageView::ForcePause => 7,
        StageView::CyclePause => 6,
        StageView::CellPause => 5,
        StageView::Flushing => 2,
        StageView::Done | StageView::Failed => 0,
    }
}

/// Whether `a` comes before `b` when compared entry by entry.
pub open spec fn nearer(a: Seq<int>, b: Seq<int>) -> bool {
    exists|i: int|
        0 <= i < a.len() && a.len() == b.len() && #[trigger] a[i] < b[i] && forall|j: int|
            0 <= j < i ==> #[trigger] a[j] == b[j]
}

/// Every step brings the run nearer to its end, and no entry of the distance ever
/// falls below zero: whatever happens, the run of a cell ends.
pub proof fn law_run_ends(s: RunView, e: EventView, fresh: Seq<char>, now: u128)
    requires
        s.wf(),
        s.expects(e),
    ensures
        nearer(left(next(s, e, fresh, now).0), left(s)),
        forall|i: int| 0 <= i < 5 ==> #[trigger] left(s)[i] >= 0,
{
    law_step_keeps_order(s, e, fresh, now);
    let t = next(s, e, fresh, now).0;
    let a = left(t);
    let b = left(s);
    assert(a[0] < b[0] || (a[0] == b[0] && (a[1] < b[1] || (a[1] == b[1] && (a[2] < b[2] || (a[2]
        == b[2] && (a[3] < b[3] || (a[3] == b[3] && a[4] < b[4]))))))));
    if a[0] < b[0] {
    } else if a[1] < b[1] {
    } else if a[2] < b[2] {
    } else if a[3] < b[3] {
    } else {
        assert(a[4] < b[4]);
    }
}

/// A step of a run as it happens: the event, a fresh nonce and the time.
pub ghost struct Happening {
    pub event: EventView,
    pub fresh: Seq<char>,
    pub now: u128,
}

/// Where a run stands after what happened.
pub open spec fn after(s: RunView, steps: Seq<Happening>) -> RunView
    decreases steps.len(),
{
    if steps.len() == 0 {
        s
    } else {
        let h = steps.last();
        next(after(s, steps.drop_last()), h.event, h.fresh, h.now).0
    }
}

/// Whether everything that happened was waited for when it happened.
pub open spec fn happened_in_turn(s: RunView, steps: Seq<Happening>) -> bool
    decreases steps.len(),
{
    steps.len() == 0 || {
        &&& happened_in_turn(s, steps.drop_last())
        &&& after(s, steps.drop_last()).expects(steps.last().event)
    }
}

/// What a run is to do does not change while it goes.
proof fn lemma_step_keeps_plan(s: RunView, e: EventView, fresh: Seq<char>, now: u128)
    ensures
        next(s, e, fresh, now).0.cold == s.cold,
        next(s, e, fresh, now).0.warm == s.warm,
        next(s, e, fresh, now).0.cell == s.cell,
{
}

proof fn lemma_done_is_complete(t: RunView)
    requires
        t.wf(),
    ensures
        t.stage is Done ==> t.cycle == t.cold && t.rows.len() == t.cold * (1 + t.warm)
            && t.rows_fit(),
{
}

/// However the run of a cell goes, from its start through any events in turn: it is
/// in order, rows stand only for completed cycles, and once it is done there is one
/// cold row and the full number of warm rows for each of its cycles.
pub proof fn law_any_run(s: RunView, steps: Seq<Happening>)
    requires
        s.wf(),
        happened_in_turn(s, steps),
    ensures
        after(s, steps).wf(),
        after(s, steps).stage is Done ==> {
            let t = after(s, steps);
            t.cycle == t.cold && t.rows.len() == t.cold * (1 + t.warm) && t.rows_fit()
        },
        after(s, steps).cold == s.cold,
        after(s, steps).warm == s.warm,
        after(s, steps).cell == s.cell,
    decreases steps.len(),
{
    if steps.len() > 0 {
        let h = steps.last();
        law_any_run(s, steps.drop_last());
        let before = after(s, steps.drop_last());
        law_step_keeps_order(before, h.event, h.fresh, h.now);
        lemma_step_keeps_plan(before, h.event, h.fresh, h.now);
    }
    lemma_done_is_complete(after(s, steps));
}

} // verus!
