//! The rules of a measurement, one by one: what each event leads to.
use crate::cell::Cell;
use crate::config::{Arch, Jitter, Lang, Opt, Scenario};
use crate::platform::{invoke_complaint, InvokeResult};
use crate::record::{maybe_text, row_of, ArtifactSizes, RowView};
use crate::report::{shown_number, ReportView};
use crate::run::{
    fail, in_cycle, judged, law_step_keeps_order, next, recycle, shown, starts, ActionView,
    EndingView, EventView, InvokedView, RunView, StageView,
};
use crate::run_laws::{after, happened_in_turn, law_any_run, Happening};
use crate::text::{decimal, has_prefix, has_text};
use crate::text_lemmas::lemma_holds_middle;
use vstd::prelude::*;

verus! {

/// A force or a publication takes the nonce that was drawn for that very step, and
/// every other step keeps the one in use.
pub proof fn law_every_force_draws_its_own_nonce(
    s: RunView,
    e: EventView,
    fresh: Seq<char>,
    now: u128,
)
    requires
        s.wf(),
        s.expects(e),
    ensures
        ({
            let (t, a) = next(s, e, fresh, now);
            match a {
                ActionView::ForceCold(x) => x == fresh && t.nonce == fresh,
                ActionView::Publish(x) => x == fresh && t.nonce == fresh,
                _ => t.nonce == s.nonce,
            }
        }),
{
}

/// The nonce that an action sets, where it sets one.
pub open spec fn nonce_set(a: ActionView) -> Option<Seq<char>> {
    match a {
        ActionView::ForceCold(x) => Some(x),
        ActionView::Publish(x) => Some(x),
        _ => None,
    }
}

/// What a run does in its `i`-th step.
pub open spec fn action_at(s: RunView, steps: Seq<Happening>, i: int) -> ActionView {
    next(after(s, steps.take(i)), steps[i].event, steps[i].fresh, steps[i].now).1
}

proof fn lemma_turn_of_each(s: RunView, steps: Seq<Happening>, i: int)
    requires
        happened_in_turn(s, steps),
        0 <= i < steps.len(),
    ensures
        happened_in_turn(s, steps.take(i)),
        after(s, steps.take(i)).expects(steps[i].event),
    decreases steps.len(),
{
    let front = steps.drop_last();
    if i == front.len() {
        assert(steps.take(i) =~= front);
    } else {
        lemma_turn_of_each(s, front, i);
        assert(front.take(i) =~= steps.take(i));
        assert(front[i] == steps[i]);
    }
}

/// Where the drawn nonces differ, no two forces or publications of a run use the same
/// one: each really changes the function, and so retires the old sandbox.
pub proof fn law_no_nonce_is_used_twice(s: RunView, steps: Seq<Happening>, i: int, j: int)
    requires
        s.wf(),
        happened_in_turn(s, steps),
        0 <= i < j < steps.len(),
        steps[i].fresh != steps[j].fresh,
        nonce_set(action_at(s, steps, i)) is Some,
        nonce_set(action_at(s, steps, j)) is Some,
    ensures
        nonce_set(action_at(s, steps, i)) != nonce_set(action_at(s, steps, j)),
{
    lemma_turn_of_each(s, steps, i);
    lemma_turn_of_each(s, steps, j);
    law_any_run(s, steps.take(i));
    law_any_run(s, steps.take(j));
    let (h, k) = (steps[i], steps[j]);
    law_every_force_draws_its_own_nonce(after(s, steps.take(i)), h.event, h.fresh, h.now);
    law_every_force_draws_its_own_nonce(after(s, steps.take(j)), k.event, k.fresh, k.now);
}

/// A cell with SnapStart is made cold by publishing a version, any other by a force;
/// either happens only while a cycle is left, and the rows are written only when none
/// is.
pub proof fn law_how_a_cycle_starts(s: RunView, e: EventView, fresh: Seq<char>, now: u128)
    requires
        s.wf(),
        s.expects(e),
    ensures
        ({
            let (t, a) = next(s, e, fresh, now);
            &&& a is ForceCold ==> !s.cell.snapstart && t.cycle < t.cold && t.stage is Forcing
            &&& a is Publish ==> s.cell.snapstart && t.cycle < t.cold && t.stage is Publishing
            &&& a is Flush ==> t.cycle == t.cold && t.stage is Flushing
            &&& s.stage is Ready ==> (a is Flush <==> s.cycle == s.cold) && (a is Flush
                || a is ForceCold || a is Publish)
        }),
{
}

/// What was made cold is invoked at once: the function itself after a force, the very
/// version that was published after a publication.
pub proof fn law_cold_is_invoked_at_once(s: RunView, v: Seq<char>, fresh: Seq<char>, now: u128)
    requires
        s.wf(),
    ensures
        s.stage is Forcing ==> ({
            let (t, a) = next(s, EventView::Forced(None), fresh, now);
            a == ActionView::Invoke(None) && t.stage is ColdInvoke
        }),
        s.stage is Publishing ==> ({
            let (t, a) = next(s, EventView::Published(Ok(v)), fresh, now);
            a == ActionView::Invoke(Some(v)) && t.stage is ColdInvoke && t.version == Some(v)
        }),
{
}

/// Whether an invocation may be recorded where it stands: a cold one must show a cold
/// marker, and a restore where the cell has SnapStart; a warm one must show none.
pub open spec fn is_clean(s: RunView, report: ReportView) -> bool {
    if s.stage is WarmInvoke {
        report.init is None && report.restore is None
    } else if s.cell.snapstart {
        report.restore is Some
    } else {
        report.init is Some || report.restore is Some
    }
}

/// All rows of a run: of the completed cycles, and of the one under way.
pub open spec fn all_rows(s: RunView) -> Seq<RowView> {
    s.rows + s.pending
}

/// Whether a row tells of this invocation and of nothing else: where in the run it
/// was made, when, with what it came back, and what the platform reported of it.
pub open spec fn tells_of(
    row: RowView,
    s: RunView,
    res: InvokeResult,
    report: ReportView,
    now: u128,
) -> bool {
    &&& row.run_id == s.run_id
    &&& row.ts_unix_ms == now
    &&& row.function_name == s.cell.full_name()
    &&& row.memory_mb == s.cell.memory_mb
    &&& row.snapstart == s.cell.snapstart
    &&& row.sizes.zip == s.sizes.zip
    &&& row.sizes.unzipped == s.sizes.unzipped
    &&& row.cycle == s.cycle
    &&& row.idx_in_cycle == s.pending.len()
    &&& row.is_cold == (s.pending.len() == 0)
    &&& row.cold_nonce == s.nonce
    &&& row.invoke_status == res.status_code
    &&& row.function_error == maybe_text(res.function_error)
    &&& row.report.request_id == report.request_id
    &&& row.report.duration == report.duration
    &&& row.report.billed == report.billed
    &&& row.report.memory_size_mb == report.memory_size_mb
    &&& row.report.max_memory_used_mb == report.max_memory_used_mb
    &&& row.report.init == report.init
    &&& row.report.restore == report.restore
}

/// A clean invocation adds one row, which tells of it; the rows before it stay. One
/// that is not clean adds none.
pub proof fn law_what_is_seen_is_what_is_recorded(
    s: RunView,
    res: InvokeResult,
    report: ReportView,
    fresh: Seq<char>,
    now: u128,
)
    requires
        s.wf(),
        s.stage is ColdInvoke || s.stage is WarmInvoke,
    ensures
        ({
            let t = next(s, EventView::Invoked(InvokedView::Seen(res, report)), fresh, now).0;
            if is_clean(s, report) {
                &&& all_rows(t).len() == all_rows(s).len() + 1
                &&& all_rows(t).drop_last() == all_rows(s)
                &&& tells_of(all_rows(t).last(), s, res, report, now)
            } else {
                t.rows == s.rows && (t.pending == s.pending || t.pending.len() == 0)
            }
        }),
{
    let t = next(s, EventView::Invoked(InvokedView::Seen(res, report)), fresh, now).0;
    if is_clean(s, report) {
        let idx: u32 = if s.stage is ColdInvoke { 0 } else { s.idx };
        let row = row_of(
            s.cell,
            s.run_id,
            s.sizes,
            s.cycle,
            idx,
            idx == 0,
            s.nonce,
            res,
            report,
            now,
        );
        let more = s.pending.push(row);
        assert(all_rows(t) =~= s.rows + more);
        assert(all_rows(t).drop_last() =~= all_rows(s));
    }
}

/// The dimensions of a row are the spellings of its cell's.
pub proof fn law_row_names_its_cell(
    cell: Cell,
    run_id: Seq<char>,
    sizes: ArtifactSizes,
    cycle: u32,
    idx_in_cycle: u32,
    is_cold: bool,
    nonce: Seq<char>,
    res: InvokeResult,
    report: ReportView,
    now: u128,
)
    ensures
        ({
            let row = row_of(
                cell,
                run_id,
                sizes,
                cycle,
                idx_in_cycle,
                is_cold,
                nonce,
                res,
                report,
                now,
            );
            &&& row.lang == (match cell.lang {
                Lang::Rust => "rust"@,
                Lang::Node => "node"@,
                Lang::Java => "java"@,
                Lang::Python => "python"@,
                Lang::Go => "go"@,
            })
            &&& row.scenario == (match cell.scenario {
                Scenario::Hello => "hello"@,
                Scenario::Smithy => "smithy"@,
                Scenario::OneClient => "oneclient"@,
                Scenario::ThreeClient => "threeclient"@,
                Scenario::SmithyFull => "smithyfull"@,
                Scenario::LetterCount => "lettercount"@,
                Scenario::Authz => "authz"@,
                Scenario::Batch => "batch"@,
                Scenario::Cache => "cache"@,
            })
            &&& row.arch == (match cell.arch {
                Arch::Arm64 => "arm64"@,
                Arch::X86_64 => "x86_64"@,
            })
            &&& row.opt == (match cell.opt {
                Some(Opt::O3) => Some("o3"@),
                Some(Opt::Oz) => Some("oz"@),
                None => None,
            })
            &&& row.jitter == (match cell.jitter {
                Some(Jitter::On) => Some("on"@),
                Some(Jitter::Off) => Some("off"@),
                None => None,
            })
            &&& row.runtime_id == (match cell.lang {
                Lang::Rust => "provided.al2023"@,
                Lang::Node => "nodejs24.x"@,
                Lang::Java => "java25"@,
                Lang::Python => "python3.14"@,
                Lang::Go => "provided.al2023"@,
            })
            &&& row.memory_mb == cell.memory_mb
            &&& row.snapstart == cell.snapstart
            &&& row.function_name == cell.full_name()
            &&& row.run_id == run_id
            &&& row.sizes.zip == sizes.zip && row.sizes.unzipped == sizes.unzipped
            &&& row.cycle == cycle && row.idx_in_cycle == idx_in_cycle && row.is_cold == is_cold
            &&& row.cold_nonce == nonce
            &&& row.ts_unix_ms == now
            &&& row.invoke_status == res.status_code
            &&& row.function_error == maybe_text(res.function_error)
            &&& row.report.request_id == report.request_id
            &&& row.report.duration == report.duration
            &&& row.report.billed == report.billed
            &&& row.report.memory_size_mb == report.memory_size_mb
            &&& row.report.max_memory_used_mb == report.max_memory_used_mb
            &&& row.report.init == report.init
            &&& row.report.restore == report.restore
        }),
{
}

/// A clean invocation is followed by the next warm one, on the same sandbox, until
/// the cycle has its one cold and all its warm ones. Then its rows are kept: at once,
/// or where it used a version, when that is deleted.
pub proof fn law_course_of_a_cycle(
    s: RunView,
    res: InvokeResult,
    report: ReportView,
    fresh: Seq<char>,
    now: u128,
)
    requires
        s.wf(),
        s.stage is ColdInvoke || s.stage is WarmInvoke,
        is_clean(s, report),
    ensures
        ({
            let (t, a) = next(s, EventView::Invoked(InvokedView::Seen(res, report)), fresh, now);
            if s.pending.len() < s.warm {
                &&& a == ActionView::Invoke(s.version)
                &&& t.stage is WarmInvoke
                &&& t.idx == s.pending.len() + 1
                &&& t.cycle == s.cycle
                &&& t.rows == s.rows
            } else if s.version is Some {
                &&& a == ActionView::Delete(s.version->0)
                &&& t.stage == StageView::Deleting(EndingView::Complete)
                &&& t.cycle == s.cycle
                &&& t.rows == s.rows
            } else {
                &&& a is ForceCold || a is Publish || a is Flush
                &&& t.cycle == s.cycle + 1
                &&& t.pending.len() == 0
                &&& t.rows.len() == s.rows.len() + s.warm + 1
            }
        }),
{
}

/// A deleted version settles its cycle as it ended: a complete one keeps its rows and
/// is followed by the next, a recycled one is paused for a second, a broken one by
/// five, and neither of these keeps any.
pub proof fn law_what_follows_a_deletion(
    s: RunView,
    ending: EndingView,
    fresh: Seq<char>,
    now: u128,
)
    requires
        s.wf(),
        s.stage == StageView::Deleting(ending),
    ensures
        ({
            let (t, a) = next(s, EventView::Deleted, fresh, now);
            match ending {
                EndingView::Complete => {
                    &&& t.rows == s.rows + s.pending
                    &&& t.pending.len() == 0
                    &&& t.cycle == s.cycle + 1
                    &&& a is Publish || a is Flush
                },
                EndingView::Recycled(_) => {
                    &&& t.rows == s.rows && t.cycle == s.cycle && t.pending.len() == 0
                    &&& t.stage is CyclePause && a is Pause && a->Pause_0 == 1000
                },
                EndingView::Broken(_) => {
                    &&& t.rows == s.rows && t.cycle == s.cycle && t.pending.len() == 0
                    &&& if s.cell_attempt == 3 {
                        t.stage is Failed && a is Failed
                    } else {
                        t.stage is CellPause && a is Pause && a->Pause_0 == 5000
                    }
                },
            }
        }),
{
}

/// A warm invocation that landed cold spoils its cycle: the version in use is
/// deleted, or where there is none the cycle is paused for a second and run again.
pub proof fn law_recycled_sandbox_spoils_the_cycle(
    s: RunView,
    res: InvokeResult,
    report: ReportView,
    fresh: Seq<char>,
    now: u128,
)
    requires
        s.wf(),
        s.stage is WarmInvoke,
        report.init is Some || report.restore is Some,
    ensures
        ({
            let (t, a) = next(s, EventView::Invoked(InvokedView::Seen(res, report)), fresh, now);
            &&& t.rows == s.rows && t.cycle == s.cycle
            &&& t.cell_attempt == s.cell_attempt && t.cycle_attempt == s.cycle_attempt
            &&& if s.version is Some {
                a == ActionView::Delete(s.version->0) && t.stage == StageView::Deleting(
                    EndingView::Recycled(s.idx),
                )
            } else {
                a is Pause && a->Pause_0 == 1000 && t.stage is CyclePause && t.pending.len() == 0
            }
        }),
{
}

/// A cold force whose invocation landed warm is paused, longer each time: a second
/// and a half for each attempt, and twelve at most.
pub proof fn law_pause_after_a_warm_landing(
    s: RunView,
    res: InvokeResult,
    report: ReportView,
    fresh: Seq<char>,
    now: u128,
)
    requires
        s.wf(),
        s.stage is ColdInvoke,
        !s.cell.snapstart,
        report.init is None,
        report.restore is None,
    ensures
        ({
            let (t, a) = next(s, EventView::Invoked(InvokedView::Seen(res, report)), fresh, now);
            &&& t.stage is ForcePause
            &&& a is Pause
            &&& a->Pause_0 <= 12_000
            &&& s.force_attempt <= 8 ==> a->Pause_0 == 1500 * s.force_attempt
            &&& t.force_attempt == s.force_attempt
            &&& t.rows == s.rows && t.pending == s.pending && t.cycle == s.cycle
        }),
{
}

/// After each pause the attempt that failed is made again, as long as attempts of its
/// kind are left: six forces, four cycles, three cells. With the last one gone the
/// next greater kind fails.
pub proof fn law_attempts_are_counted(s: RunView, fresh: Seq<char>, now: u128)
    requires
        s.wf(),
    ensures
        ({
            let (t, a) = next(s, EventView::Go, fresh, now);
            &&& s.stage is ForcePause && s.force_attempt < 6 ==> {
                &&& a is ForceCold
                &&& t.force_attempt == s.force_attempt + 1
                &&& t.cycle_attempt == s.cycle_attempt
                &&& t.cell_attempt == s.cell_attempt
            }
            &&& s.stage is CyclePause && s.cycle_attempt < 4 ==> {
                &&& a is ForceCold || a is Publish
                &&& t.force_attempt == 1
                &&& t.cycle_attempt == s.cycle_attempt + 1
                &&& t.cell_attempt == s.cell_attempt
            }
            &&& s.stage is CellPause ==> {
                &&& a is ForceCold || a is Publish
                &&& t.force_attempt == 1
                &&& t.cycle_attempt == 1
                &&& t.cell_attempt == s.cell_attempt + 1
            }
            &&& (s.stage is ForcePause && s.force_attempt == 6) || (s.stage is CyclePause
                && s.cycle_attempt == 4) ==> if s.cell_attempt == 3 {
                t.stage is Failed && a is Failed
            } else {
                t.stage is CellPause && a is Pause && a->Pause_0 == 5000
            }
            &&& s.stage is ForcePause || s.stage is CyclePause || s.stage is CellPause ==> t.rows
                == s.rows && t.cycle == s.cycle
        }),
{
}

/// A cycle that is complete is followed by one with all its attempts, while those at
/// the cell stay as they are; nothing else moves on to another cycle.
pub proof fn law_a_new_cycle_has_all_its_attempts(
    s: RunView,
    e: EventView,
    fresh: Seq<char>,
    now: u128,
)
    requires
        s.wf(),
        s.expects(e),
    ensures
        ({
            let t = next(s, e, fresh, now).0;
            t.cycle != s.cycle ==> {
                &&& t.cycle == s.cycle + 1
                &&& t.cycle_attempt == 1
                &&& t.force_attempt == 1
                &&& t.cell_attempt == s.cell_attempt
                &&& t.rows.len() == s.rows.len() + 1 + s.warm
            }
        }),
{
    law_step_keeps_order(s, e, fresh, now);
    let t = next(s, e, fresh, now).0;
    if t.cycle != s.cycle {
        let n = 1 + s.warm;
        assert(t.cycle == s.cycle + 1);
        assert((s.cycle + 1) * n == s.cycle * n + n) by (nonlinear_arith);
    }
}

/// Why a call that an event tells of failed, where it did.
pub open spec fn failure_in(e: EventView) -> Option<Seq<char>> {
    match e {
        EventView::Forced(Some(why)) => Some(why),
        EventView::Published(Err(why)) => Some(why),
        EventView::Invoked(InvokedView::Failed(why)) => Some(why),
        EventView::Invoked(InvokedView::Rejected(why)) => Some(why),
        EventView::Flushed(Some(why)) => Some(why),
        _ => None,
    }
}

/// Whether a text ends with another.
pub open spec fn ends_with(t: Seq<char>, end: Seq<char>) -> bool {
    t.len() >= end.len() && t.skip(t.len() - end.len()) == end
}

/// The text that an action or a stage carries on, where it does.
pub open spec fn reason_carried(t: RunView, a: ActionView) -> Option<Seq<char>> {
    match a {
        ActionView::Pause(_, note) => Some(note),
        ActionView::Failed(why) => Some(why),
        _ => match t.stage {
            StageView::Deleting(EndingView::Broken(why)) => Some(why),
            _ => None,
        },
    }
}

/// A failed call is never passed over: the version in use is deleted, or the attempt
/// at the cell ends, with a pause of five seconds where another is left. No row comes
/// of it, and the reason is carried on to its last character.
pub proof fn law_failures_are_not_passed_over(
    s: RunView,
    e: EventView,
    fresh: Seq<char>,
    now: u128,
)
    requires
        s.wf(),
        s.expects(e),
        failure_in(e) is Some,
    ensures
        ({
            let (t, a) = next(s, e, fresh, now);
            &&& t.rows == s.rows
            &&& t.cycle == s.cycle
            &&& reason_carried(t, a) is Some
            &&& ends_with(reason_carried(t, a)->0, failure_in(e)->0)
            &&& if s.stage is Flushing {
                a is Failed && t.stage is Failed
            } else if s.version is Some {
                a == ActionView::Delete(s.version->0) && t.stage is Deleting
            } else if s.cell_attempt == 3 {
                a is Failed && t.stage is Failed && t.pending.len() == 0
            } else {
                &&& a is Pause && a->Pause_0 == 5000 && t.stage is CellPause
                &&& t.pending.len() == 0
            }
        }),
{
    let (t, a) = next(s, e, fresh, now);
    let why = failure_in(e)->0;
    let whole = reason_carried(t, a)->0;
    assert(whole.skip(whole.len() - why.len()) =~= why);
}

/// The reason for which a broken cycle was ended is carried on when its version is
/// deleted.
pub proof fn law_broken_cycles_tell_why(
    s: RunView,
    why: Seq<char>,
    fresh: Seq<char>,
    now: u128,
)
    requires
        s.wf(),
        s.stage == StageView::Deleting(EndingView::Broken(why)),
    ensures
        ({
            let (t, a) = next(s, EventView::Deleted, fresh, now);
            reason_carried(t, a) is Some && ends_with(reason_carried(t, a)->0, why)
        }),
{
    let (t, a) = next(s, EventView::Deleted, fresh, now);
    let whole = reason_carried(t, a)->0;
    assert(whole.skip(whole.len() - why.len()) =~= why);
}

/// Rows that are written end the run in success, and a failed writing ends it in
/// failure for that reason; only a run whose rows are written is done.
pub proof fn law_only_written_rows_end_well(s: RunView, e: EventView, fresh: Seq<char>, now: u128)
    requires
        s.wf(),
        s.expects(e),
    ensures
        ({
            let (t, a) = next(s, e, fresh, now);
            &&& a is Done <==> s.stage is Flushing && e == EventView::Flushed(None)
            &&& t.stage is Done <==> a is Done
            &&& t.stage is Failed <==> a is Failed
            &&& e is Flushed && e->Flushed_0 is Some ==> a == ActionView::Failed(e->Flushed_0->0)
        }),
{
}

/// A run starts at the first cycle of the count that its cell has, with all attempts
/// left and nothing recorded.
pub proof fn law_a_run_starts_from_nothing(
    s: RunView,
    cell: Cell,
    counts: (u32, u32),
    run_id: Seq<char>,
    sizes: ArtifactSizes,
)
    requires
        starts(s, cell, counts, run_id, sizes),
    ensures
        s.cell == cell,
        s.cold == counts.0,
        s.warm == counts.1,
        s.run_id == run_id,
        s.sizes == sizes,
        s.cycle == 0 && s.rows.len() == 0 && s.pending.len() == 0,
        s.cell_attempt == 1 && s.cycle_attempt == 1 && s.force_attempt == 1,
        s.version is None,
        s.stage is Ready,
{
}

/// What a pause or a failure tells names the function that is measured.
pub proof fn law_notes_name_the_function(s: RunView, e: EventView, fresh: Seq<char>, now: u128)
    requires
        s.wf(),
        s.expects(e),
        !(e is Flushed),
    ensures
        ({
            let a = next(s, e, fresh, now).1;
            &&& a is Pause ==> has_text(a->Pause_1, s.cell.full_name())
            &&& a is Failed ==> has_text(a->Failed_0, s.cell.full_name())
        }),
{
    let a = next(s, e, fresh, now).1;
    let name = s.cell.full_name();
    if a is Failed {
        let m = a->Failed_0;
        let head = "cell "@;
        let tail = m.skip((head.len() + name.len()) as int);
        assert(m =~= head + name + tail);
        lemma_holds_middle(head, name, tail);
    }
    if a is Pause {
        let m = a->Pause_1;
        let t = next(s, e, fresh, now).0;
        let head = if t.stage is CellPause {
            "cell retry "@ + decimal(s.cell_attempt as nat) + "/3 for "@
        } else if t.stage is ForcePause {
            "cold-force retry "@ + decimal(s.force_attempt as nat) + "/6 for "@
        } else {
            "warm-recycle retry "@ + decimal(s.cycle_attempt as nat) + "/4 for "@
        };
        let tail = m.skip((head.len() + name.len()) as int);
        assert(m =~= head + name + tail);
        lemma_holds_middle(head, name, tail);
    }
}

/// An invocation counts as seen exactly where its status is 200, it carries no
/// function error, the reply behind an HTTP front is a success, and its report can be
/// read; then it is taken on as it is.
pub proof fn law_what_counts_as_seen(
    cell: Cell,
    res: InvokeResult,
    report: Result<ReportView, Seq<char>>,
    i: InvokedView,
)
    requires
        i == judged(cell, res, report),
    ensures
        !(i is Failed),
        i is Seen ==> {
            &&& res.status_code == 200
            &&& res.function_error is None
            &&& report == Ok::<ReportView, Seq<char>>(i->Seen_1)
            &&& i->Seen_0 == res
        },
        res.status_code != 200 || res.function_error is Some || report is Err ==> i is Rejected,
        res.status_code == 200 && res.function_error is None && report is Ok && cell.scenario
            != Scenario::Smithy && cell.scenario != Scenario::SmithyFull ==> i is Seen,
        (cell.scenario == Scenario::Smithy || cell.scenario == Scenario::SmithyFull)
            && res.payload is None ==> i is Rejected,
{
}

/// What a run is asked for never changes.
pub proof fn law_a_run_keeps_its_task(s: RunView, e: EventView, fresh: Seq<char>, now: u128)
    requires
        s.wf(),
        s.expects(e),
    ensures
        ({
            let t = next(s, e, fresh, now).0;
            &&& t.cell == s.cell
            &&& t.run_id == s.run_id
            &&& t.sizes == s.sizes
            &&& t.cold == s.cold
            &&& t.warm == s.warm
        }),
{
}

/// Attempts are counted up after their own pauses alone, and start over only with a
/// greater attempt or a new cycle.
pub proof fn law_attempts_change_only_after_pauses(
    s: RunView,
    e: EventView,
    fresh: Seq<char>,
    now: u128,
)
    requires
        s.wf(),
        s.expects(e),
    ensures
        ({
            let t = next(s, e, fresh, now).0;
            &&& t.cell_attempt != s.cell_attempt ==> s.stage is CellPause && t.cell_attempt
                == s.cell_attempt + 1
            &&& t.cycle_attempt > s.cycle_attempt ==> s.stage is CyclePause && t.cycle_attempt
                == s.cycle_attempt + 1
            &&& t.cycle_attempt < s.cycle_attempt ==> t.cycle_attempt == 1 && (s.stage is CellPause
                || t.cycle == s.cycle + 1)
            &&& t.force_attempt > s.force_attempt ==> s.stage is ForcePause && t.force_attempt
                == s.force_attempt + 1
            &&& t.force_attempt < s.force_attempt ==> t.force_attempt == 1 && (s.stage is CellPause
                || s.stage is CyclePause || t.cycle == s.cycle + 1)
        }),
{
}

/// A published version that does not report a restore breaks its cycle: the version is
/// deleted, and the reason names it and ends with the log.
pub proof fn law_a_version_must_restore(
    s: RunView,
    res: InvokeResult,
    report: ReportView,
    fresh: Seq<char>,
    now: u128,
)
    requires
        s.wf(),
        s.stage is ColdInvoke,
        s.cell.snapstart,
        report.restore is None,
    ensures
        ({
            let (t, a) = next(s, EventView::Invoked(InvokedView::Seen(res, report)), fresh, now);
            &&& a == ActionView::Delete(s.version->0)
            &&& t.stage is Deleting && t.stage->Deleting_0 is Broken
            &&& has_text(t.stage->Deleting_0->Broken_0, s.version->0)
            &&& ends_with(t.stage->Deleting_0->Broken_0, res.log_tail@)
        }),
{
    let (t, a) = next(s, EventView::Invoked(InvokedView::Seen(res, report)), fresh, now);
    let why = t.stage->Deleting_0->Broken_0;
    let log = res.log_tail@;
    assert(why.skip(why.len() - log.len()) =~= log);
    let head = in_cycle(s) + ": first invoke of fresh version "@;
    let tail = why.skip((head.len() + s.version->0.len()) as int);
    assert(why =~= head + s.version->0 + tail);
    lemma_holds_middle(head, s.version->0, tail);
}

/// What a pause or a failure tells first: which attempt of how many failed, of which
/// function, and in which cycle.
pub proof fn law_notes_count_attempts(s: RunView, e: EventView, fresh: Seq<char>, now: u128)
    requires
        s.wf(),
        s.expects(e),
    ensures
        ({
            let (t, a) = next(s, e, fresh, now);
            let name = s.cell.full_name();
            let cycle = decimal(s.cycle as nat);
            &&& a is Pause && t.stage is CellPause ==> has_prefix(
                a->Pause_1,
                "cell retry "@ + decimal(s.cell_attempt as nat) + "/3 for "@ + name
                    + " (resuming at cycle "@ + cycle + "/"@ + decimal(s.cold as nat) + "): "@ + (
                "cycle "@ + cycle + " of "@ + name) + ": "@,
            )
            &&& a is Pause && t.stage is CyclePause ==> has_prefix(
                a->Pause_1,
                "warm-recycle retry "@ + decimal(s.cycle_attempt as nat) + "/4 for "@ + (name
                    + " (cycle "@ + cycle + ")"@) + ": warm invoke "@,
            )
            &&& a is Pause && t.stage is ForcePause ==> has_prefix(
                a->Pause_1,
                "cold-force retry "@ + decimal(s.force_attempt as nat) + "/6 for "@ + (name
                    + " (cycle "@ + cycle + ")"@) + ": invoke landed warm (req "@,
            )
            &&& a is Failed && !(e is Flushed) ==> has_prefix(
                a->Failed_0,
                "cell "@ + name + " failed after 3 attempts: "@ + ("cycle "@ + cycle + " of "@
                    + name) + ": "@,
            )
        }),
{
    let (t, a) = next(s, e, fresh, now);
    if t.stage is CellPause || (a is Failed && !(e is Flushed)) {
        lemma_failed_somehow(s, e, fresh, now);
        let why = choose|why: Seq<char>| next(s, e, fresh, now) == #[trigger] fail(s, why);
        lemma_failed_note(s, why);
    } else if t.stage is CyclePause {
        lemma_recycled_somehow(s, e, fresh, now);
        let idx = choose|idx: u32| next(s, e, fresh, now) == #[trigger] recycle(s, idx);
        lemma_recycled_note(s, idx);
    } else if t.stage is ForcePause {
        let report = e->Invoked_0->Seen_1;
        let head = "cold-force retry "@ + decimal(s.force_attempt as nat) + "/6 for "@;
        let mid = ": invoke landed warm (req "@;
        assert(a->Pause_1 == head + in_cycle(s) + mid + report.request_id + "), re-forcing"@);
        lemma_longer_prefix(head + in_cycle(s) + mid, report.request_id, "), re-forcing"@);
    }
}

proof fn lemma_longer_prefix(a: Seq<char>, b: Seq<char>, c: Seq<char>)
    ensures
        has_prefix(a + b, a),
        has_prefix(a + b + c, a),
{
    assert((a + b).take(a.len() as int) =~= a);
    assert((a + b + c).take(a.len() as int) =~= a);
}

proof fn lemma_failed_somehow(s: RunView, e: EventView, fresh: Seq<char>, now: u128)
    requires
        s.wf(),
        s.expects(e),
        next(s, e, fresh, now).0.stage is CellPause || (next(s, e, fresh, now).1 is Failed && !(
        e is Flushed)),
    ensures
        exists|why: Seq<char>| next(s, e, fresh, now) == #[trigger] fail(s, why),
{
}

proof fn lemma_recycled_somehow(s: RunView, e: EventView, fresh: Seq<char>, now: u128)
    requires
        s.wf(),
        s.expects(e),
        next(s, e, fresh, now).0.stage is CyclePause,
    ensures
        exists|idx: u32| next(s, e, fresh, now) == #[trigger] recycle(s, idx),
        next(s, e, fresh, now).1 is Pause,
{
}

proof fn lemma_failed_note(s: RunView, why: Seq<char>)
    ensures
        ({
            let a = fail(s, why).1;
            let name = s.cell.full_name();
            let cycle = decimal(s.cycle as nat);
            &&& a is Pause ==> has_prefix(
                a->Pause_1,
                "cell retry "@ + decimal(s.cell_attempt as nat) + "/3 for "@ + name
                    + " (resuming at cycle "@ + cycle + "/"@ + decimal(s.cold as nat) + "): "@ + (
                "cycle "@ + cycle + " of "@ + name) + ": "@,
            )
            &&& a is Failed ==> has_prefix(
                a->Failed_0,
                "cell "@ + name + " failed after 3 attempts: "@ + ("cycle "@ + cycle + " of "@
                    + name) + ": "@,
            )
        }),
{
    let a = fail(s, why).1;
    let name = s.cell.full_name();
    let cycle = decimal(s.cycle as nat);
    let of = "cycle "@ + cycle + " of "@ + name;
    let head = if a is Pause {
        "cell retry "@ + decimal(s.cell_attempt as nat) + "/3 for "@ + name
            + " (resuming at cycle "@ + cycle + "/"@ + decimal(s.cold as nat) + "): "@
    } else {
        "cell "@ + name + " failed after 3 attempts: "@
    };
    lemma_nested_prefix(head, of, why);
}

proof fn lemma_nested_prefix(head: Seq<char>, of: Seq<char>, why: Seq<char>)
    ensures
        has_prefix(head + (of + ": "@ + why), head + of + ": "@),
{
    let m = head + (of + ": "@ + why);
    let p = head + of + ": "@;
    assert(m.take(p.len() as int) =~= p);
}

proof fn lemma_recycled_note(s: RunView, idx: u32)
    ensures
        has_prefix(
            recycle(s, idx).1->Pause_1,
            "warm-recycle retry "@ + decimal(s.cycle_attempt as nat) + "/4 for "@ + (
            s.cell.full_name() + " (cycle "@ + decimal(s.cycle as nat) + ")"@)
                + ": warm invoke "@,
        ),
{
    let head = "warm-recycle retry "@ + decimal(s.cycle_attempt as nat) + "/4 for "@ + (
    s.cell.full_name() + " (cycle "@ + decimal(s.cycle as nat) + ")"@) + ": warm invoke "@;
    lemma_longer_prefix(
        head,
        decimal(idx as nat),
        " landed cold (AWS recycled the sandbox), re-running cycle"@,
    );
}

/// Whether a row holds what an invocation that happened came back with.
pub open spec fn came_of(row: RowView, h: Happening) -> bool {
    match h.event {
        EventView::Invoked(InvokedView::Seen(res, report)) => {
            &&& row.report == report
            &&& row.ts_unix_ms == h.now
            &&& row.invoke_status == res.status_code
            &&& row.function_error == maybe_text(res.function_error)
        },
        _ => false,
    }
}

/// Whether a row came of one of the invocations that happened.
pub open spec fn came_of_one(row: RowView, steps: Seq<Happening>) -> bool {
    exists|i: int| 0 <= i < steps.len() && came_of(row, #[trigger] steps[i])
}

proof fn lemma_rows_of_a_step(s: RunView, h: Happening, k: int)
    requires
        s.wf(),
        s.expects(h.event),
        0 <= k < all_rows(next(s, h.event, h.fresh, h.now).0).len(),
    ensures
        ({
            let row = all_rows(next(s, h.event, h.fresh, h.now).0)[k];
            came_of(row, h) || (k < all_rows(s).len() && row == all_rows(s)[k])
        }),
{
    let t = next(s, h.event, h.fresh, h.now).0;
    match h.event {
        EventView::Invoked(InvokedView::Seen(res, report)) => {
            law_what_is_seen_is_what_is_recorded(s, res, report, h.fresh, h.now);
            if is_clean(s, report) {
                assert(all_rows(t).drop_last() == all_rows(s));
                if k < all_rows(s).len() {
                    assert(all_rows(t).drop_last()[k] == all_rows(t)[k]);
                } else {
                    let row = all_rows(t)[k];
                    assert(row == all_rows(t).last());
                    assert(row.report == report);
                }
            }
        },
        EventView::Deleted => {
            if t.cycle != s.cycle {
                assert(all_rows(t) =~= all_rows(s));
            }
        },
        _ => {},
    }
}

/// Every row of a run holds what an invocation of that run came back with: what the
/// platform reported of it, its status, its error, and when it was made.
pub proof fn law_every_row_came_of_an_invocation(s: RunView, steps: Seq<Happening>, k: int)
    requires
        s.wf(),
        all_rows(s).len() == 0,
        happened_in_turn(s, steps),
        0 <= k < all_rows(after(s, steps)).len(),
    ensures
        came_of_one(all_rows(after(s, steps))[k], steps),
    decreases steps.len(),
{
    if steps.len() > 0 {
        let front = steps.drop_last();
        let before = after(s, front);
        let h = steps.last();
        law_any_run(s, front);
        lemma_rows_of_a_step(before, h, k);
        let row = all_rows(after(s, steps))[k];
        if came_of(row, h) {
            assert(came_of(row, steps[steps.len() - 1]));
        } else {
            law_every_row_came_of_an_invocation(s, front, k);
            let i = choose|i: int| 0 <= i < front.len() && came_of(row, #[trigger] front[i]);
            assert(steps[i] == front[i]);
        }
    }
}

/// What is told of an invocation that does not count: what the platform check finds,
/// or that the report of the function could not be read, and why.
pub proof fn law_what_is_told_of_the_uncounted(
    cell: Cell,
    res: InvokeResult,
    report: Result<ReportView, Seq<char>>,
)
    ensures
        match judged(cell, res, report) {
            InvokedView::Rejected(m) => match invoke_complaint(
                cell.full_name(),
                cell.scenario == Scenario::Smithy || cell.scenario == Scenario::SmithyFull,
                res,
            ) {
                Some(e) => m == e,
                None => report is Err && ends_with(m, report->Err_0) && has_text(
                    m,
                    cell.full_name(),
                ),
            },
            _ => true,
        },
{
    match judged(cell, res, report) {
        InvokedView::Rejected(m) => {
            if report is Err && m == "parsing REPORT for "@ + cell.full_name() + ": "@
                + report->Err_0 {
                let e = report->Err_0;
                assert(m.skip(m.len() - e.len()) =~= e);
                lemma_holds_middle("parsing REPORT for "@, cell.full_name(), ": "@ + e);
                assert(m =~= "parsing REPORT for "@ + cell.full_name() + (": "@ + e));
            }
        },
        _ => {},
    }
}

/// A failed call is told with its place: the reason goes on with what was being done,
/// in which cycle of which function, and ends with what the call said.
pub proof fn law_failures_are_placed(
    s: RunView,
    why: Seq<char>,
    fresh: Seq<char>,
    now: u128,
)
    requires
        s.wf(),
    ensures
        ({
            let name = s.cell.full_name();
            let cycle = decimal(s.cycle as nat);
            let of = "cycle "@ + cycle + " of "@ + name;
            let within = name + " (cycle "@ + cycle + ")"@;
            let failed = EventView::Invoked(InvokedView::Failed(why));
            &&& s.stage is Forcing ==> tells_at_the_end(
                next(s, EventView::Forced(Some(why)), fresh, now),
                "cold invoke "@ + of + ": forcing cold for "@ + name + ": "@ + why,
            )
            &&& s.stage is Publishing ==> tells_at_the_end(
                next(s, EventView::Published(Err(why)), fresh, now),
                "publishing cold version for "@ + within + ": "@ + why,
            )
            &&& s.stage is ColdInvoke && !s.cell.snapstart ==> tells_at_the_end(
                next(s, failed, fresh, now),
                "cold invoke "@ + of + ": "@ + why,
            )
            &&& s.stage is ColdInvoke && s.cell.snapstart ==> tells_at_the_end(
                next(s, failed, fresh, now),
                "cold restore invoke "@ + of + ": "@ + why,
            )
            &&& s.stage is WarmInvoke ==> tells_at_the_end(
                next(s, failed, fresh, now),
                "warm invoke "@ + decimal(s.idx as nat) + " "@ + of + ": "@ + why,
            )
        }),
{
    let name = s.cell.full_name();
    let cycle = decimal(s.cycle as nat);
    let of = "cycle "@ + cycle + " of "@ + name;
    let within = name + " (cycle "@ + cycle + ")"@;
    lemma_fail_tells(s, "cold invoke "@ + of + ": forcing cold for "@ + name + ": "@ + why);
    lemma_fail_tells(s, "publishing cold version for "@ + within + ": "@ + why);
    lemma_fail_tells(s, "cold invoke "@ + of + ": "@ + why);
    let warm = "warm invoke "@ + decimal(s.idx as nat) + " "@ + of + ": "@ + why;
    lemma_fail_tells(s, warm);
    assert(warm.skip(0) =~= warm);
    let cold = "cold restore invoke "@ + of + ": "@ + why;
    assert(cold.skip(0) =~= cold);
}

/// Whether what a step leads to carries a reason that ends with a text.
pub open spec fn tells_at_the_end(step: (RunView, ActionView), end: Seq<char>) -> bool {
    reason_carried(step.0, step.1) is Some && ends_with(reason_carried(step.0, step.1)->0, end)
}

proof fn lemma_fail_tells(s: RunView, why: Seq<char>)
    ensures
        tells_at_the_end(fail(s, why), why),
{
    let note = reason_carried(fail(s, why).0, fail(s, why).1)->0;
    assert(note.skip(note.len() - why.len()) =~= why);
}

/// A measurement is told as it is shown, and a missing one as missing.
pub proof fn law_how_measurements_are_told(t: Seq<char>)
    ensures
        shown(None) == "None"@,
        shown(Some(t)) == "Some("@ + shown_number(t) + ")"@,
{
}

} // verus!
