//! What sampling is for: a unit's samples are what was seen, each cold one with an
//! init, and nothing that failed is kept or passed over.
use crate::platform::{invoke_complaint, InvokeResult};
use crate::report::ReportView;
use crate::run_rules::ends_with;
use crate::sample::{
    timed_judged, unit_next, MeasuredView, TimedView, UnitEventView, UnitStage, UnitView, WarmView,
};
use crate::text::{decimal, has_prefix, has_text};
use crate::text_lemmas::lemma_holds_middle;
use vstd::prelude::*;
use vstd::string::*;

verus! {

/// What a unit was asked for never changes.
pub proof fn law_a_unit_keeps_its_task(s: UnitView, e: UnitEventView)
    requires
        s.wf(),
        s.expects(e),
    ensures
        unit_next(s, e).0.name == s.name,
        unit_next(s, e).0.cold_samples == s.cold_samples,
        unit_next(s, e).0.warm_per_sample == s.warm_per_sample,
{
}

/// Every sample begins with a forced cold start, then the warming of the connection,
/// then the cold invocation.
pub proof fn law_course_of_a_sample(s: UnitView)
    requires
        s.wf(),
    ensures
        s.stage == UnitStage::Ready ==> {
            let (t, a) = unit_next(s, UnitEventView::Go);
            a is ForceCold && t == (UnitView { stage: UnitStage::Forcing, ..s })
        },
        s.stage == UnitStage::Forcing ==> {
            let (t, a) = unit_next(s, UnitEventView::Forced(None));
            a is Prewarm && t == (UnitView { stage: UnitStage::Prewarming, ..s })
        },
        s.stage == UnitStage::Prewarming ==> {
            let (t, a) = unit_next(s, UnitEventView::Prewarmed(None));
            a is Invoke && t == (UnitView { stage: UnitStage::ColdInvoke, ..s })
        },
{
}

/// A cold invocation that shows an init is measured: its wall clock, its init and its
/// own duration, as they were seen. The samples before it stay as they are, and a warm
/// invocation follows.
pub proof fn law_cold_measurement_is_what_was_seen(s: UnitView, wall_ns: u64, report: ReportView)
    requires
        s.wf(),
        s.stage == UnitStage::ColdInvoke,
        report.init is Some,
    ensures
        ({
            let (t, a) = unit_next(s, UnitEventView::Invoked(TimedView::Seen(wall_ns, report)));
            &&& a is Invoke
            &&& t.stage == UnitStage::WarmInvoke
            &&& t.current is Some
            &&& t.current->0.wall_ns == wall_ns
            &&& t.current->0.init == report.init->0
            &&& t.current->0.cold_duration == report.duration
            &&& t.current->0.warm.len() == 0
            &&& t.samples == s.samples
            &&& t.unit_attempt == s.unit_attempt
            &&& t.force_attempt == s.force_attempt
        }),
{
}

/// An invocation without an init, a restored one too, is no cold sample: it is not
/// measured, and after a pause that grows by half a second with each force the cold
/// start is forced again, six times at most.
pub proof fn law_warm_landing_is_forced_again(s: UnitView, wall_ns: u64, report: ReportView)
    requires
        s.wf(),
        s.stage == UnitStage::ColdInvoke,
        report.init is None,
    ensures
        ({
            let (t, a) = unit_next(s, UnitEventView::Invoked(TimedView::Seen(wall_ns, report)));
            let (u, b) = unit_next(t, UnitEventView::Go);
            &&& a is Pause && a->Pause_0 == 500 * s.force_attempt
            &&& has_text(a->Pause_1, report.request_id)
            &&& has_text(a->Pause_1, s.name)
            &&& t == (UnitView { stage: UnitStage::ForcePause, ..s })
            &&& s.force_attempt < 6 ==> b is ForceCold && u.force_attempt == s.force_attempt + 1
                && u.unit_attempt == s.unit_attempt && u.samples == s.samples && u.current is None
            &&& s.force_attempt == 6 ==> u.stage == UnitStage::UnitPause && b is Pause
                && u.samples.len() == 0
        }),
{
    let (t, a) = unit_next(s, UnitEventView::Invoked(TimedView::Seen(wall_ns, report)));
    let head = "cold-force retry "@ + decimal(s.force_attempt as nat) + "/6 for "@;
    let mid = ": invoke landed warm (req "@;
    let end = "), re-forcing"@;
    lemma_holds_middle(head, s.name, mid + report.request_id + end);
    assert(a->Pause_1 =~= head + s.name + (mid + report.request_id + end));
    lemma_holds_middle(head + s.name + mid, report.request_id, end);
    assert(a->Pause_1 =~= head + s.name + mid + report.request_id + end);
}

/// A warm invocation that shows no start is added behind those before it, with its wall
/// clock and its own duration, as they were seen. The sample is kept once it has all
/// its warm ones, and the unit is done once it has all its samples.
pub proof fn law_warm_measurement_is_what_was_seen(s: UnitView, wall_ns: u64, report: ReportView)
    requires
        s.wf(),
        s.stage == UnitStage::WarmInvoke,
        report.init is None && report.restore is None,
    ensures
        ({
            let (t, a) = unit_next(s, UnitEventView::Invoked(TimedView::Seen(wall_ns, report)));
            let seen = WarmView { wall_ns, duration: report.duration };
            let more = s.current->0.warm.push(seen);
            let whole = more.len() == s.warm_per_sample;
            &&& t.unit_attempt == s.unit_attempt
            &&& !whole ==> a is Invoke && t.stage == UnitStage::WarmInvoke && t.samples == s.samples
                && t.current is Some && t.current->0.warm == more && t.current->0.wall_ns
                == s.current->0.wall_ns && t.current->0.init == s.current->0.init
                && t.current->0.cold_duration == s.current->0.cold_duration
            &&& whole ==> {
                &&& t.samples.len() == s.samples.len() + 1
                &&& t.samples.drop_last() == s.samples
                &&& t.samples.last().warm == more
                &&& t.samples.last().wall_ns == s.current->0.wall_ns
                &&& t.samples.last().init == s.current->0.init
                &&& t.samples.last().cold_duration == s.current->0.cold_duration
                &&& t.current is None
                &&& t.force_attempt == 1
                &&& a is Done <==> t.samples.len() == s.cold_samples
                &&& a is ForceCold <==> t.samples.len() < s.cold_samples
                &&& t.stage == UnitStage::Done <==> t.samples.len() == s.cold_samples
            }
        }),
{
    let (t, a) = unit_next(s, UnitEventView::Invoked(TimedView::Seen(wall_ns, report)));
    let seen = WarmView { wall_ns, duration: report.duration };
    let more = MeasuredView { warm: s.current->0.warm.push(seen), ..s.current->0 };
    assert(s.samples.push(more).drop_last() =~= s.samples);
}

/// A warm invocation that shows a start of either kind spoils the attempt.
pub proof fn law_retired_sandbox_spoils_the_unit(s: UnitView, wall_ns: u64, report: ReportView)
    requires
        s.wf(),
        s.stage == UnitStage::WarmInvoke,
        report.init is Some || report.restore is Some,
    ensures
        ({
            let (t, a) = unit_next(s, UnitEventView::Invoked(TimedView::Seen(wall_ns, report)));
            &&& t.stage == UnitStage::UnitPause
            &&& a is Pause && a->Pause_0 == 5000
            &&& t.samples.len() == 0 && t.current is None
            &&& t.unit_attempt == s.unit_attempt
        }),
{
}

/// What failed, where something did.
pub open spec fn trouble_in(e: UnitEventView) -> Option<Seq<char>> {
    match e {
        UnitEventView::Forced(Some(m)) => Some(m),
        UnitEventView::Prewarmed(Some(m)) => Some(m),
        UnitEventView::Invoked(TimedView::Failed(m)) => Some(m),
        UnitEventView::Invoked(TimedView::Rejected(m)) => Some(m),
        _ => None,
    }
}

/// A failure is never passed over: it ends the attempt, drops every sample of it, is
/// told at the end of the note, and five seconds pass before the next attempt.
pub proof fn law_trouble_ends_the_attempt(s: UnitView, e: UnitEventView)
    requires
        s.wf(),
        s.expects(e),
        trouble_in(e) is Some,
    ensures
        ({
            let (t, a) = unit_next(s, e);
            &&& t.stage == UnitStage::UnitPause
            &&& a is Pause && a->Pause_0 == 5000
            &&& ends_with(a->Pause_1, trouble_in(e)->0)
            &&& ends_with(t.last_error, trouble_in(e)->0)
            &&& t.samples.len() == 0 && t.current is None
            &&& t.unit_attempt == s.unit_attempt
        }),
{
    let (t, a) = unit_next(s, e);
    let m = trouble_in(e)->0;
    assert(t.last_error.skip(t.last_error.len() - m.len()) =~= m);
    assert(a->Pause_1.skip(a->Pause_1.len() - m.len()) =~= m);
}

/// A unit gets three attempts, each with all its forces; after the third it fails, and
/// says why the last of them did.
pub proof fn law_three_attempts_at_a_unit(s: UnitView)
    requires
        s.wf(),
        s.stage == UnitStage::UnitPause,
    ensures
        ({
            let (t, a) = unit_next(s, UnitEventView::Go);
            &&& s.unit_attempt < 3 ==> a is ForceCold && t.unit_attempt == s.unit_attempt + 1
                && t.force_attempt == 1 && t.stage == UnitStage::Forcing && t.samples.len() == 0
            &&& s.unit_attempt == 3 ==> a is Failed && t.stage == UnitStage::Failed && ends_with(
                a->Failed_0,
                s.last_error,
            )
            &&& a is Failed ==> s.unit_attempt == 3
        }),
{
    let (t, a) = unit_next(s, UnitEventView::Go);
    if s.unit_attempt == 3 {
        let m = s.last_error;
        assert(a->Failed_0.skip(a->Failed_0.len() - m.len()) =~= m);
    }
}

/// A unit ends well only with its last warm invocation, and badly only after a pause.
pub proof fn law_how_a_unit_ends(s: UnitView, e: UnitEventView)
    requires
        s.wf(),
        s.expects(e),
    ensures
        unit_next(s, e).1 is Done ==> s.stage == UnitStage::WarmInvoke && unit_next(
            s,
            e,
        ).0.samples.len() == s.cold_samples,
        unit_next(s, e).1 is Failed ==> s.stage == UnitStage::UnitPause,
        unit_next(s, e).0.samples.len() > s.samples.len() ==> s.stage == UnitStage::WarmInvoke,
{
}

/// A timed invocation counts exactly where the platform check holds and its report can
/// be read, and then with the wall clock and the report that were given.
pub proof fn law_what_counts_as_timed(
    name: Seq<char>,
    http_fronted: bool,
    warm: bool,
    wall_ns: u64,
    res: InvokeResult,
    report: Result<ReportView, Seq<char>>,
)
    ensures
        match timed_judged(name, http_fronted, warm, wall_ns, res, report) {
            TimedView::Seen(ns, v) => {
                &&& invoke_complaint(name, http_fronted, res) is None
                &&& report is Ok
                &&& ns == wall_ns
                &&& v == report->Ok_0
            },
            TimedView::Rejected(m) => match invoke_complaint(name, http_fronted, res) {
                Some(e) => m == e,
                None => report is Err && ends_with(m, report->Err_0) && has_text(m, name),
            },
            TimedView::Failed(_) => false,
        },
{
    let judged = timed_judged(name, http_fronted, warm, wall_ns, res, report);
    if invoke_complaint(name, http_fronted, res) is None && report is Err {
        let e = report->Err_0;
        let m = judged->Rejected_0;
        assert(m.skip(m.len() - e.len()) =~= e);
        let head = if warm {
            "parsing warm REPORT for "@
        } else {
            "parsing REPORT for "@
        };
        lemma_holds_middle(head, name, ": "@ + e);
        assert(m =~= head + name + (": "@ + e));
    }
}

/// What the pause after a failed attempt tells first: which attempt of three failed, of
/// which function, and at which sample of how many.
pub proof fn law_unit_notes_count_attempts(s: UnitView, e: UnitEventView)
    requires
        s.wf(),
        s.expects(e),
        unit_next(s, e).0.stage == UnitStage::UnitPause,
    ensures
        ({
            let (t, a) = unit_next(s, e);
            let sample = "cold sample "@ + decimal((s.samples.len() + 1) as nat) + "/"@ + decimal(
                s.cold_samples as nat,
            ) + " of "@ + s.name + ": "@;
            &&& a is Pause
            &&& has_prefix(t.last_error, sample)
            &&& has_prefix(
                a->Pause_1,
                "unit retry "@ + decimal(s.unit_attempt as nat) + "/3 for "@ + s.name + ": "@ + (
                sample),
            )
        }),
{
    let (t, a) = unit_next(s, e);
    let sample = "cold sample "@ + decimal((s.samples.len() + 1) as nat) + "/"@ + decimal(
        s.cold_samples as nat,
    ) + " of "@ + s.name + ": "@;
    assert(t.last_error.take(sample.len() as int) =~= sample);
    let head = "unit retry "@ + decimal(s.unit_attempt as nat) + "/3 for "@ + s.name + ": "@;
    let m = a->Pause_1;
    assert(m =~= head + t.last_error);
    assert(m.take((head.len() + sample.len()) as int) =~= head + sample);
}

} // verus!
