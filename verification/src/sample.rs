//! Sampling cold starts from the caller's side, as decisions, and reducing the
//! samples.
//!
//! A sample is one cold invocation, its connection warmed just before, and a
//! number of warm invocations on the same sandbox. A unit is a series of samples,
//! kept only where every one of them succeeded.
use crate::platform::{check_ok, invoke_complaint, InvokeResult};
use crate::report::{parse_report, report_in, Millis, Report, ReportView};
use crate::text::{append_decimal, decimal};
use vstd::prelude::*;
use vstd::string::*;

verus! {

/// Most attempts at a unit.
pub const MAX_UNIT_ATTEMPTS: u32 = 3;

/// Pause after a failed attempt at a unit.
pub const UNIT_RETRY_BACKOFF_MS: u64 = 5000;

/// Most cold forces of a sample.
pub const MAX_SAMPLE_FORCES: u32 = 6;

/// A warm invocation of a sample: the caller's wall clock and the handler's own
/// duration.
pub struct WarmSeen {
    pub wall_ns: u64,
    pub duration: Millis,
}

/// What was measured of a sample.
pub struct Measured {
    pub wall_ns: u64,
    pub init: Millis,
    pub cold_duration: Millis,
    pub warm: Vec<WarmSeen>,
}

/// A warm invocation, in plain values.
pub ghost struct WarmView {
    pub wall_ns: u64,
    pub duration: Seq<char>,
}

/// A sample, in plain values.
pub ghost struct MeasuredView {
    pub wall_ns: u64,
    pub init: Seq<char>,
    pub cold_duration: Seq<char>,
    pub warm: Seq<WarmView>,
}

/// Warm invocations, in plain values.
pub open spec fn warm_views(v: Seq<WarmSeen>) -> Seq<WarmView> {
    v.map_values(|w: WarmSeen| WarmView { wall_ns: w.wall_ns, duration: w.duration.text@ })
}

impl Measured {
    pub open spec fn view(self) -> MeasuredView {
        MeasuredView {
            wall_ns: self.wall_ns,
            init: self.init.text@,
            cold_duration: self.cold_duration.text@,
            warm: warm_views(self.warm@),
        }
    }
}

/// Samples, in plain values.
pub open spec fn measured_views(v: Seq<Measured>) -> Seq<MeasuredView> {
    v.map_values(|m: Measured| m@)
}

/// Where a unit stands.
#[derive(Debug, Clone, Copy, PartialEq, Eq, Structural)]
pub enum UnitStage {
    Ready,
    Forcing,
    Prewarming,
    ColdInvoke,
    ForcePause,
    WarmInvoke,
    UnitPause,
    Done,
    Failed,
}

/// What came of a timed invocation.
pub enum TimedInvoked {
    /// The call failed.
    Failed(String),
    /// The call came back, but the platform check or the report did not hold.
    Rejected(String),
    /// The call came back after so many nanoseconds with a readable report.
    Seen(u64, Report),
}

/// What happened since the last step.
pub enum UnitEvent {
    Go,
    Forced(Result<(), String>),
    Prewarmed(Result<(), String>),
    Invoked(TimedInvoked),
}

/// What to do next.
pub enum UnitAction {
    ForceCold,
    Prewarm,
    Invoke,
    /// Report the note and wait so many milliseconds.
    Pause(u64, String),
    Done,
    Failed(String),
}

/// What came of a timed invocation, in plain values.
pub ghost enum TimedView {
    Failed(Seq<char>),
    Rejected(Seq<char>),
    Seen(u64, ReportView),
}

/// What happened, in plain values.
pub ghost enum UnitEventView {
    Go,
    Forced(Option<Seq<char>>),
    Prewarmed(Option<Seq<char>>),
    Invoked(TimedView),
}

/// What to do next, in plain values.
pub ghost enum UnitActionView {
    ForceCold,
    Prewarm,
    Invoke,
    Pause(int, Seq<char>),
    Done,
    Failed(Seq<char>),
}

impl TimedInvoked {
    pub open spec fn view(self) -> TimedView {
        match self {
            TimedInvoked::Failed(e) => TimedView::Failed(e@),
            TimedInvoked::Rejected(e) => TimedView::Rejected(e@),
            TimedInvoked::Seen(ns, report) => TimedView::Seen(ns, report@),
        }
    }
}

impl UnitEvent {
    pub open spec fn view(self) -> UnitEventView {
        match self {
            UnitEvent::Go => UnitEventView::Go,
            UnitEvent::Forced(Ok(_)) => UnitEventView::Forced(None),
            UnitEvent::Forced(Err(e)) => UnitEventView::Forced(Some(e@)),
            UnitEvent::Prewarmed(Ok(_)) => UnitEventView::Prewarmed(None),
            UnitEvent::Prewarmed(Err(e)) => UnitEventView::Prewarmed(Some(e@)),
            UnitEvent::Invoked(i) => UnitEventView::Invoked(i@),
        }
    }
}

impl UnitAction {
    pub open spec fn view(self) -> UnitActionView {
        match self {
            UnitAction::ForceCold => UnitActionView::ForceCold,
            UnitAction::Prewarm => UnitActionView::Prewarm,
            UnitAction::Invoke => UnitActionView::Invoke,
            UnitAction::Pause(ms, note) => UnitActionView::Pause(ms as int, note@),
            UnitAction::Done => UnitActionView::Done,
            UnitAction::Failed(e) => UnitActionView::Failed(e@),
        }
    }
}

/// A series of samples of one function.
pub struct UnitRun {
    pub name: String,
    pub cold_samples: u32,
    pub warm_per_sample: u32,
    pub unit_attempt: u32,
    pub force_attempt: u32,
    /// The samples of this attempt.
    pub samples: Vec<Measured>,
    /// The sample under way, once its cold invocation is measured.
    pub current: Option<Measured>,
    /// Why the last attempt failed.
    pub last_error: String,
    pub stage: UnitStage,
}

/// A series of samples, in plain values.
pub ghost struct UnitView {
    pub name: Seq<char>,
    pub cold_samples: u32,
    pub warm_per_sample: u32,
    pub unit_attempt: u32,
    pub force_attempt: u32,
    pub samples: Seq<MeasuredView>,
    pub current: Option<MeasuredView>,
    pub last_error: Seq<char>,
    pub stage: UnitStage,
}

impl UnitView {
    /// What holds of every state of a unit.
    pub open spec fn wf(self) -> bool {
        &&& self.cold_samples >= 1
        &&& self.warm_per_sample >= 1
        &&& 1 <= self.unit_attempt <= 3
        &&& 1 <= self.force_attempt <= 6
        &&& forall|k: int|
            0 <= k < self.samples.len() ==> (#[trigger] self.samples[k]).warm.len()
                == self.warm_per_sample
        &&& match self.stage {
            UnitStage::Done => self.samples.len() == self.cold_samples && self.current is None,
            UnitStage::UnitPause | UnitStage::Failed => self.samples.len() == 0 && self.current
                is None,
            UnitStage::WarmInvoke => self.samples.len() < self.cold_samples && self.current is Some
                && self.current->0.warm.len() < self.warm_per_sample,
            _ => self.samples.len() < self.cold_samples && self.current is None,
        }
    }

    /// Whether an event is one that the stage waits for.
    pub open spec fn expects(self, e: UnitEventView) -> bool {
        match self.stage {
            UnitStage::Ready | UnitStage::ForcePause | UnitStage::UnitPause => e is Go,
            UnitStage::Forcing => e is Forced,
            UnitStage::Prewarming => e is Prewarmed,
            UnitStage::ColdInvoke | UnitStage::WarmInvoke => e is Invoked,
            UnitStage::Done | UnitStage::Failed => false,
        }
    }
}

/// The start of a cold force.
pub open spec fn unit_begin(s: UnitView) -> (UnitView, UnitActionView) {
    (UnitView { stage: UnitStage::Forcing, ..s }, UnitActionView::ForceCold)
}

/// A failed attempt: every sample of it is dropped, and a pause follows.
pub open spec fn unit_fail(s: UnitView, why: Seq<char>) -> (UnitView, UnitActionView) {
    let whole = "cold sample "@ + decimal((s.samples.len() + 1) as nat) + "/"@ + decimal(
        s.cold_samples as nat,
    ) + " of "@ + s.name + ": "@ + why;
    (
        UnitView {
            stage: UnitStage::UnitPause,
            samples: Seq::empty(),
            current: None,
            last_error: whole,
            ..s
        },
        UnitActionView::Pause(
            5000,
            "unit retry "@ + decimal(s.unit_attempt as nat) + "/3 for "@ + s.name + ": "@ + whole,
        ),
    )
}

/// What follows the pause after a failed attempt.
pub open spec fn after_unit_pause(s: UnitView) -> (UnitView, UnitActionView) {
    if s.unit_attempt < 3 {
        unit_begin(
            UnitView { unit_attempt: (s.unit_attempt + 1) as u32, force_attempt: 1, ..s },
        )
    } else {
        (
            UnitView { stage: UnitStage::Failed, ..s },
            UnitActionView::Failed(s.name + " failed after 3 attempts: "@ + s.last_error),
        )
    }
}

/// What follows the pause after a cold force that landed warm.
pub open spec fn after_sample_pause(s: UnitView) -> (UnitView, UnitActionView) {
    if s.force_attempt < 6 {
        unit_begin(UnitView { force_attempt: (s.force_attempt + 1) as u32, ..s })
    } else {
        unit_fail(s, s.name + ": failed to force a cold start in 6 attempts"@)
    }
}

/// What follows the cold invocation: it must show an init, a restore will not do.
pub open spec fn after_cold(s: UnitView, i: TimedView) -> (UnitView, UnitActionView) {
    match i {
        TimedView::Failed(e) => unit_fail(s, e),
        TimedView::Rejected(e) => unit_fail(s, e),
        TimedView::Seen(wall_ns, report) => match report.init {
            Some(init) => (
                UnitView {
                    stage: UnitStage::WarmInvoke,
                    current: Some(
                        MeasuredView {
                            wall_ns,
                            init,
                            cold_duration: report.duration,
                            warm: Seq::empty(),
                        },
                    ),
                    ..s
                },
                UnitActionView::Invoke,
            ),
            None => (
                UnitView { stage: UnitStage::ForcePause, ..s },
                UnitActionView::Pause(
                    500 * s.force_attempt,
                    "cold-force retry "@ + decimal(s.force_attempt as nat) + "/6 for "@ + s.name
                        + ": invoke landed warm (req "@ + report.request_id + "), re-forcing"@,
                ),
            ),
        },
    }
}

/// What follows a warm invocation: one that landed cold spoils the attempt.
pub open spec fn after_warm_sample(s: UnitView, i: TimedView) -> (UnitView, UnitActionView) {
    match i {
        TimedView::Failed(e) => unit_fail(s, e),
        TimedView::Rejected(e) => unit_fail(s, e),
        TimedView::Seen(wall_ns, report) => {
            let current = s.current->0;
            if report.init is Some || report.restore is Some {
                unit_fail(
                    s,
                    s.name + ": warm invoke "@ + decimal((current.warm.len() + 1) as nat)
                        + " unexpectedly cold-started (sandbox retired mid-sample)"@,
                )
            } else {
                let more = MeasuredView {
                    warm: current.warm.push(WarmView { wall_ns, duration: report.duration }),
                    ..current
                };
                if more.warm.len() < s.warm_per_sample {
                    (UnitView { current: Some(more), ..s }, UnitActionView::Invoke)
                } else {
                    let kept = UnitView {
                        samples: s.samples.push(more),
                        current: None,
                        force_attempt: 1,
                        ..s
                    };
                    if kept.samples.len() < s.cold_samples {
                        unit_begin(kept)
                    } else {
                        (UnitView { stage: UnitStage::Done, ..kept }, UnitActionView::Done)
                    }
                }
            }
        },
    }
}

/// The next state and the next action, given an event the stage waits for.
pub open spec fn unit_next(s: UnitView, e: UnitEventView) -> (UnitView, UnitActionView) {
    match (s.stage, e) {
        (UnitStage::Ready, UnitEventView::Go) => unit_begin(s),
        (UnitStage::ForcePause, UnitEventView::Go) => after_sample_pause(s),
        (UnitStage::UnitPause, UnitEventView::Go) => after_unit_pause(s),
        (UnitStage::Forcing, UnitEventView::Forced(None)) => (
            UnitView { stage: UnitStage::Prewarming, ..s },
            UnitActionView::Prewarm,
        ),
        (UnitStage::Forcing, UnitEventView::Forced(Some(e))) => unit_fail(
            s,
            "forcing cold for "@ + s.name + ": "@ + e,
        ),
        (UnitStage::Prewarming, UnitEventView::Prewarmed(None)) => (
            UnitView { stage: UnitStage::ColdInvoke, ..s },
            UnitActionView::Invoke,
        ),
        (UnitStage::Prewarming, UnitEventView::Prewarmed(Some(e))) => unit_fail(s, e),
        (UnitStage::ColdInvoke, UnitEventView::Invoked(i)) => after_cold(s, i),
        (UnitStage::WarmInvoke, UnitEventView::Invoked(i)) => after_warm_sample(s, i),
        _ => (s, UnitActionView::Done),
    }
}

/// Every step leads from a state in order to a state in order: a finished unit
/// has all its samples, each with all its warm invocations.
pub proof fn law_unit_step_keeps_order(s: UnitView, e: UnitEventView)
    requires
        s.wf(),
        s.expects(e),
    ensures
        unit_next(s, e).0.wf(),
{
}

/// A failed attempt leaves no samples, so that a unit is never sampled in part.
pub proof fn law_failed_unit_keeps_nothing(s: UnitView, e: UnitEventView)
    requires
        s.wf(),
        s.expects(e),
        unit_next(s, e).0.stage == UnitStage::UnitPause || unit_next(s, e).1 is Failed,
    ensures
        unit_next(s, e).0.samples.len() == 0,
        unit_next(s, e).0.current is None,
{
}

/// The connection is warmed after every cold force and right before the cold
/// invocation that it is for.
pub proof fn law_prewarm_precedes_cold_invoke(s: UnitView, e: UnitEventView)
    requires
        s.wf(),
        s.expects(e),
    ensures
        unit_next(s, e).0.stage == UnitStage::ColdInvoke ==> e == UnitEventView::Prewarmed(None)
            && unit_next(s, e).1 is Invoke,
        unit_next(s, e).0.stage == UnitStage::Prewarming ==> e == UnitEventView::Forced(None)
            && unit_next(s, e).1 is Prewarm,
{
}

/// How far a unit is from its end.
pub open spec fn unit_left(s: UnitView) -> Seq<int> {
    seq![
        if s.stage == UnitStage::Failed {
            -1int
        } else {
            3 - s.unit_attempt
        },
        if s.stage == UnitStage::UnitPause || s.stage == UnitStage::Done {
            0
        } else {
            1 + s.cold_samples - s.samples.len()
        },
        6 - s.force_attempt,
        match s.stage {
            UnitStage::Ready => 6 + s.warm_per_sample,
            UnitStage::Forcing => 5 + s.warm_per_sample,
            UnitStage::Prewarming => 4 + s.warm_per_sample,
            UnitStage::ColdInvoke => 3 + s.warm_per_sample,
            UnitStage::WarmInvoke => 2 + s.warm_per_sample - s.current->0.warm.len(),
            _ => 0,
        },
    ]
}

/// Every step brings the unit nearer to its end, whatever happens.
pub proof fn law_unit_ends(s: UnitView, e: UnitEventView)
    requires
        s.wf(),
        s.expects(e),
    ensures
        crate::run_laws::nearer(unit_left(unit_next(s, e).0), unit_left(s)),
        forall|i: int| 0 <= i < 4 ==> #[trigger] unit_left(s)[i] >= 0,
{
    let a = unit_left(unit_next(s, e).0);
    let b = unit_left(s);
    assert(a[0] < b[0] || (a[0] == b[0] && (a[1] < b[1] || (a[1] == b[1] && (a[2] < b[2] || (a[2]
        == b[2] && a[3] < b[3]))))));
    if a[0] < b[0] {
    } else if a[1] < b[1] {
    } else if a[2] < b[2] {
    } else {
        assert(a[3] < b[3]);
    }
}

impl UnitRun {
    /// The unit in plain values.
    pub open spec fn view(self) -> UnitView {
        UnitView {
            name: self.name@,
            cold_samples: self.cold_samples,
            warm_per_sample: self.warm_per_sample,
            unit_attempt: self.unit_attempt,
            force_attempt: self.force_attempt,
            samples: measured_views(self.samples@),
            current: match self.current {
                Some(m) => Some(m@),
                None => None,
            },
            last_error: self.last_error@,
            stage: self.stage,
        }
    }

    /// A unit of so many samples with so many warm invocations each.
    pub fn new(name: String, cold_samples: u32, warm_per_sample: u32) -> (r: UnitRun)
        requires
            cold_samples >= 1,
            warm_per_sample >= 1,
        ensures
            r@.wf(),
            r@.name == name@,
            r@.cold_samples == cold_samples,
            r@.warm_per_sample == warm_per_sample,
            r@.unit_attempt == 1,
            r@.force_attempt == 1,
            r@.samples.len() == 0,
            r@.stage == UnitStage::Ready,
    {
        UnitRun {
            name,
            cold_samples,
            warm_per_sample,
            unit_attempt: 1,
            force_attempt: 1,
            samples: Vec::new(),
            current: None,
            last_error: String::new(),
            stage: UnitStage::Ready,
        }
    }

    /// Whether an event is one that the unit waits for.
    pub fn is_expecting(&self, event: &UnitEvent) -> (r: bool)
        ensures
            r == self@.expects(event@),
    {
        match self.stage {
            UnitStage::Ready | UnitStage::ForcePause | UnitStage::UnitPause => {
                matches!(event, UnitEvent::Go)
            },
            UnitStage::Forcing => matches!(event, UnitEvent::Forced(_)),
            UnitStage::Prewarming => matches!(event, UnitEvent::Prewarmed(_)),
            UnitStage::ColdInvoke | UnitStage::WarmInvoke => matches!(event, UnitEvent::Invoked(_)),
            UnitStage::Done | UnitStage::Failed => false,
        }
    }

    fn begin(&mut self) -> (a: UnitAction)
        ensures
            (final(self)@, a@) == unit_begin(old(self)@),
    {
        self.stage = UnitStage::Forcing;
        UnitAction::ForceCold
    }

    fn fail(&mut self, why: &str) -> (a: UnitAction)
        ensures
            (final(self)@, a@) == unit_fail(old(self)@, why@),
    {
        let mut whole: String = "cold sample ".to_owned();
        append_decimal(&mut whole, self.samples.len() as u128 + 1);
        whole.append("/");
        append_decimal(&mut whole, self.cold_samples as u128);
        whole.append(" of ");
        whole.append(self.name.as_str());
        whole.append(": ");
        whole.append(why);
        let mut note: String = "unit retry ".to_owned();
        append_decimal(&mut note, self.unit_attempt as u128);
        note.append("/3 for ");
        note.append(self.name.as_str());
        note.append(": ");
        note.append(whole.as_str());
        self.stage = UnitStage::UnitPause;
        self.samples = Vec::new();
        self.current = None;
        self.last_error = whole;
        proof {
            assert(measured_views(self.samples@) =~= Seq::<MeasuredView>::empty());
        }
        UnitAction::Pause(UNIT_RETRY_BACKOFF_MS, note)
    }

    fn resume(&mut self) -> (a: UnitAction)
        requires
            old(self)@.wf(),
            old(self)@.expects(UnitEventView::Go),
        ensures
            (final(self)@, a@) == unit_next(old(self)@, UnitEventView::Go),
    {
        match self.stage {
            UnitStage::ForcePause => {
                if self.force_attempt < MAX_SAMPLE_FORCES {
                    self.force_attempt = self.force_attempt + 1;
                    self.begin()
                } else {
                    let mut why: String = self.name.clone();
                    why.append(": failed to force a cold start in 6 attempts");
                    self.fail(why.as_str())
                }
            },
            UnitStage::UnitPause => {
                if self.unit_attempt < MAX_UNIT_ATTEMPTS {
                    self.unit_attempt = self.unit_attempt + 1;
                    self.force_attempt = 1;
                    self.begin()
                } else {
                    self.stage = UnitStage::Failed;
                    let mut out: String = self.name.clone();
                    out.append(" failed after 3 attempts: ");
                    out.append(self.last_error.as_str());
                    UnitAction::Failed(out)
                }
            },
            _ => self.begin(),
        }
    }

    fn after_cold(&mut self, i: TimedInvoked) -> (a: UnitAction)
        requires
            old(self)@.wf(),
        ensures
            (final(self)@, a@) == after_cold(old(self)@, i@),
    {
        match i {
            TimedInvoked::Failed(e) => self.fail(e.as_str()),
            TimedInvoked::Rejected(e) => self.fail(e.as_str()),
            TimedInvoked::Seen(wall_ns, report) => {
                match report.init_ms {
                    Some(init) => {
                        let sample: Measured = Measured {
                            wall_ns,
                            init,
                            cold_duration: report.duration_ms,
                            warm: Vec::new(),
                        };
                        proof {
                            assert(warm_views(sample.warm@) =~= Seq::<WarmView>::empty());
                        }
                        self.current = Some(sample);
                        self.stage = UnitStage::WarmInvoke;
                        UnitAction::Invoke
                    },
                    None => {
                        self.stage = UnitStage::ForcePause;
                        let mut note: String = "cold-force retry ".to_owned();
                        append_decimal(&mut note, self.force_attempt as u128);
                        note.append("/6 for ");
                        note.append(self.name.as_str());
                        note.append(": invoke landed warm (req ");
                        note.append(report.request_id.as_str());
                        note.append("), re-forcing");
                        UnitAction::Pause(500 * self.force_attempt as u64, note)
                    },
                }
            },
        }
    }

    fn after_warm(&mut self, i: TimedInvoked) -> (a: UnitAction)
        requires
            old(self)@.wf(),
            old(self).stage == UnitStage::WarmInvoke,
        ensures
            (final(self)@, a@) == after_warm_sample(old(self)@, i@),
    {
        let (wall_ns, report): (u64, Report) = match i {
            TimedInvoked::Failed(e) => {
                return self.fail(e.as_str());
            },
            TimedInvoked::Rejected(e) => {
                return self.fail(e.as_str());
            },
            TimedInvoked::Seen(wall_ns, report) => (wall_ns, report),
        };
        let mut taken: Option<Measured> = None;
        std::mem::swap(&mut taken, &mut self.current);
        let mut sample: Measured = match taken {
            Some(sample) => sample,
            None => {
                return UnitAction::Done;
            },
        };
        let ghost before = sample@;
        if report.is_cold() {
            let mut why: String = self.name.clone();
            why.append(": warm invoke ");
            append_decimal(&mut why, sample.warm.len() as u128 + 1);
            why.append(" unexpectedly cold-started (sandbox retired mid-sample)");
            let a: UnitAction = self.fail(why.as_str());
            return a;
        }
        sample.warm.push(WarmSeen { wall_ns, duration: report.duration_ms });
        proof {
            assert(warm_views(sample.warm@) =~= before.warm.push(
                WarmView { wall_ns, duration: report.duration_ms.text@ },
            ));
        }
        if sample.warm.len() < self.warm_per_sample as usize {
            self.current = Some(sample);
            UnitAction::Invoke
        } else {
            let ghost samples = measured_views(self.samples@);
            let ghost last = sample@;
            self.samples.push(sample);
            self.force_attempt = 1;
            proof {
                assert(measured_views(self.samples@) =~= samples.push(last));
            }
            if self.samples.len() < self.cold_samples as usize {
                self.begin()
            } else {
                self.stage = UnitStage::Done;
                UnitAction::Done
            }
        }
    }

    /// Takes in what happened and says what to do next.
    pub fn step(&mut self, event: UnitEvent) -> (a: UnitAction)
        requires
            old(self)@.wf(),
            old(self)@.expects(event@),
        ensures
            (final(self)@, a@) == unit_next(old(self)@, event@),
            final(self)@.wf(),
    {
        proof {
            law_unit_step_keeps_order(self@, event@);
        }
        match event {
            UnitEvent::Go => self.resume(),
            UnitEvent::Forced(Ok(_)) => {
                self.stage = UnitStage::Prewarming;
                UnitAction::Prewarm
            },
            UnitEvent::Forced(Err(e)) => {
                let mut why: String = "forcing cold for ".to_owned();
                why.append(self.name.as_str());
                why.append(": ");
                why.append(e.as_str());
                self.fail(why.as_str())
            },
            UnitEvent::Prewarmed(Ok(_)) => {
                self.stage = UnitStage::ColdInvoke;
                UnitAction::Invoke
            },
            UnitEvent::Prewarmed(Err(e)) => self.fail(e.as_str()),
            UnitEvent::Invoked(i) => {
                if self.stage == UnitStage::ColdInvoke {
                    self.after_cold(i)
                } else {
                    self.after_warm(i)
                }
            },
        }
    }
}

/// What a timed invocation shows, as far as the platform check and the report
/// decide it.
pub open spec fn timed_judged(
    name: Seq<char>,
    http_fronted: bool,
    warm: bool,
    wall_ns: u64,
    res: InvokeResult,
    report: Result<ReportView, Seq<char>>,
) -> TimedView {
    match invoke_complaint(name, http_fronted, res) {
        Some(e) => TimedView::Rejected(e),
        None => match report {
            Err(e) => TimedView::Rejected(
                (if warm {
                    "parsing warm REPORT for "@
                } else {
                    "parsing REPORT for "@
                }) + name + ": "@ + e,
            ),
            Ok(v) => TimedView::Seen(wall_ns, v),
        },
    }
}

/// Judges a timed invocation that came back: the platform check first, then the
/// report in its log tail.
pub fn judge_timed(
    name: &str,
    http_fronted: bool,
    warm: bool,
    wall_ns: u64,
    res: &InvokeResult,
) -> (r: TimedInvoked)
    ensures
        r@ == timed_judged(
            name@,
            http_fronted,
            warm,
            wall_ns,
            *res,
            report_in(res.log_tail@),
        ),
{
    match check_ok(name, http_fronted, res) {
        Err(e) => TimedInvoked::Rejected(e),
        Ok(_) => match parse_report(res.log_tail.as_str()) {
            Err(e) => {
                let mut why: String = if warm {
                    "parsing warm REPORT for ".to_owned()
                } else {
                    "parsing REPORT for ".to_owned()
                };
                why.append(name);
                why.append(": ");
                why.append(e.as_str());
                TimedInvoked::Rejected(why)
            },
            Ok(report) => TimedInvoked::Seen(wall_ns, report),
        },
    }
}

/// The key by which a measured number is ordered among others, from its bits: the
/// magnitude, negated where the sign bit is set. Both zeros get the same key.
pub fn order_key(bits: u64) -> (r: i64)
    ensures
        r == (if bits < 0x8000_0000_0000_0000 {
            bits as int
        } else {
            0x8000_0000_0000_0000 - bits
        }),
{
    if bits < 0x8000_0000_0000_0000 {
        bits as i64
    } else {
        -((bits - 0x8000_0000_0000_0000) as i64)
    }
}

/// Whether `order` lists every position of `keys` once, keys ascending.
pub open spec fn sorts(order: Seq<int>, keys: Seq<i64>) -> bool {
    &&& order.len() == keys.len()
    &&& order.no_duplicates()
    &&& forall|k: int| 0 <= k < order.len() ==> 0 <= #[trigger] order[k] < keys.len()
    &&& forall|i: int, j: int|
        0 <= i < j < order.len() ==> keys[#[trigger] order[i]] <= keys[#[trigger] order[j]]
}

/// Positions as numbers.
pub open spec fn positions(v: Seq<usize>) -> Seq<int> {
    v.map_values(|u: usize| u as int)
}

/// The positions of keys in ascending order of the keys.
fn sorted_positions(keys: &[i64]) -> (r: Vec<usize>)
    ensures
        sorts(positions(r@), keys@),
{
    let mut order: Vec<usize> = Vec::new();
    let mut n: usize = 0;
    proof {
        assert(sorts(positions(order@), keys@.take(0)));
    }
    while n < keys.len()
        invariant
            n <= keys@.len(),
            sorts(positions(order@), keys@.take(n as int)),
        decreases keys@.len() - n,
    {
        let ghost before = positions(order@);
        let mut i: usize = order.len();
        while i > 0 && keys[order[i - 1]] > keys[n]
            invariant
                n < keys@.len(),
                i <= order@.len(),
                before == positions(order@),
                sorts(before, keys@.take(n as int)),
                forall|k: int|
                    i <= k < order@.len() ==> keys@[#[trigger] before[k]] > keys@[n as int],
                forall|k: int|
                    0 <= k < order@.len() ==> #[trigger] order@[k] == before[k] && 0 <= before[k]
                        < n,
            decreases i,
        {
            proof {
                assert(before[i - 1] == order@[i - 1]);
            }
            i = i - 1;
        }
        order.insert(i, n);
        proof {
            let after = positions(order@);
            assert(after =~= before.insert(i as int, n as int));
            let longer = keys@.take(n + 1);
            let shorter = keys@.take(n as int);
            assert forall|k: int| 0 <= k < after.len() implies 0 <= #[trigger] after[k]
                < longer.len() by {
                if k < i {
                    assert(after[k] == before[k]);
                } else if k > i {
                    assert(after[k] == before[k - 1]);
                }
            }
            assert forall|a: int, b: int| 0 <= a < b < after.len() implies longer[#[trigger] after[a]]
                <= longer[#[trigger] after[b]] && after[a] != after[b] by {
                let a0 = if a < i { a } else { a - 1 };
                let b0 = if b < i { b } else { b - 1 };
                if a == i {
                    assert(after[b] == before[b0]);
                    assert(keys@[before[b0]] > keys@[n as int]);
                    assert(before[b0] < n);
                } else if b == i {
                    assert(after[a] == before[a0]);
                    assert(before[a0] < n);
                    assert(shorter[before[a0]] <= shorter[before[i - 1]] || a0 == i - 1);
                    assert(order@[i - 1] == before[i - 1]);
                    assert(keys@[before[i - 1]] <= keys@[n as int]);
                    assert(keys@[before[a0]] <= keys@[before[i - 1]]);
                } else {
                    assert(after[a] == before[a0] && after[b] == before[b0]);
                    assert(shorter[before[a0]] <= shorter[before[b0]]);
                    assert(before[a0] < n && before[b0] < n);
                    assert(before[a0] != before[b0]);
                }
            }
            assert(after.no_duplicates()) by {
                assert forall|a: int, b: int|
                    0 <= a < after.len() && 0 <= b < after.len() && a != b implies after[a]
                    != after[b] by {
                    if a < b {
                        assert(longer[after[a]] <= longer[after[b]] && after[a] != after[b]);
                    } else {
                        assert(longer[after[b]] <= longer[after[a]] && after[b] != after[a]);
                    }
                }
            }
        }
        n = n + 1;
    }
    proof {
        assert(keys@.take(keys@.len() as int) =~= keys@);
    }
    order
}

/// The positions of the two central keys of a set, the same position for an odd
/// count: the median is the mean of the values that stand there.
pub fn median(keys: &[i64]) -> (r: (usize, usize))
    requires
        keys@.len() > 0,
    ensures
        exists|order: Seq<int>| #[trigger]
            sorts(order, keys@) && r.0 == order[(keys@.len() - 1) / 2] && r.1 == order[(keys@.len()
                / 2) as int],
        keys@.len() % 2 == 1 ==> r.0 == r.1,
{
    let order: Vec<usize> = sorted_positions(keys);
    let n: usize = order.len();
    proof {
        let p = positions(order@);
        assert(sorts(p, keys@));
        assert(p[(n - 1) / 2] == order@[(n - 1) / 2]);
        assert(p[n as int / 2] == order@[n as int / 2]);
    }
    (order[(n - 1) / 2], order[n / 2])
}

/// The positions of the least and the greatest key of a set.
pub fn spread(keys: &[i64]) -> (r: (usize, usize))
    requires
        keys@.len() > 0,
    ensures
        r.0 < keys@.len(),
        r.1 < keys@.len(),
        forall|k: int|
            0 <= k < keys@.len() ==> keys@[r.0 as int] <= #[trigger] keys@[k] <= keys@[r.1 as int],
{
    let mut least: usize = 0;
    let mut greatest: usize = 0;
    let mut i: usize = 1;
    while i < keys.len()
        invariant
            1 <= i <= keys@.len(),
            least < keys@.len(),
            greatest < keys@.len(),
            forall|k: int|
                0 <= k < i ==> keys@[least as int] <= #[trigger] keys@[k]
                    <= keys@[greatest as int],
        decreases keys@.len() - i,
    {
        if keys[i] < keys[least] {
            least = i;
        }
        if keys[i] > keys[greatest] {
            greatest = i;
        }
        i = i + 1;
    }
    (least, greatest)
}

/// A listing of every position once holds every position.
proof fn lemma_order_is_onto(order: Seq<int>, keys: Seq<i64>, p: int)
    requires
        sorts(order, keys),
        0 <= p < keys.len(),
    ensures
        order.contains(p),
{
    let all = vstd::set_lib::set_int_range(0, keys.len() as int);
    vstd::set_lib::lemma_int_range(0, keys.len() as int);
    order.unique_seq_to_set();
    assert(order.to_set().subset_of(all)) by {
        assert forall|x: int| order.to_set().contains(x) implies all.contains(x) by {
            let k = choose|k: int| 0 <= k < order.len() && order[k] == x;
            assert(0 <= order[k] < keys.len());
        }
    }
    vstd::set_lib::lemma_subset_equality(order.to_set(), all);
    assert(order.to_set().contains(p));
}

proof fn lemma_rank_not_below(a: Seq<int>, b: Seq<int>, keys: Seq<i64>, k: int)
    requires
        sorts(a, keys),
        sorts(b, keys),
        0 <= k < keys.len(),
    ensures
        keys[a[k]] >= keys[b[k]],
{
    if keys[a[k]] < keys[b[k]] {
        let low = a.take(k + 1);
        let below = b.take(k);
        assert(low.no_duplicates());
        assert(below.no_duplicates());
        low.unique_seq_to_set();
        below.unique_seq_to_set();
        assert(low.to_set().subset_of(below.to_set())) by {
            assert forall|x: int| low.to_set().contains(x) implies below.to_set().contains(x) by {
                let i = choose|i: int| 0 <= i < low.len() && low[i] == x;
                assert(a[i] == x);
                if i < k {
                    assert(keys[a[i]] <= keys[a[k]]);
                }
                lemma_order_is_onto(b, keys, x);
                let j = choose|j: int| 0 <= j < b.len() && b[j] == x;
                if j >= k {
                    if j > k {
                        assert(keys[b[k]] <= keys[b[j]]);
                    }
                    assert(false);
                }
                assert(below[j] == x);
            }
        }
        vstd::set_lib::lemma_len_subset(low.to_set(), below.to_set());
    }
}

/// However ties are broken, the key at each place of the sorted order is the same:
/// the median does not depend on how equal values are sorted.
pub proof fn law_median_decided(a: Seq<int>, b: Seq<int>, keys: Seq<i64>, k: int)
    requires
        sorts(a, keys),
        sorts(b, keys),
        0 <= k < keys.len(),
    ensures
        keys[a[k]] == keys[b[k]],
{
    lemma_rank_not_below(a, b, keys, k);
    lemma_rank_not_below(b, a, keys, k);
}

/// Whether `other` holds what `keys` holds, position `i` what stood at `from[i]`.
pub open spec fn reorders(from: Seq<int>, keys: Seq<i64>, other: Seq<i64>) -> bool {
    &&& from.len() == keys.len()
    &&& other.len() == keys.len()
    &&& from.no_duplicates()
    &&& forall|i: int| 0 <= i < from.len() ==> 0 <= #[trigger] from[i] < keys.len()
    &&& forall|i: int| 0 <= i < from.len() ==> other[i] == keys[#[trigger] from[i]]
}

/// However the measurements are reordered, the key at each place of the sorted order
/// is the same: the median does not depend on the order they come in.
pub proof fn law_median_ignores_order(
    from: Seq<int>,
    keys: Seq<i64>,
    other: Seq<i64>,
    a: Seq<int>,
    b: Seq<int>,
    k: int,
)
    requires
        reorders(from, keys, other),
        sorts(a, keys),
        sorts(b, other),
        0 <= k < keys.len(),
    ensures
        keys[a[k]] == other[b[k]],
{
    let back = b.map_values(|i: int| from[i]);
    assert forall|i: int| 0 <= i < back.len() implies 0 <= #[trigger] back[i] < keys.len()
        && keys[back[i]] == other[b[i]] by {
        assert(0 <= b[i] < other.len());
        assert(back[i] == from[b[i]]);
    }
    assert forall|i: int, j: int|
        0 <= i < back.len() && 0 <= j < back.len() && i != j implies back[i] != back[j] by {
        assert(0 <= b[i] < other.len() && 0 <= b[j] < other.len());
        assert(b[i] != b[j]);
        assert(back[i] == from[b[i]] && back[j] == from[b[j]]);
    }
    assert forall|i: int, j: int| 0 <= i < j < back.len() implies keys[#[trigger] back[i]]
        <= keys[#[trigger] back[j]] by {
        assert(other[b[i]] <= other[b[j]]);
    }
    law_median_decided(a, back, keys, k);
}

} // verus!
