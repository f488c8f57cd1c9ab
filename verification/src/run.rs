//! The run of one cell, as decisions: what to do next, given what just happened.
//!
//! A cell is measured in cycles. Each forces a fresh sandbox, invokes it once
//! cold, and then invokes the same sandbox warm. A cold invocation must report a
//! cold marker, a warm one must not; a cycle in which that fails leaves no rows.
//! The driver performs the action that a step asks for and hands back what came
//! of it.
use crate::cell::Cell;
use crate::config::Profile;
use crate::platform::{check_platform_ok, invoke_complaint, InvokeResult};
use crate::record::{
    build_row, copy_maybe, maybe_text, row_of, ArtifactSizes, InvocationRow, RowView,
};
use crate::report::{parse_report, report_in, show_number, shown_number, Report, ReportView};
use crate::text::{append_decimal, decimal};
use vstd::prelude::*;
use vstd::string::*;

verus! {

/// Most cold forces of a cycle attempt whose invocation lands warm.
pub const MAX_COLD_FORCE_ATTEMPTS: u32 = 6;

/// Pause after the first cold force that landed warm; later ones grow with the
/// number of the attempt.
pub const COLD_FORCE_RETRY_BACKOFF_BASE_MS: u64 = 1500;

/// Longest pause after a cold force that landed warm.
pub const COLD_FORCE_RETRY_BACKOFF_CAP_MS: u64 = 12_000;

/// Most attempts at a cycle whose warm sandbox is recycled.
pub const MAX_CYCLE_ATTEMPTS: u32 = 4;

/// Pause after a recycled cycle.
pub const CYCLE_RETRY_BACKOFF_MS: u64 = 1000;

/// Most attempts at a cell.
pub const MAX_CELL_ATTEMPTS: u32 = 3;

/// Pause after a failed attempt at a cell.
pub const CELL_RETRY_BACKOFF_MS: u64 = 5000;

/// The pause after the given cold force landed warm.
pub open spec fn force_pause(attempt: int) -> int {
    if 1500 * attempt <= 12_000 {
        1500 * attempt
    } else {
        12_000
    }
}

/// The pause after the given cold force landed warm: it grows with the attempt
/// up to a cap.
pub fn cold_force_backoff_ms(attempt: u32) -> (r: u64)
    ensures
        r == force_pause(attempt as int),
{
    let scaled: u64 = COLD_FORCE_RETRY_BACKOFF_BASE_MS * (attempt as u64);
    if scaled <= COLD_FORCE_RETRY_BACKOFF_CAP_MS {
        scaled
    } else {
        COLD_FORCE_RETRY_BACKOFF_CAP_MS
    }
}

/// How a cycle attempt ended.
pub enum Ending {
    /// Every invocation was as it must be.
    Complete,
    /// The warm invocation of this index landed on a fresh sandbox.
    Recycled(u32),
    /// Something failed, for the given reason.
    Broken(String),
}

/// Where the run of a cell stands.
pub enum Stage {
    /// Ready for a cycle, or for writing the rows where none is left.
    Ready,
    /// A cold force is under way.
    Forcing,
    /// A version is being published.
    Publishing,
    /// The cold invocation is under way.
    ColdInvoke,
    /// A warm invocation is under way.
    WarmInvoke,
    /// The version of an ended cycle attempt is being deleted.
    Deleting(Ending),
    /// Pausing after a cold force that landed warm.
    ForcePause,
    /// Pausing after a recycled cycle.
    CyclePause,
    /// Pausing after a failed attempt at the cell.
    CellPause,
    /// The rows are being written.
    Flushing,
    /// The cell is measured and written.
    Done,
    /// The cell is given up.
    Failed,
}

/// What came of an invocation.
pub enum Invoked {
    /// The call failed.
    Failed(String),
    /// The call came back, but the platform check or the report did not hold.
    Rejected(String),
    /// The call came back with a readable report.
    Seen(InvokeResult, Report),
}

/// What happened since the last step.
pub enum Event {
    /// The run starts, or a pause is over.
    Go,
    /// The cold force ended.
    Forced(Result<(), String>),
    /// The publishing ended, with the version or the reason.
    Published(Result<String, String>),
    /// The invocation ended.
    Invoked(Invoked),
    /// The deletion of the version was attempted.
    Deleted,
    /// The writing ended.
    Flushed(Result<(), String>),
}

/// What to do next.
pub enum Action {
    /// Force a cold start with this nonce.
    ForceCold(String),
    /// Publish a version with this nonce.
    Publish(String),
    /// Invoke the function, at this version where there is one.
    Invoke(Option<String>),
    /// Delete this version.
    Delete(String),
    /// Report the note and wait so many milliseconds.
    Pause(u64, String),
    /// Write all rows.
    Flush,
    /// Nothing: the cell is done.
    Done,
    /// Nothing: the cell failed, for the given reason.
    Failed(String),
}

/// How a cycle attempt ended, in plain values.
pub ghost enum EndingView {
    Complete,
    Recycled(u32),
    Broken(Seq<char>),
}

/// Where a run stands, in plain values.
pub ghost enum StageView {
    Ready,
    Forcing,
    Publishing,
    ColdInvoke,
    WarmInvoke,
    Deleting(EndingView),
    ForcePause,
    CyclePause,
    CellPause,
    Flushing,
    Done,
    Failed,
}

/// What came of an invocation, in plain values.
pub ghost enum InvokedView {
    Failed(Seq<char>),
    Rejected(Seq<char>),
    Seen(InvokeResult, ReportView),
}

/// What happened, in plain values.
pub ghost enum EventView {
    Go,
    Forced(Option<Seq<char>>),
    Published(Result<Seq<char>, Seq<char>>),
    Invoked(InvokedView),
    Deleted,
    Flushed(Option<Seq<char>>),
}

/// What to do next, in plain values.
pub ghost enum ActionView {
    ForceCold(Seq<char>),
    Publish(Seq<char>),
    Invoke(Option<Seq<char>>),
    Delete(Seq<char>),
    Pause(int, Seq<char>),
    Flush,
    Done,
    Failed(Seq<char>),
}

impl Ending {
    pub open spec fn view(self) -> EndingView {
        match self {
            Ending::Complete => EndingView::Complete,
            Ending::Recycled(idx) => EndingView::Recycled(idx),
            Ending::Broken(e) => EndingView::Broken(e@),
        }
    }
}

impl Stage {
    pub open spec fn view(self) -> StageView {
        match self {
            Stage::Ready => StageView::Ready,
            Stage::Forcing => StageView::Forcing,
            Stage::Publishing => StageView::Publishing,
            Stage::ColdInvoke => StageView::ColdInvoke,
            Stage::WarmInvoke => StageView::WarmInvoke,
            Stage::Deleting(e) => StageView::Deleting(e@),
            Stage::ForcePause => StageView::ForcePause,
            Stage::CyclePause => StageView::CyclePause,
            Stage::CellPause => StageView::CellPause,
            Stage::Flushing => StageView::Flushing,
            Stage::Done => StageView::Done,
            Stage::Failed => StageView::Failed,
        }
    }
}

impl Invoked {
    pub open spec fn view(self) -> InvokedView {
        match self {
            Invoked::Failed(e) => InvokedView::Failed(e@),
            Invoked::Rejected(e) => InvokedView::Rejected(e@),
            Invoked::Seen(res, report) => InvokedView::Seen(res, report@),
        }
    }
}

impl Event {
    pub open spec fn view(self) -> EventView {
        match self {
            Event::Go => EventView::Go,
            Event::Forced(Ok(_)) => EventView::Forced(None),
            Event::Forced(Err(e)) => EventView::Forced(Some(e@)),
            Event::Published(Ok(v)) => EventView::Published(Ok(v@)),
            Event::Published(Err(e)) => EventView::Published(Err(e@)),
            Event::Invoked(i) => EventView::Invoked(i@),
            Event::Deleted => EventView::Deleted,
            Event::Flushed(Ok(_)) => EventView::Flushed(None),
            Event::Flushed(Err(e)) => EventView::Flushed(Some(e@)),
        }
    }
}

impl Action {
    pub open spec fn view(self) -> ActionView {
        match self {
            Action::ForceCold(n) => ActionView::ForceCold(n@),
            Action::Publish(n) => ActionView::Publish(n@),
            Action::Invoke(Some(v)) => ActionView::Invoke(Some(v@)),
            Action::Invoke(None) => ActionView::Invoke(None),
            Action::Delete(v) => ActionView::Delete(v@),
            Action::Pause(ms, note) => ActionView::Pause(ms as int, note@),
            Action::Flush => ActionView::Flush,
            Action::Done => ActionView::Done,
            Action::Failed(e) => ActionView::Failed(e@),
        }
    }
}

/// The run of one cell.
pub struct CellRun {
    pub cell: Cell,
    pub run_id: String,
    pub sizes: ArtifactSizes,
    /// Cycles to run.
    pub cold: u32,
    /// Warm invocations of each cycle.
    pub warm: u32,
    /// Rows of the completed cycles.
    pub rows: Vec<InvocationRow>,
    /// The cycle under way, counted from 0.
    pub cycle: u32,
    /// Number of the attempt at the cell.
    pub cell_attempt: u32,
    /// Number of the attempt at the cycle.
    pub cycle_attempt: u32,
    /// Number of the cold force of the cycle attempt.
    pub force_attempt: u32,
    /// Rows of the cycle attempt under way.
    pub pending: Vec<InvocationRow>,
    /// Index of the invocation under way in its cycle.
    pub idx: u32,
    /// The nonce of the cycle attempt.
    pub nonce: String,
    /// The published version in use.
    pub version: Option<String>,
    pub stage: Stage,
}

/// The run of one cell, in plain values.
pub ghost struct RunView {
    pub cell: Cell,
    pub run_id: Seq<char>,
    pub sizes: ArtifactSizes,
    pub cold: u32,
    pub warm: u32,
    pub rows: Seq<RowView>,
    pub cycle: u32,
    pub cell_attempt: u32,
    pub cycle_attempt: u32,
    pub force_attempt: u32,
    pub pending: Seq<RowView>,
    pub idx: u32,
    pub nonce: Seq<char>,
    pub version: Option<Seq<char>>,
    pub stage: StageView,
}

/// Rows in plain values.
pub open spec fn row_views(rows: Seq<InvocationRow>) -> Seq<RowView> {
    rows.map_values(|r: InvocationRow| r@)
}

/// Whether a row may stand as invocation `idx` of cycle `cycle` of this run: the
/// first of a cycle is cold, by a restore where the cell has SnapStart; the
/// others are warm.
pub open spec fn row_fits(s: RunView, row: RowView, cycle: int, idx: int) -> bool {
    &&& row.cycle == cycle
    &&& row.idx_in_cycle == idx
    &&& row.is_cold == (idx == 0)
    &&& row.function_name == s.cell.full_name()
    &&& row.run_id == s.run_id
    &&& row.sizes == s.sizes
    &&& if idx != 0 {
        row.report.init is None && row.report.restore is None
    } else if s.cell.snapstart {
        row.report.restore is Some
    } else {
        row.report.init is Some || row.report.restore is Some
    }
}

impl RunView {
    /// Whether a published version is in use.
    pub open spec fn holds_version(self) -> bool {
        self.cell.snapstart && (self.stage is ColdInvoke || self.stage is WarmInvoke
            || self.stage is Deleting)
    }

    /// Whether the rows of completed cycles stand in their places.
    pub open spec fn rows_fit(self) -> bool {
        let n = 1 + self.warm;
        forall|k: int|
            0 <= k < self.rows.len() ==> row_fits(self, #[trigger] self.rows[k], k / n, k % n)
    }

    /// Whether the rows of the cycle under way stand in their places.
    pub open spec fn pending_fit(self) -> bool {
        forall|k: int|
            0 <= k < self.pending.len() ==> row_fits(
                self,
                #[trigger] self.pending[k],
                self.cycle as int,
                k,
            )
    }

    /// What holds of every state of a run.
    pub open spec fn wf(self) -> bool {
        let n = 1 + self.warm;
        &&& self.cycle <= self.cold
        &&& 1 <= self.cell_attempt <= 3
        &&& 1 <= self.cycle_attempt <= 4
        &&& 1 <= self.force_attempt <= 6
        &&& self.rows.len() == self.cycle * n
        &&& self.rows_fit()
        &&& self.pending_fit()
        &&& self.version is Some <==> self.holds_version()
        &&& match self.stage {
            StageView::Ready => self.pending.len() == 0,
            StageView::WarmInvoke => {
                &&& self.cycle < self.cold
                &&& 1 <= self.idx <= self.warm
                &&& self.pending.len() == self.idx
            },
            StageView::Deleting(EndingView::Complete) => {
                &&& self.cell.snapstart
                &&& self.cycle < self.cold
                &&& self.pending.len() == n
            },
            StageView::Deleting(_) => self.cell.snapstart && self.cycle < self.cold,
            StageView::Forcing | StageView::ForcePause => {
                &&& !self.cell.snapstart
                &&& self.cycle < self.cold
                &&& self.pending.len() == 0
            },
            StageView::Publishing => {
                &&& self.cell.snapstart
                &&& self.cycle < self.cold
                &&& self.pending.len() == 0
            },
            StageView::ColdInvoke | StageView::CyclePause => {
                &&& self.cycle < self.cold
                &&& self.pending.len() == 0
            },
            StageView::CellPause => {
                &&& self.cycle < self.cold
                &&& self.cell_attempt < 3
                &&& self.pending.len() == 0
            },
            StageView::Flushing | StageView::Done => {
                &&& self.cycle == self.cold
                &&& self.pending.len() == 0
            },
            StageView::Failed => self.pending.len() == 0,
        }
    }

    /// Whether an event is one that the stage waits for.
    pub open spec fn expects(self, e: EventView) -> bool {
        match self.stage {
            StageView::Ready
            | StageView::ForcePause
            | StageView::CyclePause
            | StageView::CellPause => e is Go,
            StageView::Forcing => e is Forced,
            StageView::Publishing => e is Published,
            StageView::ColdInvoke | StageView::WarmInvoke => e is Invoked,
            StageView::Deleting(_) => e is Deleted,
            StageView::Flushing => e is Flushed,
            StageView::Done | StageView::Failed => false,
        }
    }
}

/// The start of a cycle attempt, or of the writing where no cycle is left.
pub open spec fn begin(s: RunView, fresh: Seq<char>) -> (RunView, ActionView) {
    if s.cycle >= s.cold {
        (RunView { stage: StageView::Flushing, ..s }, ActionView::Flush)
    } else if s.cell.snapstart {
        (
            RunView { stage: StageView::Publishing, nonce: fresh, ..s },
            ActionView::Publish(fresh),
        )
    } else {
        (
            RunView { stage: StageView::Forcing, nonce: fresh, ..s },
            ActionView::ForceCold(fresh),
        )
    }
}

/// `"cycle 3 of name"`, for a run in its cycle 3.
pub open spec fn cycle_of(s: RunView) -> Seq<char> {
    "cycle "@ + decimal(s.cycle as nat) + " of "@ + s.cell.full_name()
}

/// `"name (cycle 3)"`, for a run in its cycle 3.
pub open spec fn in_cycle(s: RunView) -> Seq<char> {
    s.cell.full_name() + " (cycle "@ + decimal(s.cycle as nat) + ")"@
}

/// A failed attempt at the cell: the rows of the cycle under way are dropped;
/// those of completed cycles stay. Where attempts are left, a pause follows.
pub open spec fn fail(s: RunView, why: Seq<char>) -> (RunView, ActionView) {
    let clean = RunView { pending: Seq::empty(), version: None, ..s };
    let whole = cycle_of(s) + ": "@ + why;
    if s.cell_attempt < 3 {
        (
            RunView { stage: StageView::CellPause, ..clean },
            ActionView::Pause(
                5000,
                "cell retry "@ + decimal(s.cell_attempt as nat) + "/3 for "@ + s.cell.full_name()
                    + " (resuming at cycle "@ + decimal(s.cycle as nat) + "/"@ + decimal(
                    s.cold as nat,
                ) + "): "@ + whole,
            ),
        )
    } else {
        (
            RunView { stage: StageView::Failed, ..clean },
            ActionView::Failed(
                "cell "@ + s.cell.full_name() + " failed after 3 attempts: "@ + whole,
            ),
        )
    }
}

/// A recycled cycle: its rows are dropped and a pause follows.
pub open spec fn recycle(s: RunView, idx: u32) -> (RunView, ActionView) {
    (
        RunView { stage: StageView::CyclePause, pending: Seq::empty(), version: None, ..s },
        ActionView::Pause(
            1000,
            "warm-recycle retry "@ + decimal(s.cycle_attempt as nat) + "/4 for "@ + in_cycle(s)
                + ": warm invoke "@ + decimal(idx as nat)
                + " landed cold (AWS recycled the sandbox), re-running cycle"@,
        ),
    )
}

/// A completed cycle: its rows join the others, and the next cycle starts.
pub open spec fn complete(s: RunView, fresh: Seq<char>) -> (RunView, ActionView) {
    begin(
        RunView {
            rows: s.rows + s.pending,
            pending: Seq::empty(),
            version: None,
            cycle: (s.cycle + 1) as u32,
            cycle_attempt: 1,
            force_attempt: 1,
            ..s
        },
        fresh,
    )
}

/// What follows the end of a cycle attempt, its version gone.
pub open spec fn settle(s: RunView, ending: EndingView, fresh: Seq<char>) -> (RunView, ActionView) {
    match ending {
        EndingView::Complete => complete(s, fresh),
        EndingView::Recycled(idx) => recycle(s, idx),
        EndingView::Broken(why) => fail(s, why),
    }
}

/// The end of a cycle attempt: a version in use is deleted first, whatever the
/// ending.
pub open spec fn conclude(s: RunView, ending: EndingView, fresh: Seq<char>) -> (
    RunView,
    ActionView,
) {
    match s.version {
        Some(v) => (RunView { stage: StageView::Deleting(ending), ..s }, ActionView::Delete(v)),
        None => settle(s, ending, fresh),
    }
}

/// A recorded invocation of the cycle under way, and what follows it.
pub open spec fn recorded(
    s: RunView,
    res: InvokeResult,
    report: ReportView,
    idx: u32,
    now: u128,
    fresh: Seq<char>,
) -> (RunView, ActionView) {
    let row = row_of(
        s.cell,
        s.run_id,
        s.sizes,
        s.cycle,
        idx,
        idx == 0,
        s.nonce,
        res,
        report,
        now,
    );
    let more = RunView { pending: s.pending.push(row), ..s };
    if idx >= s.warm {
        conclude(more, EndingView::Complete, fresh)
    } else {
        (
            RunView { stage: StageView::WarmInvoke, idx: (idx + 1) as u32, ..more },
            ActionView::Invoke(s.version),
        )
    }
}

/// An optional measurement, for a message.
pub open spec fn shown(m: Option<Seq<char>>) -> Seq<char> {
    match m {
        None => "None"@,
        Some(t) => "Some("@ + shown_number(t) + ")"@,
    }
}

/// What follows the cold invocation of a cycle on a published version: it must
/// report a restore.
pub open spec fn after_restore(s: RunView, i: InvokedView, now: u128, fresh: Seq<char>) -> (
    RunView,
    ActionView,
) {
    match i {
        InvokedView::Failed(e) => conclude(
            s,
            EndingView::Broken("cold restore invoke "@ + cycle_of(s) + ": "@ + e),
            fresh,
        ),
        InvokedView::Rejected(e) => conclude(s, EndingView::Broken(e), fresh),
        InvokedView::Seen(res, report) => if report.restore is None {
            conclude(
                s,
                EndingView::Broken(
                    in_cycle(s) + ": first invoke of fresh version "@ + s.version->0
                        + " did not report a Restore Duration (SnapStart did not restore, init_ms="@
                        + shown(report.init) + "); log:\n"@ + res.log_tail@,
                ),
                fresh,
            )
        } else {
            recorded(s, res, report, 0, now, fresh)
        },
    }
}

/// What follows the cold invocation of a cycle after a cold force: one that
/// landed warm is never recorded; it is followed by a pause.
pub open spec fn after_force(s: RunView, i: InvokedView, now: u128, fresh: Seq<char>) -> (
    RunView,
    ActionView,
) {
    match i {
        InvokedView::Failed(e) => fail(s, "cold invoke "@ + cycle_of(s) + ": "@ + e),
        InvokedView::Rejected(e) => fail(s, "cold invoke "@ + cycle_of(s) + ": "@ + e),
        InvokedView::Seen(res, report) => if report.init is None && report.restore is None {
            (
                RunView { stage: StageView::ForcePause, ..s },
                ActionView::Pause(
                    force_pause(s.force_attempt as int),
                    "cold-force retry "@ + decimal(s.force_attempt as nat) + "/6 for "@ + in_cycle(
                        s,
                    ) + ": invoke landed warm (req "@ + report.request_id + "), re-forcing"@,
                ),
            )
        } else {
            recorded(s, res, report, 0, now, fresh)
        },
    }
}

/// What follows a warm invocation: one that landed cold spoils the cycle.
pub open spec fn after_warm(s: RunView, i: InvokedView, now: u128, fresh: Seq<char>) -> (
    RunView,
    ActionView,
) {
    match i {
        InvokedView::Failed(e) => conclude(
            s,
            EndingView::Broken(
                "warm invoke "@ + decimal(s.idx as nat) + " "@ + cycle_of(s) + ": "@ + e,
            ),
            fresh,
        ),
        InvokedView::Rejected(e) => conclude(s, EndingView::Broken(e), fresh),
        InvokedView::Seen(res, report) => if report.init is Some || report.restore is Some {
            conclude(s, EndingView::Recycled(s.idx), fresh)
        } else {
            recorded(s, res, report, s.idx, now, fresh)
        },
    }
}

/// What follows the end of a pause after a cold force that landed warm.
pub open spec fn after_force_pause(s: RunView, fresh: Seq<char>) -> (RunView, ActionView) {
    if s.force_attempt < 6 {
        begin(RunView { force_attempt: (s.force_attempt + 1) as u32, ..s }, fresh)
    } else {
        fail(
            s,
            "cold invoke "@ + cycle_of(s) + ": "@ + in_cycle(s)
                + ": failed to force a cold start in 6 attempts (invoke kept landing warm)"@,
        )
    }
}

/// What follows the end of a pause after a recycled cycle.
pub open spec fn after_cycle_pause(s: RunView, fresh: Seq<char>) -> (RunView, ActionView) {
    if s.cycle_attempt < 4 {
        begin(
            RunView { cycle_attempt: (s.cycle_attempt + 1) as u32, force_attempt: 1, ..s },
            fresh,
        )
    } else {
        fail(
            s,
            in_cycle(s)
                + ": failed to complete a clean cycle in 4 attempts (warm sandbox kept getting recycled mid-cycle)"@,
        )
    }
}

/// What follows the end of a pause after a failed attempt: the cycle that failed
/// starts over.
pub open spec fn after_cell_pause(s: RunView, fresh: Seq<char>) -> (RunView, ActionView) {
    begin(
        RunView {
            cell_attempt: (s.cell_attempt + 1) as u32,
            cycle_attempt: 1,
            force_attempt: 1,
            ..s
        },
        fresh,
    )
}

/// The next state and the next action, given an event the stage waits for. Where
/// the step starts a cycle attempt it takes `fresh` for its nonce; where it
/// records a row it stamps it with `now`.
pub open spec fn next(s: RunView, e: EventView, fresh: Seq<char>, now: u128) -> (
    RunView,
    ActionView,
) {
    match (s.stage, e) {
        (StageView::Ready, EventView::Go) => begin(s, fresh),
        (StageView::ForcePause, EventView::Go) => after_force_pause(s, fresh),
        (StageView::CyclePause, EventView::Go) => after_cycle_pause(s, fresh),
        (StageView::CellPause, EventView::Go) => after_cell_pause(s, fresh),
        (StageView::Forcing, EventView::Forced(None)) => (
            RunView { stage: StageView::ColdInvoke, ..s },
            ActionView::Invoke(None),
        ),
        (StageView::Forcing, EventView::Forced(Some(why))) => fail(
            s,
            "cold invoke "@ + cycle_of(s) + ": forcing cold for "@ + s.cell.full_name() + ": "@
                + why,
        ),
        (StageView::Publishing, EventView::Published(Ok(v))) => (
            RunView { stage: StageView::ColdInvoke, version: Some(v), ..s },
            ActionView::Invoke(Some(v)),
        ),
        (StageView::Publishing, EventView::Published(Err(why))) => fail(
            s,
            "publishing cold version for "@ + in_cycle(s) + ": "@ + why,
        ),
        (StageView::ColdInvoke, EventView::Invoked(i)) => if s.cell.snapstart {
            after_restore(s, i, now, fresh)
        } else {
            after_force(s, i, now, fresh)
        },
        (StageView::WarmInvoke, EventView::Invoked(i)) => after_warm(s, i, now, fresh),
        (StageView::Deleting(ending), EventView::Deleted) => settle(s, ending, fresh),
        (StageView::Flushing, EventView::Flushed(None)) => (
            RunView { stage: StageView::Done, ..s },
            ActionView::Done,
        ),
        (StageView::Flushing, EventView::Flushed(Some(why))) => (
            RunView { stage: StageView::Failed, ..s },
            ActionView::Failed(why),
        ),
        _ => (s, ActionView::Done),
    }
}


/// Whether a view is the state a run starts in.
pub open spec fn starts(
    s: RunView,
    cell: Cell,
    counts: (u32, u32),
    run_id: Seq<char>,
    sizes: ArtifactSizes,
) -> bool {
    &&& s.cell == cell
    &&& (s.cold, s.warm) == counts
    &&& s.run_id == run_id
    &&& s.sizes == sizes
    &&& s.rows.len() == 0
    &&& s.pending.len() == 0
    &&& s.cycle == 0
    &&& s.cell_attempt == 1
    &&& s.cycle_attempt == 1
    &&& s.force_attempt == 1
    &&& s.version is None
    &&& s.stage is Ready
}

/// Completing a cycle keeps the rows in their places, whatever the stage.
proof fn lemma_complete(s: RunView, fresh: Seq<char>)
    requires
        s.cycle < s.cold,
        1 <= s.cell_attempt <= 3,
        s.rows.len() == s.cycle * (1 + s.warm),
        s.pending.len() == 1 + s.warm,
        s.rows_fit(),
        s.pending_fit(),
    ensures
        complete(s, fresh).0.wf(),
{
    let t = complete(s, fresh).0;
    let n = 1 + s.warm as int;
    assert forall|k: int| 0 <= k < t.rows.len() implies row_fits(
        t,
        #[trigger] t.rows[k],
        k / n,
        k % n,
    ) by {
        if k < s.rows.len() {
            assert(t.rows[k] == s.rows[k]);
            assert(row_fits(s, s.rows[k], k / n, k % n));
        } else {
            let j = k - s.rows.len();
            assert(t.rows[k] == s.pending[j]);
            assert(k == s.cycle * n + j);
            vstd::arithmetic::div_mod::lemma_fundamental_div_mod_converse(
                k,
                n,
                s.cycle as int,
                j,
            );
        }
    }
    assert((s.cycle + 1) * n == s.cycle * n + n) by (nonlinear_arith);
}

/// Rows in their places stay there in a state that keeps them.
proof fn lemma_rows_kept(s: RunView, t: RunView)
    requires
        s.rows_fit(),
        t.cell == s.cell,
        t.run_id == s.run_id,
        t.sizes == s.sizes,
        t.warm == s.warm,
        t.rows == s.rows,
    ensures
        t.rows_fit(),
{
    let n = 1 + s.warm as int;
    assert forall|k: int| 0 <= k < t.rows.len() implies row_fits(
        t,
        #[trigger] t.rows[k],
        k / n,
        k % n,
    ) by {
        assert(row_fits(s, s.rows[k], k / n, k % n));
    }
}

/// Recording an invocation that is as it must be keeps the order.
proof fn lemma_recorded(
    s: RunView,
    res: InvokeResult,
    report: ReportView,
    idx: u32,
    now: u128,
    fresh: Seq<char>,
)
    requires
        s.wf(),
        s.stage is ColdInvoke || s.stage is WarmInvoke,
        idx == (if s.stage is ColdInvoke { 0 } else { s.idx }),
        row_fits(
            s,
            row_of(s.cell, s.run_id, s.sizes, s.cycle, idx, idx == 0, s.nonce, res, report, now),
            s.cycle as int,
            idx as int,
        ),
    ensures
        recorded(s, res, report, idx, now, fresh).0.wf(),
{
    let row = row_of(s.cell, s.run_id, s.sizes, s.cycle, idx, idx == 0, s.nonce, res, report, now);
    let more = RunView { pending: s.pending.push(row), ..s };
    lemma_rows_kept(s, more);
    assert forall|k: int| 0 <= k < more.pending.len() implies row_fits(
        more,
        #[trigger] more.pending[k],
        s.cycle as int,
        k,
    ) by {
        if k < s.pending.len() {
            assert(more.pending[k] == s.pending[k]);
            assert(row_fits(s, s.pending[k], s.cycle as int, k));
        }
    }
    let t = recorded(s, res, report, idx, now, fresh).0;
    if idx >= s.warm && s.version is None {
        lemma_complete(more, fresh);
    } else {
        lemma_rows_kept(s, t);
        assert(t.pending == more.pending);
        assert forall|k: int| 0 <= k < t.pending.len() implies row_fits(
            t,
            #[trigger] t.pending[k],
            t.cycle as int,
            k,
        ) by {
            assert(row_fits(more, more.pending[k], s.cycle as int, k));
        }
    }
}

/// Every step leads from a state in order to a state in order: rows of completed
/// cycles, and only those, are kept, each where it belongs.
pub proof fn law_step_keeps_order(s: RunView, e: EventView, fresh: Seq<char>, now: u128)
    requires
        s.wf(),
        s.expects(e),
    ensures
        next(s, e, fresh, now).0.wf(),
{
    let t = next(s, e, fresh, now).0;
    match (s.stage, e) {
        (StageView::Deleting(EndingView::Complete), EventView::Deleted) => {
            lemma_complete(s, fresh);
        },
        (StageView::ColdInvoke, EventView::Invoked(InvokedView::Seen(res, report))) => {
            if report.restore is Some || (!s.cell.snapstart && report.init is Some) {
                lemma_recorded(s, res, report, 0, now, fresh);
            } else {
                lemma_rows_kept(s, t);
            }
        },
        (StageView::WarmInvoke, EventView::Invoked(InvokedView::Seen(res, report))) => {
            if report.init is None && report.restore is None {
                lemma_recorded(s, res, report, s.idx, now, fresh);
            } else {
                lemma_rows_kept(s, t);
                lemma_pending_kept(s, t);
            }
        },
        _ => {
            lemma_rows_kept(s, t);
            lemma_pending_kept(s, t);
        },
    }
}

/// Pending rows stay in their places in a state that keeps or drops them.
proof fn lemma_pending_kept(s: RunView, t: RunView)
    requires
        s.pending_fit(),
        t.cell == s.cell,
        t.run_id == s.run_id,
        t.sizes == s.sizes,
        t.cycle == s.cycle,
        t.pending == s.pending || t.pending.len() == 0,
    ensures
        t.pending_fit(),
{
    assert forall|k: int| 0 <= k < t.pending.len() implies row_fits(
        t,
        #[trigger] t.pending[k],
        t.cycle as int,
        k,
    ) by {
        assert(row_fits(s, s.pending[k], s.cycle as int, k));
    }
}

fn copy_ending(e: &Ending) -> (r: Ending)
    ensures
        r@ == e@,
{
    match e {
        Ending::Complete => Ending::Complete,
        Ending::Recycled(idx) => Ending::Recycled(*idx),
        Ending::Broken(why) => Ending::Broken(why.clone()),
    }
}

impl CellRun {
    /// The run in plain values.
    pub open spec fn view(self) -> RunView {
        RunView {
            cell: self.cell,
            run_id: self.run_id@,
            sizes: self.sizes,
            cold: self.cold,
            warm: self.warm,
            rows: row_views(self.rows@),
            cycle: self.cycle,
            cell_attempt: self.cell_attempt,
            cycle_attempt: self.cycle_attempt,
            force_attempt: self.force_attempt,
            pending: row_views(self.pending@),
            idx: self.idx,
            nonce: self.nonce@,
            version: maybe_text(self.version),
            stage: self.stage@,
        }
    }

    /// A run of a cell with the counts that the profile gives it.
    pub fn new(cell: Cell, profile: Profile, run_id: String, sizes: ArtifactSizes) -> (r: CellRun)
        ensures
            starts(r@, cell, cell.counts(profile), run_id@, sizes),
            r@.wf(),
    {
        let (cold, warm): (u32, u32) = cell.iterations(profile);
        CellRun {
            cell,
            run_id,
            sizes,
            cold,
            warm,
            rows: Vec::new(),
            cycle: 0,
            cell_attempt: 1,
            cycle_attempt: 1,
            force_attempt: 1,
            pending: Vec::new(),
            idx: 0,
            nonce: String::new(),
            version: None,
            stage: Stage::Ready,
        }
    }

    /// Whether an event is one that the run waits for.
    pub fn is_expecting(&self, event: &Event) -> (r: bool)
        ensures
            r == self@.expects(event@),
    {
        match &self.stage {
            Stage::Ready | Stage::ForcePause | Stage::CyclePause | Stage::CellPause => {
                matches!(event, Event::Go)
            },
            Stage::Forcing => matches!(event, Event::Forced(_)),
            Stage::Publishing => matches!(event, Event::Published(_)),
            Stage::ColdInvoke | Stage::WarmInvoke => matches!(event, Event::Invoked(_)),
            Stage::Deleting(_) => matches!(event, Event::Deleted),
            Stage::Flushing => matches!(event, Event::Flushed(_)),
            Stage::Done | Stage::Failed => false,
        }
    }

    fn cycle_text(&self) -> (r: String)
        ensures
            r@ == cycle_of(self@),
    {
        let mut out: String = "cycle ".to_owned();
        append_decimal(&mut out, self.cycle as u128);
        out.append(" of ");
        out.append(self.cell.function_name().as_str());
        out
    }

    fn place_text(&self) -> (r: String)
        ensures
            r@ == in_cycle(self@),
    {
        let mut out: String = self.cell.function_name();
        out.append(" (cycle ");
        append_decimal(&mut out, self.cycle as u128);
        out.append(")");
        out
    }

    fn begin(&mut self, fresh: String) -> (a: Action)
        ensures
            (final(self)@, a@) == begin(old(self)@, fresh@),
    {
        if self.cycle >= self.cold {
            self.stage = Stage::Flushing;
            Action::Flush
        } else if self.cell.snapstart {
            self.stage = Stage::Publishing;
            self.nonce = fresh.clone();
            Action::Publish(fresh)
        } else {
            self.stage = Stage::Forcing;
            self.nonce = fresh.clone();
            Action::ForceCold(fresh)
        }
    }

    fn fail(&mut self, why: &str) -> (a: Action)
        ensures
            (final(self)@, a@) == fail(old(self)@, why@),
    {
        let mut whole: String = self.cycle_text();
        whole.append(": ");
        whole.append(why);
        let name: String = self.cell.function_name();
        self.pending = Vec::new();
        self.version = None;
        proof {
            assert(row_views(self.pending@) =~= Seq::<RowView>::empty());
        }
        if self.cell_attempt < MAX_CELL_ATTEMPTS {
            self.stage = Stage::CellPause;
            let mut note: String = "cell retry ".to_owned();
            append_decimal(&mut note, self.cell_attempt as u128);
            note.append("/3 for ");
            note.append(name.as_str());
            note.append(" (resuming at cycle ");
            append_decimal(&mut note, self.cycle as u128);
            note.append("/");
            append_decimal(&mut note, self.cold as u128);
            note.append("): ");
            note.append(whole.as_str());
            Action::Pause(CELL_RETRY_BACKOFF_MS, note)
        } else {
            self.stage = Stage::Failed;
            let mut out: String = "cell ".to_owned();
            out.append(name.as_str());
            out.append(" failed after 3 attempts: ");
            out.append(whole.as_str());
            Action::Failed(out)
        }
    }

    fn recycle(&mut self, idx: u32) -> (a: Action)
        ensures
            (final(self)@, a@) == recycle(old(self)@, idx),
    {
        let mut note: String = "warm-recycle retry ".to_owned();
        append_decimal(&mut note, self.cycle_attempt as u128);
        note.append("/4 for ");
        note.append(self.place_text().as_str());
        note.append(": warm invoke ");
        append_decimal(&mut note, idx as u128);
        note.append(" landed cold (AWS recycled the sandbox), re-running cycle");
        self.pending = Vec::new();
        self.version = None;
        self.stage = Stage::CyclePause;
        proof {
            assert(row_views(self.pending@) =~= Seq::<RowView>::empty());
        }
        Action::Pause(CYCLE_RETRY_BACKOFF_MS, note)
    }

    fn complete(&mut self, fresh: String) -> (a: Action)
        requires
            old(self).cycle < old(self).cold,
        ensures
            (final(self)@, a@) == complete(old(self)@, fresh@),
    {
        let ghost before = self@;
        let mut done: Vec<InvocationRow> = Vec::new();
        std::mem::swap(&mut done, &mut self.pending);
        self.rows.append(&mut done);
        self.version = None;
        self.cycle = self.cycle + 1;
        self.cycle_attempt = 1;
        self.force_attempt = 1;
        proof {
            assert(row_views(self.rows@) =~= before.rows + before.pending);
            assert(row_views(self.pending@) =~= Seq::<RowView>::empty());
        }
        self.begin(fresh)
    }

    fn settle(&mut self, ending: Ending, fresh: String) -> (a: Action)
        requires
            old(self).cycle < old(self).cold,
        ensures
            (final(self)@, a@) == settle(old(self)@, ending@, fresh@),
    {
        match ending {
            Ending::Complete => self.complete(fresh),
            Ending::Recycled(idx) => self.recycle(idx),
            Ending::Broken(why) => self.fail(why.as_str()),
        }
    }

    fn conclude(&mut self, ending: Ending, fresh: String) -> (a: Action)
        requires
            old(self).cycle < old(self).cold,
        ensures
            (final(self)@, a@) == conclude(old(self)@, ending@, fresh@),
    {
        let version: Option<String> = copy_maybe(&self.version);
        match version {
            Some(v) => {
                self.stage = Stage::Deleting(ending);
                Action::Delete(v)
            },
            None => self.settle(ending, fresh),
        }
    }

    fn recorded(
        &mut self,
        res: &InvokeResult,
        report: &Report,
        idx: u32,
        now: u128,
        fresh: String,
    ) -> (a: Action)
        requires
            old(self).cycle < old(self).cold,
        ensures
            (final(self)@, a@) == recorded(old(self)@, *res, report@, idx, now, fresh@),
    {
        let ghost before = self@;
        let row: InvocationRow = build_row(
            &self.cell,
            self.run_id.as_str(),
            self.sizes,
            self.cycle,
            idx,
            idx == 0,
            self.nonce.as_str(),
            res,
            report,
            now,
        );
        let ghost row_view = row@;
        self.pending.push(row);
        proof {
            assert(row_views(self.pending@) =~= before.pending.push(row_view));
        }
        if idx >= self.warm {
            self.conclude(Ending::Complete, fresh)
        } else {
            self.stage = Stage::WarmInvoke;
            self.idx = idx + 1;
            Action::Invoke(copy_maybe(&self.version))
        }
    }

    fn after_restore(&mut self, i: Invoked, now: u128, fresh: String) -> (a: Action)
        requires
            old(self).cycle < old(self).cold,
            old(self).version is Some,
        ensures
            (final(self)@, a@) == after_restore(old(self)@, i@, now, fresh@),
    {
        match i {
            Invoked::Failed(e) => {
                let mut why: String = "cold restore invoke ".to_owned();
                why.append(self.cycle_text().as_str());
                why.append(": ");
                why.append(e.as_str());
                self.conclude(Ending::Broken(why), fresh)
            },
            Invoked::Rejected(e) => self.conclude(Ending::Broken(e), fresh),
            Invoked::Seen(res, report) => {
                if report.restore_ms.is_none() {
                    let mut why: String = self.place_text();
                    why.append(": first invoke of fresh version ");
                    if let Some(v) = &self.version {
                        why.append(v.as_str());
                    }
                    why.append(
                        " did not report a Restore Duration (SnapStart did not restore, init_ms=",
                    );
                    match &report.init_ms {
                        None => {
                            why.append("None");
                        },
                        Some(m) => {
                            let mut text: String = "Some(".to_owned();
                            text.append(show_number(m.text.as_str()).as_str());
                            text.append(")");
                            why.append(text.as_str());
                        },
                    }
                    why.append("); log:\n");
                    why.append(res.log_tail.as_str());
                    self.conclude(Ending::Broken(why), fresh)
                } else {
                    self.recorded(&res, &report, 0, now, fresh)
                }
            },
        }
    }

    fn cold_failed(&mut self, e: &str) -> (a: Action)
        ensures
            (final(self)@, a@) == fail(
                old(self)@,
                "cold invoke "@ + cycle_of(old(self)@) + ": "@ + e@,
            ),
    {
        let mut why: String = "cold invoke ".to_owned();
        why.append(self.cycle_text().as_str());
        why.append(": ");
        why.append(e);
        self.fail(why.as_str())
    }

    fn after_force(&mut self, i: Invoked, now: u128, fresh: String) -> (a: Action)
        requires
            old(self).cycle < old(self).cold,
        ensures
            (final(self)@, a@) == after_force(old(self)@, i@, now, fresh@),
    {
        match i {
            Invoked::Failed(e) => self.cold_failed(e.as_str()),
            Invoked::Rejected(e) => self.cold_failed(e.as_str()),
            Invoked::Seen(res, report) => {
                if !report.is_cold() {
                    self.stage = Stage::ForcePause;
                    let mut note: String = "cold-force retry ".to_owned();
                    append_decimal(&mut note, self.force_attempt as u128);
                    note.append("/6 for ");
                    note.append(self.place_text().as_str());
                    note.append(": invoke landed warm (req ");
                    note.append(report.request_id.as_str());
                    note.append("), re-forcing");
                    Action::Pause(cold_force_backoff_ms(self.force_attempt), note)
                } else {
                    self.recorded(&res, &report, 0, now, fresh)
                }
            },
        }
    }

    fn after_warm(&mut self, i: Invoked, now: u128, fresh: String) -> (a: Action)
        requires
            old(self).cycle < old(self).cold,
        ensures
            (final(self)@, a@) == after_warm(old(self)@, i@, now, fresh@),
    {
        match i {
            Invoked::Failed(e) => {
                let mut why: String = "warm invoke ".to_owned();
                append_decimal(&mut why, self.idx as u128);
                why.append(" ");
                why.append(self.cycle_text().as_str());
                why.append(": ");
                why.append(e.as_str());
                self.conclude(Ending::Broken(why), fresh)
            },
            Invoked::Rejected(e) => self.conclude(Ending::Broken(e), fresh),
            Invoked::Seen(res, report) => {
                if report.is_cold() {
                    let idx: u32 = self.idx;
                    self.conclude(Ending::Recycled(idx), fresh)
                } else {
                    let idx: u32 = self.idx;
                    self.recorded(&res, &report, idx, now, fresh)
                }
            },
        }
    }

    fn resume(&mut self, fresh: String) -> (a: Action)
        requires
            old(self)@.wf(),
            old(self)@.expects(EventView::Go),
        ensures
            (final(self)@, a@) == next(old(self)@, EventView::Go, fresh@, 0),
    {
        match &self.stage {
            Stage::ForcePause => {
                if self.force_attempt < MAX_COLD_FORCE_ATTEMPTS {
                    self.force_attempt = self.force_attempt + 1;
                    self.begin(fresh)
                } else {
                    let mut why: String = self.place_text();
                    why.append(
                        ": failed to force a cold start in 6 attempts (invoke kept landing warm)",
                    );
                    proof {
                        assert("cold invoke "@ + cycle_of(self@) + ": "@ + why@ =~= "cold invoke "@
                            + cycle_of(self@) + ": "@ + in_cycle(self@)
                            + ": failed to force a cold start in 6 attempts (invoke kept landing warm)"@);
                    }
                    self.cold_failed(why.as_str())
                }
            },
            Stage::CyclePause => {
                if self.cycle_attempt < MAX_CYCLE_ATTEMPTS {
                    self.cycle_attempt = self.cycle_attempt + 1;
                    self.force_attempt = 1;
                    self.begin(fresh)
                } else {
                    let mut why: String = self.place_text();
                    why.append(
                        ": failed to complete a clean cycle in 4 attempts (warm sandbox kept getting recycled mid-cycle)",
                    );
                    self.fail(why.as_str())
                }
            },
            Stage::CellPause => {
                self.cell_attempt = self.cell_attempt + 1;
                self.cycle_attempt = 1;
                self.force_attempt = 1;
                self.begin(fresh)
            },
            _ => self.begin(fresh),
        }
    }

    /// Takes in what happened and says what to do next. Where the step starts a
    /// cycle attempt it takes `fresh` for its nonce; where it records a row it
    /// stamps it with `now`.
    pub fn step(&mut self, event: Event, fresh: String, now: u128) -> (a: Action)
        requires
            old(self)@.wf(),
            old(self)@.expects(event@),
        ensures
            (final(self)@, a@) == next(old(self)@, event@, fresh@, now),
            final(self)@.wf(),
    {
        proof {
            law_step_keeps_order(self@, event@, fresh@, now);
        }
        match event {
            Event::Go => self.resume(fresh),
            Event::Forced(Ok(_)) => {
                self.stage = Stage::ColdInvoke;
                Action::Invoke(None)
            },
            Event::Forced(Err(e)) => {
                let mut why: String = "cold invoke ".to_owned();
                why.append(self.cycle_text().as_str());
                why.append(": forcing cold for ");
                why.append(self.cell.function_name().as_str());
                why.append(": ");
                why.append(e.as_str());
                self.fail(why.as_str())
            },
            Event::Published(Ok(v)) => {
                self.version = Some(v.clone());
                self.stage = Stage::ColdInvoke;
                Action::Invoke(Some(v))
            },
            Event::Published(Err(e)) => {
                let mut why: String = "publishing cold version for ".to_owned();
                why.append(self.place_text().as_str());
                why.append(": ");
                why.append(e.as_str());
                self.fail(why.as_str())
            },
            Event::Invoked(i) => {
                let cold: bool = matches!(self.stage, Stage::ColdInvoke);
                if !cold {
                    self.after_warm(i, now, fresh)
                } else if self.cell.snapstart {
                    self.after_restore(i, now, fresh)
                } else {
                    self.after_force(i, now, fresh)
                }
            },
            Event::Deleted => {
                let ending: Ending = match &self.stage {
                    Stage::Deleting(ending) => copy_ending(ending),
                    _ => Ending::Complete,
                };
                self.settle(ending, fresh)
            },
            Event::Flushed(Ok(_)) => {
                self.stage = Stage::Done;
                Action::Done
            },
            Event::Flushed(Err(e)) => {
                self.stage = Stage::Failed;
                Action::Failed(e)
            },
        }
    }
}

/// What an invocation of a cell's function shows, as far as the platform check
/// and the report decide it.
pub open spec fn judged(
    cell: Cell,
    res: InvokeResult,
    report: Result<ReportView, Seq<char>>,
) -> InvokedView {
    match invoke_complaint(cell.full_name(), cell.scenario.http_fronted(), res) {
        Some(e) => InvokedView::Rejected(e),
        None => match report {
            Err(e) => InvokedView::Rejected(
                "parsing REPORT for "@ + cell.full_name() + ": "@ + e,
            ),
            Ok(v) => InvokedView::Seen(res, v),
        },
    }
}

/// Judges an invocation that came back: the platform check first, then the
/// report in its log tail.
pub fn judge(cell: &Cell, res: InvokeResult) -> (r: Invoked)
    ensures
        r@ == judged(*cell, res, report_in(res.log_tail@)),
{
    match check_platform_ok(cell, &res) {
        Err(e) => Invoked::Rejected(e),
        Ok(_) => match parse_report(res.log_tail.as_str()) {
            Err(e) => {
                let mut why: String = "parsing REPORT for ".to_owned();
                why.append(cell.function_name().as_str());
                why.append(": ");
                why.append(e.as_str());
                Invoked::Rejected(why)
            },
            Ok(report) => Invoked::Seen(res, report),
        },
    }
}

} // verus!
