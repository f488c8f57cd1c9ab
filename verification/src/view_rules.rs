//! What the plain values are: each stands for the field or variant of its name.
use crate::codec::maybe_bytes;
use crate::json::{looked_up, maybe_json, Json, JsonView};
use crate::lambda::{reason_text, var_texts};
use crate::platform::InvokeResult;
use crate::record::{maybe_millis, maybe_text, InvocationRow};
use crate::report::{
    all_group_texts, group_texts, maybe_group_texts, report_in, report_line, Millis, Report,
};
use crate::run::{
    row_views, Action, ActionView, CellRun, Ending, EndingView, Event, EventView, Invoked,
    InvokedView, Stage, StageView,
};
use crate::run_rules::ends_with;
use crate::sample::{
    measured_views, positions, warm_views, Measured, TimedInvoked, TimedView, UnitAction,
    UnitActionView, UnitEvent, UnitEventView, UnitRun, WarmSeen,
};
use crate::scenario::{
    claim_views, field_views, group_keys, maybe_mapped, maybe_texts, record_keys, Group, Mapped,
    MappedView, Record,
};
use crate::text::{same_members, texts};
use vstd::prelude::*;
use vstd::string::*;

verus! {

/// A report shows its own fields.
pub proof fn law_a_report_shows_its_fields(r: Report)
    ensures
        r@.request_id == r.request_id@,
        r@.duration == r.duration_ms.text@,
        r@.billed == r.billed_ms.text@,
        r@.memory_size_mb == r.memory_size_mb,
        r@.max_memory_used_mb == r.max_memory_used_mb,
        r@.init is Some <==> r.init_ms is Some,
        r.init_ms is Some ==> r@.init->0 == r.init_ms->0.text@,
        r@.restore is Some <==> r.restore_ms is Some,
        r.restore_ms is Some ==> r@.restore->0 == r.restore_ms->0.text@,
        r.cold() <==> r.init_ms is Some || r.restore_ms is Some,
{
}

/// A row shows its own fields.
pub proof fn law_a_row_shows_its_fields(r: InvocationRow)
    ensures
        r@.run_id == r.run_id@,
        r@.ts_unix_ms == r.ts_unix_ms,
        r@.lang == r.lang@,
        r@.scenario == r.scenario@,
        r@.memory_mb == r.memory_mb,
        r@.arch == r.arch@,
        r@.opt == maybe_text(r.opt),
        r@.snapstart == r.snapstart,
        r@.jitter == maybe_text(r.jitter),
        r@.runtime_id == r.runtime_id@,
        r@.function_name == r.function_name@,
        r@.sizes.zip == r.artifact_zip_bytes,
        r@.sizes.unzipped == r.artifact_unzipped_bytes,
        r@.cycle == r.cycle,
        r@.idx_in_cycle == r.idx_in_cycle,
        r@.is_cold == r.is_cold,
        r@.cold_nonce == r.cold_nonce@,
        r@.invoke_status == r.invoke_status,
        r@.function_error == maybe_text(r.function_error),
        r@.report.request_id == r.request_id@,
        r@.report.duration == r.duration_ms.text@,
        r@.report.billed == r.billed_ms.text@,
        r@.report.memory_size_mb == r.memory_size_mb,
        r@.report.max_memory_used_mb == r.max_memory_used_mb,
        r@.report.init == maybe_millis(r.init_ms),
        r@.report.restore == maybe_millis(r.restore_ms),
{
}

/// An option shows what it holds, where it holds something.
pub proof fn law_options_show_what_they_hold(
    s: String,
    m: Millis,
    j: Json,
    b: Vec<u8>,
    v: Vec<String>,
    x: Mapped,
)
    ensures
        maybe_text(Some(s)) == Some(s@),
        maybe_text(None) is None,
        maybe_millis(Some(m)) == Some(m.text@),
        maybe_millis(None) is None,
        maybe_json(Some(j)) == Some(j@),
        maybe_json(None) is None,
        looked_up(None) is None,
        looked_up(Some(None)) == Some(None::<JsonView>),
        looked_up(Some(Some(j))) == Some(Some(j@)),
        maybe_bytes(Some(b)) == Some(b@),
        maybe_bytes(None) is None,
        maybe_texts(Some(v)) == Some(texts(v@)),
        maybe_texts(None) is None,
        maybe_mapped(Some(x)) == Some(x@),
        maybe_mapped(None) is None,
        reason_text(Some(s)) == s@,
        reason_text(None) == "unknown"@,
{
}

/// A list shows its items one for one, in their order.
pub proof fn law_lists_show_their_items(
    v: Seq<String>,
    vars: Seq<(String, String)>,
    claims: Seq<(String, Mapped)>,
    rows: Seq<InvocationRow>,
    warm: Seq<WarmSeen>,
    samples: Seq<Measured>,
    places: Seq<usize>,
    records: Seq<Record>,
    groups: Seq<Group>,
    i: int,
)
    requires
        0 <= i,
    ensures
        texts(v).len() == v.len(),
        i < v.len() ==> texts(v)[i] == v[i]@,
        var_texts(vars).len() == vars.len(),
        i < vars.len() ==> var_texts(vars)[i].0 == vars[i].0@ && var_texts(vars)[i].1 == vars[i].1@,
        claim_views(claims).len() == claims.len(),
        i < claims.len() ==> claim_views(claims)[i].0 == claims[i].0@ && claim_views(claims)[i].1
            == claims[i].1@,
        row_views(rows).len() == rows.len(),
        i < rows.len() ==> row_views(rows)[i] == rows[i]@,
        warm_views(warm).len() == warm.len(),
        i < warm.len() ==> warm_views(warm)[i].wall_ns == warm[i].wall_ns && warm_views(
            warm,
        )[i].duration == warm[i].duration.text@,
        measured_views(samples).len() == samples.len(),
        i < samples.len() ==> measured_views(samples)[i] == samples[i]@,
        positions(places).len() == places.len(),
        i < places.len() ==> positions(places)[i] == places[i],
        record_keys(records).len() == records.len(),
        i < records.len() ==> record_keys(records)[i] == records[i].key@,
        group_keys(groups).len() == groups.len(),
        i < groups.len() ==> group_keys(groups)[i] == groups[i].key@,
{
}

/// A list of options shows what each holds, in its place.
pub proof fn law_lists_of_options_show_their_items(
    g: Seq<Option<String>>,
    v: Seq<Vec<Option<String>>>,
    fields: Seq<Option<Json>>,
    i: int,
)
    requires
        0 <= i,
    ensures
        group_texts(g).len() == g.len(),
        i < g.len() ==> group_texts(g)[i] == maybe_text(g[i]),
        all_group_texts(v).len() == v.len(),
        i < v.len() ==> all_group_texts(v)[i] == group_texts(v[i]@),
        i < v.len() ==> maybe_group_texts(Some(v[i])) == Some(group_texts(v[i]@)),
        maybe_group_texts(None) is None,
        field_views(fields).len() == fields.len(),
        i < fields.len() ==> field_views(fields)[i] == maybe_json(fields[i]),
{
}

/// A sample shows its own fields.
pub proof fn law_a_sample_shows_its_fields(m: Measured, u: UnitRun)
    ensures
        m@.wall_ns == m.wall_ns,
        m@.init == m.init.text@,
        m@.cold_duration == m.cold_duration.text@,
        m@.warm == warm_views(m.warm@),
        u@.name == u.name@,
        u@.cold_samples == u.cold_samples,
        u@.warm_per_sample == u.warm_per_sample,
        u@.unit_attempt == u.unit_attempt,
        u@.force_attempt == u.force_attempt,
        u@.samples == measured_views(u.samples@),
        u@.current is Some <==> u.current is Some,
        u.current is Some ==> u@.current->0 == u.current->0@,
        u@.last_error == u.last_error@,
        u@.stage == u.stage,
{
}

/// What happens to a unit, and what it does next, show as what they are.
pub proof fn law_units_show_events_and_actions(e: String, ns: u64, r: Report, ms: u64)
    ensures
        TimedInvoked::Failed(e)@ == TimedView::Failed(e@),
        TimedInvoked::Rejected(e)@ == TimedView::Rejected(e@),
        TimedInvoked::Seen(ns, r)@ == TimedView::Seen(ns, r@),
        UnitEvent::Go@ == UnitEventView::Go,
        UnitEvent::Forced(Ok(()))@ == UnitEventView::Forced(None),
        UnitEvent::Forced(Err(e))@ == UnitEventView::Forced(Some(e@)),
        UnitEvent::Prewarmed(Ok(()))@ == UnitEventView::Prewarmed(None),
        UnitEvent::Prewarmed(Err(e))@ == UnitEventView::Prewarmed(Some(e@)),
        UnitEvent::Invoked(TimedInvoked::Seen(ns, r))@ == UnitEventView::Invoked(
            TimedView::Seen(ns, r@),
        ),
        UnitAction::ForceCold@ == UnitActionView::ForceCold,
        UnitAction::Prewarm@ == UnitActionView::Prewarm,
        UnitAction::Invoke@ == UnitActionView::Invoke,
        UnitAction::Pause(ms, e)@ == UnitActionView::Pause(ms as int, e@),
        UnitAction::Done@ == UnitActionView::Done,
        UnitAction::Failed(e)@ == UnitActionView::Failed(e@),
{
}

/// A run shows its own fields.
pub proof fn law_a_run_shows_its_fields(c: CellRun)
    ensures
        c@.cell == c.cell,
        c@.run_id == c.run_id@,
        c@.sizes == c.sizes,
        c@.cold == c.cold,
        c@.warm == c.warm,
        c@.rows == row_views(c.rows@),
        c@.cycle == c.cycle,
        c@.cell_attempt == c.cell_attempt,
        c@.cycle_attempt == c.cycle_attempt,
        c@.force_attempt == c.force_attempt,
        c@.pending == row_views(c.pending@),
        c@.idx == c.idx,
        c@.nonce == c.nonce@,
        c@.version == maybe_text(c.version),
        c@.stage == c.stage@,
{
}

/// What happens to a run, where it stands and what it does next show as what they are.
pub proof fn law_runs_show_events_and_actions(
    e: String,
    idx: u32,
    res: InvokeResult,
    r: Report,
    ms: u64,
)
    ensures
        Ending::Complete@ == EndingView::Complete,
        Ending::Recycled(idx)@ == EndingView::Recycled(idx),
        Ending::Broken(e)@ == EndingView::Broken(e@),
        Stage::Ready@ == StageView::Ready,
        Stage::Forcing@ == StageView::Forcing,
        Stage::Publishing@ == StageView::Publishing,
        Stage::ColdInvoke@ == StageView::ColdInvoke,
        Stage::WarmInvoke@ == StageView::WarmInvoke,
        Stage::Deleting(Ending::Broken(e))@ == StageView::Deleting(EndingView::Broken(e@)),
        Stage::ForcePause@ == StageView::ForcePause,
        Stage::CyclePause@ == StageView::CyclePause,
        Stage::CellPause@ == StageView::CellPause,
        Stage::Flushing@ == StageView::Flushing,
        Stage::Done@ == StageView::Done,
        Stage::Failed@ == StageView::Failed,
        Invoked::Failed(e)@ == InvokedView::Failed(e@),
        Invoked::Rejected(e)@ == InvokedView::Rejected(e@),
        Invoked::Seen(res, r)@ == InvokedView::Seen(res, r@),
        Event::Go@ == EventView::Go,
        Event::Forced(Ok(()))@ == EventView::Forced(None),
        Event::Forced(Err(e))@ == EventView::Forced(Some(e@)),
        Event::Published(Ok(e))@ == EventView::Published(Ok(e@)),
        Event::Published(Err(e))@ == EventView::Published(Err(e@)),
        Event::Invoked(Invoked::Seen(res, r))@ == EventView::Invoked(InvokedView::Seen(res, r@)),
        Event::Deleted@ == EventView::Deleted,
        Event::Flushed(Ok(()))@ == EventView::Flushed(None),
        Event::Flushed(Err(e))@ == EventView::Flushed(Some(e@)),
        Action::ForceCold(e)@ == ActionView::ForceCold(e@),
        Action::Publish(e)@ == ActionView::Publish(e@),
        Action::Invoke(Some(e))@ == ActionView::Invoke(Some(e@)),
        Action::Invoke(None)@ == ActionView::Invoke(None),
        Action::Delete(e)@ == ActionView::Delete(e@),
        Action::Pause(ms, e)@ == ActionView::Pause(ms as int, e@),
        Action::Flush@ == ActionView::Flush,
        Action::Done@ == ActionView::Done,
        Action::Failed(e)@ == ActionView::Failed(e@),
{
}

/// A JSON value and a mapped claim show as what they are.
pub proof fn law_values_show_what_they_are(
    b: bool,
    t: String,
    items: Vec<Option<String>>,
    v: Vec<String>,
)
    ensures
        Json::Null@ == JsonView::Null,
        Json::Bool(b)@ == JsonView::Bool(b),
        Json::Number(t)@ == JsonView::Number(t@),
        Json::Text(t)@ == JsonView::Text(t@),
        Json::Array(items, t)@ == JsonView::Array(group_texts(items@), t@),
        Json::Object(t)@ == JsonView::Object(t@),
        Mapped::Text(t)@ == MappedView::Text(t@),
        Mapped::Bool(b)@ == MappedView::Bool(b),
        Mapped::StringSet(v)@ == MappedView::StringSet(texts(v@)),
{
}

/// A log tail without a report line is refused, and told to its last character.
pub proof fn law_no_report_without_its_line(log_tail: Seq<char>)
    requires
        report_line(log_tail) is None,
    ensures
        report_in(log_tail) is Err,
        ends_with(report_in(log_tail)->Err_0, log_tail),
{
    let m = report_in(log_tail)->Err_0;
    assert(m.skip(m.len() - log_tail.len()) =~= log_tail);
}

/// Two lists with the same members hold the same texts.
pub proof fn law_same_members(a: Seq<Seq<char>>, b: Seq<Seq<char>>, t: Seq<char>)
    requires
        same_members(a, b),
    ensures
        (exists|i: int| 0 <= i < a.len() && #[trigger] a[i] == t) <==> (exists|j: int|
            0 <= j < b.len() && #[trigger] b[j] == t),
{
    assert(a.contains(t) <==> b.contains(t));
}

} // verus!
