//! What the single decisions are for: what each returns, whatever it is given.
use crate::archive::{zip_member, zip_mode};
use crate::artifact::{
    rust_build, single_zip, tool_version, wheel_platforms, zip_name, RustBuild,
};
use crate::build_rules::law_padding_fills_the_size;
use crate::cell::{ArtifactKey, Cell};
use crate::codec::{base64_bytes, lossy_text};
use crate::config::{Arch, Jitter, Opt, Profile, Scenario};
use crate::deploy::{first_failure, settle_key};
use crate::lambda::{
    code_source, distinct_vars, environment, image_environment, law_nonce_keeps_the_rest,
    leaves_function, published_version, read_reply, ready_expired, ready_poll, reason_text,
    reply_with_tail, retry_creation, var, var_texts, version_expired, version_poll,
    with_cold_nonce, CodeSource, CreateFailure, FunctionSeen, FunctionState, Poll, RawReply,
    UpdateStatus, VersionSeen,
};
use crate::plan::{
    check_none_missing, is_confirmed, meta_file_name, plan_run, rows_file_name, RunMeta,
    RunParams, RunPlan, RunStatus,
};
use crate::platform::{check_platform_ok, InvokeResult};
use crate::provision::{
    alias_key, batch_version, bucket_is_there, image_size, is_our_alias, lettercount_version,
    needs_location, password_in, role_step, seed_is_current, table_step, table_wait_over,
    wanted_boundary, AliasEntry, RoleStep, TableSeen, TableStep, TableWait,
};
use crate::rate_limiter::RateLimiter;
use crate::record::{build_row, maybe_text, ArtifactSizes, InvocationRow};
use crate::report::{digits_value, is_number, parse_report, Report};
use crate::report_rules::{
    all_digits, hex_and_hyphens, law_report_says_what_was_printed, measured, printed_line, Extra,
};
use crate::run::{cold_force_backoff_ms, judge, CellRun, Invoked};
use crate::sample::{median, order_key, sorts, spread};
use crate::scenario::{
    count_of_groups, law_groups_add_up, order_signature, process_records, receipt_text,
    sum_of_all, sum_of_groups, BatchTotals, Record,
};
use crate::select::RunArgs;
use crate::synthetic::{
    base_image_estimate, bootstrap_label, build_padded_zip, image_family, image_platform, image_tag,
    is_zip_baseline, SynthRuntime,
};
use crate::targets::{check_targets_deployed, probe_out_path};
use crate::teardown::{
    law_complete_means_everything_deleted, law_nothing_goes_untold, summarize, teardown_verdict,
    DeleteSummary,
};
use crate::text::{decimal, first_of, has_text, texts, trimmed};
use crate::text_lemmas::lemma_holds_middle;
use crate::text_rules::law_first_occurrence;
use crate::wiring_rules::law_every_scenario_gets_what_it_reads;
use vstd::prelude::*;
use vstd::string::*;

verus! {

/// What a log tail ends with, printed as the platform prints it, is what is read: each
/// number under its own name, whatever was logged before and whatever markers follow.
pub proof fn law_reports_are_read_as_printed(
    log_tail: &str,
    r: Result<Report, String>,
    earlier: Seq<char>,
    rid: Seq<char>,
    d: Seq<char>,
    b: Seq<char>,
    s: Seq<char>,
    m: Seq<char>,
    extras: Seq<Extra>,
    init: int,
    restore: int,
)
    requires
        call_ensures(parse_report, (log_tail,), r),
        log_tail@ == earlier.push('\n') + printed_line(rid, d, b, s, m, extras),
        hex_and_hyphens(rid),
        measured(d) && is_number(d),
        measured(b) && is_number(b),
        all_digits(s) && digits_value(s) <= i64::MAX,
        all_digits(m) && digits_value(m) <= i64::MAX,
        forall|i: int| 0 <= i < extras.len() ==> (#[trigger] extras[i]).plain(),
        0 <= init <= extras.len(),
        forall|i: int| 0 <= i < init ==> !(#[trigger] extras[i] is Init),
        init < extras.len() ==> extras[init] is Init && is_number(extras[init]->Init_0),
        0 <= restore <= extras.len(),
        forall|i: int| 0 <= i < restore ==> !(#[trigger] extras[i] is Restore),
        restore < extras.len() ==> extras[restore] is Restore && is_number(
            extras[restore]->Restore_0,
        ),
    ensures
        r is Ok,
        r->Ok_0.request_id@ == rid,
        r->Ok_0.duration_ms.text@ == d,
        r->Ok_0.billed_ms.text@ == b,
        r->Ok_0.memory_size_mb == digits_value(s),
        r->Ok_0.max_memory_used_mb == digits_value(m),
        r->Ok_0.init_ms is Some <==> init < extras.len(),
        init < extras.len() ==> r->Ok_0.init_ms->0.text@ == extras[init]->Init_0,
        r->Ok_0.restore_ms is Some <==> restore < extras.len(),
        restore < extras.len() ==> r->Ok_0.restore_ms->0.text@ == extras[restore]->Restore_0,
{
    law_report_says_what_was_printed(earlier, rid, d, b, s, m, extras, init, restore);
    let report = r->Ok_0;
    assert(report@.duration == d);
    assert(report@.init == (if init < extras.len() {
        Some(extras[init]->Init_0)
    } else {
        None
    }));
    assert(report@.restore == (if restore < extras.len() {
        Some(extras[restore]->Restore_0)
    } else {
        None
    }));
}

/// The cells of a plan: each has a memory size that was asked for, where any was; and
/// no filter is heeded more or less because another is given.
pub proof fn law_planned_cells_have_the_asked_memory(
    args: &RunArgs,
    r: Result<RunPlan, String>,
    i: int,
)
    requires
        call_ensures(plan_run, (args,), r),
        r is Ok,
        0 <= i < r->Ok_0.cells@.len(),
    ensures
        args.memory@.len() > 0 ==> args.memory@.contains(r->Ok_0.cells@[i].memory_mb),
        args.arch is Some && trimmed(args.arch->0@) == "arm64"@ ==> r->Ok_0.cells@[i].arch
            == Arch::Arm64,
        args.arch is Some && trimmed(args.arch->0@) == "x86_64"@ ==> r->Ok_0.cells@[i].arch
            == Arch::X86_64,
{
    reveal_strlit("arm64");
    reveal_strlit("x86_64");
    let c = r->Ok_0.cells@[i];
    assert("arm64"@.len() != "x86_64"@.len());
}

/// The row of an invocation holds what was reported of it, each number in its own
/// column.
pub proof fn law_rows_hold_what_was_reported(
    cell: &Cell,
    run_id: &str,
    sizes: ArtifactSizes,
    cycle: u32,
    idx_in_cycle: u32,
    is_cold: bool,
    nonce: &str,
    res: &InvokeResult,
    report: &Report,
    ts_unix_ms: u128,
    r: InvocationRow,
)
    requires
        call_ensures(
            build_row,
            (cell, run_id, sizes, cycle, idx_in_cycle, is_cold, nonce, res, report, ts_unix_ms),
            r,
        ),
    ensures
        r.duration_ms.text@ == report.duration_ms.text@,
        r.billed_ms.text@ == report.billed_ms.text@,
        r.request_id@ == report.request_id@,
        r.memory_size_mb == report.memory_size_mb,
        r.max_memory_used_mb == report.max_memory_used_mb,
        r.init_ms is Some <==> report.init_ms is Some,
        r.init_ms is Some ==> r.init_ms->0.text@ == report.init_ms->0.text@,
        r.restore_ms is Some <==> report.restore_ms is Some,
        r.restore_ms is Some ==> r.restore_ms->0.text@ == report.restore_ms->0.text@,
        r@.report == report@,
        r.memory_mb == cell.memory_mb,
        r.cycle == cycle && r.idx_in_cycle == idx_in_cycle && r.is_cold == is_cold,
        r.cold_nonce@ == nonce@ && r.run_id@ == run_id@ && r.ts_unix_ms == ts_unix_ms,
        r.artifact_zip_bytes == sizes.zip && r.artifact_unzipped_bytes == sizes.unzipped,
        r.invoke_status == res.status_code,
{
}

/// The environment of a function has the table and its key exactly where the scenario
/// reads the table, and the account's bucket exactly where it uses the bucket.
pub proof fn law_environments_fit_their_scenarios(
    cell: &Cell,
    account_id: &str,
    kms_key_id: &Option<String>,
    r: Result<Vec<(String, String)>, String>,
)
    requires
        call_ensures(environment, (cell, account_id, kms_key_id), r),
    ensures
        r is Err <==> kms_key_id is None && (cell.scenario == Scenario::ThreeClient || cell.scenario
            == Scenario::SmithyFull),
        r is Ok ==> {
            let vars = var_texts(r->Ok_0@);
            &&& var(vars, "LAMBDABENCH_TABLE"@) is Some <==> cell.scenario == Scenario::OneClient
                || cell.scenario == Scenario::ThreeClient || cell.scenario == Scenario::SmithyFull
            &&& var(vars, "LAMBDABENCH_KEY"@) is Some <==> cell.scenario == Scenario::OneClient
                || cell.scenario == Scenario::ThreeClient || cell.scenario == Scenario::SmithyFull
            &&& var(vars, "LAMBDABENCH_BUCKET"@) is Some <==> cell.scenario == Scenario::ThreeClient
                || cell.scenario == Scenario::SmithyFull || cell.scenario == Scenario::LetterCount
                || cell.scenario == Scenario::Batch
        },
{
    law_every_scenario_gets_what_it_reads(*cell, account_id@, maybe_text(*kms_key_id));
}

/// A new nonce takes the place of the old one and of nothing else.
pub proof fn law_forcing_changes_the_nonce_alone(
    vars: &Vec<(String, String)>,
    nonce: &str,
    r: Vec<(String, String)>,
    key: Seq<char>,
)
    requires
        call_ensures(with_cold_nonce, (vars, nonce), r),
        distinct_vars(var_texts(vars@)),
    ensures
        var(var_texts(r@), "COLD_NONCE"@) == Some(nonce@),
        key != "COLD_NONCE"@ ==> var(var_texts(r@), key) == var(var_texts(vars@), key),
{
    law_nonce_keeps_the_rest(var_texts(vars@), nonce@, key);
}

/// Code goes with the request while it is smaller than 45 MB, and is staged under the
/// function's own key from there on.
pub proof fn law_where_code_goes(name: &str, zip_len: usize, r: CodeSource)
    requires
        call_ensures(code_source, (name, zip_len), r),
    ensures
        r is Staged <==> zip_len >= 47_185_920,
        r is Staged ==> r->Staged_0@ == "lambda-code/"@ + name@ + ".zip"@,
{
}

/// A poll ends the wait in failure exactly where the update failed; in success where
/// the function is active, its update is settled, and an update shows another revision
/// than before; else it goes on.
pub proof fn law_polls_of_functions(
    name: &str,
    prev: &Option<String>,
    seen: &FunctionSeen,
    r: Poll,
)
    requires
        call_ensures(ready_poll, (name, prev, seen), r),
    ensures
        r is Failed <==> seen.update == UpdateStatus::Failed,
        r is Failed ==> has_text(r->Failed_0@, name@),
        r is Ready <==> {
            &&& seen.state == FunctionState::Active
            &&& seen.update == UpdateStatus::Successful || (*prev is None && seen.update
                == UpdateStatus::Missing)
            &&& *prev is Some && seen.revision is Some ==> prev->0@ != seen.revision->0@
        },
{
    if r is Failed {
        let tail = " update failed: "@ + reason_text(seen.update_reason);
        lemma_holds_middle("function "@, name@, tail);
        assert(r->Failed_0@ =~= "function "@ + name@ + tail);
    }
}

/// A version is ready when it is active with its snapshot, fails when it failed or is
/// active without one, and is polled again otherwise.
pub proof fn law_polls_of_versions(name: &str, version: &str, seen: &VersionSeen, r: Poll)
    requires
        call_ensures(version_poll, (name, version, seen), r),
    ensures
        r is Ready <==> seen.state == FunctionState::Active && seen.snapshot_on,
        r is Failed <==> seen.state == FunctionState::Failed || (seen.state == FunctionState::Active
            && !seen.snapshot_on),
        r is Again <==> seen.state == FunctionState::Other,
{
}

/// A wait for a function or a version ends after 600 polls.
pub proof fn law_waits_end(name: &str, version: &str, polls: u32, a: Option<String>, b: Option<String>)
    requires
        call_ensures(ready_expired, (name, polls), a),
        call_ensures(version_expired, (name, version, polls), b),
    ensures
        a is Some <==> polls >= 600,
        b is Some <==> polls >= 600,
{
}

/// A published version is the one told, unless none is or it is the unpublished alias.
pub proof fn law_published_versions(name: &str, version: &Option<String>, r: Result<String, String>)
    requires
        call_ensures(published_version, (name, version), r),
    ensures
        r is Ok <==> *version is Some && version->0@ != "$LATEST"@,
        r is Ok ==> r->Ok_0@ == version->0@,
{
}

/// A creation is tried again only while its role cannot be assumed yet, thirty times at
/// most; a function is left behind only by a creation that was waited for.
pub proof fn law_when_creations_are_retried(
    invalid: bool,
    message: &Option<String>,
    attempt: u32,
    r: bool,
    failure: CreateFailure,
    left: bool,
)
    requires
        call_ensures(retry_creation, (invalid, message, attempt), r),
        call_ensures(leaves_function, (failure,), left),
    ensures
        r ==> invalid && *message is Some && has_text(message->0@, "cannot be assumed by Lambda"@)
            && attempt < 30,
        invalid && *message is Some && has_text(message->0@, "cannot be assumed by Lambda"@)
            && attempt < 30 ==> r,
        left <==> failure == CreateFailure::Waiting,
{
}

/// An image function reads its padding exactly where it is told to.
pub proof fn law_touching_images(touch: bool, r: Option<(&'static str, &'static str)>)
    requires
        call_ensures(image_environment, (touch,), r),
    ensures
        r is Some <==> touch,
        r is Some ==> r->Some_0.0@ == "LAMBDABENCH_TOUCH"@ && r->Some_0.1@ == "1"@,
{
}

/// A reply is made readable without changing its status or its error, and only where
/// it has a log tail that could be decoded.
pub proof fn law_replies_are_kept_as_they_are(
    name: &str,
    reply: &RawReply,
    tail: Option<Vec<u8>>,
    r: Result<InvokeResult, String>,
    whole: Result<InvokeResult, String>,
)
    requires
        call_ensures(reply_with_tail, (reply, tail), r),
        call_ensures(read_reply, (name, reply), whole),
    ensures
        r is Ok <==> tail is Some,
        r is Ok ==> r->Ok_0.status_code == reply.status_code && maybe_text(r->Ok_0.function_error)
            == maybe_text(reply.function_error) && (r->Ok_0.payload is Some
            <==> reply.payload is Some),
        r is Ok ==> r->Ok_0.log_tail@ == lossy_text(tail->0@),
        r is Ok && reply.payload is Some ==> r->Ok_0.payload->0@ == lossy_text(reply.payload->0@),
        whole is Ok <==> reply.log_result is Some && base64_bytes(reply.log_result->0@) is Some,
        whole is Ok ==> whole->Ok_0.log_tail@ == lossy_text(base64_bytes(reply.log_result->0@)->0),
        whole is Ok && reply.payload is Some ==> whole->Ok_0.payload->0@ == lossy_text(
            reply.payload->0@,
        ),
        whole is Ok ==> whole->Ok_0.status_code == reply.status_code && maybe_text(
            whole->Ok_0.function_error,
        ) == maybe_text(reply.function_error) && (whole->Ok_0.payload is Some
            <==> reply.payload is Some),
{
}

/// A role is created where it is missing, bounded as asked; one that is there is
/// touched only to bring it under the boundary that is asked for.
pub proof fn law_what_becomes_of_the_role(
    existing: &Option<Option<String>>,
    boundary: &Option<String>,
    r: RoleStep,
    value: &Option<String>,
    wanted: Option<String>,
)
    requires
        call_ensures(role_step, (existing, boundary), r),
        call_ensures(wanted_boundary, (value,), wanted),
    ensures
        r is Create <==> *existing is None,
        r is Create ==> maybe_text(r->Create_0) == maybe_text(*boundary),
        r is SetBoundary <==> *existing is Some && *boundary is Some && maybe_text(existing->0)
            != maybe_text(*boundary),
        r is SetBoundary ==> r->SetBoundary_0@ == boundary->0@,
        wanted is Some <==> *value is Some && value->0@.len() > 0,
        wanted is Some ==> wanted->0@ == value->0@,
{
}

/// A table is created where it is missing, after its deletion where that is under way,
/// and kept otherwise; a wait is over when the table is gone, or active, as waited for.
pub proof fn law_what_becomes_of_the_table(
    seen: TableSeen,
    r: TableStep,
    wait: TableWait,
    over: bool,
)
    requires
        call_ensures(table_step, (seen,), r),
        call_ensures(table_wait_over, (wait, seen), over),
    ensures
        r == TableStep::Create <==> seen == TableSeen::Missing,
        r == TableStep::DrainAndCreate <==> seen == TableSeen::Deleting,
        r == TableStep::Keep <==> seen == TableSeen::Active || seen == TableSeen::Other,
        wait == TableWait::Gone ==> (over <==> seen == TableSeen::Missing),
        wait == TableWait::Active ==> (over <==> seen == TableSeen::Active),
{
}

/// Every region but the first takes a location; a bucket is there where the refusal of
/// its creation says so; a payload is current where its version is the wanted one.
pub proof fn law_buckets_and_payloads(
    region: &str,
    located: bool,
    code: &str,
    there: bool,
    stored: &Option<String>,
    version: &str,
    current: bool,
)
    requires
        call_ensures(needs_location, (region,), located),
        call_ensures(bucket_is_there, (code,), there),
        call_ensures(seed_is_current, (stored, version), current),
    ensures
        located <==> region@ != "us-east-1"@,
        there <==> code@ == "BucketAlreadyOwnedByYou"@ || code@ == "BucketAlreadyExists"@,
        current <==> *stored is Some && stored->0@ == version@,
{
}

/// An image has a size where exactly one is told for it, and none below zero; a
/// password is what follows the first colon of a token.
pub proof fn law_sizes_and_passwords(
    tag: &str,
    details: &Vec<Option<i64>>,
    size: Result<u64, String>,
    token: &str,
    password: Result<String, String>,
)
    requires
        call_ensures(image_size, (tag, details), size),
        call_ensures(password_in, (token,), password),
    ensures
        size is Ok <==> details@.len() == 1 && details@[0] is Some && details@[0]->0 >= 0,
        password is Ok <==> exists|i: int| 0 <= i < token@.len() && #[trigger] token@[i] == ':',
        password is Ok ==> exists|i: int|
            {
                &&& 0 <= i < token@.len()
                &&& #[trigger] token@[i] == ':'
                &&& forall|j: int| 0 <= j < i ==> token@[j] != ':'
                &&& password->Ok_0@ == token@.skip(i + 1)
            },
{
    law_first_occurrence(token@, ':');
    let k = first_of(token@, ':');
    if k < token@.len() {
        assert(token@[k] == ':');
    }
}

/// The first failure of several is the one that is returned; a stored key is kept, and
/// another is refused.
pub proof fn law_failures_and_keys(
    results: &Vec<Result<(), String>>,
    r: Result<(), String>,
    stored: &Option<String>,
    resolved: &str,
    key: Result<String, String>,
)
    requires
        call_ensures(first_failure, (results,), r),
        call_ensures(settle_key, (stored, resolved), key),
    ensures
        r is Ok <==> forall|i: int| 0 <= i < results@.len() ==> #[trigger] results@[i] is Ok,
        key is Ok <==> (*stored is None || stored->0@ == resolved@),
        key is Ok ==> key->Ok_0@ == resolved@,
{
}

/// A destructive command goes on only by its flag or where `yes` was typed; the files
/// of a run are told apart by its name.
pub proof fn law_confirmation_and_files(
    yes: bool,
    input: &str,
    r: bool,
    run_id: &str,
    rows: String,
    meta: String,
)
    requires
        call_ensures(is_confirmed, (yes, input), r),
        call_ensures(rows_file_name, (run_id,), rows),
        call_ensures(meta_file_name, (run_id,), meta),
    ensures
        r <==> yes || trimmed(input@) == "yes"@,
        rows@ == "run-"@ + run_id@ + ".jsonl.gz"@,
        meta@ == "run-"@ + run_id@ + ".meta.json"@,
{
}

/// A run that starts is summed up as running, with nothing recorded, and with its
/// plan's groups, cells and invocations.
pub proof fn law_summary_of_a_starting_run(
    run_id: String,
    started: u128,
    account_id: String,
    params: RunParams,
    plan: &RunPlan,
    manifest: String,
    r: RunMeta,
)
    requires
        call_ensures(
            RunMeta::started,
            (run_id, started, account_id, params, plan, manifest),
            r,
        ),
    ensures
        r.run_id@ == run_id@,
        r.started_at_unix_ms == started,
        r.finished_at_unix_ms is None,
        r.status == RunStatus::Running,
        r.region@ == "eu-central-1"@,
        r.account_id@ == account_id@,
        r.profile == params.profile && r.pool == params.pool,
        r.iteration_buckets@ == plan.buckets@,
        r.total_functions == plan.cells@.len(),
        r.total_invocations_planned == plan.planned,
        r.total_invocations_recorded == 0,
        r.memory_mb@.len() == 6,
{
}

/// A directory yields its archive where it holds exactly one; a tool's version is what
/// it printed, where it printed anything; wheels are taken for the architecture asked.
pub proof fn law_archives_and_tools(
    zips: &Vec<String>,
    dir: &str,
    z: Result<String, String>,
    printed: &Option<String>,
    v: String,
    arch: Arch,
    platforms: (String, String),
)
    requires
        call_ensures(single_zip, (zips, dir), z),
        call_ensures(tool_version, (printed,), v),
        call_ensures(wheel_platforms, (arch,), platforms),
    ensures
        z is Ok <==> zips@.len() == 1,
        z is Ok ==> z->Ok_0@ == zips@[0]@,
        *printed is Some && trimmed(printed->0@).len() > 0 ==> v@ == trimmed(printed->0@),
        *printed is None || trimmed(printed->0@).len() == 0 ==> v@ == "<unavailable>"@,
        arch == Arch::Arm64 ==> platforms.0@ == "manylinux2014_"@ + "aarch64"@ && platforms.1@
            == "manylinux_2_28_"@ + "aarch64"@,
        arch == Arch::X86_64 ==> platforms.0@ == "manylinux2014_"@ + "x86_64"@ && platforms.1@
            == "manylinux_2_28_"@ + "x86_64"@,
{
}

/// The key of a measured number orders as the number does: positive ones by their
/// bits, negative ones below zero and the other way round.
pub proof fn law_keys_order_numbers(a: u64, b: u64, x: i64, y: i64)
    requires
        call_ensures(order_key, (a,), x),
        call_ensures(order_key, (b,), y),
    ensures
        a < 0x8000_0000_0000_0000 && b < 0x8000_0000_0000_0000 ==> (x < y <==> a < b),
        a > 0x8000_0000_0000_0000 && b < 0x8000_0000_0000_0000 ==> x < y,
        a >= 0x8000_0000_0000_0000 && b >= 0x8000_0000_0000_0000 ==> (x < y <==> a > b),
        a == 0 && b == 0x8000_0000_0000_0000 ==> x == y,
{
}

/// A limiter starts as many calls in a second as it was made for, the first at once.
pub proof fn law_limiters_keep_their_rate(max_tps: u32, now_ns: u64, r: RateLimiter)
    requires
        max_tps > 0,
        call_ensures(RateLimiter::per_second, (max_tps, now_ns), r),
    ensures
        r.next_slot_ns == now_ns,
        r.interval_ns * max_tps <= 1_000_000_000,
        (r.interval_ns + 1) * max_tps > 1_000_000_000,
{
    let d = 1_000_000_000int;
    let n = max_tps as int;
    assert(d / n * n <= d && (d / n + 1) * n > d) by (nonlinear_arith)
        requires
            n > 0,
    ;
}

/// What an image takes beyond its padding is its base's; image functions are compared
/// with the Python family.
pub proof fn law_image_bases(
    image_bytes: u64,
    size_mb: u32,
    r: u64,
    family: &str,
    baseline: bool,
    touch: bool,
    name: &'static str,
)
    requires
        call_ensures(base_image_estimate, (image_bytes, size_mb), r),
        call_ensures(is_zip_baseline, (family,), baseline),
        call_ensures(image_family, (touch,), name),
    ensures
        image_bytes >= size_mb * 1_048_576 ==> r + size_mb * 1_048_576 == image_bytes,
        image_bytes < size_mb * 1_048_576 ==> r == 0,
        baseline <==> family@ == "python"@,
        name@ == (if touch {
            "image-touched"@
        } else {
            "image-untouched"@
        }),
{
    assert(size_mb * 1024 * 1024 == size_mb * 1_048_576) by (nonlinear_arith);
}

/// The pause after a cold force grows by a second and a half with each, up to twelve
/// seconds.
pub proof fn law_pauses_grow(attempt: u32, r: u64)
    requires
        call_ensures(cold_force_backoff_ms, (attempt,), r),
    ensures
        attempt <= 8 ==> r == attempt * 1500,
        attempt > 8 ==> r == 12_000,
{
}

/// A probe writes where it is told to, and else to a file of its own kind and run.
pub proof fn law_where_probes_write(explicit: &Option<String>, kind: &str, run_id: &str, r: String)
    requires
        call_ensures(probe_out_path, (explicit, kind, run_id), r),
    ensures
        *explicit is Some ==> r@ == explicit->0@,
        *explicit is None ==> r@ == "results/lifecycle-"@ + kind@ + "-"@ + run_id@ + ".json"@,
{
}

/// An archive is named after the label of its artifact.
pub proof fn law_archives_are_named_after_artifacts(key: &ArtifactKey, r: String)
    requires
        call_ensures(zip_name, (key,), r),
    ensures
        r@ == key.label_text() + ".zip"@,
{
}

/// A run or a probe passes its check where nothing is missing.
pub proof fn law_when_checks_pass(
    missing: &Vec<String>,
    run: Result<(), String>,
    probe: Result<(), String>,
)
    requires
        call_ensures(check_none_missing, (missing,), run),
        call_ensures(check_targets_deployed, (missing,), probe),
    ensures
        run is Ok <==> missing@.len() == 0,
        probe is Ok <==> missing@.len() == 0,
{
}

/// A teardown is complete exactly where every deletion succeeded, and a summary counts
/// each attempt as deleted or as told.
pub proof fn law_when_a_teardown_is_complete(
    functions: &Vec<Result<(), String>>,
    log_groups: &Vec<Result<(), String>>,
    resources: &Vec<Result<(), String>>,
    r: Result<(), String>,
    label: &str,
    sum: DeleteSummary,
)
    requires
        resources@.len() == 5,
        call_ensures(teardown_verdict, (functions, log_groups, resources), r),
        call_ensures(summarize, (label, functions), sum),
    ensures
        r is Ok <==> {
            &&& forall|i: int| 0 <= i < functions@.len() ==> #[trigger] functions@[i] is Ok
            &&& forall|i: int| 0 <= i < log_groups@.len() ==> #[trigger] log_groups@[i] is Ok
            &&& forall|i: int| 0 <= i < 5 ==> #[trigger] resources@[i] is Ok
        },
        sum.total == functions@.len(),
        sum.deleted + sum.failures@.len() == sum.total,
{
    law_complete_means_everything_deleted(functions@, log_groups@, resources@);
    law_nothing_goes_untold(label@, functions@, functions@.len() as int);
    assert(texts(sum.failures@).len() == sum.failures@.len());
}

/// The key behind the project's alias is the one that is found.
pub proof fn law_which_key_is_found(aliases: &Vec<AliasEntry>, id: Option<String>)
    requires
        call_ensures(alias_key, (aliases,), id),
    ensures
        id is Some <==> exists|i: int|
            0 <= i < aliases@.len() && (#[trigger] aliases@[i]).name is Some
                && aliases@[i].name->0@ == "alias/lambdabench-key"@ && aliases@[i].key_id is Some,
        id is Some ==> exists|i: int|
            0 <= i < aliases@.len() && (#[trigger] aliases@[i]).key_id is Some
                && aliases@[i].key_id->0@ == id->0@,
{
    if id is Some {
        let i = choose|i: int|
            0 <= i < aliases@.len() && is_our_alias(#[trigger] aliases@[i])
                && aliases@[i].key_id->0@ == id->0@;
        assert(aliases@[i].name is Some);
    } else {
        assert forall|i: int| 0 <= i < aliases@.len() implies !((#[trigger] aliases@[i]).name is Some
            && aliases@[i].name->0@ == "alias/lambdabench-key"@ && aliases@[i].key_id is Some) by {
            assert(!is_our_alias(aliases@[i]));
        }
    }
}

/// An invocation of a cell's function is accepted where its status is 200, the function
/// reports no error, and the scenario is not behind an HTTP front; behind one it takes
/// a reply too.
pub proof fn law_accepted_invocations(cell: &Cell, res: &InvokeResult, r: Result<(), String>)
    requires
        call_ensures(check_platform_ok, (cell, res), r),
    ensures
        r is Ok ==> res.status_code == 200 && res.function_error is None,
        cell.scenario != Scenario::Smithy && cell.scenario != Scenario::SmithyFull
            && res.status_code == 200 && res.function_error is None ==> r is Ok,
        (cell.scenario == Scenario::Smithy || cell.scenario == Scenario::SmithyFull)
            && res.payload is None ==> r is Err,
{
}

/// An invocation that is judged good keeps its reply.
pub proof fn law_judged_invocations_keep_their_reply(cell: &Cell, res: InvokeResult, r: Invoked)
    requires
        call_ensures(judge, (cell, res), r),
    ensures
        r is Seen ==> r->Seen_0 == res,
        r is Seen ==> res.status_code == 200 && res.function_error is None,
        !(r is Failed),
{
    assert(r is Seen <==> r@ is Seen);
}

/// The run of a cell starts with the counts of its profile, and with nothing done.
pub proof fn law_how_a_run_is_made(
    cell: Cell,
    profile: Profile,
    run_id: String,
    sizes: ArtifactSizes,
    r: CellRun,
)
    requires
        call_ensures(CellRun::new, (cell, profile, run_id, sizes), r),
    ensures
        r.cell == cell,
        r.run_id@ == run_id@,
        r.sizes == sizes,
        profile == Profile::Smoke ==> r.cold == 2 && r.warm == 2,
        profile == Profile::Full ==> r.cold == cell.counts(Profile::Full).0 && r.warm
            == cell.counts(Profile::Full).1,
        r.cycle == 0 && r.cell_attempt == 1 && r.cycle_attempt == 1 && r.force_attempt == 1,
        r.rows@.len() == 0 && r.pending@.len() == 0,
        r.version is None,
{
    assert(r@.rows.len() == r.rows@.len());
    assert(r@.pending.len() == r.pending@.len());
    assert(r@.version is None <==> r.version is None);
}

/// How a Rust artifact is built: for its architecture, at its level, generated first
/// where it is behind an HTTP front, and without jitter unless it is the jitter build.
pub proof fn law_how_rust_is_built(key: &ArtifactKey, r: RustBuild)
    requires
        key.jitter is Some,
        call_ensures(rust_build, (key,), r),
    ensures
        key.arch == Arch::Arm64 ==> r.arch_flag@ == "--arm64"@,
        key.arch == Arch::X86_64 ==> r.arch_flag@ == "--x86-64"@,
        key.opt == Some(Opt::Oz) ==> r.opt_level@ == "z"@,
        key.opt != Some(Opt::Oz) ==> r.opt_level@ == "3"@,
        r.no_jitter <==> key.jitter == Some(Jitter::Off),
        r.codegen <==> key.scenario == Scenario::Smithy || key.scenario == Scenario::SmithyFull,
        r.package is None <==> key.scenario == Scenario::Smithy || key.scenario
            == Scenario::SmithyFull,
{
}

/// A batch that is summed has all its records and their sum, and one group for each
/// key.
pub proof fn law_batches_are_summed(records: &Vec<Record>, r: Option<BatchTotals>)
    requires
        call_ensures(process_records, (records,), r),
        r is Some,
    ensures
        r->0.records == records@.len(),
        r->0.total == sum_of_all(records@),
        sum_of_groups(r->0.groups@) == r->0.total,
        count_of_groups(r->0.groups@) == records@.len(),
{
    law_groups_add_up(r->0.groups@, records@);
}

/// An image is tagged by its size, its architecture and its nonce, and made for the
/// platform of its architecture; the code of the Rust family is the plain handler's.
pub proof fn law_how_images_are_tagged(
    size_mb: u32,
    arch: Arch,
    nonce: &str,
    tag: String,
    platform: String,
    label: String,
)
    requires
        call_ensures(image_tag, (size_mb, arch, nonce), tag),
        call_ensures(image_platform, (arch,), platform),
        call_ensures(bootstrap_label, (arch,), label),
    ensures
        arch == Arch::Arm64 ==> platform@ == "linux/"@ + "arm64"@,
        arch == Arch::X86_64 ==> platform@ == "linux/"@ + "amd64"@,
        arch == Arch::Arm64 ==> label@ == "rust-hello-"@ + "arm64"@ + "-o3"@,
        arch == Arch::X86_64 ==> label@ == "rust-hello-"@ + "x86_64"@ + "-o3"@,
        tag@ == "synthdl-image-"@ + decimal(size_mb as nat) + "mb-"@ + arch.name() + "-"@ + nonce@,
{
}

/// The order flow signs and acknowledges what was ordered; the seeded payloads are
/// versioned by their sizes.
pub proof fn law_what_orders_say(
    coffee: &str,
    signed: String,
    receipt: String,
    letters: String,
    batch: String,
)
    requires
        call_ensures(order_signature, (coffee,), signed),
        call_ensures(receipt_text, (coffee,), receipt),
        call_ensures(lettercount_version, (), letters),
        call_ensures(batch_version, (), batch),
    ensures
        signed@ == "order:"@ + coffee@,
        receipt@ == "receipt for "@ + coffee@ + " order"@,
        letters@ == "lc1-"@ + decimal(1_000_000),
        batch@ == "agg1-"@ + decimal(16_000_000) + "-"@ + decimal(1_000),
{
}

/// The median of one number is that number, and of two it is between them; the spread
/// runs from the least to the greatest.
pub proof fn law_medians_and_spreads(
    keys: &[i64],
    m: (usize, usize),
    s: (usize, usize),
    k: int,
)
    requires
        keys@.len() > 0,
        call_ensures(median, (keys,), m),
        call_ensures(spread, (keys,), s),
        0 <= k < keys@.len(),
    ensures
        m.0 < keys@.len() && m.1 < keys@.len(),
        keys@[m.0 as int] <= keys@[m.1 as int],
        keys@.len() % 2 == 1 ==> m.0 == m.1,
        keys@.len() == 2 ==> m.0 != m.1,
        s.0 < keys@.len() && s.1 < keys@.len(),
        keys@[s.0 as int] <= keys@[k] <= keys@[s.1 as int],
{
    let n = keys@.len() as int;
    let order = choose|order: Seq<int>| #[trigger]
        sorts(order, keys@) && m.0 == order[(n - 1) / 2] && m.1 == order[n / 2];
    assert(0 <= order[(n - 1) / 2] < n);
    assert(0 <= order[n / 2] < n);
    if n == 2 {
        assert(order[0] != order[1]);
    }
}

/// An archive of the probe holds the code under its family's entry, executable for the
/// Rust family alone, and the padding, and falls short of its size by less than a
/// kilobyte; code that is within a kilobyte of the size, or beyond it, is refused.
pub proof fn law_archives_of_the_probe(
    rt: SynthRuntime,
    base: &Vec<u8>,
    size_mb: u32,
    r: Result<Vec<u8>, String>,
)
    requires
        size_mb * 1_048_576 <= usize::MAX,
        call_ensures(build_padded_zip, (rt, base, size_mb), r),
    ensures
        base@.len() + 1024 >= size_mb * 1_048_576 ==> r is Err,
        r is Ok ==> size_mb * 1_048_576 - 1024 < r->Ok_0@.len() <= size_mb * 1_048_576,
        r is Ok && rt == SynthRuntime::Python ==> zip_member(r->Ok_0@, "handler.py"@) == Some(base@)
            && zip_mode(r->Ok_0@, "handler.py"@) == Some(0o100644u32),
        r is Ok && rt == SynthRuntime::Rust ==> zip_member(r->Ok_0@, "bootstrap"@) == Some(base@)
            && zip_mode(r->Ok_0@, "bootstrap"@) == Some(0o100755u32),
        r is Ok ==> zip_member(r->Ok_0@, "padding.bin"@) is Some && zip_member(
            r->Ok_0@,
            "padding.bin"@,
        )->0.len() + base@.len() + 1024 == size_mb * 1_048_576,
{
    law_padding_fills_the_size(base@.len(), size_mb);
}

} // verus!
