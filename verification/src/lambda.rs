//! Decisions about the functions themselves: where their code comes from, what
//! environment they get, when an update has landed, what an invocation sends and
//! what is made of its reply.
use crate::cell::Cell;
use crate::codec::{base64_bytes, decode_base64, lossy_text, text_lossy};
use crate::config::{
    Lang, Scenario, ORDER_PK, REGION, S3_BATCH_KEY, S3_BUCKET_SUFFIX, S3_LETTERCOUNT_KEY,
    S3_OBJECT_KEY, S3_RECEIPT_KEY, SEED_KEY, TABLE_NAME,
};
use crate::platform::InvokeResult;
use crate::record::{copy_maybe, maybe_text};
use crate::text::{
    contains_text, decimal_int, decimal_int_string, has_text, same_text, trim, trimmed,
};
use vstd::prelude::*;
use vstd::string::*;

verus! {

/// A function of the synthetic probe, which is not part of the matrix.
pub struct SyntheticFn {
    pub name: String,
    pub runtime: &'static str,
    pub handler: &'static str,
    pub memory_mb: i32,
    pub arch: &'static str,
}

/// Zips of this size and more are staged in the bucket: they would not fit a
/// request.
pub const INLINE_ZIP_LIMIT: usize = 45 * 1024 * 1024;

/// Most polls for the readiness of a function or version.
pub const POLL_MAX_ATTEMPTS: u32 = 600;

/// Pause after each poll.
pub const POLL_INTERVAL_MS: u32 = 500;

/// How long readiness is polled for, in seconds.
pub fn poll_budget_secs() -> (r: u32)
    ensures
        r == 300,
{
    POLL_MAX_ATTEMPTS * POLL_INTERVAL_MS / 1000
}

/// Seconds that a function may run.
pub const FUNCTION_TIMEOUT_SECS: i32 = 30;

/// Where a function's code comes from.
pub enum CodeSource {
    /// From the bucket, under this key.
    Staged(String),
    /// From the request itself.
    Inline,
}

/// The key under which a function's zip is staged.
pub open spec fn staged_key(name: Seq<char>) -> Seq<char> {
    "lambda-code/"@ + name + ".zip"@
}

/// The key under which a function's zip is staged.
pub fn staged_code_key(name: &str) -> (r: String)
    ensures
        r@ == staged_key(name@),
{
    let mut out: String = "lambda-code/".to_owned();
    out.append(name);
    out.append(".zip");
    out
}

/// Where the code of a function with a zip of the given size comes from.
pub fn code_source(name: &str, zip_len: usize) -> (r: CodeSource)
    ensures
        match r {
            CodeSource::Staged(key) => zip_len >= 45 * 1024 * 1024 && key@ == staged_key(name@),
            CodeSource::Inline => zip_len < 45 * 1024 * 1024,
        },
{
    if zip_len >= INLINE_ZIP_LIMIT {
        CodeSource::Staged(staged_code_key(name))
    } else {
        CodeSource::Inline
    }
}

/// A step of bringing a function to its wanted state.
#[derive(Debug, Clone, Copy, PartialEq, Eq, Structural)]
pub enum DeployStep {
    /// Read the revision, to tell the coming update from an earlier one.
    ReadRevision,
    UpdateCode,
    BuildEnvironment,
    UpdateConfig,
    /// Create the function, retrying while its role is not assumable yet.
    Create,
    /// Wait until an update has landed: a revision other than the one read.
    WaitUpdated,
    /// Wait until a new function is active.
    WaitActive,
}

/// The steps that bring a function to its wanted state.
pub open spec fn steps_for(exists: bool) -> Seq<DeployStep> {
    if exists {
        seq![
            DeployStep::ReadRevision,
            DeployStep::UpdateCode,
            DeployStep::WaitUpdated,
            DeployStep::ReadRevision,
            DeployStep::BuildEnvironment,
            DeployStep::UpdateConfig,
            DeployStep::WaitUpdated,
        ]
    } else {
        seq![DeployStep::BuildEnvironment, DeployStep::Create, DeployStep::WaitActive]
    }
}

/// The steps that bring a function to its wanted state: a present one gets its
/// code and then its configuration updated, an absent one is created.
pub fn ensure_steps(exists: bool) -> (r: Vec<DeployStep>)
    ensures
        r@ == steps_for(exists),
{
    let mut steps: Vec<DeployStep> = Vec::new();
    if exists {
        steps.push(DeployStep::ReadRevision);
        steps.push(DeployStep::UpdateCode);
        steps.push(DeployStep::WaitUpdated);
        steps.push(DeployStep::ReadRevision);
        steps.push(DeployStep::BuildEnvironment);
        steps.push(DeployStep::UpdateConfig);
        steps.push(DeployStep::WaitUpdated);
    } else {
        steps.push(DeployStep::BuildEnvironment);
        steps.push(DeployStep::Create);
        steps.push(DeployStep::WaitActive);
    }
    proof {
        assert(steps@ =~= steps_for(exists));
    }
    steps
}

/// Every update is awaited before anything else happens, and is told from an
/// earlier one by a revision read just before it.
pub proof fn law_updates_are_awaited(exists: bool, i: int)
    requires
        0 <= i < steps_for(exists).len(),
        steps_for(exists)[i] == DeployStep::UpdateCode || steps_for(exists)[i]
            == DeployStep::UpdateConfig,
    ensures
        i + 1 < steps_for(exists).len(),
        steps_for(exists)[i + 1] == DeployStep::WaitUpdated,
        exists|j: int|
            0 <= j < i && #[trigger] steps_for(exists)[j] == DeployStep::ReadRevision && forall|k: int|
                j < k < i ==> #[trigger] steps_for(exists)[k] == DeployStep::BuildEnvironment,
{
    let steps = steps_for(exists);
    if i == 1 {
        assert(steps[0] == DeployStep::ReadRevision);
    } else {
        assert(i == 5);
        assert(steps[3] == DeployStep::ReadRevision);
        assert(steps[4] == DeployStep::BuildEnvironment);
    }
}

/// What is left behind by a failed creation from a zip.
#[derive(Debug, Clone, Copy, PartialEq, Eq, Structural)]
pub enum CreateFailure {
    /// The creation itself failed.
    Creating,
    /// The function was created but did not become ready.
    Waiting,
}

/// Whether a failed creation leaves a function to delete; a staged zip is deleted
/// in either case.
pub fn leaves_function(failure: CreateFailure) -> (r: bool)
    ensures
        r == (failure == CreateFailure::Waiting),
{
    matches!(failure, CreateFailure::Waiting)
}

/// Environment variables in plain values.
pub open spec fn var_texts(vars: Seq<(String, String)>) -> Seq<(Seq<char>, Seq<char>)> {
    vars.map_values(|v: (String, String)| (v.0@, v.1@))
}

/// The value of a variable, where it is set.
pub open spec fn var(vars: Seq<(Seq<char>, Seq<char>)>, key: Seq<char>) -> Option<Seq<char>>
    decreases vars.len(),
{
    if vars.len() == 0 {
        None
    } else if vars.last().0 == key {
        Some(vars.last().1)
    } else {
        var(vars.drop_last(), key)
    }
}

/// Whether no variable is set twice.
pub open spec fn distinct_vars(vars: Seq<(Seq<char>, Seq<char>)>) -> bool {
    forall|i: int, j: int| 0 <= i < j < vars.len() ==> #[trigger] vars[i].0 != #[trigger] vars[j].0
}

/// The bucket of an account.
pub open spec fn bucket_of(account_id: Seq<char>) -> Seq<char> {
    S3_BUCKET_SUFFIX@ + "-"@ + REGION@ + "-"@ + account_id
}

/// The bucket of an account: bucket names are global, so region and account are
/// in it.
pub fn bucket_name(account_id: &str) -> (r: String)
    ensures
        r@ == bucket_of(account_id@),
{
    let mut out: String = S3_BUCKET_SUFFIX.to_owned();
    out.append("-");
    out.append(REGION);
    out.append("-");
    out.append(account_id);
    out
}

/// The variables that a scenario's tables and buckets ask for.
pub open spec fn resource_vars(cell: Cell, account_id: Seq<char>) -> Seq<(Seq<char>, Seq<char>)> {
    let ddb = if cell.scenario.uses_ddb() {
        seq![("LAMBDABENCH_TABLE"@, TABLE_NAME@), ("LAMBDABENCH_KEY"@, SEED_KEY@)]
    } else {
        Seq::empty()
    };
    let s3 = if cell.scenario.uses_s3() {
        ddb.push(("LAMBDABENCH_BUCKET"@, bucket_of(account_id)))
    } else {
        ddb
    };
    let letters = if cell.scenario == Scenario::LetterCount {
        s3.push(("LAMBDABENCH_LETTERCOUNT_KEY"@, S3_LETTERCOUNT_KEY@))
    } else {
        s3
    };
    if cell.scenario == Scenario::Batch {
        letters.push(("LAMBDABENCH_BATCH_KEY"@, S3_BATCH_KEY@))
    } else {
        letters
    }
}

/// The order that a function writes: its own.
pub open spec fn order_pk(cell: Cell) -> Seq<char> {
    ORDER_PK@ + "-"@ + cell.full_name()
}

/// The receipt that a function writes: its own, the function's name leading.
pub open spec fn receipt_key(cell: Cell) -> Seq<char> {
    cell.full_name() + "/"@ + S3_RECEIPT_KEY@
}

/// The variables that a scenario with the KMS key asks for.
pub open spec fn kms_vars(cell: Cell, key_id: Seq<char>) -> Seq<(Seq<char>, Seq<char>)> {
    seq![
        ("LAMBDABENCH_KMS_KEY_ID"@, key_id),
        ("LAMBDABENCH_OBJECT_KEY"@, S3_OBJECT_KEY@),
        ("LAMBDABENCH_ORDER_PK"@, order_pk(cell)),
        ("LAMBDABENCH_RECEIPT_KEY"@, receipt_key(cell)),
    ]
}

/// The complaint about a KMS-using function wired before the key is known.
pub open spec fn kms_unset_message(cell: Cell) -> Seq<char> {
    "KMS key id not set while wiring "@ + cell.full_name()
        + " (a KMS-using scenario); ensure_kms_key must run before building this function's environment"@
}

/// The environment of a cell's function, or the complaint.
pub open spec fn environment_of(
    cell: Cell,
    account_id: Seq<char>,
    kms_key_id: Option<Seq<char>>,
) -> Result<Seq<(Seq<char>, Seq<char>)>, Seq<char>> {
    let quiet = ("RUST_LOG"@, "error"@);
    if !cell.scenario.uses_kms_s3() {
        Ok(resource_vars(cell, account_id).push(quiet))
    } else {
        match kms_key_id {
            None => Err(kms_unset_message(cell)),
            Some(id) => Ok((resource_vars(cell, account_id) + kms_vars(cell, id)).push(quiet)),
        }
    }
}

fn push_var(vars: &mut Vec<(String, String)>, key: &str, value: &str)
    ensures
        var_texts(final(vars)@) == var_texts(old(vars)@).push((key@, value@)),
{
    vars.push((key.to_owned(), value.to_owned()));
    proof {
        assert(var_texts(vars@) =~= var_texts(old(vars)@).push((key@, value@)));
    }
}

/// The environment of a cell's function: the wiring that its scenario needs, and
/// quiet logging. A scenario with the KMS key is refused while the key is not
/// known, rather than wired with a placeholder.
pub fn environment(cell: &Cell, account_id: &str, kms_key_id: &Option<String>) -> (r: Result<
    Vec<(String, String)>,
    String,
>)
    ensures
        match r {
            Ok(vars) => environment_of(*cell, account_id@, maybe_text(*kms_key_id)) == Ok::<
                Seq<(Seq<char>, Seq<char>)>,
                Seq<char>,
            >(var_texts(vars@)),
            Err(m) => environment_of(*cell, account_id@, maybe_text(*kms_key_id)) == Err::<
                Seq<(Seq<char>, Seq<char>)>,
                Seq<char>,
            >(m@),
        },
{
    let mut vars: Vec<(String, String)> = Vec::new();
    proof {
        assert(var_texts(vars@) =~= Seq::empty());
    }
    if cell.scenario.needs_ddb() {
        push_var(&mut vars, "LAMBDABENCH_TABLE", TABLE_NAME);
        push_var(&mut vars, "LAMBDABENCH_KEY", SEED_KEY);
        proof {
            assert(var_texts(vars@) =~= seq![
                ("LAMBDABENCH_TABLE"@, TABLE_NAME@),
                ("LAMBDABENCH_KEY"@, SEED_KEY@),
            ]);
        }
    }
    if cell.scenario.needs_s3() {
        push_var(&mut vars, "LAMBDABENCH_BUCKET", bucket_name(account_id).as_str());
    }
    if cell.scenario == Scenario::LetterCount {
        push_var(&mut vars, "LAMBDABENCH_LETTERCOUNT_KEY", S3_LETTERCOUNT_KEY);
    }
    if cell.scenario == Scenario::Batch {
        push_var(&mut vars, "LAMBDABENCH_BATCH_KEY", S3_BATCH_KEY);
    }
    proof {
        assert(var_texts(vars@) == resource_vars(*cell, account_id@));
    }
    if cell.scenario.needs_kms_s3() {
        let key_id: &str = match kms_key_id {
            Some(id) => id.as_str(),
            None => {
                let mut out: String = "KMS key id not set while wiring ".to_owned();
                out.append(cell.function_name().as_str());
                out.append(
                    " (a KMS-using scenario); ensure_kms_key must run before building this function's environment",
                );
                return Err(out);
            },
        };
        let name: String = cell.function_name();
        let mut order: String = ORDER_PK.to_owned();
        order.append("-");
        order.append(name.as_str());
        let mut receipt: String = name;
        receipt.append("/");
        receipt.append(S3_RECEIPT_KEY);
        push_var(&mut vars, "LAMBDABENCH_KMS_KEY_ID", key_id);
        push_var(&mut vars, "LAMBDABENCH_OBJECT_KEY", S3_OBJECT_KEY);
        push_var(&mut vars, "LAMBDABENCH_ORDER_PK", order.as_str());
        push_var(&mut vars, "LAMBDABENCH_RECEIPT_KEY", receipt.as_str());
        proof {
            assert(var_texts(vars@) =~= resource_vars(*cell, account_id@) + kms_vars(
                *cell,
                key_id@,
            ));
        }
    }
    push_var(&mut vars, "RUST_LOG", "error");
    Ok(vars)
}

/// The environment of an image function: the flag that makes its handler read the
/// padding, or nothing.
pub fn image_environment(touch: bool) -> (r: Option<(&'static str, &'static str)>)
    ensures
        match r {
            Some(v) => touch && v.0@ == "LAMBDABENCH_TOUCH"@ && v.1@ == "1"@,
            None => !touch,
        },
{
    if touch {
        Some(("LAMBDABENCH_TOUCH", "1"))
    } else {
        None
    }
}

/// Name of the variable that is bumped to force a cold start.
pub const COLD_NONCE: &'static str = "COLD_NONCE";

/// The variables but the one of the given name.
pub open spec fn without_var(vars: Seq<(Seq<char>, Seq<char>)>, key: Seq<char>) -> Seq<
    (Seq<char>, Seq<char>),
>
    decreases vars.len(),
{
    if vars.len() == 0 {
        Seq::empty()
    } else if vars.last().0 == key {
        without_var(vars.drop_last(), key)
    } else {
        without_var(vars.drop_last(), key).push(vars.last())
    }
}

/// The variables with the nonce set.
pub open spec fn with_nonce(vars: Seq<(Seq<char>, Seq<char>)>, nonce: Seq<char>) -> Seq<
    (Seq<char>, Seq<char>),
> {
    without_var(vars, COLD_NONCE@).push((COLD_NONCE@, nonce))
}

proof fn lemma_without_var(vars: Seq<(Seq<char>, Seq<char>)>, gone: Seq<char>, key: Seq<char>)
    ensures
        var(without_var(vars, gone), key) == (if key == gone {
            None
        } else {
            var(vars, key)
        }),
    decreases vars.len(),
{
    if vars.len() > 0 {
        lemma_without_var(vars.drop_last(), gone, key);
        let before = without_var(vars.drop_last(), gone);
        if vars.last().0 != gone {
            assert(before.push(vars.last()).drop_last() =~= before);
        }
    }
}

proof fn lemma_without_var_members(vars: Seq<(Seq<char>, Seq<char>)>, gone: Seq<char>, i: int)
    requires
        0 <= i < without_var(vars, gone).len(),
    ensures
        vars.contains(without_var(vars, gone)[i]),
        without_var(vars, gone)[i].0 != gone,
    decreases vars.len(),
{
    let front = vars.drop_last();
    let before = without_var(front, gone);
    if vars.last().0 == gone || i < before.len() {
        lemma_without_var_members(front, gone, i);
        let k = choose|k: int| 0 <= k < front.len() && front[k] == before[i];
        assert(vars[k] == before[i]);
    } else {
        assert(vars[vars.len() - 1] == vars.last());
    }
}

proof fn lemma_without_var_distinct(vars: Seq<(Seq<char>, Seq<char>)>, gone: Seq<char>)
    requires
        distinct_vars(vars),
    ensures
        distinct_vars(without_var(vars, gone)),
    decreases vars.len(),
{
    if vars.len() > 0 {
        let front = vars.drop_last();
        let before = without_var(front, gone);
        let after = without_var(vars, gone);
        assert(distinct_vars(front)) by {
            assert forall|a: int, b: int| 0 <= a < b < front.len() implies #[trigger] front[a].0
                != #[trigger] front[b].0 by {
                assert(vars[a].0 != vars[b].0);
            }
        }
        lemma_without_var_distinct(front, gone);
        assert forall|a: int, b: int| 0 <= a < b < after.len() implies #[trigger] after[a].0
            != #[trigger] after[b].0 by {
            if b < before.len() {
                assert(before[a].0 != before[b].0);
            } else {
                lemma_without_var_members(front, gone, a);
                let k = choose|k: int| 0 <= k < front.len() && front[k] == before[a];
                assert(vars[k].0 != vars[vars.len() - 1].0);
            }
        }
    }
}

/// Setting the nonce sets it, keeps the value of every other variable, and leaves
/// no variable set twice.
pub proof fn law_nonce_keeps_the_rest(
    vars: Seq<(Seq<char>, Seq<char>)>,
    nonce: Seq<char>,
    key: Seq<char>,
)
    requires
        distinct_vars(vars),
    ensures
        var(with_nonce(vars, nonce), COLD_NONCE@) == Some(nonce),
        key != COLD_NONCE@ ==> var(with_nonce(vars, nonce), key) == var(vars, key),
        distinct_vars(with_nonce(vars, nonce)),
{
    let kept = without_var(vars, COLD_NONCE@);
    let after = with_nonce(vars, nonce);
    lemma_without_var(vars, COLD_NONCE@, key);
    assert(after.drop_last() =~= kept);
    lemma_without_var_distinct(vars, COLD_NONCE@);
    assert forall|a: int, b: int| 0 <= a < b < after.len() implies #[trigger] after[a].0
        != #[trigger] after[b].0 by {
        if b < kept.len() {
            assert(kept[a].0 != kept[b].0);
        } else {
            lemma_without_var_members(vars, COLD_NONCE@, a);
        }
    }
}

/// Sets the nonce and keeps every other variable as it is: what was wired at
/// deployment cannot be rebuilt while running.
pub fn with_cold_nonce(vars: &Vec<(String, String)>, nonce: &str) -> (r: Vec<(String, String)>)
    ensures
        var_texts(r@) == with_nonce(var_texts(vars@), nonce@),
{
    let ghost before = var_texts(vars@);
    let mut out: Vec<(String, String)> = Vec::new();
    let mut i: usize = 0;
    proof {
        assert(var_texts(out@) =~= without_var(before.take(0), COLD_NONCE@));
    }
    while i < vars.len()
        invariant
            i <= vars.len(),
            before == var_texts(vars@),
            var_texts(out@) == without_var(before.take(i as int), COLD_NONCE@),
        decreases vars.len() - i,
    {
        proof {
            assert(before.take(i + 1).drop_last() =~= before.take(i as int));
            assert(before.take(i + 1).last() == (vars@[i as int].0@, vars@[i as int].1@));
        }
        if !same_text(vars[i].0.as_str(), COLD_NONCE) {
            push_var(&mut out, vars[i].0.as_str(), vars[i].1.as_str());
        }
        i = i + 1;
    }
    proof {
        assert(before.take(before.len() as int) =~= before);
    }
    push_var(&mut out, COLD_NONCE, nonce);
    out
}

/// No variable of a cell's environment is set twice.
pub proof fn law_environment_sets_nothing_twice(
    cell: Cell,
    account_id: Seq<char>,
    kms_key_id: Option<Seq<char>>,
)
    requires
        environment_of(cell, account_id, kms_key_id) is Ok,
    ensures
        distinct_vars(environment_of(cell, account_id, kms_key_id)->Ok_0),
{
    reveal_strlit("LAMBDABENCH_TABLE");
    reveal_strlit("LAMBDABENCH_KEY");
    reveal_strlit("LAMBDABENCH_BUCKET");
    reveal_strlit("LAMBDABENCH_LETTERCOUNT_KEY");
    reveal_strlit("LAMBDABENCH_BATCH_KEY");
    reveal_strlit("LAMBDABENCH_KMS_KEY_ID");
    reveal_strlit("LAMBDABENCH_OBJECT_KEY");
    reveal_strlit("LAMBDABENCH_ORDER_PK");
    reveal_strlit("LAMBDABENCH_RECEIPT_KEY");
    reveal_strlit("RUST_LOG");
    let vars = environment_of(cell, account_id, kms_key_id)->Ok_0;
    assert("LAMBDABENCH_TABLE"@[12] == 'T');
    assert("LAMBDABENCH_KEY"@[12] == 'K');
    assert("LAMBDABENCH_BUCKET"@[13] == 'U');
    assert("LAMBDABENCH_ORDER_PK"@[13] == 'R');
    assert("LAMBDABENCH_OBJECT_KEY"@[13] == 'B');
    assert forall|i: int, j: int| 0 <= i < j < vars.len() implies #[trigger] vars[i].0
        != #[trigger] vars[j].0 by {
        assert(vars[i].0.len() != vars[j].0.len() || vars[i].0[12] != vars[j].0[12]);
    }
}

/// Functions never write the same order or the same receipt.
pub proof fn law_write_targets_unique(a: Cell, b: Cell)
    requires
        a.valid(),
        b.valid(),
        a.memory_mb >= 0,
        b.memory_mb >= 0,
        a != b,
    ensures
        order_pk(a) != order_pk(b),
        receipt_key(a) != receipt_key(b),
{
    if order_pk(a) == order_pk(b) {
        let n = (ORDER_PK@ + "-"@).len() as int;
        assert(order_pk(a).skip(n) =~= a.full_name());
        assert(order_pk(b).skip(n) =~= b.full_name());
        crate::laws::law_function_names_unique(a, b);
    }
    if receipt_key(a) == receipt_key(b) {
        let n = ("/"@ + S3_RECEIPT_KEY@).len() as int;
        let full = receipt_key(a).len() as int;
        assert(receipt_key(a).take(full - n) =~= a.full_name());
        assert(receipt_key(b).take(full - n) =~= b.full_name());
        crate::laws::law_function_names_unique(a, b);
    }
}

/// The state of a function or version.
#[derive(Debug, Clone, Copy, PartialEq, Eq, Structural)]
pub enum FunctionState {
    Active,
    Failed,
    /// Pending, inactive, or not told.
    Other,
}

/// The state of the last update of a function.
#[derive(Debug, Clone, Copy, PartialEq, Eq, Structural)]
pub enum UpdateStatus {
    Successful,
    Failed,
    InProgress,
    /// Not told, as it can be just after a creation.
    Missing,
}

/// What a poll of a function shows.
pub struct FunctionSeen {
    pub state: FunctionState,
    pub update: UpdateStatus,
    pub update_reason: Option<String>,
    pub revision: Option<String>,
}

/// What follows a poll.
pub enum Poll {
    /// The wait is over.
    Ready,
    /// Nothing yet: pause and poll again.
    Again,
    /// The wait is over, without success.
    Failed(String),
}

/// Whether a function is ready: active and settled, and past the revision that
/// the update was to replace. Only a creation, where there is no such revision,
/// may leave the state of the update untold.
pub open spec fn is_ready(prev_revision: Option<Seq<char>>, seen: FunctionSeen) -> bool {
    &&& seen.state == FunctionState::Active
    &&& seen.update == UpdateStatus::Successful || (prev_revision is None && seen.update
        == UpdateStatus::Missing)
    &&& prev_revision is Some ==> maybe_text(seen.revision) != prev_revision
}

/// An update is never taken to have landed on the strength of an earlier one: the
/// revision must have moved, and the update must be told to be successful.
pub proof fn law_no_stale_update(prev_revision: Seq<char>, seen: FunctionSeen)
    requires
        is_ready(Some(prev_revision), seen),
    ensures
        maybe_text(seen.revision) != Some(prev_revision),
        seen.update == UpdateStatus::Successful,
        seen.state == FunctionState::Active,
{
}

/// A reason, or that it is unknown.
pub open spec fn reason_text(reason: Option<String>) -> Seq<char> {
    match reason {
        Some(r) => r@,
        None => "unknown"@,
    }
}

fn reason_or_unknown(reason: &Option<String>) -> (r: String)
    ensures
        r@ == reason_text(*reason),
{
    match reason {
        Some(t) => t.clone(),
        None => "unknown".to_owned(),
    }
}

/// What follows a poll for an update, or for a creation where there is no
/// earlier revision.
pub fn ready_poll(name: &str, prev_revision: &Option<String>, seen: &FunctionSeen) -> (r: Poll)
    ensures
        match r {
            Poll::Failed(m) => seen.update == UpdateStatus::Failed && m@ == "function "@ + name@
                + " update failed: "@ + reason_text(seen.update_reason),
            Poll::Ready => seen.update != UpdateStatus::Failed && is_ready(
                maybe_text(*prev_revision),
                *seen,
            ),
            Poll::Again => seen.update != UpdateStatus::Failed && !is_ready(
                maybe_text(*prev_revision),
                *seen,
            ),
        },
{
    if seen.update == UpdateStatus::Failed {
        let mut out: String = "function ".to_owned();
        out.append(name);
        out.append(" update failed: ");
        out.append(reason_or_unknown(&seen.update_reason).as_str());
        return Poll::Failed(out);
    }
    let settled: bool = seen.update == UpdateStatus::Successful || (prev_revision.is_none()
        && seen.update == UpdateStatus::Missing);
    let advanced: bool = match (prev_revision, &seen.revision) {
        (Some(prev), Some(now)) => !same_text(prev.as_str(), now.as_str()),
        _ => true,
    };
    if seen.state == FunctionState::Active && settled && advanced {
        Poll::Ready
    } else {
        Poll::Again
    }
}

/// Why a wait for a function ends after so many polls, where it does.
pub fn ready_expired(name: &str, polls: u32) -> (r: Option<String>)
    ensures
        match r {
            Some(m) => polls >= 600 && m@ == "function "@ + name@
                + " did not become ready within 300s"@,
            None => polls < 600,
        },
{
    if polls < POLL_MAX_ATTEMPTS {
        return None;
    }
    let mut out: String = "function ".to_owned();
    out.append(name);
    out.append(" did not become ready within 300s");
    Some(out)
}

/// What a poll of a published version shows.
pub struct VersionSeen {
    pub state: FunctionState,
    pub state_reason: Option<String>,
    /// Whether the snapshot is applied.
    pub snapshot_on: bool,
    /// What was told about the snapshot, for a message.
    pub snapshot_status: String,
}

/// A version of a function, for a message.
pub open spec fn version_text(name: Seq<char>, version: Seq<char>) -> Seq<char> {
    "version "@ + name + ":"@ + version
}

fn version_label(name: &str, version: &str) -> (r: String)
    ensures
        r@ == version_text(name@, version@),
{
    let mut out: String = "version ".to_owned();
    out.append(name);
    out.append(":");
    out.append(version);
    out
}

/// What follows a poll for a published version: it is ready when active with its
/// snapshot applied, and refused when active without it, since a version without
/// a snapshot would cold start plainly.
pub fn version_poll(name: &str, version: &str, seen: &VersionSeen) -> (r: Poll)
    ensures
        match r {
            Poll::Ready => seen.state == FunctionState::Active && seen.snapshot_on,
            Poll::Again => seen.state == FunctionState::Other,
            Poll::Failed(m) => if seen.state == FunctionState::Active {
                !seen.snapshot_on && m@ == version_text(name@, version@)
                    + " is Active but SnapStart is not applied (optimization_status="@
                    + seen.snapshot_status@ + "); a restore would not occur"@
            } else {
                seen.state == FunctionState::Failed && m@ == version_text(name@, version@)
                    + " entered Failed state: "@ + reason_text(seen.state_reason)
            },
        },
{
    match seen.state {
        FunctionState::Active => {
            if seen.snapshot_on {
                Poll::Ready
            } else {
                let mut out: String = version_label(name, version);
                out.append(" is Active but SnapStart is not applied (optimization_status=");
                out.append(seen.snapshot_status.as_str());
                out.append("); a restore would not occur");
                Poll::Failed(out)
            }
        },
        FunctionState::Failed => {
            let mut out: String = version_label(name, version);
            out.append(" entered Failed state: ");
            out.append(reason_or_unknown(&seen.state_reason).as_str());
            Poll::Failed(out)
        },
        FunctionState::Other => Poll::Again,
    }
}

/// Why a wait for a version ends after so many polls, where it does.
pub fn version_expired(name: &str, version: &str, polls: u32) -> (r: Option<String>)
    ensures
        match r {
            Some(m) => polls >= 600 && m@ == version_text(name@, version@)
                + " did not become Active within 300s"@,
            None => polls < 600,
        },
{
    if polls < POLL_MAX_ATTEMPTS {
        return None;
    }
    let mut out: String = version_label(name, version);
    out.append(" did not become Active within 300s");
    Some(out)
}

/// The number of a published version; the unpublished alias is none.
pub fn published_version(name: &str, version: &Option<String>) -> (r: Result<String, String>)
    ensures
        match r {
            Ok(v) => maybe_text(*version) == Some(v@) && v@ != "$LATEST"@,
            Err(m) => {
                &&& *version is None || maybe_text(*version) == Some("$LATEST"@)
                &&& m@ == "PublishVersion for "@ + name@ + " returned no numeric version"@
            },
        },
{
    match version {
        Some(v) => {
            if !same_text(v.as_str(), "$LATEST") {
                return Ok(v.clone());
            }
        },
        None => {},
    }
    let mut out: String = "PublishVersion for ".to_owned();
    out.append(name);
    out.append(" returned no numeric version");
    Err(out)
}

/// Most attempts at a creation while the role is not assumable yet.
pub const ROLE_PROPAGATION_MAX_ATTEMPTS: u32 = 30;

/// Pause before the next attempt at a creation.
pub const ROLE_PROPAGATION_PAUSE_MS: u64 = 1000;

/// Whether a failed creation is tried again: both the class of the error and its
/// message must say that the role is not assumable yet, and attempts must be left.
pub fn retry_creation(is_invalid_parameter: bool, message: &Option<String>, attempt: u32) -> (r: bool)
    ensures
        r == (is_invalid_parameter && *message is Some && has_text(
            message->0@,
            "cannot be assumed by Lambda"@,
        ) && attempt < 30),
{
    let says_so: bool = match message {
        Some(m) => contains_text(m.as_str(), "cannot be assumed by Lambda"),
        None => false,
    };
    is_invalid_parameter && says_so && attempt < ROLE_PROPAGATION_MAX_ATTEMPTS
}

/// Why a reply without a log tail fails: the failure of the function itself is
/// named before the missing tail.
pub open spec fn no_tail_message(
    name: Seq<char>,
    status_code: i32,
    function_error: Option<Seq<char>>,
) -> Seq<char> {
    match function_error {
        Some(err) => "invoke of "@ + name + " reported FunctionError="@ + err + " (status "@
            + decimal_int(status_code as int) + ") and returned no LogResult"@,
        None => if status_code != 200 {
            "invoke of "@ + name + " returned status "@ + decimal_int(status_code as int)
                + " (expected 200) and no LogResult"@
        } else {
            "invoke of "@ + name + " returned no LogResult (LogType=Tail expected)"@
        },
    }
}

fn no_tail_text(name: &str, status_code: i32, function_error: &Option<String>) -> (r: String)
    ensures
        r@ == no_tail_message(name@, status_code, maybe_text(*function_error)),
{
    let mut out: String = "invoke of ".to_owned();
    out.append(name);
    match function_error {
        Some(err) => {
            out.append(" reported FunctionError=");
            out.append(err.as_str());
            out.append(" (status ");
            out.append(decimal_int_string(status_code as i64).as_str());
            out.append(") and returned no LogResult");
        },
        None => {
            if status_code != 200 {
                out.append(" returned status ");
                out.append(decimal_int_string(status_code as i64).as_str());
                out.append(" (expected 200) and no LogResult");
            } else {
                out.append(" returned no LogResult (LogType=Tail expected)");
            }
        },
    }
    out
}

/// A reply as it came from the platform.
pub struct RawReply {
    pub status_code: i32,
    pub function_error: Option<String>,
    /// The log tail, in base64.
    pub log_result: Option<String>,
    pub payload: Option<Vec<u8>>,
}

/// The reply of an invocation, its decoded log tail given: nothing where the tail
/// was no base64.
pub fn reply_with_tail(reply: &RawReply, tail: Option<Vec<u8>>) -> (r: Result<InvokeResult, String>)
    ensures
        match r {
            Ok(res) => {
                &&& tail is Some
                &&& res.log_tail@ == lossy_text(tail->0@)
                &&& res.status_code == reply.status_code
                &&& maybe_text(res.function_error) == maybe_text(reply.function_error)
                &&& match reply.payload {
                    Some(b) => maybe_text(res.payload) == Some(lossy_text(b@)),
                    None => res.payload is None,
                }
            },
            Err(m) => tail is None && m@ == "decoding base64 log tail"@,
        },
{
    let bytes: Vec<u8> = match tail {
        Some(bytes) => bytes,
        None => {
            return Err("decoding base64 log tail".to_owned());
        },
    };
    let payload: Option<String> = match &reply.payload {
        Some(b) => Some(text_lossy(b)),
        None => None,
    };
    Ok(
        InvokeResult {
            status_code: reply.status_code,
            function_error: copy_maybe(&reply.function_error),
            log_tail: text_lossy(&bytes),
            payload,
        },
    )
}

/// Makes a reply of the platform readable. A reply without a log tail, or with
/// one that is no base64, is refused.
pub fn read_reply(name: &str, reply: &RawReply) -> (r: Result<InvokeResult, String>)
    ensures
        match (reply.log_result, r) {
            (None, Err(m)) => m@ == no_tail_message(
                name@,
                reply.status_code,
                maybe_text(reply.function_error),
            ),
            (Some(b64), Err(m)) => base64_bytes(b64@) is None && m@ == "decoding base64 log tail"@,
            (Some(b64), Ok(res)) => {
                &&& base64_bytes(b64@) is Some
                &&& res.log_tail@ == lossy_text(base64_bytes(b64@)->0)
                &&& res.status_code == reply.status_code
                &&& maybe_text(res.function_error) == maybe_text(reply.function_error)
                &&& match reply.payload {
                    Some(b) => maybe_text(res.payload) == Some(lossy_text(b@)),
                    None => res.payload is None,
                }
            },
            (None, Ok(_)) => false,
        },
{
    match &reply.log_result {
        None => Err(no_tail_text(name, reply.status_code, &reply.function_error)),
        Some(b64) => {
            let tail: Option<Vec<u8>> = decode_base64(b64.as_str());
            reply_with_tail(reply, tail)
        },
    }
}

/// The event that the `smithy` scenario gets in Java: a v1 proxy event.
pub const JAVA_SMITHY_EVENT: &'static str = r#"{
  "path": "/menu",
  "httpMethod": "GET",
  "multiValueHeaders": { "accept": ["application/json"] },
  "isBase64Encoded": false
}"#;

/// The event that the `smithyfull` scenario gets in Java: a v1 proxy event.
pub const JAVA_SMITHYFULL_EVENT: &'static str = r#"{
  "path": "/order",
  "httpMethod": "POST",
  "multiValueHeaders": { "content-type": ["application/json"], "accept": ["application/json"] },
  "body": "{\"coffeeType\":\"LATTE\"}",
  "isBase64Encoded": false
}"#;

/// The event that the `smithy` scenario gets elsewhere: a v2 HTTP event.
pub const SMITHY_EVENT: &'static str = r#"{
  "version": "2.0",
  "routeKey": "GET /menu",
  "rawPath": "/menu",
  "rawQueryString": "",
  "headers": { "accept": "application/json" },
  "requestContext": {
    "http": { "method": "GET", "path": "/menu", "protocol": "HTTP/1.1", "sourceIp": "127.0.0.1" }
  },
  "isBase64Encoded": false
}"#;

/// The event that the `smithyfull` scenario gets elsewhere: a v2 HTTP event.
pub const SMITHYFULL_EVENT: &'static str = r#"{
  "version": "2.0",
  "routeKey": "POST /order",
  "rawPath": "/order",
  "rawQueryString": "",
  "headers": { "content-type": "application/json", "accept": "application/json" },
  "requestContext": {
    "http": { "method": "POST", "path": "/order", "protocol": "HTTP/1.1", "sourceIp": "127.0.0.1" }
  },
  "body": "{\"coffeeType\":\"LATTE\"}",
  "isBase64Encoded": false
}"#;

/// The payload that a cell's function is invoked with.
pub open spec fn payload_of(cell: Cell, authz_token: Seq<char>) -> Seq<char> {
    match cell.scenario {
        Scenario::Smithy => if cell.lang == Lang::Java {
            JAVA_SMITHY_EVENT@
        } else {
            SMITHY_EVENT@
        },
        Scenario::SmithyFull => if cell.lang == Lang::Java {
            JAVA_SMITHYFULL_EVENT@
        } else {
            SMITHYFULL_EVENT@
        },
        Scenario::Authz => "{\"token\":\""@ + trimmed(authz_token) + "\"}"@,
        _ => "{}"@,
    }
}

/// The payload that a cell's function is invoked with: behind an HTTP front the
/// event that its adapter expects, for `authz` the token (which needs no
/// escaping), and an empty object elsewhere.
pub fn invoke_payload(cell: &Cell, authz_token: &str) -> (r: String)
    ensures
        r@ == payload_of(*cell, authz_token@),
{
    match (cell.scenario, cell.lang) {
        (Scenario::Smithy, Lang::Java) => JAVA_SMITHY_EVENT.to_owned(),
        (Scenario::SmithyFull, Lang::Java) => JAVA_SMITHYFULL_EVENT.to_owned(),
        (Scenario::Smithy, _) => SMITHY_EVENT.to_owned(),
        (Scenario::SmithyFull, _) => SMITHYFULL_EVENT.to_owned(),
        (Scenario::Authz, _) => {
            let mut out: String = "{\"token\":\"".to_owned();
            out.append(trim(authz_token));
            out.append("\"}");
            out
        },
        _ => "{}".to_owned(),
    }
}

} // verus!
