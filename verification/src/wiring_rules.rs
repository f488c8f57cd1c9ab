//! What the wiring of functions is for: which variables each scenario gets, what an
//! invocation sends, and what is made of polls and replies.
use crate::cell::Cell;
use crate::config::{Lang, Scenario, SEED_KEY, TABLE_NAME};
use crate::lambda::{
    bucket_of, environment_of, is_ready, kms_vars, no_tail_message, payload_of, resource_vars,
    staged_key, steps_for, var, version_text, DeployStep, FunctionSeen, FunctionState, UpdateStatus,
    JAVA_SMITHYFULL_EVENT, JAVA_SMITHY_EVENT, SMITHYFULL_EVENT, SMITHY_EVENT,
};
use crate::text::{decimal_int, has_prefix, has_text, trimmed};
use crate::text_lemmas::lemma_holds_middle;
use vstd::prelude::*;
use vstd::string::*;

verus! {

/// The lengths of the names of the variables, and enough of their characters to tell
/// them apart.
proof fn lemma_variable_names()
    ensures
        "LAMBDABENCH_TABLE"@.len() == 17,
        "LAMBDABENCH_KEY"@.len() == 15,
        "LAMBDABENCH_BUCKET"@.len() == 18,
        "LAMBDABENCH_LETTERCOUNT_KEY"@.len() == 27,
        "LAMBDABENCH_BATCH_KEY"@.len() == 21,
        "LAMBDABENCH_KMS_KEY_ID"@.len() == 22,
        "LAMBDABENCH_KMS_KEY_ID"@[12] == 'K',
        "LAMBDABENCH_OBJECT_KEY"@.len() == 22,
        "LAMBDABENCH_OBJECT_KEY"@[12] == 'O',
        "LAMBDABENCH_ORDER_PK"@.len() == 20,
        "LAMBDABENCH_RECEIPT_KEY"@.len() == 23,
        "RUST_LOG"@.len() == 8,
{
    reveal_strlit("LAMBDABENCH_TABLE");
    reveal_strlit("LAMBDABENCH_KEY");
    reveal_strlit("LAMBDABENCH_BUCKET");
    reveal_strlit("LAMBDABENCH_LETTERCOUNT_KEY");
    reveal_strlit("LAMBDABENCH_BATCH_KEY");
    reveal_strlit("LAMBDABENCH_KMS_KEY_ID");
    reveal_strlit("LAMBDABENCH_OBJECT_KEY");
    reveal_strlit("LAMBDABENCH_ORDER_PK");
    reveal_strlit("LAMBDABENCH_RECEIPT_KEY");
    reveal_strlit("RUST_LOG");
}

proof fn lemma_var_push(vars: Seq<(Seq<char>, Seq<char>)>, key: Seq<char>, value: Seq<char>, k: Seq<char>)
    ensures
        var(vars.push((key, value)), k) == (if k == key {
            Some(value)
        } else {
            var(vars, k)
        }),
{
    assert(vars.push((key, value)).drop_last() =~= vars);
}

/// The variables of a scenario's tables and buckets, one lookup.
proof fn lemma_resource_var(cell: Cell, account_id: Seq<char>, k: Seq<char>)
    ensures
        var(resource_vars(cell, account_id), k) == (if k == "LAMBDABENCH_TABLE"@ && (cell.scenario
            == Scenario::OneClient || cell.scenario == Scenario::ThreeClient || cell.scenario
            == Scenario::SmithyFull) {
            Some("lambdabench-table"@)
        } else if k == "LAMBDABENCH_KEY"@ && (cell.scenario == Scenario::OneClient || cell.scenario
            == Scenario::ThreeClient || cell.scenario == Scenario::SmithyFull) {
            Some("lambdabench-item"@)
        } else if k == "LAMBDABENCH_BUCKET"@ && (cell.scenario == Scenario::ThreeClient
            || cell.scenario == Scenario::SmithyFull || cell.scenario == Scenario::LetterCount
            || cell.scenario == Scenario::Batch) {
            Some("lambdabench"@ + "-"@ + "eu-central-1"@ + "-"@ + account_id)
        } else if k == "LAMBDABENCH_LETTERCOUNT_KEY"@ && cell.scenario == Scenario::LetterCount {
            Some("lambdabench-lettercount.json"@)
        } else if k == "LAMBDABENCH_BATCH_KEY"@ && cell.scenario == Scenario::Batch {
            Some("lambdabench-batch.json"@)
        } else {
            None
        }),
{
    lemma_variable_names();
    let none = Seq::<(Seq<char>, Seq<char>)>::empty();
    assert(var(none, k) is None);
    let one = none.push(("LAMBDABENCH_TABLE"@, TABLE_NAME@));
    let two = one.push(("LAMBDABENCH_KEY"@, SEED_KEY@));
    assert(two =~= seq![("LAMBDABENCH_TABLE"@, TABLE_NAME@), ("LAMBDABENCH_KEY"@, SEED_KEY@)]);
    lemma_var_push(none, "LAMBDABENCH_TABLE"@, TABLE_NAME@, k);
    lemma_var_push(one, "LAMBDABENCH_KEY"@, SEED_KEY@, k);
    let bucket = bucket_of(account_id);
    lemma_var_push(none, "LAMBDABENCH_BUCKET"@, bucket, k);
    lemma_var_push(two, "LAMBDABENCH_BUCKET"@, bucket, k);
    let with_bucket = none.push(("LAMBDABENCH_BUCKET"@, bucket));
    lemma_var_push(
        with_bucket,
        "LAMBDABENCH_LETTERCOUNT_KEY"@,
        "lambdabench-lettercount.json"@,
        k,
    );
    lemma_var_push(with_bucket, "LAMBDABENCH_BATCH_KEY"@, "lambdabench-batch.json"@, k);
}

/// Looks one variable up in what follows the tables and buckets.
proof fn lemma_kms_var(vars: Seq<(Seq<char>, Seq<char>)>, cell: Cell, id: Seq<char>, k: Seq<char>)
    ensures
        var(vars + kms_vars(cell, id), k) == (if k == "LAMBDABENCH_KMS_KEY_ID"@ {
            Some(id)
        } else if k == "LAMBDABENCH_OBJECT_KEY"@ {
            Some("lambdabench-object"@)
        } else if k == "LAMBDABENCH_ORDER_PK"@ {
            Some("lambdabench-order"@ + "-"@ + cell.full_name())
        } else if k == "LAMBDABENCH_RECEIPT_KEY"@ {
            Some(cell.full_name() + "/"@ + "lambdabench-receipt"@)
        } else {
            var(vars, k)
        }),
{
    lemma_variable_names();
    let all = kms_vars(cell, id);
    let a = vars.push(all[0]);
    let b = a.push(all[1]);
    let c = b.push(all[2]);
    let d = c.push(all[3]);
    assert(vars + all =~= d);
    lemma_var_push(vars, all[0].0, all[0].1, k);
    lemma_var_push(a, all[1].0, all[1].1, k);
    lemma_var_push(b, all[2].0, all[2].1, k);
    lemma_var_push(c, all[3].0, all[3].1, k);
}

/// An environment is refused only where the scenario uses the KMS key and the key is
/// not known. Otherwise every scenario gets the variables that it reads, and no
/// others: the table and its key for the three that read the table; the bucket, named
/// by region and account, for the four that use it; the object of its own for each of
/// the two that read one; the KMS key, the object, and an order and a receipt of the
/// function's own for the two that use the KMS key; and quiet logging for all.
pub proof fn law_every_scenario_gets_what_it_reads(
    cell: Cell,
    account_id: Seq<char>,
    kms_key_id: Option<Seq<char>>,
)
    ensures
        match environment_of(cell, account_id, kms_key_id) {
            Err(m) => {
                &&& cell.scenario == Scenario::ThreeClient || cell.scenario == Scenario::SmithyFull
                &&& kms_key_id is None
                &&& has_text(m, cell.full_name())
            },
            Ok(vars) => {
                let table = cell.scenario == Scenario::OneClient || cell.scenario
                    == Scenario::ThreeClient || cell.scenario == Scenario::SmithyFull;
                let kms = cell.scenario == Scenario::ThreeClient || cell.scenario
                    == Scenario::SmithyFull;
                &&& kms ==> kms_key_id is Some
                &&& var(vars, "LAMBDABENCH_TABLE"@) == (if table {
                    Some("lambdabench-table"@)
                } else {
                    None
                })
                &&& var(vars, "LAMBDABENCH_KEY"@) == (if table {
                    Some("lambdabench-item"@)
                } else {
                    None
                })
                &&& var(vars, "LAMBDABENCH_BUCKET"@) == (if kms || cell.scenario
                    == Scenario::LetterCount || cell.scenario == Scenario::Batch {
                    Some("lambdabench"@ + "-"@ + "eu-central-1"@ + "-"@ + account_id)
                } else {
                    None
                })
                &&& var(vars, "LAMBDABENCH_LETTERCOUNT_KEY"@) == (if cell.scenario
                    == Scenario::LetterCount {
                    Some("lambdabench-lettercount.json"@)
                } else {
                    None
                })
                &&& var(vars, "LAMBDABENCH_BATCH_KEY"@) == (if cell.scenario == Scenario::Batch {
                    Some("lambdabench-batch.json"@)
                } else {
                    None
                })
                &&& var(vars, "LAMBDABENCH_KMS_KEY_ID"@) == (if kms {
                    kms_key_id
                } else {
                    None
                })
                &&& var(vars, "LAMBDABENCH_OBJECT_KEY"@) == (if kms {
                    Some("lambdabench-object"@)
                } else {
                    None
                })
                &&& var(vars, "LAMBDABENCH_ORDER_PK"@) == (if kms {
                    Some("lambdabench-order"@ + "-"@ + cell.full_name())
                } else {
                    None
                })
                &&& var(vars, "LAMBDABENCH_RECEIPT_KEY"@) == (if kms {
                    Some(cell.full_name() + "/"@ + "lambdabench-receipt"@)
                } else {
                    None
                })
                &&& var(vars, "RUST_LOG"@) == Some("error"@)
            },
        },
{
    lemma_variable_names();
    let plain = resource_vars(cell, account_id);
    let names = seq![
        "LAMBDABENCH_TABLE"@,
        "LAMBDABENCH_KEY"@,
        "LAMBDABENCH_BUCKET"@,
        "LAMBDABENCH_LETTERCOUNT_KEY"@,
        "LAMBDABENCH_BATCH_KEY"@,
        "LAMBDABENCH_KMS_KEY_ID"@,
        "LAMBDABENCH_OBJECT_KEY"@,
        "LAMBDABENCH_ORDER_PK"@,
        "LAMBDABENCH_RECEIPT_KEY"@,
        "RUST_LOG"@,
    ];
    match environment_of(cell, account_id, kms_key_id) {
        Err(m) => {
            let a = "KMS key id not set while wiring "@;
            let z = " (a KMS-using scenario); ensure_kms_key must run before building this function's environment"@;
            lemma_holds_middle(a, cell.full_name(), z);
        },
        Ok(vars) => {
            let kms = cell.scenario == Scenario::ThreeClient || cell.scenario
                == Scenario::SmithyFull;
            let before = if kms {
                plain + kms_vars(cell, kms_key_id->0)
            } else {
                plain
            };
            assert(vars == before.push(("RUST_LOG"@, "error"@)));
            assert forall|i: int| 0 <= i < 10 implies var(vars, #[trigger] names[i]) == (if i == 9 {
                Some("error"@)
            } else {
                var(before, names[i])
            }) by {
                lemma_var_push(before, "RUST_LOG"@, "error"@, names[i]);
            }
            assert forall|i: int| 0 <= i < 10 implies var(before, #[trigger] names[i]) == (if kms && i
                >= 5 && i < 9 {
                Some(
                    seq![
                        kms_key_id->0,
                        "lambdabench-object"@,
                        "lambdabench-order"@ + "-"@ + cell.full_name(),
                        cell.full_name() + "/"@ + "lambdabench-receipt"@,
                    ][i - 5],
                )
            } else {
                var(plain, names[i])
            }) by {
                if kms {
                    lemma_kms_var(plain, cell, kms_key_id->0, names[i]);
                }
            }
            lemma_resource_var(cell, account_id, names[0]);
            lemma_resource_var(cell, account_id, names[1]);
            lemma_resource_var(cell, account_id, names[2]);
            lemma_resource_var(cell, account_id, names[3]);
            lemma_resource_var(cell, account_id, names[4]);
            lemma_resource_var(cell, account_id, names[5]);
            lemma_resource_var(cell, account_id, names[6]);
            lemma_resource_var(cell, account_id, names[7]);
            lemma_resource_var(cell, account_id, names[8]);
        },
    }
}

/// Only the two scenarios behind an HTTP front are sent an HTTP event, in the form that
/// their language's adapter reads; `authz` is sent its token, white space round it taken
/// off; every other scenario is sent an empty object.
pub proof fn law_what_each_scenario_is_sent(cell: Cell, token: Seq<char>)
    ensures
        payload_of(cell, token) == (match (cell.scenario, cell.lang) {
            (Scenario::Smithy, Lang::Java) => JAVA_SMITHY_EVENT@,
            (Scenario::Smithy, _) => SMITHY_EVENT@,
            (Scenario::SmithyFull, Lang::Java) => JAVA_SMITHYFULL_EVENT@,
            (Scenario::SmithyFull, _) => SMITHYFULL_EVENT@,
            (Scenario::Authz, _) => "{\"token\":\""@ + trimmed(token) + "\"}"@,
            (Scenario::Hello, _) => "{}"@,
            (Scenario::OneClient, _) => "{}"@,
            (Scenario::ThreeClient, _) => "{}"@,
            (Scenario::LetterCount, _) => "{}"@,
            (Scenario::Batch, _) => "{}"@,
            (Scenario::Cache, _) => "{}"@,
        }),
{
}

/// An update has landed when the function is active, its update is told to be
/// successful, and it shows another revision than before. A creation has landed when
/// the function is active and its update is successful or not told.
pub proof fn law_when_a_function_is_ready(prev: Seq<char>, seen: FunctionSeen)
    ensures
        is_ready(Some(prev), seen) <==> seen.state == FunctionState::Active && seen.update
            == UpdateStatus::Successful && (seen.revision is Some ==> seen.revision->0@ != prev),
        is_ready(None, seen) <==> seen.state == FunctionState::Active && (seen.update
            == UpdateStatus::Successful || seen.update == UpdateStatus::Missing),
{
}

/// A present function is never created again, and gets its code before its
/// configuration; an absent one is created once, with its environment built before,
/// and waited for.
pub proof fn law_how_a_function_is_brought_up()
    ensures
        steps_for(true).len() == 7,
        steps_for(true)[0] == DeployStep::ReadRevision,
        steps_for(true)[1] == DeployStep::UpdateCode,
        steps_for(true)[2] == DeployStep::WaitUpdated,
        steps_for(true)[3] == DeployStep::ReadRevision,
        steps_for(true)[4] == DeployStep::BuildEnvironment,
        steps_for(true)[5] == DeployStep::UpdateConfig,
        steps_for(true)[6] == DeployStep::WaitUpdated,
        steps_for(false).len() == 3,
        steps_for(false)[0] == DeployStep::BuildEnvironment,
        steps_for(false)[1] == DeployStep::Create,
        steps_for(false)[2] == DeployStep::WaitActive,
{
}

/// The failure of the function itself is named where the tail is missing too, and then
/// the status; a plain missing tail names neither.
pub proof fn law_what_a_missing_tail_tells(
    name: Seq<char>,
    status_code: i32,
    function_error: Option<Seq<char>>,
)
    ensures
        has_text(no_tail_message(name, status_code, function_error), name),
        has_text(no_tail_message(name, status_code, function_error), "LogResult"@),
        function_error is Some ==> has_text(
            no_tail_message(name, status_code, function_error),
            function_error->0,
        ),
        function_error is Some || status_code != 200 ==> has_text(
            no_tail_message(name, status_code, function_error),
            decimal_int(status_code as int),
        ),
{
    let m = no_tail_message(name, status_code, function_error);
    let status = decimal_int(status_code as int);
    let head = "invoke of "@;
    reveal_strlit("LogResult");
    match function_error {
        Some(err) => {
            let tail = ") and returned no LogResult"@;
            reveal_strlit(") and returned no LogResult");
            lemma_holds_middle(
                head,
                name,
                " reported FunctionError="@ + err + " (status "@ + status + tail,
            );
            assert(m =~= head + name + (" reported FunctionError="@ + err + " (status "@ + status
                + tail));
            lemma_holds_middle(
                head + name + " reported FunctionError="@,
                err,
                " (status "@ + status + tail,
            );
            assert(m =~= head + name + " reported FunctionError="@ + err + (" (status "@ + status
                + tail));
            let before = head + name + " reported FunctionError="@ + err + " (status "@;
            lemma_holds_middle(before, status, tail);
            assert(tail =~= ") and returned no "@ + "LogResult"@ + Seq::<char>::empty()) by {
                reveal_strlit(") and returned no ");
            }
            lemma_holds_middle(
                before + status + ") and returned no "@,
                "LogResult"@,
                Seq::<char>::empty(),
            );
            assert(m =~= before + status + ") and returned no "@ + "LogResult"@
                + Seq::<char>::empty());
        },
        None => {
            if status_code != 200 {
                let tail = " (expected 200) and no LogResult"@;
                reveal_strlit(" (expected 200) and no LogResult");
                reveal_strlit(" (expected 200) and no ");
                let before = head + name + " returned status "@;
                lemma_holds_middle(head, name, " returned status "@ + status + tail);
                assert(m =~= head + name + (" returned status "@ + status + tail));
                lemma_holds_middle(before, status, tail);
                assert(tail =~= " (expected 200) and no "@ + "LogResult"@);
                lemma_holds_middle(
                    before + status + " (expected 200) and no "@,
                    "LogResult"@,
                    Seq::<char>::empty(),
                );
                assert(m =~= before + status + " (expected 200) and no "@ + "LogResult"@
                    + Seq::<char>::empty());
            } else {
                let tail = " returned no LogResult (LogType=Tail expected)"@;
                reveal_strlit(" returned no LogResult (LogType=Tail expected)");
                reveal_strlit(" returned no ");
                reveal_strlit(" (LogType=Tail expected)");
                lemma_holds_middle(head, name, tail);
                assert(tail =~= " returned no "@ + "LogResult"@ + " (LogType=Tail expected)"@);
                lemma_holds_middle(
                    head + name + " returned no "@,
                    "LogResult"@,
                    " (LogType=Tail expected)"@,
                );
                assert(m =~= head + name + " returned no "@ + "LogResult"@
                    + " (LogType=Tail expected)"@);
            }
        },
    }
}

/// No two functions stage their code under one key.
pub proof fn law_staged_code_is_the_functions_own(a: Seq<char>, b: Seq<char>)
    ensures
        has_prefix(staged_key(a), "lambda-code/"@),
        staged_key(a) == staged_key(b) ==> a == b,
        version_text(a, b) == "version "@ + a + ":"@ + b,
{
    let n = "lambda-code/"@.len() as int;
    let z = ".zip"@.len() as int;
    assert(staged_key(a).take(n) =~= "lambda-code/"@);
    if staged_key(a) == staged_key(b) {
        let full = staged_key(a).len() as int;
        assert(staged_key(a).subrange(n, full - z) =~= a);
        assert(staged_key(b).subrange(n, full - z) =~= b);
    }
}

} // verus!
