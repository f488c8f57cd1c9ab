//! What deploying, checking and tearing down are for: sizes that belong to the code
//! that is deployed, and failures that are all told.
use crate::cell::Cell;
use crate::config::{PREFIX, REGION, TABLE_NAME};
use crate::deploy::{
    artifact_at, entry_at, is_built, sizes_of, unbuilt_message, undeployable_message,
    unsized_message, Artifact,
};
use crate::lambda::bucket_of;
use crate::plan::{lacking, missing_message, progress_text, PREREQUISITES};
use crate::provision::{
    described, is_creation_tag, is_our_alias, registry_of, role_policy_text, AliasEntry,
};
use crate::record::ArtifactSizes;
use crate::run_rules::ends_with;
use crate::teardown::{
    all_complaints, complaints, incomplete_message, resource_complaints, successes, RESOURCE_LABELS,
};
use crate::text::{decimal, has_prefix, has_text, joined, occurs_at};
use crate::text_lemmas::lemma_holds_middle;
use vstd::prelude::*;
use vstd::string::*;

verus! {

/// The place of an artifact is that of the first with the label, where one has it.
pub proof fn law_first_artifact_with_the_label(artifacts: Seq<Artifact>, label: Seq<char>)
    ensures
        0 <= artifact_at(artifacts, label) <= artifacts.len(),
        artifact_at(artifacts, label) < artifacts.len() ==> artifacts[artifact_at(
            artifacts,
            label,
        )].key.label_text() == label,
        forall|i: int|
            0 <= i < artifact_at(artifacts, label) ==> (#[trigger] artifacts[i]).key.label_text()
                != label,
    decreases artifacts.len(),
{
    if artifacts.len() > 0 && artifacts[0].key.label_text() != label {
        let rest = artifacts.drop_first();
        law_first_artifact_with_the_label(rest, label);
        let at = artifact_at(rest, label);
        assert forall|i: int| 0 <= i < at + 1 implies (#[trigger] artifacts[i]).key.label_text()
            != label by {
            if i > 0 {
                assert(rest[i - 1] == artifacts[i]);
            }
        }
        if at < rest.len() {
            assert(rest[at] == artifacts[at + 1]);
        }
    }
}

/// A cell's artifact is built exactly where one with the label of what it deploys is;
/// the sizes recorded for the cell are then that artifact's own, zipped and unzipped.
pub proof fn law_recorded_sizes_are_the_artifacts_own(
    artifacts: Seq<Artifact>,
    cell: Cell,
    i: int,
)
    requires
        0 <= i <= artifacts.len(),
        forall|k: int|
            0 <= k < i ==> (#[trigger] artifacts[k]).key.label_text() != cell.key().label_text(),
        i < artifacts.len() ==> artifacts[i].key.label_text() == cell.key().label_text(),
    ensures
        is_built(artifacts, cell) <==> i < artifacts.len(),
        i < artifacts.len() ==> sizes_of(artifacts, cell).zip == artifacts[i].zip_size_bytes,
        i < artifacts.len() ==> sizes_of(artifacts, cell).unzipped
            == artifacts[i].unzipped_size_bytes,
        artifact_at(artifacts, cell.key().label_text()) == i,
{
    let label = cell.key().label_text();
    law_first_artifact_with_the_label(artifacts, label);
    let at = artifact_at(artifacts, label);
    if at < i {
        assert(artifacts[at].key.label_text() == label);
    }
    if i < at {
        assert(artifacts[i].key.label_text() != label);
    }
}

/// An entry of sizes is found where one has the name, and then the first such.
pub proof fn law_first_entry_with_the_name(sizes: Seq<(String, ArtifactSizes)>, name: Seq<char>)
    ensures
        0 <= entry_at(sizes, name) <= sizes.len(),
        entry_at(sizes, name) < sizes.len() ==> sizes[entry_at(sizes, name)].0@ == name,
        forall|i: int| 0 <= i < entry_at(sizes, name) ==> (#[trigger] sizes[i]).0@ != name,
    decreases sizes.len(),
{
    if sizes.len() > 0 && sizes[0].0@ != name {
        let rest = sizes.drop_first();
        law_first_entry_with_the_name(rest, name);
        let at = entry_at(rest, name);
        assert forall|i: int| 0 <= i < at + 1 implies (#[trigger] sizes[i]).0@ != name by {
            if i > 0 {
                assert(rest[i - 1] == sizes[i]);
            }
        }
        if at < rest.len() {
            assert(rest[at] == sizes[at + 1]);
        }
    }
}

/// The complaints about a cell name what is missing: its artifact, and its function
/// where sizes are.
pub proof fn law_complaints_name_the_cell(cell: Cell)
    ensures
        has_text(unbuilt_message(cell), cell.key().label_text()),
        has_text(unbuilt_message(cell), cell.full_name()),
        has_text(unsized_message(cell), cell.full_name()),
        has_text(undeployable_message(cell), cell.key().label_text()),
{
    let label = cell.key().label_text();
    let name = cell.full_name();
    let a = "no built artifact "@;
    let b = " for cell "@;
    let z = " (cannot record real sizes)"@;
    lemma_holds_middle(a, label, b + name + z);
    assert(unbuilt_message(cell) =~= a + label + (b + name + z));
    lemma_holds_middle(a + label + b, name, z);
    lemma_holds_middle("no artifact sizes for cell "@, name, " (size map and run cells disagree)"@);
    lemma_holds_middle("no built artifact for "@, label, " (run `build` first)"@);
}

/// The attempts that succeeded are counted one by one.
pub proof fn law_successes_are_counted(results: Seq<Result<(), String>>, n: int)
    requires
        0 <= n < results.len(),
    ensures
        successes(results, 0) == 0,
        results[n] is Ok ==> successes(results, n + 1) == successes(results, n) + 1,
        results[n] is Err ==> successes(results, n + 1) == successes(results, n),
{
}

/// A failed deletion is told under its label, with its reason; only failures are told.
pub proof fn law_failed_deletions_are_told(
    label: Seq<char>,
    results: Seq<Result<(), String>>,
    n: int,
    i: int,
)
    requires
        0 <= i < n <= results.len(),
    ensures
        results[i] is Err ==> complaints(label, results, n).contains(
            label + ": "@ + results[i]->Err_0@,
        ),
        forall|k: int|
            0 <= k < complaints(label, results, n).len() ==> exists|j: int|
                0 <= j < n && results[j] is Err && #[trigger] complaints(label, results, n)[k]
                    == label + ": "@ + (#[trigger] results[j])->Err_0@,
    decreases n,
{
    let all = complaints(label, results, n);
    let before = complaints(label, results, n - 1);
    lemma_told_are_failures(label, results, n);
    if i < n - 1 {
        law_failed_deletions_are_told(label, results, n - 1, i);
        if results[i] is Err {
            let t = label + ": "@ + results[i]->Err_0@;
            let k = choose|k: int| 0 <= k < before.len() && before[k] == t;
            assert(all[k] == t);
        }
    } else if results[i] is Err {
        assert(all[all.len() - 1] == label + ": "@ + results[i]->Err_0@);
    }
}

proof fn lemma_told_are_failures(label: Seq<char>, results: Seq<Result<(), String>>, n: int)
    requires
        0 <= n <= results.len(),
    ensures
        forall|k: int|
            0 <= k < complaints(label, results, n).len() ==> exists|j: int|
                0 <= j < n && results[j] is Err && #[trigger] complaints(label, results, n)[k]
                    == label + ": "@ + (#[trigger] results[j])->Err_0@,
    decreases n,
{
    if n > 0 {
        lemma_told_are_failures(label, results, n - 1);
        let all = complaints(label, results, n);
        let before = complaints(label, results, n - 1);
        assert forall|k: int| 0 <= k < all.len() implies exists|j: int|
            0 <= j < n && results[j] is Err && #[trigger] all[k] == label + ": "@ + (
            #[trigger] results[j])->Err_0@ by {
            if k < before.len() {
                assert(all[k] == before[k]);
                let j = choose|j: int|
                    0 <= j < n - 1 && results[j] is Err && before[k] == label + ": "@ + (
                    #[trigger] results[j])->Err_0@;
                assert(results[j] is Err);
            } else {
                assert(results[n - 1] is Err);
            }
        }
    }
}

/// Each of the five resources is told under its own name where it could not be deleted.
pub proof fn law_resources_are_told_by_name(results: Seq<Result<(), String>>, i: int)
    requires
        results.len() == 5,
        0 <= i < 5,
        results[i] is Err,
    ensures
        resource_complaints(results, 5).contains(
            (if i == 0 {
                "IAM role"@
            } else if i == 1 {
                "DynamoDB table"@
            } else if i == 2 {
                "S3 bucket + object"@
            } else if i == 3 {
                "KMS key (scheduled, 7-day window) + alias"@
            } else {
                "ECR repository"@
            }) + ": "@ + results[i]->Err_0@,
        ),
{
    lemma_resource_told(results, 5, i);
}

proof fn lemma_resource_told(results: Seq<Result<(), String>>, n: int, i: int)
    requires
        results.len() == 5,
        0 <= i < n <= 5,
        results[i] is Err,
    ensures
        resource_complaints(results, n).contains(
            RESOURCE_LABELS@[i]@ + ": "@ + results[i]->Err_0@,
        ),
    decreases n,
{
    let all = resource_complaints(results, n);
    let t = RESOURCE_LABELS@[i]@ + ": "@ + results[i]->Err_0@;
    if i < n - 1 {
        lemma_resource_told(results, n - 1, i);
        let before = resource_complaints(results, n - 1);
        let k = choose|k: int| 0 <= k < before.len() && before[k] == t;
        assert(all[k] == t);
    } else {
        assert(all[all.len() - 1] == t);
    }
}

/// A teardown tells of its functions first, then of its log groups, then of its other
/// resources, each under its own label, and says how many failed.
pub proof fn law_a_teardown_tells_everything(
    functions: Seq<Result<(), String>>,
    log_groups: Seq<Result<(), String>>,
    resources: Seq<Result<(), String>>,
    i: int,
)
    requires
        resources.len() == 5,
        0 <= i,
    ensures
        i < functions.len() && functions[i] is Err ==> all_complaints(
            functions,
            log_groups,
            resources,
        ).contains("function delete"@ + ": "@ + functions[i]->Err_0@),
        i < log_groups.len() && log_groups[i] is Err ==> all_complaints(
            functions,
            log_groups,
            resources,
        ).contains("log group delete"@ + ": "@ + log_groups[i]->Err_0@),
        all_complaints(functions, log_groups, resources).len() == complaints(
            "function delete"@,
            functions,
            functions.len() as int,
        ).len() + complaints("log group delete"@, log_groups, log_groups.len() as int).len()
            + resource_complaints(resources, 5).len(),
        forall|t: Seq<char>| #[trigger]
            resource_complaints(resources, 5).contains(t) ==> all_complaints(
                functions,
                log_groups,
                resources,
            ).contains(t),
{
    let a = complaints("function delete"@, functions, functions.len() as int);
    let b = complaints("log group delete"@, log_groups, log_groups.len() as int);
    let c = resource_complaints(resources, 5);
    let all = all_complaints(functions, log_groups, resources);
    if i < functions.len() && functions[i] is Err {
        law_failed_deletions_are_told("function delete"@, functions, functions.len() as int, i);
        let t = "function delete"@ + ": "@ + functions[i]->Err_0@;
        let k = choose|k: int| 0 <= k < a.len() && a[k] == t;
        assert(all[k] == t);
    }
    if i < log_groups.len() && log_groups[i] is Err {
        law_failed_deletions_are_told("log group delete"@, log_groups, log_groups.len() as int, i);
        let t = "log group delete"@ + ": "@ + log_groups[i]->Err_0@;
        let k = choose|k: int| 0 <= k < b.len() && b[k] == t;
        assert(all[a.len() + k] == t);
    }
    assert forall|t: Seq<char>| #[trigger] c.contains(t) implies all.contains(t) by {
        let k = choose|k: int| 0 <= k < c.len() && c[k] == t;
        assert(all[a.len() + b.len() + k] == t);
    }
}

/// What a list of failures is told as: how many there are, and each of them.
pub proof fn law_how_failures_are_listed(failures: Seq<Seq<char>>)
    ensures
        incomplete_message(failures) == "teardown incomplete: "@ + decimal(failures.len())
            + " resource(s) failed to delete:\n  - "@ + joined(failures, "\n  - "@),
        missing_message(failures) == "--skip-deploy: "@ + decimal(failures.len())
            + " selected function(s) are not deployed: "@ + joined(failures, ", "@)
            + ". Deploy them (drop --skip-deploy) or adjust the run filters."@,
{
}

/// The prerequisites that were not found are told, and no others.
pub proof fn law_missing_prerequisites_are_told(found: Seq<bool>, i: int)
    requires
        found.len() == 10,
        0 <= i < 10,
    ensures
        lacking(found, 10).contains(
            "\""@ + (if i == 0 {
                "cargo"@
            } else if i == 1 {
                "cargo-lambda"@
            } else if i == 2 {
                "node"@
            } else if i == 3 {
                "npm"@
            } else if i == 4 {
                "java"@
            } else if i == 5 {
                "python"@
            } else if i == 6 {
                "pip"@
            } else if i == 7 {
                "go"@
            } else if i == 8 {
                "crane"@
            } else {
                "aws-credentials"@
            }) + "\""@,
        ) || found[i],
        lacking(found, 0).len() == 0,
        found[i] ==> lacking(found, i + 1) == lacking(found, i),
        !found[i] ==> lacking(found, i + 1).len() == lacking(found, i).len() + 1,
{
    if !found[i] {
        lemma_prerequisite_told(found, 10, i);
    }
}

proof fn lemma_prerequisite_told(found: Seq<bool>, n: int, i: int)
    requires
        found.len() == 10,
        0 <= i < n <= 10,
        !found[i],
    ensures
        lacking(found, n).contains("\""@ + PREREQUISITES@[i]@ + "\""@),
    decreases n,
{
    let all = lacking(found, n);
    let t = "\""@ + PREREQUISITES@[i]@ + "\""@;
    if i < n - 1 {
        lemma_prerequisite_told(found, n - 1, i);
        let before = lacking(found, n - 1);
        let k = choose|k: int| 0 <= k < before.len() && before[k] == t;
        assert(all[k] == t);
    } else {
        assert(all[all.len() - 1] == t);
    }
}

/// The line about a cell tells its place among all, its name, and where it failed why.
pub proof fn law_progress_tells_place_and_outcome(
    time: Seq<char>,
    n: nat,
    total: nat,
    name: Seq<char>,
    failure: Option<Seq<char>>,
)
    ensures
        ({
            let t = progress_text(time, n, total, name, failure);
            let head = "["@ + time + "] ["@ + decimal(n) + "/"@ + decimal(total) + "] "@;
            &&& has_prefix(t, head)
            &&& failure is None ==> t == head + "done "@ + name
            &&& failure is Some ==> has_prefix(t, head + "FAILED "@ + name) && ends_with(
                t,
                failure->0,
            )
        }),
{
    let t = progress_text(time, n, total, name, failure);
    let head = "["@ + time + "] ["@ + decimal(n) + "/"@ + decimal(total) + "] "@;
    assert(t.take(head.len() as int) =~= head);
    if failure is Some {
        let long = head + "FAILED "@ + name;
        assert(t.take(long.len() as int) =~= long);
        let e = failure->0;
        assert(t.skip(t.len() - e.len()) =~= e);
    }
}

/// An alias or a tag is ours exactly where it is the one set when the key was made.
pub proof fn law_which_key_is_ours(a: AliasEntry, tag: (String, String))
    ensures
        is_our_alias(a) <==> a.name is Some && a.name->0@ == "alias/lambdabench-key"@ && a.key_id
            is Some,
        is_creation_tag(tag) <==> tag.0@ == "lambdabench-managed-kms-key"@ && tag.1@ == "true"@,
{
}

/// The registry is the account's own, in the one region.
pub proof fn law_registry_of_the_account(account_id: Seq<char>, tag: Seq<char>)
    ensures
        registry_of(account_id) == account_id + ".dkr.ecr."@ + "eu-central-1"@ + ".amazonaws.com"@,
        described(tag) == "DescribeImages for "@ + "lambdabench-synthdl"@ + ":"@ + tag,
{
}

/// The role may read and write the account's own table, encrypt with the account's own
/// keys, and read and write objects of the account's own bucket.
pub proof fn law_role_reaches_only_its_account(account_id: Seq<char>)
    ensures
        has_text(
            role_policy_text(account_id),
            "eu-central-1"@ + ":"@ + account_id + ":table/"@ + "lambdabench-table"@,
        ),
        has_text(
            role_policy_text(account_id),
            "lambdabench"@ + "-"@ + "eu-central-1"@ + "-"@ + account_id + "/*\" }\n  ]\n}"@,
        ),
{
    let table = "eu-central-1"@ + ":"@ + account_id + ":table/"@ + "lambdabench-table"@;
    let bucket = bucket_of(account_id) + "/*\" }\n  ]\n}"@;
    let p0 =
        "{\n  \"Version\": \"2012-10-17\",\n  \"Statement\": [\n    { \"Effect\": \"Allow\", \"Action\": [\"dynamodb:GetItem\", \"dynamodb:PutItem\"], \"Resource\": \"arn:aws:dynamodb:"@;
    let p1 = p0 + REGION@;
    let p2 = p1 + ":"@;
    let p3 = p2 + account_id;
    let p4 = p3 + ":table/"@;
    let p5 = p4 + TABLE_NAME@;
    let p6 = p5 + "\" },\n    { \"Effect\": \"Allow\",\n       \"Action\": [\"kms:Encrypt\"],\n       \"Resource\": \"arn:aws:kms:"@;
    let p7 = p6 + REGION@;
    let p8 = p7 + ":"@;
    let p9 = p8 + account_id;
    let p10 = p9 + ":key/*\",\n       \"Condition\": { \"ForAnyValue:StringLike\": { \"kms:ResourceAliases\": \"alias/"@;
    let p11 = p10 + PREFIX@;
    let p12 = p11 + "-*\" } } },\n    { \"Effect\": \"Allow\", \"Action\": [\"s3:GetObject\", \"s3:PutObject\"], \"Resource\": \"arn:aws:s3:::"@;
    let p13 = p12 + bucket_of(account_id);
    let p14 = p13 + "/*\" }\n  ]\n}"@;
    assert(role_policy_text(account_id) == p14);
    assert(p5 =~= p0 + table + Seq::<char>::empty());
    lemma_holds_middle(p0, table, Seq::empty());
    lemma_holds_longer(p5, table, "\" },\n    { \"Effect\": \"Allow\",\n       \"Action\": [\"kms:Encrypt\"],\n       \"Resource\": \"arn:aws:kms:"@);
    lemma_holds_longer(p6, table, REGION@);
    lemma_holds_longer(p7, table, ":"@);
    lemma_holds_longer(p8, table, account_id);
    lemma_holds_longer(p9, table, ":key/*\",\n       \"Condition\": { \"ForAnyValue:StringLike\": { \"kms:ResourceAliases\": \"alias/"@);
    lemma_holds_longer(p10, table, PREFIX@);
    lemma_holds_longer(p11, table, "-*\" } } },\n    { \"Effect\": \"Allow\", \"Action\": [\"s3:GetObject\", \"s3:PutObject\"], \"Resource\": \"arn:aws:s3:::"@);
    lemma_holds_longer(p12, table, bucket_of(account_id));
    lemma_holds_longer(p13, table, "/*\" }\n  ]\n}"@);
    assert(p14 =~= p12 + bucket + Seq::<char>::empty());
    lemma_holds_middle(p12, bucket, Seq::empty());
}

/// A longer text holds what a shorter one does.
proof fn lemma_holds_longer(t: Seq<char>, pat: Seq<char>, more: Seq<char>)
    requires
        has_text(t, pat),
    ensures
        has_text(t + more, pat),
{
    let i = choose|i: int| #[trigger] occurs_at(t, pat, i);
    assert((t + more).subrange(i, i + pat.len()) =~= t.subrange(i, i + pat.len()));
    assert(occurs_at(t + more, pat, i));
}

} // verus!
