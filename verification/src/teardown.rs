//! What a teardown reports: deletions are attempted whatever happens to the
//! others, and every failure is told.
use crate::text::{append_decimal, decimal, join, joined, texts};
use vstd::prelude::*;
use vstd::string::*;

verus! {

/// Functions deleted at a time.
pub const TEARDOWN_CONCURRENCY: usize = 8;

/// The resources that are deleted after the functions and their log groups, in
/// order.
pub const RESOURCE_LABELS: [&'static str; 5] = [
    "IAM role",
    "DynamoDB table",
    "S3 bucket + object",
    "KMS key (scheduled, 7-day window) + alias",
    "ECR repository",
];

/// The outcome of deleting a set of things: how many there were, how many were
/// deleted, and what was said of the others.
pub struct DeleteSummary {
    pub total: usize,
    pub deleted: usize,
    pub failures: Vec<String>,
}

/// How many of the first `n` attempts succeeded.
pub open spec fn successes(results: Seq<Result<(), String>>, n: int) -> int
    decreases n,
{
    if n <= 0 {
        0
    } else {
        successes(results, n - 1) + if results[n - 1] is Ok {
            1int
        } else {
            0
        }
    }
}

/// What is said of the failures among the first `n` attempts.
pub open spec fn complaints(
    label: Seq<char>,
    results: Seq<Result<(), String>>,
    n: int,
) -> Seq<Seq<char>>
    decreases n,
{
    if n <= 0 {
        Seq::empty()
    } else {
        match results[n - 1] {
            Ok(_) => complaints(label, results, n - 1),
            Err(e) => complaints(label, results, n - 1).push(label + ": "@ + e@),
        }
    }
}

/// Sums up the attempts to delete a set of things.
pub fn summarize(label: &str, results: &Vec<Result<(), String>>) -> (r: DeleteSummary)
    ensures
        r.total == results@.len(),
        r.deleted == successes(results@, results@.len() as int),
        texts(r.failures@) == complaints(label@, results@, results@.len() as int),
{
    let mut deleted: usize = 0;
    let mut failures: Vec<String> = Vec::new();
    let mut i: usize = 0;
    proof {
        assert(texts(failures@) =~= Seq::<Seq<char>>::empty());
    }
    while i < results.len()
        invariant
            i <= results@.len(),
            deleted <= i,
            deleted == successes(results@, i as int),
            texts(failures@) == complaints(label@, results@, i as int),
        decreases results@.len() - i,
    {
        let ghost before = failures@;
        match &results[i] {
            Ok(_) => {
                deleted = deleted + 1;
            },
            Err(e) => {
                let mut m: String = label.to_owned();
                m.append(": ");
                m.append(e.as_str());
                let ghost text = m@;
                failures.push(m);
                proof {
                    assert(texts(failures@) =~= texts(before).push(text));
                }
            },
        }
        i = i + 1;
    }
    DeleteSummary { total: results.len(), deleted, failures }
}

/// Every attempt is either counted or told.
pub proof fn law_nothing_goes_untold(label: Seq<char>, results: Seq<Result<(), String>>, n: int)
    requires
        0 <= n <= results.len(),
    ensures
        successes(results, n) + complaints(label, results, n).len() == n,
    decreases n,
{
    if n > 0 {
        law_nothing_goes_untold(label, results, n - 1);
    }
}

/// What is said of the resources among the first `n` that could not be deleted.
pub open spec fn resource_complaints(results: Seq<Result<(), String>>, n: int) -> Seq<Seq<char>>
    decreases n,
{
    if n <= 0 {
        Seq::empty()
    } else {
        match results[n - 1] {
            Ok(_) => resource_complaints(results, n - 1),
            Err(e) => resource_complaints(results, n - 1).push(
                RESOURCE_LABELS@[n - 1]@ + ": "@ + e@,
            ),
        }
    }
}

/// Everything that is said of a teardown: of its functions, of its log groups, and
/// of its other resources.
pub open spec fn all_complaints(
    functions: Seq<Result<(), String>>,
    log_groups: Seq<Result<(), String>>,
    resources: Seq<Result<(), String>>,
) -> Seq<Seq<char>> {
    complaints("function delete"@, functions, functions.len() as int) + complaints(
        "log group delete"@,
        log_groups,
        log_groups.len() as int,
    ) + resource_complaints(resources, 5)
}

/// The complaint about an incomplete teardown.
pub open spec fn incomplete_message(failures: Seq<Seq<char>>) -> Seq<char> {
    "teardown incomplete: "@ + decimal(failures.len()) + " resource(s) failed to delete:\n  - "@
        + joined(failures, "\n  - "@)
}

/// Takes the failures of two lists together.
fn append_texts(to: &mut Vec<String>, from: &Vec<String>)
    ensures
        texts(final(to)@) == texts(old(to)@) + texts(from@),
{
    let mut i: usize = 0;
    proof {
        assert(texts(to@) =~= texts(old(to)@) + texts(from@).take(0));
    }
    while i < from.len()
        invariant
            i <= from@.len(),
            texts(to@) == texts(old(to)@) + texts(from@).take(i as int),
        decreases from@.len() - i,
    {
        let ghost before = texts(to@);
        to.push(from[i].clone());
        proof {
            assert(texts(to@) =~= before.push(from@[i as int]@));
            assert(texts(from@).take(i + 1) =~= texts(from@).take(i as int).push(
                from@[i as int]@,
            ));
            assert(texts(to@) =~= texts(old(to)@) + texts(from@).take(i + 1));
        }
        i = i + 1;
    }
    proof {
        assert(texts(from@).take(from@.len() as int) =~= texts(from@));
    }
}

fn resource_failures(resources: &Vec<Result<(), String>>) -> (r: Vec<String>)
    requires
        resources@.len() == 5,
    ensures
        texts(r@) == resource_complaints(resources@, 5),
{
    let labels: [&'static str; 5] = RESOURCE_LABELS;
    let mut failures: Vec<String> = Vec::new();
    let mut i: usize = 0;
    proof {
        assert(texts(failures@) =~= Seq::<Seq<char>>::empty());
    }
    while i < 5
        invariant
            i <= 5,
            resources@.len() == 5,
            labels@ == RESOURCE_LABELS@,
            texts(failures@) == resource_complaints(resources@, i as int),
        decreases 5 - i,
    {
        let ghost before = failures@;
        match &resources[i] {
            Ok(_) => {},
            Err(e) => {
                let mut m: String = labels[i].to_owned();
                m.append(": ");
                m.append(e.as_str());
                let ghost text = m@;
                failures.push(m);
                proof {
                    assert(texts(failures@) =~= texts(before).push(text));
                }
            },
        }
        i = i + 1;
    }
    failures
}

/// Judges a teardown by all its attempts: it is complete exactly where each
/// succeeded, and the complaint tells every failure in order.
pub fn teardown_verdict(
    functions: &Vec<Result<(), String>>,
    log_groups: &Vec<Result<(), String>>,
    resources: &Vec<Result<(), String>>,
) -> (r: Result<(), String>)
    requires
        resources@.len() == 5,
    ensures
        match r {
            Ok(_) => all_complaints(functions@, log_groups@, resources@).len() == 0,
            Err(m) => {
                &&& all_complaints(functions@, log_groups@, resources@).len() > 0
                &&& m@ == incomplete_message(all_complaints(functions@, log_groups@, resources@))
            },
        },
{
    let function_summary: DeleteSummary = summarize("function delete", functions);
    let group_summary: DeleteSummary = summarize("log group delete", log_groups);
    let mut failures: Vec<String> = function_summary.failures;
    append_texts(&mut failures, &group_summary.failures);
    append_texts(&mut failures, &resource_failures(resources));
    proof {
        assert(texts(failures@).len() == failures@.len());
    }
    if failures.len() == 0 {
        return Ok(());
    }
    let mut out: String = "teardown incomplete: ".to_owned();
    append_decimal(&mut out, failures.len() as u128);
    out.append(" resource(s) failed to delete:\n  - ");
    out.append(join(&failures, "\n  - ").as_str());
    Err(out)
}

proof fn lemma_no_complaints(label: Seq<char>, results: Seq<Result<(), String>>, n: int)
    requires
        0 <= n <= results.len(),
    ensures
        complaints(label, results, n).len() == 0 <==> forall|i: int|
            0 <= i < n ==> #[trigger] results[i] is Ok,
    decreases n,
{
    if n > 0 {
        lemma_no_complaints(label, results, n - 1);
        if results[n - 1] is Ok {
        } else {
            assert(!(results[n - 1] is Ok));
        }
    }
}

/// A teardown is complete exactly where every single deletion succeeded.
pub proof fn law_complete_means_everything_deleted(
    functions: Seq<Result<(), String>>,
    log_groups: Seq<Result<(), String>>,
    resources: Seq<Result<(), String>>,
)
    requires
        resources.len() == 5,
    ensures
        all_complaints(functions, log_groups, resources).len() == 0 <==> {
            &&& forall|i: int| 0 <= i < functions.len() ==> #[trigger] functions[i] is Ok
            &&& forall|i: int| 0 <= i < log_groups.len() ==> #[trigger] log_groups[i] is Ok
            &&& forall|i: int| 0 <= i < resources.len() ==> #[trigger] resources[i] is Ok
        },
{
    lemma_no_complaints("function delete"@, functions, functions.len() as int);
    lemma_no_complaints("log group delete"@, log_groups, log_groups.len() as int);
    lemma_no_resource_complaints(resources, 5);
}

proof fn lemma_no_resource_complaints(results: Seq<Result<(), String>>, n: int)
    requires
        0 <= n <= results.len(),
    ensures
        resource_complaints(results, n).len() == 0 <==> forall|i: int|
            0 <= i < n ==> #[trigger] results[i] is Ok,
    decreases n,
{
    if n > 0 {
        lemma_no_resource_complaints(results, n - 1);
        if results[n - 1] is Ok {
        } else {
            assert(!(results[n - 1] is Ok));
        }
    }
}

} // verus!
