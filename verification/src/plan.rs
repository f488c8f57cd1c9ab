//! Planning a run: how many invocations each group of cells takes, and the
//! summary that is kept of the run.
use crate::cell::{ArtifactKey, Cell};
use crate::config::{Lang, Profile, MEMORY_MB, REGION};
use crate::matrix::{
    asks_for, first_seen, in_matrix, in_sweep_order, keys_of, rank, unique_artifacts,
};
use crate::select::{filters, keeps, langs_in, parse_langs, select_cells, RunArgs};
use crate::selection_rules::{
    law_chosen_exactly_when_every_filter_takes_it_in, spelled_in, spells_arch, taken_in, takes_lang,
};
use crate::text::{
    append_decimal, ascending, decimal, join, joined, same_members, same_text, sort_distinct, texts,
    trim, trimmed,
};
use vstd::prelude::*;
use vstd::string::*;

verus! {

/// The cells that share one pair of counts.
#[derive(Debug, Clone, Copy, PartialEq, Eq, Structural)]
pub struct IterationBucket {
    pub cold_cycles: u32,
    pub warm_per_cycle: u32,
    pub functions: usize,
    pub invocations: u64,
}

impl IterationBucket {
    /// The counts that the cells share.
    pub open spec fn counts(self) -> (u32, u32) {
        (self.cold_cycles, self.warm_per_cycle)
    }
}

/// The invocations that a pair of counts takes: each cold cycle is one cold
/// invocation and its warm ones.
pub open spec fn invocations_of(counts: (u32, u32)) -> int {
    counts.0 * (1 + counts.1)
}

/// The invocations that cells take in all.
pub open spec fn planned(cells: Seq<Cell>, profile: Profile) -> int
    decreases cells.len(),
{
    if cells.len() == 0 {
        0
    } else {
        planned(cells.drop_last(), profile) + invocations_of(cells.last().counts(profile))
    }
}

/// How many of the cells have the given counts.
pub open spec fn cells_with(cells: Seq<Cell>, profile: Profile, counts: (u32, u32)) -> int
    decreases cells.len(),
{
    if cells.len() == 0 {
        0
    } else {
        cells_with(cells.drop_last(), profile, counts) + if cells.last().counts(profile) == counts {
            1int
        } else {
            0
        }
    }
}

/// The invocations of buckets in all.
pub open spec fn bucket_sum(buckets: Seq<IterationBucket>) -> int
    decreases buckets.len(),
{
    if buckets.len() == 0 {
        0
    } else {
        bucket_sum(buckets.drop_last()) + buckets.last().invocations
    }
}

/// The functions of buckets in all.
pub open spec fn functions_sum(buckets: Seq<IterationBucket>) -> int
    decreases buckets.len(),
{
    if buckets.len() == 0 {
        0
    } else {
        functions_sum(buckets.drop_last()) + buckets.last().functions
    }
}

/// The order of counts: by cold cycles, then by warm invocations.
pub open spec fn counts_before(a: (u32, u32), b: (u32, u32)) -> bool {
    a.0 < b.0 || (a.0 == b.0 && a.1 < b.1)
}

/// Whether buckets group the cells by their counts: in ascending order, each with
/// the cells that have its counts, at least one, and what they take.
pub open spec fn groups(buckets: Seq<IterationBucket>, cells: Seq<Cell>, profile: Profile) -> bool {
    &&& forall|i: int, j: int|
        0 <= i < j < buckets.len() ==> counts_before(
            (#[trigger] buckets[i]).counts(),
            (#[trigger] buckets[j]).counts(),
        )
    &&& forall|i: int|
        0 <= i < buckets.len() ==> {
            let b = #[trigger] buckets[i];
            &&& b.functions > 0
            &&& b.functions == cells_with(cells, profile, b.counts())
            &&& b.invocations == b.functions * invocations_of(b.counts())
        }
    &&& forall|k: (u32, u32)|
        #[trigger] cells_with(cells, profile, k) > 0 ==> exists|i: int|
            0 <= i < buckets.len() && (#[trigger] buckets[i]).counts() == k
}

proof fn lemma_cells_with_bounds(cells: Seq<Cell>, profile: Profile, k: (u32, u32))
    ensures
        0 <= cells_with(cells, profile, k) <= cells.len(),
        0 <= cells_with(cells, profile, k) * invocations_of(k) <= planned(cells, profile),
    decreases cells.len(),
{
    assert(invocations_of(k) >= 0) by (nonlinear_arith);
    if cells.len() > 0 {
        lemma_cells_with_bounds(cells.drop_last(), profile, k);
        let rest = cells_with(cells.drop_last(), profile, k);
        let c = cells.last().counts(profile);
        assert(invocations_of(c) >= 0) by (nonlinear_arith);
        assert((rest + 1) * invocations_of(k) == rest * invocations_of(k) + invocations_of(k))
            by (nonlinear_arith);
        assert(cells_with(cells, profile, k) * invocations_of(k) >= 0) by (nonlinear_arith)
            requires
                cells_with(cells, profile, k) >= 0,
                invocations_of(k) >= 0,
        ;
    }
}

proof fn lemma_planned_grows(cells: Seq<Cell>, profile: Profile, n: int)
    requires
        0 <= n <= cells.len(),
    ensures
        0 <= planned(cells.take(n), profile) <= planned(cells, profile),
    decreases cells.len(),
{
    if n == cells.len() {
        assert(cells.take(n) =~= cells);
        if n > 0 {
            lemma_planned_grows(cells.drop_last(), profile, n - 1);
            assert(cells.drop_last().take(n - 1) =~= cells.drop_last());
            let c = cells.last().counts(profile);
            assert(invocations_of(c) >= 0) by (nonlinear_arith);
        }
    } else {
        lemma_planned_grows(cells.drop_last(), profile, n);
        assert(cells.drop_last().take(n) =~= cells.take(n));
        let c = cells.last().counts(profile);
        assert(invocations_of(c) >= 0) by (nonlinear_arith);
    }
}

proof fn lemma_sum_update(b: Seq<IterationBucket>, i: int, x: IterationBucket)
    requires
        0 <= i < b.len(),
    ensures
        bucket_sum(b.update(i, x)) == bucket_sum(b) - b[i].invocations + x.invocations,
        functions_sum(b.update(i, x)) == functions_sum(b) - b[i].functions + x.functions,
    decreases b.len(),
{
    if i == b.len() - 1 {
        assert(b.update(i, x).drop_last() =~= b.drop_last());
    } else {
        lemma_sum_update(b.drop_last(), i, x);
        assert(b.update(i, x).drop_last() =~= b.drop_last().update(i, x));
    }
}

proof fn lemma_sum_insert(b: Seq<IterationBucket>, i: int, x: IterationBucket)
    requires
        0 <= i <= b.len(),
    ensures
        bucket_sum(b.insert(i, x)) == bucket_sum(b) + x.invocations,
        functions_sum(b.insert(i, x)) == functions_sum(b) + x.functions,
    decreases b.len(),
{
    if i == b.len() {
        assert(b.insert(i, x).drop_last() =~= b);
    } else {
        lemma_sum_insert(b.drop_last(), i, x);
        assert(b.insert(i, x).drop_last() =~= b.drop_last().insert(i, x));
        assert(b.insert(i, x).last() == b.last());
    }
}

/// Groups cells by the counts that the profile gives them: every cell is in one
/// bucket, and the buckets take what the cells take.
pub fn iteration_buckets(cells: &[Cell], profile: Profile) -> (r: Vec<IterationBucket>)
    requires
        planned(cells@, profile) <= u64::MAX,
    ensures
        groups(r@, cells@, profile),
        bucket_sum(r@) == planned(cells@, profile),
        functions_sum(r@) == cells@.len(),
{
    let mut out: Vec<IterationBucket> = Vec::new();
    let mut n: usize = 0;
    while n < cells.len()
        invariant
            n <= cells@.len(),
            planned(cells@, profile) <= u64::MAX,
            groups(out@, cells@.take(n as int), profile),
            bucket_sum(out@) == planned(cells@.take(n as int), profile),
            functions_sum(out@) == n,
        decreases cells@.len() - n,
    {
        let (cold, warm): (u32, u32) = cells[n].iterations(profile);
        let ghost key = (cold, warm);
        let ghost head = cells@.take(n as int);
        let ghost more = cells@.take(n + 1);
        let ghost before = out@;
        proof {
            assert(more.drop_last() =~= head);
            assert(more.last() == cells@[n as int]);
            lemma_planned_grows(cells@, profile, n + 1);
            lemma_planned_grows(cells@, profile, n as int);
            lemma_cells_with_bounds(head, profile, key);
            lemma_cells_with_bounds(more, profile, key);
            assert(cold as int * (1 + warm as int) <= u64::MAX) by (nonlinear_arith)
                requires
                    0 <= cold <= u32::MAX,
                    0 <= warm <= u32::MAX,
            ;
        }
        let takes: u64 = cold as u64 * (1 + warm as u64);
        let mut i: usize = 0;
        while i < out.len() && (out[i].cold_cycles < cold || (out[i].cold_cycles == cold
            && out[i].warm_per_cycle < warm))
            invariant
                i <= out@.len(),
                out@ == before,
                key == (cold, warm),
                forall|k: int|
                    0 <= k < i ==> counts_before((#[trigger] out@[k]).counts(), key),
            decreases out@.len() - i,
        {
            i = i + 1;
        }
        if i < out.len() && out[i].cold_cycles == cold && out[i].warm_per_cycle == warm {
            let old_bucket: IterationBucket = out[i];
            proof {
                assert(old_bucket == before[i as int]);
                assert(old_bucket.counts() == key);
                assert((old_bucket.functions + 1) * invocations_of(key) == old_bucket.functions
                    * invocations_of(key) + invocations_of(key)) by (nonlinear_arith);
            }
            let bucket: IterationBucket = IterationBucket {
                cold_cycles: cold,
                warm_per_cycle: warm,
                functions: old_bucket.functions + 1,
                invocations: old_bucket.invocations + takes,
            };
            out.set(i, bucket);
            proof {
                lemma_sum_update(before, i as int, bucket);
                assert(out@ =~= before.update(i as int, bucket));
                assert forall|k: (u32, u32)| #[trigger] cells_with(more, profile, k) > 0 implies exists|
                    j: int,
                |
                    0 <= j < out@.len() && (#[trigger] out@[j]).counts() == k by {
                    if k == key {
                        assert(out@[i as int].counts() == k);
                    } else {
                        assert(cells_with(head, profile, k) > 0);
                        let j = choose|j: int|
                            0 <= j < before.len() && (#[trigger] before[j]).counts() == k;
                        assert(out@[j].counts() == k);
                    }
                }
            }
        } else {
            proof {
                if cells_with(head, profile, key) > 0 {
                    let j = choose|j: int|
                        0 <= j < before.len() && (#[trigger] before[j]).counts() == key;
                    if j < i {
                        assert(counts_before(before[j].counts(), key));
                    } else if j > i {
                        assert(counts_before(before[i as int].counts(), before[j].counts()));
                    }
                }
                assert(cells_with(head, profile, key) == 0);
                assert(1 * invocations_of(key) == invocations_of(key));
            }
            let bucket: IterationBucket = IterationBucket {
                cold_cycles: cold,
                warm_per_cycle: warm,
                functions: 1,
                invocations: takes,
            };
            out.insert(i, bucket);
            proof {
                lemma_sum_insert(before, i as int, bucket);
                assert(out@ =~= before.insert(i as int, bucket));
                assert forall|a: int, b: int| 0 <= a < b < out@.len() implies counts_before(
                    (#[trigger] out@[a]).counts(),
                    (#[trigger] out@[b]).counts(),
                ) by {
                    let a0 = if a < i { a } else { a - 1 };
                    let b0 = if b < i { b } else { b - 1 };
                    if a == i {
                        assert(out@[b] == before[b0]);
                        assert(!counts_before(before[i as int].counts(), key));
                        if b0 > i {
                            assert(counts_before(before[i as int].counts(), before[b0].counts()));
                        }
                    } else if b == i {
                        assert(out@[a] == before[a0]);
                    } else {
                        assert(out@[a] == before[a0] && out@[b] == before[b0]);
                    }
                }
                assert forall|j: int| 0 <= j < out@.len() implies {
                    let b = #[trigger] out@[j];
                    &&& b.functions > 0
                    &&& b.functions == cells_with(more, profile, b.counts())
                    &&& b.invocations == b.functions * invocations_of(b.counts())
                } by {
                    if j != i {
                        let j0 = if j < i { j } else { j - 1 };
                        assert(out@[j] == before[j0]);
                        assert(before[j0].counts() != key);
                    }
                }
                assert forall|k: (u32, u32)| #[trigger] cells_with(more, profile, k) > 0 implies exists|
                    j: int,
                |
                    0 <= j < out@.len() && (#[trigger] out@[j]).counts() == k by {
                    if k == key {
                        assert(out@[i as int].counts() == k);
                    } else {
                        assert(cells_with(head, profile, k) > 0);
                        let j = choose|j: int|
                            0 <= j < before.len() && (#[trigger] before[j]).counts() == k;
                        assert(out@[if j < i { j } else { j + 1 }].counts() == k);
                    }
                }
            }
        }
        n = n + 1;
    }
    proof {
        assert(cells@.take(cells@.len() as int) =~= cells@);
    }
    out
}

/// The invocations of buckets in all.
pub fn planned_total(buckets: &Vec<IterationBucket>) -> (r: u64)
    requires
        bucket_sum(buckets@) <= u64::MAX,
    ensures
        r == bucket_sum(buckets@),
{
    let mut total: u64 = 0;
    let mut i: usize = 0;
    while i < buckets.len()
        invariant
            i <= buckets@.len(),
            bucket_sum(buckets@) <= u64::MAX,
            total == bucket_sum(buckets@.take(i as int)),
        decreases buckets@.len() - i,
    {
        proof {
            lemma_bucket_sum_grows(buckets@, i + 1);
            assert(buckets@.take(i + 1).drop_last() =~= buckets@.take(i as int));
            assert(buckets@.take(i + 1).last() == buckets@[i as int]);
        }
        total = total + buckets[i].invocations;
        i = i + 1;
    }
    proof {
        assert(buckets@.take(buckets@.len() as int) =~= buckets@);
    }
    total
}

proof fn lemma_bucket_sum_grows(b: Seq<IterationBucket>, n: int)
    requires
        0 <= n <= b.len(),
    ensures
        0 <= bucket_sum(b.take(n)) <= bucket_sum(b),
    decreases b.len(),
{
    if n == b.len() {
        assert(b.take(n) =~= b);
        if n > 0 {
            lemma_bucket_sum_grows(b.drop_last(), n - 1);
            assert(b.drop_last().take(n - 1) =~= b.drop_last());
        }
    } else {
        lemma_bucket_sum_grows(b.drop_last(), n);
        assert(b.drop_last().take(n) =~= b.take(n));
    }
}

/// Cells in sweep order take far fewer invocations than a 64-bit count holds.
pub proof fn law_planned_fits(cells: Seq<Cell>, profile: Profile)
    requires
        in_sweep_order(cells),
    ensures
        cells.len() <= 2160,
        0 <= planned(cells, profile) <= 7505 * cells.len(),
{
    lemma_positions(cells, cells.len() as int);
    lemma_planned_bound(cells, profile);
}

proof fn lemma_positions(cells: Seq<Cell>, n: int)
    requires
        in_sweep_order(cells),
        0 <= n <= cells.len(),
    ensures
        n > 0 ==> rank(cells[n - 1]) >= n - 1,
        n <= 2160,
    decreases n,
{
    if n > 0 {
        lemma_positions(cells, n - 1);
        if n > 1 {
            assert(rank(cells[n - 2]) < rank(cells[n - 1]));
        }
        assert(0 <= rank(cells[n - 1]) < 2160);
    }
}

proof fn lemma_planned_bound(cells: Seq<Cell>, profile: Profile)
    ensures
        0 <= planned(cells, profile) <= 7505 * cells.len(),
    decreases cells.len(),
{
    if cells.len() > 0 {
        lemma_planned_bound(cells.drop_last(), profile);
        let c = cells.last().counts(profile);
        assert(c.0 <= 50 && c.1 <= 1500);
        assert(c.1 == 2 || c.1 == 50 || c.1 == 200 || c.1 == 300 || c.1 == 1500);
        assert(0 <= c.0 * (1 + c.1) <= 7505);
    }
}

/// One bucket, for a message.
pub open spec fn bucket_text(b: IterationBucket) -> Seq<char> {
    decimal(b.cold_cycles as nat) + "x(1+"@ + decimal(b.warm_per_cycle as nat) + ") ["@ + decimal(
        b.functions as nat,
    ) + " fn]"@
}

/// The buckets of a run, for a message.
pub fn describe_buckets(buckets: &Vec<IterationBucket>) -> (r: String)
    ensures
        r@ == joined(buckets@.map_values(|b: IterationBucket| bucket_text(b)), ", "@),
{
    let mut parts: Vec<String> = Vec::new();
    let mut i: usize = 0;
    while i < buckets.len()
        invariant
            i <= buckets@.len(),
            parts@.len() == i,
            forall|k: int| 0 <= k < i ==> (#[trigger] parts@[k])@ == bucket_text(buckets@[k]),
        decreases buckets@.len() - i,
    {
        let mut part: String = String::new();
        append_decimal(&mut part, buckets[i].cold_cycles as u128);
        part.append("x(1+");
        append_decimal(&mut part, buckets[i].warm_per_cycle as u128);
        part.append(") [");
        append_decimal(&mut part, buckets[i].functions as u128);
        part.append(" fn]");
        proof {
            assert(part@ =~= bucket_text(buckets@[i as int]));
        }
        parts.push(part);
        i = i + 1;
    }
    proof {
        assert(texts(parts@) =~= buckets@.map_values(|b: IterationBucket| bucket_text(b)));
    }
    join(&parts, ", ")
}

/// What a run will do: its cells, the artifacts they deploy, and the invocations
/// they take.
pub struct RunPlan {
    pub cells: Vec<Cell>,
    pub keys: Vec<ArtifactKey>,
    pub buckets: Vec<IterationBucket>,
    pub planned: u64,
}

/// Plans a run. The buckets account for the plan: their functions add up to its
/// cells, and their invocations to what is planned. Refused are unknown languages, filters that `select_cells`
/// refuses, and filters that leave no cell.
pub fn plan_run(args: &RunArgs) -> (r: Result<RunPlan, String>)
    ensures
        match r {
            Ok(plan) => {
                &&& langs_in(texts(args.lang@)) is Ok
                &&& filters(*args, langs_in(texts(args.lang@))->Ok_0) is Ok
                &&& plan.cells@.len() > 0
                &&& in_sweep_order(plan.cells@)
                &&& forall|c: Cell| #[trigger]
                    plan.cells@.contains(c) <==> is_selected(*args, c)
                &&& plan.keys@ == first_seen(keys_of(plan.cells@))
                &&& groups(plan.buckets@, plan.cells@, args.profile)
                &&& plan.planned == planned(plan.cells@, args.profile)
                &&& bucket_sum(plan.buckets@) == plan.planned
                &&& functions_sum(plan.buckets@) == plan.cells@.len()
                &&& args.memory@.len() > 0 ==> forall|i: int|
                    0 <= i < plan.cells@.len() ==> args.memory@.contains(
                        (#[trigger] plan.cells@[i]).memory_mb,
                    )
                &&& args.arch is Some ==> forall|i: int|
                    0 <= i < plan.cells@.len() ==> spells_arch(
                        args.arch->0@,
                        (#[trigger] plan.cells@[i]).arch,
                    )
                &&& args.only is Some ==> forall|i: int|
                    0 <= i < plan.cells@.len() ==> spelled_in(
                        args.only->0@,
                        (#[trigger] plan.cells@[i]).lang,
                        plan.cells@[i].scenario,
                    )
                &&& forall|i: int|
                    0 <= i < plan.cells@.len() ==> takes_lang(
                        texts(args.lang@),
                        (#[trigger] plan.cells@[i]).lang,
                    )
            },
            Err(m) => match langs_in(texts(args.lang@)) {
                Err(e) => m@ == e,
                Ok(langs) => match filters(*args, langs) {
                    Err(e) => m@ == e,
                    Ok(_) => {
                        &&& forall|c: Cell| !#[trigger] is_selected(*args, c)
                        &&& m@
                            == "no cells selected (check --lang/--only/--memory/--arch filters)"@
                    },
                },
            },
        },
{
    let langs: Vec<Lang> = match parse_langs(args.lang.as_slice()) {
        Ok(langs) => langs,
        Err(m) => {
            return Err(m);
        },
    };
    let cells: Vec<Cell> = match select_cells(args, langs.as_slice()) {
        Ok(cells) => cells,
        Err(m) => {
            return Err(m);
        },
    };
    if cells.len() == 0 {
        proof {
            assert forall|c: Cell| !#[trigger] is_selected(*args, c) by {
                assert(!cells@.contains(c));
            }
        }
        return Err("no cells selected (check --lang/--only/--memory/--arch filters)".to_owned());
    }
    let keys: Vec<ArtifactKey> = unique_artifacts(cells.as_slice());
    proof {
        law_planned_fits(cells@, args.profile);
    }
    let buckets: Vec<IterationBucket> = iteration_buckets(cells.as_slice(), args.profile);
    let planned: u64 = planned_total(&buckets);
    proof {
        assert forall|i: int| 0 <= i < cells@.len() implies is_selected(*args, #[trigger] cells@[i])
            && taken_in(*args, cells@[i]) by {
            assert(cells@.contains(cells@[i]));
            law_chosen_exactly_when_every_filter_takes_it_in(*args, cells@[i]);
        }
    }
    Ok(RunPlan { cells, keys, buckets, planned })
}

/// Whether a run takes in a cell: it is in the matrix, its language is asked for,
/// and the filters keep it.
pub open spec fn is_selected(args: RunArgs, c: Cell) -> bool {
    let langs = langs_in(texts(args.lang@))->Ok_0;
    let (pairs, arch) = filters(args, langs)->Ok_0;
    in_matrix(c) && asks_for(langs, c.lang) && keeps(pairs, arch, args.memory@, c)
}

/// How a run stands.
#[derive(Debug, Clone, Copy, PartialEq, Eq, Structural)]
pub enum RunStatus {
    Running,
    Succeeded,
    Failed,
}

/// Tunable parameters of a run.
#[derive(Debug, Clone, Copy, PartialEq, Eq, Structural)]
pub struct RunParams {
    pub profile: Profile,
    pub pool: usize,
}

/// The summary kept beside the rows of a run.
pub struct RunMeta {
    pub run_id: String,
    pub started_at_unix_ms: u128,
    pub finished_at_unix_ms: Option<u128>,
    pub status: RunStatus,
    pub region: String,
    pub account_id: String,
    pub profile: Profile,
    pub iteration_buckets: Vec<IterationBucket>,
    pub pool: usize,
    pub memory_mb: Vec<i32>,
    pub total_functions: usize,
    pub total_invocations_planned: u64,
    pub total_invocations_recorded: u64,
    /// What was built, as JSON text.
    pub build_manifest: String,
}

impl RunMeta {
    /// The summary of a run that starts: nothing recorded yet.
    pub fn started(
        run_id: String,
        started_at_unix_ms: u128,
        account_id: String,
        params: RunParams,
        plan: &RunPlan,
        build_manifest: String,
    ) -> (r: RunMeta)
        ensures
            r.run_id == run_id,
            r.started_at_unix_ms == started_at_unix_ms,
            r.finished_at_unix_ms is None,
            r.status == RunStatus::Running,
            r.region@ == REGION@,
            r.account_id == account_id,
            r.profile == params.profile,
            r.iteration_buckets@ == plan.buckets@,
            r.pool == params.pool,
            r.memory_mb@ == MEMORY_MB@,
            r.total_functions == plan.cells@.len(),
            r.total_invocations_planned == plan.planned,
            r.total_invocations_recorded == 0,
            r.build_manifest == build_manifest,
    {
        let mut iteration_buckets: Vec<IterationBucket> = Vec::new();
        let mut i: usize = 0;
        while i < plan.buckets.len()
            invariant
                i <= plan.buckets@.len(),
                iteration_buckets@ == plan.buckets@.take(i as int),
            decreases plan.buckets@.len() - i,
        {
            iteration_buckets.push(plan.buckets[i]);
            proof {
                assert(plan.buckets@.take(i + 1) =~= plan.buckets@.take(i as int).push(
                    plan.buckets@[i as int],
                ));
            }
            i = i + 1;
        }
        let tiers: [i32; 6] = MEMORY_MB;
        let mut memory_mb: Vec<i32> = Vec::new();
        let mut j: usize = 0;
        while j < 6
            invariant
                j <= 6,
                tiers@ == MEMORY_MB@,
                memory_mb@ == tiers@.take(j as int),
            decreases 6 - j,
        {
            memory_mb.push(tiers[j]);
            proof {
                assert(tiers@.take(j + 1) =~= tiers@.take(j as int).push(tiers@[j as int]));
            }
            j = j + 1;
        }
        proof {
            assert(plan.buckets@.take(plan.buckets@.len() as int) =~= plan.buckets@);
            assert(tiers@.take(6) =~= tiers@);
        }
        RunMeta {
            run_id,
            started_at_unix_ms,
            finished_at_unix_ms: None,
            status: RunStatus::Running,
            region: REGION.to_owned(),
            account_id,
            profile: params.profile,
            iteration_buckets,
            pool: params.pool,
            memory_mb,
            total_functions: plan.cells.len(),
            total_invocations_planned: plan.planned,
            total_invocations_recorded: 0,
            build_manifest,
        }
    }

    /// Closes the summary: when the run ended, how, and how many rows were
    /// written. Nothing else changes.
    pub fn finish(&mut self, succeeded: bool, finished_at_unix_ms: u128, rows_written: u64)
        ensures
            *final(self) == (RunMeta {
                finished_at_unix_ms: Some(finished_at_unix_ms),
                status: if succeeded {
                    RunStatus::Succeeded
                } else {
                    RunStatus::Failed
                },
                total_invocations_recorded: rows_written,
                ..*old(self)
            }),
    {
        self.finished_at_unix_ms = Some(finished_at_unix_ms);
        self.total_invocations_recorded = rows_written;
        self.status = if succeeded {
            RunStatus::Succeeded
        } else {
            RunStatus::Failed
        };
    }
}

/// A step of a run.
#[derive(Debug, Clone, Copy, PartialEq, Eq, Structural)]
pub enum RunStep {
    /// Build the artifacts that the cells need.
    Build,
    /// Take the artifacts of an earlier build.
    LoadBuilt,
    /// Provision everything and deploy the functions.
    Deploy,
    /// See that the functions are deployed.
    CheckDeployed,
    /// Write the summary of a run that starts.
    OpenSummary,
    /// Measure the cells.
    Measure,
    /// Write the summary of a run that ended, whatever its outcome.
    CloseSummary,
}

/// The steps of a run.
pub open spec fn steps_of(skip_build: bool, skip_deploy: bool) -> Seq<RunStep> {
    seq![
        if skip_build {
            RunStep::LoadBuilt
        } else {
            RunStep::Build
        },
        if skip_deploy {
            RunStep::CheckDeployed
        } else {
            RunStep::Deploy
        },
        RunStep::OpenSummary,
        RunStep::Measure,
        RunStep::CloseSummary,
    ]
}

/// The steps of a run: artifacts, functions, and then the measuring, with its
/// summary written before and after.
pub fn run_steps(skip_build: bool, skip_deploy: bool) -> (r: Vec<RunStep>)
    ensures
        r@ == steps_of(skip_build, skip_deploy),
{
    let mut steps: Vec<RunStep> = Vec::new();
    steps.push(
        if skip_build {
            RunStep::LoadBuilt
        } else {
            RunStep::Build
        },
    );
    steps.push(
        if skip_deploy {
            RunStep::CheckDeployed
        } else {
            RunStep::Deploy
        },
    );
    steps.push(RunStep::OpenSummary);
    steps.push(RunStep::Measure);
    steps.push(RunStep::CloseSummary);
    proof {
        assert(steps@ =~= steps_of(skip_build, skip_deploy));
    }
    steps
}

/// The line about a cell that ended, as the `n`-th of all.
pub open spec fn progress_text(
    time: Seq<char>,
    n: nat,
    total: nat,
    name: Seq<char>,
    failure: Option<Seq<char>>,
) -> Seq<char> {
    let head = "["@ + time + "] ["@ + decimal(n) + "/"@ + decimal(total) + "] "@;
    match failure {
        None => head + "done "@ + name,
        Some(e) => head + "FAILED "@ + name + ": "@ + e,
    }
}

/// The line about a cell that ended, as the `n`-th of all.
pub fn progress_line(time: &str, n: usize, total: usize, name: &str, failure: &Option<String>) -> (r:
    String)
    ensures
        r@ == progress_text(
            time@,
            n as nat,
            total as nat,
            name@,
            crate::record::maybe_text(*failure),
        ),
{
    let mut out: String = "[".to_owned();
    out.append(time);
    out.append("] [");
    append_decimal(&mut out, n as u128);
    out.append("/");
    append_decimal(&mut out, total as u128);
    out.append("] ");
    match failure {
        None => {
            out.append("done ");
            out.append(name);
        },
        Some(e) => {
            out.append("FAILED ");
            out.append(name);
            out.append(": ");
            out.append(e.as_str());
        },
    }
    out
}

/// Name of the file that holds the rows of a run.
pub fn rows_file_name(run_id: &str) -> (r: String)
    ensures
        r@ == "run-"@ + run_id@ + ".jsonl.gz"@,
{
    let mut out: String = "run-".to_owned();
    out.append(run_id);
    out.append(".jsonl.gz");
    out
}

/// Name of the file that holds the summary of a run.
pub fn meta_file_name(run_id: &str) -> (r: String)
    ensures
        r@ == "run-"@ + run_id@ + ".meta.json"@,
{
    let mut out: String = "run-".to_owned();
    out.append(run_id);
    out.append(".meta.json");
    out
}

/// The complaint about functions that a run without deployment needs and that are
/// not deployed, given their distinct names in ascending order.
pub open spec fn missing_message(names: Seq<Seq<char>>) -> Seq<char> {
    "--skip-deploy: "@ + decimal(names.len()) + " selected function(s) are not deployed: "@
        + joined(names, ", "@)
        + ". Deploy them (drop --skip-deploy) or adjust the run filters."@
}

/// Accepts a run without deployment exactly where no function is missing; the
/// complaint lists each missing function once, in ascending order.
pub fn check_none_missing(missing: &Vec<String>) -> (r: Result<(), String>)
    ensures
        match r {
            Ok(_) => missing@.len() == 0,
            Err(m) => missing@.len() > 0 && exists|names: Seq<Seq<char>>|
                {
                    &&& #[trigger] ascending(names)
                    &&& same_members(names, texts(missing@))
                    &&& m@ == missing_message(names)
                },
        },
{
    if missing.len() == 0 {
        return Ok(());
    }
    let names: Vec<String> = sort_distinct(missing);
    let mut out: String = "--skip-deploy: ".to_owned();
    append_decimal(&mut out, names.len() as u128);
    out.append(" selected function(s) are not deployed: ");
    out.append(join(&names, ", ").as_str());
    out.append(". Deploy them (drop --skip-deploy) or adjust the run filters.");
    proof {
        let views = texts(names@);
        assert(views.len() == names@.len());
        assert(ascending(views) && out@ == missing_message(views));
    }
    Err(out)
}

/// Whether a destructive command was confirmed: by its flag, or by typing `yes`.
pub fn is_confirmed(yes: bool, input: &str) -> (r: bool)
    ensures
        r == (yes || trimmed(input@) == "yes"@),
{
    yes || same_text(trim(input), "yes")
}

/// What a machine needs to build, deploy and measure, in the order in which it is
/// looked for.
pub const PREREQUISITES: [&'static str; 10] = [
    "cargo",
    "cargo-lambda",
    "node",
    "npm",
    "java",
    "python",
    "pip",
    "go",
    "crane",
    "aws-credentials",
];

/// The quoted names of the prerequisites among the first `n` that were not found.
pub open spec fn lacking(found: Seq<bool>, n: int) -> Seq<Seq<char>>
    decreases n,
{
    if n <= 0 {
        Seq::empty()
    } else if found[n - 1] {
        lacking(found, n - 1)
    } else {
        lacking(found, n - 1).push("\""@ + PREREQUISITES@[n - 1]@ + "\""@)
    }
}

/// Accepts a machine exactly where every prerequisite was found; the complaint
/// lists those that were not.
pub fn doctor_verdict(found: &[bool]) -> (r: Result<(), String>)
    requires
        found@.len() == 10,
    ensures
        match r {
            Ok(_) => forall|i: int| 0 <= i < 10 ==> #[trigger] found@[i],
            Err(m) => {
                &&& exists|i: int| 0 <= i < 10 && !#[trigger] found@[i]
                &&& m@ == "doctor: missing prerequisites: ["@ + joined(lacking(found@, 10), ", "@)
                    + "]"@
            },
        },
{
    let mut missing: Vec<String> = Vec::new();
    let labels: [&'static str; 10] = PREREQUISITES;
    let mut i: usize = 0;
    while i < 10
        invariant
            i <= 10,
            found@.len() == 10,
            labels@ == PREREQUISITES@,
            texts(missing@) == lacking(found@, i as int),
            missing@.len() == 0 <==> forall|k: int| 0 <= k < i ==> #[trigger] found@[k],
        decreases 10 - i,
    {
        let ghost before = missing@;
        if !found[i] {
            let mut quoted: String = "\"".to_owned();
            quoted.append(labels[i]);
            quoted.append("\"");
            missing.push(quoted);
            proof {
                assert(texts(missing@) =~= texts(before).push(
                    "\""@ + PREREQUISITES@[i as int]@ + "\""@,
                ));
                assert(!found@[i as int]);
            }
        }
        i = i + 1;
    }
    if missing.len() == 0 {
        Ok(())
    } else {
        let mut out: String = "doctor: missing prerequisites: [".to_owned();
        out.append(join(&missing, ", ").as_str());
        out.append("]");
        Err(out)
    }
}

} // verus!
