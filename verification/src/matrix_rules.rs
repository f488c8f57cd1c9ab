//! What the matrix is: which cells it has, how often each is invoked, in what order
//! they are swept, and how they are spelled.
use crate::cell::{class_stem, in_jitter_ab, per_arch, ArtifactKey, Cell};
use crate::config::{
    is_tier, synth_name, tier_names, unknown_message, Arch, Jitter, Lang, Opt, Profile, Scenario,
    ECR_REPO, INLINE_POLICY_NAME, KMS_ALIAS, ORDER_PK, PREFIX, PREWARM_NONEXISTENT_FN,
    RESOURCE_PREFIX, ROLE_NAME, S3_BATCH_KEY, S3_LETTERCOUNT_KEY, S3_OBJECT_KEY, S3_RECEIPT_KEY,
    SEED_KEY, TABLE_NAME,
};
use crate::laws::{law_first_seen_is_the_set, lemma_matrix_name_head};
use crate::matrix::{
    arch_rank, asks_for, first_seen, in_matrix, in_sweep_order, is_managed_log_group,
    is_managed_name, is_matrix_name, is_synth_name, keys_of, lang_rank, nth_synth_name, rank,
    scenario_rank, tier_rank, variant_rank,
};
use crate::plan::{
    bucket_sum, bucket_text, cells_with, functions_sum, groups, invocations_of, planned,
    IterationBucket,
};
use crate::text::{decimal, decimal_int, has_prefix, joined};
use vstd::prelude::*;
use vstd::string::*;

verus! {

/// The least memory at which a scenario is measured, in each language and variant.
pub proof fn law_memory_floors(s: Scenario, lang: Lang, snapstart: bool)
    ensures
        s.floor_mb(lang, snapstart) == (match (s, lang, snapstart) {
            (Scenario::Hello, _, _) => 128int,
            (Scenario::Smithy, _, _) => 128,
            (Scenario::OneClient, _, _) => 128,
            (Scenario::ThreeClient, _, _) => 128,
            (Scenario::SmithyFull, Lang::Java, true) => 256,
            (Scenario::SmithyFull, _, _) => 128,
            (Scenario::LetterCount, Lang::Java, _) => 512,
            (Scenario::LetterCount, _, _) => 128,
            (Scenario::Authz, _, _) => 128,
            (Scenario::Batch, Lang::Java, true) => 1024,
            (Scenario::Batch, Lang::Java, false) => 512,
            (Scenario::Batch, _, _) => 256,
            (Scenario::Cache, _, _) => 512,
        }),
{
}

/// What a scenario reads, and which languages host it.
pub proof fn law_what_scenarios_use(s: Scenario, lang: Lang)
    ensures
        s.uses_ddb() <==> s == Scenario::OneClient || s == Scenario::ThreeClient || s
            == Scenario::SmithyFull,
        s.uses_kms_s3() <==> s == Scenario::ThreeClient || s == Scenario::SmithyFull,
        s.uses_s3() <==> s == Scenario::ThreeClient || s == Scenario::SmithyFull || s
            == Scenario::LetterCount || s == Scenario::Batch,
        s.http_fronted() <==> s == Scenario::Smithy || s == Scenario::SmithyFull,
        lang == Lang::Rust || lang == Lang::Node || lang == Lang::Java ==> lang.hosts(s),
        lang == Lang::Python || lang == Lang::Go ==> (lang.hosts(s) <==> s != Scenario::Smithy && s
            != Scenario::SmithyFull),
        in_jitter_ab(s) <==> s == Scenario::OneClient || s == Scenario::LetterCount,
        per_arch(lang, s) <==> lang == Lang::Rust || lang == Lang::Go || (lang == Lang::Python && s
            == Scenario::Authz),
{
}

/// The matrix holds every combination of a language with a scenario that it hosts, both
/// architectures, the six memory sizes from the floor up, for Rust both optimization
/// levels without jitter and `o3` with it for two scenarios, and for Java both with and
/// without SnapStart; and nothing else.
pub proof fn law_what_the_matrix_holds(c: Cell)
    ensures
        in_matrix(c) <==> {
            &&& c.memory_mb == 128 || c.memory_mb == 256 || c.memory_mb == 512 || c.memory_mb == 1024
                || c.memory_mb == 2048 || c.memory_mb == 3008
            &&& match c.scenario {
                Scenario::Batch => c.memory_mb >= (if c.lang != Lang::Java {
                    256int
                } else if c.snapstart {
                    1024
                } else {
                    512
                }),
                Scenario::Cache => c.memory_mb >= 512,
                Scenario::LetterCount => c.lang == Lang::Java ==> c.memory_mb >= 512,
                Scenario::SmithyFull => c.lang == Lang::Java && c.snapstart ==> c.memory_mb >= 256,
                _ => true,
            }
            &&& match c.lang {
                Lang::Rust => {
                    &&& !c.snapstart
                    &&& c.opt is Some && c.jitter is Some
                    &&& c.jitter == Some(Jitter::On) ==> c.opt == Some(Opt::O3) && (c.scenario
                        == Scenario::OneClient || c.scenario == Scenario::LetterCount)
                },
                Lang::Java => c.opt is None && c.jitter is None,
                Lang::Node => c.opt is None && c.jitter is None && !c.snapstart,
                Lang::Python => c.opt is None && c.jitter is None && !c.snapstart && c.scenario
                    != Scenario::Smithy && c.scenario != Scenario::SmithyFull,
                Lang::Go => c.opt is None && c.jitter is None && !c.snapstart && c.scenario
                    != Scenario::Smithy && c.scenario != Scenario::SmithyFull,
            }
        },
        is_tier(c.memory_mb as int) <==> c.memory_mb == 128 || c.memory_mb == 256 || c.memory_mb
            == 512 || c.memory_mb == 1024 || c.memory_mb == 2048 || c.memory_mb == 3008,
{
}

/// How often a cell is invoked. A smoke run takes two cold cycles of two warm
/// invocations everywhere. A full run takes fifty of fifty for the light scenarios and
/// for both sides of the jitter comparison; five of 1500 for the CPU probes, with 300
/// for Python's `lettercount` up to 256 MB; fifteen of 200 for `batch`, with five for
/// Python up to 256 MB. SnapStart has ten cold cycles at most, and keeps its warm ones.
pub proof fn law_how_often_a_cell_is_invoked(c: Cell)
    ensures
        c.counts(Profile::Smoke) == (2u32, 2u32),
        ({
            let (cold, warm) = c.counts(Profile::Full);
            let compared = c.lang == Lang::Rust && c.opt == Some(Opt::O3) && (c.scenario
                == Scenario::OneClient || c.scenario == Scenario::LetterCount);
            let starved = c.lang == Lang::Python && c.memory_mb <= 256;
            let most: int = if compared {
                50
            } else {
                match c.scenario {
                    Scenario::LetterCount => 5,
                    Scenario::Authz => 5,
                    Scenario::Cache => 5,
                    Scenario::Batch => if starved {
                        5
                    } else {
                        15
                    },
                    _ => 50,
                }
            };
            &&& cold == (if c.snapstart && most > 10 {
                10
            } else {
                most
            })
            &&& warm == (if compared {
                50int
            } else {
                match c.scenario {
                    Scenario::LetterCount => if starved {
                        300
                    } else {
                        1500
                    },
                    Scenario::Authz => 1500,
                    Scenario::Cache => 1500,
                    Scenario::Batch => 200,
                    _ => 50,
                }
            })
        }),
{
}

/// Whether one of two cells is swept before the other: by language, then scenario,
/// architecture, memory, and variant, each in its own order.
pub open spec fn swept_before(a: Cell, b: Cell) -> bool {
    if a.lang != b.lang {
        match (a.lang, b.lang) {
            (Lang::Rust, _) => true,
            (Lang::Node, Lang::Rust) => false,
            (Lang::Node, _) => true,
            (Lang::Java, Lang::Python) => true,
            (Lang::Java, Lang::Go) => true,
            (Lang::Python, Lang::Go) => true,
            _ => false,
        }
    } else if a.scenario != b.scenario {
        match (a.scenario, b.scenario) {
            (Scenario::Hello, _) => true,
            (_, Scenario::Hello) => false,
            (Scenario::Smithy, _) => true,
            (_, Scenario::Smithy) => false,
            (Scenario::OneClient, _) => true,
            (_, Scenario::OneClient) => false,
            (Scenario::ThreeClient, _) => true,
            (_, Scenario::ThreeClient) => false,
            (Scenario::SmithyFull, _) => true,
            (_, Scenario::SmithyFull) => false,
            (Scenario::LetterCount, _) => true,
            (_, Scenario::LetterCount) => false,
            (Scenario::Authz, _) => true,
            (_, Scenario::Authz) => false,
            (Scenario::Batch, _) => true,
            _ => false,
        }
    } else if a.arch != b.arch {
        a.arch == Arch::Arm64
    } else if a.memory_mb != b.memory_mb {
        a.memory_mb < b.memory_mb
    } else if a.snapstart != b.snapstart {
        b.snapstart
    } else if a.jitter != b.jitter {
        b.jitter == Some(Jitter::On)
    } else {
        a.opt == Some(Opt::O3) && b.opt == Some(Opt::Oz)
    }
}

/// Cells stand in sweep order exactly where each comes before every later one.
pub proof fn law_sweep_order(cells: Seq<Cell>)
    requires
        forall|i: int| 0 <= i < cells.len() ==> in_matrix(#[trigger] cells[i]),
    ensures
        in_sweep_order(cells) <==> forall|i: int, j: int|
            0 <= i < j < cells.len() ==> swept_before(#[trigger] cells[i], #[trigger] cells[j]),
{
    assert forall|a: Cell, b: Cell| in_matrix(a) && in_matrix(b) implies (#[trigger] swept_before(
        a,
        b,
    ) <==> rank(a) < rank(b)) by {
        lemma_order_is_rank(a, b);
    }
    if in_sweep_order(cells) {
        assert forall|i: int, j: int| 0 <= i < j < cells.len() implies swept_before(
            #[trigger] cells[i],
            #[trigger] cells[j],
        ) by {
            assert(rank(cells[i]) < rank(cells[j]));
        }
    }
    if forall|i: int, j: int|
        0 <= i < j < cells.len() ==> swept_before(#[trigger] cells[i], #[trigger] cells[j]) {
        assert forall|i: int, j: int| 0 <= i < j < cells.len() implies rank(#[trigger] cells[i])
            < rank(#[trigger] cells[j]) by {
            assert(swept_before(cells[i], cells[j]));
        }
    }
}

proof fn lemma_order_is_rank(a: Cell, b: Cell)
    requires
        in_matrix(a),
        in_matrix(b),
    ensures
        swept_before(a, b) <==> rank(a) < rank(b),
{
    let (la, lb) = (lang_rank(a.lang), lang_rank(b.lang));
    let (sa, sb) = (scenario_rank(a.scenario), scenario_rank(b.scenario));
    let (ra, rb) = (arch_rank(a.arch), arch_rank(b.arch));
    let (ta, tb) = (tier_rank(a.memory_mb as int), tier_rank(b.memory_mb as int));
    assert(a.lang != b.lang ==> (swept_before(a, b) <==> la < lb) && la != lb);
    assert(a.lang == b.lang && a.scenario != b.scenario ==> (swept_before(a, b) <==> sa < sb) && sa
        != sb);
    assert(0 <= sa <= 8 && 0 <= sb <= 8);
    assert(0 <= ra <= 1 && 0 <= rb <= 1);
    assert(0 <= ta <= 5 && 0 <= tb <= 5);
    assert(a.memory_mb < b.memory_mb <==> ta < tb);
    assert(0 <= variant_rank(a) <= 2 && 0 <= variant_rank(b) <= 2);
    if a.lang == b.lang && a.scenario == b.scenario && a.arch == b.arch && a.memory_mb
        == b.memory_mb {
        match (a.opt, b.opt) {
            (Some(x), Some(y)) => match (a.jitter, b.jitter) {
                (Some(i), Some(j)) => {
                    assert(a.jitter != b.jitter <==> i != j);
                    assert(x == Opt::O3 || x == Opt::Oz);
                    assert(y == Opt::O3 || y == Opt::Oz);
                    assert(i == Jitter::On || i == Jitter::Off);
                    assert(j == Jitter::On || j == Jitter::Off);
                    assert(swept_before(a, b) <==> variant_rank(a) < variant_rank(b));
                },
                _ => {},
            },
            _ => {
                assert(a.jitter is None && b.jitter is None);
                assert(swept_before(a, b) <==> variant_rank(a) < variant_rank(b));
            },
        }
    }
}

/// The segments of a function's name: the project, the language, the scenario, the
/// architecture, for Rust the optimization level, then the marks of SnapStart and of
/// jitter where they are on, and the memory size.
pub proof fn law_how_functions_are_named(c: Cell)
    requires
        c.valid(),
    ensures
        c.full_name() == joined(c.name_parts(), "-"@),
        c.name_parts() == (match (c.opt, c.snapstart, c.jitter) {
            (Some(o), _, Some(Jitter::On)) => seq![
                "lambdabench"@,
                c.lang.name(),
                c.scenario.name(),
                c.arch.name(),
                o.name(),
                "jitter"@,
                decimal_int(c.memory_mb as int),
            ],
            (Some(o), _, _) => seq![
                "lambdabench"@,
                c.lang.name(),
                c.scenario.name(),
                c.arch.name(),
                o.name(),
                decimal_int(c.memory_mb as int),
            ],
            (None, true, _) => seq![
                "lambdabench"@,
                c.lang.name(),
                c.scenario.name(),
                c.arch.name(),
                "snap"@,
                decimal_int(c.memory_mb as int),
            ],
            (None, false, _) => seq![
                "lambdabench"@,
                c.lang.name(),
                c.scenario.name(),
                c.arch.name(),
                decimal_int(c.memory_mb as int),
            ],
        }),
{
    let size = decimal_int(c.memory_mb as int);
    let base = seq!["lambdabench"@, c.lang.name(), c.scenario.name(), c.arch.name()];
    match (c.opt, c.snapstart, c.jitter) {
        (Some(o), _, Some(Jitter::On)) => {
            assert(c.name_parts() =~= base.push(o.name()).push("jitter"@).push(size));
        },
        (Some(o), _, _) => {
            assert(c.name_parts() =~= base.push(o.name()).push(size));
        },
        (None, true, _) => {
            assert(c.name_parts() =~= base.push("snap"@).push(size));
        },
        (None, false, _) => {
            assert(c.name_parts() =~= base.push(size));
        },
    }
}

/// How architectures, levels and languages are spelled elsewhere: by Lambda, in
/// container manifests, in the build profile.
pub proof fn law_how_dimensions_are_spelled(l: Lang, a: Arch, o: Opt)
    ensures
        a.lambda_spelling() == (match a {
            Arch::Arm64 => "arm64"@,
            Arch::X86_64 => "x86_64"@,
        }),
        a.oci_spelling() == (match a {
            Arch::Arm64 => "arm64"@,
            Arch::X86_64 => "amd64"@,
        }),
        o.cargo_value() == (match o {
            Opt::O3 => "3"@,
            Opt::Oz => "z"@,
        }),
        l.runtime_id() == (match l {
            Lang::Rust => "provided.al2023"@,
            Lang::Go => "provided.al2023"@,
            Lang::Node => "nodejs24.x"@,
            Lang::Java => "java25"@,
            Lang::Python => "python3.14"@,
        }),
        Lang::names() == seq!["rust"@, "node"@, "java"@, "python"@, "go"@],
        Arch::names() == seq!["arm64"@, "x86_64"@],
        Scenario::names() == seq![
            "hello"@,
            "smithy"@,
            "oneclient"@,
            "threeclient"@,
            "smithyfull"@,
            "lettercount"@,
            "authz"@,
            "batch"@,
            "cache"@,
        ],
{
}

/// The entry point of each function: fixed by the language, and for Java by the
/// scenario, the two behind an HTTP front sharing the endpoint of their SDK.
pub proof fn law_entry_points(c: Cell)
    ensures
        c.handler_text() == (match (c.lang, c.scenario) {
            (Lang::Rust, _) => "bootstrap"@,
            (Lang::Go, _) => "bootstrap"@,
            (Lang::Node, _) => "index.handler"@,
            (Lang::Python, _) => "handler.handler"@,
            (Lang::Java, Scenario::Smithy) =>
                "software.amazon.smithy.java.aws.integrations.lambda.LambdaEndpoint::handleRequest"@,
            (Lang::Java, Scenario::SmithyFull) =>
                "software.amazon.smithy.java.aws.integrations.lambda.LambdaEndpoint::handleRequest"@,
            (Lang::Java, Scenario::Hello) => "lambdabench."@ + "Hello"@ + "Handler::handleRequest"@,
            (Lang::Java, Scenario::OneClient) => "lambdabench."@ + "OneClient"@
                + "Handler::handleRequest"@,
            (Lang::Java, Scenario::ThreeClient) => "lambdabench."@ + "ThreeClient"@
                + "Handler::handleRequest"@,
            (Lang::Java, Scenario::LetterCount) => "lambdabench."@ + "LetterCount"@
                + "Handler::handleRequest"@,
            (Lang::Java, Scenario::Authz) => "lambdabench."@ + "Authz"@ + "Handler::handleRequest"@,
            (Lang::Java, Scenario::Batch) => "lambdabench."@ + "Batch"@ + "Handler::handleRequest"@,
            (Lang::Java, Scenario::Cache) => "lambdabench."@ + "Cache"@ + "Handler::handleRequest"@,
        }),
        class_stem(Scenario::Smithy) == "Smithy"@,
        class_stem(Scenario::SmithyFull) == "SmithyFull"@,
{
}

/// Two cells deploy one artifact exactly where they agree in language, scenario,
/// optimization level and jitter, and, where the code is native, in architecture.
pub proof fn law_which_cells_share_an_artifact(a: Cell, b: Cell)
    ensures
        a.key() == b.key() <==> {
            &&& a.lang == b.lang
            &&& a.scenario == b.scenario
            &&& a.opt == b.opt
            &&& a.jitter == b.jitter
            &&& a.lang == Lang::Rust || a.lang == Lang::Go || (a.lang == Lang::Python && a.scenario
                == Scenario::Authz) ==> a.arch == b.arch
        },
        a.key().lang == a.lang,
        a.key().scenario == a.scenario,
        a.key().opt == a.opt,
        a.key().jitter == a.jitter,
        a.lang == Lang::Node || a.lang == Lang::Java ==> a.key().arch == Arch::Arm64,
        a.lang == Lang::Rust || a.lang == Lang::Go ==> a.key().arch == a.arch,
{
}

/// The segments of an artifact's label: language and scenario, the architecture where
/// the code is native, and for Rust the optimization level and the mark of jitter.
pub proof fn law_how_artifacts_are_labelled(k: ArtifactKey)
    ensures
        k.label_text() == joined(k.label_parts(), "-"@),
        k.label_parts() == (match k.lang {
            Lang::Node => seq![k.lang.name(), k.scenario.name()],
            Lang::Java => seq![k.lang.name(), k.scenario.name()],
            Lang::Go => seq![k.lang.name(), k.scenario.name(), k.arch.name()],
            Lang::Python => if k.scenario == Scenario::Authz {
                seq![k.lang.name(), k.scenario.name(), k.arch.name()]
            } else {
                seq![k.lang.name(), k.scenario.name()]
            },
            Lang::Rust => {
                let level = match k.opt {
                    Some(Opt::Oz) => "oz"@,
                    _ => "o3"@,
                };
                if k.jitter == Some(Jitter::On) {
                    seq![k.lang.name(), k.scenario.name(), k.arch.name(), level, "jitter"@]
                } else {
                    seq![k.lang.name(), k.scenario.name(), k.arch.name(), level]
                }
            },
        }),
{
    let base = seq![k.lang.name(), k.scenario.name()];
    let native = base.push(k.arch.name());
    match k.lang {
        Lang::Rust => {
            let level = match k.opt {
                Some(Opt::Oz) => "oz"@,
                _ => "o3"@,
            };
            if k.jitter == Some(Jitter::On) {
                assert(k.label_parts() =~= native.push(level).push("jitter"@));
            } else {
                assert(k.label_parts() =~= native.push(level));
            }
        },
        Lang::Go => {
            assert(k.label_parts() =~= native);
        },
        _ => {},
    }
}

/// The functions of the synthetic probe are the four families at the five sizes, each
/// named by its family and its size.
pub proof fn law_synthetic_functions(f: int, k: int)
    requires
        0 <= f < 4,
        0 <= k < 5,
    ensures
        ({
            let family = if f == 0 {
                "python"@
            } else if f == 1 {
                "rust"@
            } else if f == 2 {
                "image-untouched"@
            } else {
                "image-touched"@
            };
            let size: nat = if k == 0 {
                1
            } else if k == 1 {
                10
            } else if k == 2 {
                50
            } else if k == 3 {
                100
            } else {
                200
            };
            let name = "lambdabench-"@ + "synthdl-"@ + family + "-"@ + decimal(size) + "mb"@;
            &&& nth_synth_name(f, k) == name
            &&& synth_name(family, size) == name
            &&& is_synth_name(name)
            &&& is_managed_name(name)
            &&& is_managed_log_group("/aws/lambda/"@ + name)
        }),
{
    let name = nth_synth_name(f, k);
    assert(is_synth_name(name));
    assert(is_managed_name(name));
}

/// The function of every cell is managed, and so is its log group.
pub proof fn law_every_cell_is_managed(c: Cell)
    requires
        in_matrix(c),
    ensures
        is_matrix_name(c.full_name()),
        is_managed_name(c.full_name()),
        is_managed_log_group("/aws/lambda/"@ + c.full_name()),
{
    assert(is_matrix_name(c.full_name()));
    assert(is_managed_name(c.full_name()));
}

/// Each new item is listed behind those seen before it, and one seen before changes
/// nothing.
pub proof fn law_first_use_decides_the_place<A>(keys: Seq<A>, key: A)
    ensures
        first_seen(Seq::<A>::empty()) == Seq::<A>::empty(),
        keys.contains(key) ==> first_seen(keys.push(key)) == first_seen(keys),
        !keys.contains(key) ==> first_seen(keys.push(key)) == first_seen(keys).push(key),
{
    law_first_seen_is_the_set(keys);
    assert(keys.push(key).drop_last() =~= keys);
    assert(first_seen(keys).contains(key) <==> keys.contains(key));
}

/// A cell more adds its cold cycles, each with its one cold and its warm invocations,
/// to what is planned, and joins those with its counts and no others.
pub proof fn law_each_cell_adds_its_invocations(cells: Seq<Cell>, c: Cell, profile: Profile)
    ensures
        planned(Seq::empty(), profile) == 0,
        planned(cells.push(c), profile) == planned(cells, profile) + c.counts(profile).0 * (1
            + c.counts(profile).1),
        cells_with(Seq::empty(), profile, c.counts(profile)) == 0,
        cells_with(cells.push(c), profile, c.counts(profile)) == cells_with(
            cells,
            profile,
            c.counts(profile),
        ) + 1,
        forall|k: (u32, u32)|
            k != c.counts(profile) ==> #[trigger] cells_with(cells.push(c), profile, k)
                == cells_with(cells, profile, k),
{
    assert(cells.push(c).drop_last() =~= cells);
}

/// A group of cells is as large as there are cells with its counts, takes what they
/// take, and comes before every group with more cold cycles, or with as many and more
/// warm invocations; every cell is in one.
pub proof fn law_groups_by_counts(
    buckets: Seq<IterationBucket>,
    cells: Seq<Cell>,
    profile: Profile,
    i: int,
    j: int,
    n: int,
)
    requires
        groups(buckets, cells, profile),
        0 <= i < buckets.len(),
        0 <= n < cells.len(),
    ensures
        buckets[i].functions == cells_with(
            cells,
            profile,
            (buckets[i].cold_cycles, buckets[i].warm_per_cycle),
        ),
        buckets[i].invocations == buckets[i].functions * (buckets[i].cold_cycles * (1
            + buckets[i].warm_per_cycle)),
        i < j < buckets.len() ==> buckets[i].cold_cycles < buckets[j].cold_cycles || (
        buckets[i].cold_cycles == buckets[j].cold_cycles && buckets[i].warm_per_cycle
            < buckets[j].warm_per_cycle),
        exists|k: int|
            0 <= k < buckets.len() && (#[trigger] buckets[k]).cold_cycles == cells[n].counts(
                profile,
            ).0 && buckets[k].warm_per_cycle == cells[n].counts(profile).1,
{
    let k = cells[n].counts(profile);
    lemma_counted(cells, profile, n);
    assert(cells_with(cells, profile, k) > 0);
    let b = choose|b: int| 0 <= b < buckets.len() && (#[trigger] buckets[b]).counts() == k;
    assert(buckets[b].cold_cycles == k.0);
    if i < j < buckets.len() {
        assert(buckets[i].counts().0 <= buckets[j].counts().0);
    }
}

proof fn lemma_counted(cells: Seq<Cell>, profile: Profile, n: int)
    requires
        0 <= n < cells.len(),
    ensures
        cells_with(cells, profile, cells[n].counts(profile)) > 0,
    decreases cells.len(),
{
    let k = cells[n].counts(profile);
    lemma_counts_not_negative(cells.drop_last(), profile, k);
    if n < cells.len() - 1 {
        lemma_counted(cells.drop_last(), profile, n);
        assert(cells.drop_last()[n] == cells[n]);
    }
}

proof fn lemma_counts_not_negative(cells: Seq<Cell>, profile: Profile, k: (u32, u32))
    ensures
        cells_with(cells, profile, k) >= 0,
    decreases cells.len(),
{
    if cells.len() > 0 {
        lemma_counts_not_negative(cells.drop_last(), profile, k);
    }
}

/// How a group, a refused name and a refused memory size are told.
pub proof fn law_how_counts_and_names_are_told(
    b: IterationBucket,
    kind: Seq<char>,
    s: Seq<char>,
    names: Seq<Seq<char>>,
)
    ensures
        bucket_text(b) == decimal(b.cold_cycles as nat) + "x(1+"@ + decimal(
            b.warm_per_cycle as nat,
        ) + ") ["@ + decimal(b.functions as nat) + " fn]"@,
        unknown_message(kind, s, names) == "unknown "@ + kind + " '"@ + s + "' (valid: "@ + joined(
            names,
            ", "@,
        ) + ")"@,
        tier_names() == seq![
            decimal_int(128),
            decimal_int(256),
            decimal_int(512),
            decimal_int(1024),
            decimal_int(2048),
            decimal_int(3008),
        ],
        invocations_of((b.cold_cycles, b.warm_per_cycle)) == b.cold_cycles + b.cold_cycles
            * b.warm_per_cycle,
{
    assert(b.cold_cycles * (1 + b.warm_per_cycle) == b.cold_cycles + b.cold_cycles
        * b.warm_per_cycle) by (nonlinear_arith);
    assert(tier_names() =~= seq![
        decimal_int(128),
        decimal_int(256),
        decimal_int(512),
        decimal_int(1024),
        decimal_int(2048),
        decimal_int(3008),
    ]);
}

/// The groups of a run add up one by one.
pub proof fn law_groups_add_one_by_one(buckets: Seq<IterationBucket>, b: IterationBucket)
    ensures
        bucket_sum(Seq::empty()) == 0,
        bucket_sum(buckets.push(b)) == bucket_sum(buckets) + b.invocations,
        functions_sum(Seq::empty()) == 0,
        functions_sum(buckets.push(b)) == functions_sum(buckets)
            + b.functions,
{
    assert(buckets.push(b).drop_last() =~= buckets);
}

/// Each cell's artifact is listed in the cell's place.
pub proof fn law_artifacts_follow_their_cells(cells: Seq<Cell>, i: int)
    requires
        0 <= i < cells.len(),
    ensures
        keys_of(cells).len() == cells.len(),
        keys_of(cells)[i] == cells[i].key(),
{
}

/// Cells of the languages asked for are all cells of theirs; where none is asked for,
/// every language is.
pub proof fn law_which_languages_are_asked_for(langs: Seq<Lang>, lang: Lang)
    ensures
        asks_for(langs, lang) <==> langs.len() == 0 || exists|i: int|
            0 <= i < langs.len() && #[trigger] langs[i] == lang,
{
}

/// Everything that the project owns carries its prefix.
pub proof fn law_owned_names_carry_the_prefix()
    ensures
        has_prefix(ROLE_NAME@, RESOURCE_PREFIX@),
        has_prefix(INLINE_POLICY_NAME@, RESOURCE_PREFIX@),
        has_prefix(TABLE_NAME@, RESOURCE_PREFIX@),
        has_prefix(SEED_KEY@, RESOURCE_PREFIX@),
        has_prefix(S3_OBJECT_KEY@, RESOURCE_PREFIX@),
        has_prefix(S3_LETTERCOUNT_KEY@, RESOURCE_PREFIX@),
        has_prefix(S3_BATCH_KEY@, RESOURCE_PREFIX@),
        has_prefix(S3_RECEIPT_KEY@, RESOURCE_PREFIX@),
        has_prefix(ORDER_PK@, RESOURCE_PREFIX@),
        has_prefix(ECR_REPO@, RESOURCE_PREFIX@),
        has_prefix(PREWARM_NONEXISTENT_FN@, RESOURCE_PREFIX@),
        has_prefix(KMS_ALIAS@, "alias/"@ + RESOURCE_PREFIX@),
        RESOURCE_PREFIX@ == PREFIX@ + "-"@,
{
    reveal_strlit("lambdabench-");
    reveal_strlit("lambdabench");
    reveal_strlit("-");
    reveal_strlit("lambdabench-lambda-exec");
    reveal_strlit("lambdabench-scenario-access");
    reveal_strlit("lambdabench-table");
    reveal_strlit("lambdabench-item");
    reveal_strlit("lambdabench-object");
    reveal_strlit("lambdabench-lettercount.json");
    reveal_strlit("lambdabench-batch.json");
    reveal_strlit("lambdabench-receipt");
    reveal_strlit("lambdabench-order");
    reveal_strlit("lambdabench-synthdl");
    reveal_strlit("lambdabench-probe-prewarm-nonexistent");
    reveal_strlit("alias/lambdabench-key");
    reveal_strlit("alias/");
    assert(RESOURCE_PREFIX@ =~= PREFIX@ + "-"@);
    assert(ROLE_NAME@.take(12) =~= RESOURCE_PREFIX@);
    assert(INLINE_POLICY_NAME@.take(12) =~= RESOURCE_PREFIX@);
    assert(TABLE_NAME@.take(12) =~= RESOURCE_PREFIX@);
    assert(SEED_KEY@.take(12) =~= RESOURCE_PREFIX@);
    assert(S3_OBJECT_KEY@.take(12) =~= RESOURCE_PREFIX@);
    assert(S3_LETTERCOUNT_KEY@.take(12) =~= RESOURCE_PREFIX@);
    assert(S3_BATCH_KEY@.take(12) =~= RESOURCE_PREFIX@);
    assert(S3_RECEIPT_KEY@.take(12) =~= RESOURCE_PREFIX@);
    assert(ORDER_PK@.take(12) =~= RESOURCE_PREFIX@);
    assert(ECR_REPO@.take(12) =~= RESOURCE_PREFIX@);
    assert(PREWARM_NONEXISTENT_FN@.take(12) =~= RESOURCE_PREFIX@);
    assert(KMS_ALIAS@.take(18) =~= "alias/"@ + RESOURCE_PREFIX@);
}

/// The function that is invoked to warm a connection is one that the project never
/// creates.
pub proof fn law_prewarmed_function_never_exists()
    ensures
        !is_managed_name(PREWARM_NONEXISTENT_FN@),
{
    reveal_strlit("lambdabench-probe-prewarm-nonexistent");
    reveal_strlit("lambdabench-");
    reveal_strlit("synthdl-");
    reveal_strlit("rust");
    reveal_strlit("node");
    reveal_strlit("java");
    reveal_strlit("python");
    reveal_strlit("go");
    let t = PREWARM_NONEXISTENT_FN@;
    assert(t[12] == 'p' && t[13] == 'r');
    assert forall|c: Cell| in_matrix(c) implies t != #[trigger] c.full_name() by {
        lemma_matrix_name_head(c);
        let head = RESOURCE_PREFIX@ + c.lang.name();
        let name = c.full_name();
        assert(name.take(head.len() as int)[12] == head[12]);
        assert(name.take(head.len() as int)[13] == head[13]);
        assert(head[12] == c.lang.name()[0]);
        assert(head[13] == c.lang.name()[1]);
        assert(name[12] == head[12] && name[13] == head[13]);
    }
    assert forall|f: int, k: int| 0 <= f < 4 && 0 <= k < 5 implies t != #[trigger] nth_synth_name(
        f,
        k,
    ) by {
        assert(nth_synth_name(f, k)[12] == 's');
    }
}

} // verus!
