//! The matrix, its names and its counts.
use bencher::config::{
    all_cells, all_managed_function_names, all_managed_log_group_names, cells_for_langs,
    synth_function_name, unique_artifacts, validate_memory_tiers, Arch, Cell, Jitter, Lang, Opt,
    Profile, Scenario, ECR_REPO, FULL_LIGHT_COUNTS, JITTER_AB_SCENARIOS, LAMBDA_LOG_GROUP_PREFIX,
    MEMORY_MB, RESOURCE_PREFIX, SMOKE_COUNTS, SNAPSTART_COLD_CYCLES, SYNTH_DEFAULT_SIZES_MB,
    SYNTH_IMAGE_FAMILIES, SYNTH_ZIP_FAMILIES,
};
/// Tripwire for README.md's Matrix function-count bullet ("= 674 Lambda
/// functions: Rust 228 ..., Node 102, Java ... plain 96 and SnapStart 92,
/// Python 78, and Go 78", plus the 24 jitter=On diagnostic cells). Any
/// config change that moves the matrix (a scenario, tier, floor, or A/B
/// cell) fails here until the README numbers are updated to match.
#[test]
fn all_cells_count_matches_readme() {
    let cells = all_cells();
    let by_lang: std::collections::BTreeMap<&str, usize> =
        cells
            .iter()
            .fold(std::collections::BTreeMap::new(), |mut acc, c| {
                *acc.entry(c.lang.as_str()).or_insert(0) += 1;
                acc
            });
    let snap = cells.iter().filter(|c| c.snapstart).count();
    let plain_java = cells
        .iter()
        .filter(|c| c.lang == Lang::Java && !c.snapstart)
        .count();
    let jitter_on = cells
        .iter()
        .filter(|c| matches!(c.jitter, Some(Jitter::On)))
        .count();
    let msg = "matrix size changed; update README.md's Matrix function-count bullet";
    assert_eq!(cells.len(), 674, "{msg} (total, found {})", cells.len());
    assert_eq!(by_lang.get("rust"), Some(&228), "{msg} (rust)");
    assert_eq!(by_lang.get("node"), Some(&102), "{msg} (node)");
    assert_eq!(plain_java, 96, "{msg} (plain java)");
    assert_eq!(snap, 92, "{msg} (java snapstart)");
    assert_eq!(by_lang.get("python"), Some(&78), "{msg} (python)");
    assert_eq!(by_lang.get("go"), Some(&78), "{msg} (go)");
    assert_eq!(jitter_on, 24, "{msg} (rust jitter=On diagnostic cells)");
}

/// `Scenario::parse` round-trips every variant's `as_str`, trims whitespace,
/// and rejects unknown names. This guards the `--only` parser, which relies on
/// it so a newly added scenario is accepted without a second mapping.
#[test]
fn scenario_parse_round_trips_all_and_rejects_unknown() {
    for s in Scenario::ALL {
        assert_eq!(Scenario::parse(s.as_str()), Ok(s));
        assert_eq!(Scenario::parse(&format!("  {}  ", s.as_str())), Ok(s));
    }
    assert!(Scenario::parse("nope").is_err());
}

/// `Arch::parse` round-trips every variant's `as_str`, trims whitespace, and
/// rejects unknown names. Guards the `--arch` filter, which validates its
/// value through this so a typo (e.g. `x86`, `amd64`) fails loud rather than
/// silently selecting zero cells.
#[test]
fn arch_parse_round_trips_all_and_rejects_unknown() {
    for a in Arch::ALL {
        assert_eq!(Arch::parse(a.as_str()), Ok(a));
        assert_eq!(Arch::parse(&format!("  {}  ", a.as_str())), Ok(a));
    }
    assert!(Arch::parse("x86").is_err());
    assert!(Arch::parse("amd64").is_err());
}

/// Python never hosts the two Smithy scenarios (smithy-python has no server
/// SDK), so no `python` cell may exist for them, and every other scenario
/// must be present.
#[test]
fn python_skips_smithy_scenarios_only() {
    let py: Vec<Scenario> = all_cells()
        .into_iter()
        .filter(|c| c.lang == Lang::Python)
        .map(|c| c.scenario)
        .collect();
    assert!(!py.contains(&Scenario::Smithy));
    assert!(!py.contains(&Scenario::SmithyFull));
    for s in [
        Scenario::Hello,
        Scenario::OneClient,
        Scenario::ThreeClient,
        Scenario::LetterCount,
        Scenario::Authz,
        Scenario::Batch,
    ] {
        assert!(py.contains(&s), "python should host {s:?}");
    }
}

/// Go, like Python, never hosts the two Smithy scenarios (smithy-go's server
/// codegen is a WIP, unpublished, `awsJson1_0`-only generator with no Lambda
/// adapter, no fair counterpart to the restJson1 servers the other languages
/// host), so no `go` cell may exist for them, and every other scenario must
/// be present.
#[test]
fn go_skips_smithy_scenarios_only() {
    let go: Vec<Scenario> = all_cells()
        .into_iter()
        .filter(|c| c.lang == Lang::Go)
        .map(|c| c.scenario)
        .collect();
    assert!(!go.contains(&Scenario::Smithy));
    assert!(!go.contains(&Scenario::SmithyFull));
    for s in [
        Scenario::Hello,
        Scenario::OneClient,
        Scenario::ThreeClient,
        Scenario::LetterCount,
        Scenario::Authz,
        Scenario::Batch,
    ] {
        assert!(go.contains(&s), "go should host {s:?}");
    }
}

/// Go runs on the OS-only `provided.al2023` runtime (it compiles to a native
/// executable, like Rust) and uses the custom-runtime `bootstrap` handler.
#[test]
fn go_uses_provided_runtime_and_bootstrap_handler() {
    assert_eq!(Lang::Go.runtime(), "provided.al2023");
    let cell = Cell {
        lang: Lang::Go,
        scenario: Scenario::Hello,
        arch: Arch::Arm64,
        memory_mb: 128,
        opt: None,
        snapstart: false,
        jitter: None,
    };
    assert_eq!(cell.handler(), "bootstrap");
}

/// Every Go scenario is arch-specific (a native per-arch binary): the two
/// arches yield distinct artifact keys and arch-tagged labels, and Go cells
/// carry no opt-level or SnapStart dimension (like Node/Python).
#[test]
fn go_artifacts_are_per_arch_with_no_opt_or_snapstart() {
    let arm = Cell {
        lang: Lang::Go,
        scenario: Scenario::Hello,
        arch: Arch::Arm64,
        memory_mb: 128,
        opt: None,
        snapstart: false,
        jitter: None,
    };
    let x86 = Cell {
        arch: Arch::X86_64,
        ..arm
    };
    assert_ne!(arm.artifact_key(), x86.artifact_key());
    assert_eq!(arm.artifact_key().label(), "go-hello-arm64");
    assert_eq!(x86.artifact_key().label(), "go-hello-x86_64");
    for c in all_cells().into_iter().filter(|c| c.lang == Lang::Go) {
        assert!(c.opt.is_none(), "go cells carry no opt-level");
        assert!(!c.snapstart, "go cells are never SnapStart");
        assert!(c.jitter.is_none(), "go cells carry no jitter dimension");
    }
}

/// Only `authz` is arch-specific for Python (it carries a native crypto
/// wheel): its artifact key keeps the arch and its label encodes it, while
/// every other Python scenario collapses to one arch-independent artifact
/// shared by both arches.
#[test]
fn python_authz_is_arch_specific_others_are_not() {
    let arm = Cell {
        lang: Lang::Python,
        scenario: Scenario::Authz,
        arch: Arch::Arm64,
        memory_mb: 512,
        opt: None,
        snapstart: false,
        jitter: None,
    };
    let x86 = Cell {
        arch: Arch::X86_64,
        ..arm
    };
    assert_ne!(arm.artifact_key(), x86.artifact_key());
    assert_eq!(arm.artifact_key().label(), "python-authz-arm64");
    assert_eq!(x86.artifact_key().label(), "python-authz-x86_64");

    let hello_arm = Cell {
        scenario: Scenario::Hello,
        ..arm
    };
    let hello_x86 = Cell {
        scenario: Scenario::Hello,
        ..x86
    };
    assert_eq!(hello_arm.artifact_key(), hello_x86.artifact_key());
    assert_eq!(hello_arm.artifact_key().label(), "python-hello");
}

/// Python carries no opt-level or SnapStart dimension (like Node): every
/// Python cell is a single plain runtime.
#[test]
fn python_cells_have_no_opt_or_snapstart() {
    for c in all_cells().into_iter().filter(|c| c.lang == Lang::Python) {
        assert!(c.opt.is_none(), "python cells carry no opt-level");
        assert!(!c.snapstart, "python cells are never SnapStart");
        assert!(c.jitter.is_none(), "python cells carry no jitter dimension");
    }
}

/// The diagnostic jitter=On A/B is generated only for `oneclient` and
/// `lettercount`, only on Rust, only at o3, and never SnapStart. Every other
/// Rust cell carries `Some(Jitter::Off)`; non-Rust cells carry `None`. Only
/// jitter=On adds a `-jitter` segment to the function name / artifact label,
/// so a jitter=Off Rust cell is indistinguishable from a non-A/B Rust cell.
#[test]
fn jitter_on_variant_is_scoped_and_named() {
    let cells = all_cells();
    let jitter_on: Vec<&Cell> = cells
        .iter()
        .filter(|c| matches!(c.jitter, Some(Jitter::On)))
        .collect();
    assert!(!jitter_on.is_empty(), "expected diagnostic jitter=On cells");
    for c in &jitter_on {
        assert_eq!(c.lang, Lang::Rust, "jitter=On is Rust-only");
        assert!(
            JITTER_AB_SCENARIOS.contains(&c.scenario),
            "jitter=On scenario {:?} is not in JITTER_AB_SCENARIOS",
            c.scenario
        );
        assert_eq!(c.opt, Some(Opt::O3), "jitter=On uses o3 only");
        assert!(!c.snapstart, "jitter=On is never SnapStart");
        assert!(
            c.function_name().contains("-jitter-"),
            "jitter=On function name must include the `-jitter` segment: {}",
            c.function_name()
        );
        assert!(
            c.artifact_key().label().ends_with("-jitter"),
            "jitter=On artifact label must end with `-jitter`: {}",
            c.artifact_key().label()
        );
    }
    // Every Rust cell carries Some(jitter); every non-Rust cell carries
    // None. jitter=Off must NOT add a tag to names/labels, so the headline
    // matrix is named the same way regardless of whether the diagnostic A/B
    // is in scope (otherwise jitter=Off + jitter=On would split into two
    // chart cells under the same `series|scenario|memory` key without the
    // site noticing).
    for c in &cells {
        match c.lang {
            Lang::Rust => assert!(c.jitter.is_some(), "rust cells must carry jitter"),
            _ => assert!(c.jitter.is_none(), "non-rust cells carry no jitter"),
        }
        if matches!(c.jitter, Some(Jitter::Off)) {
            let name = c.function_name();
            assert!(
                !name.split('-').any(|seg| seg == "jitter"),
                "jitter=Off cells must not carry the `jitter` segment: {name}"
            );
            let label = c.artifact_key().label();
            assert!(
                !label.split('-').any(|seg| seg == "jitter"),
                "jitter=Off labels must not carry the `jitter` segment: {label}"
            );
        }
    }
}

/// Every cell in `all_cells()` deploys to a distinct Lambda function, so
/// `function_name()` must be unique across the full matrix, not just
/// within a (lang, scenario) group. This catches future tagging
/// regressions: any new dimension that fails to extend the function name
/// (a SnapStart-style or jitter-style suffix) would silently collide and
/// the second cell's deploy would overwrite the first's, indistinguishable
/// in the recorded results.
#[test]
fn function_names_are_unique_across_full_matrix() {
    let cells = all_cells();
    let mut seen: std::collections::HashMap<String, &Cell> = std::collections::HashMap::new();
    for c in &cells {
        let name = c.function_name();
        if let Some(prev) = seen.insert(name.clone(), c) {
            panic!(
                "function name collision on {name}: {prev:?} vs {c:?}, a new \
                 matrix dimension is missing its name segment"
            );
        }
    }
    assert_eq!(seen.len(), cells.len());
}

/// `all_managed_function_names` is the exact set teardown deletes. It must
/// cover every matrix function and every synthetic probe default-size family,
/// and carry no duplicates.
#[test]
fn managed_function_names_cover_matrix_and_synthetic() {
    let managed: std::collections::HashSet<String> =
        all_managed_function_names().into_iter().collect();

    // Every matrix function is present.
    for c in all_cells() {
        assert!(
            managed.contains(&c.function_name()),
            "managed set missing matrix function {}",
            c.function_name()
        );
    }

    // Every synthetic default-size family (zip + image) is present.
    for family in SYNTH_ZIP_FAMILIES.iter().chain(SYNTH_IMAGE_FAMILIES.iter()) {
        for mb in SYNTH_DEFAULT_SIZES_MB {
            let name = synth_function_name(family, mb);
            assert!(
                managed.contains(&name),
                "managed set missing synthetic {name}"
            );
        }
    }

    let expected = all_cells().len()
        + (SYNTH_ZIP_FAMILIES.len() + SYNTH_IMAGE_FAMILIES.len())
            * SYNTH_DEFAULT_SIZES_MB.len();
    assert_eq!(
        managed.len(),
        expected,
        "managed set size {} != matrix + synthetic {expected} (unexpected overlap or gap)",
        managed.len()
    );
    // Vec is deduped: unique count equals returned length.
    assert_eq!(all_managed_function_names().len(), managed.len());
}

/// Every managed function name carries `RESOURCE_PREFIX`, so the CDK's
/// `lambdabench-*` IAM wildcard remains a correct upper bound on what teardown
/// (and the runner generally) can address. Parity with the ECR repo test.
#[test]
fn managed_function_names_carry_resource_prefix() {
    for name in all_managed_function_names() {
        assert!(
            name.starts_with(RESOURCE_PREFIX),
            "managed function name {name} does not start with {RESOURCE_PREFIX}"
        );
    }
}

/// Log-group names are exactly the function names under `/aws/lambda/`, and
/// one-to-one with them.
#[test]
fn managed_log_group_names_map_from_functions() {
    let fns = all_managed_function_names();
    let groups = all_managed_log_group_names();
    assert_eq!(fns.len(), groups.len());
    for (f, g) in fns.iter().zip(&groups) {
        assert_eq!(g, &format!("{LAMBDA_LOG_GROUP_PREFIX}{f}"));
    }
}

/// Jitter A/B cells (Rust + o3 + `JITTER_AB_SCENARIOS`) bypass the
/// scenario-level lettercount override (5 × 1500) under the Full profile. The
/// cliff/bump P50 comparison needs matched cold-sample density between
/// `oneclient` and `lettercount`, and the lettercount override would leave the
/// `lettercount` panel at n=5 cold samples while `oneclient` ran with the
/// light count, too lopsided to claim "flat bump" with. Non-jitter Rust
/// lettercount cells, and the Oz lettercount cells, keep the override.
#[test]
fn jitter_ab_cells_use_light_iteration_counts_under_full() {
    let make = |scenario, opt, jitter| Cell {
        lang: Lang::Rust,
        scenario,
        arch: Arch::Arm64,
        memory_mb: 512,
        opt: Some(opt),
        snapstart: false,
        jitter: Some(jitter),
    };
    // Both halves of the jitter A/B fall through to the light counts.
    let on = make(Scenario::LetterCount, Opt::O3, Jitter::On);
    let off = make(Scenario::LetterCount, Opt::O3, Jitter::Off);
    assert!(on.is_jitter_ab());
    assert!(off.is_jitter_ab());
    assert_eq!(on.iterations(Profile::Full), FULL_LIGHT_COUNTS);
    assert_eq!(off.iterations(Profile::Full), FULL_LIGHT_COUNTS);
    // OneClient is also part of the A/B and is a light scenario anyway, so it
    // uses the light counts under Full.
    assert_eq!(
        make(Scenario::OneClient, Opt::O3, Jitter::Off).iterations(Profile::Full),
        FULL_LIGHT_COUNTS
    );
    // The Oz lettercount cell is NOT in the A/B (jitter is Rust o3 only),
    // so it still picks up the lettercount override (5 cold × 1500 warm).
    let oz_letter = make(Scenario::LetterCount, Opt::Oz, Jitter::Off);
    assert!(!oz_letter.is_jitter_ab());
    assert_eq!(oz_letter.iterations(Profile::Full), (5, 1500));
    // A non-jitter scenario at o3 (e.g. authz) keeps its own override.
    let authz = make(Scenario::Authz, Opt::O3, Jitter::Off);
    assert!(!authz.is_jitter_ab());
    assert_eq!(authz.iterations(Profile::Full), (5, 1500));
}

/// The CPU-probe counts are thinned on the slowest runtime (Python) at the
/// starved low tiers (≤256 MB), but unchanged for compiled runtimes and for
/// Python at the larger tiers. All memory tiers stay in the matrix (we thin
/// samples, not tiers).
#[test]
fn cpu_probe_counts_thin_only_starved_python() {
    // Python at starved tiers: reduced.
    assert_eq!(
        Scenario::LetterCount.full_base_counts(Lang::Python, 128),
        (5, 300)
    );
    assert_eq!(
        Scenario::Batch.full_base_counts(Lang::Python, 256),
        (5, 200)
    );
    // Python above the starved tiers: full counts.
    assert_eq!(
        Scenario::LetterCount.full_base_counts(Lang::Python, 512),
        (5, 1500)
    );
    assert_eq!(
        Scenario::Batch.full_base_counts(Lang::Python, 512),
        (15, 200)
    );
    // Compiled runtimes are never thinned, even at the smallest tier.
    assert_eq!(
        Scenario::LetterCount.full_base_counts(Lang::Rust, 128),
        (5, 1500)
    );
    assert_eq!(Scenario::Batch.full_base_counts(Lang::Java, 512), (15, 200));
    // Light scenarios use the light counts, regardless of lang/memory.
    assert_eq!(
        Scenario::Hello.full_base_counts(Lang::Python, 128),
        FULL_LIGHT_COUNTS
    );
}

/// The SnapStart cold-cycle clamp applies under any profile and only ever
/// reduces the cold count, keeping the resolved warm count.
#[test]
fn snapstart_clamps_cold_cycles_keeping_warm() {
    let snap = Cell {
        lang: Lang::Java,
        scenario: Scenario::Hello,
        arch: Arch::Arm64,
        memory_mb: 512,
        opt: None,
        snapstart: true,
        jitter: None,
    };
    // Full light cold count (50) is clamped to SNAPSTART_COLD_CYCLES (10);
    // warm is unchanged.
    let (cold, warm) = snap.iterations(Profile::Full);
    assert_eq!(cold, SNAPSTART_COLD_CYCLES);
    assert_eq!(warm, FULL_LIGHT_COUNTS.1);
    // Smoke's tiny cold count is already below the clamp, so it is unchanged.
    assert_eq!(snap.iterations(Profile::Smoke), SMOKE_COUNTS);
}

/// The repository name carries the common stem.
#[test]
fn ecr_repo_carries_resource_prefix() {
    assert!(ECR_REPO.starts_with(RESOURCE_PREFIX));
}

fn rust_cell(scenario: Scenario, memory_mb: i32) -> Cell {
    Cell {
        lang: Lang::Rust,
        scenario,
        arch: Arch::Arm64,
        memory_mb,
        opt: Some(Opt::O3),
        snapstart: false,
        jitter: Some(Jitter::Off),
    }
}

#[test]
fn lang_parse_round_trips_and_lists_valid_names() {
    for l in Lang::ALL {
        assert_eq!(Lang::parse(l.as_str()), Ok(l));
        assert_eq!(Lang::parse(&format!("\t {}\u{2003}\n", l.as_str())), Ok(l));
    }
    assert_eq!(
        Lang::parse(" ruby"),
        Err("unknown lang ' ruby' (valid: rust, node, java, python, go)".to_string())
    );
    assert_eq!(
        Arch::parse("x86"),
        Err("unknown arch 'x86' (valid: arm64, x86_64)".to_string())
    );
    assert_eq!(
        Scenario::parse(""),
        Err("unknown scenario '' (valid: hello, smithy, oneclient, threeclient, smithyfull, \
             lettercount, authz, batch, cache)"
            .to_string())
    );
}

#[test]
fn spellings_of_the_dimensions() {
    assert_eq!(Arch::X86_64.lambda_arch(), "x86_64");
    assert_eq!(Arch::X86_64.oci_arch(), "amd64");
    assert_eq!(Arch::Arm64.oci_arch(), "arm64");
    assert_eq!(Opt::Oz.cargo_opt_level(), "z");
    assert_eq!(Opt::O3.cargo_opt_level(), "3");
    assert_eq!(Jitter::On.as_str(), "on");
    assert_eq!(Jitter::Off.as_str(), "off");
    assert_eq!(Lang::Java.runtime(), "java25");
    assert_eq!(Lang::Node.runtime(), "nodejs24.x");
    assert_eq!(Lang::Python.runtime(), "python3.14");
    assert_eq!(Profile::default(), Profile::Full);
}

#[test]
fn function_names_spell_every_dimension() {
    let rust = rust_cell(Scenario::Hello, 1024);
    assert_eq!(rust.function_name(), "lambdabench-rust-hello-arm64-o3-1024");
    let java = Cell {
        lang: Lang::Java,
        opt: None,
        jitter: None,
        snapstart: true,
        ..rust
    };
    assert_eq!(java.function_name(), "lambdabench-java-hello-arm64-snap-1024");
    let jitter = Cell {
        scenario: Scenario::OneClient,
        jitter: Some(Jitter::On),
        ..rust
    };
    assert_eq!(
        jitter.function_name(),
        "lambdabench-rust-oneclient-arm64-o3-jitter-1024"
    );
    let odd = Cell {
        memory_mb: -5,
        ..rust
    };
    assert_eq!(odd.function_name(), "lambdabench-rust-hello-arm64-o3--5");
}

#[test]
fn handlers_follow_language_and_scenario() {
    let java = |scenario| Cell {
        lang: Lang::Java,
        scenario,
        arch: Arch::Arm64,
        memory_mb: 512,
        opt: None,
        snapstart: false,
        jitter: None,
    };
    assert_eq!(
        java(Scenario::OneClient).handler(),
        "lambdabench.OneClientHandler::handleRequest"
    );
    assert_eq!(
        java(Scenario::SmithyFull).handler(),
        "software.amazon.smithy.java.aws.integrations.lambda.LambdaEndpoint::handleRequest"
    );
    let node = Cell {
        lang: Lang::Node,
        ..java(Scenario::Hello)
    };
    assert_eq!(node.handler(), "index.handler");
    let python = Cell {
        lang: Lang::Python,
        ..java(Scenario::Hello)
    };
    assert_eq!(python.handler(), "handler.handler");
}

#[test]
fn validity_is_what_the_matrix_keeps() {
    for c in all_cells() {
        assert!(c.is_valid());
    }
    let rust = rust_cell(Scenario::Hello, 128);
    assert!(!Cell { opt: None, ..rust }.is_valid());
    assert!(!Cell { jitter: None, ..rust }.is_valid());
    assert!(!Cell { snapstart: true, ..rust }.is_valid());
    assert!(!Cell { jitter: Some(Jitter::On), ..rust }.is_valid());
    let ab = rust_cell(Scenario::LetterCount, 128);
    assert!(Cell { jitter: Some(Jitter::On), ..ab }.is_valid());
    assert!(!Cell { jitter: Some(Jitter::On), opt: Some(Opt::Oz), ..ab }.is_valid());
}

#[test]
fn memory_floors_by_language_and_variant() {
    assert_eq!(Scenario::Batch.min_memory_mb(Lang::Java, true), 1024);
    assert_eq!(Scenario::Batch.min_memory_mb(Lang::Java, false), 512);
    assert_eq!(Scenario::Batch.min_memory_mb(Lang::Go, false), 256);
    assert_eq!(Scenario::SmithyFull.min_memory_mb(Lang::Java, true), 256);
    assert_eq!(Scenario::SmithyFull.min_memory_mb(Lang::Java, false), 128);
    assert_eq!(Scenario::LetterCount.min_memory_mb(Lang::Java, false), 512);
    assert_eq!(Scenario::LetterCount.min_memory_mb(Lang::Rust, false), 128);
    assert_eq!(Scenario::Cache.min_memory_mb(Lang::Rust, false), 512);
}

#[test]
fn needs_of_the_scenarios() {
    assert!(Scenario::LetterCount.needs_s3() && !Scenario::LetterCount.needs_kms_s3());
    assert!(Scenario::SmithyFull.needs_s3() && Scenario::SmithyFull.needs_kms_s3());
    assert!(Scenario::OneClient.needs_ddb() && !Scenario::OneClient.needs_s3());
    assert!(!Scenario::Hello.needs_ddb());
    assert!(Scenario::Smithy.is_http_fronted() && !Scenario::Authz.is_http_fronted());
}

#[test]
fn memory_tiers_are_checked_in_order() {
    assert_eq!(validate_memory_tiers(&MEMORY_MB), Ok(()));
    assert_eq!(validate_memory_tiers(&[]), Ok(()));
    assert_eq!(
        validate_memory_tiers(&[512, 1000, -7]),
        Err("--memory 1000 is not a swept tier (valid: 128, 256, 512, 1024, 2048, 3008)".to_string())
    );
    assert_eq!(
        validate_memory_tiers(&[-7]),
        Err("--memory -7 is not a swept tier (valid: 128, 256, 512, 1024, 2048, 3008)".to_string())
    );
}

#[test]
fn cells_of_languages_keep_sweep_order() {
    let all = all_cells();
    assert_eq!(cells_for_langs(&[]), all);
    let some = cells_for_langs(&[Lang::Go, Lang::Rust]);
    let expected: Vec<Cell> = all
        .into_iter()
        .filter(|c| c.lang == Lang::Go || c.lang == Lang::Rust)
        .collect();
    assert_eq!(some, expected);
    assert_eq!(some[0].function_name(), "lambdabench-rust-hello-arm64-o3-128");
    assert_eq!(some[1].function_name(), "lambdabench-rust-hello-arm64-oz-128");
}

#[test]
fn artifacts_are_shared_across_memory_and_snapstart() {
    let cells = all_cells();
    let keys = unique_artifacts(&cells);
    let mut labels: Vec<String> = keys.iter().map(|k| k.label()).collect();
    assert_eq!(labels[0], "rust-hello-arm64-o3");
    assert_eq!(labels[1], "rust-hello-arm64-oz");
    labels.sort();
    labels.dedup();
    assert_eq!(labels.len(), keys.len());
    for c in &cells {
        assert!(keys.contains(&c.artifact_key()));
    }
    // Rust: 9 scenarios x 2 arches x 2 levels, and 2 x 2 with jitter; Node and
    // Java one for each scenario; Python 7 with authz twice; Go 7 x 2.
    assert_eq!(keys.len(), 36 + 4 + 9 + 9 + 8 + 14);
}

#[test]
fn managed_names_ascend() {
    let names = all_managed_function_names();
    assert_eq!(names.len(), 694);
    for pair in names.windows(2) {
        assert!(pair[0] < pair[1]);
    }
    assert!(names.contains(&"lambdabench-synthdl-image-touched-200mb".to_string()));
    assert!(!names.contains(&"lambdabench-runner".to_string()));
}

#[test]
fn jitter_pairs_get_the_same_counts() {
    for profile in [Profile::Full, Profile::Smoke] {
        for c in all_cells().iter().filter(|c| c.jitter == Some(Jitter::On)) {
            let off = Cell {
                jitter: Some(Jitter::Off),
                ..*c
            };
            assert_eq!(c.iterations(profile), off.iterations(profile));
        }
    }
}
