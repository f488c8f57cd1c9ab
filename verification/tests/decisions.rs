//! Planning, deploying, provisioning and tearing down.
use bencher::artifact::{
    go_arch, java_tasks, keys_of_lang, rust_build, single_zip, tool_version, wheel_platforms,
    zip_name,
};
use bencher::clock::{fresh_nonce, hms, now_unix_ms, run_id, run_id_at, utc_hms};
use bencher::config::{
    all_cells, unique_artifacts, Arch, Cell, Jitter, Lang, Opt, Profile, Scenario, KMS_ALIAS,
    S3_BATCH_KEY_CARDINALITY,
};
use bencher::deploy::{
    cell_sizes, deploy_sources, first_failure, settle_key, sizes_from_artifacts, Artifact,
};
use bencher::lambda::{
    bucket_name, code_source, ensure_steps, environment, image_environment, invoke_payload,
    leaves_function, poll_budget_secs, published_version, read_reply, ready_expired, ready_poll,
    reply_with_tail, retry_creation, staged_code_key, version_expired, version_poll,
    with_cold_nonce, CodeSource, CreateFailure, DeployStep, FunctionSeen, FunctionState, Poll,
    RawReply, UpdateStatus, VersionSeen, INLINE_ZIP_LIMIT,
};
use bencher::payload::{
    build_json_array, generate_batch_payload, generate_lettercount_payload, BatchEntries,
};
use bencher::plan::{
    check_none_missing, describe_buckets, doctor_verdict, is_confirmed, iteration_buckets,
    meta_file_name, plan_run, planned_total, progress_line, rows_file_name, run_steps, RunMeta,
    RunParams, RunStatus, RunStep,
};
use bencher::provision::{
    alias_key, batch_version, bucket_is_there, ecr_image_uri, has_creation_tag, image_size,
    lettercount_version, needs_location, password_from_bytes, password_in, registry_password,
    role_policy, role_step, seed_is_current, table_step, table_wait_expired, table_wait_failed,
    table_wait_over, tls_only_policy, wanted_boundary, AliasEntry, RoleStep, TableSeen, TableStep,
    TableWait, TRUST_POLICY,
};
use bencher::record::ArtifactSizes;
use bencher::select::{parse_langs, select_cells, RunArgs};
use bencher::targets::{
    check_targets_deployed, dedup_targets, default_targets, plan_download_start, probe_out_path,
    resolve_targets, TargetArgs,
};
use bencher::teardown::{summarize, teardown_verdict};

fn strings(v: &[&str]) -> Vec<String> {
    v.iter().map(|s| s.to_string()).collect()
}

fn args() -> RunArgs {
    RunArgs {
        profile: Profile::Full,
        pool: 32,
        only: None,
        lang: vec![],
        memory: vec![],
        arch: None,
        skip_build: false,
        skip_deploy: false,
    }
}

fn cell(lang: Lang, scenario: Scenario) -> Cell {
    let rust = lang == Lang::Rust;
    Cell {
        lang,
        scenario,
        arch: Arch::Arm64,
        memory_mb: 512,
        opt: if rust { Some(Opt::O3) } else { None },
        snapstart: false,
        jitter: if rust { Some(Jitter::Off) } else { None },
    }
}

// ---- selection ----

#[test]
fn languages_are_read_in_order() {
    assert_eq!(
        parse_langs(&strings(&["go", " rust "])),
        Ok(vec![Lang::Go, Lang::Rust])
    );
    assert_eq!(parse_langs(&[]), Ok(vec![]));
    assert_eq!(
        parse_langs(&strings(&["go", "perl", "ruby"])),
        Err("unknown lang 'perl' (valid: rust, node, java, python, go)".to_string())
    );
}

#[test]
fn filters_narrow_the_matrix() {
    assert_eq!(select_cells(&args(), &[]).unwrap(), all_cells());
    let filtered = RunArgs {
        only: Some("rust:hello, java : batch".to_string()),
        memory: vec![512, 1024],
        arch: Some(" x86_64 ".to_string()),
        ..args()
    };
    let names: Vec<String> = select_cells(&filtered, &[])
        .unwrap()
        .iter()
        .map(|c| c.function_name())
        .collect();
    assert_eq!(
        names,
        strings(&[
            "lambdabench-rust-hello-x86_64-o3-512",
            "lambdabench-rust-hello-x86_64-oz-512",
            "lambdabench-rust-hello-x86_64-o3-1024",
            "lambdabench-rust-hello-x86_64-oz-1024",
            "lambdabench-java-batch-x86_64-512",
            "lambdabench-java-batch-x86_64-1024",
            "lambdabench-java-batch-x86_64-snap-1024",
        ])
    );
}

#[test]
fn bad_filters_are_refused() {
    let only = |s: &str| RunArgs {
        only: Some(s.to_string()),
        ..args()
    };
    assert_eq!(
        select_cells(&only("rust"), &[]).unwrap_err(),
        "--only entry 'rust' must be lang:scenario"
    );
    assert_eq!(
        select_cells(&only("rust:hello,"), &[]).unwrap_err(),
        "--only entry '' must be lang:scenario"
    );
    assert_eq!(
        select_cells(&only("perl:hello"), &[]).unwrap_err(),
        "unknown lang 'perl' (valid: rust, node, java, python, go) in --only entry 'perl:hello'"
    );
    assert_eq!(
        select_cells(&only("rust:a:b"), &[]).unwrap_err(),
        "unknown scenario 'a:b' (valid: hello, smithy, oneclient, threeclient, smithyfull, \
         lettercount, authz, batch, cache) in --only entry 'rust:a:b'"
    );
    assert_eq!(
        select_cells(&only("go:smithy"), &[]).unwrap_err(),
        "--only entry 'go:smithy' selects go:smithy, which is not part of the matrix \
         (go has no smithy scenario)"
    );
    assert_eq!(
        select_cells(&only("go:hello"), &[Lang::Rust, Lang::Node]).unwrap_err(),
        "--only entry 'go:hello' names lang 'go', which is excluded by --lang \
         [\"rust\", \"node\"]; the two filters select nothing in common"
    );
    let arch = RunArgs {
        arch: Some("amd64".to_string()),
        memory: vec![7],
        ..args()
    };
    assert_eq!(
        select_cells(&arch, &[]).unwrap_err(),
        "unknown arch 'amd64' (valid: arm64, x86_64)"
    );
    let memory = RunArgs {
        memory: vec![128, 7],
        ..args()
    };
    assert!(select_cells(&memory, &[])
        .unwrap_err()
        .starts_with("--memory 7 is not a swept tier"));
}

#[test]
fn plans_count_every_invocation() {
    let plan = plan_run(&args()).unwrap();
    assert_eq!(plan.cells.len(), 674);
    let direct: u64 = plan
        .cells
        .iter()
        .map(|c| {
            let (cold, warm) = c.iterations(Profile::Full);
            cold as u64 * (1 + warm as u64)
        })
        .sum();
    assert_eq!(plan.planned, direct);
    assert_eq!(planned_total(&plan.buckets), direct);
    let functions: usize = plan.buckets.iter().map(|b| b.functions).sum();
    assert_eq!(functions, 674);
    for pair in plan.buckets.windows(2) {
        assert!(
            (pair[0].cold_cycles, pair[0].warm_per_cycle)
                < (pair[1].cold_cycles, pair[1].warm_per_cycle)
        );
    }
    assert_eq!(plan.keys, unique_artifacts(&plan.cells));
    let smoke = plan_run(&RunArgs {
        profile: Profile::Smoke,
        ..args()
    })
    .unwrap();
    assert_eq!(describe_buckets(&smoke.buckets), "2x(1+2) [674 fn]");
    assert_eq!(smoke.planned, 674 * 6);
    let nothing = RunArgs {
        only: Some("rust:cache".to_string()),
        memory: vec![128],
        ..args()
    };
    assert_eq!(
        plan_run(&nothing).err().unwrap(),
        "no cells selected (check --lang/--only/--memory/--arch filters)"
    );
    let unknown = RunArgs {
        lang: strings(&["x"]),
        ..args()
    };
    assert!(plan_run(&unknown).err().unwrap().starts_with("unknown lang 'x'"));
}

#[test]
fn buckets_group_by_counts() {
    let cells = vec![
        cell(Lang::Rust, Scenario::Authz),
        cell(Lang::Rust, Scenario::Hello),
        cell(Lang::Node, Scenario::Hello),
        cell(Lang::Node, Scenario::Batch),
    ];
    let buckets = iteration_buckets(&cells, Profile::Full);
    assert_eq!(
        describe_buckets(&buckets),
        "5x(1+1500) [1 fn], 15x(1+200) [1 fn], 50x(1+50) [2 fn]"
    );
    assert_eq!(buckets[2].invocations, 5100);
    assert!(iteration_buckets(&[], Profile::Full).is_empty());
}

#[test]
fn summaries_open_and_close() {
    let plan = plan_run(&RunArgs {
        lang: strings(&["node"]),
        profile: Profile::Smoke,
        ..args()
    })
    .unwrap();
    let params = RunParams {
        profile: Profile::Smoke,
        pool: 4,
    };
    let mut meta = RunMeta::started(
        "7-ab".to_string(),
        7,
        "123".to_string(),
        params,
        &plan,
        "{}".to_string(),
    );
    assert_eq!(meta.status, RunStatus::Running);
    assert_eq!(meta.region, "eu-central-1");
    assert_eq!(meta.total_functions, 102);
    assert_eq!(meta.total_invocations_planned, 612);
    assert_eq!(meta.memory_mb, vec![128, 256, 512, 1024, 2048, 3008]);
    assert_eq!(meta.finished_at_unix_ms, None);
    meta.finish(true, 9, 612);
    assert_eq!(meta.status, RunStatus::Succeeded);
    assert_eq!(meta.finished_at_unix_ms, Some(9));
    assert_eq!(meta.total_invocations_recorded, 612);
    meta.finish(false, 10, 3);
    assert_eq!(meta.status, RunStatus::Failed);
    assert_eq!(rows_file_name("7-ab"), "run-7-ab.jsonl.gz");
    assert_eq!(meta_file_name("7-ab"), "run-7-ab.meta.json");
}

#[test]
fn steps_of_a_run() {
    assert_eq!(
        run_steps(false, true),
        vec![
            RunStep::Build,
            RunStep::CheckDeployed,
            RunStep::OpenSummary,
            RunStep::Measure,
            RunStep::CloseSummary
        ]
    );
    assert_eq!(run_steps(true, false)[..2], [RunStep::LoadBuilt, RunStep::Deploy]);
}

#[test]
fn missing_functions_are_listed_once() {
    assert_eq!(check_none_missing(&vec![]), Ok(()));
    assert_eq!(
        check_none_missing(&strings(&["b", "a", "b"])),
        Err("--skip-deploy: 2 selected function(s) are not deployed: a, b. \
             Deploy them (drop --skip-deploy) or adjust the run filters."
            .to_string())
    );
    assert_eq!(check_targets_deployed(&vec![]), Ok(()));
    assert_eq!(
        check_targets_deployed(&strings(&["b", "a"])),
        Err("2 probe function(s) are not deployed: a, b. Deploy the matrix first \
             (`bencher run` or `bencher run --skip-build`)."
            .to_string())
    );
}

#[test]
fn confirmations_and_prerequisites() {
    assert!(is_confirmed(true, ""));
    assert!(is_confirmed(false, " yes\n"));
    assert!(!is_confirmed(false, "y"));
    assert_eq!(doctor_verdict(&[true; 10]), Ok(()));
    let mut found = [true; 10];
    found[1] = false;
    found[9] = false;
    assert_eq!(
        doctor_verdict(&found),
        Err("doctor: missing prerequisites: [\"cargo-lambda\", \"aws-credentials\"]".to_string())
    );
    assert_eq!(
        progress_line("01:02:03", 4, 9, "f", &None),
        "[01:02:03] [4/9] done f"
    );
    assert_eq!(
        progress_line("01:02:03", 4, 9, "f", &Some("why".to_string())),
        "[01:02:03] [4/9] FAILED f: why"
    );
}

// ---- probe targets ----

#[test]
fn default_targets_are_distinct_and_ordered() {
    let t = default_targets();
    assert_eq!(t.len(), 17);
    assert_eq!(t[0], (Lang::Rust, Scenario::Hello, 128));
    assert_eq!(t[10], (Lang::Node, Scenario::SmithyFull, 512));
    assert_eq!(t[16], (Lang::Go, Scenario::OneClient, 3008));
    let twice = vec![t[0], t[1], t[0], t[1], t[2]];
    assert_eq!(dedup_targets(twice), t[..3].to_vec());
}

fn targets(only: Option<&str>, memory: &[i32]) -> TargetArgs {
    TargetArgs {
        only: only.map(|s| s.to_string()),
        memory: memory.to_vec(),
    }
}

#[test]
fn targets_resolve_to_plain_cells() {
    let t = resolve_targets(&targets(None, &[]), Arch::Arm64).unwrap();
    assert_eq!(t.cells.len(), 17);
    assert!(t.notes.is_empty());
    for c in &t.cells {
        assert!(!c.snapstart && c.jitter != Some(Jitter::On) && c.opt != Some(Opt::Oz));
    }
    let pairs = resolve_targets(&targets(None, &[128, 3008]), Arch::X86_64).unwrap();
    // 10 pairs at two tiers each, none of them below a floor.
    assert_eq!(pairs.cells.len(), 20);
    let named = resolve_targets(&targets(Some("java:batch,rust:hello"), &[]), Arch::Arm64).unwrap();
    let names: Vec<String> = named.cells.iter().map(|c| c.function_name()).collect();
    assert_eq!(
        names,
        strings(&["lambdabench-java-batch-arm64-512", "lambdabench-rust-hello-arm64-o3-512"])
    );
    let low = resolve_targets(&targets(Some("java:batch,java:batch"), &[256, 1024]), Arch::Arm64).unwrap();
    assert_eq!(low.cells.len(), 1);
    assert_eq!(
        low.notes,
        strings(&[
            "skip java:batch @ 256 MB (below floor 512 MB)",
            "skip java:batch @ 256 MB (below floor 512 MB)"
        ])
    );
}

#[test]
fn bad_targets_are_refused() {
    let refuse = |only: Option<&str>, memory: &[i32]| {
        resolve_targets(&targets(only, memory), Arch::Arm64).err().unwrap()
    };
    assert!(refuse(None, &[100]).starts_with("--memory 100 is not a swept tier"));
    assert_eq!(
        refuse(Some("rust"), &[]),
        "--only entry 'rust' must be lang:scenario"
    );
    assert!(refuse(Some("x:hello"), &[]).ends_with(" in 'x:hello'"));
    assert!(refuse(Some("rust:x"), &[]).ends_with(" in 'rust:x'"));
    assert_eq!(
        refuse(Some("go:smithy"), &[]),
        "--only entry 'go:smithy' selects go:smithy, not part of the matrix"
    );
    assert_eq!(
        plan_download_start(&targets(Some("rust:cache"), &[128]), "arm64")
            .err()
            .unwrap(),
        "no target cells selected (check --only/--memory/--arch and scenario memory floors)"
    );
    assert!(plan_download_start(&targets(None, &[]), "arm")
        .err()
        .unwrap()
        .starts_with("unknown arch 'arm'"));
    let plan = plan_download_start(&targets(None, &[]), "x86_64").unwrap();
    assert_eq!(plan.keys, unique_artifacts(&plan.cells));
}

#[test]
fn probe_outputs_have_a_file_for_each_run() {
    assert_eq!(
        probe_out_path(&None, "download-start", "7-ab"),
        "results/lifecycle-download-start-7-ab.json"
    );
    assert_eq!(probe_out_path(&Some("x.json".to_string()), "k", "r"), "x.json");
}

// ---- clock ----

#[test]
fn times_and_ids() {
    assert_eq!(hms(0), "00:00:00");
    assert_eq!(hms(86_399_999), "23:59:59");
    assert_eq!(hms(86_400_000 + 3_723_000), "01:02:03");
    assert_eq!(utc_hms().len(), 8);
    assert!(now_unix_ms() > 1_600_000_000_000);
    assert_eq!(
        run_id_at(1_700_000_000_123, "0123456789-rest"),
        "1700000000123-01234567"
    );
    let id = run_id();
    let (ms, suffix) = id.split_once('-').unwrap();
    assert!(ms.parse::<u128>().unwrap() > 1_600_000_000_000);
    assert_eq!(suffix.len(), 8);
    assert!(suffix.chars().all(|c| c.is_ascii_hexdigit()));
    let a = fresh_nonce();
    assert_eq!(a.len(), 36);
    assert_ne!(a, fresh_nonce());
    assert!(run_id_at(1_700_000_000_123, "zzzzzzzz") < run_id_at(1_700_000_000_124, "00000000"));
}

// ---- deployment ----

fn artifact(cell: &Cell, zip: u64) -> Artifact {
    Artifact {
        key: cell.artifact_key(),
        zip_path: format!("dist/{}.zip", cell.artifact_key().label()),
        zip_size_bytes: zip,
        unzipped_size_bytes: 2 * zip,
    }
}

#[test]
fn sizes_are_those_of_the_deployed_artifact() {
    let rust = cell(Lang::Rust, Scenario::Hello);
    let node = cell(Lang::Node, Scenario::Hello);
    let node_x86 = Cell {
        arch: Arch::X86_64,
        ..node
    };
    let artifacts = vec![artifact(&node, 5), artifact(&rust, 7)];
    let cells = vec![rust, node, node_x86];
    let sizes = sizes_from_artifacts(&artifacts, &cells).unwrap();
    assert_eq!(sizes.len(), 3);
    assert_eq!(sizes[0].0, rust.function_name());
    for (c, zip) in [(rust, 7), (node, 5), (node_x86, 5)] {
        assert_eq!(
            cell_sizes(&sizes, &c),
            Ok(ArtifactSizes {
                zip,
                unzipped: 2 * zip
            })
        );
    }
    assert_eq!(deploy_sources(&artifacts, &cells), Ok(vec![1, 0, 0]));
    let go = cell(Lang::Go, Scenario::Hello);
    assert_eq!(
        sizes_from_artifacts(&artifacts, &[rust, go]).unwrap_err(),
        "no built artifact go-hello-arm64 for cell lambdabench-go-hello-arm64-512 \
         (cannot record real sizes)"
    );
    assert_eq!(
        deploy_sources(&artifacts, &[go]).unwrap_err(),
        "no built artifact for go-hello-arm64 (run `build` first)"
    );
    assert_eq!(
        cell_sizes(&sizes, &go).unwrap_err(),
        "no artifact sizes for cell lambdabench-go-hello-arm64-512 \
         (size map and run cells disagree)"
    );
    assert_eq!(first_failure(&vec![Ok(()), Ok(())]), Ok(()));
    assert_eq!(
        first_failure(&vec![Ok(()), Err("a".to_string()), Err("b".to_string())]),
        Err("a".to_string())
    );
}

#[test]
fn a_key_is_settled_once() {
    assert_eq!(settle_key(&None, "k"), Ok("k".to_string()));
    assert_eq!(settle_key(&Some("k".to_string()), "k"), Ok("k".to_string()));
    assert_eq!(
        settle_key(&Some("old".to_string()), "new"),
        Err("KMS key id already set to old but deploy resolved new; \
             functions would be wired to a stale key"
            .to_string())
    );
}

#[test]
fn code_is_staged_from_the_limit_on() {
    assert_eq!(INLINE_ZIP_LIMIT, 47_185_920);
    assert!(matches!(code_source("f", INLINE_ZIP_LIMIT - 1), CodeSource::Inline));
    assert!(matches!(
        code_source("f", INLINE_ZIP_LIMIT),
        CodeSource::Staged(k) if k == "lambda-code/f.zip"
    ));
    assert_eq!(staged_code_key("g"), "lambda-code/g.zip");
    assert_eq!(poll_budget_secs(), 300);
    assert_eq!(ensure_steps(false)[1], DeployStep::Create);
    assert_eq!(ensure_steps(true).len(), 7);
    assert!(leaves_function(CreateFailure::Waiting));
    assert!(!leaves_function(CreateFailure::Creating));
}

#[test]
fn environments_wire_what_a_scenario_needs() {
    let keys = |c: &Cell, kms: Option<&str>| {
        environment(c, "123", &kms.map(|s| s.to_string())).map(|vars| {
            vars.iter()
                .map(|(k, v)| format!("{k}={v}"))
                .collect::<Vec<String>>()
        })
    };
    assert_eq!(
        keys(&cell(Lang::Rust, Scenario::Hello), None),
        Ok(strings(&["RUST_LOG=error"]))
    );
    assert_eq!(
        keys(&cell(Lang::Rust, Scenario::LetterCount), None),
        Ok(strings(&[
            "LAMBDABENCH_BUCKET=lambdabench-eu-central-1-123",
            "LAMBDABENCH_LETTERCOUNT_KEY=lambdabench-lettercount.json",
            "RUST_LOG=error"
        ]))
    );
    assert_eq!(
        keys(&cell(Lang::Node, Scenario::SmithyFull), Some("key-1")),
        Ok(strings(&[
            "LAMBDABENCH_TABLE=lambdabench-table",
            "LAMBDABENCH_KEY=lambdabench-item",
            "LAMBDABENCH_BUCKET=lambdabench-eu-central-1-123",
            "LAMBDABENCH_KMS_KEY_ID=key-1",
            "LAMBDABENCH_OBJECT_KEY=lambdabench-object",
            "LAMBDABENCH_ORDER_PK=lambdabench-order-lambdabench-node-smithyfull-arm64-512",
            "LAMBDABENCH_RECEIPT_KEY=lambdabench-node-smithyfull-arm64-512/lambdabench-receipt",
            "RUST_LOG=error"
        ]))
    );
    assert_eq!(
        keys(&cell(Lang::Node, Scenario::ThreeClient), None),
        Err("KMS key id not set while wiring lambdabench-node-threeclient-arm64-512 \
             (a KMS-using scenario); ensure_kms_key must run before building this function's \
             environment"
            .to_string())
    );
    assert_eq!(
        keys(&cell(Lang::Go, Scenario::Batch), None).unwrap()[1],
        "LAMBDABENCH_BATCH_KEY=lambdabench-batch.json"
    );
    assert_eq!(image_environment(true), Some(("LAMBDABENCH_TOUCH", "1")));
    assert_eq!(image_environment(false), None);
    assert_eq!(bucket_name("9"), "lambdabench-eu-central-1-9");
}

#[test]
fn bumping_the_nonce_keeps_the_rest() {
    let pair = |k: &str, v: &str| (k.to_string(), v.to_string());
    let vars = vec![pair("A", "1"), pair("COLD_NONCE", "old"), pair("B", "2")];
    assert_eq!(
        with_cold_nonce(&vars, "new"),
        vec![pair("A", "1"), pair("B", "2"), pair("COLD_NONCE", "new")]
    );
    assert_eq!(with_cold_nonce(&vec![], "n"), vec![pair("COLD_NONCE", "n")]);
}

#[test]
fn readiness_needs_a_new_revision() {
    let state = |state, update, revision: Option<&str>| FunctionSeen {
        state,
        update,
        update_reason: None,
        revision: revision.map(|s| s.to_string()),
    };
    let prev = Some("r1".to_string());
    let stale = state(FunctionState::Active, UpdateStatus::Successful, Some("r1"));
    assert!(matches!(ready_poll("f", &prev, &stale), Poll::Again));
    assert!(matches!(ready_poll("f", &None, &stale), Poll::Ready));
    let landed = state(FunctionState::Active, UpdateStatus::Successful, Some("r2"));
    assert!(matches!(ready_poll("f", &prev, &landed), Poll::Ready));
    let untold = state(FunctionState::Active, UpdateStatus::Missing, Some("r2"));
    assert!(matches!(ready_poll("f", &prev, &untold), Poll::Again));
    assert!(matches!(ready_poll("f", &None, &untold), Poll::Ready));
    let pending = state(FunctionState::Other, UpdateStatus::Successful, None);
    assert!(matches!(ready_poll("f", &prev, &pending), Poll::Again));
    let failed = state(FunctionState::Active, UpdateStatus::Failed, Some("r2"));
    assert!(matches!(
        ready_poll("f", &prev, &failed),
        Poll::Failed(m) if m == "function f update failed: unknown"
    ));
    let reasoned = FunctionSeen {
        update_reason: Some("disk".to_string()),
        ..failed
    };
    assert!(matches!(
        ready_poll("f", &prev, &reasoned),
        Poll::Failed(m) if m == "function f update failed: disk"
    ));
    assert_eq!(ready_expired("f", 599), None);
    assert_eq!(
        ready_expired("f", 600),
        Some("function f did not become ready within 300s".to_string())
    );
}

#[test]
fn versions_need_their_snapshot() {
    let seen = |state, on| VersionSeen {
        state,
        state_reason: None,
        snapshot_on: on,
        snapshot_status: "Some(Off)".to_string(),
    };
    assert!(matches!(
        version_poll("f", "3", &seen(FunctionState::Active, true)),
        Poll::Ready
    ));
    assert!(matches!(
        version_poll("f", "3", &seen(FunctionState::Active, false)),
        Poll::Failed(m) if m == "version f:3 is Active but SnapStart is not applied (optimization_status=Some(Off)); a restore would not occur"
    ));
    assert!(matches!(
        version_poll("f", "3", &seen(FunctionState::Failed, false)),
        Poll::Failed(m) if m == "version f:3 entered Failed state: unknown"
    ));
    assert!(matches!(
        version_poll("f", "3", &seen(FunctionState::Other, true)),
        Poll::Again
    ));
    assert_eq!(version_expired("f", "3", 0), None);
    assert_eq!(
        version_expired("f", "3", 600),
        Some("version f:3 did not become Active within 300s".to_string())
    );
    assert_eq!(
        published_version("f", &Some("3".to_string())),
        Ok("3".to_string())
    );
    for none in [None, Some("$LATEST".to_string())] {
        assert_eq!(
            published_version("f", &none),
            Err("PublishVersion for f returned no numeric version".to_string())
        );
    }
}

#[test]
fn creations_are_retried_for_the_role_alone() {
    let role = Some("The role defined for the function cannot be assumed by Lambda.".to_string());
    assert!(retry_creation(true, &role, 1));
    assert!(retry_creation(true, &role, 29));
    assert!(!retry_creation(true, &role, 30));
    assert!(!retry_creation(false, &role, 1));
    assert!(!retry_creation(true, &Some("other".to_string()), 1));
    assert!(!retry_creation(true, &None, 1));
}

#[test]
fn replies_are_decoded() {
    let raw = |status_code, function_error: Option<&str>, log: Option<&str>| RawReply {
        status_code,
        function_error: function_error.map(|s| s.to_string()),
        log_result: log.map(|s| s.to_string()),
        payload: Some(b"{\"a\":1}".to_vec()),
    };
    let ok = read_reply("f", &raw(200, None, Some("aGVsbG8gd29ybGR+Cg=="))).unwrap();
    assert_eq!(ok.log_tail, "hello world~\n");
    assert_eq!(ok.payload.as_deref(), Some("{\"a\":1}"));
    assert_eq!(ok.status_code, 200);
    assert_eq!(
        read_reply("f", &raw(200, None, Some("***"))).unwrap_err(),
        "decoding base64 log tail"
    );
    // Bytes that are no UTF-8 are replaced, not refused.
    let lossy = read_reply("f", &raw(200, None, Some("//5h"))).unwrap();
    assert_eq!(lossy.log_tail, "\u{fffd}\u{fffd}a");
    assert_eq!(
        read_reply("f", &raw(200, Some("Unhandled"), None)).unwrap_err(),
        "invoke of f reported FunctionError=Unhandled (status 200) and returned no LogResult"
    );
    assert_eq!(
        read_reply("f", &raw(503, None, None)).unwrap_err(),
        "invoke of f returned status 503 (expected 200) and no LogResult"
    );
    assert_eq!(
        read_reply("f", &raw(200, None, None)).unwrap_err(),
        "invoke of f returned no LogResult (LogType=Tail expected)"
    );
    assert!(reply_with_tail(&raw(200, None, None), None).is_err());
}

#[test]
fn payloads_follow_the_adapter() {
    let token = "  aaa.bbb.ccc\n";
    assert_eq!(
        invoke_payload(&cell(Lang::Rust, Scenario::Authz), token),
        "{\"token\":\"aaa.bbb.ccc\"}"
    );
    assert_eq!(invoke_payload(&cell(Lang::Rust, Scenario::Hello), token), "{}");
    let java = invoke_payload(&cell(Lang::Java, Scenario::SmithyFull), token);
    let v: serde_json::Value = serde_json::from_str(&java).unwrap();
    assert_eq!(v["httpMethod"], "POST");
    assert_eq!(v["body"], "{\"coffeeType\":\"LATTE\"}");
    let node = invoke_payload(&cell(Lang::Node, Scenario::SmithyFull), token);
    let v: serde_json::Value = serde_json::from_str(&node).unwrap();
    assert_eq!(v["routeKey"], "POST /order");
    let rust = invoke_payload(&cell(Lang::Rust, Scenario::Smithy), token);
    let v: serde_json::Value = serde_json::from_str(&rust).unwrap();
    assert_eq!(v["version"], "2.0");
    let menu = invoke_payload(&cell(Lang::Java, Scenario::Smithy), token);
    let v: serde_json::Value = serde_json::from_str(&menu).unwrap();
    assert_eq!(v["path"], "/menu");
}

// ---- resources ----

#[test]
fn roles_are_brought_under_their_boundary() {
    assert_eq!(wanted_boundary(&None), None);
    assert_eq!(wanted_boundary(&Some(String::new())), None);
    let b = Some("arn:b".to_string());
    assert_eq!(wanted_boundary(&b), b);
    assert!(matches!(role_step(&None, &b), RoleStep::Create(Some(x)) if x == "arn:b"));
    assert!(matches!(role_step(&None, &None), RoleStep::Create(None)));
    assert!(matches!(role_step(&Some(None), &None), RoleStep::Keep));
    assert!(matches!(role_step(&Some(b.clone()), &b), RoleStep::Keep));
    assert!(matches!(role_step(&Some(None), &b), RoleStep::SetBoundary(x) if x == "arn:b"));
    assert!(matches!(
        role_step(&Some(Some("arn:c".to_string())), &b),
        RoleStep::SetBoundary(_)
    ));
    let policy: serde_json::Value = serde_json::from_str(&role_policy("123")).unwrap();
    assert_eq!(
        policy["Statement"][0]["Resource"],
        "arn:aws:dynamodb:eu-central-1:123:table/lambdabench-table"
    );
    assert_eq!(
        policy["Statement"][1]["Condition"]["ForAnyValue:StringLike"]["kms:ResourceAliases"],
        "alias/lambdabench-*"
    );
    assert_eq!(
        policy["Statement"][2]["Resource"],
        "arn:aws:s3:::lambdabench-eu-central-1-123/*"
    );
    let trust: serde_json::Value = serde_json::from_str(TRUST_POLICY).unwrap();
    assert_eq!(trust["Statement"][0]["Action"], "sts:AssumeRole");
}

#[test]
fn tables_are_drained_before_they_are_made_anew() {
    assert_eq!(table_step(TableSeen::Missing), TableStep::Create);
    assert_eq!(table_step(TableSeen::Deleting), TableStep::DrainAndCreate);
    assert_eq!(table_step(TableSeen::Active), TableStep::Keep);
    assert_eq!(table_step(TableSeen::Other), TableStep::Keep);
    assert!(table_wait_over(TableWait::Gone, TableSeen::Missing));
    assert!(!table_wait_over(TableWait::Gone, TableSeen::Deleting));
    assert!(table_wait_over(TableWait::Active, TableSeen::Active));
    assert!(!table_wait_over(TableWait::Active, TableSeen::Other));
    assert_eq!(table_wait_failed(TableWait::Gone, TableSeen::Missing), None);
    assert_eq!(table_wait_failed(TableWait::Active, TableSeen::Other), None);
    assert_eq!(
        table_wait_failed(TableWait::Active, TableSeen::Missing),
        Some("DescribeTable while waiting for ACTIVE: table lambdabench-table not found".to_string())
    );
    assert_eq!(table_wait_expired(TableWait::Gone, 59), None);
    assert_eq!(
        table_wait_expired(TableWait::Gone, 60),
        Some("table lambdabench-table did not finish DELETING in time".to_string())
    );
    assert_eq!(
        table_wait_expired(TableWait::Active, 60),
        Some("table lambdabench-table did not become ACTIVE in time".to_string())
    );
}

#[test]
fn keys_are_found_by_alias_and_by_tag() {
    let entry = |name: &str, id: Option<&str>| AliasEntry {
        name: Some(name.to_string()),
        key_id: id.map(|s| s.to_string()),
    };
    let aliases = vec![
        entry("alias/other", Some("k0")),
        entry(KMS_ALIAS, None),
        entry(KMS_ALIAS, Some("k1")),
        entry(KMS_ALIAS, Some("k2")),
    ];
    assert_eq!(alias_key(&aliases), Some("k1".to_string()));
    assert_eq!(alias_key(&vec![]), None);
    let tag = |k: &str, v: &str| (k.to_string(), v.to_string());
    assert!(has_creation_tag(&vec![
        tag("x", "true"),
        tag("lambdabench-managed-kms-key", "true")
    ]));
    assert!(!has_creation_tag(&vec![tag("lambdabench-managed-kms-key", "no")]));
}

#[test]
fn buckets_and_their_seeds() {
    assert!(needs_location("eu-central-1"));
    assert!(!needs_location("us-east-1"));
    assert!(bucket_is_there("BucketAlreadyOwnedByYou"));
    assert!(bucket_is_there("BucketAlreadyExists"));
    assert!(!bucket_is_there("AccessDenied"));
    let policy: serde_json::Value = serde_json::from_str(&tls_only_policy("b")).unwrap();
    assert_eq!(policy["Statement"][0]["Effect"], "Deny");
    assert_eq!(policy["Statement"][0]["Resource"][1], "arn:aws:s3:::b/*");
    assert_eq!(lettercount_version(), "lc1-1000000");
    assert_eq!(batch_version(), "agg1-16000000-1000");
    assert!(seed_is_current(&Some("v".to_string()), "v"));
    assert!(!seed_is_current(&Some("w".to_string()), "v"));
    assert!(!seed_is_current(&None, "v"));
}

#[test]
fn lettercount_payload_is_an_ascii_array() {
    let text = generate_lettercount_payload(10_000);
    assert!(text.is_ascii() && text.len() >= 10_000);
    let entries: Vec<String> = serde_json::from_str(&text).unwrap();
    assert_eq!(
        entries[0],
        "alpha alpha alpha the quick brown fox jumps over the lazy dog record0"
    );
    assert_eq!(
        entries[9],
        "bravo bravo alpha the quick brown fox jumps over the lazy dog record9"
    );
    // One entry fewer would have stayed below the size.
    let last = entries.last().unwrap();
    assert!(text.len() - last.len() - 3 < 10_000);
    assert_eq!(generate_lettercount_payload(0), "[]");
    assert_eq!(generate_lettercount_payload(1), "[]");
    assert_eq!(generate_lettercount_payload(2), "[]");
    let three: Vec<String> = serde_json::from_str(&generate_lettercount_payload(3)).unwrap();
    assert_eq!(three.len(), 1);
}

#[test]
fn arrays_stop_at_the_size_they_have_when_closed() {
    let one = "[{\"key\":\"k0000\",\"value\":1}]";
    assert_eq!(generate_batch_payload(2, 1), "[]");
    assert_eq!(generate_batch_payload(3, 1), one);
    assert_eq!(generate_batch_payload(one.len(), 1), one);
    let two = "[{\"key\":\"k0000\",\"value\":1},{\"key\":\"k0000\",\"value\":2}]";
    assert_eq!(generate_batch_payload(one.len() + 1, 1), two);
    assert_eq!(generate_batch_payload(two.len(), 1), two);
    assert_eq!(build_json_array(two.len(), &BatchEntries { cardinality: 1 }), two);
}

#[test]
fn batch_payload_cycles_its_keys() {
    let text = generate_batch_payload(100_000, S3_BATCH_KEY_CARDINALITY);
    let records: Vec<serde_json::Value> = serde_json::from_str(&text).unwrap();
    assert!(records.len() > 1000);
    assert_eq!(records[0]["key"], "k0000");
    assert_eq!(records[0]["value"], 1);
    assert_eq!(records[42]["key"], "k0042");
    assert_eq!(records[999]["key"], "k0999");
    assert_eq!(records[1000]["key"], "k0000");
    assert_eq!(records[998]["value"], 2);
    assert!(text.starts_with("[{\"key\":\"k0000\",\"value\":1},{\"key\":\"k0001\",\"value\":2},"));
    assert!(generate_batch_payload(60, 20_000).starts_with("[{\"key\":\"k0000\""));
}

#[test]
fn registry_names_sizes_and_passwords() {
    assert_eq!(
        ecr_image_uri("123", "t"),
        "123.dkr.ecr.eu-central-1.amazonaws.com/lambdabench-synthdl:t"
    );
    assert_eq!(image_size("t", &vec![Some(42)]), Ok(42));
    assert_eq!(
        image_size("t", &vec![]),
        Err("DescribeImages for lambdabench-synthdl:t returned 0 image details (expected exactly 1)".to_string())
    );
    assert_eq!(
        image_size("t", &vec![None]),
        Err("DescribeImages for lambdabench-synthdl:t returned no size".to_string())
    );
    assert_eq!(
        image_size("t", &vec![Some(-3)]),
        Err("DescribeImages for lambdabench-synthdl:t returned negative size -3".to_string())
    );
    // "AWS:pa:ss"
    assert_eq!(registry_password("QVdTOnBhOnNz"), Ok("pa:ss".to_string()));
    assert_eq!(
        registry_password("QVdT"),
        Err("ECR authorization token was not in AWS:<password> form".to_string())
    );
    assert_eq!(
        registry_password("%%%"),
        Err("decoding ECR authorization token".to_string())
    );
    assert_eq!(
        password_from_bytes(Some(vec![0xff])),
        Err("ECR authorization token is not UTF-8".to_string())
    );
    assert_eq!(password_in("AWS:"), Ok(String::new()));
}

#[test]
fn teardown_tells_every_failure() {
    let ok = || Ok(());
    let err = |m: &str| Err(m.to_string());
    let all_ok = vec![ok(), ok(), ok(), ok(), ok()];
    assert_eq!(teardown_verdict(&vec![ok()], &vec![], &all_ok), Ok(()));
    let resources = vec![ok(), err("busy"), ok(), ok(), err("gone wrong")];
    assert_eq!(
        teardown_verdict(&vec![ok(), err("x")], &vec![err("y"), ok()], &resources),
        Err("teardown incomplete: 4 resource(s) failed to delete:\n  \
             - function delete: x\n  \
             - log group delete: y\n  \
             - DynamoDB table: busy\n  \
             - ECR repository: gone wrong"
            .to_string())
    );
    let s = summarize("log group delete", &vec![ok(), err("z"), ok()]);
    assert_eq!((s.total, s.deleted), (3, 2));
    assert_eq!(s.failures, strings(&["log group delete: z"]));
}

// ---- builds ----

#[test]
fn rust_builds_are_kept_apart() {
    let key = cell(Lang::Rust, Scenario::OneClient).artifact_key();
    let b = rust_build(&key);
    assert_eq!(b.arch_flag, "--arm64");
    assert_eq!(b.workdir, "");
    assert_eq!(b.package.as_deref(), Some("lambdabench-rust-oneclient"));
    assert_eq!(b.target_dir, "target-o3");
    assert_eq!(b.out_dir, "target-o3/out-rust-oneclient-arm64-o3");
    assert_eq!(b.opt_level, "3");
    assert!(b.no_jitter && !b.codegen);
    let jitter = rust_build(&bencher::config::ArtifactKey {
        jitter: Some(Jitter::On),
        arch: Arch::X86_64,
        ..key
    });
    assert_eq!(jitter.arch_flag, "--x86-64");
    assert_eq!(jitter.target_dir, "target-o3-jitter");
    assert_eq!(jitter.out_dir, "target-o3-jitter/out-rust-oneclient-x86_64-o3-jitter");
    assert!(!jitter.no_jitter);
    let smithy = rust_build(&bencher::config::ArtifactKey {
        scenario: Scenario::SmithyFull,
        opt: Some(Opt::Oz),
        ..key
    });
    assert_eq!(smithy.workdir, "scenarios/rust/smithyfull");
    assert_eq!(smithy.package, None);
    assert!(smithy.codegen);
    assert_eq!(smithy.target_dir, "scenarios/rust/smithyfull/target-oz");
    let keys = unique_artifacts(&all_cells());
    let mut dirs: Vec<String> = keys_of_lang(&keys, Lang::Rust)
        .iter()
        .map(|k| rust_build(k).out_dir)
        .collect();
    assert_eq!(dirs.len(), 40);
    dirs.sort();
    dirs.dedup();
    assert_eq!(dirs.len(), 40);
}

#[test]
fn other_builds() {
    let java = [
        cell(Lang::Java, Scenario::Hello).artifact_key(),
        cell(Lang::Java, Scenario::Batch).artifact_key(),
    ];
    assert_eq!(java_tasks(&java), strings(&[":hello:buildZip", ":batch:buildZip"]));
    assert_eq!(zip_name(&java[0]), "java-hello.zip");
    assert_eq!(go_arch(Arch::X86_64), "amd64");
    assert_eq!(
        wheel_platforms(Arch::Arm64),
        ("manylinux2014_aarch64".to_string(), "manylinux_2_28_aarch64".to_string())
    );
    assert_eq!(single_zip(&strings(&["a.zip"]), "d"), Ok("a.zip".to_string()));
    assert_eq!(single_zip(&vec![], "d"), Err("no .zip found in d".to_string()));
    assert_eq!(
        single_zip(&strings(&["a", "b"]), "d"),
        Err("expected exactly one .zip in d, found 2".to_string())
    );
    assert_eq!(tool_version(&Some(" go1.2\n".to_string())), "go1.2");
    assert_eq!(tool_version(&Some("\n".to_string())), "<unavailable>");
    assert_eq!(tool_version(&None), "<unavailable>");
}
