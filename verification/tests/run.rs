//! The run of a cell, step by step.
use bencher::config::{Arch, Cell, Jitter, Lang, Opt, Profile, Scenario};
use bencher::platform::{check_envelope_status, check_http_envelope_ok, check_ok, check_platform_ok, InvokeResult};
use bencher::record::{build_row, frame_rows, ArtifactSizes};
use bencher::report::{Millis, Report};
use bencher::run::{cold_force_backoff_ms, judge, Action, CellRun, Event, Invoked};
use bencher::sample::{judge_timed, TimedInvoked, UnitAction, UnitEvent, UnitRun};

const COLD: &str = "REPORT RequestId: c0\tDuration: 12.5 ms\tBilled Duration: 13 ms\tMemory Size: 512 MB\tMax Memory Used: 90 MB\tInit Duration: 187.65 ms\n";
const WARM: &str = "REPORT RequestId: 3a\tDuration: 1.5 ms\tBilled Duration: 2 ms\tMemory Size: 512 MB\tMax Memory Used: 90 MB\n";
const RESTORED: &str = "REPORT RequestId: 7b\tDuration: 22.5 ms\tBilled Duration: 90 ms\tMemory Size: 512 MB\tMax Memory Used: 180 MB\tRestore Duration: 245.10 ms\n";

fn rust_cell() -> Cell {
    Cell {
        lang: Lang::Rust,
        scenario: Scenario::Hello,
        arch: Arch::Arm64,
        memory_mb: 512,
        opt: Some(Opt::O3),
        snapstart: false,
        jitter: Some(Jitter::Off),
    }
}

fn snap_cell() -> Cell {
    Cell {
        lang: Lang::Java,
        opt: None,
        jitter: None,
        snapstart: true,
        ..rust_cell()
    }
}

const SIZES: ArtifactSizes = ArtifactSizes {
    zip: 10,
    unzipped: 20,
};

fn reply(log: &str) -> InvokeResult {
    InvokeResult {
        status_code: 200,
        function_error: None,
        log_tail: log.to_string(),
        payload: None,
    }
}

fn new_run(cell: Cell) -> CellRun {
    CellRun::new(cell, Profile::Smoke, "run-1".to_string(), SIZES)
}

/// What the next invocation shows.
struct Driver {
    run: CellRun,
    nonces: u32,
    pauses: Vec<(u64, String)>,
    deleted: Vec<String>,
    published: u32,
    invokes: Vec<Option<String>>,
}

enum End {
    Done,
    Failed(String),
}

impl Driver {
    fn new(cell: Cell) -> Driver {
        Driver {
            run: new_run(cell),
            nonces: 0,
            pauses: vec![],
            deleted: vec![],
            published: 0,
            invokes: vec![],
        }
    }

    fn step(&mut self, event: Event) -> Action {
        assert!(self.run.is_expecting(&event));
        self.nonces += 1;
        let fresh = format!("nonce-{}", self.nonces);
        self.run.step(event, fresh, 77)
    }

    /// Runs to the end, taking each invocation's reply from `replies`.
    fn drive(&mut self, mut replies: impl FnMut(usize) -> Invoked) -> End {
        let mut event = Event::Go;
        let mut n = 0;
        loop {
            match self.step(event) {
                Action::ForceCold(_) => event = Event::Forced(Ok(())),
                Action::Publish(_) => {
                    self.published += 1;
                    event = Event::Published(Ok(format!("{}", self.published)));
                }
                Action::Invoke(q) => {
                    self.invokes.push(q);
                    event = Event::Invoked(replies(n));
                    n += 1;
                }
                Action::Delete(v) => {
                    self.deleted.push(v);
                    event = Event::Deleted;
                }
                Action::Pause(ms, note) => {
                    self.pauses.push((ms, note));
                    event = Event::Go;
                }
                Action::Flush => event = Event::Flushed(Ok(())),
                Action::Done => return End::Done,
                Action::Failed(e) => return End::Failed(e),
            }
        }
    }
}

fn seen(cell: &Cell, log: &str) -> Invoked {
    judge(cell, reply(log))
}

#[test]
fn a_clean_cell_is_written_whole() {
    let cell = rust_cell();
    let mut d = Driver::new(cell);
    let end = d.drive(|n| seen(&cell, if n % 3 == 0 { COLD } else { WARM }));
    assert!(matches!(end, End::Done));
    // Smoke counts: 2 cycles of 1 cold and 2 warm.
    assert_eq!(d.run.rows.len(), 6);
    let places: Vec<(u32, u32, bool)> = d
        .run
        .rows
        .iter()
        .map(|r| (r.cycle, r.idx_in_cycle, r.is_cold))
        .collect();
    assert_eq!(
        places,
        vec![
            (0, 0, true),
            (0, 1, false),
            (0, 2, false),
            (1, 0, true),
            (1, 1, false),
            (1, 2, false)
        ]
    );
    assert!(d.pauses.is_empty());
    assert_eq!(d.invokes, vec![None; 6]);
    assert_eq!(d.run.rows[0].init_ms.as_ref().unwrap().text, "187.65");
    assert_eq!(d.run.rows[1].request_id, "3a");
    // The warm rows of a cycle carry its cold nonce, and cycles have their own.
    assert_eq!(d.run.rows[0].cold_nonce, d.run.rows[2].cold_nonce);
    assert_ne!(d.run.rows[0].cold_nonce, d.run.rows[3].cold_nonce);
}

#[test]
fn a_cold_force_that_lands_warm_is_repeated() {
    let cell = rust_cell();
    let mut d = Driver::new(cell);
    // The first two forces land warm.
    let end = d.drive(|n| {
        seen(&cell, if n < 2 { WARM } else if (n - 2) % 3 == 0 { COLD } else { WARM })
    });
    assert!(matches!(end, End::Done));
    assert_eq!(d.run.rows.len(), 6);
    assert_eq!(
        d.pauses,
        vec![
            (1500, "cold-force retry 1/6 for lambdabench-rust-hello-arm64-o3-512 (cycle 0): invoke landed warm (req 3a), re-forcing".to_string()),
            (3000, "cold-force retry 2/6 for lambdabench-rust-hello-arm64-o3-512 (cycle 0): invoke landed warm (req 3a), re-forcing".to_string()),
        ]
    );
}

#[test]
fn forces_that_keep_landing_warm_fail_the_cell() {
    let cell = rust_cell();
    let mut d = Driver::new(cell);
    let end = d.drive(|_| seen(&cell, WARM));
    match end {
        End::Failed(e) => assert_eq!(
            e,
            "cell lambdabench-rust-hello-arm64-o3-512 failed after 3 attempts: \
             cycle 0 of lambdabench-rust-hello-arm64-o3-512: \
             cold invoke cycle 0 of lambdabench-rust-hello-arm64-o3-512: \
             lambdabench-rust-hello-arm64-o3-512 (cycle 0): \
             failed to force a cold start in 6 attempts (invoke kept landing warm)"
        ),
        End::Done => panic!("a warm landing was taken for cold"),
    }
    assert!(d.run.rows.is_empty());
    // 3 attempts at the cell, 6 forces each, and a pause between attempts.
    assert_eq!(d.invokes.len(), 18);
    let cell_pauses = d.pauses.iter().filter(|p| p.0 == 5000).count();
    assert_eq!(cell_pauses, 2);
    assert_eq!(d.pauses.len(), 20);
}

#[test]
fn a_recycled_cycle_is_run_again_without_its_rows() {
    let cell = rust_cell();
    let mut d = Driver::new(cell);
    // The second warm invocation of the first cycle lands cold.
    let script = [COLD, WARM, COLD, COLD, WARM, WARM, COLD, WARM, WARM];
    let end = d.drive(|n| seen(&cell, script[n]));
    assert!(matches!(end, End::Done));
    assert_eq!(d.run.rows.len(), 6);
    assert_eq!(
        d.pauses,
        vec![(1000, "warm-recycle retry 1/4 for lambdabench-rust-hello-arm64-o3-512 (cycle 0): warm invoke 2 landed cold (AWS recycled the sandbox), re-running cycle".to_string())]
    );
}

#[test]
fn cycles_that_keep_being_recycled_fail_the_cell() {
    let cell = rust_cell();
    let mut d = Driver::new(cell);
    let end = d.drive(|_| seen(&cell, COLD));
    match end {
        End::Failed(e) => assert!(e.ends_with(
            "(cycle 0): failed to complete a clean cycle in 4 attempts \
             (warm sandbox kept getting recycled mid-cycle)"
        )),
        End::Done => panic!("a cold landing was taken for warm"),
    }
    assert_eq!(d.invokes.len(), 3 * 4 * 2);
    assert!(d.run.rows.is_empty());
}

#[test]
fn a_failed_attempt_resumes_at_its_cycle() {
    let cell = rust_cell();
    let mut d = Driver::new(cell);
    // The first cycle succeeds; the second fails once in its warm tail.
    let end = d.drive(|n| match n {
        4 => Invoked::Failed("timeout".to_string()),
        0 | 3 | 5 => seen(&cell, COLD),
        _ => seen(&cell, WARM),
    });
    assert!(matches!(end, End::Done));
    assert_eq!(d.run.rows.len(), 6);
    assert_eq!(
        d.pauses,
        vec![(5000, "cell retry 1/3 for lambdabench-rust-hello-arm64-o3-512 (resuming at cycle 1/2): cycle 1 of lambdabench-rust-hello-arm64-o3-512: warm invoke 1 cycle 1 of lambdabench-rust-hello-arm64-o3-512: timeout".to_string())]
    );
}

#[test]
fn snapstart_publishes_and_deletes_one_version_for_each_cycle() {
    let cell = snap_cell();
    let mut d = Driver::new(cell);
    let end = d.drive(|n| seen(&cell, if n % 3 == 0 { RESTORED } else { WARM }));
    assert!(matches!(end, End::Done));
    assert_eq!(d.published, 2);
    assert_eq!(d.deleted, vec!["1".to_string(), "2".to_string()]);
    let one = Some("1".to_string());
    let two = Some("2".to_string());
    assert_eq!(
        d.invokes,
        vec![one.clone(), one.clone(), one, two.clone(), two.clone(), two]
    );
    assert_eq!(d.run.rows[0].restore_ms.as_ref().unwrap().text, "245.10");
}

#[test]
fn snapstart_refuses_a_plain_cold_start() {
    let cell = snap_cell();
    let mut d = Driver::new(cell);
    let end = d.drive(|_| seen(&cell, COLD));
    match end {
        End::Failed(e) => assert!(e.contains(
            "first invoke of fresh version 3 did not report a Restore Duration \
             (SnapStart did not restore, init_ms=Some(187.65)); log:\nREPORT"
        )),
        End::Done => panic!("a plain cold start was taken for a restore"),
    }
    // Each attempt deleted the version it published.
    assert_eq!(d.deleted.len(), 3);
    assert_eq!(d.published, 3);
}

#[test]
fn a_missing_restore_shows_the_init_as_a_number() {
    let cell = snap_cell();
    let mut d = Driver::new(cell);
    let padded = COLD.replace("187.65", "190.00");
    let end = d.drive(|_| seen(&cell, &padded));
    match end {
        End::Failed(e) => assert!(e.contains("init_ms=Some(190.0)); log:")),
        End::Done => panic!("a plain cold start was taken for a restore"),
    }
}

#[test]
fn failures_before_any_invocation() {
    let mut run = new_run(rust_cell());
    assert!(matches!(run.step(Event::Go, "n".to_string(), 0), Action::ForceCold(n) if n == "n"));
    match run.step(Event::Forced(Err("throttled".to_string())), String::new(), 0) {
        Action::Pause(5000, note) => assert!(note.ends_with(
            "cold invoke cycle 0 of lambdabench-rust-hello-arm64-o3-512: \
             forcing cold for lambdabench-rust-hello-arm64-o3-512: throttled"
        )),
        _ => panic!("a failed force is followed by a pause"),
    }
    let mut snap = new_run(snap_cell());
    assert!(matches!(snap.step(Event::Go, "n".to_string(), 0), Action::Publish(_)));
    match snap.step(Event::Published(Err("no".to_string())), String::new(), 0) {
        Action::Pause(5000, note) => assert!(note.ends_with(
            "publishing cold version for lambdabench-java-hello-arm64-snap-512 (cycle 0): no"
        )),
        _ => panic!("a failed publication is followed by a pause"),
    }
}

#[test]
fn a_failed_write_is_not_retried() {
    let cell = rust_cell();
    let mut run = new_run(cell);
    let mut action = run.step(Event::Go, "n".to_string(), 0);
    let mut n = 0;
    loop {
        let event = match action {
            Action::ForceCold(_) => Event::Forced(Ok(())),
            Action::Invoke(_) => {
                n += 1;
                Event::Invoked(seen(&cell, if n % 3 == 1 { COLD } else { WARM }))
            }
            Action::Flush => Event::Flushed(Err("disk full".to_string())),
            Action::Failed(e) => {
                assert_eq!(e, "disk full");
                break;
            }
            _ => panic!("unexpected action"),
        };
        action = run.step(event, "n".to_string(), 0);
    }
    assert!(!run.is_expecting(&Event::Go));
}

#[test]
fn backoff_grows_to_its_cap() {
    let pauses: Vec<u64> = (1..=9).map(cold_force_backoff_ms).collect();
    assert_eq!(
        pauses,
        vec![1500, 3000, 4500, 6000, 7500, 9000, 10500, 12000, 12000]
    );
    assert_eq!(cold_force_backoff_ms(u32::MAX), 12000);
}

#[test]
fn platform_problems_are_refused() {
    let cell = rust_cell();
    let name = cell.function_name();
    let mut res = reply("tail");
    assert_eq!(check_platform_ok(&cell, &res), Ok(()));
    res.status_code = 502;
    assert_eq!(
        check_platform_ok(&cell, &res),
        Err(format!("{name} returned status 502 (expected 200); log:\ntail"))
    );
    res.status_code = 200;
    res.function_error = Some("Unhandled".to_string());
    assert_eq!(
        check_ok(&name, false, &res),
        Err(format!("{name} reported FunctionError=Unhandled; log:\ntail"))
    );
}

#[test]
fn http_envelopes_are_judged() {
    let smithy = Cell {
        scenario: Scenario::Smithy,
        ..rust_cell()
    };
    let mut res = reply("tail");
    assert!(check_platform_ok(&smithy, &res)
        .unwrap_err()
        .contains("returned no response payload to validate"));
    res.payload = Some("{\"statusCode\": 200, \"body\": \"\"}".to_string());
    assert_eq!(check_platform_ok(&smithy, &res), Ok(()));
    res.payload = Some("{\"statusCode\":500}".to_string());
    assert_eq!(
        check_http_envelope_ok("f", &res),
        Err("f (HTTP-fronted) handler returned HTTP 500 (expected 2xx): the server framework \
             serialized an error into the response body, which the outer invoke does not reflect; \
             body:\n{\"statusCode\":500}\nlog:\ntail"
            .to_string())
    );
    res.payload = Some("not json".to_string());
    assert_eq!(
        check_http_envelope_ok("f", &res),
        Err("f (HTTP-fronted) response is not JSON: not json".to_string())
    );
    for odd in ["{}", "[]", "{\"statusCode\":\"200\"}", "{\"statusCode\":200.5}"] {
        res.payload = Some(odd.to_string());
        assert_eq!(
            check_http_envelope_ok("f", &res),
            Err(format!("f (HTTP-fronted) response has no integer statusCode: {odd}"))
        );
    }
    assert_eq!(check_envelope_status("f", "p", "l", Some(Some(299))), Ok(()));
    assert!(check_envelope_status("f", "p", "l", Some(Some(300))).is_err());
    assert!(check_envelope_status("f", "p", "l", Some(Some(199))).is_err());
}

#[test]
fn judging_puts_the_platform_before_the_report() {
    let cell = rust_cell();
    let mut res = reply("no report");
    res.status_code = 500;
    assert!(matches!(judge(&cell, res), Invoked::Rejected(e) if e.contains("returned status 500")));
    assert!(matches!(
        judge(&cell, reply("no report")),
        Invoked::Rejected(e) if e.starts_with("parsing REPORT for lambdabench-rust-hello-arm64-o3-512: no REPORT line")
    ));
    assert!(matches!(judge(&cell, reply(COLD)), Invoked::Seen(_, r) if r.is_cold()));
    assert!(matches!(
        judge_timed("f", false, true, 5, &reply("x")),
        TimedInvoked::Rejected(e) if e.starts_with("parsing warm REPORT for f: ")
    ));
    assert!(matches!(
        judge_timed("f", false, false, 5, &reply(WARM)),
        TimedInvoked::Seen(5, r) if r.request_id == "3a"
    ));
}

#[test]
fn rows_record_every_dimension() {
    let report = Report {
        request_id: "r".to_string(),
        duration_ms: Millis { text: "1.5".to_string() },
        billed_ms: Millis { text: "2".to_string() },
        memory_size_mb: 128,
        max_memory_used_mb: 40,
        init_ms: Some(Millis { text: "30".to_string() }),
        restore_ms: None,
    };
    let row = build_row(
        &rust_cell(),
        "run-test",
        SIZES,
        3,
        0,
        true,
        "n",
        &reply(""),
        &report,
        1,
    );
    assert_eq!(row.lang, "rust");
    assert_eq!(row.opt.as_deref(), Some("o3"));
    assert_eq!(row.jitter.as_deref(), Some("off"));
    assert_eq!(row.runtime_id, "provided.al2023");
    assert_eq!(row.function_name, "lambdabench-rust-hello-arm64-o3-512");
    assert_eq!((row.artifact_zip_bytes, row.artifact_unzipped_bytes), (10, 20));
    assert_eq!((row.cycle, row.ts_unix_ms), (3, 1));
    assert_eq!(row.init_ms.unwrap().text, "30");
    let node = Cell {
        lang: Lang::Node,
        opt: None,
        jitter: None,
        ..rust_cell()
    };
    let row = build_row(&node, "run-test", SIZES, 0, 1, false, "n", &reply(""), &report, 1);
    assert!(row.opt.is_none());
    assert!(row.jitter.is_none());
}

fn drive_unit(
    unit: &mut UnitRun,
    mut replies: impl FnMut(usize) -> TimedInvoked,
) -> (Result<(), String>, Vec<(u64, String)>, Vec<&'static str>) {
    let mut pauses = vec![];
    let mut actions = vec![];
    let mut event = UnitEvent::Go;
    let mut n = 0;
    loop {
        assert!(unit.is_expecting(&event));
        match unit.step(event) {
            UnitAction::ForceCold => {
                actions.push("force");
                event = UnitEvent::Forced(Ok(()));
            }
            UnitAction::Prewarm => {
                actions.push("prewarm");
                event = UnitEvent::Prewarmed(Ok(()));
            }
            UnitAction::Invoke => {
                actions.push("invoke");
                event = UnitEvent::Invoked(replies(n));
                n += 1;
            }
            UnitAction::Pause(ms, note) => {
                pauses.push((ms, note));
                event = UnitEvent::Go;
            }
            UnitAction::Done => return (Ok(()), pauses, actions),
            UnitAction::Failed(e) => return (Err(e), pauses, actions),
        }
    }
}

fn timed(log: &str, wall_ns: u64) -> TimedInvoked {
    judge_timed("f", false, false, wall_ns, &reply(log))
}

#[test]
fn a_unit_takes_all_its_samples() {
    let mut unit = UnitRun::new("f".to_string(), 2, 3);
    let (end, pauses, actions) =
        drive_unit(&mut unit, |n| timed(if n % 4 == 0 { COLD } else { WARM }, n as u64));
    assert_eq!(end, Ok(()));
    assert!(pauses.is_empty());
    assert_eq!(unit.samples.len(), 2);
    assert_eq!(unit.samples[1].wall_ns, 4);
    assert_eq!(unit.samples[1].init.text, "187.65");
    assert_eq!(unit.samples[1].cold_duration.text, "12.5");
    let walls: Vec<u64> = unit.samples[1].warm.iter().map(|w| w.wall_ns).collect();
    assert_eq!(walls, vec![5, 6, 7]);
    assert_eq!(unit.samples[0].warm[0].duration.text, "1.5");
    assert_eq!(
        actions[..6],
        ["force", "prewarm", "invoke", "invoke", "invoke", "invoke"]
    );
    assert_eq!(actions.len(), 12);
}

#[test]
fn a_unit_drops_its_samples_when_one_fails() {
    let mut unit = UnitRun::new("f".to_string(), 2, 1);
    // The second sample's warm invocation lands cold; then everything is taken anew.
    let script = [COLD, WARM, COLD, COLD, COLD, WARM, COLD, WARM];
    let (end, pauses, _) = drive_unit(&mut unit, |n| timed(script[n], n as u64));
    assert_eq!(end, Ok(()));
    assert_eq!(
        pauses,
        vec![(5000, "unit retry 1/3 for f: cold sample 2/2 of f: f: warm invoke 1 unexpectedly cold-started (sandbox retired mid-sample)".to_string())]
    );
    let walls: Vec<u64> = unit.samples.iter().map(|s| s.wall_ns).collect();
    assert_eq!(walls, vec![4, 6]);
}

#[test]
fn a_unit_gives_up_after_its_attempts() {
    let mut unit = UnitRun::new("f".to_string(), 1, 1);
    // A restore is no plain cold start.
    let (end, pauses, _) = drive_unit(&mut unit, |_| timed(RESTORED, 0));
    assert_eq!(
        end,
        Err("f failed after 3 attempts: cold sample 1/1 of f: f: failed to force a cold start in 6 attempts".to_string())
    );
    let first: Vec<u64> = pauses[..7].iter().map(|p| p.0).collect();
    assert_eq!(first, vec![500, 1000, 1500, 2000, 2500, 3000, 5000]);
    assert_eq!(pauses.len(), 21);
    assert!(unit.samples.is_empty());
}

#[test]
fn rows_are_framed_line_by_line() {
    let lines = vec!["{\"a\":1}".to_string(), String::new(), "{}".to_string()];
    let text = frame_rows(&lines);
    assert_eq!(text, "{\"a\":1}\n\n{}\n");
    let read: Vec<&str> = text.lines().collect();
    assert_eq!(read, lines);
    assert_eq!(frame_rows(&vec![]), "");
}
