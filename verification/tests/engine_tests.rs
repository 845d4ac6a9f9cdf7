use nansi::exec::{
    exec_meets_prerequisites, execute, get_item_str, get_label_duplicates, render_plain,
    ExecError, ExecItem, ExecStatus, NansiFile, ReportLine, RunReport, SpawnOutcome,
    TaskReport,
};
use nansi::template::{EnvMap, TemplateError};

fn item(
    label: &str,
    program: &str,
    args: &[&str],
    prereqs: &[&str],
    print_status: bool,
    print_output: bool,
) -> ExecItem {
    ExecItem {
        label: label.to_string(),
        program: program.to_string(),
        args: args.iter().map(|a| a.to_string()).collect(),
        print_status,
        print_output,
        prerequisites: prereqs.iter().map(|p| p.to_string()).collect(),
    }
}

fn file_of(items: Vec<ExecItem>, path: &str) -> NansiFile {
    NansiFile { exec_list: items, file_path: path.to_string() }
}

fn fake_spawner(program: String, args: Vec<String>) -> SpawnOutcome {
    if program == "ls" {
        if args.is_empty() {
            SpawnOutcome::Completed {
                exit_zero: true,
                stdout: String::from("list\n"),
                stderr: String::new(),
            }
        } else {
            SpawnOutcome::Completed {
                exit_zero: false,
                stdout: String::new(),
                stderr: String::from("ls: invalid option\n"),
            }
        }
    } else if program == "/bin/bash" {
        SpawnOutcome::Completed {
            exit_zero: true,
            stdout: String::from("README.md\n"),
            stderr: String::new(),
        }
    } else {
        SpawnOutcome::SpawnFailed { error: String::from("No such file or directory (os error 2)") }
    }
}

fn statuses(report: &RunReport) -> Vec<ExecStatus> {
    report.tasks.iter().map(|t| t.status).collect()
}

fn rendered(report: &RunReport) -> Vec<String> {
    report.lines.iter().map(render_plain).collect()
}

fn labels(report: &RunReport) -> Vec<String> {
    report.succ_labels.clone()
}

#[test]
fn scenario_statuses_in_order() {
    let f = file_of(
        vec![
            item("ls", "ls", &[], &[], true, false),
            item("l2", "ls", &["-12345"], &[], true, false),
            item("asd", "aaa", &[], &[], true, true),
            item("", "/bin/bash", &["-c", "ls -ltra | grep README"], &[], true, false),
        ],
        "testdata/nansifile_linux.json",
    );
    let report = execute(&f, &EnvMap::new(), fake_spawner).unwrap();
    assert_eq!(
        statuses(&report),
        vec![ExecStatus::OK, ExecStatus::ERR, ExecStatus::ERR, ExecStatus::OK]
    );
    assert_eq!(
        report.tasks[2].output.as_deref(),
        Some("No such file or directory (os error 2)")
    );
    assert_eq!(
        rendered(&report),
        vec![
            String::from("Using NansiFile: testdata/nansifile_linux.json"),
            String::from("[OK] [1][ls] ls "),
            String::from("[FAIL] [2][l2] ls -12345"),
            String::from("[FAIL] [3][asd] aaa "),
            String::from("No such file or directory (os error 2)"),
            String::from("[OK] [4] /bin/bash -c ls -ltra | grep README"),
        ]
    );
}

#[test]
fn duplicate_labels_warn_once_and_accrual_is_kept() {
    let f = file_of(
        vec![
            item("ls", "ls", &[], &[], true, false),
            item("", "ls", &["-12345"], &[], true, false),
            item("asd", "aaa", &[], &[], true, false),
            item("ls", "ls", &[], &[], true, false),
            item("asd", "aaa", &[], &[], true, false),
            item("", "/bin/bash", &["-c", "ls -ltra | grep README"], &[], true, false),
        ],
        "testdata/nansifile_linux_duplicate_labels.json",
    );
    let report = execute(&f, &EnvMap::new(), fake_spawner).unwrap();
    let warn_count = report
        .lines
        .iter()
        .filter(|l| matches!(l, ReportLine::Warn { .. }))
        .count();
    assert_eq!(warn_count, 1);
    let lines = rendered(&report);
    assert_eq!(
        lines[1].as_str(),
        "[WARN] The following aliases are duplicated which may cause issues with conditional execution:"
    );
    assert_eq!(lines[2].as_str(), "[\"asd\", \"ls\"]");
    assert_eq!(
        statuses(&report),
        vec![
            ExecStatus::OK,
            ExecStatus::ERR,
            ExecStatus::ERR,
            ExecStatus::OK,
            ExecStatus::ERR,
            ExecStatus::OK,
        ]
    );
    // The first "ls" success is accrued once and not lost by the duplicate.
    assert_eq!(labels(&report), vec![String::from("ls")]);
}

#[test]
fn prerequisite_before_and_after_success() {
    let f = file_of(
        vec![
            item("lsls", "ls", &[], &["ls"], true, false),
            item("ls", "ls", &[], &[], true, false),
            item("after", "ls", &[], &["ls"], true, false),
            item("bad", "aaa", &[], &[], true, false),
            item("gated", "ls", &[], &["bad"], true, false),
        ],
        "prereq.json",
    );
    let report = execute(&f, &EnvMap::new(), fake_spawner).unwrap();
    assert_eq!(
        statuses(&report),
        vec![
            ExecStatus::SKIP,
            ExecStatus::OK,
            ExecStatus::OK,
            ExecStatus::ERR,
            ExecStatus::SKIP,
        ]
    );
    let lines = rendered(&report);
    assert_eq!(lines[1].as_str(), "[SKIP] [1][lsls] ls ");
    assert_eq!(lines[2].as_str(), "Prerequisites for item [1][lsls] are not met.");
    assert_eq!(lines[7].as_str(), "Prerequisites for item [5][gated] are not met.");
}

#[test]
fn skipped_task_is_never_spawned() {
    let f = file_of(
        vec![item("x", "never-runs", &[], &["missing"], true, false)],
        "skip.json",
    );
    let spawner = |program: String, _args: Vec<String>| -> SpawnOutcome {
        panic!("the gated task must not be spawned, but {} was", program);
    };
    let report = execute(&f, &EnvMap::new(), spawner).unwrap();
    assert_eq!(statuses(&report), vec![ExecStatus::SKIP]);
    assert_eq!(report.tasks[0].output, None);
}

#[test]
fn empty_prerequisites_always_run() {
    let succ: Vec<String> = Vec::new();
    let it = item("", "ls", &[], &[], true, false);
    assert!(exec_meets_prerequisites(&it, &succ));

    let f = file_of(vec![item("", "aaa", &[], &[], true, false)], "p.json");
    let report = execute(&f, &EnvMap::new(), fake_spawner).unwrap();
    // Even a failing task is run, not skipped, when it has no prerequisites.
    assert_eq!(statuses(&report), vec![ExecStatus::ERR]);
}

#[test]
fn success_labels_are_exactly_the_ok_labels_without_duplicates() {
    let f = file_of(
        vec![
            item("a", "ls", &[], &[], true, false),
            item("a", "ls", &[], &[], true, false),
            item("b", "ls", &["-12345"], &[], true, false),
            item("", "ls", &[], &[], true, false),
        ],
        "labels.json",
    );
    let report = execute(&f, &EnvMap::new(), fake_spawner).unwrap();
    assert_eq!(labels(&report), vec![String::from("a")]);
}

#[test]
fn duplicate_label_detection_sorted_each_once() {
    let list = vec![
        item("ls", "ls", &[], &[], true, false),
        item("asd", "aaa", &[], &[], true, false),
        item("ls", "ls", &[], &[], true, false),
        item("asd", "aaa", &[], &[], true, false),
    ];
    let dups = get_label_duplicates(&list);
    assert_eq!(dups, vec![String::from("asd"), String::from("ls")]);
}

#[test]
fn empty_labels_are_excluded_from_duplicate_detection() {
    let list = vec![
        item("", "ls", &[], &[], true, false),
        item("", "ls", &[], &[], true, false),
        item("once", "ls", &[], &[], true, false),
    ];
    let dups = get_label_duplicates(&list);
    assert!(dups.is_empty());
}

#[test]
fn item_reference_format() {
    let labeled = item("x", "ls", &[], &[], true, false);
    let unlabeled = item("", "ls", &[], &[], true, false);
    assert_eq!(get_item_str(&labeled, 12).as_str(), "[12][x]");
    assert_eq!(get_item_str(&unlabeled, 3).as_str(), "[3]");
}

#[test]
fn render_plain_tokens() {
    let ok = ReportLine::Status { status: ExecStatus::OK, text: String::from("t") };
    let err = ReportLine::Status { status: ExecStatus::ERR, text: String::from("t") };
    let warn = ReportLine::Status { status: ExecStatus::WARN, text: String::from("t") };
    let skip = ReportLine::Status { status: ExecStatus::SKIP, text: String::from("t") };
    let warn_line = ReportLine::Warn { text: String::from("w") };
    let plain = ReportLine::Nominal { text: String::from("n") };
    assert_eq!(render_plain(&ok).as_str(), "[OK] t");
    assert_eq!(render_plain(&err).as_str(), "[FAIL] t");
    assert_eq!(render_plain(&warn).as_str(), "[WARN] t");
    assert_eq!(render_plain(&skip).as_str(), "[SKIP] t");
    assert_eq!(render_plain(&warn_line).as_str(), "[WARN] w");
    assert_eq!(render_plain(&plain).as_str(), "n");
}

#[test]
fn templating_failure_aborts_the_run() {
    let f = file_of(
        vec![
            item("ok", "ls", &[], &[], true, false),
            item("", "echo", &["{NOPE}"], &[], true, false),
            item("", "ls", &[], &[], true, false),
        ],
        "abort.json",
    );
    let failure = execute(&f, &EnvMap::new(), fake_spawner).unwrap_err();
    match failure.error {
        ExecError::Template { err: TemplateError::UndefinedVariable { name } } => {
            assert_eq!(name.as_str(), "NOPE");
        },
        other => panic!("expected an undefined-variable failure, got {:?}", other),
    }
    // Only the first task was processed; the failing task adds no lines.
    assert_eq!(failure.partial.tasks.len(), 1);
    let lines: Vec<String> = failure.partial.lines.iter().map(render_plain).collect();
    assert_eq!(
        lines,
        vec![String::from("Using NansiFile: abort.json"), String::from("[OK] [1][ok] ls ")]
    );
    assert_eq!(failure.partial.succ_labels, vec![String::from("ok")]);
}

#[test]
fn undecodable_output_aborts_the_run() {
    let f = file_of(vec![item("", "garbled", &[], &[], true, false)], "u.json");
    let spawner = |_program: String, _args: Vec<String>| SpawnOutcome::Undecodable;
    let failure = execute(&f, &EnvMap::new(), spawner).unwrap_err();
    assert!(matches!(failure.error, ExecError::UndecodableOutput));
    assert_eq!(failure.partial.tasks.len(), 0);
}

#[test]
fn output_reported_only_when_requested() {
    let f = file_of(
        vec![
            item("", "ls", &[], &[], true, true),
            item("", "ls", &[], &[], true, false),
        ],
        "o.json",
    );
    let report = execute(&f, &EnvMap::new(), fake_spawner).unwrap();
    let lines = rendered(&report);
    assert_eq!(
        lines,
        vec![
            String::from("Using NansiFile: o.json"),
            String::from("[OK] [1] ls "),
            String::from("list\n"),
            String::from("[OK] [2] ls "),
        ]
    );
}

#[test]
fn status_line_suppressed_when_not_requested() {
    let f = file_of(vec![item("", "ls", &[], &[], false, false)], "q.json");
    let report = execute(&f, &EnvMap::new(), fake_spawner).unwrap();
    let lines = rendered(&report);
    assert_eq!(lines, vec![String::from("Using NansiFile: q.json")]);
    assert_eq!(statuses(&report), vec![ExecStatus::OK]);
}

#[test]
fn arguments_are_templated_before_spawning() {
    let mut env = EnvMap::new();
    env = env.insert(String::from("DIR"), String::from("/tmp"));
    let f = file_of(vec![item("", "ls", &["{DIR}"], &[], true, false)], "t.json");
    let spawner = |_program: String, args: Vec<String>| {
        assert_eq!(args, vec![String::from("/tmp")]);
        SpawnOutcome::Completed {
            exit_zero: true,
            stdout: String::new(),
            stderr: String::new(),
        }
    };
    let report = execute(&f, &env, spawner).unwrap();
    assert_eq!(statuses(&report), vec![ExecStatus::OK]);
    // The status line shows the original, untemplated argument.
    assert_eq!(rendered(&report)[1].as_str(), "[OK] [1] ls {DIR}");
}

#[test]
fn task_defaults() {
    let t = ExecItem::new(String::from("prog"));
    assert_eq!(t.label.as_str(), "");
    assert_eq!(t.program.as_str(), "prog");
    assert!(t.args.is_empty());
    assert!(t.print_status);
    assert!(!t.print_output);
    assert!(t.prerequisites.is_empty());

    let _ = TaskReport { status: ExecStatus::OK, output: None };
}
