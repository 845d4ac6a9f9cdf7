use nansi::args::Args;
use nansi::exec::{execute, NansiFile};
use nansi::strutil::{contains_string, join_space, str_lex_lt, usize_to_string};
use nansi::template::EnvMap;

#[test]
fn decimal_rendering() {
    assert_eq!(usize_to_string(0).as_str(), "0");
    assert_eq!(usize_to_string(7).as_str(), "7");
    assert_eq!(usize_to_string(10).as_str(), "10");
    assert_eq!(usize_to_string(90210).as_str(), "90210");
}

#[test]
fn lexicographic_order() {
    let a = String::from("asd");
    let l = String::from("ls");
    let empty = String::new();
    assert!(str_lex_lt(&a, &l));
    assert!(!str_lex_lt(&l, &a));
    assert!(!str_lex_lt(&a, &a));
    assert!(str_lex_lt(&empty, &a));
    // A proper prefix comes first.
    assert!(str_lex_lt(&String::from("ls"), &String::from("lsls")));
}

#[test]
fn join_with_spaces() {
    let none: Vec<String> = vec![];
    let one = vec![String::from("-l")];
    let two = vec![String::from("-c"), String::from("ls -ltra")];
    assert_eq!(join_space(&none).as_str(), "");
    assert_eq!(join_space(&one).as_str(), "-l");
    assert_eq!(join_space(&two).as_str(), "-c ls -ltra");
}

#[test]
fn membership_by_contents() {
    let v = vec![String::from("ls"), String::from("asd")];
    assert!(contains_string(&v, &String::from("asd")));
    assert!(!contains_string(&v, &String::from("missing")));
}

#[test]
fn args_keep_the_path() {
    let args = Args::new(String::from("testdata/nansifile_linux.json"));
    assert_eq!(args.nansi_file.as_str(), "testdata/nansifile_linux.json");
}

#[test]
fn empty_task_list_reports_only_the_header() {
    let f = NansiFile { exec_list: vec![], file_path: String::from("empty.json") };
    let spawner = |_p: String, _a: Vec<String>| -> nansi::exec::SpawnOutcome {
        panic!("nothing should be spawned for an empty list");
    };
    let report = execute(&f, &EnvMap::new(), spawner).unwrap();
    assert!(report.tasks.is_empty());
    assert!(report.succ_labels.is_empty());
    let lines: Vec<String> = report.lines.iter().map(nansi::exec::render_plain).collect();
    assert_eq!(lines, vec![String::from("Using NansiFile: empty.json")]);
}
