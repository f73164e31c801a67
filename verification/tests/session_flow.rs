use boj_shell::command::{Command, EnvMap, Setting};
use boj_shell::data::{Credentials, ExampleIO, Preset, Problem, ProblemId, ProblemKind};
use boj_shell::session::{Action, CommandExecuteError, Session};

fn parse(line: &str) -> Command {
    Command::parse_line(line, &EnvMap { vars: vec![] }).unwrap()
}

fn problem(code: &str, kinds: Vec<ProblemKind>, time_millis: u64) -> Problem {
    Problem {
        id: ProblemId::parse(code).unwrap(),
        title: format!("Problem {}", code),
        kind: kinds,
        time_millis,
        time_bonus: true,
        memory_mb: 512,
        memory_bonus: true,
        io: vec![ExampleIO {
            input: "1 2\n".to_string(),
            output: "3\n".to_string(),
        }],
    }
}

#[test]
fn new_session_has_the_builtin_defaults() {
    let s = Session::new();
    assert_eq!(s.build, "cargo build --release");
    assert_eq!(s.cmd, "cargo run --release");
    assert_eq!(s.input, "input.txt");
    assert_eq!(s.lang, "Rust 2021");
    assert_eq!(s.file, "src/main.rs");
    assert_eq!(s.init, "");
    assert!(s.current.is_none());
    assert!(s.problems.is_empty());
    assert!(s.presets.is_empty());
}

#[test]
fn selecting_a_cached_problem_never_asks_for_a_fetch() {
    let mut s = Session::new();
    let mut fetches = 0;
    // First selection: the cache is empty, so a fetch is required.
    match s.execute(&parse("prob 1000")).unwrap() {
        Action::FetchProblem { id } => {
            fetches += 1;
            assert_eq!(id.code(), "1000");
            let a = s.store_problem(problem("1000", vec![], 1000));
            assert!(matches!(a, Action::ShowProblem { .. }));
        }
        _ => panic!("expected a fetch"),
    }
    assert_eq!(s.current, Some(0));
    // Re-selecting the same problem must reuse the cache.
    match s.execute(&parse("prob 1000")).unwrap() {
        Action::ShowProblem { .. } => {}
        Action::FetchProblem { .. } => {
            fetches += 1;
            panic!("cached problem fetched again");
        }
        _ => panic!("unexpected action"),
    }
    assert_eq!(fetches, 1);
    assert_eq!(s.problems.len(), 1);
}

#[test]
fn selecting_another_problem_switches_current() {
    let mut s = Session::new();
    assert!(matches!(
        s.execute(&parse("prob 1000")).unwrap(),
        Action::FetchProblem { .. }
    ));
    s.store_problem(problem("1000", vec![], 1000));
    assert!(matches!(
        s.execute(&parse("prob 2000")).unwrap(),
        Action::FetchProblem { .. }
    ));
    s.store_problem(problem("2000", vec![], 2000));
    assert_eq!(s.current, Some(1));
    s.execute(&parse("prob 1000")).unwrap();
    assert_eq!(s.current, Some(0));
}

#[test]
fn bad_problem_id_is_rejected_without_state_change() {
    let mut s = Session::new();
    match s.execute(&parse("prob 12a")).unwrap_err() {
        CommandExecuteError::InvalidProblemId { input } => assert_eq!(input, "12a"),
        _ => panic!("wrong error"),
    }
    assert!(s.current.is_none());
    assert!(s.problems.is_empty());
}

#[test]
fn commands_requiring_a_problem_fail_without_one() {
    let mut s = Session::new();
    for (line, verb) in [
        ("build", "build"),
        ("run", "run"),
        ("test", "test"),
        ("submit", "submit"),
    ] {
        match s.execute(&parse(line)).unwrap_err() {
            CommandExecuteError::ProblemNotSpecified { verb: v } => {
                assert_eq!(v, verb);
            }
            _ => panic!("wrong error"),
        }
    }
    let e = s.execute(&parse("build")).unwrap_err();
    assert_eq!(e.message(), "build: Problem not specified");
}

#[test]
fn build_substitutes_the_problem_id() {
    let mut s = Session::new();
    s.execute(&parse("prob 1000")).unwrap();
    s.store_problem(problem("1000", vec![], 1000));
    s.apply_setting(&Setting::Build("make {}".to_string()));
    match s.execute(&parse("build")).unwrap() {
        Action::RunSilent { cmd } => assert_eq!(cmd, "make 1000"),
        _ => panic!("expected a silent run"),
    }
    match s.execute(&parse("build 'gcc {}.c'")).unwrap() {
        Action::RunSilent { cmd } => assert_eq!(cmd, "gcc 1000.c"),
        _ => panic!("expected a silent run"),
    }
}

#[test]
fn run_uses_deadline_and_input_defaults() {
    let mut s = Session::new();
    s.execute(&parse("prob 1000")).unwrap();
    s.store_problem(problem("1000", vec![], 2000));
    match s.execute(&parse("run")).unwrap() {
        Action::RunTimed {
            cmd,
            input_path,
            deadline_ms,
        } => {
            assert_eq!(cmd, "cargo run --release");
            assert_eq!(input_path, "input.txt");
            assert_eq!(deadline_ms, 8000);
        }
        _ => panic!("expected a timed run"),
    }
    match s.execute(&parse("run i=other.txt c=./sol")).unwrap() {
        Action::RunTimed {
            cmd, input_path, ..
        } => {
            assert_eq!(cmd, "./sol");
            assert_eq!(input_path, "other.txt");
        }
        _ => panic!("expected a timed run"),
    }
}

#[test]
fn run_on_an_interactive_problem_is_interactive() {
    let mut s = Session::new();
    s.execute(&parse("prob 1000")).unwrap();
    s.store_problem(problem("1000", vec![ProblemKind::Interactive], 1000));
    match s.execute(&parse("run")).unwrap() {
        Action::RunInteractive { cmd } => assert_eq!(cmd, "cargo run --release"),
        _ => panic!("expected an interactive run"),
    }
}

#[test]
fn run_is_blocked_with_every_reason_listed() {
    let mut s = Session::new();
    s.execute(&parse("prob 1000")).unwrap();
    s.store_problem(problem(
        "1000",
        vec![ProblemKind::FunctionImpl, ProblemKind::ClassImpl],
        1000,
    ));
    let e = s.execute(&parse("run")).unwrap_err();
    assert_eq!(
        e.message(),
        "run: Current problem does not support run. Reason: function implementation, class implementation"
    );
    let e = s.execute(&parse("test")).unwrap_err();
    assert_eq!(
        e.message(),
        "test: Current problem does not support test. Reason: function implementation, class implementation"
    );
}

#[test]
fn test_disables_diff_with_a_notice() {
    let mut s = Session::new();
    s.execute(&parse("prob 1000")).unwrap();
    s.store_problem(problem("1000", vec![ProblemKind::SpecialJudge], 5000));
    match s.execute(&parse("test")).unwrap() {
        Action::RunTests {
            cmd,
            deadline_ms,
            diff,
            notice,
        } => {
            assert_eq!(cmd, "cargo run --release");
            assert_eq!(deadline_ms, 10000);
            assert!(!diff);
            assert_eq!(
                notice.unwrap(),
                "test: Current problem does not support diff on test output. Reason: special judge"
            );
        }
        _ => panic!("expected a test run"),
    }
}

#[test]
fn test_with_diff_on_a_plain_problem() {
    let mut s = Session::new();
    s.execute(&parse("prob 1000")).unwrap();
    s.store_problem(problem("1000", vec![], 1000));
    match s.execute(&parse("test")).unwrap() {
        Action::RunTests { diff, notice, .. } => {
            assert!(diff);
            assert!(notice.is_none());
        }
        _ => panic!("expected a test run"),
    }
}

#[test]
fn submit_without_language_fails_before_any_judge_call() {
    let mut s = Session::new();
    s.execute(&parse("prob 1000")).unwrap();
    s.store_problem(problem("1000", vec![], 1000));
    // No override and no stored default for the language, while the
    // file still has its stored default.
    s.apply_setting(&Setting::Lang(String::new()));
    let e = s.execute(&parse("submit")).unwrap_err();
    assert!(matches!(e, CommandExecuteError::LanguageNotSpecified));
    assert_eq!(e.message(), "submit: Language not specified");
    // With no stored file either, the language is still reported
    // first.
    s.apply_setting(&Setting::File(String::new()));
    assert!(matches!(
        s.execute(&parse("submit")).unwrap_err(),
        CommandExecuteError::LanguageNotSpecified
    ));
    // A language alone leaves the file missing.
    s.apply_setting(&Setting::Lang("Rust 2021".to_string()));
    let e = s.execute(&parse("submit")).unwrap_err();
    assert_eq!(e.message(), "submit: Solution file not specified");
}

#[test]
fn submit_resolves_language_and_file() {
    let mut s = Session::new();
    s.execute(&parse("prob 1000")).unwrap();
    s.store_problem(problem("1000", vec![], 1000));
    s.apply_setting(&Setting::File("sol/{}.rs".to_string()));
    match s.execute(&parse("submit")).unwrap() {
        Action::SubmitSolution { lang, file } => {
            assert_eq!(lang, "Rust 2021");
            assert_eq!(file, "sol/1000.rs");
        }
        _ => panic!("expected a submission"),
    }
    match s.execute(&parse("submit l=C99 f={}.c")).unwrap() {
        Action::SubmitSolution { lang, file } => {
            assert_eq!(lang, "C99");
            assert_eq!(file, "1000.c");
        }
        _ => panic!("expected a submission"),
    }
}

#[test]
fn settings_mutate_exactly_one_field() {
    let mut s = Session::new();
    let a = s.apply_setting(&Setting::Lang("C99".to_string()));
    assert!(matches!(a, Action::Idle));
    assert_eq!(s.lang, "C99");
    assert_eq!(s.file, "src/main.rs");
    let a = s.apply_setting(&Setting::Credentials(Credentials {
        bojautologin: "aaa".to_string(),
        onlinejudge: "bbb".to_string(),
    }));
    match a {
        Action::Login {
            bojautologin,
            onlinejudge,
        } => {
            assert_eq!(bojautologin, "aaa");
            assert_eq!(onlinejudge, "bbb");
        }
        _ => panic!("expected a login"),
    }
    assert_eq!(s.credentials.bojautologin, "aaa");
    assert_eq!(s.credentials.onlinejudge, "bbb");
}

#[test]
fn setting_init_runs_it_when_a_problem_is_selected() {
    let mut s = Session::new();
    // Without a problem, storing init asks for nothing.
    let a = s.apply_setting(&Setting::Init("mkdir {}".to_string()));
    assert!(matches!(a, Action::Idle));
    s.execute(&parse("prob 1000")).unwrap();
    match s.store_problem(problem("1000", vec![], 1000)) {
        Action::ShowProblem { init } => assert_eq!(init.unwrap(), "mkdir 1000"),
        _ => panic!("expected the selected problem"),
    }
    let a = s.apply_setting(&Setting::Init("touch {}.txt".to_string()));
    match a {
        Action::RunInit { cmd } => assert_eq!(cmd, "touch 1000.txt"),
        _ => panic!("expected an init run"),
    }
    // An empty init never runs.
    let a = s.apply_setting(&Setting::Init(String::new()));
    assert!(matches!(a, Action::Idle));
}

#[test]
fn presets_apply_their_fields_in_order() {
    let mut s = Session::new();
    let replaced = s.add_preset(Preset {
        name: "fast".to_string(),
        credentials: None,
        lang: Some("C99".to_string()),
        file: Some("a.c".to_string()),
        init: None,
        build: None,
        cmd: Some("./a.out".to_string()),
        input: None,
    });
    assert!(!replaced);
    match s.execute(&parse("preset fast")).unwrap() {
        Action::ApplyPreset { settings } => {
            assert_eq!(settings.len(), 3);
            assert!(matches!(settings[0], Setting::Lang(_)));
            assert!(matches!(settings[1], Setting::File(_)));
            assert!(matches!(settings[2], Setting::Cmd(_)));
            for st in &settings {
                s.apply_setting(st);
            }
        }
        _ => panic!("expected a preset application"),
    }
    assert_eq!(s.lang, "C99");
    assert_eq!(s.file, "a.c");
    assert_eq!(s.cmd, "./a.out");
    assert_eq!(s.build, "cargo build --release");
}

#[test]
fn unknown_preset_is_an_error() {
    let mut s = Session::new();
    let e = s.execute(&parse("preset nope")).unwrap_err();
    assert_eq!(e.message(), "preset: Unknown preset name");
}

#[test]
fn adding_a_preset_twice_replaces_it() {
    let mut s = Session::new();
    let p = |lang: &str| Preset {
        name: "p".to_string(),
        credentials: None,
        lang: Some(lang.to_string()),
        file: None,
        init: None,
        build: None,
        cmd: None,
        input: None,
    };
    assert!(!s.add_preset(p("one")));
    assert!(s.add_preset(p("two")));
    assert_eq!(s.presets.len(), 1);
    assert_eq!(s.presets[0].lang.as_deref(), Some("two"));
}

#[test]
fn missing_file_error_names_the_file() {
    let e = CommandExecuteError::FileNotFound {
        file: "sol/1000.rs".to_string(),
    };
    assert_eq!(e.message(), "submit: File `sol/1000.rs` does not exist");
}

#[test]
fn help_exit_and_shell_dispatch() {
    let mut s = Session::new();
    assert!(matches!(s.execute(&parse("help")).unwrap(), Action::ShowHelp));
    assert!(matches!(s.execute(&parse("exit")).unwrap(), Action::Terminate));
    match s.execute(&parse("$ echo hi")).unwrap() {
        Action::RunInteractive { cmd } => assert_eq!(cmd, "echo hi"),
        _ => panic!("expected the shell escape"),
    }
}
