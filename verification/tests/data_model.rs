use boj_shell::data::{GateQuery, gate_reasons, any_interactive, ProblemId, ProblemKind};

#[test]
fn problem_id_parsing() {
    match ProblemId::parse("1234").unwrap() {
        ProblemId::Problem(code) => assert_eq!(code, "1234"),
        _ => panic!("wrong variant"),
    }
    match ProblemId::parse("5/10").unwrap() {
        ProblemId::ContestProblem(code) => assert_eq!(code, "5/10"),
        _ => panic!("wrong variant"),
    }
    assert!(ProblemId::parse("5/10/3").is_err());
    assert!(ProblemId::parse("12a").is_err());
    assert!(ProblemId::parse("").is_ok());
}

#[test]
fn problem_urls() {
    let id = ProblemId::parse("1234").unwrap();
    assert_eq!(id.problem_url(), "https://www.acmicpc.net/problem/1234");
    assert_eq!(id.submit_url(), "https://www.acmicpc.net/submit/1234");
    let cid = ProblemId::parse("5/10").unwrap();
    assert_eq!(cid.problem_url(), "https://www.acmicpc.net/contest/problem/5/10");
    assert_eq!(cid.submit_url(), "https://www.acmicpc.net/contest/submit/5/10");
}

#[test]
fn label_classification() {
    let cases = [
        ("problem-label problem-label-spj", ProblemKind::SpecialJudge),
        ("problem-label problem-label-subtask", ProblemKind::Subtask),
        ("problem-label problem-label-partial", ProblemKind::PartialScore),
        ("problem-label problem-label-func", ProblemKind::FunctionImpl),
        ("problem-label problem-label-interactive", ProblemKind::Interactive),
        ("problem-label problem-label-two-steps", ProblemKind::TwoSteps),
        ("problem-label problem-label-full", ProblemKind::FullGrade),
        ("problem-label problem-label-unofficial", ProblemKind::Unofficial),
        ("problem-label problem-label-preparing", ProblemKind::Preparing),
        (
            "problem-label problem-label-language-restrict",
            ProblemKind::LanguageRestrict,
        ),
        ("problem-label problem-label-class", ProblemKind::ClassImpl),
        ("problem-label problem-label-feedback", ProblemKind::Feedback),
        ("problem-label problem-label-time-acc", ProblemKind::TimeAccum),
        ("problem-label problem-label-random-killer", ProblemKind::RandomKiller),
    ];
    for (class, kind) in cases {
        assert_eq!(ProblemKind::from_class_and_text(class, "").unwrap(), kind);
    }
}

#[test]
fn submit_limit_label_reads_its_count() {
    let k = ProblemKind::from_class_and_text(
        "problem-label problem-label-submit-limit",
        "Submissions limited to 5",
    )
    .unwrap();
    assert_eq!(k, ProblemKind::SubmitLimit(5));
    // A count that does not parse leaves the label unrecognized.
    assert!(ProblemKind::from_class_and_text(
        "problem-label problem-label-submit-limit",
        "no count here"
    )
    .is_err());
}

#[test]
fn unknown_label_is_an_error() {
    let e = ProblemKind::from_class_and_text("problem-label-shiny", "x").unwrap_err();
    assert_eq!(e.input, "problem-label-shiny");
}

#[test]
fn gating_queries() {
    assert_eq!(ProblemKind::FunctionImpl.no_run(), Some("function implementation"));
    assert_eq!(ProblemKind::ClassImpl.no_run(), Some("class implementation"));
    assert_eq!(ProblemKind::Interactive.no_run(), None);
    assert_eq!(ProblemKind::Interactive.no_test(), Some("interactive"));
    assert_eq!(ProblemKind::TwoSteps.no_test(), Some("two steps"));
    assert_eq!(ProblemKind::SpecialJudge.no_diff(), Some("special judge"));
    assert_eq!(ProblemKind::PartialScore.no_diff(), Some("partial score"));
    assert_eq!(ProblemKind::SpecialJudge.no_test(), None);
    assert!(ProblemKind::Interactive.is_interactive());
    assert!(!ProblemKind::SpecialJudge.is_interactive());
}

#[test]
fn gate_reasons_collects_in_flag_order() {
    let kinds = vec![
        ProblemKind::FunctionImpl,
        ProblemKind::SpecialJudge,
        ProblemKind::ClassImpl,
    ];
    assert_eq!(
        gate_reasons(GateQuery::Run, &kinds),
        vec!["function implementation".to_string(), "class implementation".to_string()]
    );
    assert_eq!(
        gate_reasons(GateQuery::Diff, &kinds),
        vec!["special judge".to_string()]
    );
    assert!(gate_reasons(GateQuery::Test, &vec![ProblemKind::SpecialJudge]).is_empty());
    assert!(any_interactive(&vec![
        ProblemKind::SpecialJudge,
        ProblemKind::Interactive
    ]));
    assert!(!any_interactive(&kinds));
}
