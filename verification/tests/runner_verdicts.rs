use boj_shell::data::ExampleIO;
use boj_shell::runner::{judge_case, normalize, normalized_eq, CaseVerdict, Output};

fn finished(stdout: &str, success: bool) -> Option<Output> {
    Some(Output {
        stdout: stdout.to_string(),
        stderr: String::new(),
        success,
        duration_ms: 42,
    })
}

#[test]
fn normalization_trims_line_ends_and_trailing_blanks() {
    assert_eq!(normalize("1 2 \n3 4\n\n"), "1 2\n3 4\n");
    assert_eq!(normalize("1 2\n3 4"), "1 2\n3 4\n");
    assert_eq!(normalize("a\t \r\n b \n\n\n"), "a\n b\n");
    assert_eq!(normalize(""), "");
    assert_eq!(normalize("  \n \n"), "");
    // Interior blank lines stay.
    assert_eq!(normalize("a\n\nb"), "a\n\nb\n");
}

#[test]
fn trailing_whitespace_does_not_reject_a_match() {
    assert!(normalized_eq("1 2\n3 4\n", "1 2 \n3 4"));
    assert!(normalized_eq("ans\n", "ans \t\n\n\n"));
}

#[test]
fn trailing_blank_line_difference_does_not_reject() {
    assert!(normalized_eq("ans\n\n", "ans"));
}

#[test]
fn interior_difference_rejects() {
    assert!(!normalized_eq("1 2\n3 4\n", "1 2\n3 5\n"));
    assert!(!normalized_eq("a\nb\n", "a\n\nb\n"));
}

#[test]
fn accepted_when_diff_output_matches_after_normalization() {
    let v = judge_case("in", "3\n", finished("3 \n\n", true), true);
    match v {
        CaseVerdict::Accepted { duration_ms } => assert_eq!(duration_ms, 42),
        _ => panic!("expected acceptance"),
    }
    assert!(v.continues());
}

#[test]
fn wrong_answer_on_interior_difference() {
    let v = judge_case("in", "3\n", finished("4\n", true), true);
    match &v {
        CaseVerdict::WrongAnswer {
            expected, stdout, ..
        } => {
            assert_eq!(expected, "3\n");
            assert_eq!(stdout, "4\n");
        }
        _ => panic!("expected a wrong answer"),
    }
    assert!(!v.continues());
}

#[test]
fn nonzero_exit_is_a_runtime_error_even_if_output_matches() {
    let v = judge_case("in", "3\n", finished("3\n", false), true);
    assert!(matches!(v, CaseVerdict::RuntimeError { .. }));
    assert!(!v.continues());
    // The same holds with diff off.
    let v = judge_case("in", "3\n", finished("3\n", false), false);
    assert!(matches!(v, CaseVerdict::RuntimeError { .. }));
    assert!(!v.continues());
}

#[test]
fn timeout_is_reported_as_such() {
    let v = judge_case("in", "3\n", None, true);
    assert!(matches!(v, CaseVerdict::TimedOut));
    assert!(!v.continues());
}

#[test]
fn diff_off_shows_output_and_continues() {
    let v = judge_case("1 2\n", "3\n", finished("anything\n", true), false);
    match &v {
        CaseVerdict::OutputShown { stdin, stdout, .. } => {
            assert_eq!(stdin, "1 2\n");
            assert_eq!(stdout, "anything\n");
        }
        _ => panic!("expected the output to be shown"),
    }
    assert!(v.continues());
}

#[test]
fn failing_case_stops_the_remaining_cases() {
    // Three sample cases; the second one exits nonzero.  The suite
    // must pass case one, fail case two, and never run case three.
    let io = vec![
        ExampleIO {
            input: "a".to_string(),
            output: "1\n".to_string(),
        },
        ExampleIO {
            input: "b".to_string(),
            output: "2\n".to_string(),
        },
        ExampleIO {
            input: "c".to_string(),
            output: "3\n".to_string(),
        },
    ];
    let canned = vec![finished("1\n", true), finished("2\n", false), finished("3\n", true)];
    let mut executed = 0;
    let mut verdicts = vec![];
    for (case, outcome) in io.iter().zip(canned.into_iter()) {
        executed += 1;
        let v = judge_case(&case.input, &case.output, outcome, true);
        let go_on = v.continues();
        verdicts.push(v);
        if !go_on {
            break;
        }
    }
    assert_eq!(executed, 2);
    assert!(matches!(verdicts[0], CaseVerdict::Accepted { .. }));
    assert!(matches!(verdicts[1], CaseVerdict::RuntimeError { .. }));
}
