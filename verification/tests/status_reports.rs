use boj_shell::status::{classify_status, percent_of, result_display, SubmitOutcome, SubmitStatus};

#[test]
fn judging_class_keeps_polling() {
    match classify_status("Judging", "result result-judging") {
        SubmitStatus::InProgress { percent } => assert!(percent.is_none()),
        _ => panic!("expected progress"),
    }
    for class in [
        "result-wait",
        "result-rejudge-wait",
        "result-no-judge",
        "result-compile",
    ] {
        assert!(matches!(
            classify_status("...", class),
            SubmitStatus::InProgress { .. }
        ));
    }
}

#[test]
fn judging_text_keeps_polling() {
    assert!(matches!(
        classify_status("Pending", "unrelated"),
        SubmitStatus::InProgress { .. }
    ));
    assert!(matches!(
        classify_status("Judg...", "unrelated"),
        SubmitStatus::InProgress { .. }
    ));
    // The Korean judging markers count too.
    assert!(matches!(
        classify_status("\u{cc44}\u{c810} \u{c911}", "unrelated"),
        SubmitStatus::InProgress { .. }
    ));
}

#[test]
fn progress_percentage_is_read_from_the_text() {
    match classify_status("Judging (37%)", "result result-judging") {
        SubmitStatus::InProgress { percent } => assert_eq!(percent, Some(37)),
        _ => panic!("expected progress"),
    }
    assert_eq!(percent_of("no group here"), None);
    assert_eq!(percent_of("(12%) then (34%)"), Some(12));
    assert_eq!(percent_of("(%) (7%)"), Some(7));
    // A percentage too large for a machine word is ignored.
    assert_eq!(percent_of("(99999999999999999999999999%)"), None);
}

#[test]
fn accepted_result() {
    match classify_status("Accepted", "result result-ac") {
        SubmitStatus::Finished { result, outcome } => {
            assert_eq!(result, "AC");
            assert_eq!(outcome, SubmitOutcome::Accepted);
        }
        _ => panic!("expected a terminal status"),
    }
}

#[test]
fn partially_accepted_result() {
    match classify_status("Partial", "result result-pac") {
        SubmitStatus::Finished { result, outcome } => {
            assert_eq!(result, "PAC");
            assert_eq!(outcome, SubmitOutcome::PartiallyAccepted);
        }
        _ => panic!("expected a terminal status"),
    }
}

#[test]
fn rejecting_results() {
    for (class, code) in [
        ("result result-wa", "WA"),
        ("result result-rte", "RTE"),
        ("result result-tle", "TLE"),
        ("result result-ce", "CE"),
    ] {
        match classify_status("done", class) {
            SubmitStatus::Finished { result, outcome } => {
                assert_eq!(result, code);
                assert_eq!(outcome, SubmitOutcome::Rejected);
            }
            _ => panic!("expected a terminal status"),
        }
    }
}

#[test]
fn missing_result_code_is_unknown() {
    // Terminal (no judging marker), but the class never names a
    // result code with the ` result-` marker.
    assert!(matches!(
        classify_status("done", "result-ac"),
        SubmitStatus::FinishedUnknown
    ));
    assert!(matches!(
        classify_status("done", "nothing here"),
        SubmitStatus::FinishedUnknown
    ));
}

#[test]
fn runtime_error_display_is_shortened() {
    assert_eq!(result_display("RTE"), "RE");
    assert_eq!(result_display("AC"), "AC");
    assert_eq!(result_display("WA"), "WA");
}
