use boj_shell::data::ProblemId;
use boj_shell::session::run_deadline_millis;
use boj_shell::subst::substitute_problem;

#[test]
fn substitutes_bare_problem_id() {
    let id = ProblemId::parse("1234").unwrap();
    assert_eq!(substitute_problem("{}", &id), "1234");
    assert_eq!(substitute_problem("sol/{}.rs", &id), "sol/1234.rs");
    assert_eq!(substitute_problem("{x}", &id), "1234");
}

#[test]
fn substitutes_contest_problem_with_separator() {
    let id = ProblemId::parse("5/10").unwrap();
    assert_eq!(substitute_problem("a/{-}/b", &id), "a/5-10/b");
    assert_eq!(substitute_problem("{}", &id), "5_10");
    assert_eq!(substitute_problem("{.}", &id), "5.10");
}

#[test]
fn multiple_and_unmatched_patterns() {
    let id = ProblemId::parse("7").unwrap();
    assert_eq!(substitute_problem("{}/{}", &id), "7/7");
    assert_eq!(substitute_problem("{ab}", &id), "{ab}");
    assert_eq!(substitute_problem("no pattern", &id), "no pattern");
    assert_eq!(substitute_problem("", &id), "");
}

#[test]
fn wildcard_prefers_the_longer_pattern() {
    // `{}}` reads as a one-character pattern whose separator is `}`.
    let id = ProblemId::parse("5/10").unwrap();
    assert_eq!(substitute_problem("{}}", &id), "5}10");
    // But `{}x` falls back to the bare pattern.
    assert_eq!(substitute_problem("{}x", &id), "5_10x");
}

#[test]
fn deadline_is_three_times_limit_plus_two_capped_at_ten() {
    // A 2.0 s limit gives min(10.0, 2.0*3+2) = 8.0 s.
    assert_eq!(run_deadline_millis(2000), 8000);
    // A 5.0 s limit gives min(10.0, 17.0) = 10.0 s.
    assert_eq!(run_deadline_millis(5000), 10000);
    assert_eq!(run_deadline_millis(0), 2000);
    assert_eq!(run_deadline_millis(2666), 9998);
    assert_eq!(run_deadline_millis(2667), 10000);
    assert_eq!(run_deadline_millis(u64::MAX), 10000);
}
