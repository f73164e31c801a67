//! Classifying a submission status report: whether judging is still
//! in progress (and at what percentage), or finished with a result
//! code read from the status marker's class attribute.

use vstd::prelude::*;
use vstd::string::StrSliceExecFns;
use crate::strutil::{
    dec_value, is_digit, push_char, seq_contains, spec_is_digit, str_contains, str_to_chars,
};
use crate::tokenize::{is_lower_c, spec_lower_run};

verus! {

/// How far a submission has come.
#[derive(Debug)]
pub enum SubmitStatus {
    /// Still pending or judging; the percentage is shown when the
    /// status text carries one.
    InProgress { percent: Option<u64> },
    /// A terminal status: the result code, uppercased.
    Finished { result: String, outcome: SubmitOutcome },
    /// A terminal status whose class carries no result code.
    FinishedUnknown,
}

/// The colour of a terminal result: accepted, partially accepted, or
/// anything else.
#[derive(Clone, Copy, Debug, PartialEq, Eq, Structural)]
pub enum SubmitOutcome {
    Accepted,
    PartiallyAccepted,
    Rejected,
}

/// The status is still a continuation: its class or text carries one
/// of the pending/judging markers.  The escaped literals are the
/// judge's Korean words for "judging" and "in progress".
pub open spec fn spec_is_continue(text: Seq<char>, class: Seq<char>) -> bool {
    ||| seq_contains(class, "result-wait"@)
    ||| seq_contains(class, "result-rejudge-wait"@)
    ||| seq_contains(class, "result-no-judge"@)
    ||| seq_contains(class, "result-compile"@)
    ||| seq_contains(class, "result-judging"@)
    ||| seq_contains(text, "\u{cc44}\u{c810}"@)
    ||| seq_contains(text, "\u{c911}"@)
    ||| seq_contains(text, "Pending"@)
    ||| seq_contains(text, "Judg"@)
}

/// Length of the digit run starting at `i`.
pub open spec fn spec_digit_run(s: Seq<char>, i: int) -> int
    decreases s.len() - i,
{
    if 0 <= i < s.len() && spec_is_digit(s[i]) {
        1 + spec_digit_run(s, i + 1)
    } else {
        0
    }
}

/// A `(NN%)` group sits at position `i`.
pub open spec fn spec_pct_at(s: Seq<char>, i: int) -> bool {
    let d = spec_digit_run(s, i + 1);
    0 <= i < s.len() && s[i] == '(' && d > 0 && i + d + 2 < s.len() && s[i + d + 1] == '%' && s[i
        + d + 2] == ')'
}

/// The digits of the `(NN%)` group at position `i`.
pub open spec fn spec_pct_digits(s: Seq<char>, i: int) -> Seq<char> {
    s.subrange(i + 1, i + 1 + spec_digit_run(s, i + 1))
}

/// First position holding a `(NN%)` group, from `i` on; the length
/// when there is none.
pub open spec fn spec_first_pct_from(s: Seq<char>, i: int) -> int
    decreases s.len() - i,
    when 0 <= i <= s.len()
{
    if i >= s.len() {
        i
    } else if spec_pct_at(s, i) {
        i
    } else {
        spec_first_pct_from(s, i + 1)
    }
}

/// The percentage the status text shows: the digits of its first
/// `(NN%)` group, when it has one whose value fits in a `u64`.
pub open spec fn spec_percent(text: Seq<char>) -> Option<u64> {
    let i = spec_first_pct_from(text, 0);
    if i < text.len() && dec_value(spec_pct_digits(text, i)) <= u64::MAX {
        Some(dec_value(spec_pct_digits(text, i)) as u64)
    } else {
        None
    }
}

/// The marker that precedes a result code in the class attribute.
pub open spec fn result_marker() -> Seq<char> {
    seq![' ', 'r', 'e', 's', 'u', 'l', 't', '-']
}

/// A result code sits at position `i` of the class attribute: the
/// marker followed by at least one lowercase letter.
pub open spec fn spec_result_at(class: Seq<char>, i: int) -> bool {
    crate::strutil::contains_at(class, result_marker(), i) && i + 8 < class.len() && is_lower_c(
        class[i + 8],
    )
}

/// First position of a result code, from `i` on; the length when
/// there is none.
pub open spec fn spec_first_result_from(class: Seq<char>, i: int) -> int
    decreases class.len() - i,
    when 0 <= i <= class.len()
{
    if i >= class.len() {
        i
    } else if spec_result_at(class, i) {
        i
    } else {
        spec_first_result_from(class, i + 1)
    }
}

/// The result code at position `i`: the maximal lowercase run after
/// ` result-`.
pub open spec fn spec_result_token(class: Seq<char>, i: int) -> Seq<char> {
    class.subrange(i + 8, i + 8 + spec_lower_run(class.skip(i + 8)))
}

/// A lowercase ASCII sequence, uppercased.
pub open spec fn spec_upper(s: Seq<char>) -> Seq<char> {
    s.map_values(|c: char| ((c as u32) - 32) as char)
}

/// The outcome a (lowercase) result code denotes.
pub open spec fn spec_outcome_of(tok: Seq<char>) -> SubmitOutcome {
    if tok == "ac"@ {
        SubmitOutcome::Accepted
    } else if tok == "pac"@ {
        SubmitOutcome::PartiallyAccepted
    } else {
        SubmitOutcome::Rejected
    }
}

/// What a status report classifies to, stated against the pieces
/// above.
pub open spec fn spec_classify_ok(text: Seq<char>, class: Seq<char>, r: SubmitStatus) -> bool {
    if spec_is_continue(text, class) {
        r matches SubmitStatus::InProgress { percent } && percent == spec_percent(text)
    } else {
        let i = spec_first_result_from(class, 0);
        if i < class.len() {
            r matches SubmitStatus::Finished { result, outcome } && result@ == spec_upper(
                spec_result_token(class, i),
            ) && outcome == spec_outcome_of(spec_result_token(class, i))
        } else {
            r is FinishedUnknown
        }
    }
}

proof fn lemma_digit_run_agrees(s: Seq<char>, i: int, j: int)
    requires
        0 <= i <= j <= s.len(),
        forall|m: int| i <= m < j ==> spec_is_digit(#[trigger] s[m]),
        j < s.len() ==> !spec_is_digit(s[j]),
    ensures
        spec_digit_run(s, i) == j - i,
    decreases j - i,
{
    if i < j {
        lemma_digit_run_agrees(s, i + 1, j);
    }
}

proof fn lemma_first_pct_step(s: Seq<char>, i: int)
    requires
        0 <= i < s.len(),
        !spec_pct_at(s, i),
    ensures
        spec_first_pct_from(s, i) == spec_first_pct_from(s, i + 1),
{
}

proof fn lemma_first_result_step(class: Seq<char>, i: int)
    requires
        0 <= i < class.len(),
        !spec_result_at(class, i),
    ensures
        spec_first_result_from(class, i) == spec_first_result_from(class, i + 1),
{
}

/// Whether a `(NN%)` group sits at `i`, and if so where its digits
/// end.
#[verifier::loop_isolation(false)]
fn pct_at(v: &Vec<char>, i: usize) -> (r: Option<usize>)
    requires
        i < v@.len(),
    ensures
        match r {
            Some(j) => spec_pct_at(v@, i as int) && i + 1 + spec_digit_run(v@, i as int + 1)
                == j && i < j <= v@.len(),
            None => !spec_pct_at(v@, i as int),
        },
{
    let n = v.len();
    if v[i] != '(' {
        return None;
    }
    let mut j = i + 1;
    while j < v.len() && is_digit(v[j])
        invariant
            i + 1 <= j <= v@.len(),
            forall|m: int| i + 1 <= m < j ==> spec_is_digit(#[trigger] v@[m]),
        decreases v@.len() - j,
    {
        j = j + 1;
    }
    proof {
        lemma_digit_run_agrees(v@, i as int + 1, j as int);
    }
    if j == i + 1 {
        return None;
    }
    if j < n - 1 && v[j] == '%' && v[j + 1] == ')' {
        Some(j)
    } else {
        None
    }
}

/// The percentage shown by the status text, if any.
#[verifier::loop_isolation(false)]
pub fn percent_of(text: &str) -> (r: Option<u64>)
    ensures
        r == spec_percent(text@),
{
    let v = str_to_chars(text);
    let mut i: usize = 0;
    while i < v.len()
        invariant
            0 <= i <= v@.len(),
            spec_first_pct_from(v@, 0) == spec_first_pct_from(v@, i as int),
        decreases v@.len() - i,
    {
        match pct_at(&v, i) {
            Some(j) => {
                let mut digits: Vec<char> = Vec::new();
                let mut m = i + 1;
                while m < j
                    invariant
                        i + 1 <= m <= j <= v@.len(),
                        digits@ == v@.subrange(i as int + 1, m as int),
                    decreases j - m,
                {
                    digits.push(v[m]);
                    m = m + 1;
                    proof {
                        assert(digits@ =~= v@.subrange(i as int + 1, m as int));
                    }
                }
                proof {
                    assert(digits@ =~= spec_pct_digits(v@, i as int));
                }
                proof {
                    assert(spec_pct_digits(v@, i as int).len() > 0);
                    assert forall|m2: int|
                        0 <= m2 < spec_pct_digits(v@, i as int).len() implies spec_is_digit(
                        #[trigger] spec_pct_digits(v@, i as int)[m2],
                    ) by {
                        assert(spec_pct_digits(v@, i as int)[m2] == v@[i + 1 + m2]);
                        assert(spec_digit_run(v@, i as int + 1) > m2);
                        lemma_digit_run_digits(v@, i as int + 1, m2);
                    }
                }
                match crate::strutil::parse_decimal_u64(&digits) {
                    Some(n) => {
                        return Some(n);
                    },
                    None => {
                        proof {
                            assert(dec_value(spec_pct_digits(v@, i as int)) > u64::MAX);
                        }
                        return None;
                    },
                }
            },
            None => {
                proof {
                    lemma_first_pct_step(v@, i as int);
                }
                i = i + 1;
            },
        }
    }
    None
}

proof fn lemma_digit_run_digits(s: Seq<char>, i: int, m: int)
    requires
        0 <= i,
        0 <= m < spec_digit_run(s, i),
    ensures
        i + m < s.len() && spec_is_digit(s[i + m]),
    decreases m,
{
    if m > 0 {
        lemma_digit_run_digits(s, i + 1, m - 1);
    }
}

/// Whether a result code sits at `i` of the class attribute.
#[verifier::loop_isolation(false)]
fn result_at(v: &Vec<char>, i: usize) -> (r: bool)
    requires
        i < v@.len(),
    ensures
        r == spec_result_at(v@, i as int),
{
    if v.len() - i <= 8 {
        proof {
            if spec_result_at(v@, i as int) {
                assert(false);
            }
        }
        return false;
    }
    let matched = v[i] == ' ' && v[i + 1] == 'r' && v[i + 2] == 'e' && v[i + 3] == 's' && v[i + 4]
        == 'u' && v[i + 5] == 'l' && v[i + 6] == 't' && v[i + 7] == '-';
    proof {
        if matched {
            assert(v@.subrange(i as int, i as int + 8) =~= result_marker());
        } else if crate::strutil::contains_at(v@, result_marker(), i as int) {
            assert(forall|j: int|
                0 <= j < 8 ==> #[trigger] v@.subrange(i as int, i as int + 8)[j] == v@[i + j]);
            assert(false);
        }
    }
    if !matched {
        return false;
    }
    crate::tokenize::is_lower_char(v[i + 8])
}

/// The uppercased result code at `i` (which must hold one).
#[verifier::loop_isolation(false)]
fn result_token_upper(v: &Vec<char>, i: usize) -> (r: String)
    requires
        spec_result_at(v@, i as int),
    ensures
        r@ == spec_upper(spec_result_token(v@, i as int)),
{
    let n = v.len();
    let start = i + 8;
    let mut j = start;
    while j < v.len() && crate::tokenize::is_lower_char(v[j])
        invariant
            start <= j <= v@.len(),
            spec_lower_run(v@.skip(start as int)) == (j - start) + spec_lower_run(
                v@.skip(j as int),
            ),
        decreases v@.len() - j,
    {
        proof {
            assert(v@.skip(j as int)[0] == v@[j as int]);
            assert(v@.skip(j as int).skip(1) =~= v@.skip(j as int + 1));
        }
        j = j + 1;
    }
    proof {
        if j < v@.len() {
            assert(v@.skip(j as int)[0] == v@[j as int]);
        }
        crate::tokenize::lemma_lower_run_bounds(v@.skip(start as int));
    }
    let ghost tok = spec_result_token(v@, i as int);
    let mut out = String::new();
    let mut m = start;
    while m < j
        invariant
            start <= m <= j <= v@.len(),
            tok == spec_result_token(v@, i as int),
            j - start == spec_lower_run(v@.skip(start as int)),
            tok.len() == j - start,
            forall|x: int| 0 <= x < tok.len() ==> tok[x] == v@[start + x],
            out@ == spec_upper(tok).take(m - start),
        decreases j - m,
    {
        let c = v[m];
        proof {
            assert(tok[m - start] == v@[m as int]);
            assert(spec_upper(tok)[m - start] == ((v@[m as int] as u32) - 32) as char);
            lemma_lower_in_run(v@, start as int, m - start);
        }
        let u = c as u32;
        proof {
            assert(97 <= u && u <= 122);
        }
        let upper_c = ((u - 32) as u8) as char;
        proof {
            assert(upper_c as u32 == (c as u32) - 32);
            assert(upper_c == ((c as u32) - 32) as char);
        }
        push_char(&mut out, upper_c);
        m = m + 1;
        proof {
            assert(out@ =~= spec_upper(tok).take(m - start));
        }
    }
    proof {
        assert(spec_upper(tok).take(m - start) =~= spec_upper(tok));
    }
    out
}

proof fn lemma_lower_in_run(s: Seq<char>, start: int, x: int)
    requires
        0 <= start,
        0 <= x < spec_lower_run(s.skip(start)),
        start <= s.len(),
    ensures
        start + x < s.len() && is_lower_c(s[start + x]),
    decreases x,
{
    let rem = s.skip(start);
    crate::tokenize::lemma_lower_run_bounds(rem);
    if x == 0 {
        assert(rem[0] == s[start]);
    } else {
        assert(rem.skip(1) =~= s.skip(start + 1));
        lemma_lower_in_run(s, start + 1, x - 1);
    }
}

/// Classifies one submission status report.
#[verifier::loop_isolation(false)]
pub fn classify_status(status_text: &str, status_class: &str) -> (r: SubmitStatus)
    ensures
        spec_classify_ok(status_text@, status_class@, r),
{
    let cont = str_contains(status_class, "result-wait") || str_contains(
        status_class,
        "result-rejudge-wait",
    ) || str_contains(status_class, "result-no-judge") || str_contains(
        status_class,
        "result-compile",
    ) || str_contains(status_class, "result-judging") || str_contains(
        status_text,
        "\u{cc44}\u{c810}",
    ) || str_contains(status_text, "\u{c911}") || str_contains(status_text, "Pending")
        || str_contains(status_text, "Judg");
    if cont {
        let percent = percent_of(status_text);
        return SubmitStatus::InProgress { percent };
    }
    let v = str_to_chars(status_class);
    let mut i: usize = 0;
    while i < v.len()
        invariant
            0 <= i <= v@.len(),
            spec_first_result_from(v@, 0) == spec_first_result_from(v@, i as int),
        decreases v@.len() - i,
    {
        if result_at(&v, i) {
            let result = result_token_upper(&v, i);
            let ghost tok = spec_result_token(v@, i as int);
            // Decide the outcome from the code.
            let is_ac = result.as_str().unicode_len() == 2 && result.as_str().get_char(0) == 'A'
                && result.as_str().get_char(1) == 'C';
            let is_pac = result.as_str().unicode_len() == 3 && result.as_str().get_char(0) == 'P'
                && result.as_str().get_char(1) == 'A' && result.as_str().get_char(2) == 'C';
            proof {
                crate::tokenize::lemma_lower_run_bounds(v@.skip(i as int + 8));
                assert forall|x: int| 0 <= x < tok.len() implies is_lower_c(#[trigger] tok[x]) by {
                    lemma_lower_in_run(v@, i as int + 8, x);
                    assert(tok[x] == v@[i + 8 + x]);
                }
                lemma_upper_code(tok);
                if is_ac {
                    assert(result@ =~= seq!['A', 'C']);
                    assert(tok =~= "ac"@);
                }
                if is_pac {
                    assert(result@ =~= seq!['P', 'A', 'C']);
                    assert(tok =~= "pac"@);
                }
                if tok =~= "ac"@ {
                    assert(spec_upper(tok) =~= seq!['A', 'C']);
                    assert(result@.len() == 2 && result@[0] == 'A' && result@[1] == 'C');
                }
                if tok =~= "pac"@ {
                    assert(spec_upper(tok) =~= seq!['P', 'A', 'C']);
                    assert(result@.len() == 3 && result@[0] == 'P' && result@[1] == 'A'
                        && result@[2] == 'C');
                }
            }
            let outcome = if is_ac {
                SubmitOutcome::Accepted
            } else if is_pac {
                SubmitOutcome::PartiallyAccepted
            } else {
                SubmitOutcome::Rejected
            };
            return SubmitStatus::Finished { result, outcome };
        }
        proof {
            lemma_first_result_step(v@, i as int);
        }
        i = i + 1;
    }
    SubmitStatus::FinishedUnknown
}

proof fn lemma_upper_char(c: char)
    requires
        is_lower_c(c),
    ensures
        (((c as u32) - 32) as char) as u32 == (c as u32) - 32,
        (((c as u32) - 32) as char == 'A') <==> (c == 'a'),
        (((c as u32) - 32) as char == 'C') <==> (c == 'c'),
        (((c as u32) - 32) as char == 'P') <==> (c == 'p'),
{
    let u = (c as u32) - 32;
    assert(65 <= u <= 90);
    assert((u as char) as u32 == u);
}

proof fn lemma_upper_code(tok: Seq<char>)
    requires
        forall|x: int| 0 <= x < tok.len() ==> is_lower_c(#[trigger] tok[x]),
    ensures
        (spec_upper(tok) =~= seq!['A', 'C']) <==> (tok =~= "ac"@),
        (spec_upper(tok) =~= seq!['P', 'A', 'C']) <==> (tok =~= "pac"@),
{
    reveal_strlit("ac");
    reveal_strlit("pac");
    assert(spec_upper(tok).len() == tok.len());
    if tok.len() == 2 {
        assert(spec_upper(tok)[0] == ((tok[0] as u32) - 32) as char);
        assert(spec_upper(tok)[1] == ((tok[1] as u32) - 32) as char);
        lemma_upper_char(tok[0]);
        lemma_upper_char(tok[1]);
    }
    if tok.len() == 3 {
        assert(spec_upper(tok)[0] == ((tok[0] as u32) - 32) as char);
        assert(spec_upper(tok)[1] == ((tok[1] as u32) - 32) as char);
        assert(spec_upper(tok)[2] == ((tok[2] as u32) - 32) as char);
        lemma_upper_char(tok[0]);
        lemma_upper_char(tok[1]);
        lemma_upper_char(tok[2]);
    }
}

/// The code shown for a terminal result: a runtime error is shortened.
pub fn result_display(result: &str) -> (r: String)
    ensures
        r@ == if result@ == "RTE"@ {
            "RE"@
        } else {
            result@
        },
{
    let is_rte = result.unicode_len() == 3 && result.get_char(0) == 'R' && result.get_char(1)
        == 'T' && result.get_char(2) == 'E';
    proof {
        reveal_strlit("RTE");
        reveal_strlit("RE");
        if is_rte {
            assert(result@ =~= "RTE"@);
        } else {
            if result@ == "RTE"@ {
                assert(result@[0] == 'R' && result@[1] == 'T' && result@[2] == 'E');
            }
        }
    }
    if is_rte {
        String::from_str("RE")
    } else {
        result.to_owned()
    }
}

} // verus!
