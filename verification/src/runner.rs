//! Judging a timed execution's result: output normalization (trailing
//! whitespace per line and trailing blank lines are ignored), the
//! verdict for one sample case, and the fail-fast rule that stops a
//! test suite at its first non-passing case.

use vstd::prelude::*;
use crate::strutil::{push_char, str_eq, str_to_chars};

verus! {

/// Captured result of one finished (non-timed-out) process run; the
/// duration is wall-clock milliseconds.
#[derive(Debug)]
pub struct Output {
    pub stdout: String,
    pub stderr: String,
    pub success: bool,
    pub duration_ms: u64,
}

/// The whitespace ignored by normalization (the ASCII kind).
pub open spec fn is_ws(c: char) -> bool {
    c == ' ' || c == '\t' || c == '\r' || c == '\n' || c == '\u{b}' || c == '\u{c}'
}

/// The sequence with trailing whitespace dropped.
pub open spec fn spec_trim_end_ws(s: Seq<char>) -> Seq<char>
    decreases s.len(),
{
    if s.len() > 0 && is_ws(s.last()) {
        spec_trim_end_ws(s.drop_last())
    } else {
        s
    }
}

/// Index of the first newline, or the length when there is none.
pub open spec fn spec_find_nl(s: Seq<char>) -> int
    decreases s.len(),
{
    if s.len() == 0 {
        0
    } else if s[0] == '\n' {
        0
    } else {
        1 + spec_find_nl(s.skip(1))
    }
}

/// Each line trimmed of trailing whitespace, ended with one newline.
pub open spec fn norm_lines(s: Seq<char>) -> Seq<char>
    decreases s.len(),
    via norm_lines_dec
{
    if s.len() == 0 {
        Seq::empty()
    } else {
        let k = spec_find_nl(s);
        if k == s.len() {
            spec_trim_end_ws(s) + seq!['\n']
        } else {
            spec_trim_end_ws(s.take(k)) + seq!['\n'] + norm_lines(s.skip(k + 1))
        }
    }
}

#[via_fn]
proof fn norm_lines_dec(s: Seq<char>) {
    if s.len() > 0 {
        lemma_find_nl_bounds(s);
    }
}

/// Normal form of an output text: trailing whitespace (and so
/// trailing blank lines) dropped at the end, every line trimmed of
/// trailing whitespace and ended with one newline.
pub open spec fn spec_normalize(s: Seq<char>) -> Seq<char> {
    norm_lines(spec_trim_end_ws(s))
}

/// Whitespace test on a character.
fn is_ws_char(c: char) -> (r: bool)
    ensures
        r == is_ws(c),
{
    c == ' ' || c == '\t' || c == '\r' || c == '\n' || c == '\u{b}' || c == '\u{c}'
}

proof fn lemma_find_nl_bounds(s: Seq<char>)
    ensures
        0 <= spec_find_nl(s) <= s.len(),
        spec_find_nl(s) < s.len() ==> s[spec_find_nl(s)] == '\n',
        forall|j: int| 0 <= j < spec_find_nl(s) ==> s[j] != '\n',
    decreases s.len(),
{
    if s.len() > 0 && s[0] != '\n' {
        lemma_find_nl_bounds(s.skip(1));
        assert(forall|j: int| 1 <= j < spec_find_nl(s) ==> s[j] == s.skip(1)[j - 1]);
    }
}

proof fn lemma_find_nl_agrees(s: Seq<char>, k: int)
    requires
        0 <= k <= s.len(),
        forall|j: int| 0 <= j < k ==> s[j] != '\n',
        k < s.len() ==> s[k] == '\n',
    ensures
        spec_find_nl(s) == k,
    decreases s.len(),
{
    if s.len() > 0 {
        if k == 0 {
        } else {
            lemma_find_nl_agrees(s.skip(1), k - 1);
        }
    }
}

proof fn lemma_trim_end_agrees(s: Seq<char>, e: int)
    requires
        0 <= e <= s.len(),
        forall|j: int| e <= j < s.len() ==> is_ws(#[trigger] s[j]),
        e > 0 ==> !is_ws(s[e - 1]),
    ensures
        spec_trim_end_ws(s) == s.take(e),
    decreases s.len(),
{
    if s.len() == e {
        assert(s.take(e) =~= s);
    } else {
        assert(is_ws(s.last()));
        lemma_trim_end_agrees(s.drop_last(), e);
        assert(s.drop_last().take(e) =~= s.take(e));
    }
}

/// Puts a text into its normal form.
#[verifier::loop_isolation(false)]
pub fn normalize(s: &str) -> (r: String)
    ensures
        r@ == spec_normalize(s@),
{
    let v = str_to_chars(s);
    // Trailing whitespace of the whole text.
    let mut e = v.len();
    while e > 0 && is_ws_char(v[e - 1])
        invariant
            e <= v@.len(),
            forall|j: int| e <= j < v@.len() ==> is_ws(#[trigger] v@[j]),
        decreases e,
    {
        e = e - 1;
    }
    proof {
        lemma_trim_end_agrees(v@, e as int);
    }
    let ghost t = spec_trim_end_ws(s@);
    proof {
        assert(t =~= v@.take(e as int));
    }
    let mut out = String::new();
    let mut i: usize = 0;
    proof {
        assert(t.skip(0) =~= t);
        assert(Seq::<char>::empty() + norm_lines(t) =~= norm_lines(t));
    }
    while i < e
        invariant
            i <= e,
            norm_lines(t) == out@ + norm_lines(t.skip(i as int)),
        decreases e - i,
    {
        let ghost srem = t.skip(i as int);
        let ghost old_out = out@;
        // Find the end of the line.
        let mut k = i;
        while k < e && v[k] != '\n'
            invariant
                i <= k <= e,
                forall|j: int| i <= j < k ==> v@[j] != '\n',
            decreases e - k,
        {
            k = k + 1;
        }
        proof {
            assert forall|j: int| 0 <= j < k - i implies srem[j] != '\n' by {
                assert(srem[j] == v@[i + j]);
            }
            if k < e {
                assert(srem[k - i] == v@[k as int]);
            }
            lemma_find_nl_agrees(srem, k - i);
        }
        // Trim the line's trailing whitespace.
        let mut le = k;
        while le > i && is_ws_char(v[le - 1])
            invariant
                i <= le <= k,
                forall|j: int| le <= j < k ==> is_ws(#[trigger] v@[j]),
            decreases le,
        {
            le = le - 1;
        }
        let ghost line = srem.take(k - i);
        proof {
            assert forall|j: int| le - i <= j < line.len() implies is_ws(#[trigger] line[j]) by {
                assert(line[j] == v@[i + j]);
            }
            if le > i {
                assert(line[le - i - 1] == v@[le - 1]);
            }
            lemma_trim_end_agrees(line, le - i);
            assert(spec_trim_end_ws(line) =~= v@.subrange(i as int, le as int));
        }
        // Emit the trimmed line and one newline.
        let mut m = i;
        while m < le
            invariant
                i <= m <= le,
                out@ == old_out + v@.subrange(i as int, m as int),
            decreases le - m,
        {
            push_char(&mut out, v[m]);
            m = m + 1;
            proof {
                assert(out@ =~= old_out + v@.subrange(i as int, m as int));
            }
        }
        push_char(&mut out, '\n');
        proof {
            assert(out@ =~= old_out + (v@.subrange(i as int, le as int) + seq!['\n']));
        }
        if k < e {
            proof {
                assert(srem.skip(k - i + 1) =~= t.skip(k as int + 1));
                assert(srem.take(k - i) == line);
            }
            i = k + 1;
        } else {
            proof {
                assert(spec_find_nl(srem) == srem.len());
                assert(srem.take(k - i) =~= srem);
                assert(spec_trim_end_ws(srem) == spec_trim_end_ws(line));
                assert(t.skip(e as int) =~= Seq::<char>::empty());
            }
            i = e;
        }
        proof {
            assert(norm_lines(t) =~= out@ + norm_lines(t.skip(i as int)));
        }
    }
    proof {
        assert(t.skip(i as int) =~= Seq::<char>::empty());
        assert(out@ + Seq::<char>::empty() =~= out@);
    }
    out
}

/// Whether two texts are equal after normalization.
pub fn normalized_eq(a: &str, b: &str) -> (r: bool)
    ensures
        r == (spec_normalize(a@) == spec_normalize(b@)),
{
    let na = normalize(a);
    let nb = normalize(b);
    str_eq(na.as_str(), nb.as_str())
}

/// The verdict for one sample case.  All carried texts are in normal
/// form.
#[derive(Debug)]
pub enum CaseVerdict {
    /// The run hit the deadline and was killed: time limit exceeded.
    TimedOut,
    /// The run finished with a failure status: runtime error.
    RuntimeError { stdout: String, stderr: String, duration_ms: u64 },
    /// Diff-based comparison was on and the output matched.
    Accepted { duration_ms: u64 },
    /// Diff-based comparison was off; the run finished cleanly and
    /// its output is shown instead of compared.
    OutputShown { stdin: String, stdout: String, stderr: String, duration_ms: u64 },
    /// Diff-based comparison was on and the output did not match.
    WrongAnswer { expected: String, stdout: String, stderr: String, duration_ms: u64 },
}

impl CaseVerdict {
    /// Whether the remaining cases still run: only a passing case
    /// (accepted, or merely shown when diff is off) continues the
    /// suite; a timeout, runtime error or wrong answer stops it.
    pub fn continues(&self) -> (r: bool)
        ensures
            r == (*self is Accepted || *self is OutputShown),
    {
        match self {
            CaseVerdict::Accepted { .. } => true,
            CaseVerdict::OutputShown { .. } => true,
            _ => false,
        }
    }
}

/// Judges one sample case from the run's outcome (`None` is a
/// timeout): a failure status is a runtime error whatever the output;
/// with diff on, the output must match the expected text after
/// normalization; with diff off the output is only reported.
pub fn judge_case(stdin: &str, expected: &str, outcome: Option<Output>, diff: bool) -> (r:
    CaseVerdict)
    ensures
        match outcome {
            None => r is TimedOut,
            Some(o) => if !o.success {
                r matches CaseVerdict::RuntimeError { stdout, stderr, duration_ms } && stdout@
                    == spec_normalize(o.stdout@) && stderr@ == spec_normalize(o.stderr@)
                    && duration_ms == o.duration_ms
            } else if diff && spec_normalize(o.stdout@) == spec_normalize(expected@) {
                r matches CaseVerdict::Accepted { duration_ms } && duration_ms == o.duration_ms
            } else if !diff {
                r matches CaseVerdict::OutputShown { stdin: si, stdout, stderr, duration_ms }
                    && si@ == spec_normalize(stdin@) && stdout@ == spec_normalize(o.stdout@)
                    && stderr@ == spec_normalize(o.stderr@) && duration_ms == o.duration_ms
            } else {
                r matches CaseVerdict::WrongAnswer { expected: ex, stdout, stderr, duration_ms }
                    && ex@ == spec_normalize(expected@) && stdout@ == spec_normalize(o.stdout@)
                    && stderr@ == spec_normalize(o.stderr@) && duration_ms == o.duration_ms
            },
        },
{
    match outcome {
        None => CaseVerdict::TimedOut,
        Some(o) => {
            let stdout_n = normalize(o.stdout.as_str());
            let stderr_n = normalize(o.stderr.as_str());
            if !o.success {
                CaseVerdict::RuntimeError {
                    stdout: stdout_n,
                    stderr: stderr_n,
                    duration_ms: o.duration_ms,
                }
            } else if diff && normalized_eq(o.stdout.as_str(), expected) {
                CaseVerdict::Accepted { duration_ms: o.duration_ms }
            } else if !diff {
                CaseVerdict::OutputShown {
                    stdin: normalize(stdin),
                    stdout: stdout_n,
                    stderr: stderr_n,
                    duration_ms: o.duration_ms,
                }
            } else {
                CaseVerdict::WrongAnswer {
                    expected: normalize(expected),
                    stdout: stdout_n,
                    stderr: stderr_n,
                    duration_ms: o.duration_ms,
                }
            }
        },
    }
}

} // verus!
