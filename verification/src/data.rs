//! Problem-side data model: problem identifiers, the classification
//! flags a judge page can carry, sample cases, problems, credentials
//! and presets.

use vstd::prelude::*;
use vstd::string::StringExecFns;
use crate::strutil::{all_digits, dec_value, parse_decimal, seq_contains, str_to_chars};

verus! {

/// Error for a string that does not denote a problem identifier or a
/// known problem label; carries the offending input.
#[derive(Debug)]
pub struct ParseError {
    pub input: String,
}

impl View for ParseError {
    type V = Seq<char>;

    open spec fn view(&self) -> Seq<char> {
        self.input@
    }
}

/// A judge problem identifier: a bare problem code (digits only), or
/// a contest round and problem number joined by one `/`.
#[derive(Clone, Debug)]
pub enum ProblemId {
    Problem(String),
    ContestProblem(String),
}

/// The character is a decimal digit or `/`.
pub open spec fn digit_or_slash(c: char) -> bool {
    crate::strutil::spec_is_digit(c) || c == '/'
}

/// Number of `/` characters in the sequence.
pub open spec fn slash_count(s: Seq<char>) -> int
    decreases s.len(),
{
    if s.len() == 0 {
        0
    } else {
        slash_count(s.drop_last()) + if s.last() == '/' {
            1int
        } else {
            0int
        }
    }
}

/// A string denotes a problem identifier when it holds only digits
/// and slashes, with at most one slash.
pub open spec fn spec_id_ok(s: Seq<char>) -> bool {
    (forall|i: int| 0 <= i < s.len() ==> digit_or_slash(#[trigger] s[i])) && slash_count(s) <= 1
}

impl ProblemId {
    /// The identifier as typed: digits, with the contest form holding
    /// one inner slash.
    pub open spec fn code_spec(&self) -> Seq<char> {
        match self {
            ProblemId::Problem(s) => s@,
            ProblemId::ContestProblem(s) => s@,
        }
    }

    /// Validity: only digits and slashes, and the slash count agrees
    /// with the variant.
    pub open spec fn wf(&self) -> bool {
        &&& forall|i: int|
            0 <= i < self.code_spec().len() ==> digit_or_slash(#[trigger] self.code_spec()[i])
        &&& slash_count(self.code_spec()) == if self is ContestProblem {
            1int
        } else {
            0int
        }
    }

    /// The identifier string itself.
    pub fn code(&self) -> (r: &String)
        ensures
            r@ == self.code_spec(),
    {
        match self {
            ProblemId::Problem(s) => s,
            ProblemId::ContestProblem(s) => s,
        }
    }

    /// Structural equality of identifiers.
    pub fn same(&self, other: &ProblemId) -> (r: bool)
        ensures
            r == (self.code_spec() == other.code_spec() && (self is ContestProblem
                <==> other is ContestProblem)),
    {
        match (self, other) {
            (ProblemId::Problem(a), ProblemId::Problem(b)) => crate::strutil::str_eq(
                a.as_str(),
                b.as_str(),
            ),
            (ProblemId::ContestProblem(a), ProblemId::ContestProblem(b)) => crate::strutil::str_eq(
                a.as_str(),
                b.as_str(),
            ),
            _ => false,
        }
    }

    /// Parses an identifier string: digits and at most one slash;
    /// no slash gives `Problem`, one gives `ContestProblem`, anything
    /// else is rejected.
    pub fn parse(s: &str) -> (r: Result<ProblemId, ParseError>)
        ensures
            r is Ok <==> spec_id_ok(s@),
            r matches Ok(id) ==> id.wf() && id.code_spec() == s@ && (id is ContestProblem <==>
                slash_count(s@) == 1),
            r matches Err(e) ==> e@ == s@,
    {
        let v = str_to_chars(s);
        let mut slashes: usize = 0;
        let mut i: usize = 0;
        while i < v.len()
            invariant
                i <= v@.len(),
                v@ == s@,
                slashes == slash_count(v@.subrange(0, i as int)),
                slashes <= i,
                forall|j: int| 0 <= j < i ==> digit_or_slash(#[trigger] v@[j]),
            decreases v@.len() - i,
        {
            let c = v[i];
            let ghost pre = v@.subrange(0, i as int);
            let ghost cur = v@.subrange(0, i as int + 1);
            proof {
                assert(cur.drop_last() =~= pre);
                assert(cur.last() == v@[i as int]);
            }
            if c == '/' {
                slashes = slashes + 1;
            } else if !crate::strutil::is_digit(c) {
                proof {
                    assert(!digit_or_slash(v@[i as int]));
                }
                return Err(ParseError { input: s.to_owned() });
            }
            i = i + 1;
        }
        proof {
            assert(v@.subrange(0, v@.len() as int) =~= v@);
        }
        if slashes == 0 {
            Ok(ProblemId::Problem(s.to_owned()))
        } else if slashes == 1 {
            Ok(ProblemId::ContestProblem(s.to_owned()))
        } else {
            Err(ParseError { input: s.to_owned() })
        }
    }

    /// Address of the problem page for this identifier.
    pub open spec fn problem_url_spec(&self) -> Seq<char> {
        if self is ContestProblem {
            "https://www.acmicpc.net/contest/problem/"@ + self.code_spec()
        } else {
            "https://www.acmicpc.net/problem/"@ + self.code_spec()
        }
    }

    /// Address of the submit page for this identifier.
    pub open spec fn submit_url_spec(&self) -> Seq<char> {
        if self is ContestProblem {
            "https://www.acmicpc.net/contest/submit/"@ + self.code_spec()
        } else {
            "https://www.acmicpc.net/submit/"@ + self.code_spec()
        }
    }

    /// The problem page for this identifier.
    pub fn problem_url(&self) -> (r: String)
        ensures
            r@ == self.problem_url_spec(),
    {
        match self {
            ProblemId::Problem(id) => {
                let mut r = String::from_str("https://www.acmicpc.net/problem/");
                r.append(id.as_str());
                r
            },
            ProblemId::ContestProblem(id) => {
                let mut r = String::from_str("https://www.acmicpc.net/contest/problem/");
                r.append(id.as_str());
                r
            },
        }
    }

    /// The submit page for this identifier.
    pub fn submit_url(&self) -> (r: String)
        ensures
            r@ == self.submit_url_spec(),
    {
        match self {
            ProblemId::Problem(id) => {
                let mut r = String::from_str("https://www.acmicpc.net/submit/");
                r.append(id.as_str());
                r
            },
            ProblemId::ContestProblem(id) => {
                let mut r = String::from_str("https://www.acmicpc.net/contest/submit/");
                r.append(id.as_str());
                r
            },
        }
    }
}

/// Well-formed identifiers with the same code are the same variant:
/// the slash count of the code decides it.
pub proof fn lemma_same_code_same_variant(a: ProblemId, b: ProblemId)
    requires
        a.wf(),
        b.wf(),
        a.code_spec() == b.code_spec(),
    ensures
        a is ContestProblem <==> b is ContestProblem,
{
}

/// One sample case: input text and the expected output text.
#[derive(Clone, Debug)]
pub struct ExampleIO {
    pub input: String,
    pub output: String,
}

/// Login cookie pair for the judge.
#[derive(Clone, Debug)]
pub struct Credentials {
    pub bojautologin: String,
    pub onlinejudge: String,
}

/// Classification flags found on a judge problem page; some of them
/// restrict which local actions make sense.
#[derive(Clone, Copy, Debug, PartialEq, Eq, Structural)]
pub enum ProblemKind {
    SpecialJudge,
    Subtask,
    PartialScore,
    FunctionImpl,
    Interactive,
    TwoSteps,
    FullGrade,
    Unofficial,
    Preparing,
    LanguageRestrict,
    ClassImpl,
    Feedback,
    TimeAccum,
    RandomKiller,
    SubmitLimit(usize),
}

/// Index of the last space in the sequence, or `-1` when there is
/// none.
pub open spec fn spec_rfind_space(s: Seq<char>) -> int
    decreases s.len(),
{
    if s.len() == 0 {
        -1
    } else if s.last() == ' ' {
        s.len() - 1
    } else {
        spec_rfind_space(s.drop_last())
    }
}

/// The part of the sequence after its last space (the whole sequence
/// when it has no space).
pub open spec fn spec_last_token(s: Seq<char>) -> Seq<char> {
    s.skip(spec_rfind_space(s) + 1)
}

/// The token denotes a submit-limit count: an optional `+`, then at
/// least one digit, and a value that fits in `usize`.
pub open spec fn spec_count_ok(w: Seq<char>) -> bool {
    let d = if w.len() > 0 && w[0] == '+' {
        w.skip(1)
    } else {
        w
    };
    d.len() > 0 && all_digits(d) && dec_value(d) <= usize::MAX
}

/// The count a submit-limit token denotes.
pub open spec fn spec_count_val(w: Seq<char>) -> int {
    if w.len() > 0 && w[0] == '+' {
        dec_value(w.skip(1))
    } else {
        dec_value(w)
    }
}

/// The label flag a page marker denotes: the first label class (in a
/// fixed probe order) contained in the marker's class attribute; for
/// a submit-limit marker the count is read from the last
/// space-separated word of the marker's text.
pub open spec fn spec_kind_of_class(class: Seq<char>, text: Seq<char>) -> Result<
    ProblemKind,
    Seq<char>,
> {
    if seq_contains(class, "problem-label-spj"@) {
        Ok(ProblemKind::SpecialJudge)
    } else if seq_contains(class, "problem-label-subtask"@) {
        Ok(ProblemKind::Subtask)
    } else if seq_contains(class, "problem-label-partial"@) {
        Ok(ProblemKind::PartialScore)
    } else if seq_contains(class, "problem-label-func"@) {
        Ok(ProblemKind::FunctionImpl)
    } else if seq_contains(class, "problem-label-interactive"@) {
        Ok(ProblemKind::Interactive)
    } else if seq_contains(class, "problem-label-two-steps"@) {
        Ok(ProblemKind::TwoSteps)
    } else if seq_contains(class, "problem-label-full"@) {
        Ok(ProblemKind::FullGrade)
    } else if seq_contains(class, "problem-label-unofficial"@) {
        Ok(ProblemKind::Unofficial)
    } else if seq_contains(class, "problem-label-preparing"@) {
        Ok(ProblemKind::Preparing)
    } else if seq_contains(class, "problem-label-language-restrict"@) {
        Ok(ProblemKind::LanguageRestrict)
    } else if seq_contains(class, "problem-label-class"@) {
        Ok(ProblemKind::ClassImpl)
    } else if seq_contains(class, "problem-label-feedback"@) {
        Ok(ProblemKind::Feedback)
    } else if seq_contains(class, "problem-label-time-acc"@) {
        Ok(ProblemKind::TimeAccum)
    } else if seq_contains(class, "problem-label-random-killer"@) {
        Ok(ProblemKind::RandomKiller)
    } else if seq_contains(class, "problem-label-submit-limit"@) && spec_count_ok(
        spec_last_token(text),
    ) {
        Ok(ProblemKind::SubmitLimit(spec_count_val(spec_last_token(text)) as usize))
    } else {
        Err(class)
    }
}

/// Reason a flag blocks a plain run, if it does.
pub open spec fn spec_no_run(k: ProblemKind) -> Option<Seq<char>> {
    match k {
        ProblemKind::FunctionImpl => Some("function implementation"@),
        ProblemKind::ClassImpl => Some("class implementation"@),
        _ => None,
    }
}

/// Reason a flag blocks testing against samples, if it does.
pub open spec fn spec_no_test(k: ProblemKind) -> Option<Seq<char>> {
    match k {
        ProblemKind::FunctionImpl => Some("function implementation"@),
        ProblemKind::ClassImpl => Some("class implementation"@),
        ProblemKind::Interactive => Some("interactive"@),
        ProblemKind::TwoSteps => Some("two steps"@),
        _ => None,
    }
}

/// Reason a flag blocks diff-based comparison of test output, if it
/// does.
pub open spec fn spec_no_diff(k: ProblemKind) -> Option<Seq<char>> {
    match k {
        ProblemKind::SpecialJudge => Some("special judge"@),
        ProblemKind::PartialScore => Some("partial score"@),
        _ => None,
    }
}

impl ProblemKind {
    /// Reads a page marker: the class attribute decides the flag, and
    /// for a submit-limit marker the count comes from the last word
    /// of its text.
    pub fn from_class_and_text(class: &str, text: &str) -> (r: Result<Self, ParseError>)
        ensures
            match r {
                Ok(k) => spec_kind_of_class(class@, text@) == Ok::<ProblemKind, Seq<char>>(k),
                Err(e) => spec_kind_of_class(class@, text@) == Err::<ProblemKind, Seq<char>>(e@),
            },
    {
        if crate::strutil::str_contains(class, "problem-label-spj") {
            return Ok(ProblemKind::SpecialJudge);
        }
        if crate::strutil::str_contains(class, "problem-label-subtask") {
            return Ok(ProblemKind::Subtask);
        }
        if crate::strutil::str_contains(class, "problem-label-partial") {
            return Ok(ProblemKind::PartialScore);
        }
        if crate::strutil::str_contains(class, "problem-label-func") {
            return Ok(ProblemKind::FunctionImpl);
        }
        if crate::strutil::str_contains(class, "problem-label-interactive") {
            return Ok(ProblemKind::Interactive);
        }
        if crate::strutil::str_contains(class, "problem-label-two-steps") {
            return Ok(ProblemKind::TwoSteps);
        }
        if crate::strutil::str_contains(class, "problem-label-full") {
            return Ok(ProblemKind::FullGrade);
        }
        if crate::strutil::str_contains(class, "problem-label-unofficial") {
            return Ok(ProblemKind::Unofficial);
        }
        if crate::strutil::str_contains(class, "problem-label-preparing") {
            return Ok(ProblemKind::Preparing);
        }
        if crate::strutil::str_contains(class, "problem-label-language-restrict") {
            return Ok(ProblemKind::LanguageRestrict);
        }
        if crate::strutil::str_contains(class, "problem-label-class") {
            return Ok(ProblemKind::ClassImpl);
        }
        if crate::strutil::str_contains(class, "problem-label-feedback") {
            return Ok(ProblemKind::Feedback);
        }
        if crate::strutil::str_contains(class, "problem-label-time-acc") {
            return Ok(ProblemKind::TimeAccum);
        }
        if crate::strutil::str_contains(class, "problem-label-random-killer") {
            return Ok(ProblemKind::RandomKiller);
        }
        if crate::strutil::str_contains(class, "problem-label-submit-limit") {
            let tv = str_to_chars(text);
            let mut cut: usize = 0;
            let mut m: usize = 0;
            while m < tv.len()
                invariant
                    m <= tv@.len(),
                    cut <= m,
                    cut == spec_rfind_space(tv@.subrange(0, m as int)) + 1,
                decreases tv@.len() - m,
            {
                proof {
                    let cur = tv@.subrange(0, m as int + 1);
                    assert(cur.drop_last() =~= tv@.subrange(0, m as int));
                    assert(cur.last() == tv@[m as int]);
                }
                if tv[m] == ' ' {
                    cut = m + 1;
                }
                m = m + 1;
            }
            proof {
                assert(tv@.subrange(0, tv@.len() as int) =~= tv@);
                assert(tv@.subrange(cut as int, tv@.len() as int) =~= spec_last_token(text@));
            }
            let ghost w = spec_last_token(text@);
            let start: usize = if cut < tv.len() && tv[cut] == '+' {
                cut + 1
            } else {
                cut
            };
            proof {
                assert(tv@.subrange(start as int, tv@.len() as int) =~= (if w.len() > 0 && w[0]
                    == '+' {
                    w.skip(1)
                } else {
                    w
                }));
            }
            let mut dv: Vec<char> = Vec::new();
            let mut k = start;
            while k < tv.len()
                invariant
                    start <= k <= tv@.len(),
                    dv@ == tv@.subrange(start as int, k as int),
                decreases tv@.len() - k,
            {
                dv.push(tv[k]);
                k = k + 1;
                proof {
                    assert(dv@ =~= tv@.subrange(start as int, k as int));
                }
            }
            proof {
                assert(dv@ =~= tv@.subrange(start as int, tv@.len() as int));
            }
            match parse_decimal(&dv) {
                Some(n) => {
                    return Ok(ProblemKind::SubmitLimit(n));
                },
                None => {
                    return Err(ParseError { input: class.to_owned() });
                },
            }
        }
        Err(ParseError { input: class.to_owned() })
    }

    /// Whether and why this flag blocks a plain run.
    pub fn no_run(&self) -> (r: Option<&'static str>)
        ensures
            match r {
                Some(s) => spec_no_run(*self) == Some(s@),
                None => spec_no_run(*self) is None,
            },
    {
        match self {
            ProblemKind::FunctionImpl => Some("function implementation"),
            ProblemKind::ClassImpl => Some("class implementation"),
            _ => None,
        }
    }

    /// Whether and why this flag blocks testing against samples.
    pub fn no_test(&self) -> (r: Option<&'static str>)
        ensures
            match r {
                Some(s) => spec_no_test(*self) == Some(s@),
                None => spec_no_test(*self) is None,
            },
    {
        match self {
            ProblemKind::FunctionImpl => Some("function implementation"),
            ProblemKind::ClassImpl => Some("class implementation"),
            ProblemKind::Interactive => Some("interactive"),
            ProblemKind::TwoSteps => Some("two steps"),
            _ => None,
        }
    }

    /// Whether and why this flag blocks diff-based output comparison.
    pub fn no_diff(&self) -> (r: Option<&'static str>)
        ensures
            match r {
                Some(s) => spec_no_diff(*self) == Some(s@),
                None => spec_no_diff(*self) is None,
            },
    {
        match self {
            ProblemKind::SpecialJudge => Some("special judge"),
            ProblemKind::PartialScore => Some("partial score"),
            _ => None,
        }
    }

    /// Whether this is the interactive flag.
    pub fn is_interactive(&self) -> (r: bool)
        ensures
            r == (*self is Interactive),
    {
        match self {
            ProblemKind::Interactive => true,
            _ => false,
        }
    }
}

/// The three gating queries a flag answers: does it block a plain
/// run, does it block testing against samples, does it block
/// diff-based output comparison.
#[derive(Clone, Copy, Debug)]
pub enum GateQuery {
    Run,
    Test,
    Diff,
}

/// The reason a flag blocks the queried action, if it does.
pub open spec fn spec_gate_reason(q: GateQuery, k: ProblemKind) -> Option<Seq<char>> {
    match q {
        GateQuery::Run => spec_no_run(k),
        GateQuery::Test => spec_no_test(k),
        GateQuery::Diff => spec_no_diff(k),
    }
}

/// All reasons a flag list blocks the queried action, in flag order.
pub open spec fn spec_gate_reasons(q: GateQuery, ks: Seq<ProblemKind>) -> Seq<Seq<char>>
    decreases ks.len(),
{
    if ks.len() == 0 {
        Seq::empty()
    } else {
        match spec_gate_reason(q, ks[0]) {
            Some(s) => seq![s] + spec_gate_reasons(q, ks.skip(1)),
            None => spec_gate_reasons(q, ks.skip(1)),
        }
    }
}

/// Collects the reasons the given flags block the queried action.
pub fn gate_reasons(q: GateQuery, ks: &Vec<ProblemKind>) -> (r: Vec<String>)
    ensures
        crate::strutil::strings_view(r@) == spec_gate_reasons(q, ks@),
{
    let mut r: Vec<String> = Vec::new();
    let mut i: usize = 0;
    proof {
        assert(crate::strutil::strings_view(r@) =~= Seq::<Seq<char>>::empty());
        assert(ks@.skip(0) =~= ks@);
        assert(Seq::<Seq<char>>::empty() + spec_gate_reasons(q, ks@) =~= spec_gate_reasons(
            q,
            ks@,
        ));
    }
    while i < ks.len()
        invariant
            i <= ks@.len(),
            spec_gate_reasons(q, ks@) == crate::strutil::strings_view(r@) + spec_gate_reasons(
                q,
                ks@.skip(i as int),
            ),
        decreases ks@.len() - i,
    {
        let ghost old_r = r@;
        let ghost srem = ks@.skip(i as int);
        proof {
            assert(srem[0] == ks@[i as int]);
            assert(srem.skip(1) =~= ks@.skip(i as int + 1));
        }
        let reason = match q {
            GateQuery::Run => ks[i].no_run(),
            GateQuery::Test => ks[i].no_test(),
            GateQuery::Diff => ks[i].no_diff(),
        };
        match reason {
            Some(s) => {
                proof {
                    assert(spec_gate_reason(q, srem[0]) == Some(s@));
                    assert(spec_gate_reasons(q, srem) == seq![s@] + spec_gate_reasons(
                        q,
                        srem.skip(1),
                    ));
                }
                r.push(s.to_owned());
                proof {
                    assert(crate::strutil::strings_view(r@) =~= crate::strutil::strings_view(
                        old_r,
                    ) + seq![s@]);
                }
            },
            None => {
                proof {
                    assert(spec_gate_reason(q, srem[0]) is None);
                    assert(spec_gate_reasons(q, srem) == spec_gate_reasons(q, srem.skip(1)));
                }
            },
        }
        i = i + 1;
        proof {
            assert(crate::strutil::strings_view(r@) + spec_gate_reasons(q, ks@.skip(i as int))
                =~= spec_gate_reasons(q, ks@));
        }
    }
    proof {
        assert(ks@.skip(i as int) =~= Seq::<ProblemKind>::empty());
        assert(crate::strutil::strings_view(r@) =~= spec_gate_reasons(q, ks@));
    }
    r
}

/// One of the flags is the interactive flag.
pub open spec fn spec_any_interactive(ks: Seq<ProblemKind>) -> bool {
    exists|i: int| 0 <= i < ks.len() && ks[i] is Interactive
}

/// Whether any flag marks the problem interactive.
pub fn any_interactive(ks: &Vec<ProblemKind>) -> (r: bool)
    ensures
        r == spec_any_interactive(ks@),
{
    let mut i: usize = 0;
    while i < ks.len()
        invariant
            i <= ks@.len(),
            forall|j: int| 0 <= j < i ==> !(ks@[j] is Interactive),
        decreases ks@.len() - i,
    {
        if ks[i].is_interactive() {
            return true;
        }
        i = i + 1;
    }
    false
}

/// Everything a problem page tells about one problem.  The time limit
/// is kept in milliseconds and the memory limit in megabytes.
#[derive(Clone, Debug)]
pub struct Problem {
    pub id: ProblemId,
    pub title: String,
    pub kind: Vec<ProblemKind>,
    pub time_millis: u64,
    pub time_bonus: bool,
    pub memory_mb: u64,
    pub memory_bonus: bool,
    pub io: Vec<ExampleIO>,
}

impl Problem {
    /// Validity: the identifier is well formed.
    pub open spec fn wf(&self) -> bool {
        self.id.wf()
    }
}

/// A named bundle of optional settings, applied in one fixed order.
#[derive(Clone, Debug)]
pub struct Preset {
    pub name: String,
    pub credentials: Option<Credentials>,
    pub lang: Option<String>,
    pub file: Option<String>,
    pub init: Option<String>,
    pub build: Option<String>,
    pub cmd: Option<String>,
    pub input: Option<String>,
}

} // verus!
