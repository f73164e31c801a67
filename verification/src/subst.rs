//! Problem-identifier substitution: a template may contain `{}` or
//! `{X}` (with `X` one separator character); each occurrence is
//! replaced by the problem code, a contest identifier using the
//! separator (`_` when none is given) between its two parts.

use vstd::prelude::*;
use crate::data::{slash_count, ProblemId};
use crate::strutil::push_char;

verus! {

/// Index of the first `/` in the sequence, or its length when there
/// is none.
pub open spec fn spec_find_slash(s: Seq<char>) -> int
    decreases s.len(),
{
    if s.len() == 0 {
        0
    } else if s[0] == '/' {
        0
    } else {
        1 + spec_find_slash(s.skip(1))
    }
}

proof fn lemma_slash_count_front(s: Seq<char>)
    requires
        s.len() > 0,
    ensures
        slash_count(s) == slash_count(s.skip(1)) + if s[0] == '/' {
            1int
        } else {
            0int
        },
    decreases s.len(),
{
    if s.len() == 1 {
        assert(s.drop_last() =~= s.skip(1));
        assert(s.skip(1).len() == 0);
    } else {
        assert(s.drop_last().len() > 0);
        lemma_slash_count_front(s.drop_last());
        assert(s.drop_last().skip(1) =~= s.skip(1).drop_last());
        assert(s.skip(1).last() == s.last());
        assert(s.drop_last()[0] == s[0]);
    }
}

proof fn lemma_find_slash_bounds(s: Seq<char>)
    ensures
        0 <= spec_find_slash(s) <= s.len(),
        slash_count(s) > 0 ==> spec_find_slash(s) < s.len(),
        spec_find_slash(s) < s.len() ==> s[spec_find_slash(s)] == '/',
    decreases s.len(),
{
    if s.len() > 0 {
        lemma_slash_count_front(s);
        lemma_find_slash_bounds(s.skip(1));
        if s[0] != '/' {
            assert(s.skip(1)[spec_find_slash(s.skip(1))] == s[spec_find_slash(s)] || !(
            spec_find_slash(s.skip(1)) < s.skip(1).len()));
        }
    }
}

/// What one `{...}` pattern is replaced with: the code of a bare
/// problem, or contest and problem number joined by the separator.
pub open spec fn id_replacement(id: ProblemId, sep: Seq<char>) -> Seq<char> {
    let code = id.code_spec();
    if id is ContestProblem {
        let k = spec_find_slash(code);
        code.take(k) + sep + code.skip(k + 1)
    } else {
        code
    }
}

/// The template with every `{}` and `{X}` pattern substituted.  A
/// three-character pattern `{X}` (whose middle is not a newline) is
/// preferred over the bare `{}`, matching a greedy single-character
/// wildcard.
pub open spec fn spec_substitute(path: Seq<char>, id: ProblemId) -> Seq<char>
    decreases path.len(),
{
    if path.len() == 0 {
        Seq::empty()
    } else if path[0] == '{' && path.len() >= 3 && path[1] != '\n' && path[2] == '}' {
        id_replacement(id, seq![path[1]]) + spec_substitute(path.skip(3), id)
    } else if path[0] == '{' && path.len() >= 2 && path[1] == '}' {
        id_replacement(id, seq!['_']) + spec_substitute(path.skip(2), id)
    } else {
        seq![path[0]] + spec_substitute(path.skip(1), id)
    }
}

/// Builds the replacement text for one pattern occurrence.
fn replacement_for(id: &ProblemId, sep: char) -> (r: String)
    requires
        id.wf(),
    ensures
        r@ == id_replacement(*id, seq![sep]),
{
    match id {
        ProblemId::Problem(code) => {
            proof {
                assert(id_replacement(*id, seq![sep]) == code@);
            }
            code.clone()
        },
        ProblemId::ContestProblem(code) => {
            let v = crate::strutil::str_to_chars(code.as_str());
            proof {
                lemma_find_slash_bounds(v@);
            }
            let mut k: usize = 0;
            while k < v.len() && v[k] != '/'
                invariant
                    k <= v@.len(),
                    v@ == code@,
                    forall|j: int| 0 <= j < k ==> v@[j] != '/',
                decreases v@.len() - k,
            {
                k = k + 1;
            }
            proof {
                lemma_find_slash_agrees(v@, k as int);
            }
            let mut out = String::new();
            let mut m: usize = 0;
            while m < k
                invariant
                    m <= k <= v@.len(),
                    out@ == v@.subrange(0, m as int),
                decreases k - m,
            {
                push_char(&mut out, v[m]);
                m = m + 1;
                proof {
                    assert(out@ =~= v@.subrange(0, m as int));
                }
            }
            push_char(&mut out, sep);
            let mut m2 = k + 1;
            proof {
                assert(out@ =~= v@.subrange(0, k as int) + seq![sep]);
            }
            while m2 < v.len()
                invariant
                    k + 1 <= m2 <= v@.len() || m2 == k + 1,
                    m2 >= k + 1,
                    m2 <= v@.len() || m2 == k + 1,
                    out@ == v@.subrange(0, k as int) + seq![sep] + v@.subrange(
                        k as int + 1,
                        m2 as int,
                    ) || (m2 == k + 1 && out@ == v@.subrange(0, k as int) + seq![sep]),
                decreases v@.len() - m2,
            {
                proof {
                    if m2 == k + 1 {
                        assert(v@.subrange(k as int + 1, m2 as int) =~= Seq::<char>::empty());
                        assert(out@ =~= v@.subrange(0, k as int) + seq![sep] + v@.subrange(
                            k as int + 1,
                            m2 as int,
                        ));
                    }
                }
                push_char(&mut out, v[m2]);
                m2 = m2 + 1;
                proof {
                    assert(out@ =~= v@.subrange(0, k as int) + seq![sep] + v@.subrange(
                        k as int + 1,
                        m2 as int,
                    ));
                }
            }
            proof {
                if m2 == k + 1 {
                    assert(v@.subrange(k as int + 1, m2 as int) =~= Seq::<char>::empty());
                    assert(out@ =~= v@.subrange(0, k as int) + seq![sep] + v@.subrange(
                        k as int + 1,
                        m2 as int,
                    ));
                }
                assert(v@.subrange(0, k as int) =~= v@.take(k as int));
                assert(v@.subrange(k as int + 1, v@.len() as int) =~= v@.skip(k as int + 1));
                assert(out@ =~= id_replacement(*id, seq![sep]));
            }
            out
        },
    }
}

proof fn lemma_find_slash_agrees(s: Seq<char>, k: int)
    requires
        0 <= k <= s.len(),
        forall|j: int| 0 <= j < k ==> s[j] != '/',
        k < s.len() ==> s[k] == '/',
    ensures
        spec_find_slash(s) == k,
    decreases s.len(),
{
    if s.len() > 0 {
        if k == 0 {
        } else {
            lemma_find_slash_agrees(s.skip(1), k - 1);
        }
    }
}

/// Substitutes the problem identifier into a template string.
pub fn substitute_problem(path: &str, id: &ProblemId) -> (r: String)
    requires
        id.wf(),
    ensures
        r@ == spec_substitute(path@, *id),
{
    let v = crate::strutil::str_to_chars(path);
    let mut out = String::new();
    let mut i: usize = 0;
    proof {
        assert(v@.skip(0) =~= v@);
        assert(Seq::<char>::empty() + spec_substitute(v@, *id) =~= spec_substitute(v@, *id));
    }
    while i < v.len()
        invariant
            i <= v@.len(),
            v@ == path@,
            id.wf(),
            spec_substitute(path@, *id) == out@ + spec_substitute(v@.skip(i as int), *id),
        decreases v@.len() - i,
    {
        let ghost srem = v@.skip(i as int);
        let ghost old_out = out@;
        proof {
            assert(srem[0] == v@[i as int]);
            if i + 1 < v@.len() {
                assert(srem[1] == v@[i as int + 1]);
            }
            if i + 2 < v@.len() {
                assert(srem[2] == v@[i as int + 2]);
            }
        }
        let c = v[i];
        if c == '{' && v.len() - i > 2 && v[i + 1] != '\n' && v[i + 2] == '}' {
            let rep = replacement_for(id, v[i + 1]);
            out.append(rep.as_str());
            proof {
                assert(srem.skip(3) =~= v@.skip(i as int + 3));
                assert(out@ =~= old_out + id_replacement(*id, seq![v@[i as int + 1]]));
            }
            i = i + 3;
        } else if c == '{' && v.len() - i > 1 && v[i + 1] == '}' {
            let rep = replacement_for(id, '_');
            out.append(rep.as_str());
            proof {
                assert(srem.skip(2) =~= v@.skip(i as int + 2));
                assert(out@ =~= old_out + id_replacement(*id, seq!['_']));
            }
            i = i + 2;
        } else {
            push_char(&mut out, c);
            proof {
                assert(srem.skip(1) =~= v@.skip(i as int + 1));
                assert(out@ =~= old_out + seq![c]);
            }
            i = i + 1;
        }
        proof {
            assert(spec_substitute(path@, *id) =~= out@ + spec_substitute(
                v@.skip(i as int),
                *id,
            ));
        }
    }
    proof {
        assert(v@.skip(i as int) =~= Seq::<char>::empty());
        assert(out@ + Seq::<char>::empty() =~= out@);
    }
    out
}

} // verus!
