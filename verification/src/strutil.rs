//! Small verified building blocks for working with strings as
//! sequences of characters: conversions between `&str`, `Vec<char>`
//! and `String`, equality, substring search, and decimal parsing.

use vstd::prelude::*;
use vstd::string::StrSliceExecFns;
use vstd::string::StringExecFns;

verus! {

/// Relies on `String::push`: appends the given character to the end of
/// the string.
#[verifier::external_body]
pub fn push_char(s: &mut String, c: char)
    ensures
        final(s)@ == old(s)@.push(c),
{
    s.push(c);
}

/// Collects the characters of a string slice into a vector.
pub fn str_to_chars(s: &str) -> (r: Vec<char>)
    ensures
        r@ == s@,
{
    let n = s.unicode_len();
    let mut r: Vec<char> = Vec::new();
    let mut i: usize = 0;
    while i < n
        invariant
            n == s@.len(),
            i <= n,
            r@ == s@.subrange(0, i as int),
        decreases n - i,
    {
        r.push(s.get_char(i));
        i = i + 1;
        proof {
            assert(r@ =~= s@.subrange(0, i as int));
        }
    }
    proof {
        assert(r@ =~= s@);
    }
    r
}

/// Builds a `String` out of the characters `v[a..b]`.
pub fn chars_range_string(v: &Vec<char>, a: usize, b: usize) -> (r: String)
    requires
        a <= b <= v@.len(),
    ensures
        r@ == v@.subrange(a as int, b as int),
{
    let mut r = String::new();
    let mut k = a;
    while k < b
        invariant
            a <= k <= b <= v@.len(),
            r@ == v@.subrange(a as int, k as int),
        decreases b - k,
    {
        push_char(&mut r, v[k]);
        k = k + 1;
        proof {
            assert(r@ =~= v@.subrange(a as int, k as int));
        }
    }
    r
}

/// Character-wise equality of two string slices.
pub fn str_eq(a: &str, b: &str) -> (r: bool)
    ensures
        r == (a@ == b@),
{
    let na = a.unicode_len();
    let nb = b.unicode_len();
    if na != nb {
        return false;
    }
    let mut i: usize = 0;
    while i < na
        invariant
            na == a@.len(),
            na == b@.len(),
            i <= na,
            forall|j: int| 0 <= j < i ==> a@[j] == b@[j],
        decreases na - i,
    {
        if a.get_char(i) != b.get_char(i) {
            return false;
        }
        i = i + 1;
    }
    proof {
        assert(a@ =~= b@);
    }
    true
}

/// The needle `n` occurs in the haystack `h` starting at position `i`.
pub open spec fn contains_at(h: Seq<char>, n: Seq<char>, i: int) -> bool {
    0 <= i && i + n.len() <= h.len() && h.subrange(i, i + n.len()) == n
}

/// The needle `n` occurs somewhere in the haystack `h`.
pub open spec fn seq_contains(h: Seq<char>, n: Seq<char>) -> bool {
    exists|i: int| contains_at(h, n, i)
}

/// Naive substring search over character vectors.
#[verifier::loop_isolation(false)]
pub fn chars_contain(h: &Vec<char>, n: &Vec<char>) -> (r: bool)
    ensures
        r == seq_contains(h@, n@),
{
    if n.len() > h.len() {
        proof {
            assert(forall|i: int| !contains_at(h@, n@, i));
        }
        return false;
    }
    if n.len() == 0 {
        proof {
            assert(h@.subrange(0, 0) =~= n@);
            assert(contains_at(h@, n@, 0));
        }
        return true;
    }
    let last = h.len() - n.len();
    let mut i: usize = 0;
    while i <= last
        invariant
            n@.len() <= h@.len(),
            last == h@.len() - n@.len(),
            i <= last + 1,
            forall|k: int| 0 <= k < i ==> !contains_at(h@, n@, k),
        decreases last + 1 - i,
    {
        let mut j: usize = 0;
        let mut matched = true;
        while j < n.len()
            invariant
                n@.len() <= h@.len(),
                i + n@.len() <= h@.len(),
                j <= n@.len(),
                matched ==> forall|m: int| 0 <= m < j ==> h@[i + m] == n@[m],
                !matched ==> exists|m: int| 0 <= m < n@.len() && h@[i + m] != n@[m],
            decreases n@.len() - j,
        {
            if h[i + j] != n[j] {
                matched = false;
                j = n.len();
            } else {
                j = j + 1;
            }
        }
        if matched {
            proof {
                assert(h@.subrange(i as int, i + n@.len()) =~= n@);
                assert(contains_at(h@, n@, i as int));
            }
            return true;
        }
        proof {
            if contains_at(h@, n@, i as int) {
                let m = choose|m: int| 0 <= m < n@.len() && h@[i + m] != n@[m];
                assert(h@.subrange(i as int, i + n@.len())[m] == h@[i + m]);
                assert(false);
            }
        }
        i = i + 1;
    }
    proof {
        if seq_contains(h@, n@) {
            let w = choose|w: int| contains_at(h@, n@, w);
            assert(w <= last);
            assert(!contains_at(h@, n@, w));
        }
    }
    false
}

/// Substring search on string slices.
pub fn str_contains(h: &str, n: &str) -> (r: bool)
    ensures
        r == seq_contains(h@, n@),
{
    let hv = str_to_chars(h);
    let nv = str_to_chars(n);
    chars_contain(&hv, &nv)
}

/// Views a sequence of strings as a sequence of character sequences.
pub open spec fn strings_view(v: Seq<String>) -> Seq<Seq<char>> {
    v.map_values(|s: String| s@)
}

/// The character is a decimal digit.
pub open spec fn spec_is_digit(c: char) -> bool {
    48 <= c as u32 && c as u32 <= 57
}

/// Every character of the sequence is a decimal digit.
pub open spec fn all_digits(s: Seq<char>) -> bool {
    forall|i: int| 0 <= i < s.len() ==> spec_is_digit(#[trigger] s[i])
}

/// The number denoted by a sequence of decimal digits, most significant
/// first.
pub open spec fn dec_value(s: Seq<char>) -> int
    decreases s.len(),
{
    if s.len() == 0 {
        0
    } else {
        dec_value(s.drop_last()) * 10 + (s.last() as u32 - 48)
    }
}

/// Decimal digit test on a character.
pub fn is_digit(c: char) -> (r: bool)
    ensures
        r == spec_is_digit(c),
{
    let u = c as u32;
    48 <= u && u <= 57
}

proof fn lemma_dec_value_prefix_le(s: Seq<char>, i: int)
    requires
        all_digits(s),
        0 <= i <= s.len(),
    ensures
        dec_value(s.subrange(0, i)) <= dec_value(s),
        dec_value(s) >= 0,
    decreases s.len() - i,
{
    if i == s.len() {
        assert(s.subrange(0, i) =~= s);
        lemma_dec_value_nonneg(s);
    } else {
        lemma_dec_value_prefix_le(s, i + 1);
        let p = s.subrange(0, i);
        let q = s.subrange(0, i + 1);
        assert(q.drop_last() =~= p);
        assert(q.last() == s[i]);
        lemma_dec_value_nonneg(p);
    }
}

proof fn lemma_dec_value_nonneg(s: Seq<char>)
    requires
        all_digits(s),
    ensures
        dec_value(s) >= 0,
    decreases s.len(),
{
    if s.len() > 0 {
        assert(all_digits(s.drop_last()));
        lemma_dec_value_nonneg(s.drop_last());
    }
}

/// Parses a run of decimal digits as a `usize`, reporting `None` when
/// the run is empty, contains another character, or denotes a number
/// that does not fit.
pub fn parse_decimal(v: &Vec<char>) -> (r: Option<usize>)
    ensures
        match r {
            Some(n) => all_digits(v@) && v@.len() > 0 && n == dec_value(v@),
            None => v@.len() == 0 || !all_digits(v@) || dec_value(v@) > usize::MAX,
        },
{
    if v.len() == 0 {
        return None;
    }
    let mut acc: usize = 0;
    let mut i: usize = 0;
    while i < v.len()
        invariant
            i <= v@.len(),
            all_digits(v@.subrange(0, i as int)),
            acc == dec_value(v@.subrange(0, i as int)),
        decreases v@.len() - i,
    {
        let c = v[i];
        if !is_digit(c) {
            proof {
                assert(!spec_is_digit(v@[i as int]));
            }
            return None;
        }
        let d = (c as u32 - 48) as usize;
        let ghost pre = v@.subrange(0, i as int);
        let ghost cur = v@.subrange(0, i as int + 1);
        proof {
            assert(cur.drop_last() =~= pre);
            assert(cur.last() == v@[i as int]);
            assert(forall|m: int| 0 <= m < i as int ==> cur[m] == pre[m]);
            assert(all_digits(cur));
        }
        let step = match acc.checked_mul(10) {
            Some(m) => m.checked_add(d),
            None => None,
        };
        match step {
            Some(next) => {
                proof {
                    assert(dec_value(cur) == dec_value(pre) * 10 + (c as u32 - 48));
                }
                acc = next;
            }
            None => {
                proof {
                    assert(dec_value(cur) == dec_value(pre) * 10 + (c as u32 - 48));
                    assert(dec_value(cur) > usize::MAX);
                    if all_digits(v@) {
                        lemma_dec_value_prefix_le(v@, i as int + 1);
                        assert(v@.subrange(0, v@.len() as int) =~= v@);
                        assert(dec_value(v@) > usize::MAX);
                    }
                }
                return None;
            }
        }
        i = i + 1;
        proof {
            assert(v@.subrange(0, i as int) =~= cur);
        }
    }
    proof {
        assert(v@.subrange(0, v@.len() as int) =~= v@);
    }
    Some(acc)
}

/// Parses a run of decimal digits as a `u64`, reporting `None` when
/// the run is empty, contains another character, or denotes a number
/// that does not fit.
pub fn parse_decimal_u64(v: &Vec<char>) -> (r: Option<u64>)
    ensures
        match r {
            Some(n) => all_digits(v@) && v@.len() > 0 && n == dec_value(v@),
            None => v@.len() == 0 || !all_digits(v@) || dec_value(v@) > u64::MAX,
        },
{
    if v.len() == 0 {
        return None;
    }
    let mut acc: u64 = 0;
    let mut i: usize = 0;
    while i < v.len()
        invariant
            i <= v@.len(),
            all_digits(v@.subrange(0, i as int)),
            acc == dec_value(v@.subrange(0, i as int)),
        decreases v@.len() - i,
    {
        let c = v[i];
        if !is_digit(c) {
            proof {
                assert(!spec_is_digit(v@[i as int]));
            }
            return None;
        }
        let d = (c as u32 - 48) as u64;
        let ghost pre = v@.subrange(0, i as int);
        let ghost cur = v@.subrange(0, i as int + 1);
        proof {
            assert(cur.drop_last() =~= pre);
            assert(cur.last() == v@[i as int]);
            assert(forall|m: int| 0 <= m < i as int ==> cur[m] == pre[m]);
            assert(all_digits(cur));
        }
        let step = match acc.checked_mul(10) {
            Some(m) => m.checked_add(d),
            None => None,
        };
        match step {
            Some(next) => {
                proof {
                    assert(dec_value(cur) == dec_value(pre) * 10 + (c as u32 - 48));
                }
                acc = next;
            },
            None => {
                proof {
                    assert(dec_value(cur) == dec_value(pre) * 10 + (c as u32 - 48));
                    assert(dec_value(cur) > u64::MAX);
                    if all_digits(v@) {
                        lemma_dec_value_prefix_le(v@, i as int + 1);
                        assert(v@.subrange(0, v@.len() as int) =~= v@);
                        assert(dec_value(v@) > u64::MAX);
                    }
                }
                return None;
            },
        }
        i = i + 1;
        proof {
            assert(v@.subrange(0, i as int) =~= cur);
        }
    }
    proof {
        assert(v@.subrange(0, v@.len() as int) =~= v@);
    }
    Some(acc)
}

/// Concatenation of two string slices.
pub fn concat2(a: &str, b: &str) -> (r: String)
    ensures
        r@ == a@ + b@,
{
    let mut r = a.to_owned();
    r.append(b);
    r
}

/// Concatenation of three string slices.
pub fn concat3(a: &str, b: &str, c: &str) -> (r: String)
    ensures
        r@ == a@ + b@ + c@,
{
    let mut r = a.to_owned();
    r.append(b);
    r.append(c);
    r
}

/// Concatenation of four string slices.
pub fn concat4(a: &str, b: &str, c: &str, d: &str) -> (r: String)
    ensures
        r@ == a@ + b@ + c@ + d@,
{
    let mut r = a.to_owned();
    r.append(b);
    r.append(c);
    r.append(d);
    r
}

/// Concatenation of five string slices.
pub fn concat5(a: &str, b: &str, c: &str, d: &str, e: &str) -> (r: String)
    ensures
        r@ == a@ + b@ + c@ + d@ + e@,
{
    let mut r = a.to_owned();
    r.append(b);
    r.append(c);
    r.append(d);
    r.append(e);
    r
}

/// A character quoted between two string slices.
pub fn concat_char(a: &str, c: char, b: &str) -> (r: String)
    ensures
        r@ == a@ + seq![c] + b@,
{
    let mut r = a.to_owned();
    push_char(&mut r, c);
    r.append(b);
    proof {
        assert(r@ =~= a@ + seq![c] + b@);
    }
    r
}

/// A character and a string slice quoted inside surrounding text.
pub fn concat_char_str(a: &str, c: char, b: &str, d: &str, e: &str) -> (r: String)
    ensures
        r@ == a@ + seq![c] + b@ + d@ + e@,
{
    let mut r = a.to_owned();
    push_char(&mut r, c);
    r.append(b);
    r.append(d);
    r.append(e);
    proof {
        assert(r@ =~= a@ + seq![c] + b@ + d@ + e@);
    }
    r
}

} // verus!
