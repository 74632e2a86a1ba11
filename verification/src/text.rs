//! Characters, strings, and first-occurrence replacement.
//!
//! The engine works on sequences of characters. This module bridges between
//! `String` values and `Vec<char>` buffers, and provides the one text
//! operation the renderer is built on: replacing the first occurrence of a
//! pattern inside a text.

use vstd::prelude::*;
use vstd::string::*;

verus! {

/// Relies on String::push: appends the given character to the end of the string.
#[verifier::external_body]
pub(crate) fn push_char(s: &mut String, c: char)
    ensures
        final(s)@ == old(s)@.push(c),
{
    s.push(c);
}

/// The characters of a string, one per element, in order.
pub fn string_chars(s: &str) -> (v: Vec<char>)
    ensures
        v@ == s@,
{
    let n: usize = s.unicode_len();
    let mut v: Vec<char> = Vec::new();
    let mut i: usize = 0;
    while i < n
        invariant
            n == s@.len(),
            i <= n,
            v@ == s@.take(i as int),
        decreases n - i,
    {
        let c = s.get_char(i);
        proof {
            assert(s@.take(i as int).push(s@[i as int]) =~= s@.take(i as int + 1));
        }
        v.push(c);
        i += 1;
    }
    proof {
        assert(s@.take(n as int) =~= s@);
    }
    v
}

/// A string holding exactly the given characters, in order.
pub fn chars_string(v: &Vec<char>) -> (s: String)
    ensures
        s@ == v@,
{
    let mut s = String::new();
    let mut i: usize = 0;
    while i < v.len()
        invariant
            i <= v@.len(),
            s@ == v@.take(i as int),
        decreases v@.len() - i,
    {
        proof {
            assert(v@.take(i as int).push(v@[i as int]) =~= v@.take(i as int + 1));
        }
        push_char(&mut s, v[i]);
        i += 1;
    }
    proof {
        assert(v@.take(v@.len() as int) =~= v@);
    }
    s
}

/// The position of the first occurrence of `pat` in `s` at or after `from`,
/// if there is one.
pub open spec fn first_occurrence_from(s: Seq<char>, pat: Seq<char>, from: int) -> Option<int>
    decreases s.len() + 1 - from,
{
    if from < 0 || from + pat.len() > s.len() {
        None
    } else if s.subrange(from, from + pat.len() as int) == pat {
        Some(from)
    } else {
        first_occurrence_from(s, pat, from + 1)
    }
}

/// The position of the first occurrence of `pat` in `s`, if there is one.
pub open spec fn first_occurrence(s: Seq<char>, pat: Seq<char>) -> Option<int> {
    first_occurrence_from(s, pat, 0)
}

/// `s` with the first occurrence of `pat` (if any) replaced by `rep`.
pub open spec fn replace_first(s: Seq<char>, pat: Seq<char>, rep: Seq<char>) -> Seq<char> {
    match first_occurrence(s, pat) {
        Some(i) => s.subrange(0, i) + rep + s.subrange(i + pat.len(), s.len() as int),
        None => s,
    }
}

/// No opening bracket anywhere in `s`.
pub open spec fn open_free(s: Seq<char>) -> bool {
    forall|i: int| 0 <= i < s.len() ==> s[i] != '['
}

/// No bracket of either kind anywhere in `s`.
pub open spec fn bracket_free(s: Seq<char>) -> bool {
    forall|i: int| 0 <= i < s.len() ==> s[i] != '[' && s[i] != ']'
}

/// A pattern that opens with a character absent from `s` never occurs past
/// `from` in `s`.
proof fn lemma_no_occurrence_from(s: Seq<char>, pat: Seq<char>, from: int)
    requires
        open_free(s),
        pat.len() > 0,
        pat[0] == '[',
        from >= 0,
    ensures
        first_occurrence_from(s, pat, from) is None,
    decreases s.len() + 1 - from,
{
    if from + pat.len() > s.len() {
    } else {
        assert(s.subrange(from, from + pat.len() as int) != pat) by {
            if s.subrange(from, from + pat.len() as int) == pat {
                assert(s.subrange(from, from + pat.len() as int)[0] == s[from]);
            }
        }
        lemma_no_occurrence_from(s, pat, from + 1);
    }
}

/// A pattern that opens with a bracket never occurs in bracket-free text.
pub proof fn lemma_no_occurrence(s: Seq<char>, pat: Seq<char>)
    requires
        open_free(s),
        pat.len() > 0,
        pat[0] == '[',
    ensures
        first_occurrence(s, pat) is None,
{
    lemma_no_occurrence_from(s, pat, 0);
}

/// Where a match stands at `p` and the pattern's opening character is absent
/// before `p`, the first occurrence past `from` is the match at `p`.
proof fn lemma_first_occurrence_at_from(s: Seq<char>, pat: Seq<char>, from: int, p: int)
    requires
        0 <= from <= p,
        p + pat.len() <= s.len(),
        pat.len() > 0,
        s.subrange(p, p + pat.len() as int) == pat,
        forall|i: int| from <= i < p ==> s[i] != pat[0],
    ensures
        first_occurrence_from(s, pat, from) == Some(p),
    decreases p - from,
{
    if from == p {
    } else {
        assert(s.subrange(from, from + pat.len() as int) != pat) by {
            if s.subrange(from, from + pat.len() as int) == pat {
                assert(s.subrange(from, from + pat.len() as int)[0] == s[from]);
            }
        }
        lemma_first_occurrence_at_from(s, pat, from + 1, p);
    }
}

/// Where a match stands at `p` and the pattern's opening character is absent
/// before `p`, the first occurrence is the match at `p`.
pub proof fn lemma_first_occurrence_at(s: Seq<char>, pat: Seq<char>, p: int)
    requires
        0 <= p,
        p + pat.len() <= s.len(),
        pat.len() > 0,
        s.subrange(p, p + pat.len() as int) == pat,
        forall|i: int| 0 <= i < p ==> s[i] != pat[0],
    ensures
        first_occurrence(s, pat) == Some(p),
{
    lemma_first_occurrence_at_from(s, pat, 0, p);
}

/// Whether `pat` occurs in `v` starting exactly at position `at`.
fn match_at(v: &Vec<char>, pat: &Vec<char>, at: usize) -> (b: bool)
    requires
        at + pat@.len() <= v@.len(),
    ensures
        b == (v@.subrange(at as int, at + pat@.len()) == pat@),
{
    let n: usize = v.len();
    let mut j: usize = 0;
    while j < pat.len()
        invariant
            n == v@.len(),
            at + pat@.len() <= v@.len(),
            j <= pat@.len(),
            forall|k: int| 0 <= k < j ==> v@[at + k] == pat@[k],
        decreases pat@.len() - j,
    {
        if v[at + j] != pat[j] {
            proof {
                assert(v@.subrange(at as int, at + pat@.len())[j as int] == v@[at + j]);
            }
            return false;
        }
        j += 1;
    }
    proof {
        assert(v@.subrange(at as int, at + pat@.len()) =~= pat@);
    }
    true
}

/// The position of the first occurrence of `pat` in `v`, if there is one.
pub(crate) fn find_first(v: &Vec<char>, pat: &Vec<char>) -> (r: Option<usize>)
    requires
        pat@.len() >= 1,
    ensures
        match r {
            Some(i) => i + pat@.len() <= v@.len() && first_occurrence(v@, pat@) == Some(i as int),
            None => first_occurrence(v@, pat@) is None,
        },
{
    if pat.len() > v.len() {
        return None;
    }
    let bound: usize = v.len() - pat.len();
    let mut at: usize = 0;
    while at <= bound
        invariant
            pat@.len() >= 1,
            bound == v@.len() - pat@.len(),
            bound < usize::MAX,
            at <= bound + 1,
            first_occurrence(v@, pat@) == first_occurrence_from(v@, pat@, at as int),
        decreases bound + 1 - at,
    {
        if match_at(v, pat, at) {
            return Some(at);
        }
        at += 1;
    }
    None
}

/// `v` with the first occurrence of `pat` (if any) replaced by `rep`.
pub(crate) fn replace_first_in(v: &Vec<char>, pat: &Vec<char>, rep: &Vec<char>) -> (r: Vec<char>)
    requires
        pat@.len() >= 1,
    ensures
        r@ == replace_first(v@, pat@, rep@),
{
    match find_first(v, pat) {
        None => {
            let mut r: Vec<char> = Vec::new();
            let mut i: usize = 0;
            while i < v.len()
                invariant
                    i <= v@.len(),
                    r@ == v@.take(i as int),
                decreases v@.len() - i,
            {
                proof {
                    assert(v@.take(i as int).push(v@[i as int]) =~= v@.take(i as int + 1));
                }
                r.push(v[i]);
                i += 1;
            }
            proof {
                assert(v@.take(v@.len() as int) =~= v@);
            }
            r
        },
        Some(p) => {
            let n: usize = v.len();
            let mut r: Vec<char> = Vec::new();
            let mut i: usize = 0;
            while i < p
                invariant
                    p + pat@.len() <= v@.len(),
                    i <= p,
                    r@ == v@.take(i as int),
                decreases p - i,
            {
                proof {
                    assert(v@.take(i as int).push(v@[i as int]) =~= v@.take(i as int + 1));
                }
                r.push(v[i]);
                i += 1;
            }
            let ghost head: Seq<char> = v@.take(p as int);
            let mut j: usize = 0;
            while j < rep.len()
                invariant
                    p + pat@.len() <= v@.len(),
                    head == v@.take(p as int),
                    j <= rep@.len(),
                    r@ == head + rep@.take(j as int),
                decreases rep@.len() - j,
            {
                proof {
                    assert((head + rep@.take(j as int)).push(rep@[j as int]) =~= head + rep@.take(
                        j as int + 1));
                }
                r.push(rep[j]);
                j += 1;
            }
            proof {
                assert(rep@.take(rep@.len() as int) =~= rep@);
                assert(head + rep@ + v@.subrange(p + pat@.len(), p + pat@.len()) =~= head + rep@);
            }
            let mut k: usize = p + pat.len();
            while k < v.len()
                invariant
                    p + pat@.len() <= k <= v@.len(),
                    head == v@.take(p as int),
                    r@ == head + rep@ + v@.subrange(p + pat@.len(), k as int),
                decreases v@.len() - k,
            {
                proof {
                    let ghost mid = v@.subrange(p + pat@.len(), k as int);
                    let ghost mid2 = v@.subrange(p + pat@.len(), k as int + 1);
                    assert((head + rep@ + mid).push(v@[k as int]) =~= head + rep@ + mid2);
                }
                r.push(v[k]);
                k += 1;
            }
            proof {
                assert(head == v@.subrange(0, p as int));
                assert(r@ == replace_first(v@, pat@, rep@));
            }
            r
        },
    }
}

} // verus!
