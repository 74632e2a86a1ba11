//! Interpreting lines of interactive input.
//!
//! Replies keep their text as typed, with exactly the trailing line
//! terminator removed. The menu line that picks a template and the line that
//! answers the replay question are trimmed of surrounding whitespace first;
//! the menu accepts exactly the decimal numbers from one up to the number of
//! templates on offer, and the replay question accepts a single `y` or `n`
//! of either case.

use vstd::prelude::*;
use crate::text::string_chars;
use crate::text::chars_string;

verus! {

/// `s` with one trailing line terminator (`\n` or `\r\n`) removed, if any.
pub open spec fn strip_line_ending(s: Seq<char>) -> Seq<char> {
    if s.len() > 0 && s.last() == '\n' {
        let t = s.drop_last();
        if t.len() > 0 && t.last() == '\r' {
            t.drop_last()
        } else {
            t
        }
    } else {
        s
    }
}

/// The reply text a typed line stands for: the line with exactly its
/// trailing line terminator removed, all other characters kept as typed.
pub fn strip_line(line: &str) -> (r: String)
    ensures
        r@ == strip_line_ending(line@),
{
    let mut v = string_chars(line);
    if v.len() > 0 && v[v.len() - 1] == '\n' {
        v.pop();
        if v.len() > 0 && v[v.len() - 1] == '\r' {
            v.pop();
        }
    }
    chars_string(&v)
}

/// An ASCII whitespace character.
pub open spec fn is_space(c: char) -> bool {
    c == ' ' || c == '\t' || c == '\r' || c == '\n'
}

/// `s` with its leading whitespace removed.
pub open spec fn trim_start(s: Seq<char>) -> Seq<char>
    decreases s.len(),
{
    if s.len() > 0 && is_space(s[0]) {
        trim_start(s.drop_first())
    } else {
        s
    }
}

/// `s` with its trailing whitespace removed.
pub open spec fn trim_end(s: Seq<char>) -> Seq<char>
    decreases s.len(),
{
    if s.len() > 0 && is_space(s.last()) {
        trim_end(s.drop_last())
    } else {
        s
    }
}

/// `s` with whitespace removed at both ends.
pub open spec fn trim_spec(s: Seq<char>) -> Seq<char> {
    trim_end(trim_start(s))
}

/// Leading whitespace may be dropped before trimming.
proof fn lemma_trim_start_skip(s: Seq<char>, k: int)
    requires
        0 <= k <= s.len(),
        forall|i: int| 0 <= i < k ==> is_space(s[i]),
    ensures
        trim_start(s) == trim_start(s.skip(k)),
    decreases k,
{
    if k == 0 {
        assert(s.skip(0) =~= s);
    } else {
        assert(s.drop_first() =~= s.skip(1));
        assert(forall|i: int| 0 <= i < k - 1 ==> is_space(s.skip(1)[i]));
        lemma_trim_start_skip(s.skip(1), k - 1);
        assert(s.skip(1).skip(k - 1) =~= s.skip(k));
    }
}

/// Trailing whitespace may be dropped before trimming.
proof fn lemma_trim_end_take(s: Seq<char>, m: int)
    requires
        0 <= m <= s.len(),
        forall|i: int| m <= i < s.len() ==> is_space(s[i]),
    ensures
        trim_end(s) == trim_end(s.take(m)),
    decreases s.len() - m,
{
    if m == s.len() {
        assert(s.take(m) =~= s);
    } else {
        assert(is_space(s.last()));
        assert(s.drop_last() =~= s.take(s.len() - 1));
        lemma_trim_end_take(s.take(s.len() - 1), m);
        assert(s.take(s.len() - 1).take(m) =~= s.take(m));
    }
}

/// The characters of `v` with whitespace removed at both ends.
pub(crate) fn trim_chars(v: &Vec<char>) -> (r: Vec<char>)
    ensures
        r@ == trim_spec(v@),
{
    let n: usize = v.len();
    let mut lo: usize = 0;
    while lo < n && (v[lo] == ' ' || v[lo] == '\t' || v[lo] == '\r' || v[lo] == '\n')
        invariant
            n == v@.len(),
            lo <= n,
            forall|i: int| 0 <= i < lo ==> is_space(v@[i]),
        decreases n - lo,
    {
        lo += 1;
    }
    proof {
        lemma_trim_start_skip(v@, lo as int);
        if lo < n {
            assert(v@.skip(lo as int)[0] == v@[lo as int]);
        }
        assert(trim_start(v@) == v@.skip(lo as int));
    }
    let mut hi: usize = n;
    while hi > lo && (v[hi - 1] == ' ' || v[hi - 1] == '\t' || v[hi - 1] == '\r' || v[hi - 1]
        == '\n')
        invariant
            n == v@.len(),
            lo <= hi <= n,
            forall|i: int| hi <= i < n ==> is_space(v@[i]),
        decreases hi,
    {
        hi -= 1;
    }
    let ghost u: Seq<char> = v@.skip(lo as int);
    let ghost m: int = hi - lo;
    proof {
        assert(forall|i: int| m <= i < u.len() ==> is_space(u[i]));
        lemma_trim_end_take(u, m);
        if hi > lo {
            assert(u.take(m)[m - 1] == v@[hi - 1]);
            assert(u.take(m).last() == v@[hi - 1]);
        }
        assert(trim_end(u.take(m)) == u.take(m));
        assert(u.take(m) =~= v@.subrange(lo as int, hi as int));
    }
    let mut r: Vec<char> = Vec::new();
    let mut i: usize = lo;
    while i < hi
        invariant
            n == v@.len(),
            lo <= i <= hi <= n,
            r@ == v@.subrange(lo as int, i as int),
        decreases hi - i,
    {
        proof {
            assert(v@.subrange(lo as int, i as int).push(v@[i as int]) =~= v@.subrange(
                lo as int,
                i as int + 1,
            ));
        }
        r.push(v[i]);
        i += 1;
    }
    r
}

/// A decimal digit.
pub open spec fn is_digit(c: char) -> bool {
    48 <= c as u32 && c as u32 <= 57
}

/// The value of one decimal digit.
pub open spec fn digit_value(c: char) -> int {
    c as u32 - 48
}

/// Every character of `s` is a decimal digit.
pub open spec fn all_digits(s: Seq<char>) -> bool {
    forall|i: int| 0 <= i < s.len() ==> is_digit(s[i])
}

/// The number a sequence of decimal digits denotes, most significant first.
pub open spec fn digits_value(s: Seq<char>) -> int
    decreases s.len(),
{
    if s.len() == 0 {
        0
    } else {
        digits_value(s.drop_last()) * 10 + digit_value(s.last())
    }
}

/// A sequence of digits denotes a number that is not negative.
proof fn lemma_digits_value_nonneg(s: Seq<char>)
    requires
        all_digits(s),
    ensures
        digits_value(s) >= 0,
    decreases s.len(),
{
    if s.len() > 0 {
        assert(all_digits(s.drop_last()));
        lemma_digits_value_nonneg(s.drop_last());
    }
}

/// What a menu line picks among `count` templates: the zero-based index, if
/// the trimmed line is a decimal number from one up to `count`; nothing on
/// anything else (empty, non-numeric, zero, negative, or too large).
pub open spec fn spec_selection(line: Seq<char>, count: int) -> Option<int> {
    let t = trim_spec(line);
    if t.len() > 0 && all_digits(t) && 1 <= digits_value(t) && digits_value(t) <= count {
        Some(digits_value(t) - 1)
    } else {
        None
    }
}

/// The zero-based index a menu line picks among `count` templates, if it
/// picks one.
pub fn validate_selection(line: &str, count: usize) -> (r: Option<usize>)
    ensures
        match r {
            Some(i) => spec_selection(line@, count as int) == Some(i as int),
            None => spec_selection(line@, count as int) is None,
        },
{
    let v = string_chars(line);
    let w = trim_chars(&v);
    let n: usize = w.len();
    if n == 0 {
        return None;
    }
    let cap: u128 = count as u128;
    let mut val: u128 = 0;
    let mut i: usize = 0;
    while i < n
        invariant
            n == w@.len(),
            n >= 1,
            i <= n,
            w@ == trim_spec(line@),
            cap == count as int,
            all_digits(w@.take(i as int)),
            digits_value(w@.take(i as int)) <= cap ==> val == digits_value(w@.take(i as int)),
            digits_value(w@.take(i as int)) > cap ==> val == cap + 1,
            val <= cap + 1,
        decreases n - i,
    {
        let c = w[i];
        let cu = c as u32;
        if cu < 48 || cu > 57 {
            return None;
        }
        let d: u128 = (cu - 48) as u128;
        proof {
            let ghost pre = w@.take(i as int);
            assert(w@.take(i as int + 1) =~= pre.push(c));
            assert(pre.push(c).drop_last() =~= pre);
            assert(digits_value(w@.take(i as int + 1)) == digits_value(pre) * 10 + digit_value(c));
            lemma_digits_value_nonneg(pre);
        }
        let next: u128 = val * 10 + d;
        if next > cap {
            val = cap + 1;
        } else {
            val = next;
        }
        i += 1;
    }
    proof {
        assert(w@.take(n as int) =~= w@);
        lemma_digits_value_nonneg(w@);
    }
    if 1 <= val && val <= cap {
        Some((val as usize) - 1)
    } else {
        None
    }
}

/// What a replay line answers: play again on a single `y` or `Y` (after
/// trimming), stop on a single `n` or `N`, and nothing on any other line.
pub open spec fn spec_replay(line: Seq<char>) -> Option<bool> {
    let t = trim_spec(line);
    if t == seq!['y'] || t == seq!['Y'] {
        Some(true)
    } else if t == seq!['n'] || t == seq!['N'] {
        Some(false)
    } else {
        None
    }
}

/// Whether a replay line asks for another round, if it answers the question
/// at all.
pub fn replay_choice(line: &str) -> (r: Option<bool>)
    ensures
        r == spec_replay(line@),
{
    let v = string_chars(line);
    let w = trim_chars(&v);
    if w.len() == 1 {
        let c = w[0];
        proof {
            if c == 'y' {
                assert(w@ =~= seq!['y']);
            }
            if c == 'Y' {
                assert(w@ =~= seq!['Y']);
            }
            if c == 'n' {
                assert(w@ =~= seq!['n']);
            }
            if c == 'N' {
                assert(w@ =~= seq!['N']);
            }
        }
        if c == 'y' || c == 'Y' {
            Some(true)
        } else if c == 'n' || c == 'N' {
            Some(false)
        } else {
            proof {
                assert(w@[0] == c);
            }
            None
        }
    } else {
        None
    }
}

} // verus!
