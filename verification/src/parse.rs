//! Scanning a template for its placeholder labels.
//!
//! The scan walks the template left to right with a single piece of state: a
//! flag saying whether the scan is currently inside a `[` ... `]` pair, the
//! characters accumulated for the label being read, and the labels completed
//! so far. An opening bracket turns the flag on (and is never part of a
//! label), a closing bracket while inside flushes the accumulator as one
//! completed label (possibly empty), a closing bracket while outside is
//! ignored, and any other character is accumulated only while inside.

use vstd::prelude::*;
use crate::text::string_chars;
use crate::text::chars_string;
use crate::MadLib;

verus! {

/// Why a template was rejected by the parser.
#[derive(Clone, Copy, Debug, PartialEq, Eq)]
pub enum MadLibsParseError {
    /// The template holds no placeholder at all.
    NoFillInWords,
    /// The template ends while still inside an opening bracket.
    MissingClosingBrackets,
}

/// The parser's state: whether the scan stands inside brackets, the label
/// characters accumulated so far, and the labels completed so far.
pub type ScanState = (bool, Seq<char>, Seq<Seq<char>>);

/// The state before any character has been scanned.
pub open spec fn init_state() -> ScanState {
    (false, Seq::<char>::empty(), Seq::<Seq<char>>::empty())
}

/// One step of the scan: the state after reading `c` in state `st`.
pub open spec fn scan_step(st: ScanState, c: char) -> ScanState {
    if c == '[' {
        (true, st.1, st.2)
    } else if c == ']' {
        if st.0 {
            (false, Seq::<char>::empty(), st.2.push(st.1))
        } else {
            st
        }
    } else {
        if st.0 {
            (true, st.1.push(c), st.2)
        } else {
            st
        }
    }
}

/// The state after scanning all of `s`, starting from `st`.
pub open spec fn scan_seq(st: ScanState, s: Seq<char>) -> ScanState
    decreases s.len(),
{
    if s.len() == 0 {
        st
    } else {
        scan_seq(scan_step(st, s[0]), s.drop_first())
    }
}

/// Scanning a concatenation scans its parts in turn.
pub proof fn lemma_scan_seq_concat(st: ScanState, a: Seq<char>, b: Seq<char>)
    ensures
        scan_seq(st, a + b) == scan_seq(scan_seq(st, a), b),
    decreases a.len(),
{
    if a.len() == 0 {
        assert(a + b =~= b);
    } else {
        assert((a + b).drop_first() =~= a.drop_first() + b);
        assert((a + b)[0] == a[0]);
        lemma_scan_seq_concat(scan_step(st, a[0]), a.drop_first(), b);
    }
}

/// The ordered placeholder labels of a template.
pub open spec fn spec_labels(t: Seq<char>) -> Seq<Seq<char>> {
    scan_seq(init_state(), t).2
}

/// Whether a template ends inside an unclosed bracket.
pub open spec fn spec_unclosed(t: Seq<char>) -> bool {
    scan_seq(init_state(), t).0
}

/// What parsing a template yields: its ordered labels, or the error that
/// rejects it. An unclosed bracket is reported before the absence of labels.
pub open spec fn spec_parse(t: Seq<char>) -> Result<Seq<Seq<char>>, MadLibsParseError> {
    if spec_unclosed(t) {
        Err(MadLibsParseError::MissingClosingBrackets)
    } else if spec_labels(t).len() == 0 {
        Err(MadLibsParseError::NoFillInWords)
    } else {
        Ok(spec_labels(t))
    }
}

impl MadLib {
    /// Scan the template for its placeholder labels. On success the labels
    /// stand in `fill_in_words`, in order of discovery; on failure the game
    /// is left as it was and the parse error says why.
    pub fn parse_mad_lib(&mut self) -> (res: Result<(), MadLibsParseError>)
        ensures
            final(self).mad_lib@ == old(self).mad_lib@,
            final(self).filled_in_words@ == old(self).filled_in_words@,
            match res {
                Ok(_) => spec_parse(old(self).mad_lib@) == Ok::<Seq<Seq<char>>, MadLibsParseError>(
                    final(self).fill_in_words.deep_view(),
                ),
                Err(e) => spec_parse(old(self).mad_lib@) == Err::<Seq<Seq<char>>, MadLibsParseError>(
                    e,
                ) && final(self).fill_in_words@ == old(self).fill_in_words@,
            },
    {
        let chars = string_chars(self.mad_lib.as_str());
        let n: usize = chars.len();
        let mut is_in_brackets: bool = false;
        let mut current_word: Vec<char> = Vec::new();
        let mut words: Vec<String> = Vec::new();
        let mut i: usize = 0;
        proof {
            assert(chars@.take(0) =~= Seq::<char>::empty());
            assert(words.deep_view() =~~= init_state().2);
        }
        while i < n
            invariant
                chars@ == self.mad_lib@,
                n == chars@.len(),
                i <= n,
                scan_seq(init_state(), chars@.take(i as int)) == (
                    is_in_brackets,
                    current_word@,
                    words.deep_view(),
                ),
            decreases n - i,
        {
            let c = chars[i];
            proof {
                let ghost st = scan_seq(init_state(), chars@.take(i as int));
                assert(chars@.take(i as int + 1) =~= chars@.take(i as int) + seq![c]);
                lemma_scan_seq_concat(init_state(), chars@.take(i as int), seq![c]);
                assert(seq![c].drop_first() =~= Seq::<char>::empty());
                assert(scan_seq(scan_step(st, c), Seq::<char>::empty()) == scan_step(st, c));
                assert(scan_seq(st, seq![c]) == scan_step(st, c));
            }
            if c == '[' {
                is_in_brackets = true;
            } else if c == ']' {
                if is_in_brackets {
                    is_in_brackets = false;
                    let ghost old_words = words.deep_view();
                    words.push(chars_string(&current_word));
                    current_word = Vec::new();
                    proof {
                        assert(words.deep_view() =~~= old_words.push(
                            scan_seq(init_state(), chars@.take(i as int)).1,
                        ));
                    }
                }
            } else {
                if is_in_brackets {
                    current_word.push(c);
                }
            }
            i += 1;
        }
        proof {
            assert(chars@.take(n as int) =~= chars@);
        }
        if is_in_brackets {
            return Err(MadLibsParseError::MissingClosingBrackets);
        }
        if words.len() == 0 {
            return Err(MadLibsParseError::NoFillInWords);
        }
        self.fill_in_words = words;
        Ok(())
    }
}

} // verus!
