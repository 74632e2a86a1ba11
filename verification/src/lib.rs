//! A fill-in-the-blanks word game engine.
//!
//! A template is a piece of text with placeholders written between `[` and
//! `]`. The library scans a template for its ordered placeholder labels,
//! records one reply per label, and renders the completed text by replacing
//! each placeholder marker with its reply, left to right. Empty replies are
//! rendered as a fixed sentinel text. Everything here is pure text
//! processing; prompting and file handling live with the caller.

use vstd::prelude::*;

pub mod input;
pub mod laws;
pub mod parse;
pub mod render;
pub mod text;

verus! {

/// One play-through of the game: the raw template text, the ordered
/// placeholder labels found in it, and the replies collected for them.
pub struct MadLib {
    /// The raw template text.
    pub mad_lib: String,
    /// The placeholder labels, in order of discovery.
    pub fill_in_words: Vec<String>,
    /// The replies, aligned by position with `fill_in_words`.
    pub filled_in_words: Vec<String>,
}

impl MadLib {
    /// A fresh game around one raw template text, with no labels or replies yet.
    pub fn new(text: String) -> (m: MadLib)
        ensures
            m.mad_lib@ == text@,
            m.fill_in_words@.len() == 0,
            m.filled_in_words@.len() == 0,
    {
        MadLib { mad_lib: text, fill_in_words: Vec::new(), filled_in_words: Vec::new() }
    }

    /// Record one reply as typed: exactly the trailing line terminator is
    /// removed, and the rest (possibly empty) is appended in label order.
    pub fn add_reply(&mut self, line: &str)
        ensures
            final(self).mad_lib@ == old(self).mad_lib@,
            final(self).fill_in_words@ == old(self).fill_in_words@,
            final(self).filled_in_words.deep_view() == old(self).filled_in_words.deep_view().push(
                crate::input::strip_line_ending(line@),
            ),
    {
        let reply = crate::input::strip_line(line);
        self.filled_in_words.push(reply);
        proof {
            assert(self.filled_in_words.deep_view() =~~= old(
                self,
            ).filled_in_words.deep_view().push(crate::input::strip_line_ending(line@)));
        }
    }
}

} // verus!
