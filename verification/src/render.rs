//! Substituting replies into a template.
//!
//! For each label in order, the renderer builds the marker text
//! `[` label `]` and replaces its first remaining occurrence in the working
//! text with the matching reply; an empty reply is rendered as the sentinel
//! text instead. Replacement is driven by the label's text, so two
//! placeholders with the same label are consumed left to right, one per
//! reply.

use vstd::prelude::*;
use vstd::string::*;
use crate::text::string_chars;
use crate::text::chars_string;
use crate::text::replace_first;
use crate::text::replace_first_in;
use crate::MadLib;

verus! {

/// The text substituted for an empty reply.
pub open spec fn sentinel() -> Seq<char> {
    "Word Not Entered"@
}

/// The text actually substituted for a reply: the reply itself, or the
/// sentinel where the reply is empty.
pub open spec fn effective_reply(r: Seq<char>) -> Seq<char> {
    if r.len() == 0 {
        sentinel()
    } else {
        r
    }
}

/// The marker text a label stands under in the template: `[` label `]`.
pub open spec fn marker(label: Seq<char>) -> Seq<char> {
    seq!['['] + label + seq![']']
}

/// The rendered text: for each position in order, the first remaining
/// occurrence of that label's marker is replaced by the effective reply.
pub open spec fn spec_render(t: Seq<char>, labels: Seq<Seq<char>>, replies: Seq<Seq<char>>) -> Seq<
    char,
>
    decreases labels.len(),
{
    if labels.len() == 0 || replies.len() == 0 {
        t
    } else {
        spec_render(
            replace_first(t, marker(labels[0]), effective_reply(replies[0])),
            labels.skip(1),
            replies.skip(1),
        )
    }
}

/// The marker text of one label, as characters.
fn marker_chars(label: &str) -> (p: Vec<char>)
    ensures
        p@ == marker(label@),
{
    let mut p: Vec<char> = Vec::new();
    p.push('[');
    let lc = string_chars(label);
    let n: usize = lc.len();
    let mut j: usize = 0;
    while j < n
        invariant
            n == lc@.len(),
            j <= n,
            p@ == seq!['['] + lc@.take(j as int),
        decreases n - j,
    {
        proof {
            assert((seq!['['] + lc@.take(j as int)).push(lc@[j as int]) =~= seq!['[']
                + lc@.take(j as int + 1));
        }
        p.push(lc[j]);
        j += 1;
    }
    p.push(']');
    proof {
        assert(lc@.take(n as int) =~= lc@);
        assert((seq!['['] + label@).push(']') =~= marker(label@));
    }
    p
}

impl MadLib {
    /// The completed text: each label's marker replaced, in label order, by
    /// the matching reply, with the sentinel standing in for empty replies.
    /// The game itself is left untouched.
    pub fn render_mad_lib(&self) -> (r: String)
        requires
            self.fill_in_words@.len() == self.filled_in_words@.len(),
        ensures
            r@ == spec_render(
                self.mad_lib@,
                self.fill_in_words.deep_view(),
                self.filled_in_words.deep_view(),
            ),
    {
        let ghost all_labels = self.fill_in_words.deep_view();
        let ghost all_replies = self.filled_in_words.deep_view();
        let mut work = string_chars(self.mad_lib.as_str());
        let n: usize = self.fill_in_words.len();
        let mut i: usize = 0;
        proof {
            assert(all_labels.skip(0) =~~= all_labels);
            assert(all_replies.skip(0) =~~= all_replies);
        }
        while i < n
            invariant
                n == self.fill_in_words@.len(),
                n == self.filled_in_words@.len(),
                i <= n,
                all_labels == self.fill_in_words.deep_view(),
                all_replies == self.filled_in_words.deep_view(),
                spec_render(self.mad_lib@, all_labels, all_replies) == spec_render(
                    work@,
                    all_labels.skip(i as int),
                    all_replies.skip(i as int),
                ),
            decreases n - i,
        {
            let pat = marker_chars(self.fill_in_words[i].as_str());
            let reply: &String = &self.filled_in_words[i];
            let rep: Vec<char> = if reply.as_str().unicode_len() == 0 {
                string_chars("Word Not Entered")
            } else {
                string_chars(reply.as_str())
            };
            proof {
                assert(all_labels.skip(i as int)[0] == all_labels[i as int]);
                assert(all_replies.skip(i as int)[0] == all_replies[i as int]);
                assert(rep@ == effective_reply(all_replies[i as int]));
                assert(all_labels.skip(i as int).skip(1) =~~= all_labels.skip(i as int + 1));
                assert(all_replies.skip(i as int).skip(1) =~~= all_replies.skip(i as int + 1));
            }
            work = replace_first_in(&work, &pat, &rep);
            i += 1;
        }
        proof {
            assert(spec_render(work@, all_labels.skip(n as int), all_replies.skip(n as int))
                == work@);
        }
        chars_string(&work)
    }
}

} // verus!
