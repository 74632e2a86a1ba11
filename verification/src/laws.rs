//! The engine's laws: facts that tie the parser and the renderer together.
//!
//! A well-formed template is pictured here as a weave: fixed text segments
//! alternating with placeholder markers. Scanning such a weave yields exactly
//! its labels, and rendering it with one reply per label substitutes every
//! reply into its own place, in order, leaving no marker behind.

use vstd::prelude::*;
use crate::text::first_occurrence;
use crate::text::replace_first;
use crate::text::open_free;
use crate::text::bracket_free;
use crate::text::lemma_no_occurrence;
use crate::text::lemma_first_occurrence_at;
use crate::render::marker;
use crate::render::effective_reply;
use crate::render::spec_render;
use crate::parse::ScanState;
use crate::parse::init_state;
use crate::parse::scan_step;
use crate::parse::scan_seq;
use crate::parse::lemma_scan_seq_concat;
use crate::parse::spec_labels;
use crate::parse::spec_unclosed;
use crate::parse::spec_parse;
use crate::parse::MadLibsParseError;

verus! {

/// The replies as the renderer uses them: every empty reply replaced by the
/// sentinel text, every other reply kept as it is.
pub open spec fn with_sentinels(replies: Seq<Seq<char>>) -> Seq<Seq<char>> {
    replies.map(|i: int, r: Seq<char>| effective_reply(r))
}

/// An empty reply is rendered as the sentinel text and a non-empty reply as
/// itself: rendering with the raw replies and rendering with every empty
/// reply already replaced by the sentinel give the same text.
pub proof fn lemma_empty_reply_sentinel(
    t: Seq<char>,
    labels: Seq<Seq<char>>,
    replies: Seq<Seq<char>>,
)
    requires
        labels.len() == replies.len(),
    ensures
        spec_render(t, labels, with_sentinels(replies)) == spec_render(t, labels, replies),
    decreases labels.len(),
{
    reveal_strlit("Word Not Entered");
    if labels.len() == 0 {
    } else {
        assert(effective_reply(with_sentinels(replies)[0]) == effective_reply(replies[0]));
        assert(with_sentinels(replies).skip(1) =~~= with_sentinels(replies.skip(1)));
        lemma_empty_reply_sentinel(
            replace_first(t, marker(labels[0]), effective_reply(replies[0])),
            labels.skip(1),
            replies.skip(1),
        );
    }
}

/// Parsing reads nothing but the template's text: templates with equal text
/// yield equal results, labels and errors alike.
pub proof fn lemma_parse_deterministic(t1: Seq<char>, t2: Seq<char>)
    requires
        t1 == t2,
    ensures
        spec_parse(t1) == spec_parse(t2),
{
}

/// Fixed text segments alternating with the given middle pieces: the segment
/// sequence is one longer, and the pieces sit between its entries.
pub open spec fn weave(segs: Seq<Seq<char>>, mids: Seq<Seq<char>>) -> Seq<char>
    decreases mids.len(),
{
    if segs.len() == 0 {
        Seq::<char>::empty()
    } else if mids.len() == 0 {
        segs[0]
    } else {
        segs[0] + mids[0] + weave(segs.skip(1), mids.skip(1))
    }
}

/// The marker text of each label, in order.
pub open spec fn markers_of(labels: Seq<Seq<char>>) -> Seq<Seq<char>> {
    labels.map(|i: int, l: Seq<char>| marker(l))
}

/// No opening bracket in any of the pieces.
pub open spec fn all_open_free(parts: Seq<Seq<char>>) -> bool {
    forall|i: int| 0 <= i < parts.len() ==> open_free(parts[i])
}

/// No bracket of either kind in any of the pieces.
pub open spec fn all_bracket_free(parts: Seq<Seq<char>>) -> bool {
    forall|i: int| 0 <= i < parts.len() ==> bracket_free(parts[i])
}

/// None of the pieces is empty.
pub open spec fn all_nonempty(parts: Seq<Seq<char>>) -> bool {
    forall|i: int| 0 <= i < parts.len() ==> parts[i].len() > 0
}

/// Concatenation keeps text free of opening brackets.
proof fn lemma_open_free_concat(a: Seq<char>, b: Seq<char>)
    requires
        open_free(a),
        open_free(b),
    ensures
        open_free(a + b),
{
    assert forall|i: int| 0 <= i < (a + b).len() implies (a + b)[i] != '[' by {
        if i < a.len() {
            assert((a + b)[i] == a[i]);
        } else {
            assert((a + b)[i] == b[i - a.len()]);
        }
    }
}

/// A weave of pieces free of opening brackets is itself free of them.
proof fn lemma_weave_open_free(segs: Seq<Seq<char>>, mids: Seq<Seq<char>>)
    requires
        segs.len() == mids.len() + 1,
        all_open_free(segs),
        all_open_free(mids),
    ensures
        open_free(weave(segs, mids)),
    decreases mids.len(),
{
    if mids.len() == 0 {
        assert(open_free(segs[0]));
    } else {
        assert(all_open_free(segs.skip(1))) by {
            assert(forall|i: int|
                0 <= i < segs.skip(1).len() ==> segs.skip(1)[i] == segs[i + 1]);
        }
        assert(all_open_free(mids.skip(1))) by {
            assert(forall|i: int|
                0 <= i < mids.skip(1).len() ==> mids.skip(1)[i] == mids[i + 1]);
        }
        lemma_weave_open_free(segs.skip(1), mids.skip(1));
        lemma_open_free_concat(segs[0], mids[0]);
        lemma_open_free_concat(segs[0] + mids[0], weave(segs.skip(1), mids.skip(1)));
    }
}

/// Text glued onto the first segment moves out of the weave unchanged.
proof fn lemma_weave_merge(a: Seq<char>, segs: Seq<Seq<char>>, mids: Seq<Seq<char>>)
    requires
        segs.len() == mids.len() + 1,
    ensures
        weave(segs.update(0, a + segs[0]), mids) == a + weave(segs, mids),
{
    let segs2 = segs.update(0, a + segs[0]);
    assert(segs2[0] == a + segs[0]);
    if mids.len() == 0 {
        assert(weave(segs2, mids) == a + segs[0]);
    } else {
        assert(segs2.skip(1) =~~= segs.skip(1));
        assert((a + segs[0]) + mids[0] + weave(segs.skip(1), mids.skip(1)) =~= a + (segs[0]
            + mids[0] + weave(segs.skip(1), mids.skip(1))));
    }
}

/// Rendering a well-formed template consumes each placeholder marker in
/// order and puts each reply in its own place: the result is the template's
/// fixed text woven with the replies, and no label's marker remains in it.
/// The template is pictured as its fixed text segments (free of opening
/// brackets) woven with the markers of its labels (free of brackets); the
/// replies must be non-empty and free of opening brackets.
pub proof fn lemma_round_trip(segs: Seq<Seq<char>>, labels: Seq<Seq<char>>, replies: Seq<Seq<char>>)
    requires
        segs.len() == labels.len() + 1,
        replies.len() == labels.len(),
        all_open_free(segs),
        all_bracket_free(labels),
        all_open_free(replies),
        all_nonempty(replies),
    ensures
        spec_render(weave(segs, markers_of(labels)), labels, replies) == weave(segs, replies),
        open_free(weave(segs, replies)),
        forall|k: int|
            0 <= k < labels.len() ==> first_occurrence(
                weave(segs, replies),
                #[trigger] marker(labels[k]),
            ) is None,
    decreases labels.len(),
{
    lemma_weave_open_free(segs, replies);
    assert forall|k: int| 0 <= k < labels.len() implies first_occurrence(
        weave(segs, replies),
        #[trigger] marker(labels[k]),
    ) is None by {
        assert(marker(labels[k])[0] == (seq!['['] + labels[k])[0]);
        assert((seq!['['] + labels[k])[0] == '[');
        lemma_no_occurrence(weave(segs, replies), marker(labels[k]));
    }
    if labels.len() == 0 {
        assert(markers_of(labels).len() == 0);
    } else {
        let t = weave(segs, markers_of(labels));
        let fixed = segs[0];
        let pat = marker(labels[0]);
        let rest = weave(segs.skip(1), markers_of(labels).skip(1));
        assert(markers_of(labels)[0] == pat);
        assert(t == fixed + pat + rest);
        assert(pat[0] == (seq!['['] + labels[0])[0]);
        assert((seq!['['] + labels[0])[0] == '[');
        // the current marker matches right after the first fixed segment,
        // and nothing in that segment can open a match
        assert forall|j: int| 0 <= j < pat.len() implies t[fixed.len() + j] == pat[j] by {
            assert((fixed + pat)[fixed.len() + j] == pat[j]);
            assert(t[fixed.len() + j] == (fixed + pat)[fixed.len() + j]);
        }
        assert(t.subrange(fixed.len() as int, (fixed.len() + pat.len()) as int) =~= pat);
        assert(open_free(fixed));
        assert forall|i: int| 0 <= i < fixed.len() implies t[i] != pat[0] by {
            assert((fixed + pat)[i] == fixed[i]);
            assert(t[i] == (fixed + pat)[i]);
        }
        lemma_first_occurrence_at(t, pat, fixed.len() as int);
        let rep = effective_reply(replies[0]);
        assert(rep == replies[0]);
        let w1 = replace_first(t, pat, rep);
        assert(w1 == t.subrange(0, fixed.len() as int) + rep + t.subrange((fixed.len() + pat.len()) as int, t.len() as int));
        assert(t.subrange(0, fixed.len() as int) =~= fixed);
        assert forall|j: int| 0 <= j < rest.len() implies t[fixed.len() + pat.len() + j]
            == rest[j] by {
            assert(t[(fixed + pat).len() + j] == rest[j]);
        }
        assert(t.subrange((fixed.len() + pat.len()) as int, t.len() as int) =~= rest);
        assert(w1 == fixed + rep + rest);
        // set up the smaller weave: the consumed marker's reply is glued
        // between the first two fixed segments
        let segs1 = segs.skip(1);
        let segs2 = segs1.update(0, (fixed + rep) + segs1[0]);
        assert(forall|i: int| 0 <= i < segs1.len() ==> segs1[i] == segs[i + 1]);
        assert(forall|i: int|
            0 <= i < labels.skip(1).len() ==> labels.skip(1)[i] == labels[i + 1]);
        assert(forall|i: int|
            0 <= i < replies.skip(1).len() ==> replies.skip(1)[i] == replies[i + 1]);
        assert(all_open_free(segs2)) by {
            lemma_open_free_concat(fixed, rep);
            lemma_open_free_concat(fixed + rep, segs1[0]);
            assert(forall|i: int| 1 <= i < segs2.len() ==> segs2[i] == segs[i + 1]);
        }
        assert(markers_of(labels).skip(1) =~~= markers_of(labels.skip(1)));
        lemma_weave_merge(fixed + rep, segs1, markers_of(labels.skip(1)));
        assert(weave(segs2, markers_of(labels.skip(1))) == (fixed + rep) + weave(
            segs1,
            markers_of(labels.skip(1)),
        ));
        assert((fixed + rep) + rest =~= fixed + rep + rest);
        assert(weave(segs2, markers_of(labels.skip(1))) == w1);
        lemma_round_trip(segs2, labels.skip(1), replies.skip(1));
        assert(spec_render(w1, labels.skip(1), replies.skip(1)) == weave(segs2, replies.skip(1)));
        assert(spec_render(t, labels, replies) == spec_render(
            w1,
            labels.skip(1),
            replies.skip(1),
        ));
        lemma_weave_merge(fixed + rep, segs1, replies.skip(1));
        assert(weave(segs2, replies.skip(1)) == (fixed + rep) + weave(segs1, replies.skip(1)));
        assert(weave(segs, replies) == fixed + replies[0] + weave(segs1, replies.skip(1)));
        assert((fixed + rep) + weave(segs1, replies.skip(1)) =~= fixed + rep + weave(
            segs1,
            replies.skip(1),
        ));
    }
}

/// Scanning one character takes one step.
proof fn lemma_scan_one(st: ScanState, c: char)
    ensures
        scan_seq(st, seq![c]) == scan_step(st, c),
{
    assert(seq![c].drop_first() =~= Seq::<char>::empty());
    assert(scan_seq(scan_step(st, c), Seq::<char>::empty()) == scan_step(st, c));
    assert(seq![c][0] == c);
}

/// Outside brackets, text free of opening brackets moves the scan nowhere.
proof fn lemma_scan_outside(st: ScanState, s: Seq<char>)
    requires
        !st.0,
        open_free(s),
    ensures
        scan_seq(st, s) == st,
    decreases s.len(),
{
    if s.len() == 0 {
    } else {
        assert(s[0] != '[');
        assert(scan_step(st, s[0]) == st);
        assert(open_free(s.drop_first())) by {
            assert(forall|i: int|
                0 <= i < s.drop_first().len() ==> s.drop_first()[i] == s[i + 1]);
        }
        lemma_scan_outside(st, s.drop_first());
    }
}

/// Inside brackets, bracket-free text is accumulated character by character.
proof fn lemma_scan_label_chars(st: ScanState, l: Seq<char>)
    requires
        st.0,
        bracket_free(l),
    ensures
        scan_seq(st, l).0,
        scan_seq(st, l).1 == st.1 + l,
        scan_seq(st, l).2 == st.2,
    decreases l.len(),
{
    if l.len() == 0 {
        assert(st.1 + l =~= st.1);
    } else {
        let c = l[0];
        assert(c != '[' && c != ']');
        let st1 = scan_step(st, c);
        assert(st1 == (true, st.1.push(c), st.2));
        assert(bracket_free(l.drop_first())) by {
            assert(forall|i: int|
                0 <= i < l.drop_first().len() ==> l.drop_first()[i] == l[i + 1]);
        }
        lemma_scan_label_chars(st1, l.drop_first());
        assert(st.1.push(c) + l.drop_first() =~= st.1 + l);
    }
}

/// Outside brackets with an empty accumulator, a whole marker completes
/// exactly its label.
proof fn lemma_scan_marker(st: ScanState, l: Seq<char>)
    requires
        !st.0,
        st.1 == Seq::<char>::empty(),
        bracket_free(l),
    ensures
        !scan_seq(st, marker(l)).0,
        scan_seq(st, marker(l)).1 == Seq::<char>::empty(),
        scan_seq(st, marker(l)).2 == st.2.push(l),
{
    lemma_scan_seq_concat(st, seq!['['] + l, seq![']']);
    lemma_scan_seq_concat(st, seq!['['], l);
    lemma_scan_one(st, '[');
    let st1 = scan_step(st, '[');
    assert(st1 == (true, st.1, st.2));
    lemma_scan_label_chars(st1, l);
    let st2 = scan_seq(st1, l);
    assert(st2.1 =~= l);
    lemma_scan_one(st2, ']');
    assert(scan_step(st2, ']') == (false, Seq::<char>::empty(), st.2.push(st2.1)));
    assert(marker(l) == (seq!['['] + l) + seq![']']);
}

/// Scanning a weave of fixed text and markers completes exactly the labels,
/// in order, and ends outside brackets with an empty accumulator.
proof fn lemma_scan_weave(st: ScanState, segs: Seq<Seq<char>>, labels: Seq<Seq<char>>)
    requires
        !st.0,
        st.1 == Seq::<char>::empty(),
        segs.len() == labels.len() + 1,
        all_open_free(segs),
        all_bracket_free(labels),
    ensures
        !scan_seq(st, weave(segs, markers_of(labels))).0,
        scan_seq(st, weave(segs, markers_of(labels))).1 == Seq::<char>::empty(),
        scan_seq(st, weave(segs, markers_of(labels))).2 == st.2 + labels,
    decreases labels.len(),
{
    if labels.len() == 0 {
        assert(markers_of(labels).len() == 0);
        assert(weave(segs, markers_of(labels)) == segs[0]);
        lemma_scan_outside(st, segs[0]);
        assert(st.2 + labels =~~= st.2);
    } else {
        let t = weave(segs, markers_of(labels));
        assert(markers_of(labels)[0] == marker(labels[0]));
        let rest = weave(segs.skip(1), markers_of(labels).skip(1));
        assert(t == segs[0] + marker(labels[0]) + rest);
        lemma_scan_seq_concat(st, segs[0] + marker(labels[0]), rest);
        lemma_scan_seq_concat(st, segs[0], marker(labels[0]));
        lemma_scan_outside(st, segs[0]);
        lemma_scan_marker(st, labels[0]);
        let st2 = scan_seq(st, segs[0] + marker(labels[0]));
        assert(st2 == scan_seq(st, marker(labels[0])));
        assert(forall|i: int| 0 <= i < segs.skip(1).len() ==> segs.skip(1)[i] == segs[i + 1]);
        assert(forall|i: int|
            0 <= i < labels.skip(1).len() ==> labels.skip(1)[i] == labels[i + 1]);
        lemma_scan_weave(st2, segs.skip(1), labels.skip(1));
        assert(markers_of(labels).skip(1) =~~= markers_of(labels.skip(1)));
        assert(rest == weave(segs.skip(1), markers_of(labels.skip(1))));
        assert(st.2.push(labels[0]) + labels.skip(1) =~~= st.2 + labels);
    }
}

/// A well-formed template parses to exactly its own labels: fixed text free
/// of opening brackets woven with the markers of bracket-free labels, at
/// least one, is accepted, and the labels come back in order.
pub proof fn lemma_parse_weave(segs: Seq<Seq<char>>, labels: Seq<Seq<char>>)
    requires
        segs.len() == labels.len() + 1,
        labels.len() > 0,
        all_open_free(segs),
        all_bracket_free(labels),
    ensures
        spec_parse(weave(segs, markers_of(labels))) == Ok::<Seq<Seq<char>>, MadLibsParseError>(
            labels,
        ),
{
    lemma_scan_weave(init_state(), segs, labels);
    let t = weave(segs, markers_of(labels));
    assert(spec_labels(t) == Seq::<Seq<char>>::empty() + labels);
    assert(Seq::<Seq<char>>::empty() + labels =~~= labels);
    assert(!spec_unclosed(t));
}

/// Brackets never reach the scan's accumulator or its completed labels.
proof fn lemma_scan_bracket_free(st: ScanState, s: Seq<char>)
    requires
        bracket_free(st.1),
        all_bracket_free(st.2),
    ensures
        bracket_free(scan_seq(st, s).1),
        all_bracket_free(scan_seq(st, s).2),
    decreases s.len(),
{
    if s.len() == 0 {
    } else {
        let c = s[0];
        let st1 = scan_step(st, c);
        assert(bracket_free(st1.1) && all_bracket_free(st1.2)) by {
            if c == ']' && st.0 {
                assert(forall|i: int|
                    0 <= i < st.2.push(st.1).len() ==> st.2.push(st.1)[i] == (if i < st.2.len() {
                        st.2[i]
                    } else {
                        st.1
                    }));
            } else if c != '[' && c != ']' && st.0 {
                assert(forall|i: int|
                    0 <= i < st.1.push(c).len() ==> st.1.push(c)[i] == (if i < st.1.len() {
                        st.1[i]
                    } else {
                        c
                    }));
            }
        }
        lemma_scan_bracket_free(st1, s.drop_first());
    }
}

/// Whatever the template, every label the parser finds is free of brackets:
/// an opening bracket is never taken into a label, and a closing bracket
/// always ends one.
pub proof fn lemma_labels_bracket_free(t: Seq<char>)
    ensures
        all_bracket_free(spec_labels(t)),
{
    lemma_scan_bracket_free(init_state(), t);
}

} // verus!
