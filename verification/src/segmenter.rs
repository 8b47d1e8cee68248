//! Word segmentation: splitting an input string into its semantic words.
//!
//! The segmenter scans the input left to right and opens a word boundary at
//! separator characters, at a lowercase-to-uppercase transition, and before
//! the last uppercase letter of an uppercase run that an uppercase-then-
//! lowercase pair ends (the acronym boundary). Digits never open a boundary
//! by themselves. Separators are consumed and never appear in a word.
use vstd::prelude::*;

use crate::is_lower;
use crate::is_upper;
use crate::is_word_char;
use crate::lower_letter;
use crate::upper_letter;
use crate::word_char;

verus! {

/// The scanner's state: the words already closed, in order, and the word
/// still being accumulated (empty right after a separator or at the start).
pub struct SegState {
    pub words: Seq<Seq<char>>,
    pub cur: Seq<char>,
}

/// The state before any character has been read.
pub open spec fn seg_init() -> SegState {
    SegState { words: Seq::empty(), cur: Seq::empty() }
}

/// One step of the scan: how reading `c` transforms the state.
///
/// A separator closes the current word, if any. An uppercase letter after a
/// lowercase one opens a new word at `c`. A lowercase letter after at least
/// two uppercase letters closes the current word before its last character
/// and carries that character into the new word. Every other character, a
/// digit in particular, extends the current word.
pub open spec fn seg_step(st: SegState, c: char) -> SegState {
    if !is_word_char(c) {
        if st.cur.len() == 0 {
            st
        } else {
            SegState { words: st.words.push(st.cur), cur: Seq::empty() }
        }
    } else if is_upper(c) && st.cur.len() > 0 && is_lower(st.cur.last()) {
        SegState { words: st.words.push(st.cur), cur: seq![c] }
    } else if is_lower(c) && st.cur.len() >= 2 && is_upper(st.cur.last()) && is_upper(
        st.cur[st.cur.len() - 2],
    ) {
        SegState { words: st.words.push(st.cur.drop_last()), cur: seq![st.cur.last(), c] }
    } else {
        SegState { words: st.words, cur: st.cur.push(c) }
    }
}

/// The scan of `s`, character by character, starting from `st`.
pub open spec fn seg_fold_from(st: SegState, s: Seq<char>) -> SegState
    decreases s.len(),
{
    if s.len() == 0 {
        st
    } else {
        seg_step(seg_fold_from(st, s.drop_last()), s.last())
    }
}

/// Closing the scan: the unfinished word, if any, becomes the last word.
pub open spec fn seg_finish(st: SegState) -> Seq<Seq<char>> {
    if st.cur.len() == 0 {
        st.words
    } else {
        st.words.push(st.cur)
    }
}

/// The word sequence of an input string. Total and deterministic: every
/// input, empty or all-separator included, has exactly one word sequence.
pub open spec fn segment_spec(s: Seq<char>) -> Seq<Seq<char>> {
    seg_finish(seg_fold_from(seg_init(), s))
}

/// Splits `chars` into words. Separators are dropped; no word is empty.
pub fn segment_chars(chars: &Vec<char>) -> (words: Vec<Vec<char>>)
    ensures
        words.deep_view() == segment_spec(chars@),
{
    let mut words: Vec<Vec<char>> = Vec::new();
    let mut cur: Vec<char> = Vec::new();
    let mut i: usize = 0;
    proof {
        assert(chars@.take(0) =~= Seq::<char>::empty());
        assert(words.deep_view() =~~= Seq::<Seq<char>>::empty());
    }
    while i < chars.len()
        invariant
            i <= chars.len(),
            seg_fold_from(seg_init(), chars@.take(i as int)) == (SegState {
                words: words.deep_view(),
                cur: cur@,
            }),
        decreases chars.len() - i,
    {
        let c = chars[i];
        proof {
            assert(chars@.take(i + 1).drop_last() =~= chars@.take(i as int));
            assert(chars@.take(i + 1).last() == chars@[i as int]);
        }
        let ghost pre_words = words.deep_view();
        let ghost pre_cur = cur@;
        if !word_char(c) {
            if cur.len() > 0 {
                words.push(cur);
                cur = Vec::new();
                proof {
                    assert(words.deep_view() =~~= pre_words.push(pre_cur));
                }
            }
        } else if upper_letter(c) && cur.len() > 0 && lower_letter(cur[cur.len() - 1]) {
            words.push(cur);
            cur = Vec::new();
            cur.push(c);
            proof {
                assert(words.deep_view() =~~= pre_words.push(pre_cur));
                assert(cur@ =~= seq![c]);
            }
        } else if lower_letter(c) && cur.len() >= 2 && upper_letter(cur[cur.len() - 1])
            && upper_letter(cur[cur.len() - 2]) {
            let carried = cur[cur.len() - 1];
            cur.pop();
            words.push(cur);
            cur = Vec::new();
            cur.push(carried);
            cur.push(c);
            proof {
                assert(words.deep_view() =~~= pre_words.push(pre_cur.drop_last()));
                assert(cur@ =~= seq![pre_cur.last(), c]);
            }
        } else {
            cur.push(c);
        }
        i = i + 1;
    }
    proof {
        assert(chars@.take(chars@.len() as int) =~= chars@);
    }
    if cur.len() > 0 {
        let ghost pre_words = words.deep_view();
        let ghost pre_cur = cur@;
        words.push(cur);
        proof {
            assert(words.deep_view() =~~= pre_words.push(pre_cur));
        }
    }
    words
}

} // verus!
