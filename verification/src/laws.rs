//! The engine's laws: facts that hold of segmentation and rendering for
//! every input, stated over the spec model and proved once and for all.
use vstd::prelude::*;

use crate::is_digit;
use crate::is_lower;
use crate::is_upper;
use crate::is_word_char;
use crate::renderer::capitalize_word;
use crate::renderer::convert_spec;
use crate::renderer::first_case;
use crate::renderer::lower_word;
use crate::renderer::render_spec;
use crate::renderer::sep_seq;
use crate::renderer::upper_word;
use crate::renderer::word_with_case;
use crate::renderer::StyleDescriptor;
use crate::renderer::WordCase;
use crate::segmenter::seg_finish;
use crate::segmenter::seg_fold_from;
use crate::segmenter::seg_init;
use crate::segmenter::seg_step;
use crate::segmenter::segment_spec;
use crate::segmenter::SegState;
use crate::to_lower;
use crate::to_upper;

verus! {

/// A valid word: non-empty, made of word characters alone — a word never
/// holds a separator.
pub open spec fn wf_word(w: Seq<char>) -> bool {
    w.len() > 0 && forall|i: int| 0 <= i < w.len() ==> is_word_char(w[i])
}

/// Every word of the sequence is a valid word.
pub open spec fn wf_words(ws: Seq<Seq<char>>) -> bool {
    forall|k: int| 0 <= k < ws.len() ==> wf_word(ws[k])
}

/// A scanner state whose closed words are valid and whose open word, if
/// any, holds word characters alone.
pub open spec fn wf_state(st: SegState) -> bool {
    wf_words(st.words) && forall|i: int| 0 <= i < st.cur.len() ==> is_word_char(st.cur[i])
}

/// Case mapping keeps a character's class: lowercasing never yields an
/// uppercase letter, uppercasing never a lowercase one, and both keep word
/// characters word characters and are fixed on already-converted input.
pub proof fn lemma_case_char(c: char)
    ensures
        !is_upper(to_lower(c)),
        !is_lower(to_upper(c)),
        is_word_char(c) ==> is_word_char(to_lower(c)),
        is_word_char(c) ==> is_word_char(to_upper(c)),
        to_lower(to_lower(c)) == to_lower(c),
        to_upper(to_upper(c)) == to_upper(c),
        to_upper(to_lower(c)) == to_upper(c),
        to_lower(to_upper(c)) == to_lower(c),
{
}

/// One scanner step keeps the state valid.
proof fn lemma_step_wf(st: SegState, c: char)
    requires
        wf_state(st),
    ensures
        wf_state(seg_step(st, c)),
{
    let post = seg_step(st, c);
    if !is_word_char(c) {
        if st.cur.len() > 0 {
            assert(wf_words(post.words)) by {
                assert(forall|k: int|
                    0 <= k < st.words.len() ==> post.words[k] == st.words[k]);
            }
        }
    } else if is_upper(c) && st.cur.len() > 0 && is_lower(st.cur.last()) {
        assert(wf_words(post.words)) by {
            assert(forall|k: int| 0 <= k < st.words.len() ==> post.words[k] == st.words[k]);
        }
    } else if is_lower(c) && st.cur.len() >= 2 && is_upper(st.cur.last()) && is_upper(
        st.cur[st.cur.len() - 2],
    ) {
        assert(wf_words(post.words)) by {
            assert(forall|k: int| 0 <= k < st.words.len() ==> post.words[k] == st.words[k]);
            assert(wf_word(st.cur.drop_last()));
        }
    }
}

/// The whole scan keeps the state valid.
proof fn lemma_fold_wf(st: SegState, s: Seq<char>)
    requires
        wf_state(st),
    ensures
        wf_state(seg_fold_from(st, s)),
    decreases s.len(),
{
    if s.len() > 0 {
        lemma_fold_wf(st, s.drop_last());
        lemma_step_wf(seg_fold_from(st, s.drop_last()), s.last());
    }
}

/// Segmentation yields valid words only: none is empty, none holds a
/// separator character.
pub proof fn lemma_segment_words_wf(s: Seq<char>)
    ensures
        wf_words(segment_spec(s)),
{
    lemma_fold_wf(seg_init(), s);
    let st = seg_fold_from(seg_init(), s);
    if st.cur.len() > 0 {
        assert(forall|k: int|
            0 <= k < st.words.len() ==> seg_finish(st)[k] == st.words[k]);
    }
}

/// Empty input segments to no words, and every style renders no words to
/// the empty string. Segmentation and rendering are spec functions, so both
/// are deterministic by construction: equal inputs give equal results.
pub proof fn lemma_empty_input(style: StyleDescriptor)
    ensures
        segment_spec(Seq::<char>::empty()) == Seq::<Seq<char>>::empty(),
        render_spec(Seq::<Seq<char>>::empty(), style) == Seq::<char>::empty(),
{
}

/// After scanning a string that ends in a word character, the open word is
/// non-empty.
proof fn lemma_cur_nonempty_after_word_char(st: SegState, s: Seq<char>)
    requires
        s.len() > 0,
        is_word_char(s.last()),
    ensures
        seg_fold_from(st, s).cur.len() > 0,
{
}

/// The digit-adjacency rule: a digit that follows a word character never
/// starts a new word — the scanner only appends it to the word already
/// open, which is non-empty. (Only at the start of input or right after a
/// separator does a digit open a word.)
pub proof fn lemma_digit_never_starts_word(s: Seq<char>, i: int)
    requires
        0 < i < s.len(),
        is_digit(s[i]),
        is_word_char(s[i - 1]),
    ensures
        ({
            let st = seg_fold_from(seg_init(), s.take(i));
            &&& st.cur.len() > 0
            &&& seg_step(st, s[i]) == (SegState { words: st.words, cur: st.cur.push(s[i]) })
        }),
{
    let pre = s.take(i);
    assert(pre.last() == s[i - 1]);
    lemma_cur_nonempty_after_word_char(seg_init(), pre);
    let st = seg_fold_from(seg_init(), pre);
    assert(!is_upper(s[i]) && !is_lower(s[i]));
}

/// The other half of the digit-adjacency rule: at the start of input or
/// right after a separator no word is open, so a digit there begins a word
/// of its own.
pub proof fn lemma_digit_after_separator_starts_word(s: Seq<char>, i: int)
    requires
        0 <= i < s.len(),
        is_digit(s[i]),
        i == 0 || !is_word_char(s[i - 1]),
    ensures
        ({
            let st = seg_fold_from(seg_init(), s.take(i));
            &&& st.cur.len() == 0
            &&& seg_step(st, s[i]) == (SegState { words: st.words, cur: seq![s[i]] })
        }),
{
    let pre = s.take(i);
    let st = seg_fold_from(seg_init(), pre);
    if i == 0 {
        assert(pre =~= Seq::<char>::empty());
    } else {
        assert(pre.last() == s[i - 1]);
        assert(st == seg_step(seg_fold_from(seg_init(), pre.drop_last()), s[i - 1]));
    }
    assert(!is_upper(s[i]) && !is_lower(s[i]));
    assert(st.cur =~= Seq::<char>::empty());
    assert(st.cur.push(s[i]) =~= seq![s[i]]);
}

/// The words of a sequence, concatenated in order with nothing between.
pub open spec fn concat_words(ws: Seq<Seq<char>>) -> Seq<char>
    decreases ws.len(),
{
    if ws.len() == 0 {
        Seq::empty()
    } else {
        concat_words(ws.drop_last()) + ws.last()
    }
}

/// The word characters of a string, in order, separators dropped.
pub open spec fn word_chars_of(s: Seq<char>) -> Seq<char>
    decreases s.len(),
{
    if s.len() == 0 {
        Seq::empty()
    } else if is_word_char(s.last()) {
        word_chars_of(s.drop_last()).push(s.last())
    } else {
        word_chars_of(s.drop_last())
    }
}

/// Appending one word to the sequence appends its characters.
proof fn lemma_concat_push(ws: Seq<Seq<char>>, w: Seq<char>)
    ensures
        concat_words(ws.push(w)) == concat_words(ws) + w,
{
    assert(ws.push(w).drop_last() =~= ws);
    assert(ws.push(w).last() == w);
}

/// The scan neither drops nor reorders word characters: closed words plus
/// the open word hold exactly the word characters read so far.
proof fn lemma_fold_chars(st: SegState, s: Seq<char>)
    ensures
        concat_words(seg_fold_from(st, s).words) + seg_fold_from(st, s).cur =~= concat_words(
            st.words,
        ) + st.cur + word_chars_of(s),
    decreases s.len(),
{
    if s.len() > 0 {
        lemma_fold_chars(st, s.drop_last());
        let mid = seg_fold_from(st, s.drop_last());
        let post = seg_fold_from(st, s);
        let c = s.last();
        assert(post == seg_step(mid, c));
        if !is_word_char(c) {
            if mid.cur.len() > 0 {
                lemma_concat_push(mid.words, mid.cur);
            }
            assert(concat_words(post.words) + post.cur =~= concat_words(mid.words) + mid.cur);
            assert(word_chars_of(s) == word_chars_of(s.drop_last()));
        } else if is_upper(c) && mid.cur.len() > 0 && is_lower(mid.cur.last()) {
            lemma_concat_push(mid.words, mid.cur);
            assert(concat_words(post.words) + post.cur =~= concat_words(mid.words) + mid.cur.push(
                c,
            ));
            assert(word_chars_of(s) == word_chars_of(s.drop_last()).push(c));
        } else if is_lower(c) && mid.cur.len() >= 2 && is_upper(mid.cur.last()) && is_upper(
            mid.cur[mid.cur.len() - 2],
        ) {
            lemma_concat_push(mid.words, mid.cur.drop_last());
            assert(concat_words(post.words) + post.cur =~= concat_words(mid.words) + mid.cur.push(
                c,
            ));
            assert(word_chars_of(s) == word_chars_of(s.drop_last()).push(c));
        } else {
            assert(concat_words(post.words) + post.cur =~= concat_words(mid.words) + mid.cur.push(
                c,
            ));
            assert(word_chars_of(s) == word_chars_of(s.drop_last()).push(c));
        }
        assert(concat_words(mid.words) + mid.cur =~= concat_words(st.words) + st.cur
            + word_chars_of(s.drop_last()));
        if is_word_char(c) {
            assert(concat_words(mid.words) + mid.cur.push(c) =~= (concat_words(mid.words)
                + mid.cur).push(c));
            assert(concat_words(st.words) + st.cur + word_chars_of(s.drop_last()).push(c) =~= (
            concat_words(st.words) + st.cur + word_chars_of(s.drop_last())).push(c));
        }
        assert(concat_words(post.words) + post.cur =~= concat_words(st.words) + st.cur
            + word_chars_of(s));
    }
}

/// Segmentation conserves characters: the words, concatenated bare, are
/// exactly the input's word characters in input order. Boundaries are only
/// inserted, never moving or dropping an alphanumeric character.
pub proof fn lemma_segment_preserves_characters(s: Seq<char>)
    ensures
        concat_words(segment_spec(s)) =~= word_chars_of(s),
{
    lemma_fold_chars(seg_init(), s);
    let st = seg_fold_from(seg_init(), s);
    if st.cur.len() > 0 {
        lemma_concat_push(st.words, st.cur);
    }
}

/// How often `c` occurs in `s`.
pub open spec fn count_char(s: Seq<char>, c: char) -> nat
    decreases s.len(),
{
    if s.len() == 0 {
        0
    } else if s.last() == c {
        count_char(s.drop_last(), c) + 1
    } else {
        count_char(s.drop_last(), c)
    }
}

proof fn lemma_count_append(a: Seq<char>, b: Seq<char>, c: char)
    ensures
        count_char(a + b, c) == count_char(a, c) + count_char(b, c),
    decreases b.len(),
{
    if b.len() == 0 {
        assert(a + b =~= a);
    } else {
        lemma_count_append(a, b.drop_last(), c);
        assert((a + b).drop_last() =~= a + b.drop_last());
        assert((a + b).last() == b.last());
    }
}

proof fn lemma_count_absent(s: Seq<char>, c: char)
    requires
        forall|i: int| 0 <= i < s.len() ==> s[i] != c,
    ensures
        count_char(s, c) == 0,
    decreases s.len(),
{
    if s.len() > 0 {
        lemma_count_absent(s.drop_last(), c);
    }
}

/// A case transform turns a valid word into a valid word: the length is
/// kept positive and every character stays a word character.
proof fn lemma_transform_wf(w: Seq<char>, wc: WordCase)
    requires
        wf_word(w),
    ensures
        wf_word(word_with_case(w, wc)),
{
    let t = word_with_case(w, wc);
    match wc {
        WordCase::Unchanged => {},
        WordCase::LowerAll => {
            assert forall|i: int| 0 <= i < t.len() implies is_word_char(t[i]) by {
                lemma_case_char(w[i]);
            }
        },
        WordCase::UpperAll => {
            assert forall|i: int| 0 <= i < t.len() implies is_word_char(t[i]) by {
                lemma_case_char(w[i]);
            }
        },
        WordCase::CapitalizeFirst => {
            assert forall|i: int| 0 <= i < t.len() implies is_word_char(t[i]) by {
                if i == 0 {
                    lemma_case_char(w[0]);
                } else {
                    lemma_case_char(w.drop_first()[i - 1]);
                }
            }
        },
    }
}

/// Every character a render produces is a word character or the style's
/// own separator; no other separator can occur.
proof fn lemma_render_chars_class(ws: Seq<Seq<char>>, style: StyleDescriptor, p: char)
    requires
        wf_words(ws),
        style.separator == Option::Some(p),
    ensures
        forall|k: int|
            0 <= k < render_spec(ws, style).len() ==> is_word_char(render_spec(ws, style)[k])
                || render_spec(ws, style)[k] == p,
    decreases ws.len(),
{
    let r = render_spec(ws, style);
    if ws.len() == 0 {
    } else if ws.len() == 1 {
        lemma_transform_wf(ws[0], first_case(style));
    } else {
        assert(wf_words(ws.drop_last())) by {
            assert(forall|k: int| 0 <= k < ws.len() - 1 ==> ws.drop_last()[k] == ws[k]);
        }
        lemma_render_chars_class(ws.drop_last(), style, p);
        lemma_transform_wf(ws.last(), style.word_case);
        let r1 = render_spec(ws.drop_last(), style);
        let tl = word_with_case(ws.last(), style.word_case);
        assert(r == r1 + sep_seq(style) + tl);
        assert forall|k: int| 0 <= k < r.len() implies is_word_char(r[k]) || r[k] == p by {
            if k < r1.len() {
                assert(r[k] == r1[k]);
            } else if k == r1.len() {
                assert(r[k] == p);
            } else {
                assert(r[k] == tl[k - r1.len() - 1]);
            }
        }
    }
}

/// How many separators a render of valid words holds: none for a single
/// word, and exactly one fewer than the number of words otherwise.
proof fn lemma_render_sep_count(ws: Seq<Seq<char>>, style: StyleDescriptor, p: char)
    requires
        wf_words(ws),
        style.separator == Option::Some(p),
        !is_word_char(p),
    ensures
        count_char(render_spec(ws, style), p) == if ws.len() == 0 {
            0nat
        } else {
            (ws.len() - 1) as nat
        },
    decreases ws.len(),
{
    let r = render_spec(ws, style);
    if ws.len() == 0 {
    } else if ws.len() == 1 {
        lemma_transform_wf(ws[0], first_case(style));
        lemma_count_absent(r, p);
    } else {
        assert(wf_words(ws.drop_last())) by {
            assert(forall|k: int| 0 <= k < ws.len() - 1 ==> ws.drop_last()[k] == ws[k]);
        }
        lemma_render_sep_count(ws.drop_last(), style, p);
        lemma_transform_wf(ws.last(), style.word_case);
        let r1 = render_spec(ws.drop_last(), style);
        let tl = word_with_case(ws.last(), style.word_case);
        lemma_count_append(r1, sep_seq(style), p);
        lemma_count_append(r1 + sep_seq(style), tl, p);
        assert(count_char(sep_seq(style), p) == 1) by {
            assert(sep_seq(style) =~= seq![p]);
            assert(seq![p].drop_last() =~= Seq::<char>::empty());
            assert(count_char(Seq::<char>::empty(), p) == 0);
            assert(seq![p].last() == p);
        }
        lemma_count_absent(tl, p);
    }
}

/// A rendered conversion holds no stray separator: every character is a
/// word character or the style's separator, and the separator occurs
/// exactly once between adjacent words — one fewer than there are words.
pub proof fn lemma_render_separator_occurrences(s: Seq<char>, style: StyleDescriptor, p: char)
    requires
        style.separator == Option::Some(p),
        !is_word_char(p),
    ensures
        ({
            let ws = segment_spec(s);
            let r = render_spec(ws, style);
            &&& count_char(r, p) == if ws.len() == 0 {
                0nat
            } else {
                (ws.len() - 1) as nat
            }
            &&& forall|k: int| 0 <= k < r.len() ==> is_word_char(r[k]) || r[k] == p
        }),
{
    lemma_segment_words_wf(s);
    lemma_render_chars_class(segment_spec(s), style, p);
    lemma_render_sep_count(segment_spec(s), style, p);
}

/// No position inside `t` triggers a case boundary: no lowercase-to-
/// uppercase transition and no uppercase run broken by a lowercase letter.
/// The scanner keeps such a sequence as one word.
pub open spec fn no_internal_boundary(t: Seq<char>) -> bool {
    &&& forall|i: int| 1 <= i < t.len() ==> !(is_upper(t[i]) && is_lower(t[i - 1]))
    &&& forall|i: int|
        2 <= i < t.len() ==> !(is_lower(t[i]) && is_upper(t[i - 1]) && is_upper(t[i - 2]))
}

/// Scanning a boundary-free valid word from a flushed state accumulates it
/// whole: no word is closed along the way.
proof fn lemma_fold_smooth_word(ws: Seq<Seq<char>>, t: Seq<char>)
    requires
        wf_word(t),
        no_internal_boundary(t),
    ensures
        seg_fold_from(SegState { words: ws, cur: Seq::empty() }, t) == (SegState {
            words: ws,
            cur: t,
        }),
    decreases t.len(),
{
    let st0 = SegState { words: ws, cur: Seq::<char>::empty() };
    let c = t.last();
    if t.len() == 1 {
        assert(t.drop_last() =~= Seq::<char>::empty());
        assert(seg_fold_from(st0, t.drop_last()) == st0);
        assert(seg_fold_from(st0, t) == seg_step(st0, c));
        assert(Seq::<char>::empty().push(c) =~= t);
    } else {
        let td = t.drop_last();
        assert(wf_word(td)) by {
            assert(forall|i: int| 0 <= i < td.len() ==> td[i] == t[i]);
        }
        assert(no_internal_boundary(td)) by {
            assert(forall|i: int| 0 <= i < td.len() ==> td[i] == t[i]);
        }
        lemma_fold_smooth_word(ws, td);
        assert(seg_fold_from(st0, t) == seg_step(SegState { words: ws, cur: td }, c));
        assert(td.last() == t[t.len() - 2]);
        assert(!(is_upper(c) && is_lower(td.last())));
        if td.len() >= 2 {
            assert(td[td.len() - 2] == t[t.len() - 3]);
            assert(!(is_lower(c) && is_upper(td.last()) && is_upper(td[td.len() - 2])));
        }
        assert(td.push(c) =~= t);
    }
}

/// Scanning a concatenation is scanning the parts in turn.
proof fn lemma_fold_append(st: SegState, a: Seq<char>, b: Seq<char>)
    ensures
        seg_fold_from(st, a + b) == seg_fold_from(seg_fold_from(st, a), b),
    decreases b.len(),
{
    if b.len() == 0 {
        assert(a + b =~= a);
    } else {
        lemma_fold_append(st, a, b.drop_last());
        assert((a + b).drop_last() =~= a + b.drop_last());
        assert((a + b).last() == b.last());
    }
}

/// Each word under the same case transform.
pub open spec fn words_with_case(ws: Seq<Seq<char>>, wc: WordCase) -> Seq<Seq<char>> {
    ws.map_values(|w: Seq<char>| word_with_case(w, wc))
}

/// A uniform case transform of a valid word leaves no internal boundary:
/// lowercasing leaves no uppercase letter, uppercasing no lowercase one,
/// and capitalizing leaves uppercase only in front.
proof fn lemma_transform_smooth(w: Seq<char>, wc: WordCase)
    requires
        wf_word(w),
        !(wc is Unchanged),
    ensures
        wf_word(word_with_case(w, wc)),
        no_internal_boundary(word_with_case(w, wc)),
{
    lemma_transform_wf(w, wc);
    let t = word_with_case(w, wc);
    match wc {
        WordCase::Unchanged => {},
        WordCase::LowerAll => {
            assert forall|i: int| 0 <= i < t.len() implies !is_upper(t[i]) by {
                lemma_case_char(w[i]);
            }
        },
        WordCase::UpperAll => {
            assert forall|i: int| 0 <= i < t.len() implies !is_lower(t[i]) by {
                lemma_case_char(w[i]);
            }
        },
        WordCase::CapitalizeFirst => {
            assert forall|i: int| 1 <= i < t.len() implies !is_upper(t[i]) by {
                lemma_case_char(w.drop_first()[i - 1]);
            }
        },
    }
}

/// Scanning the render of a non-empty word sequence under a separator
/// style ends with all transformed words closed but the last, which is
/// still open.
proof fn lemma_fold_of_render(ws: Seq<Seq<char>>, style: StyleDescriptor, p: char)
    requires
        wf_words(ws),
        ws.len() > 0,
        style.separator == Option::Some(p),
        !is_word_char(p),
        style.first_word_case is None,
        !(style.word_case is Unchanged),
    ensures
        ({
            let m = words_with_case(ws, style.word_case);
            seg_fold_from(seg_init(), render_spec(ws, style)) == (SegState {
                words: m.drop_last(),
                cur: m.last(),
            })
        }),
    decreases ws.len(),
{
    let m = words_with_case(ws, style.word_case);
    if ws.len() == 1 {
        assert(render_spec(ws, style) == word_with_case(ws[0], style.word_case));
        lemma_transform_smooth(ws[0], style.word_case);
        lemma_fold_smooth_word(Seq::<Seq<char>>::empty(), word_with_case(ws[0], style.word_case));
        assert(m.drop_last() =~= Seq::<Seq<char>>::empty());
        assert(m.last() == word_with_case(ws[0], style.word_case));
    } else {
        let wsd = ws.drop_last();
        let md = words_with_case(wsd, style.word_case);
        assert(wf_words(wsd)) by {
            assert(forall|k: int| 0 <= k < wsd.len() ==> wsd[k] == ws[k]);
        }
        lemma_fold_of_render(wsd, style, p);
        let r1 = render_spec(wsd, style);
        let tl = word_with_case(ws.last(), style.word_case);
        assert(render_spec(ws, style) == r1 + sep_seq(style) + tl);
        lemma_fold_append(seg_init(), r1 + sep_seq(style), tl);
        lemma_fold_append(seg_init(), r1, sep_seq(style));
        let st1 = seg_fold_from(seg_init(), r1);
        assert(st1 == (SegState { words: md.drop_last(), cur: md.last() }));
        lemma_transform_smooth(wsd.last(), style.word_case);
        assert(md.last() == word_with_case(wsd.last(), style.word_case));
        assert(md.last().len() > 0);
        let st2 = seg_fold_from(st1, sep_seq(style));
        assert(sep_seq(style) == seq![p]);
        assert(seq![p].drop_last() =~= Seq::<char>::empty());
        assert(seq![p].last() == p);
        assert(seg_fold_from(st1, sep_seq(style).drop_last()) == st1);
        assert(st2 == seg_step(st1, p));
        assert(st2 == (SegState { words: md.drop_last().push(md.last()), cur: Seq::empty() }));
        assert(md.drop_last().push(md.last()) =~= md);
        assert(md =~= m.drop_last()) by {
            assert(forall|k: int| 0 <= k < wsd.len() ==> wsd[k] == ws[k]);
        }
        lemma_transform_smooth(ws.last(), style.word_case);
        lemma_fold_smooth_word(m.drop_last(), tl);
        assert(m.last() == tl);
    }
}

/// Re-segmenting a separator-style render recovers exactly the transformed
/// words: the render's separators are the only boundaries, and the
/// transformed words carry no boundary of their own.
pub proof fn lemma_segment_of_render(ws: Seq<Seq<char>>, style: StyleDescriptor, p: char)
    requires
        wf_words(ws),
        style.separator == Option::Some(p),
        !is_word_char(p),
        style.first_word_case is None,
        !(style.word_case is Unchanged),
    ensures
        segment_spec(render_spec(ws, style)) == words_with_case(ws, style.word_case),
{
    let m = words_with_case(ws, style.word_case);
    if ws.len() == 0 {
        assert(m =~= Seq::<Seq<char>>::empty());
    } else {
        lemma_fold_of_render(ws, style, p);
        lemma_transform_smooth(ws.last(), style.word_case);
        assert(m.last() == word_with_case(ws.last(), style.word_case));
        assert(m.last().len() > 0);
        assert(m.drop_last().push(m.last()) =~= m);
    }
}

/// A case transform is idempotent: transforming a transformed word changes
/// nothing, whatever the word.
proof fn lemma_transform_idempotent(w: Seq<char>, wc: WordCase)
    ensures
        word_with_case(word_with_case(w, wc), wc) == word_with_case(w, wc),
{
    let t = word_with_case(w, wc);
    match wc {
        WordCase::Unchanged => {},
        WordCase::LowerAll => {
            assert(lower_word(t) =~= t) by {
                assert forall|i: int| 0 <= i < t.len() implies to_lower(t[i]) == t[i] by {
                    lemma_case_char(w[i]);
                }
            }
        },
        WordCase::UpperAll => {
            assert(upper_word(t) =~= t) by {
                assert forall|i: int| 0 <= i < t.len() implies to_upper(t[i]) == t[i] by {
                    lemma_case_char(w[i]);
                }
            }
        },
        WordCase::CapitalizeFirst => {
            if w.len() > 0 {
                lemma_case_char(w[0]);
                assert(capitalize_word(t) =~= t) by {
                    assert forall|i: int| 1 <= i < t.len() implies to_lower(t[i]) == t[i] by {
                        lemma_case_char(w.drop_first()[i - 1]);
                        assert(t.drop_first()[i - 1] == t[i]);
                    }
                    assert(to_upper(t[0]) == t[0]);
                    assert forall|i: int| 0 <= i < t.len() implies capitalize_word(t)[i] == t[i]
                        by {
                        if i >= 1 {
                            assert(capitalize_word(t)[i] == to_lower(t.drop_first()[i - 1]));
                            assert(to_lower(t[i]) == t[i]);
                        }
                    }
                }
            }
        },
    }
}

/// Rendering transformed words is rendering the words: the second pass of
/// the same transform changes nothing, word for word.
proof fn lemma_render_transformed(ws: Seq<Seq<char>>, style: StyleDescriptor)
    requires
        style.first_word_case is None,
    ensures
        render_spec(words_with_case(ws, style.word_case), style) == render_spec(ws, style),
    decreases ws.len(),
{
    let m = words_with_case(ws, style.word_case);
    if ws.len() == 0 {
    } else if ws.len() == 1 {
        lemma_transform_idempotent(ws[0], style.word_case);
        assert(render_spec(m, style) == word_with_case(m[0], style.word_case));
    } else {
        lemma_render_transformed(ws.drop_last(), style);
        assert(m.drop_last() =~= words_with_case(ws.drop_last(), style.word_case)) by {
            assert(forall|k: int|
                0 <= k < ws.len() - 1 ==> ws.drop_last()[k] == ws[k]);
        }
        lemma_transform_idempotent(ws.last(), style.word_case);
        assert(m.last() == word_with_case(ws.last(), style.word_case));
        assert(render_spec(m, style) == render_spec(m.drop_last(), style) + sep_seq(style)
            + word_with_case(m.last(), style.word_case));
    }
}

/// Applying one separator style twice is applying it once: re-segmenting a
/// properly separated, consistently cased render reproduces its words, and
/// the second pass of the same transform is fixed on them. (The camel
/// styles, which join words with no separator, are not covered: without a
/// separator, re-segmentation may merge words.)
pub proof fn lemma_same_style_twice(s: Seq<char>, style: StyleDescriptor, p: char)
    requires
        style.separator == Option::Some(p),
        !is_word_char(p),
        style.first_word_case is None,
        !(style.word_case is Unchanged),
    ensures
        convert_spec(convert_spec(s, style), style) == convert_spec(s, style),
{
    let ws = segment_spec(s);
    lemma_segment_words_wf(s);
    lemma_segment_of_render(ws, style, p);
    lemma_render_transformed(ws, style);
}

} // verus!
