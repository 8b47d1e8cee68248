//! Rendering: joining a word sequence back into one of the case styles.
//!
//! A style is a separator (possibly none), a per-word case transform, and an
//! optional override transform for the first word alone. Rendering applies
//! the transform to each word and joins the results with the separator.
use vstd::prelude::*;

use crate::lower_char;
use crate::segmenter::segment_spec;
use crate::to_lower;
use crate::to_upper;
use crate::upper_char;

verus! {

/// The case transform a style applies to a word.
#[derive(Clone, Copy, Debug)]
pub enum WordCase {
    /// Keep every character as the segmenter produced it.
    Unchanged,
    /// Lowercase every character.
    LowerAll,
    /// Uppercase every character.
    UpperAll,
    /// Uppercase the first character, lowercase the rest.
    CapitalizeFirst,
}

/// A rendering style: how words are cased and what joins them.
#[derive(Clone, Copy, Debug)]
pub struct StyleDescriptor {
    /// The character placed between adjacent words; none for camel styles.
    pub separator: Option<char>,
    /// The transform applied to every word.
    pub word_case: WordCase,
    /// When set, the transform applied to the first word instead.
    pub first_word_case: Option<WordCase>,
}

/// Every character lowercased.
pub open spec fn lower_word(w: Seq<char>) -> Seq<char> {
    w.map_values(|c: char| to_lower(c))
}

/// Every character uppercased.
pub open spec fn upper_word(w: Seq<char>) -> Seq<char> {
    w.map_values(|c: char| to_upper(c))
}

/// First character uppercased, the rest lowercased.
pub open spec fn capitalize_word(w: Seq<char>) -> Seq<char> {
    if w.len() == 0 {
        w
    } else {
        seq![to_upper(w[0])] + lower_word(w.drop_first())
    }
}

/// The transform named by `wc`, applied to one word.
pub open spec fn word_with_case(w: Seq<char>, wc: WordCase) -> Seq<char> {
    match wc {
        WordCase::Unchanged => w,
        WordCase::LowerAll => lower_word(w),
        WordCase::UpperAll => upper_word(w),
        WordCase::CapitalizeFirst => capitalize_word(w),
    }
}

/// The transform the first word receives: the override when one is set.
pub open spec fn first_case(style: StyleDescriptor) -> WordCase {
    match style.first_word_case {
        Option::Some(wc) => wc,
        Option::None => style.word_case,
    }
}

/// What the style inserts between adjacent words.
pub open spec fn sep_seq(style: StyleDescriptor) -> Seq<char> {
    match style.separator {
        Option::Some(c) => seq![c],
        Option::None => Seq::empty(),
    }
}

/// The rendering of a word sequence: each word under its transform, joined
/// by the style's separator. An empty sequence renders to the empty string.
pub open spec fn render_spec(words: Seq<Seq<char>>, style: StyleDescriptor) -> Seq<char>
    decreases words.len(),
{
    if words.len() == 0 {
        Seq::empty()
    } else if words.len() == 1 {
        word_with_case(words[0], first_case(style))
    } else {
        render_spec(words.drop_last(), style) + sep_seq(style) + word_with_case(
            words.last(),
            style.word_case,
        )
    }
}

/// The whole conversion: segment the input, then render the words.
pub open spec fn convert_spec(s: Seq<char>, style: StyleDescriptor) -> Seq<char> {
    render_spec(segment_spec(s), style)
}

/// Appends `w` under the transform `wc` to `out`.
fn push_cased_word(out: &mut Vec<char>, w: &Vec<char>, wc: WordCase)
    ensures
        final(out)@ == old(out)@ + word_with_case(w@, wc),
{
    let ghost base = out@;
    match wc {
        WordCase::Unchanged => {
            let mut j: usize = 0;
            while j < w.len()
                invariant
                    j <= w.len(),
                    out@ == base + w@.take(j as int),
                decreases w.len() - j,
            {
                out.push(w[j]);
                proof {
                    assert(w@.take(j + 1) =~= w@.take(j as int).push(w@[j as int]));
                }
                j = j + 1;
            }
            proof {
                assert(w@.take(w@.len() as int) =~= w@);
            }
        },
        WordCase::LowerAll => {
            let mut j: usize = 0;
            while j < w.len()
                invariant
                    j <= w.len(),
                    out@ == base + lower_word(w@.take(j as int)),
                decreases w.len() - j,
            {
                out.push(lower_char(w[j]));
                proof {
                    assert(lower_word(w@.take(j + 1)) =~= lower_word(w@.take(j as int)).push(
                        to_lower(w@[j as int]),
                    ));
                }
                j = j + 1;
            }
            proof {
                assert(lower_word(w@.take(w@.len() as int)) =~= lower_word(w@));
            }
        },
        WordCase::UpperAll => {
            let mut j: usize = 0;
            while j < w.len()
                invariant
                    j <= w.len(),
                    out@ == base + upper_word(w@.take(j as int)),
                decreases w.len() - j,
            {
                out.push(upper_char(w[j]));
                proof {
                    assert(upper_word(w@.take(j + 1)) =~= upper_word(w@.take(j as int)).push(
                        to_upper(w@[j as int]),
                    ));
                }
                j = j + 1;
            }
            proof {
                assert(upper_word(w@.take(w@.len() as int)) =~= upper_word(w@));
            }
        },
        WordCase::CapitalizeFirst => {
            if w.len() > 0 {
                out.push(upper_char(w[0]));
                let mut j: usize = 1;
                proof {
                    assert(capitalize_word(w@.take(1)) =~= seq![to_upper(w@[0])]);
                    assert(out@ =~= base + capitalize_word(w@.take(1)));
                }
                while j < w.len()
                    invariant
                        1 <= j <= w.len(),
                        out@ == base + capitalize_word(w@.take(j as int)),
                    decreases w.len() - j,
                {
                    out.push(lower_char(w[j]));
                    proof {
                        assert(capitalize_word(w@.take(j + 1)) =~= capitalize_word(
                            w@.take(j as int),
                        ).push(to_lower(w@[j as int])));
                    }
                    j = j + 1;
                }
                proof {
                    assert(capitalize_word(w@.take(w@.len() as int)) =~= capitalize_word(w@));
                }
            }
        },
    }
}

/// Renders `words` in the given style into one character sequence.
pub fn render_words(words: &Vec<Vec<char>>, style: &StyleDescriptor) -> (out: Vec<char>)
    ensures
        out@ == render_spec(words.deep_view(), *style),
{
    let mut out: Vec<char> = Vec::new();
    let mut k: usize = 0;
    while k < words.len()
        invariant
            k <= words.len(),
            out@ == render_spec(words.deep_view().take(k as int), *style),
        decreases words.len() - k,
    {
        if k > 0 {
            match style.separator {
                Option::Some(p) => out.push(p),
                Option::None => {},
            }
        }
        let wc = if k == 0 {
            match style.first_word_case {
                Option::Some(f) => f,
                Option::None => style.word_case,
            }
        } else {
            style.word_case
        };
        push_cased_word(&mut out, &words[k], wc);
        proof {
            let dv = words.deep_view();
            assert(dv.take(k + 1).drop_last() =~= dv.take(k as int));
            assert(dv.take(k + 1).last() == dv[k as int]);
            assert(dv[k as int] =~= words@[k as int]@);
        }
        k = k + 1;
    }
    proof {
        assert(words.deep_view().take(words@.len() as int) =~= words.deep_view());
    }
    out
}

} // verus!
