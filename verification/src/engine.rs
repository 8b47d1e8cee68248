//! The two public engine operations: segmentation and rendering, plus
//! their composition, over ordinary strings.
use vstd::prelude::*;

use crate::renderer::convert_spec;
use crate::renderer::render_spec;
use crate::renderer::render_words;
use crate::renderer::StyleDescriptor;
use crate::segmenter::segment_chars;
use crate::segmenter::segment_spec;
use crate::strings::chars_of;
use crate::strings::string_of;

verus! {

/// Splits `input` into its words. Total: any string, empty or made of
/// separators alone, yields its (possibly empty) word sequence.
pub fn segment(input: &str) -> (words: Vec<String>)
    ensures
        words.deep_view() == segment_spec(input@),
{
    let cs = chars_of(input);
    let parts = segment_chars(&cs);
    let mut words: Vec<String> = Vec::new();
    let mut k: usize = 0;
    while k < parts.len()
        invariant
            k <= parts.len(),
            words.deep_view() == parts.deep_view().take(k as int),
        decreases parts.len() - k,
    {
        let w = string_of(&parts[k]);
        let ghost pre = words.deep_view();
        let ghost wv = w@;
        words.push(w);
        proof {
            assert(words.deep_view() =~~= pre.push(wv));
            assert(parts.deep_view()[k as int] =~= parts@[k as int]@);
            assert(pre.push(wv) =~~= parts.deep_view().take(k + 1));
        }
        k = k + 1;
    }
    proof {
        assert(parts.deep_view().take(parts@.len() as int) =~= parts.deep_view());
    }
    words
}

/// Renders a word sequence in the given style. An empty sequence renders
/// to the empty string.
pub fn render(words: &Vec<String>, style: &StyleDescriptor) -> (r: String)
    ensures
        r@ == render_spec(words.deep_view(), *style),
{
    let mut parts: Vec<Vec<char>> = Vec::new();
    let mut k: usize = 0;
    while k < words.len()
        invariant
            k <= words.len(),
            parts.deep_view() == words.deep_view().take(k as int),
        decreases words.len() - k,
    {
        let cs = chars_of(words[k].as_str());
        let ghost pre = parts.deep_view();
        let ghost cv = cs@;
        parts.push(cs);
        proof {
            assert(parts.deep_view() =~~= pre.push(cv));
            assert(words.deep_view()[k as int] == words@[k as int]@);
            assert(pre.push(cv) =~~= words.deep_view().take(k + 1));
        }
        k = k + 1;
    }
    proof {
        assert(words.deep_view().take(words@.len() as int) =~= words.deep_view());
    }
    let out = render_words(&parts, style);
    string_of(&out)
}

/// The whole conversion of one string into one style.
pub fn convert(input: &str, style: &StyleDescriptor) -> (r: String)
    ensures
        r@ == convert_spec(input@, *style),
{
    let cs = chars_of(input);
    let parts = segment_chars(&cs);
    let out = render_words(&parts, style);
    string_of(&out)
}

} // verus!
