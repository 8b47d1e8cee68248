//! Case-style conversion: a verified word-segmentation and case-rendering
//! engine for identifier conventions such as `UpperCamelCase`, `snake_case`
//! and `kebab-case`.
use vstd::prelude::*;

pub mod engine;
pub mod laws;
pub mod renderer;
pub mod segmenter;
pub mod strings;
pub mod styles;

pub use styles::KebabCase;
pub use styles::LowerCamelCase;
pub use styles::ShoutyKebabCase;
pub use styles::ShoutySnakeCase;
pub use styles::SnakeCase;
pub use styles::TitleCase;
pub use styles::TrainCase;
pub use styles::UpperCamelCase;

verus! {

/// True for an ASCII uppercase letter.
pub open spec fn is_upper(c: char) -> bool {
    65 <= c as u32 && c as u32 <= 90
}

/// True for an ASCII lowercase letter.
pub open spec fn is_lower(c: char) -> bool {
    97 <= c as u32 && c as u32 <= 122
}

/// True for an ASCII digit.
pub open spec fn is_digit(c: char) -> bool {
    48 <= c as u32 && c as u32 <= 57
}

/// A character that can belong to a word; everything else is a separator.
pub open spec fn is_word_char(c: char) -> bool {
    is_upper(c) || is_lower(c) || is_digit(c)
}

/// ASCII lowercasing of one character; anything but an uppercase letter is kept.
pub open spec fn to_lower(c: char) -> char {
    if is_upper(c) {
        (c as u32 + 32) as char
    } else {
        c
    }
}

/// ASCII uppercasing of one character; anything but a lowercase letter is kept.
pub open spec fn to_upper(c: char) -> char {
    if is_lower(c) {
        (c as u32 - 32) as char
    } else {
        c
    }
}

pub fn upper_char(c: char) -> (r: char)
    ensures
        r == to_upper(c),
{
    let u = c as u32;
    if 97 <= u && u <= 122 {
        (u - 32) as u8 as char
    } else {
        c
    }
}

pub fn lower_char(c: char) -> (r: char)
    ensures
        r == to_lower(c),
{
    let u = c as u32;
    if 65 <= u && u <= 90 {
        (u + 32) as u8 as char
    } else {
        c
    }
}

pub fn word_char(c: char) -> (r: bool)
    ensures
        r == is_word_char(c),
{
    let u = c as u32;
    (65 <= u && u <= 90) || (97 <= u && u <= 122) || (48 <= u && u <= 57)
}

pub fn upper_letter(c: char) -> (r: bool)
    ensures
        r == is_upper(c),
{
    let u = c as u32;
    65 <= u && u <= 90
}

pub fn lower_letter(c: char) -> (r: bool)
    ensures
        r == is_lower(c),
{
    let u = c as u32;
    97 <= u && u <= 122
}

} // verus!
