//! The eight supported case styles, each a unit struct that converts a
//! string, plus the lookup from a style's public name to its descriptor.
use vstd::prelude::*;
use vstd::string::StrSliceExecFns;

use crate::engine::convert;
use crate::renderer::convert_spec;
use crate::renderer::StyleDescriptor;
use crate::renderer::WordCase;

verus! {

/// Words capitalized, no separator: `HelloWorld21`.
pub open spec fn upper_camel_style() -> StyleDescriptor {
    StyleDescriptor {
        separator: Option::None,
        word_case: WordCase::CapitalizeFirst,
        first_word_case: Option::None,
    }
}

/// Words capitalized but the first lowercased, no separator: `helloWorld21`.
pub open spec fn lower_camel_style() -> StyleDescriptor {
    StyleDescriptor {
        separator: Option::None,
        word_case: WordCase::CapitalizeFirst,
        first_word_case: Option::Some(WordCase::LowerAll),
    }
}

/// Words lowercased, joined by underscores: `hello_world_21`.
pub open spec fn snake_style() -> StyleDescriptor {
    StyleDescriptor {
        separator: Option::Some('_'),
        word_case: WordCase::LowerAll,
        first_word_case: Option::None,
    }
}

/// Words lowercased, joined by hyphens: `hello-world-21`.
pub open spec fn kebab_style() -> StyleDescriptor {
    StyleDescriptor {
        separator: Option::Some('-'),
        word_case: WordCase::LowerAll,
        first_word_case: Option::None,
    }
}

/// Words uppercased, joined by underscores: `HELLO_WORLD_21`.
pub open spec fn shouty_snake_style() -> StyleDescriptor {
    StyleDescriptor {
        separator: Option::Some('_'),
        word_case: WordCase::UpperAll,
        first_word_case: Option::None,
    }
}

/// Words uppercased, joined by hyphens: `HELLO-WORLD-21`.
pub open spec fn shouty_kebab_style() -> StyleDescriptor {
    StyleDescriptor {
        separator: Option::Some('-'),
        word_case: WordCase::UpperAll,
        first_word_case: Option::None,
    }
}

/// Words capitalized, joined by spaces: `Hello World 21`.
pub open spec fn title_style() -> StyleDescriptor {
    StyleDescriptor {
        separator: Option::Some(' '),
        word_case: WordCase::CapitalizeFirst,
        first_word_case: Option::None,
    }
}

/// Words capitalized, joined by hyphens: `Hello-World-21`.
pub open spec fn train_style() -> StyleDescriptor {
    StyleDescriptor {
        separator: Option::Some('-'),
        word_case: WordCase::CapitalizeFirst,
        first_word_case: Option::None,
    }
}

/// Converts a string to UpperCamelCase.
#[derive(Clone, Copy)]
pub struct UpperCamelCase;

impl UpperCamelCase {
    pub fn style(&self) -> (st: StyleDescriptor)
        ensures
            st == upper_camel_style(),
    {
        StyleDescriptor {
            separator: Option::None,
            word_case: WordCase::CapitalizeFirst,
            first_word_case: Option::None,
        }
    }

    pub fn convert(&self, input: &str) -> (r: String)
        ensures
            r@ == convert_spec(input@, upper_camel_style()),
    {
        let st = self.style();
        convert(input, &st)
    }
}

/// Converts a string to lowerCamelCase.
#[derive(Clone, Copy)]
pub struct LowerCamelCase;

impl LowerCamelCase {
    pub fn style(&self) -> (st: StyleDescriptor)
        ensures
            st == lower_camel_style(),
    {
        StyleDescriptor {
            separator: Option::None,
            word_case: WordCase::CapitalizeFirst,
            first_word_case: Option::Some(WordCase::LowerAll),
        }
    }

    pub fn convert(&self, input: &str) -> (r: String)
        ensures
            r@ == convert_spec(input@, lower_camel_style()),
    {
        let st = self.style();
        convert(input, &st)
    }
}

/// Converts a string to snake_case.
#[derive(Clone, Copy)]
pub struct SnakeCase;

impl SnakeCase {
    pub fn style(&self) -> (st: StyleDescriptor)
        ensures
            st == snake_style(),
    {
        StyleDescriptor {
            separator: Option::Some('_'),
            word_case: WordCase::LowerAll,
            first_word_case: Option::None,
        }
    }

    pub fn convert(&self, input: &str) -> (r: String)
        ensures
            r@ == convert_spec(input@, snake_style()),
    {
        let st = self.style();
        convert(input, &st)
    }
}

/// Converts a string to kebab-case.
#[derive(Clone, Copy)]
pub struct KebabCase;

impl KebabCase {
    pub fn style(&self) -> (st: StyleDescriptor)
        ensures
            st == kebab_style(),
    {
        StyleDescriptor {
            separator: Option::Some('-'),
            word_case: WordCase::LowerAll,
            first_word_case: Option::None,
        }
    }

    pub fn convert(&self, input: &str) -> (r: String)
        ensures
            r@ == convert_spec(input@, kebab_style()),
    {
        let st = self.style();
        convert(input, &st)
    }
}

/// Converts a string to SHOUTY_SNAKE_CASE.
#[derive(Clone, Copy)]
pub struct ShoutySnakeCase;

impl ShoutySnakeCase {
    pub fn style(&self) -> (st: StyleDescriptor)
        ensures
            st == shouty_snake_style(),
    {
        StyleDescriptor {
            separator: Option::Some('_'),
            word_case: WordCase::UpperAll,
            first_word_case: Option::None,
        }
    }

    pub fn convert(&self, input: &str) -> (r: String)
        ensures
            r@ == convert_spec(input@, shouty_snake_style()),
    {
        let st = self.style();
        convert(input, &st)
    }
}

/// Converts a string to Title Case.
#[derive(Clone, Copy)]
pub struct TitleCase;

impl TitleCase {
    pub fn style(&self) -> (st: StyleDescriptor)
        ensures
            st == title_style(),
    {
        StyleDescriptor {
            separator: Option::Some(' '),
            word_case: WordCase::CapitalizeFirst,
            first_word_case: Option::None,
        }
    }

    pub fn convert(&self, input: &str) -> (r: String)
        ensures
            r@ == convert_spec(input@, title_style()),
    {
        let st = self.style();
        convert(input, &st)
    }
}

/// Converts a string to SHOUTY-KEBAB-CASE.
#[derive(Clone, Copy)]
pub struct ShoutyKebabCase;

impl ShoutyKebabCase {
    pub fn style(&self) -> (st: StyleDescriptor)
        ensures
            st == shouty_kebab_style(),
    {
        StyleDescriptor {
            separator: Option::Some('-'),
            word_case: WordCase::UpperAll,
            first_word_case: Option::None,
        }
    }

    pub fn convert(&self, input: &str) -> (r: String)
        ensures
            r@ == convert_spec(input@, shouty_kebab_style()),
    {
        let st = self.style();
        convert(input, &st)
    }
}

/// Converts a string to Train-Case.
#[derive(Clone, Copy)]
pub struct TrainCase;

impl TrainCase {
    pub fn style(&self) -> (st: StyleDescriptor)
        ensures
            st == train_style(),
    {
        StyleDescriptor {
            separator: Option::Some('-'),
            word_case: WordCase::CapitalizeFirst,
            first_word_case: Option::None,
        }
    }

    pub fn convert(&self, input: &str) -> (r: String)
        ensures
            r@ == convert_spec(input@, train_style()),
    {
        let st = self.style();
        convert(input, &st)
    }
}

/// Character-for-character string equality.
pub fn str_eq(a: &str, b: &str) -> (r: bool)
    ensures
        r == (a@ == b@),
{
    let na = a.unicode_len();
    let nb = b.unicode_len();
    if na != nb {
        proof {
            assert(a@ != b@);
        }
        return false;
    }
    let mut i: usize = 0;
    while i < na
        invariant
            na == a@.len(),
            na == b@.len(),
            i <= na,
            forall|j: int| 0 <= j < i ==> a@[j] == b@[j],
        decreases na - i,
    {
        if a.get_char(i) != b.get_char(i) {
            return false;
        }
        i = i + 1;
    }
    proof {
        assert(a@ =~= b@);
    }
    true
}

/// The descriptor a public style name stands for; names are the lowercase,
/// separator-free forms such as `snakecase`.
pub open spec fn style_for_name_spec(name: Seq<char>) -> Option<StyleDescriptor> {
    if name == "uppercamelcase"@ {
        Option::Some(upper_camel_style())
    } else if name == "lowercamelcase"@ {
        Option::Some(lower_camel_style())
    } else if name == "snakecase"@ {
        Option::Some(snake_style())
    } else if name == "kebabcase"@ {
        Option::Some(kebab_style())
    } else if name == "shoutysnakecase"@ {
        Option::Some(shouty_snake_style())
    } else if name == "shoutykebabcase"@ {
        Option::Some(shouty_kebab_style())
    } else if name == "titlecase"@ {
        Option::Some(title_style())
    } else if name == "traincase"@ {
        Option::Some(train_style())
    } else {
        Option::None
    }
}

/// Looks a style up by its public name; unknown names have no style.
pub fn style_for_name(name: &str) -> (r: Option<StyleDescriptor>)
    ensures
        r == style_for_name_spec(name@),
{
    if str_eq(name, "uppercamelcase") {
        Option::Some(UpperCamelCase.style())
    } else if str_eq(name, "lowercamelcase") {
        Option::Some(LowerCamelCase.style())
    } else if str_eq(name, "snakecase") {
        Option::Some(SnakeCase.style())
    } else if str_eq(name, "kebabcase") {
        Option::Some(KebabCase.style())
    } else if str_eq(name, "shoutysnakecase") {
        Option::Some(ShoutySnakeCase.style())
    } else if str_eq(name, "shoutykebabcase") {
        Option::Some(ShoutyKebabCase.style())
    } else if str_eq(name, "titlecase") {
        Option::Some(TitleCase.style())
    } else if str_eq(name, "traincase") {
        Option::Some(TrainCase.style())
    } else {
        Option::None
    }
}

} // verus!
