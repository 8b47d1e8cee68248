use liquid_heck::KebabCase;
use liquid_heck::LowerCamelCase;
use liquid_heck::ShoutyKebabCase;
use liquid_heck::ShoutySnakeCase;
use liquid_heck::SnakeCase;
use liquid_heck::TitleCase;
use liquid_heck::TrainCase;
use liquid_heck::UpperCamelCase;

#[test]
fn upper_camel_case() {
    assert_eq!(UpperCamelCase.convert("abc"), "Abc");
    assert_eq!(UpperCamelCase.convert("hello world 21"), "HelloWorld21");
    assert_eq!(UpperCamelCase.convert("hello world 21"), "HelloWorld21");
    assert_eq!(UpperCamelCase.convert("hello_world_21"), "HelloWorld21");
    assert_eq!(UpperCamelCase.convert("HelloWorld21"), "HelloWorld21");
}

#[test]
fn lower_camel_case() {
    assert_eq!(LowerCamelCase.convert("abc"), "abc");
    assert_eq!(LowerCamelCase.convert("hello world 21"), "helloWorld21");
    assert_eq!(LowerCamelCase.convert("hello_world_21"), "helloWorld21");
    assert_eq!(LowerCamelCase.convert("HelloWorld21"), "helloWorld21");
}

#[test]
fn snake_case() {
    assert_eq!(SnakeCase.convert("abc"), "abc");
    assert_eq!(SnakeCase.convert("hello world 21"), "hello_world_21");
    assert_eq!(SnakeCase.convert("hello_world_21"), "hello_world_21");
    assert_eq!(SnakeCase.convert("HelloWorld21"), "hello_world21");
}

#[test]
fn kebab_case() {
    assert_eq!(KebabCase.convert("abc"), "abc");
    assert_eq!(KebabCase.convert("hello world 21"), "hello-world-21");
    assert_eq!(KebabCase.convert("hello_world_21"), "hello-world-21");
    assert_eq!(KebabCase.convert("HelloWorld21"), "hello-world21");
}

#[test]
fn shouty_snake_case() {
    assert_eq!(ShoutySnakeCase.convert("abc"), "ABC");
    assert_eq!(ShoutySnakeCase.convert("hello world 21"), "HELLO_WORLD_21");
    assert_eq!(ShoutySnakeCase.convert("hello_world_21"), "HELLO_WORLD_21");
    assert_eq!(ShoutySnakeCase.convert("HelloWorld21"), "HELLO_WORLD21");
}

#[test]
fn title_case() {
    assert_eq!(TitleCase.convert("abc"), "Abc");
    assert_eq!(TitleCase.convert("hello world 21"), "Hello World 21");
    assert_eq!(TitleCase.convert("hello_world_21"), "Hello World 21");
    assert_eq!(TitleCase.convert("HelloWorld21"), "Hello World21");
}

#[test]
fn shouty_kebab_case() {
    assert_eq!(ShoutyKebabCase.convert("abc"), "ABC");
    assert_eq!(ShoutyKebabCase.convert("hello world 21"), "HELLO-WORLD-21");
    assert_eq!(ShoutyKebabCase.convert("hello_world_21"), "HELLO-WORLD-21");
    assert_eq!(ShoutyKebabCase.convert("HelloWorld21"), "HELLO-WORLD21");
}

#[test]
fn train_case() {
    assert_eq!(TrainCase.convert("abc"), "Abc");
    assert_eq!(TrainCase.convert("hello world 21"), "Hello-World-21");
    assert_eq!(TrainCase.convert("hello_world_21"), "Hello-World-21");
    assert_eq!(TrainCase.convert("HelloWorld21"), "Hello-World21");
}

#[test]
fn empty_input_renders_empty_in_every_style() {
    assert_eq!(UpperCamelCase.convert(""), "");
    assert_eq!(LowerCamelCase.convert(""), "");
    assert_eq!(SnakeCase.convert(""), "");
    assert_eq!(KebabCase.convert(""), "");
    assert_eq!(ShoutySnakeCase.convert(""), "");
    assert_eq!(ShoutyKebabCase.convert(""), "");
    assert_eq!(TitleCase.convert(""), "");
    assert_eq!(TrainCase.convert(""), "");
}

#[test]
fn separator_only_input_renders_empty() {
    assert_eq!(SnakeCase.convert("___"), "");
    assert_eq!(UpperCamelCase.convert(" - _ "), "");
    assert_eq!(TitleCase.convert("..."), "");
}

#[test]
fn digit_only_input_is_one_word() {
    assert_eq!(SnakeCase.convert("123"), "123");
    assert_eq!(UpperCamelCase.convert("123"), "123");
    assert_eq!(KebabCase.convert("12 34"), "12-34");
}

#[test]
fn acronym_run_splits_before_last_upper() {
    assert_eq!(SnakeCase.convert("XMLParser"), "xml_parser");
    assert_eq!(UpperCamelCase.convert("XMLParser"), "XmlParser");
    assert_eq!(LowerCamelCase.convert("XMLParser"), "xmlParser");
    assert_eq!(ShoutySnakeCase.convert("XMLParser"), "XML_PARSER");
    assert_eq!(TitleCase.convert("XMLParser"), "Xml Parser");
    assert_eq!(TrainCase.convert("XMLParser"), "Xml-Parser");
}

#[test]
fn digits_join_the_running_word() {
    assert_eq!(SnakeCase.convert("hello21world"), "hello21world");
    assert_eq!(SnakeCase.convert("hello21World"), "hello21world");
    assert_eq!(SnakeCase.convert("hello_21_world"), "hello_21_world");
    assert_eq!(UpperCamelCase.convert("hello_21_world"), "Hello21World");
}

#[test]
fn same_separator_style_twice_is_idempotent() {
    let once = SnakeCase.convert("Some Text to-Convert21");
    assert_eq!(SnakeCase.convert(&once), once);
    let once = TrainCase.convert("Some Text to-Convert21");
    assert_eq!(TrainCase.convert(&once), once);
    let once = ShoutyKebabCase.convert("Some Text to-Convert21");
    assert_eq!(ShoutyKebabCase.convert(&once), once);
}

#[test]
fn render_inserts_exactly_the_separators_between_words() {
    let out = SnakeCase.convert("one two three");
    assert_eq!(out.chars().filter(|c| *c == '_').count(), 2);
    let out = KebabCase.convert("a-b_c d");
    assert_eq!(out.chars().filter(|c| *c == '-').count(), 3);
    let out = SnakeCase.convert("single");
    assert_eq!(out.chars().filter(|c| *c == '_').count(), 0);
}
