use liquid_heck::engine::convert;
use liquid_heck::engine::render;
use liquid_heck::engine::segment;
use liquid_heck::renderer::StyleDescriptor;
use liquid_heck::renderer::WordCase;
use liquid_heck::styles::style_for_name;
use liquid_heck::SnakeCase;

#[test]
fn segment_splits_on_case_and_separators() {
    assert_eq!(segment("helloWorld21"), vec!["hello", "World21"]);
    assert_eq!(segment("hello_world_21"), vec!["hello", "world", "21"]);
    assert_eq!(segment("HelloWorld21"), vec!["Hello", "World21"]);
    assert_eq!(segment("XMLParser"), vec!["XML", "Parser"]);
}

#[test]
fn segment_is_total() {
    assert_eq!(segment(""), Vec::<String>::new());
    assert_eq!(segment("___"), Vec::<String>::new());
    assert_eq!(segment("123"), vec!["123"]);
    assert_eq!(segment("  a  "), vec!["a"]);
}

#[test]
fn segment_same_input_same_words() {
    assert_eq!(segment("Some textTo-Split"), segment("Some textTo-Split"));
    assert_eq!(
        segment("Some textTo-Split"),
        vec!["Some", "text", "To", "Split"]
    );
}

#[test]
fn render_joins_with_the_style_separator() {
    let words = vec!["hello".to_string(), "World21".to_string()];
    let snake = SnakeCase.style();
    assert_eq!(render(&words, &snake), "hello_world21");
    let unchanged = StyleDescriptor {
        separator: Some('.'),
        word_case: WordCase::Unchanged,
        first_word_case: None,
    };
    assert_eq!(render(&words, &unchanged), "hello.World21");
}

#[test]
fn render_empty_sequence_is_empty() {
    let words: Vec<String> = Vec::new();
    assert_eq!(render(&words, &SnakeCase.style()), "");
}

#[test]
fn style_lookup_knows_the_eight_public_names() {
    let cases = [
        ("uppercamelcase", "HelloWorld21"),
        ("lowercamelcase", "helloWorld21"),
        ("snakecase", "hello_world_21"),
        ("kebabcase", "hello-world-21"),
        ("shoutysnakecase", "HELLO_WORLD_21"),
        ("shoutykebabcase", "HELLO-WORLD-21"),
        ("titlecase", "Hello World 21"),
        ("traincase", "Hello-World-21"),
    ];
    for (name, expected) in cases {
        let style = style_for_name(name).unwrap();
        assert_eq!(convert("hello world 21", &style), expected);
    }
}

#[test]
fn style_lookup_rejects_unknown_names() {
    assert!(style_for_name("").is_none());
    assert!(style_for_name("camel").is_none());
    assert!(style_for_name("SnakeCase").is_none());
}
