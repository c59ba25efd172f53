use typst_docs_l10n::storage::{
    is_large_translation, large_translation_file_text, large_translation_text, paragraph_index,
    unescape,
};
use typst_docs_l10n::translations::TranslationMap;

fn s(text: &str) -> String {
    text.to_string()
}

#[test]
fn unescape_restores_newlines_and_quotes() {
    assert_eq!(unescape(s(r#""a\nb \"c\" \t d\\""#)), "\"a\nb \"c\" \\t d\\\\\"");
    assert_eq!(unescape(s("end\\")), "end");
    assert_eq!(unescape(s("")), "");
}

#[test]
fn five_blank_lines_make_a_large_translation() {
    assert!(!is_large_translation("a\n\nb\n\nc\n\nd\n\ne"));
    assert!(is_large_translation("a\n\nb\n\nc\n\nd\n\ne\n\nf"));
    assert!(!is_large_translation("\n\n\n\n\n\n\n\n\n"));
    assert!(is_large_translation("\n\n\n\n\n\n\n\n\n\n"));
}

#[test]
fn new_large_translation_file() {
    let text = large_translation_text(&vec!["A \"q\"\nB", "x \"\"\" y"]);
    assert_eq!(
        text,
        "\n[[main]]\nen = \"\"\"A \"q\"\nB\"\"\"\n\n[[main]]\nen = \"x \\\"\\\"\\\" y\"\n"
    );
}

#[test]
fn stored_large_translation_file() {
    let mut first = TranslationMap::new();
    first.insert(s("zh"), s("甲"));
    first.insert(s("en"), s("A"));
    let mut second = TranslationMap::new();
    second.insert(s("en"), s("\"\"\""));
    let text = large_translation_file_text(&vec![first, second]);
    assert_eq!(
        text,
        "\n[[main]]\nen = \"\"\"A\"\"\"\nzh = \"\"\"甲\"\"\"\n\n[[main]]\nen = \"\\\"\\\\\\\"\\\\\\\"\\\\\\\"\\\"\"\n"
    );
}

#[test]
fn paragraph_index_is_the_number_after_the_last_dot() {
    assert_eq!(paragraph_index("typst-docs/reference.text.toml.main.3"), Some(3));
    assert_eq!(paragraph_index("a.b.+7"), Some(7));
    assert_eq!(paragraph_index("a.007"), Some(7));
    assert_eq!(paragraph_index("a.3.x"), None);
    assert_eq!(paragraph_index("12"), None);
    assert_eq!(paragraph_index("a."), None);
    assert_eq!(paragraph_index("a.+"), None);
    assert_eq!(paragraph_index("a.-1"), None);
    assert_eq!(paragraph_index("a.1 "), None);
    assert_eq!(paragraph_index("a.99999999999999999999999"), None);
    assert_eq!(paragraph_index(&format!("a.{}", usize::MAX)), Some(usize::MAX));
}

#[test]
fn control_characters_are_escaped_as_in_json() {
    let text = large_translation_text(&vec!["a\tb\u{1}c\\"]);
    assert_eq!(text, "\n[[main]]\nen = \"\"\"a\\tb\\u0001c\\\\\"\"\"\n");
}
