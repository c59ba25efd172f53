use typst_docs_l10n::generate::{GenContext, GenError, TypstContent, TypstPage, TypstPageIdx};
use typst_docs_l10n::model::{BodyMdModel, GroupMdModel, HtmlMd, PageMdModel};
use typst_docs_l10n::translations::{TranslationMap, Translations};

fn s(text: &str) -> String {
    text.to_string()
}

fn page(route: &str, body: BodyMdModel, children: Vec<PageMdModel>) -> PageMdModel {
    PageMdModel {
        route: s(route),
        title: s("Title"),
        description: s("Description"),
        part: None,
        outline: vec![],
        body,
        children,
    }
}

fn table(entries: &[(&str, &str, &str)]) -> Translations {
    let mut t = Translations::new();
    for (key, lang, text) in entries {
        t.insert(s(key), s(lang), s(text));
    }
    t
}

#[test]
fn content_is_written_as_markup() {
    let content = TypstContent::Sequence(vec![
        TypstContent::Typ(s("== T")),
        TypstContent::Md(s("a.b"), s("*x*")),
        TypstContent::Html(s("<p>")),
    ]);
    let mut out = String::new();
    content.write(&mut out);
    assert_eq!(
        out,
        "\n\n== T\n#render-md(label-prefix: \"a.b\", ```````md\n*x*\n```````)\n\n```````html\n<p>\n```````\n"
    );
}

#[test]
fn translation_table_keeps_one_text_per_language() {
    let mut t = Translations::new();
    t.insert(s("k"), s("en"), s("one"));
    t.insert(s("k"), s("zh"), s("一"));
    t.insert(s("k"), s("en"), s("uno"));
    let m = t.get("k").unwrap();
    assert_eq!(m.get("en"), Some(&s("uno")));
    assert_eq!(m.get("zh"), Some(&s("一")));
    assert_eq!(m.get("fr"), None);
    assert!(t.get("other").is_none());
    let mut m = TranslationMap::new();
    m.insert(s("en"), s("a"));
    assert_eq!(m.get("en"), Some(&s("a")));
}

#[test]
fn pages_prefer_chinese_then_english_then_the_fallback() {
    let t = table(&[
        ("index.title", "zh", "标题"),
        ("index.title", "en", "Title EN"),
        ("index.description", "en", "Desc EN"),
        ("index.body", "fr", "ignored"),
    ]);
    let mut ctx = GenContext::new(&t);
    let root = page("/", BodyMdModel::Html(HtmlMd::Md(s("fallback body"))), vec![]);
    let idx = ctx.generate_page(&root).unwrap().unwrap();
    let mut out = String::new();
    ctx.get_page(idx).unwrap().write(&ctx, &mut out);
    assert_eq!(
        out,
        "\n\n#pagebreak();\n\n\n\
         \n#render-md(label-prefix: \"index.title\", ```````md\n## 标题\n```````)\n\
         \n#render-md(label-prefix: \"index.description\", ```````md\n### Desc EN\n```````)\n\
         \n#render-md(label-prefix: \"index.body\", ```````md\nfallback body\n```````)\n"
    );
}

#[test]
fn children_are_written_after_their_parent() {
    let t = table(&[
        ("a.title", "en", "A"),
        ("a.description", "en", "a"),
        ("a.body", "en", "<p>a</p>"),
        ("a.b.title", "en", "B"),
        ("a.b.description", "en", "b"),
        ("a.b.g.title", "en", "G"),
        ("a.b.g.details", "en", "gd"),
    ]);
    let group = GroupMdModel {
        name: s("g"),
        title: s("G0"),
        details: HtmlMd::Html(s("<p>g</p>")),
        functions: vec![],
    };
    let child = page("/a/b/", BodyMdModel::Group(group), vec![]);
    let changelog = page("/a/changelog/", BodyMdModel::Html(HtmlMd::Md(s("c"))), vec![]);
    let parent = page("/a/", BodyMdModel::Html(HtmlMd::Html(s("<p>a0</p>"))), vec![child, changelog]);
    let mut ctx = GenContext::new(&t);
    let idx = ctx.generate_page(&parent).unwrap().unwrap();
    assert_eq!(idx.0, 1);
    let mut out = String::new();
    ctx.get_page(idx).unwrap().write(&ctx, &mut out);
    let child_text = "\n\n#pagebreak();\n\n\n\
        \n#render-md(label-prefix: \"a.b.title\", ```````md\n## B\n```````)\n\
        \n#render-md(label-prefix: \"a.b.description\", ```````md\n### b\n```````)\n\
        \n\n== G\n```````html\ngd\n```````\n";
    let parent_text = "\n\n#pagebreak();\n\n\n\
        \n#render-md(label-prefix: \"a.title\", ```````md\n## A\n```````)\n\
        \n#render-md(label-prefix: \"a.description\", ```````md\n### a\n```````)\n\
        \n```````html\n<p>a</p>\n```````\n";
    assert_eq!(out, format!("{parent_text}\n\n#pagebreak();\n\n{child_text}"));
    assert!(ctx.get_page(TypstPageIdx(5)).is_none());
}

#[test]
fn missing_translation_is_an_error() {
    let t = table(&[("index.title", "en", "T")]);
    let mut ctx = GenContext::new(&t);
    let root = page("/", BodyMdModel::Html(HtmlMd::Md(s("b"))), vec![]);
    match ctx.generate_page(&root) {
        Err(GenError::MissingTranslation(key)) => assert_eq!(key, "index.description"),
        other => panic!("unexpected result: {other:?}"),
    }
    let changelog = page("/changelog/", BodyMdModel::Html(HtmlMd::Md(s("b"))), vec![]);
    assert!(matches!(ctx.generate_page(&changelog), Ok(None)));
}

#[test]
fn a_page_written_on_its_own() {
    let t = Translations::new();
    let ctx = GenContext::new(&t);
    let p = TypstPage { children: vec![], body: TypstContent::Typ(s("x")) };
    let mut out = String::new();
    p.write(&ctx, &mut out);
    assert_eq!(out, "\n\n#pagebreak();\n\n\nx");
}

#[test]
fn changelog_pages_add_only_their_descendants() {
    let t = table(&[
        ("a.title", "en", "A"),
        ("a.description", "en", "a"),
        ("a.body", "en", "x"),
        ("a.v1.title", "en", "V"),
        ("a.v1.description", "en", "v"),
        ("a.v1.body", "en", "y"),
    ]);
    let version = page("/a/v1/", BodyMdModel::Html(HtmlMd::Md(s("y"))), vec![]);
    let changelog = page("/a/changelog/", BodyMdModel::Html(HtmlMd::Md(s("c"))), vec![version]);
    let parent = page("/a/", BodyMdModel::Html(HtmlMd::Md(s("x"))), vec![changelog]);
    let mut ctx = GenContext::new(&t);
    let idx = ctx.generate_page(&parent).unwrap().unwrap();
    assert_eq!(idx.0, 1);
    assert!(ctx.get_page(TypstPageIdx(0)).unwrap().children.is_empty());
    assert!(ctx.get_page(idx).unwrap().children.is_empty());
    assert!(ctx.get_page(TypstPageIdx(2)).is_none());
}
