use typst_docs_l10n::{
    convert_events, escape_typst, push_typst, resolve_broken_link, CodeBlockKind, Event,
    HandleError, Handler, HeadingLevel, LinkType, Tag,
};

fn s(text: &str) -> String {
    text.to_string()
}

fn heading(level: HeadingLevel) -> Tag {
    Tag::Heading(level, None, vec![])
}

fn render(events: Vec<Event>) -> String {
    let mut out = String::new();
    push_typst(&mut out, &events);
    out
}

#[test]
fn test_md_to_typst() {
    // # Hello World
    // This is a test.
    // ```rust
    // fn main() { .. }
    // ```
    // ## Another Heading
    let rust = CodeBlockKind::Fenced(s("rust"));
    let events = vec![
        Event::Start(heading(HeadingLevel::H1)),
        Event::Text(s("Hello World")),
        Event::End(heading(HeadingLevel::H1)),
        Event::Start(Tag::Paragraph),
        Event::Text(s("This is a test.")),
        Event::End(Tag::Paragraph),
        Event::Start(Tag::CodeBlock(rust.clone())),
        Event::Text(s("fn main() {\n")),
        Event::Text(s("    println!(\"Hello, world!\");\n")),
        Event::Text(s("}\n")),
        Event::End(Tag::CodeBlock(rust)),
        Event::Start(heading(HeadingLevel::H2)),
        Event::Text(s("Another Heading")),
        Event::End(heading(HeadingLevel::H2)),
    ];
    let expected = r##"#heading(depth: 1)[Hello World];

This is a test.
``````rust
fn main() {
    println!("Hello, world!");
}
``````
#heading(depth: 2)[Another Heading];"##;
    assert_eq!(convert_events(events).unwrap(), expected);

    // 「内联盒子」（[box](#x-term-box)）
    let link = Tag::Link(LinkType::Inline, s("#x-term-box"), s(""));
    let events = vec![
        Event::Start(Tag::Paragraph),
        Event::Text(s("「内联盒子」（")),
        Event::Start(link.clone()),
        Event::Text(s("box")),
        Event::End(link),
        Event::Text(s("）")),
        Event::End(Tag::Paragraph),
    ];
    let expected = r##"

「内联盒子」（#link("#x-term-box")[box];）
"##;
    assert_eq!(convert_events(events).unwrap(), expected);
}

#[test]
fn escape_replaces_quotes_and_brackets_only() {
    let mut out = s(">");
    escape_typst(&mut out, "a \"b\" [c] 汉字\\");
    assert_eq!(out, ">a \\\"b\\\" \\[c\\] 汉字\\");
    let mut out = String::new();
    escape_typst(&mut out, "");
    assert_eq!(out, "");
}

#[test]
fn text_is_escaped_outside_code_blocks_only() {
    let fenced = CodeBlockKind::Fenced(s(""));
    let events = vec![
        Event::Text(s("[x]")),
        Event::Start(Tag::CodeBlock(fenced.clone())),
        Event::Text(s("[y]\n")),
        Event::End(Tag::CodeBlock(fenced)),
    ];
    assert_eq!(render(events), "\\[x\\]\n``````\n[y]\n``````\n");
}

#[test]
fn ordered_lists_number_items_per_level() {
    let events = vec![
        Event::Start(Tag::List(Some(3))),
        Event::Start(Tag::Item),
        Event::Text(s("a")),
        Event::Start(Tag::List(Some(1))),
        Event::Start(Tag::Item),
        Event::End(Tag::Item),
        Event::Start(Tag::Item),
        Event::End(Tag::Item),
        Event::End(Tag::List(Some(1))),
        Event::End(Tag::Item),
        Event::Start(Tag::Item),
        Event::End(Tag::Item),
        Event::Start(Tag::List(None)),
        Event::Start(Tag::Item),
        Event::End(Tag::Item),
        Event::End(Tag::List(None)),
        Event::Start(Tag::Item),
        Event::End(Tag::Item),
        Event::End(Tag::List(Some(3))),
    ];
    assert_eq!(
        render(events),
        "#enum.item(3)[a#enum.item(1)[];#enum.item(2)[];];#enum.item(4)[];#list.item[];#enum.item(5)[];"
    );
}

#[test]
fn large_list_numbers_are_written_in_full() {
    let events = vec![
        Event::Start(Tag::List(Some(1234567890))),
        Event::Start(Tag::Item),
        Event::End(Tag::Item),
        Event::Start(Tag::Item),
        Event::End(Tag::Item),
        Event::End(Tag::List(None)),
    ];
    assert_eq!(render(events), "#enum.item(1234567890)[];#enum.item(1234567891)[];");
}

#[test]
fn inline_code_spans() {
    let events = vec![
        Event::Code(s("[*strong*]")),
        Event::Code(s("{1 + 2}")),
        Event::Code(s("let x")),
        Event::Code(s("[")),
    ];
    assert_eq!(
        render(events),
        "```typ *strong* ``````typc 1 + 2 `````` let x `````` [ ```"
    );
}

#[test]
fn headings_labels_quotes_and_breaks() {
    let events = vec![
        Event::Start(Tag::Heading(HeadingLevel::H3, Some(s("intro")), vec![])),
        Event::Text(s("Intro")),
        Event::End(Tag::Heading(HeadingLevel::H3, Some(s("intro")), vec![])),
        Event::Start(Tag::BlockQuote),
        Event::Start(Tag::Emphasis),
        Event::Text(s("e")),
        Event::End(Tag::Emphasis),
        Event::SoftBreak,
        Event::Start(Tag::Strong),
        Event::End(Tag::Strong),
        Event::HardBreak,
        Event::Start(Tag::Strikethrough),
        Event::End(Tag::Strikethrough),
        Event::End(Tag::BlockQuote),
        Event::Html(s("<br>")),
        Event::Rule,
        Event::TaskListMarker(true),
        Event::FootnoteReference(s("n")),
    ];
    assert_eq!(
        render(events),
        "#heading(depth: 3)[Intro]; #label(\"intro\")#quote[#emph[e];\n#strong[];\n\n#strike[];];```raw-html <br>```"
    );
}

#[test]
fn code_block_after_text_starts_on_a_new_line() {
    let events = vec![
        Event::Code(s("t")),
        Event::Start(Tag::CodeBlock(CodeBlockKind::Indented)),
        Event::Text(s("x\n")),
        Event::End(Tag::CodeBlock(CodeBlockKind::Indented)),
        Event::Text(s("u")),
        Event::Start(Tag::CodeBlock(CodeBlockKind::Indented)),
        Event::End(Tag::CodeBlock(CodeBlockKind::Indented)),
    ];
    assert_eq!(render(events), "``` t ```\n``````\nx\n``````\nu\n``````\n``````\n");
}

#[test]
fn email_links_get_a_mailto_destination() {
    let link = Tag::Link(LinkType::Email, s("a@b.org"), s(""));
    let events = vec![Event::Start(link.clone()), Event::Text(s("a")), Event::End(link)];
    assert_eq!(render(events), "#link(\"mailto:a@b.org\")[a];");
}

#[test]
fn images_are_not_rendered() {
    let image = Tag::Image(LinkType::Inline, s("a.png"), s("t"));
    let events = vec![Event::Start(image.clone()), Event::End(image)];
    assert_eq!(convert_events(events).unwrap(), "");
}

#[test]
fn unsupported_link_kind_aborts_the_conversion() {
    let ok = Tag::Link(LinkType::Autolink, s("https://typst.app"), s(""));
    let bad = Tag::Link(LinkType::Collapsed, s("x"), s(""));
    let worse = Tag::Link(LinkType::Email, s("a@b.org"), s(""));
    let events = vec![
        Event::Start(ok.clone()),
        Event::End(ok),
        Event::Start(bad.clone()),
        Event::End(bad),
        Event::Start(worse),
    ];
    assert_eq!(
        convert_events(events),
        Err(HandleError::UnsupportedLinkType(LinkType::Collapsed))
    );
}

#[test]
fn handler_keeps_paths_and_destinations() {
    let mut handler = Handler::new();
    assert_eq!(handler.handle_image("img/a.png"), "img/a.png");
    assert_eq!(handler.handle_link("$box"), Ok(s("$box")));
    let mut event = Event::Start(Tag::Link(LinkType::ShortcutUnknown, s("$box"), s("")));
    assert_eq!(handler.handle(&mut event), Ok(()));
    assert_eq!(event, Event::Start(Tag::Link(LinkType::ShortcutUnknown, s("$box"), s(""))));
    let mut event = Event::Start(Tag::Link(LinkType::Email, s("a@b.org"), s("")));
    assert_eq!(
        handler.handle(&mut event),
        Err(HandleError::UnsupportedLinkType(LinkType::Email))
    );
}

#[test]
fn unresolved_shortcut_reference_links_to_an_anchor() {
    assert_eq!(resolve_broken_link(LinkType::Shortcut, "box"), Some((s("$box"), s("box"))));
    assert_eq!(
        resolve_broken_link(LinkType::Shortcut, "`box`"),
        Some((s("$box"), s("`box`")))
    );
    assert_eq!(resolve_broken_link(LinkType::Shortcut, "``"), Some((s("$"), s("``"))));
    assert_eq!(resolve_broken_link(LinkType::Reference, "box"), None);
}

#[test]
fn shortcut_reference_renders_as_link() {
    let (dest, text) = resolve_broken_link(LinkType::Shortcut, "box").unwrap();
    let link = Tag::Link(LinkType::ShortcutUnknown, dest, s(""));
    let events = vec![Event::Start(link.clone()), Event::Text(text), Event::End(link)];
    assert_eq!(convert_events(events).unwrap(), "#link(\"$box\")[box];");
}

#[test]
fn list_numbers_wrap_after_the_largest_u64() {
    let events = vec![
        Event::Start(Tag::List(Some(u64::MAX))),
        Event::Start(Tag::Item),
        Event::End(Tag::Item),
        Event::Start(Tag::Item),
        Event::End(Tag::Item),
        Event::End(Tag::List(Some(u64::MAX))),
        Event::Start(Tag::Item),
        Event::End(Tag::Item),
    ];
    assert_eq!(
        render(events),
        "#enum.item(18446744073709551615)[];#enum.item(0)[];#list.item[];"
    );
}

#[test]
fn code_block_after_an_opener_starts_on_a_new_line() {
    let rust = CodeBlockKind::Fenced(s("rust"));
    let events = vec![
        Event::Start(Tag::List(Some(1))),
        Event::Start(Tag::Item),
        Event::Start(Tag::CodeBlock(rust.clone())),
        Event::Text(s("x\n")),
        Event::End(Tag::CodeBlock(rust)),
        Event::End(Tag::Item),
        Event::End(Tag::List(Some(1))),
        Event::Text(s("line\n")),
        Event::Start(Tag::CodeBlock(CodeBlockKind::Indented)),
        Event::End(Tag::CodeBlock(CodeBlockKind::Indented)),
    ];
    assert_eq!(
        render(events),
        "#enum.item(1)[\n``````rust\nx\n``````\n];line\n``````\n``````\n"
    );
}
