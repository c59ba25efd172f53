use typst_docs_l10n::split_markdown;

fn test(markdown: String) -> String {
    format!("{:?}", split_markdown(&markdown))
}

#[test]
fn test_split_markdown() {
    let x = "This is a test.";
    let y = "This is another test.";
    let r = "````rust\nlet x = 1;\n````\n";
    let r2 = "````rust\nlet x\n\n = 1;\n````\n";
    let sep = "\n\n";
    assert_eq!(test(format!("{x}{sep}{y}")), r#"["This is a test.", "This is another test."]"#);
    assert_eq!(test(format!("{x}{sep}{sep}{y}")), r#"["This is a test.", "This is another test."]"#);
    assert_eq!(test(format!("{x}{sep}{y}{sep}")), r#"["This is a test.", "This is another test."]"#);
    assert_eq!(test(format!("{sep}{x}{sep}{y}")), r#"["This is a test.", "This is another test."]"#);
    assert_eq!(
        test(format!("{sep}{x}{sep}{y}{sep}")),
        r#"["This is a test.", "This is another test."]"#
    );
    assert_eq!(
        test(format!("{r}{x}{sep}{y}")),
        r#"["````rust\nlet x = 1;\n````", "This is a test.", "This is another test."]"#
    );
    assert_eq!(
        test(format!("{x}{r}{sep}{y}")),
        r#"["This is a test.", "````rust\nlet x = 1;\n````", "This is another test."]"#
    );
    assert_eq!(
        test(format!("{x}{sep}{r}{y}")),
        r#"["This is a test.", "````rust\nlet x = 1;\n````", "This is another test."]"#
    );
    assert_eq!(
        test(format!("{x}{sep}{y}{r}")),
        r#"["This is a test.", "This is another test.", "````rust\nlet x = 1;\n````"]"#
    );
    assert_eq!(
        test(format!("{r2}{x}{sep}{y}")),
        r#"["````rust\nlet x\n\n = 1;\n````", "This is a test.", "This is another test."]"#
    );
    assert_eq!(
        test(format!("{x}{r2}{sep}{y}")),
        r#"["This is a test.", "````rust\nlet x\n\n = 1;\n````", "This is another test."]"#
    );
    assert_eq!(
        test(format!("{x}{sep}{r2}{y}")),
        r#"["This is a test.", "````rust\nlet x\n\n = 1;\n````", "This is another test."]"#
    );
    assert_eq!(
        test(format!("{x}{sep}{y}{r2}")),
        r#"["This is a test.", "This is another test.", "````rust\nlet x\n\n = 1;\n````"]"#
    );
    assert_eq!(
        test(format!("{r}{x}{sep}{y}{r2}")),
        r#"["````rust\nlet x = 1;\n````", "This is a test.", "This is another test.", "````rust\nlet x\n\n = 1;\n````"]"#
    );
    assert_eq!(
        test(format!("{x}{r}{sep}{y}{r2}")),
        r#"["This is a test.", "````rust\nlet x = 1;\n````", "This is another test.", "````rust\nlet x\n\n = 1;\n````"]"#
    );
    assert_eq!(
        test(format!("{x}{r}{r2}{sep}{y}")),
        r#"["This is a test.", "````rust\nlet x = 1;\n````", "````rust\nlet x\n\n = 1;\n````", "This is another test."]"#
    );
    assert_eq!(
        test(format!("{x}{sep}{y}{r}{r2}")),
        r#"["This is a test.", "This is another test.", "````rust\nlet x = 1;\n````", "````rust\nlet x\n\n = 1;\n````"]"#
    );
}

#[test]
fn split_without_fence_or_blank_line_is_the_trimmed_text() {
    assert_eq!(split_markdown("  one line\nand another  \n"), vec!["one line\nand another"]);
    assert_eq!(split_markdown(" \n\t "), Vec::<&str>::new());
    assert_eq!(split_markdown(""), Vec::<&str>::new());
}

#[test]
fn split_keeps_blank_lines_inside_a_fence() {
    assert_eq!(
        split_markdown("A\n\n```\nX\n\nY\n```\n\nB"),
        vec!["A", "```\nX\n\nY\n```", "B"]
    );
}

#[test]
fn split_does_not_close_a_fence_with_a_shorter_run() {
    assert_eq!(
        split_markdown("````\nA\n\n```\nB\n\nC"),
        vec!["````\nA\n\n```\nB\n\nC"]
    );
    assert_eq!(
        split_markdown("P\n\n````\nA\n\n```\n\nB\n````\n\nQ"),
        vec!["P", "````\nA\n\n```\n\nB\n````", "Q"]
    );
}

#[test]
fn split_trims_unicode_white_space() {
    assert_eq!(split_markdown("\u{3000}A\u{a0}\n\n\n\nB "), vec!["A", "B"]);
    assert_eq!(split_markdown("A\n\n\nB"), vec!["A", "B"]);
}

#[test]
fn split_keeps_multibyte_text() {
    assert_eq!(
        split_markdown("「内联盒子」\n\n```typ\n#box[盒子]\n\n```\n汉字"),
        vec!["「内联盒子」", "```typ\n#box[盒子]\n\n```", "汉字"]
    );
}

#[test]
fn split_unclosed_fence_after_text_runs_to_the_end() {
    assert_eq!(
        split_markdown("P\n\nQ\n````\nA\n\n```\nB\n\n"),
        vec!["P", "Q", "````\nA\n\n```\nB"]
    );
}
