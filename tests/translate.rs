use typst_docs_l10n::model::{
    to_dot_path, BodyMdModel, CategoryMdItem, CategoryMdModel, FuncMdModel, HtmlMd, PageMdModel,
    ParamMdModel, ShorthandsMdModel, SymbolMdModel, SymbolsMdModel,
};
use typst_docs_l10n::translate::check_page;

fn s(text: &str) -> String {
    text.to_string()
}

fn page(route: &str, body: BodyMdModel, children: Vec<PageMdModel>) -> PageMdModel {
    PageMdModel {
        route: s(route),
        title: format!("{route} title"),
        description: format!("{route} description"),
        part: None,
        outline: vec![],
        body,
        children,
    }
}

fn symbol(codepoint: u32, deprecation: Option<&str>) -> SymbolMdModel {
    SymbolMdModel {
        name: s("sym"),
        codepoint,
        accent: false,
        alternates: vec![],
        markup_shorthand: None,
        math_shorthand: None,
        math_class: None,
        deprecation: deprecation.map(s),
    }
}

fn func(name: &str, scope: Vec<FuncMdModel>) -> FuncMdModel {
    FuncMdModel {
        path: vec![],
        name: s(name),
        title: format!("{name} title"),
        keywords: vec![],
        oneliner: format!("{name} oneliner"),
        element: false,
        contextual: false,
        deprecation: None,
        details: HtmlMd::Md(format!("{name} details")),
        example: None,
        self_: false,
        params: vec![ParamMdModel {
            name: s("body"),
            details: HtmlMd::Html(s("<p>body</p>")),
            example: None,
            types: vec![],
            strings: vec![],
            default: None,
            positional: true,
            named: false,
            required: true,
            variadic: false,
            settable: false,
        }],
        returns: vec![],
        scope,
    }
}

fn pairs(p: &PageMdModel) -> Vec<(String, String)> {
    let mut translations = vec![];
    check_page(p, &mut translations);
    translations
}

#[test]
fn dot_path_trims_and_replaces_slashes() {
    assert_eq!(to_dot_path("/reference/foundations/"), "reference.foundations");
    assert_eq!(to_dot_path("/"), "");
    assert_eq!(to_dot_path("a/b"), "a.b");
}

#[test]
fn page_keys_come_from_the_route() {
    let root = page("/", BodyMdModel::Html(HtmlMd::Html(s("<p>hi</p>"))), vec![]);
    assert_eq!(
        pairs(&root),
        vec![
            (s("index.title"), s("/ title")),
            (s("index.description"), s("/ description")),
            (s("index.body"), s("<p>hi</p>")),
        ]
    );
}

#[test]
fn children_come_first_and_changelog_pages_are_skipped() {
    let changelog = page(
        "/changelog/",
        BodyMdModel::Html(HtmlMd::Md(s("log"))),
        vec![page("/changelog/0.1/", BodyMdModel::Packages(HtmlMd::Md(s("p"))), vec![])],
    );
    let mut guide = page("/guide/", BodyMdModel::Html(HtmlMd::Md(s("g"))), vec![changelog]);
    guide.part = Some(s("Guides"));
    assert_eq!(
        pairs(&guide),
        vec![
            (s("guide.title"), s("/guide/ title")),
            (s("guide.description"), s("/guide/ description")),
            (s("Guides.part"), s("Guides")),
            (s("guide.body"), s("g")),
        ]
    );
}

#[test]
fn functions_params_and_scopes() {
    let f = func("text", vec![func("len", vec![])]);
    let p = page("/reference/text/", BodyMdModel::Func(f), vec![]);
    assert_eq!(
        pairs(&p),
        vec![
            (s("reference.text.title"), s("/reference/text/ title")),
            (s("reference.text.description"), s("/reference/text/ description")),
            (s("reference.text.text.title"), s("text title")),
            (s("reference.text.text.oneliner"), s("text oneliner")),
            (s("reference.text.text.details"), s("text details")),
            (s("reference.text.text.body.details"), s("<p>body</p>")),
            (s("reference.text.text.len.title"), s("len title")),
            (s("reference.text.text.len.oneliner"), s("len oneliner")),
            (s("reference.text.text.len.details"), s("len details")),
            (s("reference.text.text.len.body.details"), s("<p>body</p>")),
        ]
    );
}

#[test]
fn categories_items_shorthands_and_symbols() {
    let category = CategoryMdModel {
        name: s("math"),
        title: s("Math"),
        details: HtmlMd::Md(s("math details")),
        items: vec![CategoryMdItem {
            name: s("frac"),
            route: s("/reference/math/frac/"),
            oneliner: s("A fraction."),
            code: true,
        }],
        shorthands: Some(ShorthandsMdModel {
            markup: vec![symbol(8594, Some("old"))],
            math: vec![symbol(8658, None)],
        }),
    };
    let p = page("/reference/math/", BodyMdModel::Category(category), vec![]);
    assert_eq!(
        pairs(&p)[2..],
        [
            (s("reference.math.math.title"), s("Math")),
            (s("reference.math.math.details"), s("math details")),
            (s("reference.math.frac.oneliner"), s("A fraction.")),
            (s("reference.math.math.shorthands.markup.8594.deprecation"), s("old")),
        ]
    );

    let symbols = SymbolsMdModel {
        name: s("sym"),
        title: s("Symbols"),
        details: HtmlMd::Html(s("<p>s</p>")),
        list: vec![symbol(65, None), symbol(4294967295, Some("gone"))],
    };
    let p = page("/reference/symbols/", BodyMdModel::Symbols(symbols), vec![]);
    assert_eq!(
        pairs(&p)[2..],
        [
            (s("reference.symbols.sym.title"), s("Symbols")),
            (s("reference.symbols.sym.details"), s("<p>s</p>")),
            (s("reference.symbols.sym.4294967295.deprecation"), s("gone")),
        ]
    );
}
