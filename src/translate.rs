//! Collecting the texts of the documentation pages to translate, each under
//! its key.
use vstd::prelude::*;

use crate::model::{
    dot_path, html_text, to_dot_path, BodyMdModel, CategoryMdItem, CategoryMdModel, FuncMdModel,
    GroupMdModel, HtmlMd, PageMdModel, ParamMdModel, ShorthandsMdModel, SymbolMdModel,
    SymbolsMdModel, TypeMdModel,
};
use crate::text::{contains_seq, contains_str, decimal, dot, join_key, push_decimal};

verus! {

/// Pairs of a key and the text to translate under it.
pub open spec fn pairs_view(v: Seq<(String, String)>) -> Seq<(Seq<char>, Seq<char>)> {
    v.map_values(|p: (String, String)| (p.0@, p.1@))
}

/// The key of a page: its route as a dotted path, or `index` for the root.
pub open spec fn page_key(route: Seq<char>) -> Seq<char> {
    if dot_path(route).len() == 0 {
        "index"@
    } else {
        dot_path(route)
    }
}

/// The pair of an HTML or Markdown text.
pub open spec fn html_pairs(html: HtmlMd, k: Seq<char>) -> Seq<(Seq<char>, Seq<char>)> {
    seq![(k, html_text(html))]
}

/// The pair of a deprecated symbol, keyed by its codepoint.
pub open spec fn symbol_pairs(symbol: SymbolMdModel, k: Seq<char>) -> Seq<(Seq<char>, Seq<char>)> {
    match symbol.deprecation {
        Some(d) => seq![(dot(dot(k, decimal(symbol.codepoint as nat)), "deprecation"@), d@)],
        None => seq![],
    }
}

/// The pairs of a list of symbols.
pub open spec fn symbol_list_pairs(list: Seq<SymbolMdModel>, k: Seq<char>) -> Seq<
    (Seq<char>, Seq<char>),
>
    decreases list.len(),
{
    if list.len() == 0 {
        seq![]
    } else {
        symbol_list_pairs(list.drop_last(), k) + symbol_pairs(list.last(), k)
    }
}

/// The pairs of the one-liners of category items, keyed by their routes.
pub open spec fn items_pairs(items: Seq<CategoryMdItem>) -> Seq<(Seq<char>, Seq<char>)>
    decreases items.len(),
{
    if items.len() == 0 {
        seq![]
    } else {
        items_pairs(items.drop_last()) + seq![
            (dot(dot_path(items.last().route@), "oneliner"@), items.last().oneliner@),
        ]
    }
}

/// The pairs of the shorthands of a category.
pub open spec fn shorthands_pairs(shorthands: ShorthandsMdModel, k: Seq<char>) -> Seq<
    (Seq<char>, Seq<char>),
> {
    let k = dot(k, "shorthands"@);
    symbol_list_pairs(shorthands.markup@, dot(k, "markup"@)) + symbol_list_pairs(
        shorthands.math@,
        dot(k, "math"@),
    )
}

/// The pairs of a category.
pub open spec fn category_pairs(category: CategoryMdModel, k: Seq<char>) -> Seq<
    (Seq<char>, Seq<char>),
> {
    let k = dot(k, category.name@);
    seq![(dot(k, "title"@), category.title@)] + html_pairs(category.details, dot(k, "details"@))
        + items_pairs(category.items@) + match category.shorthands {
        Some(sh) => shorthands_pairs(sh, k),
        None => seq![],
    }
}

/// The pairs of a parameter.
pub open spec fn param_pairs(param: ParamMdModel, k: Seq<char>) -> Seq<(Seq<char>, Seq<char>)> {
    html_pairs(param.details, dot(dot(k, param.name@), "details"@))
}

/// The pairs of a list of parameters.
pub open spec fn params_pairs(params: Seq<ParamMdModel>, k: Seq<char>) -> Seq<
    (Seq<char>, Seq<char>),
>
    decreases params.len(),
{
    if params.len() == 0 {
        seq![]
    } else {
        params_pairs(params.drop_last(), k) + param_pairs(params.last(), k)
    }
}

/// The pairs of a function and of the functions in its scope.
pub open spec fn func_pairs(func: FuncMdModel, k: Seq<char>) -> Seq<(Seq<char>, Seq<char>)>
    decreases func,
{
    let k = dot(k, func.name@);
    seq![(dot(k, "title"@), func.title@), (dot(k, "oneliner"@), func.oneliner@)] + match func.deprecation {
        Some(d) => seq![(dot(k, "deprecation"@), d@)],
        None => seq![],
    } + html_pairs(func.details, dot(k, "details"@)) + params_pairs(func.params@, k) + funcs_pairs(
        func.scope@,
        k,
    )
}

/// The pairs of a list of functions.
pub open spec fn funcs_pairs(funcs: Seq<FuncMdModel>, k: Seq<char>) -> Seq<(Seq<char>, Seq<char>)>
    decreases funcs,
{
    if funcs.len() == 0 {
        seq![]
    } else {
        funcs_pairs(funcs.drop_last(), k) + func_pairs(funcs.last(), k)
    }
}

/// The pairs of a group of functions.
pub open spec fn group_pairs(group: GroupMdModel, k: Seq<char>) -> Seq<(Seq<char>, Seq<char>)> {
    let k = dot(k, group.name@);
    seq![(dot(k, "title"@), group.title@)] + html_pairs(group.details, dot(k, "details"@))
        + funcs_pairs(group.functions@, k)
}

/// The pairs of a type.
pub open spec fn type_pairs(type_: TypeMdModel, k: Seq<char>) -> Seq<(Seq<char>, Seq<char>)> {
    let k = dot(k, type_.name@);
    seq![(dot(k, "title"@), type_.title@), (dot(k, "oneliner"@), type_.oneliner@)] + html_pairs(
        type_.details,
        dot(k, "details"@),
    ) + match type_.constructor {
        Some(c) => func_pairs(c, k),
        None => seq![],
    } + funcs_pairs(type_.scope@, k)
}

/// The pairs of a collection of symbols.
pub open spec fn symbols_pairs(symbols: SymbolsMdModel, k: Seq<char>) -> Seq<
    (Seq<char>, Seq<char>),
> {
    let k = dot(k, symbols.name@);
    seq![(dot(k, "title"@), symbols.title@)] + html_pairs(symbols.details, dot(k, "details"@))
        + symbol_list_pairs(symbols.list@, k)
}

/// The pairs of the body of a page.
pub open spec fn body_pairs(body: BodyMdModel, k: Seq<char>) -> Seq<(Seq<char>, Seq<char>)> {
    match body {
        BodyMdModel::Html(html) => html_pairs(html, dot(k, "body"@)),
        BodyMdModel::Category(category) => category_pairs(category, k),
        BodyMdModel::Func(func) => func_pairs(func, k),
        BodyMdModel::Group(group) => group_pairs(group, k),
        BodyMdModel::Type(type_) => type_pairs(type_, k),
        BodyMdModel::Symbols(symbols) => symbols_pairs(symbols, k),
        BodyMdModel::Packages(html) => html_pairs(html, dot(k, "packages"@)),
    }
}

/// The pairs of a page of its own, without its children: none for a
/// changelog page.
pub open spec fn own_pairs(page: PageMdModel) -> Seq<(Seq<char>, Seq<char>)> {
    if contains_seq(page.route@, "changelog"@) {
        seq![]
    } else {
        let k = page_key(page.route@);
        seq![(dot(k, "title"@), page.title@), (dot(k, "description"@), page.description@)]
            + match page.part {
            Some(part) => seq![(dot(part@, "part"@), part@)],
            None => seq![],
        } + body_pairs(page.body, k)
    }
}

/// The pairs of a page: those of its children first, then its own.
pub open spec fn page_pairs(page: PageMdModel) -> Seq<(Seq<char>, Seq<char>)>
    decreases page,
{
    pages_pairs(page.children@) + own_pairs(page)
}

/// The pairs of a list of pages.
pub open spec fn pages_pairs(pages: Seq<PageMdModel>) -> Seq<(Seq<char>, Seq<char>)>
    decreases pages,
{
    if pages.len() == 0 {
        seq![]
    } else {
        pages_pairs(pages.drop_last()) + page_pairs(pages.last())
    }
}

/// The translation pairs.
pub type TranslationPairs = Vec<(String, String)>;

fn push_pair(translations: &mut TranslationPairs, key: String, value: &str)
    ensures
        pairs_view(final(translations)@) == pairs_view(old(translations)@).push((key@, value@)),
{
    let ghost before = translations@;
    translations.push((key, String::from_str(value)));
    assert(pairs_view(translations@) =~= pairs_view(before).push((key@, value@)));
}

/// Check a page for translations: the pairs of its children come first, then
/// its title, description, part and body, unless it is a changelog page.
pub fn check_page(page: &PageMdModel, translations: &mut TranslationPairs)
    ensures
        pairs_view(final(translations)@) == pairs_view(old(translations)@) + page_pairs(*page),
    decreases page,
{
    let ghost start = pairs_view(translations@);
    let mut i: usize = 0;
    assert(page.children@.take(0) =~= Seq::<PageMdModel>::empty());
    assert(start + seq![] =~= start);
    while i < page.children.len()
        invariant
            i <= page.children@.len(),
            pairs_view(translations@) == start + pages_pairs(page.children@.take(i as int)),
        decreases page.children.len() - i,
    {
        proof {
            vstd::std_specs::vec::axiom_vec_index_decreases(page.children, i as int);
        }
        check_page(&page.children[i], translations);
        assert(page.children@.take(i + 1).drop_last() =~= page.children@.take(i as int));
        assert(pairs_view(translations@) =~= start + pages_pairs(page.children@.take(i + 1)));
        i += 1;
    }
    assert(page.children@.take(page.children@.len() as int) =~= page.children@);
    let ghost after_children = pairs_view(translations@);
    if contains_str(page.route.as_str(), "changelog") {
        assert(after_children + seq![] =~= after_children);
        return ;
    }
    let dotted = to_dot_path(page.route.as_str());
    let k = if dotted.as_str().is_empty() {
        String::from_str("index")
    } else {
        dotted
    };
    assert(k@ == page_key(page.route@));
    push_pair(translations, join_key(k.as_str(), "title"), page.title.as_str());
    push_pair(translations, join_key(k.as_str(), "description"), page.description.as_str());
    match &page.part {
        Some(part) => push_pair(translations, join_key(part.as_str(), "part"), part.as_str()),
        None => {},
    }
    check_body(&page.body, k.as_str(), translations);
    assert(pairs_view(translations@) =~= after_children + own_pairs(*page));
}

/// Check the body for translations.
fn check_body(body: &BodyMdModel, k: &str, translations: &mut TranslationPairs)
    ensures
        pairs_view(final(translations)@) == pairs_view(old(translations)@) + body_pairs(*body, k@),
{
    match body {
        BodyMdModel::Html(html) => {
            let k = join_key(k, "body");
            check_html(html, k.as_str(), translations);
        },
        BodyMdModel::Category(category) => {
            check_category(category, k, translations);
        },
        BodyMdModel::Func(func) => {
            check_func(func, k, translations);
        },
        BodyMdModel::Group(group) => {
            check_group(group, k, translations);
        },
        BodyMdModel::Type(type_) => {
            check_type(type_, k, translations);
        },
        BodyMdModel::Symbols(symbols) => {
            check_symbols(symbols, k, translations);
        },
        BodyMdModel::Packages(html) => {
            let k = join_key(k, "packages");
            check_html(html, k.as_str(), translations);
        },
    }
}

/// Check the category for translations.
fn check_category(category: &CategoryMdModel, k: &str, translations: &mut TranslationPairs)
    ensures
        pairs_view(final(translations)@) == pairs_view(old(translations)@) + category_pairs(
            *category,
            k@,
        ),
{
    let ghost start = pairs_view(translations@);
    let key = join_key(k, category.name.as_str());
    push_pair(translations, join_key(key.as_str(), "title"), category.title.as_str());
    let details_k = join_key(key.as_str(), "details");
    check_html(&category.details, details_k.as_str(), translations);
    let ghost before_items = pairs_view(translations@);
    let mut i: usize = 0;
    assert(category.items@.take(0) =~= Seq::<CategoryMdItem>::empty());
    assert(before_items + seq![] =~= before_items);
    while i < category.items.len()
        invariant
            i <= category.items@.len(),
            pairs_view(translations@) == before_items + items_pairs(category.items@.take(i as int)),
        decreases category.items.len() - i,
    {
        let item = &category.items[i];
        let item_k = to_dot_path(item.route.as_str());
        push_pair(translations, join_key(item_k.as_str(), "oneliner"), item.oneliner.as_str());
        assert(category.items@.take(i + 1).drop_last() =~= category.items@.take(i as int));
        assert(pairs_view(translations@) =~= before_items + items_pairs(
            category.items@.take(i + 1),
        ));
        i += 1;
    }
    assert(category.items@.take(category.items@.len() as int) =~= category.items@);
    match &category.shorthands {
        Some(shorthands) => check_shorthands(shorthands, key.as_str(), translations),
        None => {},
    }
    assert(pairs_view(translations@) =~= start + category_pairs(*category, k@));
}

/// Check a list of symbols for translations.
fn check_symbol_list(list: &Vec<SymbolMdModel>, k: &str, translations: &mut TranslationPairs)
    ensures
        pairs_view(final(translations)@) == pairs_view(old(translations)@) + symbol_list_pairs(
            list@,
            k@,
        ),
{
    let ghost start = pairs_view(translations@);
    let mut i: usize = 0;
    assert(list@.take(0) =~= Seq::<SymbolMdModel>::empty());
    assert(start + seq![] =~= start);
    while i < list.len()
        invariant
            i <= list@.len(),
            pairs_view(translations@) == start + symbol_list_pairs(list@.take(i as int), k@),
        decreases list.len() - i,
    {
        check_symbol(&list[i], k, translations);
        assert(list@.take(i + 1).drop_last() =~= list@.take(i as int));
        assert(pairs_view(translations@) =~= start + symbol_list_pairs(list@.take(i + 1), k@));
        i += 1;
    }
    assert(list@.take(list@.len() as int) =~= list@);
}

/// Check the shorthands for translations.
fn check_shorthands(shorthands: &ShorthandsMdModel, k: &str, translations: &mut TranslationPairs)
    ensures
        pairs_view(final(translations)@) == pairs_view(old(translations)@) + shorthands_pairs(
            *shorthands,
            k@,
        ),
{
    let ghost start = pairs_view(translations@);
    let key = join_key(k, "shorthands");
    let markup_k = join_key(key.as_str(), "markup");
    check_symbol_list(&shorthands.markup, markup_k.as_str(), translations);
    let math_k = join_key(key.as_str(), "math");
    check_symbol_list(&shorthands.math, math_k.as_str(), translations);
    assert(pairs_view(translations@) =~= start + shorthands_pairs(*shorthands, k@));
}

/// Check a list of functions for translations.
fn check_funcs(funcs: &Vec<FuncMdModel>, k: &str, translations: &mut TranslationPairs)
    ensures
        pairs_view(final(translations)@) == pairs_view(old(translations)@) + funcs_pairs(
            funcs@,
            k@,
        ),
    decreases funcs@, 1nat,
{
    let ghost start = pairs_view(translations@);
    let mut i: usize = 0;
    assert(funcs@.take(0) =~= Seq::<FuncMdModel>::empty());
    assert(start + seq![] =~= start);
    while i < funcs.len()
        invariant
            i <= funcs@.len(),
            pairs_view(translations@) == start + funcs_pairs(funcs@.take(i as int), k@),
        decreases funcs.len() - i,
    {
        proof {
            vstd::seq::axiom_seq_index_decreases(funcs@, i as int);
        }
        check_func(&funcs[i], k, translations);
        assert(funcs@.take(i + 1).drop_last() =~= funcs@.take(i as int));
        assert(pairs_view(translations@) =~= start + funcs_pairs(funcs@.take(i + 1), k@));
        i += 1;
    }
    assert(funcs@.take(funcs@.len() as int) =~= funcs@);
}

/// Check the function for translations.
fn check_func(func: &FuncMdModel, k: &str, translations: &mut TranslationPairs)
    ensures
        pairs_view(final(translations)@) == pairs_view(old(translations)@) + func_pairs(*func, k@),
    decreases *func, 0nat,
{
    let ghost start = pairs_view(translations@);
    let key = join_key(k, func.name.as_str());
    push_pair(translations, join_key(key.as_str(), "title"), func.title.as_str());
    push_pair(translations, join_key(key.as_str(), "oneliner"), func.oneliner.as_str());
    match &func.deprecation {
        Some(deprecation) => push_pair(
            translations,
            join_key(key.as_str(), "deprecation"),
            deprecation.as_str(),
        ),
        None => {},
    }
    let details_k = join_key(key.as_str(), "details");
    check_html(&func.details, details_k.as_str(), translations);
    let ghost before_params = pairs_view(translations@);
    let mut i: usize = 0;
    assert(func.params@.take(0) =~= Seq::<ParamMdModel>::empty());
    assert(before_params + seq![] =~= before_params);
    while i < func.params.len()
        invariant
            i <= func.params@.len(),
            pairs_view(translations@) == before_params + params_pairs(
                func.params@.take(i as int),
                key@,
            ),
        decreases func.params.len() - i,
    {
        check_param(&func.params[i], key.as_str(), translations);
        assert(func.params@.take(i + 1).drop_last() =~= func.params@.take(i as int));
        assert(pairs_view(translations@) =~= before_params + params_pairs(
            func.params@.take(i + 1),
            key@,
        ));
        i += 1;
    }
    assert(func.params@.take(func.params@.len() as int) =~= func.params@);
    proof {
        vstd::std_specs::vec::axiom_vec_decreases_to_view(func.scope);
        assert(decreases_to!(*func => func.scope));
    }
    check_funcs(&func.scope, key.as_str(), translations);
    assert(pairs_view(translations@) =~= start + func_pairs(*func, k@));
}

/// Check the parameter for translations.
fn check_param(param: &ParamMdModel, k: &str, translations: &mut TranslationPairs)
    ensures
        pairs_view(final(translations)@) == pairs_view(old(translations)@) + param_pairs(
            *param,
            k@,
        ),
{
    let key = join_key(k, param.name.as_str());
    let details_k = join_key(key.as_str(), "details");
    check_html(&param.details, details_k.as_str(), translations);
}

/// Check the symbol for translations.
fn check_symbol(symbol: &SymbolMdModel, k: &str, translations: &mut TranslationPairs)
    ensures
        pairs_view(final(translations)@) == pairs_view(old(translations)@) + symbol_pairs(
            *symbol,
            k@,
        ),
{
    let ghost start = pairs_view(translations@);
    let mut key = String::from_str(k);
    crate::text::push_char(&mut key, '.');
    push_decimal(&mut key, symbol.codepoint as u64);
    assert(key@ =~= dot(k@, decimal(symbol.codepoint as nat)));
    match &symbol.deprecation {
        Some(deprecation) => push_pair(
            translations,
            join_key(key.as_str(), "deprecation"),
            deprecation.as_str(),
        ),
        None => {},
    }
    assert(pairs_view(translations@) =~= start + symbol_pairs(*symbol, k@));
}

/// Check the group for translations.
fn check_group(group: &GroupMdModel, k: &str, translations: &mut TranslationPairs)
    ensures
        pairs_view(final(translations)@) == pairs_view(old(translations)@) + group_pairs(
            *group,
            k@,
        ),
{
    let ghost start = pairs_view(translations@);
    let key = join_key(k, group.name.as_str());
    push_pair(translations, join_key(key.as_str(), "title"), group.title.as_str());
    let details_k = join_key(key.as_str(), "details");
    check_html(&group.details, details_k.as_str(), translations);
    check_funcs(&group.functions, key.as_str(), translations);
    assert(pairs_view(translations@) =~= start + group_pairs(*group, k@));
}

/// Check the type for translations.
fn check_type(type_: &TypeMdModel, k: &str, translations: &mut TranslationPairs)
    ensures
        pairs_view(final(translations)@) == pairs_view(old(translations)@) + type_pairs(
            *type_,
            k@,
        ),
{
    let ghost start = pairs_view(translations@);
    let key = join_key(k, type_.name.as_str());
    push_pair(translations, join_key(key.as_str(), "title"), type_.title.as_str());
    push_pair(translations, join_key(key.as_str(), "oneliner"), type_.oneliner.as_str());
    let details_k = join_key(key.as_str(), "details");
    check_html(&type_.details, details_k.as_str(), translations);
    match &type_.constructor {
        Some(constructor) => check_func(constructor, key.as_str(), translations),
        None => {},
    }
    check_funcs(&type_.scope, key.as_str(), translations);
    assert(pairs_view(translations@) =~= start + type_pairs(*type_, k@));
}

/// Check the symbols for translations.
fn check_symbols(symbols: &SymbolsMdModel, k: &str, translations: &mut TranslationPairs)
    ensures
        pairs_view(final(translations)@) == pairs_view(old(translations)@) + symbols_pairs(
            *symbols,
            k@,
        ),
{
    let ghost start = pairs_view(translations@);
    let key = join_key(k, symbols.name.as_str());
    push_pair(translations, join_key(key.as_str(), "title"), symbols.title.as_str());
    let details_k = join_key(key.as_str(), "details");
    check_html(&symbols.details, details_k.as_str(), translations);
    check_symbol_list(&symbols.list, key.as_str(), translations);
    assert(pairs_view(translations@) =~= start + symbols_pairs(*symbols, k@));
}

/// Check an HTML or Markdown text for translations.
fn check_html(html: &HtmlMd, k: &str, translations: &mut TranslationPairs)
    ensures
        pairs_view(final(translations)@) == pairs_view(old(translations)@) + html_pairs(*html, k@),
{
    let ghost start = pairs_view(translations@);
    match html {
        HtmlMd::Html(text) => push_pair(translations, String::from_str(k), text.as_str()),
        HtmlMd::Md(code) => push_pair(translations, String::from_str(k), code.as_str()),
    }
    assert(pairs_view(translations@) =~= start + html_pairs(*html, k@));
}

} // verus!
