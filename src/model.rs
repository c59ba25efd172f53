//! The documentation pages, as read from their JSON form.
use vstd::prelude::*;

verus! {

/// Details about a documentation page and its children.
pub struct PageMdModel {
    /// The route to the page.
    pub route: String,
    /// The title of the page.
    pub title: String,
    /// The description of the page.
    pub description: String,
    /// The part of the page.
    pub part: Option<String>,
    /// The outline of the page.
    pub outline: Vec<OutlineMdItem>,
    /// The body of the page.
    pub body: BodyMdModel,
    /// The children of the page.
    pub children: Vec<PageMdModel>,
}

/// An element in the "On This Page" outline.
pub struct OutlineMdItem {
    /// The ID of the item.
    pub id: String,
    /// The name of the item.
    pub name: String,
    /// The children of the item.
    pub children: Vec<OutlineMdItem>,
}

/// The body of a documentation page.
pub enum BodyMdModel {
    /// An HTML or Markdown ready to be rendered.
    Html(HtmlMd),
    /// A category of functions.
    Category(CategoryMdModel),
    /// Details about a function.
    Func(FuncMdModel),
    /// A group of functions.
    Group(GroupMdModel),
    /// Details about a type.
    Type(TypeMdModel),
    /// A collection of symbols.
    Symbols(SymbolsMdModel),
    /// A list of packages.
    Packages(HtmlMd),
}

/// Details about a function.
pub struct FuncMdModel {
    /// The path to the function.
    pub path: Vec<String>,
    /// The name of the function.
    pub name: String,
    /// The title of the function.
    pub title: String,
    /// The keywords of the function.
    pub keywords: Vec<String>,
    /// A one-liner description of the function.
    pub oneliner: String,
    /// Whether the function is an element.
    pub element: bool,
    /// Whether the function is contextual.
    pub contextual: bool,
    /// The deprecation message.
    pub deprecation: Option<String>,
    /// The details of the function.
    pub details: HtmlMd,
    /// This example is only for nested function models. Others can have
    /// their example directly in their details.
    pub example: Option<HtmlMd>,
    /// Whether the function is a method.
    pub self_: bool,
    /// The parameters of the function.
    pub params: Vec<ParamMdModel>,
    /// The return types of the function.
    pub returns: Vec<String>,
    /// The scope of the function.
    pub scope: Vec<FuncMdModel>,
}

/// Details about a function parameter.
pub struct ParamMdModel {
    /// The name of the parameter.
    pub name: String,
    /// The details of the parameter.
    pub details: HtmlMd,
    /// An example of the parameter.
    pub example: Option<HtmlMd>,
    /// The types of the parameter.
    pub types: Vec<String>,
    /// The strings that can be passed as the parameter.
    pub strings: Vec<StrParamMd>,
    /// The default value of the parameter.
    pub default: Option<HtmlMd>,
    /// Whether the parameter is positional.
    pub positional: bool,
    /// Whether the parameter is named.
    pub named: bool,
    /// Whether the parameter is required.
    pub required: bool,
    /// Whether the parameter is variadic.
    pub variadic: bool,
    /// Whether the parameter is settable.
    pub settable: bool,
}

/// Details about a category.
pub struct CategoryMdModel {
    /// The name of the category.
    pub name: String,
    /// The title of the category.
    pub title: String,
    /// The details of the category.
    pub details: HtmlMd,
    /// The items in the category.
    pub items: Vec<CategoryMdItem>,
    /// The shorthands in the category.
    pub shorthands: Option<ShorthandsMdModel>,
}

/// An HTML or Markdown string.
pub enum HtmlMd {
    /// A Markdown string.
    Md(String),
    /// An HTML string.
    Html(String),
}

/// A specific string that can be passed as an argument.
pub struct StrParamMd {
    /// The string.
    pub string: String,
    /// The details of the string.
    pub details: HtmlMd,
}

/// Details about a group of functions.
pub struct GroupMdModel {
    /// The name of the group.
    pub name: String,
    /// The title of the group.
    pub title: String,
    /// The details of the group.
    pub details: HtmlMd,
    /// The functions in the group.
    pub functions: Vec<FuncMdModel>,
}

/// Details about a type.
pub struct TypeMdModel {
    /// The name of the type.
    pub name: String,
    /// The title of the type.
    pub title: String,
    /// The keywords of the type.
    pub keywords: Vec<String>,
    /// A one-liner description of the type.
    pub oneliner: String,
    /// The details of the type.
    pub details: HtmlMd,
    /// The constructor of the type.
    pub constructor: Option<FuncMdModel>,
    /// The scope of the type.
    pub scope: Vec<FuncMdModel>,
}

/// A collection of symbols.
pub struct SymbolsMdModel {
    /// The name of the symbols.
    pub name: String,
    /// The title of the symbols.
    pub title: String,
    /// The details of the symbols.
    pub details: HtmlMd,
    /// The list of symbols.
    pub list: Vec<SymbolMdModel>,
}

/// Details about a category item.
pub struct CategoryMdItem {
    /// The name of the item.
    pub name: String,
    /// The route to the item.
    pub route: String,
    /// A one-liner description of the item.
    pub oneliner: String,
    /// Whether the item is a code.
    pub code: bool,
}

/// Shorthands listed on a category page.
pub struct ShorthandsMdModel {
    /// The markup shorthands.
    pub markup: Vec<SymbolMdModel>,
    /// The math shorthands.
    pub math: Vec<SymbolMdModel>,
}

/// Details about a symbol.
pub struct SymbolMdModel {
    /// The name of the symbol.
    pub name: String,
    /// The codepoint of the symbol.
    pub codepoint: u32,
    /// Whether the symbol is an accent.
    pub accent: bool,
    /// The alternates of the symbol.
    pub alternates: Vec<String>,
    /// The markup shorthand of the symbol.
    pub markup_shorthand: Option<String>,
    /// The math shorthand of the symbol.
    pub math_shorthand: Option<String>,
    /// The math class of the symbol.
    pub math_class: Option<String>,
    /// The deprecation message.
    pub deprecation: Option<String>,
}

/// The text of an HTML or Markdown string.
pub open spec fn html_text(html: HtmlMd) -> Seq<char> {
    match html {
        HtmlMd::Md(code) => code@,
        HtmlMd::Html(text) => text@,
    }
}

/// The route of a page as a dotted key: without leading and trailing
/// slashes, and with every other slash replaced by a dot.
pub open spec fn dot_path(route: Seq<char>) -> Seq<char> {
    slashes_to_dots(crate::text::strip_end(crate::text::strip_start(route, '/'), '/'))
}

/// `s` with every slash replaced by a dot.
pub open spec fn slashes_to_dots(s: Seq<char>) -> Seq<char> {
    s.map_values(|c: char| if c == '/' { '.' } else { c })
}

/// Convert a path to a dot path.
pub fn to_dot_path(path: &str) -> (r: String)
    ensures
        r@ == dot_path(path@),
{
    let chars = crate::text::chars_of(path);
    let n = chars.len();
    let mut i: usize = 0;
    assert(path@.subrange(0, n as int) =~= path@);
    while i < n && chars[i] == '/'
        invariant
            i <= n == chars@.len(),
            chars@ == path@,
            crate::text::strip_start(path@, '/') == crate::text::strip_start(
                path@.subrange(i as int, n as int),
                '/',
            ),
        decreases n - i,
    {
        assert(path@.subrange(i as int, n as int).drop_first() =~= path@.subrange(i + 1, n as int));
        i += 1;
    }
    let mut j: usize = n;
    while j > i && chars[j - 1] == '/'
        invariant
            i <= j <= n == chars@.len(),
            chars@ == path@,
            crate::text::strip_end(path@.subrange(i as int, n as int), '/')
                == crate::text::strip_end(path@.subrange(i as int, j as int), '/'),
        decreases j,
    {
        assert(path@.subrange(i as int, j as int).drop_last() =~= path@.subrange(
            i as int,
            j - 1,
        ));
        j -= 1;
    }
    let ghost trimmed = path@.subrange(i as int, j as int);
    assert(crate::text::strip_end(trimmed, '/') == trimmed);
    let mut r = String::new();
    let mut k: usize = i;
    while k < j
        invariant
            i <= k <= j <= n == chars@.len(),
            chars@ == path@,
            r@ == slashes_to_dots(path@.subrange(i as int, k as int)),
        decreases j - k,
    {
        let c = chars[k];
        crate::text::push_char(&mut r, if c == '/' { '.' } else { c });
        assert(slashes_to_dots(path@.subrange(i as int, k + 1)) =~= slashes_to_dots(
            path@.subrange(i as int, k as int),
        ).push(if c == '/' { '.' } else { c }));
        k += 1;
    }
    r
}

} // verus!
