//! Assembling the Typst document from pages of content.
use vstd::prelude::*;

use crate::model::{
    BodyMdModel, CategoryMdModel, FuncMdModel, GroupMdModel, HtmlMd, PageMdModel, SymbolsMdModel,
    TypeMdModel, to_dot_path,
};
use crate::text::{contains_seq, contains_str, debug_quote, debug_str, dot, join_key, push_char};
use crate::translate::page_key;
use crate::translations::Translations;

verus! {

/// A typed index for a Typst page.
#[derive(Clone, Copy, Debug)]
pub struct TypstPageIdx(pub usize);

/// Represents the content of a Typst page.
pub enum TypstContent {
    /// HTML content.
    Html(String),
    /// Markdown content, with the prefix of the labels it defines.
    Md(String, String),
    /// Typst markup.
    Typ(String),
    /// A sequence of content.
    Sequence(Vec<TypstContent>),
}

/// A page of the Typst documentation.
pub struct TypstPage {
    /// The children pages.
    pub children: Vec<TypstPageIdx>,
    /// The body of the page.
    pub body: TypstContent,
}

/// A model for writing output.
pub trait Writer {
    /// Everything written so far.
    spec fn written(&self) -> Seq<char>;

    /// Writes a string to the output.
    fn push_str(&mut self, s: &str)
        ensures
            final(self).written() == old(self).written() + s@,
    ;

    /// Writes a character to the output.
    fn push(&mut self, c: char)
        ensures
            final(self).written() == old(self).written().push(c),
    ;
}

impl Writer for String {
    open spec fn written(&self) -> Seq<char> {
        self@
    }

    fn push_str(&mut self, s: &str) {
        self.append(s);
    }

    fn push(&mut self, c: char) {
        push_char(self, c);
    }
}

/// The markup of HTML content: a raw block.
pub open spec fn html_block(html: Seq<char>) -> Seq<char> {
    "\n"@ + ("```````html\n"@ + html + "\n```````\n"@)
}

/// The markup of Markdown content: a call that renders it, with the prefix
/// of the labels it defines.
pub open spec fn md_block(prefix: Seq<char>, md: Seq<char>) -> Seq<char> {
    "\n"@ + ("#render-md(label-prefix: "@ + debug_str(prefix) + ", ```````md\n"@ + md
        + "\n```````)\n"@)
}

/// The markup of one piece of content.
pub open spec fn content_text(c: TypstContent) -> Seq<char>
    decreases c,
{
    match c {
        TypstContent::Html(html) => html_block(html@),
        TypstContent::Md(prefix, md) => md_block(prefix@, md@),
        TypstContent::Typ(typ) => "\n"@ + typ@,
        TypstContent::Sequence(items) => "\n"@ + contents_text(items@),
    }
}

/// The markup of pieces of content, one after the other.
pub open spec fn contents_text(items: Seq<TypstContent>) -> Seq<char>
    decreases items,
{
    if items.len() == 0 {
        seq![]
    } else {
        contents_text(items.drop_last()) + content_text(items.last())
    }
}

/// The page break written before every page.
pub open spec fn pagebreak_text() -> Seq<char> {
    "\n\n#pagebreak();\n\n"@
}

/// Writes a page break to the output.
fn write_pagebreak<W: Writer>(result: &mut W)
    ensures
        final(result).written() == old(result).written() + pagebreak_text(),
{
    result.push_str("\n\n#pagebreak();\n\n");
}

impl TypstContent {
    /// Writes the content to the output.
    pub fn write<W: Writer>(&self, result: &mut W)
        ensures
            final(result).written() == old(result).written() + content_text(*self),
        decreases self,
    {
        let ghost start = result.written();
        result.push('\n');
        match self {
            TypstContent::Html(html) => {
                let ghost mid = result.written();
                result.push_str("```````html\n");
                result.push_str(html.as_str());
                result.push_str("\n```````\n");
                assert(result.written() =~= mid + ("```````html\n"@ + html@ + "\n```````\n"@));
            },
            TypstContent::Md(prefix, md) => {
                let ghost mid = result.written();
                let quoted = debug_quote(prefix.as_str());
                result.push_str("#render-md(label-prefix: ");
                result.push_str(quoted.as_str());
                result.push_str(", ```````md\n");
                result.push_str(md.as_str());
                result.push_str("\n```````)\n");
                assert(result.written() =~= mid + ("#render-md(label-prefix: "@ + debug_str(
                    prefix@,
                ) + ", ```````md\n"@ + md@ + "\n```````)\n"@));
            },
            TypstContent::Typ(typ) => result.push_str(typ.as_str()),
            TypstContent::Sequence(items) => {
                let ghost mid = result.written();
                let mut i: usize = 0;
                assert(items@.take(0) =~= Seq::<TypstContent>::empty());
                while i < items.len()
                    invariant
                        *self == TypstContent::Sequence(*items),
                        i <= items@.len(),
                        result.written() == mid + contents_text(items@.take(i as int)),
                    decreases items.len() - i,
                {
                    proof {
                        vstd::std_specs::vec::axiom_vec_index_decreases(*items, i as int);
                        assert(decreases_to!(*self => (*self)->Sequence_0));
                        assert(decreases_to!(*self => items[i as int]));
                    }
                    items[i].write(result);
                    assert(items@.take(i + 1).drop_last() =~= items@.take(i as int));
                    i += 1;
                }
                assert(items@.take(items@.len() as int) =~= items@);
            },
        }
        proof {
            reveal_strlit("\n");
        }
        assert(result.written() =~= start + content_text(*self));
    }
}

/// Why a page could not be generated.
#[derive(Clone, Debug, PartialEq, Eq)]
pub enum GenError {
    /// No translation is recorded under the key.
    MissingTranslation(String),
}

/// The table of translations as a map from keys to texts by language.
pub type TranslationTable = Map<Seq<char>, Map<Seq<char>, Seq<char>>>;

/// The text used for `key`: the Chinese translation, else the English
/// text, else the fallback; nothing when the key is not in the table.
pub open spec fn translation(t: TranslationTable, key: Seq<char>, fallback: Seq<char>) -> Option<
    Seq<char>,
> {
    if !t.contains_key(key) {
        None
    } else if t[key].contains_key("zh"@) {
        Some(t[key]["zh"@])
    } else if t[key].contains_key("en"@) {
        Some(t[key]["en"@])
    } else {
        Some(fallback)
    }
}

/// The markup generated for an HTML or Markdown text under key `k`.
pub open spec fn html_doc(t: TranslationTable, html: HtmlMd, k: Seq<char>) -> Option<Seq<char>> {
    match html {
        HtmlMd::Html(text) => match translation(t, k, text@) {
            Some(c) => Some(html_block(c)),
            None => None,
        },
        HtmlMd::Md(code) => match translation(t, k, code@) {
            Some(c) => Some(md_block(k, c)),
            None => None,
        },
    }
}

/// The markup of a heading, the one-liner (if any) and the details of an
/// item of the reference, each taken from the table under the item's key.
pub open spec fn item_doc(
    t: TranslationTable,
    k: Seq<char>,
    title: Seq<char>,
    oneliner: Option<Seq<char>>,
    details: HtmlMd,
) -> Option<Seq<char>> {
    let title = translation(t, dot(k, "title"@), title);
    let line = match oneliner {
        Some(o) => match translation(t, dot(k, "oneliner"@), o) {
            Some(c) => Some(md_block(dot(k, "oneliner"@), c)),
            None => None,
        },
        None => Some(seq![]),
    };
    let details = html_doc(t, details, dot(k, "details"@));
    if title is None || line is None || details is None {
        None
    } else {
        Some(
            "\n"@ + (("\n"@ + ("== "@ + title->Some_0)) + line->Some_0 + details->Some_0),
        )
    }
}

/// The markup generated for the body of a page under key `k`.
pub open spec fn body_doc(t: TranslationTable, body: BodyMdModel, k: Seq<char>) -> Option<
    Seq<char>,
> {
    match body {
        BodyMdModel::Html(html) => html_doc(t, html, dot(k, "body"@)),
        BodyMdModel::Category(c) => item_doc(t, dot(k, c.name@), c.title@, None, c.details),
        BodyMdModel::Func(f) => item_doc(t, dot(k, f.name@), f.title@, Some(f.oneliner@), f.details),
        BodyMdModel::Group(g) => item_doc(t, dot(k, g.name@), g.title@, None, g.details),
        BodyMdModel::Type(ty) => item_doc(
            t,
            dot(k, ty.name@),
            ty.title@,
            Some(ty.oneliner@),
            ty.details,
        ),
        BodyMdModel::Symbols(sy) => item_doc(t, dot(k, sy.name@), sy.title@, None, sy.details),
        BodyMdModel::Packages(html) => html_doc(t, html, dot(k, "packages"@)),
    }
}

/// The markup of the content of a page of its own: title, description and
/// body.
pub open spec fn own_doc(t: TranslationTable, page: PageMdModel) -> Option<Seq<char>> {
    let k = page_key(page.route@);
    let title = translation(t, dot(k, "title"@), page.title@);
    let description = translation(t, dot(k, "description"@), page.description@);
    let body = body_doc(t, page.body, k);
    if title is None || description is None || body is None {
        None
    } else {
        Some(
            "\n"@ + (md_block(dot(k, "title"@), "## "@ + title->Some_0) + md_block(
                dot(k, "description"@),
                "### "@ + description->Some_0,
            ) + body->Some_0),
        )
    }
}

/// Whether a page is a changelog page, which is left out of the document.
pub open spec fn is_changelog(page: PageMdModel) -> bool {
    contains_seq(page.route@, "changelog"@)
}

/// Whether every translation that a page and its children need is in the
/// table; a changelog page needs only those of its children.
pub open spec fn page_ok(t: TranslationTable, page: PageMdModel) -> bool
    decreases page,
{
    pages_ok(t, page.children@) && (is_changelog(page) || own_doc(t, page) is Some)
}

/// Whether every page of a list is fine.
pub open spec fn pages_ok(t: TranslationTable, pages: Seq<PageMdModel>) -> bool
    decreases pages,
{
    pages.len() == 0 || (pages_ok(t, pages.drop_last()) && page_ok(t, pages.last()))
}

/// The markup of a page and of its children, each after a page break.
pub open spec fn page_doc(t: TranslationTable, page: PageMdModel) -> Seq<char>
    decreases page,
{
    pagebreak_text() + own_doc(t, page)->Some_0 + children_doc(t, page.children@)
}

/// The markup of the children of a page that are not changelog pages, each
/// after one more page break.
pub open spec fn children_doc(t: TranslationTable, pages: Seq<PageMdModel>) -> Seq<char>
    decreases pages,
{
    if pages.len() == 0 {
        seq![]
    } else if is_changelog(pages.last()) {
        children_doc(t, pages.drop_last())
    } else {
        children_doc(t, pages.drop_last()) + (pagebreak_text() + page_doc(t, pages.last()))
    }
}

/// The number of pages that generating a page adds: those of its children,
/// and one for the page itself unless it is a changelog page.
pub open spec fn page_count(page: PageMdModel) -> nat
    decreases page,
{
    pages_count(page.children@) + if is_changelog(page) {
        0nat
    } else {
        1nat
    }
}

/// The number of pages that generating a list of pages adds.
pub open spec fn pages_count(pages: Seq<PageMdModel>) -> nat
    decreases pages,
{
    if pages.len() == 0 {
        0
    } else {
        pages_count(pages.drop_last()) + page_count(pages.last())
    }
}

/// The indices of the pages generated for the children `cs` that are not
/// changelog pages, when the first of them is generated at index `base`:
/// each child's page comes last among those generated for it.
pub open spec fn child_indices(base: int, cs: Seq<PageMdModel>) -> Seq<int>
    decreases cs.len(),
{
    if cs.len() == 0 {
        seq![]
    } else if is_changelog(cs.last()) {
        child_indices(base, cs.drop_last())
    } else {
        child_indices(base, cs.drop_last()).push(base + pages_count(cs) - 1)
    }
}

/// The indices of a list of page indices.
pub open spec fn indices(cs: Seq<TypstPageIdx>) -> Seq<int> {
    cs.map_values(|c: TypstPageIdx| c.0 as int)
}

/// The markup of the page at index `k` of `pages` and of its children.
pub open spec fn page_text(pages: Seq<TypstPage>, k: int) -> Seq<char>
    decreases k, 1nat, 0nat,
{
    if 0 <= k < pages.len() {
        pagebreak_text() + content_text(pages[k].body) + children_text(
            pages,
            pages[k].children@,
            k,
        )
    } else {
        seq![]
    }
}

/// The markup of the children `cs` of a page at index `k`, each after one
/// more page break.
pub open spec fn children_text(pages: Seq<TypstPage>, cs: Seq<TypstPageIdx>, k: int) -> Seq<char>
    decreases k, 0nat, cs.len(),
{
    if cs.len() == 0 {
        seq![]
    } else {
        children_text(pages, cs.drop_last(), k) + if 0 <= cs.last().0 < k {
            pagebreak_text() + page_text(pages, cs.last().0 as int)
        } else {
            seq![]
        }
    }
}

/// Every child of a page comes before the page.
pub open spec fn pages_wf(pages: Seq<TypstPage>) -> bool {
    forall|i: int, j: int|
        0 <= i < pages.len() && 0 <= j < pages[i].children@.len() ==> (
        #[trigger] pages[i].children@[j]).0 < i
}


proof fn lemma_contents_two(a: TypstContent, b: TypstContent)
    ensures
        contents_text(seq![a, b]) == content_text(a) + content_text(b),
{
    assert(seq![a, b].drop_last() =~= seq![a]);
    assert(seq![a].drop_last() =~= Seq::<TypstContent>::empty());
    assert(contents_text(Seq::<TypstContent>::empty()) == Seq::<char>::empty());
    assert(Seq::<char>::empty() + content_text(a) =~= content_text(a));
    assert(contents_text(seq![a]) =~= content_text(a));
}

proof fn lemma_contents_three(a: TypstContent, b: TypstContent, c: TypstContent)
    ensures
        contents_text(seq![a, b, c]) == content_text(a) + content_text(b) + content_text(c),
{
    assert(seq![a, b, c].drop_last() =~= seq![a, b]);
    lemma_contents_two(a, b);
}

proof fn lemma_children_text_guard(p: Seq<TypstPage>, cs: Seq<TypstPageIdx>, k1: int, k2: int)
    requires
        forall|j: int| 0 <= j < cs.len() ==> (#[trigger] cs[j]).0 < k1 && cs[j].0 < k2,
    ensures
        children_text(p, cs, k1) == children_text(p, cs, k2),
    decreases cs.len(),
{
    if cs.len() > 0 {
        lemma_children_text_guard(p, cs.drop_last(), k1, k2);
    }
}

proof fn lemma_page_text_stable(p: Seq<TypstPage>, q: Seq<TypstPage>, k: int)
    requires
        pages_wf(p),
        p.len() <= q.len(),
        q.subrange(0, p.len() as int) == p,
        0 <= k < p.len(),
    ensures
        page_text(q, k) == page_text(p, k),
    decreases k, 1nat, 0nat,
{
    assert(q[k] == q.subrange(0, p.len() as int)[k]);
    assert forall|j: int| 0 <= j < p[k].children@.len() implies (#[trigger] p[k].children@[j]).0
        < k by {}
    lemma_children_text_stable(p, q, p[k].children@, k);
}

proof fn lemma_children_text_stable(
    p: Seq<TypstPage>,
    q: Seq<TypstPage>,
    cs: Seq<TypstPageIdx>,
    k: int,
)
    requires
        pages_wf(p),
        p.len() <= q.len(),
        q.subrange(0, p.len() as int) == p,
        k <= p.len(),
        forall|j: int| 0 <= j < cs.len() ==> (#[trigger] cs[j]).0 < k,
    ensures
        children_text(q, cs, k) == children_text(p, cs, k),
    decreases k, 0nat, cs.len(),
{
    if cs.len() > 0 {
        lemma_children_text_stable(p, q, cs.drop_last(), k);
        let c = cs.last().0 as int;
        assert(cs.last() == cs[cs.len() - 1]);
        lemma_page_text_stable(p, q, c);
    }
}

proof fn lemma_pages_ok_elem(t: TranslationTable, s: Seq<PageMdModel>, j: int)
    requires
        pages_ok(t, s),
        0 <= j < s.len(),
    ensures
        page_ok(t, s[j]),
    decreases s.len(),
{
    if j < s.len() - 1 {
        assert(s.drop_last()[j] == s[j]);
        lemma_pages_ok_elem(t, s.drop_last(), j);
    }
}

/// Writes the page at index `k` and its children.
fn write_page_at<W: Writer>(ctx: &GenContext, k: usize, result: &mut W)
    requires
        pages_wf(ctx.pages()),
        k < ctx.pages().len(),
    ensures
        final(result).written() == old(result).written() + page_text(ctx.pages(), k as int),
    decreases k,
{
    let ghost start = result.written();
    let page = ctx.get_page(TypstPageIdx(k)).unwrap();
    write_pagebreak(result);
    page.body.write(result);
    let ghost head = result.written();
    let mut i: usize = 0;
    assert(page.children@.take(0) =~= Seq::<TypstPageIdx>::empty());
    assert(head + seq![] =~= head);
    while i < page.children.len()
        invariant
            pages_wf(ctx.pages()),
            k < ctx.pages().len(),
            *page == ctx.pages()[k as int],
            i <= page.children@.len(),
            result.written() == head + children_text(ctx.pages(), page.children@.take(i as int), k as int),
        decreases page.children.len() - i,
    {
        let child = page.children[i].0;
        assert(child < k);
        let ghost before = result.written();
        write_pagebreak(result);
        write_page_at(ctx, child, result);
        assert(page.children@.take(i + 1).drop_last() =~= page.children@.take(i as int));
        assert(page.children@.take(i + 1).last() == page.children@[i as int]);
        assert(result.written() =~= before + (pagebreak_text() + page_text(ctx.pages(), child as int)));
        i += 1;
    }
    assert(page.children@.take(page.children@.len() as int) =~= page.children@);
    assert(result.written() =~= start + page_text(ctx.pages(), k as int));
}

impl TypstPage {
    /// Writes the page to the output: a page break and the body, then each
    /// child after one more page break.
    pub fn write<W: Writer>(&self, ctx: &GenContext, result: &mut W)
        requires
            pages_wf(ctx.pages()),
            forall|j: int| 0 <= j < self.children@.len() ==> (#[trigger] self.children@[j]).0 < ctx.pages().len(),
        ensures
            final(result).written() == old(result).written() + pagebreak_text() + content_text(
                self.body,
            ) + children_text(ctx.pages(), self.children@, ctx.pages().len() as int),
    {
        let ghost start = result.written();
        write_pagebreak(result);
        self.body.write(result);
        let ghost head = result.written();
        let n = ctx.pages.len();
        let mut i: usize = 0;
        assert(self.children@.take(0) =~= Seq::<TypstPageIdx>::empty());
        assert(head + seq![] =~= head);
        while i < self.children.len()
            invariant
                pages_wf(ctx.pages()),
                n == ctx.pages().len(),
                forall|j: int| 0 <= j < self.children@.len() ==> (#[trigger] self.children@[j]).0 < n,
                i <= self.children@.len(),
                result.written() == head + children_text(ctx.pages(), self.children@.take(i as int), n as int),
            decreases self.children.len() - i,
        {
            let child = self.children[i].0;
            let ghost before = result.written();
            write_pagebreak(result);
            write_page_at(ctx, child, result);
            assert(self.children@.take(i + 1).drop_last() =~= self.children@.take(i as int));
            assert(self.children@.take(i + 1).last() == self.children@[i as int]);
            assert(result.written() =~= before + (pagebreak_text() + page_text(ctx.pages(), child as int)));
            i += 1;
        }
        assert(self.children@.take(self.children@.len() as int) =~= self.children@);
        assert(result.written() =~= start + pagebreak_text() + content_text(self.body) + children_text(ctx.pages(), self.children@, n as int));
    }
}

/// A context for generating Typst documentation.
pub struct GenContext<'a> {
    /// The translations for the documentation.
    transations: &'a Translations,
    /// The output pages.
    pages: Vec<TypstPage>,
}

impl<'a> GenContext<'a> {
    /// The table of translations.
    pub closed spec fn table(&self) -> TranslationTable {
        self.transations@
    }

    /// The pages generated so far.
    pub closed spec fn pages(&self) -> Seq<TypstPage> {
        self.pages@
    }

    /// Creates a new context for generating Typst documentation.
    pub fn new(transations: &'a Translations) -> (r: Self)
        ensures
            r.table() == transations@,
            r.pages() == Seq::<TypstPage>::empty(),
    {
        GenContext { transations, pages: Vec::new() }
    }

    /// Gets the translation for a key.
    fn get_translation(&self, key: &str, fallback: &str) -> (r: Result<String, GenError>)
        ensures
            r is Ok <==> translation(self.table(), key@, fallback@) is Some,
            r is Ok ==> r->Ok_0@ == translation(self.table(), key@, fallback@)->Some_0,
            r is Err ==> r->Err_0->MissingTranslation_0@ == key@,
    {
        match self.transations.get(key) {
            None => Err(GenError::MissingTranslation(String::from_str(key))),
            Some(dict) => {
                proof {
                    reveal_strlit("zh");
                    reveal_strlit("en");
                }
                match dict.get("zh") {
                    Some(text) => Ok(text.clone()),
                    None => match dict.get("en") {
                        Some(text) => Ok(text.clone()),
                        None => Ok(String::from_str(fallback)),
                    },
                }
            },
        }
    }

    /// Generates an HTML or Markdown content.
    fn generate_html(&self, html: &HtmlMd, k: &str) -> (r: Result<TypstContent, GenError>)
        ensures
            r is Ok <==> html_doc(self.table(), *html, k@) is Some,
            r is Ok ==> content_text(r->Ok_0) == html_doc(self.table(), *html, k@)->Some_0,
            r is Err ==> !self.table().contains_key(r->Err_0->MissingTranslation_0@),
    {
        match html {
            HtmlMd::Html(html) => {
                let content = self.get_translation(k, html.as_str())?;
                Ok(TypstContent::Html(content))
            },
            HtmlMd::Md(code) => {
                let content = self.get_translation(k, code.as_str())?;
                Ok(TypstContent::Md(String::from_str(k), content))
            },
        }
    }

    /// Generates the heading, the one-liner (if any) and the details of an
    /// item of the reference under its key `k`.
    fn generate_item(
        &self,
        k: &str,
        title: &str,
        oneliner: Option<&str>,
        details: &HtmlMd,
    ) -> (r: Result<TypstContent, GenError>)
        ensures
            r is Ok <==> item_doc(
                self.table(),
                k@,
                title@,
                match oneliner {
                    Some(o) => Some(o@),
                    None => None,
                },
                *details,
            ) is Some,
            r is Ok ==> content_text(r->Ok_0) == item_doc(
                self.table(),
                k@,
                title@,
                match oneliner {
                    Some(o) => Some(o@),
                    None => None,
                },
                *details,
            )->Some_0,
            r is Err ==> !self.table().contains_key(r->Err_0->MissingTranslation_0@),
    {
        let ghost line_view = match oneliner {
            Some(o) => Some(o@),
            None => None::<Seq<char>>,
        };
        let title_k = join_key(k, "title");
        let title_text = self.get_translation(title_k.as_str(), title)?;
        let mut heading_text = String::from_str("== ");
        heading_text.append(title_text.as_str());
        let heading = TypstContent::Typ(heading_text);
        proof {
            reveal_strlit("== ");
        }
        match oneliner {
            Some(line) => {
                let oneliner_k = join_key(k, "oneliner");
                let line_text = self.get_translation(oneliner_k.as_str(), line)?;
                let line_content = TypstContent::Md(oneliner_k, line_text);
                let details_k = join_key(k, "details");
                let details_content = self.generate_html(details, details_k.as_str())?;
                proof {
                    lemma_contents_three(heading, line_content, details_content);
                }
                let r = TypstContent::Sequence(vec![heading, line_content, details_content]);
                assert(content_text(r) =~= item_doc(self.table(), k@, title@, line_view, *details)->Some_0);
                Ok(r)
            },
            None => {
                let details_k = join_key(k, "details");
                let details_content = self.generate_html(details, details_k.as_str())?;
                proof {
                    lemma_contents_two(heading, details_content);
                }
                let r = TypstContent::Sequence(vec![heading, details_content]);
                assert(content_text(r) =~= item_doc(self.table(), k@, title@, line_view, *details)->Some_0);
                Ok(r)
            },
        }
    }

    /// Generates a body of Typst documentation.
    fn generate_body(&self, body: &BodyMdModel, k: &str) -> (r: Result<TypstContent, GenError>)
        ensures
            r is Ok <==> body_doc(self.table(), *body, k@) is Some,
            r is Ok ==> content_text(r->Ok_0) == body_doc(self.table(), *body, k@)->Some_0,
            r is Err ==> !self.table().contains_key(r->Err_0->MissingTranslation_0@),
    {
        match body {
            BodyMdModel::Html(html) => {
                let k = join_key(k, "body");
                self.generate_html(html, k.as_str())
            },
            BodyMdModel::Category(category) => {
                let k = join_key(k, category.name.as_str());
                self.generate_item(k.as_str(), category.title.as_str(), None, &category.details)
            },
            BodyMdModel::Func(func) => {
                let k = join_key(k, func.name.as_str());
                self.generate_item(
                    k.as_str(),
                    func.title.as_str(),
                    Some(func.oneliner.as_str()),
                    &func.details,
                )
            },
            BodyMdModel::Group(group) => {
                let k = join_key(k, group.name.as_str());
                self.generate_item(k.as_str(), group.title.as_str(), None, &group.details)
            },
            BodyMdModel::Type(type_) => {
                let k = join_key(k, type_.name.as_str());
                self.generate_item(
                    k.as_str(),
                    type_.title.as_str(),
                    Some(type_.oneliner.as_str()),
                    &type_.details,
                )
            },
            BodyMdModel::Symbols(symbols) => {
                let k = join_key(k, symbols.name.as_str());
                self.generate_item(k.as_str(), symbols.title.as_str(), None, &symbols.details)
            },
            BodyMdModel::Packages(html) => {
                let k = join_key(k, "packages");
                self.generate_html(html, k.as_str())
            },
        }
    }

    /// Generates a logic page of Typst documentation: first the pages of its
    /// children, then, unless it is a changelog page, the page itself, whose
    /// index is returned.
    pub fn generate_page(&mut self, page: &PageMdModel) -> (r: Result<
        Option<TypstPageIdx>,
        GenError,
    >)
        requires
            pages_wf(old(self).pages()),
        ensures
            final(self).table() == old(self).table(),
            pages_wf(final(self).pages()),
            old(self).pages().len() <= final(self).pages().len(),
            final(self).pages().subrange(0, old(self).pages().len() as int) == old(self).pages(),
            r is Ok <==> page_ok(old(self).table(), *page),
            r is Err ==> !old(self).table().contains_key(r->Err_0->MissingTranslation_0@),
            r is Ok ==> (r->Ok_0 is None <==> is_changelog(*page)),
            r is Ok ==> final(self).pages().len() == old(self).pages().len() + page_count(*page),
            r is Ok && r->Ok_0 is Some ==> ({
                let idx = r->Ok_0->Some_0.0 as int;
                &&& idx == final(self).pages().len() - 1
                &&& indices(final(self).pages()[idx].children@) == child_indices(
                    old(self).pages().len() as int,
                    page.children@,
                )
                &&& page_text(final(self).pages(), idx) == page_doc(old(self).table(), *page)
            }),
        decreases *page,
    {
        let ghost t = self.transations@;
        let ghost start_pages = self.pages@;
        let mut children: Vec<TypstPageIdx> = Vec::new();
        let mut i: usize = 0;
        assert(page.children@.take(0) =~= Seq::<PageMdModel>::empty());
        assert(self.pages@.subrange(0, start_pages.len() as int) =~= start_pages);
        assert(indices(children@) =~= Seq::<int>::empty());
        while i < page.children.len()
            invariant
                self.transations@ == t,
                t == old(self).table(),
                start_pages == old(self).pages(),
                pages_wf(self.pages@),
                start_pages.len() <= self.pages@.len(),
                self.pages@.subrange(0, start_pages.len() as int) == start_pages,
                i <= page.children@.len(),
                pages_ok(t, page.children@.take(i as int)),
                self.pages@.len() == start_pages.len() + pages_count(page.children@.take(i as int)),
                indices(children@) == child_indices(
                    start_pages.len() as int,
                    page.children@.take(i as int),
                ),
                forall|j: int| 0 <= j < children@.len() ==> (#[trigger] children@[j]).0 < self.pages@.len(),
                children_text(self.pages@, children@, self.pages@.len() as int) == children_doc(
                    t,
                    page.children@.take(i as int),
                ),
            decreases page.children.len() - i,
        {
            let ghost before_pages = self.pages@;
            let ghost before_children = children@;
            let ghost child = page.children@[i as int];
            proof {
                vstd::std_specs::vec::axiom_vec_index_decreases(page.children, i as int);
            }
            let r = self.generate_page(&page.children[i]);
            let ghost new_pages = self.pages@;
            proof {
                assert(new_pages.subrange(0, start_pages.len() as int) =~= start_pages) by {
                    assert(new_pages.subrange(0, before_pages.len() as int) == before_pages);
                    assert(new_pages.subrange(0, start_pages.len() as int) =~= before_pages.subrange(
                        0,
                        start_pages.len() as int,
                    ));
                };
                lemma_children_text_guard(
                    new_pages,
                    before_children,
                    new_pages.len() as int,
                    before_pages.len() as int,
                );
                lemma_children_text_stable(
                    before_pages,
                    new_pages,
                    before_children,
                    before_pages.len() as int,
                );
                assert(page.children@.take(i + 1).drop_last() =~= page.children@.take(i as int));
                assert(page.children@.take(i + 1).last() == child);
            }
            match r {
                Err(e) => {
                    proof {
                        if pages_ok(t, page.children@) {
                            lemma_pages_ok_elem(t, page.children@, i as int);
                        }
                    }
                    return Err(e);
                },
                Ok(Some(idx)) => {
                    children.push(idx);
                    proof {
                        assert(indices(children@) =~= indices(before_children).push(idx.0 as int));
                        assert(children@.drop_last() =~= before_children);
                        assert(children@.last() == idx);
                        assert(children_text(new_pages, children@, new_pages.len() as int)
                            =~= children_text(new_pages, before_children, new_pages.len() as int)
                            + (pagebreak_text() + page_text(new_pages, idx.0 as int)));
                    }
                },
                Ok(None) => {},
            }
            i += 1;
        }
        assert(page.children@.take(page.children@.len() as int) =~= page.children@);
        if contains_str(page.route.as_str(), "changelog") {
            return Ok(None);
        }
        let dotted = to_dot_path(page.route.as_str());
        let k = if dotted.as_str().is_empty() {
            String::from_str("index")
        } else {
            dotted
        };
        assert(k@ == page_key(page.route@));
        let title_k = join_key(k.as_str(), "title");
        let title = self.get_translation(title_k.as_str(), page.title.as_str())?;
        let description_k = join_key(k.as_str(), "description");
        let description = self.get_translation(description_k.as_str(), page.description.as_str())?;
        let body = self.generate_body(&page.body, k.as_str())?;
        let mut title_md = String::from_str("## ");
        title_md.append(title.as_str());
        let mut description_md = String::from_str("### ");
        description_md.append(description.as_str());
        proof {
            reveal_strlit("## ");
            reveal_strlit("### ");
        }
        let title_content = TypstContent::Md(title_k, title_md);
        let description_content = TypstContent::Md(description_k, description_md);
        proof {
            lemma_contents_three(title_content, description_content, body);
        }
        let content = TypstContent::Sequence(vec![title_content, description_content, body]);
        assert(content_text(content) =~= own_doc(t, *page)->Some_0);
        let ghost old_pages = self.pages@;
        let n = self.pages.len();
        let ghost ch = children@;
        self.pages.push(TypstPage { children, body: content });
        proof {
            let new_pages = self.pages@;
            assert(new_pages[n as int].children@ == ch);
            assert(new_pages.subrange(0, n as int) =~= old_pages);
            assert(new_pages.subrange(0, start_pages.len() as int) =~= start_pages) by {
                assert(new_pages.subrange(0, start_pages.len() as int) =~= old_pages.subrange(
                    0,
                    start_pages.len() as int,
                ));
            };
            assert(pages_wf(new_pages)) by {
                assert forall|a: int, b: int|
                    0 <= a < new_pages.len() && 0 <= b < new_pages[a].children@.len() implies (
                    #[trigger] new_pages[a].children@[b]).0 < a by {
                    if a < n {
                        assert(new_pages[a] == old_pages[a]);
                    } else {
                        assert(ch[b].0 < n);
                    }
                }
            };
            lemma_children_text_stable(old_pages, new_pages, ch, n as int);
        }
        Ok(Some(TypstPageIdx(n)))
    }

    /// Gets a page by index.
    pub fn get_page(&self, page: TypstPageIdx) -> (r: Option<&TypstPage>)
        ensures
            r is Some <==> page.0 < self.pages().len(),
            r is Some ==> *r->Some_0 == self.pages()[page.0 as int],
    {
        if page.0 < self.pages.len() {
            Some(&self.pages[page.0])
        } else {
            None
        }
    }
}

} // verus!
