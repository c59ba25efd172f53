//! The structural Markdown events that the converter consumes.
use vstd::prelude::*;

verus! {

/// The depth of a heading.
#[derive(Clone, Copy, Debug, PartialEq, Eq)]
pub enum HeadingLevel {
    H1,
    H2,
    H3,
    H4,
    H5,
    H6,
}

/// How a link or an image was written in the source.
#[derive(Clone, Copy, Debug, PartialEq, Eq)]
pub enum LinkType {
    /// `[foo](bar)`
    Inline,
    /// `[foo][bar]`
    Reference,
    /// `[foo][bar]` whose reference was filled in by a callback.
    ReferenceUnknown,
    /// `[foo][]`
    Collapsed,
    /// `[foo][]` whose reference was filled in by a callback.
    CollapsedUnknown,
    /// `[foo]`
    Shortcut,
    /// `[foo]` whose reference was filled in by a callback.
    ShortcutUnknown,
    /// `<https://example.org>`
    Autolink,
    /// `<john@example.org>`
    Email,
}

/// How a code block was written.
#[derive(Clone, Debug, PartialEq, Eq)]
pub enum CodeBlockKind {
    /// Indented by four spaces.
    Indented,
    /// Between fences, with the info string after the opening fence.
    Fenced(String),
}

/// A block or inline construct that has a start and an end.
#[derive(Clone, Debug, PartialEq, Eq)]
pub enum Tag {
    Paragraph,
    /// The level, the optional identifier and the classes of a heading.
    Heading(HeadingLevel, Option<String>, Vec<String>),
    Table,
    TableHead,
    TableRow,
    TableCell,
    BlockQuote,
    CodeBlock(CodeBlockKind),
    /// A list; ordered lists carry the number of their first item.
    List(Option<u64>),
    Item,
    Emphasis,
    Strong,
    Strikethrough,
    /// The kind, the destination and the title of a link.
    Link(LinkType, String, String),
    /// The kind, the path and the title of an image.
    Image(LinkType, String, String),
    FootnoteDefinition(String),
}

/// One event of a Markdown document, in document order.
#[derive(Clone, Debug, PartialEq, Eq)]
pub enum Event {
    Start(Tag),
    End(Tag),
    Text(String),
    /// An inline code span.
    Code(String),
    Html(String),
    FootnoteReference(String),
    SoftBreak,
    HardBreak,
    Rule,
    TaskListMarker(bool),
}

} // verus!
