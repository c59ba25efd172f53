//! Markdown to Typst conversion and paragraph splitting for translating the
//! Typst documentation.
//!
//! The converter takes a document as a sequence of structural Markdown
//! events, checks its links and images in a first pass ([`Handler`]), and
//! writes Typst markup in a second ([`push_typst`]). The splitter cuts a
//! Markdown text into the paragraphs that serve as translation units, keeping
//! every fenced code block whole ([`split_markdown`]).
//!
//! Around these stand the keys under which the texts of the documentation
//! pages are translated ([`translate`]), the assembly of the translated
//! document from those pages ([`generate`]), and the files that hold long
//! texts paragraph by paragraph ([`storage`]).

pub mod escape;
pub mod event;
pub mod generate;
pub mod handler;
pub mod model;
pub mod render;
pub mod split;
pub mod storage;
pub mod text;
pub mod translate;
pub mod translations;

pub use escape::escape_typst;
pub use event::{CodeBlockKind, Event, HeadingLevel, LinkType, Tag};
pub use handler::{convert_events, resolve_broken_link, HandleError, Handler};
pub use model::{
    BodyMdModel, CategoryMdItem, CategoryMdModel, FuncMdModel, GroupMdModel, HtmlMd,
    OutlineMdItem, PageMdModel, ParamMdModel, ShorthandsMdModel, StrParamMd, SymbolMdModel,
    SymbolsMdModel, TypeMdModel,
};
pub use render::push_typst;
pub use split::split_markdown;
