//! The pass that checks and rewrites links and images before rendering.
use vstd::prelude::*;

use crate::event::{Event, LinkType, Tag};
use crate::render::{event_step, push_typst, rendered, run_events, WriterState};
use crate::text::{chars_of, strip_end, strip_start};

verus! {

/// Why the conversion of a document was aborted.
#[derive(Clone, Debug, PartialEq, Eq)]
pub enum HandleError {
    /// A link written in a way that the converter does not support.
    UnsupportedLinkType(LinkType),
    /// A link whose destination could not be resolved: the destination and
    /// the reason.
    InvalidLink(String, String),
}

/// The kinds of links that a document may contain.
pub open spec fn link_supported(kind: LinkType) -> bool {
    kind == LinkType::Inline || kind == LinkType::Reference || kind == LinkType::ShortcutUnknown
        || kind == LinkType::Autolink
}

/// The kind of an unsupported link that `event` opens, if it opens one.
pub open spec fn unsupported_link(event: Event) -> Option<LinkType> {
    match event {
        Event::Start(Tag::Link(kind, _, _)) => if link_supported(kind) {
            None
        } else {
            Some(kind)
        },
        _ => None,
    }
}

/// The kind of the first unsupported link among `events`.
pub open spec fn first_unsupported(events: Seq<Event>) -> Option<LinkType>
    decreases events.len(),
{
    if events.len() == 0 {
        None
    } else if unsupported_link(events[0]) is Some {
        unsupported_link(events[0])
    } else {
        first_unsupported(events.drop_first())
    }
}

/// `new` is `old` with the path of an image and the destination of a link
/// replaced by their resolved forms, which are the same text.
pub open spec fn resolved_as(old: Event, new: Event) -> bool {
    match old {
        Event::Start(Tag::Image(kind, path, title)) => match new {
            Event::Start(Tag::Image(kind2, path2, title2)) => kind2 == kind && path2@ == path@
                && title2 == title,
            _ => false,
        },
        Event::Start(Tag::Link(kind, dest, title)) => match new {
            Event::Start(Tag::Link(kind2, dest2, title2)) => kind2 == kind && dest2@ == dest@
                && title2 == title,
            _ => false,
        },
        _ => new == old,
    }
}

/// A handler for Markdown events: it resolves image paths and link
/// destinations and refuses links of unsupported kinds.
pub struct Handler {}

impl Handler {
    /// Creates a new `Handler`.
    pub fn new() -> (h: Self) {
        Handler {  }
    }

    /// Resolves the path of an image; paths are kept as they are.
    pub fn handle_image(&self, link: &str) -> (r: String)
        ensures
            r@ == link@,
    {
        String::from_str(link)
    }

    /// Resolves the destination of a link; destinations are kept as they are.
    pub fn handle_link(&self, link: &str) -> (r: Result<String, String>)
        ensures
            r is Ok,
            r->Ok_0@ == link@,
    {
        Ok(String::from_str(link))
    }

    /// Handles one event: rewrites an image path or a link destination, and
    /// fails on a link of an unsupported kind, leaving the event unchanged.
    pub fn handle(&mut self, event: &mut Event) -> (r: Result<(), HandleError>)
        ensures
            r is Err <==> unsupported_link(*old(event)) is Some,
            r is Err ==> r == Err::<(), HandleError>(
                HandleError::UnsupportedLinkType(unsupported_link(*old(event))->Some_0),
            ),
            r is Err ==> *final(event) == *old(event),
            r is Ok ==> resolved_as(*old(event), *final(event)),
    {
        match event {
            Event::Start(Tag::Image(_kind, path, _title)) => {
                *path = self.handle_image(path.as_str());
                Ok(())
            },
            Event::Start(Tag::Link(kind, dest, _title)) => {
                if !matches!(
                    kind,
                    LinkType::Inline | LinkType::Reference | LinkType::ShortcutUnknown
                        | LinkType::Autolink
                ) {
                    return Err(HandleError::UnsupportedLinkType(*kind));
                }
                match self.handle_link(dest.as_str()) {
                    Ok(link) => {
                        *dest = link;
                        Ok(())
                    },
                    Err(err) => Err(HandleError::InvalidLink(dest.clone(), err)),
                }
            },
            _ => Ok(()),
        }
    }
}

/// The destination and the text of the link made for a reference `[foo]`
/// that the document does not define: `$foo` (without enclosing backticks)
/// and `foo`. Only shortcut references are made into links.
pub fn resolve_broken_link(kind: LinkType, reference: &str) -> (r: Option<(String, String)>)
    ensures
        r is Some <==> kind == LinkType::Shortcut,
        r is Some ==> r->Some_0.0@ == seq!['$'] + strip_end(strip_start(reference@, '`'), '`'),
        r is Some ==> r->Some_0.1@ == reference@,
{
    if !matches!(kind, LinkType::Shortcut) {
        return None;
    }
    let chars = chars_of(reference);
    let n = chars.len();
    let mut i: usize = 0;
    assert(reference@.subrange(0, n as int) =~= reference@);
    while i < n && chars[i] == '`'
        invariant
            i <= n == chars@.len(),
            chars@ == reference@,
            strip_start(reference@, '`') == strip_start(reference@.subrange(i as int, n as int), '`'),
        decreases n - i,
    {
        assert(reference@.subrange(i as int, n as int).drop_first() =~= reference@.subrange(
            i + 1,
            n as int,
        ));
        i += 1;
    }
    assert(strip_start(reference@, '`') == reference@.subrange(i as int, n as int));
    let mut j: usize = n;
    while j > i && chars[j - 1] == '`'
        invariant
            i <= j <= n == chars@.len(),
            chars@ == reference@,
            strip_end(reference@.subrange(i as int, n as int), '`') == strip_end(
                reference@.subrange(i as int, j as int),
                '`',
            ),
        decreases j,
    {
        assert(reference@.subrange(i as int, j as int).drop_last() =~= reference@.subrange(
            i as int,
            j - 1,
        ));
        j -= 1;
    }
    assert(strip_end(reference@.subrange(i as int, j as int), '`') == reference@.subrange(
        i as int,
        j as int,
    ));
    let mut dest = String::from_str("$");
    dest.append(reference.substring_char(i, j));
    proof {
        reveal_strlit("$");
        assert(dest@ =~= seq!['$'] + reference@.subrange(i as int, j as int));
    }
    Some((dest, String::from_str(reference)))
}

/// Rendering reads a resolved path or destination only through its text, so
/// an event and its resolved form have the same effect.
proof fn lemma_resolved_same_step(st: WriterState, old: Event, new: Event)
    requires
        resolved_as(old, new),
    ensures
        event_step(st, old) == event_step(st, new),
{
}

proof fn lemma_resolved_same_run(st: WriterState, olds: Seq<Event>, news: Seq<Event>)
    requires
        olds.len() == news.len(),
        forall|k: int| 0 <= k < olds.len() ==> resolved_as(#[trigger] olds[k], news[k]),
    ensures
        run_events(st, olds) == run_events(st, news),
    decreases olds.len(),
{
    if olds.len() > 0 {
        lemma_resolved_same_run(st, olds.drop_last(), news.drop_last());
        lemma_resolved_same_step(run_events(st, olds.drop_last()), olds.last(), news.last());
    }
}

/// Converts the events of a document to Typst: every event is handled first,
/// and the first link of an unsupported kind aborts the conversion.
pub fn convert_events(events: Vec<Event>) -> (r: Result<String, HandleError>)
    ensures
        r is Err <==> first_unsupported(events@) is Some,
        r is Err ==> r == Err::<String, HandleError>(
            HandleError::UnsupportedLinkType(first_unsupported(events@)->Some_0),
        ),
        r is Ok ==> r->Ok_0@ == rendered(events@),
{
    let ghost orig = events@;
    let mut handled = events;
    let mut handler = Handler::new();
    let n = handled.len();
    let mut i: usize = 0;
    assert(orig.subrange(0, n as int) =~= orig);
    while i < n
        invariant
            i <= n == handled@.len() == orig.len(),
            orig == events@,
            forall|k: int| 0 <= k < i ==> resolved_as(#[trigger] orig[k], handled@[k]),
            forall|k: int| i <= k < n ==> #[trigger] handled@[k] == orig[k],
            first_unsupported(orig) == first_unsupported(orig.subrange(i as int, n as int)),
        decreases n - i,
    {
        match handler.handle(&mut handled[i]) {
            Err(e) => {
                assert(orig[i as int] == orig.subrange(i as int, n as int)[0]);
                return Err(e);
            },
            Ok(()) => {},
        }
        assert(orig.subrange(i as int, n as int).drop_first() =~= orig.subrange(i + 1, n as int));
        i += 1;
    }
    proof {
        lemma_resolved_same_run(crate::render::initial_state(), orig, handled@);
    }
    let mut s = String::new();
    push_typst(&mut s, &handled);
    Ok(s)
}

} // verus!
