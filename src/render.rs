//! The renderer: a single pass over Markdown events that writes Typst markup.
use vstd::prelude::*;

use crate::escape::{escape_typst, escaped};
use crate::event::{CodeBlockKind, Event, HeadingLevel, LinkType, Tag};
use crate::text::{debug_quote, debug_str, decimal, ends_with_newline, push_char, push_decimal};

verus! {

/// The state of the renderer: what it has written, whether that ends with a
/// line feed, one counter frame for each open list (`Some` with the number of
/// the next item in an ordered list, `None` in a bullet list), and whether it
/// is inside a code block.
pub ghost struct WriterState {
    pub out: Seq<char>,
    pub end_newline: bool,
    pub frames: Seq<Option<u64>>,
    pub in_raw: bool,
}

/// The state in which the conversion of a document starts.
pub open spec fn initial_state() -> WriterState {
    WriterState { out: seq![], end_newline: true, frames: seq![], in_raw: false }
}

/// Writes `s` and records whether the output now ends with a line feed; an
/// empty `s` leaves that record as it was.
pub open spec fn write(st: WriterState, s: Seq<char>) -> WriterState {
    WriterState {
        out: st.out + s,
        end_newline: if s.len() == 0 {
            st.end_newline
        } else {
            s.last() == '\n'
        },
        ..st
    }
}

/// Writing two texts one after the other is writing them joined.
pub proof fn lemma_write_then(st: WriterState, a: Seq<char>, b: Seq<char>)
    ensures
        write(write(st, a), b) == write(st, a + b),
{
    if b.len() == 0 {
        assert(a + b =~= a);
    } else {
        assert((a + b).last() == b.last());
    }
    assert(write(write(st, a), b).out =~= write(st, a + b).out);
}

/// Writes a line feed.
pub open spec fn write_newline(st: WriterState) -> WriterState {
    WriterState { out: st.out + seq!['\n'], end_newline: true, ..st }
}

/// The digit of a heading's depth.
pub open spec fn depth_char(level: HeadingLevel) -> char {
    match level {
        HeadingLevel::H1 => '1',
        HeadingLevel::H2 => '2',
        HeadingLevel::H3 => '3',
        HeadingLevel::H4 => '4',
        HeadingLevel::H5 => '5',
        HeadingLevel::H6 => '6',
    }
}

/// The number that follows `v` in an ordered list; it wraps around at the
/// largest `u64`.
pub open spec fn next_number(v: u64) -> u64 {
    if v == u64::MAX {
        0
    } else {
        (v + 1) as u64
    }
}

/// The opening of a link to `dest`.
pub open spec fn link_open(dest: Seq<char>) -> Seq<char> {
    "#link("@ + debug_str(dest) + ")["@
}

/// The destination that a link of the given kind points to.
pub open spec fn link_target(kind: LinkType, dest: Seq<char>) -> Seq<char> {
    if kind == LinkType::Email {
        "mailto:"@ + dest
    } else {
        dest
    }
}

/// The effect of the start of a tag.
pub open spec fn start_tag(st: WriterState, tag: Tag) -> WriterState {
    match tag {
        Tag::Paragraph => write(st, "\n\n"@),
        Tag::Heading(level, _, _) => write(
            st,
            "#heading(depth: "@ + seq![depth_char(level)] + ")["@,
        ),
        Tag::Table | Tag::TableHead | Tag::TableRow | Tag::TableCell => st,
        Tag::BlockQuote => write(st, "#quote["@),
        Tag::CodeBlock(kind) => {
            let opened = if st.end_newline {
                st
            } else {
                write_newline(st)
            };
            let fenced = WriterState { in_raw: true, ..write(opened, "``````"@) };
            let with_info = match kind {
                CodeBlockKind::Fenced(info) => write(fenced, info@),
                CodeBlockKind::Indented => fenced,
            };
            write(with_info, "\n"@)
        },
        Tag::List(start) => WriterState { frames: st.frames.push(start), ..st },
        Tag::Item => {
            if st.frames.len() > 0 && st.frames.last() is Some {
                let v = st.frames.last()->Some_0;
                WriterState {
                    frames: st.frames.update(st.frames.len() - 1, Some(next_number(v))),
                    ..write(st, "#enum.item("@ + decimal(v as nat) + ")["@)
                }
            } else {
                write(st, "#list.item["@)
            }
        },
        Tag::Emphasis => write(st, "#emph["@),
        Tag::Strong => write(st, "#strong["@),
        Tag::Strikethrough => write(st, "#strike["@),
        Tag::Link(kind, dest, _) => write(st, link_open(link_target(kind, dest@))),
        Tag::Image(_, _, _) => st,
        Tag::FootnoteDefinition(_) => st,
    }
}

/// The effect of the end of a tag.
pub open spec fn end_tag(st: WriterState, tag: Tag) -> WriterState {
    match tag {
        Tag::Paragraph => write(st, "\n"@),
        Tag::Heading(_, id, _) => {
            let closed = write(st, "];"@);
            match id {
                Some(id) => write(closed, " #label("@ + debug_str(id@) + ")"@),
                None => closed,
            }
        },
        Tag::Table | Tag::TableHead | Tag::TableRow | Tag::TableCell => st,
        Tag::BlockQuote => write(st, "];"@),
        Tag::CodeBlock(_) => write(WriterState { in_raw: false, ..st }, "``````\n"@),
        Tag::List(_) => {
            if st.frames.len() > 0 {
                WriterState { frames: st.frames.drop_last(), ..st }
            } else {
                st
            }
        },
        Tag::Item | Tag::Emphasis | Tag::Strong | Tag::Strikethrough | Tag::Link(_, _, _) => write(
            st,
            "];"@,
        ),
        Tag::Image(_, _, _) => st,
        Tag::FootnoteDefinition(_) => st,
    }
}

/// Whether an inline code span is wrapped in the two given characters.
pub open spec fn wrapped_in(text: Seq<char>, open: char, close: char) -> bool {
    text.len() >= 2 && text[0] == open && text.last() == close
}

/// The inner text of an inline code span that is wrapped in one of the two
/// pairs of brackets.
pub open spec fn unwrapped(text: Seq<char>) -> Seq<char> {
    text.subrange(1, text.len() - 1)
}

/// The effect of an inline code span: `[..]` becomes Typst markup, `{..}`
/// Typst code, anything else plain raw text.
pub open spec fn write_code(st: WriterState, text: Seq<char>) -> WriterState {
    if wrapped_in(text, '[', ']') {
        write(write(write(st, "```typ "@), unwrapped(text)), " ```"@)
    } else if wrapped_in(text, '{', '}') {
        write(write(write(st, "```typc "@), unwrapped(text)), " ```"@)
    } else {
        write(write(write(st, "``` "@), text), " ```"@)
    }
}

/// The effect of one event.
pub open spec fn event_step(st: WriterState, event: Event) -> WriterState {
    match event {
        Event::Start(tag) => start_tag(st, tag),
        Event::End(tag) => end_tag(st, tag),
        Event::Text(text) => if st.in_raw {
            write(st, text@)
        } else {
            write(st, escaped(text@))
        },
        Event::Code(text) => write_code(st, text@),
        Event::Html(html) => write(write(write(st, "```raw-html "@), html@), "```"@),
        Event::SoftBreak => write_newline(st),
        Event::HardBreak => write(st, "\n\n"@),
        Event::Rule => st,
        Event::FootnoteReference(_) => st,
        Event::TaskListMarker(_) => st,
    }
}

/// The effect of a sequence of events, in order.
pub open spec fn run_events(st: WriterState, events: Seq<Event>) -> WriterState
    decreases events.len(),
{
    if events.len() == 0 {
        st
    } else {
        event_step(run_events(st, events.drop_last()), events.last())
    }
}

/// `k` list items in a row, each opened and closed at once.
pub open spec fn item_events(k: nat) -> Seq<Event>
    decreases k,
{
    if k == 0 {
        seq![]
    } else {
        item_events((k - 1) as nat) + seq![Event::Start(Tag::Item), Event::End(Tag::Item)]
    }
}

/// The markup of `k` ordered-list items numbered from `n` on.
pub open spec fn numbered_items(n: nat, k: nat) -> Seq<char>
    decreases k,
{
    if k == 0 {
        seq![]
    } else {
        numbered_items(n, (k - 1) as nat) + ("#enum.item("@ + decimal((n + k - 1) as nat) + ")["@)
            + "];"@
    }
}

/// The items of an ordered list are numbered from the list's start on, one
/// counter for each list: opening a list inside others leaves the counters of
/// the enclosing lists as they are, and closing it gives them back unchanged.
pub proof fn lemma_ordered_list_numbering(st: WriterState, n: u64, k: nat)
    requires
        n + k <= u64::MAX,
    ensures
        ({
            let opened = start_tag(st, Tag::List(Some(n)));
            let after = run_events(opened, item_events(k));
            &&& after.frames == st.frames.push(Some((n + k) as u64))
            &&& after.out == st.out + numbered_items(n as nat, k)
            &&& end_tag(after, Tag::List(Some(n))).frames == st.frames
        }),
    decreases k,
{
    let opened = start_tag(st, Tag::List(Some(n)));
    if k == 0 {
        assert(item_events(0) =~= Seq::<Event>::empty());
        assert(st.out + numbered_items(n as nat, 0) =~= st.out);
    } else {
        lemma_ordered_list_numbering(st, n, (k - 1) as nat);
        let evs = item_events(k);
        let prev = item_events((k - 1) as nat);
        assert(evs.drop_last() =~= prev + seq![Event::Start(Tag::Item)]);
        assert(evs.drop_last().drop_last() =~= prev);
        let before = run_events(opened, prev);
        let v = (n + k - 1) as u64;
        assert(before.frames.last() == Some(v));
        let started = start_tag(before, Tag::Item);
        assert(started.frames =~= st.frames.push(Some((n + k) as u64)));
        assert(evs.last() == Event::End(Tag::Item));
        assert(evs.drop_last().last() == Event::Start(Tag::Item));
        assert(run_events(opened, evs.drop_last()) == event_step(before, Event::Start(Tag::Item)));
        assert(run_events(opened, evs) == event_step(started, Event::End(Tag::Item)));
        assert(end_tag(started, Tag::Item).out =~= st.out + numbered_items(n as nat, k));
        assert(st.frames.push(Some((n + k) as u64)).drop_last() =~= st.frames);
    }
    if k == 0 {
        assert(st.frames.push(Some(n)).drop_last() =~= st.frames);
    }
}

/// Whether an event opens or closes a list.
pub open spec fn is_list_event(e: Event) -> bool {
    match e {
        Event::Start(Tag::List(_)) => true,
        Event::End(Tag::List(_)) => true,
        _ => false,
    }
}

proof fn lemma_step_keeps_outer_frames(st: WriterState, e: Event)
    requires
        !is_list_event(e),
        st.frames.len() > 0,
    ensures
        event_step(st, e).frames.len() == st.frames.len(),
        event_step(st, e).frames.drop_last() == st.frames.drop_last(),
{
    if e == Event::Start(Tag::Item) && st.frames.last() is Some {
        let v = st.frames.last()->Some_0;
        assert(st.frames.update(st.frames.len() - 1, Some(next_number(v))).drop_last()
            =~= st.frames.drop_last());
    }
}

proof fn lemma_run_keeps_outer_frames(st: WriterState, body: Seq<Event>)
    requires
        forall|i: int| 0 <= i < body.len() ==> !is_list_event(#[trigger] body[i]),
        st.frames.len() > 0,
    ensures
        run_events(st, body).frames.len() == st.frames.len(),
        run_events(st, body).frames.drop_last() == st.frames.drop_last(),
    decreases body.len(),
{
    if body.len() > 0 {
        lemma_run_keeps_outer_frames(st, body.drop_last());
        assert(body.last() == body[body.len() - 1]);
        lemma_step_keeps_outer_frames(run_events(st, body.drop_last()), body.last());
    }
}

/// Whatever happens inside a list that opens no list of its own, closing
/// it gives back the counter frames of the enclosing lists exactly as they
/// were when it opened.
pub proof fn lemma_closing_a_list_restores_enclosing_frames(
    st: WriterState,
    start: Option<u64>,
    body: Seq<Event>,
    end: Option<u64>,
)
    requires
        forall|i: int| 0 <= i < body.len() ==> !is_list_event(#[trigger] body[i]),
    ensures
        end_tag(run_events(start_tag(st, Tag::List(start)), body), Tag::List(end)).frames
            == st.frames,
{
    let opened = start_tag(st, Tag::List(start));
    lemma_run_keeps_outer_frames(opened, body);
    assert(opened.frames.drop_last() =~= st.frames);
}

/// A text event writes its text escaped, or as it is inside a code block.
pub proof fn lemma_text_event(st: WriterState, events: Seq<Event>, text: String)
    ensures
        run_events(st, events.push(Event::Text(text))).out == run_events(st, events).out + if run_events(
            st,
            events,
        ).in_raw {
            text@
        } else {
            escaped(text@)
        },
{
    assert(events.push(Event::Text(text)).drop_last() =~= events);
}

/// Running two sequences of events one after the other is running them
/// joined.
pub proof fn lemma_run_concat(st: WriterState, a: Seq<Event>, b: Seq<Event>)
    ensures
        run_events(st, a + b) == run_events(run_events(st, a), b),
    decreases b.len(),
{
    if b.len() == 0 {
        assert(a + b =~= a);
    } else {
        lemma_run_concat(st, a, b.drop_last());
        assert((a + b).drop_last() =~= a + b.drop_last());
        assert((a + b).last() == b.last());
    }
}

/// The number of lists opened and not yet closed by a sequence of events.
pub open spec fn list_depth(events: Seq<Event>) -> int
    decreases events.len(),
{
    if events.len() == 0 {
        0
    } else {
        list_depth(events.drop_last()) + match events.last() {
            Event::Start(Tag::List(_)) => 1int,
            Event::End(Tag::List(_)) => -1int,
            _ => 0int,
        }
    }
}

/// Events that close no list they did not open, and that open an item only
/// where the counter it advances stands at index `m` or above.
pub open spec fn keeps_frames_below(events: Seq<Event>, depth: int, m: int) -> bool {
    &&& forall|i: int| 0 <= i <= events.len() ==> list_depth(#[trigger] events.take(i)) >= 0
    &&& forall|i: int|
        0 <= i < events.len() && #[trigger] events[i] == Event::Start(Tag::Item) ==> depth
            + list_depth(events.take(i)) - 1 >= m
}

proof fn lemma_frames_kept(st: WriterState, events: Seq<Event>, m: int)
    requires
        0 <= m <= st.frames.len(),
        keeps_frames_below(events, st.frames.len() as int, m),
    ensures
        run_events(st, events).frames.len() == st.frames.len() + list_depth(events),
        run_events(st, events).frames.take(m) == st.frames.take(m),
    decreases events.len(),
{
    if events.len() > 0 {
        let d = events.drop_last();
        let n = events.len() as int;
        assert forall|i: int| 0 <= i <= d.len() implies list_depth(#[trigger] d.take(i)) >= 0 by {
            assert(d.take(i) =~= events.take(i));
        }
        assert forall|i: int|
            0 <= i < d.len() && #[trigger] d[i] == Event::Start(Tag::Item) implies st.frames.len()
            + list_depth(d.take(i)) - 1 >= m by {
            assert(d.take(i) =~= events.take(i));
            assert(events[i] == d[i]);
        }
        lemma_frames_kept(st, d, m);
        assert(events.take(n) =~= events);
        assert(events.take(n - 1) =~= d);
        assert(list_depth(events.take(n)) >= 0);
        let r = run_events(st, d);
        let e = events.last();
        assert(e == events[n - 1]);
        if e == Event::Start(Tag::Item) && r.frames.len() > 0 && r.frames.last() is Some {
            let v = r.frames.last()->Some_0;
            assert(r.frames.update(r.frames.len() - 1, Some(next_number(v))).take(m) =~= r.frames.take(
                m,
            ));
        }
        match e {
            Event::Start(Tag::List(x)) => {
                assert(r.frames.push(x).take(m) =~= r.frames.take(m));
            },
            Event::End(Tag::List(_)) => {
                assert(r.frames.drop_last().take(m) =~= r.frames.take(m));
            },
            _ => {},
        }
    }
}

/// The items of a list, each opened, followed by its content, and closed.
pub open spec fn list_items(bodies: Seq<Seq<Event>>) -> Seq<Event>
    decreases bodies.len(),
{
    if bodies.len() == 0 {
        seq![]
    } else {
        list_items(bodies.drop_last()) + seq![Event::Start(Tag::Item)] + bodies.last() + seq![
            Event::End(Tag::Item),
        ]
    }
}

/// The content of an item: lists inside it are closed again, and items
/// inside it belong to those lists.
pub open spec fn item_body_ok(body: Seq<Event>) -> bool {
    &&& list_depth(body) == 0
    &&& keeps_frames_below(body, 1, 1)
}

/// The counter frame of a list with the given start after `k` items.
pub open spec fn counter_after(start: Option<u64>, k: nat) -> Option<u64> {
    match start {
        Some(n) => Some((n + k) as u64),
        None => None,
    }
}

/// The opening of an item in a list whose counter frame is `frame`.
pub open spec fn item_opener(frame: Option<u64>) -> Seq<char> {
    match frame {
        Some(v) => "#enum.item("@ + decimal(v as nat) + ")["@,
        None => "#list.item["@,
    }
}

/// The items of a list are numbered from the list's start on, whatever
/// lists are nested inside earlier items: after the first `k` items (here
/// all of `bodies`), the next item of an ordered list opens with number
/// `start + k` and an item of a bullet list with a plain bullet. The counter
/// frames of the enclosing lists are left as they are, and closing the list
/// gives them back unchanged.
pub proof fn lemma_list_numbering(
    st: WriterState,
    start: Option<u64>,
    bodies: Seq<Seq<Event>>,
    end: Option<u64>,
)
    requires
        forall|k: int| 0 <= k < bodies.len() ==> item_body_ok(#[trigger] bodies[k]),
        start is Some ==> start->Some_0 + bodies.len() <= u64::MAX,
    ensures
        ({
            let after = run_events(start_tag(st, Tag::List(start)), list_items(bodies));
            &&& after.frames == st.frames.push(counter_after(start, bodies.len()))
            &&& start_tag(after, Tag::Item).out == after.out + item_opener(
                counter_after(start, bodies.len()),
            )
            &&& end_tag(after, Tag::List(end)).frames == st.frames
        }),
    decreases bodies.len(),
{
    let opened = start_tag(st, Tag::List(start));
    let k = bodies.len();
    if k == 0 {
        assert(list_items(bodies) =~= Seq::<Event>::empty());
        if start is Some {
            assert(counter_after(start, 0) == start);
        }
    } else {
        let prev = bodies.drop_last();
        assert forall|j: int| 0 <= j < prev.len() implies item_body_ok(#[trigger] prev[j]) by {
            assert(prev[j] == bodies[j]);
        }
        lemma_list_numbering(st, start, prev, end);
        let x = list_items(prev);
        let body = bodies.last();
        assert(item_body_ok(bodies[k - 1]));
        let with_open = x + seq![Event::Start(Tag::Item)];
        let with_body = with_open + body;
        assert(list_items(bodies) == with_body + seq![Event::End(Tag::Item)]);
        assert((with_body + seq![Event::End(Tag::Item)]).drop_last() =~= with_body);
        assert(with_open.drop_last() =~= x);
        let before = run_events(opened, x);
        let item_open = run_events(opened, with_open);
        assert(item_open == start_tag(before, Tag::Item));
        assert(item_open.frames =~= st.frames.push(counter_after(start, k)));
        lemma_run_concat(opened, with_open, body);
        lemma_frames_kept(item_open, body, item_open.frames.len() as int);
        let after = run_events(opened, with_body);
        assert(after.frames.take(item_open.frames.len() as int) =~= after.frames);
        assert(item_open.frames.take(item_open.frames.len() as int) =~= item_open.frames);
        assert(st.frames.push(counter_after(start, k)).drop_last() =~= st.frames);
    }
    if k == 0 {
        assert(st.frames.push(counter_after(start, 0)).drop_last() =~= st.frames);
    }
}

/// The Typst markup of a sequence of events.
pub open spec fn rendered(events: Seq<Event>) -> Seq<char> {
    run_events(initial_state(), events).out
}

fn depth_digit(level: HeadingLevel) -> (c: char)
    ensures
        c == depth_char(level),
{
    match level {
        HeadingLevel::H1 => '1',
        HeadingLevel::H2 => '2',
        HeadingLevel::H3 => '3',
        HeadingLevel::H4 => '4',
        HeadingLevel::H5 => '5',
        HeadingLevel::H6 => '6',
    }
}

/// A writer that converts Markdown events to Typst markup.
struct TypstWriter {
    /// The markup written so far.
    writer: String,
    /// Whether or not the last write wrote a newline.
    end_newline: bool,
    /// One counter frame for each open list.
    in_enum: Vec<Option<u64>>,
    /// Whether or not we are in a code block.
    in_raw: bool,
}

impl View for TypstWriter {
    type V = WriterState;

    closed spec fn view(&self) -> WriterState {
        WriterState {
            out: self.writer@,
            end_newline: self.end_newline,
            frames: self.in_enum@,
            in_raw: self.in_raw,
        }
    }
}

impl TypstWriter {
    /// Creates a writer with nothing written.
    fn new() -> (w: Self)
        ensures
            w@ == initial_state(),
    {
        TypstWriter { writer: String::new(), end_newline: true, in_enum: Vec::new(), in_raw: false }
    }

    /// Writes a new line.
    fn write_newline(&mut self)
        ensures
            final(self)@ == write_newline(old(self)@),
    {
        self.end_newline = true;
        self.writer.append("\n");
        proof {
            reveal_strlit("\n");
        }
        assert("\n"@ =~= seq!['\n']);
    }

    /// Writes a buffer, and tracks whether or not a newline was written.
    fn write(&mut self, s: &str)
        ensures
            final(self)@ == write(old(self)@, s@),
    {
        self.writer.append(s);
        if !s.is_empty() {
            self.end_newline = ends_with_newline(s);
        }
    }

    /// Writes `#link("dest")[`.
    fn write_link_open(&mut self, dest: &str)
        ensures
            final(self)@ == write(old(self)@, link_open(dest@)),
    {
        let ghost st = self@;
        let quoted = debug_quote(dest);
        self.write("#link(");
        self.write(quoted.as_str());
        self.write(")[");
        proof {
            lemma_write_then(st, "#link("@, debug_str(dest@));
            lemma_write_then(st, "#link("@ + debug_str(dest@), ")["@);
        }
    }

    /// Writes the start of a tag.
    fn start_tag(&mut self, tag: &Tag)
        ensures
            final(self)@ == start_tag(old(self)@, *tag),
    {
        let ghost st = self@;
        match tag {
            Tag::Paragraph => self.write("\n\n"),
            Tag::Heading(level, _id, _classes) => {
                let mut depth = String::new();
                push_char(&mut depth, depth_digit(*level));
                self.write("#heading(depth: ");
                self.write(depth.as_str());
                self.write(")[");
                proof {
                    lemma_write_then(st, "#heading(depth: "@, depth@);
                    lemma_write_then(st, "#heading(depth: "@ + depth@, ")["@);
                    assert(depth@ =~= seq![depth_char(*level)]);
                }
            },
            Tag::Table => {},
            Tag::TableHead => {},
            Tag::TableRow => {},
            Tag::TableCell => {},
            Tag::BlockQuote => self.write("#quote["),
            Tag::CodeBlock(kind) => {
                if !self.end_newline {
                    self.write_newline();
                }
                self.write("``````");
                self.in_raw = true;
                match kind {
                    CodeBlockKind::Fenced(info) => self.write(info.as_str()),
                    CodeBlockKind::Indented => {},
                }
                self.write("\n");
            },
            Tag::List(start) => {
                self.in_enum.push(*start);
            },
            Tag::Item => {
                let n = self.in_enum.len();
                let top = if n > 0 {
                    self.in_enum[n - 1]
                } else {
                    None
                };
                match top {
                    Some(v) => {
                        let mut number = String::new();
                        push_decimal(&mut number, v);
                        self.write("#enum.item(");
                        self.write(number.as_str());
                        self.write(")[");
                        proof {
                            lemma_write_then(st, "#enum.item("@, number@);
                            lemma_write_then(st, "#enum.item("@ + number@, ")["@);
                            assert(number@ =~= decimal(v as nat));
                        }
                        let next = if v == u64::MAX {
                            0
                        } else {
                            v + 1
                        };
                        self.in_enum.set(n - 1, Some(next));
                        assert(self@.out =~= st.out + ("#enum.item("@ + decimal(v as nat)
                            + ")["@));
                    },
                    None => self.write("#list.item["),
                }
            },
            Tag::Emphasis => self.write("#emph["),
            Tag::Strong => self.write("#strong["),
            Tag::Strikethrough => self.write("#strike["),
            Tag::Link(kind, dest, _title) => {
                if matches!(kind, LinkType::Email) {
                    let mut mailto = String::from_str("mailto:");
                    mailto.append(dest.as_str());
                    self.write_link_open(mailto.as_str());
                } else {
                    self.write_link_open(dest.as_str());
                }
            },
            Tag::Image(_kind, _dest, _title) => {},
            Tag::FootnoteDefinition(_name) => {},
        }
    }

    /// Writes the end of a tag.
    fn end_tag(&mut self, tag: &Tag)
        ensures
            final(self)@ == end_tag(old(self)@, *tag),
    {
        let ghost st = self@;
        match tag {
            Tag::Paragraph => self.write("\n"),
            Tag::Heading(_level, id, _classes) => {
                self.write("];");
                match id {
                    Some(id) => {
                        let ghost closed = self@;
                        let quoted = debug_quote(id.as_str());
                        self.write(" #label(");
                        self.write(quoted.as_str());
                        self.write(")");
                        proof {
                            lemma_write_then(closed, " #label("@, debug_str(id@));
                            lemma_write_then(closed, " #label("@ + debug_str(id@), ")"@);
                        }
                    },
                    None => {},
                }
            },
            Tag::Table => {},
            Tag::TableHead => {},
            Tag::TableRow => {},
            Tag::TableCell => {},
            Tag::BlockQuote => self.write("];"),
            Tag::CodeBlock(_kind) => {
                self.in_raw = false;
                self.write("``````\n");
            },
            Tag::List(_start) => {
                self.in_enum.pop();
            },
            Tag::Item => self.write("];"),
            Tag::Emphasis => self.write("];"),
            Tag::Strong => self.write("];"),
            Tag::Strikethrough => self.write("];"),
            Tag::Link(_kind, _dest, _title) => self.write("];"),
            Tag::Image(_kind, _dest, _title) => {},
            Tag::FootnoteDefinition(_name) => {},
        }
    }

    /// Writes an inline code span.
    fn write_code(&mut self, text: &str)
        ensures
            final(self)@ == write_code(old(self)@, text@),
    {
        let n = text.unicode_len();
        if n >= 2 {
            let first = text.get_char(0);
            let last = text.get_char(n - 1);
            if first == '[' && last == ']' {
                self.write("```typ ");
                self.write(text.substring_char(1, n - 1));
                self.write(" ```");
                return ;
            } else if first == '{' && last == '}' {
                self.write("```typc ");
                self.write(text.substring_char(1, n - 1));
                self.write(" ```");
                return ;
            }
        }
        self.write("``` ");
        self.write(text);
        self.write(" ```");
    }

    /// Writes one event.
    fn write_event(&mut self, event: &Event)
        ensures
            final(self)@ == event_step(old(self)@, *event),
    {
        match event {
            Event::Start(tag) => self.start_tag(tag),
            Event::End(tag) => self.end_tag(tag),
            Event::Text(text) => {
                if self.in_raw {
                    self.write(text.as_str());
                } else {
                    let mut escaped_text = String::new();
                    escape_typst(&mut escaped_text, text.as_str());
                    self.write(escaped_text.as_str());
                }
            },
            Event::Code(text) => self.write_code(text.as_str()),
            Event::Html(html) => {
                self.write("```raw-html ");
                self.write(html.as_str());
                self.write("```");
            },
            Event::SoftBreak => self.write_newline(),
            Event::HardBreak => self.write("\n\n"),
            Event::Rule => {},
            Event::FootnoteReference(_name) => {},
            Event::TaskListMarker(_checked) => {},
        }
    }

    /// Writes all events, in order.
    fn run(&mut self, events: &Vec<Event>)
        ensures
            final(self)@ == run_events(old(self)@, events@),
    {
        let ghost st = self@;
        let mut i: usize = 0;
        while i < events.len()
            invariant
                0 <= i <= events.len(),
                self@ == run_events(st, events@.take(i as int)),
            decreases events.len() - i,
        {
            self.write_event(&events[i]);
            assert(events@.take(i + 1).drop_last() == events@.take(i as int));
            i += 1;
        }
        assert(events@.take(events.len() as int) == events@);
    }
}

/// Converts a sequence of Markdown events to Typst and appends the result to
/// `s`.
pub fn push_typst(s: &mut String, events: &Vec<Event>)
    ensures
        final(s)@ == old(s)@ + rendered(events@),
{
    let mut w = TypstWriter::new();
    w.run(events);
    s.append(w.writer.as_str());
}

} // verus!
