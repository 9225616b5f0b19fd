//! The event dispatcher: a single forward pass over the events that keeps
//! the container stack, the pending line and the table being collected, and
//! hands finished lines to the emitter.
use vstd::prelude::*;
use crate::event::{CodeKind, DocEvent, LinkKind, Reference, Construct};
use crate::lines::{
    Emitter, Frame, Style, after_emit, single_line_markers, single_lines,
    lemma_padding_single_line, lemma_trim_prefix, pad_of, blank_lines_collapsed, flush_lines, joined, line_text,
    marked, pending_lines, split_from, write_padding,
    flush_each,
};
use crate::refs::{find_by_dest, sort_references, sorted_by_label};
use crate::table::{
    Table, cell_filed, lemma_table_lines_up, push_divider, push_row, row_text, table_texts,
    table_widths,
};
use crate::text::{trim_end, eq_ignoring_ascii_case, chars_of, push_chars, push_str, trim_end_exec};

verus! {

/// Rewrites the content of fenced code blocks; implemented by users of the
/// library to format the code of a given language.
pub trait CodeFormat {
    /// The new content for code of language `lang`, or `None` to keep it.
    fn format_code(&self, lang: &str, code: &str) -> Option<String>;
}

/// Characters that are escaped at the start of a text fragment.
pub open spec fn always_escaped(c: char) -> bool {
    c == '\\' || c == '<' || c == '>' || c == '*' || c == '_' || c == '`' || c == '[' || c == ']'
        || c == '~'
}

/// Whether a backslash goes before the text fragment `s`.
pub open spec fn needs_escape(
    in_code: bool,
    fenced: bool,
    in_table: bool,
    line_empty: bool,
    s: Seq<char>,
) -> bool {
    if in_code {
        fenced && s.len() >= 3 && s[0] == '`' && s[1] == '`' && s[2] == '`'
    } else if s.len() == 0 {
        false
    } else if in_table && s[0] == '|' {
        true
    } else if always_escaped(s[0]) {
        true
    } else if s[0] == '#' || s[0] == '-' || s[0] == '+' {
        line_empty
    } else {
        false
    }
}

/// Outside code blocks, a text fragment that begins with one of
/// `\ < > * _ ` [ ] ~` is written after a backslash, so that its first
/// character reads back as text and not as markup.
pub proof fn lemma_markup_start_escaped(s: Seq<char>, in_table: bool, line_empty: bool)
    requires
        s.len() > 0,
        always_escaped(s[0]),
    ensures
        needs_escape(false, false, in_table, line_empty, s),
{
}

/// The line of a reference definition: `[label]: dest "title"`.
pub open spec fn reference_line(r: Reference) -> Seq<char> {
    seq!['['] + r.label@ + seq![']', ':', ' '] + r.dest@ + match r.title {
        Some(t) => seq![' ', '"'] + t@ + seq!['"'],
        None => Seq::empty(),
    }
}

/// `n` number signs.
pub open spec fn hashes(n: nat) -> Seq<char> {
    Seq::new(n, |i: int| '#')
}

/// What the start of an inline construct adds to the pending line.
pub open spec fn inline_open(tag: Construct, style: Style) -> Option<Seq<char>> {
    match tag {
        Construct::Heading(level, _, _) => Some(hashes(level as nat).push(' ')),
        Construct::Emphasis => Some(style.emphasis@),
        Construct::Strong => Some(seq!['*', '*']),
        Construct::Strikethrough => Some(seq!['~', '~']),
        Construct::Link(typ, _, _) => Some(
            if typ == LinkKind::Autolink || typ == LinkKind::Email {
                seq!['<']
            } else {
                seq!['[']
            },
        ),
        Construct::Image(_, _, _) => Some(seq!['!', '[']),
        _ => None,
    }
}

/// What the end of an inline construct adds to the pending line, for all
/// but reference links, whose end depends on the definitions.
pub open spec fn inline_close(tag: Construct, style: Style) -> Option<Seq<char>> {
    match tag {
        Construct::Emphasis => Some(style.emphasis@),
        Construct::Strong => Some(seq!['*', '*']),
        Construct::Strikethrough => Some(seq!['~', '~']),
        Construct::Link(typ, dest, title) => match typ {
            LinkKind::Shortcut | LinkKind::ShortcutUnknown => Some(seq![']']),
            LinkKind::Collapsed | LinkKind::CollapsedUnknown => Some(seq![']', '[', ']']),
            LinkKind::Autolink | LinkKind::Email => Some(seq!['>']),
            LinkKind::Inline => Some(destination_text(dest@, title@)),
            _ => None,
        },
        Construct::Image(_, dest, title) => Some(destination_text(dest@, title@)),
        _ => None,
    }
}

/// ` "title"`, or nothing for an empty title.
pub open spec fn title_part(title: Seq<char>) -> Seq<char> {
    if title.len() > 0 {
        seq![' ', '"'] + title + seq!['"']
    } else {
        Seq::empty()
    }
}

/// The inline end of a link: `](dest "title")`.
pub open spec fn destination_text(dest: Seq<char>, title: Seq<char>) -> Seq<char> {
    seq![']', '('] + dest + title_part(title) + seq![')']
}

/// `i` is the first definition whose destination matches `dest`, ignoring
/// ASCII case.
pub open spec fn first_match(refs: Seq<Reference>, dest: Seq<char>, i: int) -> bool {
    &&& 0 <= i < refs.len()
    &&& eq_ignoring_ascii_case(dest, refs[i].dest@)
    &&& forall|j: int| 0 <= j < i ==> !eq_ignoring_ascii_case(dest, #[trigger] refs[j].dest@)
}

/// Some definition's destination matches `dest`, ignoring ASCII case.
pub open spec fn has_match(refs: Seq<Reference>, dest: Seq<char>) -> bool {
    exists|i: int| 0 <= i < refs.len() && eq_ignoring_ascii_case(dest, #[trigger] refs[i].dest@)
}

/// `b` is `a` but for the parts flagged: the output, the stack, the pending
/// line, the table, the pending block boundary and the code block.
pub open spec fn same_except(
    a: Renderer,
    b: Renderer,
    em: bool,
    stack: bool,
    buf: bool,
    table: bool,
    nl: bool,
    code: bool,
) -> bool {
    &&& b.refdefs@ == a.refdefs@
    &&& b.style == a.style
    &&& b.code_fmt == a.code_fmt
    &&& !em ==> b.em.lines@ == a.em.lines@
    &&& !stack ==> b.stack@ == a.stack@
    &&& !buf ==> b.text_buf@ == a.text_buf@
    &&& !table ==> b.table == a.table
    &&& !nl ==> b.newline_required == a.newline_required
    &&& !code ==> b.code_block == a.code_block
}

/// `b` is `a` with nothing changed that decides the output.
pub open spec fn unchanged(a: Renderer, b: Renderer) -> bool {
    same_except(a, b, false, false, false, false, false, false)
}

/// `b` is `a` with `t` added to the pending line.
pub open spec fn appended(a: Renderer, b: Renderer, t: Seq<char>) -> bool {
    &&& same_except(a, b, false, false, true, false, false, false)
    &&& b.text_buf@ == a.text_buf@ + t
}

/// `b` is `a` once its pending line has become output lines.
pub open spec fn flushed(a: Renderer, b: Renderer, trim: bool) -> bool {
    &&& same_except(a, b, true, true, true, false, false, false)
    &&& b.em.lines@ == flush_lines(
        a.em.lines@,
        a.stack@,
        a.style,
        pending_lines(a.text_buf@),
        trim,
    )
    &&& b.stack@ == marked(a.stack@)
    &&& b.text_buf@.len() == 0
}

/// `b` is `a` once a pending block boundary has been written.
pub open spec fn boundary_passed(a: Renderer, b: Renderer) -> bool {
    if a.newline_required {
        &&& same_except(a, b, true, true, true, false, true, false)
        &&& b.em.lines@ == flush_lines(
            a.em.lines@,
            a.stack@,
            a.style,
            pending_lines(a.text_buf@),
            true,
        )
        &&& b.stack@ == marked(a.stack@)
        &&& b.text_buf@.len() == 0
        &&& !b.newline_required
    } else {
        unchanged(a, b)
    }
}

/// The stack with the innermost list item marked as needing a blank line
/// before the next one.
pub open spec fn separated(s: Seq<Frame>) -> Seq<Frame> {
    if s.len() > 0 {
        match s.last() {
            Frame::List(m, w, _) => s.update(s.len() - 1, Frame::List(m, w, true)),
            _ => s,
        }
    } else {
        s
    }
}

/// The stack with the innermost list starting a new item.
pub open spec fn item_reset(s: Seq<Frame>) -> Seq<Frame> {
    if s.len() > 0 {
        match s.last() {
            Frame::List(m, _, _) => s.update(s.len() - 1, Frame::List(m, false, false)),
            _ => s,
        }
    } else {
        s
    }
}

/// The stack without its innermost frame.
pub open spec fn popped(s: Seq<Frame>) -> Seq<Frame> {
    if s.len() > 0 {
        s.drop_last()
    } else {
        s
    }
}

/// The innermost frame is a list.
pub open spec fn last_is_list(s: Seq<Frame>) -> bool {
    s.len() > 0 && s.last() is List
}

/// Some frame is a list.
pub open spec fn any_list(s: Seq<Frame>) -> bool {
    exists|i: int| 0 <= i < s.len() && (#[trigger] s[i]) is List
}

/// The backslash written before text `t`, if it needs one.
pub open spec fn escape_of(a: Renderer, t: Seq<char>) -> Seq<char> {
    if needs_escape(
        a.code_block is Some,
        a.code_block matches Some(Some(_)),
        a.table is Some,
        a.text_buf@.len() == 0,
        t,
    ) {
        seq!['\\']
    } else {
        Seq::empty()
    }
}

/// The classes of a heading, each as ` .class`.
pub open spec fn classes_text(cs: Seq<String>) -> Seq<char>
    decreases cs.len(),
{
    if cs.len() == 0 {
        Seq::empty()
    } else {
        classes_text(cs.drop_last()) + seq![' ', '.'] + cs.last()@
    }
}

/// The attribute group `{ #id .class }` of a heading, or nothing.
pub open spec fn attributes_text(id: Option<String>, cs: Seq<String>) -> Seq<char> {
    if id is Some || cs.len() > 0 {
        seq!['{'] + match id {
            Some(i) => seq![' ', '#'] + i@,
            None => Seq::empty(),
        } + classes_text(cs) + seq![' ', '}']
    } else {
        Seq::empty()
    }
}

/// The end of a reference link: `][label]` for the first definition whose
/// destination matches, else the inline form.
pub open spec fn reference_close(refs: Seq<Reference>, dest: Seq<char>, title: Seq<char>) -> Seq<
    char,
> {
    if has_match(refs, dest) {
        seq![']', '['] + refs[choose|i: int| first_match(refs, dest, i)].label@ + seq![']']
    } else {
        destination_text(dest, title)
    }
}

/// The lines of a table as written: the pending line runs into the header.
pub open spec fn table_lines(buf: Seq<char>, t: Table) -> Seq<Seq<char>> {
    let texts = table_texts(t);
    texts.update(0, buf + texts[0])
}

/// What the start of `tag` does once any pending block boundary is written.
pub open spec fn start_step(m: Renderer, b: Renderer, tag: Construct) -> bool {
    match tag {
        Construct::BlockQuote => same_except(m, b, false, true, false, false, false, false)
            && b.stack@ == m.stack@.push(Frame::BlockQuote),
        Construct::CodeBlock(CodeKind::Indented) => exists|m1: Renderer|
            (if m.text_buf@.len() > 0 {
                flushed(m, m1, true)
            } else {
                unchanged(m, m1)
            }) && same_except(m1, b, false, true, false, false, false, true) && b.stack@
                == m1.stack@.push(Frame::CodeIndent) && b.code_block == Some(None::<String>),
        Construct::CodeBlock(CodeKind::Fenced(info)) => exists|m1: Renderer, m2: Renderer, m3: Renderer|
            (if m.text_buf@.len() > 0 {
                flushed(m, m1, true)
            } else {
                unchanged(m, m1)
            }) && appended(m1, m2, seq!['`', '`', '`'] + info@) && flushed(m2, m3, true)
                && same_except(m3, b, false, false, false, false, false, true) && b.code_block
                == Some(Some(info)),
        Construct::List(start) => exists|m2: Renderer|
            (if last_is_list(m.stack@) {
                exists|m1: Renderer|
                    same_except(m, m1, false, true, false, false, false, false) && m1.stack@
                        == separated(m.stack@) && flushed(m1, m2, true)
            } else {
                unchanged(m, m2)
            }) && same_except(m2, b, false, true, false, false, false, false) && b.stack@
                == m2.stack@.push(Frame::List(start, false, false)),
        Construct::Item => same_except(m, b, false, true, false, false, false, false) && b.stack@
            == item_reset(m.stack@),
        Construct::FootnoteDefinition(label) => appended(
            m,
            b,
            seq!['[', '^'] + label@ + seq![']', ':', ' '],
        ),
        Construct::Table(aligns) => {
            &&& same_except(m, b, false, false, false, true, false, false)
            &&& b.table is Some
            &&& b.table->0.alignments@ == aligns@
            &&& b.table->0.head@.len() == 0
            &&& b.table->0.body@.len() == 0
        },
        Construct::TableRow => if m.table is Some {
            &&& same_except(m, b, false, false, false, true, false, false)
            &&& b.table is Some
            &&& b.table->0.alignments == m.table->0.alignments
            &&& b.table->0.head == m.table->0.head
            &&& b.table->0.body@.len() == m.table->0.body@.len() + 1
            &&& forall|i: int|
                0 <= i < m.table->0.body@.len() ==> b.table->0.body@[i] == m.table->0.body@[i]
            &&& b.table->0.body@.last()@.len() == 0
        } else {
            unchanged(m, b)
        },
        Construct::Paragraph | Construct::TableHead | Construct::TableCell => unchanged(m, b),
        _ => appended(m, b, inline_open(tag, m.style)->0),
    }
}

/// What the start of `tag` does.
pub open spec fn start_post(a: Renderer, b: Renderer, tag: Construct) -> bool {
    exists|m: Renderer| boundary_passed(a, m) && start_step(m, b, tag)
}

/// What the end of a table does.
pub open spec fn table_end_post(a: Renderer, b: Renderer) -> bool {
    if a.table is Some {
        &&& same_except(a, b, true, true, true, true, true, false)
        &&& b.em.lines@ == flush_each(
            a.em.lines@,
            a.stack@,
            a.style,
            table_lines(a.text_buf@, a.table->0),
        )
        &&& b.stack@ == separated(marked(a.stack@))
        &&& b.text_buf@.len() == 0
        &&& b.table is None
        &&& b.newline_required
    } else {
        unchanged(a, b)
    }
}

/// What the end of `tag` does.
pub open spec fn end_post(a: Renderer, b: Renderer, tag: Construct) -> bool {
    match tag {
        Construct::Paragraph => exists|m1: Renderer|
            same_except(a, m1, false, true, false, false, true, false) && m1.stack@ == separated(
                a.stack@,
            ) && m1.newline_required == (a.newline_required || !last_is_list(a.stack@)) && (if m1.text_buf@.len()
                > 0 || m1.stack@.len() > 0 {
                flushed(m1, b, true)
            } else {
                unchanged(m1, b)
            }),
        Construct::Heading(_, id, classes) => exists|m1: Renderer, m2: Renderer|
            appended(a, m1, attributes_text(id, classes@)) && same_except(
                m1,
                m2,
                false,
                false,
                false,
                false,
                true,
                false,
            ) && m2.newline_required && flushed(m2, b, true),
        Construct::BlockQuote => same_except(a, b, false, true, false, false, true, false)
            && b.stack@ == popped(a.stack@) && b.newline_required == (a.newline_required
            || !last_is_list(popped(a.stack@))),
        Construct::CodeBlock(kind) => exists|m1: Renderer, m2: Renderer|
            appended(
                a,
                m1,
                if kind is Fenced {
                    seq!['`', '`', '`']
                } else {
                    Seq::empty()
                },
            ) && flushed(m1, m2, true) && same_except(m2, b, false, true, false, false, true, true)
                && b.stack@ == (if kind is Indented {
                popped(m2.stack@)
            } else {
                m2.stack@
            }) && b.newline_required && b.code_block is None,
        Construct::List(_) => same_except(a, b, false, true, false, false, true, false) && b.stack@
            == popped(a.stack@) && b.newline_required == (a.newline_required || !any_list(
            popped(a.stack@),
        )),
        Construct::Item => if a.stack@.len() > 0 && a.stack@.last() matches Frame::List(_, _, false) {
            flushed(a, b, true)
        } else {
            unchanged(a, b)
        },
        Construct::Table(_) => table_end_post(a, b),
        Construct::TableCell => if a.table is Some {
            &&& same_except(a, b, false, false, true, true, false, false)
            &&& b.text_buf@.len() == 0
            &&& b.table is Some
            &&& cell_filed(a.table->0, b.table->0, a.text_buf@)
        } else {
            unchanged(a, b)
        },
        Construct::Link(typ, dest, title) => if typ == LinkKind::Reference || typ
            == LinkKind::ReferenceUnknown {
            appended(a, b, reference_close(a.refdefs@, dest@, title@))
        } else {
            appended(a, b, inline_close(tag, a.style)->0)
        },
        Construct::Emphasis | Construct::Strong | Construct::Strikethrough | Construct::Image(
            _,
            _,
            _,
        ) => appended(a, b, inline_close(tag, a.style)->0),
        _ => unchanged(a, b),
    }
}

/// The text written for a text fragment: `s`, or what the code formatter
/// made of it.
pub open spec fn chosen_text(f: Option<String>, s: Seq<char>) -> Seq<char> {
    match f {
        Some(v) => v@,
        None => s,
    }
}

/// The code formatter may have rewritten the text: only inside a fenced code
/// block, and only when there is a code formatter.
pub open spec fn may_format(a: Renderer, f: Option<String>) -> bool {
    f is Some ==> (a.code_block matches Some(Some(_)) && a.code_fmt is Some)
}

/// A code span: between backticks, with a backslash before a leading one.
pub open spec fn code_span(s: Seq<char>) -> Seq<char> {
    seq!['`'] + (if s.len() > 0 && s[0] == '`' {
        seq!['\\']
    } else {
        Seq::empty()
    }) + s + seq!['`']
}

/// Raw HTML: any pending block boundary first when the line is empty, then
/// the HTML, then the end of the line when the HTML ends with a newline.
pub open spec fn html_steps(a: Renderer, m1: Renderer, m2: Renderer, b: Renderer, s: Seq<char>) -> bool {
    &&& if a.text_buf@.len() == 0 {
        boundary_passed(a, m1)
    } else {
        unchanged(a, m1)
    }
    &&& appended(m1, m2, s)
    &&& if s.len() > 0 && s.last() == '\n' {
        flushed(m2, b, true)
    } else {
        unchanged(m2, b)
    }
}

/// What event `e` does.
pub open spec fn event_post(a: Renderer, b: Renderer, e: DocEvent) -> bool {
    match e {
        DocEvent::Start(tag) => start_post(a, b, tag),
        DocEvent::End(tag) => end_post(a, b, tag),
        DocEvent::Text(s) => exists|f: Option<String>|
            may_format(a, f) && appended(
                a,
                b,
                escape_of(a, chosen_text(f, s@)) + chosen_text(f, s@),
            ),
        DocEvent::Code(s) => appended(a, b, code_span(s@)),
        DocEvent::Html(s) => exists|m1: Renderer, m2: Renderer| html_steps(a, m1, m2, b, s@),
        DocEvent::SoftBreak => flushed(a, b, true),
        DocEvent::HardBreak => exists|m: Renderer| appended(a, m, seq!['\\']) && flushed(m, b, false),
        DocEvent::Rule => exists|m1: Renderer, m2: Renderer, m3: Renderer|
            (if a.newline_required {
                flushed(a, m1, true)
            } else {
                unchanged(a, m1)
            }) && appended(m1, m2, seq!['-', '-', '-']) && flushed(m2, m3, true) && same_except(
                m3,
                b,
                false,
                false,
                false,
                false,
                true,
                false,
            ) && b.newline_required,
        DocEvent::TaskListMarker(checked) => appended(
            a,
            b,
            seq![
                '[',
                if checked {
                    'x'
                } else {
                    ' '
                },
                ']',
                ' ',
            ],
        ),
        DocEvent::FootnoteReference(s) => appended(a, b, seq!['[', '^'] + s@ + seq![']']),
    }
}

/// What the end of the document does: the reference definitions, one per
/// line, after the pending line.
pub open spec fn finish_post(a: Renderer, b: Renderer) -> bool {
    &&& b.em.lines@ == if a.refdefs@.len() == 0 {
        a.em.lines@
    } else {
        flush_each(
            a.em.lines@,
            a.stack@,
            a.style,
            seq![a.text_buf@] + a.refdefs@.map_values(|r: Reference| reference_line(r)),
        )
    }
    &&& b.refdefs@.len() == 0
}

/// One step of the pass: a newline owed after raw HTML, then the event.
pub open spec fn run_step(a: Renderer, b: Renderer, e: DocEvent, after_html: bool) -> bool {
    if after_html && !(e is Html || e is Text || e is SoftBreak || e is End) {
        exists|m: Renderer| flushed(a, m, true) && event_post(m, b, e)
    } else {
        event_post(a, b, e)
    }
}

/// Event `i` comes right after raw HTML.
pub open spec fn follows_html(events: Seq<DocEvent>, i: int) -> bool {
    i > 0 && events[i - 1] is Html
}


/// A renderer that has written nothing.
pub open spec fn fresh(
    r: Renderer,
    refdefs: Seq<Reference>,
    style: Style,
    code_fmt: Option<&dyn CodeFormat>,
) -> bool {
    &&& r.wf()
    &&& r.em.lines@.len() == 0
    &&& r.refdefs@ == refdefs
    &&& r.style == style
    &&& r.code_fmt == code_fmt
    &&& r.table is None
    &&& r.stack@.len() == 0
    &&& r.text_buf@.len() == 0
    &&& !r.newline_required
    &&& r.code_block is None
}

/// `out` is the rendering of `events` with the definitions `refdefs`, in
/// `style`: the definitions in order of their labels, a fresh renderer taken
/// through each event in turn and then through the end of the document, and
/// its lines written out.
pub open spec fn renders(
    out: Seq<char>,
    events: Seq<DocEvent>,
    refdefs: Seq<Reference>,
    style: Style,
    code_fmt: Option<&dyn CodeFormat>,
) -> bool {
    exists|sorted: Seq<Reference>, trace: Seq<Renderer>|
        {
            &&& sorted_by_label(sorted)
            &&& sorted.to_multiset() == refdefs.to_multiset()
            &&& trace.len() == events.len() + 2
            &&& fresh(trace[0], sorted, style, code_fmt)
            &&& forall|i: int|
                0 <= i < events.len() ==> #[trigger] run_step(
                    trace[i],
                    trace[i + 1],
                    events[i],
                    follows_html(events, i),
                )
            &&& finish_post(trace[events.len() as int], trace[events.len() + 1int])
            &&& out == joined(trace[events.len() + 1int].em.lines@)
        }
}

/// The renderer's state during one pass.
pub struct Renderer<'a> {
    pub em: Emitter,
    pub refdefs: Vec<Reference>,
    pub style: Style,
    pub code_fmt: Option<&'a dyn CodeFormat>,
    pub table: Option<Table>,
    pub stack: Vec<Frame>,
    pub text_buf: Vec<char>,
    pub newline_required: bool,
    pub code_block: Option<Option<String>>,
}

impl<'a> Renderer<'a> {
    /// The output so far is well formed (see `Emitter::wf`), and holds no
    /// line with a newline inside when the markers hold none.
    pub open spec fn wf(&self) -> bool {
        &&& self.em.wf()
        &&& single_line_markers(self.style) ==> single_lines(self.em.lines@)
    }

    /// A renderer that has written nothing.
    pub fn new(refdefs: Vec<Reference>, style: Style, code_fmt: Option<&'a dyn CodeFormat>) -> (r:
        Renderer<'a>)
        ensures
            fresh(r, refdefs@, style, code_fmt),
    {
        Renderer {
            em: Emitter::new(),
            refdefs,
            style,
            code_fmt,
            table: None,
            stack: Vec::new(),
            text_buf: Vec::new(),
            newline_required: false,
            code_block: None,
        }
    }

    /// Appends `s` to the pending line.
    fn write_str(&mut self, s: &str)
        ensures
            final(self).text_buf@ == old(self).text_buf@ + s@,
            final(self).em == old(self).em,
            final(self).stack == old(self).stack,
            final(self).refdefs == old(self).refdefs,
            appended(*old(self), *final(self), s@),
    {
        push_str(&mut self.text_buf, s);
    }

    /// Appends `c` to the pending line.
    fn write_char(&mut self, c: char)
        ensures
            final(self).text_buf@ == old(self).text_buf@.push(c),
            final(self).em == old(self).em,
            final(self).stack == old(self).stack,
            final(self).refdefs == old(self).refdefs,
            appended(*old(self), *final(self), seq![c]),
    {
        self.text_buf.push(c);
        assert(self.text_buf@ =~= old(self).text_buf@ + seq![c]);
    }

    /// Writes one line: the padding, then `line`, trimmed when `trim` is set.
    fn write_line(&mut self, line: &Vec<char>, trim: bool)
        requires
            old(self).wf(),
            !line@.contains('\n'),
        ensures
            final(self).wf(),
            final(self).stack@ == marked(old(self).stack@),
            final(self).text_buf == old(self).text_buf,
            same_except(*old(self), *final(self), true, true, false, false, false, false),
            final(self).em.lines@ == after_emit(
                old(self).em.lines@,
                line_text(old(self).stack@, old(self).style, line@, trim),
            ),
    {
        let mut buf: Vec<char> = Vec::new();
        write_padding(&mut buf, &mut self.stack, &self.style);
        push_chars(&mut buf, line);
        let ghost untrimmed = buf@;
        if trim {
            trim_end_exec(&mut buf);
        }
        proof {
            if single_line_markers(self.style) {
                lemma_padding_single_line(old(self).stack@, self.style);
                let p = pad_of(old(self).stack@, self.style);
                assert forall|k: int| 0 <= k < untrimmed.len() implies untrimmed[k] != '\n' by {
                    if k < p.len() {
                        assert(untrimmed[k] == p[k]);
                    } else {
                        assert(untrimmed[k] == line@[k - p.len()]);
                    }
                }
                lemma_trim_prefix(untrimmed);
                assert(!buf@.contains('\n')) by {
                    if buf@.contains('\n') {
                        let k = choose|k: int| 0 <= k < buf@.len() && buf@[k] == '\n';
                        assert(untrimmed[k] == '\n');
                    }
                }
            }
        }
        self.em.emit(&buf);
    }

    /// Turns the pending line into output lines, one per line it holds (or a
    /// blank one when it is empty), and empties it.
    pub fn write_newline_with_trim(&mut self, trim: bool)
        requires
            old(self).wf(),
        ensures
            final(self).wf(),
            final(self).text_buf@.len() == 0,
            final(self).stack@.len() == old(self).stack@.len(),
            final(self).em.lines@ == flush_lines(
                old(self).em.lines@,
                old(self).stack@,
                old(self).style,
                pending_lines(old(self).text_buf@),
                trim,
            ),
            final(self).stack@ == marked(old(self).stack@),
            final(self).table == old(self).table,
            flushed(*old(self), *final(self), trim),
    {
        if self.text_buf.len() == 0 {
            let empty: Vec<char> = Vec::new();
            self.write_line(&empty, trim);
            proof {
                let parts = pending_lines(old(self).text_buf@);
                assert(parts[0] == empty@);
                assert(parts.drop_first() =~= Seq::<Seq<char>>::empty());
                assert(flush_lines(
                    old(self).em.lines@,
                    old(self).stack@,
                    old(self).style,
                    parts,
                    trim,
                ) == flush_lines(self.em.lines@, marked(old(self).stack@), self.style, Seq::empty(), trim));
            }
        } else {
            let ghost target = flush_lines(
                old(self).em.lines@,
                old(self).stack@,
                old(self).style,
                pending_lines(old(self).text_buf@),
                trim,
            );
            let mut buf: Vec<char> = Vec::new();
            std::mem::swap(&mut buf, &mut self.text_buf);
            let mut line: Vec<char> = Vec::new();
            let mut i: usize = 0;
            let ghost mut wrote = false;
            assert(buf@.skip(0) == buf@);
            while i < buf.len()
                invariant
                    self.wf(),
                    self.text_buf@.len() == 0,
                    self.stack@.len() == old(self).stack@.len(),
                    self.table == old(self).table,
                    same_except(*old(self), *self, true, true, true, false, false, false),
                    self.stack@ == if wrote {
                        marked(old(self).stack@)
                    } else {
                        old(self).stack@
                    },
                    i > 0 && line@.len() == 0 ==> wrote,
                    !line@.contains('\n'),
                    buf@.len() > 0,
                    self.style == old(self).style,
                    i <= buf@.len(),
                    flush_lines(
                        self.em.lines@,
                        self.stack@,
                        self.style,
                        split_from(buf@.skip(i as int), line@),
                        trim,
                    ) == target,
                decreases buf@.len() - i,
            {
                let c = buf[i];
                assert(buf@.skip(i as int).drop_first() == buf@.skip(i + 1));
                assert(buf@.skip(i as int)[0] == c);
                if c == '\n' {
                    let ghost cur = line@;
                    if line.len() > 0 && line[line.len() - 1] == '\r' {
                        line.pop();
                        assert(!line@.contains('\n')) by {
                            if line@.contains('\n') {
                                let k = choose|k: int| 0 <= k < line@.len() && line@[k] == '\n';
                                assert(cur[k] == '\n');
                            }
                        }
                    }
                    proof {
                        let parts = split_from(buf@.skip(i as int), cur);
                        assert(parts == seq![line@] + split_from(buf@.skip(i + 1), Seq::empty()));
                        assert(parts[0] == line@);
                        assert(parts.drop_first() == split_from(buf@.skip(i + 1), Seq::empty()));
                    }
                    self.write_line(&line, trim);
                    proof {
                        assert(marked(marked(old(self).stack@)) =~= marked(old(self).stack@));
                        wrote = true;
                    }
                    line = Vec::new();
                } else {
                    let ghost prev = line@;
                    line.push(c);
                    assert(!line@.contains('\n')) by {
                        if line@.contains('\n') {
                            let k = choose|k: int| 0 <= k < line@.len() && line@[k] == '\n';
                            if k < prev.len() {
                                assert(prev[k] == '\n');
                            }
                        }
                    }
                }
                i += 1;
            }
            assert(buf@.skip(buf@.len() as int).len() == 0);
            if line.len() > 0 {
                let ghost lines0 = self.em.lines@;
                let ghost stack0 = self.stack@;
                assert(split_from(buf@.skip(i as int), line@) == seq![line@]);
                self.write_line(&line, trim);
                assert(marked(marked(old(self).stack@)) =~= marked(old(self).stack@));
                assert(seq![line@].drop_first() =~= Seq::<Seq<char>>::empty());
                assert(flush_lines(lines0, stack0, self.style, seq![line@], trim) == flush_lines(
                    self.em.lines@,
                    marked(stack0),
                    self.style,
                    Seq::empty(),
                    trim,
                ));
            } else {
                assert(split_from(buf@.skip(i as int), line@).len() == 0);
            }
        }
    }

    fn write_newline(&mut self)
        requires
            old(self).wf(),
        ensures
            final(self).wf(),
            final(self).text_buf@.len() == 0,
            final(self).stack@.len() == old(self).stack@.len(),
            final(self).em.lines@ == flush_lines(
                old(self).em.lines@,
                old(self).stack@,
                old(self).style,
                pending_lines(old(self).text_buf@),
                true,
            ),
            final(self).stack@ == marked(old(self).stack@),
            final(self).table == old(self).table,
            final(self).style == old(self).style,
            flushed(*old(self), *final(self), true),
    {
        self.write_newline_with_trim(true);
    }

    fn write_newline_if_required(&mut self)
        requires
            old(self).wf(),
        ensures
            final(self).wf(),
            final(self).stack@.len() == old(self).stack@.len(),
            !final(self).newline_required,
            !old(self).newline_required ==> *final(self) == *old(self),
            final(self).table == old(self).table,
            boundary_passed(*old(self), *final(self)),
    {
        if self.newline_required {
            self.write_newline();
            self.newline_required = false;
        }
    }

    fn write_newline_if_content(&mut self)
        requires
            old(self).wf(),
        ensures
            final(self).wf(),
            final(self).stack@.len() == old(self).stack@.len(),
            final(self).style == old(self).style,
            if old(self).text_buf@.len() > 0 || old(self).stack@.len() > 0 {
                flushed(*old(self), *final(self), true)
            } else {
                unchanged(*old(self), *final(self))
            },
    {
        if self.text_buf.len() > 0 || self.stack.len() > 0 {
            self.write_newline();
        }
    }

    fn last_is_list(&self) -> (r: bool)
        ensures
            r == (self.stack@.len() > 0 && self.stack@.last() is List),
    {
        self.stack.len() > 0 && match self.stack[self.stack.len() - 1] {
            Frame::List(..) => true,
            _ => false,
        }
    }

    /// Marks the innermost list item as needing a blank line before the next.
    fn set_item_separated(&mut self)
        ensures
            final(self).em == old(self).em,
            final(self).text_buf == old(self).text_buf,
            final(self).stack@.len() == old(self).stack@.len(),
            same_except(*old(self), *final(self), false, true, false, false, false, false),
            final(self).stack@ == separated(old(self).stack@),
    {
        let n = self.stack.len();
        if n > 0 {
            if let Frame::List(m, w, _) = self.stack[n - 1] {
                self.stack.set(n - 1, Frame::List(m, w, true));
            }
        }
    }

    /// Puts a backslash before `s` where it would otherwise read as markup.
    fn write_optional_escape(&mut self, s: &str)
        ensures
            final(self).em == old(self).em,
            final(self).stack == old(self).stack,
            final(self).text_buf@ == old(self).text_buf@ + if needs_escape(
                old(self).code_block is Some,
                old(self).code_block matches Some(Some(_)),
                old(self).table is Some,
                old(self).text_buf@.len() == 0,
                s@,
            ) {
                seq!['\\']
            } else {
                Seq::empty()
            },
            appended(*old(self), *final(self), escape_of(*old(self), s@)),
    {
        let n = s.unicode_len();
        let esc = match &self.code_block {
            Some(Some(_)) => n >= 3 && s.get_char(0) == '`' && s.get_char(1) == '`' && s.get_char(2)
                == '`',
            Some(None) => false,
            None => {
                if n == 0 {
                    false
                } else {
                    let c = s.get_char(0);
                    if self.table.is_some() && c == '|' {
                        true
                    } else if c == '\\' || c == '<' || c == '>' || c == '*' || c == '_' || c == '`'
                        || c == '[' || c == ']' || c == '~' {
                        true
                    } else if c == '#' || c == '-' || c == '+' {
                        self.text_buf.len() == 0
                    } else {
                        false
                    }
                }
            },
        };
        if esc {
            self.text_buf.push('\\');
        }
        assert(self.text_buf@ =~= old(self).text_buf@ + escape_of(*old(self), s@));
    }

    /// Writes ` "title"` when the title is not empty.
    fn write_title(&mut self, title: &String)
        ensures
            final(self).em == old(self).em,
            final(self).stack == old(self).stack,
            final(self).text_buf@ == old(self).text_buf@ + title_part(title@),
            appended(*old(self), *final(self), title_part(title@)),
    {
        proof {
            reveal_strlit(" \"");
        }
        if title.as_str().unicode_len() > 0 {
            self.write_str(" \"");
            self.write_str(title.as_str());
            self.write_char('"');
        }
        assert(self.text_buf@ =~= old(self).text_buf@ + title_part(title@));
    }

    /// Writes `](dest "title")`.
    fn write_destination(&mut self, dest: &String, title: &String)
        ensures
            final(self).em == old(self).em,
            final(self).stack == old(self).stack,
            final(self).text_buf@ == old(self).text_buf@ + destination_text(dest@, title@),
            appended(*old(self), *final(self), destination_text(dest@, title@)),
    {
        proof {
            reveal_strlit("](");
        }
        self.write_str("](");
        self.write_str(dest.as_str());
        self.write_title(title);
        self.write_char(')');
        assert(self.text_buf@ =~= old(self).text_buf@ + destination_text(dest@, title@));
    }
}

impl<'a> Renderer<'a> {
    /// Writes `#` once per heading level, then a space.
    fn write_heading_level(&mut self, level: u8)
        ensures
            final(self).em == old(self).em,
            final(self).stack == old(self).stack,
            final(self).text_buf@ == old(self).text_buf@ + hashes(level as nat).push(' '),
            appended(*old(self), *final(self), hashes(level as nat).push(' ')),
    {
        let mut i: u8 = 0;
        while i < level
            invariant
                i <= level,
                self.em == old(self).em,
                self.stack == old(self).stack,
                self.text_buf@ == old(self).text_buf@ + hashes(i as nat),
                same_except(*old(self), *self, false, false, true, false, false, false),
            decreases level - i,
        {
            self.write_char('#');
            assert(hashes((i + 1) as nat) == hashes(i as nat).push('#'));
            i += 1;
        }
        self.write_char(' ');
        assert(self.text_buf@ =~= old(self).text_buf@ + hashes(level as nat).push(' '));
    }

    /// Handles the start of a construct: any pending block boundary is
    /// written first, then the construct opens as `start_step` says.
    pub fn tag_start(&mut self, tag: &Construct)
        requires
            old(self).wf(),
        ensures
            final(self).wf(),
            final(self).style == old(self).style,
            start_post(*old(self), *final(self), *tag),
    {
        proof {
            reveal_strlit("**");
            reveal_strlit("~~");
            reveal_strlit("![");
            reveal_strlit("```");
            reveal_strlit("[^");
            reveal_strlit("]: ");
        }
        self.write_newline_if_required();
        let ghost m = *self;
        match tag {
            Construct::Heading(level, _, _) => {
                self.write_heading_level(*level);
                assert(start_step(m, *self, *tag));
            },
            Construct::BlockQuote => {
                self.stack.push(Frame::BlockQuote);
                assert(start_step(m, *self, *tag));
            },
            Construct::CodeBlock(kind) => {
                if self.text_buf.len() > 0 {
                    self.write_newline();
                }
                let ghost m1 = *self;
                match kind {
                    CodeKind::Indented => {
                        self.code_block = Some(None);
                        self.stack.push(Frame::CodeIndent);
                        assert(if m.text_buf@.len() > 0 {
                            flushed(m, m1, true)
                        } else {
                            unchanged(m, m1)
                        });
                        assert(same_except(m1, *self, false, true, false, false, false, true)
                            && self.stack@ == m1.stack@.push(Frame::CodeIndent) && self.code_block
                            == Some(None::<String>));
                    },
                    CodeKind::Fenced(info) => {
                        self.write_str("```");
                        self.write_str(info.as_str());
                        let ghost m2 = *self;
                        assert(appended(m1, m2, seq!['`', '`', '`'] + info@)) by {
                            assert(m2.text_buf@ =~= m1.text_buf@ + (seq!['`', '`', '`'] + info@));
                        }
                        self.write_newline();
                        let ghost m3 = *self;
                        self.code_block = Some(Some(info.clone()));
                        assert(same_except(m3, *self, false, false, false, false, false, true));
                        assert(start_step(m, *self, *tag));
                    },
                }
            },
            Construct::List(start) => {
                if self.last_is_list() {
                    self.set_item_separated();
                    let ghost m1 = *self;
                    self.write_newline();
                    assert(same_except(m, m1, false, true, false, false, false, false) && m1.stack@
                        == separated(m.stack@) && flushed(m1, *self, true));
                }
                let ghost m2 = *self;
                assert(if last_is_list(m.stack@) {
                    exists|m1: Renderer|
                        same_except(m, m1, false, true, false, false, false, false) && m1.stack@
                            == separated(m.stack@) && flushed(m1, m2, true)
                } else {
                    unchanged(m, m2)
                });
                self.stack.push(Frame::List(*start, false, false));
                assert(same_except(m2, *self, false, true, false, false, false, false) && self.stack@
                    == m2.stack@.push(Frame::List(*start, false, false)));
            },
            Construct::Item => {
                let n = self.stack.len();
                if n > 0 {
                    if let Frame::List(mk, _, _) = self.stack[n - 1] {
                        self.stack.set(n - 1, Frame::List(mk, false, false));
                    }
                }
                assert(start_step(m, *self, *tag));
            },
            Construct::FootnoteDefinition(label) => {
                self.write_str("[^");
                self.write_str(label.as_str());
                self.write_str("]: ");
                assert(self.text_buf@ =~= m.text_buf@ + (seq!['[', '^'] + label@ + seq![
                    ']',
                    ':',
                    ' ',
                ]));
                assert(start_step(m, *self, *tag));
            },
            Construct::Table(alignments) => {
                self.table = Some(Table::new(alignments.clone()));
                assert(start_step(m, *self, *tag));
            },
            Construct::TableRow => {
                if let Some(mut t) = self.table.take() {
                    t.body.push(Vec::new());
                    self.table = Some(t);
                }
                assert(start_step(m, *self, *tag));
            },
            Construct::Emphasis => {
                let em = self.style.emphasis.clone();
                push_chars(&mut self.text_buf, &em);
                assert(start_step(m, *self, *tag));
            },
            Construct::Strong => {
                self.write_str("**");
                proof {
                    reveal_strlit("**");
                    assert(self.text_buf@ =~= m.text_buf@ + seq!['*', '*']);
                }
                assert(start_step(m, *self, *tag));
            },
            Construct::Strikethrough => {
                self.write_str("~~");
                proof {
                    reveal_strlit("~~");
                    assert(self.text_buf@ =~= m.text_buf@ + seq!['~', '~']);
                }
                assert(start_step(m, *self, *tag));
            },
            Construct::Link(typ, _, _) => {
                if *typ == LinkKind::Autolink || *typ == LinkKind::Email {
                    self.write_char('<');
                } else {
                    self.write_char('[');
                }
                assert(start_step(m, *self, *tag));
            },
            Construct::Image(_, _, _) => {
                self.write_str("![");
                proof {
                    reveal_strlit("![");
                    assert(self.text_buf@ =~= m.text_buf@ + seq!['!', '[']);
                }
                assert(start_step(m, *self, *tag));
            },
            Construct::Paragraph | Construct::TableHead | Construct::TableCell => {
                assert(start_step(m, *self, *tag));
            },
        }
        assert(start_step(m, *self, *tag));
    }

    /// Writes the heading attributes `{ #id .class }`, if there are any.
    fn write_heading_attributes(&mut self, id: &Option<String>, classes: &Vec<String>)
        ensures
            final(self).em == old(self).em,
            final(self).stack == old(self).stack,
            appended(*old(self), *final(self), attributes_text(*id, classes@)),
    {
        proof {
            reveal_strlit(" #");
            reveal_strlit(" .");
            reveal_strlit(" }");
        }
        if id.is_some() || classes.len() > 0 {
            self.write_char('{');
            if let Some(id) = id {
                self.write_str(" #");
                self.write_str(id.as_str());
            }
            let ghost head = self.text_buf@;
            assert(classes@.subrange(0, 0) =~= Seq::<String>::empty());
            let mut i: usize = 0;
            while i < classes.len()
                invariant
                    self.em == old(self).em,
                    self.stack == old(self).stack,
                    same_except(*old(self), *self, false, false, true, false, false, false),
                    i <= classes@.len(),
                    self.text_buf@ == head + classes_text(classes@.subrange(0, i as int)),
                decreases classes@.len() - i,
            {
                proof {
                    reveal_strlit(" .");
                }
                self.write_str(" .");
                self.write_str(classes[i].as_str());
                assert(classes@.subrange(0, i + 1).drop_last() =~= classes@.subrange(0, i as int));
                assert(classes@.subrange(0, i + 1).last() == classes@[i as int]);
                assert(self.text_buf@ =~= head + classes_text(classes@.subrange(0, i + 1)));
                i += 1;
            }
            assert(classes@.subrange(0, classes@.len() as int) =~= classes@);
            self.write_str(" }");
            assert(self.text_buf@ =~= old(self).text_buf@ + attributes_text(*id, classes@));
        } else {
            assert(self.text_buf@ =~= old(self).text_buf@ + attributes_text(*id, classes@));
        }
    }

    /// Files the pending line as the next cell of the table being collected.
    fn end_table_cell(&mut self)
        ensures
            final(self).em == old(self).em,
            final(self).stack == old(self).stack,
            old(self).table is None ==> final(self).table is None && final(self).text_buf
                == old(self).text_buf,
            old(self).table is Some ==> final(self).table is Some && final(self).text_buf@.len()
                == 0 && cell_filed(old(self).table->0, final(self).table->0, old(self).text_buf@),
            final(self).style == old(self).style,
            end_post(*old(self), *final(self), Construct::TableCell),
    {
        if let Some(mut t) = self.table.take() {
            let mut cell: Vec<char> = Vec::new();
            std::mem::swap(&mut cell, &mut self.text_buf);
            let n = t.body.len();
            if n > 0 {
                let mut row: Vec<Vec<char>> = Vec::new();
                std::mem::swap(&mut row, &mut t.body[n - 1]);
                row.push(cell);
                t.body.set(n - 1, row);
            } else {
                t.head.push(cell);
            }
            self.table = Some(t);
        }
    }

    /// Writes the collected table: header row, divider row and body rows,
    /// each cell padded to its column's width. Outside any container, with
    /// nothing pending and no newline in the cells, those are exactly the
    /// lines offered.
    pub fn end_table(&mut self)
        requires
            old(self).wf(),
        ensures
            final(self).wf(),
            final(self).style == old(self).style,
            table_end_post(*old(self), *final(self)),
    {
        if let Some(t) = self.table.take() {
            let ghost a = *old(self);
            let ghost texts = table_lines(a.text_buf@, t);
            let ghost target = flush_each(a.em.lines@, a.stack@, a.style, texts);
            let widths = t.column_widths();
            proof {
                lemma_table_lines_up(&t, widths@);
                assert(widths@ =~= table_widths(t));
                assert(texts.skip(0) =~= texts);
            }
            push_row(&mut self.text_buf, &t.head, &widths);
            proof {
                assert(self.text_buf@ == texts[0]);
                assert(texts.skip(0).drop_first() =~= texts.skip(1));
            }
            self.write_newline();
            assert(target == flush_each(self.em.lines@, self.stack@, self.style, texts.skip(1)));
            let ghost s1 = *self;
            push_divider(&mut self.text_buf, &widths, &t.alignments);
            proof {
                assert(self.text_buf@ =~= texts[1]);
                assert(texts.skip(1)[0] == texts[1]);
                assert(texts.skip(1).drop_first() =~= texts.skip(2));
                assert(marked(marked(a.stack@)) =~= marked(a.stack@));
            }
            self.write_newline();
            assert(flush_each(s1.em.lines@, s1.stack@, s1.style, texts.skip(1)) == flush_each(
                self.em.lines@,
                self.stack@,
                self.style,
                texts.skip(2),
            ));
            let mut i: usize = 0;
            while i < t.body.len()
                invariant
                    self.wf(),
                    forall|r: int| 0 <= r < t.body@.len() ==> crate::table::fits(t.body@[r]@, widths@),
                    widths@ == table_widths(t),
                    texts == table_lines(a.text_buf@, t),
                    i <= t.body@.len(),
                    same_except(a, *self, true, true, true, true, false, false),
                    self.table is None,
                    self.text_buf@.len() == 0,
                    self.stack@ == marked(a.stack@),
                    flush_each(self.em.lines@, self.stack@, self.style, texts.skip(i + 2)) == target,
                decreases t.body@.len() - i,
            {
                push_row(&mut self.text_buf, &t.body[i], &widths);
                proof {
                    assert(self.text_buf@ =~= texts[i + 2]);
                    assert(texts.skip(i + 2)[0] == texts[i + 2]);
                    assert(texts.skip(i + 2).drop_first() =~= texts.skip(i + 3));
                    assert(marked(marked(a.stack@)) =~= marked(a.stack@));
                }
                self.write_newline();
                i += 1;
            }
            assert(texts.skip(i + 2) =~= Seq::<Seq<char>>::empty());
            self.newline_required = true;
            self.set_item_separated();
        }
    }

    /// Closes a link: the short form of a reference link whose destination
    /// has a definition, else the inline form.
    fn end_reference_link(&mut self, dest: &String, title: &String)
        ensures
            final(self).em == old(self).em,
            final(self).stack == old(self).stack,
            has_match(old(self).refdefs@, dest@) ==> exists|i: int|
                first_match(old(self).refdefs@, dest@, i) && final(self).text_buf@
                    == old(self).text_buf@ + seq![']', '['] + old(self).refdefs@[i].label@ + seq![']'],
            !has_match(old(self).refdefs@, dest@) ==> final(self).text_buf@ == old(self).text_buf@
                + destination_text(dest@, title@),
            appended(*old(self), *final(self), reference_close(old(self).refdefs@, dest@, title@)),
    {
        proof {
            reveal_strlit("][");
        }
        let d = chars_of(dest.as_str());
        match find_by_dest(&self.refdefs, &d) {
            Some(i) => {
                assert(first_match(self.refdefs@, dest@, i as int));
                proof {
                    let j = choose|j: int| first_match(self.refdefs@, dest@, j);
                    assert(first_match(self.refdefs@, dest@, j));
                    if j < i {
                        assert(!eq_ignoring_ascii_case(dest@, self.refdefs@[j].dest@));
                    } else if j > i {
                        assert(!eq_ignoring_ascii_case(dest@, self.refdefs@[i as int].dest@));
                    }
                }
                let label = self.refdefs[i].label.clone();
                self.write_str("][");
                self.write_str(label.as_str());
                self.write_char(']');
                assert(self.text_buf@ =~= old(self).text_buf@ + reference_close(
                    old(self).refdefs@,
                    dest@,
                    title@,
                ));
            },
            None => {
                assert(!has_match(self.refdefs@, dest@));
                self.write_destination(dest, title);
            },
        }
    }

    /// Handles the end of a construct, as `end_post` says: closing
    /// delimiters, the end of a block's line, the pop of its frame, or the
    /// layout of a collected table.
    pub fn tag_end(&mut self, tag: &Construct)
        requires
            old(self).wf(),
        ensures
            final(self).wf(),
            final(self).style == old(self).style,
            end_post(*old(self), *final(self), *tag),
    {
        let ghost a = *self;
        match tag {
            Construct::Paragraph => {
                if !self.last_is_list() {
                    self.newline_required = true;
                }
                self.set_item_separated();
                let ghost m1 = *self;
                self.write_newline_if_content();
                assert(same_except(a, m1, false, true, false, false, true, false) && m1.stack@
                    == separated(a.stack@) && m1.newline_required == (a.newline_required
                    || !last_is_list(a.stack@)));
            },
            Construct::Heading(_, id, classes) => {
                self.write_heading_attributes(id, classes);
                let ghost m1 = *self;
                self.newline_required = true;
                let ghost m2 = *self;
                self.write_newline();
                assert(appended(a, m1, attributes_text(*id, classes@)) && same_except(
                    m1,
                    m2,
                    false,
                    false,
                    false,
                    false,
                    true,
                    false,
                ) && m2.newline_required && flushed(m2, *self, true));
            },
            Construct::BlockQuote => {
                self.stack.pop();
                assert(self.stack@ =~= popped(a.stack@));
                if !self.last_is_list() {
                    self.newline_required = true;
                }
            },
            Construct::CodeBlock(kind) => {
                proof {
                    reveal_strlit("```");
                }
                if let CodeKind::Fenced(_) = kind {
                    self.write_str("```");
                }
                let ghost m1 = *self;
                assert(appended(
                    a,
                    m1,
                    if kind is Fenced {
                        seq!['`', '`', '`']
                    } else {
                        Seq::empty()
                    },
                )) by {
                    reveal_strlit("```");
                    if !(kind is Fenced) {
                        assert(m1.text_buf@ =~= a.text_buf@ + Seq::<char>::empty());
                    } else {
                        assert(m1.text_buf@ =~= a.text_buf@ + seq!['`', '`', '`']);
                    }
                }
                self.write_newline();
                let ghost m2 = *self;
                if let CodeKind::Indented = kind {
                    self.stack.pop();
                }
                assert(self.stack@ =~= (if kind is Indented {
                    popped(m2.stack@)
                } else {
                    m2.stack@
                }));
                self.newline_required = true;
                self.code_block = None;
                assert(flushed(m1, m2, true));
            },
            Construct::List(_) => {
                self.stack.pop();
                assert(self.stack@ =~= popped(a.stack@));
                let mut any_list = false;
                let mut i: usize = 0;
                while i < self.stack.len()
                    invariant
                        i <= self.stack@.len(),
                        self.stack@ == popped(a.stack@),
                        any_list == exists|j: int| 0 <= j < i && (#[trigger] self.stack@[j]) is List,
                    decreases self.stack@.len() - i,
                {
                    if let Frame::List(..) = self.stack[i] {
                        any_list = true;
                    }
                    i += 1;
                }
                if !any_list {
                    self.newline_required = true;
                }
            },
            Construct::Item => {
                let n = self.stack.len();
                if n > 0 {
                    if let Frame::List(_, _, false) = self.stack[n - 1] {
                        self.write_newline_if_content();
                    }
                }
            },
            Construct::Table(_) => self.end_table(),
            Construct::TableCell => self.end_table_cell(),
            Construct::Emphasis => {
                let em = self.style.emphasis.clone();
                push_chars(&mut self.text_buf, &em);
            },
            Construct::Strong => {
                self.write_str("**");
                proof {
                    reveal_strlit("**");
                    assert(self.text_buf@ =~= a.text_buf@ + seq!['*', '*']);
                }
            },
            Construct::Strikethrough => {
                self.write_str("~~");
                proof {
                    reveal_strlit("~~");
                    assert(self.text_buf@ =~= a.text_buf@ + seq!['~', '~']);
                }
            },
            Construct::Link(typ, dest, title) => match typ {
                LinkKind::Reference | LinkKind::ReferenceUnknown => self.end_reference_link(
                    dest,
                    title,
                ),
                LinkKind::Shortcut | LinkKind::ShortcutUnknown => self.write_char(']'),
                LinkKind::Collapsed | LinkKind::CollapsedUnknown => {
                    self.write_str("][]");
                    proof {
                        reveal_strlit("][]");
                        assert(self.text_buf@ =~= a.text_buf@ + seq![']', '[', ']']);
                    }
                },
                LinkKind::Autolink | LinkKind::Email => self.write_char('>'),
                LinkKind::Inline => self.write_destination(dest, title),
            },
            Construct::Image(_, dest, title) => self.write_destination(dest, title),
            Construct::FootnoteDefinition(_) | Construct::TableHead | Construct::TableRow => {},
        }
    }

    /// Writes a text fragment, or what the code formatter made of it: `t` is
    /// `formatted` when there is one, else `s`, and it goes after a backslash
    /// where it would otherwise read as markup.
    pub fn write_text(&mut self, s: &String, formatted: Option<String>)
        requires
            old(self).wf(),
        ensures
            final(self).wf(),
            appended(
                *old(self),
                *final(self),
                escape_of(*old(self), chosen_text(formatted, s@)) + chosen_text(formatted, s@),
            ),
    {
        let text: &str = match &formatted {
            Some(v) => v.as_str(),
            None => s.as_str(),
        };
        self.write_optional_escape(text);
        self.write_str(text);
        assert(self.text_buf@ =~= old(self).text_buf@ + (escape_of(*old(self), text@) + text@));
    }

    /// Writes a text fragment. Inside a fenced code block, with a code
    /// formatter, the formatter is asked for the block's info string and the
    /// fragment, and its answer, if any, is written instead.
    fn text(&mut self, s: &String)
        requires
            old(self).wf(),
        ensures
            final(self).wf(),
            final(self).style == old(self).style,
            event_post(*old(self), *final(self), DocEvent::Text(*s)),
    {
        let mut formatted: Option<String> = None;
        if let Some(Some(lang)) = &self.code_block {
            if let Some(f) = self.code_fmt {
                formatted = f.format_code(lang.as_str(), s.as_str());
            }
        }
        assert(may_format(*self, formatted));
        self.write_text(s, formatted);
    }

    /// Writes raw HTML, after any pending block boundary when the line is
    /// empty, and ends the line when the HTML ends with a newline.
    fn html(&mut self, s: &String)
        requires
            old(self).wf(),
        ensures
            final(self).wf(),
            final(self).style == old(self).style,
            exists|m1: Renderer, m2: Renderer| html_steps(*old(self), m1, m2, *final(self), s@),
    {
        if self.text_buf.len() == 0 {
            self.write_newline_if_required();
        }
        let ghost m1 = *self;
        self.write_str(s.as_str());
        let ghost m2 = *self;
        let n = s.as_str().unicode_len();
        if n > 0 && s.as_str().get_char(n - 1) == '\n' {
            self.write_newline();
        }
        assert(if old(self).text_buf@.len() == 0 {
            boundary_passed(*old(self), m1)
        } else {
            unchanged(*old(self), m1)
        });
        assert(appended(m1, m2, s@));
        assert((if old(self).text_buf@.len() == 0 {
            boundary_passed(*old(self), m1)
        } else {
            unchanged(*old(self), m1)
        }) && appended(m1, m2, s@) && (if s@.len() > 0 && s@.last() == '\n' {
            flushed(m2, *self, true)
        } else {
            unchanged(m2, *self)
        }));
        proof {
            let b = *self;
            let st = *s;
            assert(st@ == s@);
            assert((if old(self).text_buf@.len() == 0 {
                boundary_passed(*old(self), m1)
            } else {
                unchanged(*old(self), m1)
            }) && appended(m1, m2, st@) && (if st@.len() > 0 && st@.last() == '\n' {
                flushed(m2, b, true)
            } else {
                unchanged(m2, b)
            }));
        }
        assert(html_steps(*old(self), m1, m2, *self, (*s)@));
    }

    /// Handles one event: starts and ends of constructs, and the leaves
    /// (text, code spans, raw HTML, breaks, rules, task markers and footnote
    /// references).
    pub fn event(&mut self, e: &DocEvent)
        requires
            old(self).wf(),
        ensures
            final(self).wf(),
            final(self).style == old(self).style,
            event_post(*old(self), *final(self), *e),
    {
        let ghost a = *self;
        match e {
            DocEvent::Start(tag) => self.tag_start(tag),
            DocEvent::End(tag) => self.tag_end(tag),
            DocEvent::Text(s) => self.text(s),
            DocEvent::Code(s) => {
                self.write_char('`');
                let n = s.as_str().unicode_len();
                if n > 0 && s.as_str().get_char(0) == '`' {
                    self.write_char('\\');
                }
                self.write_str(s.as_str());
                self.write_char('`');
                assert(self.text_buf@ =~= a.text_buf@ + code_span(s@));
            },
            DocEvent::Html(s) => self.html(s),
            DocEvent::SoftBreak => self.write_newline(),
            DocEvent::HardBreak => {
                self.write_char('\\');
                let ghost m = *self;
                self.write_newline_with_trim(false);
                assert(appended(a, m, seq!['\\']) && flushed(m, *self, false));
            },
            DocEvent::Rule => {
                if self.newline_required {
                    self.write_newline();
                }
                let ghost m1 = *self;
                proof {
                    reveal_strlit("---");
                }
                self.write_str("---");
                let ghost m2 = *self;
                self.write_newline();
                let ghost m3 = *self;
                self.newline_required = true;
                assert(if a.newline_required {
                    flushed(a, m1, true)
                } else {
                    unchanged(a, m1)
                });
                assert(appended(m1, m2, seq!['-', '-', '-'])) by {
                    assert(m2.text_buf@ =~= m1.text_buf@ + seq!['-', '-', '-']);
                }
                assert(flushed(m2, m3, true));
            },
            DocEvent::TaskListMarker(checked) => {
                self.write_char('[');
                self.write_char(
                    if *checked {
                        'x'
                    } else {
                        ' '
                    },
                );
                self.write_str("] ");
                proof {
                    reveal_strlit("] ");
                }
                assert(self.text_buf@ =~= a.text_buf@ + seq![
                    '[',
                    if *checked {
                        'x'
                    } else {
                        ' '
                    },
                    ']',
                    ' ',
                ]);
            },
            DocEvent::FootnoteReference(label) => {
                self.write_str("[^");
                self.write_str(label.as_str());
                self.write_char(']');
                proof {
                    reveal_strlit("[^");
                }
                assert(self.text_buf@ =~= a.text_buf@ + (seq!['[', '^'] + label@ + seq![']']));
            },
        }
    }

    /// Writes every reference definition, one per line, after the pending
    /// line; the definitions are used up.
    pub fn finish(&mut self)
        requires
            old(self).wf(),
        ensures
            final(self).wf(),
            final(self).style == old(self).style,
            finish_post(*old(self), *final(self)),
    {
        let ghost a = *self;
        let mut refdefs: Vec<Reference> = Vec::new();
        std::mem::swap(&mut refdefs, &mut self.refdefs);
        if refdefs.len() > 0 {
            let ghost texts = seq![a.text_buf@] + a.refdefs@.map_values(
                |r: Reference| reference_line(r),
            );
            let ghost target = flush_each(a.em.lines@, a.stack@, a.style, texts);
            assert(texts[0] == self.text_buf@);
            assert(texts.drop_first() =~= texts.skip(1));
            self.write_newline();
            let mut i: usize = 0;
            while i < refdefs.len()
                invariant
                    self.wf(),
                    refdefs@ == a.refdefs@,
                    texts == seq![a.text_buf@] + a.refdefs@.map_values(
                        |r: Reference| reference_line(r),
                    ),
                    i <= refdefs@.len(),
                    self.style == a.style,
                    self.text_buf@.len() == 0,
                    self.stack@ == marked(a.stack@),
                    self.refdefs@.len() == 0,
                    flush_each(self.em.lines@, self.stack@, self.style, texts.skip(i + 1)) == target,
                decreases refdefs@.len() - i,
            {
                let line = reference_text(&refdefs[i]);
                push_chars(&mut self.text_buf, &line);
                proof {
                    assert(self.text_buf@ =~= texts[i + 1]);
                    assert(texts.skip(i + 1)[0] == texts[i + 1]);
                    assert(texts.skip(i + 1).drop_first() =~= texts.skip(i + 2));
                    assert(marked(marked(a.stack@)) =~= marked(a.stack@));
                }
                self.write_newline();
                i += 1;
            }
            assert(texts.skip(i + 1) =~= Seq::<Seq<char>>::empty());
        }
    }
}

/// The line of a reference definition.
fn reference_text(r: &Reference) -> (t: Vec<char>)
    ensures
        t@ == reference_line(*r),
{
    let mut t: Vec<char> = Vec::new();
    t.push('[');
    push_str(&mut t, r.label.as_str());
    t.push(']');
    t.push(':');
    t.push(' ');
    push_str(&mut t, r.dest.as_str());
    if let Some(title) = &r.title {
        t.push(' ');
        t.push('"');
        push_str(&mut t, title.as_str());
        t.push('"');
    }
    assert(t@ =~= reference_line(*r));
    t
}

/// Whether a newline is owed before `e` when raw HTML came just before it.
fn continues_html(e: &DocEvent) -> (r: bool)
    ensures
        r == (e is Html || e is Text || e is SoftBreak || e is End),
{
    match e {
        DocEvent::Html(_) | DocEvent::Text(_) | DocEvent::SoftBreak | DocEvent::End(_) => true,
        _ => false,
    }
}

/// Renders `events` with the given reference definitions, which are written
/// at the end in order of their labels.
pub fn render(
    events: &Vec<DocEvent>,
    refdefs: Vec<Reference>,
    style: Style,
    code_fmt: Option<&dyn CodeFormat>,
) -> (r: Vec<char>)
    ensures
        renders(r@, events@, refdefs@, style, code_fmt),
        exists|lines: Seq<Seq<char>>| r@ == joined(lines) && blank_lines_collapsed(lines),
        single_line_markers(style) ==> exists|lines: Seq<Seq<char>>|
            r@ == joined(lines) && blank_lines_collapsed(lines) && single_lines(lines),
{
    let sorted = sort_references(refdefs);
    let ghost sorted_v = sorted@;
    let ghost style_v = style;
    let mut ctx = Renderer::new(sorted, style, code_fmt);
    let ghost mut trace: Seq<Renderer> = seq![ctx];
    let mut last_html = false;
    let mut i: usize = 0;
    while i < events.len()
        invariant
            ctx.wf(),
            i <= events@.len(),
            trace.len() == i + 1,
            fresh(trace[0], sorted_v, style_v, code_fmt),
            trace.last() == ctx,
            ctx.style == style_v,
            last_html == follows_html(events@, i as int),
            forall|j: int|
                0 <= j < i ==> #[trigger] run_step(
                    trace[j],
                    trace[j + 1],
                    events@[j],
                    follows_html(events@, j),
                ),
        decreases events@.len() - i,
    {
        let e = &events[i];
        let ghost before = ctx;
        if last_html {
            if !continues_html(e) {
                ctx.write_newline();
            }
            last_html = false;
        }
        let ghost mid = ctx;
        ctx.event(e);
        proof {
            if follows_html(events@, i as int) && !(*e is Html || *e is Text || *e is SoftBreak
                || *e is End) {
                assert(flushed(before, mid, true) && event_post(mid, ctx, *e));
            } else {
                assert(mid == before);
            }
            assert(run_step(before, ctx, events@[i as int], follows_html(events@, i as int)));
            trace = trace.push(ctx);
        }
        if let DocEvent::Html(_) = e {
            last_html = true;
        }
        i += 1;
    }
    let ghost before = ctx;
    ctx.finish();
    proof {
        let t0 = trace;
        trace = trace.push(ctx);
        assert(trace[events@.len() as int] == before);
        assert forall|j: int| 0 <= j < events@.len() implies #[trigger] run_step(
            trace[j],
            trace[j + 1],
            events@[j],
            follows_html(events@, j),
        ) by {
            assert(trace[j] == t0[j] && trace[j + 1] == t0[j + 1]);
            assert(run_step(t0[j], t0[j + 1], events@[j], follows_html(events@, j)));
        }
        assert(sorted_by_label(sorted_v) && sorted_v.to_multiset() == refdefs@.to_multiset());
        assert(fresh(trace[0], sorted_v, style_v, code_fmt));
        assert(finish_post(trace[events@.len() as int], trace[events@.len() + 1int]));
        assert(ctx.em.out@ == joined(trace[events@.len() + 1int].em.lines@));
    }
    ctx.em.out
}

} // verus!
