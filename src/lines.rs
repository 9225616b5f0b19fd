//! The line emission engine: container padding, trimming and the collapsing
//! of blank lines.
use vstd::prelude::*;
use crate::text::{decimal, digit, spaces, trim_end, white, push_chars, push_decimal, push_spaces};

verus! {

/// One active container of the nesting stack.
#[derive(Clone, Copy, PartialEq, Eq, Structural, Debug)]
pub enum Frame {
    /// A block quote: its marker and a space start each line.
    BlockQuote,
    /// An indented code block: four spaces start each line.
    CodeIndent,
    /// A list: the number of ordered lists, whether the current item has
    /// written its marker, and whether a blank line must end the item.
    List(Option<u64>, bool, bool),
}

/// The markers a rendering is written with.
pub struct Style {
    pub blockquote: Vec<char>,
    pub emphasis: Vec<char>,
    pub unordered_list: Vec<char>,
}

/// What a frame puts at the start of a line.
pub open spec fn frame_pad(f: Frame, style: Style) -> Seq<char> {
    match f {
        Frame::BlockQuote => style.blockquote@.push(' '),
        Frame::CodeIndent => spaces(4),
        Frame::List(None, written, _) => if written {
            spaces(style.unordered_list@.len() + 1)
        } else {
            style.unordered_list@.push(' ')
        },
        Frame::List(Some(n), written, _) => if written {
            spaces(decimal(n as nat).len() + 2)
        } else {
            decimal(n as nat) + seq!['.', ' ']
        },
    }
}

/// The padding of a line: each frame's part, outermost first.
pub open spec fn pad_of(stack: Seq<Frame>, style: Style) -> Seq<char>
    decreases stack.len(),
{
    if stack.len() == 0 {
        Seq::empty()
    } else {
        pad_of(stack.drop_last(), style) + frame_pad(stack.last(), style)
    }
}

/// A frame once a line has been written inside it.
pub open spec fn mark_written(f: Frame) -> Frame {
    match f {
        Frame::List(m, _, nl) => Frame::List(m, true, nl),
        _ => f,
    }
}

/// The stack once a line has been written.
pub open spec fn marked(stack: Seq<Frame>) -> Seq<Frame> {
    stack.map_values(|f: Frame| mark_written(f))
}

/// The text of lines, each ended by a newline.
pub open spec fn joined(lines: Seq<Seq<char>>) -> Seq<char>
    decreases lines.len(),
{
    if lines.len() == 0 {
        Seq::empty()
    } else {
        joined(lines.drop_last()) + lines.last() + seq!['\n']
    }
}

/// No two consecutive lines are blank, and the first line is not blank.
pub open spec fn blank_lines_collapsed(lines: Seq<Seq<char>>) -> bool {
    &&& (lines.len() > 0 ==> lines[0].len() > 0)
    &&& forall|i: int|
        0 <= i < lines.len() - 1 ==> !(#[trigger] lines[i].len() == 0 && lines[i + 1].len() == 0)
}

/// The line that padding and `line` make, trimmed unless `trim` is false.
pub open spec fn line_text(stack: Seq<Frame>, style: Style, line: Seq<char>, trim: bool) -> Seq<
    char,
> {
    let t = pad_of(stack, style) + line;
    if trim {
        trim_end(t)
    } else {
        t
    }
}

/// The written lines once the line `t` is offered: it is written unless it
/// is blank and the last written line is blank too, or none was written.
pub open spec fn after_emit(lines: Seq<Seq<char>>, t: Seq<char>) -> Seq<Seq<char>> {
    if t.len() > 0 || !(lines.len() == 0 || lines.last().len() == 0) {
        lines.push(t)
    } else {
        lines
    }
}

/// A line without the carriage return that ends it, if any.
pub open spec fn strip_cr(line: Seq<char>) -> Seq<char> {
    if line.len() > 0 && line.last() == '\r' {
        line.drop_last()
    } else {
        line
    }
}

/// The physical lines of `rest` when `cur` has been read of the current
/// line: split at each newline (a carriage return before it is dropped);
/// a final line without newline counts only when it is not empty.
pub open spec fn split_from(rest: Seq<char>, cur: Seq<char>) -> Seq<Seq<char>>
    decreases rest.len(),
{
    if rest.len() == 0 {
        if cur.len() > 0 {
            seq![cur]
        } else {
            Seq::empty()
        }
    } else if rest[0] == '\n' {
        seq![strip_cr(cur)] + split_from(rest.drop_first(), Seq::empty())
    } else {
        split_from(rest.drop_first(), cur.push(rest[0]))
    }
}

/// The physical lines of the pending text; an empty pending text stands
/// for one empty line.
pub open spec fn pending_lines(buf: Seq<char>) -> Seq<Seq<char>> {
    if buf.len() == 0 {
        seq![Seq::empty()]
    } else {
        split_from(buf, Seq::empty())
    }
}

/// The written lines once each of `parts` has been offered in turn, padded
/// by the stack (list items write their marker on the first line only) and
/// trimmed unless `trim` is false.
pub open spec fn flush_lines(
    lines: Seq<Seq<char>>,
    stack: Seq<Frame>,
    style: Style,
    parts: Seq<Seq<char>>,
    trim: bool,
) -> Seq<Seq<char>>
    decreases parts.len(),
{
    if parts.len() == 0 {
        lines
    } else {
        flush_lines(
            after_emit(lines, line_text(stack, style, parts[0], trim)),
            marked(stack),
            style,
            parts.drop_first(),
            trim,
        )
    }
}

/// The written lines once each of `texts` has been flushed in turn as the
/// pending line, list markers written by the first.
pub open spec fn flush_each(
    lines: Seq<Seq<char>>,
    stack: Seq<Frame>,
    style: Style,
    texts: Seq<Seq<char>>,
) -> Seq<Seq<char>>
    decreases texts.len(),
{
    if texts.len() == 0 {
        lines
    } else {
        flush_each(
            flush_lines(lines, stack, style, pending_lines(texts[0]), true),
            marked(stack),
            style,
            texts.drop_first(),
        )
    }
}

/// No marker of `style` holds a newline.
pub open spec fn single_line_markers(style: Style) -> bool {
    !style.blockquote@.contains('\n') && !style.unordered_list@.contains('\n')
}

/// No line holds a newline.
pub open spec fn single_lines(lines: Seq<Seq<char>>) -> bool {
    forall|i: int| 0 <= i < lines.len() ==> !(#[trigger] lines[i]).contains('\n')
}

proof fn lemma_decimal_single_line(n: nat)
    ensures
        !decimal(n).contains('\n'),
    decreases n,
{
    if n >= 10 {
        lemma_decimal_single_line(n / 10);
        assert(decimal(n) == decimal(n / 10).push(digit(n % 10)));
        assert forall|k: int| 0 <= k < decimal(n).len() implies decimal(n)[k] != '\n' by {
            if k < decimal(n / 10).len() {
                assert(decimal(n)[k] == decimal(n / 10)[k]);
            }
        }
    }
}

/// Padding holds no newline when the markers hold none.
pub proof fn lemma_padding_single_line(stack: Seq<Frame>, style: Style)
    requires
        single_line_markers(style),
    ensures
        !pad_of(stack, style).contains('\n'),
    decreases stack.len(),
{
    if stack.len() > 0 {
        lemma_padding_single_line(stack.drop_last(), style);
        let p = pad_of(stack.drop_last(), style);
        let f = frame_pad(stack.last(), style);
        if let Frame::List(Some(n), _, _) = stack.last() {
            lemma_decimal_single_line(n as nat);
        }
        assert(!f.contains('\n')) by {
            if f.contains('\n') {
                let k = choose|k: int| 0 <= k < f.len() && f[k] == '\n';
                match stack.last() {
                    Frame::BlockQuote => {
                        assert(k < style.blockquote@.len() ==> style.blockquote@[k] == '\n');
                    },
                    Frame::List(None, w, _) => {
                        if !w {
                            assert(k < style.unordered_list@.len() ==> style.unordered_list@[k]
                                == '\n');
                        }
                    },
                    Frame::List(Some(n), w, _) => {
                        if !w {
                            assert(k < decimal(n as nat).len() ==> decimal(n as nat)[k] == '\n');
                        }
                    },
                    _ => {},
                }
            }
        }
        assert forall|k: int| 0 <= k < (p + f).len() implies (p + f)[k] != '\n' by {
            if k < p.len() {
                assert((p + f)[k] == p[k]);
            } else {
                assert((p + f)[k] == f[k - p.len()]);
            }
        }
    }
}

/// Trimming keeps a prefix.
pub proof fn lemma_trim_prefix(s: Seq<char>)
    ensures
        trim_end(s).len() <= s.len(),
        forall|k: int| 0 <= k < trim_end(s).len() ==> trim_end(s)[k] == s[k],
    decreases s.len(),
{
    if s.len() > 0 && white(s.last()) {
        lemma_trim_prefix(s.drop_last());
        assert forall|k: int| 0 <= k < trim_end(s).len() implies trim_end(s)[k] == s[k] by {
            assert(s.drop_last()[k] == s[k]);
        }
    }
}

/// Lines on the way to the output, and the output so far.
pub struct Emitter {
    pub out: Vec<char>,
    pub lines: Ghost<Seq<Seq<char>>>,
    pub last_line_blank: bool,
}

impl Emitter {
    /// The output is the written lines, and blank runs are collapsed.
    pub open spec fn wf(&self) -> bool {
        &&& self.out@ == joined(self.lines@)
        &&& blank_lines_collapsed(self.lines@)
        &&& self.last_line_blank == (self.lines@.len() == 0 || self.lines@.last().len() == 0)
    }

    /// Nothing written yet.
    pub fn new() -> (e: Emitter)
        ensures
            e.wf(),
            e.lines@.len() == 0,
    {
        Emitter { out: Vec::new(), lines: Ghost(Seq::empty()), last_line_blank: true }
    }

    /// Writes `line` as one output line, unless it is blank and the last
    /// line written was blank too (or nothing was written yet).
    pub fn emit(&mut self, line: &Vec<char>)
        requires
            old(self).wf(),
        ensures
            final(self).wf(),
            final(self).lines@ == if line@.len() > 0 || !old(self).last_line_blank {
                old(self).lines@.push(line@)
            } else {
                old(self).lines@
            },
    {
        if line.len() > 0 || !self.last_line_blank {
            let ghost prev = self.lines@;
            push_chars(&mut self.out, line);
            self.out.push('\n');
            assert(self.out@ == joined(prev) + line@ + seq!['\n']);
            self.lines = Ghost(self.lines@.push(line@));
            assert(self.lines@.drop_last() == prev);
            assert(joined(self.lines@) == joined(prev) + line@ + seq!['\n']);
            assert(self.lines@.last() == line@);
            assert(prev.len() > 0 ==> self.lines@[0] == prev[0]);
            assert forall|i: int| 0 <= i < self.lines@.len() - 1 implies !(
            #[trigger] self.lines@[i].len() == 0 && self.lines@[i + 1].len() == 0) by {
                if i < prev.len() - 1 {
                    assert(self.lines@[i] == prev[i] && self.lines@[i + 1] == prev[i + 1]);
                } else {
                    assert(self.lines@[i] == prev.last());
                }
            }
        }
        self.last_line_blank = line.len() == 0;
    }
}

/// Lines of a list item after its first are padded to the width of the
/// item's own marker and separator: the blank padding of an item that has
/// written its marker is exactly as long as the marker it wrote.
pub proof fn lemma_item_padding_width(m: Option<u64>, nl0: bool, nl1: bool, style: Style)
    ensures
        frame_pad(Frame::List(m, true, nl1), style).len() == frame_pad(
            Frame::List(m, false, nl0),
            style,
        ).len(),
        frame_pad(Frame::List(m, true, nl1), style) == spaces(
            frame_pad(Frame::List(m, false, nl0), style).len(),
        ),
{
}

/// Continuation lines line up under the first line: once the list items have
/// written their markers, the padding is as wide as it was on the line that
/// wrote them, and it stays the same from then on.
pub proof fn lemma_continuation_padding(stack: Seq<Frame>, style: Style)
    ensures
        pad_of(marked(stack), style).len() == pad_of(stack, style).len(),
        marked(marked(stack)) == marked(stack),
    decreases stack.len(),
{
    assert(marked(marked(stack)) =~= marked(stack));
    if stack.len() > 0 {
        lemma_continuation_padding(stack.drop_last(), style);
        assert(marked(stack).drop_last() =~= marked(stack.drop_last()));
        let f = stack.last();
        if let Frame::List(m, w, nl) = f {
            lemma_item_padding_width(m, nl, nl, style);
        }
    }
}

/// Appends the padding of `stack` to `buf` and marks the list items as having
/// written their marker.
pub fn write_padding(buf: &mut Vec<char>, stack: &mut Vec<Frame>, style: &Style)
    ensures
        final(buf)@ == old(buf)@ + pad_of(old(stack)@, *style),
        final(stack)@ == marked(old(stack)@),
{
    let ghost orig = stack@;
    let mut i: usize = 0;
    while i < stack.len()
        invariant
            i <= stack@.len(),
            stack@.len() == orig.len(),
            forall|j: int| 0 <= j < i ==> stack@[j] == mark_written(orig[j]),
            forall|j: int| i <= j < orig.len() ==> stack@[j] == orig[j],
            buf@ == old(buf)@ + pad_of(orig.subrange(0, i as int), *style),
        decreases orig.len() - i,
    {
        let f = stack[i];
        match f {
            Frame::BlockQuote => {
                push_chars(buf, &style.blockquote);
                buf.push(' ');
            },
            Frame::CodeIndent => {
                push_spaces(buf, 4);
            },
            Frame::List(m, written, nl) => {
                match m {
                    None => {
                        if written {
                            push_spaces(buf, style.unordered_list.len());
                            buf.push(' ');
                            assert(spaces(style.unordered_list@.len() + 1) == spaces(
                                style.unordered_list@.len(),
                            ).push(' '));
                        } else {
                            push_chars(buf, &style.unordered_list);
                            buf.push(' ');
                        }
                    },
                    Some(n) => {
                        let mut num: Vec<char> = Vec::new();
                        push_decimal(&mut num, n);
                        if written {
                            push_spaces(buf, num.len());
                            buf.push(' ');
                            buf.push(' ');
                            assert(spaces(num@.len() + 2) == spaces(num@.len()) + seq![' ', ' ']);
                        } else {
                            push_chars(buf, &num);
                            buf.push('.');
                            buf.push(' ');
                        }
                    },
                }
                stack.set(i, Frame::List(m, true, nl));
            },
        }
        assert(orig.subrange(0, i + 1).drop_last() == orig.subrange(0, i as int));
        i += 1;
    }
    assert(orig.subrange(0, orig.len() as int) == orig);
    assert(stack@ == marked(orig));
}

} // verus!
