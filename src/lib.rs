//! Renders a markdown document back into markdown source in one canonical
//! style: the tokenizer's events go through a single stateful pass that
//! tracks the nesting of containers, escapes what would read as markup, lays
//! out tables and writes the reference definitions at the end.
use vstd::prelude::*;

pub mod event;
pub mod lines;
pub mod parse;
pub mod refs;
pub mod render;
pub mod table;
pub mod text;

use crate::event::{DocEvent, Reference};
use crate::lines::{Style, blank_lines_collapsed, joined, single_lines};
use crate::parse::{definitions_of, events_of, reference_views, tokenize};
pub use crate::render::CodeFormat;
use crate::render::{render, renders};
use crate::text::chars_of;

verus! {

/// The settings of a rendering, built from the default with the `with_*`
/// methods.
#[derive(Clone, Copy)]
pub struct Formatter<'a> {
    /// Rewrites the content of fenced code blocks; none by default.
    pub code_fmt: Option<&'a dyn CodeFormat>,
    /// Marker of block quotes; `>` by default.
    pub blockquote: &'a str,
    /// Delimiter of emphasis; `_` by default.
    pub emphasis: &'a str,
    /// Marker of unordered list items; `-` by default.
    pub unordered_list: &'a str,
}

impl<'a> Default for Formatter<'a> {
    fn default() -> (r: Self)
        ensures
            r.code_fmt is None,
            r.blockquote@ == seq!['>'],
            r.emphasis@ == seq!['_'],
            r.unordered_list@ == seq!['-'],
    {
        proof {
            reveal_strlit(">");
            reveal_strlit("_");
            reveal_strlit("-");
        }
        Formatter { code_fmt: None, blockquote: ">", emphasis: "_", unordered_list: "-" }
    }
}

/// Relies on `String::push`, which appends one character.
#[verifier::external_body]
fn push_char(s: &mut String, c: char)
    ensures
        final(s)@ == old(s)@.push(c),
{
    s.push(c);
}

/// The string of the characters `v`.
fn string_of(v: &Vec<char>) -> (r: String)
    ensures
        r@ == v@,
{
    let mut r = String::new();
    let mut i: usize = 0;
    while i < v.len()
        invariant
            i <= v@.len(),
            r@ == v@.subrange(0, i as int),
        decreases v@.len() - i,
    {
        push_char(&mut r, v[i]);
        assert(v@.subrange(0, i + 1) == v@.subrange(0, i as int).push(v@[i as int]));
        i += 1;
    }
    assert(v@.subrange(0, v@.len() as int) == v@);
    r
}

impl<'a> Formatter<'a> {
    /// Renders markdown `input` in this style: the tokenizer's events and
    /// reference definitions for `input`, rendered as `format_events` does.
    pub fn format_cmark(&self, input: &str) -> (r: String)
        ensures
            exists|refs: Seq<Reference>, st: Style|
                reference_views(refs) == definitions_of(input@) && self.style_is(st) && renders(
                    r@,
                    events_of(input@),
                    refs,
                    st,
                    self.code_fmt,
                ),
            exists|lines: Seq<Seq<char>>| r@ == joined(lines) && blank_lines_collapsed(lines),
            self.single_line_markers() ==> exists|lines: Seq<Seq<char>>|
                r@ == joined(lines) && blank_lines_collapsed(lines) && single_lines(lines),
    {
        let (events, refdefs) = tokenize(input);
        let ghost refs = refdefs@;
        let r = self.format_events(&events, refdefs);
        assert(reference_views(refs) == definitions_of(input@));
        r
    }

    /// Renders a document given as its events and reference definitions in
    /// this style. The result is a sequence of lines, each ended by a newline,
    /// with no two blank lines in a row and no blank first line.
    pub fn format_events(&self, events: &Vec<DocEvent>, refdefs: Vec<Reference>) -> (r: String)
        ensures
            exists|st: Style| self.style_is(st) && renders(r@, events@, refdefs@, st, self.code_fmt),
            exists|lines: Seq<Seq<char>>| r@ == joined(lines) && blank_lines_collapsed(lines),
            self.single_line_markers() ==> exists|lines: Seq<Seq<char>>|
                r@ == joined(lines) && blank_lines_collapsed(lines) && single_lines(lines),
    {
        let style = Style {
            blockquote: chars_of(self.blockquote),
            emphasis: chars_of(self.emphasis),
            unordered_list: chars_of(self.unordered_list),
        };
        let ghost st = style;
        let out = render(events, refdefs, style, self.code_fmt);
        let r = string_of(&out);
        assert(self.style_is(st) && renders(r@, events@, refdefs@, st, self.code_fmt));
        r
    }

    /// Neither the block quote marker nor the list marker holds a newline.
    pub open spec fn single_line_markers(&self) -> bool {
        !self.blockquote@.contains('\n') && !self.unordered_list@.contains('\n')
    }

    /// `st` holds this formatter's markers.
    pub open spec fn style_is(&self, st: Style) -> bool {
        &&& st.blockquote@ == self.blockquote@
        &&& st.emphasis@ == self.emphasis@
        &&& st.unordered_list@ == self.unordered_list@
    }

    /// This formatter with the given code formatter.
    pub fn with_code_formatter(self, code_fmt: Option<&'a dyn CodeFormat>) -> (r: Self)
        ensures
            r.code_fmt == code_fmt,
            r.blockquote == self.blockquote,
            r.emphasis == self.emphasis,
            r.unordered_list == self.unordered_list,
    {
        Formatter { code_fmt, ..self }
    }

    /// This formatter with the given block quote marker.
    pub fn with_blockquote(self, blockquote: &'a str) -> (r: Self)
        ensures
            r.code_fmt == self.code_fmt,
            r.blockquote == blockquote,
            r.emphasis == self.emphasis,
            r.unordered_list == self.unordered_list,
    {
        Formatter { blockquote, ..self }
    }

    /// This formatter with the given emphasis delimiter.
    pub fn with_emphasis(self, emphasis: &'a str) -> (r: Self)
        ensures
            r.code_fmt == self.code_fmt,
            r.blockquote == self.blockquote,
            r.emphasis == emphasis,
            r.unordered_list == self.unordered_list,
    {
        Formatter { emphasis, ..self }
    }

    /// This formatter with the given unordered list marker.
    pub fn with_unordered_list(self, unordered_list: &'a str) -> (r: Self)
        ensures
            r.code_fmt == self.code_fmt,
            r.blockquote == self.blockquote,
            r.emphasis == self.emphasis,
            r.unordered_list == unordered_list,
    {
        Formatter { unordered_list, ..self }
    }
}

} // verus!
