//! The bridge to the markdown tokenizer: its event types as Verus sees them,
//! the calls into it, and the conversion of its events into this library's.
use vstd::prelude::*;
use vstd::multiset::Multiset;
use crate::event::{ColumnAlign, CodeKind, DocEvent, LinkKind, Reference, Construct};

verus! {

/// The tokenizer's column alignment, a plain enum that Verus reads as declared.
#[verifier::external_type_specification]
pub struct ExAlignment(pulldown_cmark::Alignment);

/// The tokenizer's link type, a plain enum that Verus reads as declared.
#[verifier::external_type_specification]
pub struct ExLinkType(pulldown_cmark::LinkType);

/// The tokenizer's heading level, a plain enum that Verus reads as declared.
#[verifier::external_type_specification]
pub struct ExHeadingLevel(pulldown_cmark::HeadingLevel);

/// The tokenizer's string type, opaque here: its text is reached through
/// `into_string`.
#[verifier::external_type_specification]
#[verifier::external_body]
pub struct ExCowStr<'a>(pulldown_cmark::CowStr<'a>);

/// The tokenizer's code block kind, read as declared.
#[verifier::external_type_specification]
pub struct ExCodeBlockKind<'a>(pulldown_cmark::CodeBlockKind<'a>);

/// The tokenizer's tags, read as declared so that verified code can match on
/// them.
#[verifier::external_type_specification]
pub struct ExTag<'a>(pulldown_cmark::Tag<'a>);

/// The tokenizer's events, read as declared so that verified code can match
/// on them.
#[verifier::external_type_specification]
pub struct ExEvent<'a>(pulldown_cmark::Event<'a>);

/// Relies on `CowStr::into_string`, which turns the tokenizer's string into
/// an owned `String`.
pub assume_specification<'a>[ pulldown_cmark::CowStr::<'a>::into_string ](
    c: pulldown_cmark::CowStr<'a>,
) -> String;

/// The events that the tokenizer finds in a document.
pub uninterp spec fn events_of(input: Seq<char>) -> Seq<DocEvent>;

/// The reference definitions that the tokenizer finds in a document, as
/// (label, destination, title).
pub uninterp spec fn definitions_of(input: Seq<char>) -> Multiset<
    (Seq<char>, Seq<char>, Option<Seq<char>>),
>;

/// A reference definition as (label, destination, title).
pub open spec fn reference_view(r: Reference) -> (Seq<char>, Seq<char>, Option<Seq<char>>) {
    (
        r.label@,
        r.dest@,
        match r.title {
            Some(t) => Some(t@),
            None => None,
        },
    )
}

/// The definitions of `refs`, in no order.
pub open spec fn reference_views(refs: Seq<Reference>) -> Multiset<
    (Seq<char>, Seq<char>, Option<Seq<char>>),
> {
    refs.map_values(|r: Reference| reference_view(r)).to_multiset()
}

/// Relies on `Parser::new_ext` with every extension on (tables, footnotes,
/// strikethrough, task lists, heading attributes) but smart punctuation, which
/// would change the text; on `Parser::reference_definitions` with
/// `RefDefs::iter`, which walk a hash map in no particular order; and on the
/// parser's `Iterator` impl, which gives the events in document order. Each
/// event is converted by `event_from`. Events and definitions depend on the
/// input alone.
#[verifier::external_body]
fn run_tokenizer(input: &str) -> (r: (Vec<DocEvent>, Vec<Reference>))
    ensures
        r.0@ == events_of(input@),
        reference_views(r.1@) == definitions_of(input@),
{
    let mut opts = pulldown_cmark::Options::all();
    opts.remove(pulldown_cmark::Options::ENABLE_SMART_PUNCTUATION);
    let p = pulldown_cmark::Parser::new_ext(input, opts);
    let refs = p.reference_definitions().iter().map(|(l, d)| Reference {
        label: l.to_string(),
        dest: d.dest.to_string(),
        title: d.title.as_ref().map(|t| t.to_string()),
    }).collect();
    (p.map(event_from).collect(), refs)
}

/// This library's counterpart of the tokenizer's value.
pub open spec fn column_align_of(a: pulldown_cmark::Alignment) -> ColumnAlign {
    match a {
        pulldown_cmark::Alignment::None => ColumnAlign::Unaligned,
        pulldown_cmark::Alignment::Left => ColumnAlign::Left,
        pulldown_cmark::Alignment::Center => ColumnAlign::Center,
        pulldown_cmark::Alignment::Right => ColumnAlign::Right,
    }
}

/// This library's counterpart of the tokenizer's value.
pub open spec fn link_kind_of(t: pulldown_cmark::LinkType) -> LinkKind {
    match t {
        pulldown_cmark::LinkType::Inline => LinkKind::Inline,
        pulldown_cmark::LinkType::Reference => LinkKind::Reference,
        pulldown_cmark::LinkType::ReferenceUnknown => LinkKind::ReferenceUnknown,
        pulldown_cmark::LinkType::Collapsed => LinkKind::Collapsed,
        pulldown_cmark::LinkType::CollapsedUnknown => LinkKind::CollapsedUnknown,
        pulldown_cmark::LinkType::Shortcut => LinkKind::Shortcut,
        pulldown_cmark::LinkType::ShortcutUnknown => LinkKind::ShortcutUnknown,
        pulldown_cmark::LinkType::Autolink => LinkKind::Autolink,
        pulldown_cmark::LinkType::Email => LinkKind::Email,
    }
}

/// This library's counterpart of the tokenizer's value.
pub open spec fn level_of(l: pulldown_cmark::HeadingLevel) -> u8 {
    match l {
        pulldown_cmark::HeadingLevel::H1 => 1u8,
        pulldown_cmark::HeadingLevel::H2 => 2u8,
        pulldown_cmark::HeadingLevel::H3 => 3u8,
        pulldown_cmark::HeadingLevel::H4 => 4u8,
        pulldown_cmark::HeadingLevel::H5 => 5u8,
        pulldown_cmark::HeadingLevel::H6 => 6u8,
    }
}

/// `r` is the counterpart of the tokenizer's tag `t`: the same variant, with
/// the level, list start, alignments and link types carried over.
pub open spec fn construct_of(t: pulldown_cmark::Tag, r: Construct) -> bool {
    match t {
        pulldown_cmark::Tag::Paragraph => r is Paragraph,
        pulldown_cmark::Tag::Heading(l, id, classes) => r is Heading && r->Heading_0 == level_of(l)
            && r->Heading_2@.len() == classes@.len(),
        pulldown_cmark::Tag::BlockQuote => r is BlockQuote,
        pulldown_cmark::Tag::CodeBlock(k) => r is CodeBlock && (k is Indented <==> r->CodeBlock_0 is Indented),
        pulldown_cmark::Tag::List(start) => r == Construct::List(start),
        pulldown_cmark::Tag::Item => r is Item,
        pulldown_cmark::Tag::FootnoteDefinition(_) => r is FootnoteDefinition,
        pulldown_cmark::Tag::Table(aligns) => r is Table && r->Table_0@.len() == aligns@.len() && forall|i: int|
            0 <= i < aligns@.len() ==> r->Table_0@[i] == column_align_of(#[trigger] aligns@[i]),
        pulldown_cmark::Tag::TableHead => r is TableHead,
        pulldown_cmark::Tag::TableRow => r is TableRow,
        pulldown_cmark::Tag::TableCell => r is TableCell,
        pulldown_cmark::Tag::Emphasis => r is Emphasis,
        pulldown_cmark::Tag::Strong => r is Strong,
        pulldown_cmark::Tag::Strikethrough => r is Strikethrough,
        pulldown_cmark::Tag::Link(typ, _, _) => r is Link && r->Link_0 == link_kind_of(typ),
        pulldown_cmark::Tag::Image(typ, _, _) => r is Image && r->Image_0 == link_kind_of(typ),
    }
}

/// `r` is the counterpart of the tokenizer's event `e`.
pub open spec fn doc_event_of(e: pulldown_cmark::Event, r: DocEvent) -> bool {
    match e {
        pulldown_cmark::Event::Start(t) => r is Start && construct_of(t, r->Start_0),
        pulldown_cmark::Event::End(t) => r is End && construct_of(t, r->End_0),
        pulldown_cmark::Event::Text(_) => r is Text,
        pulldown_cmark::Event::Code(_) => r is Code,
        pulldown_cmark::Event::Html(_) => r is Html,
        pulldown_cmark::Event::FootnoteReference(_) => r is FootnoteReference,
        pulldown_cmark::Event::SoftBreak => r is SoftBreak,
        pulldown_cmark::Event::HardBreak => r is HardBreak,
        pulldown_cmark::Event::Rule => r is Rule,
        pulldown_cmark::Event::TaskListMarker(b) => r == DocEvent::TaskListMarker(b),
    }
}

/// This library's alignment for the tokenizer's.
pub fn alignment_from(a: &pulldown_cmark::Alignment) -> (r: ColumnAlign)
    ensures
        r == column_align_of(*a),
{
    match a {
        pulldown_cmark::Alignment::None => ColumnAlign::Unaligned,
        pulldown_cmark::Alignment::Left => ColumnAlign::Left,
        pulldown_cmark::Alignment::Center => ColumnAlign::Center,
        pulldown_cmark::Alignment::Right => ColumnAlign::Right,
    }
}

/// This library's link type for the tokenizer's.
pub fn link_type_from(t: pulldown_cmark::LinkType) -> (r: LinkKind)
    ensures
        r == link_kind_of(t),
{
    match t {
        pulldown_cmark::LinkType::Inline => LinkKind::Inline,
        pulldown_cmark::LinkType::Reference => LinkKind::Reference,
        pulldown_cmark::LinkType::ReferenceUnknown => LinkKind::ReferenceUnknown,
        pulldown_cmark::LinkType::Collapsed => LinkKind::Collapsed,
        pulldown_cmark::LinkType::CollapsedUnknown => LinkKind::CollapsedUnknown,
        pulldown_cmark::LinkType::Shortcut => LinkKind::Shortcut,
        pulldown_cmark::LinkType::ShortcutUnknown => LinkKind::ShortcutUnknown,
        pulldown_cmark::LinkType::Autolink => LinkKind::Autolink,
        pulldown_cmark::LinkType::Email => LinkKind::Email,
    }
}

/// The number of a heading level.
pub fn heading_level(l: pulldown_cmark::HeadingLevel) -> (r: u8)
    ensures
        r == level_of(l),
{
    match l {
        pulldown_cmark::HeadingLevel::H1 => 1,
        pulldown_cmark::HeadingLevel::H2 => 2,
        pulldown_cmark::HeadingLevel::H3 => 3,
        pulldown_cmark::HeadingLevel::H4 => 4,
        pulldown_cmark::HeadingLevel::H5 => 5,
        pulldown_cmark::HeadingLevel::H6 => 6,
    }
}

/// Owned copies of the strings.
fn strings_from(v: &Vec<&str>) -> (r: Vec<String>)
    ensures
        r@.len() == v@.len(),
        forall|i: int| 0 <= i < r@.len() ==> r@[i]@ == v@[i]@,
{
    let mut r: Vec<String> = Vec::new();
    let mut i: usize = 0;
    while i < v.len()
        invariant
            i <= v@.len(),
            r@.len() == i,
            forall|j: int| 0 <= j < i ==> r@[j]@ == v@[j]@,
        decreases v@.len() - i,
    {
        r.push(v[i].to_owned());
        i += 1;
    }
    r
}

/// This library's tag for the tokenizer's.
pub fn tag_from(t: pulldown_cmark::Tag) -> (r: Construct)
    ensures
        construct_of(t, r),
{
    match t {
        pulldown_cmark::Tag::Paragraph => Construct::Paragraph,
        pulldown_cmark::Tag::Heading(l, id, classes) => {
            let id = match id {
                Some(s) => Some(s.to_owned()),
                None => None,
            };
            Construct::Heading(heading_level(l), id, strings_from(&classes))
        },
        pulldown_cmark::Tag::BlockQuote => Construct::BlockQuote,
        pulldown_cmark::Tag::CodeBlock(k) => match k {
            pulldown_cmark::CodeBlockKind::Indented => Construct::CodeBlock(CodeKind::Indented),
            pulldown_cmark::CodeBlockKind::Fenced(s) => Construct::CodeBlock(
                CodeKind::Fenced(s.into_string()),
            ),
        },
        pulldown_cmark::Tag::List(start) => Construct::List(start),
        pulldown_cmark::Tag::Item => Construct::Item,
        pulldown_cmark::Tag::FootnoteDefinition(s) => Construct::FootnoteDefinition(s.into_string()),
        pulldown_cmark::Tag::Table(aligns) => {
            let mut r: Vec<ColumnAlign> = Vec::new();
            let mut i: usize = 0;
            while i < aligns.len()
                invariant
                    i <= aligns@.len(),
                    r@.len() == i,
                    forall|j: int| 0 <= j < i ==> r@[j] == column_align_of(#[trigger] aligns@[j]),
                decreases aligns@.len() - i,
            {
                r.push(alignment_from(&aligns[i]));
                i += 1;
            }
            Construct::Table(r)
        },
        pulldown_cmark::Tag::TableHead => Construct::TableHead,
        pulldown_cmark::Tag::TableRow => Construct::TableRow,
        pulldown_cmark::Tag::TableCell => Construct::TableCell,
        pulldown_cmark::Tag::Emphasis => Construct::Emphasis,
        pulldown_cmark::Tag::Strong => Construct::Strong,
        pulldown_cmark::Tag::Strikethrough => Construct::Strikethrough,
        pulldown_cmark::Tag::Link(typ, dest, title) => Construct::Link(
            link_type_from(typ),
            dest.into_string(),
            title.into_string(),
        ),
        pulldown_cmark::Tag::Image(typ, dest, title) => Construct::Image(
            link_type_from(typ),
            dest.into_string(),
            title.into_string(),
        ),
    }
}

/// This library's event for the tokenizer's.
pub fn event_from(e: pulldown_cmark::Event) -> (r: DocEvent)
    ensures
        doc_event_of(e, r),
{
    match e {
        pulldown_cmark::Event::Start(t) => DocEvent::Start(tag_from(t)),
        pulldown_cmark::Event::End(t) => DocEvent::End(tag_from(t)),
        pulldown_cmark::Event::Text(s) => DocEvent::Text(s.into_string()),
        pulldown_cmark::Event::Code(s) => DocEvent::Code(s.into_string()),
        pulldown_cmark::Event::Html(s) => DocEvent::Html(s.into_string()),
        pulldown_cmark::Event::FootnoteReference(s) => DocEvent::FootnoteReference(s.into_string()),
        pulldown_cmark::Event::SoftBreak => DocEvent::SoftBreak,
        pulldown_cmark::Event::HardBreak => DocEvent::HardBreak,
        pulldown_cmark::Event::Rule => DocEvent::Rule,
        pulldown_cmark::Event::TaskListMarker(b) => DocEvent::TaskListMarker(b),
    }
}

/// The events and reference definitions that the tokenizer finds in
/// `input`.
pub fn tokenize(input: &str) -> (r: (Vec<DocEvent>, Vec<Reference>))
    ensures
        r.0@ == events_of(input@),
        reference_views(r.1@) == definitions_of(input@),
{
    run_tokenizer(input)
}

} // verus!
