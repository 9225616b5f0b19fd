//! The document events that the renderer consumes, as plain values.
use vstd::prelude::*;

verus! {

/// Text alignment of a table column.
#[derive(Clone, Copy, PartialEq, Eq, Structural, Debug)]
pub enum ColumnAlign {
    Unaligned,
    Left,
    Center,
    Right,
}

/// How a link was written in the source.
#[derive(Clone, Copy, PartialEq, Eq, Structural, Debug)]
pub enum LinkKind {
    /// `[text](dest)`
    Inline,
    /// `[text][label]`
    Reference,
    /// `[text][label]` resolved without a definition in the document
    ReferenceUnknown,
    /// `[text][]`
    Collapsed,
    /// `[text][]` resolved without a definition in the document
    CollapsedUnknown,
    /// `[text]`
    Shortcut,
    /// `[text]` resolved without a definition in the document
    ShortcutUnknown,
    /// `<http://...>`
    Autolink,
    /// `<name@host>`
    Email,
}

/// Kind of a code block.
#[derive(Debug)]
pub enum CodeKind {
    /// Indented by four spaces.
    Indented,
    /// Between fences; holds the info string, which may be empty.
    Fenced(String),
}

/// A construct that has a start and an end event.
#[derive(Debug)]
pub enum Construct {
    Paragraph,
    /// A heading of level 1 to 6, with its optional id and its classes.
    Heading(u8, Option<String>, Vec<String>),
    BlockQuote,
    CodeBlock(CodeKind),
    /// A list; ordered ones hold the number of the first item.
    List(Option<u64>),
    Item,
    /// A footnote definition, with its label.
    FootnoteDefinition(String),
    /// A table, with the alignment of each column.
    Table(Vec<ColumnAlign>),
    TableHead,
    TableRow,
    TableCell,
    Emphasis,
    Strong,
    Strikethrough,
    /// A link: its type, destination and title.
    Link(LinkKind, String, String),
    /// An image: its link type, destination and title.
    Image(LinkKind, String, String),
}

/// One event of a document, in document order.
#[derive(Debug)]
pub enum DocEvent {
    Start(Construct),
    End(Construct),
    Text(String),
    Code(String),
    Html(String),
    FootnoteReference(String),
    SoftBreak,
    HardBreak,
    Rule,
    TaskListMarker(bool),
}

/// A reference definition: `[label]: dest "title"`.
#[derive(Debug)]
pub struct Reference {
    pub label: String,
    pub dest: String,
    pub title: Option<String>,
}

} // verus!
