use vstd::prelude::*;

verus! {

/// How a link or image destination was written in the source.
#[derive(Clone, Copy, Debug, PartialEq, Eq, Structural)]
pub enum LinkType {
    Inline,
    Reference,
    ReferenceUnknown,
    Collapsed,
    CollapsedUnknown,
    Shortcut,
    ShortcutUnknown,
    Autolink,
    Email,
}

/// Column alignment of a table.
#[derive(Clone, Copy, Debug, PartialEq, Eq, Structural)]
pub enum Alignment {
    Unspecified,
    Left,
    Center,
    Right,
}

/// How a code block was delimited, with the language of a fenced block
/// (empty when none was given).
#[derive(Clone, Debug)]
pub enum CodeBlockKind {
    Indented,
    Fenced(String),
}

/// A structural construct opened by `StartTag` and closed by `EndTag`.
#[derive(Clone, Debug)]
pub enum Tag {
    Paragraph,
    Heading(u32),
    BlockQuote,
    CodeBlock(CodeBlockKind),
    /// An ordered list with its first index, or an unordered list.
    List(Option<u64>),
    ListItem,
    FootnoteDefinition(String),
    Table(Vec<Alignment>),
    TableHead,
    TableRow,
    TableCell,
    Emphasis,
    Strong,
    Strikethrough,
    /// Link type, destination and title.
    Link(LinkType, String, String),
    /// Link type, source and title.
    Image(LinkType, String, String),
}

/// One unit of parsed document structure.
#[derive(Clone, Debug)]
pub enum Event {
    StartTag(Tag),
    EndTag(Tag),
    Text(String),
    InlineCode(String),
    RawMarkup(String),
    FootnoteReference(String),
    SoftBreak,
    HardBreak,
    ThematicBreak,
    TaskMarker(bool),
}

} // verus!
