use vstd::prelude::*;

verus! {

/// A place in the document.
#[derive(Clone, Copy, Debug, PartialEq, Eq, Structural)]
pub struct Point {
    /// 1-indexed line number.
    pub line: usize,
    /// 1-indexed column number, tabs counted as spaces up to the next stop.
    pub column: usize,
    /// 0-indexed position in the byte list.
    pub index: usize,
    /// Virtual step inside a tab.
    pub vs: usize,
}

/// Whether an event starts or ends a token.
#[derive(Clone, Copy, Debug, PartialEq, Eq, Structural)]
pub enum Kind {
    /// The start of a token.
    Enter,
    /// The end of a token.
    Exit,
}

/// Names of tokens.
#[derive(Clone, Copy, Debug, PartialEq, Eq, Structural)]
pub enum Name {
    /// Some text.
    Data,
    /// A line ending.
    LineEnding,
    /// A paragraph.
    Paragraph,
    /// Spaces and tabs.
    SpaceOrTab,
}

/// Content types that a token can hold.
#[derive(Clone, Copy, Debug, PartialEq, Eq, Structural)]
pub enum Content {
    /// Block content.
    Flow,
    /// Paragraph-like content.
    Content,
    /// Phrasing content.
    Text,
}

/// Link to another event, chaining tokens of one content type.
#[derive(Clone, Copy, Debug, PartialEq, Eq, Structural)]
pub struct Link {
    /// Index of the previous event in the chain.
    pub previous: Option<usize>,
    /// Index of the next event in the chain.
    pub next: Option<usize>,
    /// The content type of the chain.
    pub content_type: Content,
}

/// Something semantic happening somewhere.
#[derive(Clone, Copy, Debug, PartialEq, Eq, Structural)]
pub struct Event {
    /// Enter or exit.
    pub kind: Kind,
    /// The token's name.
    pub name: Name,
    /// Where it happens.
    pub point: Point,
    /// Optional link to other events.
    pub link: Option<Link>,
}

/// Tokens that cannot contain other tokens.
pub open spec fn is_void(name: Name) -> bool {
    name == Name::Data || name == Name::LineEnding || name == Name::SpaceOrTab
}

} // verus!
