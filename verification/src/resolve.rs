use vstd::prelude::*;

verus! {

/// Names of resolvers: passes that run over the events once tokenizing ends.
#[derive(Clone, Copy, Debug, PartialEq, Eq, Structural)]
pub enum Name {
    /// Resolve attention (emphasis, strong).
    Attention,
    /// Resolve paragraph-like content.
    Content,
    /// Resolve adjacent data.
    Data,
    /// Resolve ATX headings.
    HeadingAtx,
    /// Resolve setext headings.
    HeadingSetext,
    /// Resolve labels (links, images).
    Label,
    /// Resolve list items.
    ListItem,
    /// Resolve text.
    Text,
}

} // verus!
