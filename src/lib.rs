//! Extracts structured documentation from `/* ... */` and `// ...` comments: a
//! free-text brief and an ordered list of `@tag` entries.
use vstd::prelude::*;

pub mod assemble;
pub mod laws;
pub mod lines;
pub mod newline;
pub mod scanner;
pub mod segment;
pub mod text;

verus! {

/// One committed entry of a comment: a tag name and the text under it.
#[derive(Debug, Clone, PartialEq)]
pub struct Tag {
    /// Tag name
    pub tag: String,
    /// Tag content
    pub text: String,
}

/// The structured form of the documentation comments found in a text.
#[derive(Debug, Clone, PartialEq)]
pub struct Comment {
    /// Brief description of the function purpose
    pub brief: String,
    /// Tags of the symbol, in the order they appear
    pub tags: Vec<Tag>,
}

/// The mathematical value of a [`Tag`].
pub struct TagView {
    pub tag: Seq<char>,
    pub text: Seq<char>,
}

/// The mathematical value of a [`Comment`].
pub struct CommentView {
    pub brief: Seq<char>,
    pub tags: Seq<TagView>,
}

impl View for Tag {
    type V = TagView;

    open spec fn view(&self) -> TagView {
        TagView { tag: self.tag@, text: self.text@ }
    }
}

impl View for Comment {
    type V = CommentView;

    open spec fn view(&self) -> CommentView {
        CommentView { brief: self.brief@, tags: self.tags@.map_values(|t: Tag| t@) }
    }
}

} // verus!
