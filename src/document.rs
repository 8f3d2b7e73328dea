//! The input document: rows of typed content blocks.
use vstd::prelude::*;
use crate::text::same_text;

verus! {

/// What a block holds.
#[derive(Clone, Copy, Debug, PartialEq, Eq, Structural)]
pub enum BlockKind {
    Text,
    Image,
    /// Any other tag; such a block renders nothing.
    Other,
}

impl BlockKind {
    pub open spec fn of_tag(tag: Seq<char>) -> BlockKind {
        if tag == "text"@ {
            BlockKind::Text
        } else if tag == "image"@ {
            BlockKind::Image
        } else {
            BlockKind::Other
        }
    }

    /// The kind that a block's type tag (`"text"`, `"image"`, ...) names.
    pub fn from_tag(tag: &str) -> (r: BlockKind)
        ensures
            r == BlockKind::of_tag(tag@),
    {
        if same_text(tag, "text") {
            BlockKind::Text
        } else if same_text(tag, "image") {
            BlockKind::Image
        } else {
            BlockKind::Other
        }
    }
}

/// One content unit of a row.
#[derive(Clone, Debug)]
pub struct Block {
    /// Display text, lines separated by line feeds.
    pub content: String,
    /// Resource path of an image block; may be empty.
    pub media: String,
    pub id: i64,
    pub kind: BlockKind,
    pub render: String,
    /// Inline `attribute:value;` style markup.
    pub raw: String,
}

/// Rows of blocks, in rendering order.
#[derive(Clone, Debug)]
pub struct Document {
    pub rows: Vec<Vec<Block>>,
}

impl Document {
    pub open spec fn rows_view(&self) -> Seq<Seq<Block>> {
        self.rows@.map_values(|r: Vec<Block>| r@)
    }
}

} // verus!
