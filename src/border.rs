//! Whether a row's table gets a visible frame.
use vstd::prelude::*;
use crate::document::{Block, BlockKind};
use crate::text::{lines_of, same_text, split_lines, strings_view};
use crate::token::{parse_tokens, tokens_of, tokens_view, StyleToken};

verus! {

/// Lines longer than this may carry a frame.
pub const FRAME_MIN_LINE: usize = 10;

pub open spec fn is_border_key(attribute: Seq<char>) -> bool {
    attribute == "border"@ || attribute == "border-top"@ || attribute == "border-bottom"@
        || attribute == "border-left"@ || attribute == "border-right"@
}

pub open spec fn has_border_token(ts: Seq<(Seq<char>, Seq<char>)>) -> bool {
    exists|i: int| 0 <= i < ts.len() && is_border_key(#[trigger] ts[i].0)
}

pub open spec fn has_long_line(lines: Seq<Seq<char>>) -> bool {
    exists|i: int| 0 <= i < lines.len() && #[trigger] lines[i].len() > FRAME_MIN_LINE
}

/// A text block with a line longer than the threshold and a border key in
/// its markup.
pub open spec fn block_wants_border(b: Block) -> bool {
    b.kind == BlockKind::Text && has_long_line(lines_of(b.content@)) && has_border_token(
        tokens_of(b.raw@),
    )
}

/// A row is framed when any one of its blocks asks for it.
pub open spec fn row_bordered(row: Seq<Block>) -> bool {
    exists|j: int| 0 <= j < row.len() && block_wants_border(#[trigger] row[j])
}

fn is_border_key_exec(attribute: &str) -> (r: bool)
    ensures
        r == is_border_key(attribute@),
{
    same_text(attribute, "border") || same_text(attribute, "border-top") || same_text(
        attribute,
        "border-bottom",
    ) || same_text(attribute, "border-left") || same_text(attribute, "border-right")
}

fn any_border_token(tokens: &Vec<StyleToken>) -> (r: bool)
    ensures
        r == has_border_token(tokens_view(tokens@)),
{
    let mut i: usize = 0;
    while i < tokens.len()
        invariant
            i <= tokens@.len(),
            forall|k: int| 0 <= k < i ==> !is_border_key(#[trigger] tokens@[k].attribute@),
        decreases tokens@.len() - i,
    {
        if is_border_key_exec(tokens[i].attribute.as_str()) {
            assert(tokens_view(tokens@)[i as int].0 == tokens@[i as int].attribute@);
            return true;
        }
        i = i + 1;
    }
    assert forall|k: int| 0 <= k < tokens_view(tokens@).len() implies !is_border_key(
        #[trigger] tokens_view(tokens@)[k].0,
    ) by {
        assert(tokens_view(tokens@)[k].0 == tokens@[k].attribute@);
    }
    false
}

fn any_long_line(lines: &Vec<String>) -> (r: bool)
    ensures
        r == has_long_line(strings_view(lines@)),
{
    let mut i: usize = 0;
    while i < lines.len()
        invariant
            i <= lines@.len(),
            forall|k: int| 0 <= k < i ==> #[trigger] lines@[k]@.len() <= FRAME_MIN_LINE,
        decreases lines@.len() - i,
    {
        if lines[i].as_str().unicode_len() > FRAME_MIN_LINE {
            assert(strings_view(lines@)[i as int] == lines@[i as int]@);
            return true;
        }
        i = i + 1;
    }
    assert forall|k: int| 0 <= k < strings_view(lines@).len() implies #[trigger] strings_view(
        lines@,
    )[k].len() <= FRAME_MIN_LINE by {
        assert(strings_view(lines@)[k] == lines@[k]@);
    }
    false
}

/// Whether one block asks for its row to be framed.
pub fn block_border(b: &Block) -> (r: bool)
    ensures
        r == block_wants_border(*b),
{
    if b.kind != BlockKind::Text {
        return false;
    }
    let lines = split_lines(b.content.as_str());
    if !any_long_line(&lines) {
        return false;
    }
    let tokens = parse_tokens(b.raw.as_str());
    any_border_token(&tokens)
}

/// The frame decision for a row: top and bottom lines when some text block
/// has a line longer than the threshold and a border key in its markup.
pub fn decide(row: &Vec<Block>) -> (r: bool)
    ensures
        r == row_bordered(row@),
{
    let mut j: usize = 0;
    while j < row.len()
        invariant
            j <= row@.len(),
            forall|k: int| 0 <= k < j ==> !block_wants_border(#[trigger] row@[k]),
        decreases row@.len() - j,
    {
        if block_border(&row[j]) {
            return true;
        }
        j = j + 1;
    }
    false
}

} // verus!
