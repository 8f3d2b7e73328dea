//! Building the render operations for a document: one table per row, one
//! cell per block.
use vstd::prelude::*;
use crate::border::{decide, row_bordered};
use crate::document::{Block, BlockKind, Document};
use crate::style::{resolve, resolve_spec, Alignment, FontScale, Style};
use crate::text::{join_lines, lemma_lines_rejoin, lines_of, same_text, split_lines};
use crate::token::{parse_tokens, tokens_of};

verus! {

/// One line of text with its style.
#[derive(Clone, Debug)]
pub struct Paragraph {
    pub text: String,
    pub style: Style,
}

/// An image placed in a cell, scaled by `scale_num / scale_den` on both axes.
#[derive(Clone, Debug)]
pub struct ImagePlacement {
    pub path: String,
    pub alignment: Alignment,
    pub scale_num: u8,
    pub scale_den: u8,
}

/// What fills one cell of a row's table.
#[derive(Clone, Debug)]
pub enum Cell {
    /// A nested single-column layout, one paragraph per line.
    Lines(Vec<Paragraph>),
    Picture(ImagePlacement),
    /// A block of a kind that renders nothing.
    Blank,
}

/// Which frame lines a table draws.
#[derive(Clone, Copy, Debug, PartialEq, Eq, Structural)]
pub struct BorderDecision {
    pub top_and_bottom: bool,
    pub sides: bool,
}

/// The table built for one row.
#[derive(Clone, Debug)]
pub struct Table {
    pub column_weights: Vec<usize>,
    pub cells: Vec<Cell>,
    pub border: BorderDecision,
}

/// What the builder needs besides the document.
#[derive(Clone, Debug)]
pub struct LayoutConfig {
    pub font_scale: FontScale,
    /// The resource used for an image block whose own reference is empty.
    pub default_image: Option<String>,
}

/// Why a document could not be laid out.
#[derive(Clone, Copy, Debug, PartialEq, Eq, Structural)]
pub enum LayoutError {
    /// The image block at this row and position names no resource.
    MissingImage { row: usize, block: usize },
}

/// Image scale along each axis, as a fraction.
pub const IMAGE_SCALE_NUM: u8 = 1;

pub const IMAGE_SCALE_DEN: u8 = 4;

/// The text a line renders as: the marker `<br>` stands for an empty line.
pub open spec fn line_text(line: Seq<char>) -> Seq<char> {
    if line == "<br>"@ {
        seq![]
    } else {
        line
    }
}

pub open spec fn block_style(b: Block, scale: FontScale) -> Style {
    resolve_spec(tokens_of(b.raw@), scale)
}

/// One paragraph per line of the block, in order, each with the block's
/// style.
pub open spec fn paragraphs_match(ps: Seq<Paragraph>, b: Block, scale: FontScale) -> bool {
    &&& ps.len() == lines_of(b.content@).len()
    &&& forall|k: int|
        0 <= k < ps.len() ==> (#[trigger] ps[k]).text@ == line_text(lines_of(b.content@)[k])
            && ps[k].style == block_style(b, scale)
}

/// The resource an image block shows, if it names one.
pub open spec fn image_source(b: Block, cfg: LayoutConfig) -> Option<Seq<char>> {
    if b.media@.len() > 0 {
        Some(b.media@)
    } else {
        match cfg.default_image {
            Some(p) => Some(p@),
            None => None,
        }
    }
}

pub open spec fn image_unresolved(b: Block, cfg: LayoutConfig) -> bool {
    b.kind == BlockKind::Image && image_source(b, cfg) is None
}

pub open spec fn cell_matches(c: Cell, b: Block, cfg: LayoutConfig) -> bool {
    match b.kind {
        BlockKind::Text => match c {
            Cell::Lines(ps) => paragraphs_match(ps@, b, cfg.font_scale),
            _ => false,
        },
        BlockKind::Image => match c {
            Cell::Picture(p) => Some(p.path@) == image_source(b, cfg) && p.alignment
                == Alignment::Center && p.scale_num == IMAGE_SCALE_NUM && p.scale_den
                == IMAGE_SCALE_DEN,
            _ => false,
        },
        BlockKind::Other => c is Blank,
    }
}

/// The table of a row: weight 1 and one matching cell per block, framed top
/// and bottom exactly when the row's heuristic says so, never at the sides.
pub open spec fn table_matches(t: Table, row: Seq<Block>, cfg: LayoutConfig) -> bool {
    &&& t.column_weights@ == Seq::new(row.len(), |j: int| 1usize)
    &&& t.cells@.len() == row.len()
    &&& forall|j: int| 0 <= j < row.len() ==> cell_matches(#[trigger] t.cells@[j], row[j], cfg)
    &&& t.border == BorderDecision { top_and_bottom: row_bordered(row), sides: false }
}

/// `tables` is the layout of `rows`: one matching table per row, in order.
pub open spec fn layout_of(rows: Seq<Seq<Block>>, cfg: LayoutConfig, tables: Seq<Table>) -> bool {
    &&& tables.len() == rows.len()
    &&& forall|i: int| 0 <= i < rows.len() ==> table_matches(#[trigger] tables[i], rows[i], cfg)
}

pub open spec fn row_resolved(row: Seq<Block>, cfg: LayoutConfig) -> bool {
    forall|j: int| 0 <= j < row.len() ==> !image_unresolved(#[trigger] row[j], cfg)
}

pub open spec fn all_resolved(rows: Seq<Seq<Block>>, cfg: LayoutConfig) -> bool {
    forall|i: int| 0 <= i < rows.len() ==> row_resolved(#[trigger] rows[i], cfg)
}

/// Block `j` of row `i` is the first image block, in reading order, that
/// names no resource.
pub open spec fn first_unresolved(rows: Seq<Seq<Block>>, cfg: LayoutConfig, i: int, j: int) -> bool {
    &&& 0 <= i < rows.len()
    &&& 0 <= j < rows[i].len()
    &&& image_unresolved(rows[i][j], cfg)
    &&& forall|i2: int| 0 <= i2 < i ==> row_resolved(#[trigger] rows[i2], cfg)
    &&& forall|j2: int| 0 <= j2 < j ==> !image_unresolved(#[trigger] rows[i][j2], cfg)
}

/// A layout has one table per row, and each table one column and one cell
/// per block of its row.
pub proof fn lemma_layout_shape(rows: Seq<Seq<Block>>, cfg: LayoutConfig, tables: Seq<Table>)
    requires
        layout_of(rows, cfg, tables),
    ensures
        tables.len() == rows.len(),
        forall|i: int|
            0 <= i < rows.len() ==> (#[trigger] tables[i]).column_weights@.len() == rows[i].len()
                && tables[i].cells@.len() == rows[i].len(),
{
    assert forall|i: int| 0 <= i < rows.len() implies (#[trigger] tables[i]).column_weights@.len()
        == rows[i].len() && tables[i].cells@.len() == rows[i].len() by {
        assert(table_matches(tables[i], rows[i], cfg));
    }
}

/// The paragraphs of a text block are its lines in order: joined with line
/// feeds, the raw lines behind them give the block's content back.
pub proof fn lemma_paragraph_order(ps: Seq<Paragraph>, b: Block, scale: FontScale)
    requires
        paragraphs_match(ps, b, scale),
    ensures
        ps.len() == lines_of(b.content@).len(),
        join_lines(lines_of(b.content@)) == b.content@,
        forall|k: int|
            0 <= k < ps.len() ==> (#[trigger] ps[k]).text@ == line_text(lines_of(b.content@)[k]),
{
    lemma_lines_rejoin(b.content@);
}

/// The paragraphs of a text block.
pub fn text_cell(b: &Block, scale: FontScale) -> (r: Vec<Paragraph>)
    ensures
        paragraphs_match(r@, *b, scale),
{
    let lines = split_lines(b.content.as_str());
    let tokens = parse_tokens(b.raw.as_str());
    let style = resolve(&tokens, scale);
    let mut r: Vec<Paragraph> = Vec::new();
    let mut k: usize = 0;
    while k < lines.len()
        invariant
            crate::text::strings_view(lines@) == lines_of(b.content@),
            style == block_style(*b, scale),
            k <= lines@.len(),
            r@.len() == k,
            forall|m: int|
                0 <= m < k ==> (#[trigger] r@[m]).text@ == line_text(lines_of(b.content@)[m])
                    && r@[m].style == style,
        decreases lines@.len() - k,
    {
        assert(crate::text::strings_view(lines@)[k as int] == lines@[k as int]@);
        let line = lines[k].as_str();
        let text = if same_text(line, "<br>") {
            String::new()
        } else {
            line.to_owned()
        };
        r.push(Paragraph { text, style });
        k = k + 1;
    }
    r
}

/// The cell of one block, or `None` for an image block without a resource.
pub fn block_cell(b: &Block, cfg: &LayoutConfig) -> (r: Option<Cell>)
    ensures
        match r {
            Some(c) => !image_unresolved(*b, *cfg) && cell_matches(c, *b, *cfg),
            None => image_unresolved(*b, *cfg),
        },
{
    match b.kind {
        BlockKind::Text => Some(Cell::Lines(text_cell(b, cfg.font_scale))),
        BlockKind::Image => {
            let path = if b.media.as_str().unicode_len() > 0 {
                b.media.clone()
            } else {
                match &cfg.default_image {
                    Some(p) => p.clone(),
                    None => {
                        return None;
                    },
                }
            };
            Some(
                Cell::Picture(
                    ImagePlacement {
                        path,
                        alignment: Alignment::Center,
                        scale_num: IMAGE_SCALE_NUM,
                        scale_den: IMAGE_SCALE_DEN,
                    },
                ),
            )
        },
        BlockKind::Other => Some(Cell::Blank),
    }
}

/// The table of row `index`, or the first image block in it that names no
/// resource.
pub fn layout_row(row: &Vec<Block>, index: usize, cfg: &LayoutConfig) -> (r: Result<
    Table,
    LayoutError,
>)
    ensures
        match r {
            Ok(t) => row_resolved(row@, *cfg) && table_matches(t, row@, *cfg),
            Err(LayoutError::MissingImage { row: i, block: j }) => i == index && 0 <= j
                < row@.len() && image_unresolved(row@[j as int], *cfg) && forall|j2: int|
                0 <= j2 < j ==> !image_unresolved(#[trigger] row@[j2], *cfg),
        },
{
    let mut weights: Vec<usize> = Vec::new();
    let mut cells: Vec<Cell> = Vec::new();
    let mut j: usize = 0;
    while j < row.len()
        invariant
            j <= row@.len(),
            weights@ == Seq::new(j as nat, |m: int| 1usize),
            cells@.len() == j,
            forall|m: int| 0 <= m < j ==> !image_unresolved(#[trigger] row@[m], *cfg),
            forall|m: int| 0 <= m < j ==> cell_matches(#[trigger] cells@[m], row@[m], *cfg),
        decreases row@.len() - j,
    {
        match block_cell(&row[j], cfg) {
            Some(c) => {
                cells.push(c);
                weights.push(1);
                assert(weights@ =~= Seq::new((j + 1) as nat, |m: int| 1usize));
            },
            None => {
                return Err(LayoutError::MissingImage { row: index, block: j });
            },
        }
        j = j + 1;
    }
    let framed = decide(row);
    Ok(Table { column_weights: weights, cells, border: BorderDecision { top_and_bottom: framed, sides: false } })
}

/// Lays a document out: one table per row, in row order, one cell per block
/// in block order. Fails on the first image block, in reading order, that
/// names no resource; then nothing is produced.
pub fn build(document: Document, config: &LayoutConfig) -> (r: Result<Vec<Table>, LayoutError>)
    ensures
        match r {
            Ok(tables) => all_resolved(document.rows_view(), *config) && layout_of(
                document.rows_view(),
                *config,
                tables@,
            ),
            Err(LayoutError::MissingImage { row, block }) => first_unresolved(
                document.rows_view(),
                *config,
                row as int,
                block as int,
            ),
        },
{
    let ghost rows = document.rows_view();
    let mut tables: Vec<Table> = Vec::new();
    let mut i: usize = 0;
    while i < document.rows.len()
        invariant
            rows == document.rows_view(),
            i <= rows.len(),
            tables@.len() == i,
            forall|m: int| 0 <= m < i ==> row_resolved(#[trigger] rows[m], *config),
            forall|m: int| 0 <= m < i ==> table_matches(#[trigger] tables@[m], rows[m], *config),
        decreases rows.len() - i,
    {
        assert(rows[i as int] == document.rows@[i as int]@);
        match layout_row(&document.rows[i], i, config) {
            Ok(t) => {
                tables.push(t);
            },
            Err(e) => {
                return Err(e);
            },
        }
        i = i + 1;
    }
    Ok(tables)
}

} // verus!
