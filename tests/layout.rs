use spekter_pdf::border::{block_border, decide};
use spekter_pdf::document::{Block, BlockKind, Document};
use spekter_pdf::layout::{build, BorderDecision, Cell, LayoutConfig, LayoutError, Table};
use spekter_pdf::style::{Alignment, FontScale};
use spekter_pdf::text::split_lines;

fn block(kind: BlockKind, content: &str, raw: &str) -> Block {
    Block {
        content: content.to_string(),
        media: String::new(),
        id: 1,
        kind,
        render: String::new(),
        raw: raw.to_string(),
    }
}

fn text(content: &str, raw: &str) -> Block {
    block(BlockKind::Text, content, raw)
}

fn image(media: &str) -> Block {
    let mut b = block(BlockKind::Image, "", "color:red;");
    b.media = media.to_string();
    b
}

fn config() -> LayoutConfig {
    LayoutConfig { font_scale: FontScale::Subtract(4), default_image: None }
}

fn lines_of_cell(t: &Table, j: usize) -> Vec<String> {
    match &t.cells[j] {
        Cell::Lines(ps) => ps.iter().map(|p| p.text.clone()).collect(),
        _ => panic!("not a text cell"),
    }
}

#[test]
fn one_table_per_row_one_column_per_block() {
    let doc = Document {
        rows: vec![
            vec![text("a", ""), text("b", "")],
            vec![],
            vec![text("c", ""), image("pic.png"), block(BlockKind::Other, "x", "")],
        ],
    };
    let tables = build(doc, &config()).unwrap();
    assert_eq!(tables.len(), 3);
    assert_eq!(tables[0].column_weights, vec![1, 1]);
    assert_eq!(tables[1].column_weights, Vec::<usize>::new());
    assert_eq!(tables[2].column_weights, vec![1, 1, 1]);
    assert_eq!(tables[2].cells.len(), 3);
    assert_eq!(tables[1].border, BorderDecision { top_and_bottom: false, sides: false });
    assert!(matches!(tables[2].cells[2], Cell::Blank));
}

#[test]
fn empty_document_has_no_tables() {
    assert!(build(Document { rows: vec![] }, &config()).unwrap().is_empty());
}

#[test]
fn multi_line_block_nests_lines_in_order() {
    let doc = Document { rows: vec![vec![text("a\nb\nc", "font-weight:bold;color:blue;")]] };
    let tables = build(doc, &config()).unwrap();
    assert_eq!(lines_of_cell(&tables[0], 0), vec!["a", "b", "c"]);
    match &tables[0].cells[0] {
        Cell::Lines(ps) => {
            assert!(ps.iter().all(|p| p.style == ps[0].style));
            assert!(ps[0].style.bold);
        },
        _ => panic!("not a text cell"),
    }
}

#[test]
fn line_break_marker_is_an_empty_paragraph() {
    let doc = Document { rows: vec![vec![text("<br>", "color:red;")]] };
    let tables = build(doc, &config()).unwrap();
    assert_eq!(lines_of_cell(&tables[0], 0), vec![""]);
    let doc = Document { rows: vec![vec![text("top\n<br>\nend", "")]] };
    let tables = build(doc, &config()).unwrap();
    assert_eq!(lines_of_cell(&tables[0], 0), vec!["top", "", "end"]);
}

#[test]
fn paragraphs_carry_block_style() {
    let doc = Document { rows: vec![vec![text("hi", "text-align:center;font-size:12pt;")]] };
    let tables = build(doc, &LayoutConfig { font_scale: FontScale::Divide(2), default_image: None }).unwrap();
    match &tables[0].cells[0] {
        Cell::Lines(ps) => {
            assert_eq!(ps[0].style.alignment, Alignment::Center);
            assert_eq!(ps[0].style.font_size, Some(6));
        },
        _ => panic!("not a text cell"),
    }
}

#[test]
fn long_line_with_border_key_frames_row() {
    let row = vec![text("fifteen chars!!", "border:1px;")];
    assert_eq!("fifteen chars!!".len(), 15);
    assert!(decide(&row));
    let tables = build(Document { rows: vec![row] }, &config()).unwrap();
    assert_eq!(tables[0].border, BorderDecision { top_and_bottom: true, sides: false });
}

#[test]
fn long_line_without_border_key_is_unframed() {
    let row = vec![text("fifteen chars!!", "color:red;")];
    assert!(!decide(&row));
}

#[test]
fn short_line_with_border_key_is_unframed() {
    let row = vec![text("eight ch", "border:1px;")];
    assert!(!decide(&row));
    let tables = build(Document { rows: vec![row] }, &config()).unwrap();
    assert_eq!(tables[0].border, BorderDecision { top_and_bottom: false, sides: false });
}

#[test]
fn any_block_frames_the_row() {
    let row = vec![
        text("this line is long enough", "color:red;"),
        text("short\nanother long line here", "border-left:2px;"),
        text("tiny", ""),
    ];
    assert!(decide(&row));
    assert!(!block_border(&row[0]));
    assert!(block_border(&row[1]));
    let row = vec![text("exactly10!", "border-top:1px;")];
    assert!(!decide(&row));
    let row = vec![block(BlockKind::Image, "a very long image caption", "border:1px;")];
    assert!(!decide(&row));
}

#[test]
fn rows_are_framed_independently() {
    let doc = Document {
        rows: vec![vec![text("long enough line", "border-bottom:1px;")], vec![text("long enough line", "")]],
    };
    let tables = build(doc, &config()).unwrap();
    assert!(tables[0].border.top_and_bottom);
    assert!(!tables[1].border.top_and_bottom);
}

#[test]
fn image_cell_is_centered_and_quartered() {
    let doc = Document { rows: vec![vec![image("img/logo.png")]] };
    let tables = build(doc, &config()).unwrap();
    match &tables[0].cells[0] {
        Cell::Picture(p) => {
            assert_eq!(p.path, "img/logo.png");
            assert_eq!(p.alignment, Alignment::Center);
            assert_eq!((p.scale_num, p.scale_den), (1, 4));
        },
        _ => panic!("not an image cell"),
    }
}

#[test]
fn image_without_resource_fails_document() {
    let doc = Document { rows: vec![vec![text("a", "")], vec![text("b", ""), image(""), image("")]] };
    let r = build(doc, &config());
    assert_eq!(r.unwrap_err(), LayoutError::MissingImage { row: 1, block: 1 });
}

#[test]
fn image_falls_back_to_default_resource() {
    let doc = Document { rows: vec![vec![image("")]] };
    let cfg = LayoutConfig { font_scale: FontScale::Subtract(4), default_image: Some("default.png".to_string()) };
    let tables = build(doc, &cfg).unwrap();
    match &tables[0].cells[0] {
        Cell::Picture(p) => assert_eq!(p.path, "default.png"),
        _ => panic!("not an image cell"),
    }
}

#[test]
fn block_kind_tags() {
    assert_eq!(BlockKind::from_tag("text"), BlockKind::Text);
    assert_eq!(BlockKind::from_tag("image"), BlockKind::Image);
    assert_eq!(BlockKind::from_tag("video"), BlockKind::Other);
}

#[test]
fn split_lines_like_str_split() {
    assert_eq!(split_lines(""), vec![""]);
    assert_eq!(split_lines("a\n"), vec!["a", ""]);
    assert_eq!(split_lines("x\ny"), vec!["x", "y"]);
}
