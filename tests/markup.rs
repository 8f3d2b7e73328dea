use spekter_pdf::color::{get_color, Rgb};
use spekter_pdf::style::{
    parse_font_size, resolve, style_key, style_warnings, Alignment, FontScale, Style, StyleKey,
};
use spekter_pdf::token::{parse_tokens, skipped_pieces, StyleToken};

fn pairs(tokens: &[StyleToken]) -> Vec<(String, String)> {
    tokens.iter().map(|t| (t.attribute.clone(), t.value.clone())).collect()
}

fn owned(v: &[(&str, &str)]) -> Vec<(String, String)> {
    v.iter().map(|(a, b)| (a.to_string(), b.to_string())).collect()
}

#[test]
fn tokens_pair_attribute_and_value_in_order() {
    let t = parse_tokens("color:red;font-weight:bold;");
    assert_eq!(pairs(&t), owned(&[("color", "red"), ("font-weight", "bold")]));
}

#[test]
fn tokens_drop_unterminated_tail() {
    let t = parse_tokens("color:red;xyz");
    assert_eq!(pairs(&t), owned(&[("color", "red")]));
}

#[test]
fn tokens_skip_malformed_segments() {
    let t = parse_tokens("color red;a:b:c;:x;font-size:12pt;width: 5px;");
    assert_eq!(pairs(&t), owned(&[("b", "c"), ("", "x"), ("font-size", "12pt")]));
    assert_eq!(skipped_pieces("color red;a:b:c;:x;font-size:12pt;width: 5px;"), vec!["color red", "width: 5px"]);
}

#[test]
fn tokens_found_after_other_text() {
    assert_eq!(pairs(&parse_tokens(" a:b;")), owned(&[("a", "b")]));
    let t = parse_tokens("color:red; font-weight:bold;");
    assert_eq!(pairs(&t), owned(&[("color", "red"), ("font-weight", "bold")]));
    let t = parse_tokens("<p style=\"color:red;font-size:12pt;\">");
    assert_eq!(pairs(&t), owned(&[("color", "red"), ("font-size", "12pt")]));
}

#[test]
fn skipped_markup_is_listed() {
    assert_eq!(skipped_pieces("<p style=\"color:red;\">"), vec!["\">"]);
    assert_eq!(skipped_pieces("color:red;xyz"), vec!["xyz"]);
    assert!(skipped_pieces("color:red;font-weight:bold;").is_empty());
    assert!(skipped_pieces("").is_empty());
    assert_eq!(skipped_pieces("a b;;"), vec!["a b", ""]);
}

#[test]
fn tokens_of_empty_markup() {
    assert!(parse_tokens("").is_empty());
    assert!(parse_tokens("xyz").is_empty());
}

#[test]
fn tokens_keep_empty_value_and_name_characters() {
    let t = parse_tokens("border:;padding_left:10%;");
    assert_eq!(pairs(&t), owned(&[("border", ""), ("padding_left", "10%")]));
}

#[test]
fn color_table() {
    assert_eq!(get_color("red"), Rgb { r: 255, g: 0, b: 0 });
    assert_eq!(get_color("blue"), Rgb { r: 0, g: 0, b: 255 });
    assert_eq!(get_color("black"), Rgb { r: 0, g: 0, b: 0 });
    assert_eq!(get_color("white"), Rgb { r: 255, g: 255, b: 255 });
    assert_eq!(get_color("green"), Rgb { r: 0, g: 255, b: 0 });
    assert_eq!(get_color("yellow"), Rgb { r: 255, g: 255, b: 0 });
    assert_eq!(get_color("purple"), Rgb { r: 170, g: 0, b: 255 });
    assert_eq!(get_color("pink"), Rgb { r: 255, g: 0, b: 120 });
}

#[test]
fn unknown_color_is_black() {
    assert_eq!(get_color("turquoise"), Rgb { r: 0, g: 0, b: 0 });
    let s = resolve(&parse_tokens("color:turquoise;"), FontScale::Subtract(4));
    assert_eq!(s.color, Some(Rgb { r: 0, g: 0, b: 0 }));
    let s = resolve(&parse_tokens("color:red;"), FontScale::Subtract(4));
    assert_eq!(s.color, Some(Rgb { r: 255, g: 0, b: 0 }));
}

#[test]
fn text_align_centers() {
    let s = resolve(&parse_tokens("text-align:center;"), FontScale::Subtract(4));
    assert_eq!(s.alignment, Alignment::Center);
    let s = resolve(&parse_tokens("text-align:right;"), FontScale::Subtract(4));
    assert_eq!(s.alignment, Alignment::Center);
    let s = resolve(&parse_tokens("color:red;"), FontScale::Subtract(4));
    assert_eq!(s.alignment, Style::new().alignment);
    assert_eq!(s.alignment, Alignment::Left);
}

#[test]
fn resolve_sets_each_field() {
    let t = parse_tokens("font-size:12pt;color:green;font-style:italic;font-weight:bold;unknown:1;");
    let s = resolve(&t, FontScale::Subtract(4));
    assert_eq!(
        s,
        Style {
            font_size: Some(8),
            color: Some(Rgb { r: 0, g: 255, b: 0 }),
            bold: true,
            italic: true,
            alignment: Alignment::Left,
        }
    );
}

#[test]
fn empty_tokens_resolve_to_base_style() {
    assert_eq!(resolve(&Vec::new(), FontScale::Divide(2)), Style::new());
    assert_eq!(Style::new().font_size, None);
    assert!(!Style::new().bold);
}

#[test]
fn later_token_wins() {
    let s = resolve(&parse_tokens("color:red;font-size:20pt;color:blue;font-size:10pt;"), FontScale::Subtract(4));
    assert_eq!(s.color, Some(Rgb { r: 0, g: 0, b: 255 }));
    assert_eq!(s.font_size, Some(6));
}

#[test]
fn font_scale_conventions() {
    let t = parse_tokens("font-size:12pt;");
    assert_eq!(resolve(&t, FontScale::Subtract(4)).font_size, Some(8));
    assert_eq!(resolve(&t, FontScale::Divide(2)).font_size, Some(6));
    assert_eq!(resolve(&t, FontScale::Divide(0)).font_size, None);
    assert_eq!(FontScale::Subtract(4).apply(3), None);
    assert_eq!(FontScale::Divide(3).apply(10), Some(3));
}

#[test]
fn font_size_numbers() {
    assert_eq!(parse_font_size("12pt"), Some(12));
    assert_eq!(parse_font_size("255px"), Some(255));
    assert_eq!(parse_font_size("256px"), None);
    assert_eq!(parse_font_size("99999999999pt"), None);
    assert_eq!(parse_font_size("pt"), None);
    assert_eq!(parse_font_size("1x"), None);
    assert_eq!(parse_font_size("1a2pt"), None);
    assert_eq!(parse_font_size("7em"), Some(7));
}

#[test]
fn unusable_font_size_is_reported_and_skipped() {
    let t = parse_tokens("font-size:14pt;color:red;font-size:2pt;font-size:big;");
    let s = resolve(&t, FontScale::Subtract(4));
    assert_eq!(s.font_size, Some(10));
    assert_eq!(style_warnings(&t, FontScale::Subtract(4)), vec![2, 3]);
    assert!(style_warnings(&parse_tokens("color:red;"), FontScale::Subtract(4)).is_empty());
}

#[test]
fn recognised_keys() {
    assert_eq!(style_key("font-size"), Some(StyleKey::FontSize));
    assert_eq!(style_key("color"), Some(StyleKey::Color));
    assert_eq!(style_key("font-style"), Some(StyleKey::FontStyle));
    assert_eq!(style_key("font-weight"), Some(StyleKey::FontWeight));
    assert_eq!(style_key("text-align"), Some(StyleKey::TextAlign));
    assert_eq!(style_key("border"), None);
}

#[test]
fn resolving_twice_gives_the_same_style() {
    let t = parse_tokens("font-size:16pt;color:pink;font-weight:bold;text-align:center;");
    let a = resolve(&t, FontScale::Divide(2));
    let b = resolve(&t, FontScale::Divide(2));
    assert_eq!(a, b);
    assert_eq!(a.font_size, Some(8));
}
