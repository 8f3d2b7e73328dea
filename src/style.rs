//! Resolving style tokens into a renderer-independent `Style`.
//!
//! Each recognised attribute key has its own small handler; tokens are
//! applied in order, so a later token for the same field wins and an
//! unrecognised key leaves the style as it was.
use vstd::prelude::*;
use crate::color::{color_of, get_color, Rgb};
use crate::text::{chars_of, same_text};
use crate::token::{tokens_view, StyleToken};

verus! {

/// Horizontal placement of a paragraph.
#[derive(Clone, Copy, Debug, PartialEq, Eq, Structural)]
pub enum Alignment {
    Left,
    Center,
    Right,
}

/// A resolved style. `None` and `false` leave the renderer's base style in
/// force.
#[derive(Clone, Copy, Debug, PartialEq, Eq, Structural)]
pub struct Style {
    pub font_size: Option<u8>,
    pub color: Option<Rgb>,
    pub bold: bool,
    pub italic: bool,
    pub alignment: Alignment,
}

impl Style {
    /// The style with no overrides.
    pub open spec fn base() -> Style {
        Style { font_size: None, color: None, bold: false, italic: false, alignment: Alignment::Left }
    }

    pub fn new() -> (r: Style)
        ensures
            r == Style::base(),
    {
        Style { font_size: None, color: None, bold: false, italic: false, alignment: Alignment::Left }
    }
}

/// How the number written in a `font-size` value becomes a point size.
#[derive(Clone, Copy, Debug, PartialEq, Eq, Structural)]
pub enum FontScale {
    /// `n - k`; sizes below `k` cannot be scaled.
    Subtract(u8),
    /// `n / d`, rounded down; a divisor of zero scales nothing.
    Divide(u8),
}

/// The point size that `scale` makes of `n`, if it makes one.
pub open spec fn scaled(scale: FontScale, n: u8) -> Option<u8> {
    match scale {
        FontScale::Subtract(k) => if n >= k {
            Some((n - k) as u8)
        } else {
            None
        },
        FontScale::Divide(d) => if d > 0 {
            Some((n / d) as u8)
        } else {
            None
        },
    }
}

impl FontScale {
    pub fn apply(&self, n: u8) -> (r: Option<u8>)
        ensures
            r == scaled(*self, n),
    {
        match *self {
            FontScale::Subtract(k) => if n >= k {
                Some(n - k)
            } else {
                None
            },
            FontScale::Divide(d) => if d > 0 {
                Some(n / d)
            } else {
                None
            },
        }
    }
}

/// The attribute keys the resolver acts on.
#[derive(Clone, Copy, Debug, PartialEq, Eq, Structural)]
pub enum StyleKey {
    FontSize,
    Color,
    FontStyle,
    FontWeight,
    TextAlign,
}

pub open spec fn key_of(attribute: Seq<char>) -> Option<StyleKey> {
    if attribute == "font-size"@ {
        Some(StyleKey::FontSize)
    } else if attribute == "color"@ {
        Some(StyleKey::Color)
    } else if attribute == "font-style"@ {
        Some(StyleKey::FontStyle)
    } else if attribute == "font-weight"@ {
        Some(StyleKey::FontWeight)
    } else if attribute == "text-align"@ {
        Some(StyleKey::TextAlign)
    } else {
        None
    }
}

/// Looks an attribute name up among the recognised keys.
pub fn style_key(attribute: &str) -> (r: Option<StyleKey>)
    ensures
        r == key_of(attribute@),
{
    if same_text(attribute, "font-size") {
        Some(StyleKey::FontSize)
    } else if same_text(attribute, "color") {
        Some(StyleKey::Color)
    } else if same_text(attribute, "font-style") {
        Some(StyleKey::FontStyle)
    } else if same_text(attribute, "font-weight") {
        Some(StyleKey::FontWeight)
    } else if same_text(attribute, "text-align") {
        Some(StyleKey::TextAlign)
    } else {
        None
    }
}

pub open spec fn is_digit(c: char) -> bool {
    '0' <= c && c <= '9'
}

pub open spec fn digit_value(c: char) -> nat {
    if is_digit(c) {
        (c as u32 - '0' as u32) as nat
    } else {
        0
    }
}

/// The number that a string of decimal digits spells.
pub open spec fn digits_value(s: Seq<char>) -> nat
    decreases s.len(),
{
    if s.len() == 0 {
        0
    } else {
        digits_value(s.drop_last()) * 10 + digit_value(s.last())
    }
}

/// The number in a `font-size` value: decimal digits followed by a
/// two-character unit (`12pt`), and at most 255.
pub open spec fn font_size_value(v: Seq<char>) -> Option<u8> {
    let num = v.subrange(0, v.len() - 2);
    if v.len() >= 3 && (forall|i: int| 0 <= i < num.len() ==> is_digit(#[trigger] num[i]))
        && digits_value(num) <= 255 {
        Some(digits_value(num) as u8)
    } else {
        None
    }
}

/// Reads the number of a `font-size` value such as `12pt`.
pub fn parse_font_size(value: &str) -> (r: Option<u8>)
    ensures
        r == font_size_value(value@),
{
    let chars = chars_of(value);
    let n = chars.len();
    if n < 3 {
        return None;
    }
    let ghost num = value@.subrange(0, n - 2);
    let mut acc: u32 = 0;
    let mut i: usize = 0;
    while i < n - 2
        invariant
            chars@ == value@,
            n == value@.len(),
            n >= 3,
            num == value@.subrange(0, n - 2),
            i <= n - 2,
            forall|j: int| 0 <= j < i ==> is_digit(#[trigger] num[j]),
            acc == if digits_value(num.subrange(0, i as int)) > 255 {
                256
            } else {
                digits_value(num.subrange(0, i as int))
            },
        decreases n - 2 - i,
    {
        let c = chars[i];
        assert(num[i as int] == c);
        if !('0' <= c && c <= '9') {
            assert(!is_digit(num[i as int]));
            return None;
        }
        let d = (c as u32) - ('0' as u32);
        assert(num.subrange(0, i + 1).drop_last() =~= num.subrange(0, i as int));
        assert(num.subrange(0, i + 1).last() == c);
        if acc <= 255 {
            acc = acc * 10 + d;
            if acc > 255 {
                acc = 256;
            }
        }
        i = i + 1;
    }
    assert(num.subrange(0, num.len() as int) =~= num);
    if acc > 255 {
        None
    } else {
        Some(acc as u8)
    }
}

/// The point size a `font-size` value gives under `scale`.
pub open spec fn font_size_of(v: Seq<char>, scale: FontScale) -> Option<u8> {
    match font_size_value(v) {
        Some(n) => scaled(scale, n),
        None => None,
    }
}

/// What one token does to a style.
pub open spec fn apply_token(st: Style, t: (Seq<char>, Seq<char>), scale: FontScale) -> Style {
    match key_of(t.0) {
        Some(StyleKey::FontSize) => match font_size_of(t.1, scale) {
            Some(n) => Style { font_size: Some(n), ..st },
            None => st,
        },
        Some(StyleKey::Color) => Style { color: Some(color_of(t.1)), ..st },
        Some(StyleKey::FontStyle) => Style { italic: true, ..st },
        Some(StyleKey::FontWeight) => Style { bold: true, ..st },
        Some(StyleKey::TextAlign) => Style { alignment: Alignment::Center, ..st },
        None => st,
    }
}

/// The style that a token list resolves to, tokens applied first to last.
pub open spec fn resolve_spec(ts: Seq<(Seq<char>, Seq<char>)>, scale: FontScale) -> Style
    decreases ts.len(),
{
    if ts.len() == 0 {
        Style::base()
    } else {
        apply_token(resolve_spec(ts.drop_last(), scale), ts.last(), scale)
    }
}

/// A recognised token whose value cannot be applied.
pub open spec fn token_rejected(t: (Seq<char>, Seq<char>), scale: FontScale) -> bool {
    key_of(t.0) == Some(StyleKey::FontSize) && font_size_of(t.1, scale) is None
}

fn set_font_size(style: &mut Style, value: &str, scale: FontScale)
    ensures
        *final(style) == match font_size_of(value@, scale) {
            Some(n) => Style { font_size: Some(n), ..*old(style) },
            None => *old(style),
        },
{
    if let Some(n) = parse_font_size(value) {
        if let Some(size) = scale.apply(n) {
            style.font_size = Some(size);
        }
    }
}

fn set_color(style: &mut Style, value: &str)
    ensures
        *final(style) == (Style { color: Some(color_of(value@)), ..*old(style) }),
{
    style.color = Some(get_color(value));
}

fn set_italic(style: &mut Style)
    ensures
        *final(style) == (Style { italic: true, ..*old(style) }),
{
    style.italic = true;
}

fn set_bold(style: &mut Style)
    ensures
        *final(style) == (Style { bold: true, ..*old(style) }),
{
    style.bold = true;
}

fn set_centered(style: &mut Style)
    ensures
        *final(style) == (Style { alignment: Alignment::Center, ..*old(style) }),
{
    style.alignment = Alignment::Center;
}

/// Applies one token to `style`.
pub fn apply_style_token(style: &mut Style, token: &StyleToken, scale: FontScale)
    ensures
        *final(style) == apply_token(*old(style), token@, scale),
{
    match style_key(token.attribute.as_str()) {
        Some(StyleKey::FontSize) => set_font_size(style, token.value.as_str(), scale),
        Some(StyleKey::Color) => set_color(style, token.value.as_str()),
        Some(StyleKey::FontStyle) => set_italic(style),
        Some(StyleKey::FontWeight) => set_bold(style),
        Some(StyleKey::TextAlign) => set_centered(style),
        None => {},
    }
}

/// Resolves a token list into a style. Unrecognised keys are ignored and a
/// later token overrides an earlier one for the same field.
pub fn resolve(tokens: &Vec<StyleToken>, scale: FontScale) -> (r: Style)
    ensures
        r == resolve_spec(tokens_view(tokens@), scale),
{
    let mut style = Style::new();
    let mut i: usize = 0;
    while i < tokens.len()
        invariant
            i <= tokens@.len(),
            style == resolve_spec(tokens_view(tokens@.subrange(0, i as int)), scale),
        decreases tokens@.len() - i,
    {
        assert(tokens_view(tokens@.subrange(0, i + 1)).drop_last() =~= tokens_view(
            tokens@.subrange(0, i as int),
        ));
        apply_style_token(&mut style, &tokens[i], scale);
        i = i + 1;
    }
    assert(tokens@.subrange(0, tokens@.len() as int) =~= tokens@);
    style
}

/// The positions of the tokens whose values could not be applied.
pub open spec fn rejected_positions(ts: Seq<(Seq<char>, Seq<char>)>, scale: FontScale) -> Seq<
    usize,
>
    decreases ts.len(),
{
    if ts.len() == 0 {
        seq![]
    } else if token_rejected(ts.last(), scale) {
        rejected_positions(ts.drop_last(), scale).push((ts.len() - 1) as usize)
    } else {
        rejected_positions(ts.drop_last(), scale)
    }
}

/// Diagnostics for a token list: the positions, in order, of recognised
/// tokens that resolution had to pass over.
pub fn style_warnings(tokens: &Vec<StyleToken>, scale: FontScale) -> (r: Vec<usize>)
    ensures
        r@ == rejected_positions(tokens_view(tokens@), scale),
{
    let mut r: Vec<usize> = Vec::new();
    let mut i: usize = 0;
    while i < tokens.len()
        invariant
            i <= tokens@.len(),
            r@ == rejected_positions(tokens_view(tokens@.subrange(0, i as int)), scale),
        decreases tokens@.len() - i,
    {
        assert(tokens_view(tokens@.subrange(0, i + 1)).drop_last() =~= tokens_view(
            tokens@.subrange(0, i as int),
        ));
        let t = &tokens[i];
        let rejected = match style_key(t.attribute.as_str()) {
            Some(StyleKey::FontSize) => match parse_font_size(t.value.as_str()) {
                Some(n) => scale.apply(n).is_none(),
                None => true,
            },
            _ => false,
        };
        if rejected {
            r.push(i);
        }
        i = i + 1;
    }
    assert(tokens@.subrange(0, tokens@.len() as int) =~= tokens@);
    r
}

/// Resolution is a function of the tokens and the scale alone: two
/// resolutions of the same list give the same style.
pub proof fn lemma_resolve_deterministic(
    first: Seq<(Seq<char>, Seq<char>)>,
    second: Seq<(Seq<char>, Seq<char>)>,
    scale: FontScale,
)
    requires
        first == second,
    ensures
        resolve_spec(first, scale) == resolve_spec(second, scale),
{
}

/// Of two tokens for the same attribute, the later one decides, unless its
/// value cannot be applied.
pub proof fn lemma_last_token_wins(
    st: Style,
    earlier: (Seq<char>, Seq<char>),
    later: (Seq<char>, Seq<char>),
    scale: FontScale,
)
    requires
        key_of(earlier.0) == key_of(later.0),
        !token_rejected(later, scale),
    ensures
        apply_token(apply_token(st, earlier, scale), later, scale) == apply_token(st, later, scale),
{
}

/// Tokens for different attributes do not interfere: applying them in
/// either order gives the same style.
pub proof fn lemma_distinct_keys_commute(
    st: Style,
    a: (Seq<char>, Seq<char>),
    b: (Seq<char>, Seq<char>),
    scale: FontScale,
)
    requires
        key_of(a.0) != key_of(b.0),
    ensures
        apply_token(apply_token(st, a, scale), b, scale) == apply_token(
            apply_token(st, b, scale),
            a,
            scale,
        ),
{
}

} // verus!
