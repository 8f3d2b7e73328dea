//! The fixed table of colour names.
use vstd::prelude::*;
use crate::text::same_text;

verus! {

/// An RGB colour triple.
#[derive(Clone, Copy, Debug, PartialEq, Eq, Structural)]
pub struct Rgb {
    pub r: u8,
    pub g: u8,
    pub b: u8,
}

pub open spec fn rgb(r: u8, g: u8, b: u8) -> Rgb {
    Rgb { r, g, b }
}

/// The colour a name stands for; a name outside the table is black.
pub open spec fn color_of(name: Seq<char>) -> Rgb {
    if name == "red"@ {
        rgb(255, 0, 0)
    } else if name == "blue"@ {
        rgb(0, 0, 255)
    } else if name == "black"@ {
        rgb(0, 0, 0)
    } else if name == "white"@ {
        rgb(255, 255, 255)
    } else if name == "green"@ {
        rgb(0, 255, 0)
    } else if name == "yellow"@ {
        rgb(255, 255, 0)
    } else if name == "purple"@ {
        rgb(170, 0, 255)
    } else if name == "pink"@ {
        rgb(255, 0, 120)
    } else {
        rgb(0, 0, 0)
    }
}

/// Looks a colour name up in the table.
pub fn get_color(name: &str) -> (r: Rgb)
    ensures
        r == color_of(name@),
{
    if same_text(name, "red") {
        Rgb { r: 255, g: 0, b: 0 }
    } else if same_text(name, "blue") {
        Rgb { r: 0, g: 0, b: 255 }
    } else if same_text(name, "black") {
        Rgb { r: 0, g: 0, b: 0 }
    } else if same_text(name, "white") {
        Rgb { r: 255, g: 255, b: 255 }
    } else if same_text(name, "green") {
        Rgb { r: 0, g: 255, b: 0 }
    } else if same_text(name, "yellow") {
        Rgb { r: 255, g: 255, b: 0 }
    } else if same_text(name, "purple") {
        Rgb { r: 170, g: 0, b: 255 }
    } else if same_text(name, "pink") {
        Rgb { r: 255, g: 0, b: 120 }
    } else {
        Rgb { r: 0, g: 0, b: 0 }
    }
}

} // verus!
