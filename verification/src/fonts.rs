//! The console fonts.
use vstd::prelude::*;

verus! {

#[derive(Debug, Clone, Copy, PartialEq, Eq, Structural)]
pub enum FontKind {
    Small,
    Big,
}

/// The width and height in pixels of a character cell of `font`.
pub fn font_dimensions(font: FontKind) -> (r: (i32, i32))
    ensures
        font == FontKind::Small ==> r == (8i32, 16i32),
        font == FontKind::Big ==> r == (16i32, 16i32),
{
    match font {
        FontKind::Small => (8, 16),
        FontKind::Big => (16, 16),
    }
}

} // verus!
