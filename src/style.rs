//! The style sheet as the render pipeline reads it.
use vstd::prelude::*;

verus! {

/// A paint color, eight bits per channel.
#[derive(Clone, Copy, Debug, PartialEq, Eq, Structural)]
pub struct Color {
    pub r: u8,
    pub g: u8,
    pub b: u8,
    pub a: u8,
}

/// The color a layer is painted with when its style gives none.
pub open spec fn spec_default_color() -> Color {
    Color { r: 0, g: 0, b: 0, a: 255 }
}

/// Opaque black.
pub fn default_color() -> (r: Color)
    ensures
        r == spec_default_color(),
{
    Color { r: 0, g: 0, b: 0, a: 255 }
}

/// One rendering rule of the style: its place in paint order, its id, the
/// source layer it draws and its paint color.
#[derive(Debug)]
pub struct StyleLayer {
    pub index: u32,
    pub id: String,
    pub source_layer: Option<String>,
    pub color: Option<Color>,
}

/// The style layers, in paint order.
#[derive(Debug)]
pub struct Style {
    pub layers: Vec<StyleLayer>,
}

impl StyleLayer {
    /// The color features of this layer are painted with.
    pub open spec fn paint_color(&self) -> Color {
        match self.color {
            Some(c) => c,
            None => spec_default_color(),
        }
    }
}

impl Default for Style {
    fn default() -> (r: Style)
        ensures
            r.layers@.len() == 0,
    {
        Style { layers: Vec::new() }
    }
}

} // verus!
