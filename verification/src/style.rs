use vstd::prelude::*;
use crate::geom::Vec2i;

verus! {

/// A layout length, mirroring the host layout engine's unit choices.
/// Pixel lengths are integral here; the host converts on the way out.
#[derive(Clone, Copy, Debug, PartialEq, Eq, Structural)]
pub enum Val {
    Px(i64),
    Percent(i64),
    Auto,
    Undefined,
}

/// How a node is positioned by the layout engine.
#[derive(Clone, Copy, Debug, PartialEq, Eq, Structural)]
pub enum PositionType {
    Relative,
    Absolute,
}

/// The slice of the host's layout style that the panel logic reads or
/// writes: the positioning mode, the absolute left/top offsets, and the
/// node's size. Everything else in the host's style record is initialized
/// once at construction time and never consulted by this logic.
#[derive(Clone, Copy, Debug, PartialEq, Eq, Structural)]
pub struct Style {
    pub position_type: PositionType,
    pub left: Val,
    pub top: Val,
    pub width: Val,
    pub height: Val,
}

impl Style {
    /// The host layout engine's default style: relative positioning with
    /// every length undefined.
    pub fn base() -> (r: Style)
        ensures
            r == Style::base_spec(),
    {
        Style {
            position_type: PositionType::Relative,
            left: Val::Undefined,
            top: Val::Undefined,
            width: Val::Auto,
            height: Val::Auto,
        }
    }

    pub open spec fn base_spec() -> Style {
        Style {
            position_type: PositionType::Relative,
            left: Val::Undefined,
            top: Val::Undefined,
            width: Val::Auto,
            height: Val::Auto,
        }
    }

    /// The style after writing `position` into the absolute left/top
    /// offsets: exactly what the style-sync pass produces.
    pub open spec fn with_offsets(self, position: Vec2i) -> Style {
        Style { left: Val::Px(position.x), top: Val::Px(position.y), ..self }
    }
}

/// An RGBA color with channels in thousandths (0 through 1000); the host
/// converts to its unit-interval channels on the way out.
#[derive(Clone, Copy, Debug, PartialEq, Eq, Structural)]
pub struct Color {
    pub red: u16,
    pub green: u16,
    pub blue: u16,
    pub alpha: u16,
}

impl Color {
    pub fn rgb(red: u16, green: u16, blue: u16) -> (r: Color)
        ensures
            r == (Color { red, green, blue, alpha: 1000u16 }),
    {
        Color { red, green, blue, alpha: 1000 }
    }

    /// The fully transparent color.
    pub fn none() -> (r: Color)
        ensures
            r == (Color { red: 0u16, green: 0u16, blue: 0u16, alpha: 0u16 }),
    {
        Color { red: 0, green: 0, blue: 0, alpha: 0 }
    }
}

/// The color of every panel titlebar bar and of the panel root node.
pub open spec fn panel_titlebar_color() -> Color {
    Color { red: 300, green: 300, blue: 600, alpha: 1000 }
}

/// The color of every panel's content container.
pub open spec fn panel_background_color() -> Color {
    Color { red: 500, green: 500, blue: 800, alpha: 1000 }
}

/// The host's per-frame classification of the pointer's relationship to a
/// node, as resolved by its hit-testing: not over the node, hovering over
/// it, or pressing it.
#[derive(Clone, Copy, Debug, PartialEq, Eq, Structural)]
pub enum Interaction {
    Pressed,
    Hovered,
    Idle,
}

} // verus!
