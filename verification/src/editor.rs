//! The widget marker of a runtime object and the edit events that the
//! transform editing emits.
//!
//! Lengths, factors and angles are fixed-point numbers: an `i64` counts
//! millionths, so `1_000_000` stands for one.

use vstd::prelude::*;

verus! {

/// The fixed-point number that stands for one.
pub const UNIT: i64 = 1_000_000;

/// One of the three axes.
#[derive(Debug, Clone, Copy, PartialEq, Eq, Structural)]
pub enum Axis {
    X,
    Y,
    Z,
}

/// Marks a runtime object as the widget of the entity with the given id.
#[derive(Debug, Clone, Copy, PartialEq, Eq, Structural)]
pub struct Widget(pub u32);

impl Default for Widget {
    fn default() -> (r: Widget)
        ensures
            r == Widget(0),
    {
        Widget(0)
    }
}

/// Three fixed-point components.
#[derive(Debug, Clone, Copy, PartialEq, Eq, Structural)]
pub struct Vec3 {
    pub x: i64,
    pub y: i64,
    pub z: i64,
}

/// A rotation about one axis by a fixed-point angle in radians. Without an
/// axis it is the rotation that turns nothing, and its angle is 0.
#[derive(Debug, Clone, Copy, PartialEq, Eq, Structural)]
pub struct Rotation {
    pub axis: Option<Axis>,
    pub angle: i64,
}

/// An edit of the transform of the selected entity.
#[derive(Debug, Clone, Copy, PartialEq, Eq, Structural)]
pub enum EditorEvent {
    /// Move by the vector.
    Translate(Vec3),
    /// Turn by the rotation.
    Rotate(Rotation),
    /// Scale each axis by its component.
    Scale(Vec3),
}

/// What a widget is spawned with: its marker. The transform and the picking
/// state that the runtime object carries besides are the runtime's own.
#[derive(Debug, Clone, Copy, PartialEq, Eq, Structural)]
pub struct WidgetComponents {
    pub widget: Widget,
}

impl WidgetComponents {
    /// The components of the widget of entity `e`.
    pub fn new(e: u32) -> (r: WidgetComponents)
        ensures
            r.widget == Widget(e),
    {
        WidgetComponents { widget: Widget(e) }
    }
}

} // verus!
