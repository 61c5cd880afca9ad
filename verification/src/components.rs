//! The component types that entities can carry, and the fixed grid bounds.

use vstd::prelude::*;

verus! {

/// Width of the presentation grid, in cells; valid x coordinates are
/// `0 ..= GRID_WIDTH - 1`.
pub const GRID_WIDTH: i32 = 80;

/// Height of the presentation grid, in cells; valid y coordinates are
/// `0 ..= GRID_HEIGHT - 1`.
pub const GRID_HEIGHT: i32 = 50;

/// Integer grid coordinates of an entity. Mutable; one per entity that has it.
#[derive(Clone, Copy, PartialEq, Eq, Structural, Debug)]
pub struct Position {
    pub x: i32,
    pub y: i32,
}

/// An RGB color value handed through to the presentation surface.
#[derive(Clone, Copy, PartialEq, Eq, Structural, Debug)]
pub struct Color {
    pub r: u8,
    pub g: u8,
    pub b: u8,
}

/// How to draw an entity: a glyph identifier plus foreground and background
/// colors. Immutable after creation.
#[derive(Clone, Copy, PartialEq, Eq, Structural, Debug)]
pub struct Renderable {
    pub glyph: u16,
    pub fg: Color,
    pub bg: Color,
}

/// Zero-size marker: the entity walks one cell to the left each tick.
/// Presence in the store is the only signal.
#[derive(Clone, Copy, PartialEq, Eq, Structural, Debug)]
pub struct LeftMover {}

/// Zero-size marker identifying the player-controlled entity.
#[derive(Clone, Copy, PartialEq, Eq, Structural, Debug)]
pub struct Player {}

/// The directional input signal a tick may carry; at most one per tick.
#[derive(Clone, Copy, PartialEq, Eq, Structural, Debug)]
pub enum Direction {
    Left,
    Right,
    Up,
    Down,
}

} // verus!
