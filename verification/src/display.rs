//! Geometry of the board display.

use vstd::prelude::*;

verus! {

/// Logical framebuffer width after display rotation.
pub const LOGICAL_WIDTH: u16 = 320;

/// Logical framebuffer height after display rotation.
pub const LOGICAL_HEIGHT: u16 = 170;

/// Physical panel width before rotation.
pub const PANEL_WIDTH: u16 = 170;

/// Physical panel height before rotation.
pub const PANEL_HEIGHT: u16 = 320;

} // verus!
