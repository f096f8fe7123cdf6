//! Accent colors of the dark theme (`0xRRGGBB`).

use vstd::prelude::*;

verus! {

/// Primary accent.
pub const BLUE: u32 = 0x74a9e4;

/// Success accent.
pub const GREEN: u32 = 0x63bb78;

/// Error accent.
pub const RED: u32 = 0xee8073;

/// Warning accent.
pub const YELLOW: u32 = 0xd8953e;

/// Secondary accent (purple).
pub const MAUVE: u32 = 0xb494d9;

/// Cyan accent.
pub const TEAL: u32 = 0x52b8b2;

/// Lighter amber.
pub const PEACH: u32 = 0xd69e5b;

/// Lighter purple.
pub const PINK: u32 = 0xb79dd7;

/// Primary text.
pub const TEXT: u32 = 0xeef2f7;

/// Secondary text.
pub const TEXT_SECONDARY: u32 = 0x9da6af;

/// Muted text.
pub const TEXT_MUTED: u32 = 0x8590a0;

/// Soft red.
pub const MAROON: u32 = 0xeb8e82;

/// Light blue.
pub const SAPPHIRE: u32 = 0x83afe0;

/// Light teal.
pub const SKY: u32 = 0x6bbbb6;

} // verus!
