//! A character-cell terminal-graphics core: a scene graph of z-ordered
//! rectangular planes, each backed by a grid of styled grapheme cells,
//! composited bottom-to-top into a flat frame, together with a decoder
//! that turns raw terminal bytes into a unified input-event stream.
//!
//! Everything here is pure state manipulation: reading the terminal and
//! writing escape sequences to it belong to the embedding application.

pub mod cell;
pub mod context;
pub mod channel;
pub mod input;
pub mod key;
pub mod plane;
pub mod unicode;

use vstd::prelude::*;

verus! {

/// A dimension (row or column count) of a plane or a terminal.
pub type NcDim = u32;

/// A signed offset within or between planes.
pub type NcOffset = i32;

/// A 24-bit red-green-blue color, `0x00RRGGBB`.
pub type NcRgb = u32;

/// One 8-bit component of an [`NcRgb`] color.
pub type NcComponent = u8;

/// An index into a 256-entry terminal palette.
pub type NcPaletteIndex = u8;

/// A 2-bit per-channel alpha: one of [`NCALPHA_OPAQUE`], [`NCALPHA_BLEND`],
/// [`NCALPHA_TRANSPARENT`] or [`NCALPHA_HIGHCONTRAST`].
pub type NcAlpha = u8;

/// A bitmask of text styles, made of the `NCSTYLE_*` constants.
pub type NcStyle = u16;

/// The channel half composites as fully opaque: it hides what lies beneath.
pub const NCALPHA_OPAQUE: NcAlpha = 0;

/// The channel half blends its color with the color resolved beneath it.
pub const NCALPHA_BLEND: NcAlpha = 1;

/// The channel half contributes nothing: what lies beneath shows through.
pub const NCALPHA_TRANSPARENT: NcAlpha = 2;

/// The foreground is forced to contrast with whatever is resolved beneath.
pub const NCALPHA_HIGHCONTRAST: NcAlpha = 3;

/// No style at all.
pub const NCSTYLE_NONE: NcStyle = 0x0000;

/// Struck-through text.
pub const NCSTYLE_STRUCK: NcStyle = 0x0001;

/// Bold text.
pub const NCSTYLE_BOLD: NcStyle = 0x0002;

/// Undercurled text.
pub const NCSTYLE_UNDERCURL: NcStyle = 0x0004;

/// Underlined text.
pub const NCSTYLE_UNDERLINE: NcStyle = 0x0008;

/// Italic text.
pub const NCSTYLE_ITALIC: NcStyle = 0x0010;

/// The union of all defined style bits.
pub const NCSTYLE_MASK: NcStyle = 0x001f;

/// Everything that a fallible operation of this crate can report.
///
/// Each variant is one failure class: callers are expected to branch on
/// them, and in particular to treat [`NcError::Unsupported`] as a missing
/// capability rather than as a hard error.
#[derive(Clone, Copy, Debug, PartialEq, Eq, Structural)]
pub enum NcError {
    /// A zero, degenerate or impossible geometry was requested.
    Geometry,
    /// A write or read fell outside the bounds of its plane.
    OutOfBounds,
    /// The given text began with nothing loadable (empty, or a control byte).
    Encoding,
    /// A cell-store pool has no room left for another grapheme cluster.
    Resource,
    /// The terminal reports no support for what was asked.
    Unsupported,
    /// A rebinding would have made a plane its own ancestor.
    Cycle,
    /// A z-order move was asked between planes that are not siblings.
    NotSibling,
    /// No input event is queued.
    NoEvent,
    /// A handle named no live plane, or an argument had no meaning.
    Invalid,
}

/// The result type of every fallible operation of this crate.
pub type NcResult<T> = Result<T, NcError>;

} // verus!
