//! Host/guest protocol layer for a sandboxed widget-module shell.
//!
//! Guest modules live in an isolated linear memory and exchange structured
//! data with the host only as plain bytes: a length-prefixed subscription
//! table emitted at setup time, a flat index-addressed arena describing a
//! widget tree on every render, and small integer handles for surfaces and
//! callbacks.  Every offset crossing the boundary is untrusted and is
//! validated against the memory bounds before use.

use vstd::prelude::*;

pub mod arena;
pub mod callback;
pub mod dispatch;
pub mod lease;
pub mod lifecycle;
pub mod mem;
pub mod register;
pub mod services;
pub mod setup;
pub mod subscription;
pub mod surface;
pub mod theme;
pub mod ui;
pub mod view;
pub mod widget;

verus! {

/// A human-readable message error a module can hand the shell when one of
/// its own messages cannot be handled.
#[derive(Debug, Clone, PartialEq, Eq)]
pub struct MessageError(pub String);

/// Failure of a bounds-checked access into guest memory, of decoding a wire
/// structure read from it, or of encoding one.  No variant ever aborts the
/// host; each encode or decode call fails as a unit and reports one of these.
#[derive(Debug, Clone, Copy, PartialEq, Eq, Structural)]
pub enum WireError {
    /// An offset/size pair reaches past the end of the supplied buffer.
    OutOfBounds,
    /// A register table shorter than its fixed-size header.
    TruncatedHeader,
    /// A register table whose declared entry count reaches past the buffer.
    TruncatedEntries,
    /// A register entry carries a wire id no decoder knows.  The table
    /// format is not forward-compatible: unknown ids are a hard failure.
    UnknownRegisterId(u16),
    /// Two entries of a tag that does not allow duplicates.
    DuplicateRegister(u16),
    /// More register entries than the 16-bit count field can carry.
    TooManyRegisters,
    /// An element record carries a tag no decoder knows.
    UnknownElementTag(u8),
    /// A slider record carries a numeric-representation byte no decoder
    /// knows.
    UnknownSliderType(u8),
    /// A child element's index does not lie below its parent's, although
    /// the encoder always resolves children before their parent; following
    /// it could chase a cycle forever.
    MalformedChildIndex,
    /// A button record without exactly one child.
    BadChildCount,
    /// Text content bytes that are not well-formed UTF-8.
    InvalidTextEncoding,
    /// An arena whose serialized tables would not fit 32-bit offsets.
    ArenaTooLarge,
}

} // verus!
