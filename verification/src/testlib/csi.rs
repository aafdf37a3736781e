use vstd::prelude::*;

verus! {

/// Cursor up.
pub const UP: &'static str = "\x1b[A";

/// Cursor down.
pub const DOWN: &'static str = "\x1b[B";

/// Cursor right.
pub const RIGHT: &'static str = "\x1b[C";

/// Cursor left.
pub const LEFT: &'static str = "\x1b[D";

/// Home key.
pub const HOME: &'static str = "\x1b[1~";

/// Delete key.
pub const DELETE: &'static str = "\x1b[3~";

/// End key.
pub const END: &'static str = "\x1b[4~";

} // verus!
