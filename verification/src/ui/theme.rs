//! The characters of the display.

use vstd::prelude::*;

verus! {

/// A filled cell of a progress bar (braille, four dots high).
pub const BAR_FILLED: char = '\u{28FF}';

/// An unfilled cell of a progress bar (drawn in the empty color).
pub const BAR_UNFILLED: char = '\u{28FF}';

/// The mark of a healthy SSO session or an installed hook.
pub const CHECK_MARK: char = '\u{2713}';

/// The heartbeat LED.
pub const SYMBOL_HEARTBEAT: char = '\u{25C9}';

/// A status dot.
pub const STATUS_DOT: char = '\u{25CF}';

} // verus!
