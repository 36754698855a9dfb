//! The key codes that the planner understands.

use vstd::prelude::*;

verus! {

/// The up arrow.
pub const KEY_UP: char = '\u{F700}';

/// The down arrow.
pub const KEY_DOWN: char = '\u{F701}';

/// The left arrow.
pub const KEY_LEFT: char = '\u{F702}';

/// The right arrow.
pub const KEY_RIGHT: char = '\u{F703}';

/// Enter: the carriage return.
pub const KEY_ENTER: char = '\u{000D}';

/// Backspace.
pub const KEY_BACKSPACE: char = '\u{0008}';

/// The menu key, which cancels a form and quits from the day view.
pub const KEY_MENU: char = '\u{2234}';

/// A printable ASCII character, from the space to the tilde.
pub open spec fn is_printable(key: char) -> bool {
    ' ' <= key <= '~'
}

/// The key is the given lower-case command letter or its upper-case form.
pub open spec fn is_letter(key: char, lower: char, upper: char) -> bool {
    key == lower || key == upper
}

/// Whether a key is a printable ASCII character.
pub fn printable(key: char) -> (yes: bool)
    ensures
        yes == is_printable(key),
{
    key >= ' ' && key <= '~'
}

} // verus!
