//! Synthesized key codes.
//!
//! Keys that produce no text — arrows, function keys, mouse buttons, the
//! resize notification — are carried in the input stream as codepoints in
//! the Unicode Supplementary Private Use Area-B, `0x100000..=0x10FFFD`,
//! so they can never collide with literal text.

use vstd::prelude::*;

verus! {

/// Maps a small key number into the Supplementary Private Use Area-B.
pub fn suppuabize(w: u32) -> (r: u32)
    requires
        w <= 0xFFFD,
    ensures
        r == w + 0x100000,
        0x100000 <= r <= 0x10FFFD,
{
    w + 0x100000
}

/// The `char` constants for the synthesized keys.
pub struct NcKey;

impl NcKey {
    /// A sentinel for input that decoded to nothing meaningful.
    pub const INVALID: char = '\u{100000}';

    /// Generated internally when the terminal is resized.
    pub const RESIZE: char = '\u{100001}';

    pub const UP: char = '\u{100002}';

    pub const RIGHT: char = '\u{100003}';

    pub const DOWN: char = '\u{100004}';

    pub const LEFT: char = '\u{100005}';

    pub const INS: char = '\u{100006}';

    pub const DEL: char = '\u{100007}';

    /// Backspace (sometimes).
    pub const BACKSPACE: char = '\u{100008}';

    pub const PGDOWN: char = '\u{100009}';

    pub const PGUP: char = '\u{10000A}';

    pub const HOME: char = '\u{10000B}';

    pub const END: char = '\u{10000C}';

    pub const F00: char = '\u{100014}';

    pub const F01: char = '\u{100015}';

    pub const F02: char = '\u{100016}';

    pub const F03: char = '\u{100017}';

    pub const F04: char = '\u{100018}';

    pub const F05: char = '\u{100019}';

    pub const F06: char = '\u{10001A}';

    pub const F07: char = '\u{10001B}';

    pub const F08: char = '\u{10001C}';

    pub const F09: char = '\u{10001D}';

    pub const F10: char = '\u{10001E}';

    pub const F11: char = '\u{10001F}';

    pub const F12: char = '\u{100020}';

    pub const ENTER: char = '\u{100079}';

    /// Clear-screen or erase.
    pub const CLS: char = '\u{10007A}';

    /// Down and left on the keypad.
    pub const DLEFT: char = '\u{10007B}';

    pub const DRIGHT: char = '\u{10007C}';

    /// Up and left on the keypad.
    pub const ULEFT: char = '\u{10007D}';

    pub const URIGHT: char = '\u{10007E}';

    /// The most truly neutral of keypresses.
    pub const CENTER: char = '\u{10007F}';

    pub const BEGIN: char = '\u{100080}';

    pub const CANCEL: char = '\u{100081}';

    pub const CLOSE: char = '\u{100082}';

    pub const COMMAND: char = '\u{100083}';

    pub const COPY: char = '\u{100084}';

    pub const EXIT: char = '\u{100085}';

    pub const PRINT: char = '\u{100086}';

    pub const REFRESH: char = '\u{100087}';

    pub const BUTTON1: char = '\u{1000C9}';

    pub const BUTTON2: char = '\u{1000CA}';

    pub const BUTTON3: char = '\u{1000CB}';

    /// Scrollwheel up.
    pub const BUTTON4: char = '\u{1000CC}';

    /// Scrollwheel down.
    pub const BUTTON5: char = '\u{1000CD}';

    pub const BUTTON6: char = '\u{1000CE}';

    pub const BUTTON7: char = '\u{1000CF}';

    pub const BUTTON8: char = '\u{1000D0}';

    pub const BUTTON9: char = '\u{1000D1}';

    pub const BUTTON10: char = '\u{1000D2}';

    pub const BUTTON11: char = '\u{1000D3}';

    /// Returned upon reaching the end of input.
    pub const EOF: char = '\u{10012C}';

    /// A synonym for [`NcKey::BUTTON4`].
    pub const SCROLL_UP: char = '\u{1000CC}';

    /// A synonym for [`NcKey::BUTTON5`].
    pub const SCROLL_DOWN: char = '\u{1000CD}';

    /// A synonym for [`NcKey::ENTER`].
    pub const RETURN: char = '\u{100079}';

    /// The literal escape character, reported as itself.
    pub const ESC: char = '\u{1b}';

    /// The literal space character, reported as itself.
    pub const SPACE: char = '\u{20}';
}

} // verus!
