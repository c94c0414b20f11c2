//! The host keys and the tokens that name them.

use crate::text::{parse_number, read_number, text_eq};
use vstd::prelude::*;
use vstd::string::StrSliceExecFns;

verus! {

/// A key of the host's keyboard that the injector can synthesize.
#[derive(Debug, Clone, Copy, PartialEq, Eq, Structural)]
pub enum HostKey {
    Alt,
    Control,
    Shift,
    Meta,
    DownArrow,
    LeftArrow,
    RightArrow,
    UpArrow,
    Backspace,
    CapsLock,
    Delete,
    End,
    Return,
    Escape,
    F1,
    F2,
    F3,
    F4,
    F5,
    F6,
    F7,
    F8,
    F9,
    F10,
    F11,
    F12,
    Home,
    PageDown,
    PageUp,
    Space,
    Tab,
    A,
    B,
    C,
    D,
    E,
    F,
    G,
    H,
    I,
    J,
    K,
    L,
    M,
    N,
    O,
    P,
    Q,
    R,
    S,
    T,
    U,
    V,
    W,
    X,
    Y,
    Z,
    /// A key given by its raw virtual-key code.
    Other(u32),
}

/// A modifier key, by any of its names.
pub open spec fn modifier_key(t: Seq<char>) -> Option<HostKey> {
    if t == "ALT"@ || t == "ALT_L"@ || t == "ALT_R"@ {
        Some(HostKey::Alt)
    } else if t == "CONTROL"@ || t == "CTRL"@ || t == "CTRL_L"@ || t == "CTRL_R"@ {
        Some(HostKey::Control)
    } else if t == "SHIFT"@ || t == "SHIFT_L"@ || t == "SHIFT_R"@ {
        Some(HostKey::Shift)
    } else if t == "WIN"@ || t == "WIN_L"@ || t == "WIN_R"@ || t == "SUPER"@ || t == "COMMAND"@ {
        Some(HostKey::Meta)
    } else {
        None
    }
}

/// An arrow key, by either of its names.
pub open spec fn arrow_key(t: Seq<char>) -> Option<HostKey> {
    if t == "DOWN"@ || t == "DOWN_ARROW"@ {
        Some(HostKey::DownArrow)
    } else if t == "LEFT"@ || t == "LEFT_ARROW"@ {
        Some(HostKey::LeftArrow)
    } else if t == "RIGHT"@ || t == "RIGHT_ARROW"@ {
        Some(HostKey::RightArrow)
    } else if t == "UP"@ || t == "UP_ARROW"@ {
        Some(HostKey::UpArrow)
    } else {
        None
    }
}

/// A named editing or navigation key.
pub open spec fn editing_key(t: Seq<char>) -> Option<HostKey> {
    if t == "BACKSPACE"@ {
        Some(HostKey::Backspace)
    } else if t == "CAPSLOCK"@ {
        Some(HostKey::CapsLock)
    } else if t == "DELETE"@ {
        Some(HostKey::Delete)
    } else if t == "END"@ {
        Some(HostKey::End)
    } else if t == "ENTER"@ {
        Some(HostKey::Return)
    } else if t == "ESCAPE"@ {
        Some(HostKey::Escape)
    } else if t == "HOME"@ {
        Some(HostKey::Home)
    } else if t == "PAGEDOWN"@ {
        Some(HostKey::PageDown)
    } else if t == "PAGEUP"@ {
        Some(HostKey::PageUp)
    } else if t == "SPACE"@ {
        Some(HostKey::Space)
    } else if t == "TAB"@ {
        Some(HostKey::Tab)
    } else {
        None
    }
}

/// A function key, `F1` to `F12`.
pub open spec fn function_key(t: Seq<char>) -> Option<HostKey> {
    if t == "F1"@ {
        Some(HostKey::F1)
    } else if t == "F2"@ {
        Some(HostKey::F2)
    } else if t == "F3"@ {
        Some(HostKey::F3)
    } else if t == "F4"@ {
        Some(HostKey::F4)
    } else if t == "F5"@ {
        Some(HostKey::F5)
    } else if t == "F6"@ {
        Some(HostKey::F6)
    } else if t == "F7"@ {
        Some(HostKey::F7)
    } else if t == "F8"@ {
        Some(HostKey::F8)
    } else if t == "F9"@ {
        Some(HostKey::F9)
    } else if t == "F10"@ {
        Some(HostKey::F10)
    } else if t == "F11"@ {
        Some(HostKey::F11)
    } else if t == "F12"@ {
        Some(HostKey::F12)
    } else {
        None
    }
}

/// A letter key, `A` to `Z`.
pub open spec fn letter_key(t: Seq<char>) -> Option<HostKey> {
    if t == "A"@ {
        Some(HostKey::A)
    } else if t == "B"@ {
        Some(HostKey::B)
    } else if t == "C"@ {
        Some(HostKey::C)
    } else if t == "D"@ {
        Some(HostKey::D)
    } else if t == "E"@ {
        Some(HostKey::E)
    } else if t == "F"@ {
        Some(HostKey::F)
    } else if t == "G"@ {
        Some(HostKey::G)
    } else if t == "H"@ {
        Some(HostKey::H)
    } else if t == "I"@ {
        Some(HostKey::I)
    } else if t == "J"@ {
        Some(HostKey::J)
    } else if t == "K"@ {
        Some(HostKey::K)
    } else if t == "L"@ {
        Some(HostKey::L)
    } else if t == "M"@ {
        Some(HostKey::M)
    } else if t == "N"@ {
        Some(HostKey::N)
    } else if t == "O"@ {
        Some(HostKey::O)
    } else if t == "P"@ {
        Some(HostKey::P)
    } else if t == "Q"@ {
        Some(HostKey::Q)
    } else if t == "R"@ {
        Some(HostKey::R)
    } else if t == "S"@ {
        Some(HostKey::S)
    } else if t == "T"@ {
        Some(HostKey::T)
    } else if t == "U"@ {
        Some(HostKey::U)
    } else if t == "V"@ {
        Some(HostKey::V)
    } else if t == "W"@ {
        Some(HostKey::W)
    } else if t == "X"@ {
        Some(HostKey::X)
    } else if t == "Y"@ {
        Some(HostKey::Y)
    } else if t == "Z"@ {
        Some(HostKey::Z)
    } else {
        None
    }
}

/// A punctuation key that needs no shift, as its virtual-key code.
pub open spec fn punctuation_key(t: Seq<char>) -> Option<HostKey> {
    if t == "-"@ {
        Some(HostKey::Other(0xBD))
    } else if t == "="@ {
        Some(HostKey::Other(0xBB))
    } else if t == "["@ {
        Some(HostKey::Other(0xDB))
    } else if t == "]"@ {
        Some(HostKey::Other(0xDD))
    } else if t == ";"@ {
        Some(HostKey::Other(0xBA))
    } else if t == "'"@ {
        Some(HostKey::Other(0xDE))
    } else if t == ","@ {
        Some(HostKey::Other(0xBC))
    } else if t == "."@ {
        Some(HostKey::Other(0xBE))
    } else if t == "/"@ {
        Some(HostKey::Other(0xBF))
    } else if t == "`"@ {
        Some(HostKey::Other(0xC0))
    } else {
        None
    }
}

/// The key that a raw-code token names: `@`, then the virtual-key code in
/// decimal digits, which has to fit in 32 bits.
pub open spec fn raw_key(t: Seq<char>) -> Option<HostKey> {
    if t.len() > 0 && t[0] == '@' {
        match parse_number(t.skip(1), 10, u32::MAX as nat) {
            Some(n) => Some(HostKey::Other(n as u32)),
            None => None,
        }
    } else {
        None
    }
}

/// The host key that an uppercase token names, if it names one: a name from
/// the fixed vocabulary, else a raw code.
pub open spec fn host_key_of(t: Seq<char>) -> Option<HostKey> {
    if modifier_key(t) is Some {
        modifier_key(t)
    } else if arrow_key(t) is Some {
        arrow_key(t)
    } else if editing_key(t) is Some {
        editing_key(t)
    } else if function_key(t) is Some {
        function_key(t)
    } else if letter_key(t) is Some {
        letter_key(t)
    } else if punctuation_key(t) is Some {
        punctuation_key(t)
    } else {
        raw_key(t)
    }
}

/// Reads an uppercase token as a modifier key, by any of its names.
fn read_modifier_key(t: &str) -> (key: Option<HostKey>)
    ensures
        key == modifier_key(t@),
{
    if text_eq(t, "ALT") || text_eq(t, "ALT_L") || text_eq(t, "ALT_R") {
        Some(HostKey::Alt)
    } else if text_eq(t, "CONTROL") || text_eq(t, "CTRL") || text_eq(t, "CTRL_L") || text_eq(
        t,
        "CTRL_R",
    ) {
        Some(HostKey::Control)
    } else if text_eq(t, "SHIFT") || text_eq(t, "SHIFT_L") || text_eq(t, "SHIFT_R") {
        Some(HostKey::Shift)
    } else if text_eq(t, "WIN") || text_eq(t, "WIN_L") || text_eq(t, "WIN_R") || text_eq(
        t,
        "SUPER",
    ) || text_eq(t, "COMMAND") {
        Some(HostKey::Meta)
    } else {
        None
    }
}

/// Reads an uppercase token as an arrow key, by either of its names.
fn read_arrow_key(t: &str) -> (key: Option<HostKey>)
    ensures
        key == arrow_key(t@),
{
    if text_eq(t, "DOWN") || text_eq(t, "DOWN_ARROW") {
        Some(HostKey::DownArrow)
    } else if text_eq(t, "LEFT") || text_eq(t, "LEFT_ARROW") {
        Some(HostKey::LeftArrow)
    } else if text_eq(t, "RIGHT") || text_eq(t, "RIGHT_ARROW") {
        Some(HostKey::RightArrow)
    } else if text_eq(t, "UP") || text_eq(t, "UP_ARROW") {
        Some(HostKey::UpArrow)
    } else {
        None
    }
}

/// Reads an uppercase token as a named editing or navigation key.
fn read_editing_key(t: &str) -> (key: Option<HostKey>)
    ensures
        key == editing_key(t@),
{
    if text_eq(t, "BACKSPACE") {
        Some(HostKey::Backspace)
    } else if text_eq(t, "CAPSLOCK") {
        Some(HostKey::CapsLock)
    } else if text_eq(t, "DELETE") {
        Some(HostKey::Delete)
    } else if text_eq(t, "END") {
        Some(HostKey::End)
    } else if text_eq(t, "ENTER") {
        Some(HostKey::Return)
    } else if text_eq(t, "ESCAPE") {
        Some(HostKey::Escape)
    } else if text_eq(t, "HOME") {
        Some(HostKey::Home)
    } else if text_eq(t, "PAGEDOWN") {
        Some(HostKey::PageDown)
    } else if text_eq(t, "PAGEUP") {
        Some(HostKey::PageUp)
    } else if text_eq(t, "SPACE") {
        Some(HostKey::Space)
    } else if text_eq(t, "TAB") {
        Some(HostKey::Tab)
    } else {
        None
    }
}

/// Reads an uppercase token as a function key, `F1` to `F12`.
fn read_function_key(t: &str) -> (key: Option<HostKey>)
    ensures
        key == function_key(t@),
{
    if text_eq(t, "F1") {
        Some(HostKey::F1)
    } else if text_eq(t, "F2") {
        Some(HostKey::F2)
    } else if text_eq(t, "F3") {
        Some(HostKey::F3)
    } else if text_eq(t, "F4") {
        Some(HostKey::F4)
    } else if text_eq(t, "F5") {
        Some(HostKey::F5)
    } else if text_eq(t, "F6") {
        Some(HostKey::F6)
    } else if text_eq(t, "F7") {
        Some(HostKey::F7)
    } else if text_eq(t, "F8") {
        Some(HostKey::F8)
    } else if text_eq(t, "F9") {
        Some(HostKey::F9)
    } else if text_eq(t, "F10") {
        Some(HostKey::F10)
    } else if text_eq(t, "F11") {
        Some(HostKey::F11)
    } else if text_eq(t, "F12") {
        Some(HostKey::F12)
    } else {
        None
    }
}

/// Reads an uppercase token as a letter key, `A` to `Z`.
fn read_letter_key(t: &str) -> (key: Option<HostKey>)
    ensures
        key == letter_key(t@),
{
    if text_eq(t, "A") {
        Some(HostKey::A)
    } else if text_eq(t, "B") {
        Some(HostKey::B)
    } else if text_eq(t, "C") {
        Some(HostKey::C)
    } else if text_eq(t, "D") {
        Some(HostKey::D)
    } else if text_eq(t, "E") {
        Some(HostKey::E)
    } else if text_eq(t, "F") {
        Some(HostKey::F)
    } else if text_eq(t, "G") {
        Some(HostKey::G)
    } else if text_eq(t, "H") {
        Some(HostKey::H)
    } else if text_eq(t, "I") {
        Some(HostKey::I)
    } else if text_eq(t, "J") {
        Some(HostKey::J)
    } else if text_eq(t, "K") {
        Some(HostKey::K)
    } else if text_eq(t, "L") {
        Some(HostKey::L)
    } else if text_eq(t, "M") {
        Some(HostKey::M)
    } else if text_eq(t, "N") {
        Some(HostKey::N)
    } else if text_eq(t, "O") {
        Some(HostKey::O)
    } else if text_eq(t, "P") {
        Some(HostKey::P)
    } else if text_eq(t, "Q") {
        Some(HostKey::Q)
    } else if text_eq(t, "R") {
        Some(HostKey::R)
    } else if text_eq(t, "S") {
        Some(HostKey::S)
    } else if text_eq(t, "T") {
        Some(HostKey::T)
    } else if text_eq(t, "U") {
        Some(HostKey::U)
    } else if text_eq(t, "V") {
        Some(HostKey::V)
    } else if text_eq(t, "W") {
        Some(HostKey::W)
    } else if text_eq(t, "X") {
        Some(HostKey::X)
    } else if text_eq(t, "Y") {
        Some(HostKey::Y)
    } else if text_eq(t, "Z") {
        Some(HostKey::Z)
    } else {
        None
    }
}

/// Reads an uppercase token as a punctuation key that needs no shift, as its virtual-key code.
fn read_punctuation_key(t: &str) -> (key: Option<HostKey>)
    ensures
        key == punctuation_key(t@),
{
    if text_eq(t, "-") {
        Some(HostKey::Other(0xBD))
    } else if text_eq(t, "=") {
        Some(HostKey::Other(0xBB))
    } else if text_eq(t, "[") {
        Some(HostKey::Other(0xDB))
    } else if text_eq(t, "]") {
        Some(HostKey::Other(0xDD))
    } else if text_eq(t, ";") {
        Some(HostKey::Other(0xBA))
    } else if text_eq(t, "'") {
        Some(HostKey::Other(0xDE))
    } else if text_eq(t, ",") {
        Some(HostKey::Other(0xBC))
    } else if text_eq(t, ".") {
        Some(HostKey::Other(0xBE))
    } else if text_eq(t, "/") {
        Some(HostKey::Other(0xBF))
    } else if text_eq(t, "`") {
        Some(HostKey::Other(0xC0))
    } else {
        None
    }
}

/// Reads an uppercase token that starts with `@` as a raw code.
fn read_raw_key(t: &str) -> (key: Option<HostKey>)
    ensures
        key == raw_key(t@),
{
    let n = t.unicode_len();
    if n == 0 || t.get_char(0) != '@' {
        return None;
    }
    let digits = t.substring_char(1, n);
    assert(digits@ =~= t@.skip(1));
    match read_number(digits, 10, u32::MAX) {
        Some(code) => Some(HostKey::Other(code)),
        None => None,
    }
}

/// Reads an uppercase token as a host key.
pub fn read_host_key(upper: &str) -> (key: Option<HostKey>)
    ensures
        key == host_key_of(upper@),
{
    let key = read_modifier_key(upper);
    if key.is_some() {
        return key;
    }
    let key = read_arrow_key(upper);
    if key.is_some() {
        return key;
    }
    let key = read_editing_key(upper);
    if key.is_some() {
        return key;
    }
    let key = read_function_key(upper);
    if key.is_some() {
        return key;
    }
    let key = read_letter_key(upper);
    if key.is_some() {
        return key;
    }
    let key = read_punctuation_key(upper);
    if key.is_some() {
        return key;
    }
    read_raw_key(upper)
}

} // verus!
