//! The decoder: from one byte of the device's stream to at most one event.

use crate::config::KeyMap;
use crate::event::{InputEvent, InputEventView};
use vstd::prelude::*;
use vstd::string::StringExecFns;

verus! {

/// The lowercase hex digit for a value below sixteen.
pub open spec fn hex_digit(n: nat) -> char {
    if n == 0 {
        '0'
    } else if n == 1 {
        '1'
    } else if n == 2 {
        '2'
    } else if n == 3 {
        '3'
    } else if n == 4 {
        '4'
    } else if n == 5 {
        '5'
    } else if n == 6 {
        '6'
    } else if n == 7 {
        '7'
    } else if n == 8 {
        '8'
    } else if n == 9 {
        '9'
    } else if n == 10 {
        'a'
    } else if n == 11 {
        'b'
    } else if n == 12 {
        'c'
    } else if n == 13 {
        'd'
    } else if n == 14 {
        'e'
    } else {
        'f'
    }
}

/// A device code as the code tables write it: `0x` and two lowercase hex
/// digits.
pub open spec fn hex_code(c: u8) -> Seq<char> {
    seq!['0', 'x', hex_digit((c / 16) as nat), hex_digit((c % 16) as nat)]
}

/// The event that byte `c` stands for, the first of these that applies: a
/// press of the stateless key with this code; a press of the stateful key
/// with this code; for a byte with the high bit set, a release of the
/// stateful key whose code is the byte without that bit. A byte that matches
/// none is dropped.
pub open spec fn decoded(
    stateless: Map<Seq<char>, String>,
    stateful: Map<Seq<char>, String>,
    c: u8,
) -> Option<InputEventView> {
    if stateless.contains_key(hex_code(c)) {
        Some(InputEventView::KeyPressed(stateless[hex_code(c)]@))
    } else if stateful.contains_key(hex_code(c)) {
        Some(InputEventView::KeyPressed(stateful[hex_code(c)]@))
    } else if c >= 0x80 && stateful.contains_key(hex_code((c - 0x80) as u8)) {
        Some(InputEventView::KeyReleased(stateful[hex_code((c - 0x80) as u8)]@))
    } else {
        None
    }
}

/// The view of an event that may be absent.
pub open spec fn event_view(ev: Option<InputEvent>) -> Option<InputEventView> {
    match ev {
        Some(e) => Some(e@),
        None => None,
    }
}

/// A byte with the high bit set whose own code is in neither table, while
/// the code without the high bit names a stateful key, is the release of
/// that key.
pub proof fn lemma_release_bit(
    stateless: Map<Seq<char>, String>,
    stateful: Map<Seq<char>, String>,
    c: u8,
)
    requires
        c >= 0x80,
        stateful.contains_key(hex_code((c - 0x80) as u8)),
        !stateless.contains_key(hex_code(c)),
        !stateful.contains_key(hex_code(c)),
    ensures
        decoded(stateless, stateful, c) == Some(
            InputEventView::KeyReleased(stateful[hex_code((c - 0x80) as u8)]@),
        ),
{
}

/// The lowercase hex digit for `n`, as a text of one character.
fn hex_digit_text(n: u8) -> (text: &'static str)
    requires
        n < 16,
    ensures
        text@ == seq![hex_digit(n as nat)],
{
    proof {
        reveal_strlit("0");
        reveal_strlit("1");
        reveal_strlit("2");
        reveal_strlit("3");
        reveal_strlit("4");
        reveal_strlit("5");
        reveal_strlit("6");
        reveal_strlit("7");
        reveal_strlit("8");
        reveal_strlit("9");
        reveal_strlit("a");
        reveal_strlit("b");
        reveal_strlit("c");
        reveal_strlit("d");
        reveal_strlit("e");
        reveal_strlit("f");
    }
    let text = if n == 0 {
        "0"
    } else if n == 1 {
        "1"
    } else if n == 2 {
        "2"
    } else if n == 3 {
        "3"
    } else if n == 4 {
        "4"
    } else if n == 5 {
        "5"
    } else if n == 6 {
        "6"
    } else if n == 7 {
        "7"
    } else if n == 8 {
        "8"
    } else if n == 9 {
        "9"
    } else if n == 10 {
        "a"
    } else if n == 11 {
        "b"
    } else if n == 12 {
        "c"
    } else if n == 13 {
        "d"
    } else if n == 14 {
        "e"
    } else {
        "f"
    };
    assert(text@ =~= seq![hex_digit(n as nat)]);
    text
}

/// Writes a device code as the code tables write it.
pub fn code_text(c: u8) -> (text: String)
    ensures
        text@ == hex_code(c),
{
    proof {
        reveal_strlit("0x");
    }
    let mut text = String::from_str("0x");
    text.append(hex_digit_text(c / 16));
    text.append(hex_digit_text(c % 16));
    assert(text@ =~= hex_code(c));
    text
}

/// Decodes one byte of the device's stream. The decoder keeps no state from
/// byte to byte.
pub fn decode(key_map: &KeyMap, key_code: u8) -> (ev: Option<InputEvent>)
    ensures
        event_view(ev) == decoded(key_map.stateless@, key_map.stateful@, key_code),
{
    let key_code_hex = code_text(key_code);
    if let Some(key_name) = key_map.stateless.get(key_code_hex.as_str()) {
        return Some(InputEvent::KeyPressed(key_name.clone()));
    }
    if let Some(key_name) = key_map.stateful.get(key_code_hex.as_str()) {
        return Some(InputEvent::KeyPressed(key_name.clone()));
    }
    if key_code >= 0x80 {
        let released_hex = code_text(key_code - 0x80);
        if let Some(key_name) = key_map.stateful.get(released_hex.as_str()) {
            return Some(InputEvent::KeyReleased(key_name.clone()));
        }
    }
    None
}

/// What the decoder makes of one byte: the event that it stands for, or the
/// byte itself where it stands for none and is dropped.
#[derive(Debug, Clone, PartialEq, Eq)]
pub enum Decoded {
    Event(InputEvent),
    Unknown(u8),
}

/// A `Decoded` with its event as plain values.
pub ghost enum DecodedView {
    Event(InputEventView),
    Unknown(u8),
}

impl View for Decoded {
    type V = DecodedView;

    open spec fn view(&self) -> DecodedView {
        match self {
            Decoded::Event(ev) => DecodedView::Event(ev@),
            Decoded::Unknown(c) => DecodedView::Unknown(*c),
        }
    }
}

/// The views of a sequence of decoded bytes, in order.
pub open spec fn decoded_views(list: Seq<Decoded>) -> Seq<DecodedView> {
    list.map_values(|d: Decoded| d@)
}

/// What the decoder makes of byte `c`.
pub open spec fn decoded_byte(
    stateless: Map<Seq<char>, String>,
    stateful: Map<Seq<char>, String>,
    c: u8,
) -> DecodedView {
    match decoded(stateless, stateful, c) {
        Some(ev) => DecodedView::Event(ev),
        None => DecodedView::Unknown(c),
    }
}

/// What the decoder makes of the bytes of one read: of each byte in its
/// turn, whatever the bytes before it were.
pub open spec fn decoded_all(
    stateless: Map<Seq<char>, String>,
    stateful: Map<Seq<char>, String>,
    bytes: Seq<u8>,
) -> Seq<DecodedView> {
    Seq::new(bytes.len(), |i: int| decoded_byte(stateless, stateful, bytes[i]))
}

/// Decodes the bytes that one read returned, every one of them and in
/// order.
pub fn decode_read(key_map: &KeyMap, bytes: &Vec<u8>) -> (out: Vec<Decoded>)
    ensures
        decoded_views(out@) == decoded_all(key_map.stateless@, key_map.stateful@, bytes@),
{
    let mut out: Vec<Decoded> = Vec::new();
    let mut i: usize = 0;
    while i < bytes.len()
        invariant
            i <= bytes.len(),
            out.len() == i,
            forall|j: int|
                0 <= j < i ==> (#[trigger] out@[j])@ == decoded_byte(
                    key_map.stateless@,
                    key_map.stateful@,
                    bytes@[j],
                ),
        decreases bytes.len() - i,
    {
        let c = bytes[i];
        let one = match decode(key_map, c) {
            Some(ev) => Decoded::Event(ev),
            None => Decoded::Unknown(c),
        };
        out.push(one);
        i = i + 1;
    }
    assert(decoded_views(out@) =~= decoded_all(key_map.stateless@, key_map.stateful@, bytes@));
    out
}

} // verus!
