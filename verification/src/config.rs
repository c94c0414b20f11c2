//! The user's configuration: which device to open, how device codes are
//! named, and which host actions the named keys trigger.

use vstd::hash_map::StringHashMap;
use vstd::prelude::*;

verus! {

/// When a mapping fires relative to its trigger key.
#[derive(Clone, Copy, Debug, PartialEq, Eq, Structural)]
pub enum KeyTriggerTiming {
    /// Click the action when the trigger key goes down.
    OnPress,
    /// Hold the action's host keys down while the trigger key is down.
    OnHold,
    /// Click the action when the trigger key comes up.
    OnRelease,
}

/// One mapping as the user writes it: `keys` is a `+`-joined list of device
/// keys, the last of which triggers; `action` is a `+`-joined list of host
/// key tokens.
#[derive(Clone, Debug)]
pub struct KeyMappingConfig {
    pub keys: String,
    pub action: String,
    pub trigger: KeyTriggerTiming,
}

/// The two code tables, from a code written as `0x` and two lowercase hex
/// digits to a device key name.
///
/// A stateful key reports its press as its code and its release as the code
/// with the high bit set; a stateless key only ever reports a momentary edge.
pub struct KeyMap {
    pub stateful: StringHashMap<String>,
    pub stateless: StringHashMap<String>,
}

impl KeyMap {
    /// A key map with both tables empty.
    pub fn new() -> (key_map: Self)
        ensures
            key_map.stateful@ == Map::<Seq<char>, String>::empty(),
            key_map.stateless@ == Map::<Seq<char>, String>::empty(),
    {
        KeyMap { stateful: StringHashMap::new(), stateless: StringHashMap::new() }
    }
}

/// The transport that the console is attached to.
#[derive(Debug, Clone)]
pub enum TourBoxDevice {
    /// A vendor-specific USB bulk interface, found by vendor and product id.
    WinUsb { vid: u16, pid: u16 },
    /// A serial port, 8N1 at the given rate.
    Serial { serial_port: String, baud_rate: u32 },
}

/// A whole configuration.
pub struct Config {
    pub device: TourBoxDevice,
    pub key_map: KeyMap,
    pub mappings: Vec<KeyMappingConfig>,
}

} // verus!
