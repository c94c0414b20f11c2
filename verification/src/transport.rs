//! What a transport does next: the decisions of the loop that opens the
//! device, reads its bytes and hands events on. The loop itself, with its
//! waits and its I/O, belongs to the caller.

use crate::config::KeyMap;
use crate::decoder::{decode_read, decoded_all, decoded_views, Decoded, DecodedView};
use vstd::prelude::*;

verus! {

/// Seconds to wait before opening the device again after it failed to open.
pub const RETRY_DELAY_SECS: u64 = 5;

/// Read timeout of the serial transport, in milliseconds.
pub const SERIAL_READ_TIMEOUT_MILLIS: u64 = 10;

/// Read and write timeout of the USB transport, in seconds.
pub const USB_TIMEOUT_SECS: u64 = 1;

/// The command that the host sends once the device is open.
pub open spec fn init_command_bytes() -> Seq<u8> {
    seq![0xB5u8, 0x00u8, 0x07u8, 0x04u8, 0x00u8, 0x09u8, 0x00u8, 0xFEu8]
}

/// The command that the host sends once the device is open; what the device
/// answers at once is discarded.
pub fn init_command() -> (command: [u8; 8])
    ensures
        command@ == init_command_bytes(),
{
    let command: [u8; 8] = [0xB5, 0x00, 0x07, 0x04, 0x00, 0x09, 0x00, 0xFE];
    assert(command@ =~= init_command_bytes());
    command
}

/// What happened at the transport's last step.
#[derive(Debug, Clone, PartialEq, Eq)]
pub enum LinkEvent {
    /// The device could not be opened or initialised.
    OpenFailed,
    /// The device is open and has the initialisation command.
    Opened,
    /// A read returned these bytes, in this order.
    Read(Vec<u8>),
    /// A read ran into its timeout with no data.
    TimedOut,
    /// A read failed otherwise.
    ReadFailed,
    /// Every event of the last delivery was handed on.
    Delivered,
    /// An event could not be handed on: nobody listens any more.
    SinkClosed,
}

/// What the transport does next.
#[derive(Debug, Clone, PartialEq, Eq)]
pub enum LinkAction {
    /// Wait `RETRY_DELAY_SECS`, then open the device.
    WaitThenOpen,
    /// Give the device up and open it again at once.
    Reopen,
    /// Read from the device.
    Read,
    /// Go through what the bytes of the read gave, in order: hand each
    /// event on, and warn of each byte that stands for none. Stop at the
    /// first event that cannot be handed on.
    Deliver(Vec<Decoded>),
    /// Give the device up and end.
    Stop,
}

/// A `LinkAction` with its events as plain values.
pub ghost enum LinkActionView {
    WaitThenOpen,
    Reopen,
    Read,
    Deliver(Seq<DecodedView>),
    Stop,
}

impl View for LinkAction {
    type V = LinkActionView;

    open spec fn view(&self) -> LinkActionView {
        match self {
            LinkAction::WaitThenOpen => LinkActionView::WaitThenOpen,
            LinkAction::Reopen => LinkActionView::Reopen,
            LinkAction::Read => LinkActionView::Read,
            LinkAction::Deliver(list) => LinkActionView::Deliver(decoded_views(list@)),
            LinkAction::Stop => LinkActionView::Stop,
        }
    }
}

/// The decisions of the transport, by what happened:
/// a failed open is tried again after the wait, forever; a timeout or an
/// empty read is no error; every byte of a read is decoded, in order, and
/// its event handed on, or the byte dropped with a warning where it stands
/// for none; a failed read gives the device up and opens it again; a closed
/// sink ends the transport.
pub open spec fn next_action(
    stateless: Map<Seq<char>, String>,
    stateful: Map<Seq<char>, String>,
    happened: LinkEvent,
) -> LinkActionView {
    match happened {
        LinkEvent::OpenFailed => LinkActionView::WaitThenOpen,
        LinkEvent::Opened => LinkActionView::Read,
        LinkEvent::Read(bytes) => if bytes@.len() > 0 {
            LinkActionView::Deliver(decoded_all(stateless, stateful, bytes@))
        } else {
            LinkActionView::Read
        },
        LinkEvent::TimedOut => LinkActionView::Read,
        LinkEvent::ReadFailed => LinkActionView::Reopen,
        LinkEvent::Delivered => LinkActionView::Read,
        LinkEvent::SinkClosed => LinkActionView::Stop,
    }
}

/// Decides what the transport does next.
pub fn react(key_map: &KeyMap, happened: LinkEvent) -> (action: LinkAction)
    ensures
        action@ == next_action(key_map.stateless@, key_map.stateful@, happened),
{
    match happened {
        LinkEvent::OpenFailed => LinkAction::WaitThenOpen,
        LinkEvent::Opened => LinkAction::Read,
        LinkEvent::Read(bytes) => {
            if bytes.len() > 0 {
                LinkAction::Deliver(decode_read(key_map, &bytes))
            } else {
                LinkAction::Read
            }
        },
        LinkEvent::TimedOut => LinkAction::Read,
        LinkEvent::ReadFailed => LinkAction::Reopen,
        LinkEvent::Delivered => LinkAction::Read,
        LinkEvent::SinkClosed => LinkAction::Stop,
    }
}

} // verus!
