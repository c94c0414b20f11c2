//! Turns the byte stream of a knob-and-button control console into host
//! keyboard and scroll operations, following a user-supplied mapping.
//!
//! The stages are a decoder (byte to device-key event), a mapping processor
//! (event to ordered actions, with modifier-aware selection and hold
//! bookkeeping) and an injector (action to host operations, tracking which
//! host keys are down).

pub mod config;
pub mod decoder;
pub mod event;
pub mod hex_serde;
pub mod host_key;
pub mod key_processor;
pub mod key_sender;
pub mod pipeline;
pub mod seq_facts;
pub mod text;
pub mod transport;
pub mod winusb;
