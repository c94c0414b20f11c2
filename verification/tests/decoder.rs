use tourbox::config::KeyMap;
use tourbox::decoder::{code_text, decode, decode_read, Decoded};
use tourbox::event::InputEvent;
use tourbox::hex_serde::{deserialize, HexError};
use tourbox::text::{read_number, split_on_plus, text_eq};
use tourbox::transport::{init_command, react, LinkAction, LinkEvent};
use tourbox::winusb::{find_endpoints, Direction, EndpointInfo, Endpoints, TransferType};

fn key_map(stateful: &[(&str, &str)], stateless: &[(&str, &str)]) -> KeyMap {
    let mut m = KeyMap::new();
    for (code, name) in stateful {
        m.stateful.insert(code.to_string(), name.to_string());
    }
    for (code, name) in stateless {
        m.stateless.insert(code.to_string(), name.to_string());
    }
    m
}

fn pressed(k: &str) -> InputEvent {
    InputEvent::KeyPressed(k.to_string())
}

fn released(k: &str) -> InputEvent {
    InputEvent::KeyReleased(k.to_string())
}

#[test]
fn decoder_release_bit() {
    let m = key_map(&[("0x01", "tall")], &[]);
    assert_eq!(decode(&m, 0x81), Some(released("tall")));
}

#[test]
fn decoder_press() {
    let m = key_map(&[("0x01", "tall")], &[("0x04", "knob_up")]);
    assert_eq!(decode(&m, 0x01), Some(pressed("tall")));
    assert_eq!(decode(&m, 0x04), Some(pressed("knob_up")));
}

#[test]
fn decoder_drops_unknown_bytes() {
    let m = key_map(&[("0x01", "tall")], &[("0x04", "knob_up")]);
    assert_eq!(decode(&m, 0x02), None);
    assert_eq!(decode(&m, 0x82), None);
    // A stateless key has no release.
    assert_eq!(decode(&m, 0x84), None);
}

#[test]
fn decoder_low_byte_never_reads_as_release() {
    // 0x05 - 0x80 would wrap to 0x85, which is in the table.
    let m = key_map(&[("0x85", "odd")], &[]);
    assert_eq!(decode(&m, 0x05), None);
    assert_eq!(decode(&m, 0x85), Some(pressed("odd")));
}

#[test]
fn decoder_stateless_comes_first() {
    let m = key_map(&[("0x01", "stateful")], &[("0x01", "stateless")]);
    assert_eq!(decode(&m, 0x01), Some(pressed("stateless")));
    assert_eq!(decode(&m, 0x81), Some(released("stateful")));
}

#[test]
fn decoder_own_code_comes_before_release() {
    let m = key_map(&[("0x01", "tall"), ("0x81", "high")], &[]);
    assert_eq!(decode(&m, 0x81), Some(pressed("high")));
}

#[test]
fn decoder_release_for_every_high_byte() {
    for c in 0x80u8..=0xFF {
        let low = format!("0x{:02x}", c - 0x80);
        let m = key_map(&[(low.as_str(), "key")], &[]);
        assert_eq!(decode(&m, c), Some(released("key")));
    }
}

#[test]
fn decoder_codes_are_lowercase_hex() {
    let m = key_map(&[("0x0A", "upper"), ("0x0b", "lower"), ("0xc", "short")], &[]);
    assert_eq!(decode(&m, 0x0a), None);
    assert_eq!(decode(&m, 0x0b), Some(pressed("lower")));
    assert_eq!(decode(&m, 0x0c), None);
}

#[test]
fn code_text_writes_two_digits() {
    assert_eq!(code_text(0), "0x00");
    assert_eq!(code_text(0x0f), "0x0f");
    assert_eq!(code_text(0xa0), "0xa0");
    assert_eq!(code_text(0xff), "0xff");
    for c in 0u8..=255 {
        assert_eq!(code_text(c), format!("0x{:02x}", c));
    }
}

#[test]
fn hex_identifiers() {
    assert_eq!(deserialize("0x2e3c"), Ok(0x2e3c));
    assert_eq!(deserialize("0x2E3C"), Ok(0x2e3c));
    assert_eq!(deserialize("0x0"), Ok(0));
    assert_eq!(deserialize("0x00001"), Ok(1));
    assert_eq!(deserialize("0xffff"), Ok(0xffff));
    assert_eq!(deserialize("0x10000"), Err(HexError::BadNumber));
    assert_eq!(deserialize("0x"), Err(HexError::BadNumber));
    assert_eq!(deserialize("0x12g"), Err(HexError::BadNumber));
    assert_eq!(deserialize("0x-1"), Err(HexError::BadNumber));
    assert_eq!(deserialize("2e3c"), Err(HexError::MissingPrefix));
    assert_eq!(deserialize("0X2e3c"), Err(HexError::MissingPrefix));
    assert_eq!(deserialize(""), Err(HexError::MissingPrefix));
    assert_eq!(deserialize("0"), Err(HexError::MissingPrefix));
}

#[test]
fn hex_error_messages() {
    assert_eq!(HexError::MissingPrefix.message(), "expected a hex string starting with '0x'");
    assert_eq!(
        HexError::BadNumber.message(),
        "expected hex digits that fit in 16 bits after '0x'"
    );
}

#[test]
fn numbers_in_a_radix() {
    assert_eq!(read_number("123", 10, 1000), Some(123));
    assert_eq!(read_number("1000", 10, 1000), Some(1000));
    assert_eq!(read_number("1001", 10, 1000), None);
    assert_eq!(read_number("", 10, 1000), None);
    assert_eq!(read_number("12a", 10, 1000), None);
    assert_eq!(read_number("12a", 16, 1000), Some(0x12a));
    assert_eq!(read_number("zz", 36, 10000), Some(35 * 36 + 35));
    assert_eq!(read_number("ZZ", 36, 10000), Some(35 * 36 + 35));
    assert_eq!(read_number("101", 2, 10), Some(5));
    assert_eq!(read_number("102", 2, 10), None);
    assert_eq!(read_number("+5", 10, 10), None);
    assert_eq!(read_number("5", 0, 10), None);
    assert_eq!(read_number("99999999999999999999", 10, u32::MAX), None);
    assert_eq!(read_number("٣", 10, 10), None);
}

#[test]
fn splitting_on_plus() {
    assert_eq!(split_on_plus("a+b+c"), vec!["a", "b", "c"]);
    assert_eq!(split_on_plus("abc"), vec!["abc"]);
    assert_eq!(split_on_plus(""), vec![""]);
    assert_eq!(split_on_plus("+"), vec!["", ""]);
    assert_eq!(split_on_plus("a+"), vec!["a", ""]);
    assert_eq!(split_on_plus("+a"), vec!["", "a"]);
    assert_eq!(split_on_plus("a++b"), vec!["a", "", "b"]);
    assert_eq!(split_on_plus("é+ü"), vec!["é", "ü"]);
}

#[test]
fn text_equality() {
    assert!(text_eq("", ""));
    assert!(text_eq("abc", "abc"));
    assert!(!text_eq("abc", "abd"));
    assert!(!text_eq("abc", "ab"));
    assert!(!text_eq("ab", "abc"));
    assert!(text_eq("é", "é"));
}

#[test]
fn init_command_bytes() {
    assert_eq!(init_command(), [0xB5, 0x00, 0x07, 0x04, 0x00, 0x09, 0x00, 0xFE]);
}

#[test]
fn transport_decisions() {
    let m = key_map(&[("0x01", "tall")], &[("0x04", "knob_up")]);
    assert_eq!(react(&m, LinkEvent::OpenFailed), LinkAction::WaitThenOpen);
    assert_eq!(react(&m, LinkEvent::Opened), LinkAction::Read);
    assert_eq!(react(&m, LinkEvent::TimedOut), LinkAction::Read);
    assert_eq!(react(&m, LinkEvent::ReadFailed), LinkAction::Reopen);
    assert_eq!(react(&m, LinkEvent::Delivered), LinkAction::Read);
    assert_eq!(react(&m, LinkEvent::SinkClosed), LinkAction::Stop);
    assert_eq!(react(&m, LinkEvent::Read(vec![])), LinkAction::Read);
    assert_eq!(
        react(&m, LinkEvent::Read(vec![0x01])),
        LinkAction::Deliver(vec![Decoded::Event(pressed("tall"))])
    );
    assert_eq!(
        react(&m, LinkEvent::Read(vec![0x33])),
        LinkAction::Deliver(vec![Decoded::Unknown(0x33)])
    );
}

#[test]
fn every_byte_of_a_read_is_decoded() {
    let m = key_map(&[("0x01", "tall")], &[]);
    assert_eq!(
        react(&m, LinkEvent::Read(vec![0x01, 0x81])),
        LinkAction::Deliver(vec![
            Decoded::Event(pressed("tall")),
            Decoded::Event(released("tall")),
        ])
    );
}

#[test]
fn a_read_is_decoded_in_order() {
    let m = key_map(&[("0x01", "tall"), ("0x02", "short")], &[("0x04", "knob_up")]);
    assert_eq!(decode_read(&m, &vec![]), vec![]);
    assert_eq!(
        decode_read(&m, &vec![0x02, 0x33, 0x04, 0x04, 0x82, 0x84, 0x01]),
        vec![
            Decoded::Event(pressed("short")),
            Decoded::Unknown(0x33),
            Decoded::Event(pressed("knob_up")),
            Decoded::Event(pressed("knob_up")),
            Decoded::Event(released("short")),
            Decoded::Unknown(0x84),
            Decoded::Event(pressed("tall")),
        ]
    );
    let full: Vec<u8> = (0..64).map(|i| if i % 2 == 0 { 0x01 } else { 0x81 }).collect();
    let out = decode_read(&m, &full);
    assert_eq!(out.len(), 64);
    for (i, d) in out.iter().enumerate() {
        let expected = if i % 2 == 0 { pressed("tall") } else { released("tall") };
        assert_eq!(*d, Decoded::Event(expected));
    }
}

#[test]
fn transport_timings() {
    assert_eq!(tourbox::transport::RETRY_DELAY_SECS, 5);
    assert_eq!(tourbox::transport::SERIAL_READ_TIMEOUT_MILLIS, 10);
    assert_eq!(tourbox::transport::USB_TIMEOUT_SECS, 1);
    assert_eq!(tourbox::winusb::STREAM_INTERFACE, 1);
}

fn endpoint(interface_number: u8, t: TransferType, d: Direction, address: u8) -> EndpointInfo {
    EndpointInfo { interface_number, transfer_type: t, direction: d, address }
}

#[test]
fn endpoints_of_the_stream_interface() {
    let list = vec![
        endpoint(0, TransferType::Bulk, Direction::In, 0x81),
        endpoint(0, TransferType::Bulk, Direction::Out, 0x01),
        endpoint(1, TransferType::Interrupt, Direction::In, 0x83),
        endpoint(1, TransferType::Bulk, Direction::In, 0x82),
        endpoint(1, TransferType::Bulk, Direction::Out, 0x02),
    ];
    assert_eq!(find_endpoints(&list), Some(Endpoints { in_address: 0x82, out_address: 0x02 }));
}

#[test]
fn endpoints_need_both_directions() {
    assert_eq!(find_endpoints(&vec![]), None);
    assert_eq!(find_endpoints(&vec![endpoint(1, TransferType::Bulk, Direction::In, 0x82)]), None);
    assert_eq!(find_endpoints(&vec![endpoint(1, TransferType::Bulk, Direction::Out, 0x02)]), None);
    assert_eq!(
        find_endpoints(&vec![
            endpoint(1, TransferType::Bulk, Direction::In, 0x82),
            endpoint(2, TransferType::Bulk, Direction::Out, 0x02),
        ]),
        None
    );
}

#[test]
fn endpoints_later_description_wins() {
    let list = vec![
        endpoint(1, TransferType::Bulk, Direction::In, 0x82),
        endpoint(1, TransferType::Bulk, Direction::Out, 0x02),
        endpoint(1, TransferType::Bulk, Direction::In, 0x84),
    ];
    assert_eq!(find_endpoints(&list), Some(Endpoints { in_address: 0x84, out_address: 0x02 }));
}
