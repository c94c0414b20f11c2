use tourbox::host_key::HostKey;
use tourbox::key_sender::{HostOp, KeySender, KeySenderError, TourAction};

fn press(t: &str) -> TourAction {
    TourAction::KeyPress(t.to_string())
}

fn release(t: &str) -> TourAction {
    TourAction::KeyRelease(t.to_string())
}

fn click(t: &str) -> TourAction {
    TourAction::KeyClick(t.to_string())
}

fn unknown(t: &str) -> KeySenderError {
    KeySenderError::UnknownKey(t.to_string())
}

#[test]
fn parse_key_ignores_case() {
    assert_eq!(KeySender::parse_key("ctrl"), Ok(HostKey::Control));
    assert_eq!(KeySender::parse_key("Ctrl"), Ok(HostKey::Control));
    assert_eq!(KeySender::parse_key("CTRL"), Ok(HostKey::Control));
    assert_eq!(KeySender::parse_key("page_up"), Err(unknown("PAGE_UP")));
    assert_eq!(KeySender::parse_key("pageup"), Ok(HostKey::PageUp));
}

#[test]
fn parse_key_modifier_synonyms() {
    for t in ["ALT", "ALT_L", "ALT_R"] {
        assert_eq!(KeySender::parse_key(t), Ok(HostKey::Alt));
    }
    for t in ["CONTROL", "CTRL", "CTRL_L", "CTRL_R"] {
        assert_eq!(KeySender::parse_key(t), Ok(HostKey::Control));
    }
    for t in ["SHIFT", "SHIFT_L", "SHIFT_R"] {
        assert_eq!(KeySender::parse_key(t), Ok(HostKey::Shift));
    }
    for t in ["WIN", "WIN_L", "WIN_R", "SUPER", "COMMAND"] {
        assert_eq!(KeySender::parse_key(t), Ok(HostKey::Meta));
    }
}

#[test]
fn parse_key_arrows() {
    assert_eq!(KeySender::parse_key("UP"), Ok(HostKey::UpArrow));
    assert_eq!(KeySender::parse_key("UP_ARROW"), Ok(HostKey::UpArrow));
    assert_eq!(KeySender::parse_key("DOWN"), Ok(HostKey::DownArrow));
    assert_eq!(KeySender::parse_key("DOWN_ARROW"), Ok(HostKey::DownArrow));
    assert_eq!(KeySender::parse_key("LEFT"), Ok(HostKey::LeftArrow));
    assert_eq!(KeySender::parse_key("LEFT_ARROW"), Ok(HostKey::LeftArrow));
    assert_eq!(KeySender::parse_key("RIGHT"), Ok(HostKey::RightArrow));
    assert_eq!(KeySender::parse_key("RIGHT_ARROW"), Ok(HostKey::RightArrow));
}

#[test]
fn parse_key_named_keys() {
    assert_eq!(KeySender::parse_key("BACKSPACE"), Ok(HostKey::Backspace));
    assert_eq!(KeySender::parse_key("CAPSLOCK"), Ok(HostKey::CapsLock));
    assert_eq!(KeySender::parse_key("DELETE"), Ok(HostKey::Delete));
    assert_eq!(KeySender::parse_key("END"), Ok(HostKey::End));
    assert_eq!(KeySender::parse_key("ENTER"), Ok(HostKey::Return));
    assert_eq!(KeySender::parse_key("ESCAPE"), Ok(HostKey::Escape));
    assert_eq!(KeySender::parse_key("HOME"), Ok(HostKey::Home));
    assert_eq!(KeySender::parse_key("PAGEDOWN"), Ok(HostKey::PageDown));
    assert_eq!(KeySender::parse_key("PAGEUP"), Ok(HostKey::PageUp));
    assert_eq!(KeySender::parse_key("SPACE"), Ok(HostKey::Space));
    assert_eq!(KeySender::parse_key("TAB"), Ok(HostKey::Tab));
}

#[test]
fn parse_key_function_keys() {
    let keys = [
        HostKey::F1,
        HostKey::F2,
        HostKey::F3,
        HostKey::F4,
        HostKey::F5,
        HostKey::F6,
        HostKey::F7,
        HostKey::F8,
        HostKey::F9,
        HostKey::F10,
        HostKey::F11,
        HostKey::F12,
    ];
    for (i, k) in keys.iter().enumerate() {
        assert_eq!(KeySender::parse_key(&format!("F{}", i + 1)), Ok(*k));
        assert_eq!(KeySender::parse_key(&format!("f{}", i + 1)), Ok(*k));
    }
    assert_eq!(KeySender::parse_key("F13"), Err(unknown("F13")));
    assert_eq!(KeySender::parse_key("F0"), Err(unknown("F0")));
}

#[test]
fn parse_key_letters() {
    let keys = [
        HostKey::A,
        HostKey::B,
        HostKey::C,
        HostKey::D,
        HostKey::E,
        HostKey::F,
        HostKey::G,
        HostKey::H,
        HostKey::I,
        HostKey::J,
        HostKey::K,
        HostKey::L,
        HostKey::M,
        HostKey::N,
        HostKey::O,
        HostKey::P,
        HostKey::Q,
        HostKey::R,
        HostKey::S,
        HostKey::T,
        HostKey::U,
        HostKey::V,
        HostKey::W,
        HostKey::X,
        HostKey::Y,
        HostKey::Z,
    ];
    for (i, k) in keys.iter().enumerate() {
        let upper = ((b'A' + i as u8) as char).to_string();
        let lower = ((b'a' + i as u8) as char).to_string();
        assert_eq!(KeySender::parse_key(&upper), Ok(*k));
        assert_eq!(KeySender::parse_key(&lower), Ok(*k));
    }
}

#[test]
fn parse_key_punctuation() {
    assert_eq!(KeySender::parse_key("-"), Ok(HostKey::Other(0xBD)));
    assert_eq!(KeySender::parse_key("="), Ok(HostKey::Other(0xBB)));
    assert_eq!(KeySender::parse_key("["), Ok(HostKey::Other(0xDB)));
    assert_eq!(KeySender::parse_key("]"), Ok(HostKey::Other(0xDD)));
    assert_eq!(KeySender::parse_key(";"), Ok(HostKey::Other(0xBA)));
    assert_eq!(KeySender::parse_key("'"), Ok(HostKey::Other(0xDE)));
    assert_eq!(KeySender::parse_key(","), Ok(HostKey::Other(0xBC)));
    assert_eq!(KeySender::parse_key("."), Ok(HostKey::Other(0xBE)));
    assert_eq!(KeySender::parse_key("/"), Ok(HostKey::Other(0xBF)));
    assert_eq!(KeySender::parse_key("`"), Ok(HostKey::Other(0xC0)));
}

#[test]
fn parse_key_raw_codes() {
    assert_eq!(KeySender::parse_key("@65"), Ok(HostKey::Other(65)));
    assert_eq!(KeySender::parse_key("@0"), Ok(HostKey::Other(0)));
    assert_eq!(KeySender::parse_key("@007"), Ok(HostKey::Other(7)));
    assert_eq!(KeySender::parse_key("@4294967295"), Ok(HostKey::Other(4294967295)));
    assert_eq!(KeySender::parse_key("@4294967296"), Err(unknown("@4294967296")));
    assert_eq!(KeySender::parse_key("@"), Err(unknown("@")));
    assert_eq!(KeySender::parse_key("@12a"), Err(unknown("@12A")));
    assert_eq!(KeySender::parse_key("@-1"), Err(unknown("@-1")));
    assert_eq!(KeySender::parse_key("@ 1"), Err(unknown("@ 1")));
    assert_eq!(KeySender::parse_key("@1@2"), Err(unknown("@1@2")));
    assert_eq!(KeySender::parse_key("65"), Err(unknown("65")));
}

#[test]
fn parse_key_unknown_tokens() {
    assert_eq!(KeySender::parse_key(""), Err(unknown("")));
    assert_eq!(KeySender::parse_key("bogus"), Err(unknown("BOGUS")));
    assert_eq!(KeySender::parse_key("CTRL+C"), Err(unknown("CTRL+C")));
    assert_eq!(KeySender::parse_key("WHEEL_UP"), Err(unknown("WHEEL_UP")));
    assert_eq!(KeySender::parse_key(" A"), Err(unknown(" A")));
}

#[test]
fn parse_uppercase_wants_uppercase() {
    assert_eq!(KeySender::parse_uppercase("CTRL"), Some(HostKey::Control));
    assert_eq!(KeySender::parse_uppercase("ctrl"), None);
    assert_eq!(KeySender::parse_uppercase("@12"), Some(HostKey::Other(12)));
    assert_eq!(KeySender::parse_uppercase("a"), None);
}

#[test]
fn unknown_key_message() {
    assert_eq!(unknown("BOGUS").message(), "the key `BOGUS` is not available");
}

#[test]
fn press_and_release_keep_the_record() {
    let mut s = KeySender::new();
    assert!(!s.is_active(HostKey::Control));
    assert_eq!(s.send_key(&press("ctrl")), Ok(vec![HostOp::Press(HostKey::Control)]));
    assert!(s.is_active(HostKey::Control));
    assert_eq!(s.send_key(&press("CONTROL")), Ok(vec![HostOp::Press(HostKey::Control)]));
    assert!(s.is_active(HostKey::Control));
    assert_eq!(s.send_key(&release("CTRL_L")), Ok(vec![HostOp::Release(HostKey::Control)]));
    assert!(!s.is_active(HostKey::Control));
    assert_eq!(s.send_key(&release("CTRL")), Ok(vec![HostOp::Release(HostKey::Control)]));
    assert!(!s.is_active(HostKey::Control));
}

#[test]
fn click_presses_in_order_and_releases_in_reverse() {
    let mut s = KeySender::new();
    assert_eq!(
        s.send_key(&click("ctrl+shift+c")),
        Ok(vec![
            HostOp::Press(HostKey::Control),
            HostOp::Press(HostKey::Shift),
            HostOp::Press(HostKey::C),
            HostOp::Release(HostKey::C),
            HostOp::Release(HostKey::Shift),
            HostOp::Release(HostKey::Control),
        ])
    );
    assert!(!s.is_active(HostKey::Control));
    assert!(!s.is_active(HostKey::Shift));
    assert!(!s.is_active(HostKey::C));
}

#[test]
fn click_leaves_held_keys_alone() {
    let mut s = KeySender::new();
    s.send_key(&press("CTRL")).unwrap();
    assert_eq!(
        s.send_key(&click("CTRL+C")),
        Ok(vec![HostOp::Press(HostKey::C), HostOp::Release(HostKey::C)])
    );
    assert!(s.is_active(HostKey::Control));
    assert!(!s.is_active(HostKey::C));
}

#[test]
fn click_of_held_keys_does_nothing() {
    let mut s = KeySender::new();
    s.send_key(&press("CTRL")).unwrap();
    s.send_key(&press("C")).unwrap();
    assert_eq!(s.send_key(&click("CTRL+C")), Ok(vec![]));
    assert_eq!(s.send_key(&click("c")), Ok(vec![]));
    assert!(s.is_active(HostKey::Control));
    assert!(s.is_active(HostKey::C));
}

#[test]
fn click_of_a_repeated_key_presses_it_each_time() {
    let mut s = KeySender::new();
    assert_eq!(
        s.send_key(&click("A+A")),
        Ok(vec![
            HostOp::Press(HostKey::A),
            HostOp::Press(HostKey::A),
            HostOp::Release(HostKey::A),
            HostOp::Release(HostKey::A),
        ])
    );
}

#[test]
fn wheel_clicks_scroll() {
    let mut s = KeySender::new();
    assert_eq!(s.send_key(&click("WHEEL_UP")), Ok(vec![HostOp::Scroll(-1)]));
    assert_eq!(s.send_key(&click("wheel_up")), Ok(vec![HostOp::Scroll(-1)]));
    assert_eq!(s.send_key(&click("WHEEL_DOWN")), Ok(vec![HostOp::Scroll(1)]));
    assert_eq!(s.send_key(&click("Wheel_Down")), Ok(vec![HostOp::Scroll(1)]));
}

#[test]
fn wheel_names_are_no_keys() {
    let mut s = KeySender::new();
    assert_eq!(s.send_key(&press("WHEEL_UP")), Err(unknown("WHEEL_UP")));
    assert_eq!(s.send_key(&click("CTRL+WHEEL_UP")), Err(unknown("WHEEL_UP")));
}

#[test]
fn unknown_token_fails_the_whole_action() {
    let mut s = KeySender::new();
    assert_eq!(s.send_key(&press("nope")), Err(unknown("NOPE")));
    assert_eq!(s.send_key(&release("nope")), Err(unknown("NOPE")));
    assert_eq!(s.send_key(&click("CTRL+nope+alsono")), Err(unknown("NOPE")));
    assert_eq!(s.send_key(&click("CTRL+")), Err(unknown("")));
    assert!(!s.is_active(HostKey::Control));
    // The injector goes on with the next action.
    assert_eq!(
        s.send_key(&click("TAB")),
        Ok(vec![HostOp::Press(HostKey::Tab), HostOp::Release(HostKey::Tab)])
    );
}

#[test]
fn ui_action_is_ignored() {
    let mut s = KeySender::new();
    assert_eq!(s.send_key(&TourAction::UiAction("CTRL".to_string())), Ok(vec![]));
    assert!(!s.is_active(HostKey::Control));
}

#[test]
fn uppercase_follows_unicode() {
    // The long s has the capital S, the sharp s the capital SS.
    assert_eq!(KeySender::parse_key("\u{17f}pace"), Ok(HostKey::Space));
    assert_eq!(KeySender::parse_key("\u{df}"), Err(unknown("SS")));
}

#[test]
fn press_release_and_click_by_key() {
    let mut s = KeySender::new();
    assert_eq!(s.press(HostKey::Shift), HostOp::Press(HostKey::Shift));
    assert!(s.is_active(HostKey::Shift));
    assert_eq!(
        s.click(&vec![HostKey::Shift, HostKey::Alt, HostKey::F4]),
        vec![
            HostOp::Press(HostKey::Alt),
            HostOp::Press(HostKey::F4),
            HostOp::Release(HostKey::F4),
            HostOp::Release(HostKey::Alt),
        ]
    );
    assert!(s.is_active(HostKey::Shift));
    assert!(!s.is_active(HostKey::Alt));
    assert_eq!(s.release(HostKey::Shift), HostOp::Release(HostKey::Shift));
    assert!(!s.is_active(HostKey::Shift));
    assert_eq!(s.click(&vec![]), vec![]);
}

#[test]
fn wheel_names() {
    assert_eq!(KeySender::wheel("WHEEL_UP"), Some(HostOp::Scroll(-1)));
    assert_eq!(KeySender::wheel("WHEEL_DOWN"), Some(HostOp::Scroll(1)));
    assert_eq!(KeySender::wheel("wheel_up"), None);
    assert_eq!(KeySender::wheel("WHEEL"), None);
    assert_eq!(KeySender::wheel(""), None);
}
