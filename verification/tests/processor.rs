use tourbox::config::{KeyMappingConfig, KeyTriggerTiming};
use tourbox::event::InputEvent;
use tourbox::key_processor::KeyMappingProcessor;
use tourbox::key_sender::TourAction;

fn mapping(keys: &str, action: &str, trigger: KeyTriggerTiming) -> KeyMappingConfig {
    KeyMappingConfig { keys: keys.to_string(), action: action.to_string(), trigger }
}

fn pressed(k: &str) -> InputEvent {
    InputEvent::KeyPressed(k.to_string())
}

fn released(k: &str) -> InputEvent {
    InputEvent::KeyReleased(k.to_string())
}

fn press(t: &str) -> TourAction {
    TourAction::KeyPress(t.to_string())
}

fn release(t: &str) -> TourAction {
    TourAction::KeyRelease(t.to_string())
}

fn click(t: &str) -> TourAction {
    TourAction::KeyClick(t.to_string())
}

#[test]
fn simple_click_on_press() {
    let mut p =
        KeyMappingProcessor::from_config(&vec![mapping("short", "SPACE", KeyTriggerTiming::OnPress)]);
    assert_eq!(p.process(pressed("short")), vec![click("SPACE")]);
    assert_eq!(p.process(released("short")), vec![]);
    // Final state empty: the same pair of events gives the same again.
    assert_eq!(p.process(pressed("short")), vec![click("SPACE")]);
    assert_eq!(p.process(released("short")), vec![]);
}

#[test]
fn hold_rewrite() {
    let mut p =
        KeyMappingProcessor::from_config(&vec![mapping("tall", "CTRL+C", KeyTriggerTiming::OnHold)]);
    assert_eq!(p.process(pressed("tall")), vec![press("CTRL"), press("C")]);
    assert_eq!(p.process(released("tall")), vec![release("CTRL"), release("C")]);
}

#[test]
fn hold_round_trip_leaves_nothing_held() {
    let mut p =
        KeyMappingProcessor::from_config(&vec![mapping("knob", "A+B", KeyTriggerTiming::OnHold)]);
    let mut out = p.process(pressed("knob"));
    out.extend(p.process(released("knob")));
    assert_eq!(out, vec![press("A"), press("B"), release("A"), release("B")]);
    // Nothing is held any more: a second release has nothing to let go.
    assert_eq!(p.process(released("knob")), vec![]);
    // No device key is down any more: the round trip repeats exactly.
    let mut again = p.process(pressed("knob"));
    again.extend(p.process(released("knob")));
    assert_eq!(again, vec![press("A"), press("B"), release("A"), release("B")]);
}

#[test]
fn longest_modifier_wins() {
    let mut p = KeyMappingProcessor::from_config(&vec![
        mapping("top", "X", KeyTriggerTiming::OnPress),
        mapping("tall+top", "Y", KeyTriggerTiming::OnPress),
    ]);
    assert_eq!(p.process(pressed("tall")), vec![]);
    assert_eq!(p.process(pressed("top")), vec![click("Y")]);
    assert_eq!(p.process(released("top")), vec![]);
    assert_eq!(p.process(released("tall")), vec![]);
}

#[test]
fn bare_mapping_wins_while_modifier_is_up() {
    let mut p = KeyMappingProcessor::from_config(&vec![
        mapping("top", "X", KeyTriggerTiming::OnPress),
        mapping("tall+top", "Y", KeyTriggerTiming::OnPress),
    ]);
    assert_eq!(p.process(pressed("top")), vec![click("X")]);
}

#[test]
fn supersession_of_a_hold_sharing_a_modifier() {
    let mut p = KeyMappingProcessor::from_config(&vec![
        mapping("tall+top", "CTRL+C", KeyTriggerTiming::OnHold),
        mapping("tall+side", "CTRL+V", KeyTriggerTiming::OnHold),
    ]);
    assert_eq!(p.process(pressed("tall")), vec![]);
    assert_eq!(p.process(pressed("top")), vec![press("CTRL"), press("C")]);
    assert_eq!(p.process(pressed("side")), vec![release("C"), press("CTRL"), press("V")]);
    assert_eq!(p.process(released("tall")), vec![release("CTRL"), release("V")]);
}

#[test]
fn on_release_timing() {
    let mut p = KeyMappingProcessor::from_config(&vec![mapping(
        "short",
        "ENTER",
        KeyTriggerTiming::OnRelease,
    )]);
    assert_eq!(p.process(pressed("short")), vec![]);
    assert_eq!(p.process(released("short")), vec![click("ENTER")]);
}

#[test]
fn equal_scores_go_to_the_first_mapping() {
    let mut p = KeyMappingProcessor::from_config(&vec![
        mapping("top", "FIRST", KeyTriggerTiming::OnPress),
        mapping("top", "SECOND", KeyTriggerTiming::OnPress),
    ]);
    assert_eq!(p.process(pressed("top")), vec![click("FIRST")]);
}

#[test]
fn press_outranks_release_timing_on_a_press() {
    let mut p = KeyMappingProcessor::from_config(&vec![
        mapping("top", "LATER", KeyTriggerTiming::OnRelease),
        mapping("top", "NOW", KeyTriggerTiming::OnPress),
    ]);
    assert_eq!(p.process(pressed("top")), vec![click("NOW")]);
    assert_eq!(p.process(released("top")), vec![click("LATER")]);
}

#[test]
fn hold_scores_high_on_a_release_too() {
    // On a release a hold entry scores as an on-release entry does; the
    // first of the two is selected, so the later click is not emitted.
    let mut p = KeyMappingProcessor::from_config(&vec![
        mapping("top", "CTRL", KeyTriggerTiming::OnHold),
        mapping("top", "ENTER", KeyTriggerTiming::OnRelease),
    ]);
    assert_eq!(p.process(pressed("top")), vec![press("CTRL")]);
    assert_eq!(p.process(released("top")), vec![release("CTRL")]);
}

#[test]
fn a_mapping_with_a_missing_modifier_is_not_selected() {
    let mut p = KeyMappingProcessor::from_config(&vec![mapping(
        "tall+side+top",
        "Z",
        KeyTriggerTiming::OnPress,
    )]);
    assert_eq!(p.process(pressed("tall")), vec![]);
    assert_eq!(p.process(pressed("top")), vec![]);
    assert_eq!(p.process(released("top")), vec![]);
    assert_eq!(p.process(pressed("side")), vec![]);
    assert_eq!(p.process(pressed("top")), vec![click("Z")]);
}

#[test]
fn release_of_a_modifier_gives_up_the_hold() {
    let mut p = KeyMappingProcessor::from_config(&vec![mapping(
        "tall+top",
        "SHIFT+A",
        KeyTriggerTiming::OnHold,
    )]);
    p.process(pressed("tall"));
    assert_eq!(p.process(pressed("top")), vec![press("SHIFT"), press("A")]);
    assert_eq!(p.process(released("tall")), vec![release("SHIFT"), release("A")]);
    // The hold is gone: releasing the trigger key lets nothing more go.
    assert_eq!(p.process(released("top")), vec![]);
}

#[test]
fn a_hold_pressed_twice_is_held_once() {
    let mut p =
        KeyMappingProcessor::from_config(&vec![mapping("dial", "ALT", KeyTriggerTiming::OnHold)]);
    assert_eq!(p.process(pressed("dial")), vec![press("ALT")]);
    assert_eq!(p.process(pressed("dial")), vec![press("ALT")]);
    assert_eq!(p.process(released("dial")), vec![release("ALT")]);
}

#[test]
fn unmapped_key_emits_nothing() {
    let mut p =
        KeyMappingProcessor::from_config(&vec![mapping("tall", "CTRL", KeyTriggerTiming::OnHold)]);
    assert_eq!(p.process(pressed("other")), vec![]);
    assert_eq!(p.process(released("other")), vec![]);
}

#[test]
fn get_actived_action_returns_the_handle() {
    let mut p = KeyMappingProcessor::from_config(&vec![
        mapping("top", "X", KeyTriggerTiming::OnPress),
        mapping("tall+top", "Y", KeyTriggerTiming::OnPress),
        mapping("side", "Z", KeyTriggerTiming::OnRelease),
    ]);
    assert_eq!(p.get_actived_action(&pressed("top")), Some(0));
    assert_eq!(p.get_actived_action(&pressed("nothing")), None);
    assert_eq!(p.get_actived_action(&released("side")), Some(2));
    p.process(pressed("tall"));
    assert_eq!(p.get_actived_action(&pressed("top")), Some(1));
}

#[test]
fn two_modifiers_beat_one() {
    let mut p = KeyMappingProcessor::from_config(&vec![
        mapping("tall+top", "ONE", KeyTriggerTiming::OnPress),
        mapping("tall+side+top", "TWO", KeyTriggerTiming::OnPress),
        mapping("top", "NONE", KeyTriggerTiming::OnPress),
    ]);
    p.process(pressed("tall"));
    assert_eq!(p.process(pressed("top")), vec![click("ONE")]);
    p.process(released("top"));
    p.process(pressed("side"));
    assert_eq!(p.process(pressed("top")), vec![click("TWO")]);
    p.process(released("top"));
    p.process(released("tall"));
    p.process(released("side"));
    assert_eq!(p.process(pressed("top")), vec![click("NONE")]);
}

#[test]
fn a_release_still_counts_its_own_key_as_down() {
    let mut p = KeyMappingProcessor::from_config(&vec![mapping(
        "tall+tall",
        "ENTER",
        KeyTriggerTiming::OnRelease,
    )]);
    assert_eq!(p.process(released("tall")), vec![]);
    assert_eq!(p.process(pressed("tall")), vec![]);
    assert_eq!(p.process(released("tall")), vec![click("ENTER")]);
}

#[test]
fn a_hold_gives_way_to_one_that_names_its_trigger_as_modifier() {
    let mut p = KeyMappingProcessor::from_config(&vec![
        mapping("tall", "SHIFT", KeyTriggerTiming::OnHold),
        mapping("tall+top", "SHIFT+A", KeyTriggerTiming::OnHold),
    ]);
    assert_eq!(p.process(pressed("tall")), vec![press("SHIFT")]);
    // SHIFT is carried over: the first hold is given up without a release.
    assert_eq!(p.process(pressed("top")), vec![press("SHIFT"), press("A")]);
    assert_eq!(p.process(released("top")), vec![release("SHIFT"), release("A")]);
    assert_eq!(p.process(released("tall")), vec![]);
}

#[test]
fn releases_come_in_the_order_in_which_holds_were_taken_up() {
    let mut p = KeyMappingProcessor::from_config(&vec![
        mapping("tall+b", "B", KeyTriggerTiming::OnHold),
        mapping("tall+a", "A", KeyTriggerTiming::OnHold),
    ]);
    p.process(pressed("tall"));
    // Each of the two gives way to the other, as they share a modifier.
    assert_eq!(p.process(pressed("a")), vec![press("A")]);
    assert_eq!(p.process(pressed("b")), vec![release("A"), press("B")]);
    assert_eq!(p.process(released("tall")), vec![release("B")]);
}

#[test]
fn independent_holds_are_let_go_oldest_first() {
    let mut p = KeyMappingProcessor::from_config(&vec![
        mapping("x+b", "B", KeyTriggerTiming::OnHold),
        mapping("x", "X", KeyTriggerTiming::OnHold),
    ]);
    assert_eq!(p.process(pressed("x")), vec![press("X")]);
    assert_eq!(p.process(pressed("b")), vec![release("X"), press("B")]);
    assert_eq!(p.process(pressed("x")), vec![press("X")]);
    assert_eq!(p.process(released("x")), vec![release("B"), release("X")]);
}

#[test]
fn keys_are_split_at_every_plus() {
    // The last piece triggers, also where it is empty.
    let mut p =
        KeyMappingProcessor::from_config(&vec![mapping("tall+", "X", KeyTriggerTiming::OnPress)]);
    assert_eq!(p.process(pressed("tall")), vec![]);
    assert_eq!(p.process(pressed("")), vec![click("X")]);
}
