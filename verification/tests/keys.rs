use v_utils::keys::modal::{update_modal_state, ModalNode, ModalState, MODAL_HINT_TIMEOUT_US};
use v_utils::keys::pressed_chars::{
    logical_key_to_keycode, update_pressed_chars, ButtonState, KeyCode, KeyEvent, LogicalKey, PressedChars,
};

fn press(c: &str) -> KeyEvent {
    KeyEvent { logical_key: LogicalKey::Character(c.to_string()), state: ButtonState::Pressed }
}

fn release(c: &str) -> KeyEvent {
    KeyEvent { logical_key: LogicalKey::Character(c.to_string()), state: ButtonState::Released }
}

fn frame_of(keys: &[char], escape: bool) -> PressedChars {
    let mut p = PressedChars::default();
    p.just_pressed = keys.to_vec();
    if escape {
        p.logical_keys_just_pressed = vec![KeyCode::Escape];
    }
    p
}

/// `g` then `h` or `l`; `d` leads through a single child `d` to `x`.
fn tree() -> ModalNode<&'static str> {
    ModalNode::new()
        .child(
            'g',
            "goto",
            ModalNode::new().child('h', "home", ModalNode::action("home")).child('l', "last", ModalNode::action("last")),
        )
        .child('d', "delete", ModalNode::new().child('d', "line", ModalNode::new().child('x', "cut", ModalNode::action("cut"))))
        .child('q', "quit", ModalNode::action("quit"))
}

#[test]
fn pressed_chars_tracks_new_presses() {
    let mut p = PressedChars::default();
    update_pressed_chars(&[press("a"), press("b")], &mut p);
    assert!(p.pressed.contains(&'a') && p.pressed.contains(&'b'));
    assert_eq!(p.just_pressed.len(), 2);
    // a held key repeating is not newly pressed
    update_pressed_chars(&[press("a"), release("b")], &mut p);
    assert!(p.just_pressed.is_empty());
    assert!(p.pressed.contains(&'a'));
    assert!(!p.pressed.contains(&'b'));
}

#[test]
fn pressed_chars_named_keys() {
    let mut p = PressedChars::default();
    let esc = KeyEvent { logical_key: LogicalKey::Escape, state: ButtonState::Pressed };
    update_pressed_chars(&[esc.clone()], &mut p);
    assert_eq!(p.logical_keys_just_pressed, vec![KeyCode::Escape]);
    assert_eq!(p.logical_keys_pressed, vec![KeyCode::Escape]);
    update_pressed_chars(&[esc], &mut p);
    assert!(p.logical_keys_just_pressed.is_empty());
    assert_eq!(logical_key_to_keycode(&LogicalKey::Shift), Some(KeyCode::ShiftLeft));
    assert_eq!(logical_key_to_keycode(&LogicalKey::Other), None);
}

#[test]
fn empty_character_key_types_nul() {
    let mut p = PressedChars::default();
    update_pressed_chars(&[press("")], &mut p);
    assert_eq!(p.just_pressed, vec!['\0']);
}

#[test]
fn modal_node_builders() {
    let n: ModalNode<u8> = ModalNode::new();
    assert!(!n.has_children());
    assert!(!n.is_terminal());
    let t = ModalNode::action(7u8);
    assert!(t.is_terminal());
    let n = ModalNode::new().child('a', "first", ModalNode::action(1u8)).child('a', "again", ModalNode::action(2u8));
    assert_eq!(n.children.len(), 1);
    assert_eq!(n.children[0].1.action, Some(2));
    assert_eq!(n.children[0].1.label, Some("again"));
    assert!(n.child_ref('a').is_some());
    assert!(n.child_ref('b').is_none());
}

#[test]
fn modal_two_key_sequence_fires() {
    let mut s = ModalState::new(tree());
    assert_eq!(s.process_key('g'), None);
    assert!(s.active);
    assert_eq!(s.sequence, vec!['g']);
    assert!(s.is_valid_key('h'));
    assert!(!s.is_valid_key('x'));
    assert_eq!(s.process_key('l'), Some("last"));
    assert!(!s.active);
    assert!(s.sequence.is_empty());
}

#[test]
fn modal_single_child_branches_advance() {
    let mut s = ModalState::new(tree());
    assert_eq!(s.process_key('d'), Some("cut"));
    assert!(s.sequence.is_empty());
    assert!(!s.active);
}

#[test]
fn modal_unknown_key_changes_nothing() {
    let mut s = ModalState::new(tree());
    assert_eq!(s.process_key('z'), None);
    assert!(!s.active);
    assert!(s.sequence.is_empty());
    assert!(s.current_node().is_some());
}

#[test]
fn modal_frame_fires_in_order() {
    let mut s = ModalState::new(tree());
    let fired = update_modal_state(0, &frame_of(&['g', 'h', 'q'], false), &mut s);
    assert_eq!(fired, vec!["home", "quit"]);
    assert!(!s.active);
}

#[test]
fn modal_invalid_key_ends_sequence() {
    let mut s = ModalState::new(tree());
    let fired = update_modal_state(0, &frame_of(&['g', 'z'], false), &mut s);
    assert!(fired.is_empty());
    assert!(!s.active);
    assert!(s.sequence.is_empty());
}

#[test]
fn modal_escape_resets_and_ignores_keys() {
    let mut s = ModalState::new(tree());
    update_modal_state(0, &frame_of(&['g'], false), &mut s);
    assert!(s.active);
    let fired = update_modal_state(0, &frame_of(&['q'], true), &mut s);
    assert!(fired.is_empty());
    assert!(!s.active);
    assert!(s.sequence.is_empty());
}

#[test]
fn modal_hints_after_timeout() {
    let mut s = ModalState::new(tree());
    update_modal_state(0, &frame_of(&['g'], false), &mut s);
    update_modal_state(MODAL_HINT_TIMEOUT_US - 1, &frame_of(&[], false), &mut s);
    assert!(!s.hints_visible);
    update_modal_state(1, &frame_of(&[], false), &mut s);
    assert!(s.hints_visible);
    assert_eq!(s.since_last_key_us, 150_000);
}

#[test]
fn modal_help_dismissed_by_key() {
    let mut s = ModalState::new(tree());
    s.show_help = true;
    let fired = update_modal_state(0, &frame_of(&['q'], false), &mut s);
    assert_eq!(fired, vec!["quit"]);
    assert!(!s.show_help);
}

#[test]
fn modal_sequence_stays_in_tree() {
    let mut s = ModalState::new(tree());
    for k in ['g', 'z', 'd', 'g', 'g', 'h', 'q', 'x'] {
        update_modal_state(10, &frame_of(&[k], false), &mut s);
        assert!(s.current_node().is_some());
    }
}
