//! Layout-aware character input collected from keyboard events: characters
//! and named keys held down, and those that went down in this batch.

use vstd::prelude::*;

verus! {

/// The named keys that are tracked.
#[derive(Clone, Copy, Debug, PartialEq, Eq, Structural, Hash)]
pub enum KeyCode {
    Escape,
    Enter,
    Tab,
    Space,
    Backspace,
    Delete,
    ArrowUp,
    ArrowDown,
    ArrowLeft,
    ArrowRight,
    Home,
    End,
    PageUp,
    PageDown,
    ShiftLeft,
    ControlLeft,
    AltLeft,
}

/// The logical key of a keyboard event (what the layout makes of it).
#[derive(Clone, Debug, PartialEq, Eq)]
pub enum LogicalKey {
    Character(String),
    Escape,
    Enter,
    Tab,
    Space,
    Backspace,
    Delete,
    ArrowUp,
    ArrowDown,
    ArrowLeft,
    ArrowRight,
    Home,
    End,
    PageUp,
    PageDown,
    Shift,
    Control,
    Alt,
    /// Any other key.
    Other,
}

/// Whether a key went down or up.
#[derive(Clone, Copy, Debug, PartialEq, Eq, Structural)]
pub enum ButtonState {
    Pressed,
    Released,
}

/// A keyboard event.
#[derive(Clone, Debug, PartialEq, Eq)]
pub struct KeyEvent {
    pub logical_key: LogicalKey,
    pub state: ButtonState,
}

/// Characters and named keys held down, and those that went down in the
/// last batch of events (repeats of a held key excluded).
#[derive(Clone, Debug, Default)]
pub struct PressedChars {
    pub pressed: Vec<char>,
    pub just_pressed: Vec<char>,
    pub logical_keys_pressed: Vec<KeyCode>,
    pub logical_keys_just_pressed: Vec<KeyCode>,
}

/// The named key a logical key is tracked as.
pub open spec fn keycode_of(k: LogicalKey) -> Option<KeyCode> {
    match k {
        LogicalKey::Escape => Some(KeyCode::Escape),
        LogicalKey::Enter => Some(KeyCode::Enter),
        LogicalKey::Tab => Some(KeyCode::Tab),
        LogicalKey::Space => Some(KeyCode::Space),
        LogicalKey::Backspace => Some(KeyCode::Backspace),
        LogicalKey::Delete => Some(KeyCode::Delete),
        LogicalKey::ArrowUp => Some(KeyCode::ArrowUp),
        LogicalKey::ArrowDown => Some(KeyCode::ArrowDown),
        LogicalKey::ArrowLeft => Some(KeyCode::ArrowLeft),
        LogicalKey::ArrowRight => Some(KeyCode::ArrowRight),
        LogicalKey::Home => Some(KeyCode::Home),
        LogicalKey::End => Some(KeyCode::End),
        LogicalKey::PageUp => Some(KeyCode::PageUp),
        LogicalKey::PageDown => Some(KeyCode::PageDown),
        LogicalKey::Shift => Some(KeyCode::ShiftLeft),
        LogicalKey::Control => Some(KeyCode::ControlLeft),
        LogicalKey::Alt => Some(KeyCode::AltLeft),
        _ => None,
    }
}

/// The named key a logical key is tracked as, if any.
pub fn logical_key_to_keycode(key: &LogicalKey) -> (r: Option<KeyCode>)
    ensures
        r == keycode_of(*key),
{
    match key {
        LogicalKey::Escape => Some(KeyCode::Escape),
        LogicalKey::Enter => Some(KeyCode::Enter),
        LogicalKey::Tab => Some(KeyCode::Tab),
        LogicalKey::Space => Some(KeyCode::Space),
        LogicalKey::Backspace => Some(KeyCode::Backspace),
        LogicalKey::Delete => Some(KeyCode::Delete),
        LogicalKey::ArrowUp => Some(KeyCode::ArrowUp),
        LogicalKey::ArrowDown => Some(KeyCode::ArrowDown),
        LogicalKey::ArrowLeft => Some(KeyCode::ArrowLeft),
        LogicalKey::ArrowRight => Some(KeyCode::ArrowRight),
        LogicalKey::Home => Some(KeyCode::Home),
        LogicalKey::End => Some(KeyCode::End),
        LogicalKey::PageUp => Some(KeyCode::PageUp),
        LogicalKey::PageDown => Some(KeyCode::PageDown),
        LogicalKey::Shift => Some(KeyCode::ShiftLeft),
        LogicalKey::Control => Some(KeyCode::ControlLeft),
        LogicalKey::Alt => Some(KeyCode::AltLeft),
        _ => None,
    }
}

/// The character a character key types: its first, or NUL for an empty one.
pub open spec fn typed_char(s: Seq<char>) -> char {
    if s.len() > 0 {
        s[0]
    } else {
        '\0'
    }
}

/// The four sets: held characters, newly pressed characters, held keys, newly pressed keys.
pub type KeySets = (Set<char>, Set<char>, Set<KeyCode>, Set<KeyCode>);

/// The sets after one event: a press adds to the held set, and to the newly
/// pressed set unless it was already held; a release removes from the held set.
pub open spec fn apply_event(s: KeySets, e: KeyEvent) -> KeySets {
    let s1: KeySets = match e.logical_key {
        LogicalKey::Character(c) => {
            let ch = typed_char(c@);
            match e.state {
                ButtonState::Pressed => (
                    s.0.insert(ch),
                    if s.0.contains(ch) { s.1 } else { s.1.insert(ch) },
                    s.2,
                    s.3,
                ),
                ButtonState::Released => (s.0.remove(ch), s.1, s.2, s.3),
            }
        },
        _ => s,
    };
    match keycode_of(e.logical_key) {
        Some(k) => match e.state {
            ButtonState::Pressed => (
                s1.0,
                s1.1,
                s1.2.insert(k),
                if s1.2.contains(k) { s1.3 } else { s1.3.insert(k) },
            ),
            ButtonState::Released => (s1.0, s1.1, s1.2.remove(k), s1.3),
        },
        None => s1,
    }
}

/// The sets after a batch of events.
pub open spec fn apply_events(s: KeySets, es: Seq<KeyEvent>) -> KeySets
    decreases es.len(),
{
    if es.len() == 0 {
        s
    } else {
        apply_event(apply_events(s, es.drop_last()), es.last())
    }
}

/// The sets of the tracked input.
pub open spec fn sets_of(p: PressedChars) -> KeySets {
    (p.pressed@.to_set(), p.just_pressed@.to_set(), p.logical_keys_pressed@.to_set(), p.logical_keys_just_pressed@.to_set())
}

fn insert_char(v: &mut Vec<char>, c: char)
    ensures
        final(v)@.to_set() == old(v)@.to_set().insert(c),
{
    let mut i: usize = 0;
    while i < v.len()
        invariant
            i <= v@.len(),
            forall|k: int| 0 <= k < i ==> v@[k] != c,
        decreases v@.len() - i,
    {
        if v[i] == c {
            assert(v@.to_set() =~= v@.to_set().insert(c));
            return;
        }
        i = i + 1;
    }
    let ghost before = v@;
    v.push(c);
    assert(v@.to_set() =~= before.to_set().insert(c)) by {
        assert forall|x: char| v@.to_set().contains(x) <==> before.to_set().insert(c).contains(x) by {
            if before.contains(x) {
                let k = choose|k: int| 0 <= k < before.len() && before[k] == x;
                assert(v@[k] == x);
            }
            if v@.contains(x) && x != c {
                let k = choose|k: int| 0 <= k < v@.len() && v@[k] == x;
                assert(before[k] == x);
            }
            assert(v@[v@.len() - 1] == c);
        }
    }
}

fn remove_char(v: &mut Vec<char>, c: char)
    ensures
        final(v)@.to_set() == old(v)@.to_set().remove(c),
{
    let mut out: Vec<char> = Vec::new();
    let mut i: usize = 0;
    while i < v.len()
        invariant
            i <= v@.len(),
            forall|x: char| out@.contains(x) <==> (x != c && v@.subrange(0, i as int).contains(x)),
        decreases v@.len() - i,
    {
        let ghost before = out@;
        let x = v[i];
        if x != c {
            out.push(x);
        }
        proof {
            broadcast use vstd::seq_lib::group_seq_properties;
            assert(v@.subrange(0, i + 1) =~= v@.subrange(0, i as int).push(x));
            if x != c {
                assert(out@ =~= before.push(x));
            } else {
                assert(out@ =~= before);
            }
            assert forall|y: char| out@.contains(y) <==> (y != c && v@.subrange(0, i + 1).contains(y)) by {
                assert(v@.subrange(0, i + 1).contains(y) <==> (v@.subrange(0, i as int).contains(y) || y == x));
                if x != c {
                    assert(out@.contains(y) <==> (before.contains(y) || y == x));
                }
            }
        }
        i = i + 1;
    }
    assert(v@.subrange(0, v@.len() as int) =~= v@);
    let ghost old_v = v@;
    *v = out;
    assert(v@.to_set() =~= old_v.to_set().remove(c));
}

fn insert_key(v: &mut Vec<KeyCode>, c: KeyCode)
    ensures
        final(v)@.to_set() == old(v)@.to_set().insert(c),
{
    let mut i: usize = 0;
    while i < v.len()
        invariant
            i <= v@.len(),
            forall|k: int| 0 <= k < i ==> v@[k] != c,
        decreases v@.len() - i,
    {
        if v[i] == c {
            assert(v@.to_set() =~= v@.to_set().insert(c));
            return;
        }
        i = i + 1;
    }
    let ghost before = v@;
    v.push(c);
    assert(v@.to_set() =~= before.to_set().insert(c)) by {
        assert forall|x: KeyCode| v@.to_set().contains(x) <==> before.to_set().insert(c).contains(x) by {
            if before.contains(x) {
                let k = choose|k: int| 0 <= k < before.len() && before[k] == x;
                assert(v@[k] == x);
            }
            if v@.contains(x) && x != c {
                let k = choose|k: int| 0 <= k < v@.len() && v@[k] == x;
                assert(before[k] == x);
            }
            assert(v@[v@.len() - 1] == c);
        }
    }
}

fn remove_key(v: &mut Vec<KeyCode>, c: KeyCode)
    ensures
        final(v)@.to_set() == old(v)@.to_set().remove(c),
{
    let mut out: Vec<KeyCode> = Vec::new();
    let mut i: usize = 0;
    while i < v.len()
        invariant
            i <= v@.len(),
            forall|x: KeyCode| out@.contains(x) <==> (x != c && v@.subrange(0, i as int).contains(x)),
        decreases v@.len() - i,
    {
        let ghost before = out@;
        let x = v[i];
        if x != c {
            out.push(x);
        }
        proof {
            broadcast use vstd::seq_lib::group_seq_properties;
            assert(v@.subrange(0, i + 1) =~= v@.subrange(0, i as int).push(x));
            if x != c {
                assert(out@ =~= before.push(x));
            } else {
                assert(out@ =~= before);
            }
            assert forall|y: KeyCode| out@.contains(y) <==> (y != c && v@.subrange(0, i + 1).contains(y)) by {
                assert(v@.subrange(0, i + 1).contains(y) <==> (v@.subrange(0, i as int).contains(y) || y == x));
                if x != c {
                    assert(out@.contains(y) <==> (before.contains(y) || y == x));
                }
            }
        }
        i = i + 1;
    }
    assert(v@.subrange(0, v@.len() as int) =~= v@);
    let ghost old_v = v@;
    *v = out;
    assert(v@.to_set() =~= old_v.to_set().remove(c));
}

fn contains_char(v: &Vec<char>, c: char) -> (r: bool)
    ensures
        r == v@.to_set().contains(c),
{
    let mut i: usize = 0;
    while i < v.len()
        invariant
            i <= v@.len(),
            forall|k: int| 0 <= k < i ==> v@[k] != c,
        decreases v@.len() - i,
    {
        if v[i] == c {
            assert(v@.contains(c));
            return true;
        }
        i = i + 1;
    }
    false
}

fn contains_key(v: &Vec<KeyCode>, c: KeyCode) -> (r: bool)
    ensures
        r == v@.to_set().contains(c),
{
    let mut i: usize = 0;
    while i < v.len()
        invariant
            i <= v@.len(),
            forall|k: int| 0 <= k < i ==> v@[k] != c,
        decreases v@.len() - i,
    {
        if v[i] == c {
            assert(v@.contains(c));
            return true;
        }
        i = i + 1;
    }
    false
}

/// Collects a batch of keyboard events: the newly pressed sets start empty,
/// then each event is applied in turn (see [`apply_event`]).
pub fn update_pressed_chars(events: &[KeyEvent], pressed_chars: &mut PressedChars)
    ensures
        sets_of(*final(pressed_chars)) == apply_events(
            (old(pressed_chars).pressed@.to_set(), Set::empty(), old(pressed_chars).logical_keys_pressed@.to_set(), Set::empty()),
            events@,
        ),
{
    pressed_chars.just_pressed = Vec::new();
    pressed_chars.logical_keys_just_pressed = Vec::new();
    let ghost start: KeySets = (old(pressed_chars).pressed@.to_set(), Set::empty(), old(pressed_chars).logical_keys_pressed@.to_set(), Set::empty());
    assert(sets_of(*pressed_chars) =~= start);
    let mut i: usize = 0;
    while i < events.len()
        invariant
            i <= events@.len(),
            sets_of(*pressed_chars) == apply_events(start, events@.subrange(0, i as int)),
        decreases events@.len() - i,
    {
        let e = &events[i];
        let ghost s0 = sets_of(*pressed_chars);
        match &e.logical_key {
            LogicalKey::Character(c) => {
                let cs = crate::text::chars_of(c.as_str());
                let ch = if cs.len() > 0 { cs[0] } else { '\0' };
                match e.state {
                    ButtonState::Pressed => {
                        if !contains_char(&pressed_chars.pressed, ch) {
                            insert_char(&mut pressed_chars.just_pressed, ch);
                        }
                        insert_char(&mut pressed_chars.pressed, ch);
                    },
                    ButtonState::Released => {
                        remove_char(&mut pressed_chars.pressed, ch);
                    },
                }
            },
            _ => {},
        }
        match logical_key_to_keycode(&e.logical_key) {
            Some(k) => match e.state {
                ButtonState::Pressed => {
                    if !contains_key(&pressed_chars.logical_keys_pressed, k) {
                        insert_key(&mut pressed_chars.logical_keys_just_pressed, k);
                    }
                    insert_key(&mut pressed_chars.logical_keys_pressed, k);
                },
                ButtonState::Released => {
                    remove_key(&mut pressed_chars.logical_keys_pressed, k);
                },
            },
            None => {},
        }
        proof {
            assert(events@.subrange(0, i + 1).drop_last() =~= events@.subrange(0, i as int));
            assert(sets_of(*pressed_chars) == apply_event(s0, events@[i as int]));
        }
        i = i + 1;
    }
    assert(events@.subrange(0, events@.len() as int) =~= events@);
}

} // verus!
