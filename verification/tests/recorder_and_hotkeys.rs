use soundboard::assign::{
    assign_hotkey, hotkey_action, hotkey_registrations, startup_hotkeys, HotkeyAction, HotkeyFile,
    HotkeyState,
};
use soundboard::hotkeys::{get_hotkeys_loaded_from_file, HotkeyTable};
use soundboard::keys::{is_modifier_key, Key};
use soundboard::last_key::{clear_last_key, get_last_key, LastKey};

fn recorded(keys: &[Key]) -> LastKey {
    let mut last = LastKey::new();
    for k in keys {
        last.record_key(*k);
    }
    last
}

fn is_toggle(a: &HotkeyAction) -> bool {
    matches!(a, HotkeyAction::ToggleActive)
}

fn sound_of(a: &HotkeyAction) -> Option<String> {
    match a {
        HotkeyAction::PlaySound(s) => Some(s.clone()),
        HotkeyAction::ToggleActive => None,
    }
}

#[test]
fn modifiers_are_left_shift_control_alt() {
    assert!(is_modifier_key(Key::LeftShift));
    assert!(is_modifier_key(Key::LeftControl));
    assert!(is_modifier_key(Key::LeftAlt));
    assert!(!is_modifier_key(Key::RightShift));
    assert!(!is_modifier_key(Key::RightAlt));
    assert!(!is_modifier_key(Key::A));
    assert!(!is_modifier_key(Key::Other(7)));
}

#[test]
fn recorder_starts_empty() {
    let last = LastKey::new();
    assert_eq!(get_last_key(&last), vec![]);
}

#[test]
fn single_key_replaces_single_key() {
    let last = recorded(&[Key::A, Key::B]);
    assert_eq!(get_last_key(&last), vec![Key::B]);
}

#[test]
fn modifier_then_key_is_a_chord() {
    let last = recorded(&[Key::A, Key::LeftControl, Key::B]);
    assert_eq!(get_last_key(&last), vec![Key::LeftControl, Key::B]);
}

#[test]
fn modifier_restarts_recording() {
    let last = recorded(&[Key::LeftShift, Key::LeftAlt]);
    assert_eq!(get_last_key(&last), vec![Key::LeftAlt]);
    let last = recorded(&[Key::LeftShift, Key::C, Key::LeftControl]);
    assert_eq!(get_last_key(&last), vec![Key::LeftControl]);
}

#[test]
fn key_after_chord_starts_over() {
    let last = recorded(&[Key::LeftShift, Key::C, Key::D]);
    assert_eq!(get_last_key(&last), vec![Key::D]);
}

#[test]
fn recording_never_exceeds_a_chord() {
    let seq = [
        Key::A, Key::LeftShift, Key::B, Key::C, Key::LeftAlt, Key::LeftControl, Key::F1,
        Key::Grave, Key::Other(3),
    ];
    let mut last = LastKey::new();
    for k in seq {
        last.record_key(k);
        let held = get_last_key(&last);
        assert!(held.len() <= 2);
        assert_eq!(*held.last().unwrap(), k);
        if held.len() == 2 {
            assert!(is_modifier_key(held[0]) && !is_modifier_key(held[1]));
        }
    }
}

#[test]
fn clear_empties_the_recorder() {
    let mut last = recorded(&[Key::LeftShift, Key::C]);
    clear_last_key(&mut last);
    assert_eq!(get_last_key(&last), vec![]);
}

#[test]
fn table_insert_get_remove() {
    let mut t = HotkeyTable::new();
    let boom = "boom.wav".to_string();
    let clap = "clap.wav".to_string();
    assert!(!t.contains_key(&boom));
    t.insert(boom.clone(), vec![Key::LeftShift, Key::B]);
    t.insert(clap.clone(), vec![Key::C]);
    assert!(t.contains_key(&boom));
    assert_eq!(t.get(&boom), Some(vec![Key::LeftShift, Key::B]));
    t.insert(boom.clone(), vec![Key::D]);
    assert_eq!(t.get(&boom), Some(vec![Key::D]));
    assert_eq!(t.remove(&boom), Some(vec![Key::D]));
    assert!(!t.contains_key(&boom));
    assert_eq!(t.get(&boom), None);
    assert_eq!(t.remove(&boom), None);
    assert_eq!(t.get(&clap), Some(vec![Key::C]));
}

#[test]
fn listing_holds_each_entry_once() {
    let mut t = HotkeyTable::new();
    t.insert("a".to_string(), vec![Key::A]);
    t.insert("b".to_string(), vec![Key::B]);
    t.insert("a".to_string(), vec![Key::LeftAlt, Key::A]);
    let listed = get_hotkeys_loaded_from_file(&t);
    assert_eq!(listed.len(), 2);
    let mut pairs: Vec<(String, Vec<Key>)> =
        listed.into_iter().map(|a| (a.name, a.keys)).collect();
    pairs.sort_by(|x, y| x.0.cmp(&y.0));
    assert_eq!(
        pairs,
        vec![
            ("a".to_string(), vec![Key::LeftAlt, Key::A]),
            ("b".to_string(), vec![Key::B])
        ]
    );
}

#[test]
fn toggle_name_switches_everything_else_plays() {
    assert!(is_toggle(&hotkey_action(&"toggle".to_string())));
    assert_eq!(sound_of(&hotkey_action(&"boom.wav".to_string())), Some("boom.wav".to_string()));
    assert_eq!(sound_of(&hotkey_action(&"Toggle".to_string())), Some("Toggle".to_string()));
}

#[test]
fn first_step_arms_capture() {
    let mut state = HotkeyState { assigning: false, table: HotkeyTable::new() };
    state.table.insert("boom.wav".to_string(), vec![Key::B]);
    let mut last = recorded(&[Key::LeftShift, Key::X]);
    let out = assign_hotkey(&mut state, &mut last, "boom.wav".to_string());
    assert!(state.assigning);
    assert!(out.removed.is_none());
    assert!(out.added.is_none());
    assert_eq!(get_last_key(&last), vec![]);
    assert_eq!(state.table.get(&"boom.wav".to_string()), Some(vec![Key::B]));
}

#[test]
fn second_step_binds_typed_chord() {
    let mut state = HotkeyState { assigning: false, table: HotkeyTable::new() };
    let mut last = LastKey::new();
    assign_hotkey(&mut state, &mut last, "boom.wav".to_string());
    last.record_key(Key::LeftShift);
    last.record_key(Key::B);
    let out = assign_hotkey(&mut state, &mut last, "boom.wav".to_string());
    assert!(!state.assigning);
    assert!(out.removed.is_none());
    let added = out.added.unwrap();
    assert_eq!(added.stored.name, "boom.wav");
    assert_eq!(added.stored.keys, vec![Key::LeftShift, Key::B]);
    assert_eq!(added.registration.keys, vec![Key::LeftShift, Key::B]);
    assert_eq!(sound_of(&added.registration.action), Some("boom.wav".to_string()));
    assert_eq!(
        state.table.get(&"boom.wav".to_string()),
        Some(vec![Key::LeftShift, Key::B])
    );
    assert_eq!(get_last_key(&last), vec![Key::LeftShift, Key::B]);
}

#[test]
fn alt_chord_is_stored_without_alt_but_registered_with_it() {
    let mut state = HotkeyState { assigning: true, table: HotkeyTable::new() };
    state.table.insert("toggle".to_string(), vec![Key::Grave]);
    let mut last = recorded(&[Key::LeftAlt, Key::T]);
    let out = assign_hotkey(&mut state, &mut last, "toggle".to_string());
    assert_eq!(out.removed, Some(vec![Key::Grave]));
    let added = out.added.unwrap();
    assert_eq!(added.stored.keys, vec![Key::T]);
    assert_eq!(added.registration.keys, vec![Key::LeftAlt, Key::T]);
    assert!(is_toggle(&added.registration.action));
    assert_eq!(state.table.get(&"toggle".to_string()), Some(vec![Key::T]));
}

#[test]
fn assigning_nothing_removes_the_hotkey() {
    let mut state = HotkeyState { assigning: false, table: HotkeyTable::new() };
    state.table.insert("boom.wav".to_string(), vec![Key::B]);
    state.table.insert("clap.wav".to_string(), vec![Key::C]);
    let mut last = LastKey::new();
    assign_hotkey(&mut state, &mut last, "boom.wav".to_string());
    let out = assign_hotkey(&mut state, &mut last, "boom.wav".to_string());
    assert_eq!(out.removed, Some(vec![Key::B]));
    assert!(out.added.is_none());
    assert!(!state.assigning);
    assert!(!state.table.contains_key(&"boom.wav".to_string()));
    assert_eq!(state.table.get(&"clap.wav".to_string()), Some(vec![Key::C]));
}

#[test]
fn missing_file_starts_with_no_hotkeys() {
    let t = startup_hotkeys(HotkeyFile::Missing);
    assert!(get_hotkeys_loaded_from_file(&t).is_empty());
    assert!(hotkey_registrations(&t).is_empty());
}

#[test]
fn empty_file_starts_with_grave_toggle() {
    let t = startup_hotkeys(HotkeyFile::Empty);
    assert_eq!(t.get(&"toggle".to_string()), Some(vec![Key::Grave]));
    let regs = hotkey_registrations(&t);
    assert_eq!(regs.len(), 1);
    assert_eq!(regs[0].keys, vec![Key::Grave]);
    assert!(is_toggle(&regs[0].action));
}

#[test]
fn file_contents_are_kept_and_registered() {
    let mut loaded = HotkeyTable::new();
    loaded.insert("boom.wav".to_string(), vec![Key::LeftControl, Key::B]);
    loaded.insert("toggle".to_string(), vec![Key::F9]);
    let t = startup_hotkeys(HotkeyFile::Contents(loaded));
    assert_eq!(t.get(&"boom.wav".to_string()), Some(vec![Key::LeftControl, Key::B]));
    let regs = hotkey_registrations(&t);
    let listed = get_hotkeys_loaded_from_file(&t);
    assert_eq!(regs.len(), 2);
    for (r, a) in regs.iter().zip(listed.iter()) {
        assert_eq!(r.keys, a.keys);
        if a.name == "toggle" {
            assert!(is_toggle(&r.action));
        } else {
            assert_eq!(sound_of(&r.action), Some(a.name.clone()));
        }
    }
}
