//! Hotkey assignment: the two-step protocol by which the user arms capture,
//! types a chord, and has it bound to a sound (or to the on/off switch), and
//! the table that the application starts with.

use vstd::prelude::*;
use crate::keys::{Key, copy_keys, is_modifier};
use crate::last_key::{LastKey, get_last_key, clear_last_key, next_keys};
use crate::hotkeys::{HotkeyAssignment, HotkeyTable, entries_view, entries_map, names_distinct};

verus! {

/// What a hotkey does when its chord is typed.
pub enum HotkeyAction {
    /// Switches the soundboard on or off.
    ToggleActive,
    /// Plays the sound file of that name.
    PlaySound(String),
}

/// The reserved name of the on/off switch.
pub open spec fn toggle_name() -> Seq<char> {
    "toggle"@
}

/// `a` is the action that a hotkey named `name` performs: the switch for the
/// reserved name, the sound of that name for any other.
pub open spec fn action_for(a: HotkeyAction, name: Seq<char>) -> bool {
    match a {
        HotkeyAction::ToggleActive => name == toggle_name(),
        HotkeyAction::PlaySound(s) => name != toggle_name() && s@ == name,
    }
}

/// The action of a hotkey named `name`.
pub fn hotkey_action(name: &String) -> (r: HotkeyAction)
    ensures
        action_for(r, name@),
{
    let toggle = "toggle".to_owned();
    if *name == toggle {
        HotkeyAction::ToggleActive
    } else {
        HotkeyAction::PlaySound(name.clone())
    }
}

/// `i` is the position of the first left Alt in `s`.
pub open spec fn is_first_left_alt(s: Seq<Key>, i: int) -> bool {
    &&& 0 <= i < s.len()
    &&& s[i] == Key::LeftAlt
    &&& forall|j: int| 0 <= j < i ==> s[j] != Key::LeftAlt
}

/// `s` with its first left Alt taken out, if it has one: the keys a chord is
/// stored under.
pub open spec fn without_left_alt(s: Seq<Key>) -> Seq<Key> {
    if exists|i: int| is_first_left_alt(s, i) {
        s.remove(choose|i: int| is_first_left_alt(s, i))
    } else {
        s
    }
}

/// A copy of `keys` with its first left Alt taken out.
fn drop_left_alt(keys: &Vec<Key>) -> (r: Vec<Key>)
    ensures
        r@ == without_left_alt(keys@),
{
    let mut r = copy_keys(keys);
    let n = r.len();
    for i in 0..n
        invariant
            n == keys@.len(),
            r@ == keys@,
            forall|j: int| 0 <= j < i ==> keys@[j] != Key::LeftAlt,
    {
        if r[i] == Key::LeftAlt {
            proof {
                assert(is_first_left_alt(keys@, i as int));
                let c = choose|c: int| is_first_left_alt(keys@, c);
                assert(c == i);
            }
            r.remove(i);
            return r;
        }
    }
    r
}

/// The capture switch, table and recording after an assignment step for
/// `name`, from the capture switch `assigning`, the table `table` and the
/// recording `last`.
pub open spec fn assign_result(
    assigning: bool,
    table: Map<Seq<char>, Seq<Key>>,
    last: Seq<Key>,
    name: Seq<char>,
) -> (bool, Map<Seq<char>, Seq<Key>>, Seq<Key>) {
    if !assigning {
        (true, table, Seq::empty())
    } else if last.len() == 0 {
        (false, table.remove(name), last)
    } else {
        (false, table.insert(name, without_left_alt(last)), last)
    }
}

/// Arming capture, typing a chord key and then another key, and assigning
/// binds `name` to the chord, without the Alt key if that started it; no
/// other name changes, and capture ends switched off.
pub proof fn lemma_arm_type_assign(
    table: Map<Seq<char>, Seq<Key>>,
    last: Seq<Key>,
    name: Seq<char>,
    chord: Key,
    key: Key,
)
    requires
        is_modifier(chord),
        !is_modifier(key),
    ensures
        ({
            let armed = assign_result(false, table, last, name);
            let typed = next_keys(next_keys(armed.2, chord), key);
            let done = assign_result(armed.0, armed.1, typed, name);
            &&& armed.0
            &&& armed.1 == table
            &&& typed == seq![chord, key]
            &&& !done.0
            &&& done.1 == table.insert(
                name,
                if chord == Key::LeftAlt {
                    seq![key]
                } else {
                    seq![chord, key]
                },
            )
        }),
{
    let typed = seq![chord, key];
    assert(next_keys(next_keys(Seq::empty(), chord), key) =~= typed);
    if chord == Key::LeftAlt {
        assert(is_first_left_alt(typed, 0));
        let c = choose|c: int| is_first_left_alt(typed, c);
        assert(c == 0);
        assert(typed.remove(0) =~= seq![key]);
    } else {
        assert(!exists|i: int| is_first_left_alt(typed, i)) by {
            assert forall|i: int| !is_first_left_alt(typed, i) by {
                if 0 <= i < 2 {
                    assert(typed[i] != Key::LeftAlt);
                }
            }
        }
    }
}

/// Arming capture and assigning without typing anything in between takes
/// the hotkey of `name` away and leaves every other name as it was.
pub proof fn lemma_arm_assign_clears(
    table: Map<Seq<char>, Seq<Key>>,
    last: Seq<Key>,
    name: Seq<char>,
)
    ensures
        ({
            let armed = assign_result(false, table, last, name);
            let done = assign_result(armed.0, armed.1, armed.2, name);
            &&& !done.0
            &&& done.1 == table.remove(name)
        }),
{
}

/// A chord to hand to the input hook, with what it triggers.
pub struct Registration {
    pub keys: Vec<Key>,
    pub action: HotkeyAction,
}

/// A hotkey that an assignment created: the entry that went into the table
/// (and is announced), and the chord to register.
pub struct NewHotkey {
    pub stored: HotkeyAssignment,
    pub registration: Registration,
}

/// What the application does after an assignment step, in this order:
/// unregister the keys in `removed` and announce that the name lost its
/// hotkey; then announce `added` and register its chord.
pub struct AssignOutcome {
    pub removed: Option<Vec<Key>>,
    pub added: Option<NewHotkey>,
}

/// The hotkey table with the capture switch: `assigning` is on between the
/// step that arms capture and the step that binds the captured chord.
pub struct HotkeyState {
    pub assigning: bool,
    pub table: HotkeyTable,
}

/// One step of the assignment protocol for `name`.
///
/// When capture is off, it clears the recorder and turns capture on; nothing
/// else changes. When capture is on, it turns it off, takes any hotkey of
/// `name` out of the table, and, if a chord was typed meanwhile, assigns it to
/// `name`: the table keeps the chord without its first left Alt, while the
/// chord as typed is the one registered.
pub fn assign_hotkey(state: &mut HotkeyState, last_key: &mut LastKey, name: String) -> (out:
    AssignOutcome)
    ensures
        (final(state).assigning, final(state).table@, final(last_key)@) == assign_result(
            old(state).assigning,
            old(state).table@,
            old(last_key)@,
            name@,
        ),
        !old(state).assigning ==> {
            &&& final(last_key)@ == Seq::<Key>::empty()
            &&& final(state).assigning
            &&& final(state).table@ == old(state).table@
            &&& out.removed is None
            &&& out.added is None
        },
        old(state).assigning ==> {
            &&& final(last_key)@ == old(last_key)@
            &&& !final(state).assigning
            &&& (out.removed is Some) == old(state).table@.dom().contains(name@)
            &&& (out.removed matches Some(k) ==> k@ == old(state).table@[name@])
            &&& (old(last_key)@.len() == 0 ==> {
                &&& final(state).table@ == old(state).table@.remove(name@)
                &&& out.added is None
            })
            &&& (old(last_key)@.len() > 0 ==> {
                &&& final(state).table@ == old(state).table@.insert(
                    name@,
                    without_left_alt(old(last_key)@),
                )
                &&& out.added matches Some(h) && {
                    &&& h.stored.name@ == name@
                    &&& h.stored.keys@ == without_left_alt(old(last_key)@)
                    &&& h.registration.keys@ == old(last_key)@
                    &&& action_for(h.registration.action, name@)
                }
            })
        },
{
    let prev = get_last_key(last_key);
    if !state.assigning {
        clear_last_key(last_key);
        state.assigning = true;
        return AssignOutcome { removed: None, added: None };
    }
    let removed = state.table.remove(&name);
    state.assigning = false;
    if prev.len() == 0 {
        return AssignOutcome { removed, added: None };
    }
    let stored = drop_left_alt(&prev);
    let action = hotkey_action(&name);
    state.table.insert(name.clone(), copy_keys(&stored));
    proof {
        assert(state.table@ =~= old(state).table@.insert(name@, without_left_alt(prev@)));
    }
    AssignOutcome {
        removed,
        added: Some(
            NewHotkey {
                stored: HotkeyAssignment { name, keys: stored },
                registration: Registration { keys: prev, action },
            },
        ),
    }
}

/// What the application finds where it keeps the hotkeys between runs.
pub enum HotkeyFile {
    /// There is no such file.
    Missing,
    /// The file is there but holds nothing.
    Empty,
    /// The file holds this table.
    Contents(HotkeyTable),
}

/// The table a first run starts with: the on/off switch on the grave key.
pub open spec fn default_table() -> Map<Seq<char>, Seq<Key>> {
    Map::<Seq<char>, Seq<Key>>::empty().insert(toggle_name(), seq![Key::Grave])
}

/// In a table that stands for the default table, the on/off switch on the
/// grave key is the only entry: it is what a first run registers.
pub proof fn lemma_default_entries(p: Seq<(Seq<char>, Seq<Key>)>)
    requires
        names_distinct(p),
        entries_map(p) == default_table(),
    ensures
        p == seq![(toggle_name(), seq![Key::Grave])],
{
    assert(entries_map(p).dom().contains(toggle_name()));
    let k = choose|k: int| 0 <= k < p.len() && #[trigger] p[k].0 == toggle_name();
    crate::hotkeys::lemma_entries_map_index(p, k);
    assert forall|j: int| 0 <= j < p.len() implies #[trigger] p[j] == p[k] && j == k by {
        crate::hotkeys::lemma_entries_map_index(p, j);
        assert(p[j].0 == toggle_name());
    }
    if p.len() > 1 {
        assert(p[0] == p[k]);
        assert(p[1] == p[k]);
    }
    assert(p.len() == 1);
    assert(p =~= seq![(toggle_name(), seq![Key::Grave])]);
}

/// The hotkey table the application starts with.
pub fn startup_hotkeys(file: HotkeyFile) -> (r: HotkeyTable)
    ensures
        match file {
            HotkeyFile::Missing => r@ == Map::<Seq<char>, Seq<Key>>::empty(),
            HotkeyFile::Empty => r@ == default_table(),
            HotkeyFile::Contents(t) => r@ == t@,
        },
{
    match file {
        HotkeyFile::Missing => HotkeyTable::new(),
        HotkeyFile::Empty => {
            let mut t = HotkeyTable::new();
            let mut keys: Vec<Key> = Vec::new();
            keys.push(Key::Grave);
            t.insert("toggle".to_owned(), keys);
            assert(t@ =~= default_table());
            t
        },
        HotkeyFile::Contents(t) => t,
    }
}

/// The chords to register for a table: one per entry, in the table's order,
/// each with the action its name calls for.
pub fn hotkey_registrations(table: &HotkeyTable) -> (r: Vec<Registration>)
    ensures
        r@.len() == table.entries_spec().len(),
        forall|i: int|
            0 <= i < r@.len() ==> {
                &&& #[trigger] r@[i].keys@ == table.entries_spec()[i].1
                &&& action_for(r@[i].action, table.entries_spec()[i].0)
            },
{
    let entries = crate::hotkeys::get_hotkeys_loaded_from_file(table);
    let mut r: Vec<Registration> = Vec::new();
    let n = entries.len();
    let mut k: usize = 0;
    while k < n
        invariant
            n == entries@.len(),
            k <= n,
            entries_view(entries@) == table.entries_spec(),
            r@.len() == k,
            forall|j: int|
                0 <= j < k ==> {
                    &&& #[trigger] r@[j].keys@ == table.entries_spec()[j].1
                    &&& action_for(r@[j].action, table.entries_spec()[j].0)
                },
        decreases n - k,
    {
        let e = &entries[k];
        proof {
            assert(entries_view(entries@)[k as int] == (e.name@, e.keys@));
        }
        let action = hotkey_action(&e.name);
        let ghost before = r@;
        r.push(Registration { keys: copy_keys(&e.keys), action });
        assert forall|j: int| 0 <= j < k + 1 implies {
            &&& #[trigger] r@[j].keys@ == table.entries_spec()[j].1
            &&& action_for(r@[j].action, table.entries_spec()[j].0)
        } by {
            if j < k {
                assert(r@[j] == before[j]);
            }
        }
        k = k + 1;
    }
    r
}

} // verus!
