//! The recorder behind hotkey capture: it remembers the most recent chord
//! that was typed, so that an assignment can pick it up.

use vstd::prelude::*;
use crate::keys::{Key, copy_keys, is_modifier, is_modifier_key};

verus! {

/// What the recorder holds after `k` is pressed when it held `s`: a chord key
/// starts over with itself alone; any other key is appended to a pending
/// chord key, and otherwise replaces what was held.
pub open spec fn next_keys(s: Seq<Key>, k: Key) -> Seq<Key> {
    if is_modifier(k) {
        seq![k]
    } else if s.len() > 0 && !is_modifier(s.last()) {
        seq![k]
    } else {
        s.push(k)
    }
}

/// The shape of every recording: at most two keys, and two only as a chord
/// key followed by a key that is none.
pub open spec fn chord_shape(s: Seq<Key>) -> bool {
    &&& s.len() <= 2
    &&& s.len() == 2 ==> is_modifier(s[0]) && !is_modifier(s[1])
}

/// Pressing any key keeps a recording in the chord shape, and the key just
/// pressed is always the last one held.
pub proof fn lemma_record_keeps_shape(s: Seq<Key>, k: Key)
    requires
        chord_shape(s),
    ensures
        chord_shape(next_keys(s, k)),
        next_keys(s, k).last() == k,
        next_keys(s, k).len() >= 1,
{
}

/// Typing a chord key and then another key records exactly that chord,
/// whatever was held before.
pub proof fn lemma_chord_capture(s: Seq<Key>, chord: Key, key: Key)
    requires
        is_modifier(chord),
        !is_modifier(key),
    ensures
        next_keys(next_keys(s, chord), key) == seq![chord, key],
{
    assert(next_keys(next_keys(s, chord), key) =~= seq![chord, key]);
}

/// Pressing two keys of which neither is left Shift, left Control or left
/// Alt leaves only the second recorded, whatever was held before: a right
/// Control, say, followed by B records B alone.
pub proof fn lemma_plain_key_replaces(s: Seq<Key>, first: Key, second: Key)
    requires
        first != Key::LeftShift && first != Key::LeftControl && first != Key::LeftAlt,
        second != Key::LeftShift && second != Key::LeftControl && second != Key::LeftAlt,
    ensures
        next_keys(next_keys(s, first), second) == seq![second],
{
    assert(next_keys(s, first).last() == first);
}

/// Pressing left Shift, left Control or left Alt and then a key that is none
/// of the three records exactly those two keys, whatever was held before.
pub proof fn lemma_left_chord_recorded(s: Seq<Key>, chord: Key, key: Key)
    requires
        chord == Key::LeftShift || chord == Key::LeftControl || chord == Key::LeftAlt,
        key != Key::LeftShift && key != Key::LeftControl && key != Key::LeftAlt,
    ensures
        next_keys(next_keys(s, chord), key) == seq![chord, key],
{
    assert(next_keys(next_keys(s, chord), key) =~= seq![chord, key]);
}

/// The most recently typed chord.
pub struct LastKey {
    keys: Vec<Key>,
}

impl View for LastKey {
    type V = Seq<Key>;

    closed spec fn view(&self) -> Seq<Key> {
        self.keys@
    }
}

impl LastKey {
    #[verifier::type_invariant]
    spec fn well_formed(self) -> bool {
        chord_shape(self.keys@)
    }

    /// A recorder that holds nothing.
    pub fn new() -> (r: LastKey)
        ensures
            r@ == Seq::<Key>::empty(),
            chord_shape(r@),
    {
        LastKey { keys: Vec::new() }
    }

    /// Records a key press.
    pub fn record_key(&mut self, key: Key)
        ensures
            final(self)@ == next_keys(old(self)@, key),
            chord_shape(final(self)@),
    {
        proof {
            use_type_invariant(&*self);
        }
        let n = self.keys.len();
        let mut next: Vec<Key> = Vec::new();
        if is_modifier_key(key) {
            next.push(key);
        } else if n > 0 && !is_modifier_key(self.keys[n - 1]) {
            next.push(key);
        } else {
            if n > 0 {
                next.push(self.keys[0]);
            }
            if n > 1 {
                next.push(self.keys[1]);
            }
            next.push(key);
            assert(next@ =~= self.keys@.push(key));
        }
        self.keys = next;
    }
}

/// A copy of the chord that was last typed.
pub fn get_last_key(last_key: &LastKey) -> (r: Vec<Key>)
    ensures
        r@ == last_key@,
        chord_shape(r@),
{
    proof {
        use_type_invariant(last_key);
    }
    copy_keys(&last_key.keys)
}

/// Forgets the chord that was last typed.
pub fn clear_last_key(last_key: &mut LastKey)
    ensures
        final(last_key)@ == Seq::<Key>::empty(),
{
    last_key.keys = Vec::new();
}

} // verus!
