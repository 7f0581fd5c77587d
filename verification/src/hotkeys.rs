//! The table of assigned hotkeys: a sound name (or the reserved name of the
//! on/off switch) mapped to the key chord that triggers it.

use vstd::prelude::*;
use crate::keys::{Key, copy_keys};

verus! {

/// One entry of the table: the name and the keys assigned to it.
pub struct HotkeyAssignment {
    pub name: String,
    pub keys: Vec<Key>,
}

/// An entry as plain values.
pub open spec fn entry_view(a: HotkeyAssignment) -> (Seq<char>, Seq<Key>) {
    (a.name@, a.keys@)
}

/// A list of entries as plain values.
pub open spec fn entries_view(s: Seq<HotkeyAssignment>) -> Seq<(Seq<char>, Seq<Key>)> {
    s.map_values(|a: HotkeyAssignment| entry_view(a))
}

/// No name occurs twice in `p`.
pub open spec fn names_distinct(p: Seq<(Seq<char>, Seq<Key>)>) -> bool {
    forall|i: int, j: int|
        0 <= i < p.len() && 0 <= j < p.len() && i != j ==> #[trigger] p[i].0 != #[trigger] p[j].0
}

/// Some entry of `p` has the name `n`.
pub open spec fn has_name(p: Seq<(Seq<char>, Seq<Key>)>, n: Seq<char>) -> bool {
    exists|i: int| 0 <= i < p.len() && #[trigger] p[i].0 == n
}

/// The map from names to keys that a list of entries stands for.
pub open spec fn entries_map(p: Seq<(Seq<char>, Seq<Key>)>) -> Map<Seq<char>, Seq<Key>> {
    Map::new(
        |n: Seq<char>| has_name(p, n),
        |n: Seq<char>| p[choose|i: int| 0 <= i < p.len() && #[trigger] p[i].0 == n].1,
    )
}

/// In a list without repeated names, each entry is what the map holds for
/// its name.
pub proof fn lemma_entries_map_index(p: Seq<(Seq<char>, Seq<Key>)>, i: int)
    requires
        names_distinct(p),
        0 <= i < p.len(),
    ensures
        entries_map(p).dom().contains(p[i].0),
        entries_map(p)[p[i].0] == p[i].1,
{
    let n = p[i].0;
    assert(has_name(p, n));
    let j = choose|j: int| 0 <= j < p.len() && #[trigger] p[j].0 == n;
    assert(j == i);
}

/// Appending an entry under a new name inserts it into the map.
pub proof fn lemma_entries_map_push(p: Seq<(Seq<char>, Seq<Key>)>, n: Seq<char>, v: Seq<Key>)
    requires
        names_distinct(p),
        !has_name(p, n),
    ensures
        names_distinct(p.push((n, v))),
        entries_map(p.push((n, v))) == entries_map(p).insert(n, v),
{
    let q = p.push((n, v));
    assert forall|i: int, j: int|
        0 <= i < q.len() && 0 <= j < q.len() && i != j implies #[trigger] q[i].0 != #[trigger] q[j].0 by {
        if i < p.len() && j < p.len() {
            assert(q[i] == p[i] && q[j] == p[j]);
        } else if i < p.len() {
            assert(q[i] == p[i]);
        } else {
            assert(q[j] == p[j]);
        }
    }
    assert forall|m: Seq<char>| #[trigger] has_name(q, m) == (has_name(p, m) || m == n) by {
        if has_name(p, m) {
            let k = choose|k: int| 0 <= k < p.len() && #[trigger] p[k].0 == m;
            assert(q[k] == p[k]);
        }
        if m == n {
            assert(q[p.len() as int].0 == n);
        }
        if has_name(q, m) && m != n {
            let k = choose|k: int| 0 <= k < q.len() && #[trigger] q[k].0 == m;
            assert(q[k] == p[k]);
        }
    }
    assert forall|m: Seq<char>| #[trigger] entries_map(q).dom().contains(m) implies entries_map(q)[m]
        == entries_map(p).insert(n, v)[m] by {
        let k = choose|k: int| 0 <= k < q.len() && #[trigger] q[k].0 == m;
        lemma_entries_map_index(q, k);
        if m != n {
            assert(q[k] == p[k]);
            lemma_entries_map_index(p, k);
        }
    }
    assert(entries_map(q) =~= entries_map(p).insert(n, v));
}

/// Replacing the keys of an entry replaces them in the map.
pub proof fn lemma_entries_map_update(p: Seq<(Seq<char>, Seq<Key>)>, i: int, v: Seq<Key>)
    requires
        names_distinct(p),
        0 <= i < p.len(),
    ensures
        names_distinct(p.update(i, (p[i].0, v))),
        entries_map(p.update(i, (p[i].0, v))) == entries_map(p).insert(p[i].0, v),
{
    let n = p[i].0;
    let q = p.update(i, (n, v));
    assert forall|a: int, b: int|
        0 <= a < q.len() && 0 <= b < q.len() && a != b implies #[trigger] q[a].0 != #[trigger] q[b].0 by {
        assert(q[a].0 == p[a].0 && q[b].0 == p[b].0);
    }
    assert forall|m: Seq<char>| #[trigger] has_name(q, m) == has_name(p, m) by {
        if has_name(p, m) {
            let k = choose|k: int| 0 <= k < p.len() && #[trigger] p[k].0 == m;
            assert(q[k].0 == p[k].0);
        }
        if has_name(q, m) {
            let k = choose|k: int| 0 <= k < q.len() && #[trigger] q[k].0 == m;
            assert(q[k].0 == p[k].0);
        }
    }
    lemma_entries_map_index(p, i);
    assert forall|m: Seq<char>| #[trigger] entries_map(q).dom().contains(m) implies entries_map(q)[m]
        == entries_map(p).insert(n, v)[m] by {
        let k = choose|k: int| 0 <= k < q.len() && #[trigger] q[k].0 == m;
        lemma_entries_map_index(q, k);
        if k != i {
            assert(q[k] == p[k]);
            lemma_entries_map_index(p, k);
        }
    }
    assert(entries_map(q) =~= entries_map(p).insert(n, v));
}

/// Dropping an entry removes its name from the map.
pub proof fn lemma_entries_map_remove(p: Seq<(Seq<char>, Seq<Key>)>, i: int)
    requires
        names_distinct(p),
        0 <= i < p.len(),
    ensures
        names_distinct(p.remove(i)),
        entries_map(p.remove(i)) == entries_map(p).remove(p[i].0),
{
    let n = p[i].0;
    let q = p.remove(i);
    assert forall|k: int| 0 <= k < q.len() implies #[trigger] q[k] == p[if k < i { k } else { k + 1 }] by {}
    assert forall|a: int, b: int|
        0 <= a < q.len() && 0 <= b < q.len() && a != b implies #[trigger] q[a].0 != #[trigger] q[b].0 by {
        let a2 = if a < i { a } else { a + 1 };
        let b2 = if b < i { b } else { b + 1 };
        assert(q[a] == p[a2] && q[b] == p[b2]);
    }
    assert forall|m: Seq<char>| #[trigger] has_name(q, m) == (has_name(p, m) && m != n) by {
        if has_name(p, m) && m != n {
            let k = choose|k: int| 0 <= k < p.len() && #[trigger] p[k].0 == m;
            assert(k != i);
            let k2 = if k < i { k } else { k - 1 };
            assert(q[k2] == p[k]);
        }
        if has_name(q, m) {
            let k = choose|k: int| 0 <= k < q.len() && #[trigger] q[k].0 == m;
            let k2 = if k < i { k } else { k + 1 };
            assert(q[k] == p[k2]);
        }
    }
    assert forall|m: Seq<char>| #[trigger] entries_map(q).dom().contains(m) implies entries_map(q)[m]
        == entries_map(p).remove(n)[m] by {
        let k = choose|k: int| 0 <= k < q.len() && #[trigger] q[k].0 == m;
        lemma_entries_map_index(q, k);
        let k2 = if k < i { k } else { k + 1 };
        assert(q[k] == p[k2]);
        lemma_entries_map_index(p, k2);
    }
    assert(entries_map(q) =~= entries_map(p).remove(n));
}

/// The hotkey table.
pub struct HotkeyTable {
    entries: Vec<HotkeyAssignment>,
}

impl View for HotkeyTable {
    type V = Map<Seq<char>, Seq<Key>>;

    closed spec fn view(&self) -> Map<Seq<char>, Seq<Key>> {
        entries_map(entries_view(self.entries@))
    }
}

impl HotkeyTable {
    #[verifier::type_invariant]
    spec fn well_formed(self) -> bool {
        names_distinct(entries_view(self.entries@))
    }

    /// The entries in the order the table keeps them.
    pub closed spec fn entries_spec(self) -> Seq<(Seq<char>, Seq<Key>)> {
        entries_view(self.entries@)
    }

    /// An empty table.
    pub fn new() -> (r: HotkeyTable)
        ensures
            r@ == Map::<Seq<char>, Seq<Key>>::empty(),
    {
        let r = HotkeyTable { entries: Vec::new() };
        assert(r@ =~= Map::<Seq<char>, Seq<Key>>::empty());
        r
    }

    /// The position of the entry named `name`, if there is one.
    fn find(&self, name: &String) -> (r: Option<usize>)
        ensures
            match r {
                Some(i) => i < self.entries@.len() && self.entries@[i as int].name@ == name@,
                None => !has_name(entries_view(self.entries@), name@),
            },
    {
        let n = self.entries.len();
        for i in 0..n
            invariant
                n == self.entries@.len(),
                forall|j: int| 0 <= j < i ==> #[trigger] self.entries@[j].name@ != name@,
        {
            if self.entries[i].name == *name {
                return Some(i);
            }
        }
        assert forall|j: int| 0 <= j < entries_view(self.entries@).len()
            implies #[trigger] entries_view(self.entries@)[j].0 != name@ by {
            assert(entries_view(self.entries@)[j] == entry_view(self.entries@[j]));
        }
        None
    }

    /// Whether a hotkey is assigned to `name`.
    pub fn contains_key(&self, name: &String) -> (r: bool)
        ensures
            r == self@.dom().contains(name@),
    {
        proof {
            use_type_invariant(self);
        }
        match self.find(name) {
            Some(i) => {
                proof {
                    assert(entries_view(self.entries@)[i as int] == entry_view(self.entries@[i as int]));
                    lemma_entries_map_index(entries_view(self.entries@), i as int);
                }
                true
            },
            None => false,
        }
    }

    /// The keys assigned to `name`.
    pub fn get(&self, name: &String) -> (r: Option<Vec<Key>>)
        ensures
            match r {
                Some(keys) => self@.dom().contains(name@) && keys@ == self@[name@],
                None => !self@.dom().contains(name@),
            },
    {
        proof {
            use_type_invariant(self);
        }
        match self.find(name) {
            Some(i) => {
                proof {
                    assert(entries_view(self.entries@)[i as int] == entry_view(self.entries@[i as int]));
                    lemma_entries_map_index(entries_view(self.entries@), i as int);
                }
                Some(copy_keys(&self.entries[i].keys))
            },
            None => None,
        }
    }

    /// Assigns `keys` to `name`, in place of what `name` had.
    pub fn insert(&mut self, name: String, keys: Vec<Key>)
        ensures
            final(self)@ == old(self)@.insert(name@, keys@),
    {
        proof {
            use_type_invariant(&*self);
        }
        let ghost p = entries_view(self.entries@);
        let ghost n = name@;
        let ghost v = keys@;
        match self.find(&name) {
            Some(i) => {
                proof {
                    assert(p[i as int] == entry_view(self.entries@[i as int]));
                    lemma_entries_map_update(p, i as int, v);
                }
                let mut entries: Vec<HotkeyAssignment> = Vec::new();
                std::mem::swap(&mut entries, &mut self.entries);
                entries.set(i, HotkeyAssignment { name, keys });
                assert(entries_view(entries@) =~= p.update(i as int, (p[i as int].0, v)));
                self.entries = entries;
            },
            None => {
                proof {
                    lemma_entries_map_push(p, n, v);
                }
                let mut entries: Vec<HotkeyAssignment> = Vec::new();
                std::mem::swap(&mut entries, &mut self.entries);
                entries.push(HotkeyAssignment { name, keys });
                assert(entries_view(entries@) =~= p.push((n, v)));
                self.entries = entries;
            },
        }
    }

    /// Takes the assignment of `name` out of the table and hands back its keys.
    pub fn remove(&mut self, name: &String) -> (r: Option<Vec<Key>>)
        ensures
            final(self)@ == old(self)@.remove(name@),
            match r {
                Some(keys) => old(self)@.dom().contains(name@) && keys@ == old(self)@[name@],
                None => !old(self)@.dom().contains(name@),
            },
    {
        proof {
            use_type_invariant(&*self);
        }
        let ghost p = entries_view(self.entries@);
        match self.find(name) {
            Some(i) => {
                proof {
                    assert(p[i as int] == entry_view(self.entries@[i as int]));
                    lemma_entries_map_index(p, i as int);
                    lemma_entries_map_remove(p, i as int);
                }
                let mut entries: Vec<HotkeyAssignment> = Vec::new();
                std::mem::swap(&mut entries, &mut self.entries);
                let removed = entries.remove(i);
                assert(entries_view(entries@) =~= p.remove(i as int));
                self.entries = entries;
                Some(removed.keys)
            },
            None => {
                assert(self@.remove(name@) =~= self@);
                None
            },
        }
    }
}

/// Every assignment of the table, each name once, in the order the table
/// keeps them.
pub fn get_hotkeys_loaded_from_file(table: &HotkeyTable) -> (r: Vec<HotkeyAssignment>)
    ensures
        entries_view(r@) == table.entries_spec(),
        names_distinct(entries_view(r@)),
        entries_map(entries_view(r@)) == table@,
{
    proof {
        use_type_invariant(table);
    }
    let mut r: Vec<HotkeyAssignment> = Vec::new();
    let n = table.entries.len();
    for i in 0..n
        invariant
            n == table.entries@.len(),
            entries_view(r@) =~= entries_view(table.entries@).take(i as int),
    {
        let e = &table.entries[i];
        let a = HotkeyAssignment { name: e.name.clone(), keys: copy_keys(&e.keys) };
        let ghost before = r@;
        r.push(a);
        assert(entries_view(r@) =~= entries_view(before).push(entry_view(a)));
        assert(entry_view(a) == entries_view(table.entries@)[i as int]);
        assert(entries_view(table.entries@).take(i + 1) =~= entries_view(table.entries@).take(
            i as int,
        ).push(entries_view(table.entries@)[i as int]));
    }
    assert(entries_view(table.entries@).take(n as int) =~= entries_view(table.entries@));
    r
}

} // verus!
