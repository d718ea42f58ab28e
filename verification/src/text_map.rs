//! Maps from texts, walked in the order of their keys.

use vstd::prelude::*;

use crate::chars::same;
use crate::order::{
    comes_before, lemma_precedes_total, lemma_precedes_transitive, precedes,
};

verus! {

/// A map from texts to values, kept in the order of its keys.
#[derive(Debug)]
pub struct TextMap<V> {
    entries: Vec<(String, V)>,
}

/// Whether each key comes before every later one.
pub open spec fn keys_ascend<V>(entries: Seq<(Seq<char>, V)>) -> bool {
    forall|i: int, j: int|
        0 <= i < j < entries.len() ==> precedes(#[trigger] entries[i].0, #[trigger] entries[j].0)
}

/// The index of the first entry whose key does not come before `key`.
pub open spec fn place_of<V>(entries: Seq<(Seq<char>, V)>, key: Seq<char>) -> int
    decreases entries.len(),
{
    if entries.len() == 0 || !precedes(entries[0].0, key) {
        0
    } else {
        1 + place_of(entries.drop_first(), key)
    }
}

/// The value of a key.
pub open spec fn lookup<V>(entries: Seq<(Seq<char>, V)>, key: Seq<char>) -> Option<V> {
    let i = place_of(entries, key);
    if 0 <= i < entries.len() && entries[i].0 == key {
        Some(entries[i].1)
    } else {
        None
    }
}

/// The entries with a new value for a key.
pub open spec fn with_value<V>(
    entries: Seq<(Seq<char>, V)>,
    key: Seq<char>,
    value: V,
) -> Seq<(Seq<char>, V)> {
    let i = place_of(entries, key);
    if i < entries.len() && entries[i].0 == key {
        entries.update(i, (key, value))
    } else {
        entries.insert(i, (key, value))
    }
}

/// Where the place of a key lies.
pub proof fn lemma_place_of<V>(entries: Seq<(Seq<char>, V)>, key: Seq<char>)
    ensures
        0 <= place_of(entries, key) <= entries.len(),
        place_of(entries, key) < entries.len() ==> !precedes(
            entries[place_of(entries, key)].0,
            key,
        ),
        forall|k: int| 0 <= k < place_of(entries, key) ==> precedes(#[trigger] entries[k].0, key),
    decreases entries.len(),
{
    if entries.len() > 0 && precedes(entries[0].0, key) {
        let rest = entries.drop_first();
        lemma_place_of(rest, key);
        assert forall|k: int| 0 <= k < place_of(entries, key) implies precedes(
            #[trigger] entries[k].0,
            key,
        ) by {
            if k > 0 {
                assert(entries[k] == rest[k - 1]);
            }
        }
    }
}

/// An entry is found under its key.
pub proof fn lemma_entry_is_found<V>(entries: Seq<(Seq<char>, V)>, i: int)
    requires
        keys_ascend(entries),
        0 <= i < entries.len(),
    ensures
        place_of(entries, entries[i].0) == i,
{
    let key = entries[i].0;
    let at = place_of(entries, key);
    lemma_place_of(entries, key);
    lemma_precedes_total(key, key);
    if at < i {
        assert(precedes(entries[at].0, entries[i].0));
    } else if at > i {
        assert(precedes(entries[i].0, key));
    }
}

/// A value that is given to a key is found under it, the other keys keep theirs, and the keys stay
/// in order.
pub proof fn law_value_is_found<V>(
    entries: Seq<(Seq<char>, V)>,
    key: Seq<char>,
    value: V,
    other: Seq<char>,
)
    requires
        keys_ascend(entries),
    ensures
        keys_ascend(with_value(entries, key, value)),
        lookup(with_value(entries, key, value), key) == Some(value),
        other != key ==> lookup(with_value(entries, key, value), other) == lookup(entries, other),
{
    let after = with_value(entries, key, value);
    let at = place_of(entries, key);
    lemma_place_of(entries, key);
    let found = at < entries.len() && entries[at].0 == key;
    if at < entries.len() {
        lemma_precedes_total(entries[at].0, key);
    }
    assert forall|i: int, j: int| 0 <= i < j < after.len() implies precedes(
        #[trigger] after[i].0,
        #[trigger] after[j].0,
    ) by {
        if found {
            assert(after[i].0 == entries[i].0);
            assert(after[j].0 == entries[j].0);
        } else if j < at {
            assert(after[i] == entries[i]);
            assert(after[j] == entries[j]);
        } else if j == at {
            assert(after[i] == entries[i]);
        } else if i < at {
            assert(after[i] == entries[i]);
            assert(after[j] == entries[j - 1]);
            if j - 1 > at {
                assert(precedes(entries[i].0, entries[j - 1].0));
            } else {
                lemma_precedes_transitive(entries[i].0, key, entries[at].0);
            }
        } else if i == at {
            assert(after[j] == entries[j - 1]);
            if j - 1 > at {
                assert(precedes(entries[at].0, entries[j - 1].0));
                lemma_precedes_transitive(key, entries[at].0, entries[j - 1].0);
            }
        } else {
            assert(after[i] == entries[i - 1]);
            assert(after[j] == entries[j - 1]);
        }
    }
    assert(after[at] == (key, value));
    lemma_entry_is_found(after, at);
    if other != key {
        let i = place_of(entries, other);
        let j = place_of(after, other);
        lemma_place_of(entries, other);
        lemma_place_of(after, other);
        if i < entries.len() && entries[i].0 == other {
            let moved = if found || i < at {
                i
            } else {
                i + 1
            };
            assert(after[moved] == entries[i]);
            lemma_entry_is_found(after, moved);
        } else if j < after.len() && after[j].0 == other {
            let moved = if found || j < at {
                j
            } else {
                j - 1
            };
            assert(j != at);
            assert(entries[moved] == after[j]);
            lemma_entry_is_found(entries, moved);
        }
    }
}

/// The entries without a key.
pub open spec fn without<V>(entries: Seq<(Seq<char>, V)>, key: Seq<char>) -> Seq<(Seq<char>, V)> {
    let i = place_of(entries, key);
    if i < entries.len() && entries[i].0 == key {
        entries.remove(i)
    } else {
        entries
    }
}

/// A key that is removed has no value, the other keys keep theirs, and the keys stay in order.
pub proof fn law_removed_key_is_gone<V>(
    entries: Seq<(Seq<char>, V)>,
    key: Seq<char>,
    other: Seq<char>,
)
    requires
        keys_ascend(entries),
    ensures
        keys_ascend(without(entries, key)),
        lookup(without(entries, key), key) is None,
        other != key ==> lookup(without(entries, key), other) == lookup(entries, other),
{
    let after = without(entries, key);
    let at = place_of(entries, key);
    lemma_place_of(entries, key);
    let found = at < entries.len() && entries[at].0 == key;
    if at < entries.len() {
        lemma_precedes_total(entries[at].0, key);
    }
    assert forall|i: int, j: int| 0 <= i < j < after.len() implies precedes(
        #[trigger] after[i].0,
        #[trigger] after[j].0,
    ) by {
        if found {
            let x = if i < at {
                i
            } else {
                i + 1
            };
            let y = if j < at {
                j
            } else {
                j + 1
            };
            assert(after[i] == entries[x]);
            assert(after[j] == entries[y]);
        }
    }
    let k = place_of(after, key);
    lemma_place_of(after, key);
    if found && k < after.len() && after[k].0 == key {
        let x = if k < at {
            k
        } else {
            k + 1
        };
        assert(after[k] == entries[x]);
        lemma_entry_is_found(entries, x);
    }
    if other != key {
        let i = place_of(entries, other);
        let j = place_of(after, other);
        lemma_place_of(entries, other);
        lemma_place_of(after, other);
        if i < entries.len() && entries[i].0 == other {
            let moved = if !found || i < at {
                i
            } else {
                i - 1
            };
            assert(after[moved] == entries[i]);
            lemma_entry_is_found(after, moved);
        } else if j < after.len() && after[j].0 == other {
            let moved = if !found || j < at {
                j
            } else {
                j + 1
            };
            assert(entries[moved] == after[j]);
            lemma_entry_is_found(entries, moved);
        }
    }
}

/// The entries with something made of each value.
pub open spec fn mapped<V, W>(entries: Seq<(Seq<char>, V)>, f: spec_fn(V) -> W) -> Seq<
    (Seq<char>, W),
> {
    Seq::new(entries.len(), |i: int| (entries[i].0, f(entries[i].1)))
}

/// What is made of each value follows what happens to the values.
pub proof fn lemma_mapped<V, W>(
    entries: Seq<(Seq<char>, V)>,
    f: spec_fn(V) -> W,
    key: Seq<char>,
    value: V,
)
    ensures
        place_of(mapped(entries, f), key) == place_of(entries, key),
        mapped(with_value(entries, key, value), f) == with_value(
            mapped(entries, f),
            key,
            f(value),
        ),
        mapped(without(entries, key), f) == without(mapped(entries, f), key),
        lookup(mapped(entries, f), key) == (match lookup(entries, key) {
            Some(value) => Some(f(value)),
            None => None,
        }),
        keys_ascend(mapped(entries, f)) == keys_ascend(entries),
{
    lemma_mapped_place(entries, f, key);
    lemma_place_of(entries, key);
    let shown = mapped(entries, f);
    assert(mapped(with_value(entries, key, value), f) =~= with_value(shown, key, f(value)));
    assert(mapped(without(entries, key), f) =~= without(shown, key));
    if keys_ascend(entries) {
        assert forall|i: int, j: int| 0 <= i < j < shown.len() implies precedes(
            #[trigger] shown[i].0,
            #[trigger] shown[j].0,
        ) by {
            assert(precedes(entries[i].0, entries[j].0));
        }
    }
    if keys_ascend(shown) {
        assert forall|i: int, j: int| 0 <= i < j < entries.len() implies precedes(
            #[trigger] entries[i].0,
            #[trigger] entries[j].0,
        ) by {
            assert(precedes(shown[i].0, shown[j].0));
        }
    }
}

proof fn lemma_mapped_place<V, W>(
    entries: Seq<(Seq<char>, V)>,
    f: spec_fn(V) -> W,
    key: Seq<char>,
)
    ensures
        place_of(mapped(entries, f), key) == place_of(entries, key),
    decreases entries.len(),
{
    if entries.len() > 0 {
        assert(mapped(entries, f).drop_first() =~= mapped(entries.drop_first(), f));
        lemma_mapped_place(entries.drop_first(), f, key);
    }
}

impl<V> View for TextMap<V> {
    type V = Seq<(Seq<char>, V)>;

    closed spec fn view(&self) -> Seq<(Seq<char>, V)> {
        entry_views(self.entries@)
    }
}

/// The entries of a map, as they are seen.
spec fn entry_views<V>(entries: Seq<(String, V)>) -> Seq<(Seq<char>, V)> {
    Seq::new(entries.len(), |i: int| (entries[i].0@, entries[i].1))
}

/// The place of a key among some entries.
fn find_in<V>(entries: &Vec<(String, V)>, key: &str) -> (i: usize)
    ensures
        i == place_of(entry_views(entries@), key@),
        i <= entries@.len(),
{
    let ghost views = entry_views(entries@);
    let mut i: usize = 0;
    assert(views.skip(0) == views);
    while i < entries.len() && comes_before(entries[i].0.as_str(), key)
        invariant
            i <= entries@.len(),
            views == entry_views(entries@),
            place_of(views, key@) == i + place_of(views.skip(i as int), key@),
        decreases entries@.len() - i,
    {
        assert(views.skip(i as int)[0].0 == entries@[i as int].0@);
        assert(views.skip(i as int).drop_first() == views.skip(i + 1));
        i = i + 1;
    }
    proof {
        if i < entries@.len() {
            assert(views.skip(i as int)[0].0 == entries@[i as int].0@);
        }
    }
    i
}

impl<V> TextMap<V> {
    /// The keys of every map ascend.
    #[verifier::type_invariant]
    pub open spec fn ordered(self) -> bool {
        keys_ascend(self@)
    }

    pub fn new() -> (r: TextMap<V>)
        ensures
            r@ == Seq::<(Seq<char>, V)>::empty(),
    {
        let r = TextMap { entries: Vec::new() };
        assert(r@ =~= Seq::<(Seq<char>, V)>::empty());
        r
    }

    /// The number of keys.
    pub fn len(&self) -> (n: usize)
        ensures
            n == self@.len(),
    {
        self.entries.len()
    }

    /// The key at an index, in the order of the keys.
    pub fn key_at(&self, i: usize) -> (r: &String)
        requires
            i < self@.len(),
        ensures
            r@ == self@[i as int].0,
    {
        &self.entries[i].0
    }

    /// The value at an index, in the order of the keys.
    pub fn value_at(&self, i: usize) -> (r: &V)
        requires
            i < self@.len(),
        ensures
            *r == self@[i as int].1,
    {
        &self.entries[i].1
    }

    /// The value of a key.
    pub fn get(&self, key: &str) -> (r: Option<&V>)
        ensures
            match r {
                Some(value) => lookup(self@, key@) == Some(*value),
                None => lookup(self@, key@) is None,
            },
    {
        let i: usize = find_in(&self.entries, key);
        if i < self.entries.len() && same(self.entries[i].0.as_str(), key) {
            Some(&self.entries[i].1)
        } else {
            None
        }
    }

    /// Gives a key a value, in the place of the one it had.
    pub fn insert(&mut self, key: String, value: V)
        ensures
            final(self)@ == with_value(old(self)@, key@, value),
    {
        let ghost before = self@;
        let ghost text = key@;
        proof {
            use_type_invariant(&*self);
            law_value_is_found(before, text, value, text);
        }
        let mut entries: Vec<(String, V)> = Vec::new();
        std::mem::swap(&mut entries, &mut self.entries);
        let i: usize = find_in(&entries, key.as_str());
        if i < entries.len() && same(entries[i].0.as_str(), key.as_str()) {
            entries.set(i, (key, value));
        } else {
            entries.insert(i, (key, value));
        }
        assert(entry_views(entries@) =~= with_value(before, text, value));
        self.entries = entries;
    }

    /// Takes a key and its value out.
    pub fn remove(&mut self, key: &str)
        ensures
            final(self)@ == without(old(self)@, key@),
    {
        let ghost before = self@;
        proof {
            use_type_invariant(&*self);
            law_removed_key_is_gone(before, key@, key@);
        }
        let mut entries: Vec<(String, V)> = Vec::new();
        std::mem::swap(&mut entries, &mut self.entries);
        let i: usize = find_in(&entries, key);
        if i < entries.len() && same(entries[i].0.as_str(), key) {
            entries.remove(i);
        }
        assert(entry_views(entries@) =~= without(before, key@));
        self.entries = entries;
    }
}

} // verus!
