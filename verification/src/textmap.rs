//! Maps keyed by text.

use vstd::prelude::*;

use crate::text;

verus! {

/// A map from texts to values, which holds no key twice.
#[derive(Debug)]
pub struct TextMap<V> {
    entries: Vec<(String, V)>,
}

/// Whether no two entries have the same key.
pub open spec fn keys_differ<V>(entries: Seq<(String, V)>) -> bool {
    forall|i: int, j: int|
        0 <= i < j < entries.len() ==> (#[trigger] entries[i]).0@ != (#[trigger] entries[j]).0@
}

/// Where `key` stands in `entries`.
pub open spec fn at_key<V>(entries: Seq<(String, V)>, key: Seq<char>, i: int) -> bool {
    0 <= i < entries.len() && entries[i].0@ == key
}

/// What `entries` say for each key.
pub open spec fn entry_map<V: View>(entries: Seq<(String, V)>) -> Map<Seq<char>, V::V> {
    Map::new(
        |key: Seq<char>| exists|i: int| at_key(entries, key, i),
        |key: Seq<char>| entries[choose|i: int| at_key(entries, key, i)].1@,
    )
}

/// Where keys differ, the map says of a key what its entry says.
proof fn entry_says<V: View>(entries: Seq<(String, V)>, i: int)
    requires
        keys_differ(entries),
        0 <= i < entries.len(),
    ensures
        entry_map(entries).contains_key(entries[i].0@),
        entry_map(entries)[entries[i].0@] == entries[i].1@,
{
    let key = entries[i].0@;
    assert(at_key(entries, key, i));
    let j = choose|j: int| at_key(entries, key, j);
    assert(i == j);
}

proof fn entry_absent<V: View>(entries: Seq<(String, V)>, key: Seq<char>)
    requires
        forall|i: int| 0 <= i < entries.len() ==> (#[trigger] entries[i]).0@ != key,
    ensures
        !entry_map(entries).contains_key(key),
{
    if entry_map(entries).contains_key(key) {
        let i = choose|i: int| at_key(entries, key, i);
        assert(entries[i].0@ == key);
    }
}

/// Adding an entry with a new key adds the key.
proof fn entry_added<V: View>(entries: Seq<(String, V)>, entry: (String, V))
    requires
        keys_differ(entries),
        forall|i: int| 0 <= i < entries.len() ==> (#[trigger] entries[i]).0@ != entry.0@,
    ensures
        keys_differ(entries.push(entry)),
        entry_map(entries.push(entry)) == entry_map(entries).insert(entry.0@, entry.1@),
{
    let more = entries.push(entry);
    assert(keys_differ(more));
    let left = entry_map(more);
    let right = entry_map(entries).insert(entry.0@, entry.1@);
    assert forall|key: Seq<char>| left.contains_key(key) == right.contains_key(key) by {
        if left.contains_key(key) {
            let i = choose|i: int| at_key(more, key, i);
            if i < entries.len() {
                assert(at_key(entries, key, i));
            }
        }
        if right.contains_key(key) {
            if key == entry.0@ {
                assert(at_key(more, key, entries.len() as int));
            } else {
                let i = choose|i: int| at_key(entries, key, i);
                assert(at_key(more, key, i));
            }
        }
    }
    assert forall|key: Seq<char>| left.contains_key(key) implies left[key] == right[key] by {
        let i = choose|i: int| at_key(more, key, i);
        entry_says(more, i);
        if i < entries.len() {
            entry_says(entries, i);
            assert(more[i] == entries[i]);
        }
    }
    assert(left =~= right);
}

/// Removing an entry removes its key.
proof fn entry_removed<V: View>(entries: Seq<(String, V)>, at: int)
    requires
        keys_differ(entries),
        0 <= at < entries.len(),
    ensures
        keys_differ(entries.remove(at)),
        entry_map(entries.remove(at)) == entry_map(entries).remove(entries[at].0@),
        forall|i: int|
            0 <= i < entries.remove(at).len() ==> (#[trigger] entries.remove(at)[i]).0@
                != entries[at].0@,
{
    let fewer = entries.remove(at);
    let gone = entries[at].0@;
    assert forall|i: int| 0 <= i < fewer.len() implies (#[trigger] fewer[i]).0@ != gone by {
        if i < at {
            assert(fewer[i] == entries[i]);
        } else {
            assert(fewer[i] == entries[i + 1]);
        }
    }
    assert forall|i: int, j: int| 0 <= i < j < fewer.len() implies (#[trigger] fewer[i]).0@ != (
    #[trigger] fewer[j]).0@ by {
        let a = if i < at {
            i
        } else {
            i + 1
        };
        let b = if j < at {
            j
        } else {
            j + 1
        };
        assert(fewer[i] == entries[a] && fewer[j] == entries[b]);
    }
    let left = entry_map(fewer);
    let right = entry_map(entries).remove(gone);
    assert forall|key: Seq<char>| left.contains_key(key) == right.contains_key(key) by {
        if left.contains_key(key) {
            let i = choose|i: int| at_key(fewer, key, i);
            assert(fewer[i].0@ != gone);
            let a = if i < at {
                i
            } else {
                i + 1
            };
            assert(at_key(entries, key, a));
        }
        if right.contains_key(key) {
            let a = choose|a: int| at_key(entries, key, a);
            let i = if a < at {
                a
            } else {
                a - 1
            };
            assert(at_key(fewer, key, i));
        }
    }
    assert forall|key: Seq<char>| left.contains_key(key) implies left[key] == right[key] by {
        let i = choose|i: int| at_key(fewer, key, i);
        entry_says(fewer, i);
        let a = if i < at {
            i
        } else {
            i + 1
        };
        assert(fewer[i] == entries[a]);
        entry_says(entries, a);
    }
    assert(left =~= right);
}

impl<V: View> View for TextMap<V> {
    type V = Map<Seq<char>, V::V>;

    closed spec fn view(&self) -> Map<Seq<char>, V::V> {
        entry_map(self.entries@)
    }
}

impl<V> TextMap<V> {
    #[verifier::type_invariant]
    spec fn well_formed(self) -> bool {
        keys_differ(self.entries@)
    }
}

impl<V: View> TextMap<V> {
    /// The empty map.
    pub fn new() -> (map: TextMap<V>)
        ensures
            map@ == Map::<Seq<char>, V::V>::empty(),
    {
        let map = TextMap { entries: Vec::new() };
        assert(map@ =~= Map::<Seq<char>, V::V>::empty()) by {
            assert forall|key: Seq<char>| !map@.contains_key(key) by {
                entry_absent(map.entries@, key);
            }
        }
        map
    }

    /// Whether the map holds nothing.
    pub fn is_empty(&self) -> (empty: bool)
        ensures
            empty == (self@ == Map::<Seq<char>, V::V>::empty()),
    {
        proof {
            use_type_invariant(self);
            if self.entries@.len() > 0 {
                entry_says(self.entries@, 0);
            } else {
                assert forall|key: Seq<char>| !self@.contains_key(key) by {
                    entry_absent(self.entries@, key);
                }
                assert(self@ =~= Map::<Seq<char>, V::V>::empty());
            }
        }
        self.entries.len() == 0
    }

    /// Where `key` stands among `entries`.
    fn find(entries: &Vec<(String, V)>, key: &str) -> (at: Option<usize>)
        ensures
            match at {
                Some(at) => at_key(entries@, key@, at as int),
                None => forall|i: int|
                    0 <= i < entries@.len() ==> (#[trigger] entries@[i]).0@ != key@,
            },
    {
        let mut i: usize = 0;
        while i < entries.len()
            invariant
                i <= entries@.len(),
                forall|k: int| 0 <= k < i ==> (#[trigger] entries@[k]).0@ != key@,
            decreases entries@.len() - i,
        {
            if text::same_text(entries[i].0.as_str(), key) {
                return Some(i);
            }
            i += 1;
        }
        None
    }

    /// The value for `key`.
    pub fn get(&self, key: &str) -> (value: Option<&V>)
        ensures
            match value {
                Some(value) => self@.contains_key(key@) && self@[key@] == value@,
                None => !self@.contains_key(key@),
            },
    {
        proof {
            use_type_invariant(self);
        }
        match Self::find(&self.entries, key) {
            Some(at) => {
                proof {
                    entry_says(self.entries@, at as int);
                }
                Some(&self.entries[at].1)
            },
            None => {
                proof {
                    entry_absent(self.entries@, key@);
                }
                None
            },
        }
    }

    /// Take `key` and its value out of the map.
    pub fn remove(&mut self, key: &str) -> (value: Option<V>)
        ensures
            final(self)@ == old(self)@.remove(key@),
            match value {
                Some(value) => old(self)@.contains_key(key@) && old(self)@[key@] == value@,
                None => !old(self)@.contains_key(key@),
            },
    {
        proof {
            use_type_invariant(&*self);
        }
        let mut entries: Vec<(String, V)> = Vec::new();
        std::mem::swap(&mut entries, &mut self.entries);
        match Self::find(&entries, key) {
            Some(at) => {
                proof {
                    entry_says(entries@, at as int);
                    entry_removed(entries@, at as int);
                }
                let (_, value) = entries.remove(at);
                self.entries = entries;
                Some(value)
            },
            None => {
                proof {
                    entry_absent(entries@, key@);
                    assert(entry_map(entries@).remove(key@) =~= entry_map(entries@));
                }
                self.entries = entries;
                None
            },
        }
    }

    /// Give `key` the value `value`, in place of one it had.
    pub fn insert(&mut self, key: String, value: V)
        ensures
            final(self)@ == old(self)@.insert(key@, value@),
    {
        proof {
            use_type_invariant(&*self);
        }
        let mut entries: Vec<(String, V)> = Vec::new();
        std::mem::swap(&mut entries, &mut self.entries);
        let ghost before = entries@;
        match Self::find(&entries, key.as_str()) {
            Some(at) => {
                proof {
                    entry_removed(entries@, at as int);
                }
                let _ = entries.remove(at);
            },
            None => {},
        }
        proof {
            entry_added(entries@, (key, value));
            assert(entry_map(entries@).insert(key@, value@) =~= entry_map(before).insert(
                key@,
                value@,
            ));
        }
        entries.push((key, value));
        self.entries = entries;
    }

    /// The keys of the map and their values, each key once.
    pub fn entries(&self) -> (entries: &Vec<(String, V)>)
        ensures
            keys_differ(entries@),
            entry_map(entries@) == self@,
    {
        proof {
            use_type_invariant(self);
        }
        &self.entries
    }
}

} // verus!
