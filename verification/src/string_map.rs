//! A map keyed by strings that can also be walked: entries stand in a row,
//! and a hash index finds the place of each key.
use vstd::hash_map::StringHashMap;
use vstd::prelude::*;

verus! {

struct Table<V> {
    entries: Vec<(String, V)>,
    places: StringHashMap<usize>,
}

impl<V> Table<V> {
    /// The index and the row of entries agree: each key is found at the one
    /// place where it stands.
    spec fn well_formed(self) -> bool {
        &&& forall|i: int|
            0 <= i < self.entries@.len() ==> self.places@.contains_key(
                (#[trigger] self.entries@[i]).0@,
            ) && self.places@[self.entries@[i].0@] == i
        &&& forall|k: Seq<char>| #[trigger]
            self.places@.contains_key(k) ==> self.places@[k] < self.entries@.len()
                && self.entries@[self.places@[k] as int].0@ == k
    }

    spec fn keys(self) -> Seq<Seq<char>> {
        self.entries@.map_values(|e: (String, V)| e.0@)
    }

    spec fn contents(self) -> Map<Seq<char>, V> {
        Map::new(
            |k: Seq<char>| self.places@.contains_key(k),
            |k: Seq<char>| self.entries@[self.places@[k] as int].1,
        )
    }

    fn empty() -> (t: Self)
        ensures
            t.well_formed(),
            t.keys() == Seq::<Seq<char>>::empty(),
            t.contents() == Map::<Seq<char>, V>::empty(),
    {
        let t = Table { entries: Vec::new(), places: StringHashMap::new() };
        assert(t.keys() =~= Seq::empty());
        assert(t.contents() =~= Map::empty());
        t
    }

    fn insert(&mut self, key: String, value: V) -> (previous: Option<V>)
        requires
            old(self).well_formed(),
        ensures
            final(self).well_formed(),
            final(self).contents() == old(self).contents().insert(key@, value),
            final(self).keys() == if old(self).contents().contains_key(key@) {
                old(self).keys()
            } else {
                old(self).keys().push(key@)
            },
            previous == if old(self).contents().contains_key(key@) {
                Some(old(self).contents()[key@])
            } else {
                None
            },
    {
        let ghost k = key@;
        let found: Option<usize> = match self.places.get(key.as_str()) {
            Some(at) => Some(*at),
            None => None,
        };
        match found {
            Some(at) => {
                let mut value = value;
                let entry = &mut self.entries[at];
                std::mem::swap(&mut entry.1, &mut value);
                assert(self.keys() =~= old(self).keys());
                assert(self.contents() =~= old(self).contents().insert(k, self.entries@[at as int].1));
                Some(value)
            },
            None => {
                let at: usize = self.entries.len();
                self.places.insert(key.clone(), at);
                self.entries.push((key, value));
                assert(self.keys() =~= old(self).keys().push(k));
                assert(self.contents() =~= old(self).contents().insert(k, value));
                None
            },
        }
    }

    fn remove(&mut self, key: &str) -> (removed: Option<V>)
        requires
            old(self).well_formed(),
        ensures
            final(self).well_formed(),
            final(self).contents() == old(self).contents().remove(key@),
            final(self).keys() == keys_without(old(self).keys(), key@),
            removed == if old(self).contents().contains_key(key@) {
                Some(old(self).contents()[key@])
            } else {
                None
            },
    {
        let found: Option<usize> = match self.places.get(key) {
            Some(at) => Some(*at),
            None => None,
        };
        match found {
            Some(at) => {
                let ghost before = self.entries@;
                assert(before[at as int].0@ == key@);
                let entry = self.entries.swap_remove(at);
                self.places.remove(key);
                if at < self.entries.len() {
                    let moved = self.entries[at].0.clone();
                    assert(moved@ == before.last().0@);
                    self.places.insert(moved, at);
                }
                proof {
                    assert(old(self).keys().contains(key@)) by {
                        assert(old(self).keys()[at as int] == key@);
                    }
                    assert(old(self).keys().index_of(key@) == at) by {
                        let other = old(self).keys().index_of(key@);
                        assert(old(self).keys()[other] == key@);
                        assert(before[other].0@ == key@);
                    }
                    assert(self.keys() =~= keys_without(old(self).keys(), key@));
                    assert(self.contents() =~= old(self).contents().remove(key@));
                }
                Some(entry.1)
            },
            None => {
                proof {
                    assert(!old(self).keys().contains(key@)) by {
                        if old(self).keys().contains(key@) {
                            let i = old(self).keys().index_of(key@);
                            assert(old(self).keys()[i] == key@);
                            assert(old(self).entries@[i].0@ == key@);
                        }
                    }
                    assert(self.contents() =~= old(self).contents().remove(key@));
                }
                None
            },
        }
    }
}

/// The row of keys after `key` has gone: the last one takes its place.
pub open spec fn keys_without(keys: Seq<Seq<char>>, key: Seq<char>) -> Seq<Seq<char>> {
    if keys.contains(key) {
        keys.update(keys.index_of(key), keys.last()).drop_last()
    } else {
        keys
    }
}

/// What a map holds, with the row of its keys.
#[verifier::ext_equal]
#[verifier::reject_recursive_types(V)]
pub struct MapView<V> {
    pub map: Map<Seq<char>, V>,
    pub order: Seq<Seq<char>>,
}

impl<V> MapView<V> {
    /// Nothing.
    pub open spec fn empty() -> MapView<V> {
        MapView { map: Map::empty(), order: Seq::empty() }
    }

    /// With `key` bound to `value`; a new key goes to the end of the row.
    pub open spec fn with(self, key: Seq<char>, value: V) -> MapView<V> {
        MapView {
            map: self.map.insert(key, value),
            order: if self.map.contains_key(key) {
                self.order
            } else {
                self.order.push(key)
            },
        }
    }
}

/// A map from strings to values of type `V`.
#[verifier::reject_recursive_types(V)]
pub struct StringMap<V> {
    table: Table<V>,
}

impl<V> View for StringMap<V> {
    type V = Map<Seq<char>, V>;

    closed spec fn view(&self) -> Map<Seq<char>, V> {
        self.table.contents()
    }
}

impl<V> StringMap<V> {
    #[verifier::type_invariant]
    spec fn agrees(self) -> bool {
        self.table.well_formed()
    }

    /// The keys in the order in which they stand.
    pub closed spec fn order(&self) -> Seq<Seq<char>> {
        self.table.keys()
    }

    /// The keys with what they are bound to, in the order in which they
    /// stand.
    pub open spec fn entries(&self) -> Seq<(Seq<char>, V)> {
        self.order().map_values(|k: Seq<char>| (k, self@[k]))
    }

    /// A map without entries.
    pub fn new() -> (map: Self)
        ensures
            map@ == Map::<Seq<char>, V>::empty(),
            map.order() == Seq::<Seq<char>>::empty(),
    {
        StringMap { table: Table::empty() }
    }

    /// Binds `key` to `value`; what `key` was bound to before comes back. A
    /// new key goes to the end of the row.
    pub fn insert(&mut self, key: String, value: V) -> (previous: Option<V>)
        ensures
            final(self)@ == old(self)@.insert(key@, value),
            final(self).order() == if old(self)@.contains_key(key@) {
                old(self).order()
            } else {
                old(self).order().push(key@)
            },
            previous == if old(self)@.contains_key(key@) {
                Some(old(self)@[key@])
            } else {
                None
            },
    {
        proof {
            use_type_invariant(&*self);
        }
        let mut table: Table<V> = Table::empty();
        std::mem::swap(&mut table, &mut self.table);
        let previous = table.insert(key, value);
        self.table = table;
        previous
    }

    /// Unbinds `key`; what it was bound to comes back. The last key of the
    /// row takes its place.
    pub fn remove(&mut self, key: &str) -> (removed: Option<V>)
        ensures
            final(self)@ == old(self)@.remove(key@),
            final(self).order() == keys_without(old(self).order(), key@),
            removed == if old(self)@.contains_key(key@) {
                Some(old(self)@[key@])
            } else {
                None
            },
    {
        proof {
            use_type_invariant(&*self);
        }
        let mut table: Table<V> = Table::empty();
        std::mem::swap(&mut table, &mut self.table);
        let removed = table.remove(key);
        self.table = table;
        removed
    }

    /// What `key` is bound to.
    pub fn get(&self, key: &str) -> (value: Option<&V>)
        ensures
            match value {
                Some(v) => self@.contains_key(key@) && *v == self@[key@],
                None => !self@.contains_key(key@),
            },
    {
        proof {
            use_type_invariant(&*self);
        }
        match self.table.places.get(key) {
            Some(at) => Some(&self.table.entries[*at].1),
            None => None,
        }
    }

    /// Whether `key` is bound.
    pub fn contains_key(&self, key: &str) -> (r: bool)
        ensures
            r == self@.contains_key(key@),
    {
        self.get(key).is_some()
    }

    /// How many keys are bound. No key stands twice in the row, and the keys
    /// in it are those that are bound.
    pub fn len(&self) -> (n: usize)
        ensures
            n == self.order().len(),
            self@.dom().finite(),
            n == self@.len(),
            self.order().no_duplicates(),
            forall|k: Seq<char>| #[trigger] self.order().contains(k) <==> self@.contains_key(k),
    {
        proof {
            use_type_invariant(&*self);
            let keys = self.table.keys();
            let entries = self.table.entries@;
            assert forall|k: Seq<char>| #[trigger] keys.contains(k) <==> self@.contains_key(k) by {
                if keys.contains(k) {
                    let i = keys.index_of(k);
                    assert(entries[i].0@ == keys[i]);
                }
                if self@.contains_key(k) {
                    let i = self.table.places@[k] as int;
                    assert(keys[i] == entries[i].0@);
                }
            }
            assert(keys.no_duplicates()) by {
                assert forall|i: int, j: int|
                    0 <= i < keys.len() && 0 <= j < keys.len() && i != j implies keys[i]
                    != keys[j] by {
                    assert(keys[i] == entries[i].0@);
                    assert(keys[j] == entries[j].0@);
                }
            }
            assert(self@.dom() =~= keys.to_set());
            keys.unique_seq_to_set();
            vstd::seq_lib::seq_to_set_is_finite(keys);
        }
        self.table.entries.len()
    }

    /// Whether no key is bound.
    pub fn is_empty(&self) -> (r: bool)
        ensures
            r == (self.order().len() == 0),
            r == (self@ == Map::<Seq<char>, V>::empty()),
    {
        let n: usize = self.len();
        proof {
            if n == 0 {
                assert(self@ =~= Map::<Seq<char>, V>::empty()) by {
                    assert forall|k: Seq<char>| !self@.contains_key(k) by {
                        if self@.contains_key(k) {
                            assert(self.order().contains(k));
                        }
                    }
                }
            } else {
                assert(self.order().contains(self.order()[0]));
                assert(self@.contains_key(self.order()[0]));
            }
        }
        n == 0
    }

    /// The key at place `i` of the row.
    pub fn key_at(&self, i: usize) -> (key: &str)
        requires
            i < self.order().len(),
        ensures
            key@ == self.order()[i as int],
            self@.contains_key(key@),
    {
        proof {
            use_type_invariant(&*self);
        }
        self.table.entries[i].0.as_str()
    }

    /// What the key at place `i` of the row is bound to.
    pub fn value_at(&self, i: usize) -> (value: &V)
        requires
            i < self.order().len(),
        ensures
            self@.contains_key(self.order()[i as int]),
            *value == self@[self.order()[i as int]],
    {
        proof {
            use_type_invariant(&*self);
        }
        &self.table.entries[i].1
    }

    /// The keys in the order in which they stand.
    pub fn keys(&self) -> (keys: Vec<&str>)
        ensures
            crate::text::str_views(keys@) == self.order(),
    {
        let n: usize = self.len();
        let mut keys: Vec<&str> = Vec::new();
        for i in 0..n
            invariant
                n == self.order().len(),
                crate::text::str_views(keys@) == self.order().take(i as int),
        {
            let key = self.key_at(i);
            let ghost done = crate::text::str_views(keys@);
            keys.push(key);
            assert(crate::text::str_views(keys@) =~= done.push(key@));
            assert(self.order().take(i + 1) =~= done.push(key@));
        }
        assert(self.order().take(n as int) =~= self.order());
        keys
    }
}

impl<V> Default for StringMap<V> {
    fn default() -> (map: Self)
        ensures
            map@ == Map::<Seq<char>, V>::empty(),
            map.order() == Seq::<Seq<char>>::empty(),
    {
        StringMap::new()
    }
}

impl<V: Clone> Clone for StringMap<V> {
    fn clone(&self) -> (copy: Self)
        ensures
            copy.order() == self.order(),
            copy@.dom() == self@.dom(),
            forall|k: Seq<char>| #[trigger]
                copy@.contains_key(k) ==> cloned::<V>(self@[k], copy@[k]),
    {
        let n: usize = self.len();
        let mut copy: StringMap<V> = StringMap::new();
        for i in 0..n
            invariant
                n == self.order().len(),
                self.order().no_duplicates(),
                copy.order() == self.order().take(i as int),
                forall|k: Seq<char>| #[trigger]
                    copy@.contains_key(k) <==> self.order().take(i as int).contains(k),
                forall|k: Seq<char>| #[trigger]
                    copy@.contains_key(k) ==> cloned::<V>(self@[k], copy@[k]),
        {
            let key = self.key_at(i);
            let value = self.value_at(i).clone();
            proof {
                let done = self.order().take(i as int);
                let more = self.order().take(i + 1);
                assert(more =~= done.push(key@));
                if done.contains(key@) {
                    let j = done.index_of(key@);
                    assert(self.order()[j] == key@);
                }
                assert forall|k: Seq<char>| more.contains(k) <==> (done.contains(k) || k == key@) by {
                    if done.contains(k) {
                        assert(more[done.index_of(k)] == k);
                    }
                    if k == key@ {
                        assert(more[i as int] == k);
                    }
                    if more.contains(k) {
                        let j = more.index_of(k);
                        if j < i {
                            assert(done[j] == k);
                        }
                    }
                }
            }
            copy.insert(key.to_string(), value);
        }
        assert(self.order().take(n as int) =~= self.order());
        copy
    }
}

/// A key that has gone leaves the others, each where it stood but for the last.
pub proof fn lemma_keys_without(keys: Seq<Seq<char>>, key: Seq<char>)
    requires
        keys.no_duplicates(),
    ensures
        keys_without(keys, key).no_duplicates(),
        forall|k: Seq<char>| #[trigger]
            keys_without(keys, key).contains(k) <==> keys.contains(k) && k != key,
{
    let rest = keys_without(keys, key);
    if keys.contains(key) {
        let at = keys.index_of(key);
        let last = keys.len() - 1;
        assert(keys[at] == key);
        assert forall|i: int| 0 <= i < rest.len() implies #[trigger] rest[i] == if i == at {
            keys[last]
        } else {
            keys[i]
        } by {}
        assert forall|k: Seq<char>| #[trigger]
            rest.contains(k) <==> keys.contains(k) && k != key by {
            if rest.contains(k) {
                let i = rest.index_of(k);
                assert(rest[i] == k);
                if i == at {
                    assert(keys[last] == k);
                    assert(k != key) by {
                        if k == key {
                            assert(keys[at] == keys[last]);
                        }
                    }
                } else {
                    assert(keys[i] == k);
                    assert(k != key) by {
                        if k == key {
                            assert(keys[at] == keys[i]);
                        }
                    }
                }
            }
            if keys.contains(k) && k != key {
                let i = keys.index_of(k);
                assert(keys[i] == k);
                if i == last {
                    assert(rest[at] == k);
                } else {
                    assert(rest[i] == k);
                }
            }
        }
    } else {
        assert forall|k: Seq<char>| #[trigger]
            rest.contains(k) <==> keys.contains(k) && k != key by {}
    }
}

/// A key that is bound holds its value, in a row where it stands once; the
/// others hold what they held.
pub proof fn law_bindings_hold<V>(view: MapView<V>, key: Seq<char>, other: Seq<char>, value: V)
    requires
        other != key,
    ensures
        view.with(key, value).map.contains_key(key),
        view.with(key, value).map[key] == value,
        view.with(key, value).map.contains_key(other) == view.map.contains_key(other),
        view.map.contains_key(other) ==> view.with(key, value).map[other] == view.map[other],
        view.map.contains_key(key) ==> view.with(key, value).order == view.order,
        !view.map.contains_key(key) ==> view.with(key, value).order == view.order.push(key),
        MapView::<V>::empty().order.len() == 0,
        !MapView::<V>::empty().map.contains_key(key),
{
}

} // verus!
