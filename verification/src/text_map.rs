//! Maps and sets with texts for keys.

use vstd::prelude::*;

use crate::text::same_text;

verus! {

/// The index of the first entry with the key, or the length if there is none.
pub open spec fn entry_index<V>(entries: Seq<(String, V)>, key: Seq<char>) -> int
    decreases entries.len(),
{
    if entries.len() == 0 {
        0
    } else if entries[0].0@ == key {
        0
    } else {
        1 + entry_index(entries.drop_first(), key)
    }
}

/// Whether no key occurs twice.
pub open spec fn distinct_keys<V>(entries: Seq<(String, V)>) -> bool {
    forall|i: int, j: int|
        0 <= i < j < entries.len() ==> (#[trigger] entries[i]).0@ != (#[trigger] entries[j]).0@
}

/// The entries as a map.
pub open spec fn entry_map<V>(entries: Seq<(String, V)>) -> Map<Seq<char>, V> {
    Map::new(
        |key: Seq<char>| exists|i: int| 0 <= i < entries.len() && (#[trigger] entries[i]).0@ == key,
        |key: Seq<char>| entries[entry_index(entries, key)].1,
    )
}

proof fn lemma_entry_index<V>(entries: Seq<(String, V)>, key: Seq<char>)
    ensures
        0 <= entry_index(entries, key) <= entries.len(),
        entry_index(entries, key) < entries.len() ==> entries[entry_index(entries, key)].0@ == key,
        forall|k: int|
            0 <= k < entry_index(entries, key) ==> (#[trigger] entries[k]).0@ != key,
    decreases entries.len(),
{
    if entries.len() > 0 && entries[0].0@ != key {
        lemma_entry_index(entries.drop_first(), key);
        assert forall|k: int| 0 <= k < entry_index(entries, key) implies (
        #[trigger] entries[k]).0@ != key by {
            if k > 0 {
                assert(entries[k] == entries.drop_first()[k - 1]);
            }
        }
    }
}

/// What the map holds at the key of an entry.
proof fn lemma_entry<V>(entries: Seq<(String, V)>, i: int)
    requires
        distinct_keys(entries),
        0 <= i < entries.len(),
    ensures
        entry_map(entries).contains_key(entries[i].0@),
        entry_map(entries)[entries[i].0@] == entries[i].1,
{
    let key = entries[i].0@;
    lemma_entry_index(entries, key);
    assert(entries[i].0@ == key);
}

proof fn lemma_absent<V>(entries: Seq<(String, V)>, key: Seq<char>)
    requires
        forall|k: int| 0 <= k < entries.len() ==> (#[trigger] entries[k]).0@ != key,
    ensures
        !entry_map(entries).contains_key(key),
{
}

/// What a list with one more item holds.
pub proof fn lemma_push_contains(list: Seq<Seq<char>>, item: Seq<char>, x: Seq<char>)
    ensures
        list.push(item).contains(x) <==> list.contains(x) || x == item,
{
    let longer = list.push(item);
    if list.contains(x) {
        let i = choose|i: int| 0 <= i < list.len() && list[i] == x;
        assert(longer[i] == x);
    }
    if x == item {
        assert(longer[list.len() as int] == x);
    }
    if longer.contains(x) {
        let i = choose|i: int| 0 <= i < longer.len() && longer[i] == x;
        if i < list.len() {
            assert(list[i] == x);
        }
    }
}

/// A map from texts, in which each entry has a place: a new key goes to the end, a known key keeps
/// its place.
#[derive(Debug)]
pub struct TextMap<V> {
    entries: Vec<(String, V)>,
}

impl<V> View for TextMap<V> {
    type V = Map<Seq<char>, V>;

    closed spec fn view(&self) -> Map<Seq<char>, V> {
        entry_map(self.entries@)
    }
}

impl<V> TextMap<V> {
    #[verifier::type_invariant]
    spec fn well_formed(self) -> bool {
        distinct_keys(self.entries@)
    }

    /// The keys, in their places.
    pub closed spec fn keys(self) -> Seq<Seq<char>> {
        Seq::new(self.entries@.len(), |i: int| self.entries@[i].0@)
    }

    pub fn new() -> (r: Self)
        ensures
            r@ == Map::<Seq<char>, V>::empty(),
            r.keys() == Seq::<Seq<char>>::empty(),
    {
        let r = TextMap { entries: Vec::new() };
        assert(r@ =~= Map::<Seq<char>, V>::empty());
        assert(r.keys() =~= Seq::<Seq<char>>::empty());
        r
    }

    /// The number of entries. The places hold each key of the map once.
    pub fn len(&self) -> (r: usize)
        ensures
            r == self.keys().len(),
            self.keys().no_duplicates(),
            forall|key: Seq<char>| self@.contains_key(key) <==> #[trigger] self.keys().contains(key),
    {
        proof {
            use_type_invariant(self);
            let keys = self.keys();
            assert forall|key: Seq<char>| self@.contains_key(key) <==> #[trigger] keys.contains(
                key,
            ) by {
                if self@.contains_key(key) {
                    let i = choose|i: int|
                        0 <= i < self.entries@.len() && (#[trigger] self.entries@[i]).0@ == key;
                    assert(keys[i] == key);
                }
                if keys.contains(key) {
                    let i = choose|i: int| 0 <= i < keys.len() && keys[i] == key;
                    assert(self.entries@[i].0@ == key);
                }
            }
        }
        self.entries.len()
    }

    pub fn is_empty(&self) -> (r: bool)
        ensures
            r == (self.keys().len() == 0),
            r == (self@ == Map::<Seq<char>, V>::empty()),
    {
        proof {
            if self.entries@.len() == 0 {
                assert(self@ =~= Map::<Seq<char>, V>::empty());
            } else {
                use_type_invariant(self);
                lemma_entry(self.entries@, 0);
            }
        }
        self.entries.len() == 0
    }

    fn find(&self, key: &str) -> (r: Option<usize>)
        ensures
            match r {
                Some(i) => i < self.entries@.len() && self.entries@[i as int].0@ == key@
                    && self@.contains_key(key@) && self@[key@] == self.entries@[i as int].1,
                None => !self@.contains_key(key@) && forall|k: int|
                    0 <= k < self.entries@.len() ==> (#[trigger] self.entries@[k]).0@ != key@,
            },
    {
        proof {
            use_type_invariant(self);
        }
        let mut i: usize = 0;
        while i < self.entries.len()
            invariant
                i <= self.entries@.len(),
                distinct_keys(self.entries@),
                forall|k: int| 0 <= k < i ==> (#[trigger] self.entries@[k]).0@ != key@,
            decreases self.entries@.len() - i,
        {
            if same_text(self.entries[i].0.as_str(), key) {
                proof {
                    lemma_entry(self.entries@, i as int);
                }
                return Some(i);
            }
            i += 1;
        }
        proof {
            lemma_absent(self.entries@, key@);
        }
        None
    }

    /// The value of the key.
    pub fn get(&self, key: &str) -> (r: Option<&V>)
        ensures
            r == (if self@.contains_key(key@) {
                Some(&self@[key@])
            } else {
                None
            }),
    {
        match self.find(key) {
            Some(i) => Some(&self.entries[i].1),
            None => None,
        }
    }

    pub fn contains_key(&self, key: &str) -> (r: bool)
        ensures
            r == self@.contains_key(key@),
    {
        self.find(key).is_some()
    }

    /// The key in the given place.
    pub fn key_at(&self, i: usize) -> (r: &String)
        requires
            i < self.keys().len(),
        ensures
            r@ == self.keys()[i as int],
            self@.contains_key(r@),
    {
        proof {
            use_type_invariant(self);
            lemma_entry(self.entries@, i as int);
        }
        &self.entries[i].0
    }

    /// The value in the given place.
    pub fn value_at(&self, i: usize) -> (r: &V)
        requires
            i < self.keys().len(),
        ensures
            self@.contains_key(self.keys()[i as int]),
            *r == self@[self.keys()[i as int]],
    {
        proof {
            use_type_invariant(self);
            lemma_entry(self.entries@, i as int);
        }
        &self.entries[i].1
    }

    /// Puts the value under the key, in place of the value that was there.
    pub fn insert(&mut self, key: String, value: V)
        ensures
            final(self)@ == old(self)@.insert(key@, value),
            final(self).keys() == if old(self)@.contains_key(key@) {
                old(self).keys()
            } else {
                old(self).keys().push(key@)
            },
    {
        proof {
            use_type_invariant(&*self);
        }
        let ghost before = self.entries@;
        let found = self.find(key.as_str());
        let mut entries: Vec<(String, V)> = Vec::new();
        std::mem::swap(&mut entries, &mut self.entries);
        match found {
            Some(i) => {
                entries[i] = (key, value);
            },
            None => {
                entries.push((key, value));
            },
        }
        proof {
            let after = entries@;
            let at: int = match found {
                Some(i) => i as int,
                None => before.len() as int,
            };
            assert(after[at] == (key, value));
            assert forall|i: int, j: int| 0 <= i < j < after.len() implies (
            #[trigger] after[i]).0@ != (#[trigger] after[j]).0@ by {
                if i != at && j != at {
                    assert(before[i].0@ != before[j].0@);
                } else if i == at {
                    assert(before[j].0@ != key@);
                } else {
                    assert(before[i].0@ != key@);
                }
            }
            assert forall|k: Seq<char>| #[trigger]
                entry_map(after).contains_key(k) == entry_map(before).insert(
                    key@,
                    value,
                ).contains_key(k) by {
                if entry_map(before).contains_key(k) {
                    let i = choose|i: int|
                        0 <= i < before.len() && (#[trigger] before[i]).0@ == k;
                    assert(after[i].0@ == k);
                }
                if k == key@ {
                    assert(after[at].0@ == k);
                }
                if entry_map(after).contains_key(k) && k != key@ {
                    let i = choose|i: int| 0 <= i < after.len() && (#[trigger] after[i]).0@ == k;
                    assert(before[i].0@ == k);
                }
            }
            assert forall|k: Seq<char>| entry_map(after).contains_key(k) implies #[trigger] entry_map(
                after,
            )[k] == entry_map(before).insert(key@, value)[k] by {
                let i = choose|i: int| 0 <= i < after.len() && (#[trigger] after[i]).0@ == k;
                lemma_entry(after, i);
                if k != key@ {
                    lemma_entry(before, i);
                } else {
                    lemma_entry(after, at);
                }
            }
            assert(entry_map(after) =~= entry_map(before).insert(key@, value));
            let old_keys = Seq::new(before.len(), |i: int| before[i].0@);
            let new_keys = Seq::new(after.len(), |i: int| after[i].0@);
            if found is Some {
                assert(new_keys =~= old_keys);
            } else {
                assert(new_keys =~= old_keys.push(key@));
            }
        }
        self.entries = entries;
    }

    /// Takes the key out of the map.
    pub fn remove(&mut self, key: &str)
        ensures
            final(self)@ == old(self)@.remove(key@),
    {
        proof {
            use_type_invariant(&*self);
        }
        let ghost before = self.entries@;
        let found = self.find(key);
        if let Some(at) = found {
            let mut entries: Vec<(String, V)> = Vec::new();
            std::mem::swap(&mut entries, &mut self.entries);
            let gone = entries.remove(at);
            proof {
                let after = entries@;
                assert(forall|i: int|
                    0 <= i < after.len() ==> #[trigger] after[i] == before[if i < at {
                        i
                    } else {
                        i + 1
                    }]);
                assert forall|k: Seq<char>| #[trigger]
                    entry_map(after).contains_key(k) == entry_map(before).remove(
                        key@,
                    ).contains_key(k) by {
                    if entry_map(before).contains_key(k) && k != key@ {
                        let i = choose|i: int|
                            0 <= i < before.len() && (#[trigger] before[i]).0@ == k;
                        if i < at {
                            assert(after[i].0@ == k);
                        } else {
                            assert(after[i - 1].0@ == k);
                        }
                    }
                    if entry_map(after).contains_key(k) {
                        let i = choose|i: int|
                            0 <= i < after.len() && (#[trigger] after[i]).0@ == k;
                        let j = if i < at {
                            i
                        } else {
                            i + 1
                        };
                        assert(before[j].0@ == k);
                    }
                }
                assert forall|k: Seq<char>|
                    entry_map(after).contains_key(k) implies #[trigger] entry_map(after)[k]
                    == entry_map(before).remove(key@)[k] by {
                    let i = choose|i: int| 0 <= i < after.len() && (#[trigger] after[i]).0@ == k;
                    lemma_entry(after, i);
                    lemma_entry(
                        before,
                        if i < at {
                            i
                        } else {
                            i + 1
                        },
                    );
                }
                assert(entry_map(after) =~= entry_map(before).remove(key@));
            }
            self.entries = entries;
        } else {
            assert(self@ =~= old(self)@.remove(key@));
        }
    }
}

impl<V: DeepView> DeepView for TextMap<V> {
    type V = Map<Seq<char>, V::V>;

    open spec fn deep_view(&self) -> Map<Seq<char>, V::V> {
        self@.map_values(|value: V| value.deep_view())
    }
}

/// A set of texts.
#[derive(Debug)]
pub struct TextSet {
    members: TextMap<bool>,
}

impl View for TextSet {
    type V = Set<Seq<char>>;

    closed spec fn view(&self) -> Set<Seq<char>> {
        self.members@.dom()
    }
}

impl TextSet {
    /// The members, in their places.
    pub closed spec fn items(self) -> Seq<Seq<char>> {
        self.members.keys()
    }

    pub fn new() -> (r: Self)
        ensures
            r@ == Set::<Seq<char>>::empty(),
            r.items() == Seq::<Seq<char>>::empty(),
    {
        let r = TextSet { members: TextMap::new() };
        assert(r@ =~= Set::<Seq<char>>::empty());
        r
    }

    /// The number of members. The places hold each member once.
    pub fn len(&self) -> (r: usize)
        ensures
            r == self.items().len(),
            self.items().no_duplicates(),
            forall|text: Seq<char>| self@.contains(text) <==> #[trigger] self.items().contains(text),
    {
        self.members.len()
    }

    pub fn contains(&self, text: &str) -> (r: bool)
        ensures
            r == self@.contains(text@),
    {
        self.members.contains_key(text)
    }

    /// The member in the given place.
    pub fn item_at(&self, i: usize) -> (r: &String)
        requires
            i < self.items().len(),
        ensures
            r@ == self.items()[i as int],
            self@.contains(r@),
    {
        self.members.key_at(i)
    }

    pub fn insert(&mut self, text: String)
        ensures
            final(self)@ == old(self)@.insert(text@),
            final(self).items() == if old(self)@.contains(text@) {
                old(self).items()
            } else {
                old(self).items().push(text@)
            },
    {
        self.members.insert(text, true);
        assert(self@ =~= old(self)@.insert(text@));
    }

    pub fn remove(&mut self, text: &str)
        ensures
            final(self)@ == old(self)@.remove(text@),
    {
        self.members.remove(text);
        assert(self@ =~= old(self)@.remove(text@));
    }

    /// A set with the same members.
    pub fn duplicate(&self) -> (r: TextSet)
        ensures
            r@ == self@,
            r.items() == self.items(),
    {
        let mut copy = TextSet::new();
        let n = self.len();
        let mut i: usize = 0;
        while i < n
            invariant
                i <= n == self.items().len(),
                self.items().no_duplicates(),
                copy.items() == self.items().take(i as int),
                forall|text: Seq<char>|
                    copy@.contains(text) <==> #[trigger] self.items().take(i as int).contains(text),
            decreases n - i,
        {
            let ghost before = copy@;
            let item = self.item_at(i).clone();
            proof {
                if copy@.contains(item@) {
                    let taken = self.items().take(i as int);
                    assert(taken.contains(item@));
                    let k = choose|k: int| 0 <= k < taken.len() && taken[k] == item@;
                    assert(self.items()[k] == self.items()[i as int]);
                }
            }
            copy.insert(item);
            proof {
                let old_taken = self.items().take(i as int);
                let taken = self.items().take(i + 1);
                assert(taken =~= old_taken.push(item@));
                assert forall|text: Seq<char>|
                    copy@.contains(text) <==> #[trigger] taken.contains(text) by {
                    if taken.contains(text) {
                        let k = choose|k: int| 0 <= k < taken.len() && taken[k] == text;
                        if k < i {
                            assert(old_taken[k] == text);
                        }
                    }
                    if before.contains(text) {
                        assert(old_taken.contains(text));
                        let k = choose|k: int| 0 <= k < old_taken.len() && old_taken[k] == text;
                        assert(taken[k] == text);
                    }
                    if text == item@ {
                        assert(taken[i as int] == text);
                    }
                }
            }
            i += 1;
        }
        proof {
            assert(self.items().take(n as int) =~= self.items());
            assert forall|text: Seq<char>| #[trigger] copy@.contains(text) == self@.contains(text) by {
                assert(self.items().take(n as int).contains(text) == self.items().contains(text));
            }
            assert(copy@ =~= self@);
        }
        copy
    }
}

} // verus!
