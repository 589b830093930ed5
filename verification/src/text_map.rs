//! A small map from text keys to values that keeps its entries in the order
//! keys were first inserted.

use vstd::prelude::*;
use crate::text::chars_of;

verus! {

/// Entries keyed by text; each key occurs once.
pub struct TextMap<V> {
    entries: Vec<(String, V)>,
}

/// Variables for `${NAME}` substitution in flows.
pub type EnvVars = TextMap<String>;

/// The value of the first entry under `key`.
pub open spec fn text_lookup<V>(entries: Seq<(Seq<char>, V)>, key: Seq<char>) -> Option<V>
    decreases entries.len(),
{
    if entries.len() == 0 {
        None
    } else if entries[0].0 == key {
        Some(entries[0].1)
    } else {
        text_lookup(entries.drop_first(), key)
    }
}

/// No key occurs twice.
pub open spec fn keys_unique<V>(entries: Seq<(Seq<char>, V)>) -> bool {
    forall|i: int, j: int|
        0 <= i < entries.len() && 0 <= j < entries.len() && i != j ==> #[trigger] entries[i].0
            != #[trigger] entries[j].0
}

/// The position of `key`, if it has an entry.
pub open spec fn key_position<V>(entries: Seq<(Seq<char>, V)>, key: Seq<char>) -> Option<int> {
    if exists|i: int| 0 <= i < entries.len() && entries[i].0 == key {
        Some(choose|i: int| 0 <= i < entries.len() && entries[i].0 == key)
    } else {
        None
    }
}

proof fn lemma_lookup_at<V>(entries: Seq<(Seq<char>, V)>, key: Seq<char>, i: int)
    requires
        keys_unique(entries),
        0 <= i < entries.len(),
        entries[i].0 == key,
    ensures
        text_lookup(entries, key) == Some(entries[i].1),
    decreases entries.len(),
{
    if i > 0 {
        let rest = entries.drop_first();
        assert(rest[i - 1] == entries[i]);
        assert(keys_unique(rest)) by {
            assert forall|a: int, b: int|
                0 <= a < rest.len() && 0 <= b < rest.len() && a != b implies #[trigger] rest[a].0
                != #[trigger] rest[b].0 by {
                assert(rest[a] == entries[a + 1]);
                assert(rest[b] == entries[b + 1]);
            }
        }
        assert(entries[0].0 != key) by {
            assert(entries[0].0 != entries[i].0);
        }
        lemma_lookup_at(rest, key, i - 1);
    }
}

proof fn lemma_lookup_absent<V>(entries: Seq<(Seq<char>, V)>, key: Seq<char>)
    requires
        forall|i: int| 0 <= i < entries.len() ==> entries[i].0 != key,
    ensures
        text_lookup(entries, key) is None,
    decreases entries.len(),
{
    if entries.len() > 0 {
        let rest = entries.drop_first();
        assert forall|i: int| 0 <= i < rest.len() implies rest[i].0 != key by {
            assert(rest[i] == entries[i + 1]);
        }
        lemma_lookup_absent(rest, key);
    }
}

/// In a map without repeated keys, the lookup finds the entry under the key
/// if there is one.
pub proof fn lemma_lookup<V>(entries: Seq<(Seq<char>, V)>, key: Seq<char>)
    requires
        keys_unique(entries),
    ensures
        match key_position(entries, key) {
            Some(i) => 0 <= i < entries.len() && entries[i].0 == key && text_lookup(entries, key)
                == Some(entries[i].1),
            None => text_lookup(entries, key) is None,
        },
{
    match key_position(entries, key) {
        Some(i) => {
            lemma_lookup_at(entries, key, i);
        },
        None => {
            lemma_lookup_absent(entries, key);
        },
    }
}

impl<V> TextMap<V> {
    /// The entries, each key taken by its view.
    pub closed spec fn view(&self) -> Seq<(Seq<char>, V)> {
        self.entries@.map_values(|e: (String, V)| (e.0@, e.1))
    }

    #[verifier::type_invariant]
    closed spec fn inv(&self) -> bool {
        keys_unique(self.view())
    }

    /// The value under `key`.
    pub open spec fn lookup(&self, key: Seq<char>) -> Option<V> {
        text_lookup(self.view(), key)
    }

    pub fn new() -> (r: Self)
        ensures
            r.view() == Seq::<(Seq<char>, V)>::empty(),
    {
        let r = TextMap { entries: Vec::new() };
        assert(r.view() =~= Seq::<(Seq<char>, V)>::empty());
        r
    }

    pub fn len(&self) -> (r: usize)
        ensures
            r == self.view().len(),
    {
        self.entries.len()
    }

    pub fn is_empty(&self) -> (r: bool)
        ensures
            r == (self.view().len() == 0),
    {
        self.entries.len() == 0
    }

    /// The entries in insertion order.
    pub fn entries(&self) -> (r: &Vec<(String, V)>)
        ensures
            r@.map_values(|e: (String, V)| (e.0@, e.1)) == self.view(),
            keys_unique(self.view()),
    {
        proof {
            use_type_invariant(self);
        }
        &self.entries
    }

    /// The position of the entry under `key`.
    fn position(&self, key: &Vec<char>) -> (r: Option<usize>)
        ensures
            match r {
                Some(i) => i < self.view().len() && self.view()[i as int].0 == key@,
                None => forall|i: int| 0 <= i < self.view().len() ==> self.view()[i].0 != key@,
            },
    {
        let mut i: usize = 0;
        while i < self.entries.len()
            invariant
                i <= self.entries.len(),
                forall|j: int| 0 <= j < i ==> self.view()[j].0 != key@,
            decreases self.entries.len() - i,
        {
            let cs = chars_of(self.entries[i].0.as_str());
            assert(self.view()[i as int].0 == cs@);
            if crate::text::matches_at(&cs, key, 0) && cs.len() == key.len() {
                assert(cs@.subrange(0, key@.len() as int) =~= cs@);
                return Some(i);
            }
            assert(cs@ != key@) by {
                if cs@ == key@ {
                    assert(cs@.subrange(0, key@.len() as int) =~= cs@);
                }
            }
            i += 1;
        }
        None
    }

    /// The value under `key`.
    pub fn get(&self, key: &str) -> (r: Option<&V>)
        ensures
            match r {
                Some(v) => self.lookup(key@) == Some(*v),
                None => self.lookup(key@) is None,
            },
    {
        proof {
            use_type_invariant(self);
        }
        let k = chars_of(key);
        match self.position(&k) {
            Some(i) => {
                proof {
                    lemma_lookup_at(self.view(), key@, i as int);
                }
                Some(&self.entries[i].1)
            },
            None => {
                proof {
                    lemma_lookup_absent(self.view(), key@);
                }
                None
            },
        }
    }

    /// Sets the value under `key`: a present key keeps its place and takes
    /// the new value; a new key is added last.
    pub fn insert(&mut self, key: String, value: V)
        ensures
            keys_unique(old(self).view()),
            match key_position(old(self).view(), key@) {
                Some(i) => final(self).view() == old(self).view().update(i, (key@, value)),
                None => final(self).view() == old(self).view().push((key@, value)),
            },
    {
        proof {
            use_type_invariant(&*self);
        }
        let k = chars_of(key.as_str());
        let ghost old_view = self.view();
        match self.position(&k) {
            Some(i) => {
                proof {
                    lemma_lookup(old_view, key@);
                    assert(old_view[key_position(old_view, key@)->0].0 == key@);
                    assert(key_position(old_view, key@) == Some(i as int)) by {
                        let j = key_position(old_view, key@)->0;
                        if j != i as int {
                            assert(old_view[j].0 != old_view[i as int].0);
                        }
                    }
                }
                let mut entries: Vec<(String, V)> = Vec::new();
                std::mem::swap(&mut entries, &mut self.entries);
                let ghost kv = key@;
                entries.set(i, (key, value));
                proof {
                    let after = entries@.map_values(|e: (String, V)| (e.0@, e.1));
                    assert(after =~= old_view.update(i as int, (kv, value)));
                    lemma_insert_then_lookup(old_view, after, kv, value, kv);
                }
                self.entries = entries;
                assert(self.view() =~= old_view.update(i as int, (kv, value)));
            },
            None => {
                let mut entries: Vec<(String, V)> = Vec::new();
                std::mem::swap(&mut entries, &mut self.entries);
                let ghost kv = key@;
                entries.push((key, value));
                proof {
                    let after = entries@.map_values(|e: (String, V)| (e.0@, e.1));
                    assert(after =~= old_view.push((kv, value)));
                    assert(key_position(old_view, kv) is None);
                    lemma_insert_then_lookup(old_view, after, kv, value, kv);
                }
                self.entries = entries;
                assert(self.view() =~= old_view.push((kv, value)));
            },
        }
    }
}

/// Read after write: after `insert(key, value)` the value under `key` is
/// `value`, and every other key keeps its value.
pub proof fn lemma_insert_then_lookup<V>(
    before: Seq<(Seq<char>, V)>,
    after: Seq<(Seq<char>, V)>,
    key: Seq<char>,
    value: V,
    other: Seq<char>,
)
    requires
        keys_unique(before),
        match key_position(before, key) {
            Some(i) => after == before.update(i, (key, value)),
            None => after == before.push((key, value)),
        },
    ensures
        keys_unique(after),
        text_lookup(after, key) == Some(value),
        other != key ==> text_lookup(after, other) == text_lookup(before, other),
{
    lemma_lookup(before, key);
    lemma_lookup(before, other);
    assert(keys_unique(after)) by {
        assert forall|a: int, b: int|
            0 <= a < after.len() && 0 <= b < after.len() && a != b implies #[trigger] after[a].0
            != #[trigger] after[b].0 by {
            if a < before.len() && b < before.len() {
                if key_position(before, key) is Some {
                    let i = key_position(before, key)->0;
                    if a == i {
                        assert(before[b].0 != before[i].0);
                    } else if b == i {
                        assert(before[a].0 != before[i].0);
                    } else {
                        assert(before[a].0 != before[b].0);
                    }
                } else {
                    assert(before[a].0 != before[b].0);
                }
            }
        }
    }
    match key_position(before, key) {
        Some(i) => {
            lemma_lookup_at(after, key, i);
            lemma_lookup(after, other);
            if other != key {
                match key_position(after, other) {
                    Some(j) => {
                        assert(after[j] == before[j]);
                        lemma_lookup_at(before, other, j);
                    },
                    None => {
                        assert forall|j: int| 0 <= j < before.len() implies before[j].0 != other by {
                            if j != i {
                                assert(after[j] == before[j]);
                            }
                        }
                        lemma_lookup_absent(before, other);
                    },
                }
            }
        },
        None => {
            lemma_lookup_at(after, key, before.len() as int);
            lemma_lookup(after, other);
            if other != key {
                match key_position(after, other) {
                    Some(j) => {
                        assert(after[j] == before[j]);
                        lemma_lookup_at(before, other, j);
                    },
                    None => {
                        assert forall|j: int| 0 <= j < before.len() implies before[j].0 != other by {
                            assert(after[j] == before[j]);
                        }
                        lemma_lookup_absent(before, other);
                    },
                }
            }
        },
    }
}

} // verus!
