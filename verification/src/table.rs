//! A small map from text to values that keeps the order of insertion.

use vstd::prelude::*;

use crate::text::same_text;

verus! {

/// Whether some entry has this key.
pub open spec fn has_key<T>(entries: Seq<(Seq<char>, T)>, key: Seq<char>) -> bool {
    exists|i: int| 0 <= i < entries.len() && #[trigger] entries[i].0 == key
}

/// Whether no two entries have the same key.
pub open spec fn distinct_keys<T>(entries: Seq<(Seq<char>, T)>) -> bool {
    forall|i: int, j: int|
        0 <= i < j < entries.len() ==> (#[trigger] entries[i]).0 != (#[trigger] entries[j]).0
}

/// The value of the first entry with this key.
pub open spec fn lookup<T>(entries: Seq<(Seq<char>, T)>, key: Seq<char>) -> Option<T>
    decreases entries.len(),
{
    if entries.len() == 0 {
        None
    } else if entries[0].0 == key {
        Some(entries[0].1)
    } else {
        lookup(entries.drop_first(), key)
    }
}

/// The entries after the value of `key` was set to `value`: an entry with that
/// key keeps its place, and otherwise a new entry comes last.
pub open spec fn with_entry<T>(
    entries: Seq<(Seq<char>, T)>,
    key: Seq<char>,
    value: T,
) -> Seq<(Seq<char>, T)> {
    if has_key(entries, key) {
        entries.map_values(
            |e: (Seq<char>, T)|
                if e.0 == key {
                    (key, value)
                } else {
                    e
                },
        )
    } else {
        entries.push((key, value))
    }
}

/// The first match at `i` is what [`lookup`] finds.
pub proof fn lemma_lookup_first<T>(entries: Seq<(Seq<char>, T)>, key: Seq<char>, i: int)
    requires
        0 <= i < entries.len(),
        entries[i].0 == key,
        forall|j: int| 0 <= j < i ==> (#[trigger] entries[j]).0 != key,
    ensures
        lookup(entries, key) == Some(entries[i].1),
    decreases entries.len(),
{
    if i > 0 {
        assert(entries[0].0 != key);
        let rest = entries.drop_first();
        assert forall|j: int| 0 <= j < i - 1 implies (#[trigger] rest[j]).0 != key by {
            assert(rest[j] == entries[j + 1]);
        }
        lemma_lookup_first(rest, key, i - 1);
    }
}

/// [`lookup`] finds nothing exactly where no entry has the key.
pub proof fn lemma_lookup_none<T>(entries: Seq<(Seq<char>, T)>, key: Seq<char>)
    ensures
        lookup(entries, key) is None <==> !has_key(entries, key),
    decreases entries.len(),
{
    if entries.len() > 0 {
        let rest = entries.drop_first();
        lemma_lookup_none(rest, key);
        if entries[0].0 != key {
            if has_key(entries, key) {
                let i = choose|i: int| 0 <= i < entries.len() && #[trigger] entries[i].0 == key;
                assert(rest[i - 1].0 == key);
            }
            if has_key(rest, key) {
                let i = choose|i: int| 0 <= i < rest.len() && #[trigger] rest[i].0 == key;
                assert(entries[i + 1].0 == key);
            }
        }
    }
}

/// Setting a key makes [`lookup`] find the new value under that key, leaves
/// every other key alone, and keeps the keys distinct.
pub proof fn lemma_with_entry<T>(entries: Seq<(Seq<char>, T)>, key: Seq<char>, value: T)
    requires
        distinct_keys(entries),
    ensures
        distinct_keys(with_entry(entries, key, value)),
        lookup(with_entry(entries, key, value), key) == Some(value),
        forall|other: Seq<char>|
            other != key ==> #[trigger] lookup(with_entry(entries, key, value), other) == lookup(
                entries,
                other,
            ),
{
    let after = with_entry(entries, key, value);
    assert forall|other: Seq<char>| other != key implies #[trigger] lookup(after, other) == lookup(
        entries,
        other,
    ) by {
        lemma_lookup_none(entries, other);
        lemma_lookup_none(after, other);
        if has_key(entries, other) {
            let i = choose|i: int| 0 <= i < entries.len() && #[trigger] entries[i].0 == other;
            assert(after[i] == entries[i]);
            lemma_lookup_first(entries, other, i);
            lemma_lookup_first(after, other, i);
        } else if has_key(after, other) {
            let i = choose|i: int| 0 <= i < after.len() && #[trigger] after[i].0 == other;
            assert(i < entries.len());
            assert(entries[i].0 == other);
        }
    }
    if has_key(entries, key) {
        let i = choose|i: int| 0 <= i < entries.len() && #[trigger] entries[i].0 == key;
        assert(after[i] == (key, value));
        lemma_lookup_first(after, key, i);
    } else {
        assert(after[entries.len() as int] == (key, value));
        assert forall|j: int| 0 <= j < entries.len() implies (#[trigger] after[j]).0 != key by {
            assert(entries[j] == after[j]);
        }
        lemma_lookup_first(after, key, entries.len() as int);
    }
}

/// A map from text to values, in order of insertion.
#[derive(Debug)]
pub struct Table<T> {
    entries: Vec<(String, T)>,
}

/// What a list of pairs holds, with each key as text.
pub open spec fn entries_view<T>(entries: Seq<(String, T)>) -> Seq<(Seq<char>, T)> {
    entries.map_values(|e: (String, T)| (e.0@, e.1))
}

impl<T> View for Table<T> {
    type V = Seq<(Seq<char>, T)>;

    closed spec fn view(&self) -> Seq<(Seq<char>, T)> {
        entries_view(self.entries@)
    }
}

impl<T> Table<T> {
    #[verifier::type_invariant]
    spec fn inv(self) -> bool {
        distinct_keys(entries_view(self.entries@))
    }

    /// A table without entries.
    pub fn new() -> (r: Self)
        ensures
            r@ == Seq::<(Seq<char>, T)>::empty(),
    {
        let r = Table { entries: Vec::new() };
        assert(r@ =~= Seq::<(Seq<char>, T)>::empty());
        r
    }

    /// The number of entries.
    pub fn len(&self) -> (n: usize)
        ensures
            n == self@.len(),
    {
        self.entries.len()
    }

    /// The entries, in order of insertion.
    pub fn entries(&self) -> (r: &Vec<(String, T)>)
        ensures
            entries_view(r@) == self@,
            distinct_keys(self@),
    {
        proof {
            use_type_invariant(self);
        }
        &self.entries
    }

    /// The value of `key`.
    pub fn get(&self, key: &str) -> (r: Option<&T>)
        ensures
            r == (match lookup(self@, key@) {
                Some(v) => Some(&v),
                None => None,
            }),
    {
        for i in 0..self.entries.len()
            invariant
                forall|j: int| 0 <= j < i ==> (#[trigger] self@[j]).0 != key@,
        {
            if same_text(self.entries[i].0.as_str(), key) {
                proof {
                    lemma_lookup_first(self@, key@, i as int);
                }
                return Some(&self.entries[i].1);
            }
        }
        proof {
            lemma_lookup_none(self@, key@);
        }
        None
    }

    /// Sets the value of `key`.
    pub fn insert(&mut self, key: String, value: T)
        ensures
            final(self)@ == with_entry(old(self)@, key@, value),
            distinct_keys(final(self)@),
    {
        proof {
            use_type_invariant(&*self);
            lemma_with_entry(self@, key@, value);
        }
        let ghost before = self@;
        let mut entries = Vec::new();
        std::mem::swap(&mut entries, &mut self.entries);
        let mut place: Option<usize> = None;
        for i in 0..entries.len()
            invariant
                entries_view(entries@) == before,
                distinct_keys(before),
                match place {
                    Some(p) => p < i && before[p as int].0 == key@,
                    None => forall|j: int| 0 <= j < i ==> (#[trigger] before[j]).0 != key@,
                },
        {
            if same_text(entries[i].0.as_str(), key.as_str()) {
                place = Some(i);
            }
        }
        match place {
            Some(p) => {
                entries.set(p, (key, value));
                assert(has_key(before, key@)) by {
                    assert(before[p as int].0 == key@);
                }
                assert forall|j: int| 0 <= j < before.len() implies entries_view(entries@)[j]
                    == with_entry(before, key@, value)[j] by {
                    if j != p {
                        assert(before[j].0 != before[p as int].0);
                    }
                }
            },
            None => {
                entries.push((key, value));
            },
        }
        assert(entries_view(entries@) =~= with_entry(before, key@, value));
        self.entries = entries;
    }
}

} // verus!
