//! The arguments of a request to the storage system: a map from names to
//! texts, where a later entry replaces an earlier one of the same name.
use vstd::prelude::*;
use crate::text::{copy_str, str_eq};

verus! {

/// The map that a list of entries stands for: each entry sets its name.
pub open spec fn entries_map(e: Seq<(Seq<char>, Seq<char>)>) -> Map<Seq<char>, Seq<char>>
    decreases e.len(),
{
    if e.len() == 0 {
        Map::empty()
    } else {
        entries_map(e.drop_last()).insert(e.last().0, e.last().1)
    }
}

/// The entries by their characters.
pub open spec fn entry_views(e: Seq<(String, String)>) -> Seq<(Seq<char>, Seq<char>)> {
    e.map_values(|p: (String, String)| (p.0@, p.1@))
}

/// The arguments of a request.
pub struct Arguments {
    entries: Vec<(String, String)>,
}

impl View for Arguments {
    type V = Map<Seq<char>, Seq<char>>;

    closed spec fn view(&self) -> Map<Seq<char>, Seq<char>> {
        entries_map(entry_views(self.entries@))
    }
}

impl Arguments {
    /// No argument.
    pub fn new() -> (r: Arguments)
        ensures
            r@ == Map::<Seq<char>, Seq<char>>::empty(),
    {
        Arguments { entries: Vec::new() }
    }

    /// Sets `key` to `value` (`HashMap::insert`).
    pub fn insert(&mut self, key: String, value: String)
        ensures
            final(self)@ == old(self)@.insert(key@, value@),
    {
        let ghost e = entry_views(self.entries@);
        self.entries.push((key, value));
        assert(entry_views(self.entries@).drop_last() =~= e);
    }

    /// Sets `key` to `value`, both given as text slices.
    pub fn set(&mut self, key: &str, value: &str)
        ensures
            final(self)@ == old(self)@.insert(key@, value@),
    {
        self.insert(copy_str(key), copy_str(value));
    }

    /// The entries in the order they were set; setting them in that order
    /// gives the map.
    pub fn entries(&self) -> (r: &Vec<(String, String)>)
        ensures
            entries_map(entry_views(r@)) == self@,
    {
        &self.entries
    }

    /// A copy.
    pub fn clone(&self) -> (r: Arguments)
        ensures
            r@ == self@,
    {
        let mut entries: Vec<(String, String)> = Vec::new();
        let mut i: usize = 0;
        while i < self.entries.len()
            invariant
                0 <= i <= self.entries@.len(),
                entry_views(entries@) == entry_views(self.entries@).subrange(0, i as int),
            decreases self.entries.len() - i,
        {
            let k = copy_str(self.entries[i].0.as_str());
            let v = copy_str(self.entries[i].1.as_str());
            let ghost before = entry_views(entries@);
            entries.push((k, v));
            assert(entry_views(entries@) =~= before.push((self.entries@[i as int].0@, self.entries@[i as int].1@)));
            assert(entry_views(self.entries@).subrange(0, i + 1) =~= entry_views(self.entries@).subrange(0, i as int).push(entry_views(self.entries@)[i as int]));
            i = i + 1;
        }
        assert(entry_views(self.entries@).subrange(0, self.entries@.len() as int) =~= entry_views(self.entries@));
        Arguments { entries }
    }
}


/// The entries whose name is not `k`.
pub open spec fn without_key(e: Seq<(Seq<char>, Seq<char>)>, k: Seq<char>) -> Seq<(Seq<char>, Seq<char>)>
    decreases e.len(),
{
    if e.len() == 0 {
        e
    } else if e.last().0 == k {
        without_key(e.drop_last(), k)
    } else {
        without_key(e.drop_last(), k).push(e.last())
    }
}

/// Dropping the entries of a name removes it from the map.
pub proof fn lemma_without_key(e: Seq<(Seq<char>, Seq<char>)>, k: Seq<char>)
    ensures
        entries_map(without_key(e, k)) == entries_map(e).remove(k),
    decreases e.len(),
{
    if e.len() > 0 {
        lemma_without_key(e.drop_last(), k);
        if e.last().0 != k {
            let w = without_key(e.drop_last(), k).push(e.last());
            assert(w.drop_last() =~= without_key(e.drop_last(), k));
            assert(entries_map(w) =~= entries_map(e).remove(k));
        } else {
            assert(entries_map(e).remove(k) =~= entries_map(e.drop_last()).remove(k));
        }
    } else {
        assert(entries_map(e).remove(k) =~= entries_map(e));
    }
}

/// Entries after `i` that do not name `k` leave its value as the first `i`
/// entries set it.
pub proof fn lemma_lookup_prefix(e: Seq<(Seq<char>, Seq<char>)>, k: Seq<char>, i: int)
    requires
        0 <= i <= e.len(),
        forall|j: int| i <= j < e.len() ==> (#[trigger] e[j]).0 != k,
    ensures
        entries_map(e).contains_key(k) == entries_map(e.subrange(0, i)).contains_key(k),
        entries_map(e).contains_key(k) ==> entries_map(e)[k] == entries_map(e.subrange(0, i))[k],
    decreases e.len() - i,
{
    if i < e.len() {
        lemma_lookup_prefix(e.drop_last(), k, i);
        assert(e.drop_last().subrange(0, i) =~= e.subrange(0, i));
        assert(e.last() == e[e.len() - 1]);
    } else {
        assert(e.subrange(0, i) =~= e);
    }
}

impl Arguments {
    /// The value set for `key`, if any.
    pub fn get(&self, key: &str) -> (r: Option<String>)
        ensures
            match r {
                Some(v) => self@.contains_key(key@) && self@[key@] == v@,
                None => !self@.contains_key(key@),
            },
    {
        let ghost e = entry_views(self.entries@);
        let mut i: usize = self.entries.len();
        while i > 0
            invariant
                0 <= i <= self.entries@.len(),
                e == entry_views(self.entries@),
                forall|j: int| i <= j < e.len() ==> (#[trigger] e[j]).0 != key@,
            decreases i,
        {
            i = i - 1;
            assert(e[i as int] == (self.entries@[i as int].0@, self.entries@[i as int].1@));
            if str_eq(self.entries[i].0.as_str(), key) {
                proof {
                    lemma_lookup_prefix(e, key@, i + 1);
                    assert(e.subrange(0, i + 1).drop_last() =~= e.subrange(0, i as int));
                    assert(e.subrange(0, i + 1).last() == e[i as int]);
                }
                return Some(copy_str(self.entries[i].1.as_str()));
            }
        }
        proof {
            lemma_lookup_prefix(e, key@, 0);
            assert(e.subrange(0, 0).len() == 0);
        }
        None
    }

    /// Removes `key` and gives its value, if any (`HashMap::remove`).
    pub fn remove(&mut self, key: &str) -> (r: Option<String>)
        ensures
            final(self)@ == old(self)@.remove(key@),
            match r {
                Some(v) => old(self)@.contains_key(key@) && old(self)@[key@] == v@,
                None => !old(self)@.contains_key(key@),
            },
    {
        let r = self.get(key);
        let ghost e = entry_views(self.entries@);
        let mut kept: Vec<(String, String)> = Vec::new();
        let mut i: usize = 0;
        while i < self.entries.len()
            invariant
                0 <= i <= self.entries@.len(),
                e == entry_views(self.entries@),
                entry_views(kept@) == without_key(e.subrange(0, i as int), key@),
            decreases self.entries.len() - i,
        {
            let ghost sub = e.subrange(0, i + 1);
            assert(sub.drop_last() =~= e.subrange(0, i as int));
            assert(sub.last() == (self.entries@[i as int].0@, self.entries@[i as int].1@));
            if !str_eq(self.entries[i].0.as_str(), key) {
                let ghost before = entry_views(kept@);
                kept.push((copy_str(self.entries[i].0.as_str()), copy_str(self.entries[i].1.as_str())));
                assert(entry_views(kept@) =~= before.push(sub.last()));
            }
            i = i + 1;
        }
        proof {
            assert(e.subrange(0, self.entries@.len() as int) =~= e);
            lemma_without_key(e, key@);
        }
        self.entries = kept;
        r
    }
}

/// What `insert` sets for a key, `get` reads back, and the other keys keep
/// their values; once `remove` took the key out, `get` finds nothing.
pub proof fn lemma_insert_then_get(
    m: Map<Seq<char>, Seq<char>>,
    key: Seq<char>,
    value: Seq<char>,
    other: Seq<char>,
)
    requires
        other != key,
    ensures
        m.insert(key, value).contains_key(key),
        m.insert(key, value)[key] == value,
        m.insert(key, value).contains_key(other) == m.contains_key(other),
        m.contains_key(other) ==> m.insert(key, value)[other] == m[other],
        !m.insert(key, value).remove(key).contains_key(key),
{
}

} // verus!
