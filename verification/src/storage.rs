//! The persisted key/value store backing contract state.
//!
//! An in-memory reference implementation: an association list with unique
//! keys, viewed as a mathematical map from key bytes to value bytes.
use vstd::prelude::*;

verus! {

/// In-memory trivial key/value storage.
pub struct MemoryMKVS {
    entries: Vec<(Vec<u8>, Vec<u8>)>,
}

/// The map an entry list denotes, later entries shadowing earlier ones.
pub open spec fn entries_map(s: Seq<(Vec<u8>, Vec<u8>)>) -> Map<Seq<u8>, Seq<u8>>
    decreases s.len(),
{
    if s.len() == 0 {
        Map::empty()
    } else {
        entries_map(s.drop_last()).insert(s.last().0@, s.last().1@)
    }
}

/// No key occurs twice.
pub open spec fn entries_uniq(s: Seq<(Vec<u8>, Vec<u8>)>) -> bool {
    forall|i: int, j: int| 0 <= i < j < s.len() ==> (#[trigger] s[i]).0@ != (#[trigger] s[j]).0@
}

impl View for MemoryMKVS {
    type V = Map<Seq<u8>, Seq<u8>>;

    closed spec fn view(&self) -> Map<Seq<u8>, Seq<u8>> {
        entries_map(self.entries@)
    }
}

proof fn lemma_entries_absent(s: Seq<(Vec<u8>, Vec<u8>)>, k: Seq<u8>)
    requires
        forall|i: int| 0 <= i < s.len() ==> (#[trigger] s[i]).0@ != k,
    ensures
        !entries_map(s).contains_key(k),
    decreases s.len(),
{
    if s.len() > 0 {
        assert(forall|i: int| 0 <= i < s.len() - 1 ==> (#[trigger] s.drop_last()[i]).0@ != k);
        lemma_entries_absent(s.drop_last(), k);
        assert(s.last() == s[s.len() - 1]);
    }
}

proof fn lemma_entries_lookup(s: Seq<(Vec<u8>, Vec<u8>)>, i: int)
    requires
        entries_uniq(s),
        0 <= i < s.len(),
    ensures
        entries_map(s).contains_key(s[i].0@),
        entries_map(s)[s[i].0@] == s[i].1@,
    decreases s.len(),
{
    let k = s[i].0@;
    if i == s.len() - 1 {
        assert(s.last() == s[i]);
    } else {
        assert(s.drop_last()[i] == s[i]);
        assert(entries_uniq(s.drop_last()));
        lemma_entries_lookup(s.drop_last(), i);
        assert(s.last() == s[s.len() - 1]);
        assert(s.last().0@ != k);
    }
}

proof fn lemma_entries_remove(s: Seq<(Vec<u8>, Vec<u8>)>, i: int)
    requires
        entries_uniq(s),
        0 <= i < s.len(),
    ensures
        entries_map(s.remove(i)) == entries_map(s).remove(s[i].0@),
    decreases s.len(),
{
    let k = s[i].0@;
    if i == s.len() - 1 {
        assert(s.remove(i) =~= s.drop_last());
        assert(forall|j: int| 0 <= j < s.len() - 1 ==> (#[trigger] s.drop_last()[j]).0@ != k);
        lemma_entries_absent(s.drop_last(), k);
        assert(s.last() == s[i]);
        assert(entries_map(s.drop_last()) =~= entries_map(s.drop_last()).insert(k, s[i].1@).remove(
            k,
        ));
    } else {
        let dl = s.drop_last();
        assert(dl[i] == s[i]);
        assert(entries_uniq(dl));
        lemma_entries_remove(dl, i);
        assert(s.remove(i).drop_last() =~= dl.remove(i));
        assert(s.remove(i).last() == s.last());
        assert(s.last() == s[s.len() - 1]);
        assert(s.last().0@ != k);
        assert(entries_map(dl).remove(k).insert(s.last().0@, s.last().1@) =~= entries_map(
            dl,
        ).insert(s.last().0@, s.last().1@).remove(k));
    }
}

impl MemoryMKVS {
    /// Whether the entry list is well formed; constructors establish it and
    /// every operation preserves it.
    pub closed spec fn wf(&self) -> bool {
        entries_uniq(self.entries@)
    }

    /// Creates an empty store.
    pub fn new() -> (r: Self)
        ensures
            r@ == Map::<Seq<u8>, Seq<u8>>::empty(),
            r.wf(),
    {
        MemoryMKVS { entries: Vec::new() }
    }

    /// Index of the entry holding `key`, if any.
    fn find(&self, key: &Vec<u8>) -> (r: Option<usize>)
        ensures
            match r {
                Some(i) => i < self.entries@.len() && self.entries@[i as int].0@ == key@,
                None => forall|i: int|
                    0 <= i < self.entries@.len() ==> (#[trigger] self.entries@[i]).0@ != key@,
            },
    {
        let n = self.entries.len();
        let mut i: usize = 0;
        while i < n
            invariant
                i <= n,
                n == self.entries@.len(),
                forall|j: int| 0 <= j < i ==> (#[trigger] self.entries@[j]).0@ != key@,
            decreases n - i,
        {
            if crate::bytes::bytes_eq(&self.entries[i].0, key) {
                return Some(i);
            }
            i += 1;
        }
        None
    }

    /// Looks a key up.
    pub fn get(&self, key: &Vec<u8>) -> (r: Option<&Vec<u8>>)
        requires
            self.wf(),
        ensures
            match r {
                Some(v) => self@.contains_key(key@) && self@[key@] == v@,
                None => !self@.contains_key(key@),
            },
    {
        match self.find(key) {
            Some(i) => {
                proof {
                    lemma_entries_lookup(self.entries@, i as int);
                }
                Some(&self.entries[i].1)
            },
            None => {
                proof {
                    lemma_entries_absent(self.entries@, key@);
                }
                None
            },
        }
    }

    /// Removes the entry holding `key`, leaving no entry with that key.
    fn remove_entry(&mut self, key: &Vec<u8>) -> (r: Option<Vec<u8>>)
        requires
            old(self).wf(),
        ensures
            final(self).wf(),
            final(self)@ == old(self)@.remove(key@),
            forall|i: int|
                0 <= i < final(self).entries@.len() ==> (#[trigger] final(self).entries@[i]).0@
                    != key@,
            match r {
                Some(v) => old(self)@.contains_key(key@) && old(self)@[key@] == v@,
                None => !old(self)@.contains_key(key@),
            },
    {
        match self.find(key) {
            Some(i) => {
                proof {
                    lemma_entries_lookup(self.entries@, i as int);
                    lemma_entries_remove(self.entries@, i as int);
                }
                let entry = self.entries.remove(i);
                proof {
                    assert(entries_uniq(self.entries@));
                    assert forall|j: int| 0 <= j < self.entries@.len() implies (
                    #[trigger] self.entries@[j]).0@ != key@ by {
                        if j < i {
                            assert(self.entries@[j] == old(self).entries@[j]);
                        } else {
                            assert(self.entries@[j] == old(self).entries@[j + 1]);
                        }
                    }
                }
                Some(entry.1)
            },
            None => {
                proof {
                    lemma_entries_absent(self.entries@, key@);
                    assert(old(self)@ =~= old(self)@.remove(key@));
                }
                None
            },
        }
    }

    /// Stores a value under a key, returning the value it replaces.
    pub fn insert(&mut self, key: Vec<u8>, value: Vec<u8>) -> (r: Option<Vec<u8>>)
        requires
            old(self).wf(),
        ensures
            final(self).wf(),
            final(self)@ == old(self)@.insert(key@, value@),
            match r {
                Some(v) => old(self)@.contains_key(key@) && old(self)@[key@] == v@,
                None => !old(self)@.contains_key(key@),
            },
    {
        let prior = self.remove_entry(&key);
        let ghost pruned = self.entries@;
        let ghost key_view = key@;
        self.entries.push((key, value));
        proof {
            assert(self.entries@.drop_last() =~= pruned);
            assert(entries_map(self.entries@) == entries_map(pruned).insert(key_view, value@));
            assert(old(self)@.remove(key_view).insert(key_view, value@) =~= old(self)@.insert(
                key_view,
                value@,
            ));
            assert(entries_uniq(self.entries@));
        }
        prior
    }

    /// Removes a key, returning the value it held.
    pub fn remove(&mut self, key: &Vec<u8>) -> (r: Option<Vec<u8>>)
        requires
            old(self).wf(),
        ensures
            final(self).wf(),
            final(self)@ == old(self)@.remove(key@),
            match r {
                Some(v) => old(self)@.contains_key(key@) && old(self)@[key@] == v@,
                None => !old(self)@.contains_key(key@),
            },
    {
        self.remove_entry(key)
    }
}

/// Entry lists with the same key and value bytes denote the same map.
proof fn lemma_entries_congruent(a: Seq<(Vec<u8>, Vec<u8>)>, b: Seq<(Vec<u8>, Vec<u8>)>)
    requires
        a.len() == b.len(),
        forall|j: int|
            0 <= j < a.len() ==> (#[trigger] a[j]).0@ == (#[trigger] b[j]).0@ && a[j].1@ == b[j].1@,
    ensures
        entries_map(a) == entries_map(b),
    decreases a.len(),
{
    if a.len() > 0 {
        assert(forall|j: int|
            0 <= j < a.len() - 1 ==> (#[trigger] a.drop_last()[j]).0@ == (
            #[trigger] b.drop_last()[j]).0@ && a.drop_last()[j].1@ == b.drop_last()[j].1@);
        lemma_entries_congruent(a.drop_last(), b.drop_last());
        assert(a.last() == a[a.len() - 1] && b.last() == b[b.len() - 1]);
    }
}

impl MemoryMKVS {
    /// A copy of the store: a stable snapshot that later commits to the
    /// original cannot disturb.
    pub fn snapshot(&self) -> (r: Self)
        requires
            self.wf(),
        ensures
            r@ == self@,
            r.wf(),
    {
        let n = self.entries.len();
        let mut entries: Vec<(Vec<u8>, Vec<u8>)> = Vec::new();
        let mut i: usize = 0;
        while i < n
            invariant
                i <= n,
                n == self.entries@.len(),
                entries@.len() == i,
                forall|j: int|
                    0 <= j < i ==> (#[trigger] entries@[j]).0@ == (
                    #[trigger] self.entries@[j]).0@ && entries@[j].1@ == self.entries@[j].1@,
            decreases n - i,
        {
            let k = crate::bytes::copy_whole(&self.entries[i].0);
            let v = crate::bytes::copy_whole(&self.entries[i].1);
            entries.push((k, v));
            i += 1;
        }
        proof {
            lemma_entries_congruent(entries@, self.entries@);
            assert forall|a: int, b: int| 0 <= a < b < entries@.len() implies (
            #[trigger] entries@[a]).0@ != (#[trigger] entries@[b]).0@ by {
                assert(entries@[a].0@ == self.entries@[a].0@);
                assert(entries@[b].0@ == self.entries@[b].0@);
            }
        }
        MemoryMKVS { entries }
    }
}

} // verus!
