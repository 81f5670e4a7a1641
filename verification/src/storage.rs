//! The durable byte-blob store: a mapping from string keys to byte blobs.
//!
//! Keys are unique and the last write wins. The host's stable memory backs
//! the store in deployment; the library verifies the mapping discipline
//! itself.

use vstd::prelude::*;

verus! {

/// Errors of the storage layer. Every one is recoverable: the caller
/// supplies data, or a different key, and retries.
#[derive(Clone, Copy, PartialEq, Eq, Structural, Debug)]
pub enum StorageError {
    /// A parallel-chunk operation found the chunk map empty.
    EmptyUpload,
    /// A commit found the sequential buffer empty.
    EmptyBuffer,
    /// A load found no blob under the given key.
    KeyNotFound,
}

/// The blob bound to `k`, reading the newest binding first.
spec fn spec_get(s: Seq<(String, Vec<u8>)>, k: Seq<char>) -> Option<Seq<u8>>
    decreases s.len(),
{
    if s.len() == 0 {
        None
    } else if s.last().0@ == k {
        Some(s.last().1@)
    } else {
        spec_get(s.drop_last(), k)
    }
}

/// A durable mapping from string keys to byte blobs.
pub struct StableStore {
    entries: Vec<(String, Vec<u8>)>,
}

impl StableStore {
    /// The abstract contents: a map from key to bytes.
    pub closed spec fn view_map(&self) -> Map<Seq<char>, Seq<u8>> {
        Map::new(
            |k: Seq<char>| spec_get(self.entries@, k) is Some,
            |k: Seq<char>| spec_get(self.entries@, k)->Some_0,
        )
    }

    /// Keys are pairwise distinct, so each key denotes one blob.
    pub closed spec fn wf(&self) -> bool {
        forall|i: int, j: int|
            0 <= i < j < self.entries@.len() ==> self.entries@[i].0@ != self.entries@[j].0@
    }

    /// The number of blobs the store holds.
    pub closed spec fn num_entries(&self) -> nat {
        self.entries@.len()
    }

    pub fn new() -> (r: Self)
        ensures
            r.wf(),
            r.view_map() == Map::<Seq<char>, Seq<u8>>::empty(),
            r.num_entries() == 0,
    {
        let r = StableStore { entries: Vec::new() };
        proof {
            assert(r.view_map() =~= Map::<Seq<char>, Seq<u8>>::empty());
        }
        r
    }

    /// Index of the entry holding `key`, if any.
    fn find(&self, key: &String) -> (r: Option<usize>)
        ensures
            match r {
                Some(i) => i < self.entries@.len() && self.entries@[i as int].0@ == key@,
                None => forall|i: int|
                    0 <= i < self.entries@.len() ==> self.entries@[i].0@ != key@,
            },
    {
        let n = self.entries.len();
        for i in 0..n
            invariant
                n == self.entries@.len(),
                forall|j: int| 0 <= j < i ==> self.entries@[j].0@ != key@,
        {
            if self.entries[i].0.eq(key) {
                return Some(i);
            }
        }
        None
    }

    /// Unconditional upsert: the key maps to `bytes` afterwards, and no
    /// other key changes.
    pub fn save_bytes_to_stable(&mut self, key: &String, bytes: Vec<u8>)
        requires
            old(self).wf(),
        ensures
            final(self).wf(),
            final(self).num_entries()
                == old(self).num_entries()
                    + (if old(self).view_map().contains_key(key@) { 0int } else { 1int }),
            final(self).view_map() == old(self).view_map().insert(key@, bytes@),
    {
        let ghost s_old = self.entries@;
        match self.find(key) {
            Some(i) => {
                proof {
                    lemma_get_present(s_old, i as int);
                }
                self.entries[i] = (key.clone(), bytes);
                proof {
                    lemma_get_update(s_old, i as int, self.entries@[i as int]);
                    assert(self.view_map() =~= old(self).view_map().insert(key@, bytes@));
                }
            },
            None => {
                proof {
                    lemma_get_absent(s_old, key@);
                }
                self.entries.push((key.clone(), bytes));
                proof {
                    assert(self.entries@.drop_last() =~= s_old);
                    assert(self.view_map() =~= old(self).view_map().insert(key@, bytes@));
                }
            },
        }
    }

    /// The blob under `key`, or `None` exactly when the key is absent.
    pub fn load_bytes_from_stable(&self, key: &String) -> (r: Option<Vec<u8>>)
        requires
            self.wf(),
        ensures
            match r {
                Some(v) => self.view_map().contains_key(key@) && v@ == self.view_map()[key@],
                None => !self.view_map().contains_key(key@),
            },
    {
        match self.find(key) {
            Some(i) => {
                proof {
                    lemma_get_present(self.entries@, i as int);
                }
                Some(clone_bytes(&self.entries[i].1))
            },
            None => {
                proof {
                    lemma_get_absent(self.entries@, key@);
                }
                None
            },
        }
    }

    /// Like [`Self::load_bytes_from_stable`], reporting absence as an error.
    pub fn get_stable_data(&self, key: &String) -> (r: Result<Vec<u8>, StorageError>)
        requires
            self.wf(),
        ensures
            match r {
                Ok(v) => self.view_map().contains_key(key@) && v@ == self.view_map()[key@],
                Err(e) => e == StorageError::KeyNotFound && !self.view_map().contains_key(key@),
            },
    {
        match self.load_bytes_from_stable(key) {
            Some(v) => Ok(v),
            None => Err(StorageError::KeyNotFound),
        }
    }

    /// The size in bytes of the blob under `key`, for status reporting;
    /// `None` exactly when the key is absent.
    pub fn size_of(&self, key: &String) -> (r: Option<usize>)
        requires
            self.wf(),
        ensures
            match r {
                Some(n) => self.view_map().contains_key(key@)
                    && n == self.view_map()[key@].len(),
                None => !self.view_map().contains_key(key@),
            },
    {
        match self.find(key) {
            Some(i) => {
                proof {
                    lemma_get_present(self.entries@, i as int);
                }
                Some(self.entries[i].1.len())
            },
            None => {
                proof {
                    lemma_get_absent(self.entries@, key@);
                }
                None
            },
        }
    }

    /// How many blobs the store holds.
    pub fn entry_count(&self) -> (r: usize)
        ensures
            r == self.num_entries(),
    {
        self.entries.len()
    }

    /// The store's contents in held order: each key with its blob's length.
    pub closed spec fn listing(&self) -> Seq<(Seq<char>, nat)> {
        Seq::new(self.entries@.len(), |i: int| (self.entries@[i].0@, self.entries@[i].1@.len()))
    }

    /// The keys currently bound, in held order, each with the length of
    /// its blob: exactly [`Self::listing`].
    pub fn key_sizes(&self) -> (r: Vec<(String, usize)>)
        requires
            self.wf(),
        ensures
            r@.len() == self.listing().len(),
            forall|i: int| 0 <= i < r@.len()
                ==> (#[trigger] r@[i]).0@ == self.listing()[i].0
                    && r@[i].1 == self.listing()[i].1,
            forall|i: int| 0 <= i < r@.len()
                ==> self.view_map().contains_key(#[trigger] r@[i].0@)
                    && r@[i].1 == self.view_map()[r@[i].0@].len(),
    {
        let mut r: Vec<(String, usize)> = Vec::new();
        let n = self.entries.len();
        for i in 0..n
            invariant
                self.wf(),
                n == self.entries@.len(),
                r@.len() == i,
                forall|j: int| 0 <= j < i
                    ==> (#[trigger] r@[j]).0@ == self.listing()[j].0
                        && r@[j].1 == self.listing()[j].1,
                forall|j: int| 0 <= j < i
                    ==> self.view_map().contains_key(#[trigger] r@[j].0@)
                        && r@[j].1 == self.view_map()[r@[j].0@].len(),
        {
            proof {
                lemma_get_present(self.entries@, i as int);
            }
            let k = self.entries[i].0.clone();
            let len = self.entries[i].1.len();
            r.push((k, len));
        }
        r
    }
}

/// If the entry at `i` holds key `k` and keys are distinct, the lookup
/// returns that entry's bytes.
proof fn lemma_get_present(s: Seq<(String, Vec<u8>)>, i: int)
    requires
        forall|a: int, b: int| 0 <= a < b < s.len() ==> s[a].0@ != s[b].0@,
        0 <= i < s.len(),
    ensures
        spec_get(s, s[i].0@) == Some(s[i].1@),
    decreases s.len(),
{
    if i == s.len() - 1 {
    } else {
        assert(s.last().0@ != s[i].0@);
        assert(s.drop_last()[i] == s[i]);
        lemma_get_present(s.drop_last(), i);
    }
}

/// If no entry holds key `k`, the lookup finds nothing.
proof fn lemma_get_absent(s: Seq<(String, Vec<u8>)>, k: Seq<char>)
    requires
        forall|i: int| 0 <= i < s.len() ==> s[i].0@ != k,
    ensures
        spec_get(s, k) is None,
    decreases s.len(),
{
    if s.len() > 0 {
        assert(forall|i: int| 0 <= i < s.drop_last().len() ==> s.drop_last()[i] == s[i]);
        lemma_get_absent(s.drop_last(), k);
    }
}

/// Replacing the entry at `i` with one that keeps its key rebinds that key
/// and leaves every other key's binding unchanged.
proof fn lemma_get_update(s: Seq<(String, Vec<u8>)>, i: int, p: (String, Vec<u8>))
    requires
        forall|a: int, b: int| 0 <= a < b < s.len() ==> s[a].0@ != s[b].0@,
        0 <= i < s.len(),
        p.0@ == s[i].0@,
    ensures
        forall|k: Seq<char>| #[trigger] spec_get(s.update(i, p), k)
            == (if k == p.0@ { Some(p.1@) } else { spec_get(s, k) }),
    decreases s.len(),
{
    let t = s.update(i, p);
    assert(t.len() == s.len());
    if i == s.len() - 1 {
        assert(t.last() == p);
        assert(t.drop_last() =~= s.drop_last());
        assert forall|k: Seq<char>| #[trigger] spec_get(t, k)
            == (if k == p.0@ { Some(p.1@) } else { spec_get(s, k) }) by {
            if k != p.0@ {
                assert(spec_get(t, k) == spec_get(t.drop_last(), k));
            }
        }
    } else {
        assert(t.last() == s.last());
        assert(t.drop_last() =~= s.drop_last().update(i, p));
        assert(s.drop_last()[i] == s[i]);
        lemma_get_update(s.drop_last(), i, p);
        assert(s.last().0@ != p.0@);
        assert forall|k: Seq<char>| #[trigger] spec_get(t, k)
            == (if k == p.0@ { Some(p.1@) } else { spec_get(s, k) }) by {
            if k == s.last().0@ {
            } else {
                assert(spec_get(t, k) == spec_get(t.drop_last(), k));
                assert(spec_get(s, k) == spec_get(s.drop_last(), k));
            }
        }
    }
}

/// Clones a blob so the caller owns it; the view is unchanged.
fn clone_bytes(v: &Vec<u8>) -> (r: Vec<u8>)
    ensures
        r@ == v@,
{
    let mut out: Vec<u8> = Vec::new();
    let n = v.len();
    for i in 0..n
        invariant
            n == v@.len(),
            out@ =~= v@.subrange(0, i as int),
    {
        out.push(v[i]);
        proof {
            assert(out@ =~= v@.subrange(0, i + 1 as int));
        }
    }
    proof {
        assert(out@ =~= v@);
    }
    out
}

} // verus!
