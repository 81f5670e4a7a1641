//! The chunk assembler: a sequential upload buffer and a parallel chunk map.
//!
//! Fragments arrive either in order (appended to the single buffer) or in
//! any order under explicit chunk ids. Consolidation concatenates the
//! chunks in ascending id order — never insertion order — so a client may
//! deliver them in any permutation and still obtain the same bytes.

use vstd::prelude::*;
use vstd::string::StringExecFns;
use crate::fmt::{dec_spec, push_decimal};
use crate::storage::{StableStore, StorageError};

verus! {

/// The ghost image of the chunk map: pairs of id and bytes, ordered as held.
pub open spec fn chunk_entries(v: Seq<(u32, Vec<u8>)>) -> Seq<(u32, Seq<u8>)> {
    v.map_values(|p: (u32, Vec<u8>)| (p.0, p.1@))
}

/// The ids of the chunk map, in held order.
pub open spec fn ids_of(s: Seq<(u32, Seq<u8>)>) -> Seq<u32> {
    s.map_values(|p: (u32, Seq<u8>)| p.0)
}

/// Ids strictly increase, so each id occurs once and iteration order is
/// ascending id order.
pub open spec fn sorted_ids(s: Seq<(u32, Seq<u8>)>) -> bool {
    forall|i: int, j: int| 0 <= i < j < s.len() ==> s[i].0 < s[j].0
}

/// The bytes held under `id`, reading the newest binding first.
pub open spec fn chunk_lookup(s: Seq<(u32, Seq<u8>)>, id: u32) -> Option<Seq<u8>>
    decreases s.len(),
{
    if s.len() == 0 {
        None
    } else if s.last().0 == id {
        Some(s.last().1)
    } else {
        chunk_lookup(s.drop_last(), id)
    }
}

/// The concatenation of the chunks' bytes in held order.
pub open spec fn chunk_concat(s: Seq<(u32, Seq<u8>)>) -> Seq<u8>
    decreases s.len(),
{
    if s.len() == 0 {
        Seq::empty()
    } else {
        chunk_concat(s.drop_last()) + s.last().1
    }
}

/// The total byte count over all chunks.
pub open spec fn chunk_total(s: Seq<(u32, Seq<u8>)>) -> nat
    decreases s.len(),
{
    if s.len() == 0 {
        0nat
    } else {
        chunk_total(s.drop_last()) + s.last().1.len()
    }
}

/// The chunk map is complete for `n` iff its id set is exactly `{0, ..., n-1}`.
pub open spec fn complete_upto(s: Seq<(u32, Seq<u8>)>, n: u32) -> bool {
    ids_of(s).to_set() == Set::new(|x: u32| x < n)
}

/// Accumulates uploaded fragments until they are consolidated or committed
/// to the byte-blob store.
pub struct Uploader {
    buffer: Vec<u8>,
    chunks: Vec<(u32, Vec<u8>)>,
}

impl Uploader {
    /// The sequential upload buffer's bytes.
    pub closed spec fn buffer_view(&self) -> Seq<u8> {
        self.buffer@
    }

    /// The parallel chunk map as a sequence of (id, bytes) pairs in held order.
    pub closed spec fn chunk_seq(&self) -> Seq<(u32, Seq<u8>)> {
        chunk_entries(self.chunks@)
    }

    /// Chunk ids strictly ascend.
    pub open spec fn wf(&self) -> bool {
        sorted_ids(self.chunk_seq())
    }

    pub fn new() -> (r: Self)
        ensures
            r.wf(),
            r.buffer_view() == Seq::<u8>::empty(),
            r.chunk_seq() == Seq::<(u32, Seq<u8>)>::empty(),
    {
        let r = Uploader { buffer: Vec::new(), chunks: Vec::new() };
        proof {
            assert(r.buffer_view() =~= Seq::<u8>::empty());
            assert(r.chunk_seq() =~= Seq::<(u32, Seq<u8>)>::empty());
        }
        r
    }

    // ─────────────────────────────────────────────────────
    //  Sequential upload
    // ─────────────────────────────────────────────────────

    /// Appends a fragment to the sequential buffer, preserving received order.
    pub fn append_chunk(&mut self, chunk: Vec<u8>)
        ensures
            final(self).buffer_view() == old(self).buffer_view() + chunk@,
            final(self).chunk_seq() == old(self).chunk_seq(),
    {
        extend_bytes(&mut self.buffer, &chunk);
    }

    /// The sequential buffer's byte count.
    pub fn buffer_size(&self) -> (r: usize)
        ensures
            r == self.buffer_view().len(),
    {
        self.buffer.len()
    }

    /// Empties the sequential buffer; the chunk map is untouched.
    pub fn clear_buffer(&mut self)
        ensures
            final(self).buffer_view() == Seq::<u8>::empty(),
            final(self).chunk_seq() == old(self).chunk_seq(),
    {
        self.buffer.clear();
        proof {
            assert(self.buffer_view() =~= Seq::<u8>::empty());
        }
    }

    /// Hands the buffered bytes to the caller, draining the buffer.
    pub fn get_data(&mut self) -> (r: Vec<u8>)
        ensures
            r@ == old(self).buffer_view(),
            final(self).buffer_view() == Seq::<u8>::empty(),
            final(self).chunk_seq() == old(self).chunk_seq(),
    {
        let mut data: Vec<u8> = Vec::new();
        core::mem::swap(&mut data, &mut self.buffer);
        proof {
            assert(self.buffer_view() =~= Seq::<u8>::empty());
        }
        data
    }

    // ─────────────────────────────────────────────────────
    //  Parallel upload
    // ─────────────────────────────────────────────────────

    /// The first position whose id is at least `id`; `len` if every id is
    /// smaller.
    fn find_insert_pos(&self, id: u32) -> (r: usize)
        requires
            self.wf(),
        ensures
            r <= self.chunk_seq().len(),
            forall|j: int| 0 <= j < r ==> self.chunk_seq()[j].0 < id,
            forall|j: int| r <= j < self.chunk_seq().len() ==> self.chunk_seq()[j].0 >= id,
    {
        let n = self.chunks.len();
        for i in 0..n
            invariant
                n == self.chunk_seq().len(),
                n == self.chunks@.len(),
                self.wf(),
                forall|j: int| 0 <= j < i ==> self.chunk_seq()[j].0 < id,
        {
            if self.chunks[i].0 >= id {
                proof {
                    assert forall|j: int| i <= j < self.chunk_seq().len()
                        implies self.chunk_seq()[j].0 >= id by {
                        if j > i {
                            assert(self.chunk_seq()[i as int].0 < self.chunk_seq()[j].0);
                        }
                    }
                }
                return i;
            }
        }
        n
    }

    /// Inserts or overwrites the chunk under `chunk_id`: re-sending an id
    /// replaces its prior bytes, so retried delivery is idempotent.
    pub fn append_parallel_chunk(&mut self, chunk_id: u32, chunk: Vec<u8>)
        requires
            old(self).wf(),
        ensures
            final(self).wf(),
            final(self).buffer_view() == old(self).buffer_view(),
            chunk_lookup(final(self).chunk_seq(), chunk_id) == Some(chunk@),
            forall|id: u32| id != chunk_id
                ==> #[trigger] chunk_lookup(final(self).chunk_seq(), id)
                    == chunk_lookup(old(self).chunk_seq(), id),
            final(self).chunk_seq().len()
                == old(self).chunk_seq().len()
                    + (if chunk_lookup(old(self).chunk_seq(), chunk_id) is Some {
                        0int
                    } else {
                        1int
                    }),
    {
        let ghost s_old = self.chunk_seq();
        let pos = self.find_insert_pos(chunk_id);
        if pos < self.chunks.len() && self.chunks[pos].0 == chunk_id {
            proof {
                lemma_chunk_present(s_old, pos as int);
            }
            self.chunks[pos] = (chunk_id, chunk);
            proof {
                assert(self.chunk_seq() =~= s_old.update(pos as int, (chunk_id, chunk@)));
                lemma_chunk_update(s_old, pos as int, (chunk_id, chunk@));
            }
        } else {
            proof {
                assert forall|j: int| 0 <= j < s_old.len()
                    implies s_old[j].0 != chunk_id by {
                    if j >= pos {
                        assert(s_old[j].0 >= chunk_id);
                        if j > pos {
                            assert(s_old[pos as int].0 < s_old[j].0);
                        }
                    }
                }
                lemma_chunk_absent(s_old, chunk_id);
                assert forall|j: int| pos <= j < s_old.len()
                    implies s_old[j].0 > chunk_id by {
                    if j > pos {
                        assert(s_old[pos as int].0 < s_old[j].0);
                    }
                }
            }
            self.chunks.insert(pos, (chunk_id, chunk));
            proof {
                assert(self.chunk_seq() =~= s_old.insert(pos as int, (chunk_id, chunk@)));
                lemma_chunk_insert(s_old, pos as int, (chunk_id, chunk@));
            }
        }
    }

    /// How many chunks the map holds.
    pub fn parallel_chunk_count(&self) -> (r: usize)
        ensures
            r == self.chunk_seq().len(),
    {
        self.chunks.len()
    }

    /// The chunk ids, in ascending order.
    pub fn parallel_chunk_ids(&self) -> (r: Vec<u32>)
        requires
            self.wf(),
        ensures
            r@ == ids_of(self.chunk_seq()),
    {
        let mut r: Vec<u32> = Vec::new();
        let n = self.chunks.len();
        for i in 0..n
            invariant
                n == self.chunks@.len(),
                r@ =~= ids_of(self.chunk_seq()).subrange(0, i as int),
        {
            r.push(self.chunks[i].0);
            proof {
                assert(r@ =~= ids_of(self.chunk_seq()).subrange(0, i + 1 as int));
            }
        }
        proof {
            assert(r@ =~= ids_of(self.chunk_seq()));
        }
        r
    }

    /// The total byte count over all chunks, saturating at `usize::MAX`.
    pub fn parallel_buffer_size(&self) -> (r: usize)
        ensures
            chunk_total(self.chunk_seq()) <= usize::MAX ==> r == chunk_total(self.chunk_seq()),
            chunk_total(self.chunk_seq()) > usize::MAX ==> r == usize::MAX,
    {
        let mut acc: usize = 0;
        let n = self.chunks.len();
        for i in 0..n
            invariant
                n == self.chunks@.len(),
                chunk_total(self.chunk_seq().take(i as int)) <= usize::MAX
                    ==> acc == chunk_total(self.chunk_seq().take(i as int)),
                chunk_total(self.chunk_seq().take(i as int)) > usize::MAX
                    ==> acc == usize::MAX,
        {
            proof {
                assert(self.chunk_seq().take(i + 1 as int).drop_last()
                    =~= self.chunk_seq().take(i as int));
                assert(self.chunk_seq().take(i + 1 as int).last() == self.chunk_seq()[i as int]);
            }
            let len = self.chunks[i].1.len();
            if usize::MAX - acc < len {
                acc = usize::MAX;
            } else {
                acc = acc + len;
            }
        }
        proof {
            assert(self.chunk_seq().take(n as int) =~= self.chunk_seq());
        }
        acc
    }

    /// Whether the chunk under `id` is present.
    fn has_chunk(&self, id: u32) -> (r: bool)
        requires
            self.wf(),
        ensures
            r == (chunk_lookup(self.chunk_seq(), id) is Some),
    {
        let pos = self.find_insert_pos(id);
        if pos < self.chunks.len() && self.chunks[pos].0 == id {
            proof {
                lemma_chunk_present(self.chunk_seq(), pos as int);
            }
            true
        } else {
            proof {
                let s = self.chunk_seq();
                assert forall|j: int| 0 <= j < s.len() implies s[j].0 != id by {
                    if j > pos {
                        assert(s[pos as int].0 < s[j].0);
                    }
                }
                lemma_chunk_absent(s, id);
            }
            false
        }
    }

    /// True iff the chunk ids are exactly `{0, ..., expected_count - 1}`:
    /// false for any missing id, extra id, or wrong count.
    pub fn parallel_chunks_complete(&self, expected_count: u32) -> (r: bool)
        requires
            self.wf(),
        ensures
            r == complete_upto(self.chunk_seq(), expected_count),
    {
        let ghost ids = ids_of(self.chunk_seq());
        proof {
            lemma_sorted_ids_no_duplicates(self.chunk_seq());
            ids.unique_seq_to_set();
            lemma_u32_range_cardinality(expected_count);
            assert(ids.len() == self.chunks@.len());
        }
        if self.chunks.len() != expected_count as usize {
            proof {
                if complete_upto(self.chunk_seq(), expected_count) {
                    assert(ids.to_set().len() == expected_count);
                }
            }
            return false;
        }
        let n = expected_count;
        for i in 0..n
            invariant
                self.wf(),
                self.chunks@.len() == n as usize,
                n == expected_count,
                ids == ids_of(self.chunk_seq()),
                ids.no_duplicates(),
                ids.len() == n as usize,
                forall|j: u32| j < i ==> chunk_lookup(self.chunk_seq(), j) is Some,
        {
            if !self.has_chunk(i) {
                proof {
                    lemma_lookup_is_contains(self.chunk_seq(), i);
                    assert(Set::new(|x: u32| x < expected_count).contains(i));
                    assert(!ids.to_set().contains(i));
                }
                return false;
            }
        }
        proof {
            assert forall|x: u32| x < expected_count
                implies ids.to_set().contains(x) by {
                lemma_lookup_is_contains(self.chunk_seq(), x);
            }
            lemma_range_subset_equal(ids, expected_count);
            assert(ids.to_set() =~= Set::new(|x: u32| x < expected_count));
        }
        true
    }

    /// Deletes the chunk under `chunk_id`, reporting whether one existed;
    /// intended for discarding a corrupted fragment before resubmission.
    pub fn remove_parallel_chunk(&mut self, chunk_id: u32) -> (r: bool)
        requires
            old(self).wf(),
        ensures
            final(self).wf(),
            final(self).buffer_view() == old(self).buffer_view(),
            r == (chunk_lookup(old(self).chunk_seq(), chunk_id) is Some),
            chunk_lookup(final(self).chunk_seq(), chunk_id) is None,
            forall|id: u32| id != chunk_id
                ==> #[trigger] chunk_lookup(final(self).chunk_seq(), id)
                    == chunk_lookup(old(self).chunk_seq(), id),
    {
        let ghost s_old = self.chunk_seq();
        let pos = self.find_insert_pos(chunk_id);
        if pos < self.chunks.len() && self.chunks[pos].0 == chunk_id {
            proof {
                lemma_chunk_present(s_old, pos as int);
            }
            self.chunks.remove(pos);
            proof {
                assert(self.chunk_seq() =~= s_old.remove(pos as int));
                lemma_chunk_remove(s_old, pos as int);
            }
            true
        } else {
            proof {
                assert forall|j: int| 0 <= j < s_old.len() implies s_old[j].0 != chunk_id by {
                    if j > pos {
                        assert(s_old[pos as int].0 < s_old[j].0);
                    }
                }
                lemma_chunk_absent(s_old, chunk_id);
            }
            false
        }
    }

    /// Empties the chunk map; the sequential buffer is untouched.
    pub fn clear_parallel_chunks(&mut self)
        ensures
            final(self).wf(),
            final(self).buffer_view() == old(self).buffer_view(),
            final(self).chunk_seq() == Seq::<(u32, Seq<u8>)>::empty(),
    {
        self.chunks.clear();
        proof {
            assert(self.chunk_seq() =~= Seq::<(u32, Seq<u8>)>::empty());
        }
    }

    /// Concatenates the chunks' bytes in ascending id order.
    fn concat_chunks(&self) -> (r: Vec<u8>)
        ensures
            r@ == chunk_concat(self.chunk_seq()),
    {
        let mut data: Vec<u8> = Vec::new();
        let n = self.chunks.len();
        for i in 0..n
            invariant
                n == self.chunks@.len(),
                data@ == chunk_concat(self.chunk_seq().take(i as int)),
        {
            proof {
                assert(self.chunk_seq().take(i + 1 as int).drop_last()
                    =~= self.chunk_seq().take(i as int));
                assert(self.chunk_seq().take(i + 1 as int).last() == self.chunk_seq()[i as int]);
            }
            extend_bytes(&mut data, &self.chunks[i].1);
        }
        proof {
            assert(self.chunk_seq().take(n as int) =~= self.chunk_seq());
        }
        data
    }

    /// Consolidates the chunk map into the sequential buffer: concatenates
    /// in ascending id order, replaces the buffer wholesale, clears the map
    /// and returns the byte count. Fails with `EmptyUpload`, leaving
    /// everything untouched, iff the map is empty.
    pub fn consolidate_parallel_chunks(&mut self) -> (r: Result<usize, StorageError>)
        requires
            old(self).wf(),
        ensures
            final(self).wf(),
            old(self).chunk_seq().len() == 0 ==> r == Result::<usize, StorageError>::Err(
                StorageError::EmptyUpload,
            ) && final(self).buffer_view() == old(self).buffer_view() && final(self).chunk_seq()
                == old(self).chunk_seq(),
            old(self).chunk_seq().len() > 0 ==> r == Result::<usize, StorageError>::Ok(
                chunk_concat(old(self).chunk_seq()).len() as usize,
            ) && final(self).buffer_view() == chunk_concat(old(self).chunk_seq())
                && final(self).chunk_seq() == Seq::<(u32, Seq<u8>)>::empty(),
    {
        if self.chunks.is_empty() {
            return Err(StorageError::EmptyUpload);
        }
        let data = self.concat_chunks();
        let total = data.len();
        self.buffer = data;
        self.chunks.clear();
        proof {
            assert(self.chunk_seq() =~= Seq::<(u32, Seq<u8>)>::empty());
        }
        Ok(total)
    }

    // ─────────────────────────────────────────────────────
    //  Commits into the byte-blob store
    // ─────────────────────────────────────────────────────

    /// Moves the sequential buffer's bytes into the store under `key`,
    /// draining the buffer. Fails with `EmptyBuffer`, leaving the store
    /// untouched, iff the buffer is empty.
    pub fn save_to_stable(&mut self, store: &mut StableStore, key: &String) -> (r: Result<
        (),
        StorageError,
    >)
        requires
            old(store).wf(),
        ensures
            final(store).wf(),
            final(self).wf() == old(self).wf(),
            final(self).chunk_seq() == old(self).chunk_seq(),
            final(self).buffer_view() == Seq::<u8>::empty(),
            old(self).buffer_view().len() == 0 ==> r == Result::<(), StorageError>::Err(
                StorageError::EmptyBuffer,
            ) && final(store).view_map() == old(store).view_map(),
            old(self).buffer_view().len() > 0 ==> r == Result::<(), StorageError>::Ok(())
                && final(store).view_map() == old(store).view_map().insert(
                key@,
                old(self).buffer_view(),
            ),
    {
        let mut data: Vec<u8> = Vec::new();
        core::mem::swap(&mut data, &mut self.buffer);
        proof {
            assert(self.buffer_view() =~= Seq::<u8>::empty());
        }
        if data.is_empty() {
            return Err(StorageError::EmptyBuffer);
        }
        store.save_bytes_to_stable(key, data);
        Ok(())
    }

    /// Consolidates the chunk map and moves the result straight into the
    /// store under `key`, skipping the sequential buffer, which is left
    /// untouched. Returns the byte count; fails with `EmptyUpload`, leaving
    /// everything untouched, iff the map is empty.
    pub fn save_parallel_to_stable(&mut self, store: &mut StableStore, key: &String) -> (r: Result<
        usize,
        StorageError,
    >)
        requires
            old(self).wf(),
            old(store).wf(),
        ensures
            final(self).wf(),
            final(store).wf(),
            final(self).buffer_view() == old(self).buffer_view(),
            old(self).chunk_seq().len() == 0 ==> r == Result::<usize, StorageError>::Err(
                StorageError::EmptyUpload,
            ) && final(store).view_map() == old(store).view_map()
                && final(self).chunk_seq() == old(self).chunk_seq(),
            old(self).chunk_seq().len() > 0 ==> r == Result::<usize, StorageError>::Ok(
                chunk_concat(old(self).chunk_seq()).len() as usize,
            ) && final(store).view_map() == old(store).view_map().insert(
                key@,
                chunk_concat(old(self).chunk_seq()),
            ) && final(self).chunk_seq() == Seq::<(u32, Seq<u8>)>::empty(),
    {
        if self.chunks.is_empty() {
            return Err(StorageError::EmptyUpload);
        }
        let data = self.concat_chunks();
        let total = data.len();
        self.chunks.clear();
        proof {
            assert(self.chunk_seq() =~= Seq::<(u32, Seq<u8>)>::empty());
        }
        store.save_bytes_to_stable(key, data);
        Ok(total)
    }

    /// Replaces the sequential buffer with the blob under `key`. Fails with
    /// `KeyNotFound`, leaving the buffer untouched, iff the key is absent.
    pub fn load_from_stable(&mut self, store: &StableStore, key: &String) -> (r: Result<
        (),
        StorageError,
    >)
        requires
            store.wf(),
        ensures
            final(self).chunk_seq() == old(self).chunk_seq(),
            final(self).wf() == old(self).wf(),
            store.view_map().contains_key(key@) ==> r == Result::<(), StorageError>::Ok(())
                && final(self).buffer_view() == store.view_map()[key@],
            !store.view_map().contains_key(key@) ==> r == Result::<(), StorageError>::Err(
                StorageError::KeyNotFound,
            ) && final(self).buffer_view() == old(self).buffer_view(),
    {
        match store.load_bytes_from_stable(key) {
            Some(data) => {
                self.buffer = data;
                Ok(())
            },
            None => Err(StorageError::KeyNotFound),
        }
    }
}

// ─────────────────────────────────────────────────────
//  Status reporting
// ─────────────────────────────────────────────────────

/// The fixed-shape opening of the status summary: the buffer's byte count,
/// the chunk count, and the chunks' total byte count.
pub open spec fn status_header(buf_len: nat, count: nat, total: nat) -> Seq<char> {
    "Buffer: "@ + dec_spec(buf_len) + " bytes\nParallel chunks: "@ + dec_spec(count)
        + " chunks, "@ + dec_spec(total) + " bytes total\nChunk IDs: ["@
}

/// The ids rendered in order, separated by commas.
pub open spec fn ids_listing(ids: Seq<u32>) -> Seq<char>
    decreases ids.len(),
{
    if ids.len() == 0 {
        Seq::empty()
    } else if ids.len() == 1 {
        dec_spec(ids[0] as nat)
    } else {
        ids_listing(ids.drop_last()) + ", "@ + dec_spec(ids.last() as nat)
    }
}

/// One stored key rendered with its blob's byte count.
pub open spec fn key_entry(k: Seq<char>, n: nat) -> Seq<char> {
    k + ": "@ + dec_spec(n) + " bytes"@
}

/// The stored keys rendered in held order, separated by commas.
pub open spec fn keys_listing(es: Seq<(Seq<char>, nat)>) -> Seq<char>
    decreases es.len(),
{
    if es.len() == 0 {
        Seq::empty()
    } else if es.len() == 1 {
        key_entry(es[0].0, es[0].1)
    } else {
        keys_listing(es.drop_last()) + ", "@ + key_entry(es.last().0, es.last().1)
    }
}

/// The whole status summary, as [`Uploader::storage_status`] renders it.
pub open spec fn status_spec(
    buf_len: nat,
    chunks: Seq<(u32, Seq<u8>)>,
    total: nat,
    entries: Seq<(Seq<char>, nat)>,
) -> Seq<char> {
    status_header(buf_len, chunks.len(), total) + ids_listing(ids_of(chunks))
        + "]\nStable storage: ["@ + keys_listing(entries) + "]"@
}

impl Uploader {
    /// A human-readable summary: buffer size, chunk count and bytes, the
    /// chunk ids in ascending order, and each stored key with its blob's
    /// size — rendered exactly as [`status_spec`] states.
    pub fn storage_status(&self, store: &StableStore) -> (r: String)
        requires
            self.wf(),
            store.wf(),
        ensures
            r@ == status_spec(
                self.buffer_view().len(),
                self.chunk_seq(),
                if chunk_total(self.chunk_seq()) <= usize::MAX {
                    chunk_total(self.chunk_seq())
                } else {
                    usize::MAX as nat
                },
                store.listing(),
            ),
    {
        let ghost total_spec: nat = if chunk_total(self.chunk_seq()) <= usize::MAX {
            chunk_total(self.chunk_seq())
        } else {
            usize::MAX as nat
        };
        let mut s = "Buffer: ".to_owned();
        push_decimal(&mut s, self.buffer.len() as u64);
        s.append(" bytes\nParallel chunks: ");
        let count = self.parallel_chunk_count();
        push_decimal(&mut s, count as u64);
        s.append(" chunks, ");
        let total = self.parallel_buffer_size();
        push_decimal(&mut s, total as u64);
        s.append(" bytes total\nChunk IDs: [");
        proof {
            assert(s@ =~= status_header(
                self.buffer_view().len(),
                self.chunk_seq().len(),
                total_spec,
            ));
        }
        let ghost header = s@;
        let tail = self.status_listing(store);
        s.append(tail.as_str());
        proof {
            assert(s@ =~= status_spec(
                self.buffer_view().len(),
                self.chunk_seq(),
                total_spec,
                store.listing(),
            ));
        }
        s
    }

    /// The id listing and the per-key size listing of the summary.
    fn status_listing(&self, store: &StableStore) -> (r: String)
        requires
            self.wf(),
            store.wf(),
        ensures
            r@ == ids_listing(ids_of(self.chunk_seq())) + "]\nStable storage: ["@
                + keys_listing(store.listing()) + "]"@,
    {
        let ghost ids = ids_of(self.chunk_seq());
        let mut s = String::new();
        let n = self.chunks.len();
        for i in 0..n
            invariant
                n == self.chunks@.len(),
                ids == ids_of(self.chunk_seq()),
                n == ids.len(),
                s@ == ids_listing(ids.take(i as int)),
        {
            if i > 0 {
                s.append(", ");
            }
            push_decimal(&mut s, self.chunks[i].0 as u64);
            proof {
                assert(ids[i as int] == self.chunk_seq()[i as int].0);
                let t = ids.take(i + 1 as int);
                assert(t.drop_last() =~= ids.take(i as int));
                assert(t.last() == ids[i as int]);
                if i == 0 {
                    assert(s@ =~= ids_listing(t));
                } else {
                    assert(s@ =~= ids_listing(t));
                }
            }
        }
        proof {
            assert(ids.take(n as int) =~= ids);
        }
        s.append("]\nStable storage: [");
        let ghost opening = ids_listing(ids) + "]\nStable storage: ["@;
        proof {
            assert(s@ =~= opening);
        }
        let keys = store.key_sizes();
        let ghost es = store.listing();
        let m = keys.len();
        for i in 0..m
            invariant
                m == keys@.len(),
                m == es.len(),
                es == store.listing(),
                forall|j: int| 0 <= j < m
                    ==> (#[trigger] keys@[j]).0@ == es[j].0 && keys@[j].1 == es[j].1,
                s@ == opening + keys_listing(es.take(i as int)),
        {
            if i > 0 {
                s.append(", ");
            }
            s.append(keys[i].0.as_str());
            s.append(": ");
            push_decimal(&mut s, keys[i].1 as u64);
            s.append(" bytes");
            proof {
                let t = es.take(i + 1 as int);
                assert(t.drop_last() =~= es.take(i as int));
                assert(t.last() == es[i as int]);
                assert(s@ =~= opening + keys_listing(t));
            }
        }
        proof {
            assert(es.take(m as int) =~= es);
        }
        s.append("]");
        proof {
            assert(s@ =~= ids_listing(ids) + "]\nStable storage: ["@ + keys_listing(es)
                + "]"@);
        }
        s
    }
}

// ─────────────────────────────────────────────────────
//  Lookup and concatenation lemmas
// ─────────────────────────────────────────────────────

/// When ids are pairwise distinct, the lookup of the id at `i` returns that
/// entry's bytes.
proof fn lemma_chunk_present(s: Seq<(u32, Seq<u8>)>, i: int)
    requires
        forall|a: int, b: int| 0 <= a < b < s.len() ==> s[a].0 != s[b].0,
        0 <= i < s.len(),
    ensures
        chunk_lookup(s, s[i].0) == Some(s[i].1),
    decreases s.len(),
{
    if i == s.len() - 1 {
    } else {
        assert(s.last().0 != s[i].0);
        assert(s.drop_last()[i] == s[i]);
        lemma_chunk_present(s.drop_last(), i);
    }
}

/// If no entry holds `id`, the lookup finds nothing.
proof fn lemma_chunk_absent(s: Seq<(u32, Seq<u8>)>, id: u32)
    requires
        forall|i: int| 0 <= i < s.len() ==> s[i].0 != id,
    ensures
        chunk_lookup(s, id) is None,
    decreases s.len(),
{
    if s.len() > 0 {
        assert(forall|i: int| 0 <= i < s.drop_last().len() ==> s.drop_last()[i] == s[i]);
        lemma_chunk_absent(s.drop_last(), id);
    }
}

/// An id is found iff some entry holds it.
proof fn lemma_lookup_is_contains(s: Seq<(u32, Seq<u8>)>, id: u32)
    ensures
        (chunk_lookup(s, id) is Some) == ids_of(s).to_set().contains(id),
    decreases s.len(),
{
    let ids = ids_of(s);
    if s.len() == 0 {
        assert(!ids.contains(id));
    } else {
        lemma_lookup_is_contains(s.drop_last(), id);
        assert(ids_of(s.drop_last()) =~= ids.drop_last());
        if s.last().0 == id {
            assert(ids[s.len() - 1] == id);
            assert(ids.to_set().contains(id));
        } else {
            if ids.to_set().contains(id) {
                let i = choose|i: int| 0 <= i < ids.len() && ids[i] == id;
                assert(i < s.len() - 1);
                assert(ids.drop_last()[i] == id);
                assert(ids.drop_last().to_set().contains(id));
            }
            if ids.drop_last().to_set().contains(id) {
                let i = choose|i: int|
                    0 <= i < ids.drop_last().len() && ids.drop_last()[i] == id;
                assert(ids[i] == id);
                assert(ids.to_set().contains(id));
            }
        }
    }
}

/// Replacing the entry at `i` with one that keeps its id rebinds that id
/// and leaves every other id's binding unchanged; order is preserved.
proof fn lemma_chunk_update(s: Seq<(u32, Seq<u8>)>, i: int, p: (u32, Seq<u8>))
    requires
        sorted_ids(s),
        0 <= i < s.len(),
        p.0 == s[i].0,
    ensures
        sorted_ids(s.update(i, p)),
        forall|id: u32| #[trigger] chunk_lookup(s.update(i, p), id)
            == (if id == p.0 { Some(p.1) } else { chunk_lookup(s, id) }),
    decreases s.len(),
{
    let t = s.update(i, p);
    assert(t.len() == s.len());
    if i == s.len() - 1 {
        assert(t.last() == p);
        assert(t.drop_last() =~= s.drop_last());
        assert forall|id: u32| #[trigger] chunk_lookup(t, id)
            == (if id == p.0 { Some(p.1) } else { chunk_lookup(s, id) }) by {
            if id != p.0 {
                assert(chunk_lookup(t, id) == chunk_lookup(t.drop_last(), id));
            }
        }
    } else {
        assert(t.last() == s.last());
        assert(t.drop_last() =~= s.drop_last().update(i, p));
        assert(s.drop_last()[i] == s[i]);
        lemma_chunk_update(s.drop_last(), i, p);
        assert(s.last().0 != p.0);
        assert forall|id: u32| #[trigger] chunk_lookup(t, id)
            == (if id == p.0 { Some(p.1) } else { chunk_lookup(s, id) }) by {
            if id != s.last().0 {
                assert(chunk_lookup(t, id) == chunk_lookup(t.drop_last(), id));
                assert(chunk_lookup(s, id) == chunk_lookup(s.drop_last(), id));
            }
        }
    }
}

/// Inserting an entry at its ordered position binds its id, leaves every
/// other id's binding unchanged, and keeps the ids sorted.
proof fn lemma_chunk_insert(s: Seq<(u32, Seq<u8>)>, pos: int, p: (u32, Seq<u8>))
    requires
        sorted_ids(s),
        0 <= pos <= s.len(),
        forall|j: int| 0 <= j < pos ==> s[j].0 < p.0,
        forall|j: int| pos <= j < s.len() ==> s[j].0 > p.0,
    ensures
        sorted_ids(s.insert(pos, p)),
        forall|id: u32| #[trigger] chunk_lookup(s.insert(pos, p), id)
            == (if id == p.0 { Some(p.1) } else { chunk_lookup(s, id) }),
    decreases s.len(),
{
    let t = s.insert(pos, p);
    assert(t.len() == s.len() + 1);
    assert forall|j: int| 0 <= j < t.len() implies t[j] == (if j < pos {
        s[j]
    } else if j == pos {
        p
    } else {
        s[j - 1]
    }) by {}
    assert(sorted_ids(t));
    if pos == s.len() {
        assert(t.last() == p);
        assert(t.drop_last() =~= s);
        assert forall|id: u32| #[trigger] chunk_lookup(t, id)
            == (if id == p.0 { Some(p.1) } else { chunk_lookup(s, id) }) by {
            if id != p.0 {
                assert(chunk_lookup(t, id) == chunk_lookup(t.drop_last(), id));
            }
        }
    } else {
        assert(t.last() == s.last());
        assert(t.drop_last() =~= s.drop_last().insert(pos, p));
        assert(forall|j: int| 0 <= j < pos ==> s.drop_last()[j] == s[j]);
        assert(forall|j: int| pos <= j < s.drop_last().len() ==> s.drop_last()[j] == s[j]);
        lemma_chunk_insert(s.drop_last(), pos, p);
        assert(s.last().0 != p.0);
        assert forall|id: u32| #[trigger] chunk_lookup(t, id)
            == (if id == p.0 { Some(p.1) } else { chunk_lookup(s, id) }) by {
            if id != s.last().0 {
                assert(chunk_lookup(t, id) == chunk_lookup(t.drop_last(), id));
                assert(chunk_lookup(s, id) == chunk_lookup(s.drop_last(), id));
            }
        }
    }
}

/// Removing the entry at `i` unbinds its id, leaves every other id's
/// binding unchanged, and keeps the ids sorted.
proof fn lemma_chunk_remove(s: Seq<(u32, Seq<u8>)>, i: int)
    requires
        sorted_ids(s),
        0 <= i < s.len(),
    ensures
        sorted_ids(s.remove(i)),
        chunk_lookup(s.remove(i), s[i].0) is None,
        forall|id: u32| id != s[i].0 ==> #[trigger] chunk_lookup(s.remove(i), id) == chunk_lookup(
            s,
            id,
        ),
    decreases s.len(),
{
    let t = s.remove(i);
    assert(t.len() == s.len() - 1);
    assert forall|j: int| 0 <= j < t.len() implies t[j] == (if j < i {
        s[j]
    } else {
        s[j + 1]
    }) by {}
    assert(sorted_ids(t));
    assert(forall|j: int| 0 <= j < t.len() ==> t[j].0 != s[i].0);
    lemma_chunk_absent(t, s[i].0);
    if i == s.len() - 1 {
        assert(t =~= s.drop_last());
        assert forall|id: u32| id != s[i].0 implies #[trigger] chunk_lookup(t, id)
            == chunk_lookup(s, id) by {}
    } else {
        assert(t.last() == s.last());
        assert(t.drop_last() =~= s.drop_last().remove(i));
        assert(s.drop_last()[i] == s[i]);
        lemma_chunk_remove(s.drop_last(), i);
        assert forall|id: u32| id != s[i].0 implies #[trigger] chunk_lookup(t, id)
            == chunk_lookup(s, id) by {
            if id != s.last().0 {
                assert(chunk_lookup(t, id) == chunk_lookup(t.drop_last(), id));
                assert(chunk_lookup(s, id) == chunk_lookup(s.drop_last(), id));
            }
        }
    }
}

/// Strictly ascending ids never repeat.
proof fn lemma_sorted_ids_no_duplicates(s: Seq<(u32, Seq<u8>)>)
    requires
        sorted_ids(s),
    ensures
        ids_of(s).no_duplicates(),
{
    let ids = ids_of(s);
    assert forall|i: int, j: int| 0 <= i < ids.len() && 0 <= j < ids.len() && i != j
        implies ids[i] != ids[j] by {
        if i < j {
            assert(s[i].0 < s[j].0);
        } else {
            assert(s[j].0 < s[i].0);
        }
    }
}

/// The set `{x : u32 | x < n}` has exactly `n` elements.
pub proof fn lemma_u32_range_cardinality(n: u32)
    ensures
        Set::new(|x: u32| x < n).finite(),
        Set::new(|x: u32| x < n).len() == n,
    decreases n,
{
    if n == 0 {
        assert(Set::new(|x: u32| x < n) =~= Set::<u32>::empty());
    } else {
        lemma_u32_range_cardinality((n - 1) as u32);
        assert(Set::new(|x: u32| x < n) =~= Set::new(|x: u32| x < (n - 1) as u32).insert(
            (n - 1) as u32,
        ));
    }
}

/// A duplicate-free id sequence whose set already covers `{0, ..., n-1}`
/// and whose length is `n` holds no id outside the range.
proof fn lemma_range_subset_equal(ids: Seq<u32>, n: u32)
    requires
        ids.no_duplicates(),
        ids.len() == n,
        forall|x: u32| x < n ==> ids.to_set().contains(x),
    ensures
        forall|x: u32| ids.to_set().contains(x) ==> x < n,
{
    ids.unique_seq_to_set();
    lemma_u32_range_cardinality(n);
    let range = Set::new(|x: u32| x < n);
    assert(range.subset_of(ids.to_set()));
    assert forall|x: u32| ids.to_set().contains(x) implies x < n by {
        if x >= n {
            assert(range.subset_of(ids.to_set().remove(x)));
            vstd::set_lib::lemma_len_subset(range, ids.to_set().remove(x));
            assert(ids.to_set().remove(x).len() == n - 1);
        }
    }
}

/// Appends `src`'s bytes to `dst`, preserving order.
fn extend_bytes(dst: &mut Vec<u8>, src: &Vec<u8>)
    ensures
        final(dst)@ == old(dst)@ + src@,
{
    let n = src.len();
    for i in 0..n
        invariant
            n == src@.len(),
            dst@ =~= old(dst)@ + src@.subrange(0, i as int),
    {
        dst.push(src[i]);
        proof {
            assert(dst@ =~= old(dst)@ + src@.subrange(0, i + 1 as int));
        }
    }
    proof {
        assert(dst@ =~= old(dst)@ + src@);
    }
}

} // verus!
