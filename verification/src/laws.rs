//! Laws of the chunk assembler and the byte-blob store, stated and proved
//! over the same spec functions the operation contracts use.

use vstd::prelude::*;
use crate::flatten_bytes;
use crate::upload::{chunk_concat, chunk_lookup, complete_upto, ids_of, sorted_ids};

verus! {

/// An id found by the lookup never exceeds the last (largest) id.
proof fn lemma_lookup_le_last(s: Seq<(u32, Seq<u8>)>, id: u32)
    requires
        sorted_ids(s),
        chunk_lookup(s, id) is Some,
    ensures
        s.len() > 0 && id <= s.last().0,
    decreases s.len(),
{
    if s.last().0 == id {
    } else {
        assert(forall|i: int, j: int|
            0 <= i < j < s.drop_last().len() ==> s.drop_last()[i] == s[i] && s.drop_last()[j]
                == s[j]);
        lemma_lookup_le_last(s.drop_last(), id);
        assert(s[s.len() - 2].0 < s.last().0);
    }
}

/// With strictly ascending ids, the lookup of the id at `i` returns that
/// entry's bytes.
proof fn lemma_sorted_lookup_at(s: Seq<(u32, Seq<u8>)>, i: int)
    requires
        sorted_ids(s),
        0 <= i < s.len(),
    ensures
        chunk_lookup(s, s[i].0) == Some(s[i].1),
    decreases s.len(),
{
    if i == s.len() - 1 {
    } else {
        assert(s[i].0 < s.last().0);
        assert(s.drop_last()[i] == s[i]);
        assert(forall|a: int, b: int|
            0 <= a < b < s.drop_last().len() ==> s.drop_last()[a] == s[a] && s.drop_last()[b]
                == s[b]);
        lemma_sorted_lookup_at(s.drop_last(), i);
    }
}

/// Consolidation output is a function of the chunk map alone: two chunk
/// maps that bind every id to the same bytes consolidate to the same byte
/// sequence, whatever order the chunks arrived in. Since every append or
/// removal is specified purely through `chunk_lookup`, any permutation of
/// appends covering the same ids with the same final bytes yields the same
/// consolidated output.
pub proof fn lemma_consolidation_order_independent(s1: Seq<(u32, Seq<u8>)>, s2: Seq<(u32, Seq<u8>)>)
    requires
        sorted_ids(s1),
        sorted_ids(s2),
        forall|id: u32| #[trigger] chunk_lookup(s1, id) == chunk_lookup(s2, id),
    ensures
        chunk_concat(s1) == chunk_concat(s2),
    decreases s1.len() + s2.len(),
{
    if s1.len() == 0 {
        if s2.len() > 0 {
            lemma_sorted_lookup_at(s2, s2.len() - 1);
            assert(chunk_lookup(s1, s2.last().0) is None);
        }
        assert(chunk_concat(s1) == Seq::<u8>::empty());
    } else {
        let p = s1.last();
        lemma_sorted_lookup_at(s1, s1.len() - 1);
        assert(chunk_lookup(s2, p.0) == Some(p.1));
        lemma_lookup_le_last(s2, p.0);
        lemma_sorted_lookup_at(s2, s2.len() - 1);
        lemma_lookup_le_last(s1, s2.last().0);
        assert(s2.last().0 == p.0);
        assert(chunk_lookup(s2, p.0) == Some(s2.last().1));
        assert(s2.last().1 == p.1);
        let d1 = s1.drop_last();
        let d2 = s2.drop_last();
        assert(forall|i: int, j: int|
            0 <= i < j < d1.len() ==> d1[i] == s1[i] && d1[j] == s1[j]);
        assert(forall|i: int, j: int|
            0 <= i < j < d2.len() ==> d2[i] == s2[i] && d2[j] == s2[j]);
        assert forall|id: u32| #[trigger] chunk_lookup(d1, id) == chunk_lookup(d2, id) by {
            if id == p.0 {
                assert(forall|i: int| 0 <= i < d1.len() ==> d1[i].0 < p.0);
                assert(forall|i: int| 0 <= i < d2.len() ==> d2[i].0 < p.0);
                lemma_absent_when_all_differ(d1, id);
                lemma_absent_when_all_differ(d2, id);
            } else {
                assert(chunk_lookup(s1, id) == chunk_lookup(d1, id));
                assert(chunk_lookup(s2, id) == chunk_lookup(d2, id));
            }
        }
        lemma_consolidation_order_independent(d1, d2);
    }
}

/// If no entry holds `id`, the lookup finds nothing.
proof fn lemma_absent_when_all_differ(s: Seq<(u32, Seq<u8>)>, id: u32)
    requires
        forall|i: int| 0 <= i < s.len() ==> s[i].0 != id,
    ensures
        chunk_lookup(s, id) is None,
    decreases s.len(),
{
    if s.len() > 0 {
        assert(forall|i: int| 0 <= i < s.drop_last().len() ==> s.drop_last()[i] == s[i]);
        lemma_absent_when_all_differ(s.drop_last(), id);
    }
}

/// In a sorted chunk map, the id at each position is at least the position.
proof fn lemma_sorted_id_lower_bound(s: Seq<(u32, Seq<u8>)>, p: int)
    requires
        sorted_ids(s),
        0 <= p < s.len(),
    ensures
        s[p].0 >= p,
    decreases p,
{
    if p > 0 {
        lemma_sorted_id_lower_bound(s, p - 1);
        assert(s[p - 1].0 < s[p].0);
    }
}

/// A sorted chunk map complete for `n` is dense: it has exactly `n`
/// entries and the entry at position `p` holds id `p`.
pub proof fn lemma_complete_is_dense(s: Seq<(u32, Seq<u8>)>, n: u32)
    requires
        sorted_ids(s),
        complete_upto(s, n),
    ensures
        s.len() == n,
        forall|p: int| 0 <= p < s.len() ==> (#[trigger] s[p].0) == p,
{
    let ids = ids_of(s);
    assert forall|i: int, j: int|
        0 <= i < ids.len() && 0 <= j < ids.len() && i != j implies ids[i] != ids[j] by {
        if i < j {
            assert(s[i].0 < s[j].0);
        } else {
            assert(s[j].0 < s[i].0);
        }
    }
    ids.unique_seq_to_set();
    crate::upload::lemma_u32_range_cardinality(n);
    assert(ids.to_set().len() == n);
    assert(s.len() == n);
    assert forall|p: int| 0 <= p < s.len() implies (#[trigger] s[p].0) == p by {
        lemma_dense_at(s, n, p);
    }
}

/// Descending induction: with ids strictly ascending, all below `n`, and
/// `n` entries, position `p` holds id `p`.
proof fn lemma_dense_at(s: Seq<(u32, Seq<u8>)>, n: u32, p: int)
    requires
        sorted_ids(s),
        s.len() == n,
        complete_upto(s, n),
        0 <= p < s.len(),
    ensures
        s[p].0 == p,
    decreases s.len() - p,
{
    lemma_sorted_id_lower_bound(s, p);
    let ids = ids_of(s);
    assert(ids[p] == s[p].0);
    assert(ids.to_set().contains(s[p].0));
    assert(Set::new(|x: u32| x < n).contains(s[p].0));
    assert(s[p].0 < n);
    if p == s.len() - 1 {
        assert(s[p].0 >= p && s[p].0 <= n - 1);
    } else {
        lemma_dense_at(s, n, p + 1);
        assert(s[p].0 < s[p + 1].0);
    }
}

/// Consolidating a complete chunk map yields exactly the concatenation of
/// the chunks' bytes in id order `0, 1, ..., n-1`: the same bytes a client
/// would have produced by appending them sequentially in that order,
/// whatever permutation the chunks actually arrived in.
pub proof fn lemma_consolidate_of_complete(s: Seq<(u32, Seq<u8>)>, n: u32)
    requires
        sorted_ids(s),
        complete_upto(s, n),
    ensures
        chunk_concat(s) == flatten_bytes(
            Seq::new(n as nat, |i: int| chunk_lookup(s, i as u32)->Some_0),
        ),
{
    lemma_complete_is_dense(s, n);
    let by_id = Seq::new(n as nat, |i: int| chunk_lookup(s, i as u32)->Some_0);
    assert forall|i: int| 0 <= i < s.len() implies by_id[i] == s[i].1 by {
        lemma_sorted_lookup_at(s, i);
        assert(s[i].0 == i as u32);
    }
    lemma_concat_is_flatten(s);
    assert(by_id =~= s.map_values(|p: (u32, Seq<u8>)| p.1));
}

/// Concatenating a chunk map's bytes equals flattening its byte sequences.
proof fn lemma_concat_is_flatten(s: Seq<(u32, Seq<u8>)>)
    ensures
        chunk_concat(s) == flatten_bytes(s.map_values(|p: (u32, Seq<u8>)| p.1)),
    decreases s.len(),
{
    let bs = s.map_values(|p: (u32, Seq<u8>)| p.1);
    if s.len() == 0 {
        assert(bs.len() == 0);
    } else {
        lemma_concat_is_flatten(s.drop_last());
        assert(s.drop_last().map_values(|p: (u32, Seq<u8>)| p.1) =~= bs.drop_last());
        assert(bs.last() == s.last().1);
    }
}

/// The byte count a size query reports is exactly the length of the
/// consolidated output: concatenation neither loses nor invents bytes.
pub proof fn lemma_total_is_concat_len(s: Seq<(u32, Seq<u8>)>)
    ensures
        crate::upload::chunk_total(s) == chunk_concat(s).len(),
    decreases s.len(),
{
    if s.len() > 0 {
        lemma_total_is_concat_len(s.drop_last());
    }
}

/// Saving bytes under a key and then loading that key returns the very
/// bytes saved: the store's save contract inserts the binding and its load
/// contract reads it back, byte-identically, for any byte sequence.
pub proof fn lemma_save_load_round_trip(m: Map<Seq<char>, Seq<u8>>, k: Seq<char>, b: Seq<u8>)
    ensures
        m.insert(k, b).contains_key(k),
        m.insert(k, b)[k] == b,
{
}

} // verus!
