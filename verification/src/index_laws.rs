//! What a sequence of appends does to an Index, and how the Index hash of
//! the same Blocks agrees with it.
use vstd::prelude::*;
use crate::index::{append_result, append_sums, lzma_index_s};
use crate::index_hash::{info_append, IndexHashModel};
use crate::index_size::index_size;
use crate::types::{ceil4, LZMA_OK};
use crate::vli::vli_size_spec;

verus! {

/// The appends of `pairs` (Unpadded Size, Uncompressed Size) made one after
/// another lead through the Indexes of `states`, from the first to the last.
pub open spec fn append_chain(states: Seq<lzma_index_s>, pairs: Seq<(u64, u64)>) -> bool {
    &&& states.len() == pairs.len() + 1
    &&& forall|k: int|
        0 <= k < pairs.len() ==> #[trigger] append_sums(
            states[k],
            states[k + 1],
            pairs[k].0,
            pairs[k].1,
        )
}

/// The `k`-th append of the chain was accepted.
pub open spec fn accepted(states: Seq<lzma_index_s>, pairs: Seq<(u64, u64)>, k: int) -> bool {
    append_result(states[k], pairs[k].0, pairs[k].1) == LZMA_OK
}

/// How many of the first `n` appends were accepted.
pub open spec fn accepted_count(states: Seq<lzma_index_s>, pairs: Seq<(u64, u64)>, n: int) -> int
    decreases n,
{
    if n <= 0 {
        0
    } else {
        accepted_count(states, pairs, n - 1) + if accepted(states, pairs, n - 1) {
            1int
        } else {
            0int
        }
    }
}

/// The Total Sizes (Unpadded Size rounded up to four) of the accepted Blocks
/// among the first `n`.
pub open spec fn accepted_total(states: Seq<lzma_index_s>, pairs: Seq<(u64, u64)>, n: int) -> int
    decreases n,
{
    if n <= 0 {
        0
    } else {
        accepted_total(states, pairs, n - 1) + if accepted(states, pairs, n - 1) {
            ceil4(pairs[n - 1].0 as int)
        } else {
            0int
        }
    }
}

/// The Uncompressed Sizes of the accepted Blocks among the first `n`.
pub open spec fn accepted_uncompressed(states: Seq<lzma_index_s>, pairs: Seq<(u64, u64)>, n: int)
    -> int
    decreases n,
{
    if n <= 0 {
        0
    } else {
        accepted_uncompressed(states, pairs, n - 1) + if accepted(states, pairs, n - 1) {
            pairs[n - 1].1 as int
        } else {
            0int
        }
    }
}

/// After any sequence of appends, the Index counts as many more Blocks as
/// appends were accepted (refused ones count for nothing), its total size has
/// grown by the Total Sizes of those Blocks and its uncompressed size by
/// their Uncompressed Sizes.
pub proof fn law_index_append_sums(states: Seq<lzma_index_s>, pairs: Seq<(u64, u64)>)
    requires
        append_chain(states, pairs),
    ensures
        states.last().record_count == states[0].record_count + accepted_count(
            states,
            pairs,
            pairs.len() as int,
        ),
        states.last().total_size == states[0].total_size + accepted_total(
            states,
            pairs,
            pairs.len() as int,
        ),
        states.last().uncompressed_size == states[0].uncompressed_size + accepted_uncompressed(
            states,
            pairs,
            pairs.len() as int,
        ),
    decreases pairs.len(),
{
    if pairs.len() > 0 {
        let n = pairs.len() - 1;
        let s2 = states.take(n + 1);
        let p2 = pairs.take(n);
        assert forall|k: int| 0 <= k < p2.len() implies #[trigger] append_sums(
            s2[k],
            s2[k + 1],
            p2[k].0,
            p2[k].1,
        ) by {
            assert(append_sums(states[k], states[k + 1], pairs[k].0, pairs[k].1));
        }
        law_index_append_sums(s2, p2);
        lemma_accepted_prefix(states, pairs, n);
        assert(append_sums(states[n], states[n + 1], pairs[n].0, pairs[n].1));
    }
}

/// The counts over a chain depend only on its first `n` appends.
proof fn lemma_accepted_prefix(states: Seq<lzma_index_s>, pairs: Seq<(u64, u64)>, n: int)
    requires
        0 <= n < pairs.len(),
        states.len() == pairs.len() + 1,
    ensures
        accepted_count(states.take(n + 1), pairs.take(n), n) == accepted_count(states, pairs, n),
        accepted_total(states.take(n + 1), pairs.take(n), n) == accepted_total(states, pairs, n),
        accepted_uncompressed(states.take(n + 1), pairs.take(n), n) == accepted_uncompressed(
            states,
            pairs,
            n,
        ),
    decreases n,
{
    lemma_accepted_prefix_at(states, pairs, n, n);
}

proof fn lemma_accepted_prefix_at(states: Seq<lzma_index_s>, pairs: Seq<(u64, u64)>, n: int, m: int)
    requires
        0 <= m <= n < pairs.len(),
        states.len() == pairs.len() + 1,
    ensures
        accepted_count(states.take(n + 1), pairs.take(n), m) == accepted_count(states, pairs, m),
        accepted_total(states.take(n + 1), pairs.take(n), m) == accepted_total(states, pairs, m),
        accepted_uncompressed(states.take(n + 1), pairs.take(n), m) == accepted_uncompressed(
            states,
            pairs,
            m,
        ),
    decreases m,
{
    if m > 0 {
        lemma_accepted_prefix_at(states, pairs, n, m - 1);
        assert(states.take(n + 1)[m - 1] == states[m - 1]);
        assert(pairs.take(n)[m - 1] == pairs[m - 1]);
    }
}

/// The Index hash of `hashes` takes the Blocks of `pairs` one after another,
/// each append accepted.
pub open spec fn hash_chain(hashes: Seq<IndexHashModel>, pairs: Seq<(u64, u64)>) -> bool {
    &&& hashes.len() == pairs.len() + 1
    &&& forall|k: int|
        0 <= k < pairs.len() ==> #[trigger] hashes[k + 1].blocks == info_append(
            hashes[k].blocks,
            pairs[k].0,
            pairs[k].1,
        )
}

/// When an Index and an Index hash start with the same count and list size
/// and take the same Blocks, each append accepted by the Index, the Index
/// hash expects an Index field of the size the Index has.
pub proof fn law_index_hash_size_matches_index(
    states: Seq<lzma_index_s>,
    hashes: Seq<IndexHashModel>,
    pairs: Seq<(u64, u64)>,
)
    requires
        append_chain(states, pairs),
        hash_chain(hashes, pairs),
        forall|k: int| 0 <= k < pairs.len() ==> #[trigger] accepted(states, pairs, k),
        states[0].record_count == hashes[0].blocks.count,
        states[0].index_list_size == hashes[0].blocks.index_list_size,
    ensures
        index_size(hashes.last().blocks.count, hashes.last().blocks.index_list_size) == index_size(
            states.last().record_count,
            states.last().index_list_size,
        ),
{
    assert forall|k: int| 0 <= k <= pairs.len() implies states[k].record_count
        == hashes[k].blocks.count && states[k].index_list_size
        == hashes[k].blocks.index_list_size by {
        lemma_same_sums(states, hashes, pairs, k);
    }
}

proof fn lemma_same_sums(
    states: Seq<lzma_index_s>,
    hashes: Seq<IndexHashModel>,
    pairs: Seq<(u64, u64)>,
    k: int,
)
    requires
        append_chain(states, pairs),
        hash_chain(hashes, pairs),
        forall|j: int| 0 <= j < pairs.len() ==> #[trigger] accepted(states, pairs, j),
        states[0].record_count == hashes[0].blocks.count,
        states[0].index_list_size == hashes[0].blocks.index_list_size,
        0 <= k <= pairs.len(),
    ensures
        states[k].record_count == hashes[k].blocks.count,
        states[k].index_list_size == hashes[k].blocks.index_list_size,
    decreases k,
{
    if k > 0 {
        lemma_same_sums(states, hashes, pairs, k - 1);
        let j = k - 1;
        assert(accepted(states, pairs, j));
        assert(append_sums(states[j], states[j + 1], pairs[j].0, pairs[j].1));
        assert(hashes[j + 1].blocks == info_append(hashes[j].blocks, pairs[j].0, pairs[j].1));
    }
}

} // verus!
