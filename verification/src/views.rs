//! How the views of nested vectors relate.

use vstd::prelude::*;

verus! {

/// The deep view of a vector of bytes is its view.
pub proof fn lemma_bytes_view(v: Vec<u8>)
    ensures
        v.deep_view() == v@,
{
    assert(v.deep_view() =~= v@);
}

/// The deep view of a vector of shards holds the view of each shard, in order.
pub proof fn lemma_shards_view(shards: Vec<Vec<u8>>)
    ensures
        shards.deep_view().len() == shards@.len(),
        forall|i: int| 0 <= i < shards@.len() ==> #[trigger] shards.deep_view()[i] == shards@[i]@,
{
    assert forall|i: int| 0 <= i < shards@.len() implies #[trigger] shards.deep_view()[i]
        == shards@[i]@ by {
        lemma_bytes_view(shards@[i]);
    }
}

/// The deep view of a vector of shards, some missing, holds the view of each shard that
/// is present, in order, and is empty where the vector is.
pub proof fn lemma_sparse_view(shards: Vec<Option<Vec<u8>>>)
    ensures
        shards.deep_view().len() == shards@.len(),
        forall|i: int|
            0 <= i < shards@.len() ==> (#[trigger] shards.deep_view()[i] is Some
                <==> shards@[i] is Some),
        forall|i: int|
            0 <= i < shards@.len() && shards@[i] is Some ==> (#[trigger] shards.deep_view()[i])
                == Some(shards@[i].unwrap()@),
{
    assert forall|i: int| 0 <= i < shards@.len() && shards@[i] is Some implies (
    #[trigger] shards.deep_view()[i]) == Some(shards@[i].unwrap()@) by {
        lemma_bytes_view(shards@[i].unwrap());
    }
}

/// The deep view of a slice of chunks holds the view of each chunk's bytes with its
/// index, in order.
pub proof fn lemma_chunks_view(chunks: &[(&[u8], usize)])
    ensures
        chunks.deep_view().len() == chunks@.len(),
        forall|i: int|
            0 <= i < chunks@.len() ==> #[trigger] chunks.deep_view()[i] == (
                chunks@[i].0@,
                chunks@[i].1,
            ),
{
    assert forall|i: int| 0 <= i < chunks@.len() implies #[trigger] chunks.deep_view()[i] == (
        chunks@[i].0@,
        chunks@[i].1,
    ) by {
        assert(chunks@[i].0.deep_view() =~= chunks@[i].0@);
    }
}

} // verus!
