//! The Merkle commitment to a set of chunks, and the branch of each chunk.

use crate::payload::{le_bytes4, lemma_le_bytes4};
use crate::trie::{
    blake2_256, encode_index, hash_bytes, merkle_branch, merkle_root, no_entries, trie_entries,
    TrieStorage,
};
use vstd::prelude::*;

verus! {

/// The key under which the trie holds the chunk at `index`: the index in four bytes,
/// lowest first.
pub open spec fn index_key(index: int) -> Seq<u8> {
    le_bytes4(index)
}

/// The entries of the trie over the chunks: under the key of each chunk's index, the
/// hash of the chunk.
pub open spec fn chunk_entries(chunks: Seq<Seq<u8>>) -> Map<Seq<u8>, Seq<u8>>
    decreases chunks.len(),
{
    if chunks.len() == 0 {
        no_entries()
    } else {
        chunk_entries(chunks.drop_last()).insert(
            index_key(chunks.len() - 1),
            blake2_256(chunks.last()),
        )
    }
}

/// The commitment to the chunks: the root of the trie over them.
pub open spec fn commitment(chunks: Seq<Seq<u8>>) -> Seq<u8> {
    merkle_root(chunk_entries(chunks))
}

/// The branch of the chunk at `index`: the nodes of the trie over the chunks on the way
/// from the root to that chunk's hash.
pub open spec fn branch_of(chunks: Seq<Seq<u8>>, index: int) -> Seq<Seq<u8>> {
    merkle_branch(chunk_entries(chunks), index_key(index))
}

/// Two indices under 2^32 with one key are one index.
pub proof fn lemma_index_key_injective(i: int, j: int)
    requires
        0 <= i <= u32::MAX,
        0 <= j <= u32::MAX,
        index_key(i) == index_key(j),
    ensures
        i == j,
{
    lemma_le_bytes4(i);
    lemma_le_bytes4(j);
}

/// The trie over the chunks holds the keys of the indices of the chunks, and under
/// each the hash of its chunk.
pub proof fn lemma_chunk_entries(chunks: Seq<Seq<u8>>)
    requires
        chunks.len() <= u32::MAX,
    ensures
        forall|i: int|
            0 <= i <= u32::MAX ==> (chunk_entries(chunks).contains_key(#[trigger] index_key(i))
                <==> i < chunks.len()),
        forall|i: int|
            0 <= i < chunks.len() ==> chunk_entries(chunks)[#[trigger] index_key(i)] == blake2_256(
                chunks[i],
            ),
    decreases chunks.len(),
{
    if chunks.len() > 0 {
        let before = chunks.drop_last();
        let last = chunks.len() - 1;
        lemma_chunk_entries(before);
        assert forall|i: int| 0 <= i <= u32::MAX implies (chunk_entries(chunks).contains_key(
            #[trigger] index_key(i),
        ) <==> i < chunks.len()) by {
            if index_key(i) == index_key(last) {
                lemma_index_key_injective(i, last);
            }
        }
        assert forall|i: int| 0 <= i < chunks.len() implies chunk_entries(chunks)[#[trigger] index_key(
            i,
        )] == blake2_256(chunks[i]) by {
            if i < last {
                assert(before[i] == chunks[i]);
                if index_key(i) == index_key(last) {
                    lemma_index_key_injective(i, last);
                }
            }
        }
    }
}

/// The deep view of a vector of chunks holds the view of each chunk, in order.
pub proof fn lemma_chunks_deep_view(chunks: Vec<&[u8]>)
    ensures
        chunks.deep_view().len() == chunks@.len(),
        forall|i: int| 0 <= i < chunks@.len() ==> #[trigger] chunks.deep_view()[i] == chunks@[i]@,
{
    assert forall|i: int| 0 <= i < chunks@.len() implies #[trigger] chunks.deep_view()[i]
        == chunks@[i]@ by {
        assert(chunks@[i].deep_view() =~= chunks@[i]@);
    }
}

/// Yields the Merkle branch and the data of each chunk in turn, for all chunks to be
/// sent to other validators.
pub struct Branches<'a> {
    trie_storage: TrieStorage,
    root: [u8; 32],
    chunks: Vec<&'a [u8]>,
    current_pos: usize,
}

impl<'a> Branches<'a> {
    /// The chunks, in their order.
    pub closed spec fn chunks(&self) -> Seq<Seq<u8>> {
        self.chunks.deep_view()
    }

    /// The index of the chunk that comes next.
    pub closed spec fn position(&self) -> int {
        self.current_pos as int
    }

    /// The root of the trie.
    pub closed spec fn root_hash(&self) -> Seq<u8> {
        self.root@
    }

    /// The trie is the trie over the chunks and the root is its root; the chunks are no
    /// more than 32 bits can count, and the position is not past them.
    #[verifier::type_invariant]
    pub closed spec fn wf(&self) -> bool {
        &&& self.chunks@.len() <= u32::MAX
        &&& self.current_pos <= self.chunks@.len()
        &&& trie_entries(self.trie_storage) == chunk_entries(self.chunks.deep_view())
        &&& self.root@ == commitment(self.chunks.deep_view())
    }

    /// Get the trie root.
    pub fn root(&self) -> (root: [u8; 32])
        ensures
            root@ == self.root_hash(),
            root@ == commitment(self.chunks()),
    {
        proof {
            use_type_invariant(self);
        }
        self.root
    }

    /// The next chunk with its branch, or nothing after the last chunk.
    pub fn next(&mut self) -> (item: Option<(Vec<Vec<u8>>, &'a [u8])>)
        ensures
            final(self).chunks() == old(self).chunks(),
            final(self).root_hash() == old(self).root_hash(),
            old(self).position() < old(self).chunks().len() ==> (item matches Some(found)
                && found.0.deep_view() == branch_of(old(self).chunks(), old(self).position())
                && found.1@ == old(self).chunks()[old(self).position()] && final(self).position()
                == old(self).position() + 1),
            old(self).position() >= old(self).chunks().len() ==> item is None
                && final(self).position() == old(self).position(),
    {
        proof {
            use_type_invariant(&*self);
            lemma_chunks_deep_view(self.chunks);
            lemma_chunk_entries(self.chunks.deep_view());
        }
        let key = encode_index(self.current_pos as u32);
        let res = self.trie_storage.get_with_proof(key.as_slice());
        proof {
            assert(key@ == index_key(self.current_pos as int));
            assert(res is Some <==> self.current_pos < self.chunks@.len());
        }
        match res {
            Some(nodes) => {
                let chunk: &'a [u8] = self.chunks[self.current_pos];
                self.current_pos = self.current_pos + 1;
                Some((nodes, chunk))
            },
            None => None,
        }
    }
}

/// Construct a trie from chunks of an erasure-coded value. This returns the root hash
/// and the Merkle proofs, one for each validator, in a `Branches`.
///
/// The index of a chunk is its key in 32 bits, so the chunks can be no more than 32
/// bits count.
pub fn branches<'a>(chunks: Vec<&'a [u8]>) -> (b: Branches<'a>)
    requires
        chunks@.len() <= u32::MAX,
    ensures
        b.chunks() == chunks.deep_view(),
        b.position() == 0,
        b.root_hash() == commitment(chunks.deep_view()),
{
    let mut trie_storage = TrieStorage::new();
    let ghost all = chunks.deep_view();
    proof {
        lemma_chunks_deep_view(chunks);
    }
    let mut i: usize = 0;
    while i < chunks.len()
        invariant
            i <= chunks@.len() <= u32::MAX,
            all == chunks.deep_view(),
            all.len() == chunks@.len(),
            forall|k: int| 0 <= k < chunks@.len() ==> #[trigger] all[k] == chunks@[k]@,
            trie_entries(trie_storage) == chunk_entries(all.take(i as int)),
        decreases chunks@.len() - i,
    {
        let key = encode_index(i as u32);
        let chunk_hash = hash_bytes(chunks[i]);
        trie_storage.insert(key.as_slice(), chunk_hash.as_slice());
        proof {
            assert(all.take(i + 1).drop_last() =~= all.take(i as int));
        }
        i = i + 1;
    }
    proof {
        assert(all.take(i as int) =~= all);
    }
    let root = trie_storage.root();
    Branches { trie_storage, root, chunks, current_pos: 0 }
}

/// The commitment is a matter of the chunks alone: two sequences of as many chunks,
/// each chunk of the one with the bytes of the chunk at its place in the other, have
/// the same root.
pub proof fn lemma_same_chunks_same_root(first: Seq<Seq<u8>>, second: Seq<Seq<u8>>)
    requires
        first.len() == second.len(),
        forall|i: int|
            0 <= i < first.len() ==> first[i].len() == second[i].len() && forall|k: int|
                0 <= k < first[i].len() ==> first[i][k] == second[i][k],
    ensures
        commitment(first) == commitment(second),
{
    assert forall|i: int| 0 <= i < first.len() implies first[i] == second[i] by {
        assert(first[i] =~= second[i]);
    }
    assert(first =~= second);
}

} // verus!
