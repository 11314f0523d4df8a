//! A Merkle trie in memory, its root and its branches.
//!
//! The trie is that of `sp_trie`, over the Blake2 hash of 256 bits of `sp_core`. What
//! the trie holds, its root and its branches are given names here, and the functions of
//! this file state of them what the rest of the library relies on, without proof.

use crate::payload::le_bytes4;
use parity_codec::Encode;
use sp_core::{Blake2Hasher, Hasher, H256};
use sp_trie::{LayoutV0, MemoryDB, Recorder, Trie, TrieDBBuilder, TrieDBMutBuilder, TrieMut};
use vstd::prelude::*;

verus! {

/// The nodes of a Merkle trie in memory, with the hash of its root node. Only the
/// functions of this file make or change one, so it always holds every node of its
/// trie.
#[verifier::external_body]
pub struct TrieStorage {
    db: MemoryDB<Blake2Hasher>,
    root: H256,
}

/// The keys of a trie with their values.
pub uninterp spec fn trie_entries(storage: TrieStorage) -> Map<Seq<u8>, Seq<u8>>;

/// The root hash of the trie that holds the entries `entries`.
pub uninterp spec fn merkle_root(entries: Map<Seq<u8>, Seq<u8>>) -> Seq<u8>;

/// The nodes that a lookup of `key` visits in the trie that holds the entries
/// `entries`, from the root on.
pub uninterp spec fn merkle_branch(entries: Map<Seq<u8>, Seq<u8>>, key: Seq<u8>) -> Seq<Seq<u8>>;

/// The Blake2 hash of 256 bits of `data`.
pub uninterp spec fn blake2_256(data: Seq<u8>) -> Seq<u8>;

/// No entries at all.
pub open spec fn no_entries() -> Map<Seq<u8>, Seq<u8>> {
    Map::empty()
}

impl TrieStorage {
    /// `MemoryDB::new` of `memory_db` and `TrieDBMutBuilder::new` of `trie_db`, both
    /// by way of `sp_trie`: a storage with no node but the empty one, and the root of
    /// the empty trie. The trie holds no entry.
    #[verifier::external_body]
    pub(crate) fn new() -> (storage: TrieStorage)
        ensures
            trie_entries(storage) == no_entries(),
    {
        let mut db = MemoryDB::<Blake2Hasher>::new(&[0u8][..]);
        let mut root = H256::default();
        TrieDBMutBuilder::<LayoutV0<Blake2Hasher>>::new(&mut db, &mut root);
        TrieStorage { db, root }
    }

    /// `TrieMut::insert` of `trie_db` on the trie of this storage, which is then
    /// committed to the storage: the trie holds `value`, which is not empty, at `key`,
    /// in place of what it held there, and its other entries as before. The call fails
    /// only where the storage lacks a node of its trie.
    #[verifier::external_body]
    pub(crate) fn insert(&mut self, key: &[u8], value: &[u8])
        requires
            value@.len() > 0,
        ensures
            trie_entries(*final(self)) == trie_entries(*old(self)).insert(key@, value@),
    {
        TrieDBMutBuilder::<LayoutV0<Blake2Hasher>>::from_existing(&mut self.db, &mut self.root)
            .build()
            .insert(key, value)
            .expect("the storage holds every node of its trie");
    }

    /// The root hash that `trie_db` has computed for the trie of this storage, as its
    /// 32 bytes. It depends on the entries of the trie alone, and is given the name
    /// `merkle_root`.
    #[verifier::external_body]
    pub(crate) fn root(&self) -> (root: [u8; 32])
        ensures
            root@ == merkle_root(trie_entries(*self)),
    {
        self.root.0
    }

    /// `Trie::get` of `trie_db` on the trie of this storage, with a `Recorder`: whether
    /// the trie holds `key`, and if so the nodes that the lookup has visited, from the
    /// root on. They depend on the entries of the trie and on the key alone, and are
    /// given the name `merkle_branch`. The call fails only where the storage lacks a
    /// node of its trie.
    #[verifier::external_body]
    pub(crate) fn get_with_proof(&self, key: &[u8]) -> (branch: Option<Vec<Vec<u8>>>)
        ensures
            branch is Some <==> trie_entries(*self).contains_key(key@),
            branch matches Some(nodes) ==> nodes.deep_view() == merkle_branch(
                trie_entries(*self),
                key@,
            ),
    {
        let mut recorder = Recorder::<LayoutV0<Blake2Hasher>>::new();
        let found = TrieDBBuilder::<LayoutV0<Blake2Hasher>>::new(&self.db, &self.root)
            .with_recorder(&mut recorder)
            .build()
            .get(key)
            .expect("the storage holds every node of its trie");
        found.map(|_| recorder.drain().into_iter().map(|record| record.data).collect())
    }
}

/// `Hasher::hash` of `hash_db` for the `Blake2Hasher` of `sp_core`: the Blake2 hash of
/// 256 bits of `data`, as its 32 bytes.
#[verifier::external_body]
pub(crate) fn hash_bytes(data: &[u8]) -> (hash: [u8; 32])
    ensures
        hash@ == blake2_256(data@),
{
    Blake2Hasher::hash(data).0
}

/// `Encode::encode` of `parity_codec` on a number of 32 bits: its four bytes, lowest
/// first.
#[verifier::external_body]
pub(crate) fn encode_index(index: u32) -> (key: Vec<u8>)
    ensures
        key@ == le_bytes4(index as int),
{
    index.encode()
}

} // verus!
