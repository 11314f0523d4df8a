use erasure_coding::{branches, obtain_chunks, BlockData, Extrinsic};
use sp_core::{Blake2Hasher, Hasher, H256};
use sp_trie::{HashDBT, LayoutV0, MemoryDB, Trie, TrieDBBuilder, EMPTY_PREFIX};

fn chunks() -> Vec<Vec<u8>> {
    obtain_chunks(10, &BlockData(vec![1; 256]), &Extrinsic).unwrap()
}

#[test]
fn same_chunks_same_root() {
    let chunks = chunks();
    let first = branches(chunks.iter().map(|c| &c[..]).collect());
    let second = branches(chunks.iter().map(|c| &c[..]).collect());
    assert_eq!(first.root(), second.root());
}

#[test]
fn other_chunks_other_root() {
    let chunks = chunks();
    let first = branches(chunks.iter().map(|c| &c[..]).collect());
    let second = branches(chunks.iter().rev().map(|c| &c[..]).collect());
    assert_ne!(first.root(), second.root());
    let third = branches(chunks[..9].iter().map(|c| &c[..]).collect());
    assert_ne!(first.root(), third.root());
}

#[test]
fn one_branch_for_each_chunk() {
    let chunks = chunks();
    let mut all = branches(chunks.iter().map(|c| &c[..]).collect());
    for chunk in &chunks {
        let (nodes, data) = all.next().unwrap();
        assert!(!nodes.is_empty());
        assert_eq!(data, &chunk[..]);
    }
    assert!(all.next().is_none());
    assert!(all.next().is_none());
}

#[test]
fn no_chunks_no_branches() {
    let mut all = branches(Vec::new());
    assert!(all.next().is_none());
    // the root of the empty trie is the hash of the empty node.
    assert_eq!(all.root(), Blake2Hasher::hash(&[0u8]).0);
}

#[test]
fn branch_shows_the_chunk_under_the_root() {
    let chunks = chunks();
    let mut all = branches(chunks.iter().map(|c| &c[..]).collect());
    let root = H256(all.root());
    let mut index: u32 = 0;
    while let Some((nodes, data)) = all.next() {
        let mut db = MemoryDB::<Blake2Hasher>::new(&[0u8][..]);
        for node in &nodes {
            db.insert(EMPTY_PREFIX, node);
        }
        let trie = TrieDBBuilder::<LayoutV0<Blake2Hasher>>::new(&db, &root).build();
        let value = trie.get(&index.to_le_bytes()).unwrap().unwrap();
        assert_eq!(value, Blake2Hasher::hash(data).0.to_vec());
        index += 1;
    }
    assert_eq!(index, 10);
}

#[test]
fn branch_of_one_chunk_does_not_show_another() {
    let chunks = chunks();
    let mut all = branches(chunks.iter().map(|c| &c[..]).collect());
    let root = H256(all.root());
    let (nodes, _) = all.next().unwrap();
    let mut db = MemoryDB::<Blake2Hasher>::new(&[0u8][..]);
    for node in &nodes {
        db.insert(EMPTY_PREFIX, node);
    }
    let trie = TrieDBBuilder::<LayoutV0<Blake2Hasher>>::new(&db, &root).build();
    assert!(trie.get(&0u32.to_le_bytes()).unwrap().is_some());
    assert!(trie.get(&9u32.to_le_bytes()).is_err());
}
