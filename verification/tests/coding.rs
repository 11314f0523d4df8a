use erasure_coding::coding::recovery_error;
use erasure_coding::erasure::RecoveryFailure;
use erasure_coding::{code_params, obtain_chunks, reconstruct, BlockData, CodeParams, Error, Extrinsic};

fn picked<'a>(chunks: &'a [Vec<u8>], indices: &[usize]) -> Vec<(&'a [u8], usize)> {
    indices.iter().map(|&i| (&chunks[i][..], i)).collect()
}

#[test]
fn round_trip_block_data() {
    let block_data = BlockData(vec![1; 256]);
    let chunks = obtain_chunks(10, &block_data, &Extrinsic).unwrap();

    assert_eq!(chunks.len(), 10);

    // any 4 chunks should work.
    let reconstructed = reconstruct(
        10,
        &[(&*chunks[1], 1), (&*chunks[4], 4), (&*chunks[6], 6), (&*chunks[9], 9)],
    )
    .unwrap();

    assert_eq!(reconstructed, (block_data, Extrinsic));
}

#[test]
fn chunks_are_of_one_length() {
    let block_data = BlockData(vec![1; 256]);
    let chunks = obtain_chunks(10, &block_data, &Extrinsic).unwrap();
    // 2 bytes of length and 256 of data over 4 data shards: 258 / 4 + 258 % 4.
    for chunk in &chunks {
        assert_eq!(chunk.len(), 66);
    }
}

#[test]
fn data_shards_hold_the_payload() {
    let block_data = BlockData(vec![7, 8, 9]);
    let chunks = obtain_chunks(4, &block_data, &Extrinsic).unwrap();
    // the payload is the length 3 in one byte, 3 << 2, and the three bytes: 4 bytes
    // over 2 data shards of 4 / 2 + 4 % 2 = 2 bytes.
    assert_eq!(chunks.len(), 4);
    assert_eq!(chunks[0], vec![12, 7]);
    assert_eq!(chunks[1], vec![8, 9]);
    assert_eq!(chunks[2].len(), 2);
    assert_eq!(chunks[3].len(), 2);
}

#[test]
fn payload_is_padded_with_zeros() {
    let block_data = BlockData(vec![5; 4]);
    // 5 bytes over 3 data shards: shards of 5 / 3 + 5 % 3 = 3 bytes.
    let chunks = obtain_chunks(7, &block_data, &Extrinsic).unwrap();
    assert_eq!(chunks.len(), 7);
    assert_eq!(chunks[0], vec![16, 5, 5]);
    assert_eq!(chunks[1], vec![5, 5, 0]);
    assert_eq!(chunks[2], vec![0, 0, 0]);
}

#[test]
fn parity_shards_are_filled() {
    let block_data = BlockData(vec![1; 256]);
    let chunks = obtain_chunks(10, &block_data, &Extrinsic).unwrap();
    for chunk in &chunks[4..] {
        assert!(chunk.iter().any(|&b| b != 0));
    }
}

#[test]
fn long_block_has_a_length_of_two_bytes() {
    let block_data = BlockData(vec![3; 100]);
    let chunks = obtain_chunks(2, &block_data, &Extrinsic).unwrap();
    // one data shard: 100 << 2 | 1 = 401 = 0x0191.
    assert_eq!(chunks[0].len(), 102);
    assert_eq!(&chunks[0][..3], &[0x91, 0x01, 3]);
}

#[test]
fn no_validators() {
    let block_data = BlockData(vec![1; 16]);
    assert_eq!(obtain_chunks(0, &block_data, &Extrinsic), Err(Error::EmptyValidators));
    assert_eq!(reconstruct(0, &[]), Err(Error::EmptyValidators));
}

#[test]
fn too_many_validators() {
    let block_data = BlockData(vec![1; 16]);
    assert_eq!(obtain_chunks(257, &block_data, &Extrinsic), Err(Error::TooManyValidators));
    assert_eq!(reconstruct(257, &[]), Err(Error::TooManyValidators));
}

#[test]
fn most_validators() {
    let block_data = BlockData((0..=255).collect());
    let chunks = obtain_chunks(256, &block_data, &Extrinsic).unwrap();
    assert_eq!(chunks.len(), 256);
    let indices: Vec<usize> = (170..256).collect();
    let reconstructed = reconstruct(256, &picked(&chunks, &indices)).unwrap();
    assert_eq!(reconstructed, (block_data, Extrinsic));
}

#[test]
fn empty_payload_is_bad() {
    let params = CodeParams { data_shards: 4, parity_shards: 6 };
    assert_eq!(params.encode(&[]), Err(Error::BadPayload));
}

#[test]
fn encode_fills_parity() {
    let params = code_params(3).unwrap();
    let shards = params.encode(&[1, 2, 3, 4]).unwrap();
    assert_eq!(shards.len(), 3);
    assert_eq!(shards[0], vec![1, 2, 3, 4]);
    assert_eq!(shards[1].len(), 4);
    assert_eq!(shards[2].len(), 4);
    assert_ne!(shards[1], vec![0, 0, 0, 0]);
}

#[test]
fn any_data_shards_many_chunks_give_the_block_back() {
    for n in 2..=24usize {
        let block_data = BlockData((0..(n * 7)).map(|b| (b % 251) as u8).collect());
        let chunks = obtain_chunks(n, &block_data, &Extrinsic).unwrap();
        assert_eq!(chunks.len(), n);
        let data_shards = (n - 1) / 3 + 1;
        for start in 0..=(n - data_shards) {
            let indices: Vec<usize> = (start..start + data_shards).collect();
            let reconstructed = reconstruct(n, &picked(&chunks, &indices)).unwrap();
            assert_eq!(reconstructed, (block_data.clone(), Extrinsic));
        }
    }
}

#[test]
fn chunks_in_any_order() {
    let block_data = BlockData(vec![9; 33]);
    let chunks = obtain_chunks(7, &block_data, &Extrinsic).unwrap();
    let reconstructed = reconstruct(7, &picked(&chunks, &[6, 0, 3])).unwrap();
    assert_eq!(reconstructed, (block_data, Extrinsic));
}

#[test]
fn one_chunk_too_few() {
    let block_data = BlockData(vec![1; 256]);
    let chunks = obtain_chunks(10, &block_data, &Extrinsic).unwrap();
    assert_eq!(reconstruct(10, &picked(&chunks, &[1, 4, 6])), Err(Error::NotEnoughChunks));
    assert_eq!(reconstruct(10, &[]), Err(Error::NotEnoughChunks));
}

#[test]
fn one_index_twice_counts_once() {
    let block_data = BlockData(vec![1; 256]);
    let chunks = obtain_chunks(10, &block_data, &Extrinsic).unwrap();
    assert_eq!(reconstruct(10, &picked(&chunks, &[1, 4, 6, 6])), Err(Error::NotEnoughChunks));
}

#[test]
fn later_chunk_overwrites_earlier() {
    let block_data = BlockData(vec![4; 10]);
    let chunks = obtain_chunks(2, &block_data, &Extrinsic).unwrap();
    let wrong = vec![0xff; chunks[0].len()];
    let reconstructed = reconstruct(2, &[(&wrong[..], 0), (&chunks[0][..], 0)]).unwrap();
    assert_eq!(reconstructed, (block_data, Extrinsic));
    assert_eq!(reconstruct(2, &[(&chunks[0][..], 0), (&wrong[..], 0)]), Err(Error::BadPayload));
}

#[test]
fn chunks_past_the_validator_count_are_ignored() {
    let block_data = BlockData(vec![4; 10]);
    let chunks = obtain_chunks(2, &block_data, &Extrinsic).unwrap();
    let short = vec![1u8];
    let reconstructed =
        reconstruct(2, &[(&chunks[0][..], 0), (&chunks[1][..], 1), (&short[..], 9)]).unwrap();
    assert_eq!(reconstructed, (block_data, Extrinsic));
}

#[test]
fn index_out_of_bounds() {
    let block_data = BlockData(vec![1; 256]);
    let chunks = obtain_chunks(10, &block_data, &Extrinsic).unwrap();
    assert_eq!(
        reconstruct(10, &[(&chunks[1][..], 1), (&chunks[4][..], 10)]),
        Err(Error::ChunkIndexOutOfBounds(10, 10))
    );
    assert_eq!(
        reconstruct(10, &[(&chunks[1][..], 77)]),
        Err(Error::ChunkIndexOutOfBounds(77, 10))
    );
}

#[test]
fn chunks_of_different_lengths() {
    let block_data = BlockData(vec![1; 256]);
    let chunks = obtain_chunks(10, &block_data, &Extrinsic).unwrap();
    assert_eq!(
        reconstruct(10, &[(&chunks[1][..], 1), (&chunks[4][..65], 4)]),
        Err(Error::NonUniformChunks)
    );
}

#[test]
fn empty_chunks() {
    let empty: Vec<u8> = Vec::new();
    assert_eq!(reconstruct(10, &[(&empty[..], 1)]), Err(Error::NonUniformChunks));
}

#[test]
fn first_fault_is_reported() {
    let empty: Vec<u8> = Vec::new();
    let one = vec![1u8];
    assert_eq!(reconstruct(4, &[(&empty[..], 0), (&one[..], 7)]), Err(Error::NonUniformChunks));
    assert_eq!(
        reconstruct(4, &[(&one[..], 7), (&empty[..], 0)]),
        Err(Error::ChunkIndexOutOfBounds(7, 4))
    );
}

#[test]
fn bytes_that_are_no_payload() {
    // the first byte starts no length: its low bits say "more than four bytes".
    let garbage = vec![0xff, 1, 2, 3];
    assert_eq!(reconstruct(2, &[(&garbage[..], 0)]), Err(Error::BadPayload));
    // a length of 3 and only two bytes after it.
    let short = vec![12, 1, 2];
    assert_eq!(reconstruct(2, &[(&short[..], 0)]), Err(Error::BadPayload));
}

#[test]
fn payload_read_from_given_shards() {
    // a length of 2, its two bytes, and padding.
    let shard = vec![8, 42, 43, 0];
    let reconstructed = reconstruct(2, &[(&shard[..], 0)]).unwrap();
    assert_eq!(reconstructed, (BlockData(vec![42, 43]), Extrinsic));
    // the same length in the form of two bytes: 2 << 2 | 1.
    let wide = vec![9, 0, 42, 43];
    let reconstructed = reconstruct(2, &[(&wide[..], 0)]).unwrap();
    assert_eq!(reconstructed, (BlockData(vec![42, 43]), Extrinsic));
    // in the form of four bytes: 2 << 2 | 2.
    let wider = vec![10, 0, 0, 0, 42, 43];
    let reconstructed = reconstruct(2, &[(&wider[..], 0)]).unwrap();
    assert_eq!(reconstructed, (BlockData(vec![42, 43]), Extrinsic));
    // and after a byte 3, in four bytes.
    let widest = vec![3, 2, 0, 0, 0, 42, 43];
    let reconstructed = reconstruct(2, &[(&widest[..], 0)]).unwrap();
    assert_eq!(reconstructed, (BlockData(vec![42, 43]), Extrinsic));
}

#[test]
fn failures_of_the_erasure_code() {
    assert_eq!(recovery_error(RecoveryFailure::TooFewShardsPresent), Error::NotEnoughChunks);
    assert_eq!(recovery_error(RecoveryFailure::InvalidShardFlags), Error::WrongValidatorCount);
    assert_eq!(recovery_error(RecoveryFailure::TooManyShards), Error::TooManyChunks);
}

#[test]
fn empty_block_data() {
    let block_data = BlockData(Vec::new());
    let chunks = obtain_chunks(4, &block_data, &Extrinsic).unwrap();
    // the payload is the one byte of the length.
    assert_eq!(chunks[0], vec![0]);
    assert_eq!(chunks[1], vec![0]);
    let reconstructed = reconstruct(4, &picked(&chunks, &[2, 3])).unwrap();
    assert_eq!(reconstructed, (block_data, Extrinsic));
}

#[test]
fn lengths_at_the_edges_of_the_compact_form() {
    let cases: [(usize, &[u8]); 8] = [
        (1, &[4]),
        (63, &[252]),
        (64, &[0x01, 0x01]),
        (65, &[0x05, 0x01]),
        (16383, &[0xfd, 0xff]),
        (16384, &[0x02, 0x00, 0x01, 0x00]),
        (16385, &[0x06, 0x00, 0x01, 0x00]),
        (70000, &[0xc2, 0x45, 0x04, 0x00]),
    ];
    for (len, prefix) in cases.iter() {
        let block_data = BlockData((0..*len).map(|b| (b % 253) as u8).collect());
        let chunks = obtain_chunks(2, &block_data, &Extrinsic).unwrap();
        assert_eq!(chunks[0].len(), prefix.len() + len);
        assert_eq!(&chunks[0][..prefix.len()], *prefix);
        assert_eq!(&chunks[0][prefix.len()..], &block_data.0[..]);
        let reconstructed = reconstruct(2, &[(&chunks[1][..], 1)]).unwrap();
        assert_eq!(reconstructed, (block_data, Extrinsic));
    }
}

#[test]
fn lengths_that_end_too_early() {
    for bytes in [&[1u8][..], &[2, 0, 0][..], &[3, 0, 0, 0][..], &[5, 0][..]] {
        assert_eq!(reconstruct(2, &[(bytes, 0)]), Err(Error::BadPayload));
    }
}

#[test]
fn lengths_of_more_than_32_bits() {
    for first in [7u8, 11, 0xff] {
        let bytes = vec![first, 0, 0, 0, 0, 0, 0, 0, 0, 0];
        assert_eq!(reconstruct(2, &[(&bytes[..], 0)]), Err(Error::BadPayload));
    }
}

#[test]
fn length_after_the_byte_three() {
    let bytes = vec![3, 1, 0, 0, 0, 9, 8];
    assert_eq!(reconstruct(2, &[(&bytes[..], 0)]), Ok((BlockData(vec![9]), Extrinsic)));
    let bytes = vec![3, 3, 0, 0, 0, 9, 8];
    assert_eq!(reconstruct(2, &[(&bytes[..], 0)]), Err(Error::BadPayload));
}

#[test]
fn payload_over_several_shards() {
    // 4 data shards of 66 bytes; the block data ends in the last of them.
    let block_data = BlockData((0..=255).collect());
    let chunks = obtain_chunks(10, &block_data, &Extrinsic).unwrap();
    let mut stream = Vec::new();
    for chunk in &chunks[..4] {
        stream.extend_from_slice(chunk);
    }
    assert_eq!(&stream[..2], &[0x01, 0x04]);
    assert_eq!(&stream[2..258], &block_data.0[..]);
    assert_eq!(&stream[258..], &[0; 6]);
}
