use erasure_coding::{code_params, CodeParams, Error, MAX_VALIDATORS};

#[test]
fn shard_counts() {
    assert_eq!(code_params(1), Ok(CodeParams { data_shards: 1, parity_shards: 0 }));
    assert_eq!(code_params(2), Ok(CodeParams { data_shards: 1, parity_shards: 1 }));
    assert_eq!(code_params(3), Ok(CodeParams { data_shards: 1, parity_shards: 2 }));
    assert_eq!(code_params(4), Ok(CodeParams { data_shards: 2, parity_shards: 2 }));
    assert_eq!(code_params(10), Ok(CodeParams { data_shards: 4, parity_shards: 6 }));
    assert_eq!(code_params(256), Ok(CodeParams { data_shards: 86, parity_shards: 170 }));
}

#[test]
fn shard_counts_add_up() {
    for n in 1..=MAX_VALIDATORS {
        let params = code_params(n).unwrap();
        assert_eq!(params.data_shards + params.parity_shards, n);
        assert_eq!(params.data_shards, (n - 1) / 3 + 1);
    }
}

#[test]
fn validator_count_out_of_range() {
    assert_eq!(code_params(0), Err(Error::EmptyValidators));
    assert_eq!(code_params(257), Err(Error::TooManyValidators));
    assert_eq!(code_params(usize::MAX), Err(Error::TooManyValidators));
}

#[test]
fn shard_length_is_quotient_plus_remainder() {
    let params = CodeParams { data_shards: 4, parity_shards: 6 };
    assert_eq!(params.shard_len(258), 66);
    assert_eq!(params.shard_len(256), 64);
    assert_eq!(params.shard_len(3), 3);
    assert_eq!(params.shard_len(7), 4);
    assert_eq!(params.shard_len(0), 0);
}

#[test]
fn shards_for_a_payload() {
    let params = CodeParams { data_shards: 2, parity_shards: 1 };
    let shards = params.make_shards_for(&[1, 2, 3, 4, 5]);
    assert_eq!(shards, vec![vec![1, 2, 3], vec![4, 5, 0], vec![0, 0, 0]]);
}

#[test]
fn shards_leave_room_that_is_not_needed() {
    let params = CodeParams { data_shards: 4, parity_shards: 1 };
    // 7 bytes in shards of 7 / 4 + 7 % 4 = 4 bytes: the last two data shards stay blank.
    let shards = params.make_shards_for(&[1, 2, 3, 4, 5, 6, 7]);
    assert_eq!(
        shards,
        vec![vec![1, 2, 3, 4], vec![5, 6, 7, 0], vec![0; 4], vec![0; 4], vec![0; 4]]
    );
}
