//! Coding block data into chunks, one for each validator, and reconstructing it from
//! some of them.

use crate::erasure::{
    all_present, encode_parity, present_count, present_uniform, recover_shards, rs_recovered,
    uniform, RecoveryFailure,
};
use crate::error::Error;
use crate::params::{code_params, code_params_of, lemma_shard_len_bounds, shard_len_of, CodeParams};
use crate::payload::{decode_payload, encode_payload, lemma_encoded_not_empty, BlockData, Extrinsic};
use crate::recovery::{
    consumed, encoded_shards, enough_of_encoding, first_fault, is_encoding, lemma_fault_stays,
    lemma_next_chunk, lemma_round_trip, lemma_sparse_len, reconstructed, sparse_shards,
};
use crate::shard_input::ShardInput;
use crate::views::{lemma_chunks_view, lemma_shards_view, lemma_sparse_view};
use vstd::prelude::*;
use vstd::slice::slice_to_vec;

verus! {

/// The error that a failure of the erasure code is reported as.
pub open spec fn recovery_error_of(failure: RecoveryFailure) -> Error {
    match failure {
        RecoveryFailure::TooFewShardsPresent => Error::NotEnoughChunks,
        RecoveryFailure::InvalidShardFlags => Error::WrongValidatorCount,
        RecoveryFailure::TooManyShards => Error::TooManyChunks,
    }
}

/// The error that a failure of the erasure code is reported as.
pub fn recovery_error(failure: RecoveryFailure) -> (e: Error)
    ensures
        e == recovery_error_of(failure),
{
    match failure {
        RecoveryFailure::TooFewShardsPresent => Error::NotEnoughChunks,
        RecoveryFailure::InvalidShardFlags => Error::WrongValidatorCount,
        RecoveryFailure::TooManyShards => Error::TooManyChunks,
    }
}

impl CodeParams {
    /// Codes a payload into shards: the data shards hold the payload, the parity shards
    /// what the erasure code computes of them. An empty payload is a `BadPayload`.
    pub fn encode(&self, payload: &[u8]) -> (r: Result<Vec<Vec<u8>>, Error>)
        requires
            self.wf(),
            self.parity_shards >= 1,
        ensures
            payload@.len() == 0 ==> (r matches Err(e) && e == Error::BadPayload),
            payload@.len() > 0 ==> (r matches Ok(shards) && shards.deep_view() == encoded_shards(
                *self,
                payload@,
            ) && shards@.len() == self.total() && uniform(
                shards.deep_view(),
                shard_len_of(payload@.len() as int, self.data_shards as int),
            )),
    {
        if payload.len() == 0 {
            return Err(Error::BadPayload);
        }
        let mut shards = self.make_shards_for(payload);
        proof {
            lemma_shards_view(shards);
            lemma_shard_len_bounds(payload@.len() as int, self.data_shards as int);
            assert(shards.deep_view()[0] == shards@[0]@);
        }
        encode_parity(self.data_shards, self.parity_shards, &mut shards);
        Ok(shards)
    }
}

/// Obtain erasure-coded chunks, one for each validator.
///
/// Works only up to 256 validators, and `n_validators` must be non-zero. One validator
/// alone leaves no parity shard, which the erasure code does not take; and the block
/// data's length has to fit the 32 bits that it is written in.
pub fn obtain_chunks(n_validators: usize, block_data: &BlockData, extrinsic: &Extrinsic) -> (r:
    Result<Vec<Vec<u8>>, Error>)
    requires
        n_validators != 1,
        block_data.0@.len() <= u32::MAX,
    ensures
        code_params_of(n_validators as int) matches Err(e) ==> (r matches Err(f) && f == e),
        code_params_of(n_validators as int) is Ok ==> (r matches Ok(chunks) && is_encoding(
            chunks.deep_view(),
            n_validators as int,
            block_data.0@,
        )),
{
    let params = match code_params(n_validators) {
        Ok(params) => params,
        Err(e) => {
            return Err(e);
        },
    };
    let encoded = encode_payload(block_data, extrinsic);
    proof {
        lemma_encoded_not_empty(block_data.0@);
    }
    params.encode(encoded.as_slice())
}

/// A set of `n` shards that are all missing.
fn missing_shards(n: usize) -> (shards: Vec<Option<Vec<u8>>>)
    ensures
        shards@.len() == n,
        shards.deep_view() == Seq::new(n as nat, |i: int| None::<Seq<u8>>),
{
    let mut shards: Vec<Option<Vec<u8>>> = Vec::new();
    let mut k: usize = 0;
    while k < n
        invariant
            k <= n,
            shards@.len() == k,
            forall|i: int| 0 <= i < k ==> (#[trigger] shards@[i]) is None,
        decreases n - k,
    {
        shards.push(None);
        k = k + 1;
    }
    proof {
        lemma_sparse_view(shards);
        assert(shards.deep_view() =~= Seq::new(n as nat, |i: int| None::<Seq<u8>>));
    }
    shards
}

/// Reconstruct the block data from a set of chunks.
///
/// Each chunk comes with the index of the validator that it is for. Of the chunks, the
/// first `n_validators` are looked at. If too few chunks are provided, recovery is not
/// possible.
///
/// Works only up to 256 validators, and `n_validators` must be non-zero. One validator
/// alone leaves no parity shard, which the erasure code does not take.
pub fn reconstruct(n_validators: usize, chunks: &[(&[u8], usize)]) -> (r: Result<
    (BlockData, Extrinsic),
    Error,
>)
    requires
        n_validators != 1,
    ensures
        r matches Ok(pair) ==> (reconstructed(n_validators as int, chunks.deep_view()) matches Ok(
            block,
        ) && block == pair.0.0@),
        r matches Err(e) ==> (reconstructed(n_validators as int, chunks.deep_view()) matches Err(f)
            && f == e),
        forall|full: Seq<Seq<u8>>, block: Seq<u8>| #[trigger]
            enough_of_encoding(n_validators as int, chunks.deep_view(), full, block) ==> (
            r matches Ok(pair) && pair.0.0@ == block),
{
    let ghost n = n_validators as int;
    let ghost all = chunks.deep_view();
    let ghost taken = consumed(all, n);
    proof {
        lemma_chunks_view(chunks);
        assert forall|full: Seq<Seq<u8>>, block: Seq<u8>| #[trigger]
            enough_of_encoding(n, all, full, block) implies first_fault(taken, n) is None
            && present_count(sparse_shards(taken, n)) >= code_params_of(n).unwrap().data_shards
            && code_params_of(n) is Ok by {
            lemma_round_trip(n, all, full, block);
        }
    }
    let params = match code_params(n_validators) {
        Ok(params) => params,
        Err(e) => {
            return Err(e);
        },
    };
    let mut shards = missing_shards(n_validators);
    let mut shard_len: Option<usize> = None;
    let mut i: usize = 0;
    while i < chunks.len() && i < n_validators
        invariant
            n == n_validators,
            2 <= n <= 256,
            all == chunks.deep_view(),
            taken == consumed(all, n),
            forall|k: int| 0 <= k < chunks@.len() ==> #[trigger] all[k] == (chunks@[k].0@, chunks@[k].1),
            all.len() == chunks@.len(),
            i <= taken.len(),
            taken.len() <= n,
            taken.len() <= chunks@.len(),
            taken.len() == chunks@.len() || taken.len() == n,
            forall|k: int| 0 <= k < taken.len() ==> taken[k] == all[k],
            shards@.len() == n,
            shards.deep_view() == sparse_shards(taken.take(i as int), n),
            first_fault(taken.take(i as int), n) is None,
            shard_len is None <==> i == 0,
            shard_len matches Some(len) ==> len == taken[0].0.len() && len > 0 && present_uniform(
                shards.deep_view(),
                len as int,
            ),
            code_params_of(n) == Ok::<CodeParams, Error>(params),
            forall|full: Seq<Seq<u8>>, block: Seq<u8>| #[trigger]
                enough_of_encoding(n, all, full, block) ==> first_fault(taken, n) is None,
        decreases chunks@.len() - i,
    {
        let (chunk_data, chunk_idx) = chunks[i];
        proof {
            assert(taken[i as int] == (chunk_data@, chunk_idx));
            lemma_next_chunk(taken, n, i as int);
        }
        if chunk_idx >= n_validators {
            proof {
                lemma_fault_stays(taken, n, i + 1);
            }
            return Err(Error::ChunkIndexOutOfBounds(chunk_idx, n_validators));
        }
        let expected: usize = match shard_len {
            Some(len) => len,
            None => {
                shard_len = Some(chunk_data.len());
                chunk_data.len()
            },
        };
        if expected != chunk_data.len() || expected == 0 {
            proof {
                lemma_fault_stays(taken, n, i + 1);
            }
            return Err(Error::NonUniformChunks);
        }
        let ghost before = shards.deep_view();
        proof {
            lemma_sparse_view(shards);
            lemma_sparse_len(taken.take(i as int), n);
        }
        shards[chunk_idx] = Some(slice_to_vec(chunk_data));
        proof {
            lemma_sparse_view(shards);
            assert(shards.deep_view() =~= before.update(chunk_idx as int, Some(chunk_data@)));
            if i == 0 {
                assert(taken.take(0).len() == 0);
            }
            assert(present_uniform(shards.deep_view(), expected as int));
        }
        i = i + 1;
    }
    proof {
        assert(taken.take(i as int) =~= taken);
    }
    let ghost sparse = shards.deep_view();
    proof {
        if shard_len is None {
            assert(taken.len() == 0);
            assert(present_uniform(sparse, 1));
        }
    }
    match recover_shards(params.data_shards, params.parity_shards, &mut shards) {
        Err(failure) => {
            return Err(recovery_error(failure));
        },
        Ok(()) => {},
    }
    let step: usize = match shard_len {
        Some(len) => len,
        None => 1,
    };
    let ghost recovered = rs_recovered(sparse, params.data_shards as nat);
    proof {
        lemma_sparse_view(shards);
        assert(shards.deep_view().len() == recovered.len());
        assert forall|k: int| 0 <= k < params.data_shards implies (#[trigger] shards@[k]) is Some by {
            assert(shards.deep_view()[k] == Some(recovered[k]));
        }
    }
    let mut input = ShardInput::new(shards, params.data_shards);
    let stream = input.read_to_end(step);
    let decoded = decode_payload(stream.as_slice());
    proof {
        assert forall|full: Seq<Seq<u8>>, block: Seq<u8>| #[trigger]
            enough_of_encoding(n, all, full, block) implies (decoded matches Some(pair)
            && pair.0.0@ == block) by {
            lemma_round_trip(n, all, full, block);
            assert(all_present(recovered) == all_present(full));
            assert(recovered =~= full) by {
                assert forall|k: int| 0 <= k < recovered.len() implies recovered[k] == full[k] by {
                    assert(all_present(recovered)[k] == Some(recovered[k]));
                    assert(all_present(full)[k] == Some(full[k]));
                }
                assert(all_present(recovered).len() == recovered.len());
                assert(all_present(full).len() == full.len());
            }
        }
    }
    match decoded {
        None => Err(Error::BadPayload),
        Some(pair) => Ok(pair),
    }
}

} // verus!
