//! What reconstruction makes of a set of chunks: the model, and what follows from it.

use crate::erasure::{
    agrees, all_present, is_codeword, present_count, rs_parity, rs_recovered, uniform,
};
use crate::error::Error;
use crate::packing::{lemma_stream_is_payload, packed};
use crate::params::{
    code_params_of, data_shards_of, lemma_shard_len_bounds, shard_len_of, CodeParams,
};
use crate::payload::{lemma_decode_encoded, scale_bytes, scale_decoded};
use crate::shard_input::stream_from;
use vstd::prelude::*;

verus! {

/// A chunk as it is handed in: its bytes, and the index of the validator it is for.
pub type Chunk = (Seq<u8>, usize);

/// The chunks that are looked at: the first `n` of them.
pub open spec fn consumed(chunks: Seq<Chunk>, n: int) -> Seq<Chunk> {
    if chunks.len() <= n {
        chunks
    } else {
        chunks.take(n)
    }
}

/// What is wrong with one chunk, if anything: first its index, which must be under
/// `n`; then its length, which must be that of the first chunk and not zero.
pub open spec fn chunk_fault(chunk: Chunk, first_len: int, n: int) -> Option<Error> {
    if chunk.1 >= n {
        Some(Error::ChunkIndexOutOfBounds(chunk.1, n as usize))
    } else if chunk.0.len() != first_len || chunk.0.len() == 0 {
        Some(Error::NonUniformChunks)
    } else {
        None
    }
}

/// What is wrong with the first chunk that has something wrong with it, if any has.
pub open spec fn first_fault(chunks: Seq<Chunk>, n: int) -> Option<Error>
    decreases chunks.len(),
{
    if chunks.len() == 0 {
        None
    } else {
        match first_fault(chunks.drop_last(), n) {
            Some(e) => Some(e),
            None => chunk_fault(chunks.last(), chunks[0].0.len() as int, n),
        }
    }
}

/// The set of `n` shards that the chunks fill: each chunk with an index under `n`
/// stands at its index, and where two chunks have one index the later one stands.
pub open spec fn sparse_shards(chunks: Seq<Chunk>, n: int) -> Seq<Option<Seq<u8>>>
    decreases chunks.len(),
{
    if chunks.len() == 0 {
        Seq::new(n as nat, |i: int| None)
    } else if chunks.last().1 < n {
        sparse_shards(chunks.drop_last(), n).update(
            chunks.last().1 as int,
            Some(chunks.last().0),
        )
    } else {
        sparse_shards(chunks.drop_last(), n)
    }
}

/// The bytes of the first `data_shards` shards of `full`, one shard after the other.
pub open spec fn data_stream(full: Seq<Seq<u8>>, data_shards: int) -> Seq<u8> {
    stream_from(all_present(full), data_shards, 0, 0)
}

/// What `reconstruct` returns for `n` validators and the chunks `chunks`: the block
/// data, or the error.
pub open spec fn reconstructed(n: int, chunks: Seq<Chunk>) -> Result<Seq<u8>, Error> {
    match code_params_of(n) {
        Err(e) => Err(e),
        Ok(params) => {
            let taken = consumed(chunks, n);
            let shards = sparse_shards(taken, n);
            match first_fault(taken, n) {
                Some(e) => Err(e),
                None => if present_count(shards) < params.data_shards {
                    Err(Error::NotEnoughChunks)
                } else {
                    let full = rs_recovered(shards, params.data_shards as nat);
                    match scale_decoded(data_stream(full, params.data_shards as int)) {
                        None => Err(Error::BadPayload),
                        Some(block) => Ok(block),
                    }
                },
            }
        },
    }
}

/// The shards that encoding makes of a payload: the data shards that hold the payload,
/// and then their parity shards.
pub open spec fn encoded_shards(params: CodeParams, payload: Seq<u8>) -> Seq<Seq<u8>> {
    let data = packed(payload, params.data_shards as int, params.total()).take(
        params.data_shards as int,
    );
    data + rs_parity(data, params.parity_shards as nat)
}

/// The chunks that `obtain_chunks` returns for `n` validators and the block data
/// `block`: the data shards that hold the bytes of the payload, and then their parity
/// shards.
pub open spec fn encoded_chunks(n: int, block: Seq<u8>) -> Seq<Seq<u8>> {
    encoded_shards(code_params_of(n).unwrap(), scale_bytes(block))
}

/// `full` is the chunks for `n` validators and the block data `block`, all of the
/// shard length for the payload.
pub open spec fn is_encoding(full: Seq<Seq<u8>>, n: int, block: Seq<u8>) -> bool {
    &&& code_params_of(n) is Ok
    &&& block.len() <= u32::MAX
    &&& full == encoded_chunks(n, block)
    &&& full.len() == n
    &&& uniform(
        full,
        shard_len_of(scale_bytes(block).len() as int, code_params_of(n).unwrap().data_shards as int),
    )
}

/// The chunks are chunks of `full`, which is the encoding of `block` for `n`
/// validators, and those that are looked at fill at least as many shards as there are
/// data shards.
pub open spec fn enough_of_encoding(
    n: int,
    chunks: Seq<Chunk>,
    full: Seq<Seq<u8>>,
    block: Seq<u8>,
) -> bool {
    &&& is_encoding(full, n, block)
    &&& is_selection(consumed(chunks, n), full)
    &&& present_count(sparse_shards(consumed(chunks, n), n)) >= data_shards_of(n)
}

/// Each chunk is the shard of `full` at the chunk's index.
pub open spec fn is_selection(chunks: Seq<Chunk>, full: Seq<Seq<u8>>) -> bool {
    forall|i: int|
        0 <= i < chunks.len() ==> (#[trigger] chunks[i]).1 < full.len() && chunks[i].0
            == full[chunks[i].1 as int]
}

/// No two chunks have the same index.
pub open spec fn distinct_indices(chunks: Seq<Chunk>) -> bool {
    forall|i: int, j: int|
        0 <= i < j < chunks.len() ==> (#[trigger] chunks[i]).1 != (#[trigger] chunks[j]).1
}

/// The set of shards that the chunks fill has `n` places.
pub proof fn lemma_sparse_len(chunks: Seq<Chunk>, n: int)
    requires
        0 <= n,
    ensures
        sparse_shards(chunks, n).len() == n,
    decreases chunks.len(),
{
    if chunks.len() > 0 {
        lemma_sparse_len(chunks.drop_last(), n);
    }
}

/// One chunk more: where the chunks before it have nothing wrong, what is wrong with
/// all of them is what is wrong with the last; and the last is put at its index.
pub proof fn lemma_next_chunk(chunks: Seq<Chunk>, n: int, i: int)
    requires
        0 <= i < chunks.len(),
    ensures
        first_fault(chunks.take(i), n) is None ==> first_fault(chunks.take(i + 1), n)
            == chunk_fault(chunks[i], chunks[0].0.len() as int, n),
        chunks[i].1 < n ==> sparse_shards(chunks.take(i + 1), n) == sparse_shards(
            chunks.take(i),
            n,
        ).update(chunks[i].1 as int, Some(chunks[i].0)),
{
    assert(chunks.take(i + 1).drop_last() =~= chunks.take(i));
}

/// What is wrong with the first chunks is wrong with all of them.
pub proof fn lemma_fault_stays(chunks: Seq<Chunk>, n: int, k: int)
    requires
        0 <= k <= chunks.len(),
        first_fault(chunks.take(k), n) is Some,
    ensures
        first_fault(chunks, n) == first_fault(chunks.take(k), n),
    decreases chunks.len() - k,
{
    if k == chunks.len() {
        assert(chunks.take(k) =~= chunks);
    } else {
        assert(chunks.drop_last().take(k) =~= chunks.take(k));
        lemma_fault_stays(chunks.drop_last(), n, k);
    }
}

/// Where nothing is wrong with the chunks, each has an index under `n` and the length
/// of the first, which is not zero.
pub proof fn lemma_no_fault(chunks: Seq<Chunk>, n: int)
    requires
        first_fault(chunks, n) is None,
    ensures
        forall|i: int|
            0 <= i < chunks.len() ==> (#[trigger] chunks[i]).1 < n && chunks[i].0.len()
                == chunks[0].0.len() && chunks[i].0.len() > 0,
    decreases chunks.len(),
{
    if chunks.len() > 0 {
        lemma_no_fault(chunks.drop_last(), n);
        assert forall|i: int| 0 <= i < chunks.len() implies (#[trigger] chunks[i]).1 < n
            && chunks[i].0.len() == chunks[0].0.len() && chunks[i].0.len() > 0 by {
            if i < chunks.len() - 1 {
                assert(chunks.drop_last()[i] == chunks[i]);
                assert(chunks.drop_last()[0] == chunks[0]);
            }
        }
    }
}

/// Where each chunk has an index under `n` and the length of the first, which is not
/// zero, nothing is wrong with the chunks.
pub proof fn lemma_all_sound(chunks: Seq<Chunk>, n: int)
    requires
        forall|i: int|
            0 <= i < chunks.len() ==> (#[trigger] chunks[i]).1 < n && chunks[i].0.len()
                == chunks[0].0.len() && chunks[i].0.len() > 0,
    ensures
        first_fault(chunks, n) is None,
    decreases chunks.len(),
{
    if chunks.len() > 0 {
        assert forall|i: int| 0 <= i < chunks.drop_last().len() implies (
        #[trigger] chunks.drop_last()[i]).1 < n && chunks.drop_last()[i].0.len()
            == chunks.drop_last()[0].0.len() && chunks.drop_last()[i].0.len() > 0 by {
            assert(chunks.drop_last()[i] == chunks[i]);
            assert(chunks.drop_last()[0] == chunks[0]);
        }
        lemma_all_sound(chunks.drop_last(), n);
        assert(chunks.last() == chunks[chunks.len() - 1]);
    }
}

/// Where each chunk has an index under `n`, all that can be wrong is a length.
pub proof fn lemma_fault_is_length(chunks: Seq<Chunk>, n: int)
    requires
        forall|i: int| 0 <= i < chunks.len() ==> (#[trigger] chunks[i]).1 < n,
    ensures
        first_fault(chunks, n) is Some ==> first_fault(chunks, n) == Some(Error::NonUniformChunks),
    decreases chunks.len(),
{
    if chunks.len() > 0 {
        assert forall|i: int| 0 <= i < chunks.drop_last().len() implies (
        #[trigger] chunks.drop_last()[i]).1 < n by {
            assert(chunks.drop_last()[i] == chunks[i]);
        }
        lemma_fault_is_length(chunks.drop_last(), n);
        assert(chunks.last() == chunks[chunks.len() - 1]);
    }
}

/// A shard put in place of another changes the number of shards present by what the
/// one counts more than the other.
pub proof fn lemma_present_update(shards: Seq<Option<Seq<u8>>>, i: int, shard: Option<Seq<u8>>)
    requires
        0 <= i < shards.len(),
    ensures
        present_count(shards.update(i, shard)) + (if shards[i] is Some {
            1nat
        } else {
            0nat
        }) == present_count(shards) + (if shard is Some {
            1nat
        } else {
            0nat
        }),
    decreases shards.len(),
{
    let updated = shards.update(i, shard);
    if i == shards.len() - 1 {
        assert(updated.drop_last() =~= shards.drop_last());
    } else {
        assert(updated.drop_last() =~= shards.drop_last().update(i, shard));
        lemma_present_update(shards.drop_last(), i, shard);
    }
}

/// Of shards that are all missing, none is present.
pub proof fn lemma_present_none(n: int)
    requires
        0 <= n,
    ensures
        present_count(Seq::new(n as nat, |i: int| None::<Seq<u8>>)) == 0,
    decreases n,
{
    let shards = Seq::new(n as nat, |i: int| None::<Seq<u8>>);
    if n > 0 {
        assert(shards.drop_last() =~= Seq::new((n - 1) as nat, |i: int| None::<Seq<u8>>));
        lemma_present_none(n - 1);
    }
}

/// The chunks fill no more shards than there are chunks, and no shard at an index that
/// no chunk has.
pub proof fn lemma_present_bound(chunks: Seq<Chunk>, n: int)
    requires
        0 <= n,
        forall|i: int| 0 <= i < chunks.len() ==> (#[trigger] chunks[i]).1 < n,
    ensures
        present_count(sparse_shards(chunks, n)) <= chunks.len(),
        forall|j: int|
            0 <= j < n && (forall|i: int| 0 <= i < chunks.len() ==> (#[trigger] chunks[i]).1 != j)
                ==> (#[trigger] sparse_shards(chunks, n)[j]) is None,
    decreases chunks.len(),
{
    lemma_sparse_len(chunks, n);
    if chunks.len() == 0 {
        lemma_present_none(n);
    } else {
        let before = chunks.drop_last();
        assert forall|i: int| 0 <= i < before.len() implies (#[trigger] before[i]).1 < n by {
            assert(before[i] == chunks[i]);
        }
        lemma_present_bound(before, n);
        lemma_sparse_len(before, n);
        lemma_present_update(sparse_shards(before, n), chunks.last().1 as int, Some(chunks.last().0));
        assert forall|j: int|
            0 <= j < n && (forall|i: int|
                0 <= i < chunks.len() ==> (#[trigger] chunks[i]).1 != j) implies (
        #[trigger] sparse_shards(chunks, n)[j]) is None by {
            assert(chunks[chunks.len() - 1].1 != j);
            assert forall|i: int| 0 <= i < before.len() implies (#[trigger] before[i]).1 != j by {
                assert(before[i] == chunks[i]);
            }
        }
    }
}

/// Chunks of which no two have one index fill as many shards as there are chunks.
pub proof fn lemma_present_distinct(chunks: Seq<Chunk>, n: int)
    requires
        0 <= n,
        forall|i: int| 0 <= i < chunks.len() ==> (#[trigger] chunks[i]).1 < n,
        distinct_indices(chunks),
    ensures
        present_count(sparse_shards(chunks, n)) == chunks.len(),
    decreases chunks.len(),
{
    lemma_sparse_len(chunks, n);
    if chunks.len() == 0 {
        lemma_present_none(n);
    } else {
        let before = chunks.drop_last();
        let j = chunks.last().1 as int;
        assert forall|i: int| 0 <= i < before.len() implies (#[trigger] before[i]).1 < n
            && before[i].1 != j by {
            assert(before[i] == chunks[i]);
            assert(chunks[i].1 != chunks[chunks.len() - 1].1);
        }
        assert(distinct_indices(before)) by {
            assert forall|a: int, b: int| 0 <= a < b < before.len() implies (#[trigger] before[a]).1
                != (#[trigger] before[b]).1 by {
                assert(before[a] == chunks[a] && before[b] == chunks[b]);
            }
        }
        lemma_present_distinct(before, n);
        lemma_present_bound(before, n);
        lemma_sparse_len(before, n);
        assert(sparse_shards(before, n)[j] is None);
        lemma_present_update(sparse_shards(before, n), j, Some(chunks.last().0));
    }
}

/// Chunks that are shards of `full`, each at its index, fill a set of shards that
/// agrees with `full`.
pub proof fn lemma_selection_agrees(chunks: Seq<Chunk>, full: Seq<Seq<u8>>)
    requires
        is_selection(chunks, full),
    ensures
        agrees(sparse_shards(chunks, full.len() as int), full),
    decreases chunks.len(),
{
    let n = full.len() as int;
    lemma_sparse_len(chunks, n);
    if chunks.len() > 0 {
        let before = chunks.drop_last();
        assert(is_selection(before, full)) by {
            assert forall|i: int| 0 <= i < before.len() implies (#[trigger] before[i]).1
                < full.len() && before[i].0 == full[before[i].1 as int] by {
                assert(before[i] == chunks[i]);
            }
        }
        lemma_selection_agrees(before, full);
        lemma_sparse_len(before, n);
        assert(chunks.last() == chunks[chunks.len() - 1]);
    }
}

/// Chunks that are shards of `full`, each at its index, have nothing wrong with them
/// where the shards of `full` are of one length, not zero.
pub proof fn lemma_selection_sound(chunks: Seq<Chunk>, full: Seq<Seq<u8>>, len: int)
    requires
        is_selection(chunks, full),
        uniform(full, len),
        len > 0,
    ensures
        first_fault(chunks, full.len() as int) is None,
{
    assert forall|i: int| 0 <= i < chunks.len() implies (#[trigger] chunks[i]).1 < full.len()
        && chunks[i].0.len() == chunks[0].0.len() && chunks[i].0.len() > 0 by {
        assert(chunks[i].0 == full[chunks[i].1 as int]);
        assert(chunks[0].0 == full[chunks[0].1 as int]);
    }
    lemma_all_sound(chunks, full.len() as int);
}

/// What is needed of the erasure code for chunks to give back the block data that
/// they were made of: where chunks of an encoding fill at least as many shards as
/// there are data shards, nothing is wrong with them, the shards they fill agree with
/// the encoding, and if the erasure code recovers the encoding from them, the block
/// data is reconstructed.
pub proof fn lemma_round_trip(n: int, chunks: Seq<Chunk>, full: Seq<Seq<u8>>, block: Seq<u8>)
    requires
        enough_of_encoding(n, chunks, full, block),
    ensures
        is_codeword(full, data_shards_of(n) as nat),
        agrees(sparse_shards(consumed(chunks, n), n), full),
        first_fault(consumed(chunks, n), n) is None,
        rs_recovered(sparse_shards(consumed(chunks, n), n), data_shards_of(n) as nat) == full
            ==> reconstructed(n, chunks) == Ok::<Seq<u8>, Error>(block),
{
    let params = code_params_of(n).unwrap();
    let d = params.data_shards as int;
    let payload = scale_bytes(block);
    let len = shard_len_of(payload.len() as int, d);
    let taken = consumed(chunks, n);
    lemma_shard_len_bounds(payload.len() as int, d);
    lemma_selection_sound(taken, full, len);
    lemma_selection_agrees(taken, full);
    let data = packed(payload, d, n).take(d);
    assert(full.take(d) =~= data);
    assert(full.skip(d) =~= rs_parity(data, params.parity_shards as nat));
    lemma_stream_is_payload(full, payload, d, n);
    lemma_decode_encoded(block, Seq::new((d * len - payload.len()) as nat, |k: int| 0u8));
}

/// As many chunks of an encoding as there are data shards are enough, whichever they
/// are, and so are more: chunks of the encoding of `block` for `n` validators, no two
/// with one index, at least as many as the data shards and no more than `n`, are
/// enough of the encoding.
pub proof fn lemma_data_shards_many_suffice(
    n: int,
    chunks: Seq<Chunk>,
    full: Seq<Seq<u8>>,
    block: Seq<u8>,
)
    requires
        is_encoding(full, n, block),
        is_selection(chunks, full),
        distinct_indices(chunks),
        data_shards_of(n) <= chunks.len() <= n,
    ensures
        enough_of_encoding(n, chunks, full, block),
{
    assert(consumed(chunks, n) == chunks);
    assert forall|i: int| 0 <= i < chunks.len() implies (#[trigger] chunks[i]).1 < n by {}
    lemma_present_distinct(chunks, n);
}

/// Nothing is wrong with the chunk: its index is under `n`, and it has the length
/// `first_len`, which is not zero.
pub open spec fn is_sound(chunk: Chunk, first_len: int, n: int) -> bool {
    chunk.1 < n && chunk.0.len() == first_len && first_len > 0
}

/// Too few chunks are not enough: where nothing is wrong with the chunks and they
/// are fewer than the data shards, reconstruction fails with `NotEnoughChunks`.
pub proof fn lemma_too_few_chunks(n: int, chunks: Seq<Chunk>)
    requires
        code_params_of(n) is Ok,
        chunks.len() < data_shards_of(n),
        forall|i: int|
            0 <= i < chunks.len() ==> is_sound(#[trigger] chunks[i], chunks[0].0.len() as int, n),
    ensures
        reconstructed(n, chunks) == Err::<Seq<u8>, Error>(Error::NotEnoughChunks),
{
    assert(consumed(chunks, n) == chunks);
    lemma_all_sound(chunks, n);
    lemma_present_bound(chunks, n);
}

/// An index out of bounds is reported: where a chunk that is looked at has an index
/// that is not under `n`, and nothing is wrong with the chunks before it,
/// reconstruction fails with `ChunkIndexOutOfBounds`, which holds that index and `n`.
pub proof fn lemma_index_out_of_bounds(n: int, chunks: Seq<Chunk>, k: int)
    requires
        code_params_of(n) is Ok,
        0 <= k < chunks.len(),
        k < n,
        chunks[k].1 >= n,
        forall|i: int| 0 <= i < k ==> is_sound(#[trigger] chunks[i], chunks[0].0.len() as int, n),
    ensures
        reconstructed(n, chunks) == Err::<Seq<u8>, Error>(
            Error::ChunkIndexOutOfBounds(chunks[k].1, n as usize),
        ),
{
    let taken = consumed(chunks, n);
    assert(taken.take(k) =~= chunks.take(k));
    assert(taken[k] == chunks[k]);
    assert(taken[0] == chunks[0]);
    assert forall|i: int| 0 <= i < chunks.take(k).len() implies (#[trigger] chunks.take(k)[i]).1
        < n && chunks.take(k)[i].0.len() == chunks.take(k)[0].0.len() && chunks.take(k)[i].0.len()
        > 0 by {
        assert(is_sound(chunks[i], chunks[0].0.len() as int, n));
        assert(is_sound(chunks[0], chunks[0].0.len() as int, n));
    }
    lemma_all_sound(chunks.take(k), n);
    lemma_next_chunk(taken, n, k);
    lemma_fault_stays(taken, n, k + 1);
}

/// Chunks of different lengths are refused: where the chunks that are looked at all
/// have an index under `n`, and two of them differ in length, reconstruction fails
/// with `NonUniformChunks`.
pub proof fn lemma_lengths_differ(n: int, chunks: Seq<Chunk>, j: int, k: int)
    requires
        code_params_of(n) is Ok,
        forall|i: int| 0 <= i < chunks.len() && i < n ==> (#[trigger] chunks[i]).1 < n,
        0 <= j < k < chunks.len(),
        k < n,
        chunks[j].0.len() != chunks[k].0.len(),
    ensures
        reconstructed(n, chunks) == Err::<Seq<u8>, Error>(Error::NonUniformChunks),
{
    let taken = consumed(chunks, n);
    assert(taken[j] == chunks[j] && taken[k] == chunks[k]);
    assert forall|i: int| 0 <= i < taken.len() implies (#[trigger] taken[i]).1 < n by {
        assert(taken[i] == chunks[i]);
    }
    lemma_fault_is_length(taken, n);
    if first_fault(taken, n) is None {
        lemma_no_fault(taken, n);
        assert(taken[j].0.len() == taken[0].0.len());
        assert(taken[k].0.len() == taken[0].0.len());
    }
}

} // verus!
