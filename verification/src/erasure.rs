//! The Reed-Solomon erasure code over a set of shards.
//!
//! The arithmetic over the field of 256 symbols is that of `reed_solomon_erasure`.
//! What it computes is given a name here, and the functions at the end of this file
//! state of it what the rest of the library relies on, without proof.

use reed_solomon_erasure::ReedSolomon;
use vstd::prelude::*;

verus! {

/// The parity shards that the erasure code computes for the data shards `data`, when
/// it is to make `parity_shards` of them.
pub uninterp spec fn rs_parity(data: Seq<Seq<u8>>, parity_shards: nat) -> Seq<Seq<u8>>;

/// The full set of shards that the erasure code computes from the set `shards`, in
/// which some shards are missing and the first `data_shards` places are those of the
/// data shards.
pub uninterp spec fn rs_recovered(shards: Seq<Option<Seq<u8>>>, data_shards: nat) -> Seq<Seq<u8>>;

/// `count` shards of `size` zero bytes each.
pub open spec fn blank(size: nat, count: nat) -> Seq<Seq<u8>> {
    Seq::new(count, |i: int| Seq::new(size, |j: int| 0u8))
}

/// Every shard is `len` bytes long.
pub open spec fn uniform(shards: Seq<Seq<u8>>, len: int) -> bool {
    forall|i: int| 0 <= i < shards.len() ==> (#[trigger] shards[i]).len() == len
}

/// Every shard that is present is `len` bytes long.
pub open spec fn present_uniform(shards: Seq<Option<Seq<u8>>>, len: int) -> bool {
    forall|i: int|
        0 <= i < shards.len() && (#[trigger] shards[i]) is Some ==> shards[i].unwrap().len() == len
}

/// The number of shards that are present.
pub open spec fn present_count(shards: Seq<Option<Seq<u8>>>) -> nat
    decreases shards.len(),
{
    if shards.len() == 0 {
        0
    } else {
        present_count(shards.drop_last()) + if shards.last() is Some {
            1nat
        } else {
            0nat
        }
    }
}

/// The set of shards in which each shard of `full` is present.
pub open spec fn all_present(full: Seq<Seq<u8>>) -> Seq<Option<Seq<u8>>> {
    Seq::new(full.len(), |i: int| Some(full[i]))
}

/// Each shard that is present in `shards` is the shard of `full` at the same place.
pub open spec fn agrees(shards: Seq<Option<Seq<u8>>>, full: Seq<Seq<u8>>) -> bool {
    &&& shards.len() == full.len()
    &&& forall|i: int|
        0 <= i < shards.len() && (#[trigger] shards[i]) is Some ==> shards[i].unwrap() == full[i]
}

/// `full` is what encoding gives: shards of one length, not empty, of which those
/// after the first `data_shards` are the parity shards of the first `data_shards`.
pub open spec fn is_codeword(full: Seq<Seq<u8>>, data_shards: nat) -> bool {
    &&& 1 <= data_shards <= full.len()
    &&& full[0].len() > 0
    &&& uniform(full, full[0].len() as int)
    &&& full.skip(data_shards as int) == rs_parity(
        full.take(data_shards as int),
        (full.len() - data_shards) as nat,
    )
}

/// Why the erasure code did not fill in the missing shards.
#[derive(Debug, Clone, Copy, PartialEq, Eq)]
pub enum RecoveryFailure {
    /// Fewer shards are present than there are data shards.
    TooFewShardsPresent,
    /// The flags that say which shards are present are not as many as the shards.
    InvalidShardFlags,
    /// There are more shards than the code was made for.
    TooManyShards,
}

/// `make_blank_shards` of `reed_solomon_erasure`: `count` shards, each of `size` zero
/// bytes. Each boxed slice that it makes is handed on as a `Vec`.
#[verifier::external_body]
pub(crate) fn blank_shards(size: usize, count: usize) -> (shards: Vec<Vec<u8>>)
    ensures
        shards.deep_view() == blank(size as nat, count as nat),
{
    reed_solomon_erasure::make_blank_shards(size, count).into_iter().map(|s| s.into_vec()).collect()
}

/// `ReedSolomon::new` and then `ReedSolomon::encode_shards` of `reed_solomon_erasure`.
///
/// With shard counts that `new` takes (at least one shard of each kind, 256 at most
/// together) and with as many shards as the two counts say, all of one length and not
/// empty, neither call fails. The data shards stay as they are. The parity shards are
/// overwritten: what they then hold depends on the data shards and on the number of
/// parity shards alone, and is given the name `rs_parity`. There are as many shards as
/// before, and none changes its length.
#[verifier::external_body]
pub(crate) fn encode_parity(data_shards: usize, parity_shards: usize, shards: &mut Vec<Vec<u8>>)
    requires
        1 <= data_shards,
        1 <= parity_shards,
        data_shards + parity_shards <= 256,
        old(shards).len() == data_shards + parity_shards,
        old(shards)[0].len() > 0,
        uniform(old(shards).deep_view(), old(shards)[0].len() as int),
    ensures
        final(shards).deep_view() == old(shards).deep_view().take(data_shards as int) + rs_parity(
            old(shards).deep_view().take(data_shards as int),
            parity_shards as nat,
        ),
        final(shards).len() == old(shards).len(),
        uniform(final(shards).deep_view(), old(shards)[0].len() as int),
{
    let rs = ReedSolomon::new(data_shards, parity_shards).expect("the shard counts are in range");
    let mut boxed: Vec<Box<[u8]>> = shards.drain(..).map(Vec::into_boxed_slice).collect();
    rs.encode_shards(&mut boxed).expect("the shards are of one length and not empty");
    shards.extend(boxed.into_iter().map(|s| s.into_vec()));
}

/// `ReedSolomon::new` and then `ReedSolomon::reconstruct_shards` of
/// `reed_solomon_erasure`.
///
/// With shard counts that `new` takes, as many places as the two counts say, and the
/// shards that are present all of one length, not zero, the call fails only where
/// fewer shards are present than there are data shards, with `TooFewShardsPresent`,
/// and then leaves the shards as they were. Where it succeeds, every shard is present,
/// those that were present are unchanged, and all shards have one length; what the
/// shards hold depends on the shards given and on the number of data shards alone, and
/// is given the name `rs_recovered`.
///
/// The last clause is what makes this an erasure code: where the shards
/// given are shards of a set `full` that encoding made, the call gives back `full`,
/// whichever shards were missing.
#[verifier::external_body]
pub(crate) fn recover_shards(
    data_shards: usize,
    parity_shards: usize,
    shards: &mut Vec<Option<Vec<u8>>>,
) -> (r: Result<(), RecoveryFailure>)
    requires
        1 <= data_shards,
        1 <= parity_shards,
        data_shards + parity_shards <= 256,
        old(shards).len() == data_shards + parity_shards,
        exists|len: int| len > 0 && #[trigger] present_uniform(old(shards).deep_view(), len),
    ensures
        r is Err <==> present_count(old(shards).deep_view()) < data_shards,
        r matches Err(failure) ==> failure == RecoveryFailure::TooFewShardsPresent,
        r is Err ==> final(shards).deep_view() == old(shards).deep_view(),
        r is Ok ==> final(shards).deep_view() == all_present(
            rs_recovered(old(shards).deep_view(), data_shards as nat),
        ),
        r is Ok ==> agrees(
            old(shards).deep_view(),
            rs_recovered(old(shards).deep_view(), data_shards as nat),
        ),
        r is Ok ==> uniform(
            rs_recovered(old(shards).deep_view(), data_shards as nat),
            rs_recovered(old(shards).deep_view(), data_shards as nat)[0].len() as int,
        ),
        forall|full: Seq<Seq<u8>>|
            r is Ok && #[trigger] is_codeword(full, data_shards as nat) && agrees(
                old(shards).deep_view(),
                full,
            ) ==> final(shards).deep_view() == all_present(full),
{
    let rs = ReedSolomon::new(data_shards, parity_shards).expect("the shard counts are in range");
    let mut boxed: Vec<Option<Box<[u8]>>> =
        shards.drain(..).map(|s| s.map(Vec::into_boxed_slice)).collect();
    let outcome = rs.reconstruct_shards(&mut boxed);
    shards.extend(boxed.into_iter().map(|s| s.map(|b| b.into_vec())));
    match outcome {
        Err(reed_solomon_erasure::Error::TooFewShardsPresent) => Err(RecoveryFailure::TooFewShardsPresent),
        Err(reed_solomon_erasure::Error::InvalidShardFlags) => Err(RecoveryFailure::InvalidShardFlags),
        Err(reed_solomon_erasure::Error::TooManyShards) => Err(RecoveryFailure::TooManyShards),
        other => Ok(other.expect("the shards present are of one length and not empty")),
    }
}

} // verus!
