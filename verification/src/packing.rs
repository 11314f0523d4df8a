//! Cutting a payload into shards of one length.

use crate::erasure::{all_present, blank, blank_shards};
use crate::shard_input::{copy_bytes, stream_from};
use crate::params::{lemma_shard_len_bounds, shard_len_of, CodeParams};
use crate::views::lemma_shards_view;
use vstd::prelude::*;
use vstd::slice::slice_subrange;

verus! {

/// The byte at place `k` of the payload followed by zeros without end.
pub open spec fn padded(payload: Seq<u8>, k: int) -> u8 {
    if 0 <= k < payload.len() {
        payload[k]
    } else {
        0u8
    }
}

/// The shards for a payload: `total` shards, each as long as the shard length for
/// `data_shards` data shards, that hold the payload's bytes in order and then zeros.
pub open spec fn packed(payload: Seq<u8>, data_shards: int, total: int) -> Seq<Seq<u8>> {
    let len = shard_len_of(payload.len() as int, data_shards);
    Seq::new(total as nat, |i: int| Seq::new(len as nat, |j: int| padded(payload, i * len + j)))
}

/// Writes `piece` over the start of `shard`.
fn fill_shard(shard: &mut Vec<u8>, piece: &[u8])
    requires
        piece@.len() <= old(shard)@.len(),
    ensures
        final(shard)@ == piece@ + old(shard)@.skip(piece@.len() as int),
{
    copy_bytes(shard.as_mut_slice(), 0, piece, 0, piece.len());
    assert(shard@ =~= piece@ + old(shard)@.skip(piece@.len() as int));
}

impl CodeParams {
    /// Shards for `payload`: one for each data and parity shard, all of the shard
    /// length for the payload, filled with the payload in order and padded with zeros.
    pub fn make_shards_for(&self, payload: &[u8]) -> (shards: Vec<Vec<u8>>)
        requires
            self.data_shards > 0,
            self.data_shards + self.parity_shards <= usize::MAX,
            payload@.len() > 0,
        ensures
            shards.deep_view() == packed(payload@, self.data_shards as int, self.total()),
    {
        let shard_len: usize = self.shard_len(payload.len());
        let total: usize = self.data_shards + self.parity_shards;
        let mut shards = blank_shards(shard_len, total);
        proof {
            lemma_shard_len_bounds(payload@.len() as int, self.data_shards as int);
            lemma_shards_view(shards);
        }
        let ghost target = packed(payload@, self.data_shards as int, self.total());
        let mut i: usize = 0;
        let mut start: usize = 0;
        while i < total && start < payload.len()
            invariant
                shard_len > 0,
                shard_len == shard_len_of(payload@.len() as int, self.data_shards as int),
                total == self.total(),
                target == packed(payload@, self.data_shards as int, self.total()),
                i <= total,
                start == i * shard_len || (start == payload@.len() && start <= i * shard_len),
                start <= payload@.len(),
                shards@.len() == total,
                forall|k: int| 0 <= k < i ==> (#[trigger] shards@[k])@ == target[k],
                forall|k: int| i <= k < total ==> (#[trigger] shards@[k])@ == blank(shard_len as nat, total as nat)[k],
            decreases total - i,
        {
            let rest: usize = payload.len() - start;
            let len: usize = if rest < shard_len { rest } else { shard_len };
            let piece = slice_subrange(payload, start, start + len);
            fill_shard(&mut shards[i], piece);
            proof {
                assert(start == i * shard_len);
                assert(shards@[i as int]@ =~= target[i as int]);
                assert((i + 1) * shard_len == i * shard_len + shard_len) by (nonlinear_arith);
            }
            start = start + len;
            i = i + 1;
        }
        proof {
            assert forall|k: int| 0 <= k < total implies (#[trigger] shards@[k])@ == target[k] by {
                if k >= i {
                    assert(start == payload@.len());
                    assert(k * shard_len >= i * shard_len) by (nonlinear_arith)
                        requires
                            k >= i,
                            shard_len > 0,
                    ;
                    assert(shards@[k]@ =~= target[k]);
                }
            }
            lemma_shards_view(shards);
            assert(shards.deep_view() =~= target);
        }
        shards
    }
}

/// The bytes of the data shards for a payload, from shard `from` on, are the bytes
/// of the payload from the start of that shard on, and then zeros.
pub proof fn lemma_stream_of_packed(
    full: Seq<Seq<u8>>,
    payload: Seq<u8>,
    data_shards: int,
    total: int,
    from: int,
)
    requires
        0 <= from <= data_shards <= total,
        0 < data_shards,
        full.len() == total,
        full.take(data_shards) == packed(payload, data_shards, total).take(data_shards),
    ensures
        stream_from(all_present(full), data_shards, from, 0) == Seq::new(
            ((data_shards - from) * shard_len_of(payload.len() as int, data_shards)) as nat,
            |k: int| padded(payload, from * shard_len_of(payload.len() as int, data_shards) + k),
        ),
    decreases data_shards - from,
{
    let len = shard_len_of(payload.len() as int, data_shards);
    lemma_shard_len_bounds(payload.len() as int, data_shards);
    let rows = all_present(full);
    let stream = stream_from(rows, data_shards, from, 0);
    let target = Seq::new(
        ((data_shards - from) * len) as nat,
        |k: int| padded(payload, from * len + k),
    );
    if from < data_shards {
        lemma_stream_of_packed(full, payload, data_shards, total, from + 1);
        let shard = rows[from].unwrap();
        assert(shard == full[from]);
        assert(full[from] == full.take(data_shards)[from]);
        assert(shard == packed(payload, data_shards, total)[from]);
        assert(shard.len() == len);
        let later = stream_from(rows, data_shards, from + 1, 0);
        assert((data_shards - from) * len == len + (data_shards - (from + 1)) * len)
            by (nonlinear_arith);
        assert((from + 1) * len == from * len + len) by (nonlinear_arith);
        assert(0 <= (data_shards - (from + 1)) * len) by (nonlinear_arith)
            requires
                from < data_shards,
                0 <= len,
        ;
        if len == 0 {
            assert(stream =~= later);
        } else {
            assert(shard.skip(0) =~= shard);
            assert(stream =~= shard + later);
        }
        assert(stream =~= target);
    } else {
        assert((data_shards - from) * len == 0) by (nonlinear_arith)
            requires
                from == data_shards,
        ;
        assert(stream =~= target);
    }
}

/// The bytes of the data shards for a payload are the payload, and then zeros.
pub proof fn lemma_stream_is_payload(
    full: Seq<Seq<u8>>,
    payload: Seq<u8>,
    data_shards: int,
    total: int,
)
    requires
        0 < data_shards <= total,
        full.len() == total,
        full.take(data_shards) == packed(payload, data_shards, total).take(data_shards),
    ensures
        payload.len() <= data_shards * shard_len_of(payload.len() as int, data_shards),
        stream_from(all_present(full), data_shards, 0, 0) == payload + Seq::new(
            (data_shards * shard_len_of(payload.len() as int, data_shards) - payload.len()) as nat,
            |k: int| 0u8,
        ),
{
    let len = shard_len_of(payload.len() as int, data_shards);
    lemma_shard_len_bounds(payload.len() as int, data_shards);
    lemma_stream_of_packed(full, payload, data_shards, total, 0);
    assert(0 * len == 0) by (nonlinear_arith);
    assert((data_shards - 0) * len == data_shards * len) by (nonlinear_arith);
    assert(stream_from(all_present(full), data_shards, 0, 0) =~= payload + Seq::new(
        (data_shards * len - payload.len()) as nat,
        |k: int| 0u8,
    ));
}

} // verus!
