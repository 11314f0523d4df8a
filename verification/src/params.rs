//! Shard counts for a number of validators.

use crate::error::Error;
use vstd::prelude::*;

verus! {

/// The most validators that can be coded for: the code works over a field of 256 symbols.
pub const MAX_VALIDATORS: usize = 256;

/// How many shards carry data and how many carry parity.
#[derive(Debug, Clone, Copy, PartialEq, Eq)]
pub struct CodeParams {
    pub data_shards: usize,
    pub parity_shards: usize,
}

/// The number of validators, out of `n`, that may be faulty: the largest `f` with `3f < n`.
pub open spec fn faulty_of(n: int) -> int {
    (n - 1) / 3
}

/// The number of data shards for `n` validators.
pub open spec fn data_shards_of(n: int) -> int {
    faulty_of(n) + 1
}

/// The number of parity shards for `n` validators.
pub open spec fn parity_shards_of(n: int) -> int {
    n - faulty_of(n) - 1
}

/// What `code_params` returns for `n` validators.
pub open spec fn code_params_of(n: int) -> Result<CodeParams, Error> {
    if n > MAX_VALIDATORS {
        Err(Error::TooManyValidators)
    } else if n == 0 {
        Err(Error::EmptyValidators)
    } else {
        Ok(
            (CodeParams {
                data_shards: data_shards_of(n) as usize,
                parity_shards: parity_shards_of(n) as usize,
            }),
        )
    }
}

/// The shard length for a payload of `base_len` bytes cut into `data_shards` shards:
/// the quotient plus the remainder (not the quotient rounded up).
pub open spec fn shard_len_of(base_len: int, data_shards: int) -> int {
    base_len / data_shards + base_len % data_shards
}

impl CodeParams {
    /// There is a data shard, and the shards are no more than `MAX_VALIDATORS`.
    pub open spec fn wf(&self) -> bool {
        &&& 1 <= self.data_shards
        &&& self.data_shards + self.parity_shards <= MAX_VALIDATORS
    }

    /// The number of shards, of both kinds.
    pub open spec fn total(&self) -> int {
        self.data_shards + self.parity_shards
    }

    /// The shard length needed for a payload with initial size `base_len`.
    pub fn shard_len(&self, base_len: usize) -> (len: usize)
        requires
            self.data_shards > 0,
        ensures
            len == shard_len_of(base_len as int, self.data_shards as int),
    {
        proof {
            lemma_shard_len_bounds(base_len as int, self.data_shards as int);
        }
        (base_len / self.data_shards) + (base_len % self.data_shards)
    }
}

/// The shard length is no more than the payload's length, it is zero only for an
/// empty payload, and the data shards together have room for the payload.
pub proof fn lemma_shard_len_bounds(base_len: int, data_shards: int)
    requires
        0 <= base_len,
        0 < data_shards,
    ensures
        0 <= shard_len_of(base_len, data_shards) <= base_len,
        shard_len_of(base_len, data_shards) == 0 <==> base_len == 0,
        base_len <= data_shards * shard_len_of(base_len, data_shards),
{
    let q = base_len / data_shards;
    let r = base_len % data_shards;
    assert(base_len == data_shards * q + r && 0 <= r < data_shards) by (nonlinear_arith)
        requires
            0 <= base_len,
            0 < data_shards,
            q == base_len / data_shards,
            r == base_len % data_shards,
    ;
    assert(0 <= q && q <= data_shards * q && r <= data_shards * r && data_shards * (q + r)
        == data_shards * q + data_shards * r) by (nonlinear_arith)
        requires
            0 < data_shards,
            0 <= r,
            base_len == data_shards * q + r,
            0 <= base_len,
            r < data_shards,
    ;
}

/// The shard counts for `n_validators` validators: with `f` the validators that may be
/// faulty, `f + 1` data shards and `n_validators - f - 1` parity shards.
pub fn code_params(n_validators: usize) -> (r: Result<CodeParams, Error>)
    ensures
        r == code_params_of(n_validators as int),
        r is Ok ==> r.unwrap().wf() && r.unwrap().total() == n_validators,
{
    if n_validators > MAX_VALIDATORS {
        return Err(Error::TooManyValidators);
    }
    if n_validators == 0 {
        return Err(Error::EmptyValidators);
    }
    let n_faulty: usize = n_validators.saturating_sub(1) / 3;
    let n_good: usize = n_validators - n_faulty;

    Ok(CodeParams { data_shards: n_faulty + 1, parity_shards: n_good - 1 })
}

} // verus!
