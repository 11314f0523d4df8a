//! Reading the data shards as one stream of bytes.

use crate::views::lemma_sparse_view;
use vstd::prelude::*;
use vstd::slice::slice_subrange;

verus! {

/// Writes `len` bytes of `from`, from place `start` on, into `into` from place `at` on.
pub fn copy_bytes(into: &mut [u8], at: usize, from: &[u8], start: usize, len: usize)
    requires
        at + len <= old(into)@.len(),
        start + len <= from@.len(),
    ensures
        final(into)@ == old(into)@.take(at as int) + from@.subrange(
            start as int,
            start + len,
        ) + old(into)@.skip(at + len),
{
    let into_len: usize = into.len();
    let from_len: usize = from.len();
    let mut k: usize = 0;
    while k < len
        invariant
            k <= len,
            at + len <= into_len == into@.len(),
            start + len <= from_len == from@.len(),
            into@.len() == old(into)@.len(),
            forall|j: int| 0 <= j < at ==> into@[j] == old(into)@[j],
            forall|j: int| at <= j < at + k ==> into@[j] == from@[j - at + start],
            forall|j: int| at + k <= j < into@.len() ==> into@[j] == old(into)@[j],
        decreases len - k,
    {
        into[at + k] = from[start + k];
        k = k + 1;
    }
    assert(into@ =~= old(into)@.take(at as int) + from@.subrange(start as int, start + len)
        + old(into)@.skip(at + len));
}

/// The bytes of the data shards from place `in_shard` of shard `shard_idx` on: the rest
/// of that shard, then the data shards after it.
pub open spec fn stream_from(
    shards: Seq<Option<Seq<u8>>>,
    data_shards: int,
    shard_idx: int,
    in_shard: int,
) -> Seq<u8>
    decreases data_shards - shard_idx,
{
    if 0 <= shard_idx < data_shards {
        let shard = shards[shard_idx].unwrap();
        let rest = if 0 <= in_shard < shard.len() {
            shard.skip(in_shard)
        } else {
            Seq::empty()
        };
        rest + stream_from(shards, data_shards, shard_idx + 1, 0)
    } else {
        Seq::empty()
    }
}

/// A source of bytes that draws from the data shards of a set of shards, one shard
/// after the other.
pub struct ShardInput {
    shards: Vec<Option<Vec<u8>>>,
    data_shards: usize,
    cursor: (usize, usize),  // shard, in_shard
}

impl ShardInput {
    /// The data shards are all present.
    #[verifier::type_invariant]
    pub closed spec fn wf(&self) -> bool {
        &&& self.data_shards <= self.shards@.len()
        &&& forall|i: int| 0 <= i < self.data_shards ==> (#[trigger] self.shards@[i]) is Some
    }

    /// The shards that are read.
    pub closed spec fn shards(&self) -> Seq<Option<Seq<u8>>> {
        self.shards.deep_view()
    }

    /// The number of data shards.
    pub closed spec fn data_shards(&self) -> int {
        self.data_shards as int
    }

    /// The bytes that are still to be read.
    pub closed spec fn remaining(&self) -> Seq<u8> {
        stream_from(
            self.shards.deep_view(),
            self.data_shards as int,
            self.cursor.0 as int,
            self.cursor.1 as int,
        )
    }

    /// A source that is at the start of the first shard. The first `data_shards` of
    /// the shards are read, and have to be present.
    pub fn new(shards: Vec<Option<Vec<u8>>>, data_shards: usize) -> (input: ShardInput)
        requires
            data_shards <= shards@.len(),
            forall|i: int| 0 <= i < data_shards ==> (#[trigger] shards@[i]) is Some,
        ensures
            input.shards() == shards.deep_view(),
            input.data_shards() == data_shards,
            input.remaining() == stream_from(shards.deep_view(), data_shards as int, 0, 0),
    {
        ShardInput { shards, data_shards, cursor: (0, 0) }
    }

    /// Reads into `into` until it is full or the data shards are at their end, and
    /// returns the number of bytes read. Fewer bytes than `into` holds are the end of
    /// the stream.
    pub fn read(&mut self, into: &mut [u8]) -> (n: usize)
        ensures
            final(self).shards() == old(self).shards(),
            final(self).data_shards() == old(self).data_shards(),
            n <= old(into)@.len(),
            n <= old(self).remaining().len(),
            n == old(into)@.len() || n == old(self).remaining().len(),
            final(into)@ == old(self).remaining().take(n as int) + old(into)@.skip(n as int),
            final(self).remaining() == old(self).remaining().skip(n as int),
    {
        let mut read_bytes: usize = 0;
        let ghost whole = self.remaining();
        let ghost rows = self.shards.deep_view();
        proof {
            use_type_invariant(&*self);
            lemma_sparse_view(self.shards);
        }

        while self.cursor.0 < self.data_shards
            invariant
                self.wf(),
                self.shards == old(self).shards,
                self.data_shards == old(self).data_shards,
                rows == self.shards.deep_view(),
                whole == old(self).remaining(),
                into@.len() == old(into)@.len(),
                read_bytes <= into@.len(),
                whole == into@.take(read_bytes as int) + self.remaining(),
                into@.skip(read_bytes as int) == old(into)@.skip(read_bytes as int),
            ensures
                read_bytes == into@.len() || self.cursor.0 >= self.data_shards,
            decreases self.remaining().len() + self.data_shards - self.cursor.0,
        {
            if read_bytes == into.len() {
                break ;
            }
            proof {
                lemma_sparse_view(self.shards);
            }
            let active_shard = self.shards[self.cursor.0].as_ref().unwrap();

            if self.cursor.1 >= active_shard.len() {
                self.cursor.0 = self.cursor.0 + 1;
                self.cursor.1 = 0;
                continue ;
            }
            let remaining_len_out: usize = into.len() - read_bytes;
            let remaining_len_shard: usize = active_shard.len() - self.cursor.1;

            let write_len: usize = if remaining_len_out < remaining_len_shard {
                remaining_len_out
            } else {
                remaining_len_shard
            };
            let ghost before = into@;
            let ghost in_shard = self.cursor.1 as int;
            let ghost later = stream_from(rows, self.data_shards as int, self.cursor.0 + 1, 0);
            copy_bytes(into, read_bytes, active_shard.as_slice(), self.cursor.1, write_len);

            self.cursor.1 = self.cursor.1 + write_len;
            proof {
                let shard = active_shard@;
                assert(rows[self.cursor.0 as int] == Some(shard));
                assert(self.remaining() =~= shard.skip(in_shard + write_len) + later);
                assert(whole =~= before.take(read_bytes as int) + (shard.skip(in_shard) + later));
                assert(into@.take(read_bytes + write_len) =~= before.take(read_bytes as int)
                    + shard.subrange(in_shard, in_shard + write_len));
                assert(shard.skip(in_shard) =~= shard.subrange(in_shard, in_shard + write_len)
                    + shard.skip(in_shard + write_len));
                assert(before.skip(read_bytes + write_len) =~= before.skip(read_bytes as int).skip(
                    write_len as int,
                ));
                assert(old(into)@.skip(read_bytes + write_len) =~= old(into)@.skip(
                    read_bytes as int,
                ).skip(write_len as int));
                assert(into@.skip(read_bytes + write_len) =~= before.skip(read_bytes + write_len));
            }
            read_bytes = read_bytes + write_len;
        }
        proof {
            assert(into@ =~= into@.take(read_bytes as int) + into@.skip(read_bytes as int));
            if read_bytes == into@.len() {
                assert(into@.take(read_bytes as int) =~= whole.take(read_bytes as int));
                assert(self.remaining() =~= whole.skip(read_bytes as int));
            } else {
                assert(self.remaining() =~= Seq::<u8>::empty());
                assert(whole =~= into@.take(read_bytes as int));
                assert(whole.take(read_bytes as int) =~= whole);
                assert(whole.skip(read_bytes as int) =~= Seq::<u8>::empty());
            }
        }
        read_bytes
    }

    /// Reads the data shards to their end, `step` bytes at a time, and returns what
    /// was read.
    pub fn read_to_end(&mut self, step: usize) -> (stream: Vec<u8>)
        requires
            step > 0,
        ensures
            final(self).shards() == old(self).shards(),
            final(self).data_shards() == old(self).data_shards(),
            stream@ == old(self).remaining(),
            final(self).remaining().len() == 0,
    {
        let mut stream: Vec<u8> = Vec::new();
        let mut buffer: Vec<u8> = Vec::new();
        buffer.resize(step, 0u8);
        loop
            invariant
                self.shards() == old(self).shards(),
                self.data_shards() == old(self).data_shards(),
                buffer@.len() == step,
                step > 0,
                old(self).remaining() == stream@ + self.remaining(),
            ensures
                self.remaining().len() == 0,
            decreases self.remaining().len(),
        {
            let ghost before = self.remaining();
            let ghost so_far = stream@;
            let n: usize = self.read(buffer.as_mut_slice());
            if n == 0 {
                break ;
            }
            let piece = slice_subrange(buffer.as_slice(), 0, n);
            stream.extend_from_slice(piece);
            proof {
                assert(piece@ =~= before.take(n as int));
                assert(stream@ =~= so_far + piece@);
                assert(before =~= before.take(n as int) + before.skip(n as int));
                assert(old(self).remaining() =~= stream@ + self.remaining());
            }
        }
        proof {
            assert(old(self).remaining() =~= stream@);
        }
        stream
    }
}

} // verus!
