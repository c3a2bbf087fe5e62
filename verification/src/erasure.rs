//! Splitting a blob into data shards with parity shards, and putting the
//! data shards together again.
//!
//! A parity shard is the byte-wise XOR of the data shards, raised by the
//! number of the parity shard: it tells that a shard is missing, not what it
//! held.

use vstd::prelude::*;

verus! {

/// Why shards could not be made or put together.
#[derive(Debug, Clone, Copy, PartialEq, Eq)]
pub enum ErasureError {
    /// Fewer shards than the data shards that are needed.
    InsufficientShards { have: usize, need: usize },
    /// A shard has no place in the encoding.
    InvalidShardIndex,
    /// The blob could not be encoded.
    EncodingFailed,
}

/// A shard of a blob.
#[derive(Clone, Debug)]
pub struct EncodedShard {
    pub index: usize,
    pub data: Vec<u8>,
    pub is_parity: bool,
}

/// Splits blobs into `data_shards` data shards and `parity_shards` parity
/// shards.
pub struct ErasureEncoder {
    data_shards: usize,
    parity_shards: usize,
}

/// Puts blobs together from their data shards.
pub struct ErasureDecoder {
    data_shards: usize,
    parity_shards: usize,
}

/// The size of each shard of a blob of `len` bytes in `data_shards` data
/// shards.
pub open spec fn shard_size(len: nat, data_shards: nat) -> nat {
    ((len + data_shards - 1) / data_shards as int) as nat
}

/// Byte `j` of data shard `i`: the blob's byte at that place, or zero past
/// its end.
pub open spec fn data_byte(data: Seq<u8>, size: nat, i: nat, j: nat) -> u8 {
    if i * size + j < data.len() {
        data[(i * size + j) as int]
    } else {
        0
    }
}

/// The XOR of byte `j` of the first `n` data shards.
pub open spec fn xor_of_shards(data: Seq<u8>, size: nat, n: nat, j: nat) -> u8
    decreases n,
{
    if n == 0 {
        0
    } else {
        xor_of_shards(data, size, (n - 1) as nat, j) ^ data_byte(data, size, (n - 1) as nat, j)
    }
}

/// Byte `j` of parity shard `p`: the XOR of that byte of all data shards,
/// plus `p + 1`, wrapping.
pub open spec fn parity_byte(data: Seq<u8>, size: nat, data_shards: nat, p: nat, j: nat) -> u8 {
    xor_of_shards(data, size, data_shards, j).wrapping_add(((p + 1) % 256) as u8)
}

/// Whether a list of shards is the encoding of a blob in `n` data shards and
/// `parity` parity shards: the data shards first, then the parity shards, all
/// of the shard size and numbered in their order.
pub open spec fn is_encoding(shards: Seq<EncodedShard>, data: Seq<u8>, n: nat, parity: nat) -> bool {
    let size = shard_size(data.len(), n);
    &&& shards.len() == n + parity
    &&& forall|i: int|
        0 <= i < shards.len() ==> {
            &&& (#[trigger] shards[i]).index == i
            &&& shards[i].is_parity == (i >= n)
            &&& shards[i].data@.len() == size
        }
    &&& forall|i: int, j: int|
        0 <= i < n && 0 <= j < size ==> (#[trigger] shards[i].data@[j]) == data_byte(
            data,
            size,
            i as nat,
            j as nat,
        )
    &&& forall|p: int, j: int|
        0 <= p < parity && 0 <= j < size ==> (#[trigger] shards[n + p].data@[j]) == parity_byte(
            data,
            size,
            n,
            p as nat,
            j as nat,
        )
}

/// The list with `e` put in after the last shard whose index is not above
/// its own. The list is meant to be in order of index.
pub open spec fn insert_by_index(sorted: Seq<EncodedShard>, e: EncodedShard) -> Seq<EncodedShard>
    decreases sorted.len(),
{
    if sorted.len() == 0 {
        seq![e]
    } else if sorted.last().index <= e.index {
        sorted.push(e)
    } else {
        insert_by_index(sorted.drop_last(), e).push(sorted.last())
    }
}

/// The data shards of a list in order of index; shards of one index keep
/// their order.
pub open spec fn data_in_order(shards: Seq<EncodedShard>) -> Seq<EncodedShard>
    decreases shards.len(),
{
    if shards.len() == 0 {
        Seq::empty()
    } else if shards.last().is_parity {
        data_in_order(shards.drop_last())
    } else {
        insert_by_index(data_in_order(shards.drop_last()), shards.last())
    }
}

/// The number of data shards in a list.
pub open spec fn data_count(shards: Seq<EncodedShard>) -> nat
    decreases shards.len(),
{
    if shards.len() == 0 {
        0
    } else if shards.last().is_parity {
        data_count(shards.drop_last())
    } else {
        data_count(shards.drop_last()) + 1
    }
}

/// The bytes of the first `n` shards of a list, one after the other.
pub open spec fn joined(shards: Seq<EncodedShard>, n: nat) -> Seq<u8>
    decreases n,
{
    if n == 0 {
        Seq::empty()
    } else {
        joined(shards, (n - 1) as nat) + shards[n - 1].data@
    }
}

/// The first `len` bytes of a string, or all of it where it is shorter.
pub open spec fn cut(bytes: Seq<u8>, len: nat) -> Seq<u8> {
    if len < bytes.len() {
        bytes.subrange(0, len as int)
    } else {
        bytes
    }
}

/// The smaller of two numbers.
pub open spec fn lesser(a: nat, b: nat) -> nat {
    if a <= b {
        a
    } else {
        b
    }
}

/// The shards that a list of references points to.
spec fn pointed(refs: Seq<&EncodedShard>) -> Seq<EncodedShard> {
    Seq::new(refs.len(), |i: int| *refs[i])
}

/// Putting a shard in at the place after which all indices are above its own
/// and before which the last is not.
pub proof fn lemma_insert_at(sorted: Seq<EncodedShard>, e: EncodedShard, at: int)
    requires
        0 <= at <= sorted.len(),
        forall|k: int| at <= k < sorted.len() ==> (#[trigger] sorted[k]).index > e.index,
        at > 0 ==> sorted[at - 1].index <= e.index,
    ensures
        insert_by_index(sorted, e) == sorted.insert(at, e),
    decreases sorted.len() - at,
{
    if at == sorted.len() {
        if sorted.len() == 0 {
            assert(sorted.insert(at, e) =~= seq![e]);
        } else {
            assert(sorted.insert(at, e) =~= sorted.push(e));
        }
    } else {
        assert(sorted[sorted.len() - 1].index > e.index);
        lemma_insert_at(sorted.drop_last(), e, at);
        assert(sorted.drop_last().insert(at, e).push(sorted.last()) =~= sorted.insert(at, e));
    }
}

/// A list in order stays in order when a shard is put in, and gains that
/// shard.
pub proof fn lemma_insert_keeps_order(sorted: Seq<EncodedShard>, e: EncodedShard)
    requires
        forall|a: int, b: int|
            0 <= a < b < sorted.len() ==> (#[trigger] sorted[a]).index <= (
            #[trigger] sorted[b]).index,
    ensures
        ({
            let out = insert_by_index(sorted, e);
            &&& out.len() == sorted.len() + 1
            &&& forall|a: int, b: int|
                0 <= a < b < out.len() ==> (#[trigger] out[a]).index <= (#[trigger] out[b]).index
            &&& out.to_multiset() == sorted.to_multiset().insert(e)
        }),
    decreases sorted.len(),
{
    let out = insert_by_index(sorted, e);
    broadcast use vstd::seq_lib::group_to_multiset_ensures;

    if sorted.len() == 0 {
        assert(sorted =~= Seq::<EncodedShard>::empty());
        assert(out =~= Seq::<EncodedShard>::empty().push(e));
    } else if sorted.last().index <= e.index {
    } else {
        let rest = sorted.drop_last();
        lemma_insert_keeps_order(rest, e);
        let inner = insert_by_index(rest, e);
        assert(sorted =~= rest.push(sorted.last()));
        assert forall|a: int, b: int| 0 <= a < b < out.len() implies (#[trigger] out[a]).index <= (
        #[trigger] out[b]).index by {
            if b < inner.len() {
                assert(inner[a].index <= inner[b].index);
            } else {
                assert(inner.to_multiset().count(inner[a]) > 0);
                if inner[a] != e {
                    assert(rest.to_multiset().count(inner[a]) > 0);
                    let k = choose|k: int| 0 <= k < rest.len() && rest[k] == inner[a];
                    assert(sorted[k].index <= sorted[sorted.len() - 1].index);
                }
            }
        }
    }
}

/// The data shards in order are in order of index, and are the data shards
/// of the list, each as often as it occurs there.
pub proof fn lemma_data_in_order(shards: Seq<EncodedShard>)
    ensures
        ({
            let out = data_in_order(shards);
            &&& out.len() == data_count(shards)
            &&& forall|a: int, b: int|
                0 <= a < b < out.len() ==> (#[trigger] out[a]).index <= (#[trigger] out[b]).index
            &&& forall|i: int| 0 <= i < out.len() ==> !(#[trigger] out[i]).is_parity
        }),
    decreases shards.len(),
{
    if shards.len() > 0 {
        lemma_data_in_order(shards.drop_last());
        if !shards.last().is_parity {
            let rest = data_in_order(shards.drop_last());
            lemma_insert_keeps_order(rest, shards.last());
            let out = insert_by_index(rest, shards.last());
            broadcast use vstd::seq_lib::group_to_multiset_ensures;

            assert forall|i: int| 0 <= i < out.len() implies !(#[trigger] out[i]).is_parity by {
                assert(out.to_multiset().count(out[i]) > 0);
                if out[i] != shards.last() {
                    assert(rest.to_multiset().count(out[i]) > 0);
                    let k = choose|k: int| 0 <= k < rest.len() && rest[k] == out[i];
                }
            }
        }
    }
}

/// The data shards of the first `k` shards of an encoding are those shards
/// themselves, as far as the data shards reach.
pub proof fn lemma_encoding_data_in_order(
    shards: Seq<EncodedShard>,
    data: Seq<u8>,
    n: nat,
    parity: nat,
    k: nat,
)
    requires
        is_encoding(shards, data, n, parity),
        k <= shards.len(),
    ensures
        data_in_order(shards.subrange(0, k as int)) == shards.subrange(0, lesser(k, n) as int),
    decreases k,
{
    if k == 0 {
        assert(shards.subrange(0, 0) =~= Seq::<EncodedShard>::empty());
    } else {
        let prefix = shards.subrange(0, k as int);
        lemma_encoding_data_in_order(shards, data, n, parity, (k - 1) as nat);
        assert(prefix.drop_last() =~= shards.subrange(0, k - 1));
        assert(prefix.last() == shards[k - 1]);
        if k <= n {
            let before = shards.subrange(0, k - 1);
            if before.len() > 0 {
                assert(before.last() == shards[k - 2]);
            }
            assert(before.push(shards[k - 1]) =~= shards.subrange(0, k as int));
        }
    }
}

/// The bytes of the first `k` data shards of an encoding are the first bytes
/// of the blob, followed by zeros.
pub proof fn lemma_encoding_joined(
    shards: Seq<EncodedShard>,
    data: Seq<u8>,
    n: nat,
    parity: nat,
    k: nat,
)
    requires
        is_encoding(shards, data, n, parity),
        k <= n,
    ensures
        joined(shards, k).len() == k * shard_size(data.len(), n),
        forall|t: int|
            0 <= t < joined(shards, k).len() ==> #[trigger] joined(shards, k)[t] == (if t
                < data.len() {
                data[t]
            } else {
                0u8
            }),
    decreases k,
{
    let size = shard_size(data.len(), n);
    if k > 0 {
        lemma_encoding_joined(shards, data, n, parity, (k - 1) as nat);
        let before = joined(shards, (k - 1) as nat);
        let last = shards[k - 1].data@;
        assert(before.len() + size == k * size) by (nonlinear_arith)
            requires
                before.len() == (k - 1) * size,
                k > 0,
        ;
        assert forall|t: int| 0 <= t < joined(shards, k).len() implies #[trigger] joined(
            shards,
            k,
        )[t] == (if t < data.len() {
            data[t]
        } else {
            0u8
        }) by {
            if t >= before.len() {
                let j = t - before.len();
                assert(shards[k - 1].data@[j] == data_byte(data, size, (k - 1) as nat, j as nat));
            }
        }
    }
}

/// Decoding inverts encoding: the shards of a blob, in the order in which
/// they were made, decode to the blob.
pub proof fn lemma_decode_inverts_encode(
    decoder: ErasureDecoder,
    shards: Seq<EncodedShard>,
    data: Seq<u8>,
    parity: nat,
)
    requires
        decoder.spec_data_shards() > 0,
        is_encoding(shards, data, decoder.spec_data_shards(), parity),
    ensures
        decoder.spec_can_reconstruct(shards),
        decoder.spec_decoded(shards, data.len()) == data,
{
    let n = decoder.spec_data_shards();
    let size = shard_size(data.len(), n);
    lemma_encoding_data_in_order(shards, data, n, parity, shards.len());
    assert(shards.subrange(0, shards.len() as int) =~= shards);
    let ordered = data_in_order(shards);
    assert(ordered == shards.subrange(0, n as int));
    lemma_encoding_joined(shards, data, n, parity, n);
    lemma_joined_of_prefix(shards, n, n);
    let all = joined(ordered, n);
    assert(n * size >= data.len()) by {
        vstd::arithmetic::div_mod::lemma_fundamental_div_mod(
            (data.len() + n - 1) as int,
            n as int,
        );
        vstd::arithmetic::div_mod::lemma_mod_bound((data.len() + n - 1) as int, n as int);
    }
    assert(cut(all, data.len()) =~= data);
}

/// The bytes of the first `k` shards of a list are those of the first `k`
/// shards of any prefix that holds them.
pub proof fn lemma_joined_of_prefix(shards: Seq<EncodedShard>, m: nat, k: nat)
    requires
        k <= m <= shards.len(),
    ensures
        joined(shards.subrange(0, m as int), k) == joined(shards, k),
    decreases k,
{
    if k > 0 {
        lemma_joined_of_prefix(shards, m, (k - 1) as nat);
    }
}

impl ErasureEncoder {
    /// The number of data shards.
    pub closed spec fn spec_data_shards(&self) -> nat {
        self.data_shards as nat
    }

    /// The number of parity shards.
    pub closed spec fn spec_parity_shards(&self) -> nat {
        self.parity_shards as nat
    }

    /// An encoder for the given numbers of shards.
    pub fn new(data_shards: usize, parity_shards: usize) -> (r: Self)
        ensures
            r.spec_data_shards() == data_shards,
            r.spec_parity_shards() == parity_shards,
    {
        ErasureEncoder { data_shards, parity_shards }
    }

    /// The number of shards of an encoding.
    pub fn total_shards(&self) -> (r: usize)
        requires
            self.spec_data_shards() + self.spec_parity_shards() <= usize::MAX,
        ensures
            r == self.spec_data_shards() + self.spec_parity_shards(),
    {
        self.data_shards + self.parity_shards
    }

    /// The shards of a blob: the data shards, each of the shard size and
    /// padded with zeros, then the parity shards.
    pub fn encode(&self, data: &[u8]) -> (res: Result<Vec<EncodedShard>, ErasureError>)
        requires
            self.spec_data_shards() > 0,
            self.spec_data_shards() + self.spec_parity_shards() <= usize::MAX,
            data@.len() + self.spec_data_shards() <= usize::MAX,
        ensures
            res matches Ok(shards) && is_encoding(
                shards@,
                data@,
                self.spec_data_shards(),
                self.spec_parity_shards(),
            ),
    {
        let n = self.data_shards;
        let size: usize = (data.len() + n - 1) / n;
        let mut shards: Vec<EncodedShard> = Vec::new();
        assert(n * size <= data@.len() + n - 1) by (nonlinear_arith)
            requires
                n > 0,
                size == (data@.len() + n - 1) / n as int,
        ;
        let mut i: usize = 0;
        while i < n
            invariant
                i <= n,
                n == self.data_shards,
                n * size <= usize::MAX,
                size == shard_size(data@.len(), n as nat),
                shards@.len() == i,
                forall|q: int|
                    0 <= q < i ==> {
                        &&& (#[trigger] shards@[q]).index == q
                        &&& !shards@[q].is_parity
                        &&& shards@[q].data@.len() == size
                    },
                forall|q: int, j: int|
                    0 <= q < i && 0 <= j < size ==> (#[trigger] shards@[q].data@[j]) == data_byte(
                        data@,
                        size as nat,
                        q as nat,
                        j as nat,
                    ),
            decreases n - i,
        {
            assert(i * size + size <= n * size) by (nonlinear_arith)
                requires
                    i < n,
            ;
            let start: usize = i * size;
            let mut shard_data: Vec<u8> = Vec::new();
            let mut j: usize = 0;
            while j < size
                invariant
                    j <= size,
                    start == i * size,
                    start + size <= usize::MAX,
                    shard_data@.len() == j,
                    forall|t: int|
                        0 <= t < j ==> (#[trigger] shard_data@[t]) == data_byte(
                            data@,
                            size as nat,
                            i as nat,
                            t as nat,
                        ),
                decreases size - j,
            {
                if start + j < data.len() {
                    shard_data.push(data[start + j]);
                } else {
                    shard_data.push(0);
                }
                j = j + 1;
            }
            shards.push(EncodedShard { index: i, data: shard_data, is_parity: false });
            i = i + 1;
        }
        let mut p: usize = 0;
        while p < self.parity_shards
            invariant
                p <= self.parity_shards,
                n == self.data_shards,
                n + self.parity_shards <= usize::MAX,
                size == shard_size(data@.len(), n as nat),
                shards@.len() == n + p,
                forall|q: int|
                    0 <= q < shards@.len() ==> {
                        &&& (#[trigger] shards@[q]).index == q
                        &&& shards@[q].is_parity == (q >= n)
                        &&& shards@[q].data@.len() == size
                    },
                forall|q: int, j: int|
                    0 <= q < n && 0 <= j < size ==> (#[trigger] shards@[q].data@[j]) == data_byte(
                        data@,
                        size as nat,
                        q as nat,
                        j as nat,
                    ),
                forall|q: int, j: int|
                    0 <= q < p && 0 <= j < size ==> (#[trigger] shards@[n + q].data@[j])
                        == parity_byte(data@, size as nat, n as nat, q as nat, j as nat),
            decreases self.parity_shards - p,
        {
            let raise: u8 = ((p + 1) % 256) as u8;
            let mut parity: Vec<u8> = Vec::new();
            let mut j: usize = 0;
            while j < size
                invariant
                    j <= size,
                    n <= shards@.len(),
                    raise == ((p + 1) % 256) as u8,
                    parity@.len() == j,
                    forall|q: int| 0 <= q < n ==> (#[trigger] shards@[q]).data@.len() == size,
                    forall|q: int, t: int|
                        0 <= q < n && 0 <= t < size ==> (#[trigger] shards@[q].data@[t])
                            == data_byte(data@, size as nat, q as nat, t as nat),
                    forall|t: int|
                        0 <= t < j ==> (#[trigger] parity@[t]) == parity_byte(
                            data@,
                            size as nat,
                            n as nat,
                            p as nat,
                            t as nat,
                        ),
                decreases size - j,
            {
                let mut xor_val: u8 = 0;
                let mut q: usize = 0;
                while q < n
                    invariant
                        q <= n <= shards@.len(),
                        j < size,
                        xor_val == xor_of_shards(data@, size as nat, q as nat, j as nat),
                        forall|s: int| 0 <= s < n ==> (#[trigger] shards@[s]).data@.len() == size,
                        forall|s: int, t: int|
                            0 <= s < n && 0 <= t < size ==> (#[trigger] shards@[s].data@[t])
                                == data_byte(data@, size as nat, s as nat, t as nat),
                    decreases n - q,
                {
                    assert(shards@[q as int].data@.len() == size);
                    xor_val = xor_val ^ shards[q].data[j];
                    q = q + 1;
                }
                parity.push(xor_val.wrapping_add(raise));
                j = j + 1;
            }
            shards.push(EncodedShard { index: n + p, data: parity, is_parity: true });
            p = p + 1;
        }
        Ok(shards)
    }
}

impl ErasureDecoder {
    /// The number of data shards.
    pub closed spec fn spec_data_shards(&self) -> nat {
        self.data_shards as nat
    }

    /// The number of parity shards.
    pub closed spec fn spec_parity_shards(&self) -> nat {
        self.parity_shards as nat
    }

    /// Whether a list of shards is taken for decoding: it holds as many data
    /// shards as are needed, or at least as many shards of any kind.
    pub open spec fn spec_can_reconstruct(&self, available: Seq<EncodedShard>) -> bool {
        data_count(available) >= self.spec_data_shards() || available.len()
            >= self.spec_data_shards()
    }

    /// The blob that a list of shards decodes to: the bytes of the first
    /// data shards in order of index, as many as are needed, cut to the
    /// blob's length.
    pub open spec fn spec_decoded(&self, shards: Seq<EncodedShard>, original_len: nat) -> Seq<u8> {
        let ordered = data_in_order(shards);
        cut(joined(ordered, lesser(self.spec_data_shards(), ordered.len())), original_len)
    }

    /// A decoder for the given numbers of shards.
    pub fn new(data_shards: usize, parity_shards: usize) -> (r: Self)
        ensures
            r.spec_data_shards() == data_shards,
            r.spec_parity_shards() == parity_shards,
    {
        ErasureDecoder { data_shards, parity_shards }
    }

    /// Whether a list of shards is taken for decoding.
    pub fn can_reconstruct(&self, available: &[EncodedShard]) -> (r: bool)
        ensures
            r == self.spec_can_reconstruct(available@),
    {
        let mut count: usize = 0;
        let mut i: usize = 0;
        proof {
            assert(available@.subrange(0, 0) =~= Seq::<EncodedShard>::empty());
        }
        while i < available.len()
            invariant
                i <= available@.len(),
                count <= i,
                count == data_count(available@.subrange(0, i as int)),
            decreases available@.len() - i,
        {
            proof {
                assert(available@.subrange(0, i + 1).drop_last() =~= available@.subrange(
                    0,
                    i as int,
                ));
            }
            if !available[i].is_parity {
                count = count + 1;
            }
            i = i + 1;
        }
        proof {
            assert(available@.subrange(0, i as int) =~= available@);
        }
        count >= self.data_shards || available.len() >= self.data_shards
    }

    /// Puts a blob of `original_len` bytes together from its shards. Refused
    /// exactly when the list is not taken for decoding.
    pub fn decode(&self, shards: &[EncodedShard], original_len: usize) -> (res: Result<
        Vec<u8>,
        ErasureError,
    >)
        ensures
            !self.spec_can_reconstruct(shards@) ==> res == Err::<Vec<u8>, ErasureError>(
                ErasureError::InsufficientShards {
                    have: shards@.len() as usize,
                    need: self.spec_data_shards() as usize,
                },
            ),
            self.spec_can_reconstruct(shards@) ==> (res matches Ok(bytes) && bytes@
                == self.spec_decoded(shards@, original_len as nat)),
    {
        if !self.can_reconstruct(shards) {
            return Err(
                ErasureError::InsufficientShards { have: shards.len(), need: self.data_shards },
            );
        }
        let mut sorted: Vec<&EncodedShard> = Vec::new();
        let mut i: usize = 0;
        proof {
            assert(shards@.subrange(0, 0) =~= Seq::<EncodedShard>::empty());
            assert(pointed(sorted@) =~= data_in_order(shards@.subrange(0, 0)));
        }
        while i < shards.len()
            invariant
                i <= shards@.len(),
                pointed(sorted@) == data_in_order(shards@.subrange(0, i as int)),
            decreases shards@.len() - i,
        {
            proof {
                assert(shards@.subrange(0, i + 1).drop_last() =~= shards@.subrange(0, i as int));
            }
            if !shards[i].is_parity {
                let ghost before = pointed(sorted@);
                let mut at: usize = sorted.len();
                while at > 0 && sorted[at - 1].index > shards[i].index
                    invariant
                        at <= sorted@.len(),
                        i < shards@.len(),
                        forall|k: int|
                            at <= k < sorted@.len() ==> (#[trigger] sorted@[k]).index
                                > shards@[i as int].index,
                    decreases at,
                {
                    at = at - 1;
                }
                sorted.insert(at, &shards[i]);
                proof {
                    assert forall|k: int| at <= k < before.len() implies (
                    #[trigger] before[k]).index > shards@[i as int].index by {
                        assert(before[k] == *sorted@[k + 1]);
                    }
                    lemma_insert_at(before, shards@[i as int], at as int);
                    assert(pointed(sorted@) =~= before.insert(at as int, shards@[i as int]));
                }
            }
            i = i + 1;
        }
        proof {
            assert(shards@.subrange(0, i as int) =~= shards@);
        }
        let take: usize = if self.data_shards <= sorted.len() {
            self.data_shards
        } else {
            sorted.len()
        };
        let mut result: Vec<u8> = Vec::new();
        let mut k: usize = 0;
        while k < take
            invariant
                k <= take <= sorted@.len(),
                result@ == joined(pointed(sorted@), k as nat),
            decreases take - k,
        {
            let shard = sorted[k];
            let mut j: usize = 0;
            let ghost start = result@;
            while j < shard.data.len()
                invariant
                    j <= shard.data@.len(),
                    result@ == start + shard.data@.subrange(0, j as int),
                decreases shard.data@.len() - j,
            {
                result.push(shard.data[j]);
                j = j + 1;
                proof {
                    assert(result@ =~= start + shard.data@.subrange(0, j as int));
                }
            }
            proof {
                assert(shard.data@.subrange(0, j as int) =~= shard.data@);
                assert(pointed(sorted@)[k as int] == *shard);
            }
            k = k + 1;
        }
        if original_len < result.len() {
            result.truncate(original_len);
        }
        Ok(result)
    }
}

} // verus!
