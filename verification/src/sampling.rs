//! Sampling of shards for availability: which shards to ask for, and the
//! Merkle paths that show a shard to belong to an encoding.

use crate::bytes::{append_bytes, bytes_equal};
use crate::digest::{sha256, sha256_digest};
use crate::erasure::EncodedShard;
use crate::storage::ContentId;
use vstd::prelude::*;

verus! {

/// Why a sample was refused.
#[derive(Debug, Clone, Copy, PartialEq, Eq)]
pub enum SamplingError {
    /// A sample does not verify.
    VerificationFailed,
    /// Fewer samples than are needed.
    InsufficientSamples { have: usize, need: usize },
    /// A Merkle path is not acceptable.
    InvalidMerkleProof,
}

/// A shard's hash with the path that leads from it to the root.
#[derive(Clone, Debug)]
pub struct SampleProof {
    pub shard_index: usize,
    pub shard_hash: [u8; 32],
    pub merkle_path: Vec<[u8; 32]>,
}

/// Draws `required_samples` shards out of `total_shards`.
pub struct AvailabilitySampler {
    required_samples: usize,
    total_shards: usize,
}

/// The digest after `k` rehashes of the digest of the seed.
pub open spec fn seed_chain(seed: Seq<u8>, k: nat) -> Seq<u8>
    decreases k,
{
    if k == 0 {
        sha256(seed)
    } else {
        sha256(seed_chain(seed, (k - 1) as nat))
    }
}

/// The number that the first four bytes of a digest spell big-endian.
pub open spec fn leading_u32(digest: Seq<u8>) -> nat {
    (digest[0] as nat) * 0x100_0000 + (digest[1] as nat) * 0x1_0000 + (digest[2] as nat) * 0x100
        + digest[3] as nat
}

/// The shard that draw `k` points at.
pub open spec fn draw(seed: Seq<u8>, total_shards: nat, k: nat) -> nat {
    leading_u32(seed_chain(seed, k)) % total_shards
}

/// The shards chosen by the first `k` draws: each draw is taken unless it
/// was chosen before or enough are chosen.
pub open spec fn chosen(seed: Seq<u8>, total_shards: nat, required: nat, k: nat) -> Seq<usize>
    decreases k,
{
    if k == 0 {
        Seq::empty()
    } else {
        let before = chosen(seed, total_shards, required, (k - 1) as nat);
        let next = draw(seed, total_shards, (k - 1) as nat) as usize;
        if before.len() < required && !before.contains(next) {
            before.push(next)
        } else {
            before
        }
    }
}

/// The digests of a list of hashes.
pub open spec fn views(hashes: Seq<[u8; 32]>) -> Seq<Seq<u8>> {
    Seq::new(hashes.len(), |i: int| hashes[i]@)
}

/// The hashes of the shards of a list.
pub open spec fn shard_hashes(shards: Seq<EncodedShard>) -> Seq<Seq<u8>> {
    Seq::new(shards.len(), |i: int| sha256(shards[i].data@))
}

/// The level above a level of hashes: each pair hashed together, a last
/// single one hashed alone.
pub open spec fn level_up(level: Seq<Seq<u8>>) -> Seq<Seq<u8>> {
    Seq::new(
        ((level.len() + 1) / 2) as nat,
        |j: int|
            if 2 * j + 1 < level.len() {
                sha256(level[2 * j] + level[2 * j + 1])
            } else {
                sha256(level[2 * j])
            },
    )
}

/// The neighbours on the way up from position `idx` of a level, as far as
/// there are any.
pub open spec fn path_from(level: Seq<Seq<u8>>, idx: nat) -> Seq<Seq<u8>>
    decreases level.len(),
{
    if level.len() <= 1 {
        Seq::empty()
    } else {
        let sibling: int = if idx % 2 == 0 {
            idx as int + 1
        } else {
            idx as int - 1
        };
        let rest = path_from(level_up(level), idx / 2);
        if sibling < level.len() {
            seq![level[sibling]] + rest
        } else {
            rest
        }
    }
}

/// The hash that a path leads to from `current` at position `idx`: at each
/// step the hash at an even position comes first.
pub open spec fn fold_sample(current: Seq<u8>, idx: nat, path: Seq<Seq<u8>>) -> Seq<u8>
    decreases path.len(),
{
    if path.len() == 0 {
        current
    } else {
        let next = if idx % 2 == 0 {
            sha256(current + path[0])
        } else {
            sha256(path[0] + current)
        };
        fold_sample(next, idx / 2, path.drop_first())
    }
}

/// The shard that a digest points at among `total_shards`: the number that
/// its first four bytes spell big-endian, modulo the number of shards.
pub fn shard_of_digest(digest: &[u8; 32], total_shards: usize) -> (r: usize)
    requires
        total_shards > 0,
    ensures
        r == leading_u32(digest@) % total_shards as nat,
{
    let leading: u32 = (digest[0] as u32) * 0x100_0000 + (digest[1] as u32) * 0x1_0000 + (
    digest[2] as u32) * 0x100 + digest[3] as u32;
    (leading as usize) % total_shards
}

/// Whether a list holds a number.
fn holds(list: &Vec<usize>, x: usize) -> (r: bool)
    ensures
        r == list@.contains(x),
{
    let mut i: usize = 0;
    while i < list.len()
        invariant
            i <= list@.len(),
            forall|j: int| 0 <= j < i ==> list@[j] != x,
        decreases list@.len() - i,
    {
        if list[i] == x {
            return true;
        }
        i = i + 1;
    }
    false
}

impl AvailabilitySampler {
    /// The number of shards to draw.
    pub closed spec fn spec_required(&self) -> nat {
        self.required_samples as nat
    }

    /// The number of shards to draw from.
    pub closed spec fn spec_total(&self) -> nat {
        self.total_shards as nat
    }

    /// A sampler that draws `required_samples` out of `total_shards`.
    pub fn new(required_samples: usize, total_shards: usize) -> (r: Self)
        ensures
            r.spec_required() == required_samples,
            r.spec_total() == total_shards,
    {
        AvailabilitySampler { required_samples, total_shards }
    }

    /// The shards to sample for a seed: the draws of the seed's hash chain
    /// in their order, without repeats, until enough are chosen. The search
    /// ends after `usize::MAX` draws at the latest.
    pub fn generate_sample_indices(&self, seed: &[u8]) -> (r: Vec<usize>)
        requires
            self.spec_required() > 0 ==> self.spec_total() > 0,
        ensures
            r@.len() <= self.spec_required(),
            forall|i: int| 0 <= i < r@.len() ==> (#[trigger] r@[i]) < self.spec_total(),
            forall|i: int, j: int| 0 <= i < j < r@.len() ==> r@[i] != r@[j],
            exists|k: nat|
                k <= usize::MAX && r@ == #[trigger] chosen(
                    seed@,
                    self.spec_total(),
                    self.spec_required(),
                    k,
                ) && (r@.len() == self.spec_required() || k == usize::MAX),
    {
        let mut indices: Vec<usize> = Vec::new();
        let mut current: [u8; 32] = sha256_digest(seed);
        let mut draws: usize = 0;
        while indices.len() < self.required_samples && draws < usize::MAX
            invariant
                self.required_samples > 0 ==> self.total_shards > 0,
                current@ == seed_chain(seed@, draws as nat),
                indices@ == chosen(seed@, self.spec_total(), self.spec_required(), draws as nat),
                indices@.len() <= self.spec_required(),
                forall|i: int| 0 <= i < indices@.len() ==> (#[trigger] indices@[i]) < self.spec_total(),
                forall|i: int, j: int| 0 <= i < j < indices@.len() ==> indices@[i] != indices@[j],
            decreases usize::MAX - draws,
        {
            let shard_idx: usize = shard_of_digest(&current, self.total_shards);
            if !holds(&indices, shard_idx) {
                indices.push(shard_idx);
            }
            current = sha256_digest(current.as_slice());
            draws = draws + 1;
        }
        indices
    }

    /// The proof for a shard among all shards of an encoding: its hash and
    /// the path from its index.
    pub fn create_proof(shard: &EncodedShard, all_shards: &[EncodedShard]) -> (r: SampleProof)
        ensures
            r.shard_index == shard.index,
            r.shard_hash@ == sha256(shard.data@),
            views(r.merkle_path@) == path_from(shard_hashes(all_shards@), shard.index as nat),
    {
        let shard_hash = sha256_digest(shard.data.as_slice());
        let merkle_path = Self::build_merkle_path(shard.index, all_shards);
        SampleProof { shard_index: shard.index, shard_hash, merkle_path }
    }

    /// The neighbours on the way up from position `index` of the hashes of
    /// the shards.
    pub fn build_merkle_path(index: usize, shards: &[EncodedShard]) -> (r: Vec<[u8; 32]>)
        ensures
            views(r@) == path_from(shard_hashes(shards@), index as nat),
    {
        let mut level: Vec<[u8; 32]> = Vec::new();
        let mut i: usize = 0;
        while i < shards.len()
            invariant
                i <= shards@.len(),
                level@.len() == i,
                forall|q: int| 0 <= q < i ==> (#[trigger] level@[q])@ == sha256(shards@[q].data@),
            decreases shards@.len() - i,
        {
            level.push(sha256_digest(shards[i].data.as_slice()));
            i = i + 1;
        }
        proof {
            assert(views(level@) =~= shard_hashes(shards@));
        }
        let mut path: Vec<[u8; 32]> = Vec::new();
        let mut idx: usize = index;
        proof {
            assert(views(path@) + path_from(views(level@), idx as nat) =~= path_from(
                shard_hashes(shards@),
                index as nat,
            ));
        }
        while level.len() > 1
            invariant
                views(path@) + path_from(views(level@), idx as nat) == path_from(
                    shard_hashes(shards@),
                    index as nat,
                ),
            decreases level@.len(),
        {
            let ghost path_before = views(path@);
            let ghost lower = views(level@);
            let ghost below = idx;
            let width = level.len();
            if idx % 2 == 0 {
                if idx < width - 1 {
                    path.push(level[idx + 1]);
                    proof {
                        assert(views(path@) =~= path_before + seq![lower[idx + 1]]);
                    }
                }
            } else {
                if idx - 1 < width {
                    path.push(level[idx - 1]);
                    proof {
                        assert(views(path@) =~= path_before + seq![lower[idx - 1]]);
                    }
                }
            }
            let ghost path_after = views(path@);
            let parents: usize = width / 2 + width % 2;
            let mut next: Vec<[u8; 32]> = Vec::new();
            let mut p: usize = 0;
            while p < parents
                invariant
                    p <= parents,
                    width == level@.len(),
                    parents == (width + 1) / 2,
                    next@.len() == p,
                    forall|q: int| 0 <= q < p ==> (#[trigger] next@[q])@ == level_up(views(level@))[q],
                decreases parents - p,
            {
                let mut buf: Vec<u8> = Vec::new();
                append_bytes(&mut buf, level[2 * p].as_slice());
                if 2 * p + 1 < width {
                    append_bytes(&mut buf, level[2 * p + 1].as_slice());
                }
                next.push(sha256_digest(buf.as_slice()));
                p = p + 1;
            }
            level = next;
            idx = idx / 2;
            proof {
                assert(views(level@) =~= level_up(lower));
                assert(path_after + path_from(level_up(lower), below as nat / 2) =~= path_before
                    + path_from(lower, below as nat));
            }
        }
        proof {
            assert(views(path@) + Seq::<Seq<u8>>::empty() =~= views(path@));
        }
        path
    }

    /// Whether the path of a proof leads from the shard's hash to the root.
    pub fn verify_proof(&self, proof: &SampleProof, root: &ContentId) -> (res: Result<
        bool,
        SamplingError,
    >)
        ensures
            res matches Ok(b) && b == (fold_sample(
                proof.shard_hash@,
                proof.shard_index as nat,
                views(proof.merkle_path@),
            ) == root.0@),
    {
        let mut current: [u8; 32] = proof.shard_hash;
        let mut idx: usize = proof.shard_index;
        let mut i: usize = 0;
        let ghost path = views(proof.merkle_path@);
        proof {
            assert(path.subrange(0, path.len() as int) =~= path);
        }
        while i < proof.merkle_path.len()
            invariant
                i <= proof.merkle_path@.len(),
                path == views(proof.merkle_path@),
                fold_sample(current@, idx as nat, path.subrange(i as int, path.len() as int))
                    == fold_sample(proof.shard_hash@, proof.shard_index as nat, path),
            decreases proof.merkle_path@.len() - i,
        {
            let mut buf: Vec<u8> = Vec::new();
            if idx % 2 == 0 {
                append_bytes(&mut buf, current.as_slice());
                append_bytes(&mut buf, proof.merkle_path[i].as_slice());
            } else {
                append_bytes(&mut buf, proof.merkle_path[i].as_slice());
                append_bytes(&mut buf, current.as_slice());
            }
            proof {
                let rest = path.subrange(i as int, path.len() as int);
                assert(rest[0] == proof.merkle_path@[i as int]@);
                assert(rest.drop_first() =~= path.subrange(i + 1, path.len() as int));
            }
            current = sha256_digest(buf.as_slice());
            idx = idx / 2;
            i = i + 1;
        }
        Ok(bytes_equal(current.as_slice(), root.0.as_slice()))
    }
}

} // verus!
