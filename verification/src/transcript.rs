//! Proof transcripts: a hash chain over the digests of the appended data.

use crate::bytes::{append_bytes, bytes_equal};
use crate::digest::{sha256, sha256_digest};
use vstd::prelude::*;

verus! {

/// Why a transcript was refused.
#[derive(Debug, Clone, Copy, PartialEq, Eq, Structural)]
pub enum TranscriptError {
    /// An entry is not acceptable.
    InvalidEntry,
    /// The hash chain of the entries is broken.
    VerificationFailed,
}

/// One step of the chain: the digest of the data and the running hash after
/// it.
#[derive(Clone, Debug)]
pub struct TranscriptEntry {
    pub index: u64,
    pub label: String,
    pub data_hash: [u8; 32],
    pub running_hash: [u8; 32],
}

/// A transcript: its entries and the running hash after the last of them.
#[derive(Clone, Debug)]
pub struct ProofTranscript {
    entries: Vec<TranscriptEntry>,
    current_hash: [u8; 32],
}

/// Thirty-two zero bytes: the running hash of the empty transcript.
pub open spec fn initial_hash() -> Seq<u8> {
    Seq::new(32, |i: int| 0u8)
}

/// The running hash after data with digest `data_hash` is appended at running
/// hash `running`.
pub open spec fn chain_hash(running: Seq<u8>, data_hash: Seq<u8>) -> Seq<u8> {
    sha256(running + data_hash)
}

/// The running hash that entry `i` starts from.
pub open spec fn hash_before(entries: Seq<TranscriptEntry>, i: int) -> Seq<u8> {
    if i == 0 {
        initial_hash()
    } else {
        entries[i - 1].running_hash@
    }
}

/// Whether every entry carries the running hash that follows from the one
/// before it.
pub open spec fn chain_holds(entries: Seq<TranscriptEntry>) -> bool {
    forall|i: int|
        0 <= i < entries.len() ==> (#[trigger] entries[i]).running_hash@ == chain_hash(
            hash_before(entries, i),
            entries[i].data_hash@,
        )
}

/// The bytes of the word "challenge".
pub open spec fn challenge_tag() -> Seq<u8> {
    seq![0x63u8, 0x68u8, 0x61u8, 0x6cu8, 0x6cu8, 0x65u8, 0x6eu8, 0x67u8, 0x65u8]
}

/// Checks the hash chain of a list of entries: `Ok(true)` exactly when it
/// holds, else `VerificationFailed`.
pub fn verify_entries(entries: &[TranscriptEntry]) -> (res: Result<bool, TranscriptError>)
    ensures
        chain_holds(entries@) ==> res == Ok::<bool, TranscriptError>(true),
        !chain_holds(entries@) ==> res == Err::<bool, TranscriptError>(
            TranscriptError::VerificationFailed,
        ),
{
    let mut expected: [u8; 32] = [0u8; 32];
    let mut i: usize = 0;
    proof {
        assert(expected@ =~= initial_hash());
    }
    while i < entries.len()
        invariant
            i <= entries@.len(),
            expected@ == hash_before(entries@, i as int),
            forall|j: int|
                0 <= j < i ==> (#[trigger] entries@[j]).running_hash@ == chain_hash(
                    hash_before(entries@, j),
                    entries@[j].data_hash@,
                ),
        decreases entries@.len() - i,
    {
        let mut buf: Vec<u8> = Vec::new();
        append_bytes(&mut buf, expected.as_slice());
        append_bytes(&mut buf, entries[i].data_hash.as_slice());
        expected = sha256_digest(buf.as_slice());
        if !bytes_equal(expected.as_slice(), entries[i].running_hash.as_slice()) {
            proof {
                assert(entries@[i as int].running_hash@ != chain_hash(
                    hash_before(entries@, i as int),
                    entries@[i as int].data_hash@,
                ));
            }
            return Err(TranscriptError::VerificationFailed);
        }
        i = i + 1;
    }
    Ok(true)
}

impl ProofTranscript {
    /// The entries of the transcript.
    pub closed spec fn spec_entries(&self) -> Seq<TranscriptEntry> {
        self.entries@
    }

    /// The running hash after the last entry.
    pub closed spec fn spec_current_hash(&self) -> Seq<u8> {
        self.current_hash@
    }

    /// The entries are numbered from zero, their hash chain holds, and the
    /// current hash is the running hash after the last of them.
    pub closed spec fn wf(&self) -> bool {
        &&& chain_holds(self.entries@)
        &&& self.current_hash@ == hash_before(self.entries@, self.entries@.len() as int)
        &&& forall|i: int| 0 <= i < self.entries@.len() ==> (#[trigger] self.entries@[i]).index == i
    }

    /// What well-formedness says of the entries and the current hash.
    pub proof fn lemma_wf(&self)
        requires
            self.wf(),
        ensures
            chain_holds(self.spec_entries()),
            self.spec_current_hash() == hash_before(
                self.spec_entries(),
                self.spec_entries().len() as int,
            ),
            forall|i: int|
                0 <= i < self.spec_entries().len() ==> (#[trigger] self.spec_entries()[i]).index
                    == i,
    {
    }

    /// The empty transcript.
    pub fn new() -> (r: Self)
        ensures
            r.wf(),
            r.spec_entries().len() == 0,
            r.spec_current_hash() == initial_hash(),
    {
        let current_hash = [0u8; 32];
        proof {
            assert(current_hash@ =~= initial_hash());
        }
        ProofTranscript { entries: Vec::new(), current_hash }
    }

    /// Appends the digest of `data` under `label` and advances the running
    /// hash.
    pub fn append(&mut self, label: &str, data: &[u8])
        requires
            old(self).wf(),
        ensures
            final(self).wf(),
            final(self).spec_entries().len() == old(self).spec_entries().len() + 1,
            final(self).spec_entries().drop_last() == old(self).spec_entries(),
            final(self).spec_entries().last().index == old(self).spec_entries().len(),
            final(self).spec_entries().last().label@ == label@,
            final(self).spec_entries().last().data_hash@ == sha256(data@),
            final(self).spec_entries().last().running_hash@ == chain_hash(
                old(self).spec_current_hash(),
                sha256(data@),
            ),
            final(self).spec_current_hash() == chain_hash(
                old(self).spec_current_hash(),
                sha256(data@),
            ),
    {
        let data_hash = sha256_digest(data);
        let mut buf: Vec<u8> = Vec::new();
        append_bytes(&mut buf, self.current_hash.as_slice());
        append_bytes(&mut buf, data_hash.as_slice());
        let running_hash = sha256_digest(buf.as_slice());
        let entry = TranscriptEntry {
            index: self.entries.len() as u64,
            label: label.to_owned(),
            data_hash,
            running_hash,
        };
        self.current_hash = running_hash;
        self.entries.push(entry);
        proof {
            assert(self.entries@.drop_last() =~= old(self).entries@);
            assert forall|i: int| 0 <= i < self.entries@.len() implies (
            #[trigger] self.entries@[i]).running_hash@ == chain_hash(
                hash_before(self.entries@, i),
                self.entries@[i].data_hash@,
            ) by {
                if i < old(self).entries@.len() {
                    assert(self.entries@[i] == old(self).entries@[i]);
                    assert(hash_before(self.entries@, i) == hash_before(old(self).entries@, i));
                }
            }
        }
    }

    /// The challenge of the transcript: the digest of the word "challenge"
    /// followed by the current hash.
    pub fn challenge(&self) -> (r: [u8; 32])
        ensures
            r@ == sha256(challenge_tag() + self.spec_current_hash()),
    {
        let tag: [u8; 9] = [0x63u8, 0x68u8, 0x61u8, 0x6cu8, 0x6cu8, 0x65u8, 0x6eu8, 0x67u8, 0x65u8];
        let mut buf: Vec<u8> = Vec::new();
        append_bytes(&mut buf, tag.as_slice());
        append_bytes(&mut buf, self.current_hash.as_slice());
        proof {
            assert(tag@ =~= challenge_tag());
        }
        sha256_digest(buf.as_slice())
    }

    /// Checks the hash chain of the transcript: `Ok(true)` exactly when it
    /// holds, as it does in every well-formed transcript; else
    /// `VerificationFailed`.
    pub fn verify(&self) -> (res: Result<bool, TranscriptError>)
        ensures
            chain_holds(self.spec_entries()) ==> res == Ok::<bool, TranscriptError>(true),
            !chain_holds(self.spec_entries()) ==> res == Err::<bool, TranscriptError>(
                TranscriptError::VerificationFailed,
            ),
            self.wf() ==> res == Ok::<bool, TranscriptError>(true),
    {
        verify_entries(self.entries.as_slice())
    }

    /// The entries of the transcript.
    pub fn entries(&self) -> (r: &[TranscriptEntry])
        ensures
            r@ == self.spec_entries(),
    {
        self.entries.as_slice()
    }

    /// The running hash after the last entry.
    pub fn current_hash(&self) -> (r: [u8; 32])
        ensures
            r@ == self.spec_current_hash(),
    {
        self.current_hash
    }
}

impl Default for ProofTranscript {
    fn default() -> (r: Self)
        ensures
            r.wf(),
            r.spec_entries().len() == 0,
            r.spec_current_hash() == initial_hash(),
    {
        Self::new()
    }
}

} // verus!
