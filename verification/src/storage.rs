//! Content-addressed storage: blobs are kept under the SHA-256 digest of
//! their bytes, once, with a count of the references to them.

use crate::bytes::bytes_equal;
use crate::digest::{sha256, sha256_digest};
use crate::text::{hex, hex_string};
use vstd::prelude::*;

verus! {

/// Why a storage operation was refused.
#[derive(Debug, Clone, PartialEq, Eq)]
pub enum StorageError {
    /// Nothing is stored under the id; the text is the id in hexadecimal.
    NotFound(String),
    /// The id is not the digest of the content.
    InvalidHash,
    /// The content does not fit in what is left of the storage.
    StorageFull,
}

/// The id of a blob: the SHA-256 digest of its bytes.
#[derive(Clone, Copy, Debug, PartialEq, Eq, Hash)]
pub struct ContentId(pub [u8; 32]);

/// A stored blob.
#[derive(Clone, Debug)]
pub struct StoredContent {
    pub id: ContentId,
    pub data: Vec<u8>,
    pub timestamp: u64,
    pub reference_count: u32,
}

/// The storage: the blobs, no id twice, and the sum of their sizes.
pub struct ContentAddressedStorage {
    store: Vec<StoredContent>,
    max_size: usize,
    current_size: usize,
}

/// The blobs of a list by their ids; a later blob replaces an earlier one
/// of the same id.
pub open spec fn by_id(entries: Seq<StoredContent>) -> Map<Seq<u8>, StoredContent>
    decreases entries.len(),
{
    if entries.len() == 0 {
        Map::empty()
    } else {
        by_id(entries.drop_last()).insert(entries.last().id.0@, entries.last())
    }
}

/// The sum of the sizes of the blobs of a list.
pub open spec fn total_size(entries: Seq<StoredContent>) -> nat
    decreases entries.len(),
{
    if entries.len() == 0 {
        0
    } else {
        total_size(entries.drop_last()) + entries.last().data@.len()
    }
}

/// No two blobs of the list have one id.
pub open spec fn distinct_ids(entries: Seq<StoredContent>) -> bool {
    forall|i: int, j: int|
        0 <= i < j < entries.len() ==> (#[trigger] entries[i]).id.0@ != (#[trigger] entries[j]).id.0@
}

/// An id is in the map exactly when a blob of the list has it.
pub proof fn lemma_by_id_contains(entries: Seq<StoredContent>, key: Seq<u8>)
    ensures
        by_id(entries).contains_key(key) <==> exists|i: int|
            0 <= i < entries.len() && (#[trigger] entries[i]).id.0@ == key,
    decreases entries.len(),
{
    if entries.len() > 0 {
        let rest = entries.drop_last();
        lemma_by_id_contains(rest, key);
        if by_id(entries).contains_key(key) {
            if entries.last().id.0@ == key {
                assert(entries[entries.len() - 1].id.0@ == key);
            } else {
                let i = choose|i: int| 0 <= i < rest.len() && (#[trigger] rest[i]).id.0@ == key;
                assert(entries[i].id.0@ == key);
            }
        }
        if exists|i: int| 0 <= i < entries.len() && (#[trigger] entries[i]).id.0@ == key {
            let i = choose|i: int| 0 <= i < entries.len() && (#[trigger] entries[i]).id.0@ == key;
            if i < rest.len() {
                assert(rest[i].id.0@ == key);
            }
        }
    }
}

/// With distinct ids, the map holds each blob of the list under its id.
pub proof fn lemma_by_id_at(entries: Seq<StoredContent>, i: int)
    requires
        distinct_ids(entries),
        0 <= i < entries.len(),
    ensures
        by_id(entries).contains_key(entries[i].id.0@),
        by_id(entries)[entries[i].id.0@] == entries[i],
    decreases entries.len(),
{
    let rest = entries.drop_last();
    if i < entries.len() - 1 {
        assert(distinct_ids(rest)) by {
            assert forall|a: int, b: int| 0 <= a < b < rest.len() implies (#[trigger] rest[a]).id.0@
                != (#[trigger] rest[b]).id.0@ by {
                assert(entries[a].id.0@ != entries[b].id.0@);
            }
        }
        lemma_by_id_at(rest, i);
        assert(entries[i].id.0@ != entries[entries.len() - 1].id.0@);
    }
}

/// Replacing the blob at `i` by one of the same id replaces it in the map.
pub proof fn lemma_by_id_update(entries: Seq<StoredContent>, i: int, e: StoredContent)
    requires
        distinct_ids(entries),
        0 <= i < entries.len(),
        e.id.0@ == entries[i].id.0@,
    ensures
        by_id(entries.update(i, e)) == by_id(entries).insert(e.id.0@, e),
        distinct_ids(entries.update(i, e)),
        total_size(entries.update(i, e)) + entries[i].data@.len() == total_size(entries)
            + e.data@.len(),
    decreases entries.len(),
{
    let rest = entries.drop_last();
    let updated = entries.update(i, e);
    assert(distinct_ids(updated)) by {
        assert forall|a: int, b: int| 0 <= a < b < updated.len() implies (
        #[trigger] updated[a]).id.0@ != (#[trigger] updated[b]).id.0@ by {
            assert(entries[a].id.0@ != entries[b].id.0@);
        }
    }
    if i == entries.len() - 1 {
        assert(updated.drop_last() =~= rest);
        assert(by_id(updated) =~= by_id(entries).insert(e.id.0@, e));
    } else {
        assert(distinct_ids(rest)) by {
            assert forall|a: int, b: int| 0 <= a < b < rest.len() implies (#[trigger] rest[a]).id.0@
                != (#[trigger] rest[b]).id.0@ by {
                assert(entries[a].id.0@ != entries[b].id.0@);
            }
        }
        lemma_by_id_update(rest, i, e);
        assert(updated.drop_last() =~= rest.update(i, e));
        assert(updated.last() == entries.last());
        assert(entries[i].id.0@ != entries[entries.len() - 1].id.0@);
        assert(by_id(updated) =~= by_id(entries).insert(e.id.0@, e));
    }
}

/// Taking the blob at `i` out of the list takes its id out of the map.
pub proof fn lemma_by_id_remove(entries: Seq<StoredContent>, i: int)
    requires
        distinct_ids(entries),
        0 <= i < entries.len(),
    ensures
        by_id(entries.remove(i)) == by_id(entries).remove(entries[i].id.0@),
        distinct_ids(entries.remove(i)),
        total_size(entries.remove(i)) + entries[i].data@.len() == total_size(entries),
    decreases entries.len(),
{
    let rest = entries.drop_last();
    let removed = entries.remove(i);
    assert(distinct_ids(removed)) by {
        assert forall|a: int, b: int| 0 <= a < b < removed.len() implies (
        #[trigger] removed[a]).id.0@ != (#[trigger] removed[b]).id.0@ by {
            let a0 = if a < i {
                a
            } else {
                a + 1
            };
            let b0 = if b < i {
                b
            } else {
                b + 1
            };
            assert(entries[a0].id.0@ != entries[b0].id.0@);
        }
    }
    assert(distinct_ids(rest)) by {
        assert forall|a: int, b: int| 0 <= a < b < rest.len() implies (#[trigger] rest[a]).id.0@
            != (#[trigger] rest[b]).id.0@ by {
            assert(entries[a].id.0@ != entries[b].id.0@);
        }
    }
    if i == entries.len() - 1 {
        assert(removed =~= rest);
        lemma_by_id_contains(rest, entries[i].id.0@);
        if by_id(rest).contains_key(entries[i].id.0@) {
            let k = choose|k: int|
                0 <= k < rest.len() && (#[trigger] rest[k]).id.0@ == entries[i].id.0@;
            assert(entries[k].id.0@ != entries[i].id.0@);
        }
        assert(by_id(removed) =~= by_id(entries).remove(entries[i].id.0@));
    } else {
        lemma_by_id_remove(rest, i);
        assert(removed.drop_last() =~= rest.remove(i));
        assert(removed.last() == entries.last());
        assert(entries[i].id.0@ != entries[entries.len() - 1].id.0@);
        assert(by_id(removed) =~= by_id(entries).remove(entries[i].id.0@));
    }
}

/// The id of a blob is determined by its bytes: two ids of the same bytes are
/// the same id.
pub proof fn lemma_same_bytes_same_id(a: ContentId, b: ContentId, data: Seq<u8>)
    requires
        a.0@ == sha256(data),
        b.0@ == sha256(data),
    ensures
        a == b,
{
    assert(a.0 =~= b.0);
}

impl ContentId {
    /// The id of a blob: the SHA-256 digest of its bytes.
    pub fn from_data(data: &[u8]) -> (r: Self)
        ensures
            r.0@ == sha256(data@),
    {
        ContentId(sha256_digest(data))
    }

    /// The id in lower-case hexadecimal.
    pub fn to_hex(&self) -> (r: String)
        ensures
            r@ == hex(self.0@),
    {
        hex_string(self.0.as_slice())
    }
}

impl View for ContentAddressedStorage {
    type V = Map<Seq<u8>, StoredContent>;

    closed spec fn view(&self) -> Map<Seq<u8>, StoredContent> {
        by_id(self.store@)
    }
}

impl ContentAddressedStorage {
    /// The sum of the sizes of the stored blobs.
    pub closed spec fn spec_size(&self) -> nat {
        self.current_size as nat
    }

    /// The greatest sum of sizes that the storage takes.
    pub closed spec fn spec_max_size(&self) -> nat {
        self.max_size as nat
    }

    /// No id is stored twice, each blob is referenced, and the size is the
    /// sum of the sizes of the blobs, within the limit.
    pub closed spec fn wf(&self) -> bool {
        &&& distinct_ids(self.store@)
        &&& self.current_size == total_size(self.store@)
        &&& self.current_size <= self.max_size
        &&& forall|i: int|
            0 <= i < self.store@.len() ==> (#[trigger] self.store@[i]).reference_count >= 1
    }

    /// The size of a well-formed storage is within its limit.
    pub proof fn lemma_size_within_limit(&self)
        requires
            self.wf(),
        ensures
            self.spec_size() <= self.spec_max_size(),
            forall|k: Seq<u8>| self@.contains_key(k) ==> (#[trigger] self@[k]).reference_count >= 1,
    {
        assert forall|k: Seq<u8>| self@.contains_key(k) implies (
        #[trigger] self@[k]).reference_count >= 1 by {
            lemma_by_id_contains(self.store@, k);
            let i = choose|i: int| 0 <= i < self.store@.len() && (#[trigger] self.store@[i]).id.0@ == k;
            lemma_by_id_at(self.store@, i);
        }
    }

    /// An empty storage that takes up to `max_size` bytes.
    pub fn new(max_size: usize) -> (r: Self)
        ensures
            r.wf(),
            r@ == Map::<Seq<u8>, StoredContent>::empty(),
            r.spec_size() == 0,
            r.spec_max_size() == max_size,
    {
        ContentAddressedStorage { store: Vec::new(), max_size, current_size: 0 }
    }

    /// The position of the blob with the given id, if it is stored.
    fn find(&self, id: &ContentId) -> (r: Option<usize>)
        ensures
            r matches Some(i) ==> i < self.store@.len() && self.store@[i as int].id.0@ == id.0@,
            r is None ==> forall|i: int|
                0 <= i < self.store@.len() ==> (#[trigger] self.store@[i]).id.0@ != id.0@,
            r is Some <==> self@.contains_key(id.0@),
    {
        let mut i: usize = 0;
        proof {
            lemma_by_id_contains(self.store@, id.0@);
        }
        while i < self.store.len()
            invariant
                i <= self.store@.len(),
                forall|j: int| 0 <= j < i ==> (#[trigger] self.store@[j]).id.0@ != id.0@,
            decreases self.store@.len() - i,
        {
            if bytes_equal(self.store[i].id.0.as_slice(), id.0.as_slice()) {
                proof {
                    lemma_by_id_contains(self.store@, id.0@);
                    assert(self.store@[i as int].id.0@ == id.0@);
                }
                return Some(i);
            }
            i = i + 1;
        }
        None
    }

    /// Stores a blob and returns its id. Refused when the blob does not fit
    /// in what is left, whether or not it is stored already. A blob that is
    /// stored already gains a reference; a new one is kept with one
    /// reference and the given timestamp.
    pub fn store(&mut self, data: Vec<u8>, timestamp: u64) -> (res: Result<ContentId, StorageError>)
        requires
            old(self).wf(),
            forall|k: Seq<u8>|
                old(self)@.contains_key(k) ==> (#[trigger] old(self)@[k]).reference_count
                    < u32::MAX,
        ensures
            final(self).wf(),
            final(self).spec_max_size() == old(self).spec_max_size(),
            ({
                let blobs = old(self)@;
                let size = old(self).spec_size();
                let key = sha256(data@);
                if size + data@.len() > old(self).spec_max_size() {
                    &&& res == Err::<ContentId, StorageError>(StorageError::StorageFull)
                    &&& final(self)@ == blobs
                    &&& final(self).spec_size() == size
                } else if blobs.contains_key(key) {
                    &&& res matches Ok(id)
                    &&& id.0@ == key
                    &&& final(self).spec_size() == size
                    &&& final(self)@ == blobs.insert(
                        key,
                        StoredContent {
                            reference_count: (blobs[key].reference_count + 1) as u32,
                            ..blobs[key]
                        },
                    )
                } else {
                    &&& res matches Ok(id)
                    &&& id.0@ == key
                    &&& final(self).spec_size() == size + data@.len()
                    &&& final(self)@ == blobs.insert(
                        key,
                        StoredContent { id, data, timestamp, reference_count: 1 },
                    )
                }
            }),
    {
        let id = ContentId::from_data(data.as_slice());
        let size = data.len();
        let new_size = match self.current_size.checked_add(size) {
            Some(s) => s,
            None => {
                return Err(StorageError::StorageFull);
            },
        };
        if new_size > self.max_size {
            return Err(StorageError::StorageFull);
        }
        match self.find(&id) {
            Some(i) => {
                let ghost before = self.store@;
                proof {
                    lemma_by_id_at(before, i as int);
                }
                let mut content = self.store.remove(i);
                content.reference_count = content.reference_count + 1;
                self.store.insert(i, content);
                proof {
                    lemma_by_id_update(before, i as int, content);
                    assert(self.store@ =~= before.update(i as int, content));
                }
                Ok(id)
            },
            None => {
                let ghost before = self.store@;
                let content = StoredContent { id, data, timestamp, reference_count: 1 };
                self.store.push(content);
                self.current_size = new_size;
                proof {
                    assert(self.store@.drop_last() =~= before);
                    assert forall|a: int, b: int| 0 <= a < b < self.store@.len() implies (
                    #[trigger] self.store@[a]).id.0@ != (#[trigger] self.store@[b]).id.0@ by {
                        if b < before.len() {
                            assert(before[a].id.0@ != before[b].id.0@);
                        } else {
                            assert(before[a].id.0@ != id.0@);
                        }
                    }
                }
                Ok(id)
            },
        }
    }

    /// The bytes stored under an id. Fails exactly when nothing is stored
    /// under it.
    pub fn retrieve(&self, id: &ContentId) -> (res: Result<&[u8], StorageError>)
        requires
            self.wf(),
        ensures
            self@.contains_key(id.0@) ==> (res matches Ok(bytes) && bytes@
                == self@[id.0@].data@),
            !self@.contains_key(id.0@) ==> (res matches Err(StorageError::NotFound(text))
                && text@ == hex(id.0@)),
    {
        match self.find(id) {
            Some(i) => {
                proof {
                    lemma_by_id_at(self.store@, i as int);
                }
                Ok(self.store[i].data.as_slice())
            },
            None => Err(StorageError::NotFound(id.to_hex())),
        }
    }

    /// Whether a blob is stored under the id.
    pub fn contains(&self, id: &ContentId) -> (r: bool)
        ensures
            r == self@.contains_key(id.0@),
    {
        self.find(id).is_some()
    }

    /// Drops one reference to the blob under the id, and the blob with its
    /// last reference. Nothing happens when no blob is stored under the id.
    pub fn remove(&mut self, id: &ContentId) -> (res: Result<(), StorageError>)
        requires
            old(self).wf(),
        ensures
            res is Ok,
            final(self).wf(),
            final(self).spec_max_size() == old(self).spec_max_size(),
            ({
                let blobs = old(self)@;
                let size = old(self).spec_size();
                let key = id.0@;
                if !blobs.contains_key(key) {
                    &&& final(self)@ == blobs
                    &&& final(self).spec_size() == size
                } else if blobs[key].reference_count > 1 {
                    &&& final(self).spec_size() == size
                    &&& final(self)@ == blobs.insert(
                        key,
                        StoredContent {
                            reference_count: (blobs[key].reference_count - 1) as u32,
                            ..blobs[key]
                        },
                    )
                } else {
                    &&& final(self).spec_size() == size - blobs[key].data@.len()
                    &&& final(self)@ == blobs.remove(key)
                }
            }),
    {
        match self.find(id) {
            Some(i) => {
                let ghost before = self.store@;
                proof {
                    lemma_by_id_at(before, i as int);
                }
                let mut content = self.store.remove(i);
                proof {
                    lemma_by_id_remove(before, i as int);
                }
                if content.reference_count > 1 {
                    content.reference_count = content.reference_count - 1;
                    self.store.insert(i, content);
                    proof {
                        lemma_by_id_update(before, i as int, content);
                        assert(self.store@ =~= before.update(i as int, content));
                    }
                } else {
                    self.current_size = self.current_size - content.data.len();
                }
            },
            None => {},
        }
        Ok(())
    }

    /// The sum of the sizes of the stored blobs.
    pub fn size(&self) -> (r: usize)
        ensures
            r == self.spec_size(),
    {
        self.current_size
    }
}

} // verus!
