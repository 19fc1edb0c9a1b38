//! Download state: which chunks of each file are still missing, the metadata
//! of the files being downloaded, and the buckets whose download is pending.

use vstd::prelude::*;
use crate::bytes::{bytes_eq, h256_eq, H256};
use crate::peer_stats::key_views;
use crate::keyed::{KeySet, KeyTable, sort_keys, keys_ascending};

verus! {

/// The metadata of a file, as stored while the file is being downloaded.
pub struct FileMetadata {
    /// The account that owns the file
    pub owner: Vec<u8>,
    /// The bucket that holds the file
    pub bucket_id: Vec<u8>,
    /// The location (path) of the file in the bucket
    pub location: Vec<u8>,
    /// The size of the file in bytes
    pub file_size: u64,
    /// The fingerprint (Merkle root) of the file's contents
    pub fingerprint: H256,
}

/// The contents of a file's metadata.
pub struct FileMetadataView {
    pub owner: Seq<u8>,
    pub bucket_id: Seq<u8>,
    pub location: Seq<u8>,
    pub file_size: u64,
    pub fingerprint: Seq<u8>,
}

impl FileMetadata {
    pub open spec fn view(&self) -> FileMetadataView {
        FileMetadataView {
            owner: self.owner@,
            bucket_id: self.bucket_id@,
            location: self.location@,
            file_size: self.file_size,
            fingerprint: self.fingerprint@,
        }
    }

    /// A copy of the metadata.
    pub fn copy(&self) -> (r: FileMetadata)
        ensures
            r.view() == self.view(),
    {
        FileMetadata {
            owner: vstd::slice::slice_to_vec(self.owner.as_slice()),
            bucket_id: vstd::slice::slice_to_vec(self.bucket_id.as_slice()),
            location: vstd::slice::slice_to_vec(self.location.as_slice()),
            file_size: self.file_size,
            fingerprint: self.fingerprint,
        }
    }
}

/// Names of the column families of the download state store.
pub struct MissingChunksName;

impl MissingChunksName {
    /// The name of the column family of missing chunks.
    pub fn name() -> (r: &'static str)
        ensures
            r@ == "missing_chunks"@,
    {
        "missing_chunks"
    }
}

/// Column family of missing chunks, keyed by file key.
pub struct MissingChunksCf;

impl MissingChunksCf {
    /// The name of the column family.
    pub fn name() -> (r: &'static str)
        ensures
            r@ == "missing_chunks"@,
    {
        "missing_chunks"
    }
}

/// Column family of missing chunks, keyed by (file key, chunk id).
pub struct MissingChunksCompositeCf;

impl MissingChunksCompositeCf {
    /// The name of the column family.
    pub fn name() -> (r: &'static str)
        ensures
            r@ == "missing_chunks"@,
    {
        "missing_chunks"
    }
}

/// Name holder of the composite missing chunks column family.
pub struct MissingChunksCompositeName;

impl MissingChunksCompositeName {
    /// The name of the column family.
    pub fn name() -> (r: &'static str)
        ensures
            r@ == "missing_chunks"@,
    {
        "missing_chunks"
    }
}

/// Column family of the metadata of the files being downloaded.
pub struct FileMetadataCf;

impl FileMetadataCf {
    /// The name of the column family.
    pub fn name() -> (r: &'static str)
        ensures
            r@ == "file_metadata"@,
    {
        "file_metadata"
    }
}

/// Name holder of the file metadata column family.
pub struct FileMetadataName;

impl FileMetadataName {
    /// The name of the column family.
    pub fn name() -> (r: &'static str)
        ensures
            r@ == "file_metadata"@,
    {
        "file_metadata"
    }
}

/// Column family of the buckets whose download is in progress.
pub struct PendingBucketDownloadsCf;

impl PendingBucketDownloadsCf {
    /// The name of the column family.
    pub fn name() -> (r: &'static str)
        ensures
            r@ == "pending_bucket_downloads"@,
    {
        PendingBucketDownloadsName::name()
    }
}

/// Name holder of the pending bucket downloads column family.
pub struct PendingBucketDownloadsName;

impl PendingBucketDownloadsName {
    /// The name of the column family.
    pub fn name() -> (r: &'static str)
        ensures
            r@ == "pending_bucket_downloads"@,
    {
        "pending_bucket_downloads"
    }
}

/// The column families that the download state store opens, in order.
pub fn download_state_column_families() -> (r: Vec<&'static str>)
    ensures
        r@.len() == 3,
        r@[0]@ == "missing_chunks"@,
        r@[1]@ == "file_metadata"@,
        r@[2]@ == "pending_bucket_downloads"@,
{
    let mut v: Vec<&'static str> = Vec::new();
    v.push(MissingChunksCompositeName::name());
    v.push(FileMetadataName::name());
    v.push(PendingBucketDownloadsName::name());
    v
}

/// The chunk ids `0 .. n`.
pub open spec fn chunk_range(n: u64) -> Set<u64> {
    Set::new(|c: u64| c < n)
}

/// The files with missing chunks whose stored metadata places them in
/// `bucket`.
pub open spec fn bucket_missing_files(missing: Map<Seq<u8>, Set<u64>>, metadata: Map<Seq<u8>, FileMetadataView>, bucket: Seq<u8>) -> Set<Seq<u8>> {
    missing.dom().filter(|k: Seq<u8>| metadata.contains_key(k) && metadata[k].bucket_id == bucket)
}

/// The missing chunks after `file_key` starts anew with `n` chunks missing.
pub open spec fn after_init(m: Map<Seq<u8>, Set<u64>>, file_key: Seq<u8>, n: u64) -> Map<Seq<u8>, Set<u64>> {
    if n > 0 { m.insert(file_key, chunk_range(n)) } else { m.remove(file_key) }
}

/// The missing chunks after `chunk` of `file_key` was downloaded: the chunk
/// is no longer missing, and a file missing nothing is dropped.
pub open spec fn after_mark(m: Map<Seq<u8>, Set<u64>>, file_key: Seq<u8>, chunk: u64) -> Map<Seq<u8>, Set<u64>> {
    if m.contains_key(file_key) && m[file_key].contains(chunk) {
        if m[file_key] == set![chunk] { m.remove(file_key) } else { m.insert(file_key, m[file_key].remove(chunk)) }
    } else {
        m
    }
}

/// The missing chunks of each file being downloaded.
pub struct MissingChunksMap {
    files: Vec<H256>,
    chunks: Vec<Vec<u64>>,
}

impl MissingChunksMap {
    /// Each file with its missing chunks; a file appears only while it has
    /// missing chunks.
    pub closed spec fn view(&self) -> Map<Seq<u8>, Set<u64>> {
        Map::new(
            |k: Seq<u8>| key_views(self.files@).contains(k),
            |k: Seq<u8>| self.chunks@[key_views(self.files@).index_of(k)]@.to_set(),
        )
    }

    /// File keys are unique, chunk lists hold no duplicates and are not empty.
    pub closed spec fn wf(&self) -> bool {
        &&& self.files@.len() == self.chunks@.len()
        &&& key_views(self.files@).no_duplicates()
        &&& forall|i: int| 0 <= i < self.chunks@.len() ==> (#[trigger] self.chunks@[i])@.no_duplicates()
        &&& forall|i: int| 0 <= i < self.chunks@.len() ==> (#[trigger] self.chunks@[i])@.len() > 0
    }

    proof fn lemma_index_of(&self, i: int)
        requires
            self.wf(),
            0 <= i < self.files@.len(),
        ensures
            key_views(self.files@).index_of(self.files@[i]@) == i,
            self.view().contains_key(self.files@[i]@),
            self.view()[self.files@[i]@] == self.chunks@[i]@.to_set(),
    {
        let kv = key_views(self.files@);
        assert(kv[i] == self.files@[i]@);
        assert(kv.contains(self.files@[i]@));
        let j = kv.index_of(self.files@[i]@);
        assert(0 <= j < kv.len() && kv[j] == kv[i]);
    }

    /// A file is tracked only while it misses at least one chunk.
    pub proof fn lemma_tracked_files_miss_chunks(&self)
        requires
            self.wf(),
        ensures
            forall|k: Seq<u8>| #[trigger] self.view().contains_key(k) ==> self.view()[k] != Set::<u64>::empty(),
    {
        assert forall|k: Seq<u8>| #[trigger] self.view().contains_key(k) implies self.view()[k] != Set::<u64>::empty() by {
            let kv = key_views(self.files@);
            let i = kv.index_of(k);
            assert(0 <= i < kv.len() && kv[i] == k);
            let c = self.chunks@[i]@;
            assert(c.len() > 0);
            assert(c.to_set().contains(c[0]));
        }
    }

    /// An empty map.
    pub fn new() -> (r: MissingChunksMap)
        ensures
            r.wf(),
            r.view().dom() == Set::<Seq<u8>>::empty(),
    {
        let r = MissingChunksMap { files: Vec::new(), chunks: Vec::new() };
        assert(r.view().dom() =~= Set::<Seq<u8>>::empty());
        r
    }

    fn find(&self, file_key: &H256) -> (r: Option<usize>)
        requires
            self.wf(),
        ensures
            r is None ==> !self.view().contains_key(file_key@),
            r matches Some(i) ==> i < self.files@.len() && self.files@[i as int]@ == file_key@,
    {
        let mut i: usize = 0;
        while i < self.files.len()
            invariant
                i <= self.files@.len(),
                self.wf(),
                forall|j: int| 0 <= j < i ==> self.files@[j]@ != file_key@,
            decreases self.files@.len() - i,
        {
            if h256_eq(&self.files[i], file_key) {
                return Some(i);
            }
            i = i + 1;
        }
        proof {
            let kv = key_views(self.files@);
            if kv.contains(file_key@) {
                let j = choose|j: int| 0 <= j < kv.len() && kv[j] == file_key@;
                assert(self.files@[j]@ == file_key@);
            }
        }
        None
    }

    /// Whether the download of `file_key` is complete: no chunk is missing.
    pub fn is_file_complete(&self, file_key: &H256) -> (r: bool)
        requires
            self.wf(),
        ensures
            r == !self.view().contains_key(file_key@),
    {
        match self.find(file_key) {
            None => true,
            Some(i) => {
                proof { self.lemma_index_of(i as int); }
                false
            },
        }
    }

    /// The missing chunks of `file_key`, each once.
    pub fn get_missing_chunks(&self, file_key: &H256) -> (r: Vec<u64>)
        requires
            self.wf(),
        ensures
            r@.no_duplicates(),
            self.view().contains_key(file_key@) ==> r@.to_set() == self.view()[file_key@],
            !self.view().contains_key(file_key@) ==> r@.len() == 0,
            r@.len() == 0 <==> !self.view().contains_key(file_key@),
    {
        match self.find(file_key) {
            None => Vec::new(),
            Some(i) => {
                proof { self.lemma_index_of(i as int); }
                vstd::slice::slice_to_vec(self.chunks[i].as_slice())
            },
        }
    }

    fn remove_file_at(&mut self, i: usize)
        requires
            old(self).wf(),
            i < old(self).files@.len(),
        ensures
            final(self).wf(),
            final(self).view() == old(self).view().remove(old(self).files@[i as int]@),
    {
        let ghost fk = self.files@[i as int]@;
        proof { self.lemma_index_of(i as int); }
        self.files.remove(i);
        self.chunks.remove(i);
        proof {
            let okv = key_views(old(self).files@);
            let kv = key_views(self.files@);
            assert(kv =~= okv.remove(i as int));
            assert forall|a: int, b: int| 0 <= a < b < kv.len() implies kv[a] != kv[b] by {
                let oa = if a < i { a } else { a + 1 };
                let ob = if b < i { b } else { b + 1 };
                assert(kv[a] == okv[oa] && kv[b] == okv[ob]);
            }
            assert forall|j: int| 0 <= j < self.chunks@.len() implies (#[trigger] self.chunks@[j])@.no_duplicates() by {
                if j < i { assert(self.chunks@[j] == old(self).chunks@[j]); } else { assert(self.chunks@[j] == old(self).chunks@[j + 1]); }
            }
            assert forall|j: int| 0 <= j < self.chunks@.len() implies (#[trigger] self.chunks@[j])@.len() > 0 by {
                if j < i { assert(self.chunks@[j] == old(self).chunks@[j]); } else { assert(self.chunks@[j] == old(self).chunks@[j + 1]); }
            }
            assert forall|k: Seq<u8>| #[trigger] self.view().contains_key(k) <==> old(self).view().remove(fk).contains_key(k) by {
                if kv.contains(k) {
                    let j = choose|j: int| 0 <= j < kv.len() && kv[j] == k;
                    let oj = if j < i { j } else { j + 1 };
                    assert(okv[oj] == k);
                    assert(oj != i);
                }
                if okv.contains(k) && k != fk {
                    let oj = choose|oj: int| 0 <= oj < okv.len() && okv[oj] == k;
                    assert(oj != i);
                    let j = if oj < i { oj } else { oj - 1 };
                    assert(kv[j] == k);
                }
            }
            assert forall|k: Seq<u8>| self.view().contains_key(k) implies #[trigger] self.view()[k] == old(self).view().remove(fk)[k] by {
                let j = kv.index_of(k);
                assert(kv.contains(k));
                assert(0 <= j < kv.len() && kv[j] == k);
                let oj = if j < i { j } else { j + 1 };
                assert(okv[oj] == k);
                assert(self.files@[j]@ == k);
                self.lemma_index_of(j);
                old(self).lemma_index_of(oj);
                assert(self.chunks@[j] == old(self).chunks@[oj]);
            }
            assert(self.view() =~= old(self).view().remove(fk));
        }
    }

    /// Starts tracking `file_key` with all of its `chunks_count` chunks
    /// missing, replacing any previous state of that file.
    pub fn initialize_file(&mut self, file_key: H256, chunks_count: u64)
        requires
            old(self).wf(),
        ensures
            final(self).wf(),
            chunks_count > 0 ==> final(self).view() == old(self).view().insert(file_key@, chunk_range(chunks_count)),
            chunks_count == 0 ==> final(self).view() == old(self).view().remove(file_key@),
            final(self).view() == after_init(old(self).view(), file_key@, chunks_count),
    {
        match self.find(&file_key) {
            Some(i) => { self.remove_file_at(i); },
            None => {
                proof { assert(old(self).view().remove(file_key@) =~= old(self).view()); }
            },
        }
        if chunks_count == 0 {
            return;
        }
        let ghost mid = *self;
        let mut ids: Vec<u64> = Vec::new();
        let mut c: u64 = 0;
        while c < chunks_count
            invariant
                c <= chunks_count,
                ids@.len() == c,
                forall|j: int| 0 <= j < c ==> ids@[j] == j,
            decreases chunks_count - c,
        {
            ids.push(c);
            c = c + 1;
        }
        proof {
            assert(ids@.no_duplicates());
            assert(ids@.to_set() =~= chunk_range(chunks_count)) by {
                assert forall|x: u64| chunk_range(chunks_count).contains(x) implies ids@.contains(x) by {
                    assert(ids@[x as int] == x);
                }
            }
        }
        self.files.push(file_key);
        self.chunks.push(ids);
        proof {
            let okv = key_views(mid.files@);
            let kv = key_views(self.files@);
            let n = mid.files@.len() as int;
            assert(kv =~= okv.push(file_key@));
            assert(!mid.view().contains_key(file_key@));
            assert(!okv.contains(file_key@));
            assert forall|a: int, b: int| 0 <= a < b < kv.len() implies kv[a] != kv[b] by {
                if b == n { assert(okv.contains(okv[a])); }
            }
            assert forall|j: int| 0 <= j < self.chunks@.len() implies (#[trigger] self.chunks@[j])@.no_duplicates() by {
                if j < n { assert(self.chunks@[j] == mid.chunks@[j]); }
            }
            assert forall|j: int| 0 <= j < self.chunks@.len() implies (#[trigger] self.chunks@[j])@.len() > 0 by {
                if j < n { assert(self.chunks@[j] == mid.chunks@[j]); }
            }
            assert forall|k: Seq<u8>| #[trigger] self.view().contains_key(k) <==> mid.view().insert(file_key@, chunk_range(chunks_count)).contains_key(k) by {
                if kv.contains(k) {
                    let j = choose|j: int| 0 <= j < kv.len() && kv[j] == k;
                    if j < n { assert(okv[j] == k); }
                }
                if okv.contains(k) {
                    let j = choose|j: int| 0 <= j < okv.len() && okv[j] == k;
                    assert(kv[j] == k);
                }
                if k == file_key@ { assert(kv[n] == k); }
            }
            assert forall|k: Seq<u8>| self.view().contains_key(k) implies #[trigger] self.view()[k] == mid.view().insert(file_key@, chunk_range(chunks_count))[k] by {
                let j = kv.index_of(k);
                assert(kv.contains(k));
                assert(0 <= j < kv.len() && kv[j] == k);
                self.lemma_index_of(j);
                if j < n {
                    mid.lemma_index_of(j);
                    assert(self.chunks@[j] == mid.chunks@[j]);
                }
            }
            assert(self.view() =~= mid.view().insert(file_key@, chunk_range(chunks_count)));
            assert(mid.view() == old(self).view().remove(file_key@));
            assert(old(self).view().remove(file_key@).insert(file_key@, chunk_range(chunks_count))
                =~= old(self).view().insert(file_key@, chunk_range(chunks_count)));
        }
    }

    /// Marks a chunk as downloaded. Returns whether it was missing.
    pub fn mark_chunk_downloaded(&mut self, file_key: &H256, chunk_id: u64) -> (r: bool)
        requires
            old(self).wf(),
        ensures
            final(self).wf(),
            r == (old(self).view().contains_key(file_key@) && old(self).view()[file_key@].contains(chunk_id)),
            !r ==> final(self).view() == old(self).view(),
            r && old(self).view()[file_key@] == set![chunk_id] ==> final(self).view() == old(self).view().remove(file_key@),
            r && old(self).view()[file_key@] != set![chunk_id] ==> final(self).view() == old(self).view().insert(
                file_key@, old(self).view()[file_key@].remove(chunk_id)),
            final(self).view() == after_mark(old(self).view(), file_key@, chunk_id),
    {
        let i = match self.find(file_key) {
            None => { return false; },
            Some(i) => i,
        };
        proof { self.lemma_index_of(i as int); }
        let mut j: usize = 0;
        let n = self.chunks[i].len();
        while j < n && self.chunks[i][j] != chunk_id
            invariant
                self.wf(),
                i < self.chunks@.len(),
                n == self.chunks@[i as int]@.len(),
                j <= n,
                forall|k: int| 0 <= k < j ==> self.chunks@[i as int]@[k] != chunk_id,
            decreases n - j,
        {
            j = j + 1;
        }
        if j == n {
            proof {
                assert(!self.chunks@[i as int]@.contains(chunk_id));
            }
            return false;
        }
        let ghost old_list = self.chunks@[i as int]@;
        proof {
            assert(old_list[j as int] == chunk_id);
            assert(old_list.contains(chunk_id));
        }
        if n == 1 {
            proof {
                assert(old_list.to_set() =~= set![chunk_id]) by {
                    assert forall|x: u64| old_list.to_set().contains(x) implies x == chunk_id by {
                        let w = choose|w: int| 0 <= w < old_list.len() && old_list[w] == x;
                    }
                }
            }
            self.remove_file_at(i);
            return true;
        }
        let ghost mid = *self;
        self.chunks[i].remove(j);
        proof {
            let nl = self.chunks@[i as int]@;
            assert(nl =~= old_list.remove(j as int));
            assert forall|a: int, b: int| 0 <= a < b < nl.len() implies nl[a] != nl[b] by {
                let oa = if a < j { a } else { a + 1 };
                let ob = if b < j { b } else { b + 1 };
                assert(nl[a] == old_list[oa] && nl[b] == old_list[ob]);
            }
            assert(nl.to_set() =~= old_list.to_set().remove(chunk_id)) by {
                assert forall|x: u64| nl.to_set().contains(x) <==> old_list.to_set().remove(chunk_id).contains(x) by {
                    if nl.contains(x) {
                        let w = choose|w: int| 0 <= w < nl.len() && nl[w] == x;
                        let ow = if w < j { w } else { w + 1 };
                        assert(old_list[ow] == x);
                        assert(ow != j);
                    }
                    if old_list.contains(x) && x != chunk_id {
                        let ow = choose|ow: int| 0 <= ow < old_list.len() && old_list[ow] == x;
                        let w = if ow < j { ow } else { ow - 1 };
                        assert(nl[w] == x);
                    }
                }
            }
            assert(old_list.to_set() != set![chunk_id]) by {
                let other = if j == 0 { old_list[1] } else { old_list[0] };
                assert(other != chunk_id);
                assert(old_list.to_set().contains(other));
            }
            assert(self.files@ == old(self).files@);
            assert forall|a: int| 0 <= a < self.chunks@.len() implies (#[trigger] self.chunks@[a])@.no_duplicates() by {
                if a != i { assert(self.chunks@[a] == old(self).chunks@[a]); }
            }
            assert forall|a: int| 0 <= a < self.chunks@.len() implies (#[trigger] self.chunks@[a])@.len() > 0 by {
                if a != i { assert(self.chunks@[a] == old(self).chunks@[a]); }
            }
            let kv = key_views(self.files@);
            assert forall|k: Seq<u8>| self.view().contains_key(k) implies #[trigger] self.view()[k] == old(self).view().insert(
                file_key@, old(self).view()[file_key@].remove(chunk_id))[k] by {
                let a = kv.index_of(k);
                assert(kv.contains(k));
                assert(0 <= a < kv.len() && kv[a] == k);
                self.lemma_index_of(a);
                old(self).lemma_index_of(a);
                if a != i { assert(self.chunks@[a] == old(self).chunks@[a]); }
            }
            assert(self.view() =~= old(self).view().insert(file_key@, old(self).view()[file_key@].remove(chunk_id)));
        }
        true
    }

    /// The files that have missing chunks, each once.
    pub fn files_with_missing_chunks(&self) -> (r: Vec<H256>)
        requires
            self.wf(),
        ensures
            key_views(r@).no_duplicates(),
            key_views(r@).to_set() == self.view().dom(),
    {
        let mut r: Vec<H256> = Vec::new();
        let mut k: usize = 0;
        while k < self.files.len()
            invariant
                k <= self.files@.len(),
                r@ == self.files@.take(k as int),
            decreases self.files@.len() - k,
        {
            r.push(self.files[k]);
            proof { assert(self.files@.take(k + 1) =~= self.files@.take(k as int).push(self.files@[k as int])); }
            k = k + 1;
        }
        proof {
            assert(self.files@.take(k as int) =~= self.files@);
            assert(r@ == self.files@);
            let kv = key_views(self.files@);
            assert forall|k: Seq<u8>| kv.to_set().contains(k) <==> self.view().dom().contains(k) by {}
            assert(kv.to_set() =~= self.view().dom());
        }
        r
    }
}

/// The download state: missing chunks per file, metadata of the files being
/// downloaded, and the buckets whose download has started and not completed.
pub struct DownloadStateStore {
    missing_chunks: MissingChunksMap,
    metadata: KeyTable<FileMetadata>,
    pending_buckets: KeySet,
}

impl DownloadStateStore {
    /// The missing chunks of each file being downloaded.
    pub closed spec fn missing_view(&self) -> Map<Seq<u8>, Set<u64>> {
        self.missing_chunks.view()
    }

    /// A file is tracked only while it misses at least one chunk.
    pub proof fn lemma_tracked_files_miss_chunks(&self)
        requires
            self.wf(),
        ensures
            forall|k: Seq<u8>| #[trigger] self.missing_view().contains_key(k) ==> self.missing_view()[k] != Set::<u64>::empty(),
    {
        self.missing_chunks.lemma_tracked_files_miss_chunks();
    }

    /// Starts tracking `file_key` with all of its `chunks_count` chunks
    /// missing, replacing any previous state of that file.
    pub fn initialize_file(&mut self, file_key: H256, chunks_count: u64)
        requires
            old(self).wf(),
        ensures
            final(self).wf(),
            chunks_count > 0 ==> final(self).missing_view() == old(self).missing_view().insert(file_key@, chunk_range(chunks_count)),
            chunks_count == 0 ==> final(self).missing_view() == old(self).missing_view().remove(file_key@),
            final(self).missing_view() == after_init(old(self).missing_view(), file_key@, chunks_count),
            final(self).metadata_view() == old(self).metadata_view(),
            final(self).pending_view() == old(self).pending_view(),
    {
        self.missing_chunks.initialize_file(file_key, chunks_count);
    }

    /// Marks a chunk as downloaded. Returns whether it was missing.
    pub fn mark_chunk_downloaded(&mut self, file_key: &H256, chunk_id: u64) -> (r: bool)
        requires
            old(self).wf(),
        ensures
            final(self).wf(),
            r == (old(self).missing_view().contains_key(file_key@) && old(self).missing_view()[file_key@].contains(chunk_id)),
            !r ==> final(self).missing_view() == old(self).missing_view(),
            r && old(self).missing_view()[file_key@] == set![chunk_id] ==> final(self).missing_view() == old(self).missing_view().remove(file_key@),
            r && old(self).missing_view()[file_key@] != set![chunk_id] ==> final(self).missing_view() == old(self).missing_view().insert(
                file_key@, old(self).missing_view()[file_key@].remove(chunk_id)),
            final(self).missing_view() == after_mark(old(self).missing_view(), file_key@, chunk_id),
            final(self).metadata_view() == old(self).metadata_view(),
            final(self).pending_view() == old(self).pending_view(),
    {
        self.missing_chunks.mark_chunk_downloaded(file_key, chunk_id)
    }

    /// Whether the download of `file_key` is complete: no chunk is missing.
    pub fn is_file_complete(&self, file_key: &H256) -> (r: bool)
        requires
            self.wf(),
        ensures
            r == !self.missing_view().contains_key(file_key@),
    {
        self.missing_chunks.is_file_complete(file_key)
    }

    /// The missing chunks of `file_key`, each once.
    pub fn get_missing_chunks(&self, file_key: &H256) -> (r: Vec<u64>)
        requires
            self.wf(),
        ensures
            r@.no_duplicates(),
            self.missing_view().contains_key(file_key@) ==> r@.to_set() == self.missing_view()[file_key@],
            !self.missing_view().contains_key(file_key@) ==> r@.len() == 0,
            r@.len() == 0 <==> !self.missing_view().contains_key(file_key@),
    {
        self.missing_chunks.get_missing_chunks(file_key)
    }

    /// The metadata stored for each file.
    pub closed spec fn metadata_view(&self) -> Map<Seq<u8>, FileMetadataView> {
        self.metadata.view().map_values(|m: FileMetadata| m.view())
    }

    /// The buckets whose download is in progress.
    pub closed spec fn pending_view(&self) -> Set<Seq<u8>> {
        self.pending_buckets.view()
    }

    /// The store is well formed.
    pub closed spec fn wf(&self) -> bool {
        &&& self.missing_chunks.wf()
        &&& self.metadata.wf()
        &&& self.pending_buckets.wf()
    }

    /// An empty store.
    pub fn new() -> (r: DownloadStateStore)
        ensures
            r.wf(),
            r.missing_view().dom() == Set::<Seq<u8>>::empty(),
            r.metadata_view().dom() == Set::<Seq<u8>>::empty(),
            r.pending_view() == Set::<Seq<u8>>::empty(),
    {
        let r = DownloadStateStore {
            missing_chunks: MissingChunksMap::new(),
            metadata: KeyTable::new(),
            pending_buckets: KeySet::new(),
        };
        assert(r.metadata_view().dom() =~= Set::<Seq<u8>>::empty());
        r
    }

    /// Stores the metadata of `file_key`.
    pub fn store_file_metadata(&mut self, file_key: H256, metadata: FileMetadata)
        requires
            old(self).wf(),
        ensures
            final(self).wf(),
            final(self).metadata_view() == old(self).metadata_view().insert(file_key@, metadata.view()),
            final(self).missing_view() == old(self).missing_view(),
            final(self).pending_view() == old(self).pending_view(),
    {
        let ghost mv = metadata.view();
        self.metadata.insert(file_key, metadata);
        assert(self.metadata_view() =~= old(self).metadata_view().insert(file_key@, mv));
    }

    /// The metadata stored for `file_key`, if any.
    pub fn get_file_metadata(&self, file_key: &H256) -> (r: Option<FileMetadata>)
        requires
            self.wf(),
        ensures
            r is None <==> !self.metadata_view().contains_key(file_key@),
            r matches Some(m) ==> m.view() == self.metadata_view()[file_key@],
    {
        match self.metadata.get(file_key) {
            None => None,
            Some(m) => Some(m.copy()),
        }
    }

    /// Deletes the metadata of `file_key`.
    pub fn delete_file_metadata(&mut self, file_key: &H256)
        requires
            old(self).wf(),
        ensures
            final(self).wf(),
            final(self).metadata_view() == old(self).metadata_view().remove(file_key@),
            final(self).missing_view() == old(self).missing_view(),
            final(self).pending_view() == old(self).pending_view(),
    {
        let _ = self.metadata.remove(file_key);
        assert(self.metadata_view() =~= old(self).metadata_view().remove(file_key@));
    }

    /// Records that the download of `bucket_id` has started.
    pub fn mark_bucket_download_started(&mut self, bucket_id: H256)
        requires
            old(self).wf(),
        ensures
            final(self).wf(),
            final(self).pending_view() == old(self).pending_view().insert(bucket_id@),
            final(self).missing_view() == old(self).missing_view(),
            final(self).metadata_view() == old(self).metadata_view(),
    {
        let _ = self.pending_buckets.insert(bucket_id);
    }

    /// Records that the download of `bucket_id` has completed.
    pub fn mark_bucket_download_completed(&mut self, bucket_id: &H256)
        requires
            old(self).wf(),
        ensures
            final(self).wf(),
            final(self).pending_view() == old(self).pending_view().remove(bucket_id@),
            final(self).missing_view() == old(self).missing_view(),
            final(self).metadata_view() == old(self).metadata_view(),
    {
        let _ = self.pending_buckets.remove(bucket_id);
    }

    /// Whether the download of `bucket_id` has started and not completed.
    pub fn is_bucket_download_in_progress(&self, bucket_id: &H256) -> (r: bool)
        ensures
            r == self.pending_view().contains(bucket_id@),
    {
        self.pending_buckets.contains(bucket_id)
    }

    /// The buckets whose download is in progress, each once, in ascending
    /// byte order of their ids.
    pub fn get_all_pending_bucket_downloads(&self) -> (r: Vec<H256>)
        requires
            self.wf(),
        ensures
            key_views(r@).no_duplicates(),
            keys_ascending(r@),
            key_views(r@).to_set() == self.pending_view(),
    {
        let all = self.pending_buckets.elements();
        sort_keys(&all)
    }

    /// The files still to be downloaded for `bucket_id`, each once, in
    /// ascending byte order of their keys: none when the bucket's download
    /// is not in progress, else the files with missing chunks whose stored
    /// metadata places them in that bucket.
    pub fn get_missing_files_for_bucket(&self, bucket_id: &H256) -> (r: Vec<H256>)
        requires
            self.wf(),
        ensures
            key_views(r@).no_duplicates(),
            keys_ascending(r@),
            !self.pending_view().contains(bucket_id@) ==> r@.len() == 0,
            self.pending_view().contains(bucket_id@) ==> key_views(r@).to_set()
                == bucket_missing_files(self.missing_view(), self.metadata_view(), bucket_id@),
    {
        if !self.is_bucket_download_in_progress(bucket_id) {
            return Vec::new();
        }
        let files = self.missing_chunks.files_with_missing_chunks();
        let ghost target = bucket_missing_files(self.missing_view(), self.metadata_view(), bucket_id@);
        let mut sel: Vec<H256> = Vec::new();
        let mut i: usize = 0;
        while i < files.len()
            invariant
                0 <= i <= files@.len(),
                self.wf(),
                key_views(files@).no_duplicates(),
                key_views(files@).to_set() == self.missing_view().dom(),
                target == bucket_missing_files(self.missing_view(), self.metadata_view(), bucket_id@),
                key_views(sel@).no_duplicates(),
                key_views(sel@).to_set() == key_views(files@.take(i as int)).to_set().filter(
                    |k: Seq<u8>| self.metadata_view().contains_key(k) && self.metadata_view()[k].bucket_id == bucket_id@),
            decreases files.len() - i,
        {
            let f = files[i];
            let ghost pre = key_views(files@.take(i as int));
            proof {
                assert(key_views(files@.take(i as int + 1)) =~= pre.push(f@));
                pre.lemma_push_to_set_commute(f@);
                assert(key_views(files@)[i as int] == f@);
                assert(!pre.contains(f@)) by {
                    if pre.contains(f@) {
                        let j = choose|j: int| 0 <= j < pre.len() && pre[j] == f@;
                        assert(key_views(files@)[j] == f@);
                    }
                }
            }
            let keep = match self.metadata.get(&f) {
                Some(m) => bytes_eq(m.bucket_id.as_slice(), bucket_id.as_slice()),
                None => false,
            };
            let ghost before = sel@;
            if keep {
                sel.push(f);
                proof {
                    assert(key_views(sel@) =~= key_views(before).push(f@));
                    key_views(before).lemma_push_to_set_commute(f@);
                    assert forall|a: int, b: int| 0 <= a < b < key_views(sel@).len() implies key_views(sel@)[a] != key_views(sel@)[b] by {
                        if b == before.len() {
                            assert(key_views(before).to_set().contains(key_views(before)[a]));
                        }
                    }
                }
            }
            proof {
                let cond = |k: Seq<u8>| self.metadata_view().contains_key(k) && self.metadata_view()[k].bucket_id == bucket_id@;
                assert(keep == cond(f@));
                assert(key_views(sel@).to_set() =~= pre.push(f@).to_set().filter(cond));
            }
            i = i + 1;
        }
        proof {
            assert(files@.take(files@.len() as int) =~= files@);
            assert(key_views(sel@).to_set() =~= target);
        }
        sort_keys(&sel)
    }
}

} // verus!
