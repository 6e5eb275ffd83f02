//! The chunk index: for each dataset the chunks that its bucket holds, in block
//! order, with lookup by block.

use vstd::prelude::*;
use crate::table::Table;
use crate::text::{has_prefix, strip_prefix};
use crate::types::{normalize_url, DataChunk, DatasetId};

verus! {

/// Why the chunk index refused a request.
#[derive(Clone, Copy, Debug, PartialEq, Eq, Structural)]
pub enum StorageError {
    /// A bucket URL does not begin with `s3://`.
    WrongBucketUrl,
    /// The dataset is not among those that the index was made for.
    UnknownDataset,
    /// A listed chunk is empty or does not begin after the last known block.
    ChunkOutOfOrder,
}

/// Each chunk holds at least one block, and each begins after the one before it
/// ends.
pub open spec fn chunks_ordered(chunks: Seq<DataChunk>) -> bool {
    &&& forall|i: int| 0 <= i < chunks.len() ==> (#[trigger] chunks[i]).first_block <= chunks[i].last_block
    &&& forall|i: int, j: int|
        0 <= i < j < chunks.len() ==> (#[trigger] chunks[i]).last_block < (#[trigger] chunks[j]).first_block
}

/// Whether one of the chunks holds `block`.
pub open spec fn block_is_covered(chunks: Seq<DataChunk>, block: int) -> bool {
    exists|i: int| 0 <= i < chunks.len() && (#[trigger] chunks[i]).contains(block)
}

/// The chunk that holds `block`, if there is one.
pub open spec fn covering_chunk(chunks: Seq<DataChunk>, block: int) -> Option<DataChunk> {
    if block_is_covered(chunks, block) {
        Some(chunks[choose|i: int| 0 <= i < chunks.len() && (#[trigger] chunks[i]).contains(block)])
    } else {
        None
    }
}

/// Whether `chunk` can be appended to `chunks`: it holds at least one block and
/// begins after the last known block.
pub open spec fn can_follow(chunks: Seq<DataChunk>, chunk: DataChunk) -> bool {
    &&& chunk.first_block <= chunk.last_block
    &&& chunks.len() > 0 ==> chunks.last().last_block < chunk.first_block
}

/// How many of `listed`, from its start, can be appended to `chunks` one after
/// the other.
pub open spec fn accepted_count(chunks: Seq<DataChunk>, listed: Seq<DataChunk>) -> nat
    decreases listed.len(),
{
    if listed.len() == 0 || !can_follow(chunks, listed[0]) {
        0
    } else {
        1 + accepted_count(chunks.push(listed[0]), listed.skip(1))
    }
}

/// In an ordered index at most one chunk holds a block: the chunk at any
/// position that holds it is the one that lookup gives.
pub proof fn lemma_covering_chunk_is_unique(chunks: Seq<DataChunk>, block: int, i: int)
    requires
        chunks_ordered(chunks),
        0 <= i < chunks.len(),
        chunks[i].contains(block),
    ensures
        covering_chunk(chunks, block) == Some(chunks[i]),
{
    let j = choose|j: int| 0 <= j < chunks.len() && (#[trigger] chunks[j]).contains(block);
    if j < i {
        assert(chunks[j].last_block < chunks[i].first_block);
    } else if i < j {
        assert(chunks[i].last_block < chunks[j].first_block);
    }
}

/// What lookup gives is a chunk of the index that holds the block.
pub proof fn lemma_covering_chunk_holds_block(chunks: Seq<DataChunk>, block: int)
    requires
        covering_chunk(chunks, block) is Some,
    ensures
        covering_chunk(chunks, block).unwrap().contains(block),
        chunks.contains(covering_chunk(chunks, block).unwrap()),
{
    let j = choose|j: int| 0 <= j < chunks.len() && (#[trigger] chunks[j]).contains(block);
    assert(chunks[j] == covering_chunk(chunks, block).unwrap());
}

/// Appending chunks to an index does not change the chunk found for a block
/// that was covered before.
pub proof fn lemma_append_keeps_found_chunks(chunks: Seq<DataChunk>, more: Seq<DataChunk>, block: int)
    requires
        chunks_ordered(chunks + more),
        covering_chunk(chunks, block) is Some,
    ensures
        covering_chunk(chunks + more, block) == covering_chunk(chunks, block),
{
    let j = choose|j: int| 0 <= j < chunks.len() && (#[trigger] chunks[j]).contains(block);
    assert((chunks + more)[j] == chunks[j]);
    lemma_covering_chunk_is_unique(chunks + more, block, j);
}

/// A block that the longer index covers and the shorter one did not lies in
/// one of the appended chunks.
pub proof fn lemma_append_adds_only_new_chunks(chunks: Seq<DataChunk>, more: Seq<DataChunk>, block: int)
    requires
        covering_chunk(chunks, block) is None,
        covering_chunk(chunks + more, block) is Some,
    ensures
        block_is_covered(more, block),
{
    let all = chunks + more;
    let j = choose|j: int| 0 <= j < all.len() && (#[trigger] all[j]).contains(block);
    if j < chunks.len() {
        assert(chunks[j].contains(block));
    } else {
        assert(more[j - chunks.len()] == all[j]);
    }
}

/// The chunks of one dataset.
pub struct Dataset {
    bucket: String,
    chunks: Vec<DataChunk>,
}

impl Dataset {
    /// The name of the bucket that holds the dataset.
    pub closed spec fn bucket(&self) -> Seq<char> {
        self.bucket@
    }

    /// The known chunks, in block order.
    pub closed spec fn chunks(&self) -> Seq<DataChunk> {
        self.chunks@
    }

    /// The chunks are ordered and do not overlap.
    pub open spec fn wf(&self) -> bool {
        chunks_ordered(self.chunks())
    }

    /// A dataset of which no chunk is known yet.
    pub fn new(bucket: String) -> (d: Dataset)
        ensures
            d.wf(),
            d.bucket() == bucket@,
            d.chunks().len() == 0,
    {
        Dataset { bucket, chunks: Vec::new() }
    }

    /// The name of the bucket that holds the dataset.
    pub fn bucket_name(&self) -> (name: String)
        ensures
            name@ == self.bucket(),
    {
        self.bucket.clone()
    }

    /// The number of known chunks.
    pub fn len(&self) -> (n: usize)
        ensures
            n == self.chunks().len(),
    {
        self.chunks.len()
    }

    /// The last known chunk: listing starts after it.
    pub fn last_chunk(&self) -> (res: Option<&DataChunk>)
        ensures
            self.chunks().len() == 0 ==> res is None,
            self.chunks().len() > 0 ==> res == Some(&self.chunks().last()),
    {
        let n: usize = self.chunks.len();
        if n == 0 {
            None
        } else {
            Some(&self.chunks[n - 1])
        }
    }

    /// Appends the chunks that a listing of the bucket gave, in order, up to the
    /// first that is empty or does not begin after the last known block. Returns how
    /// many were appended, as an error where that is not all of them.
    pub fn update(&mut self, listed: &Vec<DataChunk>) -> (res: Result<usize, StorageError>)
        requires
            old(self).wf(),
        ensures
            final(self).wf(),
            final(self).bucket() == old(self).bucket(),
            final(self).chunks() == old(self).chunks() + listed@.subrange(
                0,
                accepted_count(old(self).chunks(), listed@) as int,
            ),
            accepted_count(old(self).chunks(), listed@) <= listed.len(),
            accepted_count(old(self).chunks(), listed@) == listed.len() ==> res == Ok::<usize, StorageError>(
                listed.len(),
            ),
            accepted_count(old(self).chunks(), listed@) < listed.len() ==> res == Err::<usize, StorageError>(
                StorageError::ChunkOutOfOrder,
            ),
    {
        let ghost before = self.chunks@;
        let mut i: usize = 0;
        proof {
            assert(listed@.skip(0) =~= listed@);
            assert(before + listed@.subrange(0, 0) =~= before);
        }
        while i < listed.len()
            invariant
                i <= listed.len(),
                chunks_ordered(self.chunks@),
                self.bucket == old(self).bucket,
                before == old(self).chunks@,
                self.chunks@ == before + listed@.subrange(0, i as int),
                accepted_count(before, listed@) == i + accepted_count(self.chunks@, listed@.skip(i as int)),
            decreases listed.len() - i,
        {
            let chunk = &listed[i];
            let ghost rest = listed@.skip(i as int);
            proof {
                assert(rest[0] == listed@[i as int]);
                assert(rest.skip(1) =~= listed@.skip(i + 1));
            }
            let n: usize = self.chunks.len();
            let follows = chunk.first_block <= chunk.last_block && (n == 0 || self.chunks[n - 1].last_block
                < chunk.first_block);
            let ghost known = self.chunks@;
            proof {
                assert(follows == can_follow(known, rest[0]));
            }
            if !follows {
                proof {
                    assert(accepted_count(known, rest) == 0);
                }
                return Err(StorageError::ChunkOutOfOrder);
            }
            proof {
                assert(accepted_count(known, rest) == 1 + accepted_count(known.push(rest[0]), rest.skip(1)));
            }
            self.chunks.push(chunk.clone());
            proof {
                assert(self.chunks@ =~= before + listed@.subrange(0, i + 1));
                assert forall|a: int, b: int| 0 <= a < b < self.chunks@.len() implies (#[trigger] self.chunks@[a]).last_block
                    < (#[trigger] self.chunks@[b]).first_block by {
                    if b == n {
                        if a < n - 1 {
                            assert(known[a].last_block < known[n - 1].first_block);
                        }
                    } else {
                        assert(known[a].last_block < known[b].first_block);
                    }
                }
            }
            i = i + 1;
        }
        proof {
            assert(listed@.subrange(0, i as int) =~= listed@);
        }
        Ok(i)
    }

    /// The chunk that holds `block`, if there is one: a search for the first
    /// chunk that ends at or after `block`, which is the answer where it begins at
    /// or before `block`.
    pub fn find(&self, block: u64) -> (res: Option<&DataChunk>)
        requires
            self.wf(),
        ensures
            res == match covering_chunk(self.chunks(), block as int) {
                Some(c) => Some(&c),
                None => None,
            },
            res matches Some(c) ==> c.contains(block as int) && self.chunks().contains(*c),
            res is None ==> !block_is_covered(self.chunks(), block as int),
    {
        let n: usize = self.chunks.len();
        let mut lo: usize = 0;
        let mut hi: usize = n;
        while lo < hi
            invariant
                lo <= hi <= n,
                n == self.chunks@.len(),
                chunks_ordered(self.chunks@),
                forall|i: int| 0 <= i < lo ==> (#[trigger] self.chunks@[i]).last_block < block,
                forall|i: int| hi <= i < n ==> (#[trigger] self.chunks@[i]).last_block >= block,
            decreases hi - lo,
        {
            let mid: usize = lo + (hi - lo) / 2;
            if (self.chunks[mid].last_block as u64) < block {
                proof {
                    assert forall|i: int| 0 <= i < mid + 1 implies (#[trigger] self.chunks@[i]).last_block
                        < block by {
                        if i < mid {
                            assert(self.chunks@[i].last_block < self.chunks@[mid as int].first_block);
                        }
                    }
                }
                lo = mid + 1;
            } else {
                proof {
                    assert forall|i: int| mid <= i < n implies (#[trigger] self.chunks@[i]).last_block
                        >= block by {
                        if mid < i {
                            assert(self.chunks@[mid as int].last_block < self.chunks@[i].first_block);
                        }
                    }
                }
                hi = mid;
            }
        }
        if lo < n && self.chunks[lo].first_block as u64 <= block {
            proof {
                lemma_covering_chunk_is_unique(self.chunks@, block as int, lo as int);
            }
            Some(&self.chunks[lo])
        } else {
            proof {
                assert forall|i: int| 0 <= i < n implies !(#[trigger] self.chunks@[i]).contains(block as int) by {
                    if i > lo {
                        assert(self.chunks@[lo as int].last_block < self.chunks@[i].first_block);
                    }
                }
            }
            None
        }
    }

    /// The chunk that holds the block after the last block of `chunk`.
    pub fn next(&self, chunk: &DataChunk) -> (res: Option<&DataChunk>)
        requires
            self.wf(),
        ensures
            res == match covering_chunk(self.chunks(), chunk.last_block + 1) {
                Some(c) => Some(&c),
                None => None,
            },
            res matches Some(c) ==> c.contains(chunk.last_block + 1) && self.chunks().contains(*c),
    {
        self.find(chunk.last_block as u64 + 1)
    }
}

/// The position of the last of `buckets` whose URL names the dataset `id`, or
/// `-1` where none does.
pub open spec fn last_bucket_for(buckets: Seq<String>, id: Seq<char>) -> int
    decreases buckets.len(),
{
    if buckets.len() == 0 {
        -1
    } else if normalize_url(buckets.last()@) == id {
        buckets.len() - 1
    } else {
        last_bucket_for(buckets.drop_last(), id)
    }
}

/// Whether each of the first `n` bucket URLs begins with `s3://`.
pub open spec fn buckets_valid(buckets: Seq<String>, n: int) -> bool {
    forall|i: int| 0 <= i < n ==> has_prefix((#[trigger] buckets[i])@, "s3://"@)
}

/// The chunk index of all served datasets.
pub struct StorageClient {
    datasets: Table<Dataset>,
}

impl StorageClient {
    /// The datasets of the index, by identifier.
    pub closed spec fn datasets(&self) -> Map<Seq<char>, Dataset> {
        self.datasets@
    }

    /// Every dataset of the index is well-formed.
    pub closed spec fn wf(&self) -> bool {
        &&& self.datasets.wf()
        &&& forall|i: int| 0 <= i < self.datasets.spec_values().len() ==> (#[trigger] self.datasets.spec_values()[i]).wf()
    }

    /// Whether the index was made for the dataset `id`.
    pub open spec fn has_dataset(&self, id: Seq<char>) -> bool {
        self.datasets().contains_key(id)
    }

    /// The known chunks of the dataset `id`; none for a dataset that the index
    /// was not made for.
    pub open spec fn chunks_of(&self, id: Seq<char>) -> Seq<DataChunk> {
        if self.has_dataset(id) {
            self.datasets()[id].chunks()
        } else {
            Seq::empty()
        }
    }

    /// In a well-formed index the chunks of every dataset are ordered.
    pub proof fn lemma_chunks_ordered(&self, id: Seq<char>)
        requires
            self.wf(),
        ensures
            chunks_ordered(self.chunks_of(id)),
    {
        if self.has_dataset(id) {
            let i = choose|i: int| 0 <= i < self.datasets.spec_keys().len() && #[trigger] self.datasets.spec_keys()[i]@ == id;
            self.datasets.lemma_entry(i);
            assert(self.datasets.spec_values()[i].wf());
        }
    }

    /// An index for the datasets in the given buckets, with no chunk known yet.
    /// Every bucket URL must begin with `s3://`; the dataset's identifier is made
    /// from the whole URL, and where two URLs name one dataset the later bucket is
    /// kept.
    pub fn new(buckets: &Vec<String>) -> (res: Result<StorageClient, StorageError>)
        ensures
            !buckets_valid(buckets@, buckets.len() as int) ==> res == Err::<StorageClient, StorageError>(
                StorageError::WrongBucketUrl,
            ),
            buckets_valid(buckets@, buckets.len() as int) ==> res is Ok,
            res matches Ok(c) ==> {
                &&& c.wf()
                &&& forall|id: Seq<char>| c.has_dataset(id) <==> last_bucket_for(buckets@, id) >= 0
                &&& forall|id: Seq<char>| #[trigger]
                    c.has_dataset(id) ==> c.chunks_of(id).len() == 0 && c.datasets()[id].bucket()
                        == buckets[last_bucket_for(buckets@, id)]@.skip(5)
            },
    {
        let mut datasets: Table<Dataset> = Table::new();
        let mut i: usize = 0;
        proof {
            reveal_strlit("s3://");
        }
        while i < buckets.len()
            invariant
                i <= buckets.len(),
                "s3://"@.len() == 5,
                datasets.wf(),
                buckets_valid(buckets@, i as int),
                forall|j: int| 0 <= j < datasets.spec_values().len() ==> (#[trigger] datasets.spec_values()[j]).wf(),
                forall|id: Seq<char>| datasets@.contains_key(id) <==> last_bucket_for(buckets@.take(i as int), id) >= 0,
                forall|id: Seq<char>| #[trigger]
                    datasets@.contains_key(id) ==> datasets@[id].chunks().len() == 0 && datasets@[id].bucket()
                        == buckets[last_bucket_for(buckets@.take(i as int), id)]@.skip(5),
            decreases buckets.len() - i,
        {
            let url = &buckets[i];
            let ghost seen = buckets@.take(i as int);
            let ghost next = buckets@.take(i + 1);
            proof {
                assert(next.drop_last() =~= seen);
                assert(next.last() == buckets@[i as int]);
            }
            match strip_prefix(url.as_str(), "s3://") {
                None => {
                    return Err(StorageError::WrongBucketUrl);
                },
                Some(name) => {
                    let id = DatasetId::from_url(url.as_str());
                    let dataset = Dataset::new(name);
                    let ghost before = datasets;
                    datasets.insert(id.0, dataset);
                    proof {
                        assert(url@.subrange(5, url@.len() as int) =~= url@.skip(5));
                        assert forall|j: int| 0 <= j < datasets.spec_values().len() implies (#[trigger] datasets.spec_values()[j]).wf() by {
                            datasets.lemma_entry(j);
                            let k = datasets.spec_keys()[j]@;
                            if k != id@ {
                                let p = choose|p: int| 0 <= p < before.spec_keys().len() && #[trigger] before.spec_keys()[p]@ == k;
                                before.lemma_entry(p);
                            }
                        }
                        assert forall|q: Seq<char>| datasets@.contains_key(q) <==> last_bucket_for(next, q) >= 0 by {}
                        assert forall|q: Seq<char>| #[trigger] datasets@.contains_key(q) implies datasets@[q].chunks().len()
                            == 0 && datasets@[q].bucket() == buckets[last_bucket_for(next, q)]@.skip(5) by {}
                    }
                },
            }
            i = i + 1;
        }
        proof {
            assert(buckets@.take(i as int) =~= buckets@);
        }
        Ok(StorageClient { datasets })
    }

    /// Appends to the dataset `id` the chunks that a listing of its bucket gave;
    /// see [`Dataset::update`]. The other datasets stay as they are.
    pub fn update(&mut self, id: &DatasetId, listed: &Vec<DataChunk>) -> (res: Result<usize, StorageError>)
        requires
            old(self).wf(),
        ensures
            final(self).wf(),
            forall|other: Seq<char>| final(self).has_dataset(other) == old(self).has_dataset(other),
            forall|other: Seq<char>| other != id@ ==> final(self).chunks_of(other) == old(self).chunks_of(other),
            !old(self).has_dataset(id@) ==> res == Err::<usize, StorageError>(StorageError::UnknownDataset)
                && final(self).chunks_of(id@) == old(self).chunks_of(id@),
            old(self).has_dataset(id@) ==> {
                let known = old(self).chunks_of(id@);
                let count = accepted_count(known, listed@);
                &&& count <= listed.len()
                &&& final(self).chunks_of(id@) == known + listed@.subrange(0, count as int)
                &&& count == listed.len() ==> res == Ok::<usize, StorageError>(listed.len())
                &&& count < listed.len() ==> res == Err::<usize, StorageError>(StorageError::ChunkOutOfOrder)
            },
    {
        match self.datasets.index_of(&id.0) {
            None => Err(StorageError::UnknownDataset),
            Some(i) => {
                let ghost before = self.datasets;
                let mut dataset = self.datasets.replace_at(i, Dataset::new(String::new()));
                proof {
                    before.lemma_entry(i as int);
                    assert(before.spec_values()[i as int].wf());
                }
                let res = dataset.update(listed);
                self.datasets.set_at(i, dataset);
                proof {
                    assert(self.datasets.spec_values() =~= before.spec_values().update(i as int, dataset));
                    assert(self.datasets@ =~= before@.insert(id@, dataset));
                    assert forall|j: int| 0 <= j < self.datasets.spec_values().len() implies (#[trigger] self.datasets.spec_values()[j]).wf() by {
                        if j != i {
                            assert(before.spec_values()[j].wf());
                        }
                    }
                }
                res
            },
        }
    }

    /// The chunk of the dataset `id` that holds `block`, if the dataset is known
    /// and has one.
    pub fn find_chunk(&self, id: &DatasetId, block: u64) -> (res: Option<DataChunk>)
        requires
            self.wf(),
        ensures
            res == covering_chunk(self.chunks_of(id@), block as int),
            res matches Some(c) ==> c.contains(block as int) && self.chunks_of(id@).contains(c),
    {
        match self.datasets.index_of(&id.0) {
            None => {
                proof {
                    assert(!block_is_covered(Seq::<DataChunk>::empty(), block as int));
                }
                None
            },
            Some(i) => {
                proof {
                    self.datasets.lemma_entry(i as int);
                    assert(self.datasets.spec_values()[i as int].wf());
                }
                match self.datasets.value_at(i).find(block) {
                    Some(c) => Some(c.clone()),
                    None => None,
                }
            },
        }
    }

    /// The chunk of the dataset `id` that holds the block after the last block
    /// of `chunk`.
    pub fn next_chunk(&self, id: &DatasetId, chunk: &DataChunk) -> (res: Option<DataChunk>)
        requires
            self.wf(),
        ensures
            res == covering_chunk(self.chunks_of(id@), chunk.last_block + 1),
            res matches Some(c) ==> c.contains(chunk.last_block + 1) && self.chunks_of(id@).contains(c),
    {
        self.find_chunk(id, chunk.last_block as u64 + 1)
    }

    /// The number of known chunks of the dataset `id`.
    pub fn chunk_count(&self, id: &DatasetId) -> (n: usize)
        requires
            self.wf(),
        ensures
            n == self.chunks_of(id@).len(),
    {
        match self.datasets.get(&id.0) {
            None => 0,
            Some(dataset) => dataset.len(),
        }
    }

    /// The last known chunk of the dataset `id`: a listing of its bucket starts
    /// after it.
    pub fn last_chunk(&self, id: &DatasetId) -> (res: Option<DataChunk>)
        requires
            self.wf(),
        ensures
            self.chunks_of(id@).len() == 0 ==> res is None,
            self.chunks_of(id@).len() > 0 ==> res == Some(self.chunks_of(id@).last()),
    {
        match self.datasets.get(&id.0) {
            None => None,
            Some(dataset) => match dataset.last_chunk() {
                Some(c) => Some(c.clone()),
                None => None,
            },
        }
    }

    /// The bucket that holds the dataset `id`.
    pub fn bucket_of(&self, id: &DatasetId) -> (res: Option<String>)
        requires
            self.wf(),
        ensures
            res is Some <==> self.has_dataset(id@),
            res matches Some(name) ==> name@ == self.datasets()[id@].bucket(),
    {
        match self.datasets.get(&id.0) {
            None => None,
            Some(dataset) => Some(dataset.bucket_name()),
        }
    }
}

} // verus!
