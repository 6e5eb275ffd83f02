//! Identifiers and block ranges shared by the whole gateway.

use vstd::prelude::*;
use crate::text::{lemma_trim_ignores_one_more_slash, strip_trailing_slashes, trim_end_slashes};

verus! {

/// Identifies a dataset: its URL without the slashes at its end.
#[derive(Debug, PartialEq, Eq)]
pub struct DatasetId(pub String);

/// The identifier text that a dataset URL stands for.
pub open spec fn normalize_url(url: Seq<char>) -> Seq<char> {
    trim_end_slashes(url)
}

impl DatasetId {
    /// The identifier as text.
    pub open spec fn view(&self) -> Seq<char> {
        self.0@
    }

    /// The identifier of the dataset at `url`.
    pub fn from_url(url: &str) -> (id: DatasetId)
        ensures
            id@ == normalize_url(url@),
    {
        DatasetId(strip_trailing_slashes(url))
    }

    /// The identifier as text.
    pub fn to_string(&self) -> (s: String)
        ensures
            s@ == self@,
    {
        self.0.clone()
    }

    /// Whether two identifiers are the same.
    pub fn same(&self, other: &DatasetId) -> (b: bool)
        ensures
            b == (self@ == other@),
    {
        self.0 == other.0
    }
}

impl Clone for DatasetId {
    fn clone(&self) -> (res: Self)
        ensures
            res == *self,
    {
        DatasetId(self.0.clone())
    }
}

/// Two URLs that differ only by one slash at the end name the same dataset.
pub proof fn lemma_dataset_id_ignores_trailing_slash(url: Seq<char>)
    ensures
        normalize_url(url.push('/')) == normalize_url(url),
{
    lemma_trim_ignores_one_more_slash(url);
}

/// The identity of a network peer, in its base58 text form.
#[derive(Debug, PartialEq, Eq)]
pub struct PeerId(pub String);

impl PeerId {
    /// The identity as text.
    pub open spec fn view(&self) -> Seq<char> {
        self.0@
    }

    /// The base58 text of the identity.
    pub fn to_base58(&self) -> (s: String)
        ensures
            s@ == self@,
    {
        self.0.clone()
    }

    /// Whether two identities are the same.
    pub fn same(&self, other: &PeerId) -> (b: bool)
        ensures
            b == (self@ == other@),
    {
        self.0 == other.0
    }
}

impl Clone for PeerId {
    fn clone(&self) -> (res: Self)
        ensures
            res == *self,
    {
        PeerId(self.0.clone())
    }
}

/// A range of blocks, both ends included.
#[derive(Clone, Copy, Debug, PartialEq, Eq, Structural)]
pub struct Range {
    pub begin: u32,
    pub end: u32,
}

impl Range {
    /// Whether `block` lies in the range.
    pub open spec fn contains(&self, block: int) -> bool {
        self.begin <= block <= self.end
    }

    /// Whether `block` lies in the range.
    pub fn includes(&self, block: u64) -> (b: bool)
        ensures
            b == self.contains(block as int),
    {
        self.begin as u64 <= block && block <= self.end as u64
    }
}

/// Whether one of `ranges` holds `block`.
pub open spec fn ranges_cover(ranges: Seq<Range>, block: int) -> bool {
    exists|i: int| 0 <= i < ranges.len() && #[trigger] ranges[i].contains(block)
}

/// Whether one of `ranges` holds `block`.
pub fn covers_block(ranges: &Vec<Range>, block: u64) -> (b: bool)
    ensures
        b == ranges_cover(ranges@, block as int),
{
    let mut i: usize = 0;
    while i < ranges.len()
        invariant
            i <= ranges.len(),
            forall|j: int| 0 <= j < i ==> !(#[trigger] ranges[j].contains(block as int)),
        decreases ranges.len() - i,
    {
        if ranges[i].includes(block) {
            return true;
        }
        i = i + 1;
    }
    false
}

/// One stored piece of a dataset: the blocks `first_block..=last_block`, kept
/// under `key` in the dataset's bucket.
#[derive(Debug, PartialEq, Eq)]
pub struct DataChunk {
    pub first_block: u32,
    pub last_block: u32,
    pub key: String,
}

impl DataChunk {
    /// Whether `block` lies in the chunk.
    pub open spec fn contains(&self, block: int) -> bool {
        self.first_block <= block <= self.last_block
    }

    /// The first block of the chunk.
    pub fn first_block(&self) -> (b: u32)
        ensures
            b == self.first_block,
    {
        self.first_block
    }

    /// The last block of the chunk.
    pub fn last_block(&self) -> (b: u32)
        ensures
            b == self.last_block,
    {
        self.last_block
    }

    /// The blocks of the chunk as a range.
    pub fn range(&self) -> (r: Range)
        ensures
            r.begin == self.first_block,
            r.end == self.last_block,
    {
        Range { begin: self.first_block, end: self.last_block }
    }
}

impl Clone for DataChunk {
    fn clone(&self) -> (res: Self)
        ensures
            res == *self,
    {
        DataChunk { first_block: self.first_block, last_block: self.last_block, key: self.key.clone() }
    }
}

/// `uuid::Uuid::new_v4` and its text: a random identifier for a query. Nothing
/// is claimed of it.
#[verifier::external_body]
pub(crate) fn generate_query_id() -> (id: String)
{
    uuid::Uuid::new_v4().to_string()
}

} // verus!
