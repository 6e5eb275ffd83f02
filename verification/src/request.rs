//! A client's request: the parsed query and the limits that govern its
//! dispatch.

use vstd::pervasive::unreached;
use vstd::prelude::*;
use crate::json::{
    decimal_text, integer_member, json_as_u64, json_clone, json_compact, json_from_str, json_get, json_has_members,
    json_integers, json_members, json_parse, json_set_u32, json_to_string,
};
use crate::types::{DatasetId, Range};

verus! {

/// Why a query text was refused.
#[derive(Clone, Copy, Debug, PartialEq, Eq, Structural)]
pub enum QueryError {
    /// The text is not valid JSON.
    InvalidJson,
    /// The query has no `fromBlock` that is an unsigned integer.
    MissingFromBlock,
}

/// The blocks of `range` that a query for the blocks from `first` to `last`
/// asks for; without `last` the query has no upper end.
pub open spec fn intersection(first: u64, last: Option<u64>, range: Range) -> Option<Range> {
    let begin = if range.begin >= first {
        range.begin as int
    } else {
        first as int
    };
    let end = match last {
        Some(l) => if l < range.end {
            l as int
        } else {
            range.end as int
        },
        None => range.end as int,
    };
    if begin <= end {
        Some(Range { begin: begin as u32, end: end as u32 })
    } else {
        None
    }
}

/// Whether a query for the blocks from `first` to `last` asks for `block`.
pub open spec fn query_asks_for(first: u64, last: Option<u64>, block: int) -> bool {
    first <= block && (last matches Some(l) ==> block <= l)
}

/// The intersection holds exactly the blocks of the range that the query asks
/// for, and there is none exactly when no block is in both.
pub proof fn lemma_intersection_is_exact(first: u64, last: Option<u64>, range: Range, block: int)
    ensures
        match intersection(first, last, range) {
            Some(r) => r.contains(block) <==> range.contains(block) && query_asks_for(first, last, block),
            None => !(range.contains(block) && query_asks_for(first, last, block)),
        },
{
}

/// The members of a query once its block range is rewritten to `range`.
pub open spec fn ranged_members(members: Map<Seq<char>, Seq<char>>, range: Range) -> Map<Seq<char>, Seq<char>> {
    members.insert("fromBlock"@, decimal_text(range.begin as nat)).insert(
        "toBlock"@,
        decimal_text(range.end as nat),
    )
}

/// Rewriting the block range of a query leaves every member but `fromBlock`
/// and `toBlock` as it was, adds no other member and drops none.
pub proof fn lemma_range_rewrite_keeps_other_members(
    members: Map<Seq<char>, Seq<char>>,
    range: Range,
    key: Seq<char>,
)
    requires
        key != "fromBlock"@,
        key != "toBlock"@,
    ensures
        ranged_members(members, range).contains_key(key) == members.contains_key(key),
        members.contains_key(key) ==> ranged_members(members, range)[key] == members[key],
        ranged_members(members, range)["fromBlock"@] == decimal_text(range.begin as nat),
        ranged_members(members, range)["toBlock"@] == decimal_text(range.end as nat),
{
    reveal_strlit("fromBlock");
    reveal_strlit("toBlock");
    assert("fromBlock"@[0] != "toBlock"@[0]);
}

/// A query as a client sent it: a JSON object with the first block it asks for
/// and, optionally, the last.
#[derive(Debug)]
pub struct ParsedQuery {
    json: serde_json::Value,
    first_block: u64,
    last_block: Option<u64>,
}

impl ParsedQuery {
    #[verifier::type_invariant]
    spec fn is_object(&self) -> bool {
        json_has_members(self.json)
    }

    /// The members of the query, each with its compact JSON text.
    pub closed spec fn members(&self) -> Map<Seq<char>, Seq<char>> {
        json_members(self.json)
    }

    /// The first block that the query asks for.
    pub closed spec fn first(&self) -> u64 {
        self.first_block
    }

    /// The last block that the query asks for, if it names one.
    pub closed spec fn last(&self) -> Option<u64> {
        self.last_block
    }

    /// Makes a query of a parsed document and of what was read from its
    /// `fromBlock` and `toBlock`. Without a first block there is no query.
    pub fn from_parts(json: serde_json::Value, first_block: Option<u64>, last_block: Option<u64>) -> (res: Result<
        ParsedQuery,
        QueryError,
    >)
        requires
            first_block is Some ==> json_has_members(json),
        ensures
            match first_block {
                None => res == Err::<ParsedQuery, QueryError>(QueryError::MissingFromBlock),
                Some(first) => res matches Ok(q) && q.members() == json_members(json) && q.first() == first
                    && q.last() == last_block,
            },
    {
        match first_block {
            None => Err(QueryError::MissingFromBlock),
            Some(first) => Ok(ParsedQuery { json, first_block: first, last_block }),
        }
    }

    /// Parses a query. The text must be JSON and hold a `fromBlock` that is an
    /// unsigned integer; a `toBlock` that is none counts as absent.
    pub fn from_string(query: &str) -> (res: Result<ParsedQuery, QueryError>)
        ensures
            match json_parse(query@) {
                None => res == Err::<ParsedQuery, QueryError>(QueryError::InvalidJson),
                Some((members, integers)) => match integer_member(integers, "fromBlock"@) {
                    None => res == Err::<ParsedQuery, QueryError>(QueryError::MissingFromBlock),
                    Some(first) => res matches Ok(q) && q.members() == members && q.first() == first && q.last()
                        == integer_member(integers, "toBlock"@),
                },
            },
    {
        match json_from_str(query) {
            Err(_) => Err(QueryError::InvalidJson),
            Ok(json) => {
                let first_block = integer_at(&json, "fromBlock");
                let last_block = integer_at(&json, "toBlock");
                Self::from_parts(json, first_block, last_block)
            },
        }
    }

    /// The first block that the query asks for.
    pub fn first_block(&self) -> (b: u64)
        ensures
            b == self.first(),
    {
        self.first_block
    }

    /// The last block that the query asks for, if it names one.
    pub fn last_block(&self) -> (b: Option<u64>)
        ensures
            b == self.last(),
    {
        self.last_block
    }

    /// The query as text, with `fromBlock` and `toBlock` set to the ends of
    /// `range` and everything else as the client sent it.
    pub fn with_range(&self, range: &Range) -> (text: String)
        ensures
            text@ == json_compact(ranged_members(self.members(), *range)),
    {
        proof {
            use_type_invariant(self);
        }
        let mut json = json_clone(&self.json);
        json_set_u32(&mut json, "fromBlock", range.begin);
        proof {
            assert(json_members(json).contains_key("fromBlock"@));
        }
        json_set_u32(&mut json, "toBlock", range.end);
        proof {
            assert(json_members(json).contains_key("toBlock"@));
        }
        match json_to_string(&json) {
            Ok(text) => text,
            Err(_) => unreached(),
        }
    }

    /// The part of `range` that the query asks for, if there is one.
    pub fn intersect_with(&self, range: &Range) -> (res: Option<Range>)
        ensures
            res == intersection(self.first(), self.last(), *range),
    {
        let begin: u64 = if range.begin as u64 >= self.first_block {
            range.begin as u64
        } else {
            self.first_block
        };
        let end: u64 = match self.last_block {
            Some(l) => if l < range.end as u64 {
                l
            } else {
                range.end as u64
            },
            None => range.end as u64,
        };
        if begin <= end {
            Some(Range { begin: begin as u32, end: end as u32 })
        } else {
            None
        }
    }
}

/// The unsigned integer under `key` in a JSON object; none where the document
/// has no such member or the member is no such number.
fn integer_at(json: &serde_json::Value, key: &str) -> (res: Option<u64>)
    ensures
        res == integer_member(json_integers(*json), key@),
        res is Some ==> json_has_members(*json),
{
    match json_get(json, key) {
        Some(member) => json_as_u64(member),
        None => None,
    }
}

impl std::str::FromStr for ParsedQuery {
    type Err = QueryError;

    fn from_str(s: &str) -> (res: Result<Self, Self::Err>) {
        Self::from_string(s)
    }
}

impl Clone for ParsedQuery {
    fn clone(&self) -> (res: Self)
        ensures
            res == *self,
    {
        proof {
            use_type_invariant(self);
        }
        ParsedQuery { json: json_clone(&self.json), first_block: self.first_block, last_block: self.last_block }
    }
}

/// One request of a client. Times are in milliseconds; the quantile is in
/// thousandths.
#[derive(Debug)]
pub struct ClientRequest {
    pub dataset_id: DatasetId,
    pub query: ParsedQuery,
    /// How many chunks may be in flight at once.
    pub buffer_size: usize,
    /// After how many chunks the request ends, if it is capped.
    pub max_chunks: Option<usize>,
    /// The least time that a worker is given for one chunk.
    pub chunk_timeout: u64,
    /// Which quantile of the recent response times sets the timeout, in
    /// thousandths between 0 and 1000.
    pub timeout_quantile: u16,
    /// How many workers are asked for one chunk at the same time.
    pub request_multiplier: usize,
    /// How many times a chunk is tried again.
    pub retries: usize,
}

impl Clone for ClientRequest {
    fn clone(&self) -> (res: Self)
        ensures
            res == *self,
    {
        ClientRequest {
            dataset_id: self.dataset_id.clone(),
            query: self.query.clone(),
            buffer_size: self.buffer_size,
            max_chunks: self.max_chunks,
            chunk_timeout: self.chunk_timeout,
            timeout_quantile: self.timeout_quantile,
            request_multiplier: self.request_multiplier,
            retries: self.retries,
        }
    }
}

} // verus!
