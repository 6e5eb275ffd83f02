//! The dispatch of one client request: which chunks are queried and with what
//! block range, how the attempts on one chunk follow each other, and in what
//! order the results reach the client.

use vstd::prelude::*;
use crate::allocations::AllocationsManager;
use crate::json::json_compact;
use crate::messages::WorkerReply;
use crate::network::client::NetworkClient;
use crate::network::state::deadline_elapsed;
use crate::network::storage::{
    chunks_ordered, covering_chunk, lemma_covering_chunk_is_unique, StorageClient,
};
use crate::request::{intersection, ranged_members, ClientRequest, ParsedQuery};
use crate::server::COMP_UNITS_PER_QUERY;
use crate::types::{DataChunk, DatasetId, PeerId, Range};

verus! {

/// Why a request ended without all of its data.
#[derive(Debug, PartialEq, Eq)]
pub enum RequestError {
    /// No chunk holds the first block, though the dataset reaches that far.
    NoData,
    /// The first block lies beyond the height of the dataset.
    OutOfRange,
    /// No eligible worker was found for a chunk.
    NoWorkers,
    /// Every worker that was tried on a chunk lacks compute units for this
    /// gateway.
    NoAllocation,
    /// The attempts on a chunk ended in errors.
    Exhausted,
    /// A worker rejected the query, with its words.
    BadRequest(String),
}

/// A chunk to query and the blocks of it that the client asked for.
#[derive(Clone, Debug, PartialEq, Eq)]
pub struct PlannedChunk {
    pub chunk: DataChunk,
    pub range: Range,
}

/// The blocks of a chunk as a range.
pub open spec fn range_of(chunk: DataChunk) -> Range {
    Range { begin: chunk.first_block, end: chunk.last_block }
}

/// The chunks that a request for the blocks from `first` to `last` queries,
/// each with the blocks asked of it, when the walk stands at `block` and may
/// still take `budget` chunks: the chunk that holds `block`, then the chunk that
/// holds the block after its last, and so on, until no chunk holds the next
/// block, a chunk holds no block that was asked for, or the budget is spent.
pub open spec fn planned(chunks: Seq<DataChunk>, block: int, first: u64, last: Option<u64>, budget: nat) -> Seq<
    (DataChunk, Range),
>
    decreases budget,
{
    if budget == 0 {
        Seq::empty()
    } else {
        match covering_chunk(chunks, block) {
            None => Seq::empty(),
            Some(c) => match intersection(first, last, range_of(c)) {
                None => Seq::empty(),
                Some(r) => seq![(c, r)] + planned(chunks, c.last_block + 1, first, last, (budget - 1) as nat),
            },
        }
    }
}

/// How many chunks a request may take: its cap, or as many as are known.
pub open spec fn chunk_budget(max_chunks: Option<usize>, known: nat) -> nat {
    match max_chunks {
        Some(m) => m as nat,
        None => known,
    }
}

/// A plan as pairs of chunk and range.
pub open spec fn plan_view(plan: Seq<PlannedChunk>) -> Seq<(DataChunk, Range)> {
    Seq::new(plan.len(), |i: int| (plan[i].chunk, plan[i].range))
}

/// Whether a chunk holds a block that a query for the blocks from `first` to
/// `last` asks for.
pub open spec fn is_asked(chunk: DataChunk, first: u64, last: Option<u64>) -> bool {
    intersection(first, last, range_of(chunk)) is Some
}

/// How many chunks from position `k` on, one after the other, hold blocks
/// that the query asks for.
pub open spec fn asked_run(chunks: Seq<DataChunk>, k: int, first: u64, last: Option<u64>) -> nat
    decreases chunks.len() - k,
{
    if k < 0 || k >= chunks.len() || !is_asked(chunks[k], first, last) {
        0
    } else {
        1 + asked_run(chunks, k + 1, first, last)
    }
}

/// Whether the index has no gap where the query looks: every chunk after
/// position `start` that holds a block asked for begins right after the chunk
/// before it ends.
pub open spec fn adjacent_where_asked(chunks: Seq<DataChunk>, start: int, first: u64, last: Option<u64>) -> bool {
    forall|j: int|
        start < j < chunks.len() && is_asked(#[trigger] chunks[j], first, last) ==> chunks[j - 1].last_block + 1
            == chunks[j].first_block
}

/// The chunks of `dataset` to query for `query`, in block order, each with the
/// blocks asked of it; at most `max_chunks` where that is given.
pub fn plan_chunks(storage: &StorageClient, dataset: &DatasetId, query: &ParsedQuery, max_chunks: Option<usize>) -> (plan:
    Vec<PlannedChunk>)
    requires
        storage.wf(),
    ensures
        plan_view(plan@) == planned(
            storage.chunks_of(dataset@),
            query.first() as int,
            query.first(),
            query.last(),
            chunk_budget(max_chunks, storage.chunks_of(dataset@).len()),
        ),
{
    let ghost chunks = storage.chunks_of(dataset@);
    let ghost first = query.first();
    let ghost last = query.last();
    let mut budget: usize = match max_chunks {
        Some(m) => m,
        None => storage.chunk_count(dataset),
    };
    let ghost total = planned(chunks, first as int, first, last, budget as nat);
    let mut plan: Vec<PlannedChunk> = Vec::new();
    let mut current = storage.find_chunk(dataset, query.first_block());
    let ghost mut block: int = first as int;
    let mut done = false;
    proof {
        assert(plan_view(plan@) + total =~= total);
    }
    while budget > 0 && !done
        invariant
            storage.wf(),
            chunks == storage.chunks_of(dataset@),
            first == query.first(),
            last == query.last(),
            current == covering_chunk(chunks, block),
            done ==> planned(chunks, block, first, last, budget as nat).len() == 0,
            total == plan_view(plan@) + planned(chunks, block, first, last, budget as nat),
        decreases budget + (if done { 0int } else { 1int }),
    {
        let ghost before = plan@;
        match current {
            None => {
                done = true;
            },
            Some(c) => {
                match query.intersect_with(&c.range()) {
                    None => {
                        current = Some(c);
                        done = true;
                    },
                    Some(range) => {
                        let next = storage.next_chunk(dataset, &c);
                        proof {
                            let rest = planned(chunks, c.last_block + 1, first, last, (budget - 1) as nat);
                            assert(planned(chunks, block, first, last, budget as nat) == seq![(c, range)] + rest);
                            block = c.last_block + 1;
                        }
                        plan.push(PlannedChunk { chunk: c, range });
                        proof {
                            assert(plan_view(plan@) =~= plan_view(before) + seq![(c, range)]);
                            assert(plan_view(plan@) + planned(chunks, block, first, last, (budget - 1) as nat)
                                =~= plan_view(before) + (seq![(c, range)] + planned(
                                chunks,
                                block,
                                first,
                                last,
                                (budget - 1) as nat,
                            )));
                        }
                        current = next;
                        budget = budget - 1;
                    },
                }
            },
        }
    }
    proof {
        assert(planned(chunks, block, first, last, budget as nat).len() == 0);
        assert(plan_view(plan@) + planned(chunks, block, first, last, budget as nat) =~= plan_view(plan@));
    }
    plan
}

/// One step of the walk: where a chunk holds `block` and blocks of it were
/// asked for, the plan is that chunk and then the plan from the block after it.
proof fn lemma_planned_step(chunks: Seq<DataChunk>, block: int, first: u64, last: Option<u64>, budget: nat)
    requires
        budget > 0,
        covering_chunk(chunks, block) is Some,
        intersection(first, last, range_of(covering_chunk(chunks, block).unwrap())) is Some,
    ensures
        planned(chunks, block, first, last, budget) == seq![
            (
                covering_chunk(chunks, block).unwrap(),
                intersection(first, last, range_of(covering_chunk(chunks, block).unwrap())).unwrap(),
            ),
        ] + planned(
            chunks,
            covering_chunk(chunks, block).unwrap().last_block + 1,
            first,
            last,
            (budget - 1) as nat,
        ),
{
}

/// Once a chunk at or after the chunk of the first block holds no block that
/// is asked for, none after it does.
proof fn lemma_not_asked_stays(chunks: Seq<DataChunk>, s: int, k: int, i: int, first: u64, last: Option<u64>)
    requires
        chunks_ordered(chunks),
        0 <= s <= k < i < chunks.len(),
        chunks[s].contains(first as int),
        !is_asked(chunks[k], first, last),
    ensures
        !is_asked(chunks[i], first, last),
{
    assert(chunks[k].last_block < chunks[i].first_block);
    assert(chunks[k].first_block <= chunks[k].last_block);
    assert(chunks[i].first_block <= chunks[i].last_block);
    if s < k {
        assert(chunks[s].last_block < chunks[k].first_block);
    }
}

/// From the chunk of the first block on, the chunks that hold blocks asked for
/// are exactly the first `asked_run` of them.
proof fn lemma_asked_run_is_exact(chunks: Seq<DataChunk>, s: int, k: int, first: u64, last: Option<u64>)
    requires
        chunks_ordered(chunks),
        0 <= s <= k <= chunks.len(),
        s < chunks.len(),
        chunks[s].contains(first as int),
    ensures
        k + asked_run(chunks, k, first, last) <= chunks.len(),
        forall|i: int|
            k <= i < chunks.len() ==> (is_asked(#[trigger] chunks[i], first, last) <==> i < k + asked_run(
                chunks,
                k,
                first,
                last,
            )),
    decreases chunks.len() - k,
{
    if k < chunks.len() {
        if is_asked(chunks[k], first, last) {
            lemma_asked_run_is_exact(chunks, s, k + 1, first, last);
        } else {
            assert forall|i: int| k <= i < chunks.len() implies !is_asked(#[trigger] chunks[i], first, last) by {
                if i > k {
                    lemma_not_asked_stays(chunks, s, k, i, first, last);
                }
            }
        }
    }
}

/// The walk from the chunk at position `k`, which holds `block`, over an
/// ordered index that has no gap where the query looks: it takes the chunks
/// from `k` on, one by one, as long as they hold blocks that were asked for and
/// the budget lasts.
proof fn lemma_walk(chunks: Seq<DataChunk>, s: int, k: int, block: int, first: u64, last: Option<u64>, budget: nat)
    requires
        chunks_ordered(chunks),
        adjacent_where_asked(chunks, s, first, last),
        0 <= s <= k < chunks.len(),
        chunks[k].contains(block),
    ensures
        ({
            let plan = planned(chunks, block, first, last, budget);
            let run = asked_run(chunks, k, first, last);
            &&& k + plan.len() <= chunks.len()
            &&& plan.len() == (if budget <= run {
                budget
            } else {
                run
            })
            &&& forall|j: int| 0 <= j < plan.len() ==> (#[trigger] plan[j]).0 == chunks[k + j]
            &&& forall|j: int|
                0 <= j < plan.len() ==> is_asked((#[trigger] plan[j]).0, first, last) && plan[j].1
                    == intersection(first, last, range_of(plan[j].0)).unwrap()
        }),
    decreases budget,
{
    lemma_covering_chunk_is_unique(chunks, block, k);
    let c = chunks[k];
    let plan = planned(chunks, block, first, last, budget);
    if budget == 0 {
        assert(plan.len() == 0);
    } else if !is_asked(c, first, last) {
        assert(plan.len() == 0);
        assert(asked_run(chunks, k, first, last) == 0);
    } else {
        let r = intersection(first, last, range_of(c)).unwrap();
        let next = c.last_block + 1;
        let rest = planned(chunks, next, first, last, (budget - 1) as nat);
        lemma_planned_step(chunks, block, first, last, budget);
        assert(plan == seq![(c, r)] + rest);
        assert(plan.len() == 1 + rest.len());
        assert(plan[0] == (c, r));
        assert forall|j: int| 1 <= j < plan.len() implies plan[j] == rest[j - 1] by {}
        assert(asked_run(chunks, k, first, last) == 1 + asked_run(chunks, k + 1, first, last));
        if k + 1 < chunks.len() && is_asked(chunks[k + 1], first, last) {
            assert(chunks[k + 1 - 1].last_block + 1 == chunks[k + 1].first_block);
            assert(chunks[k + 1].first_block <= chunks[k + 1].last_block);
            assert(chunks[k + 1].contains(next));
            lemma_walk(chunks, s, k + 1, next, first, last, (budget - 1) as nat);
            assert(k + 1 + rest.len() <= chunks.len());
            assert forall|j: int| 0 <= j < plan.len() implies (#[trigger] plan[j]).0 == chunks[k + j] by {
                if j > 0 {
                    assert(plan[j] == rest[j - 1]);
                    assert(rest[j - 1].0 == chunks[k + 1 + (j - 1)]);
                }
            }
            assert forall|j: int| 0 <= j < plan.len() implies is_asked((#[trigger] plan[j]).0, first, last)
                && plan[j].1 == intersection(first, last, range_of(plan[j].0)).unwrap() by {
                if j > 0 {
                    assert(plan[j] == rest[j - 1]);
                    assert(is_asked(rest[j - 1].0, first, last));
                }
            }
        } else {
            assert(asked_run(chunks, k + 1, first, last) == 0);
            if budget > 1 {
                lemma_walk_ends(chunks, k, first, last, (budget - 1) as nat);
            }
            assert(rest.len() == 0);
            assert forall|j: int| 0 <= j < plan.len() implies (#[trigger] plan[j]).0 == chunks[k + j] by {
                assert(j == 0);
            }
        }
    }
}

/// Where the chunk after position `k` holds no block that is asked for, or
/// there is none, the walk from the block after chunk `k` takes nothing.
proof fn lemma_walk_ends(chunks: Seq<DataChunk>, k: int, first: u64, last: Option<u64>, budget: nat)
    requires
        chunks_ordered(chunks),
        0 <= k < chunks.len(),
        k + 1 < chunks.len() ==> !is_asked(chunks[k + 1], first, last),
    ensures
        planned(chunks, chunks[k].last_block + 1, first, last, budget).len() == 0,
{
    let next = chunks[k].last_block + 1;
    if budget > 0 && covering_chunk(chunks, next) is Some {
        let i = choose|i: int| 0 <= i < chunks.len() && (#[trigger] chunks[i]).contains(next);
        assert(chunks[k].first_block <= chunks[k].last_block);
        if i < k {
            assert(chunks[i].last_block < chunks[k].first_block);
        }
        assert(i > k);
        if i > k + 1 {
            assert(chunks[k].last_block < chunks[k + 1].first_block);
            assert(chunks[k + 1].first_block <= chunks[k + 1].last_block);
            assert(chunks[k + 1].last_block < chunks[i].first_block);
        }
        assert(i == k + 1);
        lemma_covering_chunk_is_unique(chunks, next, i);
    }
}

/// Over an ordered index that has no gap where the query looks, a request
/// whose first block the chunk at position `start` holds queries the chunks that
/// hold a block it asks for: these are the `asked_run` chunks from `start` on,
/// and the plan is the first of them, as many as the cap allows and all of them
/// where the cap is not below their number, each once, in ascending block order,
/// each with exactly the blocks asked of it.
pub proof fn lemma_plan_is_the_intersecting_chunks(
    chunks: Seq<DataChunk>,
    start: int,
    first: u64,
    last: Option<u64>,
    budget: nat,
)
    requires
        chunks_ordered(chunks),
        0 <= start < chunks.len(),
        chunks[start].contains(first as int),
        adjacent_where_asked(chunks, start, first, last),
    ensures
        ({
            let plan = planned(chunks, first as int, first, last, budget);
            let run = asked_run(chunks, start, first, last);
            &&& forall|i: int|
                0 <= i < chunks.len() ==> (is_asked(#[trigger] chunks[i], first, last) <==> start <= i < start
                    + run)
            &&& plan.len() == (if budget <= run {
                budget
            } else {
                run
            })
            &&& forall|j: int| 0 <= j < plan.len() ==> (#[trigger] plan[j]).0 == chunks[start + j]
            &&& forall|j: int|
                0 <= j < plan.len() ==> (#[trigger] plan[j]).1 == intersection(first, last, range_of(plan[j].0)).unwrap()
            &&& forall|a: int, b: int|
                0 <= a < b < plan.len() ==> (#[trigger] plan[a]).0.last_block < (#[trigger] plan[b]).0.first_block
        }),
{
    let plan = planned(chunks, first as int, first, last, budget);
    lemma_walk(chunks, start, start, first as int, first, last, budget);
    lemma_asked_run_is_exact(chunks, start, start, first, last);
    assert forall|i: int| 0 <= i < start implies !is_asked(#[trigger] chunks[i], first, last) by {
        assert(chunks[i].last_block < chunks[start].first_block);
        assert(chunks[i].first_block <= chunks[i].last_block);
    }
    assert forall|a: int, b: int| 0 <= a < b < plan.len() implies (#[trigger] plan[a]).0.last_block < (
    #[trigger] plan[b]).0.first_block by {
        assert(plan[a].0 == chunks[start + a]);
        assert(plan[b].0 == chunks[start + b]);
        assert(chunks[start + a].last_block < chunks[start + b].first_block);
    }
}

/// Why a request whose first block no chunk holds fails: the block lies
/// beyond the height of the dataset, or the data is missing.
pub fn start_error(height: Option<u64>, first_block: u64) -> (e: RequestError)
    ensures
        e == (if height matches Some(top) && first_block > top {
            RequestError::OutOfRange
        } else {
            RequestError::NoData
        }),
{
    match height {
        Some(top) => if first_block > top {
            RequestError::OutOfRange
        } else {
            RequestError::NoData
        },
        None => RequestError::NoData,
    }
}

/// The chunk with which a request starts at `now`: the one that holds its first
/// block. Where there is none the request fails, see [`start_error`].
pub fn resolve_start(client: &NetworkClient, request: &ClientRequest, now: u64) -> (res: Result<DataChunk, RequestError>)
    requires
        client.wf(),
    ensures
        match covering_chunk(client.storage().chunks_of(request.dataset_id@), request.query.first() as int) {
            Some(c) => res == Ok::<DataChunk, RequestError>(c),
            None => res matches Err(e) && exists|height: Option<u64>| #[trigger]
                client.network().is_height(height, request.dataset_id@, now) && e == (if height matches Some(top)
                    && request.query.first() > top {
                    RequestError::OutOfRange
                } else {
                    RequestError::NoData
                }),
        },
{
    match client.find_chunk(&request.dataset_id, request.query.first_block()) {
        Some(c) => Ok(c),
        None => {
            let height = client.get_height(&request.dataset_id, now);
            Err(start_error(height, request.query.first_block()))
        },
    }
}

/// The chunks that `request` queries, see [`plan_chunks`].
pub fn plan_request(client: &NetworkClient, request: &ClientRequest) -> (plan: Vec<PlannedChunk>)
    requires
        client.wf(),
    ensures
        plan_view(plan@) == planned(
            client.storage().chunks_of(request.dataset_id@),
            request.query.first() as int,
            request.query.first(),
            request.query.last(),
            chunk_budget(request.max_chunks, client.storage().chunks_of(request.dataset_id@).len()),
        ),
{
    proof {
        client.lemma_wf();
    }
    plan_chunks(client.dataset_storage(), &request.dataset_id, &request.query, request.max_chunks)
}

/// The text of `query` to send for one planned chunk: the client's query with
/// its block range set to the blocks asked of the chunk.
pub fn effective_query(query: &ParsedQuery, planned: &PlannedChunk) -> (text: String)
    ensures
        text@ == json_compact(ranged_members(query.members(), planned.range)),
{
    query.with_range(&planned.range)
}

/// Reserves the compute unit for a query to `worker` at `now`, before the query
/// is sent. The registry is asked first whether the worker is known to lack
/// units; then the ledger is debited, and where it has none left the registry
/// notes that. A query whose sending fails afterwards gives its unit back through
/// [`AllocationsManager::release_cus`].
pub fn reserve_unit(allocations: &mut AllocationsManager, client: &mut NetworkClient, worker: &PeerId, now: u64) -> (reserved:
    bool)
    requires
        old(allocations).wf(),
        old(client).wf(),
    ensures
        final(allocations).wf(),
        final(client).wf(),
        final(client).storage() == old(client).storage(),
        final(client).tasks() == old(client).tasks(),
        reserved == (deadline_elapsed(old(client).network().state_of(worker@).missing_allocation_until, now)
            && old(allocations).remaining(worker@) >= COMP_UNITS_PER_QUERY),
        reserved ==> final(client).network() == old(client).network() && final(allocations).units() == old(
            allocations,
        ).units().insert(worker@, (old(allocations).remaining(worker@) - COMP_UNITS_PER_QUERY) as u32),
        !reserved ==> final(allocations).units() == old(allocations).units(),
        !reserved ==> (if deadline_elapsed(old(client).network().state_of(worker@).missing_allocation_until, now) {
            old(client).network().backed_off_to(&final(client).network(), worker@, now)
        } else {
            final(client).network() == old(client).network()
        }),
{
    proof {
        client.lemma_wf();
    }
    if !client.network_state().worker_has_allocation(worker, now) {
        return false;
    }
    if allocations.try_spend_cus(worker, COMP_UNITS_PER_QUERY) {
        true
    } else {
        client.no_allocation_for_worker(worker, now);
        false
    }
}

/// How long the selection of a worker waits before it looks again, in
/// milliseconds.
pub const SELECTION_BACKOFF_MS: u64 = 100;

/// How many times a full queue is retried for one chunk.
pub const SEND_RETRIES: usize = 16;

/// What the selection of a worker for a chunk came to.
#[derive(Debug, PartialEq, Eq)]
pub enum Selection {
    /// This worker is to be asked.
    Worker(PeerId),
    /// No worker is eligible now: look again after so many milliseconds.
    Backoff(u64),
    /// The chunk has failed.
    Failed(RequestError),
}

/// How one attempt on a chunk ended.
#[derive(Debug, PartialEq, Eq)]
pub enum AttemptOutcome {
    /// The worker answered.
    Reply(WorkerReply),
    /// The timeout fired first.
    TimedOut,
    /// The network never delivered the query.
    Dropped,
    /// No compute unit could be reserved at the worker.
    NoUnits,
    /// The network did not take the query: its queue was full.
    QueueFull,
}

/// What follows an attempt on a chunk.
#[derive(Debug, PartialEq, Eq)]
pub enum Verdict {
    /// The chunk is done, with its data.
    Done(Vec<u8>),
    /// Another worker is to be selected.
    Retry,
    /// The chunk has failed.
    Failed(RequestError),
}

/// What is recorded of the attempts on one chunk.
pub struct AttemptsView {
    /// The workers that are left out of the selection, in the order in which
    /// they were selected.
    pub tried: Seq<PeerId>,
    /// How many more times an error or an empty selection may be retried.
    pub retries_left: nat,
    /// How many more times a full queue may be retried.
    pub send_retries_left: nat,
    /// Whether a worker was ever selected.
    pub found: bool,
    /// Whether an attempt ended in anything but a want of compute units.
    pub saw_error: bool,
}

/// Why a chunk fails once no worker is left to select: no worker was ever
/// found, or all that were tried lack compute units, or attempts ended in errors.
pub open spec fn selection_failure(found: bool, saw_error: bool) -> RequestError {
    if !found {
        RequestError::NoWorkers
    } else if saw_error {
        RequestError::Exhausted
    } else {
        RequestError::NoAllocation
    }
}

/// The attempts on one chunk: the workers tried so far and the retries that
/// are left.
pub struct ChunkAttempts {
    tried: Vec<PeerId>,
    retries_left: usize,
    send_retries_left: usize,
    found: bool,
    saw_error: bool,
}

impl ChunkAttempts {
    /// What is recorded.
    pub closed spec fn view(&self) -> AttemptsView {
        AttemptsView {
            tried: self.tried@,
            retries_left: self.retries_left as nat,
            send_retries_left: self.send_retries_left as nat,
            found: self.found,
            saw_error: self.saw_error,
        }
    }

    /// The attempts on a chunk that was not tried yet.
    pub fn new(retries: usize, send_retries: usize) -> (a: ChunkAttempts)
        ensures
            a@ == (AttemptsView {
                tried: Seq::empty(),
                retries_left: retries as nat,
                send_retries_left: send_retries as nat,
                found: false,
                saw_error: false,
            }),
    {
        ChunkAttempts {
            tried: Vec::new(),
            retries_left: retries,
            send_retries_left: send_retries,
            found: false,
            saw_error: false,
        }
    }

    /// The attempts on a chunk of `request`: with the retries that the request
    /// asks for, and the send retries that every chunk has.
    pub fn for_request(request: &ClientRequest) -> (a: ChunkAttempts)
        ensures
            a@ == (AttemptsView {
                tried: Seq::empty(),
                retries_left: request.retries as nat,
                send_retries_left: SEND_RETRIES as nat,
                found: false,
                saw_error: false,
            }),
    {
        Self::new(request.retries, SEND_RETRIES)
    }

    /// How many workers are left out of the selection.
    pub fn tried_count(&self) -> (n: usize)
        ensures
            n == self@.tried.len(),
    {
        self.tried.len()
    }

    /// How many more times an error or an empty selection may be retried.
    pub fn retries_left(&self) -> (n: usize)
        ensures
            n == self@.retries_left,
    {
        self.retries_left
    }

    /// Selects the worker for the next attempt on `chunk` at `now`: the eligible
    /// worker that the registry prefers among those not tried on this chunk. Where
    /// none is eligible a retry is spent on waiting; where no retry is left the
    /// chunk fails, see [`selection_failure`].
    pub fn select(&mut self, client: &NetworkClient, dataset: &DatasetId, chunk: &DataChunk, now: u64) -> (res:
        Selection)
        requires
            client.wf(),
        ensures
            match res {
                Selection::Worker(w) => {
                    &&& client.network().is_selection(
                        Some(w),
                        dataset@,
                        chunk.first_block as u64,
                        now,
                        old(self)@.tried,
                    )
                    &&& final(self)@ == (AttemptsView { tried: old(self)@.tried.push(w), found: true, ..old(self)@ })
                },
                Selection::Backoff(wait) => {
                    &&& client.network().is_selection(None, dataset@, chunk.first_block as u64, now, old(self)@.tried)
                    &&& wait == SELECTION_BACKOFF_MS
                    &&& old(self)@.retries_left > 0
                    &&& final(self)@ == (AttemptsView {
                        retries_left: (old(self)@.retries_left - 1) as nat,
                        ..old(self)@
                    })
                },
                Selection::Failed(e) => {
                    &&& client.network().is_selection(None, dataset@, chunk.first_block as u64, now, old(self)@.tried)
                    &&& old(self)@.retries_left == 0
                    &&& e == selection_failure(old(self)@.found, old(self)@.saw_error)
                    &&& final(self)@ == old(self)@
                },
            },
    {
        match client.find_worker_excluding(dataset, chunk, now, &self.tried) {
            Some(w) => {
                self.tried.push(w.clone());
                self.found = true;
                Selection::Worker(w)
            },
            None => {
                if self.retries_left > 0 {
                    self.retries_left = self.retries_left - 1;
                    Selection::Backoff(SELECTION_BACKOFF_MS)
                } else if !self.found {
                    Selection::Failed(RequestError::NoWorkers)
                } else if self.saw_error {
                    Selection::Failed(RequestError::Exhausted)
                } else {
                    Selection::Failed(RequestError::NoAllocation)
                }
            },
        }
    }

    /// What follows an attempt that spends a retry: another selection where a
    /// retry is left, else the failure of the chunk.
    pub open spec fn after_error(before: AttemptsView, after: AttemptsView, res: Verdict) -> bool {
        if before.retries_left > 0 {
            res == Verdict::Retry && after == (AttemptsView {
                retries_left: (before.retries_left - 1) as nat,
                saw_error: true,
                ..before
            })
        } else {
            res == Verdict::Failed(RequestError::Exhausted) && after == (AttemptsView { saw_error: true, ..before })
        }
    }

    /// What follows a query that the network did not take: where a send retry is
    /// left, another selection in which the worker may be found again.
    pub open spec fn after_full_queue(before: AttemptsView, after: AttemptsView, res: Verdict) -> bool {
        if before.send_retries_left > 0 {
            res == Verdict::Retry && after == (AttemptsView {
                send_retries_left: (before.send_retries_left - 1) as nat,
                tried: if before.tried.len() > 0 {
                    before.tried.drop_last()
                } else {
                    before.tried
                },
                saw_error: true,
                ..before
            })
        } else {
            res == Verdict::Failed(RequestError::Exhausted) && after == (AttemptsView { saw_error: true, ..before })
        }
    }

    /// Decides what follows an attempt. Data ends the chunk, a rejected query
    /// fails it. A worker without compute units leads to another worker at no
    /// cost, and so does a dropped query, which counts as an error. An error of the
    /// worker or a timeout spends a retry, and fails the chunk where none is left. A
    /// full queue spends one of the send retries, and the worker may be asked again.
    pub fn on_outcome(&mut self, outcome: AttemptOutcome) -> (res: Verdict)
        ensures
            match outcome {
                AttemptOutcome::Reply(WorkerReply::Success(data)) => res == Verdict::Done(data) && final(self)@
                    == old(self)@,
                AttemptOutcome::Reply(WorkerReply::BadRequest(words)) => res == Verdict::Failed(
                    RequestError::BadRequest(words),
                ) && final(self)@ == old(self)@,
                AttemptOutcome::Reply(WorkerReply::NoAllocation) | AttemptOutcome::NoUnits => res == Verdict::Retry
                    && final(self)@ == old(self)@,
                AttemptOutcome::Dropped => res == Verdict::Retry && final(self)@ == (AttemptsView {
                    saw_error: true,
                    ..old(self)@
                }),
                AttemptOutcome::QueueFull => Self::after_full_queue(old(self)@, final(self)@, res),
                AttemptOutcome::Reply(WorkerReply::ServerError(_)) | AttemptOutcome::Reply(WorkerReply::Timeout)
                | AttemptOutcome::TimedOut => Self::after_error(old(self)@, final(self)@, res),
            },
    {
        match outcome {
            AttemptOutcome::Reply(WorkerReply::Success(data)) => Verdict::Done(data),
            AttemptOutcome::Reply(WorkerReply::BadRequest(words)) => Verdict::Failed(RequestError::BadRequest(words)),
            AttemptOutcome::Reply(WorkerReply::NoAllocation) => Verdict::Retry,
            AttemptOutcome::NoUnits => Verdict::Retry,
            AttemptOutcome::Dropped => {
                self.saw_error = true;
                Verdict::Retry
            },
            AttemptOutcome::QueueFull => {
                self.saw_error = true;
                if self.send_retries_left > 0 {
                    self.send_retries_left = self.send_retries_left - 1;
                    if self.tried.len() > 0 {
                        let _ = self.tried.pop();
                    }
                    Verdict::Retry
                } else {
                    Verdict::Failed(RequestError::Exhausted)
                }
            },
            AttemptOutcome::Reply(WorkerReply::ServerError(_)) | AttemptOutcome::Reply(WorkerReply::Timeout)
            | AttemptOutcome::TimedOut => {
                self.saw_error = true;
                if self.retries_left > 0 {
                    self.retries_left = self.retries_left - 1;
                    Verdict::Retry
                } else {
                    Verdict::Failed(RequestError::Exhausted)
                }
            },
        }
    }
}

/// Why the output buffer refused a result.
#[derive(Clone, Copy, Debug, PartialEq, Eq, Structural)]
pub enum BufferError {
    /// The chunk was handed out before, or lies beyond the chunks that may be in
    /// flight.
    OutOfWindow,
    /// A result for the chunk is already held.
    Duplicate,
}

/// What a slot of the buffer holds.
pub open spec fn slot_view(slot: Option<Vec<u8>>) -> Option<Seq<u8>> {
    match slot {
        Some(data) => Some(data@),
        None => None,
    }
}

/// How many slots at the start of `slots` hold a result.
pub open spec fn ready_count(slots: Seq<Option<Seq<u8>>>) -> nat
    decreases slots.len(),
{
    if slots.len() == 0 || slots[0] is None {
        0
    } else {
        1 + ready_count(slots.skip(1))
    }
}

/// The slots once the slot at `offset` holds `data`; slots between the end and
/// `offset` are added empty.
pub open spec fn filled(slots: Seq<Option<Seq<u8>>>, offset: int, data: Seq<u8>) -> Seq<Option<Seq<u8>>> {
    if offset < slots.len() {
        slots.update(offset, Some(data))
    } else {
        (slots + Seq::new((offset - slots.len()) as nat, |i: int| None::<Seq<u8>>)).push(Some(data))
    }
}

/// The results of the chunks in flight, held until they can go to the client
/// in chunk order. Chunks are numbered from zero in the order of the plan.
pub struct OutputBuffer {
    emitted: usize,
    window: Vec<Option<Vec<u8>>>,
    capacity: usize,
}

impl OutputBuffer {
    /// How many chunks went to the client: the number of the chunk that goes
    /// next.
    pub closed spec fn emitted(&self) -> nat {
        self.emitted as nat
    }

    /// How many chunks may be in flight.
    pub closed spec fn capacity(&self) -> nat {
        self.capacity as nat
    }

    /// The slots of the chunks from the next one on: what is held for each.
    pub closed spec fn slots(&self) -> Seq<Option<Seq<u8>>> {
        Seq::new(self.window@.len(), |i: int| slot_view(self.window@[i]))
    }

    /// The chunk that goes next is never held: it would have gone. No slot lies
    /// beyond the chunks that may be in flight.
    pub closed spec fn wf(&self) -> bool {
        &&& self.window@.len() <= self.capacity
        &&& self.window@.len() > 0 ==> self.window@[0] is None
        &&& self.emitted + self.window@.len() <= usize::MAX
    }

    /// In a consistent buffer the next chunk is awaited.
    pub proof fn lemma_next_is_awaited(&self)
        requires
            self.wf(),
        ensures
            self.slots().len() <= self.capacity(),
            ready_count(self.slots()) == 0,
    {
    }

    /// A buffer for at most `buffer_size` chunks in flight, and never more than
    /// `max_buffer_size`.
    pub fn new(buffer_size: usize, max_buffer_size: usize) -> (b: OutputBuffer)
        ensures
            b.wf(),
            b.emitted() == 0,
            b.slots().len() == 0,
            b.capacity() == (if buffer_size <= max_buffer_size {
                buffer_size
            } else {
                max_buffer_size
            }),
    {
        let capacity = if buffer_size <= max_buffer_size {
            buffer_size
        } else {
            max_buffer_size
        };
        OutputBuffer { emitted: 0, window: Vec::new(), capacity }
    }

    /// The number of the chunk that goes to the client next.
    pub fn next_index(&self) -> (n: usize)
        ensures
            n == self.emitted(),
    {
        self.emitted
    }

    /// Whether the chunk number `index` may be in flight now.
    pub fn can_start(&self, index: usize) -> (b: bool)
        ensures
            b == (self.emitted() <= index < self.emitted() + self.capacity() && index < usize::MAX),
    {
        index >= self.emitted && index - self.emitted < self.capacity && index < usize::MAX
    }

    /// Takes the result of the chunk number `index` and returns what can go to
    /// the client now: the results from the next chunk on, in chunk order, up to
    /// the first chunk that is still awaited.
    pub fn complete(&mut self, index: usize, data: Vec<u8>) -> (res: Result<Vec<Vec<u8>>, BufferError>)
        requires
            old(self).wf(),
        ensures
            final(self).wf(),
            final(self).capacity() == old(self).capacity(),
            !(old(self).emitted() <= index < old(self).emitted() + old(self).capacity() && index < usize::MAX)
                ==> res == Err::<Vec<Vec<u8>>, BufferError>(BufferError::OutOfWindow),
            old(self).emitted() <= index < old(self).emitted() + old(self).capacity() && index < usize::MAX
                && index - old(self).emitted() < old(self).slots().len() && old(self).slots()[index - old(
                self,
            ).emitted()] is Some ==> res == Err::<Vec<Vec<u8>>, BufferError>(BufferError::Duplicate),
            old(self).emitted() <= index < old(self).emitted() + old(self).capacity() && index < usize::MAX && !(index
                - old(self).emitted() < old(self).slots().len() && old(self).slots()[index - old(self).emitted()]
                is Some) ==> res is Ok,
            res is Err ==> final(self).emitted() == old(self).emitted() && final(self).slots() == old(self).slots(),
            res matches Ok(released) ==> {
                let all = filled(old(self).slots(), index - old(self).emitted(), data@);
                let n = ready_count(all);
                &&& released@.len() == n
                &&& forall|k: int| 0 <= k < n ==> all[k] == Some((#[trigger] released@[k])@)
                &&& final(self).emitted() == old(self).emitted() + n
                &&& final(self).slots() == all.skip(n as int)
            },
    {
        if index < self.emitted || index - self.emitted >= self.capacity || index == usize::MAX {
            return Err(BufferError::OutOfWindow);
        }
        let offset: usize = index - self.emitted;
        if offset < self.window.len() && self.window[offset].is_some() {
            return Err(BufferError::Duplicate);
        }
        let ghost before = self.slots();
        let ghost start = self.emitted;
        proof {
            assert(before + Seq::new(0nat, |i: int| None::<Seq<u8>>) =~= before);
        }
        while self.window.len() <= offset
            invariant
                self.emitted == start,
                self.capacity == old(self).capacity,
                offset < self.capacity,
                before.len() <= self.window@.len(),
                self.window@.len() <= offset + 1 || self.window@.len() == before.len(),
                self.window@.len() > 0 ==> self.window@[0] is None,
                self.slots() == before + Seq::new((self.window@.len() - before.len()) as nat, |i: int| None::<Seq<u8>>),
            decreases offset + 1 - self.window@.len(),
        {
            let ghost prev = self.slots();
            self.window.push(None);
            proof {
                assert(self.slots() =~= prev.push(None));
                assert(prev.push(None) =~= before + Seq::new(
                    (self.window@.len() - before.len()) as nat,
                    |i: int| None::<Seq<u8>>,
                ));
            }
        }
        let ghost padded = self.slots();
        self.window.set(offset, Some(data));
        let ghost all = filled(before, offset as int, data@);
        proof {
            assert(self.slots() =~= padded.update(offset as int, Some(data@)));
            if offset < before.len() {
                assert(padded =~= before);
            } else {
                assert(padded.update(offset as int, Some(data@)) =~= (before + Seq::new(
                    (offset - before.len()) as nat,
                    |i: int| None::<Seq<u8>>,
                )).push(Some(data@)));
            }
            assert(self.slots() =~= all);
        }
        let mut released: Vec<Vec<u8>> = Vec::new();
        proof {
            assert(all.skip(0) =~= all);
        }
        while self.window.len() > 0 && self.window[0].is_some()
            invariant
                self.capacity == old(self).capacity,
                self.window@.len() <= self.capacity,
                self.emitted == start + released@.len(),
                start + all.len() <= usize::MAX,
                released@.len() <= all.len(),
                self.slots() == all.skip(released@.len() as int),
                ready_count(all) == released@.len() + ready_count(self.slots()),
                forall|k: int| 0 <= k < released@.len() ==> all[k] == Some((#[trigger] released@[k])@),
            decreases self.window@.len(),
        {
            let ghost held = self.slots();
            let ghost count = released@.len();
            let item = self.window.remove(0);
            proof {
                assert(held[0] == slot_view(item));
                assert(self.slots() =~= held.skip(1));
                assert(held.skip(1) =~= all.skip(count as int + 1));
                assert(all[count as int] == held[0]);
            }
            match item {
                Some(data) => {
                    released.push(data);
                },
                None => {},
            }
            self.emitted = self.emitted + 1;
        }
        proof {
            assert(ready_count(self.slots()) == 0);
        }
        Ok(released)
    }
}

/// What the buffer hands out goes to the client in chunk order: the results
/// of one call are those of the chunks numbered from the next one on, without a
/// gap, and the chunk after them is still awaited.
pub proof fn lemma_output_is_in_chunk_order(slots: Seq<Option<Seq<u8>>>, k: int)
    requires
        0 <= k < ready_count(slots),
    ensures
        ready_count(slots) <= slots.len(),
        slots[k] is Some,
        ready_count(slots) < slots.len() ==> slots[ready_count(slots) as int] is None,
{
    lemma_ready_count(slots);
}

proof fn lemma_ready_count(slots: Seq<Option<Seq<u8>>>)
    ensures
        ready_count(slots) <= slots.len(),
        forall|k: int| 0 <= k < ready_count(slots) ==> (#[trigger] slots[k]) is Some,
        ready_count(slots) < slots.len() ==> slots[ready_count(slots) as int] is None,
    decreases slots.len(),
{
    if slots.len() == 0 || slots[0] is None {
    } else {
        lemma_ready_count(slots.skip(1));
        assert forall|k: int| 0 <= k < ready_count(slots) implies (#[trigger] slots[k]) is Some by {
            if k > 0 {
                assert(slots.skip(1)[k - 1] == slots[k]);
            }
        }
        if ready_count(slots) < slots.len() {
            assert(slots.skip(1)[ready_count(slots.skip(1)) as int] == slots[ready_count(slots) as int]);
        }
    }
}

} // verus!
