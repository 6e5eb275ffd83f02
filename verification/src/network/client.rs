//! The network client: the worker registry, the chunk index and the queries
//! that wait for a worker's reply.

use vstd::prelude::*;
use crate::messages::{GatewayEvent, Ping, Query, QueryResult, WorkerReply};
use crate::network::state::{settings_error, NetworkState, StateError, StateSettings, WorkerView};
use crate::network::storage::{covering_chunk, StorageClient, StorageError};
use crate::table::Table;
use crate::types::{generate_query_id, DataChunk, DatasetId, PeerId};
use crate::version::SupportedVersions;

verus! {

/// A query that was handed to the network and is not yet settled.
struct QueryTask {
    worker_id: PeerId,
}

/// Why the client could not be made, or did not act on a message.
#[derive(Clone, Copy, Debug, PartialEq, Eq, Structural)]
pub enum ClientError {
    /// A bucket URL of the configuration does not begin with `s3://`.
    WrongBucketUrl,
    /// The lowest worker priority is above the highest.
    PriorityBoundsInverted,
    /// The greylist duration or the allocation backoff is zero.
    ZeroDuration,
    /// A worker's message holds no reply.
    ResultMissing,
    /// No query with this identifier waits for a reply.
    UnknownQuery,
    /// The reply came from another peer than the one that was asked.
    InvalidSender,
    /// The identifier names a query that still waits.
    IdentifierInUse,
}

/// A reply that settles a query: it goes to whoever waits for `query_id`.
#[derive(Debug, PartialEq, Eq)]
pub struct Delivery {
    pub query_id: String,
    pub reply: WorkerReply,
}

/// What became of an event from the network.
#[derive(Debug, PartialEq, Eq)]
pub enum ClientOutcome {
    /// A ping, and whether it was taken.
    Pinged(bool),
    /// A worker's reply.
    Replied(Result<Delivery, ClientError>),
    /// A query that the network dropped: the worker that was asked.
    Dropped(Result<PeerId, ClientError>),
}

/// Whether `message` carries `query` for `dataset` under `query_id`.
pub open spec fn is_chunk_query(message: Query, query_id: Seq<char>, dataset: Seq<char>, query: Seq<char>) -> bool {
    &&& message.query_id@ == query_id
    &&& message.dataset@ == dataset
    &&& message.query@ == query
    &&& message.client_state_json@ == "{}"@
    &&& message.profiling is None
    &&& message.signature@.len() == 0
    &&& message.block_range is None
}

/// Tracks the network state and the queries in flight.
pub struct NetworkClient {
    network_state: NetworkState,
    tasks: Table<QueryTask>,
    dataset_storage: StorageClient,
}

impl NetworkClient {
    /// The worker registry.
    pub closed spec fn network(&self) -> NetworkState {
        self.network_state
    }

    /// The chunk index.
    pub closed spec fn storage(&self) -> StorageClient {
        self.dataset_storage
    }

    /// The queries in flight: for each identifier the worker that was asked.
    pub closed spec fn tasks(&self) -> Map<Seq<char>, Seq<char>> {
        Map::new(|k: Seq<char>| self.tasks@.contains_key(k), |k: Seq<char>| self.tasks@[k].worker_id@)
    }

    /// The client is consistent.
    pub closed spec fn wf(&self) -> bool {
        &&& self.network_state.wf()
        &&& self.tasks.wf()
        &&& self.dataset_storage.wf()
    }

    /// In a consistent client the registry and the index are consistent.
    pub proof fn lemma_wf(&self)
        requires
            self.wf(),
        ensures
            self.network().wf(),
            self.storage().wf(),
    {
    }

    /// A client for the datasets in `buckets`, with the workers of `roster` in
    /// its registry and no query in flight.
    pub fn new(buckets: &Vec<String>, versions: SupportedVersions, settings: StateSettings, roster: &Vec<PeerId>) -> (res:
        Result<NetworkClient, ClientError>)
        ensures
            res matches Ok(c) ==> {
                &&& c.wf()
                &&& c.tasks() == Map::<Seq<char>, Seq<char>>::empty()
                &&& c.network().versions() == versions
                &&& c.network().settings() == settings
                &&& forall|p: Seq<char>|
                    c.network().workers().contains_key(p) <==> exists|i: int|
                        0 <= i < roster.len() && (#[trigger] roster[i])@ == p
                &&& forall|p: Seq<char>| #[trigger]
                    c.network().workers().contains_key(p) ==> c.network().workers()[p] == WorkerView::unknown(
                        c.network().initial_priority(),
                    )
                &&& forall|id: Seq<char>|
                    c.storage().has_dataset(id) <==> crate::network::storage::last_bucket_for(buckets@, id) >= 0
                &&& forall|id: Seq<char>| c.storage().chunks_of(id).len() == 0
            },
            res is Err <==> !crate::network::storage::buckets_valid(buckets@, buckets.len() as int)
                || settings_error(settings) is Some,
            res matches Err(e) ==> e == (if !crate::network::storage::buckets_valid(
                buckets@,
                buckets.len() as int,
            ) {
                ClientError::WrongBucketUrl
            } else if settings_error(settings) == Some(StateError::PriorityBoundsInverted) {
                ClientError::PriorityBoundsInverted
            } else {
                ClientError::ZeroDuration
            }),
    {
        let dataset_storage = match StorageClient::new(buckets) {
            Ok(s) => s,
            Err(_) => {
                return Err(ClientError::WrongBucketUrl);
            },
        };
        let network_state = match NetworkState::new(versions, settings, roster) {
            Ok(s) => s,
            Err(StateError::PriorityBoundsInverted) => {
                return Err(ClientError::PriorityBoundsInverted);
            },
            Err(StateError::ZeroDuration) => {
                return Err(ClientError::ZeroDuration);
            },
        };
        let c = NetworkClient { network_state, tasks: Table::new(), dataset_storage };
        proof {
            assert(c.tasks() =~= Map::<Seq<char>, Seq<char>>::empty());
        }
        Ok(c)
    }

    /// The worker registry, to read.
    pub fn network_state(&self) -> (n: &NetworkState)
        ensures
            *n == self.network(),
    {
        &self.network_state
    }

    /// The chunk index, to read.
    pub fn dataset_storage(&self) -> (s: &StorageClient)
        ensures
            *s == self.storage(),
    {
        &self.dataset_storage
    }

    /// Appends to the dataset `id` the chunks that a listing of its bucket gave;
    /// see [`StorageClient::update`].
    pub fn update_chunks(&mut self, id: &DatasetId, listed: &Vec<DataChunk>) -> (res: Result<usize, StorageError>)
        requires
            old(self).wf(),
        ensures
            final(self).wf(),
            final(self).network() == old(self).network(),
            final(self).tasks() == old(self).tasks(),
            forall|other: Seq<char>| final(self).storage().has_dataset(other) == old(self).storage().has_dataset(other),
            forall|other: Seq<char>|
                other != id@ ==> final(self).storage().chunks_of(other) == old(self).storage().chunks_of(other),
            !old(self).storage().has_dataset(id@) ==> res == Err::<usize, StorageError>(StorageError::UnknownDataset)
                && final(self).storage().chunks_of(id@) == old(self).storage().chunks_of(id@),
            old(self).storage().has_dataset(id@) ==> {
                let known = old(self).storage().chunks_of(id@);
                let count = crate::network::storage::accepted_count(known, listed@);
                &&& count <= listed.len()
                &&& final(self).storage().chunks_of(id@) == known + listed@.subrange(0, count as int)
                &&& count == listed.len() ==> res == Ok::<usize, StorageError>(listed.len())
                &&& count < listed.len() ==> res == Err::<usize, StorageError>(StorageError::ChunkOutOfOrder)
            },
    {
        self.dataset_storage.update(id, listed)
    }

    /// The chunk of `dataset` that holds `block`.
    pub fn find_chunk(&self, dataset: &DatasetId, block: u64) -> (res: Option<DataChunk>)
        requires
            self.wf(),
        ensures
            res == covering_chunk(self.storage().chunks_of(dataset@), block as int),
    {
        self.dataset_storage.find_chunk(dataset, block)
    }

    /// The chunk of `dataset` that holds the block after the last of `chunk`.
    pub fn next_chunk(&self, dataset: &DatasetId, chunk: &DataChunk) -> (res: Option<DataChunk>)
        requires
            self.wf(),
        ensures
            res == covering_chunk(self.storage().chunks_of(dataset@), chunk.last_block + 1),
    {
        self.dataset_storage.next_chunk(dataset, chunk)
    }

    /// The worker to ask for `chunk` of `dataset` at `now`: the one that the
    /// registry selects for the first block of the chunk.
    pub fn find_worker(&self, dataset: &DatasetId, chunk: &DataChunk, now: u64) -> (res: Option<PeerId>)
        requires
            self.wf(),
        ensures
            self.network().is_selection(res, dataset@, chunk.first_block as u64, now, Seq::empty()),
    {
        self.network_state.find_worker(dataset, chunk.first_block as u64, now)
    }

    /// As [`NetworkClient::find_worker`], leaving out the workers in `excluded`.
    pub fn find_worker_excluding(&self, dataset: &DatasetId, chunk: &DataChunk, now: u64, excluded: &Vec<PeerId>) -> (res:
        Option<PeerId>)
        requires
            self.wf(),
        ensures
            self.network().is_selection(res, dataset@, chunk.first_block as u64, now, excluded@),
    {
        self.network_state.find_worker_excluding(dataset, chunk.first_block as u64, now, excluded)
    }

    /// The height of `dataset` at `now`.
    pub fn get_height(&self, dataset: &DatasetId, now: u64) -> (h: Option<u64>)
        requires
            self.wf(),
        ensures
            self.network().is_height(h, dataset@, now),
    {
        self.network_state.get_height(dataset, now)
    }

    /// Makes the message that asks `worker` for `query` on `dataset`, under a
    /// random identifier, and notes that the query waits for that worker. The
    /// identifier named no waiting query; where it did, nothing is done.
    pub fn query_worker(&mut self, worker: &PeerId, dataset: &DatasetId, query: String) -> (res: Result<
        Query,
        ClientError,
    >)
        requires
            old(self).wf(),
        ensures
            final(self).wf(),
            final(self).network() == old(self).network(),
            final(self).storage() == old(self).storage(),
            match res {
                Ok(message) => {
                    &&& !old(self).tasks().contains_key(message.query_id@)
                    &&& is_chunk_query(message, message.query_id@, dataset@, query@)
                    &&& final(self).tasks() == old(self).tasks().insert(message.query_id@, worker@)
                },
                Err(e) => {
                    &&& e == ClientError::IdentifierInUse
                    &&& final(self).tasks() == old(self).tasks()
                    &&& exists|id: Seq<char>| #[trigger] old(self).tasks().contains_key(id)
                },
            },
    {
        let query_id = generate_query_id();
        self.query_worker_as(query_id, worker, dataset, query)
    }

    /// As [`NetworkClient::query_worker`], under the identifier `query_id`.
    pub fn query_worker_as(&mut self, query_id: String, worker: &PeerId, dataset: &DatasetId, query: String) -> (res:
        Result<Query, ClientError>)
        requires
            old(self).wf(),
        ensures
            final(self).wf(),
            final(self).network() == old(self).network(),
            final(self).storage() == old(self).storage(),
            res is Err <==> old(self).tasks().contains_key(query_id@),
            match res {
                Ok(message) => {
                    &&& is_chunk_query(message, query_id@, dataset@, query@)
                    &&& final(self).tasks() == old(self).tasks().insert(query_id@, worker@)
                },
                Err(e) => e == ClientError::IdentifierInUse && final(self).tasks() == old(self).tasks(),
            },
    {
        if self.tasks.index_of(&query_id).is_some() {
            return Err(ClientError::IdentifierInUse);
        }
        let ghost before = *self;
        self.tasks.insert(query_id.clone(), QueryTask { worker_id: worker.clone() });
        proof {
            assert(self.tasks() =~= before.tasks().insert(query_id@, worker@));
        }
        Ok(
            Query {
                dataset: dataset.to_string(),
                query_id,
                query,
                client_state_json: "{}".to_owned(),
                profiling: None,
                signature: Vec::new(),
                block_range: None,
            },
        )
    }

    /// The worker that the query `query_id` waits for.
    pub fn task_worker(&self, query_id: &String) -> (w: Option<PeerId>)
        requires
            self.wf(),
        ensures
            w is Some <==> self.tasks().contains_key(query_id@),
            w matches Some(p) ==> p@ == self.tasks()[query_id@],
    {
        match self.tasks.get(query_id) {
            Some(task) => Some(task.worker_id.clone()),
            None => None,
        }
    }

    /// Closes the query `query_id` without a word on its worker: the network
    /// did not take the message, or dropped it. Returns the worker that was asked.
    pub fn query_dropped(&mut self, query_id: &String) -> (res: Result<PeerId, ClientError>)
        requires
            old(self).wf(),
        ensures
            final(self).wf(),
            final(self).storage() == old(self).storage(),
            old(self).drop_handled(final(self), query_id@, res),
    {
        let ghost before = *self;
        let removed = self.tasks.remove(query_id);
        proof {
            assert(self.tasks() =~= before.tasks().remove(query_id@));
        }
        match removed {
            Some(task) => {
                proof {
                    assert(before.tasks().contains_key(query_id@));
                    assert(before.tasks()[query_id@] == task.worker_id@);
                }
                Ok(task.worker_id)
            },
            None => Err(ClientError::UnknownQuery),
        }
    }

    /// The timeout of the query `query_id` fired at `now`: the query is closed
    /// and its worker greylisted. Returns that worker.
    pub fn handle_timeout(&mut self, query_id: &String, now: u64) -> (res: Result<PeerId, ClientError>)
        requires
            old(self).wf(),
        ensures
            final(self).wf(),
            final(self).storage() == old(self).storage(),
            final(self).tasks() == old(self).tasks().remove(query_id@),
            match res {
                Ok(worker) => {
                    &&& old(self).tasks().contains_key(query_id@)
                    &&& worker@ == old(self).tasks()[query_id@]
                    &&& old(self).network().greylisted_to(&final(self).network(), worker@, now)
                },
                Err(e) => e == ClientError::UnknownQuery && !old(self).tasks().contains_key(query_id@)
                    && final(self).network() == old(self).network(),
            },
    {
        let ghost before = *self;
        let removed = self.tasks.remove(query_id);
        proof {
            assert(self.tasks() =~= before.tasks().remove(query_id@));
        }
        match removed {
            Some(task) => {
                proof {
                    assert(before.tasks().contains_key(query_id@));
                    assert(before.tasks()[query_id@] == task.worker_id@);
                }
                self.network_state.greylist_worker(&task.worker_id, now);
                Ok(task.worker_id)
            },
            None => Err(ClientError::UnknownQuery),
        }
    }

    /// Notes at `now` that `peer` has no compute units left for this gateway.
    pub fn no_allocation_for_worker(&mut self, peer: &PeerId, now: u64)
        requires
            old(self).wf(),
        ensures
            final(self).wf(),
            final(self).storage() == old(self).storage(),
            final(self).tasks() == old(self).tasks(),
            old(self).network().backed_off_to(&final(self).network(), peer@, now),
    {
        self.network_state.no_allocation_for_worker(peer, now);
    }

    /// Greylists `peer` at `now`.
    pub fn greylist_worker(&mut self, peer: &PeerId, now: u64)
        requires
            old(self).wf(),
        ensures
            final(self).wf(),
            final(self).storage() == old(self).storage(),
            final(self).tasks() == old(self).tasks(),
            old(self).network().greylisted_to(&final(self).network(), peer@, now),
    {
        self.network_state.greylist_worker(peer, now);
    }

    /// A worker's ping arrived at `now`; see [`NetworkState::handle_ping`].
    pub fn handle_ping(&mut self, peer_id: &PeerId, ping: &Ping, now: u64) -> (taken: bool)
        requires
            old(self).wf(),
        ensures
            final(self).wf(),
            final(self).storage() == old(self).storage(),
            final(self).tasks() == old(self).tasks(),
            taken == (ping.version matches Some(v) && old(self).network().versions().admits(v@)),
            old(self).network().pinged_to(&final(self).network(), peer_id@, *ping, now),
    {
        self.network_state.handle_ping(peer_id, ping, now)
    }

    /// Whether `after` and `res` are what becomes of this client and of the
    /// message `result`, which arrived from `peer` at `now`.
    pub open spec fn reply_handled(
        &self,
        after: &NetworkClient,
        peer: Seq<char>,
        result: QueryResult,
        now: u64,
        res: Result<Delivery, ClientError>,
    ) -> bool {
        if result.result is None {
            &&& res == Err::<Delivery, ClientError>(ClientError::ResultMissing)
            &&& after.tasks() == self.tasks()
            &&& after.network() == self.network()
        } else if !self.tasks().contains_key(result.query_id@) {
            &&& res == Err::<Delivery, ClientError>(ClientError::UnknownQuery)
            &&& after.tasks() == self.tasks()
            &&& after.network() == self.network()
        } else if self.tasks()[result.query_id@] != peer {
            &&& res == Err::<Delivery, ClientError>(ClientError::InvalidSender)
            &&& after.tasks() == self.tasks()
            &&& self.network().greylisted_to(&after.network(), peer, now)
        } else {
            &&& res matches Ok(delivery)
            &&& delivery.query_id@ == result.query_id@
            &&& delivery.reply == result.result.unwrap()
            &&& after.tasks() == self.tasks().remove(result.query_id@)
            &&& self.network().replied_to(&after.network(), peer, result.result.unwrap(), now)
        }
    }

    /// Whether `after` and `res` are what becomes of this client and of the
    /// query `query_id` once the network dropped it.
    pub open spec fn drop_handled(&self, after: &NetworkClient, query_id: Seq<char>, res: Result<PeerId, ClientError>) -> bool {
        &&& after.network() == self.network()
        &&& after.tasks() == self.tasks().remove(query_id)
        &&& match res {
            Ok(worker) => self.tasks().contains_key(query_id) && worker@ == self.tasks()[query_id],
            Err(e) => e == ClientError::UnknownQuery && !self.tasks().contains_key(query_id),
        }
    }

    /// A worker's message arrived from `peer_id` at `now`. A message without a
    /// reply, or for a query that does not wait, is refused and changes nothing. A
    /// reply from another peer than the one that was asked is refused too: that
    /// peer is greylisted and the query goes on waiting. Otherwise the query is
    /// closed, the registry takes note of the reply, and the reply is handed out.
    pub fn handle_query_result(&mut self, peer_id: &PeerId, result: QueryResult, now: u64) -> (res: Result<
        Delivery,
        ClientError,
    >)
        requires
            old(self).wf(),
        ensures
            final(self).wf(),
            final(self).storage() == old(self).storage(),
            old(self).reply_handled(final(self), peer_id@, result, now, res),
    {
        let QueryResult { query_id, result } = result;
        let reply = match result {
            None => {
                return Err(ClientError::ResultMissing);
            },
            Some(reply) => reply,
        };
        let ghost before = *self;
        let idx = match self.tasks.index_of(&query_id) {
            None => {
                return Err(ClientError::UnknownQuery);
            },
            Some(idx) => idx,
        };
        if !self.tasks.value_at(idx).worker_id.same(peer_id) {
            self.network_state.greylist_worker(peer_id, now);
            return Err(ClientError::InvalidSender);
        }
        let _ = self.tasks.remove(&query_id);
        proof {
            assert(self.tasks() =~= before.tasks().remove(query_id@));
        }
        match &reply {
            WorkerReply::ServerError(_) => {
                self.network_state.greylist_worker(peer_id, now);
            },
            WorkerReply::NoAllocation => {
                self.network_state.no_allocation_for_worker(peer_id, now);
            },
            _ => {},
        }
        Ok(Delivery { query_id, reply })
    }

    /// Hands an event from the network to the handler for its kind.
    pub fn handle_event(&mut self, event: GatewayEvent, now: u64) -> (res: ClientOutcome)
        requires
            old(self).wf(),
        ensures
            final(self).wf(),
            final(self).storage() == old(self).storage(),
            match event {
                GatewayEvent::Ping { peer_id, ping } => {
                    &&& res matches ClientOutcome::Pinged(taken)
                    &&& taken == (ping.version matches Some(v) && old(self).network().versions().admits(v@))
                    &&& final(self).tasks() == old(self).tasks()
                    &&& old(self).network().pinged_to(&final(self).network(), peer_id@, ping, now)
                },
                GatewayEvent::QueryResult { peer_id, result } => res matches ClientOutcome::Replied(r)
                    && old(self).reply_handled(final(self), peer_id@, result, now, r),
                GatewayEvent::QueryDropped { query_id } => res matches ClientOutcome::Dropped(r) && old(
                    self,
                ).drop_handled(final(self), query_id@, r),
            },
    {
        match event {
            GatewayEvent::Ping { peer_id, ping } => ClientOutcome::Pinged(self.handle_ping(&peer_id, &ping, now)),
            GatewayEvent::QueryResult { peer_id, result } => ClientOutcome::Replied(
                self.handle_query_result(&peer_id, result, now),
            ),
            GatewayEvent::QueryDropped { query_id } => ClientOutcome::Dropped(self.query_dropped(&query_id)),
        }
    }
}

/// Once a query is settled it waits no more: a second reply, drop or timeout
/// for it finds nothing, whatever happened to other queries in between.
pub proof fn lemma_settled_query_is_unknown(before: Map<Seq<char>, Seq<char>>, query_id: Seq<char>)
    ensures
        !before.remove(query_id).contains_key(query_id),
        forall|other: Seq<char>|
            other != query_id ==> before.remove(query_id).contains_key(other) == before.contains_key(other),
{
}

} // verus!
