//! The query server: one worker per query. It reserves a compute unit, hands
//! out the message to send, keeps a task until the worker answers, the timeout
//! fires or the network drops the query, and reports to the metrics.

use vstd::prelude::*;
use crate::allocations::{units_after_release, AllocationsManager};
use crate::messages::{FinishedResult, GatewayEvent, Ping, Query, QueryFinished, QueryResult, QuerySubmitted, WorkerReply};
use crate::network::state::{deadline_elapsed, NetworkState};
use crate::table::Table;
use crate::types::{generate_query_id, DatasetId, PeerId};

verus! {

/// The compute units that one query costs.
pub const COMP_UNITS_PER_QUERY: u32 = 1;

/// A query that a client wants sent to a worker.
#[derive(Debug, PartialEq, Eq)]
pub struct ClientQuery {
    pub dataset_id: DatasetId,
    pub query: String,
    pub worker_id: PeerId,
    /// How long to wait for the worker, in milliseconds.
    pub timeout: u64,
    pub profiling: bool,
}

/// A query that was sent and is not yet settled.
pub struct Task {
    worker_id: PeerId,
    start_time: u64,
}

/// What a task records.
pub struct TaskView {
    pub worker: Seq<char>,
    pub start_time: u64,
}

impl Task {
    /// What the task records.
    pub closed spec fn view(&self) -> TaskView {
        TaskView { worker: self.worker_id@, start_time: self.start_time }
    }
}

/// Why the server did not act on an input.
#[derive(Clone, Copy, Debug, PartialEq, Eq, Structural)]
pub enum ServerError {
    /// A worker's message holds no reply.
    ResultMissing,
    /// No task is open for the query.
    UnknownQuery,
    /// The reply came from another peer than the one that was asked.
    InvalidSender,
}

/// How the handling of a client's query began.
#[derive(Debug, PartialEq, Eq)]
pub enum QueryStart {
    /// The worker has no compute units for this gateway: the client is told so
    /// and nothing is sent.
    NoAllocation,
    /// The identifier names a task that is still open: nothing is done.
    IdentifierInUse,
    /// A task is open: the message is to be sent to the worker, the timeout is
    /// to be armed, and the metrics, where there are any, are to be reported.
    Started { query_id: String, message: Query, timeout: u64, metrics: Option<QuerySubmitted> },
}

/// A reply that settles a task: it goes to the client, the metrics to the
/// collector.
#[derive(Debug, PartialEq, Eq)]
pub struct Delivered {
    pub query_id: String,
    pub reply: WorkerReply,
    pub metrics: Option<QueryFinished>,
}

/// What became of an event from the network.
#[derive(Debug, PartialEq, Eq)]
pub enum EventOutcome {
    /// A ping, and whether it was taken.
    Pinged(bool),
    /// A worker's reply.
    Replied(Result<Delivered, ServerError>),
    /// A query that the network dropped: the worker whose task was closed.
    Dropped(Result<PeerId, ServerError>),
}

/// The time from `start` to `now` in milliseconds, as far as 32 bits hold it.
pub open spec fn elapsed_ms(start: u64, now: u64) -> u32 {
    if now <= start {
        0
    } else if now - start > u32::MAX {
        u32::MAX
    } else {
        (now - start) as u32
    }
}

/// Whether `message` is the query `query` under the identifier `query_id`, as
/// it goes to the worker.
pub open spec fn is_query_message(message: Query, query_id: Seq<char>, query: ClientQuery) -> bool {
    &&& message.query_id@ == query_id
    &&& message.dataset@ == query.dataset_id@
    &&& message.query@ == query.query@
    &&& message.profiling == Some(query.profiling)
    &&& message.client_state_json@ == "{}"@
    &&& message.signature@.len() == 0
    &&& message.block_range is None
}

/// Whether `metrics` reports the sending of `query` under `query_id` by the
/// gateway `client`.
pub open spec fn is_submitted(metrics: QuerySubmitted, client: Seq<char>, query_id: Seq<char>, query: ClientQuery) -> bool {
    &&& metrics.client_id@ == client
    &&& metrics.worker_id@ == query.worker_id@
    &&& metrics.query_id@ == query_id
    &&& metrics.dataset@ == query.dataset_id@
    &&& metrics.query@ == query.query@
}

/// Whether `metrics` reports at `now` the end of the task `task` of the query
/// `query_id`, as a reply or as a timeout.
pub open spec fn is_finished(
    metrics: QueryFinished,
    client: Seq<char>,
    query_id: Seq<char>,
    task: TaskView,
    now: u64,
    timed_out: bool,
) -> bool {
    &&& metrics.client_id@ == client
    &&& metrics.worker_id@ == task.worker
    &&& metrics.query_id@ == query_id
    &&& metrics.exec_time_ms == elapsed_ms(task.start_time, now)
    &&& if timed_out {
        metrics.result matches FinishedResult::Timeout(reason) && reason@ == "client timeout"@
    } else {
        metrics.result is Replied
    }
}

fn time_between(start: u64, now: u64) -> (ms: u32)
    ensures
        ms == elapsed_ms(start, now),
{
    if now <= start {
        0
    } else if now - start > u32::MAX as u64 {
        u32::MAX
    } else {
        (now - start) as u32
    }
}

/// The query server.
pub struct Server {
    tasks: Table<Task>,
    network_state: NetworkState,
    allocations_manager: AllocationsManager,
    local_peer_id: PeerId,
    send_metrics: bool,
}

impl Server {
    /// The open tasks, by query identifier.
    pub closed spec fn tasks(&self) -> Map<Seq<char>, TaskView> {
        Map::new(|k: Seq<char>| self.tasks@.contains_key(k), |k: Seq<char>| self.tasks@[k]@)
    }

    /// The worker registry.
    pub closed spec fn network(&self) -> NetworkState {
        self.network_state
    }

    /// The ledger of compute units.
    pub closed spec fn allocations(&self) -> AllocationsManager {
        self.allocations_manager
    }

    /// The identity of this gateway.
    pub closed spec fn local_peer(&self) -> Seq<char> {
        self.local_peer_id@
    }

    /// Whether metrics are reported.
    pub closed spec fn metrics_on(&self) -> bool {
        self.send_metrics
    }

    /// The server is consistent.
    pub closed spec fn wf(&self) -> bool {
        &&& self.tasks.wf()
        &&& self.network_state.wf()
        &&& self.allocations_manager.wf()
    }

    /// In a consistent server the registry and the ledger are consistent.
    pub proof fn lemma_wf(&self)
        requires
            self.wf(),
        ensures
            self.network().wf(),
            self.allocations().wf(),
    {
    }

    /// Whether `after` differs from this server at most in tasks, registry and
    /// ledger.
    pub open spec fn same_identity(&self, after: &Server) -> bool {
        after.local_peer() == self.local_peer() && after.metrics_on() == self.metrics_on()
    }

    /// Whether `after` holds the units that this server holds.
    pub open spec fn same_units(&self, after: &Server) -> bool {
        after.allocations().units() == self.allocations().units()
    }

    /// A server without tasks.
    pub fn new(
        local_peer_id: PeerId,
        network_state: NetworkState,
        allocations_manager: AllocationsManager,
        send_metrics: bool,
    ) -> (s: Server)
        requires
            network_state.wf(),
            allocations_manager.wf(),
        ensures
            s.wf(),
            s.tasks() == Map::<Seq<char>, TaskView>::empty(),
            s.network() == network_state,
            s.allocations() == allocations_manager,
            s.local_peer() == local_peer_id@,
            s.metrics_on() == send_metrics,
    {
        let s = Server { tasks: Table::new(), network_state, allocations_manager, local_peer_id, send_metrics };
        proof {
            assert(s.tasks() =~= Map::<Seq<char>, TaskView>::empty());
        }
        s
    }

    /// The worker registry, to read.
    pub fn network_state(&self) -> (n: &NetworkState)
        ensures
            *n == self.network(),
    {
        &self.network_state
    }

    /// The ledger of compute units, to read.
    pub fn allocations_manager(&self) -> (a: &AllocationsManager)
        ensures
            *a == self.allocations(),
    {
        &self.allocations_manager
    }

    /// Sets the units left at `worker`.
    pub fn set_allocation(&mut self, worker: &PeerId, units: u32)
        requires
            old(self).wf(),
        ensures
            final(self).wf(),
            final(self).same_identity(old(self)),
            final(self).tasks() == old(self).tasks(),
            final(self).network() == old(self).network(),
            final(self).allocations().units() == old(self).allocations().units().insert(worker@, units),
    {
        self.allocations_manager.set_allocation(worker, units);
    }

    /// The number of open tasks.
    pub fn open_tasks(&self) -> (n: usize)
        requires
            self.wf(),
        ensures
            n == self.tasks().dom().len(),
    {
        proof {
            self.lemma_task_count();
        }
        self.tasks.len()
    }

    proof fn lemma_task_count(&self)
        requires
            self.wf(),
        ensures
            self.tasks().dom().finite(),
            self.tasks().dom().len() == self.tasks.spec_keys().len(),
    {
        lemma_key_count(self.tasks.spec_keys(), self.tasks().dom());
    }

    /// The worker that the open task of `query_id` waits for.
    pub fn task_worker(&self, query_id: &String) -> (w: Option<PeerId>)
        requires
            self.wf(),
        ensures
            w is Some <==> self.tasks().contains_key(query_id@),
            w matches Some(p) ==> p@ == self.tasks()[query_id@].worker,
    {
        match self.tasks.get(query_id) {
            Some(task) => Some(task.worker_id.clone()),
            None => None,
        }
    }

    /// Whether the worker is not known to lack compute units at `now` and has a
    /// unit left to reserve.
    pub open spec fn can_reserve(&self, worker: Seq<char>, now: u64) -> bool {
        deadline_elapsed(self.network().state_of(worker).missing_allocation_until, now)
            && self.allocations().remaining(worker) >= COMP_UNITS_PER_QUERY
    }

    /// Begins the handling of a client's query under a random identifier; see
    /// [`Server::start_query`], which says what is done with it. The identifier
    /// of a started query named no open task; without open tasks none can be in
    /// use.
    pub fn handle_query(&mut self, query: ClientQuery, now: u64) -> (res: QueryStart)
        requires
            old(self).wf(),
        ensures
            final(self).wf(),
            final(self).same_identity(old(self)),
            res is IdentifierInUse ==> old(self).untouched(final(self)) && exists|id: Seq<char>| #[trigger]
                old(self).tasks().contains_key(id),
            res is NoAllocation ==> !old(self).can_reserve(query.worker_id@, now) && old(self).refused(
                final(self),
                query.worker_id@,
                now,
            ),
            res matches QueryStart::Started { query_id, message, timeout, metrics } ==> old(self).can_reserve(
                query.worker_id@,
                now,
            ) && old(self).started(final(self), query_id@, query, now, message, timeout, metrics),
    {
        let query_id = generate_query_id();
        self.start_query(query_id, query, now)
    }

    /// Whether `after` is this server once the query was refused for want of
    /// compute units: where the registry already knew of the want nothing changed,
    /// else the registry has noted it at `now`.
    pub open spec fn refused(&self, after: &Server, worker: Seq<char>, now: u64) -> bool {
        &&& after.tasks() == self.tasks()
        &&& self.same_units(after)
        &&& if deadline_elapsed(self.network().state_of(worker).missing_allocation_until, now) {
            self.network().backed_off_to(&after.network(), worker, now)
        } else {
            self.network().same_as(&after.network())
        }
    }

    /// Whether `after` is this server once the query was started under
    /// `query_id` at `now`, with `message`, `timeout` and `metrics` handed out: the
    /// identifier named no open task, one unit is spent at the worker, one task is
    /// open more, and the registry is as before.
    pub open spec fn started(
        &self,
        after: &Server,
        query_id: Seq<char>,
        query: ClientQuery,
        now: u64,
        message: Query,
        timeout: u64,
        metrics: Option<QuerySubmitted>,
    ) -> bool {
        &&& !self.tasks().contains_key(query_id)
        &&& after.tasks() == self.tasks().insert(
            query_id,
            TaskView { worker: query.worker_id@, start_time: now },
        )
        &&& after.allocations().units() == self.allocations().units().insert(
            query.worker_id@,
            (self.allocations().remaining(query.worker_id@) - COMP_UNITS_PER_QUERY) as u32,
        )
        &&& self.network().same_as(&after.network())
        &&& is_query_message(message, query_id, query)
        &&& timeout == query.timeout
        &&& match metrics {
            Some(m) => self.metrics_on() && is_submitted(m, self.local_peer(), query_id, query),
            None => !self.metrics_on(),
        }
    }

    /// Begins the handling of a client's query under the identifier `query_id`.
    /// An identifier that names an open task is refused. Then the registry is
    /// asked whether the worker is known to lack compute units, and one unit is
    /// reserved; where none is left the registry notes it. Only then a task is
    /// opened and the message made.
    pub fn start_query(&mut self, query_id: String, query: ClientQuery, now: u64) -> (res: QueryStart)
        requires
            old(self).wf(),
        ensures
            final(self).wf(),
            final(self).same_identity(old(self)),
            res is IdentifierInUse <==> old(self).tasks().contains_key(query_id@),
            res is IdentifierInUse ==> old(self).untouched(final(self)),
            res is NoAllocation <==> !old(self).tasks().contains_key(query_id@) && !old(self).can_reserve(
                query.worker_id@,
                now,
            ),
            res is NoAllocation ==> old(self).refused(final(self), query.worker_id@, now),
            res matches QueryStart::Started { query_id: id, message, timeout, metrics } ==> id@ == query_id@
                && old(self).started(final(self), query_id@, query, now, message, timeout, metrics),
    {
        if self.tasks.index_of(&query_id).is_some() {
            return QueryStart::IdentifierInUse;
        }
        if !self.network_state.worker_has_allocation(&query.worker_id, now) {
            return QueryStart::NoAllocation;
        }
        let enough_cus = self.allocations_manager.try_spend_cus(&query.worker_id, COMP_UNITS_PER_QUERY);
        if !enough_cus {
            self.network_state.no_allocation_for_worker(&query.worker_id, now);
            return QueryStart::NoAllocation;
        }
        let ghost before = *self;
        let task = Task { worker_id: query.worker_id.clone(), start_time: now };
        self.tasks.insert(query_id.clone(), task);
        proof {
            assert(self.tasks() =~= before.tasks().insert(
                query_id@,
                TaskView { worker: query.worker_id@, start_time: now },
            ));
        }
        let message = Query {
            query_id: query_id.clone(),
            dataset: query.dataset_id.to_string(),
            query: query.query.clone(),
            profiling: Some(query.profiling),
            client_state_json: "{}".to_owned(),
            signature: Vec::new(),
            block_range: None,
        };
        let metrics = if self.send_metrics {
            Some(
                QuerySubmitted {
                    client_id: self.local_peer_id.to_base58(),
                    worker_id: query.worker_id.to_base58(),
                    query_id: query_id.clone(),
                    dataset: query.dataset_id.to_string(),
                    query: query.query.clone(),
                },
            )
        } else {
            None
        };
        QueryStart::Started { query_id, message, timeout: query.timeout, metrics }
    }

    /// Whether `after` is this server without the task of `query_id`, and with
    /// the identity that it had.
    pub open spec fn closed_task(&self, after: &Server, query_id: Seq<char>) -> bool {
        after.same_identity(self) && after.tasks() == self.tasks().remove(query_id)
    }

    /// Whether `after` is this server with one more unit at `worker`.
    pub open spec fn released(&self, after: &Server, worker: Seq<char>) -> bool {
        after.allocations().units() == self.allocations().units().insert(
            worker,
            units_after_release(self.allocations().remaining(worker), COMP_UNITS_PER_QUERY),
        )
    }

    /// Whether `after` is this server in all but its identity.
    pub open spec fn untouched(&self, after: &Server) -> bool {
        &&& after.tasks() == self.tasks()
        &&& self.same_units(after)
        &&& self.network().same_as(&after.network())
    }

    /// The message of `query_id` could not be handed to the network: the task
    /// is closed and the reserved unit is given back. Returns the worker that was
    /// to be asked.
    pub fn send_failed(&mut self, query_id: &String) -> (res: Result<PeerId, ServerError>)
        requires
            old(self).wf(),
        ensures
            final(self).wf(),
            final(self).same_identity(old(self)),
            old(self).drop_handled(final(self), query_id@, res),
    {
        let ghost before = *self;
        match self.tasks.remove(query_id) {
            None => {
                proof {
                    assert(self.tasks() =~= before.tasks());
                }
                Err(ServerError::UnknownQuery)
            },
            Some(task) => {
                proof {
                    assert(self.tasks() =~= before.tasks().remove(query_id@));
                    assert(before.tasks().contains_key(query_id@));
                    assert(before.tasks()[query_id@] == task@);
                }
                self.allocations_manager.release_cus(&task.worker_id, COMP_UNITS_PER_QUERY);
                Ok(task.worker_id)
            },
        }
    }

    /// The network reports that the query `query_id` was never delivered: the
    /// task is closed and the reserved unit is given back; the worker is not
    /// greylisted. Returns the worker that was asked.
    pub fn query_dropped(&mut self, query_id: &String) -> (res: Result<PeerId, ServerError>)
        requires
            old(self).wf(),
        ensures
            final(self).wf(),
            final(self).same_identity(old(self)),
            old(self).drop_handled(final(self), query_id@, res),
    {
        self.send_failed(query_id)
    }

    /// The timeout of the query `query_id` fired at `now`: the task is closed and
    /// its worker greylisted. Returns the metrics to report, where metrics are on.
    pub fn handle_timeout(&mut self, query_id: &String, now: u64) -> (res: Result<Option<QueryFinished>, ServerError>)
        requires
            old(self).wf(),
        ensures
            final(self).wf(),
            final(self).same_identity(old(self)),
            old(self).same_units(final(self)),
            match res {
                Ok(metrics) => {
                    &&& old(self).tasks().contains_key(query_id@)
                    &&& old(self).closed_task(final(self), query_id@)
                    &&& old(self).network().greylisted_to(
                        &final(self).network(),
                        old(self).tasks()[query_id@].worker,
                        now,
                    )
                    &&& match metrics {
                        Some(m) => old(self).metrics_on() && is_finished(
                            m,
                            old(self).local_peer(),
                            query_id@,
                            old(self).tasks()[query_id@],
                            now,
                            true,
                        ),
                        None => !old(self).metrics_on(),
                    }
                },
                Err(e) => e == ServerError::UnknownQuery && !old(self).tasks().contains_key(query_id@)
                    && old(self).untouched(final(self)),
            },
    {
        let ghost before = *self;
        match self.tasks.remove(query_id) {
            None => {
                proof {
                    assert(self.tasks() =~= before.tasks());
                }
                Err(ServerError::UnknownQuery)
            },
            Some(task) => {
                proof {
                    assert(self.tasks() =~= before.tasks().remove(query_id@));
                    assert(before.tasks().contains_key(query_id@));
                    assert(before.tasks()[query_id@] == task@);
                }
                self.network_state.greylist_worker(&task.worker_id, now);
                if self.send_metrics {
                    Ok(
                        Some(
                            QueryFinished {
                                client_id: self.local_peer_id.to_base58(),
                                worker_id: task.worker_id.to_base58(),
                                query_id: query_id.clone(),
                                exec_time_ms: time_between(task.start_time, now),
                                result: FinishedResult::Timeout("client timeout".to_owned()),
                            },
                        ),
                    )
                } else {
                    Ok(None)
                }
            },
        }
    }

    /// Whether `after` and `res` are what becomes of this server and of the
    /// message `result`, which arrived from `peer` at `now`.
    pub open spec fn reply_handled(
        &self,
        after: &Server,
        peer: Seq<char>,
        result: QueryResult,
        now: u64,
        res: Result<Delivered, ServerError>,
    ) -> bool {
        &&& self.same_units(after)
        &&& if result.result is None {
            res == Err::<Delivered, ServerError>(ServerError::ResultMissing) && self.untouched(after)
        } else if !self.tasks().contains_key(result.query_id@) {
            res == Err::<Delivered, ServerError>(ServerError::UnknownQuery) && self.untouched(after)
        } else if self.tasks()[result.query_id@].worker != peer {
            &&& res == Err::<Delivered, ServerError>(ServerError::InvalidSender)
            &&& after.tasks() == self.tasks()
            &&& self.network().greylisted_to(&after.network(), peer, now)
        } else {
            &&& res matches Ok(delivered)
            &&& delivered.query_id@ == result.query_id@
            &&& delivered.reply == result.result.unwrap()
            &&& self.closed_task(after, result.query_id@)
            &&& self.network().replied_to(&after.network(), peer, result.result.unwrap(), now)
            &&& match delivered.metrics {
                Some(m) => self.metrics_on() && is_finished(
                    m,
                    self.local_peer(),
                    result.query_id@,
                    self.tasks()[result.query_id@],
                    now,
                    false,
                ),
                None => !self.metrics_on(),
            }
        }
    }

    /// Whether `after` and `res` are what becomes of this server and of the
    /// query `query_id` once it was not sent, or dropped by the network.
    pub open spec fn drop_handled(&self, after: &Server, query_id: Seq<char>, res: Result<PeerId, ServerError>) -> bool {
        &&& self.network().same_as(&after.network())
        &&& match res {
            Ok(worker) => {
                &&& self.tasks().contains_key(query_id)
                &&& worker@ == self.tasks()[query_id].worker
                &&& self.closed_task(after, query_id)
                &&& self.released(after, worker@)
            },
            Err(e) => e == ServerError::UnknownQuery && !self.tasks().contains_key(query_id) && self.untouched(
                after,
            ),
        }
    }

    /// A worker's message arrived from `peer_id` at `now`. A message without a
    /// reply, or for a query without an open task, is refused and changes nothing.
    /// A reply from another peer than the one that was asked is refused too: that
    /// peer is greylisted and the task stays open. Otherwise the task is closed,
    /// the registry takes note of the reply, and the reply is handed out with the
    /// metrics to report.
    pub fn query_result(&mut self, peer_id: &PeerId, result: QueryResult, now: u64) -> (res: Result<
        Delivered,
        ServerError,
    >)
        requires
            old(self).wf(),
        ensures
            final(self).wf(),
            final(self).same_identity(old(self)),
            old(self).reply_handled(final(self), peer_id@, result, now, res),
    {
        let QueryResult { query_id, result } = result;
        let reply = match result {
            None => {
                return Err(ServerError::ResultMissing);
            },
            Some(reply) => reply,
        };
        let ghost before = *self;
        let idx = match self.tasks.index_of(&query_id) {
            None => {
                return Err(ServerError::UnknownQuery);
            },
            Some(idx) => idx,
        };
        if !self.tasks.value_at(idx).worker_id.same(peer_id) {
            self.network_state.greylist_worker(peer_id, now);
            return Err(ServerError::InvalidSender);
        }
        let task = match self.tasks.remove(&query_id) {
            None => {
                return Err(ServerError::UnknownQuery);
            },
            Some(task) => task,
        };
        proof {
            assert(self.tasks() =~= before.tasks().remove(query_id@));
        }
        match &reply {
            WorkerReply::ServerError(_) => {
                self.network_state.greylist_worker(peer_id, now);
            },
            WorkerReply::NoAllocation => {
                self.network_state.no_allocation_for_worker(peer_id, now);
            },
            _ => {},
        }
        let metrics = if self.send_metrics {
            Some(
                QueryFinished {
                    client_id: self.local_peer_id.to_base58(),
                    worker_id: peer_id.to_base58(),
                    query_id: query_id.clone(),
                    exec_time_ms: time_between(task.start_time, now),
                    result: FinishedResult::Replied,
                },
            )
        } else {
            None
        };
        Ok(Delivered { query_id, reply, metrics })
    }

    /// A worker's ping arrived at `now`; see [`NetworkState::handle_ping`].
    /// Returns whether it was taken.
    pub fn ping(&mut self, peer_id: &PeerId, ping: &Ping, now: u64) -> (taken: bool)
        requires
            old(self).wf(),
        ensures
            final(self).wf(),
            final(self).same_identity(old(self)),
            final(self).tasks() == old(self).tasks(),
            old(self).same_units(final(self)),
            taken == (ping.version matches Some(v) && old(self).network().versions().admits(v@)),
            old(self).network().pinged_to(&final(self).network(), peer_id@, *ping, now),
    {
        self.network_state.handle_ping(peer_id, ping, now)
    }

    /// Hands an event from the network to the handler for its kind.
    pub fn on_incoming_event(&mut self, ev: GatewayEvent, now: u64) -> (res: EventOutcome)
        requires
            old(self).wf(),
        ensures
            final(self).wf(),
            final(self).same_identity(old(self)),
            match ev {
                GatewayEvent::Ping { peer_id, ping } => {
                    &&& res matches EventOutcome::Pinged(taken)
                    &&& taken == (ping.version matches Some(v) && old(self).network().versions().admits(v@))
                    &&& final(self).tasks() == old(self).tasks()
                    &&& old(self).same_units(final(self))
                    &&& old(self).network().pinged_to(&final(self).network(), peer_id@, ping, now)
                },
                GatewayEvent::QueryResult { peer_id, result } => res matches EventOutcome::Replied(r)
                    && old(self).reply_handled(final(self), peer_id@, result, now, r),
                GatewayEvent::QueryDropped { query_id } => res matches EventOutcome::Dropped(r) && old(
                    self,
                ).drop_handled(final(self), query_id@, r),
            },
    {
        match ev {
            GatewayEvent::Ping { peer_id, ping } => EventOutcome::Pinged(self.ping(&peer_id, &ping, now)),
            GatewayEvent::QueryResult { peer_id, result } => EventOutcome::Replied(
                self.query_result(&peer_id, result, now),
            ),
            GatewayEvent::QueryDropped { query_id } => EventOutcome::Dropped(self.query_dropped(&query_id)),
        }
    }
}

/// A query that was started and then not sent, or dropped by the network,
/// has cost nothing: the release gives back the unit that the start reserved,
/// every worker has the units that it had before, and the open tasks are those
/// from before.
pub proof fn lemma_unsent_query_costs_nothing(
    before: Server,
    started: Server,
    closed: Server,
    query_id: Seq<char>,
    query: ClientQuery,
    now: u64,
    message: Query,
    timeout: u64,
    metrics: Option<QuerySubmitted>,
)
    requires
        before.allocations().remaining(query.worker_id@) >= COMP_UNITS_PER_QUERY,
        before.started(&started, query_id, query, now, message, timeout, metrics),
        started.closed_task(&closed, query_id),
        started.released(&closed, query.worker_id@),
    ensures
        forall|w: Seq<char>| closed.allocations().remaining(w) == before.allocations().remaining(w),
        closed.tasks() == before.tasks(),
{
    assert(closed.tasks() =~= before.tasks());
    crate::allocations::lemma_release_compensates_spend(
        before.allocations(),
        started.allocations(),
        closed.allocations(),
        query.worker_id@,
        COMP_UNITS_PER_QUERY,
    );
}

/// A started query opens exactly one task: under its identifier, which named
/// none before, for its worker and from `now`; every other task is as it was.
pub proof fn lemma_start_opens_one_task(
    before: Server,
    after: Server,
    query_id: Seq<char>,
    query: ClientQuery,
    now: u64,
    message: Query,
    timeout: u64,
    metrics: Option<QuerySubmitted>,
)
    requires
        before.started(&after, query_id, query, now, message, timeout, metrics),
    ensures
        !before.tasks().contains_key(query_id),
        after.tasks().dom() == before.tasks().dom().insert(query_id),
        after.tasks()[query_id] == (TaskView { worker: query.worker_id@, start_time: now }),
        forall|other: Seq<char>|
            other != query_id && before.tasks().contains_key(other) ==> after.tasks()[other] == before.tasks()[other],
        timeout == query.timeout,
{
    assert(after.tasks().dom() =~= before.tasks().dom().insert(query_id));
}

/// A task is settled once: after its reply, its timeout or its drop the query
/// is unknown, so that whatever arrives for it later is refused, while every
/// other task stays open.
pub proof fn lemma_task_is_settled_once(before: Server, after: Server, query_id: Seq<char>)
    requires
        before.closed_task(&after, query_id),
    ensures
        !after.tasks().contains_key(query_id),
        forall|other: Seq<char>|
            other != query_id ==> after.tasks().contains_key(other) == before.tasks().contains_key(other),
{
}

/// A list of distinct keys has as many entries as the set of its keys.
proof fn lemma_key_count(keys: Seq<String>, dom: Set<Seq<char>>)
    requires
        forall|i: int, j: int| 0 <= i < j < keys.len() ==> keys[i]@ != keys[j]@,
        forall|k: Seq<char>| dom.contains(k) <==> exists|i: int| 0 <= i < keys.len() && #[trigger] keys[i]@ == k,
    ensures
        dom.finite(),
        dom.len() == keys.len(),
    decreases keys.len(),
{
    if keys.len() == 0 {
        assert(dom =~= Set::<Seq<char>>::empty());
    } else {
        let last = keys.last()@;
        let rest = keys.drop_last();
        let sub = dom.remove(last);
        assert(keys[keys.len() - 1]@ == last);
        assert forall|k: Seq<char>| sub.contains(k) <==> exists|i: int| 0 <= i < rest.len() && #[trigger] rest[i]@ == k by {
            if sub.contains(k) {
                let i = choose|i: int| 0 <= i < keys.len() && #[trigger] keys[i]@ == k;
                assert(rest[i]@ == k);
            }
            if exists|i: int| 0 <= i < rest.len() && #[trigger] rest[i]@ == k {
                let i = choose|i: int| 0 <= i < rest.len() && #[trigger] rest[i]@ == k;
                assert(keys[i]@ == k);
                assert(keys[i]@ != keys[keys.len() - 1]@);
            }
        }
        assert forall|i: int, j: int| 0 <= i < j < rest.len() implies rest[i]@ != rest[j]@ by {
            assert(keys[i]@ != keys[j]@);
        }
        lemma_key_count(rest, sub);
        assert(dom =~= sub.insert(last));
    }
}

} // verus!
