use query_gateway::allocations::AllocationsManager;
use query_gateway::dispatch::{
    effective_query, plan_chunks, plan_request, reserve_unit, resolve_start, start_error, AttemptOutcome,
    BufferError, ChunkAttempts, OutputBuffer, PlannedChunk, RequestError, Selection, Verdict, SEND_RETRIES,
};
use query_gateway::messages::{GatewayEvent, Ping, QueryResult, StoredRanges, WorkerReply};
use query_gateway::network::client::{ClientError, ClientOutcome, Delivery, NetworkClient};
use query_gateway::network::state::StateSettings;
use query_gateway::request::{ClientRequest, ParsedQuery};
use query_gateway::types::{DataChunk, DatasetId, PeerId, Range};
use query_gateway::version::SupportedVersions;

fn peer(name: &str) -> PeerId {
    PeerId(name.to_string())
}

fn chunk(first: u32, last: u32) -> DataChunk {
    DataChunk { first_block: first, last_block: last, key: format!("{first:010}-{last:010}") }
}

fn dataset() -> DatasetId {
    DatasetId::from_url("s3://d")
}

fn client(chunks: &[(u32, u32)]) -> NetworkClient {
    let settings = StateSettings {
        worker_inactive_threshold: 120_000,
        greylist_duration: 60_000,
        allocation_backoff: 60_000,
        min_worker_priority: -5,
        max_worker_priority: 3,
    };
    let versions = SupportedVersions::parse(">=1.1.0-rc3").unwrap();
    let mut client = NetworkClient::new(&vec!["s3://d".to_string()], versions, settings, &vec![]).unwrap();
    let listed: Vec<DataChunk> = chunks.iter().map(|(a, b)| chunk(*a, *b)).collect();
    assert_eq!(client.update_chunks(&dataset(), &listed), Ok(listed.len()));
    client
}

fn ping_from(client: &mut NetworkClient, worker: &str, ranges: &[(u32, u32)], now: u64) {
    let ping = Ping {
        version: Some("1.2.0".to_string()),
        stored_ranges: vec![StoredRanges {
            url: "s3://d/".to_string(),
            ranges: ranges.iter().map(|(a, b)| Range { begin: *a, end: *b }).collect(),
        }],
    };
    assert!(client.handle_ping(&peer(worker), &ping, now));
}

fn request(query: &str, buffer_size: usize, max_chunks: Option<usize>) -> ClientRequest {
    ClientRequest {
        dataset_id: dataset(),
        query: ParsedQuery::from_string(query).unwrap(),
        buffer_size,
        max_chunks,
        chunk_timeout: 5_000,
        timeout_quantile: 500,
        request_multiplier: 1,
        retries: 3,
    }
}

fn planned(first: u32, last: u32, begin: u32, end: u32) -> PlannedChunk {
    PlannedChunk { chunk: chunk(first, last), range: Range { begin, end } }
}

fn result(query_id: &str, reply: WorkerReply) -> QueryResult {
    QueryResult { query_id: query_id.to_string(), result: Some(reply) }
}

#[test]
fn single_chunk_happy_path() {
    let mut client = client(&[(0, 99)]);
    ping_from(&mut client, "W", &[(0, 99)], 1_000);
    let request = request("{\"fromBlock\":0,\"toBlock\":50}", 10, None);
    assert_eq!(resolve_start(&client, &request, 1_000), Ok(chunk(0, 99)));
    let plan = plan_request(&client, &request);
    assert_eq!(plan, vec![planned(0, 99, 0, 50)]);
    let mut attempts = ChunkAttempts::for_request(&request);
    assert_eq!(attempts.select(&client, &dataset(), &plan[0].chunk, 1_000), Selection::Worker(peer("W")));
    let text = effective_query(&request.query, &plan[0]);
    assert_eq!(text, "{\"fromBlock\":0,\"toBlock\":50}");
    let message = client.query_worker(&peer("W"), &dataset(), text.clone()).unwrap();
    assert_eq!(message.dataset, "s3://d");
    assert_eq!(message.query, text);
    assert_eq!(message.client_state_json, "{}");
    assert_eq!(client.task_worker(&message.query_id), Some(peer("W")));
    let delivery = client
        .handle_query_result(&peer("W"), result(&message.query_id, WorkerReply::Success(b"payload".to_vec())), 1_100)
        .unwrap();
    assert_eq!(delivery.query_id, message.query_id);
    assert_eq!(attempts.on_outcome(AttemptOutcome::Reply(delivery.reply)), Verdict::Done(b"payload".to_vec()));
    let mut output = OutputBuffer::new(request.buffer_size, 100);
    assert_eq!(output.complete(0, b"payload".to_vec()), Ok(vec![b"payload".to_vec()]));
    assert_eq!(output.next_index(), plan.len());
    assert_eq!(client.task_worker(&message.query_id), None);
}

#[test]
fn greylist_on_timeout_then_succeed() {
    let mut client = client(&[(0, 99)]);
    ping_from(&mut client, "W1", &[(0, 99)], 1_000);
    ping_from(&mut client, "W2", &[(0, 99)], 1_000);
    let mut attempts = ChunkAttempts::new(3, 4);
    let first = match attempts.select(&client, &dataset(), &chunk(0, 99), 1_000) {
        Selection::Worker(w) => w,
        other => panic!("no worker: {other:?}"),
    };
    let second = if first == peer("W1") { peer("W2") } else { peer("W1") };
    let message = client.query_worker_as("q1".to_string(), &first, &dataset(), "{}".to_string()).unwrap();
    assert_eq!(message.query_id, "q1");
    assert_eq!(client.handle_timeout(&"q1".to_string(), 6_000), Ok(first.clone()));
    assert_eq!(attempts.on_outcome(AttemptOutcome::TimedOut), Verdict::Retry);
    assert_eq!(client.network_state().greylist_until(&first), Some(66_000));
    assert!(client.network_state().greylist_until(&first).unwrap() > 6_000);
    assert_eq!(attempts.select(&client, &dataset(), &chunk(0, 99), 6_000), Selection::Worker(second.clone()));
    client.query_worker_as("q2".to_string(), &second, &dataset(), "{}".to_string()).unwrap();
    let delivery =
        client.handle_query_result(&second, result("q2", WorkerReply::Success(b"data".to_vec())), 6_100).unwrap();
    assert_eq!(attempts.on_outcome(AttemptOutcome::Reply(delivery.reply)), Verdict::Done(b"data".to_vec()));
    assert_eq!(
        client.handle_query_result(&first, result("q1", WorkerReply::Success(b"late".to_vec())), 6_200),
        Err(ClientError::UnknownQuery)
    );
}

#[test]
fn no_allocation_fans_out() {
    let mut client = client(&[(0, 99)]);
    for w in ["W1", "W2", "W3"] {
        ping_from(&mut client, w, &[(0, 99)], 1_000);
    }
    let mut attempts = ChunkAttempts::new(0, 4);
    let mut asked = Vec::new();
    for round in 0..3 {
        let worker = match attempts.select(&client, &dataset(), &chunk(0, 99), 2_000) {
            Selection::Worker(w) => w,
            other => panic!("no worker: {other:?}"),
        };
        assert!(!asked.contains(&worker));
        let id = format!("q{round}");
        client.query_worker_as(id.clone(), &worker, &dataset(), "{}".to_string()).unwrap();
        let reply = if round < 2 { WorkerReply::NoAllocation } else { WorkerReply::Success(b"data".to_vec()) };
        let delivery = client.handle_query_result(&worker, result(&id, reply), 2_000).unwrap();
        let verdict = attempts.on_outcome(AttemptOutcome::Reply(delivery.reply));
        if round < 2 {
            assert_eq!(verdict, Verdict::Retry);
        } else {
            assert_eq!(verdict, Verdict::Done(b"data".to_vec()));
        }
        asked.push(worker);
    }
    assert_eq!(attempts.tried_count(), 3);
    for w in &asked[..2] {
        assert_eq!(client.network_state().missing_allocation_until(w), Some(62_000));
        assert!(client.network_state().missing_allocation_until(w).unwrap() > 2_000);
    }
    assert_eq!(client.network_state().missing_allocation_until(&asked[2]), None);
}

#[test]
fn out_of_range() {
    let mut client = client(&[(0, 99), (100, 199)]);
    ping_from(&mut client, "W", &[(0, 200)], 1_000);
    assert_eq!(client.get_height(&dataset(), 1_000), Some(200));
    let request = request("{\"fromBlock\":500}", 10, None);
    assert_eq!(resolve_start(&client, &request, 1_000), Err(RequestError::OutOfRange));
    assert_eq!(plan_request(&client, &request), vec![]);
}

#[test]
fn a_missing_chunk_below_the_height_is_no_data() {
    let mut client = client(&[(0, 99), (200, 299)]);
    ping_from(&mut client, "W", &[(0, 299)], 1_000);
    assert_eq!(resolve_start(&client, &request("{\"fromBlock\":150}", 10, None), 1_000), Err(RequestError::NoData));
    assert_eq!(resolve_start(&client, &request("{\"fromBlock\":299}", 10, None), 1_000), Ok(chunk(200, 299)));
    assert_eq!(resolve_start(&client, &request("{\"fromBlock\":300}", 10, None), 1_000), Err(RequestError::OutOfRange));
    assert_eq!(resolve_start(&client, &request("{\"fromBlock\":300}", 10, None), 500_000), Err(RequestError::NoData));
    assert_eq!(start_error(Some(10), 11), RequestError::OutOfRange);
    assert_eq!(start_error(Some(10), 10), RequestError::NoData);
    assert_eq!(start_error(None, 10), RequestError::NoData);
}

#[test]
fn spoofed_reply() {
    let mut client = client(&[(0, 99)]);
    ping_from(&mut client, "W1", &[(0, 99)], 1_000);
    ping_from(&mut client, "W2", &[(0, 99)], 1_000);
    client.query_worker_as("q1".to_string(), &peer("W1"), &dataset(), "{}".to_string()).unwrap();
    assert_eq!(
        client.handle_query_result(&peer("W2"), result("q1", WorkerReply::Success(b"fake".to_vec())), 2_000),
        Err(ClientError::InvalidSender)
    );
    assert_eq!(client.network_state().greylist_until(&peer("W2")), Some(62_000));
    assert_eq!(client.network_state().greylist_until(&peer("W1")), None);
    assert_eq!(client.task_worker(&"q1".to_string()), Some(peer("W1")));
    assert_eq!(
        client.handle_query_result(&peer("W1"), result("q1", WorkerReply::Success(b"real".to_vec())), 3_000),
        Ok(Delivery { query_id: "q1".to_string(), reply: WorkerReply::Success(b"real".to_vec()) })
    );
    assert_eq!(client.task_worker(&"q1".to_string()), None);
}

#[test]
fn multi_chunk_ordering() {
    let client = client(&[(0, 99), (100, 199), (200, 299)]);
    let request = request("{\"fromBlock\":0,\"toBlock\":250}", 3, None);
    let plan = plan_request(&client, &request);
    assert_eq!(plan, vec![planned(0, 99, 0, 99), planned(100, 199, 100, 199), planned(200, 299, 200, 250)]);
    let mut output = OutputBuffer::new(request.buffer_size, 100);
    for index in 0..3 {
        assert!(output.can_start(index));
    }
    assert!(!output.can_start(3));
    assert_eq!(output.complete(2, b"two".to_vec()), Ok(vec![]));
    assert_eq!(output.next_index(), 0);
    assert_eq!(output.complete(0, b"zero".to_vec()), Ok(vec![b"zero".to_vec()]));
    assert_eq!(output.next_index(), 1);
    assert_eq!(output.complete(1, b"one".to_vec()), Ok(vec![b"one".to_vec(), b"two".to_vec()]));
    assert_eq!(output.next_index(), 3);
}

#[test]
fn the_output_buffer_refuses_what_is_out_of_its_window() {
    let mut output = OutputBuffer::new(200, 2);
    assert!(output.can_start(1));
    assert!(!output.can_start(2));
    assert_eq!(output.complete(2, vec![]), Err(BufferError::OutOfWindow));
    assert_eq!(output.complete(1, vec![1]), Ok(vec![]));
    assert_eq!(output.complete(1, vec![2]), Err(BufferError::Duplicate));
    assert_eq!(output.complete(0, vec![0]), Ok(vec![vec![0], vec![1]]));
    assert_eq!(output.complete(0, vec![0]), Err(BufferError::OutOfWindow));
    assert_eq!(output.complete(usize::MAX, vec![0]), Err(BufferError::OutOfWindow));
    assert!(output.can_start(3));
    assert_eq!(output.complete(2, vec![2]), Ok(vec![vec![2]]));
}

#[test]
fn the_plan_holds_exactly_the_chunks_that_the_query_touches() {
    let client = client(&[(0, 99), (100, 199), (200, 299), (300, 399)]);
    let all = [chunk(0, 99), chunk(100, 199), chunk(200, 299), chunk(300, 399)];
    for (first, last) in [(0u64, Some(399u64)), (150, Some(250)), (150, None), (99, Some(100)), (399, Some(1000)), (120, Some(130))] {
        let mut text = format!("{{\"fromBlock\":{first}");
        if let Some(last) = last {
            text.push_str(&format!(",\"toBlock\":{last}"));
        }
        text.push('}');
        let query = ParsedQuery::from_string(&text).unwrap();
        let plan = plan_chunks(client.dataset_storage(), &dataset(), &query, None);
        let expected: Vec<DataChunk> = all
            .iter()
            .filter(|c| c.last_block as u64 >= first && last.map_or(true, |l| c.first_block as u64 <= l))
            .cloned()
            .collect();
        assert_eq!(plan.iter().map(|p| p.chunk.clone()).collect::<Vec<_>>(), expected);
        for p in &plan {
            assert_eq!(Some(p.range), query.intersect_with(&p.chunk.range()));
        }
    }
}

#[test]
fn the_plan_stops_at_the_cap_at_a_gap_and_at_an_empty_range() {
    let client = client(&[(0, 99), (100, 199), (300, 399)]);
    let query = ParsedQuery::from_string("{\"fromBlock\":50}").unwrap();
    assert_eq!(
        plan_chunks(client.dataset_storage(), &dataset(), &query, None),
        vec![planned(0, 99, 50, 99), planned(100, 199, 100, 199)]
    );
    assert_eq!(plan_chunks(client.dataset_storage(), &dataset(), &query, Some(1)), vec![planned(0, 99, 50, 99)]);
    assert_eq!(plan_chunks(client.dataset_storage(), &dataset(), &query, Some(0)), vec![]);
    let backwards = ParsedQuery::from_string("{\"fromBlock\":50,\"toBlock\":10}").unwrap();
    assert_eq!(plan_chunks(client.dataset_storage(), &dataset(), &backwards, None), vec![]);
    let in_gap = ParsedQuery::from_string("{\"fromBlock\":250}").unwrap();
    assert_eq!(plan_chunks(client.dataset_storage(), &dataset(), &in_gap, None), vec![]);
    assert_eq!(plan_chunks(client.dataset_storage(), &DatasetId::from_url("s3://x"), &query, None), vec![]);
}

#[test]
fn selection_waits_and_then_fails_without_workers() {
    let client = client(&[(0, 99)]);
    let mut attempts = ChunkAttempts::new(2, 4);
    assert_eq!(attempts.select(&client, &dataset(), &chunk(0, 99), 1_000), Selection::Backoff(100));
    assert_eq!(attempts.select(&client, &dataset(), &chunk(0, 99), 1_100), Selection::Backoff(100));
    assert_eq!(
        attempts.select(&client, &dataset(), &chunk(0, 99), 1_200),
        Selection::Failed(RequestError::NoWorkers)
    );
}

#[test]
fn errors_exhaust_the_retries() {
    let mut client = client(&[(0, 99)]);
    ping_from(&mut client, "W1", &[(0, 99)], 1_000);
    let mut attempts = ChunkAttempts::new(1, 1);
    assert_eq!(attempts.select(&client, &dataset(), &chunk(0, 99), 1_000), Selection::Worker(peer("W1")));
    assert_eq!(
        attempts.on_outcome(AttemptOutcome::Reply(WorkerReply::ServerError("boom".to_string()))),
        Verdict::Retry
    );
    assert_eq!(
        attempts.select(&client, &dataset(), &chunk(0, 99), 1_000),
        Selection::Failed(RequestError::Exhausted)
    );
    assert_eq!(attempts.on_outcome(AttemptOutcome::TimedOut), Verdict::Failed(RequestError::Exhausted));
    assert_eq!(
        attempts.on_outcome(AttemptOutcome::Reply(WorkerReply::Timeout)),
        Verdict::Failed(RequestError::Exhausted)
    );
}

#[test]
fn a_rejected_query_fails_the_chunk_with_the_words_of_the_worker() {
    let mut attempts = ChunkAttempts::new(3, 1);
    assert_eq!(
        attempts.on_outcome(AttemptOutcome::Reply(WorkerReply::BadRequest("bad field".to_string()))),
        Verdict::Failed(RequestError::BadRequest("bad field".to_string()))
    );
}

#[test]
fn a_full_queue_costs_no_retry_and_the_worker_is_asked_again() {
    let mut client = client(&[(0, 99)]);
    ping_from(&mut client, "W1", &[(0, 99)], 1_000);
    let mut attempts = ChunkAttempts::new(0, 2);
    for _ in 0..2 {
        assert_eq!(attempts.select(&client, &dataset(), &chunk(0, 99), 1_000), Selection::Worker(peer("W1")));
        assert_eq!(attempts.on_outcome(AttemptOutcome::QueueFull), Verdict::Retry);
        assert_eq!(attempts.tried_count(), 0);
    }
    assert_eq!(attempts.select(&client, &dataset(), &chunk(0, 99), 1_000), Selection::Worker(peer("W1")));
    assert_eq!(attempts.on_outcome(AttemptOutcome::QueueFull), Verdict::Failed(RequestError::Exhausted));
    assert_eq!(attempts.on_outcome(AttemptOutcome::Dropped), Verdict::Retry);
    assert_eq!(attempts.on_outcome(AttemptOutcome::NoUnits), Verdict::Retry);
    assert_eq!(attempts.retries_left(), 0);
}

#[test]
fn workers_without_units_fail_the_chunk_as_no_allocation() {
    let mut client = client(&[(0, 99)]);
    ping_from(&mut client, "W1", &[(0, 99)], 1_000);
    ping_from(&mut client, "W2", &[(0, 99)], 1_000);
    let mut attempts = ChunkAttempts::new(1, 0);
    for _ in 0..2 {
        assert!(matches!(attempts.select(&client, &dataset(), &chunk(0, 99), 1_000), Selection::Worker(_)));
        assert_eq!(attempts.on_outcome(AttemptOutcome::Reply(WorkerReply::NoAllocation)), Verdict::Retry);
    }
    assert_eq!(attempts.select(&client, &dataset(), &chunk(0, 99), 1_000), Selection::Backoff(100));
    assert_eq!(
        attempts.select(&client, &dataset(), &chunk(0, 99), 1_100),
        Selection::Failed(RequestError::NoAllocation)
    );
}

#[test]
fn a_dropped_query_leads_to_another_worker_and_counts_as_an_error() {
    let mut client = client(&[(0, 99)]);
    ping_from(&mut client, "W1", &[(0, 99)], 1_000);
    let mut attempts = ChunkAttempts::new(0, 0);
    assert_eq!(attempts.select(&client, &dataset(), &chunk(0, 99), 1_000), Selection::Worker(peer("W1")));
    assert_eq!(attempts.on_outcome(AttemptOutcome::Dropped), Verdict::Retry);
    assert_eq!(attempts.tried_count(), 1);
    assert_eq!(
        attempts.select(&client, &dataset(), &chunk(0, 99), 1_000),
        Selection::Failed(RequestError::Exhausted)
    );
}

#[test]
fn the_client_hands_events_to_their_handlers() {
    let mut client = client(&[(0, 99)]);
    let ping = Ping { version: Some("1.2.0".to_string()), stored_ranges: vec![] };
    assert_eq!(
        client.handle_event(GatewayEvent::Ping { peer_id: peer("W1"), ping }, 1_000),
        ClientOutcome::Pinged(true)
    );
    client.query_worker_as("q1".to_string(), &peer("W1"), &dataset(), "{}".to_string()).unwrap();
    assert_eq!(
        client.handle_event(GatewayEvent::QueryDropped { query_id: "q1".to_string() }, 1_000),
        ClientOutcome::Dropped(Ok(peer("W1")))
    );
    assert_eq!(client.network_state().greylist_until(&peer("W1")), None);
    assert_eq!(
        client.handle_event(
            GatewayEvent::QueryResult { peer_id: peer("W1"), result: result("q1", WorkerReply::NoAllocation) },
            1_000
        ),
        ClientOutcome::Replied(Err(ClientError::UnknownQuery))
    );
    let empty = QueryResult { query_id: "q1".to_string(), result: None };
    assert_eq!(
        client.handle_event(GatewayEvent::QueryResult { peer_id: peer("W1"), result: empty }, 1_000),
        ClientOutcome::Replied(Err(ClientError::ResultMissing))
    );
}

#[test]
fn a_client_is_not_made_of_a_wrong_configuration() {
    let settings = StateSettings {
        worker_inactive_threshold: 1,
        greylist_duration: 1,
        allocation_backoff: 1,
        min_worker_priority: 1,
        max_worker_priority: 0,
    };
    let versions = SupportedVersions::parse("*").unwrap();
    assert!(matches!(
        NetworkClient::new(&vec!["s3://d".to_string()], versions, settings, &vec![]),
        Err(ClientError::PriorityBoundsInverted)
    ));
    let versions = SupportedVersions::parse("*").unwrap();
    assert!(matches!(
        NetworkClient::new(&vec!["d".to_string()], versions, settings, &vec![]),
        Err(ClientError::WrongBucketUrl)
    ));
}

#[test]
fn a_unit_is_reserved_before_a_query_is_sent() {
    let mut client = client(&[(0, 99)]);
    ping_from(&mut client, "W1", &[(0, 99)], 1_000);
    let mut allocations = AllocationsManager::new();
    allocations.set_allocation(&peer("W1"), 1);
    assert!(reserve_unit(&mut allocations, &mut client, &peer("W1"), 1_000));
    assert_eq!(allocations.remaining_cus(&peer("W1")), 0);
    assert_eq!(client.network_state().missing_allocation_until(&peer("W1")), None);
    assert!(!reserve_unit(&mut allocations, &mut client, &peer("W1"), 2_000));
    assert_eq!(client.network_state().missing_allocation_until(&peer("W1")), Some(62_000));
    allocations.set_allocation(&peer("W1"), 5);
    assert!(!reserve_unit(&mut allocations, &mut client, &peer("W1"), 3_000));
    assert_eq!(allocations.remaining_cus(&peer("W1")), 5);
    assert_eq!(client.network_state().missing_allocation_until(&peer("W1")), Some(62_000));
    assert!(reserve_unit(&mut allocations, &mut client, &peer("W1"), 62_000));
    assert_eq!(allocations.remaining_cus(&peer("W1")), 4);
    let mut attempts = ChunkAttempts::new(0, 0);
    assert_eq!(attempts.on_outcome(AttemptOutcome::NoUnits), Verdict::Retry);
}

#[test]
fn a_failed_send_gives_the_reserved_unit_back() {
    let mut client = client(&[(0, 99)]);
    let mut allocations = AllocationsManager::new();
    allocations.set_allocation(&peer("W1"), 3);
    assert!(reserve_unit(&mut allocations, &mut client, &peer("W1"), 1_000));
    let message = client.query_worker(&peer("W1"), &dataset(), "{}".to_string()).unwrap();
    assert_eq!(client.query_dropped(&message.query_id), Ok(peer("W1")));
    allocations.release_cus(&peer("W1"), 1);
    assert_eq!(allocations.remaining_cus(&peer("W1")), 3);
    assert_eq!(client.task_worker(&message.query_id), None);
    assert_eq!(client.query_dropped(&message.query_id), Err(ClientError::UnknownQuery));
}

#[test]
fn the_workers_of_the_roster_are_known_but_not_asked() {
    let settings = StateSettings {
        worker_inactive_threshold: 120_000,
        greylist_duration: 60_000,
        allocation_backoff: 60_000,
        min_worker_priority: 1,
        max_worker_priority: 3,
    };
    let versions = SupportedVersions::parse("*").unwrap();
    let roster = vec![peer("W1"), peer("W2"), peer("W1")];
    let client = NetworkClient::new(&vec!["s3://d".to_string()], versions, settings, &roster).unwrap();
    assert_eq!(client.network_state().worker_count(), 2);
    assert_eq!(client.network_state().priority(&peer("W1")), 1);
    assert_eq!(client.find_worker(&dataset(), &chunk(0, 99), 0), None);
    assert_eq!(client.find_chunk(&dataset(), 0), None);
    assert_eq!(client.next_chunk(&dataset(), &chunk(0, 99)), None);
    assert_eq!(client.get_height(&dataset(), 0), None);
}

#[test]
fn an_identifier_that_still_waits_is_refused() {
    let mut client = client(&[(0, 99)]);
    let message = client.query_worker_as("q1".to_string(), &peer("W1"), &dataset(), "{}".to_string()).unwrap();
    assert_eq!(message.query_id, "q1");
    assert_eq!(
        client.query_worker_as("q1".to_string(), &peer("W2"), &dataset(), "{}".to_string()),
        Err(ClientError::IdentifierInUse)
    );
    assert_eq!(client.task_worker(&"q1".to_string()), Some(peer("W1")));
    assert_eq!(client.query_dropped(&"q1".to_string()), Ok(peer("W1")));
    assert!(client.query_worker_as("q1".to_string(), &peer("W2"), &dataset(), "{}".to_string()).is_ok());
    assert_eq!(client.task_worker(&"q1".to_string()), Some(peer("W2")));
}

#[test]
fn the_attempts_of_a_request_have_its_retries_and_the_send_retries() {
    let mut client = client(&[(0, 99)]);
    ping_from(&mut client, "W1", &[(0, 99)], 1_000);
    let request = request("{\"fromBlock\":0}", 10, None);
    let mut attempts = ChunkAttempts::for_request(&request);
    assert_eq!(attempts.retries_left(), 3);
    for _ in 0..SEND_RETRIES {
        assert_eq!(attempts.select(&client, &dataset(), &chunk(0, 99), 1_000), Selection::Worker(peer("W1")));
        assert_eq!(attempts.on_outcome(AttemptOutcome::QueueFull), Verdict::Retry);
    }
    assert_eq!(attempts.on_outcome(AttemptOutcome::QueueFull), Verdict::Failed(RequestError::Exhausted));
    assert_eq!(attempts.retries_left(), 3);
}

#[test]
fn the_plan_is_cut_to_the_first_chunks_by_the_cap() {
    let client = client(&[(0, 99), (100, 199), (200, 299), (400, 499)]);
    let query = ParsedQuery::from_string("{\"fromBlock\":120,\"toBlock\":250}").unwrap();
    for cap in 0..4usize {
        let plan = plan_chunks(client.dataset_storage(), &dataset(), &query, Some(cap));
        let all = [planned(100, 199, 120, 199), planned(200, 299, 200, 250)];
        assert_eq!(plan, all[..cap.min(2)].to_vec());
    }
}

#[test]
fn a_client_needs_durations_above_zero() {
    let settings = StateSettings {
        worker_inactive_threshold: 1,
        greylist_duration: 0,
        allocation_backoff: 1,
        min_worker_priority: 0,
        max_worker_priority: 0,
    };
    let versions = SupportedVersions::parse("*").unwrap();
    assert!(matches!(
        NetworkClient::new(&vec!["s3://d".to_string()], versions, settings, &vec![]),
        Err(ClientError::ZeroDuration)
    ));
}
