use query_gateway::allocations::AllocationsManager;
use query_gateway::messages::{FinishedResult, GatewayEvent, Ping, QueryResult, StoredRanges, WorkerReply};
use query_gateway::network::state::{NetworkState, StateSettings};
use query_gateway::server::{ClientQuery, EventOutcome, QueryStart, Server, ServerError};
use query_gateway::types::{DatasetId, PeerId, Range};
use query_gateway::version::SupportedVersions;

fn peer(name: &str) -> PeerId {
    PeerId(name.to_string())
}

fn server(metrics: bool) -> Server {
    let settings = StateSettings {
        worker_inactive_threshold: 120_000,
        greylist_duration: 60_000,
        allocation_backoff: 60_000,
        min_worker_priority: -5,
        max_worker_priority: 3,
    };
    let versions = SupportedVersions::parse(">=1.1.0-rc3").unwrap();
    let state = NetworkState::new(versions, settings, &vec![peer("w1"), peer("w2")]).unwrap();
    let mut server = Server::new(peer("gateway"), state, AllocationsManager::new(), metrics);
    server.set_allocation(&peer("w1"), 2);
    server
}

fn query(worker: &str) -> ClientQuery {
    ClientQuery {
        dataset_id: DatasetId::from_url("s3://ethereum/"),
        query: "{\"fromBlock\":0}".to_string(),
        worker_id: peer(worker),
        timeout: 5_000,
        profiling: true,
    }
}

fn reply(query_id: &str, reply: WorkerReply) -> QueryResult {
    QueryResult { query_id: query_id.to_string(), result: Some(reply) }
}

#[test]
fn a_query_is_started_with_a_reserved_unit() {
    let mut server = server(true);
    match server.start_query("q1".to_string(), query("w1"), 1_000) {
        QueryStart::Started { query_id, message, timeout, metrics } => {
            assert_eq!(query_id, "q1");
            assert_eq!(message.query_id, "q1");
            assert_eq!(message.dataset, "s3://ethereum");
            assert_eq!(message.query, "{\"fromBlock\":0}");
            assert_eq!(message.profiling, Some(true));
            assert_eq!(message.client_state_json, "{}");
            assert_eq!(message.signature, Vec::<u8>::new());
            assert_eq!(message.block_range, None);
            assert_eq!(timeout, 5_000);
            let metrics = metrics.unwrap();
            assert_eq!(metrics.client_id, "gateway");
            assert_eq!(metrics.worker_id, "w1");
            assert_eq!(metrics.query_id, "q1");
            assert_eq!(metrics.dataset, "s3://ethereum");
            assert_eq!(metrics.query, "{\"fromBlock\":0}");
        },
        other => panic!("not started: {other:?}"),
    }
    assert_eq!(server.allocations_manager().remaining_cus(&peer("w1")), 1);
    assert_eq!(server.task_worker(&"q1".to_string()), Some(peer("w1")));
    assert_eq!(server.open_tasks(), 1);
}

#[test]
fn fresh_query_identifiers_differ() {
    let mut server = server(false);
    let first = server.handle_query(query("w1"), 1_000);
    let second = server.handle_query(query("w1"), 1_000);
    match (first, second) {
        (
            QueryStart::Started { query_id: a, metrics: None, .. },
            QueryStart::Started { query_id: b, metrics: None, .. },
        ) => {
            assert_ne!(a, b);
            assert_eq!(a.len(), 36);
            assert_eq!(server.task_worker(&a), Some(peer("w1")));
            assert_eq!(server.task_worker(&b), Some(peer("w1")));
        },
        other => panic!("not started: {other:?}"),
    }
    assert_eq!(server.open_tasks(), 2);
    assert_eq!(server.handle_query(query("w1"), 1_000), QueryStart::NoAllocation);
}

#[test]
fn a_worker_without_units_is_refused_and_remembered() {
    let mut server = server(true);
    assert_eq!(server.start_query("q1".to_string(), query("w2"), 1_000), QueryStart::NoAllocation);
    assert_eq!(server.open_tasks(), 0);
    assert_eq!(server.network_state().missing_allocation_until(&peer("w2")), Some(61_000));
    server.set_allocation(&peer("w2"), 5);
    assert_eq!(server.start_query("q2".to_string(), query("w2"), 30_000), QueryStart::NoAllocation);
    assert_eq!(server.allocations_manager().remaining_cus(&peer("w2")), 5);
    assert_eq!(server.network_state().missing_allocation_until(&peer("w2")), Some(61_000));
    assert!(matches!(server.start_query("q3".to_string(), query("w2"), 61_000), QueryStart::Started { .. }));
    assert_eq!(server.allocations_manager().remaining_cus(&peer("w2")), 4);
}

#[test]
fn a_reply_settles_the_task() {
    let mut server = server(true);
    server.start_query("q1".to_string(), query("w1"), 1_000);
    let delivered =
        server.query_result(&peer("w1"), reply("q1", WorkerReply::Success(b"payload".to_vec())), 1_250).unwrap();
    assert_eq!(delivered.query_id, "q1");
    assert_eq!(delivered.reply, WorkerReply::Success(b"payload".to_vec()));
    let metrics = delivered.metrics.unwrap();
    assert_eq!(metrics.client_id, "gateway");
    assert_eq!(metrics.worker_id, "w1");
    assert_eq!(metrics.query_id, "q1");
    assert_eq!(metrics.exec_time_ms, 250);
    assert_eq!(metrics.result, FinishedResult::Replied);
    assert_eq!(server.open_tasks(), 0);
    assert_eq!(server.network_state().greylist_until(&peer("w1")), None);
    assert_eq!(
        server.query_result(&peer("w1"), reply("q1", WorkerReply::Success(vec![])), 1_300).err(),
        Some(ServerError::UnknownQuery)
    );
}

#[test]
fn a_server_error_greylists_the_worker() {
    let mut server = server(false);
    server.start_query("q1".to_string(), query("w1"), 1_000);
    let delivered =
        server.query_result(&peer("w1"), reply("q1", WorkerReply::ServerError("boom".to_string())), 2_000).unwrap();
    assert_eq!(delivered.reply, WorkerReply::ServerError("boom".to_string()));
    assert_eq!(delivered.metrics, None);
    assert_eq!(server.network_state().greylist_until(&peer("w1")), Some(62_000));
    assert_eq!(server.network_state().missing_allocation_until(&peer("w1")), None);
}

#[test]
fn a_reply_of_no_allocation_is_remembered() {
    let mut server = server(false);
    server.start_query("q1".to_string(), query("w1"), 1_000);
    server.query_result(&peer("w1"), reply("q1", WorkerReply::NoAllocation), 2_000).unwrap();
    assert_eq!(server.network_state().missing_allocation_until(&peer("w1")), Some(62_000));
    assert_eq!(server.network_state().greylist_until(&peer("w1")), None);
    assert_eq!(server.start_query("q2".to_string(), query("w1"), 3_000), QueryStart::NoAllocation);
}

#[test]
fn a_bad_request_changes_nothing_of_the_worker() {
    let mut server = server(false);
    server.start_query("q1".to_string(), query("w1"), 1_000);
    let delivered =
        server.query_result(&peer("w1"), reply("q1", WorkerReply::BadRequest("no".to_string())), 2_000).unwrap();
    assert_eq!(delivered.reply, WorkerReply::BadRequest("no".to_string()));
    assert_eq!(server.network_state().greylist_until(&peer("w1")), None);
    assert_eq!(server.network_state().missing_allocation_until(&peer("w1")), None);
}

#[test]
fn a_message_without_a_reply_is_refused() {
    let mut server = server(false);
    server.start_query("q1".to_string(), query("w1"), 1_000);
    let empty = QueryResult { query_id: "q1".to_string(), result: None };
    assert_eq!(server.query_result(&peer("w1"), empty, 2_000).err(), Some(ServerError::ResultMissing));
    assert_eq!(server.open_tasks(), 1);
}

#[test]
fn a_spoofed_reply_greylists_its_sender_and_leaves_the_task_open() {
    let mut server = server(false);
    server.start_query("q1".to_string(), query("w1"), 1_000);
    assert_eq!(
        server.query_result(&peer("w2"), reply("q1", WorkerReply::Success(b"fake".to_vec())), 2_000).err(),
        Some(ServerError::InvalidSender)
    );
    assert_eq!(server.network_state().greylist_until(&peer("w2")), Some(62_000));
    assert_eq!(server.network_state().greylist_until(&peer("w1")), None);
    assert_eq!(server.task_worker(&"q1".to_string()), Some(peer("w1")));
    let delivered =
        server.query_result(&peer("w1"), reply("q1", WorkerReply::Success(b"real".to_vec())), 3_000).unwrap();
    assert_eq!(delivered.reply, WorkerReply::Success(b"real".to_vec()));
    assert_eq!(server.open_tasks(), 0);
}

#[test]
fn a_timeout_closes_the_task_and_greylists_the_worker() {
    let mut server = server(true);
    server.start_query("q1".to_string(), query("w1"), 1_000);
    let metrics = server.handle_timeout(&"q1".to_string(), 6_000).unwrap().unwrap();
    assert_eq!(metrics.worker_id, "w1");
    assert_eq!(metrics.query_id, "q1");
    assert_eq!(metrics.exec_time_ms, 5_000);
    assert_eq!(metrics.result, FinishedResult::Timeout("client timeout".to_string()));
    assert_eq!(server.network_state().greylist_until(&peer("w1")), Some(66_000));
    assert_eq!(server.open_tasks(), 0);
    assert_eq!(server.allocations_manager().remaining_cus(&peer("w1")), 1);
    assert_eq!(server.handle_timeout(&"q1".to_string(), 7_000), Err(ServerError::UnknownQuery));
    assert_eq!(
        server.query_result(&peer("w1"), reply("q1", WorkerReply::Success(vec![])), 7_000).err(),
        Some(ServerError::UnknownQuery)
    );
}

#[test]
fn a_timeout_without_metrics_reports_nothing() {
    let mut server = server(false);
    server.start_query("q1".to_string(), query("w1"), 1_000);
    assert_eq!(server.handle_timeout(&"q1".to_string(), 6_000), Ok(None));
}

#[test]
fn a_dropped_query_gives_its_unit_back() {
    let mut server = server(true);
    server.start_query("q1".to_string(), query("w1"), 1_000);
    assert_eq!(server.allocations_manager().remaining_cus(&peer("w1")), 1);
    assert_eq!(server.query_dropped(&"q1".to_string()), Ok(peer("w1")));
    assert_eq!(server.allocations_manager().remaining_cus(&peer("w1")), 2);
    assert_eq!(server.network_state().greylist_until(&peer("w1")), None);
    assert_eq!(server.open_tasks(), 0);
    assert_eq!(server.query_dropped(&"q1".to_string()), Err(ServerError::UnknownQuery));
    assert_eq!(server.allocations_manager().remaining_cus(&peer("w1")), 2);
}

#[test]
fn a_failed_send_gives_its_unit_back() {
    let mut server = server(true);
    server.start_query("q1".to_string(), query("w1"), 1_000);
    assert_eq!(server.send_failed(&"q1".to_string()), Ok(peer("w1")));
    assert_eq!(server.allocations_manager().remaining_cus(&peer("w1")), 2);
    assert_eq!(server.open_tasks(), 0);
    assert_eq!(server.send_failed(&"unknown".to_string()), Err(ServerError::UnknownQuery));
}

#[test]
fn the_execution_time_stops_at_32_bits() {
    let mut server = server(true);
    server.start_query("q1".to_string(), query("w1"), 1_000);
    let metrics = server.handle_timeout(&"q1".to_string(), 1_000 + (1u64 << 40)).unwrap().unwrap();
    assert_eq!(metrics.exec_time_ms, u32::MAX);
    server.start_query("q2".to_string(), query("w1"), 9_000);
    let metrics = server.handle_timeout(&"q2".to_string(), 8_000).unwrap().unwrap();
    assert_eq!(metrics.exec_time_ms, 0);
}

#[test]
fn events_go_to_the_handler_of_their_kind() {
    let mut server = server(false);
    let ping = Ping {
        version: Some("1.2.0".to_string()),
        stored_ranges: vec![StoredRanges {
            url: "s3://ethereum".to_string(),
            ranges: vec![Range { begin: 0, end: 99 }],
        }],
    };
    assert_eq!(
        server.on_incoming_event(GatewayEvent::Ping { peer_id: peer("w1"), ping }, 1_000),
        EventOutcome::Pinged(true)
    );
    assert!(server.network_state().is_eligible(&peer("w1"), &DatasetId::from_url("s3://ethereum"), 5, 1_000));
    let old = Ping { version: Some("0.9.0".to_string()), stored_ranges: vec![] };
    assert_eq!(
        server.on_incoming_event(GatewayEvent::Ping { peer_id: peer("w2"), ping: old }, 1_000),
        EventOutcome::Pinged(false)
    );
    server.start_query("q1".to_string(), query("w1"), 1_000);
    server.start_query("q2".to_string(), query("w1"), 1_000);
    match server.on_incoming_event(
        GatewayEvent::QueryResult { peer_id: peer("w1"), result: reply("q1", WorkerReply::Timeout) },
        2_000,
    ) {
        EventOutcome::Replied(Ok(delivered)) => assert_eq!(delivered.reply, WorkerReply::Timeout),
        other => panic!("not delivered: {other:?}"),
    }
    assert_eq!(
        server.on_incoming_event(GatewayEvent::QueryDropped { query_id: "q2".to_string() }, 2_000),
        EventOutcome::Dropped(Ok(peer("w1")))
    );
    assert_eq!(
        server.on_incoming_event(GatewayEvent::QueryDropped { query_id: "q2".to_string() }, 2_000),
        EventOutcome::Dropped(Err(ServerError::UnknownQuery))
    );
}

#[test]
fn an_identifier_of_an_open_task_is_refused() {
    let mut server = server(true);
    assert!(matches!(server.start_query("q1".to_string(), query("w1"), 1_000), QueryStart::Started { .. }));
    assert_eq!(server.start_query("q1".to_string(), query("w1"), 2_000), QueryStart::IdentifierInUse);
    assert_eq!(server.start_query("q1".to_string(), query("w2"), 2_000), QueryStart::IdentifierInUse);
    assert_eq!(server.allocations_manager().remaining_cus(&peer("w1")), 1);
    assert_eq!(server.network_state().missing_allocation_until(&peer("w2")), None);
    assert_eq!(server.open_tasks(), 1);
    assert_eq!(server.task_worker(&"q1".to_string()), Some(peer("w1")));
    let delivered =
        server.query_result(&peer("w1"), reply("q1", WorkerReply::Success(b"data".to_vec())), 3_000).unwrap();
    assert_eq!(delivered.metrics.unwrap().exec_time_ms, 2_000);
    assert!(matches!(server.start_query("q1".to_string(), query("w1"), 4_000), QueryStart::Started { .. }));
}

#[test]
fn the_deadlines_of_the_registry_lie_after_now() {
    let mut server = server(false);
    server.start_query("q1".to_string(), query("w1"), 1_000);
    server.handle_timeout(&"q1".to_string(), 6_000).unwrap();
    assert!(server.network_state().greylist_until(&peer("w1")).unwrap() > 6_000);
    assert_eq!(server.network_state().greylist_until(&peer("w2")), None);
    server.start_query("q2".to_string(), query("w2"), 7_000);
    assert!(server.network_state().missing_allocation_until(&peer("w2")).unwrap() > 7_000);
    assert!(!server.network_state().worker_has_allocation(&peer("w2"), 7_000));
}
