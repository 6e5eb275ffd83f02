use query_gateway::request::{ParsedQuery, QueryError};
use query_gateway::types::Range;

fn range(begin: u32, end: u32) -> Range {
    Range { begin, end }
}

#[test]
fn from_string_reads_the_block_range() {
    let q = ParsedQuery::from_string("{\"fromBlock\": 10, \"toBlock\": 20, \"logs\": []}").unwrap();
    assert_eq!(q.first_block(), 10);
    assert_eq!(q.last_block(), Some(20));
}

#[test]
fn from_string_takes_a_query_without_an_upper_end() {
    let q = ParsedQuery::from_string("{\"fromBlock\": 0}").unwrap();
    assert_eq!(q.first_block(), 0);
    assert_eq!(q.last_block(), None);
}

#[test]
fn from_string_takes_the_largest_block() {
    let q = ParsedQuery::from_string("{\"fromBlock\": 18446744073709551615}").unwrap();
    assert_eq!(q.first_block(), u64::MAX);
}

#[test]
fn from_string_refuses_what_is_not_json() {
    assert_eq!(ParsedQuery::from_string("{fromBlock: 1").err(), Some(QueryError::InvalidJson));
    assert_eq!(ParsedQuery::from_string("").err(), Some(QueryError::InvalidJson));
}

#[test]
fn from_string_requires_an_unsigned_from_block() {
    assert_eq!(ParsedQuery::from_string("{\"toBlock\": 5}").err(), Some(QueryError::MissingFromBlock));
    assert_eq!(ParsedQuery::from_string("{\"fromBlock\": -1}").err(), Some(QueryError::MissingFromBlock));
    assert_eq!(ParsedQuery::from_string("{\"fromBlock\": 1.5}").err(), Some(QueryError::MissingFromBlock));
    assert_eq!(ParsedQuery::from_string("{\"fromBlock\": \"1\"}").err(), Some(QueryError::MissingFromBlock));
    assert_eq!(ParsedQuery::from_string("[1, 2]").err(), Some(QueryError::MissingFromBlock));
    assert_eq!(ParsedQuery::from_string("7").err(), Some(QueryError::MissingFromBlock));
}

#[test]
fn a_to_block_that_is_no_unsigned_integer_counts_as_absent() {
    let q = ParsedQuery::from_string("{\"fromBlock\": 3, \"toBlock\": \"latest\"}").unwrap();
    assert_eq!(q.last_block(), None);
}

#[test]
fn from_parts_needs_a_first_block() {
    let json: serde_json::Value = serde_json::from_str("{\"fromBlock\": 3}").unwrap();
    let q = ParsedQuery::from_parts(json.clone(), Some(3), Some(9)).unwrap();
    assert_eq!(q.first_block(), 3);
    assert_eq!(q.last_block(), Some(9));
    assert_eq!(ParsedQuery::from_parts(json, None, Some(9)).err(), Some(QueryError::MissingFromBlock));
}

#[test]
fn with_range_rewrites_the_block_range() {
    let q = ParsedQuery::from_string("{\"fromBlock\": 0, \"toBlock\": 1000, \"fields\": {\"a\": true}}").unwrap();
    assert_eq!(q.with_range(&range(5, 10)), "{\"fields\":{\"a\":true},\"fromBlock\":5,\"toBlock\":10}");
}

#[test]
fn with_range_adds_a_missing_to_block() {
    let q = ParsedQuery::from_string("{\"fromBlock\": 7}").unwrap();
    assert_eq!(q.with_range(&range(7, 99)), "{\"fromBlock\":7,\"toBlock\":99}");
    assert_eq!(q.first_block(), 7);
    assert_eq!(q.last_block(), None);
}

#[test]
fn with_range_writes_numbers_in_decimal() {
    let q = ParsedQuery::from_string("{\"fromBlock\": 1}").unwrap();
    assert_eq!(q.with_range(&range(0, u32::MAX)), "{\"fromBlock\":0,\"toBlock\":4294967295}");
}

#[test]
fn with_range_of_the_intersection_keeps_the_other_fields() {
    let text = "{\"type\": \"evm\", \"fromBlock\": 40, \"toBlock\": 160, \"logs\": [{\"address\": [\"0xabc\"]}], \"includeAllBlocks\": false}";
    let q = ParsedQuery::from_string(text).unwrap();
    let part = q.intersect_with(&range(100, 199)).unwrap();
    assert_eq!(part, range(100, 160));
    let rewritten: serde_json::Value = serde_json::from_str(&q.with_range(&part)).unwrap();
    let sent: serde_json::Value = serde_json::from_str(text).unwrap();
    let rewritten = rewritten.as_object().unwrap();
    let sent = sent.as_object().unwrap();
    assert_eq!(rewritten.len(), sent.len());
    for (key, value) in sent {
        if key != "fromBlock" && key != "toBlock" {
            assert_eq!(rewritten.get(key), Some(value));
        }
    }
    assert_eq!(rewritten.get("fromBlock").and_then(|v| v.as_u64()), Some(100));
    assert_eq!(rewritten.get("toBlock").and_then(|v| v.as_u64()), Some(160));
}

#[test]
fn intersect_with_cuts_the_range_to_the_query() {
    let q = ParsedQuery::from_string("{\"fromBlock\": 50, \"toBlock\": 150}").unwrap();
    assert_eq!(q.intersect_with(&range(0, 99)), Some(range(50, 99)));
    assert_eq!(q.intersect_with(&range(100, 199)), Some(range(100, 150)));
    assert_eq!(q.intersect_with(&range(60, 70)), Some(range(60, 70)));
    assert_eq!(q.intersect_with(&range(0, 200)), Some(range(50, 150)));
    assert_eq!(q.intersect_with(&range(150, 150)), Some(range(150, 150)));
    assert_eq!(q.intersect_with(&range(0, 49)), None);
    assert_eq!(q.intersect_with(&range(151, 300)), None);
}

#[test]
fn intersect_with_has_no_upper_end_without_to_block() {
    let q = ParsedQuery::from_string("{\"fromBlock\": 50}").unwrap();
    assert_eq!(q.intersect_with(&range(0, u32::MAX)), Some(range(50, u32::MAX)));
    assert_eq!(q.intersect_with(&range(0, 49)), None);
}

#[test]
fn intersect_with_does_not_wrap_large_blocks() {
    let q = ParsedQuery::from_string("{\"fromBlock\": 4294967296}").unwrap();
    assert_eq!(q.intersect_with(&range(0, u32::MAX)), None);
    let q = ParsedQuery::from_string("{\"fromBlock\": 5, \"toBlock\": 4294967301}").unwrap();
    assert_eq!(q.intersect_with(&range(0, 100)), Some(range(5, 100)));
}

#[test]
fn intersect_with_is_empty_where_the_query_ends_before_it_starts() {
    let q = ParsedQuery::from_string("{\"fromBlock\": 50, \"toBlock\": 10}").unwrap();
    assert_eq!(q.intersect_with(&range(0, 99)), None);
}

#[test]
fn a_copy_of_a_query_is_the_same_query() {
    let q = ParsedQuery::from_string("{\"fromBlock\": 1, \"toBlock\": 2, \"x\": null}").unwrap();
    let copy = q.clone();
    assert_eq!(copy.first_block(), 1);
    assert_eq!(copy.last_block(), Some(2));
    assert_eq!(copy.with_range(&range(1, 2)), q.with_range(&range(1, 2)));
}

#[test]
fn a_query_is_parsed_from_text_either_way() {
    let parsed: ParsedQuery = "{\"fromBlock\": 4, \"toBlock\": 8}".parse().unwrap();
    assert_eq!(parsed.first_block(), 4);
    assert_eq!(parsed.last_block(), Some(8));
    assert_eq!("{}".parse::<ParsedQuery>().err(), Some(QueryError::MissingFromBlock));
    assert_eq!("{".parse::<ParsedQuery>().err(), Some(QueryError::InvalidJson));
}

#[test]
fn with_range_leaves_the_query_as_it_was() {
    let q = ParsedQuery::from_string("{\"fromBlock\": 1, \"toBlock\": 9, \"x\": [1, 2]}").unwrap();
    assert_eq!(q.with_range(&range(3, 4)), "{\"fromBlock\":3,\"toBlock\":4,\"x\":[1,2]}");
    assert_eq!(q.with_range(&range(1, 9)), "{\"fromBlock\":1,\"toBlock\":9,\"x\":[1,2]}");
    assert_eq!(q.first_block(), 1);
    assert_eq!(q.last_block(), Some(9));
}
