use aggbook::feeds::{binance_stream_url, bitstamp_channel};
use aggbook::feeds::{after_connection, ConnectionEnd, FeedTaskStep};
use aggbook::feeds::{
    binance_book_from_json, binance_text_book, bitstamp_book_from_json, bitstamp_text_book,
    snapshot_from_levels, FeedParseError, TextBook, TextLevel,
};
use aggbook::json::JsonValue;
use aggbook::model::{ContributorSnapshot, PriceLevel};
use aggbook::sources::SourceId;

/// Converts the level texts the way the feed task does: each number in order, failing
/// at the first text that is not a number, panicking where a text is missing.
fn convert(levels: &[TextLevel]) -> Result<Vec<(u64, u64)>, String> {
    let mut out = Vec::new();
    for level in levels {
        let price = level.price.as_ref().expect("price is not a string");
        let price = price.parse::<f64>().map_err(|e| e.to_string())?;
        let amount = level.amount.as_ref().expect("amount is not a string");
        let amount = amount.parse::<f64>().map_err(|e| e.to_string())?;
        out.push((price.to_bits(), amount.to_bits()));
    }
    Ok(out)
}

fn snapshot_of<const N: usize>(source: SourceId, arrival_time: u64, book: &TextBook) -> Result<ContributorSnapshot<N>, String> {
    let bids = convert(&book.bids)?;
    let asks = convert(&book.asks)?;
    Ok(snapshot_from_levels::<N>(source, arrival_time, &bids, &asks))
}

fn parse_orderbook_update<const N: usize>(payload: &str, arrival_time: u64) -> Result<ContributorSnapshot<N>, String> {
    let book = binance_text_book::<N>(payload).map_err(|e| format!("{:?}", e))?;
    snapshot_of::<N>(SourceId::Binance, arrival_time, &book)
}

fn parse_bitstamp_update<const N: usize>(
    txt: &str,
    subscribed_channel: &str,
    arrival_time: u64,
) -> Result<Option<ContributorSnapshot<N>>, String> {
    match bitstamp_text_book::<N>(txt, subscribed_channel).map_err(|e| format!("{:?}", e))? {
        Some(book) => snapshot_of::<N>(SourceId::Bitstamp, arrival_time, &book).map(Some),
        None => Ok(None),
    }
}

fn level_values(levels: &[PriceLevel]) -> Vec<(f64, f64)> {
    levels.iter().map(|l| (f64::from_bits(l.price), f64::from_bits(l.amount))).collect()
}

const BINANCE_SAMPLE_JSON: &str = r#"
    {
      "bids": [["0.062", "7.5"], ["0.0619", "2.3"]],
      "asks": [["0.063", "1.7"], ["0.064", "0.4"]]
    }
    "#;

#[test]
fn test_parse_binance_update_valid() {
    let snapshot = parse_orderbook_update::<2>(BINANCE_SAMPLE_JSON, 0).expect("Failed to parse");

    assert_eq!(snapshot.source_id(), SourceId::Binance);

    let bids = level_values(snapshot.bids());
    assert_eq!(bids.len(), 2);
    assert_eq!(bids[0].0, 0.062);
    assert_eq!(bids[0].1, 7.5);
    assert_eq!(bids[1].0, 0.0619);
    assert_eq!(bids[1].1, 2.3);

    let asks = level_values(snapshot.asks());
    assert_eq!(asks.len(), 2);
    assert_eq!(asks[0].0, 0.063);
    assert_eq!(asks[0].1, 1.7);
    assert_eq!(asks[1].0, 0.064);
    assert_eq!(asks[1].1, 0.4);
}

#[test]
fn test_parse_binance_update_empty() {
    let empty_json = r#"{"b": [], "a": []}"#;
    let snapshot = parse_orderbook_update::<5>(empty_json, 0).expect("Failed to parse");
    assert!(snapshot.bids().is_empty());
    assert!(snapshot.asks().is_empty());
}

#[test]
fn test_parse_binance_update_partial_depth() {
    let small_json = r#"
        {
          "bids": [["0.05", "3.0"]],
          "asks": [["0.06", "4.0"]]
        }
        "#;
    let snapshot = parse_orderbook_update::<5>(small_json, 0).expect("Failed to parse");

    assert_eq!(snapshot.bids().len(), 1);
    assert_eq!(snapshot.asks().len(), 1);
    assert_eq!(level_values(snapshot.bids())[0], (0.05, 3.0));
    assert_eq!(level_values(snapshot.asks())[0], (0.06, 4.0));
}

const BITSTAMP_SAMPLE_JSON: &str = r#"
    {
      "event": "data",
      "channel": "order_book_ethbtc",
      "data": {
        "timestamp": "1629384756",
        "bids": [["0.032", "5.0"], ["0.0319", "1.2"]],
        "asks": [["0.033", "3.1"], ["0.034", "0.7"]]
      }
    }"#;

#[test]
fn test_parse_bitstamp_update_valid() {
    let result = parse_bitstamp_update::<2>(BITSTAMP_SAMPLE_JSON, "order_book_ethbtc", 0).unwrap();
    let snapshot = result.expect("Expected snapshot");

    assert_eq!(snapshot.source_id(), SourceId::Bitstamp);

    let bids = level_values(snapshot.bids());
    assert_eq!(bids.len(), 2);
    assert_eq!(bids[0], (0.032, 5.0));
    assert_eq!(bids[1], (0.0319, 1.2));

    let asks = level_values(snapshot.asks());
    assert_eq!(asks.len(), 2);
    assert_eq!(asks[0], (0.033, 3.1));
    assert_eq!(asks[1], (0.034, 0.7));
}

#[test]
fn test_parse_bitstamp_update_wrong_channel() {
    let result = parse_bitstamp_update::<2>(BITSTAMP_SAMPLE_JSON, "order_book_btcusd", 0).unwrap();
    assert!(result.is_none(), "Should return None for unrelated channel");
}

#[test]
fn test_parse_bitstamp_update_wrong_event() {
    let wrong_event = BITSTAMP_SAMPLE_JSON.replace("\"event\": \"data\"", "\"event\": \"other\"");
    let result = parse_bitstamp_update::<2>(&wrong_event, "order_book_ethbtc", 0).unwrap();
    assert!(result.is_none(), "Should return None for wrong event type");
}

#[test]
fn invalid_json_is_an_error() {
    assert_eq!(binance_text_book::<5>("{not json").unwrap_err(), FeedParseError::InvalidJson);
    assert_eq!(bitstamp_text_book::<5>("", "c").unwrap_err(), FeedParseError::InvalidJson);
}

#[test]
fn binance_keeps_first_n_entries_and_marks_non_strings() {
    let book = binance_text_book::<2>(r#"{"bids": [["1", 2], [3, "4"], ["5", "6"]], "asks": "none"}"#).unwrap();
    assert_eq!(book.bids.len(), 2);
    assert_eq!(book.bids[0].price.as_deref(), Some("1"));
    assert_eq!(book.bids[0].amount, None);
    assert_eq!(book.bids[1].price, None);
    assert_eq!(book.bids[1].amount.as_deref(), Some("4"));
    assert!(book.asks.is_empty());
}

#[test]
fn bitstamp_skips_incomplete_entries() {
    let txt = r#"{"event": "data", "channel": "c", "data": {"bids": [["1"], ["2", "3"], [4, "5"]]}}"#;
    let book = bitstamp_text_book::<3>(txt, "c").unwrap().unwrap();
    assert_eq!(book.bids.len(), 1);
    assert_eq!(book.bids[0].price.as_deref(), Some("2"));
    assert_eq!(book.bids[0].amount.as_deref(), Some("3"));
    assert!(book.asks.is_empty());
}

#[test]
fn non_positive_amounts_are_skipped() {
    let snapshot = parse_orderbook_update::<5>(
        r#"{"bids": [["1.0", "0"], ["0.9", "-1"], ["0.8", "2"]], "asks": [["1.1", "0.0"]]}"#,
        42,
    )
    .unwrap();
    assert_eq!(level_values(snapshot.bids()), vec![(0.8, 2.0)]);
    assert!(snapshot.asks().is_empty());
    assert_eq!(snapshot.arrival_time(), 42);
}

#[test]
fn unparsable_number_is_an_error() {
    assert!(parse_orderbook_update::<5>(r#"{"bids": [["x", "1"]]}"#, 0).is_err());
}

#[test]
fn book_from_hand_built_document() {
    let entry = |p: &str, a: &str| JsonValue::Array(vec![JsonValue::Str(p.to_string()), JsonValue::Str(a.to_string())]);
    let doc = JsonValue::Object(vec![
        ("asks".to_string(), JsonValue::Array(vec![entry("2", "1")])),
        ("bids".to_string(), JsonValue::Array(vec![entry("1", "1"), entry("0.5", "3")])),
    ]);
    let book = binance_book_from_json::<1>(&doc);
    assert_eq!(book.bids.len(), 1);
    assert_eq!(book.bids[0].price.as_deref(), Some("1"));
    assert_eq!(book.asks[0].price.as_deref(), Some("2"));

    let message = JsonValue::Object(vec![
        ("channel".to_string(), JsonValue::Str("ch".to_string())),
        ("data".to_string(), doc),
        ("event".to_string(), JsonValue::Str("data".to_string())),
    ]);
    assert!(bitstamp_book_from_json::<5>(&message, "other").is_none());
    let book = bitstamp_book_from_json::<5>(&message, "ch").unwrap();
    assert_eq!(book.bids.len(), 2);
    assert_eq!(book.bids[1].amount.as_deref(), Some("3"));
}

#[test]
fn feed_task_reconnects_only_after_an_uninterrupted_backoff() {
    assert_eq!(after_connection(ConnectionEnd::Closed), FeedTaskStep::Stop);
    assert_eq!(
        after_connection(ConnectionEnd::Failed { shutdown_during_backoff: false }),
        FeedTaskStep::Reconnect
    );
    assert_eq!(
        after_connection(ConnectionEnd::Failed { shutdown_during_backoff: true }),
        FeedTaskStep::Stop
    );
}

#[test]
fn feed_addresses_use_the_lower_case_symbol() {
    assert_eq!(bitstamp_channel("ETHBTC"), "order_book_ethbtc");
    assert_eq!(bitstamp_channel("ethbtc"), "order_book_ethbtc");
    assert_eq!(
        binance_stream_url("ETHBTC"),
        "wss://stream.binance.com:9443/ws/ethbtc@depth20@100ms"
    );
}
