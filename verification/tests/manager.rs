use aggbook::instrument::{Instrument, InstrumentMap, SourceSymbol};
use aggbook::manager::{plan_sources, removal_requested, FeedTable, GraceEvent, OpenDecision, Subscriptions};
use aggbook::sources::SourceId;

fn instrument_with_symbol(symbol: &str) -> InstrumentMap {
    let source_symbols = vec![SourceSymbol {
        source: SourceId::Binance,
        symbol: symbol.to_string(),
    }];
    let instrument = Instrument::new(symbol.to_string(), source_symbols);
    InstrumentMap::new(vec![instrument])
}

#[test]
fn manager_creates_and_reuses_feed() {
    let instruments = instrument_with_symbol("ethbtc-test-1");
    let mut table = FeedTable::new();
    let feed1 = match table.open("ethbtc-test-1", &instruments) {
        OpenDecision::Create(instrument) => {
            assert_eq!(instrument.symbol, "ethbtc-test-1");
            table.insert("ethbtc-test-1".to_string(), 1);
            1
        }
        other => panic!("unexpected {:?}", other),
    };
    let feed2 = match table.open("ethbtc-test-1", &instruments) {
        OpenDecision::Reuse(id) => id,
        other => panic!("unexpected {:?}", other),
    };
    assert_eq!(feed1, feed2);
}

#[test]
fn feed_unsubscribe_triggers_removal() {
    let instruments = instrument_with_symbol("ethbtc-test-2");
    let mut table = FeedTable::new();
    assert!(matches!(table.open("ethbtc-test-2", &instruments), OpenDecision::Create(_)));
    table.insert("ethbtc-test-2".to_string(), 7);

    let mut subscriptions = Subscriptions::new();
    assert!(subscriptions.on_subscribe());
    assert_eq!(subscriptions.count(), 1);
    assert!(subscriptions.on_unsubscribe());
    assert!(removal_requested(GraceEvent::Elapsed));
    assert!(table.remove_if_unused("ethbtc-test-2", 7, subscriptions.count()));
    assert_eq!(table.len(), 0);
    assert!(matches!(table.open("ethbtc-test-2", &instruments), OpenDecision::Create(_)));
}

#[test]
fn manager_shutdown_drains_all_feeds() {
    let instruments = instrument_with_symbol("ethbtc-test-3");
    let mut table = FeedTable::new();
    table.insert("ethbtc-test-3".to_string(), 3);
    table.insert("other".to_string(), 4);
    let mut drained = table.shutdown();
    drained.sort();
    assert_eq!(drained, vec![3, 4]);
    assert_eq!(table.len(), 0, "Feeds should be drained on shutdown");
    assert!(matches!(table.open("ethbtc-test-3", &instruments), OpenDecision::ShuttingDown));
}

#[test]
fn unknown_symbol_is_not_found() {
    let instruments = instrument_with_symbol("a");
    let table = FeedTable::new();
    assert!(matches!(table.open("b", &instruments), OpenDecision::NotFound));
}

#[test]
fn feed_in_use_or_replaced_is_kept() {
    let mut table = FeedTable::new();
    table.insert("s".to_string(), 1);
    assert!(!table.remove_if_unused("s", 1, 2));
    assert!(!table.remove_if_unused("s", 9, 0));
    assert!(!table.remove_if_unused("t", 1, 0));
    assert_eq!(table.len(), 1);
}

#[test]
fn cancelled_grace_keeps_feed() {
    assert!(!removal_requested(GraceEvent::Cancelled));
    assert!(removal_requested(GraceEvent::Shutdown));
}

#[test]
fn subscription_counts_balance() {
    let mut s = Subscriptions::new();
    assert!(s.on_subscribe());
    assert!(!s.on_subscribe());
    assert!(!s.on_unsubscribe());
    assert!(s.on_unsubscribe());
    assert_eq!(s.count(), 0);
    assert!(!s.on_unsubscribe());
    assert_eq!(s.count(), usize::MAX);
}

#[test]
fn aggregator_service_fails_on_missing_factory() {
    let instrument = Instrument::new(
        "ETH-BTC".to_string(),
        vec![
            SourceSymbol { source: SourceId::Bitstamp, symbol: "ethbtc".to_string() },
            SourceSymbol { source: SourceId::Binance, symbol: "ETHBTC".to_string() },
        ],
    );
    assert_eq!(plan_sources(&instrument.source_mapping, &vec![SourceId::Binance]).unwrap_err(), SourceId::Bitstamp);
    let plan = plan_sources(&instrument.source_mapping, &vec![SourceId::Binance, SourceId::Bitstamp]).unwrap();
    assert_eq!(
        plan,
        vec![(SourceId::Bitstamp, "ethbtc".to_string()), (SourceId::Binance, "ETHBTC".to_string())]
    );
}
