use aggbook::instrument::{build_instrument_map, Instrument, InstrumentMap, SourceSymbol};
use aggbook::sources::SourceId;

#[test]
fn test_instrument_map_find_success() {
    let btc_sources = vec![
        SourceSymbol {
            source: SourceId::Bitstamp,
            symbol: "BTC/USD".to_string(),
        },
        SourceSymbol {
            source: SourceId::Binance,
            symbol: "XBT/USDT".to_string(),
        },
    ];

    let eth_sources = vec![
        SourceSymbol {
            source: SourceId::Bitstamp,
            symbol: "ETH/USD".to_string(),
        },
        SourceSymbol {
            source: SourceId::Binance,
            symbol: "ETH/USDT".to_string(),
        },
    ];

    let instruments = vec![
        Instrument::new("BTC".to_string(), btc_sources),
        Instrument::new("ETH".to_string(), eth_sources),
    ];

    let instrument_map = InstrumentMap::new(instruments);

    let btc = instrument_map.get("BTC");
    assert!(btc.is_some());
    let btc = btc.unwrap();
    assert_eq!(btc.symbol, "BTC");
    assert_eq!(
        btc.source_mapping.get(&SourceId::Binance),
        Some(&"XBT/USDT".to_string())
    );

    let eth = instrument_map.get("ETH");
    assert!(eth.is_some());
    let eth = eth.unwrap();
    assert_eq!(eth.symbol, "ETH");
    assert_eq!(
        eth.source_mapping.get(&SourceId::Bitstamp),
        Some(&"ETH/USD".to_string())
    );
}

#[test]
fn test_instrument_map_find_not_found() {
    let instrument_map = InstrumentMap::new(vec![]);
    assert!(instrument_map.get("DOGE").is_none());
}

#[test]
fn later_source_symbol_wins() {
    let instrument = Instrument::new(
        "ETH".to_string(),
        vec![
            SourceSymbol { source: SourceId::Binance, symbol: "A".to_string() },
            SourceSymbol { source: SourceId::Binance, symbol: "B".to_string() },
        ],
    );
    assert_eq!(instrument.source_mapping().get(&SourceId::Binance), Some(&"B".to_string()));
    assert_eq!(instrument.source_mapping().get(&SourceId::Bitstamp), None);
    assert_eq!(instrument.source_mapping().entries(), vec![(SourceId::Binance, "B".to_string())]);
}

#[test]
fn later_instrument_with_same_symbol_wins() {
    let first = Instrument::new(
        "ETH".to_string(),
        vec![SourceSymbol { source: SourceId::Binance, symbol: "one".to_string() }],
    );
    let second = Instrument::new(
        "ETH".to_string(),
        vec![SourceSymbol { source: SourceId::Bitstamp, symbol: "two".to_string() }],
    );
    let map = InstrumentMap::new(vec![first, second]);
    let found = map.get("ETH").unwrap();
    assert_eq!(found.source_mapping.get(&SourceId::Bitstamp), Some(&"two".to_string()));
    assert_eq!(found.source_mapping.get(&SourceId::Binance), None);
}

#[test]
fn instruments_equal_by_symbol() {
    let a = Instrument::new("ETH".to_string(), vec![]);
    let b = Instrument::new(
        "ETH".to_string(),
        vec![SourceSymbol { source: SourceId::Binance, symbol: "x".to_string() }],
    );
    let c = Instrument::new("BTC".to_string(), vec![]);
    assert!(a == b);
    assert!(a != c);
    assert_eq!(a.symbol(), "ETH");
    assert_eq!(c.to_string(), "BTC");
}

#[test]
fn default_instrument_map_serves_eth_btc() {
    let map = build_instrument_map();
    let eth = map.get("ETH-BTC").unwrap();
    assert_eq!(eth.symbol, "ETH-BTC");
    assert_eq!(
        eth.source_mapping.entries(),
        vec![
            (SourceId::Bitstamp, "ethbtc".to_string()),
            (SourceId::Binance, "ETHBTC".to_string())
        ]
    );
    assert!(map.get("BTC-USD").is_none());
}

#[test]
fn default_instrument_has_no_symbol_and_no_sources() {
    let instrument = Instrument::default();
    assert_eq!(instrument.symbol(), "");
    assert!(instrument.source_mapping().entries().is_empty());
}

#[test]
fn cloned_instrument_keeps_symbol_and_sources() {
    let instrument = Instrument::new(
        "ETH".to_string(),
        vec![SourceSymbol {
            source: SourceId::Binance,
            symbol: "ETHUSDT".to_string(),
        }],
    );
    let copy = instrument.clone();
    assert_eq!(copy.symbol(), "ETH");
    assert_eq!(copy.source_mapping().get(&SourceId::Binance), Some(&"ETHUSDT".to_string()));
    assert_eq!(copy.source_mapping().get(&SourceId::Bitstamp), None);
    assert!(copy == instrument);
    assert_eq!(
        SourceSymbol { source: SourceId::Binance, symbol: "x".to_string() },
        SourceSymbol { source: SourceId::Binance, symbol: "x".to_string() }
    );
}
