use aggbook::model::{spread_from, CombinedSummary, ContributorLevels, ContributorSnapshot, PriceLevel, Spread, Summary};
use aggbook::ranking::Level;
use aggbook::sources::SourceId;

fn bits(x: f64) -> u64 {
    x.to_bits()
}

fn value(b: u64) -> f64 {
    f64::from_bits(b)
}

/// The spread as a number: ask minus bid, or NaN when undefined.
fn spread_value(s: &Spread) -> f64 {
    match s {
        Spread::Between { bid, ask } => value(*ask) - value(*bid),
        Spread::Undefined => f64::NAN,
    }
}

fn snapshot_with_bid<const N: usize>(source: SourceId, time: u64, price: f64, amount: f64) -> ContributorSnapshot<N> {
    let mut s = ContributorSnapshot::new(source, time);
    s.push_bid(bits(price), bits(amount));
    s
}

fn snapshot_with_ask<const N: usize>(source: SourceId, time: u64, price: f64, amount: f64) -> ContributorSnapshot<N> {
    let mut s = ContributorSnapshot::new(source, time);
    s.push_ask(bits(price), bits(amount));
    s
}

fn snapshot_with_levels<const N: usize>(
    source: SourceId,
    time: u64,
    bids: &[(f64, f64)],
    asks: &[(f64, f64)],
) -> ContributorSnapshot<N> {
    let mut s = ContributorSnapshot::new(source, time);
    for &(p, a) in bids {
        s.push_bid(bits(p), bits(a));
    }
    for &(p, a) in asks {
        s.push_ask(bits(p), bits(a));
    }
    s
}

fn summarize<const N: usize>(combined: &CombinedSummary<N>) -> Summary {
    assert!(combined.can_summarize());
    combined.to_proto()
}

fn level(exchange: SourceId, price: f64, amount: f64) -> Level {
    Level { exchange, price: bits(price), amount: bits(amount) }
}

#[test]
fn test_to_proto_n1() {
    let mut combined = CombinedSummary::<5>::new();

    combined.update_snapshot(snapshot_with_bid(SourceId::Binance, 1, 100.0, 1.0));
    combined.update_snapshot(snapshot_with_ask(SourceId::Bitstamp, 1, 101.0, 1.0));

    let summary = summarize(&combined);

    assert_eq!(summary.bids.len(), 1);
    assert_eq!(summary.asks.len(), 1);
    assert_eq!(value(summary.bids[0].price), 100.0);
    assert_eq!(value(summary.asks[0].price), 101.0);
    assert_eq!(spread_value(&summary.spread), 1.0);
    assert_eq!(summary.arrival_time, 1);
}

#[test]
fn test_depth_limit_respected() {
    let mut combined = CombinedSummary::<3>::new();

    let bids = (0..10).map(|i| (100.0 - i as f64, 1.0)).collect::<Vec<_>>();
    let asks = (0..10).map(|i| (100.0 + i as f64, 1.0)).collect::<Vec<_>>();

    combined.update_snapshot(snapshot_with_levels(SourceId::Binance, 1, &bids, &asks));

    let summary: Summary = summarize(&combined);
    assert_eq!(summary.bids.len(), 3);
    assert_eq!(summary.asks.len(), 3);
}

#[test]
fn test_latest_time_reflects_max() {
    let mut combined = CombinedSummary::<5>::new();

    combined.update_snapshot(snapshot_with_bid(SourceId::Binance, 5, 100.0, 1.0));
    combined.update_snapshot(snapshot_with_ask(SourceId::Bitstamp, 10, 101.0, 1.0));

    let summary: Summary = summarize(&combined);
    assert_eq!(summary.arrival_time, 10);
}

#[test]
fn test_levels_sorted_by_amount_within_price() {
    let mut combined = CombinedSummary::<5>::new();

    let mut snap1 = ContributorSnapshot::new(SourceId::Binance, 1);
    snap1.push_bid(bits(100.0), bits(1.0));
    combined.update_snapshot(snap1);

    let mut snap2 = ContributorSnapshot::new(SourceId::Bitstamp, 2);
    snap2.push_bid(bits(100.0), bits(2.0));
    combined.update_snapshot(snap2);

    let summary: Summary = summarize(&combined);
    assert_eq!(value(summary.bids[0].amount), 2.0);
    assert_eq!(value(summary.bids[1].amount), 1.0);
}

#[test]
fn test_empty_combined_summary_yields_nan_spread() {
    let combined = CombinedSummary::<5>::new();

    let summary: Summary = summarize(&combined);

    assert!(summary.bids.is_empty());
    assert!(summary.asks.is_empty());
    assert!(spread_value(&summary.spread).is_nan());
    assert_eq!(summary.arrival_time, 0);
}

#[test]
fn test_spread_only_bids_or_asks() {
    let mut combined = CombinedSummary::<5>::new();

    combined.update_snapshot(snapshot_with_bid(SourceId::Binance, 1, 100.0, 1.0));
    let summary: Summary = summarize(&combined);
    assert!(spread_value(&summary.spread).is_nan());

    let mut combined = CombinedSummary::<5>::new();
    combined.update_snapshot(snapshot_with_ask(SourceId::Binance, 1, 105.0, 1.0));
    let summary: Summary = summarize(&combined);
    assert!(spread_value(&summary.spread).is_nan());
}

#[test]
fn test_overwrites_existing_snapshot() {
    let mut combined = CombinedSummary::<5>::new();

    combined.update_snapshot(snapshot_with_bid(SourceId::Binance, 1, 100.0, 1.0));
    combined.update_snapshot(snapshot_with_ask(SourceId::Binance, 2, 105.0, 1.0));

    let summary: Summary = summarize(&combined);
    assert!(summary.bids.is_empty()); // previous bid is overwritten
    assert_eq!(summary.asks.len(), 1);
    assert_eq!(summary.arrival_time, 2);
}

#[test]
fn spread_from_valid_bid_and_ask() {
    let bid = level(SourceId::Binance, 100.0, 1.0);
    let ask = level(SourceId::Bitstamp, 105.0, 1.0);
    let spread = spread_from(Some(&bid), Some(&ask));
    assert_eq!(spread_value(&spread), 5.0);
}

#[test]
fn spread_from_zero_bid_price() {
    let bid = level(SourceId::Binance, 0.0, 1.0);
    let ask = level(SourceId::Bitstamp, 105.0, 1.0);
    let spread = spread_from(Some(&bid), Some(&ask));
    assert!(spread_value(&spread).is_nan());
}

#[test]
fn spread_from_zero_ask_price() {
    let bid = level(SourceId::Binance, 100.0, 1.0);
    let ask = level(SourceId::Bitstamp, 0.0, 1.0);
    let spread = spread_from(Some(&bid), Some(&ask));
    assert!(spread_value(&spread).is_nan());
}

#[test]
fn spread_from_missing_bid() {
    let ask = level(SourceId::Bitstamp, 105.0, 1.0);
    let spread = spread_from(None, Some(&ask));
    assert!(spread_value(&spread).is_nan());
}

#[test]
fn spread_from_missing_ask() {
    let bid = level(SourceId::Binance, 100.0, 1.0);
    let spread = spread_from(Some(&bid), None);
    assert!(spread_value(&spread).is_nan());
}

#[test]
fn spread_from_missing_both() {
    let spread = spread_from(None, None);
    assert!(spread_value(&spread).is_nan());
}

#[test]
fn spread_from_negative_or_nan_price() {
    let ask = level(SourceId::Bitstamp, 105.0, 1.0);
    for p in [-1.0, -0.0, f64::NAN] {
        let bid = level(SourceId::Binance, p, 1.0);
        assert_eq!(spread_from(Some(&bid), Some(&ask)), Spread::Undefined);
    }
    let bid = level(SourceId::Binance, 100.0, 1.0);
    let inf = level(SourceId::Bitstamp, f64::INFINITY, 1.0);
    assert_eq!(spread_value(&spread_from(Some(&bid), Some(&inf))), f64::INFINITY);
}

#[test]
fn bids_descend_and_asks_ascend_across_sources() {
    let mut combined = CombinedSummary::<5>::new();
    combined.update_snapshot(snapshot_with_levels(
        SourceId::Binance,
        3,
        &[(100.0, 1.0), (98.0, 1.0)],
        &[(101.0, 1.0), (103.0, 2.0)],
    ));
    combined.update_snapshot(snapshot_with_levels(
        SourceId::Bitstamp,
        7,
        &[(99.0, 4.0), (97.0, 1.0)],
        &[(102.0, 1.0), (103.0, 5.0)],
    ));
    let summary = summarize(&combined);
    assert_eq!(
        summary.bids,
        vec![
            level(SourceId::Binance, 100.0, 1.0),
            level(SourceId::Bitstamp, 99.0, 4.0),
            level(SourceId::Binance, 98.0, 1.0),
            level(SourceId::Bitstamp, 97.0, 1.0),
        ]
    );
    assert_eq!(
        summary.asks,
        vec![
            level(SourceId::Binance, 101.0, 1.0),
            level(SourceId::Bitstamp, 102.0, 1.0),
            level(SourceId::Bitstamp, 103.0, 5.0),
            level(SourceId::Binance, 103.0, 2.0),
        ]
    );
    assert_eq!(summary.arrival_time, 7);
    assert_eq!(spread_value(&summary.spread), 1.0);
}

#[test]
fn depth_counts_levels_not_prices() {
    let mut combined = CombinedSummary::<2>::new();
    combined.update_snapshot(snapshot_with_levels(SourceId::Binance, 1, &[(10.0, 1.0), (9.0, 1.0)], &[]));
    combined.update_snapshot(snapshot_with_levels(SourceId::Bitstamp, 1, &[(10.0, 2.0), (8.0, 1.0)], &[]));
    let summary = summarize(&combined);
    assert_eq!(
        summary.bids,
        vec![
            level(SourceId::Bitstamp, 10.0, 2.0),
            level(SourceId::Binance, 10.0, 1.0),
        ]
    );
}

#[test]
fn negative_zero_and_nan_prices_rank_as_zero() {
    let mut combined = CombinedSummary::<5>::new();
    combined.update_snapshot(snapshot_with_levels(
        SourceId::Binance,
        1,
        &[(-0.0, 1.0), (-5.0, 1.0), (f64::NAN, 3.0)],
        &[],
    ));
    combined.update_snapshot(snapshot_with_levels(SourceId::Bitstamp, 1, &[(0.0, 2.0), (1.0, 1.0)], &[]));
    let summary = summarize(&combined);
    let prices: Vec<f64> = summary.bids.iter().map(|l| value(l.price)).collect();
    assert_eq!(prices[0], 1.0);
    assert!(prices[1].is_nan());
    assert_eq!(prices[2], 0.0);
    assert_eq!(prices[3], 0.0);
    assert_eq!(prices[4], -5.0);
    assert_eq!(value(summary.bids[2].amount), 2.0);
    assert_eq!(value(summary.bids[3].amount), 1.0);
}

#[test]
fn too_many_levels_at_one_price_is_detected() {
    let mut combined = CombinedSummary::<1>::new();
    combined.update_snapshot(snapshot_with_bid(SourceId::Binance, 1, 100.0, 1.0));
    assert!(combined.can_summarize());
    combined.update_snapshot(snapshot_with_bid(SourceId::Bitstamp, 1, 100.0, 2.0));
    assert!(!combined.can_summarize());
}

#[test]
fn empty_snapshot_does_not_advance_time() {
    let mut combined = CombinedSummary::<5>::new();
    combined.update_snapshot(snapshot_with_bid(SourceId::Binance, 5, 100.0, 1.0));
    combined.update_snapshot(ContributorSnapshot::new(SourceId::Bitstamp, 99));
    let summary = summarize(&combined);
    assert_eq!(summary.arrival_time, 5);
}

#[test]
fn contributor_levels_keep_at_most_n() {
    let mut levels = ContributorLevels::<2>::new();
    for i in 0..5u64 {
        levels.push(PriceLevel { price: i, amount: i });
    }
    assert_eq!(levels.depth(), 2);
    assert_eq!(levels.as_slice(), &[PriceLevel { price: 0, amount: 0 }, PriceLevel { price: 1, amount: 1 }]);
    let snap = snapshot_with_levels::<1>(SourceId::Binance, 1, &[(1.0, 1.0), (2.0, 2.0)], &[]);
    assert_eq!(snap.bids().len(), 1);
    assert!(snap.asks().is_empty());
    assert!(!snap.is_empty());
    assert_eq!(snap.source_id(), SourceId::Binance);
    assert!(ContributorSnapshot::<3>::default().is_empty());
}

#[test]
fn nan_amount_sharing_a_price_is_detected() {
    let mut combined = CombinedSummary::<5>::new();
    combined.update_snapshot(snapshot_with_bid(SourceId::Binance, 1, 100.0, f64::NAN));
    assert!(combined.can_summarize());
    let summary = combined.to_proto();
    assert!(value(summary.bids[0].amount).is_nan());
    combined.update_snapshot(snapshot_with_bid(SourceId::Bitstamp, 1, 100.0, 1.0));
    assert!(!combined.can_summarize());
    combined.update_snapshot(snapshot_with_bid(SourceId::Bitstamp, 1, 99.0, 1.0));
    assert!(combined.can_summarize());
}

#[test]
fn sides_keep_the_top_n_levels_in_ranking_order() {
    let mut combined = CombinedSummary::<2>::new();
    combined.update_snapshot(snapshot_with_levels(
        SourceId::Binance,
        1,
        &[(101.0, 1.0), (100.0, 2.0), (99.0, 3.0)],
        &[(102.0, 1.0), (103.0, 1.0), (104.0, 1.0)],
    ));
    combined.update_snapshot(snapshot_with_levels(
        SourceId::Bitstamp,
        2,
        &[(101.0, 5.0), (98.0, 1.0)],
        &[(103.0, 2.0)],
    ));
    let summary = summarize(&combined);
    assert_eq!(
        summary.bids,
        vec![level(SourceId::Bitstamp, 101.0, 5.0), level(SourceId::Binance, 101.0, 1.0)]
    );
    assert_eq!(
        summary.asks,
        vec![level(SourceId::Binance, 102.0, 1.0), level(SourceId::Bitstamp, 103.0, 2.0)]
    );
}

#[test]
fn two_sources_at_two_prices_give_n_bids() {
    let mut combined = CombinedSummary::<2>::new();
    combined.update_snapshot(snapshot_with_levels(SourceId::Binance, 1, &[(100.0, 1.0), (99.0, 1.0)], &[]));
    combined.update_snapshot(snapshot_with_levels(SourceId::Bitstamp, 1, &[(100.0, 2.0), (99.0, 2.0)], &[]));
    let summary = summarize(&combined);
    assert_eq!(
        summary.bids,
        vec![level(SourceId::Bitstamp, 100.0, 2.0), level(SourceId::Binance, 100.0, 1.0)]
    );
}

#[test]
fn snapshot_sides_hold_at_most_n_levels() {
    let s = snapshot_with_levels::<2>(SourceId::Binance, 1, &[(3.0, 1.0), (2.0, 1.0), (1.0, 1.0)], &[(4.0, 1.0)]);
    assert_eq!(s.bids().len(), 2);
    assert_eq!(s.asks().len(), 1);
}

#[test]
fn updates_of_different_sources_commute() {
    let a = || snapshot_with_bid::<5>(SourceId::Binance, 1, 100.0, 1.0);
    let b = || snapshot_with_bid::<5>(SourceId::Bitstamp, 2, 99.0, 2.0);
    let mut first = CombinedSummary::<5>::new();
    first.update_snapshot(a());
    first.update_snapshot(b());
    let mut second = CombinedSummary::<5>::new();
    second.update_snapshot(b());
    second.update_snapshot(a());
    let (x, y) = (summarize(&first), summarize(&second));
    assert_eq!(x.bids, y.bids);
    assert_eq!(x.arrival_time, y.arrival_time);
    let mut twice = CombinedSummary::<5>::new();
    twice.update_snapshot(a());
    twice.update_snapshot(a());
    let mut once = CombinedSummary::<5>::new();
    once.update_snapshot(a());
    assert_eq!(summarize(&twice).bids, summarize(&once).bids);
}
