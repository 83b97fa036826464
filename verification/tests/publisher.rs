use aggbook::model::ContributorSnapshot;
use aggbook::publisher::{subscriber_step, PublishAction, PublisherState, SubscriberStep, SummaryError};
use aggbook::sources::SourceId;

fn dummy_snapshot<const N: usize>(source: SourceId, price: f64, amount: f64) -> ContributorSnapshot<N> {
    let mut snap = ContributorSnapshot::new(source, 123456);
    snap.push_bid(price.to_bits(), amount.to_bits());
    snap
}

#[test]
fn publisher_receives_and_updates_summary() {
    let mut publisher = PublisherState::<5>::new();
    assert_eq!(publisher.on_snapshot(dummy_snapshot(SourceId::Binance, 100.0, 1.0)), PublishAction::Notify);
    match publisher.latest() {
        Ok(Some(s)) => {
            assert_eq!(f64::from_bits(s.bids[0].price), 100.0);
            assert_eq!(f64::from_bits(s.bids[0].amount), 1.0);
            assert_eq!(s.arrival_time, 123456);
        }
        _ => panic!("No update received or summary was empty"),
    }
}

#[test]
fn publisher_shutdown_triggers_summary_error() {
    let mut publisher = PublisherState::<5>::new();
    publisher.on_shutdown();
    let result = publisher.latest();
    assert!(result.is_err(), "Expected summary to be shutdown");
    assert_eq!(subscriber_step(result), SubscriberStep::Stop);
}

#[test]
fn no_summary_before_the_first_snapshot() {
    let publisher = PublisherState::<5>::new();
    assert!(matches!(publisher.latest(), Ok(None)));
    assert_eq!(subscriber_step(publisher.latest()), SubscriberStep::Wait);
}

#[test]
fn snapshots_after_shutdown_are_dropped() {
    let mut publisher = PublisherState::<5>::new();
    publisher.on_shutdown();
    assert_eq!(publisher.on_snapshot(dummy_snapshot(SourceId::Binance, 1.0, 1.0)), PublishAction::Ignored);
    assert!(matches!(publisher.latest(), Err(SummaryError::Shutdown)));
}

#[test]
fn depth_exceeded_keeps_previous_summary() {
    let mut publisher = PublisherState::<1>::new();
    assert_eq!(publisher.on_snapshot(dummy_snapshot(SourceId::Binance, 1.0, 1.0)), PublishAction::Notify);
    assert_eq!(publisher.on_snapshot(dummy_snapshot(SourceId::Bitstamp, 1.0, 2.0)), PublishAction::Unsummarizable);
    match publisher.latest() {
        Ok(Some(s)) => assert_eq!(s.bids.len(), 1),
        _ => panic!("summary expected"),
    }
    assert_eq!(subscriber_step(publisher.latest()), SubscriberStep::Send);
}

#[test]
fn publisher_holds_the_summary_of_all_snapshots_so_far() {
    let mut publisher = PublisherState::<5>::new();
    assert_eq!(publisher.on_snapshot(dummy_snapshot(SourceId::Binance, 100.0, 1.0)), PublishAction::Notify);
    assert_eq!(publisher.on_snapshot(dummy_snapshot(SourceId::Bitstamp, 101.0, 2.0)), PublishAction::Notify);
    assert_eq!(publisher.on_snapshot(dummy_snapshot(SourceId::Binance, 99.0, 3.0)), PublishAction::Notify);
    match publisher.latest() {
        Ok(Some(s)) => {
            let prices: Vec<f64> = s.bids.iter().map(|l| f64::from_bits(l.price)).collect();
            assert_eq!(prices, vec![101.0, 99.0]);
            assert_eq!(s.bids[0].exchange, SourceId::Bitstamp);
        }
        _ => panic!("expected a summary"),
    }
}
