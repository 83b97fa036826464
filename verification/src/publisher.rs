//! The decisions of the summary publisher: it folds incoming snapshots into the
//! combined book and holds the latest summary for the subscribers.
use vstd::prelude::*;
use crate::model::{CombinedSummary, ContributorSnapshot, Summary, summarizable, latest_arrival, top_side, spread_spec, first_of};
use crate::ranking::Side;
use crate::sources::source_index;

verus! {

/// Why no summary is available.
#[derive(Debug, Clone, Copy, PartialEq, Eq, Structural)]
pub enum SummaryError {
    /// The publisher has shut down.
    Shutdown,
}

/// `s` is the summary of the snapshots `snaps`.
pub open spec fn summarizes<const N: usize>(s: Summary, snaps: Seq<ContributorSnapshot<N>>) -> bool {
    &&& s.bids@ == top_side(snaps, Side::Bid)
    &&& s.asks@ == top_side(snaps, Side::Ask)
    &&& s.arrival_time == latest_arrival(snaps)
    &&& s.spread == spread_spec(first_of(s.bids@), first_of(s.asks@))
}

/// What the publisher does after a snapshot.
#[derive(Debug, Clone, Copy, PartialEq, Eq, Structural)]
pub enum PublishAction {
    /// A new summary is held: notify the subscribers.
    Notify,
    /// The snapshots cannot be summarized (a price with more levels than the depth, or
    /// a NaN amount sharing its price): the publisher task fails.
    Unsummarizable,
    /// The publisher has shut down: the snapshot is dropped.
    Ignored,
}

/// The publisher's state: the latest snapshot of each source and the latest result for
/// subscribers.
#[derive(Debug)]
pub struct PublisherState<const N: usize> {
    combined: CombinedSummary<N>,
    latest: Result<Option<Summary>, SummaryError>,
    stopped: bool,
}

/// What `on_snapshot(snapshot)` does: after shutdown the snapshot is dropped and nothing
/// changes; before, the snapshot replaces the one of its source, and the snapshots are
/// summarized into the latest result when they can be summarized.
pub open spec fn snapshot_step<const N: usize>(
    before: PublisherState<N>,
    after: PublisherState<N>,
    snapshot: ContributorSnapshot<N>,
    r: PublishAction,
) -> bool {
    if before.is_stopped() {
        r == PublishAction::Ignored && after == before
    } else {
        &&& !after.is_stopped()
        &&& after.snapshots() == before.snapshots().update(source_index(snapshot.source()), snapshot)
        &&& (r == PublishAction::Notify <==> summarizable(after.snapshots()))
        &&& r != PublishAction::Ignored
        &&& r == PublishAction::Notify ==> (after.latest_result() matches Ok(Some(s)) && summarizes(
            s,
            after.snapshots(),
        ))
        &&& r == PublishAction::Unsummarizable ==> after.latest_result() == before.latest_result()
    }
}

impl<const N: usize> PublisherState<N> {
    /// The held snapshots.
    pub closed spec fn snapshots(&self) -> Seq<ContributorSnapshot<N>> {
        self.combined@
    }

    /// Whether the publisher has shut down.
    pub closed spec fn is_stopped(&self) -> bool {
        self.stopped
    }

    /// The latest result.
    pub closed spec fn latest_result(&self) -> Result<Option<Summary>, SummaryError> {
        self.latest
    }

    /// No snapshots and no summary yet.
    pub fn new() -> (r: Self)
        ensures
            r.latest_result() == Ok::<Option<Summary>, SummaryError>(None),
            !r.is_stopped(),
            r.snapshots().len() == crate::sources::NUM_SOURCES,
            forall|i: int| 0 <= i < r.snapshots().len() ==> (#[trigger] r.snapshots()[i]).empty(),
    {
        PublisherState { combined: CombinedSummary::new(), latest: Ok(None), stopped: false }
    }

    /// Folds a snapshot in and, when they can be summarized, summarizes the snapshots into
    /// the latest result. After shutdown snapshots are dropped.
    pub fn on_snapshot(&mut self, snapshot: ContributorSnapshot<N>) -> (r: PublishAction)
        ensures
            snapshot_step(*old(self), *final(self), snapshot, r),
    {
        if self.stopped {
            return PublishAction::Ignored;
        }
        self.combined.update_snapshot(snapshot);
        if self.combined.can_summarize() {
            let summary = self.combined.to_proto();
            self.latest = Ok(Some(summary));
            PublishAction::Notify
        } else {
            PublishAction::Unsummarizable
        }
    }

    /// Shuts down: the latest result becomes the shutdown error.
    pub fn on_shutdown(&mut self)
        ensures
            final(self).latest_result() == Err::<Option<Summary>, SummaryError>(SummaryError::Shutdown),
            final(self).is_stopped(),
            final(self).snapshots() == old(self).snapshots(),
    {
        self.latest = Err(SummaryError::Shutdown);
        self.stopped = true;
    }

    /// The latest result.
    pub fn latest(&self) -> (r: &Result<Option<Summary>, SummaryError>)
        ensures
            *r == self.latest_result(),
    {
        &self.latest
    }
}

/// What a subscriber stream does with the publisher's latest result.
#[derive(Debug, Clone, Copy, PartialEq, Eq, Structural)]
pub enum SubscriberStep {
    /// Send the summary to the client.
    Send,
    /// Nothing to send yet: wait for the next change.
    Wait,
    /// The publisher has shut down: end the stream.
    Stop,
}

/// The subscriber's step for a latest result: send a summary, wait while there is none,
/// stop after shutdown.
pub open spec fn step_for(latest: Result<Option<Summary>, SummaryError>) -> SubscriberStep {
    match latest {
        Ok(Some(_)) => SubscriberStep::Send,
        Ok(None) => SubscriberStep::Wait,
        Err(_) => SubscriberStep::Stop,
    }
}

/// Computes `step_for(*latest)`.
pub fn subscriber_step(latest: &Result<Option<Summary>, SummaryError>) -> (r: SubscriberStep)
    ensures
        r == step_for(*latest),
{
    match latest {
        Ok(Some(_)) => SubscriberStep::Send,
        Ok(None) => SubscriberStep::Wait,
        Err(SummaryError::Shutdown) => SubscriberStep::Stop,
    }
}

/// Once the publisher has shut down, the result stays the shutdown error whatever
/// snapshots follow, so every subscriber stops.
pub proof fn lemma_shutdown_is_final<const N: usize>(
    p: PublisherState<N>,
    after: PublisherState<N>,
    snapshot: ContributorSnapshot<N>,
    r: PublishAction,
)
    requires
        p.is_stopped(),
        p.latest_result() == Err::<Option<Summary>, SummaryError>(SummaryError::Shutdown),
        snapshot_step(p, after, snapshot, r),
    ensures
        step_for(p.latest_result()) == SubscriberStep::Stop,
        after == p,
        r == PublishAction::Ignored,
        step_for(after.latest_result()) == SubscriberStep::Stop,
{
}

/// `snaps` with each snapshot of `updates` written into its source's slot, in turn.
pub open spec fn apply_updates<const N: usize>(
    snaps: Seq<ContributorSnapshot<N>>,
    updates: Seq<ContributorSnapshot<N>>,
) -> Seq<ContributorSnapshot<N>>
    decreases updates.len(),
{
    if updates.len() == 0 {
        snaps
    } else {
        apply_updates(snaps, updates.drop_last()).update(
            source_index(updates.last().source()),
            updates.last(),
        )
    }
}

/// A run of the publisher without shutdown: starting with no summary, after the snapshots
/// `updates` have been folded in one by one (`states[i + 1]` is the state after
/// `updates[i]`), the held snapshots are the starting ones updated in turn, and the latest
/// result is the summary of them, or still no summary when no snapshot came. The run is
/// the one in which every fold could be summarized; otherwise the publisher task fails.
pub proof fn lemma_publisher_fold<const N: usize>(
    states: Seq<PublisherState<N>>,
    updates: Seq<ContributorSnapshot<N>>,
    actions: Seq<PublishAction>,
)
    requires
        states.len() == updates.len() + 1,
        actions.len() == updates.len(),
        states[0].latest_result() == Ok::<Option<Summary>, SummaryError>(None),
        !states[0].is_stopped(),
        forall|i: int|
            0 <= i < updates.len() ==> snapshot_step(
                #[trigger] states[i],
                states[i + 1],
                updates[i],
                actions[i],
            ),
        forall|i: int|
            1 <= i <= updates.len() ==> summarizable(
                #[trigger] apply_updates(states[0].snapshots(), updates.take(i)),
            ),
    ensures
        states.last().snapshots() == apply_updates(states[0].snapshots(), updates),
        !states.last().is_stopped(),
        forall|i: int| 0 <= i < actions.len() ==> #[trigger] actions[i] == PublishAction::Notify,
        updates.len() == 0 ==> states.last().latest_result() == Ok::<Option<Summary>, SummaryError>(None),
        updates.len() > 0 ==> (states.last().latest_result() matches Ok(Some(s)) && summarizes(
            s,
            apply_updates(states[0].snapshots(), updates),
        )),
    decreases updates.len(),
{
    let n = updates.len() as int;
    if n > 0 {
        let ps = states.drop_last();
        let us = updates.drop_last();
        let acts = actions.drop_last();
        assert forall|i: int| 0 <= i < us.len() implies snapshot_step(
            #[trigger] ps[i],
            ps[i + 1],
            us[i],
            acts[i],
        ) by {
            assert(snapshot_step(states[i], states[i + 1], updates[i], actions[i]));
        }
        assert forall|i: int| 1 <= i <= us.len() implies summarizable(
            #[trigger] apply_updates(ps[0].snapshots(), us.take(i)),
        ) by {
            assert(us.take(i) =~= updates.take(i));
            assert(summarizable(apply_updates(states[0].snapshots(), updates.take(i))));
        }
        lemma_publisher_fold(ps, us, acts);
        assert(ps.last() == states[n - 1]);
        assert(snapshot_step(states[n - 1], states[n], updates[n - 1], actions[n - 1]));
        assert(updates.take(n) =~= updates);
        assert(summarizable(apply_updates(states[0].snapshots(), updates.take(n))));
        assert forall|i: int| 0 <= i < actions.len() implies #[trigger] actions[i] == PublishAction::Notify by {
            if i < n - 1 {
                assert(acts[i] == actions[i]);
            }
        }
    }
}

} // verus!
