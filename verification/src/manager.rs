//! The decisions of the feed manager: which feeds exist, when a feed is reused,
//! created or refused, and when an unused feed is removed.
use vstd::prelude::*;
use crate::instrument::{Instrument, InstrumentMap, SourceMapping, mapping_entries, entries_view};
use crate::sources::SourceId;

verus! {

/// The subscriber count of a feed. Counting wraps around, as an atomic counter does.
#[derive(Debug)]
pub struct Subscriptions {
    count: usize,
}

/// `n + 1`, wrapping to 0 past the largest count.
pub open spec fn count_up(n: usize) -> usize {
    if n == usize::MAX {
        0
    } else {
        (n + 1) as usize
    }
}

/// `n - 1`, wrapping to the largest count below 0.
pub open spec fn count_down(n: usize) -> usize {
    if n == 0 {
        usize::MAX
    } else {
        (n - 1) as usize
    }
}

impl Subscriptions {
    /// The number of subscribers.
    pub closed spec fn value(&self) -> usize {
        self.count
    }

    /// No subscribers.
    pub fn new() -> (r: Self)
        ensures
            r.value() == 0,
    {
        Subscriptions { count: 0 }
    }

    /// Counts a new subscriber; true when it is the first, which cancels a pending
    /// removal of the feed.
    pub fn on_subscribe(&mut self) -> (first: bool)
        ensures
            final(self).value() == count_up(old(self).value()),
            first == (old(self).value() == 0),
    {
        let previous = self.count;
        self.count = if previous == usize::MAX {
            0
        } else {
            previous + 1
        };
        previous == 0
    }

    /// Counts a subscriber leaving; true when it was the last, which starts the grace
    /// period after which the unused feed is removed.
    pub fn on_unsubscribe(&mut self) -> (last: bool)
        ensures
            final(self).value() == count_down(old(self).value()),
            last == (old(self).value() == 1),
    {
        let previous = self.count;
        self.count = if previous == 0 {
            usize::MAX
        } else {
            previous - 1
        };
        previous == 1
    }

    /// The number of subscribers.
    pub fn count(&self) -> (r: usize)
        ensures
            r == self.value(),
    {
        self.count
    }
}

/// A subscriber that arrives and leaves again leaves the count as it was.
pub proof fn lemma_subscribe_unsubscribe(n: usize)
    ensures
        count_down(count_up(n)) == n,
        count_up(count_down(n)) == n,
{
}

/// What ends the grace period of a feed that lost its last subscriber.
#[derive(Debug, Clone, Copy, PartialEq, Eq, Structural)]
pub enum GraceEvent {
    /// The grace period elapsed.
    Elapsed,
    /// A subscriber arrived and cancelled the pending removal.
    Cancelled,
    /// The manager is shutting down.
    Shutdown,
}

/// Whether to ask for the removal of the feed when its grace period ends: unless a new
/// subscriber cancelled it.
pub fn removal_requested(event: GraceEvent) -> (r: bool)
    ensures
        r == (event != GraceEvent::Cancelled),
{
    match event {
        GraceEvent::Cancelled => false,
        _ => true,
    }
}

/// How the manager answers a request to open a symbol's feed.
#[derive(Debug)]
pub enum OpenDecision {
    /// The manager is shutting down.
    ShuttingDown,
    /// The feed with this identity serves the symbol already.
    Reuse(u64),
    /// No instrument has the symbol.
    NotFound,
    /// Start a feed for this instrument.
    Create(Instrument),
}

/// The feeds by symbol, each feed known by the identity the caller gave it, and whether
/// the manager is shutting down.
#[derive(Debug)]
pub struct FeedTable {
    entries: Vec<(String, u64)>,
    shutting_down: bool,
}

/// No symbol occurs twice among `entries`.
pub open spec fn unique_symbols(entries: Seq<(String, u64)>) -> bool {
    forall|i: int, j: int| 0 <= i < j < entries.len() ==> (#[trigger] entries[i]).0@ != (#[trigger] entries[j]).0@
}

/// The feeds of `entries` by symbol.
pub open spec fn feeds_of(entries: Seq<(String, u64)>) -> Map<Seq<char>, u64>
    decreases entries.len(),
{
    if entries.len() == 0 {
        Map::empty()
    } else {
        feeds_of(entries.drop_last()).insert(entries.last().0@, entries.last().1)
    }
}

proof fn lemma_feeds_of_contains(entries: Seq<(String, u64)>, key: Seq<char>)
    requires
        unique_symbols(entries),
    ensures
        feeds_of(entries).contains_key(key) <==> exists|i: int| 0 <= i < entries.len() && (#[trigger] entries[i]).0@ == key,
        forall|i: int| 0 <= i < entries.len() && (#[trigger] entries[i]).0@ == key ==> feeds_of(entries)[key] == entries[i].1,
    decreases entries.len(),
{
    if entries.len() > 0 {
        let d = entries.drop_last();
        assert forall|i: int, j: int| 0 <= i < j < d.len() implies (#[trigger] d[i]).0@ != (#[trigger] d[j]).0@ by {
            assert(d[i] == entries[i] && d[j] == entries[j]);
        }
        lemma_feeds_of_contains(d, key);
        let n = entries.len() - 1;
        assert forall|i: int| 0 <= i < entries.len() && (#[trigger] entries[i]).0@ == key implies feeds_of(entries)[key] == entries[i].1 by {
            if i < n {
                assert(entries[i] == d[i]);
                assert(entries[n].0@ != key);
            }
        }
        if exists|i: int| 0 <= i < entries.len() && (#[trigger] entries[i]).0@ == key {
            let i = choose|i: int| 0 <= i < entries.len() && (#[trigger] entries[i]).0@ == key;
            if i < n {
                assert(entries[i] == d[i]);
            }
        }
        if feeds_of(entries).contains_key(key) && entries[n].0@ != key {
            let i = choose|i: int| 0 <= i < d.len() && (#[trigger] d[i]).0@ == key;
            assert(entries[i] == d[i]);
        }
    }
}

proof fn lemma_feeds_of_len(entries: Seq<(String, u64)>)
    requires
        unique_symbols(entries),
    ensures
        feeds_of(entries).dom().finite(),
        feeds_of(entries).len() == entries.len(),
    decreases entries.len(),
{
    if entries.len() > 0 {
        let d = entries.drop_last();
        assert forall|i: int, j: int| 0 <= i < j < d.len() implies (#[trigger] d[i]).0@ != (#[trigger] d[j]).0@ by {
            assert(d[i] == entries[i] && d[j] == entries[j]);
        }
        lemma_feeds_of_len(d);
        lemma_feeds_of_contains(d, entries.last().0@);
        if feeds_of(d).contains_key(entries.last().0@) {
            let i = choose|i: int| 0 <= i < d.len() && (#[trigger] d[i]).0@ == entries.last().0@;
            assert(entries[i] == d[i]);
        }
    }
}

proof fn lemma_feeds_of_remove(entries: Seq<(String, u64)>, k: int)
    requires
        unique_symbols(entries),
        0 <= k < entries.len(),
    ensures
        unique_symbols(entries.remove(k)),
        feeds_of(entries.remove(k)) == feeds_of(entries).remove(entries[k].0@),
{
    let r = entries.remove(k);
    assert forall|i: int, j: int| 0 <= i < j < r.len() implies (#[trigger] r[i]).0@ != (#[trigger] r[j]).0@ by {
        let oi = if i < k { i } else { i + 1 };
        let oj = if j < k { j } else { j + 1 };
        assert(r[i] == entries[oi] && r[j] == entries[oj]);
    }
    assert forall|key: Seq<char>| #[trigger] feeds_of(r).contains_key(key) == feeds_of(entries).remove(entries[k].0@).contains_key(key)
        && (feeds_of(r).contains_key(key) ==> feeds_of(r)[key] == feeds_of(entries).remove(entries[k].0@)[key]) by {
        lemma_feeds_of_contains(r, key);
        lemma_feeds_of_contains(entries, key);
        if feeds_of(r).contains_key(key) {
            let i = choose|i: int| 0 <= i < r.len() && (#[trigger] r[i]).0@ == key;
            let oi = if i < k { i } else { i + 1 };
            assert(r[i] == entries[oi]);
        }
        if key != entries[k].0@ && feeds_of(entries).contains_key(key) {
            let i = choose|i: int| 0 <= i < entries.len() && (#[trigger] entries[i]).0@ == key;
            assert(i != k);
            let ri = if i < k { i } else { i - 1 };
            assert(r[ri] == entries[i]);
        }
    }
    assert(feeds_of(r) =~= feeds_of(entries).remove(entries[k].0@));
}

impl View for FeedTable {
    type V = Map<Seq<char>, u64>;

    closed spec fn view(&self) -> Map<Seq<char>, u64> {
        feeds_of(self.entries@)
    }
}

/// What opening `symbol` gives for the feeds `feeds` and the instruments `instruments`.
pub open spec fn open_outcome(
    shutting_down: bool,
    feeds: Map<Seq<char>, u64>,
    instruments: Map<Seq<char>, Instrument>,
    symbol: Seq<char>,
) -> OpenDecision {
    if shutting_down {
        OpenDecision::ShuttingDown
    } else if feeds.contains_key(symbol) {
        OpenDecision::Reuse(feeds[symbol])
    } else if !instruments.contains_key(symbol) {
        OpenDecision::NotFound
    } else {
        OpenDecision::Create(instruments[symbol])
    }
}

impl FeedTable {
    #[verifier::type_invariant]
    spec fn symbols_unique(self) -> bool {
        unique_symbols(self.entries@)
    }

    /// Whether the manager is shutting down.
    pub closed spec fn is_shutting_down(&self) -> bool {
        self.shutting_down
    }

    /// No feeds; not shutting down.
    pub fn new() -> (r: Self)
        ensures
            r@ == Map::<Seq<char>, u64>::empty(),
            !r.is_shutting_down(),
    {
        let r = FeedTable { entries: Vec::new(), shutting_down: false };
        proof {
            assert(r@ =~= Map::<Seq<char>, u64>::empty());
        }
        r
    }

    fn position(&self, symbol: &str) -> (r: Option<usize>)
        ensures
            r is None <==> !self@.contains_key(symbol@),
            r matches Some(k) ==> k < self.entries@.len() && self.entries@[k as int].0@ == symbol@
                && self@[symbol@] == self.entries@[k as int].1,
    {
        proof {
            use_type_invariant(self);
            lemma_feeds_of_contains(self.entries@, symbol@);
        }
        let mut i: usize = 0;
        while i < self.entries.len()
            invariant
                i <= self.entries.len(),
                forall|j: int| 0 <= j < i ==> (#[trigger] self.entries@[j]).0@ != symbol@,
            decreases self.entries.len() - i,
        {
            if crate::json::text_eq(self.entries[i].0.as_str(), symbol) {
                proof {
                    use_type_invariant(self);
                    lemma_feeds_of_contains(self.entries@, symbol@);
                }
                return Some(i);
            }
            i = i + 1;
        }
        proof {
            use_type_invariant(self);
            lemma_feeds_of_contains(self.entries@, symbol@);
        }
        None
    }

    /// Decides how to open `symbol`: refuse while shutting down, reuse the symbol's
    /// feed, refuse an unknown symbol, or create a feed for its instrument.
    pub fn open(&self, symbol: &str, instruments: &InstrumentMap) -> (r: OpenDecision)
        ensures
            r == open_outcome(self.is_shutting_down(), self@, instruments@, symbol@),
    {
        if self.shutting_down {
            return OpenDecision::ShuttingDown;
        }
        match self.position(symbol) {
            Some(k) => OpenDecision::Reuse(self.entries[k].1),
            None => match instruments.get(symbol) {
                Some(instrument) => OpenDecision::Create(instrument),
                None => OpenDecision::NotFound,
            },
        }
    }

    /// Records the feed created for `symbol`.
    pub fn insert(&mut self, symbol: String, feed: u64)
        requires
            !old(self)@.contains_key(symbol@),
        ensures
            final(self)@ == old(self)@.insert(symbol@, feed),
            final(self).is_shutting_down() == old(self).is_shutting_down(),
    {
        proof {
            use_type_invariant(&*self);
            lemma_feeds_of_contains(self.entries@, symbol@);
        }
        let mut entries: Vec<(String, u64)> = Vec::new();
        std::mem::swap(&mut entries, &mut self.entries);
        let ghost before = entries@;
        entries.push((symbol, feed));
        proof {
            assert(entries@.drop_last() =~= before);
            assert forall|i: int, j: int| 0 <= i < j < entries@.len() implies (#[trigger] entries@[i]).0@ != (#[trigger] entries@[j]).0@ by {
                if j == before.len() {
                    assert(entries@[i] == before[i]);
                } else {
                    assert(entries@[i] == before[i] && entries@[j] == before[j]);
                }
            }
        }
        self.entries = entries;
    }

    /// Removes the feed of `symbol` if it is the feed `feed` and has no subscribers;
    /// true when it was removed, and the caller then shuts it down.
    pub fn remove_if_unused(&mut self, symbol: &str, feed: u64, subscriptions: usize) -> (removed: bool)
        ensures
            removed == (old(self)@.contains_key(symbol@) && old(self)@[symbol@] == feed && subscriptions == 0),
            removed ==> final(self)@ == old(self)@.remove(symbol@),
            !removed ==> final(self)@ == old(self)@,
            final(self).is_shutting_down() == old(self).is_shutting_down(),
    {
        proof {
            use_type_invariant(&*self);
        }
        match self.position(symbol) {
            Some(k) => {
                if self.entries[k].1 == feed && subscriptions == 0 {
                    let mut entries: Vec<(String, u64)> = Vec::new();
                    std::mem::swap(&mut entries, &mut self.entries);
                    let ghost before = entries@;
                    proof {
                        lemma_feeds_of_remove(before, k as int);
                    }
                    entries.remove(k);
                    self.entries = entries;
                    true
                } else {
                    false
                }
            },
            None => false,
        }
    }

    /// Starts shutting down: every feed is taken out of the table and returned once, for
    /// the caller to shut down.
    pub fn shutdown(&mut self) -> (drained: Vec<u64>)
        ensures
            final(self)@ == Map::<Seq<char>, u64>::empty(),
            final(self).is_shutting_down(),
            forall|s: Seq<char>| #[trigger] old(self)@.contains_key(s) ==> drained@.contains(old(self)@[s]),
            forall|i: int| 0 <= i < drained@.len() ==> old(self)@.values().contains(#[trigger] drained@[i]),
            drained@.len() == old(self)@.len(),
    {
        proof {
            use_type_invariant(&*self);
        }
        let mut entries: Vec<(String, u64)> = Vec::new();
        std::mem::swap(&mut entries, &mut self.entries);
        let ghost all = entries@;
        let mut drained: Vec<u64> = Vec::new();
        let mut i: usize = 0;
        while i < entries.len()
            invariant
                entries@ == all,
                unique_symbols(all),
                i <= entries.len(),
                drained@ == all.take(i as int).map_values(|e: (String, u64)| e.1),
            decreases entries.len() - i,
        {
            drained.push(entries[i].1);
            i = i + 1;
            proof {
                assert(drained@ =~= all.take(i as int).map_values(|e: (String, u64)| e.1));
            }
        }
        self.shutting_down = true;
        proof {
            assert(all.take(i as int) =~= all);
            lemma_feeds_of_len(all);
            assert(self@ =~= Map::<Seq<char>, u64>::empty());
            assert forall|s: Seq<char>| #[trigger] feeds_of(all).contains_key(s) implies drained@.contains(feeds_of(all)[s]) by {
                lemma_feeds_of_contains(all, s);
                let k = choose|k: int| 0 <= k < all.len() && (#[trigger] all[k]).0@ == s;
                assert(drained@[k] == all[k].1);
            }
            assert forall|i: int| 0 <= i < drained@.len() implies feeds_of(all).values().contains(#[trigger] drained@[i]) by {
                lemma_feeds_of_contains(all, all[i].0@);
                assert(feeds_of(all).contains_key(all[i].0@));
                assert(feeds_of(all)[all[i].0@] == drained@[i]);
            }
        }
        drained
    }

    /// The number of feeds.
    pub fn len(&self) -> (r: usize)
        ensures
            r == self@.len(),
    {
        proof {
            use_type_invariant(self);
            lemma_feeds_of_len(self.entries@);
        }
        self.entries.len()
    }
}

/// Opening a symbol whose feed was recorded gives that same feed back, until the
/// manager shuts down.
pub proof fn lemma_reopen_reuses(
    feeds: Map<Seq<char>, u64>,
    instruments: Map<Seq<char>, Instrument>,
    symbol: Seq<char>,
    feed: u64,
)
    ensures
        open_outcome(false, feeds.insert(symbol, feed), instruments, symbol) == OpenDecision::Reuse(feed),
{
}

/// After shutdown every request to open a feed is refused.
pub proof fn lemma_shutdown_refuses(
    feeds: Map<Seq<char>, u64>,
    instruments: Map<Seq<char>, Instrument>,
    symbol: Seq<char>,
)
    ensures
        open_outcome(true, feeds, instruments, symbol) == OpenDecision::ShuttingDown,
{
}

/// Once an unused feed is removed, opening its symbol no longer reuses it: a known
/// symbol gets a new feed.
pub proof fn lemma_removed_not_reused(
    feeds: Map<Seq<char>, u64>,
    instruments: Map<Seq<char>, Instrument>,
    symbol: Seq<char>,
)
    ensures
        open_outcome(false, feeds.remove(symbol), instruments, symbol) == (if instruments.contains_key(symbol) {
            OpenDecision::Create(instruments[symbol])
        } else {
            OpenDecision::NotFound
        }),
{
}

/// The first source of `entries` without a factory among `available`, if any.
pub open spec fn first_missing(entries: Seq<(SourceId, Seq<char>)>, available: Seq<SourceId>) -> Option<SourceId>
    decreases entries.len(),
{
    if entries.len() == 0 {
        None
    } else if !available.contains(entries[0].0) {
        Some(entries[0].0)
    } else {
        first_missing(entries.drop_first(), available)
    }
}

/// Plans the sources of an instrument's feed: every source that lists the instrument,
/// with its symbol, in the order of the sources' slots. Fails with the first such
/// source that has no factory among `available`.
pub fn plan_sources(mapping: &SourceMapping, available: &Vec<SourceId>) -> (r: Result<
    Vec<(SourceId, String)>,
    SourceId,
>)
    ensures
        match r {
            Ok(v) => first_missing(mapping_entries(mapping@), available@) is None && entries_view(v@)
                == mapping_entries(mapping@),
            Err(s) => first_missing(mapping_entries(mapping@), available@) == Some(s),
        },
{
    let entries = mapping.entries();
    let ghost e = mapping_entries(mapping@);
    let mut i: usize = 0;
    proof {
        assert(entries_view(entries@).skip(0) =~= e);
    }
    while i < entries.len()
        invariant
            i <= entries.len(),
            entries_view(entries@) == e,
            e == mapping_entries(mapping@),
            first_missing(e, available@) == first_missing(e.skip(i as int), available@),
        decreases entries.len() - i,
    {
        let source = entries[i].0;
        proof {
            assert(e.skip(i as int)[0].0 == source);
            assert(e.skip(i as int).drop_first() =~= e.skip(i + 1));
        }
        let mut found = false;
        let mut k: usize = 0;
        while k < available.len()
            invariant
                k <= available.len(),
                found == exists|m: int| 0 <= m < k && available@[m] == source,
            decreases available.len() - k,
        {
            if available[k] == source {
                found = true;
            }
            k = k + 1;
        }
        if !found {
            proof {
                assert(!available@.contains(source));
                assert(e.skip(i as int).len() > 0);
                assert(first_missing(e.skip(i as int), available@) == Some(source));
            }
            return Err(source);
        }
        proof {
            assert(available@.contains(source));
        }
        i = i + 1;
    }
    proof {
        assert(e.skip(i as int) =~= Seq::<(SourceId, Seq<char>)>::empty());
    }
    Ok(entries)
}

/// Recording a feed for a symbol that had none and then removing it leaves the feeds as
/// they were.
pub proof fn lemma_insert_then_remove(feeds: Map<Seq<char>, u64>, symbol: Seq<char>, feed: u64)
    requires
        !feeds.contains_key(symbol),
    ensures
        feeds.insert(symbol, feed).remove(symbol) == feeds,
{
    assert(feeds.insert(symbol, feed).remove(symbol) =~= feeds);
}

} // verus!
