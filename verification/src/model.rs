//! Order book snapshots of single contributors and their combination into one
//! summary ranked by price.
use vstd::prelude::*;
use crate::binary64::{is_positive, is_nan, order_key, positive, key_of, nan};
use crate::ranking::{
    Level, Side, ranked, top_prices, prices_fit, count_price, rank_levels, take_top_prices,
    is_ranked, lemma_ranked_is_ranked, lemma_ranked_is_permutation, ranks_before, among_best_prices,
    lemma_top_prices_are_best, first_levels, take_first_levels, lemma_first_levels_within_top_prices,
};
use crate::sources::{SourceId, NUM_SOURCES, source_index};

verus! {

/// One price level of a contributor's book. Price and amount are binary64 numbers
/// held as their bit patterns (see `binary64`).
#[derive(Debug, Clone, Copy, PartialEq, Eq, Structural)]
pub struct PriceLevel {
    pub price: u64,
    pub amount: u64,
}

/// The top levels of one side of a contributor's book, at most `N` of them, in the order
/// the contributor ranks them (descending prices for bids, ascending for asks).
#[derive(Debug)]
pub struct ContributorLevels<const N: usize> {
    levels: Vec<PriceLevel>,
}

impl<const N: usize> View for ContributorLevels<N> {
    type V = Seq<PriceLevel>;

    closed spec fn view(&self) -> Seq<PriceLevel> {
        self.levels@
    }
}

/// `levels` with `level` appended when fewer than `n` are held, else unchanged.
pub open spec fn push_capped(levels: Seq<PriceLevel>, level: PriceLevel, n: nat) -> Seq<PriceLevel> {
    if levels.len() < n {
        levels.push(level)
    } else {
        levels
    }
}

impl<const N: usize> ContributorLevels<N> {
    #[verifier::type_invariant]
    spec fn holds_at_most_n(self) -> bool {
        self.levels.len() <= N
    }

    /// No levels.
    pub fn new() -> (r: Self)
        ensures
            r@ == Seq::<PriceLevel>::empty(),
    {
        ContributorLevels { levels: Vec::new() }
    }

    /// Appends `level` if fewer than `N` levels are held; otherwise drops it.
    pub fn push(&mut self, level: PriceLevel)
        ensures
            final(self)@ == push_capped(old(self)@, level, N as nat),
            final(self)@.len() <= N,
    {
        proof {
            use_type_invariant(&*self);
        }
        if self.levels.len() < N {
            let mut levels = Vec::new();
            std::mem::swap(&mut levels, &mut self.levels);
            levels.push(level);
            self.levels = levels;
        }
    }

    /// The held levels, in order.
    pub fn as_slice(&self) -> (r: &[PriceLevel])
        ensures
            r@ == self@,
            r@.len() <= N,
    {
        proof {
            use_type_invariant(self);
        }
        self.levels.as_slice()
    }

    /// The number of held levels, never more than `N`.
    pub fn depth(&self) -> (r: usize)
        ensures
            r == self@.len(),
            r <= N,
    {
        proof {
            use_type_invariant(self);
        }
        self.levels.len()
    }
}

impl<const N: usize> Clone for ContributorLevels<N> {
    fn clone(&self) -> (r: Self)
        ensures
            r@ == self@,
    {
        proof {
            use_type_invariant(self);
        }
        let mut levels: Vec<PriceLevel> = Vec::new();
        let mut i: usize = 0;
        while i < self.levels.len()
            invariant
                i <= self.levels.len() <= N,
                levels@ == self.levels@.take(i as int),
            decreases self.levels.len() - i,
        {
            levels.push(self.levels[i]);
            i = i + 1;
            proof {
                assert(levels@ =~= self.levels@.take(i as int));
            }
        }
        proof {
            assert(self.levels@.take(i as int) =~= self.levels@);
        }
        ContributorLevels { levels }
    }
}

impl<const N: usize> Default for ContributorLevels<N> {
    fn default() -> (r: Self)
        ensures
            r@ == Seq::<PriceLevel>::empty(),
    {
        ContributorLevels::new()
    }
}

/// One order book snapshot from a contributor: its top bids and asks, the source and
/// the time (nanoseconds since the epoch) at which it arrived.
#[derive(Debug)]
pub struct ContributorSnapshot<const N: usize> {
    bids: ContributorLevels<N>,
    asks: ContributorLevels<N>,
    source_id: SourceId,
    arrival_time: u64,
}

impl<const N: usize> ContributorSnapshot<N> {
    /// The bid levels.
    pub closed spec fn bid_levels(&self) -> Seq<PriceLevel> {
        self.bids@
    }

    /// The ask levels.
    pub closed spec fn ask_levels(&self) -> Seq<PriceLevel> {
        self.asks@
    }

    /// The contributing source.
    pub closed spec fn source(&self) -> SourceId {
        self.source_id
    }

    /// The arrival time.
    pub closed spec fn arrival(&self) -> u64 {
        self.arrival_time
    }

    /// Neither bids nor asks.
    pub open spec fn empty(&self) -> bool {
        self.bid_levels().len() == 0 && self.ask_levels().len() == 0
    }

    /// An empty snapshot of `source` that arrived at `arrival_time`.
    pub fn new(source: SourceId, arrival_time: u64) -> (r: Self)
        ensures
            r.bid_levels() == Seq::<PriceLevel>::empty(),
            r.ask_levels() == Seq::<PriceLevel>::empty(),
            r.source() == source,
            r.arrival() == arrival_time,
    {
        ContributorSnapshot {
            bids: ContributorLevels::new(),
            asks: ContributorLevels::new(),
            source_id: source,
            arrival_time,
        }
    }

    /// Appends a bid level unless `N` bids are held already.
    pub fn push_bid(&mut self, price: u64, amount: u64)
        ensures
            final(self).bid_levels() == push_capped(
                old(self).bid_levels(),
                PriceLevel { price, amount },
                N as nat,
            ),
            final(self).bid_levels().len() <= N,
            final(self).ask_levels() == old(self).ask_levels(),
            final(self).source() == old(self).source(),
            final(self).arrival() == old(self).arrival(),
    {
        self.bids.push(PriceLevel { price, amount });
    }

    /// Appends an ask level unless `N` asks are held already.
    pub fn push_ask(&mut self, price: u64, amount: u64)
        ensures
            final(self).ask_levels() == push_capped(
                old(self).ask_levels(),
                PriceLevel { price, amount },
                N as nat,
            ),
            final(self).ask_levels().len() <= N,
            final(self).bid_levels() == old(self).bid_levels(),
            final(self).source() == old(self).source(),
            final(self).arrival() == old(self).arrival(),
    {
        self.asks.push(PriceLevel { price, amount });
    }

    /// Whether the snapshot has neither bids nor asks.
    pub fn is_empty(&self) -> (r: bool)
        ensures
            r == self.empty(),
    {
        self.bids.depth() == 0 && self.asks.depth() == 0
    }

    /// The contributing source.
    pub fn source_id(&self) -> (r: SourceId)
        ensures
            r == self.source(),
    {
        self.source_id
    }

    /// The arrival time.
    pub fn arrival_time(&self) -> (r: u64)
        ensures
            r == self.arrival(),
    {
        self.arrival_time
    }

    /// The bid levels, in order.
    pub fn bids(&self) -> (r: &[PriceLevel])
        ensures
            r@ == self.bid_levels(),
            r@.len() <= N,
    {
        self.bids.as_slice()
    }

    /// The ask levels, in order.
    pub fn asks(&self) -> (r: &[PriceLevel])
        ensures
            r@ == self.ask_levels(),
            r@.len() <= N,
    {
        self.asks.as_slice()
    }
}

impl<const N: usize> Clone for ContributorSnapshot<N> {
    fn clone(&self) -> (r: Self)
        ensures
            r.bid_levels() == self.bid_levels(),
            r.ask_levels() == self.ask_levels(),
            r.source() == self.source(),
            r.arrival() == self.arrival(),
    {
        ContributorSnapshot {
            bids: self.bids.clone(),
            asks: self.asks.clone(),
            source_id: self.source_id,
            arrival_time: self.arrival_time,
        }
    }
}

impl<const N: usize> Default for ContributorSnapshot<N> {
    fn default() -> (r: Self)
        ensures
            r.empty(),
            r.source() == SourceId::Bitstamp,
            r.arrival() == 0,
    {
        ContributorSnapshot::new(SourceId::Bitstamp, 0)
    }
}

/// The combined book's level for a contributor's level.
pub open spec fn level_of(source: SourceId, p: PriceLevel) -> Level {
    Level { exchange: source, price: p.price, amount: p.amount }
}

/// The levels of one side of a snapshot.
pub open spec fn snapshot_side<const N: usize>(snap: ContributorSnapshot<N>, side: Side) -> Seq<PriceLevel> {
    match side {
        Side::Bid => snap.bid_levels(),
        Side::Ask => snap.ask_levels(),
    }
}

/// The levels of one side of a snapshot, tagged with its source.
pub open spec fn side_levels<const N: usize>(snap: ContributorSnapshot<N>, side: Side) -> Seq<Level> {
    snapshot_side(snap, side).map_values(|p: PriceLevel| level_of(snap.source(), p))
}

/// The levels of one side of all snapshots, in the order of the snapshots.
pub open spec fn merged_levels<const N: usize>(snaps: Seq<ContributorSnapshot<N>>, side: Side) -> Seq<Level>
    decreases snaps.len(),
{
    if snaps.len() == 0 {
        Seq::<Level>::empty()
    } else {
        merged_levels(snaps.drop_last(), side) + side_levels(snaps.last(), side)
    }
}

/// The latest arrival time among the snapshots that are not empty; 0 when all are.
pub open spec fn latest_arrival<const N: usize>(snaps: Seq<ContributorSnapshot<N>>) -> u64
    decreases snaps.len(),
{
    if snaps.len() == 0 {
        0
    } else {
        let before = latest_arrival(snaps.drop_last());
        let last = snaps.last();
        if last.empty() || last.arrival() <= before {
            before
        } else {
            last.arrival()
        }
    }
}

/// The spread between the best bid and the best ask, which is `ask - bid`; the values
/// are held as binary64 bit patterns.
#[derive(Debug, Clone, Copy, PartialEq, Eq, Structural)]
pub enum Spread {
    /// There is no best bid or no best ask, or one of them is not above zero.
    Undefined,
    /// The best bid and best ask prices.
    Between { bid: u64, ask: u64 },
}

/// The spread of a top bid and a top ask: defined when both exist and both prices are
/// above zero.
pub open spec fn spread_spec(bid: Option<Level>, ask: Option<Level>) -> Spread {
    match (bid, ask) {
        (Some(b), Some(a)) => if is_positive(b.price) && is_positive(a.price) {
            Spread::Between { bid: b.price, ask: a.price }
        } else {
            Spread::Undefined
        },
        _ => Spread::Undefined,
    }
}

/// The first element of `s`, if any.
pub open spec fn first_of(s: Seq<Level>) -> Option<Level> {
    if s.len() > 0 {
        Some(s[0])
    } else {
        None
    }
}

/// Computes the spread from the top bid and ask levels.
pub fn spread_from(bid: Option<&Level>, ask: Option<&Level>) -> (r: Spread)
    ensures
        r == spread_spec(
            match bid {
                Some(b) => Some(*b),
                None => None,
            },
            match ask {
                Some(a) => Some(*a),
                None => None,
            },
        ),
{
    match (bid, ask) {
        (Some(b), Some(a)) => {
            if positive(b.price) && positive(a.price) {
                Spread::Between { bid: b.price, ask: a.price }
            } else {
                Spread::Undefined
            }
        },
        _ => Spread::Undefined,
    }
}

/// The combined book published to clients.
#[derive(Debug, Clone)]
pub struct Summary {
    pub spread: Spread,
    pub bids: Vec<Level>,
    pub asks: Vec<Level>,
    /// The latest arrival time (nanoseconds since the epoch) of the contributing snapshots.
    pub arrival_time: u64,
}

/// The levels at the first `N` prices of one side of the merged snapshots, in ranking
/// order.
pub open spec fn best_price_levels<const N: usize>(snaps: Seq<ContributorSnapshot<N>>, side: Side) -> Seq<Level> {
    top_prices(ranked(side, merged_levels(snaps, side)), N as nat)
}

/// The top `N` levels of one side of the merged snapshots, in ranking order (all of them
/// when there are fewer).
pub open spec fn top_side<const N: usize>(snaps: Seq<ContributorSnapshot<N>>, side: Side) -> Seq<Level> {
    first_levels(ranked(side, merged_levels(snaps, side)), N as nat)
}

/// The latest snapshot of each source, kept in the slot of its source.
#[derive(Debug)]
pub struct CombinedSummary<const N: usize> {
    sources: [ContributorSnapshot<N>; NUM_SOURCES],
}

impl<const N: usize> View for CombinedSummary<N> {
    type V = Seq<ContributorSnapshot<N>>;

    closed spec fn view(&self) -> Seq<ContributorSnapshot<N>> {
        self.sources@
    }
}

/// No price on either side of the merged snapshots has more than `N` levels.
pub open spec fn fits_depth<const N: usize>(snaps: Seq<ContributorSnapshot<N>>) -> bool {
    &&& prices_fit(merged_levels(snaps, Side::Bid), N as nat)
    &&& prices_fit(merged_levels(snaps, Side::Ask), N as nat)
}

/// Every level of `s` whose amount is NaN is the only level at its price. Amounts at
/// one price are compared to order them, and a NaN amount cannot be compared.
pub open spec fn nan_amounts_alone(s: Seq<Level>) -> bool {
    forall|i: int|
        0 <= i < s.len() && is_nan(s[i].amount) ==> #[trigger] count_price(s, order_key(s[i].price)) <= 1
}

/// The snapshots can be summarized: no price has more than `N` levels, and at the first
/// `N` prices of a side, whose levels are ordered by amount, no level with a NaN amount
/// shares its price.
pub open spec fn summarizable<const N: usize>(snaps: Seq<ContributorSnapshot<N>>) -> bool {
    &&& fits_depth(snaps)
    &&& nan_amounts_alone(best_price_levels(snaps, Side::Bid))
    &&& nan_amounts_alone(best_price_levels(snaps, Side::Ask))
}

/// Appends the levels of one side of `snap` to `out`.
fn append_side<const N: usize>(out: &mut Vec<Level>, snap: &ContributorSnapshot<N>, side: Side)
    ensures
        final(out)@ == old(out)@ + side_levels(*snap, side),
{
    let levels = match side {
        Side::Bid => snap.bids(),
        Side::Ask => snap.asks(),
    };
    let source = snap.source_id();
    let ghost start = out@;
    let mut i: usize = 0;
    while i < levels.len()
        invariant
            i <= levels.len(),
            levels@ == snapshot_side(*snap, side),
            source == snap.source(),
            out@ == start + side_levels(*snap, side).take(i as int),
        decreases levels.len() - i,
    {
        let p = levels[i];
        out.push(Level { exchange: source, price: p.price, amount: p.amount });
        i = i + 1;
        proof {
            assert(out@ =~= start + side_levels(*snap, side).take(i as int));
        }
    }
    proof {
        assert(side_levels(*snap, side).take(i as int) =~= side_levels(*snap, side));
    }
}

/// The number of levels of `s` whose price has the key of `price`.
fn count_levels_at(s: &Vec<Level>, price: u64) -> (r: usize)
    ensures
        r == count_price(s@, order_key(price)),
{
    let k = key_of(price);
    let mut c: usize = 0;
    let mut i: usize = 0;
    while i < s.len()
        invariant
            i <= s.len(),
            k == order_key(price),
            c == count_price(s@.take(i as int), k as int),
            c <= i,
        decreases s.len() - i,
    {
        proof {
            assert(s@.take(i + 1).drop_last() =~= s@.take(i as int));
        }
        if key_of(s[i].price) == k {
            c = c + 1;
        }
        i = i + 1;
    }
    proof {
        assert(s@.take(i as int) =~= s@);
    }
    c
}

/// Whether no price of `s` has more than `n` levels.
fn levels_fit(s: &Vec<Level>, n: usize) -> (r: bool)
    ensures
        r == prices_fit(s@, n as nat),
{
    let mut i: usize = 0;
    while i < s.len()
        invariant
            i <= s.len(),
            forall|j: int| 0 <= j < i ==> #[trigger] count_price(s@, order_key(s@[j].price)) <= n,
        decreases s.len() - i,
    {
        if count_levels_at(s, s[i].price) > n {
            return false;
        }
        i = i + 1;
    }
    true
}

/// Whether every level of `s` with a NaN amount is alone at its price.
fn levels_nan_alone(s: &Vec<Level>) -> (r: bool)
    ensures
        r == nan_amounts_alone(s@),
{
    let mut i: usize = 0;
    while i < s.len()
        invariant
            i <= s.len(),
            forall|j: int|
                0 <= j < i && is_nan(s@[j].amount) ==> #[trigger] count_price(s@, order_key(s@[j].price)) <= 1,
        decreases s.len() - i,
    {
        if nan(s[i].amount) && count_levels_at(s, s[i].price) > 1 {
            return false;
        }
        i = i + 1;
    }
    true
}

impl<const N: usize> CombinedSummary<N> {
    /// One slot per source.
    pub proof fn lemma_slots(&self)
        ensures
            self@.len() == NUM_SOURCES,
    {
    }

    /// One empty snapshot per source.
    pub fn new() -> (r: Self)
        ensures
            r@.len() == NUM_SOURCES,
            forall|i: int| 0 <= i < NUM_SOURCES ==> (#[trigger] r@[i]).empty(),
    {
        CombinedSummary { sources: [ContributorSnapshot::default(), ContributorSnapshot::default()] }
    }

    /// Replaces the snapshot held for the snapshot's source; the other slots keep theirs.
    pub fn update_snapshot(&mut self, snapshot: ContributorSnapshot<N>)
        ensures
            old(self)@.len() == NUM_SOURCES,
            final(self)@.len() == NUM_SOURCES,
            final(self)@ == old(self)@.update(source_index(snapshot.source()), snapshot),
            final(self)@[source_index(snapshot.source())] == snapshot,
            forall|j: int|
                0 <= j < NUM_SOURCES && j != source_index(snapshot.source())
                    ==> #[trigger] final(self)@[j] == old(self)@[j],
    {
        let index = usize::from(snapshot.source_id());
        self.sources[index] = snapshot;
    }

    /// The merged bid and ask levels of all snapshots, in snapshot order.
    fn merged(&self) -> (r: (Vec<Level>, Vec<Level>, u64))
        ensures
            r.0@ == merged_levels(self@, Side::Bid),
            r.1@ == merged_levels(self@, Side::Ask),
            r.2 == latest_arrival(self@),
    {
        let mut bids: Vec<Level> = Vec::new();
        let mut asks: Vec<Level> = Vec::new();
        let mut latest: u64 = 0;
        let mut i: usize = 0;
        while i < NUM_SOURCES
            invariant
                i <= NUM_SOURCES,
                self@.len() == NUM_SOURCES,
                bids@ == merged_levels(self@.take(i as int), Side::Bid),
                asks@ == merged_levels(self@.take(i as int), Side::Ask),
                latest == latest_arrival(self@.take(i as int)),
            decreases NUM_SOURCES - i,
        {
            let snapshot = &self.sources[i];
            proof {
                let next = self@.take(i + 1);
                assert(next.drop_last() =~= self@.take(i as int));
                assert(next.last() == self@[i as int]);
            }
            if !snapshot.is_empty() {
                if snapshot.arrival_time() > latest {
                    latest = snapshot.arrival_time();
                }
                append_side(&mut bids, snapshot, Side::Bid);
                append_side(&mut asks, snapshot, Side::Ask);
            } else {
                proof {
                    assert(side_levels(*snapshot, Side::Bid) =~= Seq::<Level>::empty());
                    assert(side_levels(*snapshot, Side::Ask) =~= Seq::<Level>::empty());
                    assert(bids@ + side_levels(*snapshot, Side::Bid) =~= bids@);
                    assert(asks@ + side_levels(*snapshot, Side::Ask) =~= asks@);
                }
            }
            i = i + 1;
        }
        proof {
            assert(self@.take(i as int) =~= self@);
        }
        (bids, asks, latest)
    }

    /// Whether the snapshots can be summarized, which `to_proto` needs.
    pub fn can_summarize(&self) -> (r: bool)
        ensures
            r == summarizable(self@),
    {
        let (bids, asks, _) = self.merged();
        if !levels_fit(&bids, N) || !levels_fit(&asks, N) {
            return false;
        }
        let top_bids = take_top_prices(&rank_levels(Side::Bid, &bids), N);
        let top_asks = take_top_prices(&rank_levels(Side::Ask, &asks), N);
        levels_nan_alone(&top_bids) && levels_nan_alone(&top_asks)
    }

    /// The combined book: the top `N` bids and the top `N` asks over all non-empty
    /// snapshots, ranked, with the spread and the latest arrival time.
    pub fn to_proto(&self) -> (r: Summary)
        requires
            summarizable(self@),
        ensures
            r.bids@ == top_side(self@, Side::Bid),
            r.asks@ == top_side(self@, Side::Ask),
            r.arrival_time == latest_arrival(self@),
            r.spread == spread_spec(first_of(r.bids@), first_of(r.asks@)),
    {
        let (bid_levels, ask_levels, latest) = self.merged();
        let bids = take_first_levels(&rank_levels(Side::Bid, &bid_levels), N);
        let asks = take_first_levels(&rank_levels(Side::Ask, &ask_levels), N);
        let spread = spread_from(
            if bids.len() > 0 { Some(&bids[0]) } else { None },
            if asks.len() > 0 { Some(&asks[0]) } else { None },
        );
        Summary { spread, bids, asks, arrival_time: latest }
    }
}

/// What a summary side holds: the first `N` levels of the merged snapshots in ranking
/// order. It is ranked, holds at most `N` levels and only levels of the snapshots; a level
/// is left out only when no kept level ranks after it, and then exactly `N` are kept; the
/// kept levels lie at the first `N` prices.
pub proof fn lemma_top_side<const N: usize>(snaps: Seq<ContributorSnapshot<N>>, side: Side)
    ensures
        is_ranked(side, top_side(snaps, side)),
        top_side(snaps, side).len() <= N,
        forall|l: Level|
            #![trigger merged_levels(snaps, side).to_multiset().count(l)]
            top_side(snaps, side).to_multiset().count(l) <= merged_levels(
                snaps,
                side,
            ).to_multiset().count(l),
        forall|l: Level, i: int|
            #![trigger ranks_before(side, l, top_side(snaps, side)[i])]
            0 <= i < top_side(snaps, side).len() && top_side(snaps, side).to_multiset().count(l)
                < merged_levels(snaps, side).to_multiset().count(l) ==> !ranks_before(
                side,
                l,
                top_side(snaps, side)[i],
            ),
        top_side(snaps, side).to_multiset() != merged_levels(snaps, side).to_multiset()
            ==> top_side(snaps, side).len() == N,
        top_side(snaps, side) == best_price_levels(snaps, side).take(top_side(snaps, side).len() as int),
{
    broadcast use vstd::seq_lib::group_to_multiset_ensures;
    broadcast use vstd::multiset::group_multiset_axioms;

    let all = merged_levels(snaps, side);
    let r = ranked(side, all);
    let kept = top_side(snaps, side);
    lemma_ranked_is_ranked(side, all);
    lemma_ranked_is_permutation(side, all);
    lemma_first_levels_within_top_prices(r, N as nat);
    let m = kept.len() as int;
    let rest = r.skip(m);
    assert(kept =~= r.take(m));
    assert(r =~= kept + rest);
    vstd::seq_lib::lemma_multiset_commutative(kept, rest);
    assert forall|i: int, j: int| 0 <= i < j < kept.len() implies !ranks_before(
        side,
        #[trigger] kept[j],
        #[trigger] kept[i],
    ) by {
        assert(kept[i] == r[i] && kept[j] == r[j]);
    }
    assert forall|l: Level, i: int|
        #![trigger ranks_before(side, l, kept[i])]
        0 <= i < kept.len() && kept.to_multiset().count(l) < all.to_multiset().count(l)
            implies !ranks_before(side, l, kept[i]) by {
        assert(rest.to_multiset().count(l) > 0);
        assert(rest.contains(l));
        let j = choose|j: int| 0 <= j < rest.len() && rest[j] == l;
        assert(r[m + j] == l);
        assert(kept[i] == r[i]);
    }
    if kept.to_multiset() != all.to_multiset() {
        if m == r.len() {
            assert(rest =~= Seq::<Level>::empty());
            assert(kept.to_multiset() =~= all.to_multiset());
        }
    }
}

/// The summary's arrival time is the latest arrival among the non-empty snapshots, or 0
/// when all are empty.
pub proof fn lemma_latest_arrival<const N: usize>(snaps: Seq<ContributorSnapshot<N>>)
    ensures
        forall|i: int|
            0 <= i < snaps.len() && !(#[trigger] snaps[i]).empty() ==> snaps[i].arrival()
                <= latest_arrival(snaps),
        latest_arrival(snaps) == 0 || exists|i: int|
            0 <= i < snaps.len() && !(#[trigger] snaps[i]).empty() && snaps[i].arrival()
                == latest_arrival(snaps),
    decreases snaps.len(),
{
    if snaps.len() > 0 {
        let d = snaps.drop_last();
        lemma_latest_arrival(d);
        assert forall|i: int|
            0 <= i < snaps.len() && !(#[trigger] snaps[i]).empty() implies snaps[i].arrival()
            <= latest_arrival(snaps) by {
            if i < snaps.len() - 1 {
                assert(snaps[i] == d[i]);
            }
        }
        if latest_arrival(snaps) != 0 {
            if latest_arrival(snaps) == latest_arrival(d) {
                let i = choose|i: int|
                    0 <= i < d.len() && !(#[trigger] d[i]).empty() && d[i].arrival()
                        == latest_arrival(d);
                assert(snaps[i] == d[i]);
            } else {
                assert(!snaps[snaps.len() - 1].empty());
            }
        }
    }
}

/// Snapshots without levels contribute nothing: the merged sides are empty, the arrival
/// time is 0 and the depth limit holds.
pub proof fn lemma_all_empty<const N: usize>(snaps: Seq<ContributorSnapshot<N>>)
    requires
        forall|i: int| 0 <= i < snaps.len() ==> (#[trigger] snaps[i]).empty(),
    ensures
        merged_levels(snaps, Side::Bid) == Seq::<Level>::empty(),
        merged_levels(snaps, Side::Ask) == Seq::<Level>::empty(),
        latest_arrival(snaps) == 0,
        summarizable(snaps),
    decreases snaps.len(),
{
    if snaps.len() > 0 {
        let d = snaps.drop_last();
        assert forall|i: int| 0 <= i < d.len() implies (#[trigger] d[i]).empty() by {
            assert(d[i] == snaps[i]);
        }
        lemma_all_empty(d);
        let last = snaps.last();
        assert(last.empty());
        assert(side_levels(last, Side::Bid) =~= Seq::<Level>::empty());
        assert(side_levels(last, Side::Ask) =~= Seq::<Level>::empty());
        assert(merged_levels(snaps, Side::Bid) =~= Seq::<Level>::empty());
        assert(merged_levels(snaps, Side::Ask) =~= Seq::<Level>::empty());
    }
    assert(ranked(Side::Bid, Seq::<Level>::empty()) =~= Seq::<Level>::empty());
    assert(ranked(Side::Ask, Seq::<Level>::empty()) =~= Seq::<Level>::empty());
}

/// A later snapshot of a source replaces the earlier one entirely, and the other
/// sources' snapshots stay as they were.
pub proof fn lemma_update_overwrites<const N: usize>(
    snaps: Seq<ContributorSnapshot<N>>,
    first: ContributorSnapshot<N>,
    second: ContributorSnapshot<N>,
)
    requires
        snaps.len() == NUM_SOURCES,
        first.source() == second.source(),
    ensures
        snaps.update(source_index(first.source()), first).update(source_index(second.source()), second)
            == snaps.update(source_index(second.source()), second),
        forall|i: int|
            0 <= i < NUM_SOURCES && i != source_index(second.source()) ==> #[trigger] snaps.update(
                source_index(second.source()),
                second,
            )[i] == snaps[i],
{
    assert(snaps.update(source_index(first.source()), first).update(source_index(second.source()), second)
        =~= snaps.update(source_index(second.source()), second));
}

/// Snapshots of different sources land in different slots, so the order in which they
/// arrive does not matter.
pub proof fn lemma_updates_commute<const N: usize>(
    snaps: Seq<ContributorSnapshot<N>>,
    a: ContributorSnapshot<N>,
    b: ContributorSnapshot<N>,
)
    requires
        snaps.len() == NUM_SOURCES,
        a.source() != b.source(),
    ensures
        snaps.update(source_index(a.source()), a).update(source_index(b.source()), b)
            == snaps.update(source_index(b.source()), b).update(source_index(a.source()), a),
{
    crate::sources::lemma_source_index_injective(a.source(), b.source());
    crate::sources::lemma_source_index_injective(b.source(), a.source());
    assert(snaps.update(source_index(a.source()), a).update(source_index(b.source()), b)
        =~= snaps.update(source_index(b.source()), b).update(source_index(a.source()), a));
}

/// Each level of a summary side has its price among the `N` best distinct prices of that
/// side (prices compared as numbers, NaN read as zero), and is held there no more often
/// than the snapshots hold it; when fewer than `N` levels are kept, every level is kept.
pub proof fn lemma_top_side_best_prices<const N: usize>(snaps: Seq<ContributorSnapshot<N>>, side: Side)
    ensures
        top_side(snaps, side).to_multiset().subset_of(
            merged_levels(snaps, side).to_multiset().filter(
                |l: Level| among_best_prices(side, merged_levels(snaps, side), l, N as nat),
            ),
        ),
        top_side(snaps, side).len() < N ==> top_side(snaps, side).to_multiset() == merged_levels(
            snaps,
            side,
        ).to_multiset(),
{
    broadcast use vstd::multiset::group_multiset_axioms;
    broadcast use vstd::seq_lib::group_to_multiset_ensures;

    let all = merged_levels(snaps, side);
    let r = ranked(side, all);
    let f = |l: Level| among_best_prices(side, all, l, N as nat);
    let kept = top_side(snaps, side);
    let best = best_price_levels(snaps, side);
    lemma_top_side(snaps, side);
    let k = kept.len() as int;
    lemma_first_levels_within_top_prices(r, N as nat);
    assert(best =~= kept + best.skip(k));
    vstd::seq_lib::lemma_multiset_commutative(kept, best.skip(k));
    assert forall|l: Level| #[trigger] kept.to_multiset().count(l) <= all.to_multiset().filter(f).count(l) by {
        lemma_top_prices_are_best(side, all, N as nat, l);
    }
    lemma_ranked_is_permutation(side, all);
    if k < N {
        assert(kept =~= r);
    }
}

/// Among the summary's levels with prices above zero, bids come from the highest price
/// down and asks from the lowest price up (comparing the binary64 patterns, which for
/// numbers above zero order as the numbers do).
pub proof fn lemma_summary_price_order<const N: usize>(snaps: Seq<ContributorSnapshot<N>>)
    ensures
        forall|i: int, j: int|
            0 <= i < j < top_side(snaps, Side::Bid).len() && 0 < #[trigger] top_side(snaps, Side::Bid)[i].price
                <= 0x7FF0_0000_0000_0000 && 0 < #[trigger] top_side(snaps, Side::Bid)[j].price
                <= 0x7FF0_0000_0000_0000 ==> top_side(snaps, Side::Bid)[j].price <= top_side(
                snaps,
                Side::Bid,
            )[i].price,
        forall|i: int, j: int|
            0 <= i < j < top_side(snaps, Side::Ask).len() && 0 < #[trigger] top_side(snaps, Side::Ask)[i].price
                <= 0x7FF0_0000_0000_0000 && 0 < #[trigger] top_side(snaps, Side::Ask)[j].price
                <= 0x7FF0_0000_0000_0000 ==> top_side(snaps, Side::Ask)[i].price <= top_side(
                snaps,
                Side::Ask,
            )[j].price,
{
    lemma_top_side(snaps, Side::Bid);
    lemma_top_side(snaps, Side::Ask);
    let bids = top_side(snaps, Side::Bid);
    let asks = top_side(snaps, Side::Ask);
    assert forall|i: int, j: int|
        0 <= i < j < bids.len() && 0 < #[trigger] bids[i].price <= 0x7FF0_0000_0000_0000 && 0
            < #[trigger] bids[j].price <= 0x7FF0_0000_0000_0000 implies bids[j].price
        <= bids[i].price by {
        assert(!ranks_before(Side::Bid, bids[j], bids[i]));
        crate::binary64::lemma_order_key_follows_numbers(bids[i].price, bids[j].price);
    }
    assert forall|i: int, j: int|
        0 <= i < j < asks.len() && 0 < #[trigger] asks[i].price <= 0x7FF0_0000_0000_0000 && 0
            < #[trigger] asks[j].price <= 0x7FF0_0000_0000_0000 implies asks[i].price
        <= asks[j].price by {
        assert(!ranks_before(Side::Ask, asks[j], asks[i]));
        crate::binary64::lemma_order_key_follows_numbers(asks[j].price, asks[i].price);
    }
}

/// The spread is defined exactly when there is a top bid and a top ask and both prices
/// are numbers above zero (sign bit clear, not zero, at most infinity); it is then the
/// pair of those two prices.
pub proof fn lemma_spread_defined(bid: Option<Level>, ask: Option<Level>)
    ensures
        (bid matches Some(b) && ask matches Some(a) && 0 < b.price <= 0x7FF0_0000_0000_0000 && 0
            < a.price <= 0x7FF0_0000_0000_0000) ==> spread_spec(bid, ask) == (Spread::Between {
            bid: bid.unwrap().price,
            ask: ask.unwrap().price,
        }),
        !(bid matches Some(b) && ask matches Some(a) && 0 < b.price <= 0x7FF0_0000_0000_0000 && 0
            < a.price <= 0x7FF0_0000_0000_0000) ==> spread_spec(bid, ask) == Spread::Undefined,
{
}

} // verus!
