//! Reading exchange order book messages.
//!
//! A message is read in two steps around the decimal conversion of its numbers, which
//! needs binary64 arithmetic and is done by the caller: this module first picks the
//! price and amount texts of the levels out of the JSON message, then builds the
//! snapshot from the converted numbers.
use vstd::prelude::*;
use vstd::string::*;
use crate::binary64::{is_positive, positive};
use crate::json::{
    JsonValue, spec_parse_json, parse_json, json_get, json_field, json_at, json_str, json_array,
    text_eq,
};
use crate::model::{ContributorSnapshot, PriceLevel, push_capped};
use crate::sources::SourceId;

verus! {

/// The price and amount texts of one level, each `None` when the message does not hold
/// a string there.
#[derive(Debug, Clone)]
pub struct TextLevel {
    pub price: Option<String>,
    pub amount: Option<String>,
}

/// The view of an optional text.
pub open spec fn opt_text(t: Option<String>) -> Option<Seq<char>> {
    match t {
        Some(s) => Some(s@),
        None => None,
    }
}

impl View for TextLevel {
    type V = (Option<Seq<char>>, Option<Seq<char>>);

    open spec fn view(&self) -> (Option<Seq<char>>, Option<Seq<char>>) {
        (opt_text(self.price), opt_text(self.amount))
    }
}

/// The bid and ask level texts of a message, in message order.
#[derive(Debug, Clone)]
pub struct TextBook {
    pub bids: Vec<TextLevel>,
    pub asks: Vec<TextLevel>,
}

/// The view of a sequence of level texts.
pub open spec fn texts_view(s: Seq<TextLevel>) -> Seq<(Option<Seq<char>>, Option<Seq<char>>)> {
    s.map_values(|t: TextLevel| t@)
}

impl View for TextBook {
    type V = (
        Seq<(Option<Seq<char>>, Option<Seq<char>>)>,
        Seq<(Option<Seq<char>>, Option<Seq<char>>)>,
    );

    open spec fn view(&self) -> Self::V {
        (texts_view(self.bids@), texts_view(self.asks@))
    }
}

/// Why a message could not be read.
#[derive(Debug, Clone, Copy, PartialEq, Eq, Structural)]
pub enum FeedParseError {
    /// The message is not JSON.
    InvalidJson,
}

/// The first `n` elements of `s`, or all of them when there are fewer.
pub open spec fn first_n<A>(s: Seq<A>, n: nat) -> Seq<A> {
    if s.len() <= n {
        s
    } else {
        s.take(n as int)
    }
}

/// The price and amount texts of an entry `[price, amount, ...]`.
pub open spec fn entry_texts(entry: JsonValue) -> (Option<Seq<char>>, Option<Seq<char>>) {
    (json_str(json_at(entry, 0)), json_str(json_at(entry, 1)))
}

/// The texts of the first `n` entries of the array `side` of a Binance depth message;
/// nothing when that member is missing or not an array.
pub open spec fn binance_side(doc: JsonValue, side: Seq<char>, n: nat) -> Seq<
    (Option<Seq<char>>, Option<Seq<char>>),
> {
    match json_get(doc, side) {
        Some(v) => match json_array(v) {
            Some(items) => first_n(items, n).map_values(|e: JsonValue| entry_texts(e)),
            None => Seq::empty(),
        },
        None => Seq::empty(),
    }
}

/// "bids"
pub open spec fn bids_key() -> Seq<char> {
    seq!['b', 'i', 'd', 's']
}

/// "asks"
pub open spec fn asks_key() -> Seq<char> {
    seq!['a', 's', 'k', 's']
}

/// The level texts of a Binance depth message: the first `n` entries of "bids" and
/// of "asks". Every entry is kept; an entry whose price or amount is not a string keeps
/// `None` there.
pub open spec fn binance_book(doc: JsonValue, n: nat) -> (
    Seq<(Option<Seq<char>>, Option<Seq<char>>)>,
    Seq<(Option<Seq<char>>, Option<Seq<char>>)>,
) {
    (binance_side(doc, bids_key(), n), binance_side(doc, asks_key(), n))
}

/// The entries of `s` whose price and amount are both strings.
pub open spec fn complete_texts(s: Seq<(Option<Seq<char>>, Option<Seq<char>>)>) -> Seq<
    (Option<Seq<char>>, Option<Seq<char>>),
>
    decreases s.len(),
{
    if s.len() == 0 {
        s
    } else {
        let rest = complete_texts(s.drop_last());
        if s.last().0 is Some && s.last().1 is Some {
            rest.push(s.last())
        } else {
            rest
        }
    }
}

/// The texts of the first `n` entries of `data[side]` of a Bitstamp message (nothing
/// when that is not an array), keeping only entries whose price and amount are strings.
pub open spec fn bitstamp_side(data: JsonValue, side: Seq<char>, n: nat) -> Seq<
    (Option<Seq<char>>, Option<Seq<char>>),
> {
    match json_array(json_field(data, side)) {
        Some(items) => complete_texts(first_n(items, n).map_values(|e: JsonValue| entry_texts(e))),
        None => Seq::empty(),
    }
}

/// "data"
pub open spec fn data_key() -> Seq<char> {
    seq!['d', 'a', 't', 'a']
}

/// "event"
pub open spec fn event_key() -> Seq<char> {
    seq!['e', 'v', 'e', 'n', 't']
}

/// "channel"
pub open spec fn channel_key() -> Seq<char> {
    seq!['c', 'h', 'a', 'n', 'n', 'e', 'l']
}

/// The text of a member that is a string, or the empty text.
pub open spec fn str_or_empty(v: JsonValue) -> Seq<char> {
    match json_str(v) {
        Some(s) => s,
        None => Seq::empty(),
    }
}

/// The level texts of a Bitstamp message: `None` unless its "event" is "data" and its
/// "channel" is `channel`; otherwise the first `n` complete entries of "bids" and
/// "asks" under "data".
pub open spec fn bitstamp_book(doc: JsonValue, channel: Seq<char>, n: nat) -> Option<
    (Seq<(Option<Seq<char>>, Option<Seq<char>>)>, Seq<(Option<Seq<char>>, Option<Seq<char>>)>),
> {
    if str_or_empty(json_field(doc, event_key())) != seq!['d', 'a', 't', 'a'] {
        None
    } else if str_or_empty(json_field(doc, channel_key())) != channel {
        None
    } else {
        let data = json_field(doc, data_key());
        Some((bitstamp_side(data, bids_key(), n), bitstamp_side(data, asks_key(), n)))
    }
}

/// The texts of an entry `[price, amount, ...]`.
fn entry_text_level(entry: &JsonValue) -> (r: TextLevel)
    ensures
        r@ == entry_texts(*entry),
{
    let price = match entry.at(0).as_str() {
        Some(s) => Some(s.clone()),
        None => None,
    };
    let amount = match entry.at(1).as_str() {
        Some(s) => Some(s.clone()),
        None => None,
    };
    TextLevel { price, amount }
}

/// The texts of the first `n` entries of `items`, optionally only the complete ones.
fn side_texts(items: &Vec<JsonValue>, n: usize, complete_only: bool) -> (r: Vec<TextLevel>)
    ensures
        !complete_only ==> texts_view(r@) == first_n(items@, n as nat).map_values(
            |e: JsonValue| entry_texts(e),
        ),
        complete_only ==> texts_view(r@) == complete_texts(
            first_n(items@, n as nat).map_values(|e: JsonValue| entry_texts(e)),
        ),
{
    let ghost all = first_n(items@, n as nat).map_values(|e: JsonValue| entry_texts(e));
    let count = if items.len() <= n {
        items.len()
    } else {
        n
    };
    let mut out: Vec<TextLevel> = Vec::new();
    let mut i: usize = 0;
    while i < count
        invariant
            i <= count,
            count == all.len(),
            count <= items.len(),
            all == first_n(items@, n as nat).map_values(|e: JsonValue| entry_texts(e)),
            !complete_only ==> texts_view(out@) == all.take(i as int),
            complete_only ==> texts_view(out@) == complete_texts(all.take(i as int)),
        decreases count - i,
    {
        let t = entry_text_level(&items[i]);
        proof {
            assert(all[i as int] == entry_texts(items@[i as int]));
            assert(all.take(i + 1).drop_last() =~= all.take(i as int));
            assert(all.take(i + 1).last() == all[i as int]);
        }
        if !complete_only || (t.price.is_some() && t.amount.is_some()) {
            out.push(t);
        }
        i = i + 1;
        proof {
            if !complete_only {
                assert(texts_view(out@) =~= all.take(i as int));
            } else {
                assert(texts_view(out@) =~= complete_texts(all.take(i as int)));
            }
        }
    }
    proof {
        assert(all.take(i as int) =~= all);
    }
    out
}

/// The level texts of a parsed Binance depth message.
pub fn binance_book_from_json<const N: usize>(doc: &JsonValue) -> (r: TextBook)
    ensures
        r@ == binance_book(*doc, N as nat),
{
    proof {
        reveal_strlit("bids");
        reveal_strlit("asks");
    }
    let bids = match doc.get("bids") {
        Some(v) => match v.as_array() {
            Some(items) => side_texts(items, N, false),
            None => Vec::new(),
        },
        None => Vec::new(),
    };
    let asks = match doc.get("asks") {
        Some(v) => match v.as_array() {
            Some(items) => side_texts(items, N, false),
            None => Vec::new(),
        },
        None => Vec::new(),
    };
    proof {
        assert("bids"@ =~= bids_key());
        assert("asks"@ =~= asks_key());
        assert(texts_view(Seq::<TextLevel>::empty()) =~= Seq::empty());
    }
    TextBook { bids, asks }
}

/// Parses a Binance depth message and picks its level texts.
pub fn binance_text_book<const N: usize>(payload: &str) -> (r: Result<TextBook, FeedParseError>)
    ensures
        r is Err <==> spec_parse_json(payload@) is None,
        r matches Ok(b) ==> b@ == binance_book(spec_parse_json(payload@).unwrap(), N as nat),
{
    match parse_json(payload) {
        Ok(doc) => Ok(binance_book_from_json::<N>(&doc)),
        Err(_) => Err(FeedParseError::InvalidJson),
    }
}

/// The complete level texts of the array `side` under a Bitstamp message's "data".
fn bitstamp_side_texts(data: &JsonValue, side: &str, n: usize) -> (r: Vec<TextLevel>)
    ensures
        texts_view(r@) == bitstamp_side(*data, side@, n as nat),
{
    match data.field(side).as_array() {
        Some(items) => side_texts(items, n, true),
        None => {
            proof {
                assert(texts_view(Seq::<TextLevel>::empty()) =~= Seq::empty());
            }
            Vec::new()
        },
    }
}

/// The text of a member that is a string, or the empty text.
fn member_text<'a>(v: &'a JsonValue) -> (r: &'a str)
    ensures
        r@ == str_or_empty(*v),
{
    proof {
        reveal_strlit("");
    }
    match v.as_str() {
        Some(s) => s.as_str(),
        None => "",
    }
}

/// The level texts of a parsed Bitstamp message, or `None` when it is not a data event
/// of `channel`.
pub fn bitstamp_book_from_json<const N: usize>(doc: &JsonValue, channel: &str) -> (r: Option<TextBook>)
    ensures
        match r {
            Some(b) => bitstamp_book(*doc, channel@, N as nat) == Some(b@),
            None => bitstamp_book(*doc, channel@, N as nat) is None,
        },
{
    proof {
        reveal_strlit("event");
        reveal_strlit("data");
        reveal_strlit("channel");
        reveal_strlit("bids");
        reveal_strlit("asks");
        assert("event"@ =~= event_key());
        assert("data"@ =~= data_key());
        assert("channel"@ =~= channel_key());
        assert("bids"@ =~= bids_key());
        assert("asks"@ =~= asks_key());
    }
    let event = member_text(doc.field("event"));
    if !text_eq(event, "data") {
        return None;
    }
    let data = doc.field("data");
    let subscribed = member_text(doc.field("channel"));
    if !text_eq(subscribed, channel) {
        return None;
    }
    let bids = bitstamp_side_texts(data, "bids", N);
    let asks = bitstamp_side_texts(data, "asks", N);
    Some(TextBook { bids, asks })
}

/// Parses a Bitstamp message and picks its level texts; `Ok(None)` when it is not a
/// data event of `subscribed_channel`.
pub fn bitstamp_text_book<const N: usize>(txt: &str, subscribed_channel: &str) -> (r: Result<
    Option<TextBook>,
    FeedParseError,
>)
    ensures
        r is Err <==> spec_parse_json(txt@) is None,
        r matches Ok(o) ==> match o {
            Some(b) => bitstamp_book(spec_parse_json(txt@).unwrap(), subscribed_channel@, N as nat)
                == Some(b@),
            None => bitstamp_book(spec_parse_json(txt@).unwrap(), subscribed_channel@, N as nat) is None,
        },
{
    match parse_json(txt) {
        Ok(doc) => Ok(bitstamp_book_from_json::<N>(&doc, subscribed_channel)),
        Err(_) => Err(FeedParseError::InvalidJson),
    }
}

/// The levels of `s` whose amount is above zero, in order.
pub open spec fn positive_levels(s: Seq<(u64, u64)>) -> Seq<PriceLevel>
    decreases s.len(),
{
    if s.len() == 0 {
        Seq::empty()
    } else {
        let rest = positive_levels(s.drop_last());
        if is_positive(s.last().1) {
            rest.push(PriceLevel { price: s.last().0, amount: s.last().1 })
        } else {
            rest
        }
    }
}

proof fn lemma_first_n_push(s: Seq<PriceLevel>, x: PriceLevel, n: nat)
    ensures
        first_n(s.push(x), n) == push_capped(first_n(s, n), x, n),
{
    if s.len() >= n {
        assert(s.push(x).take(n as int) =~= s.take(n as int));
        if s.len() == n {
            assert(s.take(n as int) =~= s);
        }
    }
}

/// The snapshot of `source` that arrived at `arrival_time` with the converted
/// `(price, amount)` levels of each side: levels whose amount is not above zero are
/// skipped, and at most `N` are kept per side.
pub fn snapshot_from_levels<const N: usize>(
    source: SourceId,
    arrival_time: u64,
    bids: &[(u64, u64)],
    asks: &[(u64, u64)],
) -> (r: ContributorSnapshot<N>)
    ensures
        r.source() == source,
        r.arrival() == arrival_time,
        r.bid_levels() == first_n(positive_levels(bids@), N as nat),
        r.ask_levels() == first_n(positive_levels(asks@), N as nat),
{
    let mut snap = ContributorSnapshot::<N>::new(source, arrival_time);
    let mut i: usize = 0;
    while i < bids.len()
        invariant
            i <= bids.len(),
            snap.source() == source,
            snap.arrival() == arrival_time,
            snap.ask_levels() == Seq::<PriceLevel>::empty(),
            snap.bid_levels() == first_n(positive_levels(bids@.take(i as int)), N as nat),
        decreases bids.len() - i,
    {
        let (price, amount) = bids[i];
        proof {
            assert(bids@.take(i + 1).drop_last() =~= bids@.take(i as int));
            lemma_first_n_push(
                positive_levels(bids@.take(i as int)),
                PriceLevel { price, amount },
                N as nat,
            );
        }
        if positive(amount) {
            snap.push_bid(price, amount);
        }
        i = i + 1;
    }
    proof {
        assert(bids@.take(i as int) =~= bids@);
        assert(first_n(Seq::<PriceLevel>::empty(), N as nat) =~= Seq::<PriceLevel>::empty());
    }
    let mut j: usize = 0;
    while j < asks.len()
        invariant
            j <= asks.len(),
            snap.source() == source,
            snap.arrival() == arrival_time,
            snap.bid_levels() == first_n(positive_levels(bids@), N as nat),
            snap.ask_levels() == first_n(positive_levels(asks@.take(j as int)), N as nat),
        decreases asks.len() - j,
    {
        let (price, amount) = asks[j];
        proof {
            assert(asks@.take(j + 1).drop_last() =~= asks@.take(j as int));
            lemma_first_n_push(
                positive_levels(asks@.take(j as int)),
                PriceLevel { price, amount },
                N as nat,
            );
        }
        if positive(amount) {
            snap.push_ask(price, amount);
        }
        j = j + 1;
    }
    proof {
        assert(asks@.take(j as int) =~= asks@);
    }
    snap
}

proof fn lemma_positive_levels_positive(s: Seq<(u64, u64)>)
    ensures
        forall|i: int| 0 <= i < positive_levels(s).len() ==> is_positive(
            #[trigger] positive_levels(s)[i].amount,
        ),
    decreases s.len(),
{
    if s.len() > 0 {
        lemma_positive_levels_positive(s.drop_last());
        let rest = positive_levels(s.drop_last());
        assert forall|i: int| 0 <= i < positive_levels(s).len() implies is_positive(
            #[trigger] positive_levels(s)[i].amount,
        ) by {
            if i < rest.len() {
                assert(positive_levels(s)[i] == rest[i]);
            }
        }
    }
}

/// Every level that a snapshot built from converted levels holds has an amount above
/// zero.
pub proof fn lemma_snapshot_amounts_positive(s: Seq<(u64, u64)>, n: nat)
    ensures
        forall|i: int| 0 <= i < first_n(positive_levels(s), n).len() ==> is_positive(
            #[trigger] first_n(positive_levels(s), n)[i].amount,
        ),
{
    lemma_positive_levels_positive(s);
    let p = positive_levels(s);
    assert forall|i: int| 0 <= i < first_n(p, n).len() implies is_positive(
        #[trigger] first_n(p, n)[i].amount,
    ) by {
        assert(first_n(p, n)[i] == p[i]);
    }
}

/// How one connection of an exchange feed ended.
#[derive(Debug, Clone, Copy, PartialEq, Eq, Structural)]
pub enum ConnectionEnd {
    /// The connection loop returned on shutdown.
    Closed,
    /// The connection failed; the error was published, then the backoff wait either
    /// elapsed or was cut short by shutdown.
    Failed { shutdown_during_backoff: bool },
}

/// What the feed task does after a connection ends.
#[derive(Debug, Clone, Copy, PartialEq, Eq, Structural)]
pub enum FeedTaskStep {
    /// Connect again.
    Reconnect,
    /// End the feed task.
    Stop,
}

/// The feed task reconnects after a failure whose backoff wait elapsed, and stops after
/// a clean close or when shutdown came during the wait.
pub fn after_connection(end: ConnectionEnd) -> (r: FeedTaskStep)
    ensures
        r == (if end == (ConnectionEnd::Failed { shutdown_during_backoff: false }) {
            FeedTaskStep::Reconnect
        } else {
            FeedTaskStep::Stop
        }),
{
    match end {
        ConnectionEnd::Closed => FeedTaskStep::Stop,
        ConnectionEnd::Failed { shutdown_during_backoff } => if shutdown_during_backoff {
            FeedTaskStep::Stop
        } else {
            FeedTaskStep::Reconnect
        },
    }
}

/// The text that `str::to_lowercase` gives for `s`: its lower case by the Unicode
/// `Lowercase` property.
pub uninterp spec fn spec_lowercase(s: Seq<char>) -> Seq<char>;

/// Calls `str::to_lowercase`. Claimed: the result is the named lower case of `s`; which
/// text that is for a given `s` (the Unicode case tables) is left to the name.
#[verifier::external_body]
fn lowercase(s: &str) -> (r: String)
    ensures
        r@ == spec_lowercase(s@),
{
    s.to_lowercase()
}

/// "order_book_"
pub open spec fn order_book_prefix() -> Seq<char> {
    seq!['o', 'r', 'd', 'e', 'r', '_', 'b', 'o', 'o', 'k', '_']
}

/// The Bitstamp channel of the order book of `symbol`: "order_book_" and the symbol in
/// lower case.
pub fn bitstamp_channel(symbol: &str) -> (r: String)
    ensures
        r@ == order_book_prefix() + spec_lowercase(symbol@),
{
    proof {
        reveal_strlit("order_book_");
        assert("order_book_"@ =~= order_book_prefix());
    }
    let lower = lowercase(symbol);
    let mut r = String::from_str("order_book_");
    r.append(lower.as_str());
    r
}

/// "wss://stream.binance.com:9443/ws/"
pub open spec fn binance_stream_base() -> Seq<char> {
    seq![
        'w', 's', 's', ':', '/', '/', 's', 't', 'r', 'e', 'a', 'm', '.', 'b', 'i', 'n', 'a', 'n',
        'c', 'e', '.', 'c', 'o', 'm', ':', '9', '4', '4', '3', '/', 'w', 's', '/'
    ]
}

/// "@depth20@100ms"
pub open spec fn binance_depth_suffix() -> Seq<char> {
    seq!['@', 'd', 'e', 'p', 't', 'h', '2', '0', '@', '1', '0', '0', 'm', 's']
}

/// The Binance stream of the top 20 book levels of `symbol` every 100 ms: the stream
/// base, the symbol in lower case and "@depth20@100ms".
pub fn binance_stream_url(symbol: &str) -> (r: String)
    ensures
        r@ == binance_stream_base() + spec_lowercase(symbol@) + binance_depth_suffix(),
{
    proof {
        reveal_strlit("wss://stream.binance.com:9443/ws/");
        reveal_strlit("@depth20@100ms");
        assert("wss://stream.binance.com:9443/ws/"@ =~= binance_stream_base());
        assert("@depth20@100ms"@ =~= binance_depth_suffix());
    }
    let lower = lowercase(symbol);
    let mut r = String::from_str("wss://stream.binance.com:9443/ws/");
    r.append(lower.as_str());
    r.append("@depth20@100ms");
    r
}

/// The texts `[price, amount, ...]` of an entry, read straight from the JSON value.
pub open spec fn texts_of(e: JsonValue) -> (Option<Seq<char>>, Option<Seq<char>>) {
    (json_str(json_at(e, 0)), json_str(json_at(e, 1)))
}

/// Both texts are present.
pub open spec fn both_texts(t: (Option<Seq<char>>, Option<Seq<char>>)) -> bool {
    t.0 is Some && t.1 is Some
}

/// `n`, or `len` when that is smaller.
pub open spec fn at_most(len: nat, n: nat) -> nat {
    if len <= n {
        len
    } else {
        n
    }
}

proof fn lemma_complete_texts_is_filter(s: Seq<(Option<Seq<char>>, Option<Seq<char>>)>)
    ensures
        complete_texts(s) == s.filter(|t: (Option<Seq<char>>, Option<Seq<char>>)| both_texts(t)),
    decreases s.len(),
{
    reveal(Seq::filter);
    if s.len() > 0 {
        lemma_complete_texts_is_filter(s.drop_last());
    }
}

proof fn lemma_front_texts(items: Seq<JsonValue>, n: nat)
    ensures
        first_n(items, n).map_values(|e: JsonValue| entry_texts(e)).len() == at_most(items.len(), n),
        forall|i: int|
            0 <= i < at_most(items.len(), n) ==> first_n(items, n).map_values(
                |e: JsonValue| entry_texts(e),
            )[i] == texts_of(#[trigger] items[i]),
        first_n(items, n).map_values(|e: JsonValue| entry_texts(e)) == items.take(
            at_most(items.len(), n) as int,
        ).map_values(|e: JsonValue| texts_of(e)),
{
    assert(first_n(items, n).map_values(|e: JsonValue| entry_texts(e)) =~= items.take(
        at_most(items.len(), n) as int,
    ).map_values(|e: JsonValue| texts_of(e)));
}

/// A Binance depth message keeps, of its "bids" array, the first `n` entries in message
/// order (all of them when there are fewer), each as the texts of its first two elements;
/// and likewise of its "asks" array.
pub proof fn lemma_binance_keeps_front_entries(doc: JsonValue, n: nat, bids: Vec<JsonValue>, asks: Vec<JsonValue>)
    ensures
        json_get(doc, seq!['b', 'i', 'd', 's']) == Some(JsonValue::Array(bids)) ==> {
            &&& binance_book(doc, n).0.len() == at_most(bids@.len(), n)
            &&& forall|i: int|
                0 <= i < at_most(bids@.len(), n) ==> #[trigger] binance_book(doc, n).0[i] == texts_of(
                    bids@[i],
                )
        },
        json_get(doc, seq!['a', 's', 'k', 's']) == Some(JsonValue::Array(asks)) ==> {
            &&& binance_book(doc, n).1.len() == at_most(asks@.len(), n)
            &&& forall|i: int|
                0 <= i < at_most(asks@.len(), n) ==> #[trigger] binance_book(doc, n).1[i] == texts_of(
                    asks@[i],
                )
        },
        json_get(doc, seq!['b', 'i', 'd', 's']) is None ==> binance_book(doc, n).0.len() == 0,
        json_get(doc, seq!['a', 's', 'k', 's']) is None ==> binance_book(doc, n).1.len() == 0,
{
    lemma_front_texts(bids@, n);
    lemma_front_texts(asks@, n);
    assert(bids_key() =~= seq!['b', 'i', 'd', 's']);
    assert(asks_key() =~= seq!['a', 's', 'k', 's']);
}

/// A Bitstamp message is read only when its "event" is "data" and its "channel" is the
/// subscribed one. It then keeps, of the array `side` ("bids" or "asks") under "data", the
/// first `n` entries in message order, dropping those whose price or amount is not a
/// string; when all of the first `n` entries are string pairs, exactly they are kept.
pub proof fn lemma_bitstamp_keeps_front_entries(
    doc: JsonValue,
    channel: Seq<char>,
    n: nat,
    side: Seq<char>,
    items: Vec<JsonValue>,
)
    ensures
        json_str(json_field(doc, seq!['e', 'v', 'e', 'n', 't'])) != Some(seq!['d', 'a', 't', 'a'])
            ==> bitstamp_book(doc, channel, n) is None,
        (json_str(json_field(doc, seq!['c', 'h', 'a', 'n', 'n', 'e', 'l'])) matches Some(c) && c
            != channel) ==> bitstamp_book(doc, channel, n) is None,
        ({
            &&& json_str(json_field(doc, seq!['e', 'v', 'e', 'n', 't'])) == Some(seq!['d', 'a', 't', 'a'])
            &&& json_str(json_field(doc, seq!['c', 'h', 'a', 'n', 'n', 'e', 'l'])) == Some(channel)
        }) ==> bitstamp_book(doc, channel, n) is Some,
        ({
            &&& bitstamp_book(doc, channel, n) is Some
            &&& (side == seq!['b', 'i', 'd', 's'] || side == seq!['a', 's', 'k', 's'])
            &&& json_field(json_field(doc, seq!['d', 'a', 't', 'a']), side) == JsonValue::Array(items)
        }) ==> {
            let kept = if side == seq!['b', 'i', 'd', 's'] {
                bitstamp_book(doc, channel, n).unwrap().0
            } else {
                bitstamp_book(doc, channel, n).unwrap().1
            };
            let front = items@.take(at_most(items@.len(), n) as int).map_values(|e: JsonValue| texts_of(e));
            &&& kept == front.filter(|t: (Option<Seq<char>>, Option<Seq<char>>)| both_texts(t))
            &&& (forall|i: int| 0 <= i < front.len() ==> both_texts(#[trigger] front[i])) ==> {
                &&& kept.len() == at_most(items@.len(), n)
                &&& forall|i: int| 0 <= i < kept.len() ==> #[trigger] kept[i] == texts_of(items@[i])
            }
        },
{
    assert(event_key() =~= seq!['e', 'v', 'e', 'n', 't']);
    assert(channel_key() =~= seq!['c', 'h', 'a', 'n', 'n', 'e', 'l']);
    assert(data_key() =~= seq!['d', 'a', 't', 'a']);
    assert(bids_key() =~= seq!['b', 'i', 'd', 's']);
    assert(asks_key() =~= seq!['a', 's', 'k', 's']);
    lemma_front_texts(items@, n);
    let front = items@.take(at_most(items@.len(), n) as int).map_values(|e: JsonValue| texts_of(e));
    lemma_complete_texts_is_filter(front);
    if forall|i: int| 0 <= i < front.len() ==> both_texts(#[trigger] front[i]) {
        lemma_filter_keeps_all(front);
    }
}

proof fn lemma_filter_keeps_all(s: Seq<(Option<Seq<char>>, Option<Seq<char>>)>)
    requires
        forall|i: int| 0 <= i < s.len() ==> both_texts(#[trigger] s[i]),
    ensures
        s.filter(|t: (Option<Seq<char>>, Option<Seq<char>>)| both_texts(t)) == s,
    decreases s.len(),
{
    reveal(Seq::filter);
    if s.len() > 0 {
        let d = s.drop_last();
        assert forall|i: int| 0 <= i < d.len() implies both_texts(#[trigger] d[i]) by {
            assert(d[i] == s[i]);
        }
        lemma_filter_keeps_all(d);
        assert(both_texts(s[s.len() - 1]));
        assert(d.push(s.last()) =~= s);
    }
}

/// A converted level is kept exactly when its amount is a number above zero (sign bit
/// clear, not zero, at most infinity): the kept levels are those of `s`, in order.
pub proof fn lemma_positive_levels_keeps_positive_amounts(s: Seq<(u64, u64)>)
    ensures
        positive_levels(s) == s.filter(|x: (u64, u64)| 0 < x.1 <= 0x7FF0_0000_0000_0000).map_values(
            |x: (u64, u64)| PriceLevel { price: x.0, amount: x.1 },
        ),
    decreases s.len(),
{
    reveal(Seq::filter);
    if s.len() > 0 {
        lemma_positive_levels_keeps_positive_amounts(s.drop_last());
        let f = s.drop_last().filter(|x: (u64, u64)| 0 < x.1 <= 0x7FF0_0000_0000_0000);
        let g = |x: (u64, u64)| PriceLevel { price: x.0, amount: x.1 };
        assert(f.push(s.last()).map_values(g) =~= f.map_values(g).push(g(s.last())));
    }
}

/// `first_n(s, n)` is the front of `s`: its first `n` elements in order, or all of `s`
/// when it is shorter.
pub proof fn lemma_first_n_is_front<A>(s: Seq<A>, n: nat)
    ensures
        first_n(s, n).len() == at_most(s.len(), n),
        forall|i: int| 0 <= i < first_n(s, n).len() ==> #[trigger] first_n(s, n)[i] == s[i],
{
}

} // verus!
