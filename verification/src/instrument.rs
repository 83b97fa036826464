//! Trading instruments and the symbols the exchanges know them by.
use vstd::prelude::*;
use vstd::string::*;
use crate::sources::{SourceId, NUM_SOURCES, source_index};
use dashmap::DashMap;

verus! {

/// The symbol under which a source lists a trading instrument.
#[derive(Debug, Clone, PartialEq, Eq, Default)]
pub struct SourceSymbol {
    pub source: SourceId,
    pub symbol: String,
}

/// For each source, the symbol it lists the instrument under, if it lists it.
#[derive(Debug)]
pub struct SourceMapping {
    symbols: [Option<String>; NUM_SOURCES],
}

/// The symbol of `source` in `symbols`, held in the slot of the source.
pub open spec fn slot_symbol(symbols: Seq<Option<String>>, source: SourceId) -> Option<Seq<char>> {
    match symbols[source_index(source)] {
        Some(s) => Some(s@),
        None => None,
    }
}

impl View for SourceMapping {
    type V = Map<SourceId, Seq<char>>;

    closed spec fn view(&self) -> Map<SourceId, Seq<char>> {
        Map::new(
            |s: SourceId| slot_symbol(self.symbols@, s) is Some,
            |s: SourceId| slot_symbol(self.symbols@, s).unwrap(),
        )
    }
}

impl SourceMapping {
    /// No symbols.
    pub fn new() -> (r: Self)
        ensures
            r@ == Map::<SourceId, Seq<char>>::empty(),
    {
        let r = SourceMapping { symbols: [None, None] };
        proof {
            assert(r@ =~= Map::<SourceId, Seq<char>>::empty());
        }
        r
    }

    /// Sets the symbol of `source`, replacing the one it had.
    pub fn insert(&mut self, source: SourceId, symbol: String)
        ensures
            final(self)@ == old(self)@.insert(source, symbol@),
    {
        let i = source.index();
        self.symbols[i] = Some(symbol);
        proof {
            assert forall|s: SourceId| #[trigger] slot_symbol(self.symbols@, s) == if s == source {
                Some(symbol@)
            } else {
                slot_symbol(old(self).symbols@, s)
            } by {
                if s != source {
                    crate::sources::lemma_source_index_injective(s, source);
                }
            }
            assert(self@ =~= old(self)@.insert(source, symbol@));
        }
    }

    /// The symbol of `source`, if it has one.
    pub fn get(&self, source: &SourceId) -> (r: Option<&String>)
        ensures
            r is Some <==> self@.contains_key(*source),
            r matches Some(s) ==> self@[*source] == s@,
    {
        match &self.symbols[source.index()] {
            Some(s) => Some(s),
            None => None,
        }
    }

    /// The sources with a symbol and their symbols, in the order of the sources' slots.
    pub fn entries(&self) -> (r: Vec<(SourceId, String)>)
        ensures
            entries_view(r@) == mapping_entries(self@),
    {
        let mut r: Vec<(SourceId, String)> = Vec::new();
        match &self.symbols[0] {
            Some(s) => r.push((SourceId::Bitstamp, s.clone())),
            None => {},
        }
        match &self.symbols[1] {
            Some(s) => r.push((SourceId::Binance, s.clone())),
            None => {},
        }
        proof {
            assert(entries_view(r@) =~= mapping_entries(self@));
        }
        r
    }
}

impl Clone for SourceMapping {
    fn clone(&self) -> (r: Self)
        ensures
            r == *self,
    {
        let bitstamp = match &self.symbols[0] {
            Some(s) => Some(s.clone()),
            None => None,
        };
        let binance = match &self.symbols[1] {
            Some(s) => Some(s.clone()),
            None => None,
        };
        let r = SourceMapping { symbols: [bitstamp, binance] };
        proof {
            assert(r.symbols =~= self.symbols);
        }
        r
    }
}

/// The view of source and symbol pairs.
pub open spec fn entries_view(s: Seq<(SourceId, String)>) -> Seq<(SourceId, Seq<char>)> {
    s.map_values(|e: (SourceId, String)| (e.0, e.1@))
}

/// The symbol of `source` in `m`, as a sequence of at most one pair.
pub open spec fn entry_of(m: Map<SourceId, Seq<char>>, source: SourceId) -> Seq<(SourceId, Seq<char>)> {
    if m.contains_key(source) {
        seq![(source, m[source])]
    } else {
        Seq::empty()
    }
}

/// The sources of `m` with their symbols, in the order of the sources' slots.
pub open spec fn mapping_entries(m: Map<SourceId, Seq<char>>) -> Seq<(SourceId, Seq<char>)> {
    entry_of(m, SourceId::Bitstamp) + entry_of(m, SourceId::Binance)
}

/// A trading instrument: its symbol and the symbols the sources list it under.
#[derive(Debug)]
pub struct Instrument {
    pub symbol: String,
    pub source_mapping: SourceMapping,
}

/// The mapping that collecting `ss` gives: each source with its last listed symbol.
pub open spec fn mapping_of(ss: Seq<SourceSymbol>) -> Map<SourceId, Seq<char>>
    decreases ss.len(),
{
    if ss.len() == 0 {
        Map::empty()
    } else {
        mapping_of(ss.drop_last()).insert(ss.last().source, ss.last().symbol@)
    }
}

impl Instrument {
    /// The instrument `symbol`, listed by each source under the last symbol given for it.
    pub fn new(symbol: String, source_symbols: Vec<SourceSymbol>) -> (r: Self)
        ensures
            r.symbol@ == symbol@,
            r.source_mapping@ == mapping_of(source_symbols@),
    {
        let mut mapping = SourceMapping::new();
        let mut i: usize = 0;
        while i < source_symbols.len()
            invariant
                i <= source_symbols.len(),
                mapping@ == mapping_of(source_symbols@.take(i as int)),
            decreases source_symbols.len() - i,
        {
            proof {
                assert(source_symbols@.take(i + 1).drop_last() =~= source_symbols@.take(i as int));
            }
            let source = source_symbols[i].source;
            let name = source_symbols[i].symbol.clone();
            mapping.insert(source, name);
            i = i + 1;
        }
        proof {
            assert(source_symbols@.take(i as int) =~= source_symbols@);
        }
        Instrument { symbol, source_mapping: mapping }
    }

    /// The instrument's symbol.
    pub fn symbol(&self) -> (r: &str)
        ensures
            r@ == self.symbol@,
    {
        self.symbol.as_str()
    }

    /// The symbols the sources list the instrument under.
    pub fn source_mapping(&self) -> (r: &SourceMapping)
        ensures
            r@ == self.source_mapping@,
    {
        &self.source_mapping
    }

    /// The displayed text of the instrument: its symbol.
    pub fn to_string(&self) -> (r: String)
        ensures
            r@ == self.symbol@,
    {
        self.symbol.clone()
    }
}

impl Clone for Instrument {
    fn clone(&self) -> (r: Self)
        ensures
            r == *self,
    {
        Instrument { symbol: self.symbol.clone(), source_mapping: self.source_mapping.clone() }
    }
}

impl Default for Instrument {
    /// An instrument with the empty symbol that no source lists.
    fn default() -> (r: Self)
        ensures
            r.symbol@ == Seq::<char>::empty(),
            r.source_mapping@ == Map::<SourceId, Seq<char>>::empty(),
    {
        Instrument { symbol: String::new(), source_mapping: SourceMapping::new() }
    }
}

impl PartialEq for Instrument {
    fn eq(&self, other: &Self) -> (r: bool) {
        self.symbol == other.symbol
    }
}

impl vstd::std_specs::cmp::PartialEqSpecImpl for Instrument {
    open spec fn obeys_eq_spec() -> bool {
        true
    }

    open spec fn eq_spec(&self, other: &Self) -> bool {
        self.symbol@ == other.symbol@
    }
}

#[verifier::external_type_specification]
#[verifier::external_body]
#[verifier::reject_recursive_types(K)]
#[verifier::reject_recursive_types(V)]
#[verifier::reject_recursive_types(S)]
pub struct ExDashMap<K, V, S>(DashMap<K, V, S>);

/// The table behind an `InstrumentMap`.
pub type InstrumentTable = DashMap<String, Instrument>;

/// The instruments a `DashMap` holds, by symbol.
pub uninterp spec fn dashmap_instruments(m: InstrumentTable) -> Map<Seq<char>, Instrument>;

/// Calls `DashMap::new`: claimed to hold no instruments.
#[verifier::external_body]
fn dashmap_new() -> (r: InstrumentTable)
    ensures
        dashmap_instruments(r).dom().is_empty(),
{
    DashMap::new()
}

/// Calls `DashMap::insert`: claimed to map `key` to `value`, keep the other entries and
/// return the instrument that `key` held before, if any.
#[verifier::external_body]
fn dashmap_insert(m: &mut InstrumentTable, key: String, value: Instrument) -> (r: Option<Instrument>)
    ensures
        dashmap_instruments(*final(m)) == dashmap_instruments(*old(m)).insert(key@, value),
        r == (if dashmap_instruments(*old(m)).contains_key(key@) {
            Some(dashmap_instruments(*old(m))[key@])
        } else {
            None
        }),
{
    m.insert(key, value)
}

/// Calls `DashMap::get` and clones the found instrument: claimed to give the instrument
/// held under `key`, if any.
#[verifier::external_body]
fn dashmap_get(m: &InstrumentTable, key: &str) -> (r: Option<Instrument>)
    ensures
        r == (if dashmap_instruments(*m).contains_key(key@) {
            Some(dashmap_instruments(*m)[key@])
        } else {
            None
        }),
{
    m.get(key).map(|e| e.value().clone())
}

/// The instruments by symbol.
#[derive(Debug)]
pub struct InstrumentMap {
    map: InstrumentTable,
}

/// The instruments that inserting `instruments` in order gives: each symbol with its
/// last instrument.
pub open spec fn instruments_by_symbol(instruments: Seq<Instrument>) -> Map<Seq<char>, Instrument>
    decreases instruments.len(),
{
    if instruments.len() == 0 {
        Map::empty()
    } else {
        instruments_by_symbol(instruments.drop_last()).insert(
            instruments.last().symbol@,
            instruments.last(),
        )
    }
}

impl View for InstrumentMap {
    type V = Map<Seq<char>, Instrument>;

    closed spec fn view(&self) -> Map<Seq<char>, Instrument> {
        dashmap_instruments(self.map)
    }
}

impl InstrumentMap {
    /// The map of `instruments` by symbol; of instruments with the same symbol the last
    /// one stays.
    pub fn new(instruments: Vec<Instrument>) -> (r: Self)
        ensures
            r@ == instruments_by_symbol(instruments@),
    {
        let ghost all = instruments@;
        let mut map = dashmap_new();
        let mut rest = instruments;
        let total = rest.len();
        assert(all.len() == total);
        let mut k: usize = 0;
        while rest.len() > 0
            invariant
                k + rest@.len() == all.len(),
                all.len() <= usize::MAX,
                rest@ == all.skip(k as int),
                dashmap_instruments(map) == instruments_by_symbol(all.take(k as int)),
            decreases rest.len(),
        {
            let instrument = rest.remove(0);
            proof {
                assert(instrument == all[k as int]);
                assert(all.take(k + 1).drop_last() =~= all.take(k as int));
                assert(rest@ =~= all.skip(k + 1));
            }
            let key = instrument.symbol.clone();
            dashmap_insert(&mut map, key, instrument);
            k = k + 1;
        }
        proof {
            assert(all.take(k as int) =~= all);
        }
        InstrumentMap { map }
    }

    /// The instrument listed under `symbol`, if any.
    pub fn get(&self, symbol: &str) -> (r: Option<Instrument>)
        ensures
            r == (if self@.contains_key(symbol@) {
                Some(self@[symbol@])
            } else {
                None
            }),
    {
        dashmap_get(&self.map, symbol)
    }
}

/// Looking up an instrument's symbol after building the map finds the last instrument
/// given with that symbol; a symbol that no instrument has is not found.
pub proof fn lemma_instruments_lookup(instruments: Seq<Instrument>, symbol: Seq<char>)
    ensures
        instruments_by_symbol(instruments).contains_key(symbol) <==> exists|i: int|
            0 <= i < instruments.len() && (#[trigger] instruments[i]).symbol@ == symbol,
        instruments_by_symbol(instruments).contains_key(symbol) ==> exists|i: int|
            0 <= i < instruments.len() && instruments_by_symbol(instruments)[symbol]
                == #[trigger] instruments[i] && instruments[i].symbol@ == symbol && forall|j: int|
                i < j < instruments.len() ==> (#[trigger] instruments[j]).symbol@ != symbol,
    decreases instruments.len(),
{
    if instruments.len() > 0 {
        let d = instruments.drop_last();
        lemma_instruments_lookup(d, symbol);
        let n = instruments.len() - 1;
        if instruments.last().symbol@ == symbol {
            assert(instruments[n].symbol@ == symbol);
        } else {
            if instruments_by_symbol(d).contains_key(symbol) {
                let i = choose|i: int|
                    0 <= i < d.len() && instruments_by_symbol(d)[symbol] == #[trigger] d[i]
                        && d[i].symbol@ == symbol && forall|j: int|
                        i < j < d.len() ==> (#[trigger] d[j]).symbol@ != symbol;
                assert(instruments[i] == d[i]);
                assert forall|j: int| i < j < instruments.len() implies (#[trigger] instruments[j]).symbol@ != symbol by {
                    if j < n {
                        assert(instruments[j] == d[j]);
                    }
                }
            }
            assert forall|i: int| 0 <= i < instruments.len() && (#[trigger] instruments[i]).symbol@ == symbol implies instruments_by_symbol(d).contains_key(symbol) by {
                assert(i < n);
                assert(instruments[i] == d[i]);
            }
        }
    }
}

/// "ETH-BTC"
pub open spec fn eth_btc() -> Seq<char> {
    seq!['E', 'T', 'H', '-', 'B', 'T', 'C']
}

/// The instruments the server offers: ETH-BTC, which Bitstamp lists as "ethbtc" and
/// Binance as "ETHBTC".
pub fn build_instrument_map() -> (r: InstrumentMap)
    ensures
        r@.dom() == set![eth_btc()],
        r@[eth_btc()].symbol@ == eth_btc(),
        r@[eth_btc()].source_mapping@ == map![
            SourceId::Bitstamp => seq!['e', 't', 'h', 'b', 't', 'c'],
            SourceId::Binance => seq!['E', 'T', 'H', 'B', 'T', 'C']
        ],
{
    proof {
        reveal_strlit("ethbtc");
        reveal_strlit("ETHBTC");
        reveal_strlit("ETH-BTC");
    }
    let mut source_symbols: Vec<SourceSymbol> = Vec::new();
    source_symbols.push(SourceSymbol { source: SourceId::Bitstamp, symbol: String::from_str("ethbtc") });
    source_symbols.push(SourceSymbol { source: SourceId::Binance, symbol: String::from_str("ETHBTC") });
    let instrument = Instrument::new(String::from_str("ETH-BTC"), source_symbols);
    let mut instruments: Vec<Instrument> = Vec::new();
    instruments.push(instrument);
    let r = InstrumentMap::new(instruments);
    proof {
        assert("ethbtc"@ =~= seq!['e', 't', 'h', 'b', 't', 'c']);
        assert("ETHBTC"@ =~= seq!['E', 'T', 'H', 'B', 'T', 'C']);
        assert("ETH-BTC"@ =~= eth_btc());
        let ss = source_symbols@;
        let one = ss.drop_last();
        assert(ss.len() == 2);
        assert(ss[0].symbol@ == seq!['e', 't', 'h', 'b', 't', 'c']);
        assert(ss[0].source == SourceId::Bitstamp);
        assert(one.len() == 1 && one.last() == ss[0]);
        assert(one.drop_last() =~= Seq::<SourceSymbol>::empty());
        assert(mapping_of(one.drop_last()) == Map::<SourceId, Seq<char>>::empty());
        assert(mapping_of(one) == Map::<SourceId, Seq<char>>::empty().insert(
            SourceId::Bitstamp,
            seq!['e', 't', 'h', 'b', 't', 'c'],
        ));
        assert(mapping_of(ss) =~= map![
            SourceId::Bitstamp => seq!['e', 't', 'h', 'b', 't', 'c'],
            SourceId::Binance => seq!['E', 'T', 'H', 'B', 'T', 'C']
        ]);
        assert(instruments@.len() == 1);
        assert(instruments@.drop_last() =~= Seq::<Instrument>::empty());
        assert(instruments_by_symbol(instruments@.drop_last()) == Map::<Seq<char>, Instrument>::empty());
        assert(instruments@.last().symbol@ == eth_btc());
        assert(instruments_by_symbol(instruments@) == Map::<Seq<char>, Instrument>::empty().insert(
            eth_btc(),
            instruments@[0],
        ));
        assert(r@.dom() =~= set![eth_btc()]);
    }
    r
}

} // verus!
