//! The exchanges that contribute order book data, their names and their slots.
use vstd::prelude::*;
use vstd::string::*;

verus! {

/// Identifies an exchange that contributes order book data.
#[derive(Debug, Clone, Copy, PartialEq, Eq, Hash, PartialOrd, Ord, Structural)]
pub enum SourceId {
    Bitstamp,
    Binance,
}

/// The number of supported data sources.
pub const NUM_SOURCES: usize = 2;

/// The lower-case name of a source, as it is displayed.
pub open spec fn source_name(s: SourceId) -> Seq<char> {
    match s {
        SourceId::Bitstamp => seq!['b', 'i', 't', 's', 't', 'a', 'm', 'p'],
        SourceId::Binance => seq!['b', 'i', 'n', 'a', 'n', 'c', 'e'],
    }
}

/// The slot of a source in per-source tables.
pub open spec fn source_index(s: SourceId) -> int {
    match s {
        SourceId::Bitstamp => 0,
        SourceId::Binance => 1,
    }
}

/// The code of `c` with ASCII upper-case letters mapped to lower case.
pub open spec fn ascii_lower(c: char) -> u32 {
    let u = c as u32;
    if 65 <= u <= 90 {
        (u + 32) as u32
    } else {
        u
    }
}

/// `s` and `t` have the same length and agree character by character up to ASCII case.
///
/// For the two source names, which are lower-case ASCII words without the letter `k`,
/// this is the same as Unicode lower-casing `s` and comparing the result with `t`: the
/// only character outside ASCII whose lower case is an ASCII letter is the Kelvin sign,
/// whose lower case is `k`.
pub open spec fn eq_ignore_ascii_case(s: Seq<char>, t: Seq<char>) -> bool {
    &&& s.len() == t.len()
    &&& forall|i: int| 0 <= i < s.len() ==> #[trigger] ascii_lower(s[i]) == ascii_lower(t[i])
}

/// What parsing `s` as a source gives: the source whose name equals `s` up to case.
pub open spec fn spec_parse_source(s: Seq<char>) -> Option<SourceId> {
    if eq_ignore_ascii_case(s, source_name(SourceId::Bitstamp)) {
        Some(SourceId::Bitstamp)
    } else if eq_ignore_ascii_case(s, source_name(SourceId::Binance)) {
        Some(SourceId::Binance)
    } else {
        None
    }
}

/// The text of a parse error for the rejected input `s`.
pub open spec fn parse_error_message(s: Seq<char>) -> Seq<char> {
    seq!['I', 'n', 'v', 'a', 'l', 'i', 'd', ' ', 's', 'o', 'u', 'r', 'c', 'e', ' ', 'I', 'D', ':', ' ', '\'']
        + s + seq!['\'']
}

fn lower_code(c: char) -> (r: u32)
    ensures
        r == ascii_lower(c),
{
    let u = c as u32;
    if 65 <= u && u <= 90 {
        u + 32
    } else {
        u
    }
}

/// Compares `s` with `t` ignoring ASCII case.
fn text_eq_ignore_ascii_case(s: &str, t: &str) -> (r: bool)
    ensures
        r == eq_ignore_ascii_case(s@, t@),
{
    let n = s.unicode_len();
    if n != t.unicode_len() {
        return false;
    }
    let mut i: usize = 0;
    while i < n
        invariant
            n == s@.len(),
            n == t@.len(),
            i <= n,
            forall|j: int| 0 <= j < i ==> #[trigger] ascii_lower(s@[j]) == ascii_lower(t@[j]),
        decreases n - i,
    {
        if lower_code(s.get_char(i)) != lower_code(t.get_char(i)) {
            return false;
        }
        i = i + 1;
    }
    true
}

impl SourceId {
    /// The name of the source, lower case ("bitstamp", "binance").
    pub fn to_string(&self) -> (r: String)
        ensures
            r@ == source_name(*self),
    {
        match self {
            SourceId::Bitstamp => {
                proof {
                    reveal_strlit("bitstamp");
                }
                String::from_str("bitstamp")
            },
            SourceId::Binance => {
                proof {
                    reveal_strlit("binance");
                }
                String::from_str("binance")
            },
        }
    }

    /// Parses a source name, ignoring case.
    pub fn from_str(s: &str) -> (r: Result<SourceId, SourceIdParseError>)
        ensures
            r is Ok <==> spec_parse_source(s@) is Some,
            r matches Ok(id) ==> spec_parse_source(s@) == Some(id),
            r matches Err(e) ==> e.0@ == s@,
    {
        proof {
            reveal_strlit("bitstamp");
            reveal_strlit("binance");
        }
        if text_eq_ignore_ascii_case(s, "bitstamp") {
            Ok(SourceId::Bitstamp)
        } else if text_eq_ignore_ascii_case(s, "binance") {
            Ok(SourceId::Binance)
        } else {
            Err(SourceIdParseError(String::from_str(s)))
        }
    }

    /// The slot of the source in per-source tables.
    pub fn index(&self) -> (r: usize)
        ensures
            r == source_index(*self),
            r < NUM_SOURCES,
    {
        match self {
            SourceId::Bitstamp => 0,
            SourceId::Binance => 1,
        }
    }
}

impl std::str::FromStr for SourceId {
    type Err = SourceIdParseError;

    fn from_str(s: &str) -> (r: Result<Self, Self::Err>)
        ensures
            r is Ok <==> spec_parse_source(s@) is Some,
            r matches Ok(id) ==> spec_parse_source(s@) == Some(id),
            r matches Err(e) ==> e.0@ == s@,
    {
        SourceId::from_str(s)
    }
}

impl From<SourceId> for usize {
    fn from(s: SourceId) -> (r: usize) {
        s.index()
    }
}

impl vstd::std_specs::convert::FromSpecImpl<SourceId> for usize {
    open spec fn obeys_from_spec() -> bool {
        true
    }

    open spec fn from_spec(s: SourceId) -> usize {
        source_index(s) as usize
    }
}

impl Default for SourceId {
    fn default() -> (r: Self)
        ensures
            r == SourceId::Bitstamp,
    {
        SourceId::Bitstamp
    }
}

/// The error of parsing a source name: holds the rejected input.
#[derive(Debug, Clone)]
pub struct SourceIdParseError(pub String);

impl SourceIdParseError {
    /// The displayed text of the error: `Invalid source ID: '<input>'`.
    pub fn to_string(&self) -> (r: String)
        ensures
            r@ == parse_error_message(self.0@),
    {
        proof {
            reveal_strlit("Invalid source ID: '");
            reveal_strlit("'");
        }
        let mut r = String::from_str("Invalid source ID: '");
        r.append(self.0.as_str());
        r.append("'");
        r
    }
}

/// Every source's name parses back to that source.
pub proof fn lemma_parse_name_roundtrip(s: SourceId)
    ensures
        spec_parse_source(source_name(s)) == Some(s),
{
    let b = source_name(SourceId::Bitstamp);
    let n = source_name(SourceId::Binance);
    assert(ascii_lower(b[2]) != ascii_lower(n[2]));
    assert(!eq_ignore_ascii_case(n, b));
    assert(eq_ignore_ascii_case(source_name(s), source_name(s)));
}

/// Distinct sources occupy distinct slots, each below the number of sources.
pub proof fn lemma_source_index_injective(a: SourceId, b: SourceId)
    ensures
        0 <= source_index(a) < NUM_SOURCES,
        source_index(a) == source_index(b) ==> a == b,
{
}

} // verus!
