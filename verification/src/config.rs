//! The server's command-line settings and the address it binds to.
use vstd::prelude::*;
use vstd::string::*;

verus! {

/// The server's command-line settings: the port and the interface to listen on.
#[derive(Debug, Clone)]
pub struct Cli {
    pub port: u16,
    pub listen_interface: Option<String>,
}

/// Why the settings do not give a usable configuration.
#[derive(Debug, Clone)]
pub enum AppConfigError {
    /// The bind address text does not parse as a socket address.
    InvalidBindAddr(String),
}

/// The character of a decimal digit.
pub open spec fn digit_char(d: nat) -> char {
    if d == 0 {
        '0'
    } else if d == 1 {
        '1'
    } else if d == 2 {
        '2'
    } else if d == 3 {
        '3'
    } else if d == 4 {
        '4'
    } else if d == 5 {
        '5'
    } else if d == 6 {
        '6'
    } else if d == 7 {
        '7'
    } else if d == 8 {
        '8'
    } else {
        '9'
    }
}

/// The decimal text of `n`, without leading zeros.
pub open spec fn decimal(n: nat) -> Seq<char>
    decreases n,
{
    if n < 10 {
        seq![digit_char(n)]
    } else {
        decimal(n / 10) + seq![digit_char(n % 10)]
    }
}

/// "127.0.0.1", the interface listened on when none is given.
pub open spec fn default_interface() -> Seq<char> {
    seq!['1', '2', '7', '.', '0', '.', '0', '.', '1']
}

/// The bind address text: the interface (by default the loopback one), a colon and
/// the port in decimal.
pub open spec fn bind_address_text(listen_interface: Option<Seq<char>>, port: u16) -> Seq<char> {
    let interface = match listen_interface {
        Some(i) => i,
        None => default_interface(),
    };
    interface + seq![':'] + decimal(port as nat)
}

/// The text of a decimal digit.
fn digit_text(d: u16) -> (r: &'static str)
    requires
        d < 10,
    ensures
        r@ == seq![digit_char(d as nat)],
{
    proof {
        reveal_strlit("0");
        reveal_strlit("1");
        reveal_strlit("2");
        reveal_strlit("3");
        reveal_strlit("4");
        reveal_strlit("5");
        reveal_strlit("6");
        reveal_strlit("7");
        reveal_strlit("8");
        reveal_strlit("9");
    }
    if d == 0 {
        "0"
    } else if d == 1 {
        "1"
    } else if d == 2 {
        "2"
    } else if d == 3 {
        "3"
    } else if d == 4 {
        "4"
    } else if d == 5 {
        "5"
    } else if d == 6 {
        "6"
    } else if d == 7 {
        "7"
    } else if d == 8 {
        "8"
    } else {
        "9"
    }
}

/// Appends the decimal text of `n` to `out`.
fn append_decimal(out: &mut String, n: u16)
    ensures
        final(out)@ == old(out)@ + decimal(n as nat),
    decreases n,
{
    if n >= 10 {
        append_decimal(out, n / 10);
    }
    out.append(digit_text(n % 10));
    proof {
        assert(final(out)@ =~= old(out)@ + decimal(n as nat));
    }
}

impl Cli {
    /// The address to bind to: `<interface>:<port>`, with interface 127.0.0.1 unless
    /// one is given.
    pub fn bind_address(&self) -> (r: String)
        ensures
            r@ == bind_address_text(
                match self.listen_interface {
                    Some(i) => Some(i@),
                    None => None,
                },
                self.port,
            ),
    {
        proof {
            reveal_strlit("127.0.0.1");
            reveal_strlit(":");
        }
        let mut r = match &self.listen_interface {
            Some(i) => i.clone(),
            None => String::from_str("127.0.0.1"),
        };
        r.append(":");
        append_decimal(&mut r, self.port);
        r
    }
}

impl AppConfigError {
    /// The displayed text of the error: `Invalid bind address: <address>`.
    pub fn to_string(&self) -> (r: String)
        ensures
            match self {
                AppConfigError::InvalidBindAddr(s) => r@ == seq![
                    'I', 'n', 'v', 'a', 'l', 'i', 'd', ' ', 'b', 'i', 'n', 'd', ' ', 'a', 'd', 'd',
                    'r', 'e', 's', 's', ':', ' '
                ] + s@,
            },
    {
        proof {
            reveal_strlit("Invalid bind address: ");
        }
        match self {
            AppConfigError::InvalidBindAddr(s) => {
                let mut r = String::from_str("Invalid bind address: ");
                r.append(s.as_str());
                r
            },
        }
    }
}

/// The number that a text of decimal digits ('0' is code 48, ..., '9' is code 57) reads
/// as, most significant digit first.
pub open spec fn decimal_value(s: Seq<char>) -> int
    decreases s.len(),
{
    if s.len() == 0 {
        0
    } else {
        decimal_value(s.drop_last()) * 10 + (s.last() as int - 48)
    }
}

/// Each digit is written as the character whose code is 48 plus the digit.
pub proof fn lemma_digit_char_code(d: nat)
    requires
        d < 10,
    ensures
        digit_char(d) as int == 48 + d,
{
}

/// `decimal(n)` is the base-10 numeral of `n`: a non-empty text of decimal digit
/// characters that reads back as `n`, without a leading zero unless `n` is 0.
pub proof fn lemma_decimal_numeral(n: nat)
    ensures
        decimal(n).len() > 0,
        forall|i: int| 0 <= i < decimal(n).len() ==> 48 <= (#[trigger] decimal(n)[i]) as int <= 57,
        decimal_value(decimal(n)) == n,
        decimal(n)[0] == '0' ==> n == 0,
    decreases n,
{
    lemma_digit_char_code(n % 10);
    if n < 10 {
        assert(decimal(n).drop_last() =~= Seq::<char>::empty());
        assert(decimal_value(decimal(n).drop_last()) == 0);
        assert(decimal(n).last() == digit_char(n));
    } else {
        let q = n / 10;
        lemma_decimal_numeral(q);
        let s = decimal(n);
        assert(s.drop_last() =~= decimal(q));
        assert(s.last() == digit_char(n % 10));
        assert(n == q * 10 + n % 10);
        assert(decimal_value(s) == decimal_value(decimal(q)) * 10 + (s.last() as int - 48));
        assert forall|i: int| 0 <= i < s.len() implies 48 <= (#[trigger] s[i]) as int <= 57 by {
            if i < s.len() - 1 {
                assert(s[i] == decimal(q)[i]);
            }
        }
        assert(s[0] == decimal(q)[0]);
    }
}

/// The bind address is the interface (127.0.0.1 when none is given), a colon, and the
/// base-10 numeral of the port.
pub proof fn lemma_bind_address_parts(listen_interface: Option<Seq<char>>, port: u16)
    ensures
        ({
            let t = bind_address_text(listen_interface, port);
            let i = match listen_interface {
                Some(x) => x,
                None => seq!['1', '2', '7', '.', '0', '.', '0', '.', '1'],
            };
            &&& t.len() > i.len() + 1
            &&& t.take(i.len() as int) == i
            &&& t[i.len() as int] == ':'
            &&& decimal_value(t.skip(i.len() as int + 1)) == port
            &&& forall|k: int| i.len() < k < t.len() ==> 48 <= (#[trigger] t[k]) as int <= 57
        }),
{
    let t = bind_address_text(listen_interface, port);
    let i = match listen_interface {
        Some(x) => x,
        None => seq!['1', '2', '7', '.', '0', '.', '0', '.', '1'],
    };
    assert(default_interface() =~= seq!['1', '2', '7', '.', '0', '.', '0', '.', '1']);
    lemma_decimal_numeral(port as nat);
    let d = decimal(port as nat);
    assert(t =~= i + seq![':'] + d);
    assert(t.take(i.len() as int) =~= i);
    assert(t.skip(i.len() as int + 1) =~= d);
    assert forall|k: int| i.len() < k < t.len() implies 48 <= (#[trigger] t[k]) as int <= 57 by {
        assert(t[k] == d[k - i.len() - 1]);
    }
}

} // verus!
