//! The transport endpoints as text: the publisher binds every interface at
//! its port, the subscriber connects to a remote address at the same port.

use vstd::prelude::*;

verus! {

/// The port used when the operator names none.
pub const DEFAULT_PORT: u32 = 9800;

/// The character of one decimal digit.
pub open spec fn digit_char(d: u32) -> char {
    if d == 0 {
        '0'
    } else if d == 1 {
        '1'
    } else if d == 2 {
        '2'
    } else if d == 3 {
        '3'
    } else if d == 4 {
        '4'
    } else if d == 5 {
        '5'
    } else if d == 6 {
        '6'
    } else if d == 7 {
        '7'
    } else if d == 8 {
        '8'
    } else {
        '9'
    }
}

/// The decimal digits of `n`, most significant first, no leading zero
/// except for `n == 0` itself.
pub open spec fn dec_digits(n: u32) -> Seq<char>
    decreases n,
{
    if n < 10 {
        seq![digit_char(n)]
    } else {
        dec_digits(n / 10) + seq![digit_char(n % 10)]
    }
}

/// The endpoint the publisher binds: every interface, the given port.
pub open spec fn bind_endpoint_text(port: u32) -> Seq<char> {
    "tcp://0.0.0.0:"@ + dec_digits(port)
}

/// The endpoint the subscriber connects to: the given host, the given port.
pub open spec fn connect_endpoint_text(address: Seq<char>, port: u32) -> Seq<char> {
    "tcp://"@ + address + ":"@ + dec_digits(port)
}

/// One decimal digit as text.
fn digit_str(d: u32) -> (r: &'static str)
    requires
        d < 10,
    ensures
        r@ == seq![digit_char(d)],
{
    let r: &'static str = if d == 0 {
        "0"
    } else if d == 1 {
        "1"
    } else if d == 2 {
        "2"
    } else if d == 3 {
        "3"
    } else if d == 4 {
        "4"
    } else if d == 5 {
        "5"
    } else if d == 6 {
        "6"
    } else if d == 7 {
        "7"
    } else if d == 8 {
        "8"
    } else {
        "9"
    };
    proof {
        reveal_strlit("0");
        reveal_strlit("1");
        reveal_strlit("2");
        reveal_strlit("3");
        reveal_strlit("4");
        reveal_strlit("5");
        reveal_strlit("6");
        reveal_strlit("7");
        reveal_strlit("8");
        reveal_strlit("9");
        assert(r@ =~= seq![digit_char(d)]);
    }
    r
}

/// Writes `n` in decimal.
pub fn format_decimal(n: u32) -> (r: String)
    ensures
        r@ == dec_digits(n),
    decreases n,
{
    if n < 10 {
        let mut s = String::new();
        s.append(digit_str(n));
        proof {
            assert(s@ =~= dec_digits(n));
        }
        s
    } else {
        let mut s = format_decimal(n / 10);
        s.append(digit_str(n % 10));
        proof {
            assert(s@ =~= dec_digits(n));
        }
        s
    }
}

/// The text the publisher hands the transport to bind.
pub fn bind_endpoint(port: u32) -> (r: String)
    ensures
        r@ == bind_endpoint_text(port),
{
    let mut s = String::from_str("tcp://0.0.0.0:");
    let digits = format_decimal(port);
    s.append(digits.as_str());
    proof {
        assert(s@ =~= bind_endpoint_text(port));
    }
    s
}

/// The text the subscriber hands the transport to connect.
pub fn connect_endpoint(address: &str, port: u32) -> (r: String)
    ensures
        r@ == connect_endpoint_text(address@, port),
{
    let mut s = String::from_str("tcp://");
    s.append(address);
    s.append(":");
    let digits = format_decimal(port);
    s.append(digits.as_str());
    proof {
        assert(s@ =~= connect_endpoint_text(address@, port));
    }
    s
}

} // verus!
