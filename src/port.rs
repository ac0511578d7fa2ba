//! Port numbers as text: parsing a decimal `u16` and printing one.
use vstd::prelude::*;

verus! {

/// Why a text is not a port number.
#[derive(Clone, Copy, Debug, PartialEq, Eq, Structural)]
pub enum PortError {
    /// The text is empty.
    Empty,
    /// A character other than a decimal digit, or a sign with no digits.
    InvalidDigit,
    /// The digits name a number above 65535.
    TooLarge,
}

pub open spec fn is_digit(c: char) -> bool {
    '0' <= c && c <= '9'
}

pub open spec fn digit_value(c: char) -> nat {
    (c as int - '0' as int) as nat
}

pub open spec fn digit_char(d: nat) -> char {
    ((d + '0' as int) as u32) as char
}

/// Reads the digits left to right and stops at the first fault: a
/// character that is not a digit, or a value that leaves the range of `u16`.
pub open spec fn scan(d: Seq<char>) -> Result<nat, PortError>
    decreases d.len(),
{
    if d.len() == 0 {
        Ok(0)
    } else {
        match scan(d.drop_last()) {
            Err(e) => Err(e),
            Ok(v) => {
                if !is_digit(d.last()) {
                    Err(PortError::InvalidDigit)
                } else if v * 10 + digit_value(d.last()) > 65535 {
                    Err(PortError::TooLarge)
                } else {
                    Ok(v * 10 + digit_value(d.last()))
                }
            },
        }
    }
}

/// The digits of `s`: what follows an optional leading `+`.
pub open spec fn digits_of(s: Seq<char>) -> Seq<char> {
    if s.len() > 0 && s[0] == '+' {
        s.drop_first()
    } else {
        s
    }
}

/// A port number in text: an optional `+` and then one or more decimal
/// digits, of value at most 65535.
pub open spec fn port_of(s: Seq<char>) -> Result<u16, PortError> {
    if s.len() == 0 {
        Err(PortError::Empty)
    } else if digits_of(s).len() == 0 {
        Err(PortError::InvalidDigit)
    } else {
        match scan(digits_of(s)) {
            Ok(v) => Ok(v as u16),
            Err(e) => Err(e),
        }
    }
}

pub open spec fn all_digits(d: Seq<char>) -> bool {
    forall|i: int| 0 <= i < d.len() ==> is_digit(#[trigger] d[i])
}

/// The number that a sequence of decimal digits names.
pub open spec fn digits_value(d: Seq<char>) -> nat
    decreases d.len(),
{
    if d.len() == 0 {
        0
    } else {
        digits_value(d.drop_last()) * 10 + digit_value(d.last())
    }
}

/// `s` is an optional `+` and one or more decimal digits, naming a number
/// that fits in 16 bits.
pub open spec fn is_port_text(s: Seq<char>) -> bool {
    &&& digits_of(s).len() > 0
    &&& all_digits(digits_of(s))
    &&& digits_value(digits_of(s)) <= 65535
}

/// The shortest decimal text of `n`.
pub open spec fn decimal_text(n: nat) -> Seq<char>
    decreases n,
{
    if n < 10 {
        seq![digit_char(n)]
    } else {
        decimal_text(n / 10).push(digit_char(n % 10))
    }
}

/// Parses a port number written in decimal.
pub fn parse_port(s: &str) -> (r: Result<u16, PortError>)
    ensures
        r == port_of(s@),
{
    let n = s.unicode_len();
    if n == 0 {
        return Err(PortError::Empty);
    }
    let mut i: usize = 0;
    if s.get_char(0) == '+' {
        i = 1;
        if n == 1 {
            return Err(PortError::InvalidDigit);
        }
    }
    let start = i;
    let ghost d = digits_of(s@);
    assert(d =~= s@.subrange(start as int, n as int));
    let mut v: u32 = 0;
    while i < n
        invariant
            start <= i <= n,
            n == s@.len(),
            d == s@.subrange(start as int, n as int),
            d == digits_of(s@),
            s@.len() > 0,
            scan(d.subrange(0, i - start)) == Ok::<nat, PortError>(v as nat),
            v <= 65535,
        decreases n - i,
    {
        let c = s.get_char(i);
        let ghost pre = d.subrange(0, i - start + 1);
        assert(pre.drop_last() =~= d.subrange(0, i - start));
        assert(pre.last() == c);
        assert(scan(pre.drop_last()) == Ok::<nat, PortError>(v as nat));
        if !('0' <= c && c <= '9') {
            proof { lemma_scan_err_sticks(d, (i - start + 1) as nat); }
            return Err(PortError::InvalidDigit);
        }
        let next: u32 = v * 10 + (c as u32 - '0' as u32);
        assert(next as nat == v * 10 + digit_value(c));
        if next > 65535 {
            proof { lemma_scan_err_sticks(d, (i - start + 1) as nat); }
            return Err(PortError::TooLarge);
        }
        v = next;
        i = i + 1;
    }
    assert(d.subrange(0, n - start) =~= d);
    Ok(v as u16)
}

/// Once the scan of a prefix fails, the scan of the whole fails the same way.
proof fn lemma_scan_err_sticks(d: Seq<char>, k: nat)
    requires
        k <= d.len(),
        scan(d.subrange(0, k as int)) is Err,
    ensures
        scan(d) == scan(d.subrange(0, k as int)),
    decreases d.len() - k,
{
    if k == d.len() {
        assert(d.subrange(0, k as int) =~= d);
    } else {
        assert(d.subrange(0, k + 1 as int).drop_last() =~= d.subrange(0, k as int));
        lemma_scan_err_sticks(d, (k + 1) as nat);
    }
}

/// The text of one decimal digit.
fn digit_str(d: u16) -> (r: &'static str)
    requires
        d < 10,
    ensures
        r@ == seq![digit_char(d as nat)],
{
    match d {
        0 => { proof { reveal_strlit("0"); } "0" },
        1 => { proof { reveal_strlit("1"); } "1" },
        2 => { proof { reveal_strlit("2"); } "2" },
        3 => { proof { reveal_strlit("3"); } "3" },
        4 => { proof { reveal_strlit("4"); } "4" },
        5 => { proof { reveal_strlit("5"); } "5" },
        6 => { proof { reveal_strlit("6"); } "6" },
        7 => { proof { reveal_strlit("7"); } "7" },
        8 => { proof { reveal_strlit("8"); } "8" },
        _ => { proof { reveal_strlit("9"); } "9" },
    }
}

/// Writes a port number in decimal, without leading zeros or sign.
pub fn port_text(p: u16) -> (r: String)
    ensures
        r@ == decimal_text(p as nat),
    decreases p,
{
    if p < 10 {
        String::from_str(digit_str(p))
    } else {
        let mut s = port_text(p / 10);
        s.append(digit_str(p % 10));
        s
    }
}

proof fn lemma_digit_char(d: nat)
    requires
        d < 10,
    ensures
        is_digit(digit_char(d)),
        digit_value(digit_char(d)) == d,
{
}

/// Reading back the digits of a number up to 65535 gives the number.
proof fn lemma_scan_decimal(n: nat)
    requires
        n <= 65535,
    ensures
        scan(decimal_text(n)) == Ok::<nat, PortError>(n),
        decimal_text(n).len() > 0,
        is_digit(decimal_text(n)[0]),
    decreases n,
{
    if n < 10 {
        lemma_digit_char(n);
        assert(decimal_text(n).drop_last() =~= Seq::<char>::empty());
        assert(scan(decimal_text(n).drop_last()) == Ok::<nat, PortError>(0));
    } else {
        lemma_digit_char(n % 10);
        lemma_scan_decimal(n / 10);
        assert(decimal_text(n).drop_last() =~= decimal_text(n / 10));
        assert((n / 10) * 10 + n % 10 == n) by (nonlinear_arith);
    }
}

/// The scan succeeds exactly on digits of a value that fits in 16 bits, and
/// then gives that value.
proof fn lemma_scan_ok(d: Seq<char>)
    ensures
        scan(d) is Ok <==> all_digits(d) && digits_value(d) <= 65535,
        scan(d) is Ok ==> scan(d)->Ok_0 == digits_value(d),
    decreases d.len(),
{
    if d.len() > 0 {
        let p = d.drop_last();
        lemma_scan_ok(p);
        assert(all_digits(d) <==> all_digits(p) && is_digit(d.last())) by {
            if all_digits(p) && is_digit(d.last()) {
                assert forall|i: int| 0 <= i < d.len() implies is_digit(#[trigger] d[i]) by {
                    if i < p.len() {
                        assert(d[i] == p[i]);
                    }
                }
            }
            if all_digits(d) {
                assert forall|i: int| 0 <= i < p.len() implies is_digit(#[trigger] p[i]) by {
                    assert(d[i] == p[i]);
                }
                assert(is_digit(d[d.len() - 1]));
            }
        }
    }
}

/// A text is a port number exactly when it is an optional `+` and decimal
/// digits naming a number up to 65535; the port is then that number.
pub proof fn lemma_port_text_exactly(s: Seq<char>)
    ensures
        port_of(s) is Ok <==> is_port_text(s),
        port_of(s) is Ok ==> port_of(s)->Ok_0 as nat == digits_value(digits_of(s)),
{
    lemma_scan_ok(digits_of(s));
}

/// Every port number, written in decimal, parses back to itself.
pub proof fn lemma_port_text_round_trip(p: u16)
    ensures
        port_of(decimal_text(p as nat)) == Ok::<u16, PortError>(p),
{
    lemma_scan_decimal(p as nat);
}

} // verus!
