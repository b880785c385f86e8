//! `u64` amounts as decimal text.
//!
//! Many JSON environments cannot safely represent full 64-bit integers, so
//! amounts are accepted either as numbers or as decimal strings, and are
//! written back as decimal strings.

use vstd::prelude::*;

use crate::hex::{digit_text, hex_digit};
use vstd::arithmetic::div_mod::lemma_div_denominator;
use vstd::arithmetic::power::{lemma_pow_positive, pow};

verus! {

/// The decimal digit character of `d` (below 10).
pub open spec fn decimal_digit(d: u64) -> char {
    (48 + d) as char
}

/// The decimal text of `v`, without sign or leading zeros.
pub open spec fn decimal_of(v: u64) -> Seq<char>
    decreases v,
{
    if v < 10 {
        seq![decimal_digit(v)]
    } else {
        decimal_of(v / 10).push(decimal_digit(v % 10))
    }
}

/// Why a text is not a `u64`, as the standard library reports it.
#[derive(Clone, Copy, Debug, PartialEq, Eq, Structural)]
pub enum ParseU64Error {
    /// The text is empty.
    Empty,
    /// The text holds a character that is not a decimal digit where one is
    /// expected.
    InvalidDigit,
    /// The number does not fit in a `u64`.
    PosOverflow,
}

impl ParseU64Error {
    /// The message that the standard library gives for this error.
    pub fn message(&self) -> (m: &'static str)
        ensures
            m == match self {
                ParseU64Error::Empty => "cannot parse integer from empty string",
                ParseU64Error::InvalidDigit => "invalid digit found in string",
                ParseU64Error::PosOverflow => "number too large to fit in target type",
            },
    {
        match self {
            ParseU64Error::Empty => "cannot parse integer from empty string",
            ParseU64Error::InvalidDigit => "invalid digit found in string",
            ParseU64Error::PosOverflow => "number too large to fit in target type",
        }
    }
}

/// `c` is a decimal digit.
pub open spec fn is_decimal_digit(c: char) -> bool {
    '0' <= c <= '9'
}

/// Reading decimal digits from left to right; the first character that is
/// not a digit, or at which the value outgrows `u64`, decides the error.
pub open spec fn parse_digits(ds: Seq<char>) -> Result<u64, ParseU64Error>
    decreases ds.len(),
{
    if ds.len() == 0 {
        Ok(0)
    } else {
        match parse_digits(ds.drop_last()) {
            Err(e) => Err(e),
            Ok(acc) => if !is_decimal_digit(ds.last()) {
                Err(ParseU64Error::InvalidDigit)
            } else if acc * 10 + (ds.last() as int - 48) > u64::MAX {
                Err(ParseU64Error::PosOverflow)
            } else {
                Ok((acc * 10 + (ds.last() as int - 48)) as u64)
            },
        }
    }
}

/// What the standard library's `u64` parser gives for `cs`: an optional
/// leading `+` followed by decimal digits.
pub open spec fn parse_u64_spec(cs: Seq<char>) -> Result<u64, ParseU64Error> {
    if cs.len() == 0 {
        Err(ParseU64Error::Empty)
    } else if (cs[0] == '+' || cs[0] == '-') && cs.len() == 1 {
        Err(ParseU64Error::InvalidDigit)
    } else if cs[0] == '+' {
        parse_digits(cs.drop_first())
    } else {
        parse_digits(cs)
    }
}

/// Appends the decimal text of `v` to `out`.
fn push_decimal(out: &mut String, v: u64)
    ensures
        final(out)@ == old(out)@ + decimal_of(v),
    decreases v,
{
    if v >= 10 {
        push_decimal(out, v / 10);
    }
    let d = (v % 10) as u8;
    proof {
        assert(hex_digit(d) == decimal_digit(v % 10));
    }
    out.append(digit_text(d));
    proof {
        if v >= 10 {
            assert(decimal_of(v) == decimal_of(v / 10).push(decimal_digit(v % 10)));
        }
        assert(final(out)@ =~= old(out)@ + decimal_of(v)) by {
            if v < 10 {
                assert(decimal_of(v) =~= seq![decimal_digit(v)]);
            }
        }
    }
}

/// Writes a `u64` as a decimal string.
pub fn u64_to_decimal(v: u64) -> (s: String)
    ensures
        s@ == decimal_of(v),
{
    let mut s = String::new();
    push_decimal(&mut s, v);
    proof {
        assert(s@ =~= decimal_of(v));
    }
    s
}

/// Reads a `u64` from a signed JSON number: negative numbers are refused.
pub fn u64_from_i64(v: i64) -> (r: Option<u64>)
    ensures
        r == if v < 0 {
            None::<u64>
        } else {
            Some(v as u64)
        },
{
    if v < 0 {
        None
    } else {
        Some(v as u64)
    }
}

/// Reads a `u64` from decimal text, as the standard library's parser does:
/// an optional leading `+` followed by decimal digits.
pub fn parse_u64(s: &str) -> (r: Result<u64, ParseU64Error>)
    ensures
        r == parse_u64_spec(s@),
{
    let n = s.unicode_len();
    if n == 0 {
        return Err(ParseU64Error::Empty);
    }
    let first = s.get_char(0);
    if (first == '+' || first == '-') && n == 1 {
        return Err(ParseU64Error::InvalidDigit);
    }
    let start: usize = if first == '+' { 1 } else { 0 };
    let ghost ds = s@.subrange(start as int, n as int);
    proof {
        if first == '+' {
            assert(ds =~= s@.drop_first());
        } else {
            assert(ds =~= s@);
        }
        assert(ds.take(0) =~= Seq::<char>::empty());
    }
    let mut acc: u64 = 0;
    let mut i: usize = start;
    while i < n
        invariant
            n == s@.len(),
            start <= i <= n,
            ds == s@.subrange(start as int, n as int),
            parse_u64_spec(s@) == parse_digits(ds),
            parse_digits(ds.take(i - start)) == Ok::<u64, ParseU64Error>(acc),
        decreases n - i,
    {
        let c = s.get_char(i);
        proof {
            assert(ds.take(i + 1 - start).drop_last() =~= ds.take(i - start));
            assert(ds.take(i + 1 - start).last() == c);
        }
        if !(c >= '0' && c <= '9') {
            proof {
                lemma_parse_refusal_extends(ds, (i + 1 - start) as int);
            }
            return Err(ParseU64Error::InvalidDigit);
        }
        let d = (c as u32 - 48) as u64;
        if acc > 1844674407370955161 || (acc == 1844674407370955161 && d > 5) {
            proof {
                lemma_parse_refusal_extends(ds, (i + 1 - start) as int);
            }
            return Err(ParseU64Error::PosOverflow);
        }
        acc = acc * 10 + d;
        i = i + 1;
    }
    proof {
        assert(ds.take(n - start) =~= ds);
    }
    Ok(acc)
}

/// Once a prefix of a digit text is refused, the whole text is refused for
/// the same reason.
proof fn lemma_parse_refusal_extends(ds: Seq<char>, k: int)
    requires
        0 <= k <= ds.len(),
        parse_digits(ds.take(k)) is Err,
    ensures
        parse_digits(ds) == parse_digits(ds.take(k)),
    decreases ds.len(),
{
    if k == ds.len() {
        assert(ds.take(k) =~= ds);
    } else {
        let d = ds.drop_last();
        assert(d.take(k) =~= ds.take(k));
        lemma_parse_refusal_extends(d, k);
    }
}

/// Reading back the decimal text of digits written for `v` gives `v`.
proof fn lemma_parse_decimal(v: u64)
    ensures
        parse_digits(decimal_of(v)) == Ok::<u64, ParseU64Error>(v),
        decimal_of(v).len() > 0,
        is_decimal_digit(decimal_of(v)[0]),
    decreases v,
{
    let c = decimal_digit(v % 10);
    assert(c as int == 48 + v % 10);
    if v < 10 {
        let s = decimal_of(v);
        assert(s.drop_last() =~= Seq::<char>::empty());
        assert(s.last() == c);
        assert(parse_digits(s.drop_last()) == Ok::<u64, ParseU64Error>(0));
    } else {
        lemma_parse_decimal(v / 10);
        let s = decimal_of(v);
        assert(s.drop_last() =~= decimal_of(v / 10));
        assert(s.last() == c);
        assert(s[0] == decimal_of(v / 10)[0]);
        assert(parse_digits(s.drop_last()) == Ok::<u64, ParseU64Error>((v / 10) as u64));
        assert((v / 10) * 10 + v % 10 == v);
    }
}

/// The decimal text of `v` is its base-10 digits, most significant first:
/// every character is a digit, the digit at position `k` is
/// `v / 10^(len - 1 - k) % 10`, `v` is below `10^len`, and there is no
/// leading zero.
pub proof fn decimal_digits_are_base_10(v: u64)
    ensures
        forall|k: int|
            0 <= k < decimal_of(v).len() ==> is_decimal_digit(#[trigger] decimal_of(v)[k]) && decimal_of(v)[k] as int - 48
                == (v as int / pow(10, (decimal_of(v).len() - 1 - k) as nat)) % 10,
        v < pow(10, decimal_of(v).len()),
        decimal_of(v).len() == 1 || decimal_of(v)[0] != '0',
    decreases v,
{
    let s = decimal_of(v);
    let c = decimal_digit(v % 10);
    assert(c as int == 48 + v % 10);
    reveal_with_fuel(pow, 2);
    if v < 10 {
        assert(s.len() == 1 && s[0] == c);
    } else {
        let q = (v / 10) as u64;
        decimal_digits_are_base_10(q);
        let t = decimal_of(q);
        let n = t.len();
        assert(s == t.push(c));
        assert forall|k: int| 0 <= k < s.len() implies is_decimal_digit(#[trigger] s[k]) && s[k] as int - 48
            == (v as int / pow(10, (s.len() - 1 - k) as nat)) % 10 by {
            if k < n {
                assert(s[k] == t[k]);
                let e = (n - 1 - k) as nat;
                lemma_pow_positive(10, e);
                assert(pow(10, (e + 1) as nat) == 10 * pow(10, e));
                assert((s.len() - 1 - k) as nat == (e + 1) as nat);
                lemma_div_denominator(v as int, 10, pow(10, e));
                assert(t[k] as int - 48 == (q as int / pow(10, e)) % 10);
            } else {
                assert(s[k] == c);
                assert(pow(10, 0) == 1);
            }
        }
        lemma_pow_positive(10, n);
        assert(pow(10, (n + 1) as nat) == 10 * pow(10, n));
        assert(v < 10 * pow(10, n)) by (nonlinear_arith)
            requires
                q == v / 10,
                q < pow(10, n),
        ;
        if n == 1 {
            assert(t[0] as int - 48 == (q as int / pow(10, 0)) % 10);
            assert(q < 10);
        }
        assert(s[0] == t[0]);
    }
}

/// Every character of `ds` is a decimal digit.
pub open spec fn all_digits(ds: Seq<char>) -> bool {
    forall|k: int| 0 <= k < ds.len() ==> is_decimal_digit(#[trigger] ds[k])
}

/// The text after an optional leading `+`.
pub open spec fn unsigned_part(cs: Seq<char>) -> Seq<char> {
    if cs.len() > 0 && cs[0] == '+' {
        cs.drop_first()
    } else {
        cs
    }
}

/// The number that decimal digits stand for, most significant first.
pub open spec fn digits_value(ds: Seq<char>) -> int
    decreases ds.len(),
{
    if ds.len() == 0 {
        0
    } else {
        digits_value(ds.drop_last()) * 10 + (ds.last() as int - 48)
    }
}

/// Digits read one by one give their number, or overflow once it exceeds
/// `u64::MAX`.
proof fn lemma_digits_parse(ds: Seq<char>)
    requires
        forall|k: int| 0 <= k < ds.len() ==> is_decimal_digit(#[trigger] ds[k]),
    ensures
        digits_value(ds) >= 0,
        parse_digits(ds) == if digits_value(ds) <= u64::MAX {
            Ok::<u64, ParseU64Error>(digits_value(ds) as u64)
        } else {
            Err(ParseU64Error::PosOverflow)
        },
    decreases ds.len(),
{
    if ds.len() > 0 {
        let d = ds.drop_last();
        assert forall|k: int| 0 <= k < d.len() implies is_decimal_digit(#[trigger] d[k]) by {
            assert(d[k] == ds[k]);
        }
        lemma_digits_parse(d);
        assert(is_decimal_digit(ds[ds.len() - 1]));
    }
}

/// The text `+` alone, or `-` alone, is refused as an invalid digit.
/// Otherwise, after an optional leading `+`: nonempty decimal digits give
/// the number they stand for in base 10 when it fits in a `u64`, and an
/// overflow when it does not; a character that is not a digit, with the
/// digits before it still fitting in a `u64`, gives an invalid digit. The
/// empty text is refused as empty.
pub proof fn parse_reads_base_10(cs: Seq<char>)
    ensures
        cs.len() == 0 ==> parse_u64_spec(cs) == Err::<u64, ParseU64Error>(ParseU64Error::Empty),
        cs == seq!['+'] ==> parse_u64_spec(cs) == Err::<u64, ParseU64Error>(ParseU64Error::InvalidDigit),
        cs == seq!['-'] ==> parse_u64_spec(cs) == Err::<u64, ParseU64Error>(ParseU64Error::InvalidDigit),
        ({
            let ds = unsigned_part(cs);
            (ds.len() > 0 && all_digits(ds)) ==> parse_u64_spec(cs) == if digits_value(ds) <= u64::MAX {
                    Ok::<u64, ParseU64Error>(digits_value(ds) as u64)
                } else {
                    Err(ParseU64Error::PosOverflow)
                }
        }),
        forall|k: int|
            0 <= k < unsigned_part(cs).len() && !is_decimal_digit(#[trigger] unsigned_part(cs)[k])
                && all_digits(unsigned_part(cs).take(k)) && digits_value(unsigned_part(cs).take(k)) <= u64::MAX
                ==> parse_u64_spec(cs) == Err::<u64, ParseU64Error>(ParseU64Error::InvalidDigit),
{
    let ds = unsigned_part(cs);
    if cs.len() > 0 {
        assert(cs.len() == 1 ==> (cs[0] == '+' || cs[0] == '-') ==> parse_u64_spec(cs) == Err::<u64, ParseU64Error>(ParseU64Error::InvalidDigit));
        if !(cs.len() == 1 && (cs[0] == '+' || cs[0] == '-')) {
            assert(parse_u64_spec(cs) == parse_digits(ds));
        }
    }
    if ds.len() > 0 && all_digits(ds) {
        lemma_digits_parse(ds);
        if cs.len() == 1 {
            assert(cs[0] == ds[0]);
        }
    }
    assert forall|k: int|
        0 <= k < ds.len() && !is_decimal_digit(#[trigger] ds[k]) && all_digits(ds.take(k))
            && digits_value(ds.take(k)) <= u64::MAX
        implies parse_u64_spec(cs) == Err::<u64, ParseU64Error>(ParseU64Error::InvalidDigit) by {
        let p = ds.take(k);
        lemma_digits_parse(p);
        let q = ds.take(k + 1);
        assert(q.drop_last() =~= p);
        assert(q.last() == ds[k]);
        lemma_parse_refusal_extends(ds, k + 1);
        if cs.len() == 1 {
            assert(cs[0] == ds[0]);
        }
    }
}

/// Writing a `u64` as a decimal string and reading it back gives the same
/// value.
pub proof fn decimal_round_trip(v: u64)
    ensures
        parse_u64_spec(decimal_of(v)) == Ok::<u64, ParseU64Error>(v),
{
    lemma_parse_decimal(v);
}

} // verus!
