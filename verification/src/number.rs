//! Numbers as text: decimal and hexadecimal digits, written and read.

use vstd::prelude::*;
use crate::chars;
use crate::text;

verus! {

/// The digit for a value below sixteen, in lower case.
pub open spec fn digit_char(d: nat) -> char {
    if d < 10 {
        ((48 + d) as u8) as char
    } else {
        ((87 + d) as u8) as char
    }
}

/// The decimal digits of a natural number, without leading zeros.
pub open spec fn decimal(n: nat) -> Seq<char>
    decreases n,
{
    if n < 10 {
        seq![digit_char(n)]
    } else {
        decimal(n / 10).push(digit_char(n % 10))
    }
}

/// An integer as text: a minus sign where it is negative, then its digits.
pub open spec fn int_text(i: int) -> Seq<char> {
    if i < 0 {
        seq!['-'] + decimal((-i) as nat)
    } else {
        decimal(i as nat)
    }
}

/// The text with zeros in front up to a width.
pub open spec fn pad(s: Seq<char>, width: nat) -> Seq<char> {
    if s.len() >= width {
        s
    } else {
        Seq::new((width - s.len()) as nat, |i: int| '0') + s
    }
}

/// The lowest `width` hexadecimal digits of a number, most significant first.
pub open spec fn hex(n: nat, width: nat) -> Seq<char>
    decreases width,
{
    if width == 0 {
        Seq::<char>::empty()
    } else {
        hex(n / 16, (width - 1) as nat).push(digit_char(n % 16))
    }
}

/// Whether a text is one or more decimal digits.
pub open spec fn all_digits(s: Seq<char>) -> bool {
    s.len() > 0 && forall|i: int| 0 <= i < s.len() ==> chars::is_digit(#[trigger] s[i])
}

/// The number that decimal digits stand for.
pub open spec fn digits_value(s: Seq<char>) -> nat
    decreases s.len(),
{
    if s.len() == 0 {
        0
    } else {
        digits_value(s.drop_last()) * 10 + digit_value(s.last())
    }
}

/// The value of one decimal digit.
pub open spec fn digit_value(c: char) -> nat {
    (c as u32 - 48) as nat
}

/// What follows an optional plus sign.
pub open spec fn after_plus(s: Seq<char>) -> Seq<char> {
    if s.len() > 0 && s[0] == '+' {
        s.skip(1)
    } else {
        s
    }
}

/// The natural number up to `max` that a text stands for: digits, with an
/// optional plus sign before them.
pub open spec fn parse_nat(s: Seq<char>, max: nat) -> Option<nat> {
    let digits = after_plus(s);
    if all_digits(digits) && digits_value(digits) <= max {
        Some(digits_value(digits))
    } else {
        None
    }
}

/// The 64-bit signed integer that a text stands for: digits, with an optional
/// sign before them.
pub open spec fn parse_int(s: Seq<char>) -> Option<int> {
    if s.len() > 0 && s[0] == '-' {
        let digits = s.skip(1);
        if all_digits(digits) && digits_value(digits) <= 0x8000_0000_0000_0000 {
            Some(-(digits_value(digits) as int))
        } else {
            None
        }
    } else {
        match parse_nat(s, 0x7fff_ffff_ffff_ffff) {
            Some(n) => Some(n as int),
            None => None,
        }
    }
}

// --- writing -----------------------------------------------------------------

/// The digit for a value below sixteen.
pub fn digit_of(d: u8) -> (r: char)
    requires
        d < 16,
    ensures
        r == digit_char(d as nat),
{
    if d < 10 {
        (48 + d) as char
    } else {
        (87 + d) as char
    }
}

/// A natural number in decimal.
pub fn nat_text(n: u64) -> (r: String)
    ensures
        r@ == decimal(n as nat),
    decreases n,
{
    if n < 10 {
        let mut out = String::new();
        out.push(digit_of(n as u8));
        assert(out@ =~= seq![digit_char(n as nat)]);
        out
    } else {
        let mut out = nat_text(n / 10);
        out.push(digit_of((n % 10) as u8));
        out
    }
}

/// An integer in decimal.
pub fn signed_text(n: i64) -> (r: String)
    ensures
        r@ == int_text(n as int),
{
    if n >= 0 {
        nat_text(n as u64)
    } else {
        let magnitude: u64 = if n == i64::MIN {
            0x8000_0000_0000_0000
        } else {
            (-n) as u64
        };
        let mut out = String::new();
        out.push('-');
        out.append(nat_text(magnitude).as_str());
        assert(out@ =~= int_text(n as int));
        out
    }
}

/// The text with zeros in front up to a width.
pub fn padded(s: &str, width: usize) -> (r: String)
    ensures
        r@ == pad(s@, width as nat),
{
    let len = s.unicode_len();
    let mut out = String::new();
    if len < width {
        let mut i: usize = 0;
        while i < width - len
            invariant
                len < width,
                i <= width - len,
                out@ == Seq::new(i as nat, |k: int| '0'),
            decreases width - len - i,
        {
            out.push('0');
            assert(out@ =~= Seq::new((i + 1) as nat, |k: int| '0'));
            i += 1;
        }
    }
    out.append(s);
    assert(out@ =~= pad(s@, width as nat));
    out
}

/// The lowest `width` hexadecimal digits of a number.
pub fn hex_text(n: u64, width: usize) -> (r: String)
    ensures
        r@ == hex(n as nat, width as nat),
    decreases width,
{
    if width == 0 {
        String::new()
    } else {
        let mut out = hex_text(n / 16, width - 1);
        out.push(digit_of((n % 16) as u8));
        out
    }
}

// --- reading -----------------------------------------------------------------

/// The value of the digits only grows with more of them.
proof fn lemma_value_prefix(s: Seq<char>, i: int)
    requires
        0 <= i <= s.len(),
    ensures
        digits_value(s.take(i)) <= digits_value(s),
    decreases s.len() - i,
{
    if i < s.len() {
        lemma_value_prefix(s, i + 1);
        assert(s.take(i + 1).drop_last() =~= s.take(i));
    } else {
        assert(s.take(i) =~= s);
    }
}

/// The value of decimal digits, where it is at most `u64::MAX`.
fn read_digits(cs: &[char]) -> (r: Option<u64>)
    ensures
        match r {
            Some(n) => all_digits(cs@) && digits_value(cs@) == n,
            None => !all_digits(cs@) || digits_value(cs@) > u64::MAX,
        },
{
    if cs.len() == 0 {
        return None;
    }
    let mut value: u64 = 0;
    let mut i: usize = 0;
    while i < cs.len()
        invariant
            i <= cs.len(),
            forall|j: int| 0 <= j < i ==> chars::is_digit(#[trigger] cs@[j]),
            value == digits_value(cs@.take(i as int)),
        decreases cs.len() - i,
    {
        let c = cs[i];
        if !chars::digit(c) {
            return None;
        }
        let d: u64 = (c as u32 - 48) as u64;
        proof {
            assert(cs@.take(i + 1).drop_last() =~= cs@.take(i as int));
            assert(cs@.take(i + 1).last() == c);
            lemma_value_prefix(cs@, i + 1);
        }
        if value > (u64::MAX - d) / 10 {
            return None;
        }
        value = value * 10 + d;
        i += 1;
    }
    assert(cs@.take(i as int) =~= cs@);
    Some(value)
}

/// The natural number up to `max` that a text stands for.
pub fn read_nat(s: &str, max: u64) -> (r: Option<u64>)
    ensures
        match r {
            Some(n) => parse_nat(s@, max as nat) == Some(n as nat),
            None => parse_nat(s@, max as nat) is None,
        },
{
    let cs = text::chars(s);
    let mut from: usize = 0;
    if cs.len() > 0 && cs[0] == '+' {
        from = 1;
    }
    assert(cs@.subrange(from as int, cs@.len() as int) =~= after_plus(s@));
    let digits = &cs[from..cs.len()];
    match read_digits(digits) {
        Some(n) => if n <= max {
            Some(n)
        } else {
            None
        },
        None => None,
    }
}

/// The 64-bit signed integer that a text stands for.
pub fn read_int(s: &str) -> (r: Option<i64>)
    ensures
        match r {
            Some(n) => parse_int(s@) == Some(n as int),
            None => parse_int(s@) is None,
        },
{
    let cs = text::chars(s);
    if cs.len() > 0 && cs[0] == '-' {
        assert(cs@.subrange(1, cs@.len() as int) =~= s@.skip(1));
        match read_digits(&cs[1..cs.len()]) {
            Some(n) => {
                if n == 0x8000_0000_0000_0000 {
                    Some(i64::MIN)
                } else if n < 0x8000_0000_0000_0000 {
                    Some(-(n as i64))
                } else {
                    None
                }
            },
            None => None,
        }
    } else {
        match read_nat(s, 0x7fff_ffff_ffff_ffff) {
            Some(n) => Some(n as i64),
            None => None,
        }
    }
}

// --- what reading gives back of writing --------------------------------------

/// Hexadecimal digits hold no separator and no NUL.
pub proof fn lemma_hex_is_plain(n: nat, width: nat)
    ensures
        forall|i: int|
            0 <= i < hex(n, width).len() ==> #[trigger] hex(n, width)[i] != '/' && hex(n, width)[i]
                != '\0',
    decreases width,
{
    if width > 0 {
        lemma_hex_is_plain(n / 16, (width - 1) as nat);
        let rest = hex(n / 16, (width - 1) as nat);
        assert forall|i: int| 0 <= i < hex(n, width).len() implies #[trigger] hex(n, width)[i]
            != '/' && hex(n, width)[i] != '\0' by {
            if i < rest.len() {
                assert(rest[i] != '/' && rest[i] != '\0');
            }
        }
    }
}

/// So many digits as asked for.
pub proof fn lemma_hex_len(n: nat, width: nat)
    ensures
        hex(n, width).len() == width,
    decreases width,
{
    if width > 0 {
        lemma_hex_len(n / 16, (width - 1) as nat);
    }
}

/// The decimal digits of a number are digits, and stand for that number.
pub proof fn lemma_decimal_value(n: nat)
    ensures
        all_digits(decimal(n)),
        digits_value(decimal(n)) == n,
    decreases n,
{
    if n < 10 {
        let s = decimal(n);
        assert(s.len() == 1 && s[0] == digit_char(n));
        assert(chars::is_digit(s[0]));
        assert(digits_value(s.drop_last()) == 0);
        assert(digit_value(s.last()) == n);
    } else {
        lemma_decimal_value(n / 10);
        let s = decimal(n);
        assert(s.drop_last() =~= decimal(n / 10));
        assert(s.last() == digit_char(n % 10));
        assert(digit_value(s.last()) == n % 10);
        assert forall|i: int| 0 <= i < s.len() implies chars::is_digit(#[trigger] s[i]) by {
            if i < s.len() - 1 {
                assert(s[i] == decimal(n / 10)[i]);
            }
        }
    }
}

/// Reading an integer that was written gives the integer back.
pub proof fn law_read_int_undoes_write(n: int)
    requires
        i64::MIN <= n <= i64::MAX,
    ensures
        parse_int(int_text(n)) == Some(n),
{
    if n < 0 {
        lemma_decimal_value((-n) as nat);
        assert(int_text(n)[0] == '-');
        assert(int_text(n).skip(1) =~= decimal((-n) as nat));
    } else {
        law_read_nat_undoes_write(n as nat, 0x7fff_ffff_ffff_ffff);
        lemma_decimal_value(n as nat);
        assert(chars::is_digit(decimal(n as nat)[0]));
    }
}

/// Reading a natural number that was written gives the number back.
pub proof fn law_read_nat_undoes_write(n: nat, max: nat)
    requires
        n <= max,
    ensures
        parse_nat(decimal(n), max) == Some(n),
{
    lemma_decimal_value(n);
    assert(chars::is_digit(decimal(n)[0]));
    assert(after_plus(decimal(n)) == decimal(n));
}

} // verus!
