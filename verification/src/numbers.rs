//! Decimal numbers as text: plain decimal rendering, rendering with a `,`
//! between groups of three digits (the English locale), and parsing of
//! unsigned decimal integers with the error kinds that `str::parse` reports.
use vstd::prelude::*;

use crate::text::{chars_of, push_char};

verus! {

/// The character of the decimal digit `d` (`d < 10`).
pub open spec fn digit_char(d: nat) -> char {
    (48 + d) as char
}

/// `n` written in decimal, without leading zeros.
pub open spec fn decimal(n: nat) -> Seq<char>
    decreases n,
{
    if n < 10 {
        seq![digit_char(n)]
    } else {
        decimal(n / 10).push(digit_char(n % 10))
    }
}

/// The three decimal digits of `r < 1000`, zero-padded.
pub open spec fn three_digits(r: nat) -> Seq<char> {
    seq![digit_char(r / 100), digit_char((r / 10) % 10), digit_char(r % 10)]
}

/// `n` in decimal with `,` between groups of three digits, counted from the
/// right: the English locale's grouping.
pub open spec fn grouped(n: nat) -> Seq<char>
    decreases n,
{
    if n < 1000 {
        decimal(n)
    } else {
        grouped(n / 1000) + seq![','] + three_digits(n % 1000)
    }
}

fn digit(d: u64) -> (c: char)
    requires
        d < 10,
    ensures
        c == digit_char(d as nat),
{
    let b: u8 = d as u8;
    (b + 48) as char
}

/// Appends `n` in decimal to `s`.
pub fn push_decimal(s: &mut String, n: u64)
    ensures
        final(s)@ == old(s)@ + decimal(n as nat),
    decreases n,
{
    if n >= 10 {
        push_decimal(s, n / 10);
    }
    push_char(s, digit(n % 10));
    assert(final(s)@ =~= old(s)@ + decimal(n as nat));
}

/// `n` in decimal.
pub fn format_decimal(n: u64) -> (r: String)
    ensures
        r@ == decimal(n as nat),
{
    let mut s = String::new();
    push_decimal(&mut s, n);
    assert(s@ =~= decimal(n as nat));
    s
}

/// Appends `n` to `s` in decimal, grouped by three digits with `,`.
pub fn push_grouped(s: &mut String, n: u64)
    ensures
        final(s)@ == old(s)@ + grouped(n as nat),
    decreases n,
{
    if n < 1000 {
        push_decimal(s, n);
    } else {
        push_grouped(s, n / 1000);
        push_char(s, ',');
        let r = n % 1000;
        push_char(s, digit(r / 100));
        push_char(s, digit((r / 10) % 10));
        push_char(s, digit(r % 10));
        assert(final(s)@ =~= old(s)@ + grouped(n as nat));
    }
}

/// `n` in decimal, grouped by three digits with `,` (as `1,234,567`).
pub fn format_grouped(n: u64) -> (r: String)
    ensures
        r@ == grouped(n as nat),
{
    let mut s = String::new();
    push_grouped(&mut s, n);
    assert(s@ =~= grouped(n as nat));
    s
}

/// Why a text is not an unsigned decimal integer of the target type.
#[derive(Clone, Copy, Debug, PartialEq, Eq, Structural)]
pub enum IntErrorKind {
    /// The text is empty.
    Empty,
    /// The text holds a character that is not a decimal digit.
    InvalidDigit,
    /// The number does not fit in the target type.
    PosOverflow,
}

/// The message that describes `kind`.
pub open spec fn int_error_message(kind: IntErrorKind) -> Seq<char> {
    match kind {
        IntErrorKind::Empty => "cannot parse integer from empty string"@,
        IntErrorKind::InvalidDigit => "invalid digit found in string"@,
        IntErrorKind::PosOverflow => "number too large to fit in target type"@,
    }
}

impl IntErrorKind {
    /// The message that describes this error.
    pub fn message(&self) -> (r: String)
        ensures
            r@ == int_error_message(*self),
    {
        match self {
            IntErrorKind::Empty => "cannot parse integer from empty string".to_owned(),
            IntErrorKind::InvalidDigit => "invalid digit found in string".to_owned(),
            IntErrorKind::PosOverflow => "number too large to fit in target type".to_owned(),
        }
    }
}

/// Whether `c` is one of `0`..`9`.
pub open spec fn is_digit(c: char) -> bool {
    48 <= (c as u32) <= 57
}

/// The value of the decimal digit `c`.
pub open spec fn digit_value(c: char) -> nat {
    ((c as u32) - 48) as nat
}

/// Reads the digits of `s` from the left onto `acc`: the first character that
/// is not a digit is an `InvalidDigit`; a value above `max` is a `PosOverflow`.
pub open spec fn scan_digits(acc: nat, s: Seq<char>, max: nat) -> Result<nat, IntErrorKind>
    decreases s.len(),
{
    if s.len() == 0 {
        Ok(acc)
    } else if !is_digit(s[0]) {
        Err(IntErrorKind::InvalidDigit)
    } else if acc * 10 + digit_value(s[0]) > max {
        Err(IntErrorKind::PosOverflow)
    } else {
        scan_digits(acc * 10 + digit_value(s[0]), s.drop_first(), max)
    }
}

/// An unsigned decimal integer no larger than `max`, with an optional
/// leading `+`.
pub open spec fn parse_unsigned(s: Seq<char>, max: nat) -> Result<nat, IntErrorKind> {
    if s.len() == 0 {
        Err(IntErrorKind::Empty)
    } else if s.len() == 1 && (s[0] == '+' || s[0] == '-') {
        Err(IntErrorKind::InvalidDigit)
    } else if s[0] == '+' {
        scan_digits(0, s.drop_first(), max)
    } else {
        scan_digits(0, s, max)
    }
}

fn parse_unsigned_chars(s: &[char], max: u64) -> (r: Result<u64, IntErrorKind>)
    ensures
        match r {
            Ok(v) => parse_unsigned(s@, max as nat) == Ok::<nat, IntErrorKind>(v as nat),
            Err(e) => parse_unsigned(s@, max as nat) == Err::<nat, IntErrorKind>(e),
        },
        r matches Ok(v) ==> v <= max,
{
    let n = s.len();
    if n == 0 {
        return Err(IntErrorKind::Empty);
    }
    if n == 1 && (s[0] == '+' || s[0] == '-') {
        return Err(IntErrorKind::InvalidDigit);
    }
    let start: usize = if s[0] == '+' {
        1
    } else {
        0
    };
    let ghost digits = s@.skip(start as int);
    assert(parse_unsigned(s@, max as nat) == scan_digits(0, digits, max as nat)) by {
        if start == 0 {
            assert(digits =~= s@);
        } else {
            assert(digits =~= s@.drop_first());
        }
    }
    let mut acc: u64 = 0;
    let mut i = start;
    while i < n
        invariant
            n == s@.len(),
            start <= i <= n,
            acc <= max,
            digits == s@.skip(start as int),
            parse_unsigned(s@, max as nat) == scan_digits(0, digits, max as nat),
            scan_digits(0, digits, max as nat) == scan_digits(acc as nat, s@.skip(i as int), max as nat),
        decreases n - i,
    {
        let c = s[i];
        let code = c as u32;
        assert(code == (c as u32));
        assert(s@.skip(i as int)[0] == c);
        if code < 48 || code > 57 {
            return Err(IntErrorKind::InvalidDigit);
        }
        let d = (code - 48) as u64;
        let next: u128 = (acc as u128) * 10 + (d as u128);
        if next > max as u128 {
            return Err(IntErrorKind::PosOverflow);
        }
        assert(s@.skip(i as int).drop_first() =~= s@.skip(i + 1));
        acc = next as u64;
        i = i + 1;
    }
    assert(s@.skip(n as int).len() == 0);
    Ok(acc)
}

/// `s` read as a `u32`, as `str::parse::<u32>` reads it.
pub fn parse_u32(s: &str) -> (r: Result<u32, IntErrorKind>)
    ensures
        match r {
            Ok(v) => parse_unsigned(s@, u32::MAX as nat) == Ok::<nat, IntErrorKind>(v as nat),
            Err(e) => parse_unsigned(s@, u32::MAX as nat) == Err::<nat, IntErrorKind>(e),
        },
{
    let cs = chars_of(s);
    match parse_unsigned_chars(cs.as_slice(), 0xffff_ffff) {
        Ok(v) => Ok(v as u32),
        Err(e) => Err(e),
    }
}

/// `s` read as a `u64`, as `str::parse::<u64>` reads it.
pub fn parse_u64(s: &str) -> (r: Result<u64, IntErrorKind>)
    ensures
        match r {
            Ok(v) => parse_unsigned(s@, u64::MAX as nat) == Ok::<nat, IntErrorKind>(v as nat),
            Err(e) => parse_unsigned(s@, u64::MAX as nat) == Err::<nat, IntErrorKind>(e),
        },
{
    let cs = chars_of(s);
    parse_unsigned_chars(cs.as_slice(), 0xffff_ffff_ffff_ffff)
}

/// Reading the digits of `s.push(c)` is reading those of `s`, then one more.
proof fn lemma_scan_push(acc: nat, s: Seq<char>, c: char, max: nat)
    ensures
        scan_digits(acc, s.push(c), max) == match scan_digits(acc, s, max) {
            Ok(v) => if !is_digit(c) {
                Err(IntErrorKind::InvalidDigit)
            } else if v * 10 + digit_value(c) > max {
                Err(IntErrorKind::PosOverflow)
            } else {
                Ok(v * 10 + digit_value(c))
            },
            Err(e) => Err(e),
        },
    decreases s.len(),
{
    if s.len() == 0 {
        assert(s.push(c).len() == 1);
        assert(s.push(c)[0] == c);
        assert(s.push(c).drop_first() =~= Seq::<char>::empty());
        assert(scan_digits(acc, s, max) == Ok::<nat, IntErrorKind>(acc));
        reveal_with_fuel(scan_digits, 2);
    } else {
        assert(s.push(c)[0] == s[0]);
        assert(s.push(c).drop_first() =~= s.drop_first().push(c));
        if is_digit(s[0]) && acc * 10 + digit_value(s[0]) <= max {
            lemma_scan_push(acc * 10 + digit_value(s[0]), s.drop_first(), c, max);
        }
    }
}

proof fn lemma_scan_decimal(n: nat, max: nat)
    requires
        n <= max,
    ensures
        scan_digits(0, decimal(n), max) == Ok::<nat, IntErrorKind>(n),
    decreases n,
{
    if n < 10 {
        assert(decimal(n).drop_first() =~= Seq::<char>::empty());
        reveal_with_fuel(scan_digits, 2);
    } else {
        lemma_scan_decimal(n / 10, max);
        lemma_scan_push(0, decimal(n / 10), digit_char(n % 10), max);
        assert((n / 10) * 10 + n % 10 == n);
        assert(digit_value(digit_char(n % 10)) == n % 10);
    }
}

/// Law: reading back a number written in decimal gives the number, for every
/// value that fits the target type.
pub proof fn law_parse_reads_back_decimal(n: nat, max: nat)
    requires
        n <= max,
    ensures
        parse_unsigned(decimal(n), max) == Ok::<nat, IntErrorKind>(n),
{
    lemma_scan_decimal(n, max);
    if n < 10 {
    } else {
        assert(decimal(n)[0] == decimal(n / 10)[0]);
        lemma_decimal_first_is_digit(n / 10);
    }
    lemma_decimal_first_is_digit(n);
}

proof fn lemma_decimal_first_is_digit(n: nat)
    ensures
        decimal(n).len() >= 1,
        is_digit(decimal(n)[0]),
    decreases n,
{
    if n >= 10 {
        lemma_decimal_first_is_digit(n / 10);
        assert(decimal(n)[0] == decimal(n / 10)[0]);
    }
}


/// `s` without its `,` characters.
pub open spec fn strip_commas(s: Seq<char>) -> Seq<char>
    decreases s.len(),
{
    if s.len() == 0 {
        Seq::empty()
    } else if s.last() == ',' {
        strip_commas(s.drop_last())
    } else {
        strip_commas(s.drop_last()).push(s.last())
    }
}

proof fn lemma_strip_commas_concat(a: Seq<char>, b: Seq<char>)
    ensures
        strip_commas(a + b) == strip_commas(a) + strip_commas(b),
    decreases b.len(),
{
    if b.len() == 0 {
        assert(a + b =~= a);
        assert(strip_commas(a) + strip_commas(b) =~= strip_commas(a));
    } else {
        assert((a + b).drop_last() =~= a + b.drop_last());
        assert((a + b).last() == b.last());
        lemma_strip_commas_concat(a, b.drop_last());
        if b.last() == ',' {
        } else {
            assert(strip_commas(a) + strip_commas(b) =~= (strip_commas(a) + strip_commas(
                b.drop_last(),
            )).push(b.last()));
        }
    }
}

proof fn lemma_strip_commas_digits(s: Seq<char>)
    requires
        forall|i: int| 0 <= i < s.len() ==> is_digit(#[trigger] s[i]),
    ensures
        strip_commas(s) == s,
    decreases s.len(),
{
    if s.len() > 0 {
        let p = s.drop_last();
        assert forall|i: int| 0 <= i < p.len() implies is_digit(#[trigger] p[i]) by {
            assert(p[i] == s[i]);
        }
        lemma_strip_commas_digits(p);
        assert(is_digit(s[s.len() - 1]));
        assert(s.last() != ',');
        assert(p.push(s.last()) =~= s);
    }
}

proof fn lemma_decimal_split(n: nat)
    requires
        n >= 1000,
    ensures
        decimal(n) == decimal(n / 1000) + three_digits(n % 1000),
{
    let a = n / 10;
    let b = n / 100;
    assert(a >= 100);
    assert(b >= 10);
    assert(a / 10 == b);
    assert(b / 10 == n / 1000);
    assert((n % 1000) / 100 == b % 10);
    assert(((n % 1000) / 10) % 10 == a % 10);
    assert((n % 1000) % 10 == n % 10);
    assert(decimal(n) == decimal(a).push(digit_char(n % 10)));
    assert(decimal(a) == decimal(b).push(digit_char(a % 10)));
    assert(decimal(b) == decimal(n / 1000).push(digit_char(b % 10)));
    assert(decimal(n) =~= decimal(n / 1000) + three_digits(n % 1000));
}

/// Law: the grouped rendering of a number is its decimal rendering with `,`
/// separators added, and nothing else.
pub proof fn law_grouping_only_adds_separators(n: nat)
    ensures
        strip_commas(grouped(n)) == decimal(n),
    decreases n,
{
    if n < 1000 {
        lemma_decimal_digits(n);
        lemma_strip_commas_digits(decimal(n));
    } else {
        law_grouping_only_adds_separators(n / 1000);
        let t = three_digits(n % 1000);
        lemma_strip_commas_concat(grouped(n / 1000) + seq![','], t);
        lemma_strip_commas_concat(grouped(n / 1000), seq![',']);
        let c: Seq<char> = seq![','];
        assert(c.len() == 1 && c.last() == ',');
        assert(c.drop_last() =~= Seq::<char>::empty());
        assert(strip_commas(c.drop_last()) =~= Seq::<char>::empty());
        assert(strip_commas(c) =~= Seq::<char>::empty());
        assert forall|i: int| 0 <= i < t.len() implies is_digit(#[trigger] t[i]) by {}
        lemma_strip_commas_digits(t);
        lemma_decimal_split(n);
        assert(strip_commas(grouped(n)) =~= decimal(n));
    }
}

proof fn lemma_decimal_digits(n: nat)
    ensures
        forall|i: int| 0 <= i < decimal(n).len() ==> is_digit(#[trigger] decimal(n)[i]),
    decreases n,
{
    if n >= 10 {
        lemma_decimal_digits(n / 10);
        assert forall|i: int| 0 <= i < decimal(n).len() implies is_digit(#[trigger] decimal(n)[i]) by {
            if i < decimal(n / 10).len() {
                assert(decimal(n)[i] == decimal(n / 10)[i]);
            }
        }
    }
}

} // verus!
