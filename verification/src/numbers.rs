//! Decimal text for unsigned integers: `str::parse` for `u16` and `u32`, and
//! formatting with `{}`.
use vstd::prelude::*;

verus! {

/// Why a decimal text is not a number of the target type, as `core::num::IntErrorKind` says.
#[derive(Debug, Clone, Copy, PartialEq, Eq, Structural)]
pub enum IntErrorKind {
    Empty,
    InvalidDigit,
    PosOverflow,
}

pub open spec fn is_digit(c: char) -> bool {
    48 <= c as int <= 57
}

pub open spec fn digit_value(c: char) -> int {
    c as int - 48
}

/// Scans decimal digits left to right from `acc`, as `from_str_radix` does: an
/// invalid digit is reported before an overflow at the same position.
pub open spec fn scan_decimal(d: Seq<char>, acc: int, max: int) -> Result<int, IntErrorKind>
    decreases d.len(),
{
    if d.len() == 0 {
        Ok(acc)
    } else if !is_digit(d[0]) {
        Err(IntErrorKind::InvalidDigit)
    } else if acc * 10 + digit_value(d[0]) > max {
        Err(IntErrorKind::PosOverflow)
    } else {
        scan_decimal(d.drop_first(), acc * 10 + digit_value(d[0]), max)
    }
}

/// What `str::parse` gives for an unsigned type whose largest value is `max`:
/// an optional leading `+`, then one or more ASCII digits.
pub open spec fn parse_unsigned(s: Seq<char>, max: int) -> Result<int, IntErrorKind> {
    if s.len() == 0 {
        Err(IntErrorKind::Empty)
    } else if (s[0] == '+' || s[0] == '-') && s.len() == 1 {
        Err(IntErrorKind::InvalidDigit)
    } else if s[0] == '+' {
        scan_decimal(s.drop_first(), 0, max)
    } else {
        scan_decimal(s, 0, max)
    }
}

/// The text of `ParseIntError`'s `Display` for each kind.
pub open spec fn int_error_text(k: IntErrorKind) -> Seq<char> {
    match k {
        IntErrorKind::Empty => "cannot parse integer from empty string"@,
        IntErrorKind::InvalidDigit => "invalid digit found in string"@,
        IntErrorKind::PosOverflow => "number too large to fit in target type"@,
    }
}

pub fn int_error_message(k: IntErrorKind) -> (r: String)
    ensures
        r@ == int_error_text(k),
{
    match k {
        IntErrorKind::Empty => "cannot parse integer from empty string".to_owned(),
        IntErrorKind::InvalidDigit => "invalid digit found in string".to_owned(),
        IntErrorKind::PosOverflow => "number too large to fit in target type".to_owned(),
    }
}

proof fn lemma_scan_bounds(d: Seq<char>, acc: int, max: int)
    requires
        0 <= acc <= max,
    ensures
        scan_decimal(d, acc, max) matches Ok(v) ==> 0 <= v <= max,
    decreases d.len(),
{
    if d.len() > 0 && is_digit(d[0]) && acc * 10 + digit_value(d[0]) <= max {
        lemma_scan_bounds(d.drop_first(), acc * 10 + digit_value(d[0]), max);
    }
}

/// The value of an ASCII digit.
fn digit_of(c: char) -> (r: Option<u32>)
    ensures
        match r {
            Some(v) => is_digit(c) && v as int == digit_value(c),
            None => !is_digit(c),
        },
{
    match c {
        '0' => Some(0),
        '1' => Some(1),
        '2' => Some(2),
        '3' => Some(3),
        '4' => Some(4),
        '5' => Some(5),
        '6' => Some(6),
        '7' => Some(7),
        '8' => Some(8),
        '9' => Some(9),
        _ => None,
    }
}

/// Parses `s[from..]` as `str::parse::<u32>` would, limited to `max`.
pub fn parse_unsigned_chars(s: &[char], max: u32) -> (r: Result<u32, IntErrorKind>)
    ensures
        match (r, parse_unsigned(s@, max as int)) {
            (Ok(v), Ok(w)) => v == w,
            (Err(k), Err(j)) => k == j,
            _ => false,
        },
        r matches Ok(v) ==> v <= max,
{
    if s.len() == 0 {
        return Err(IntErrorKind::Empty);
    }
    if (s[0] == '+' || s[0] == '-') && s.len() == 1 {
        return Err(IntErrorKind::InvalidDigit);
    }
    let start: usize = if s[0] == '+' { 1 } else { 0 };
    let ghost d = s@.skip(start as int);
    proof {
        assert(start == 1 ==> d =~= s@.drop_first());
        assert(start == 0 ==> d =~= s@);
    }
    let mut acc: u32 = 0;
    let mut i = start;
    while i < s.len()
        invariant
            start <= i <= s@.len(),
            d == s@.skip(start as int),
            parse_unsigned(s@, max as int) == scan_decimal(d, 0, max as int),
            acc <= max,
            scan_decimal(d, 0, max as int) == scan_decimal(s@.skip(i as int), acc as int, max as int),
        decreases s.len() - i,
    {
        let c = s[i];
        let ghost rest = s@.skip(i as int);
        assert(rest[0] == c);
        let v = match digit_of(c) {
            Some(v) => v,
            None => {
                return Err(IntErrorKind::InvalidDigit);
            },
        };
        if (acc as u64) * 10 + (v as u64) > (max as u64) {
            return Err(IntErrorKind::PosOverflow);
        }
        proof {
            assert(rest.drop_first() =~= s@.skip(i + 1));
        }
        acc = acc * 10 + v;
        i = i + 1;
    }
    proof {
        assert(s@.skip(i as int).len() == 0);
    }
    Ok(acc)
}

/// The decimal text of `n`, as `{}` formats an unsigned integer.
pub open spec fn decimal(n: nat) -> Seq<char>
    decreases n,
{
    if n < 10 {
        seq![(n + 48) as char]
    } else {
        decimal(n / 10).push(((n % 10) + 48) as char)
    }
}

/// Appends the decimal text of `n`.
pub fn push_decimal(out: &mut Vec<char>, n: u64)
    ensures
        final(out)@ == old(out)@ + decimal(n as nat),
    decreases n,
{
    if n >= 10 {
        push_decimal(out, n / 10);
    }
    let d = (n % 10) as u8;
    out.push((d + 48) as char);
    proof {
        if n >= 10 {
            assert(final(out)@ =~= old(out)@ + decimal(n as nat));
        } else {
            assert(final(out)@ =~= old(out)@ + decimal(n as nat));
        }
    }
}

pub proof fn lemma_decimal_digits(n: nat)
    ensures
        decimal(n).len() >= 1,
        forall|i: int| 0 <= i < decimal(n).len() ==> is_digit(#[trigger] decimal(n)[i]),
        decimal(n)[0] != '+',
    decreases n,
{
    if n >= 10 {
        lemma_decimal_digits(n / 10);
        assert forall|i: int| 0 <= i < decimal(n).len() implies is_digit(#[trigger] decimal(n)[i]) by {
            if i < decimal(n / 10).len() {
                assert(decimal(n)[i] == decimal(n / 10)[i]);
            }
        }
    }
}

proof fn lemma_scan_append_digit(a: Seq<char>, c: char, acc: int, max: int)
    requires
        scan_decimal(a, acc, max) is Ok,
        acc >= 0,
    ensures
        scan_decimal(a.push(c), acc, max) == (if !is_digit(c) {
            Err(IntErrorKind::InvalidDigit)
        } else if scan_decimal(a, acc, max)->Ok_0 * 10 + digit_value(c) > max {
            Err(IntErrorKind::PosOverflow)
        } else {
            Ok(scan_decimal(a, acc, max)->Ok_0 * 10 + digit_value(c))
        }),
    decreases a.len(),
{
    reveal_with_fuel(scan_decimal, 2);
    if a.len() > 0 {
        assert(a.push(c).drop_first() =~= a.drop_first().push(c));
        assert(a.push(c)[0] == a[0]);
        assert(is_digit(a[0]));
        lemma_scan_append_digit(a.drop_first(), c, acc * 10 + digit_value(a[0]), max);
    } else {
        assert(a.push(c).drop_first() =~= Seq::<char>::empty());
        assert(a.push(c)[0] == c);
        assert(a.push(c).len() == 1);
    }
}

/// The decimal text of a number not above `max` parses back to the number.
pub proof fn lemma_parse_decimal(n: nat, max: int)
    requires
        n <= max,
    ensures
        parse_unsigned(decimal(n), max) == Ok::<int, IntErrorKind>(n as int),
{
    lemma_decimal_digits(n);
    lemma_scan_decimal(n, max);
}

proof fn lemma_scan_decimal(n: nat, max: int)
    requires
        n <= max,
    ensures
        scan_decimal(decimal(n), 0, max) == Ok::<int, IntErrorKind>(n as int),
    decreases n,
{
    reveal_with_fuel(scan_decimal, 2);
    if n < 10 {
        let c = (n + 48) as char;
        assert(c as int == n + 48);
        assert(decimal(n)[0] == c);
        assert(decimal(n).drop_first() =~= Seq::<char>::empty());
    } else {
        let c = ((n % 10) + 48) as char;
        assert(c as int == (n % 10) + 48);
        assert(decimal(n) == decimal(n / 10).push(c));
        lemma_scan_decimal(n / 10, max);
        lemma_scan_append_digit(decimal(n / 10), ((n % 10) + 48) as char, 0, max);
    }
}

} // verus!
