//! Decimal and hexadecimal numbers in text.

use crate::text::slice_of;
use vstd::prelude::*;
use vstd::string::*;

verus! {

/// The value of a digit, or the radix-independent marker 255 for any other
/// character.
pub open spec fn digit_value(c: char) -> nat {
    if '0' <= c <= '9' {
        (c as u32 - '0' as u32) as nat
    } else if 'a' <= c <= 'z' {
        (c as u32 - 'a' as u32 + 10) as nat
    } else if 'A' <= c <= 'Z' {
        (c as u32 - 'A' as u32 + 10) as nat
    } else {
        255
    }
}

pub open spec fn all_digits(s: Seq<char>, radix: nat) -> bool {
    forall|i: int| 0 <= i < s.len() ==> digit_value(#[trigger] s[i]) < radix
}

/// The number that a list of digits denotes.
pub open spec fn digits_value(s: Seq<char>, radix: nat) -> nat
    decreases s.len(),
{
    if s.len() == 0 {
        0
    } else {
        digits_value(s.drop_last(), radix) * radix + digit_value(s.last())
    }
}

/// An unsigned number as the standard library reads it: an optional `+`, then
/// at least one digit, with a value of at most `max`.
pub open spec fn parsed_number(s: Seq<char>, radix: nat, max: nat) -> Option<nat> {
    let digits = if s.len() > 0 && s[0] == '+' {
        s.skip(1)
    } else {
        s
    };
    if digits.len() > 0 && all_digits(digits, radix) && digits_value(digits, radix) <= max {
        Some(digits_value(digits, radix))
    } else {
        None
    }
}

pub open spec fn digit_char(d: nat) -> char {
    if d < 10 {
        (48 + d) as u8 as char
    } else {
        (87 + d) as u8 as char
    }
}

/// The digits of a number without leading zeros, letters in lower case.
pub open spec fn numeral(n: nat, radix: nat) -> Seq<char>
    decreases n,
{
    if n < radix || radix < 2 {
        seq![digit_char(n)]
    } else {
        proof {
            assert(n / radix < n) by (nonlinear_arith)
                requires
                    n >= radix,
                    radix >= 2,
            ;
        }
        numeral(n / radix, radix).push(digit_char(n % radix))
    }
}

/// The decimal digits of a number.
pub open spec fn decimal(n: nat) -> Seq<char> {
    numeral(n, 10)
}

pub proof fn lemma_digits_value_take(s: Seq<char>, radix: nat, k: int)
    requires
        0 <= k <= s.len(),
        radix >= 1,
    ensures
        digits_value(s.take(k), radix) <= digits_value(s, radix),
    decreases s.len() - k,
{
    if k < s.len() {
        lemma_digits_value_take(s, radix, k + 1);
        assert(s.take(k + 1).drop_last() =~= s.take(k));
        let v = digits_value(s.take(k), radix);
        assert(v * radix >= v) by (nonlinear_arith)
            requires
                radix >= 1,
        ;
    } else {
        assert(s.take(k) =~= s);
    }
}

/// Every digit of a numeral is a digit of the radix, and the numeral denotes
/// the number.
pub proof fn lemma_numeral(n: nat, radix: nat)
    requires
        2 <= radix <= 36,
    ensures
        numeral(n, radix).len() > 0,
        all_digits(numeral(n, radix), radix),
        digits_value(numeral(n, radix), radix) == n,
        n > 0 ==> numeral(n, radix)[0] != '0',
    decreases n,
{
    let s = numeral(n, radix);
    if n < radix {
        assert(s.drop_last() =~= Seq::<char>::empty());
        reveal_with_fuel(digits_value, 2);
        assert(digit_value(digit_char(n)) == n);
        assert(0 * radix == 0);
    } else {
        let q = n / radix;
        assert(q < n && q > 0) by (nonlinear_arith)
            requires
                q == n / radix,
                n >= radix,
                radix >= 2,
        ;
        lemma_numeral(q, radix);
        let d = n % radix;
        assert(digit_value(digit_char(d)) == d);
        assert(s.drop_last() =~= numeral(q, radix));
        assert(q * radix + d == n) by (nonlinear_arith)
            requires
                q == n / radix,
                d == n % radix,
                radix >= 2,
        ;
        assert(s[0] == numeral(q, radix)[0]);
    }
}

/// A number written in decimal reads back as itself.
pub proof fn law_decimal_reads_back(n: nat, max: nat)
    requires
        n <= max,
    ensures
        parsed_number(decimal(n), 10, max) == Some(n),
{
    lemma_numeral(n, 10);
    assert(digit_value(decimal(n)[0]) < 10);
}

/// The value of a digit below the radix.
pub fn digit_of(c: char, radix: u64) -> (r: Option<u64>)
    requires
        radix <= 36,
    ensures
        match r {
            Some(d) => d == digit_value(c) && d < radix,
            None => digit_value(c) >= radix,
        },
{
    let d: u64 = if '0' <= c && c <= '9' {
        c as u64 - '0' as u64
    } else if 'a' <= c && c <= 'z' {
        c as u64 - 'a' as u64 + 10
    } else if 'A' <= c && c <= 'Z' {
        c as u64 - 'A' as u64 + 10
    } else {
        255
    };
    if d < radix {
        Some(d)
    } else {
        None
    }
}

/// The number that a list of digits denotes, where it is at most `max`.
pub fn read_digits(s: &[char], radix: u64, max: u64) -> (r: Option<u64>)
    requires
        2 <= radix <= 36,
    ensures
        r is Some <==> s@.len() > 0 && all_digits(s@, radix as nat) && digits_value(
            s@,
            radix as nat,
        ) <= max,
        r matches Some(n) ==> n == digits_value(s@, radix as nat),
{
    if s.len() == 0 {
        return None;
    }
    let mut total: u64 = 0;
    let mut i: usize = 0;
    while i < s.len()
        invariant
            i <= s@.len(),
            2 <= radix <= 36,
            total == digits_value(s@.take(i as int), radix as nat),
            total <= max,
            all_digits(s@.take(i as int), radix as nat),
        decreases s@.len() - i,
    {
        let d: u64 = match digit_of(s[i], radix) {
            Some(d) => d,
            None => {
                assert(digit_value(s@[i as int]) >= radix);
                return None;
            },
        };
        proof {
            assert(s@.take(i + 1).drop_last() =~= s@.take(i as int));
            lemma_digits_value_take(s@, radix as nat, i + 1);
        }
        let ghost exact = total * radix + d;
        assert(exact == digits_value(s@.take(i + 1), radix as nat));
        let product: u64 = match total.checked_mul(radix) {
            Some(p) => p,
            None => {
                return None;
            },
        };
        let sum: u64 = match product.checked_add(d) {
            Some(p) => p,
            None => {
                return None;
            },
        };
        if sum > max {
            return None;
        }
        assert forall|j: int| 0 <= j < i + 1 implies digit_value(#[trigger] s@.take(i + 1)[j])
            < radix by {
            if j < i {
                assert(s@.take(i + 1)[j] == s@.take(i as int)[j]);
            }
        }
        total = sum;
        i = i + 1;
    }
    assert(s@.take(s@.len() as int) =~= s@);
    Some(total)
}

/// An unsigned number as the standard library reads it.
pub fn parse_number(s: &[char], radix: u64, max: u64) -> (r: Option<u64>)
    requires
        2 <= radix <= 36,
    ensures
        match r {
            Some(n) => parsed_number(s@, radix as nat, max as nat) == Some(n as nat),
            None => parsed_number(s@, radix as nat, max as nat) is None,
        },
{
    if s.len() > 0 && s[0] == '+' {
        let digits = slice_of(s, 1, s.len());
        assert(s@.subrange(1, s@.len() as int) =~= s@.skip(1));
        read_digits(&digits, radix, max)
    } else {
        read_digits(s, radix, max)
    }
}

fn to_digit_char(d: u64) -> (r: char)
    requires
        d < 36,
    ensures
        r == digit_char(d as nat),
{
    if d < 10 {
        (48 + d) as u8 as char
    } else {
        (87 + d) as u8 as char
    }
}

/// Appends the digits of a number.
pub fn push_numeral(out: &mut String, n: u64, radix: u64)
    requires
        2 <= radix <= 36,
    ensures
        final(out)@ == old(out)@ + numeral(n as nat, radix as nat),
    decreases n,
{
    let ghost start = out@;
    if n < radix {
        out.push(to_digit_char(n));
        assert(start.push(digit_char(n as nat)) =~= start + numeral(n as nat, radix as nat));
    } else {
        proof {
            assert(n / radix < n) by (nonlinear_arith)
                requires
                    n >= radix,
                    radix >= 2,
            ;
        }
        push_numeral(out, n / radix, radix);
        out.push(to_digit_char(n % radix));
        assert((start + numeral((n / radix) as nat, radix as nat)).push(
            digit_char((n % radix) as nat),
        ) =~= start + numeral(n as nat, radix as nat));
    }
}

/// Appends the decimal digits of a number.
pub fn push_decimal(out: &mut String, n: u64)
    ensures
        final(out)@ == old(out)@ + decimal(n as nat),
{
    push_numeral(out, n, 10)
}

/// A number is read exactly if it has digits of its base only, behind one plus sign at
/// most, and does not exceed the maximum.
pub proof fn law_numbers_are_their_digits(s: Seq<char>, radix: nat, max: nat)
    ensures
        parsed_number(s, radix, max) is Some ==> parsed_number(s, radix, max)->0 <= max,
        s.len() == 0 ==> parsed_number(s, radix, max) is None,
        s.len() > 0 && s[0] != '+' ==> {
            let r = parsed_number(s, radix, max);
            &&& r is Some <==> digits_value(s, radix) <= max && forall|i: int|
                0 <= i < s.len() ==> digit_value(#[trigger] s[i]) < radix
            &&& r is Some ==> r->0 == digits_value(s, radix)
        },
        s.len() > 0 && s[0] != '+' && radix <= 36 ==> parsed_number(seq!['+'] + s, radix, max)
            == parsed_number(s, radix, max),
        s.len() > 0 && s[0] == '+' ==> parsed_number(seq!['+'] + s, radix, max) is None || radix
            > 255,
{
    let plus = seq!['+'] + s;
    assert(plus.skip(1) =~= s);
    if s.len() > 0 && s[0] == '+' && parsed_number(plus, radix, max) is Some {
        assert(digit_value(s[0]) < radix);
    }
}

/// Digits and letters of either case stand for 0 to 35, in their order.
pub proof fn law_digits_have_values(c: char)
    ensures
        '0' <= c <= '9' ==> digit_value(c) == c as int - 48,
        'a' <= c <= 'z' ==> digit_value(c) == c as int - 97 + 10,
        'A' <= c <= 'Z' ==> digit_value(c) == c as int - 65 + 10,
        digit_value(c) < 36 <==> '0' <= c <= '9' || 'a' <= c <= 'z' || 'A' <= c <= 'Z',
{
}

/// A further digit multiplies by the base and adds its value.
pub proof fn law_digits_weigh_by_position(s: Seq<char>, c: char, radix: nat)
    ensures
        digits_value(Seq::empty(), radix) == 0,
        digits_value(s.push(c), radix) == digits_value(s, radix) * radix + digit_value(c),
{
    assert(s.push(c).drop_last() =~= s);
}

/// A number is written with the digits of its base, without leading zeros.
pub proof fn law_numerals_have_no_leading_zeros(n: nat)
    ensures
        decimal(n).len() > 0,
        n > 0 ==> decimal(n)[0] != '0',
        n == 0 ==> decimal(n) == seq!['0'],
        forall|i: int| 0 <= i < decimal(n).len() ==> '0' <= (#[trigger] decimal(n)[i]) <= '9',
    decreases n,
{
    if n >= 10 {
        law_numerals_have_no_leading_zeros(n / 10);
        let t = numeral(n / 10, 10);
        assert(numeral(n, 10) == t.push(digit_char(n % 10)));
        assert forall|i: int| 0 <= i < decimal(n).len() implies '0' <= (#[trigger] decimal(n)[i])
            <= '9' by {
            if i < t.len() {
                assert(decimal(n)[i] == decimal(n / 10)[i]);
            }
        }
    }
}

} // verus!
