//! Universally unique identifiers as 128-bit numbers and as text.

use crate::number::{all_digits, digit_char, digits_value};
use crate::text::{lower, same_ignoring_case};
use vstd::prelude::*;
use vstd::string::*;

verus! {

/// The low `n` hexadecimal digits of a number, in lower case.
pub open spec fn hex_digits(id: nat, n: nat) -> Seq<char>
    decreases n,
{
    if n == 0 {
        Seq::empty()
    } else {
        hex_digits(id / 16, (n - 1) as nat).push(digit_char(id % 16))
    }
}

/// The 32 digits in groups of 8, 4, 4, 4 and 12, separated by hyphens.
pub open spec fn hyphenated(id: u128) -> Seq<char> {
    let h = hex_digits(id as nat, 32);
    h.subrange(0, 8) + seq!['-'] + h.subrange(8, 12) + seq!['-'] + h.subrange(12, 16) + seq!['-']
        + h.subrange(16, 20) + seq!['-'] + h.subrange(20, 32)
}

/// The 32 characters of the hyphenated form without its hyphens.
pub open spec fn without_hyphens(s: Seq<char>) -> Option<Seq<char>> {
    if s.len() == 36 && s[8] == '-' && s[13] == '-' && s[18] == '-' && s[23] == '-' {
        Some(
            s.subrange(0, 8) + s.subrange(9, 13) + s.subrange(14, 18) + s.subrange(19, 23)
                + s.subrange(24, 36),
        )
    } else {
        None
    }
}

/// The digits of an identifier: bare, hyphenated, in braces or as a URN.
pub open spec fn identifier_digits(s: Seq<char>) -> Option<Seq<char>> {
    if s.len() == 32 {
        Some(s)
    } else if s.len() == 36 {
        without_hyphens(s)
    } else if s.len() == 38 && s[0] == '{' && s[37] == '}' {
        without_hyphens(s.subrange(1, 37))
    } else if s.len() == 45 && same_ignoring_case(s.take(9), "urn:uuid:"@) {
        without_hyphens(s.skip(9))
    } else {
        None
    }
}

/// The identifier that a text denotes.
pub open spec fn uuid_of(s: Seq<char>) -> Option<u128> {
    match identifier_digits(s) {
        Some(digits) => if all_digits(digits, 16) {
            Some(digits_value(digits, 16) as u128)
        } else {
            None
        },
        None => None,
    }
}

/// The layout of a random identifier: version 4, variant 1.
pub open spec fn random_layout(id: u128) -> bool {
    (id / 0x1000_0000_0000_0000_0000) % 16 == 4 && (id / 0x4000_0000_0000_0000) % 4 == 2
}

/// Calls `uuid::Uuid::new_v4`. Of the random number only the version and
/// variant bits are certain; that numbers do not repeat is not stated.
#[verifier::external_body]
pub(crate) fn new_uuid() -> (r: u128)
    ensures
        random_layout(r),
{
    uuid::Uuid::new_v4().as_u128()
}

/// Calls `to_string` on a `uuid::Uuid`, which writes the hyphenated form.
#[verifier::external_body]
pub(crate) fn uuid_text(id: u128) -> (r: String)
    ensures
        r@ == hyphenated(id),
{
    uuid::Uuid::from_u128(id).to_string()
}

/// What `uuid::Uuid::parse_str` says of a text that denotes no identifier.
pub uninterp spec fn uuid_error(text: Seq<char>) -> Seq<char>;

/// Calls `uuid::Uuid::parse_str`, which accepts the forms of
/// [`identifier_digits`] with digits in either case. The text of its error is
/// only named.
#[verifier::external_body]
pub(crate) fn parse_uuid(text: &str) -> (r: Result<u128, String>)
    ensures
        match uuid_of(text@) {
            Some(id) => r is Ok && r->Ok_0 == id,
            None => r is Err && r->Err_0@ == uuid_error(text@),
        },
{
    match uuid::Uuid::parse_str(text) {
        Ok(id) => Ok(id.as_u128()),
        Err(error) => Err(error.to_string()),
    }
}

proof fn lemma_hex_digits(id: nat, n: nat)
    ensures
        hex_digits(id, n).len() == n,
        all_digits(hex_digits(id, n), 16),
        digits_value(hex_digits(id, n), 16) == id % vstd::arithmetic::power::pow(16, n) as nat,
    decreases n,
{
    use_power(n);
    if n == 0 {
        assert(hex_digits(id, n) =~= Seq::empty());
        assert(id % 1 == 0);
    } else {
        let m = (n - 1) as nat;
        lemma_hex_digits(id / 16, m);
        use_power(m);
        let h = hex_digits(id / 16, m);
        let s = hex_digits(id, n);
        assert(s.drop_last() =~= h);
        assert(crate::number::digit_value(digit_char(id % 16)) == id % 16);
        let p = vstd::arithmetic::power::pow(16, m) as nat;
        vstd::arithmetic::div_mod::lemma_mod_breakdown(id as int, 16, p as int);
    }
}

proof fn use_power(n: nat)
    ensures
        vstd::arithmetic::power::pow(16, n) > 0,
        n == 0 ==> vstd::arithmetic::power::pow(16, n) == 1,
        n > 0 ==> vstd::arithmetic::power::pow(16, n) == 16 * vstd::arithmetic::power::pow(
            16,
            (n - 1) as nat,
        ),
{
    vstd::arithmetic::power::lemma_pow_positive(16, n);
    reveal(vstd::arithmetic::power::pow);
}

/// An identifier reads back from its written form.
pub proof fn law_written_identifier_reads_back(id: u128)
    ensures
        uuid_of(hyphenated(id)) == Some(id),
{
    let h = hex_digits(id as nat, 32);
    lemma_hex_digits(id as nat, 32);
    let s = hyphenated(id);
    assert(s.len() == 36);
    assert(without_hyphens(s)->0 =~= h);
    assert(vstd::arithmetic::power::pow(16, 32) > u128::MAX) by {
        vstd::arithmetic::power::lemma_pow_adds(16, 16, 16);
        vstd::arithmetic::power::lemma_pow_adds(16, 8, 8);
        vstd::arithmetic::power::lemma_pow_adds(16, 4, 4);
        assert(vstd::arithmetic::power::pow(16, 4) == 65536) by {
            use_power(4);
            use_power(3);
            use_power(2);
            use_power(1);
            use_power(0);
        }
        assert(65536 * 65536 == 4294967296int);
        assert(4294967296int * 4294967296int == 18446744073709551616int);
        assert(18446744073709551616int * 18446744073709551616int
            == 340282366920938463463374607431768211456int);
    }
    assert((id as nat) % (vstd::arithmetic::power::pow(16, 32) as nat) == id as nat) by {
        vstd::arithmetic::div_mod::lemma_small_mod(
            id as nat,
            vstd::arithmetic::power::pow(16, 32) as nat,
        );
    }
}

/// An identifier is written as 36 characters in lower-case hexadecimal, in groups of 8,
/// 4, 4, 4 and 12.
pub proof fn law_identifiers_are_written_in_groups(id: u128, i: int)
    ensures
        ({
            let s = hyphenated(id);
            &&& s.len() == 36
            &&& s[8] == '-' && s[13] == '-' && s[18] == '-' && s[23] == '-'
            &&& 0 <= i < 36 && i != 8 && i != 13 && i != 18 && i != 23 ==> '0' <= s[i] <= '9' || 'a'
                <= s[i] <= 'f'
        }),
{
    let h = hex_digits(id as nat, 32);
    lemma_hex_shape(id as nat, 32);
    let s = hyphenated(id);
    assert(s.len() == 36);
    if 0 <= i < 36 && i != 8 && i != 13 && i != 18 && i != 23 {
        let j = if i < 8 {
            i
        } else if i < 13 {
            i - 1
        } else if i < 18 {
            i - 2
        } else if i < 23 {
            i - 3
        } else {
            i - 4
        };
        assert(s[i] == h[j]);
    }
}

proof fn lemma_hex_shape(id: nat, n: nat)
    ensures
        hex_digits(id, n).len() == n,
        forall|i: int|
            0 <= i < n ==> '0' <= (#[trigger] hex_digits(id, n)[i]) <= '9' || 'a' <= hex_digits(
                id,
                n,
            )[i] <= 'f',
    decreases n,
{
    if n > 0 {
        lemma_hex_shape(id / 16, (n - 1) as nat);
        let t = hex_digits(id / 16, (n - 1) as nat);
        assert forall|i: int| 0 <= i < n implies '0' <= (#[trigger] hex_digits(id, n)[i]) <= '9'
            || 'a' <= hex_digits(id, n)[i] <= 'f' by {
            if i < n - 1 {
                assert(hex_digits(id, n)[i] == t[i]);
            }
        }
    }
}

/// An identifier is read plain, with hyphens, in braces or as a name of its own, and
/// from nothing else.
pub proof fn law_identifiers_are_read_in_four_forms(s: Seq<char>)
    ensures
        uuid_of(s) is Some ==> s.len() == 32 || s.len() == 36 || s.len() == 38 || s.len() == 45,
        uuid_of(s) is Some && s.len() == 36 ==> s[8] == '-' && s[13] == '-' && s[18] == '-'
            && s[23] == '-',
        uuid_of(s) is Some && s.len() == 38 ==> s[0] == '{' && s[37] == '}' && uuid_of(s)
            == uuid_of(s.subrange(1, 37)),
        uuid_of(s) is Some && s.len() == 45 ==> lower(s.take(9)) == "urn:uuid:"@ && uuid_of(s)
            == uuid_of(s.skip(9)),
        s.len() == 32 && all_digits(s, 16) ==> uuid_of(s) == Some(digits_value(s, 16) as u128),
{
    reveal_strlit("urn:uuid:");
    assert(lower("urn:uuid:"@) =~= "urn:uuid:"@);
}

} // verus!
