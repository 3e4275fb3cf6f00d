//! Byte strings of the HTTP/1 wire format.

use vstd::prelude::*;
use vstd::slice::*;
use vstd::string::*;
use vstd::utf8::*;

verus! {

/// Calls `std::str::from_utf8` and copies the text. Exactly valid UTF-8 is
/// accepted, and the text is what the bytes encode.
#[verifier::external_body]
pub(crate) fn utf8_text(bytes: &[u8]) -> (r: Option<String>)
    ensures
        match r {
            Some(text) => valid_utf8(bytes@) && text@ == decode_utf8(bytes@),
            None => !valid_utf8(bytes@),
        },
{
    match std::str::from_utf8(bytes) {
        Ok(text) => Some(text.to_owned()),
        Err(_) => None,
    }
}

/// The position of the first byte `b`, or the length where there is none.
pub open spec fn first_byte(s: Seq<u8>, b: u8) -> int
    decreases s.len(),
{
    if s.len() == 0 || s[0] == b {
        0
    } else {
        1 + first_byte(s.drop_first(), b)
    }
}

pub proof fn lemma_first_byte(s: Seq<u8>, b: u8)
    ensures
        0 <= first_byte(s, b) <= s.len(),
        first_byte(s, b) < s.len() ==> s[first_byte(s, b)] == b,
        forall|j: int| 0 <= j < first_byte(s, b) ==> s[j] != b,
    decreases s.len(),
{
    if s.len() > 0 && s[0] != b {
        let t = s.drop_first();
        lemma_first_byte(t, b);
        assert forall|j: int| 0 <= j < first_byte(s, b) implies s[j] != b by {
            if j > 0 {
                assert(s[j] == t[j - 1]);
            }
        }
        if first_byte(s, b) < s.len() {
            assert(s[first_byte(s, b)] == t[first_byte(t, b)]);
        }
    }
}

pub proof fn lemma_first_byte_unique(s: Seq<u8>, b: u8, i: int)
    requires
        0 <= i <= s.len(),
        i < s.len() ==> s[i] == b,
        forall|j: int| 0 <= j < i ==> s[j] != b,
    ensures
        first_byte(s, b) == i,
{
    lemma_first_byte(s, b);
    let k = first_byte(s, b);
    if k < i {
        assert(s[k] != b);
    } else if i < k {
        assert(s[i] != b);
    }
}

/// The line without the line ending.
pub open spec fn without_crlf(line: Seq<u8>) -> Seq<u8> {
    if line.len() >= 2 && line[line.len() - 2] == 13 && line[line.len() - 1] == 10 {
        line.take(line.len() - 2)
    } else {
        line
    }
}

pub open spec fn ends_with_crlf(line: Seq<u8>) -> bool {
    line.len() >= 2 && line[line.len() - 2] == 13 && line[line.len() - 1] == 10
}

/// ASCII bytes as characters.
pub open spec fn byte_chars(s: Seq<u8>) -> Seq<char> {
    s.map_values(|b: u8| b as char)
}

pub fn find_byte(s: &[u8], b: u8) -> (r: Option<usize>)
    ensures
        match r {
            Some(i) => i < s@.len() && i == first_byte(s@, b),
            None => first_byte(s@, b) == s@.len(),
        },
        s@.len() <= usize::MAX,
{
    let mut i: usize = 0;
    while i < s.len()
        invariant
            i <= s@.len(),
            forall|j: int| 0 <= j < i ==> s@[j] != b,
        decreases s@.len() - i,
    {
        if s[i] == b {
            proof {
                lemma_first_byte_unique(s@, b, i as int);
            }
            return Some(i);
        }
        i = i + 1;
    }
    proof {
        lemma_first_byte_unique(s@, b, s@.len() as int);
    }
    None
}

/// The line without the line ending.
pub fn strip_crlf(line: &[u8]) -> (r: &[u8])
    ensures
        r@ == without_crlf(line@),
{
    let n: usize = line.len();
    if n >= 2 && line[n - 2] == 13 && line[n - 1] == 10 {
        slice_subrange(line, 0, n - 2)
    } else {
        line
    }
}

pub fn is_crlf_terminated(line: &[u8]) -> (r: bool)
    ensures
        r == ends_with_crlf(line@),
{
    let n: usize = line.len();
    n >= 2 && line[n - 2] == 13 && line[n - 1] == 10
}

/// A copy of the bytes from `from` up to `to`.
pub fn copy_bytes(s: &[u8], from: usize, to: usize) -> (r: Vec<u8>)
    requires
        from <= to <= s@.len(),
    ensures
        r@ == s@.subrange(from as int, to as int),
{
    slice_to_vec(slice_subrange(s, from, to))
}

pub fn same_bytes(a: &[u8], b: &[u8]) -> (r: bool)
    ensures
        r == (a@ == b@),
{
    if a.len() != b.len() {
        return false;
    }
    let mut i: usize = 0;
    while i < a.len()
        invariant
            i <= a@.len(),
            a@.len() == b@.len(),
            forall|j: int| 0 <= j < i ==> a@[j] == b@[j],
        decreases a@.len() - i,
    {
        if a[i] != b[i] {
            assert(a@[i as int] != b@[i as int]);
            return false;
        }
        i = i + 1;
    }
    assert(a@ =~= b@);
    true
}

/// The characters of bytes, one for one.
pub fn chars_of_bytes(s: &[u8]) -> (r: Vec<char>)
    ensures
        r@ == byte_chars(s@),
{
    let mut out: Vec<char> = Vec::new();
    let mut i: usize = 0;
    while i < s.len()
        invariant
            i <= s@.len(),
            out@.len() == i,
            forall|j: int| 0 <= j < i ==> out@[j] == s@[j] as char,
        decreases s@.len() - i,
    {
        out.push(s[i] as char);
        i = i + 1;
    }
    assert(out@ =~= byte_chars(s@));
    out
}

} // verus!
