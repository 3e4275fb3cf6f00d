//! Character-level text operations shared by the parsers and validators.
//!
//! Texts are modelled as sequences of characters. Every operation here states
//! its result over that model, so the modules that parse host names, header
//! fields or addresses can quote the same definitions in their contracts.

use vstd::prelude::*;
use vstd::string::*;
use vstd::utf8::*;

verus! {

/// `String::push` of the standard library appends one character.
pub assume_specification[ String::push ](s: &mut String, c: char)
    ensures
        final(s)@ == old(s)@.push(c),
;

// ---------------------------------------------------------------------------
// Character classes
// ---------------------------------------------------------------------------

/// The Unicode `White_Space` property.
pub open spec fn white_space(c: char) -> bool {
    ||| c == ' '
    ||| '\u{9}' <= c <= '\u{d}'
    ||| c == '\u{85}'
    ||| c == '\u{a0}'
    ||| c == '\u{1680}'
    ||| '\u{2000}' <= c <= '\u{200a}'
    ||| c == '\u{2028}'
    ||| c == '\u{2029}'
    ||| c == '\u{202f}'
    ||| c == '\u{205f}'
    ||| c == '\u{3000}'
}

/// The Unicode general category `Cc`.
pub open spec fn control(c: char) -> bool {
    ||| c <= '\u{1f}'
    ||| '\u{7f}' <= c <= '\u{9f}'
}

/// ASCII control characters.
pub open spec fn ascii_control(c: char) -> bool {
    c <= '\u{1f}' || c == '\u{7f}'
}

/// ASCII white space: space, tab, line feed, form feed and carriage return.
pub open spec fn ascii_white_space(c: char) -> bool {
    c == ' ' || c == '\t' || c == '\n' || c == '\u{c}' || c == '\r'
}

pub open spec fn ascii_digit(c: char) -> bool {
    '0' <= c <= '9'
}

pub open spec fn ascii_upper(c: char) -> bool {
    'A' <= c <= 'Z'
}

pub open spec fn ascii_alphanumeric(c: char) -> bool {
    ascii_digit(c) || ascii_upper(c) || 'a' <= c <= 'z'
}

/// ASCII upper case folded to lower case, every other character kept.
pub open spec fn lower_char(c: char) -> char {
    if ascii_upper(c) {
        ((c as u8) + 32) as u8 as char
    } else {
        c
    }
}

pub fn is_white_space(c: char) -> (r: bool)
    ensures
        r == white_space(c),
{
    c == ' ' || ('\u{9}' <= c && c <= '\u{d}') || c == '\u{85}' || c == '\u{a0}' || c == '\u{1680}'
        || ('\u{2000}' <= c && c <= '\u{200a}') || c == '\u{2028}' || c == '\u{2029}' || c
        == '\u{202f}' || c == '\u{205f}' || c == '\u{3000}'
}

pub fn is_control(c: char) -> (r: bool)
    ensures
        r == control(c),
{
    c <= '\u{1f}' || ('\u{7f}' <= c && c <= '\u{9f}')
}

pub fn is_ascii_control(c: char) -> (r: bool)
    ensures
        r == ascii_control(c),
{
    c <= '\u{1f}' || c == '\u{7f}'
}

pub fn is_ascii_white_space(c: char) -> (r: bool)
    ensures
        r == ascii_white_space(c),
{
    c == ' ' || c == '\t' || c == '\n' || c == '\u{c}' || c == '\r'
}

pub fn is_ascii_digit(c: char) -> (r: bool)
    ensures
        r == ascii_digit(c),
{
    '0' <= c && c <= '9'
}

pub fn is_ascii_upper(c: char) -> (r: bool)
    ensures
        r == ascii_upper(c),
{
    'A' <= c && c <= 'Z'
}

pub fn is_ascii_alphanumeric(c: char) -> (r: bool)
    ensures
        r == ascii_alphanumeric(c),
{
    is_ascii_digit(c) || is_ascii_upper(c) || ('a' <= c && c <= 'z')
}

pub fn to_lower_char(c: char) -> (r: char)
    ensures
        r == lower_char(c),
{
    if 'A' <= c && c <= 'Z' {
        (c as u8 + 32) as char
    } else {
        c
    }
}

// ---------------------------------------------------------------------------
// Models of the text operations
// ---------------------------------------------------------------------------

pub open spec fn trim_start(s: Seq<char>) -> Seq<char>
    decreases s.len(),
{
    if s.len() > 0 && white_space(s[0]) {
        trim_start(s.drop_first())
    } else {
        s
    }
}

pub open spec fn trim_end(s: Seq<char>) -> Seq<char>
    decreases s.len(),
{
    if s.len() > 0 && white_space(s.last()) {
        trim_end(s.drop_last())
    } else {
        s
    }
}

/// The text without leading and trailing white space.
pub open spec fn trim(s: Seq<char>) -> Seq<char> {
    trim_end(trim_start(s))
}

/// The text without its trailing run of `c`.
pub open spec fn trim_end_char(s: Seq<char>, c: char) -> Seq<char>
    decreases s.len(),
{
    if s.len() > 0 && s.last() == c {
        trim_end_char(s.drop_last(), c)
    } else {
        s
    }
}

/// The text with ASCII letters in lower case.
pub open spec fn lower(s: Seq<char>) -> Seq<char> {
    s.map_values(|c: char| lower_char(c))
}

/// Whether two texts agree up to the case of ASCII letters.
pub open spec fn same_ignoring_case(a: Seq<char>, b: Seq<char>) -> bool {
    lower(a) == lower(b)
}

/// The position of the first `c`, or the length of the text where there is none.
pub open spec fn first_index(s: Seq<char>, c: char) -> int
    decreases s.len(),
{
    if s.len() == 0 || s[0] == c {
        0
    } else {
        1 + first_index(s.drop_first(), c)
    }
}

/// The position of the last `c`, or -1 where there is none.
pub open spec fn last_index(s: Seq<char>, c: char) -> int
    decreases s.len(),
{
    if s.len() == 0 {
        -1
    } else if s.last() == c {
        s.len() - 1
    } else {
        last_index(s.drop_last(), c)
    }
}

/// The texts between the occurrences of `sep`, in order; never empty.
pub open spec fn pieces(s: Seq<char>, sep: char) -> Seq<Seq<char>>
    decreases s.len(),
{
    let i = first_index(s, sep);
    if 0 <= i < s.len() {
        seq![s.take(i)] + pieces(s.skip(i + 1), sep)
    } else {
        seq![s]
    }
}

/// The number of bytes of `c` in UTF-8.
pub open spec fn utf8_width(c: char) -> nat {
    if c <= '\u{7f}' {
        1
    } else if c <= '\u{7ff}' {
        2
    } else if c <= '\u{ffff}' {
        3
    } else {
        4
    }
}

/// The number of bytes of the text in UTF-8.
pub open spec fn utf8_len(s: Seq<char>) -> nat
    decreases s.len(),
{
    if s.len() == 0 {
        0
    } else {
        utf8_len(s.drop_last()) + utf8_width(s.last())
    }
}

/// Whether every character of the text is ASCII.
pub open spec fn all_ascii(s: Seq<char>) -> bool {
    forall|i: int| 0 <= i < s.len() ==> s[i] <= '\u{7f}'
}

pub open spec fn starts_with(s: Seq<char>, prefix: Seq<char>) -> bool {
    s.len() >= prefix.len() && s.take(prefix.len() as int) == prefix
}

pub open spec fn ends_with(s: Seq<char>, suffix: Seq<char>) -> bool {
    s.len() >= suffix.len() && s.skip(s.len() - suffix.len()) == suffix
}

/// The views of a list of character vectors.
pub open spec fn texts(v: Seq<Vec<char>>) -> Seq<Seq<char>> {
    v.map_values(|t: Vec<char>| t@)
}

/// The views of a list of strings.
pub open spec fn string_views(v: Seq<String>) -> Seq<Seq<char>> {
    v.map_values(|t: String| t@)
}

/// The view of an optional string.
pub open spec fn opt_view(v: Option<String>) -> Option<Seq<char>> {
    match v {
        Some(t) => Some(t@),
        None => None,
    }
}

// ---------------------------------------------------------------------------
// Lemmas about the models
// ---------------------------------------------------------------------------

pub proof fn lemma_first_index(s: Seq<char>, c: char)
    ensures
        0 <= first_index(s, c) <= s.len(),
        first_index(s, c) < s.len() ==> s[first_index(s, c)] == c,
        forall|j: int| 0 <= j < first_index(s, c) ==> s[j] != c,
        first_index(s, c) < s.len() <==> s.contains(c),
    decreases s.len(),
{
    if s.len() == 0 || s[0] == c {
        if s.len() > 0 {
            assert(s.contains(s[0]));
        }
    } else {
        let t = s.drop_first();
        lemma_first_index(t, c);
        assert forall|j: int| 0 <= j < first_index(s, c) implies s[j] != c by {
            if j > 0 {
                assert(s[j] == t[j - 1]);
            }
        }
        if first_index(s, c) < s.len() {
            assert(s[first_index(s, c)] == t[first_index(t, c)]);
        } else if s.contains(c) {
            let j = choose|j: int| 0 <= j < s.len() && s[j] == c;
            assert(s[j] == c);
        }
    }
}

pub proof fn lemma_first_index_unique(s: Seq<char>, c: char, i: int)
    requires
        0 <= i <= s.len(),
        i < s.len() ==> s[i] == c,
        forall|j: int| 0 <= j < i ==> s[j] != c,
    ensures
        first_index(s, c) == i,
{
    lemma_first_index(s, c);
    let k = first_index(s, c);
    if k < i {
        assert(s[k] != c);
    } else if i < k {
        assert(s[i] != c);
    }
}

pub proof fn lemma_last_index(s: Seq<char>, c: char)
    ensures
        -1 <= last_index(s, c) < s.len(),
        last_index(s, c) >= 0 ==> s[last_index(s, c)] == c,
        forall|j: int| last_index(s, c) < j < s.len() ==> s[j] != c,
        last_index(s, c) >= 0 <==> s.contains(c),
    decreases s.len(),
{
    if s.len() == 0 {
    } else if s.last() == c {
        assert(s.contains(s[s.len() - 1]));
    } else {
        let t = s.drop_last();
        lemma_last_index(t, c);
        assert forall|j: int| last_index(s, c) < j < s.len() implies s[j] != c by {
            if j < s.len() - 1 {
                assert(s[j] == t[j]);
            }
        }
        if last_index(s, c) >= 0 {
            assert(s[last_index(s, c)] == t[last_index(t, c)]);
        } else if s.contains(c) {
            let j = choose|j: int| 0 <= j < s.len() && s[j] == c;
            assert(s[j] == c);
        }
    }
}

pub proof fn lemma_last_index_unique(s: Seq<char>, c: char, i: int)
    requires
        -1 <= i < s.len(),
        i >= 0 ==> s[i] == c,
        forall|j: int| i < j < s.len() ==> s[j] != c,
    ensures
        last_index(s, c) == i,
{
    lemma_last_index(s, c);
    let k = last_index(s, c);
    if k < i {
        assert(s[i] != c);
    } else if i < k {
        assert(s[k] != c);
    }
}

pub proof fn lemma_trim_start_skip(s: Seq<char>, k: int)
    requires
        0 <= k <= s.len(),
        forall|j: int| 0 <= j < k ==> white_space(s[j]),
    ensures
        trim_start(s) == trim_start(s.skip(k)),
    decreases k,
{
    if k == 0 {
        assert(s.skip(0) =~= s);
    } else {
        let t = s.drop_first();
        assert forall|j: int| 0 <= j < k - 1 implies white_space(t[j]) by {
            assert(t[j] == s[j + 1]);
        }
        lemma_trim_start_skip(t, k - 1);
        assert(t.skip(k - 1) =~= s.skip(k));
    }
}

pub proof fn lemma_trim_end_take(s: Seq<char>, k: int)
    requires
        0 <= k <= s.len(),
        forall|j: int| k <= j < s.len() ==> white_space(s[j]),
    ensures
        trim_end(s) == trim_end(s.take(k)),
    decreases s.len() - k,
{
    if k == s.len() {
        assert(s.take(k) =~= s);
    } else {
        let t = s.drop_last();
        assert forall|j: int| k <= j < t.len() implies white_space(t[j]) by {
            assert(t[j] == s[j]);
        }
        lemma_trim_end_take(t, k);
        assert(t.take(k) =~= s.take(k));
    }
}

/// Trimming gives a piece of the text that neither begins nor ends with white
/// space.
pub proof fn lemma_trim_shape(s: Seq<char>)
    ensures
        trim(s).len() <= s.len(),
        trim(s).len() > 0 ==> !white_space(trim(s)[0]) && !white_space(trim(s).last()),
        exists|a: int, b: int| 0 <= a <= b <= s.len() && trim(s) == s.subrange(a, b),
{
    lemma_trim_start_shape(s);
    let a = s.len() - trim_start(s).len();
    let t = trim_start(s);
    lemma_trim_end_shape(t);
    let u = trim(s);
    assert(u == t.take(u.len() as int));
    assert(s.skip(a).take(u.len() as int) =~= s.subrange(a, a + u.len()));
    if u.len() > 0 {
        assert(u[0] == t[0]);
    }
}

proof fn lemma_trim_start_keeps(s: Seq<char>, i: int)
    requires
        0 <= i < s.len(),
        !white_space(s[i]),
    ensures
        exists|k: int| 0 <= k < trim_start(s).len() && trim_start(s)[k] == s[i],
    decreases s.len(),
{
    if white_space(s[0]) {
        let rest = s.drop_first();
        assert(rest[i - 1] == s[i]);
        lemma_trim_start_keeps(rest, i - 1);
        let k = choose|k: int| 0 <= k < trim_start(rest).len() && trim_start(rest)[k] == rest[i - 1];
        assert(trim_start(s) == trim_start(rest));
        assert(trim_start(s)[k] == s[i]);
    } else {
        assert(trim_start(s)[i] == s[i]);
    }
}

proof fn lemma_trim_end_keeps(s: Seq<char>, i: int)
    requires
        0 <= i < s.len(),
        !white_space(s[i]),
    ensures
        exists|k: int| 0 <= k < trim_end(s).len() && trim_end(s)[k] == s[i],
    decreases s.len(),
{
    if white_space(s.last()) {
        let rest = s.drop_last();
        assert(rest[i] == s[i]);
        lemma_trim_end_keeps(rest, i);
        let k = choose|k: int| 0 <= k < trim_end(rest).len() && trim_end(rest)[k] == rest[i];
        assert(trim_end(s) == trim_end(rest));
        assert(trim_end(s)[k] == s[i]);
    } else {
        assert(trim_end(s)[i] == s[i]);
    }
}

/// Trimming keeps what is not white space.
pub proof fn lemma_trim_keeps(s: Seq<char>, i: int)
    requires
        0 <= i < s.len(),
        !white_space(s[i]),
    ensures
        exists|k: int| 0 <= k < trim(s).len() && trim(s)[k] == s[i],
{
    lemma_trim_start_keeps(s, i);
    let t = trim_start(s);
    let k = choose|k: int| 0 <= k < t.len() && t[k] == s[i];
    lemma_trim_end_keeps(t, k);
    let j = choose|j: int| 0 <= j < trim_end(t).len() && trim_end(t)[j] == t[k];
    assert(trim(s)[j] == s[i]);
}

/// A text that neither begins nor ends with white space is its own trim.
pub proof fn lemma_trim_fixed(s: Seq<char>)
    requires
        s.len() > 0 ==> !white_space(s[0]) && !white_space(s.last()),
    ensures
        trim(s) == s,
{
}

/// Trimming twice is trimming once.
pub proof fn lemma_trim_idempotent(s: Seq<char>)
    ensures
        trim(trim(s)) == trim(s),
{
    lemma_trim_shape(s);
    lemma_trim_fixed(trim(s));
}

/// Lower-casing twice is lower-casing once.
pub proof fn lemma_lower_idempotent(s: Seq<char>)
    ensures
        lower(lower(s)) == lower(s),
        lower(s).len() == s.len(),
{
    assert(lower(lower(s)) =~= lower(s));
}

pub proof fn lemma_utf8_len_bounds(s: Seq<char>)
    ensures
        s.len() <= utf8_len(s) <= 4 * s.len(),
    decreases s.len(),
{
    if s.len() > 0 {
        lemma_utf8_len_bounds(s.drop_last());
    }
}

pub proof fn lemma_utf8_len_mono(s: Seq<char>, k: int)
    requires
        0 <= k <= s.len(),
    ensures
        utf8_len(s.take(k)) <= utf8_len(s),
    decreases s.len() - k,
{
    if k < s.len() {
        lemma_utf8_len_mono(s, k + 1);
        assert(s.take(k + 1).drop_last() =~= s.take(k));
    } else {
        assert(s.take(k) =~= s);
    }
}

pub proof fn lemma_utf8_len_ascii(s: Seq<char>)
    requires
        all_ascii(s),
    ensures
        utf8_len(s) == s.len(),
    decreases s.len(),
{
    if s.len() > 0 {
        assert(all_ascii(s.drop_last()));
        lemma_utf8_len_ascii(s.drop_last());
    }
}

pub proof fn lemma_utf8_len_concat(a: Seq<char>, b: Seq<char>)
    ensures
        utf8_len(a + b) == utf8_len(a) + utf8_len(b),
    decreases b.len(),
{
    if b.len() == 0 {
        assert(a + b =~= a);
    } else {
        lemma_utf8_len_concat(a, b.drop_last());
        assert((a + b).drop_last() =~= a + b.drop_last());
    }
}

proof fn lemma_scalar_width(c: char)
    ensures
        encode_scalar(c as u32).len() == utf8_width(c),
{
    char_is_scalar(c);
}

/// The byte length counted per character is the length of the UTF-8 encoding.
pub proof fn lemma_utf8_len_is_encoding(s: Seq<char>)
    ensures
        utf8_len(s) == encode_utf8(s).len(),
    decreases s.len(),
{
    if s.len() > 0 {
        let t = s.drop_first();
        lemma_utf8_len_is_encoding(t);
        lemma_utf8_len_concat(seq![s[0]], t);
        assert(seq![s[0]] + t =~= s);
        assert(seq![s[0]].drop_last() =~= Seq::<char>::empty());
        reveal_with_fuel(utf8_len, 2);
        lemma_scalar_width(s[0]);
    }
}

/// A text without the separator is its only piece.
pub proof fn lemma_pieces_single(s: Seq<char>, sep: char)
    requires
        !s.contains(sep),
    ensures
        pieces(s, sep) == seq![s],
{
    lemma_first_index(s, sep);
}

// ---------------------------------------------------------------------------
// Executable operations
// ---------------------------------------------------------------------------

/// The characters of a text.
pub fn chars_of(s: &str) -> (r: Vec<char>)
    ensures
        r@ == s@,
{
    let mut out: Vec<char> = Vec::new();
    for c in it: s.chars()
        invariant
            it.seq() == s@,
            out@ == s@.take(it.index() as int),
    {
        assert(s@.take(it.index() as int).push(c) =~= s@.take(it.index() + 1));
        out.push(c);
    }
    assert(s@.take(s@.len() as int) =~= s@);
    out
}

/// The text with the given characters.
pub fn string_of(s: &[char]) -> (r: String)
    ensures
        r@ == s@,
{
    let mut out = String::new();
    for i in 0..s.len()
        invariant
            out@ == s@.take(i as int),
    {
        out.push(s[i]);
        assert(s@.take(i as int).push(s@[i as int]) =~= s@.take(i + 1));
    }
    assert(s@.take(s@.len() as int) =~= s@);
    out
}

/// A copy of the characters from `from` up to `to`.
pub fn slice_of(s: &[char], from: usize, to: usize) -> (r: Vec<char>)
    requires
        from <= to <= s@.len(),
    ensures
        r@ == s@.subrange(from as int, to as int),
{
    let mut out: Vec<char> = Vec::new();
    let mut i: usize = from;
    while i < to
        invariant
            from <= i <= to <= s@.len(),
            out@ == s@.subrange(from as int, i as int),
        decreases to - i,
    {
        out.push(s[i]);
        assert(s@.subrange(from as int, i as int).push(s@[i as int]) =~= s@.subrange(
            from as int,
            i + 1,
        ));
        i = i + 1;
    }
    out
}

/// Whether two character lists are equal.
pub fn same_chars(a: &[char], b: &[char]) -> (r: bool)
    ensures
        r == (a@ == b@),
{
    if a.len() != b.len() {
        return false;
    }
    let mut i: usize = 0;
    while i < a.len()
        invariant
            i <= a@.len(),
            a@.len() == b@.len(),
            forall|j: int| 0 <= j < i ==> a@[j] == b@[j],
        decreases a@.len() - i,
    {
        if a[i] != b[i] {
            assert(a@[i as int] != b@[i as int]);
            return false;
        }
        i = i + 1;
    }
    assert(a@ =~= b@);
    true
}

/// Whether two texts are equal.
pub fn same_text(a: &str, b: &str) -> (r: bool)
    ensures
        r == (a@ == b@),
{
    a.to_owned() == b.to_owned()
}

/// Whether the characters spell the given text.
pub fn chars_are(a: &[char], b: &str) -> (r: bool)
    ensures
        r == (a@ == b@),
{
    let other = chars_of(b);
    same_chars(a, &other)
}

/// Whether two optional strings are equal.
pub fn same_optional(a: &Option<String>, b: &Option<String>) -> (r: bool)
    ensures
        r == (opt_view(*a) == opt_view(*b)),
{
    match (a, b) {
        (None, None) => true,
        (Some(x), Some(y)) => *x == *y,
        _ => false,
    }
}

pub fn has_char(s: &[char], c: char) -> (r: bool)
    ensures
        r == s@.contains(c),
{
    find(s, c).is_some()
}

/// The position of the first `c`.
pub fn find(s: &[char], c: char) -> (r: Option<usize>)
    ensures
        match r {
            Some(i) => i < s@.len() && i == first_index(s@, c) && s@[i as int] == c,
            None => first_index(s@, c) == s@.len(),
        },
        r is Some <==> s@.contains(c),
        s@.len() <= usize::MAX,
{
    let mut i: usize = 0;
    while i < s.len()
        invariant
            i <= s@.len(),
            forall|j: int| 0 <= j < i ==> s@[j] != c,
        decreases s@.len() - i,
    {
        if s[i] == c {
            proof {
                lemma_first_index_unique(s@, c, i as int);
                assert(s@.contains(s@[i as int]));
            }
            return Some(i);
        }
        i = i + 1;
    }
    proof {
        lemma_first_index_unique(s@, c, s@.len() as int);
        lemma_first_index(s@, c);
    }
    None
}

/// The position of the last `c`.
pub fn rfind(s: &[char], c: char) -> (r: Option<usize>)
    ensures
        match r {
            Some(i) => i < s@.len() && i == last_index(s@, c) && s@[i as int] == c,
            None => last_index(s@, c) == -1,
        },
        r is Some <==> s@.contains(c),
        s@.len() <= usize::MAX,
{
    let mut i: usize = s.len();
    while i > 0
        invariant
            i <= s@.len(),
            forall|j: int| i <= j < s@.len() ==> s@[j] != c,
        decreases i,
    {
        i = i - 1;
        if s[i] == c {
            proof {
                lemma_last_index_unique(s@, c, i as int);
                assert(s@.contains(s@[i as int]));
            }
            return Some(i);
        }
    }
    proof {
        lemma_last_index_unique(s@, c, -1);
        lemma_last_index(s@, c);
    }
    None
}

/// The texts between the occurrences of `sep`.
pub fn split(s: &[char], sep: char) -> (r: Vec<Vec<char>>)
    ensures
        texts(r@) == pieces(s@, sep),
        r@.len() >= 1,
{
    let mut out: Vec<Vec<char>> = Vec::new();
    let mut start: usize = 0;
    let mut i: usize = 0;
    assert(s@.skip(0) =~= s@);
    assert(texts(out@) =~= Seq::<Seq<char>>::empty());
    assert(Seq::<Seq<char>>::empty() + pieces(s@, sep) =~= pieces(s@, sep));
    while i < s.len()
        invariant
            start <= i <= s@.len(),
            forall|j: int| start <= j < i ==> s@[j] != sep,
            texts(out@) + pieces(s@.skip(start as int), sep) == pieces(s@, sep),
        decreases s@.len() - i,
    {
        if s[i] == sep {
            let piece = slice_of(s, start, i);
            proof {
                let rest = s@.skip(start as int);
                assert forall|j: int| 0 <= j < i - start implies rest[j] != sep by {
                    assert(rest[j] == s@[start + j]);
                }
                lemma_first_index_unique(rest, sep, i - start);
                assert(rest.take(i - start) =~= piece@);
                assert(rest.skip(i - start + 1) =~= s@.skip(i + 1));
                assert(pieces(rest, sep) == seq![piece@] + pieces(s@.skip(i + 1), sep));
                assert(texts(out@.push(piece)) =~= texts(out@).push(piece@));
                assert(texts(out@).push(piece@) + pieces(s@.skip(i + 1), sep) =~= texts(out@) + (
                seq![piece@] + pieces(s@.skip(i + 1), sep)));
            }
            out.push(piece);
            start = i + 1;
        }
        i = i + 1;
    }
    let last = slice_of(s, start, s.len());
    proof {
        let rest = s@.skip(start as int);
        assert(rest =~= last@);
        assert forall|j: int| 0 <= j < rest.len() implies rest[j] != sep by {
            assert(rest[j] == s@[start + j]);
        }
        lemma_first_index_unique(rest, sep, rest.len() as int);
        assert(texts(out@.push(last)) =~= texts(out@) + seq![last@]);
    }
    out.push(last);
    out
}

/// The characters without leading and trailing white space.
pub fn trimmed(s: &[char]) -> (r: Vec<char>)
    ensures
        r@ == trim(s@),
{
    let mut a: usize = 0;
    while a < s.len() && is_white_space(s[a])
        invariant
            a <= s@.len(),
            forall|j: int| 0 <= j < a ==> white_space(s@[j]),
        decreases s@.len() - a,
    {
        a = a + 1;
    }
    let ghost t = s@.skip(a as int);
    proof {
        lemma_trim_start_skip(s@, a as int);
        assert(trim_start(s@) == t);
    }
    let mut b: usize = s.len();
    while b > a && is_white_space(s[b - 1])
        invariant
            a <= b <= s@.len(),
            t == s@.skip(a as int),
            forall|j: int| b - a <= j < t.len() ==> white_space(t[j]),
        decreases b,
    {
        b = b - 1;
        assert(t[b - a] == s@[b as int]);
    }
    proof {
        lemma_trim_end_take(t, b - a);
        assert(t.take(b - a) =~= s@.subrange(a as int, b as int));
        assert(trim_end(t.take(b - a)) == t.take(b - a)) by {
            if b > a {
                assert(t.take(b - a).last() == s@[b - 1]);
            }
        }
    }
    slice_of(s, a, b)
}

/// The text without leading and trailing white space.
pub fn trim_text(s: &str) -> (r: String)
    ensures
        r@ == trim(s@),
{
    let all = chars_of(s);
    let inner = trimmed(&all);
    string_of(&inner)
}

/// The characters without their trailing run of `c`.
pub fn trimmed_end_char(s: &[char], c: char) -> (r: Vec<char>)
    ensures
        r@ == trim_end_char(s@, c),
{
    let mut b: usize = s.len();
    assert(s@.take(s@.len() as int) =~= s@);
    while b > 0 && s[b - 1] == c
        invariant
            b <= s@.len(),
            trim_end_char(s@, c) == trim_end_char(s@.take(b as int), c),
        decreases b,
    {
        assert(s@.take(b as int).drop_last() =~= s@.take(b - 1));
        b = b - 1;
    }
    assert(s@.subrange(0, b as int) =~= s@.take(b as int));
    slice_of(s, 0, b)
}

/// The characters with ASCII letters in lower case.
pub fn lowered(s: &[char]) -> (r: Vec<char>)
    ensures
        r@ == lower(s@),
{
    let mut out: Vec<char> = Vec::new();
    for i in 0..s.len()
        invariant
            out@.len() == i,
            forall|j: int| 0 <= j < i ==> out@[j] == lower_char(s@[j]),
    {
        out.push(to_lower_char(s[i]));
    }
    assert(out@ =~= lower(s@));
    out
}

/// Whether the characters spell the text up to the case of ASCII letters.
pub fn chars_are_ignoring_case(a: &[char], b: &str) -> (r: bool)
    ensures
        r == same_ignoring_case(a@, b@),
{
    let other = chars_of(b);
    same_chars(&lowered(a), &lowered(&other))
}

/// Whether the text takes at most `max` bytes in UTF-8.
pub fn fits_utf8(s: &[char], max: usize) -> (r: bool)
    ensures
        r == (utf8_len(s@) <= max),
{
    let mut total: usize = 0;
    let mut i: usize = 0;
    while i < s.len()
        invariant
            i <= s@.len(),
            total == utf8_len(s@.take(i as int)),
            total <= max,
        decreases s@.len() - i,
    {
        let c = s[i];
        let width: usize = if c <= '\u{7f}' {
            1
        } else if c <= '\u{7ff}' {
            2
        } else if c <= '\u{ffff}' {
            3
        } else {
            4
        };
        proof {
            assert(s@.take(i + 1).drop_last() =~= s@.take(i as int));
            lemma_utf8_len_mono(s@, i + 1);
        }
        if max - total < width {
            return false;
        }
        total = total + width;
        i = i + 1;
    }
    assert(s@.take(s@.len() as int) =~= s@);
    true
}

pub fn has_prefix(s: &[char], prefix: &str) -> (r: bool)
    ensures
        r == starts_with(s@, prefix@),
{
    let p = chars_of(prefix);
    if s.len() < p.len() {
        return false;
    }
    let head = slice_of(s, 0, p.len());
    assert(s@.subrange(0, p@.len() as int) =~= s@.take(p@.len() as int));
    same_chars(&head, &p)
}

pub fn has_suffix(s: &[char], suffix: &str) -> (r: bool)
    ensures
        r == ends_with(s@, suffix@),
{
    let p = chars_of(suffix);
    if s.len() < p.len() {
        return false;
    }
    let tail = slice_of(s, s.len() - p.len(), s.len());
    assert(s@.subrange(s@.len() - p@.len(), s@.len() as int) =~= s@.skip(s@.len() - p@.len()));
    same_chars(&tail, &p)
}

/// A copy of a list of characters.
pub fn copy_chars(s: &[char]) -> (r: Vec<char>)
    ensures
        r@ == s@,
{
    assert(s@.subrange(0, s@.len() as int) =~= s@);
    slice_of(s, 0, s.len())
}

/// Appends characters to a text.
pub fn push_chars(out: &mut String, s: &[char])
    ensures
        final(out)@ == old(out)@ + s@,
{
    let ghost start = out@;
    assert(start + s@.take(0) =~= start);
    for i in 0..s.len()
        invariant
            out@ == start + s@.take(i as int),
    {
        out.push(s[i]);
        assert((start + s@.take(i as int)).push(s@[i as int]) =~= start + s@.take(i + 1));
    }
    assert(s@.take(s@.len() as int) =~= s@);
}

/// Whether `a` comes before `b` in the order of their characters.
pub open spec fn lex_less(a: Seq<char>, b: Seq<char>) -> bool
    decreases a.len(),
{
    if b.len() == 0 {
        false
    } else if a.len() == 0 {
        true
    } else if a[0] != b[0] {
        a[0] < b[0]
    } else {
        lex_less(a.drop_first(), b.drop_first())
    }
}

pub proof fn lemma_lex_skip(a: Seq<char>, b: Seq<char>, k: int)
    requires
        0 <= k <= a.len(),
        k <= b.len(),
        forall|j: int| 0 <= j < k ==> a[j] == b[j],
    ensures
        lex_less(a, b) == lex_less(a.skip(k), b.skip(k)),
    decreases k,
{
    if k == 0 {
        assert(a.skip(0) =~= a);
        assert(b.skip(0) =~= b);
    } else {
        let x = a.drop_first();
        let y = b.drop_first();
        assert(a[0] == b[0]);
        assert forall|j: int| 0 <= j < k - 1 implies x[j] == y[j] by {
            assert(a[j + 1] == b[j + 1]);
        }
        lemma_lex_skip(x, y, k - 1);
        assert(x.skip(k - 1) =~= a.skip(k));
        assert(y.skip(k - 1) =~= b.skip(k));
    }
}

/// The order of texts is a strict total order.
pub proof fn lemma_lex_total(a: Seq<char>, b: Seq<char>)
    ensures
        lex_less(a, b) ==> !lex_less(b, a) && a != b,
        !lex_less(a, b) && !lex_less(b, a) ==> a == b,
    decreases a.len(),
{
    if a.len() > 0 && b.len() > 0 && a[0] == b[0] {
        lemma_lex_total(a.drop_first(), b.drop_first());
        if a.drop_first() == b.drop_first() {
            assert(a =~= seq![a[0]] + a.drop_first());
            assert(b =~= seq![b[0]] + b.drop_first());
        }
    } else if a.len() == 0 && b.len() == 0 {
        assert(a =~= b);
    }
}

pub proof fn lemma_lex_transitive(a: Seq<char>, b: Seq<char>, c: Seq<char>)
    requires
        lex_less(a, b),
        lex_less(b, c),
    ensures
        lex_less(a, c),
    decreases a.len(),
{
    if a.len() > 0 && b.len() > 0 && c.len() > 0 && a[0] == b[0] && b[0] == c[0] {
        lemma_lex_transitive(a.drop_first(), b.drop_first(), c.drop_first());
    }
}

/// Whether `a` comes before `b` in the order of their characters.
pub fn text_before(a: &str, b: &str) -> (r: bool)
    ensures
        r == lex_less(a@, b@),
{
    let x = chars_of(a);
    let y = chars_of(b);
    let mut i: usize = 0;
    while i < x.len() && i < y.len()
        invariant
            i <= x@.len(),
            i <= y@.len(),
            x@ == a@,
            y@ == b@,
            forall|j: int| 0 <= j < i ==> x@[j] == y@[j],
        decreases x@.len() - i,
    {
        if x[i] != y[i] {
            proof {
                lemma_lex_skip(x@, y@, i as int);
                assert(x@.skip(i as int)[0] == x@[i as int]);
                assert(y@.skip(i as int)[0] == y@[i as int]);
            }
            return x[i] < y[i];
        }
        i = i + 1;
    }
    proof {
        lemma_lex_skip(x@, y@, i as int);
    }
    i < y.len()
}

/// A copy of an optional text.
pub fn copy_optional(v: &Option<String>) -> (r: Option<String>)
    ensures
        opt_view(r) == opt_view(*v),
{
    match v {
        Some(t) => Some(t.clone()),
        None => None,
    }
}

/// Whether an optional text is the given one.
pub fn optional_is(v: &Option<String>, t: &str) -> (r: bool)
    ensures
        r == (opt_view(*v) == Some(t@)),
{
    match v {
        Some(x) => same_text(x.as_str(), t),
        None => false,
    }
}

pub proof fn lemma_trim_end_char(s: Seq<char>, c: char)
    ensures
        trim_end_char(s, c).len() <= s.len(),
        trim_end_char(s, c) == s.take(trim_end_char(s, c).len() as int),
        trim_end_char(s, c).len() > 0 ==> trim_end_char(s, c).last() != c,
    decreases s.len(),
{
    if s.len() > 0 && s.last() == c {
        let t = s.drop_last();
        lemma_trim_end_char(t, c);
        let u = trim_end_char(s, c);
        assert(t.take(u.len() as int) =~= s.take(u.len() as int));
    } else {
        assert(s.take(s.len() as int) =~= s);
    }
}

/// A piece of a text takes no more bytes than the text.
pub proof fn lemma_utf8_len_subrange(s: Seq<char>, a: int, b: int)
    requires
        0 <= a <= b <= s.len(),
    ensures
        utf8_len(s.subrange(a, b)) <= utf8_len(s),
{
    lemma_utf8_len_mono(s, b);
    lemma_utf8_len_concat(s.take(a), s.subrange(a, b));
    assert(s.take(a) + s.subrange(a, b) =~= s.take(b));
}

/// A trimmed text takes no more bytes than the text.
pub proof fn lemma_utf8_len_trim(s: Seq<char>)
    ensures
        utf8_len(trim(s)) <= utf8_len(s),
{
    lemma_trim_shape(s);
    let (a, b) = choose|a: int, b: int| 0 <= a <= b <= s.len() && trim(s) == s.subrange(a, b);
    lemma_utf8_len_subrange(s, a, b);
}

/// Trimming takes away the white space at both ends and nothing else.
pub proof fn law_trimming_takes_the_ends(s: Seq<char>)
    ensures
        trim(s).len() > 0 ==> !white_space(trim(s)[0]) && !white_space(trim(s).last()),
        exists|a: int|
            0 <= a <= a + trim(s).len() <= s.len() && trim(s) == #[trigger] s.subrange(
                a,
                a + trim(s).len(),
            ) && (forall|i: int| 0 <= i < a ==> white_space(#[trigger] s[i])) && (forall|i: int|
                a + trim(s).len() <= i < s.len() ==> white_space(#[trigger] s[i])),
{
    let t = trim_start(s);
    lemma_trim_start_shape(s);
    lemma_trim_end_shape(t);
    let a = s.len() - t.len();
    let n = trim(s).len();
    assert(trim(s) =~= s.subrange(a, a + n));
    assert forall|i: int| a + n <= i < s.len() implies white_space(#[trigger] s[i]) by {
        assert(t[i - a] == s[i]);
    }
    if n > 0 {
        assert(trim(s)[0] == t[0]);
    }
}

proof fn lemma_trim_start_shape(s: Seq<char>)
    ensures
        trim_start(s).len() <= s.len(),
        trim_start(s) == s.skip(s.len() - trim_start(s).len()),
        trim_start(s).len() > 0 ==> !white_space(trim_start(s)[0]),
        forall|i: int| 0 <= i < s.len() - trim_start(s).len() ==> white_space(#[trigger] s[i]),
    decreases s.len(),
{
    if s.len() > 0 && white_space(s[0]) {
        let t = s.drop_first();
        lemma_trim_start_shape(t);
        assert(t.skip(t.len() - trim_start(t).len()) =~= s.skip(s.len() - trim_start(t).len()));
        assert forall|i: int| 0 <= i < s.len() - trim_start(s).len() implies white_space(
            #[trigger] s[i],
        ) by {
            if i > 0 {
                assert(t[i - 1] == s[i]);
            }
        }
    } else {
        assert(s.skip(0) =~= s);
    }
}

proof fn lemma_trim_end_shape(s: Seq<char>)
    ensures
        trim_end(s).len() <= s.len(),
        trim_end(s) == s.take(trim_end(s).len() as int),
        trim_end(s).len() > 0 ==> !white_space(trim_end(s).last()),
        forall|i: int| trim_end(s).len() <= i < s.len() ==> white_space(#[trigger] s[i]),
    decreases s.len(),
{
    if s.len() > 0 && white_space(s.last()) {
        let t = s.drop_last();
        lemma_trim_end_shape(t);
        assert(t.take(trim_end(t).len() as int) =~= s.take(trim_end(t).len() as int));
        assert forall|i: int| trim_end(s).len() <= i < s.len() implies white_space(
            #[trigger] s[i],
        ) by {
            if i < t.len() {
                assert(t[i] == s[i]);
            }
        }
    } else {
        assert(s.take(s.len() as int) =~= s);
    }
}

/// Lower case changes capital letters of ASCII to their small ones, and nothing else.
pub proof fn law_lower_case_changes_capitals_only(s: Seq<char>, i: int)
    requires
        0 <= i < s.len(),
    ensures
        lower(s).len() == s.len(),
        'A' <= s[i] <= 'Z' ==> lower(s)[i] as int == s[i] as int + 32,
        !('A' <= s[i] <= 'Z') ==> lower(s)[i] == s[i],
{
}

/// A text is split at every separator: the pieces hold none, and there is one more than
/// separators.
pub proof fn law_pieces_are_split_at_separators(a: Seq<char>, b: Seq<char>, sep: char, i: int)
    ensures
        !a.contains(sep) ==> pieces(a, sep) == seq![a],
        !a.contains(sep) ==> pieces(a + seq![sep] + b, sep) == seq![a] + pieces(b, sep),
        0 <= i < pieces(b, sep).len() ==> !pieces(b, sep)[i].contains(sep),
    decreases b.len(),
{
    let whole = a + seq![sep] + b;
    if !a.contains(sep) {
        lemma_first_index(a, sep);
        lemma_first_index(whole, sep);
        let k = first_index(whole, sep);
        if k < a.len() {
            assert(whole[k] == a[k]);
        }
        if k > a.len() {
            assert(whole[a.len() as int] == sep);
        }
        if first_index(a, sep) < a.len() {
            assert(a[first_index(a, sep)] == sep);
        }
        assert(whole.take(a.len() as int) =~= a);
        assert(whole.skip(a.len() as int + 1) =~= b);
    }
    lemma_first_index(b, sep);
    let f = first_index(b, sep);
    if 0 <= f < b.len() {
        law_pieces_are_split_at_separators(a, b.skip(f + 1), sep, i - 1);
        if i == 0 {
            let t = b.take(f);
            if t.contains(sep) {
                let j = choose|j: int| 0 <= j < t.len() && t[j] == sep;
                assert(b[j] == sep);
            }
        }
    } else if b.contains(sep) {
        let j = choose|j: int| 0 <= j < b.len() && b[j] == sep;
        assert(b[j] == sep);
    }
}

/// The first and the last position of a character are those that none stands before
/// and none behind.
pub proof fn law_positions_are_first_and_last(s: Seq<char>, c: char, k: int)
    ensures
        0 <= k < s.len() && s[k] == c ==> first_index(s, c) <= k <= last_index(s, c),
        s.contains(c) ==> s[first_index(s, c)] == c && s[last_index(s, c)] == c && 0 <= first_index(
            s,
            c,
        ) <= last_index(s, c) < s.len(),
        !s.contains(c) ==> first_index(s, c) == s.len() && last_index(s, c) == -1,
{
    lemma_first_index(s, c);
    lemma_last_index(s, c);
    if s.contains(c) {
        let j = choose|j: int| 0 <= j < s.len() && s[j] == c;
        assert(s[j] == c);
    }
}

/// A text has as many bytes as its characters take together, each one to four.
pub proof fn law_bytes_add_up(s: Seq<char>, c: char)
    ensures
        utf8_len(Seq::empty()) == 0,
        c as int <= 0x7f ==> utf8_len(s.push(c)) == utf8_len(s) + 1,
        0x80 <= c as int <= 0x7ff ==> utf8_len(s.push(c)) == utf8_len(s) + 2,
        0x800 <= c as int <= 0xffff ==> utf8_len(s.push(c)) == utf8_len(s) + 3,
        0x1_0000 <= c as int ==> utf8_len(s.push(c)) == utf8_len(s) + 4,
{
    assert(s.push(c).drop_last() =~= s);
}

/// Texts are ordered by the first character in which they differ, and a text comes
/// before those that it begins.
pub proof fn law_texts_are_ordered_by_their_first_difference(
    common: Seq<char>,
    a: Seq<char>,
    b: Seq<char>,
)
    ensures
        a.len() > 0 && b.len() > 0 && a[0] < b[0] ==> lex_less(common + a, common + b)
            && !lex_less(common + b, common + a),
        b.len() > 0 ==> lex_less(common, common + b) && !lex_less(common + b, common),
        !lex_less(common, common),
    decreases common.len(),
{
    if common.len() > 0 {
        let rest = common.drop_first();
        law_texts_are_ordered_by_their_first_difference(rest, a, b);
        assert((common + a).drop_first() =~= rest + a);
        assert((common + b).drop_first() =~= rest + b);
    } else {
        assert(common + a =~= a);
        assert(common + b =~= b);
    }
}

/// Control characters are those below the blank and those from delete to the end of
/// the second block.
pub proof fn law_control_characters(c: char)
    ensures
        control(c) <==> c as int <= 31 || 127 <= c as int <= 159,
        ascii_control(c) <==> c as int <= 31 || c as int == 127,
        ascii_digit(c) <==> 48 <= c as int <= 57,
        ascii_upper(c) <==> 65 <= c as int <= 90,
        ascii_alphanumeric(c) <==> 48 <= c as int <= 57 || 65 <= c as int <= 90 || 97 <= c as int
            <= 122,
        ascii_white_space(c) <==> c as int == 32 || c as int == 9 || c as int == 10 || c as int
            == 12 || c as int == 13,
        ascii_white_space(c) ==> white_space(c),
        c as int <= 127 ==> (white_space(c) <==> c as int == 32 || 9 <= c as int <= 13),
{
}

} // verus!
