//! Host names made of dot-separated labels.

use crate::text::{
    first_index, lemma_first_index, is_ascii_alphanumeric, ascii_alphanumeric, pieces, split, texts,
    lower, lowered, trim_end_char, trimmed_end_char,
};
use vstd::prelude::*;

verus! {

/// A label of letters, digits and inner hyphens.
pub open spec fn valid_label(s: Seq<char>) -> bool {
    &&& 1 <= s.len() <= 63
    &&& s[0] != '-'
    &&& s.last() != '-'
    &&& forall|i: int| 0 <= i < s.len() ==> ascii_alphanumeric(#[trigger] s[i]) || s[i] == '-'
}

/// Whether every dot-separated part of the text is a label.
pub open spec fn valid_labels(s: Seq<char>) -> bool {
    forall|i: int| 0 <= i < pieces(s, '.').len() ==> valid_label(#[trigger] pieces(s, '.')[i])
}

/// A host name of at most 253 characters.
pub open spec fn valid_host(s: Seq<char>) -> bool {
    1 <= s.len() <= 253 && valid_labels(s)
}

/// A DNS name in lower case without trailing dots.
pub open spec fn dns_name(s: Seq<char>) -> Option<Seq<char>> {
    let name = lower(trim_end_char(s, '.'));
    if valid_host(name) {
        Some(name)
    } else {
        None
    }
}

pub fn is_valid_label(s: &[char]) -> (r: bool)
    ensures
        r == valid_label(s@),
{
    if s.len() == 0 || s.len() > 63 || s[0] == '-' || s[s.len() - 1] == '-' {
        return false;
    }
    let mut i: usize = 0;
    while i < s.len()
        invariant
            i <= s@.len(),
            forall|j: int| 0 <= j < i ==> ascii_alphanumeric(#[trigger] s@[j]) || s@[j] == '-',
        decreases s@.len() - i,
    {
        if !is_ascii_alphanumeric(s[i]) && s[i] != '-' {
            assert(!(ascii_alphanumeric(s@[i as int]) || s@[i as int] == '-'));
            return false;
        }
        i = i + 1;
    }
    true
}

pub fn are_valid_labels(s: &[char]) -> (r: bool)
    ensures
        r == valid_labels(s@),
{
    let parts = split(s, '.');
    let ghost view = pieces(s@, '.');
    assert(view.len() == parts@.len());
    let mut i: usize = 0;
    while i < parts.len()
        invariant
            i <= parts@.len(),
            view == texts(parts@),
            view == pieces(s@, '.'),
            forall|j: int| 0 <= j < i ==> valid_label(#[trigger] view[j]),
        decreases parts@.len() - i,
    {
        assert(view[i as int] == parts@[i as int]@);
        if !is_valid_label(&parts[i]) {
            assert(!valid_label(pieces(s@, '.')[i as int]));
            return false;
        }
        i = i + 1;
    }
    true
}

/// Whether the text is a host name of at most 253 characters.
pub fn is_valid_host(s: &[char]) -> (r: bool)
    ensures
        r == valid_host(s@),
{
    s.len() >= 1 && s.len() <= 253 && are_valid_labels(s)
}

/// The DNS name in lower case without trailing dots.
pub fn normalize_dns_name(s: &[char]) -> (r: Option<Vec<char>>)
    ensures
        match r {
            Some(name) => dns_name(s@) == Some(name@),
            None => dns_name(s@) is None,
        },
{
    let bare = trimmed_end_char(s, '.');
    let name = lowered(&bare);
    if is_valid_host(&name) {
        Some(name)
    } else {
        None
    }
}

/// A host name holds letters, digits, hyphens and dots only, and neither begins
/// nor ends with a dot.
pub proof fn lemma_label_chars(s: Seq<char>)
    requires
        valid_labels(s),
    ensures
        s.len() > 0,
        s[0] != '.',
        s.last() != '.',
        forall|i: int|
            0 <= i < s.len() ==> ascii_alphanumeric(#[trigger] s[i]) || s[i] == '-' || s[i] == '.',
    decreases s.len(),
{
    let p = pieces(s, '.');
    let k = first_index(s, '.');
    lemma_first_index(s, '.');
    assert(valid_label(p[0]));
    if k < s.len() {
        let rest = s.skip(k + 1);
        assert(p[0] == s.take(k));
        assert forall|j: int| 0 <= j < pieces(rest, '.').len() implies valid_label(
            #[trigger] pieces(rest, '.')[j],
        ) by {
            assert(p[j + 1] == pieces(rest, '.')[j]);
        }
        lemma_label_chars(rest);
        assert(s[0] == p[0][0]);
        assert(s.last() == rest.last());
        assert forall|i: int| 0 <= i < s.len() implies ascii_alphanumeric(#[trigger] s[i]) || s[i]
            == '-' || s[i] == '.' by {
            if i < k {
                assert(s[i] == p[0][i]);
            } else if i > k {
                assert(s[i] == rest[i - k - 1]);
            }
        }
    } else {
        assert(p[0] == s);
    }
}

/// A host name has at most 253 characters and is made of labels of 1 to 63 letters,
/// digits and hyphens, none of which begins or ends with a hyphen.
pub proof fn law_host_names_are_made_of_labels(s: Seq<char>, k: int, i: int)
    requires
        valid_host(s),
        0 <= k < pieces(s, '.').len(),
    ensures
        1 <= s.len() <= 253,
        1 <= pieces(s, '.')[k].len() <= 63,
        pieces(s, '.')[k][0] != '-' && pieces(s, '.')[k].last() != '-',
        0 <= i < pieces(s, '.')[k].len() ==> {
            let c = pieces(s, '.')[k][i];
            'a' <= c <= 'z' || 'A' <= c <= 'Z' || '0' <= c <= '9' || c == '-'
        },
{
    assert(valid_label(pieces(s, '.')[k]));
    if 0 <= i < pieces(s, '.')[k].len() {
        assert(ascii_alphanumeric(pieces(s, '.')[k][i]) || pieces(s, '.')[k][i] == '-');
    }
}

/// Whatever is made of such labels and short enough is a host name.
pub proof fn law_labels_make_host_names(s: Seq<char>)
    requires
        1 <= s.len() <= 253,
        forall|k: int|
            0 <= k < pieces(s, '.').len() ==> {
                let p = #[trigger] pieces(s, '.')[k];
                &&& 1 <= p.len() <= 63
                &&& p[0] != '-' && p.last() != '-'
                &&& forall|i: int|
                    0 <= i < p.len() ==> 'a' <= (#[trigger] p[i]) <= 'z' || 'A' <= p[i] <= 'Z'
                        || '0' <= p[i] <= '9' || p[i] == '-'
            },
    ensures
        valid_host(s),
{
    assert forall|k: int| 0 <= k < pieces(s, '.').len() implies valid_label(
        #[trigger] pieces(s, '.')[k],
    ) by {
        let p = pieces(s, '.')[k];
        assert forall|i: int| 0 <= i < p.len() implies ascii_alphanumeric(#[trigger] p[i]) || p[i]
            == '-' by {}
    }
}

/// A DNS name is read without the dots at its end and in lower case.
pub proof fn law_dns_names_are_normal(s: Seq<char>)
    ensures
        dns_name(s) is Some <==> valid_host(lower(trim_end_char(s, '.'))),
        dns_name(s) is Some ==> dns_name(s)->0 == lower(trim_end_char(s, '.')),
{
}

} // verus!
