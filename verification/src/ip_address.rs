//! Textual IPv4, IPv6 and socket addresses.
//!
//! The accepted grammar is the strict one: IPv4 octets carry no leading zeros,
//! IPv6 groups have at most four hexadecimal digits, `::` stands for at least
//! one zero group and an embedded IPv4 address may only end the text. The
//! written form of an IPv6 address compresses its first longest run of zero
//! groups.

use crate::number::{
    all_digits, decimal, digits_value, numeral, push_decimal, push_numeral, read_digits,
};
use crate::text::{find, first_index, last_index, pieces, rfind, slice_of, split, texts};
use vstd::prelude::*;
use vstd::string::*;

verus! {

/// An IPv4 or IPv6 address.
#[derive(Clone, Copy, Debug, PartialEq, Eq, Hash)]
pub enum IpAddress {
    V4([u8; 4]),
    V6([u16; 8]),
}

/// The octets or groups of an address.
pub enum IpModel {
    V4(Seq<u8>),
    V6(Seq<u16>),
}

impl View for IpAddress {
    type V = IpModel;

    open spec fn view(&self) -> IpModel {
        match self {
            IpAddress::V4(octets) => IpModel::V4(octets@),
            IpAddress::V6(groups) => IpModel::V6(groups@),
        }
    }
}

/// An address with a port; an IPv6 address may name a scope.
#[derive(Clone, Copy, Debug, PartialEq, Eq, Hash)]
pub enum SocketAddress {
    V4 { octets: [u8; 4], port: u16 },
    V6 { groups: [u16; 8], scope: u32, port: u16 },
}

pub enum SocketModel {
    V4 { octets: Seq<u8>, port: nat },
    V6 { groups: Seq<u16>, scope: nat, port: nat },
}

impl View for SocketAddress {
    type V = SocketModel;

    open spec fn view(&self) -> SocketModel {
        match self {
            SocketAddress::V4 { octets, port } => SocketModel::V4 {
                octets: octets@,
                port: *port as nat,
            },
            SocketAddress::V6 { groups, scope, port } => SocketModel::V6 {
                groups: groups@,
                scope: *scope as nat,
                port: *port as nat,
            },
        }
    }
}

// ---------------------------------------------------------------------------
// The grammar
// ---------------------------------------------------------------------------

pub open spec fn octet_text(s: Seq<char>) -> bool {
    &&& 1 <= s.len() <= 3
    &&& all_digits(s, 10)
    &&& digits_value(s, 10) <= 255
    &&& s.len() > 1 ==> s[0] != '0'
}

/// Four octets separated by dots.
pub open spec fn ipv4_octets(s: Seq<char>) -> Option<Seq<u8>> {
    let p = pieces(s, '.');
    if p.len() == 4 && octet_text(p[0]) && octet_text(p[1]) && octet_text(p[2]) && octet_text(p[3]) {
        Some(
            seq![
                digits_value(p[0], 10) as u8,
                digits_value(p[1], 10) as u8,
                digits_value(p[2], 10) as u8,
                digits_value(p[3], 10) as u8,
            ],
        )
    } else {
        None
    }
}

pub open spec fn group_text(s: Seq<char>) -> bool {
    1 <= s.len() <= 4 && all_digits(s, 16)
}

pub open spec fn group_value(s: Seq<char>) -> u16 {
    digits_value(s, 16) as u16
}

/// Four octets as two groups.
pub open spec fn paired_octets(o: Seq<u8>) -> Seq<u16> {
    seq![(o[0] * 256 + o[1]) as u16, (o[2] * 256 + o[3]) as u16]
}

/// The groups of a colon-separated list. Where `embedded` holds, an IPv4
/// address may stand for the last two groups.
pub open spec fn group_list(s: Seq<char>, embedded: bool) -> Option<Seq<u16>> {
    let p = pieces(s, ':');
    let head = p.drop_last();
    if s.len() == 0 {
        Some(Seq::empty())
    } else if !(forall|i: int| 0 <= i < head.len() ==> group_text(#[trigger] head[i])) {
        None
    } else if group_text(p.last()) {
        Some(p.map_values(|t: Seq<char>| group_value(t)))
    } else if embedded && ipv4_octets(p.last()) is Some {
        Some(
            head.map_values(|t: Seq<char>| group_value(t)) + paired_octets(
                ipv4_octets(p.last())->0,
            ),
        )
    } else {
        None
    }
}

/// The position of the first `::`, or the length of the text where there is
/// none.
pub open spec fn double_colon(s: Seq<char>) -> int
    decreases s.len(),
{
    if s.len() < 2 {
        s.len() as int
    } else if s[0] == ':' && s[1] == ':' {
        0
    } else {
        1 + double_colon(s.drop_first())
    }
}

/// Eight groups, with `::` for the run of zero groups that is left out.
pub open spec fn ipv6_groups(s: Seq<char>) -> Option<Seq<u16>> {
    let d = double_colon(s);
    if d < s.len() {
        match (group_list(s.take(d), false), group_list(s.skip(d + 2), true)) {
            (Some(head), Some(tail)) => if head.len() + tail.len() <= 7 {
                Some(head + Seq::new((8 - head.len() - tail.len()) as nat, |i: int| 0u16) + tail)
            } else {
                None
            },
            _ => None,
        }
    } else {
        match group_list(s, true) {
            Some(groups) => if groups.len() == 8 {
                Some(groups)
            } else {
                None
            },
            None => None,
        }
    }
}

/// The address that a text denotes.
pub open spec fn ip_address(s: Seq<char>) -> Option<IpModel> {
    match ipv4_octets(s) {
        Some(octets) => Some(IpModel::V4(octets)),
        None => match ipv6_groups(s) {
            Some(groups) => Some(IpModel::V6(groups)),
            None => None,
        },
    }
}

/// Digits with a value of at most `max`.
pub open spec fn digits_within(s: Seq<char>, max: nat) -> bool {
    s.len() > 0 && all_digits(s, 10) && digits_value(s, 10) <= max
}

pub open spec fn socket_v4(s: Seq<char>) -> Option<SocketModel> {
    let c = last_index(s, ':');
    if c >= 0 && ipv4_octets(s.take(c)) is Some && digits_within(s.skip(c + 1), 65535) {
        Some(
            SocketModel::V4 {
                octets: ipv4_octets(s.take(c))->0,
                port: digits_value(s.skip(c + 1), 10),
            },
        )
    } else {
        None
    }
}

pub open spec fn socket_v6(s: Seq<char>) -> Option<SocketModel> {
    let c = last_index(s, ']');
    if s.len() > 0 && s[0] == '[' && c >= 1 && c + 1 < s.len() && s[c + 1] == ':' && digits_within(
        s.skip(c + 2),
        65535,
    ) {
        let inner = s.subrange(1, c);
        let port = digits_value(s.skip(c + 2), 10);
        let p = first_index(inner, '%');
        if p < inner.len() {
            if ipv6_groups(inner.take(p)) is Some && digits_within(inner.skip(p + 1), 0xffff_ffff) {
                Some(
                    SocketModel::V6 {
                        groups: ipv6_groups(inner.take(p))->0,
                        scope: digits_value(inner.skip(p + 1), 10),
                        port,
                    },
                )
            } else {
                None
            }
        } else if ipv6_groups(inner) is Some {
            Some(SocketModel::V6 { groups: ipv6_groups(inner)->0, scope: 0, port })
        } else {
            None
        }
    } else {
        None
    }
}

/// The socket address that a text denotes: `octets:port` or
/// `[groups%scope]:port`.
pub open spec fn socket_address(s: Seq<char>) -> Option<SocketModel> {
    match socket_v4(s) {
        Some(a) => Some(a),
        None => socket_v6(s),
    }
}

// ---------------------------------------------------------------------------
// The written form
// ---------------------------------------------------------------------------

pub open spec fn ipv4_text(o: Seq<u8>) -> Seq<char> {
    decimal(o[0] as nat) + seq!['.'] + decimal(o[1] as nat) + seq!['.'] + decimal(o[2] as nat)
        + seq!['.'] + decimal(o[3] as nat)
}

/// The groups in hexadecimal, separated by colons.
pub open spec fn joined_groups(g: Seq<u16>) -> Seq<char>
    decreases g.len(),
{
    if g.len() == 0 {
        Seq::empty()
    } else if g.len() == 1 {
        numeral(g[0] as nat, 16)
    } else {
        joined_groups(g.drop_last()) + seq![':'] + numeral(g.last() as nat, 16)
    }
}

/// The number of consecutive zero groups from position `i` on.
pub open spec fn zero_run(g: Seq<u16>, i: int) -> nat
    decreases g.len() - i,
{
    if 0 <= i < g.len() && g[i] == 0 {
        1 + zero_run(g, i + 1)
    } else {
        0
    }
}

/// The first position below `k` where the longest run of zero groups starts.
pub open spec fn longest_zero_run(g: Seq<u16>, k: nat) -> int
    decreases k,
{
    if k == 0 {
        0
    } else {
        let best = longest_zero_run(g, (k - 1) as nat);
        if zero_run(g, k - 1) > zero_run(g, best) {
            k - 1
        } else {
            best
        }
    }
}

pub open spec fn ipv4_mapped(g: Seq<u16>) -> bool {
    g[0] == 0 && g[1] == 0 && g[2] == 0 && g[3] == 0 && g[4] == 0 && g[5] == 0xffff
}

pub open spec fn ipv6_text(g: Seq<u16>) -> Seq<char> {
    let start = longest_zero_run(g, 8);
    let run = zero_run(g, start);
    if ipv4_mapped(g) {
        "::ffff:"@ + ipv4_text(
            seq![(g[6] / 256) as u8, (g[6] % 256) as u8, (g[7] / 256) as u8, (g[7] % 256) as u8],
        )
    } else if run > 1 {
        joined_groups(g.take(start)) + "::"@ + joined_groups(g.skip(start + run))
    } else {
        joined_groups(g)
    }
}

pub open spec fn ip_text(a: IpModel) -> Seq<char> {
    match a {
        IpModel::V4(octets) => ipv4_text(octets),
        IpModel::V6(groups) => ipv6_text(groups),
    }
}

pub open spec fn socket_text(a: SocketModel) -> Seq<char> {
    match a {
        SocketModel::V4 { octets, port } => ipv4_text(octets) + seq![':'] + decimal(port),
        SocketModel::V6 { groups, scope, port } => if scope == 0 {
            seq!['['] + ipv6_text(groups) + "]:"@ + decimal(port)
        } else {
            seq!['['] + ipv6_text(groups) + seq!['%'] + decimal(scope) + "]:"@ + decimal(port)
        },
    }
}

/// Addresses that only reach the local host.
pub open spec fn loopback(a: IpModel) -> bool {
    match a {
        IpModel::V4(o) => o[0] == 127,
        IpModel::V6(g) => g == seq![0u16, 0, 0, 0, 0, 0, 0, 1],
    }
}

// ---------------------------------------------------------------------------
// Reading
// ---------------------------------------------------------------------------

fn read_octet(s: &[char]) -> (r: Option<u8>)
    ensures
        r is Some <==> octet_text(s@),
        r matches Some(v) ==> v == digits_value(s@, 10),
{
    if s.len() == 0 || s.len() > 3 || (s.len() > 1 && s[0] == '0') {
        return None;
    }
    match read_digits(s, 10, 255) {
        Some(v) => Some(v as u8),
        None => None,
    }
}

/// Reads four octets separated by dots.
pub fn parse_ipv4(s: &[char]) -> (r: Option<[u8; 4]>)
    ensures
        match r {
            Some(o) => ipv4_octets(s@) == Some(o@),
            None => ipv4_octets(s@) is None,
        },
{
    let p = split(s, '.');
    assert(texts(p@).len() == p@.len());
    assert(forall|i: int| 0 <= i < p@.len() ==> texts(p@)[i] == p@[i]@);
    if p.len() != 4 {
        return None;
    }
    match (read_octet(&p[0]), read_octet(&p[1]), read_octet(&p[2]), read_octet(&p[3])) {
        (Some(a), Some(b), Some(c), Some(d)) => {
            let o: [u8; 4] = [a, b, c, d];
            assert(o@ =~= ipv4_octets(s@)->0);
            Some(o)
        },
        _ => None,
    }
}

fn read_group(s: &[char]) -> (r: Option<u16>)
    ensures
        r is Some <==> group_text(s@),
        r matches Some(v) ==> v == group_value(s@),
{
    if s.len() == 0 || s.len() > 4 {
        return None;
    }
    proof {
        if all_digits(s@, 16) {
            lemma_short_group(s@);
        }
    }
    match read_digits(s, 16, 65535) {
        Some(v) => Some(v as u16),
        None => None,
    }
}

proof fn lemma_short_group(s: Seq<char>)
    requires
        s.len() <= 4,
        all_digits(s, 16),
    ensures
        digits_value(s, 16) <= 65535,
{
    reveal_with_fuel(digits_value, 6);
    if s.len() >= 1 {
        let t1 = s.drop_last();
        assert(s.last() == s[s.len() - 1]);
        if t1.len() >= 1 {
            assert(t1.last() == s[t1.len() - 1]);
            let t2 = t1.drop_last();
            if t2.len() >= 1 {
                assert(t2.last() == s[t2.len() - 1]);
                let t3 = t2.drop_last();
                if t3.len() >= 1 {
                    assert(t3.last() == s[t3.len() - 1]);
                }
            }
        }
    }
}

fn read_group_list(s: &[char], embedded: bool) -> (r: Option<Vec<u16>>)
    ensures
        match r {
            Some(g) => group_list(s@, embedded) == Some(g@),
            None => group_list(s@, embedded) is None,
        },
{
    let mut out: Vec<u16> = Vec::new();
    if s.len() == 0 {
        assert(out@ =~= Seq::empty());
        return Some(out);
    }
    let p = split(s, ':');
    let ghost view = texts(p@);
    let ghost head = view.drop_last();
    assert(view.len() == p@.len());
    assert(forall|i: int| 0 <= i < p@.len() ==> view[i] == p@[i]@);
    let last: usize = p.len() - 1;
    let mut i: usize = 0;
    while i < last
        invariant
            i <= last,
            last == p@.len() - 1,
            view == texts(p@),
            view == pieces(s@, ':'),
            s@.len() > 0,
            head == view.drop_last(),
            out@.len() == i,
            forall|j: int| 0 <= j < i ==> group_text(#[trigger] head[j]),
            forall|j: int| 0 <= j < i ==> out@[j] == group_value(head[j]),
        decreases last - i,
    {
        assert(head[i as int] == p@[i as int]@);
        match read_group(&p[i]) {
            Some(v) => {
                out.push(v);
            },
            None => {
                assert(!group_text(head[i as int]));
                return None;
            },
        }
        i = i + 1;
    }
    assert(view.last() == p@[last as int]@);
    assert(out@ =~= head.map_values(|t: Seq<char>| group_value(t)));
    match read_group(&p[last]) {
        Some(v) => {
            out.push(v);
            assert(out@ =~= view.map_values(|t: Seq<char>| group_value(t)));
            Some(out)
        },
        None => {
            if !embedded {
                return None;
            }
            match parse_ipv4(&p[last]) {
                Some(o) => {
                    let ghost before = out@;
                    out.push(o[0] as u16 * 256 + o[1] as u16);
                    out.push(o[2] as u16 * 256 + o[3] as u16);
                    assert(out@ =~= before + paired_octets(o@));
                    Some(out)
                },
                None => None,
            }
        },
    }
}

pub proof fn lemma_double_colon_absent(s: Seq<char>, k: int)
    requires
        0 <= k <= s.len(),
        forall|j: int| 0 <= j < k && j + 1 < s.len() ==> !(s[j] == ':' && #[trigger] s[j + 1] == ':'),
    ensures
        double_colon(s) == k + double_colon(s.skip(k)),
    decreases k,
{
    if k == 0 {
        assert(s.skip(0) =~= s);
    } else if s.len() < 2 {
        assert(s.skip(k).len() == 0);
    } else {
        let t = s.drop_first();
        assert(!(s[0] == ':' && s[0int + 1] == ':'));
        assert forall|j: int| 0 <= j < k - 1 && j + 1 < t.len() implies !(t[j] == ':'
            && #[trigger] t[j + 1] == ':') by {
            assert(t[j] == s[j + 1]);
            assert(t[j + 1] == s[(j + 1) + 1]);
        }
        lemma_double_colon_absent(t, k - 1);
        assert(t.skip(k - 1) =~= s.skip(k));
    }
}

fn find_double_colon(s: &[char]) -> (r: Option<usize>)
    ensures
        match r {
            Some(i) => i + 1 < s@.len() && double_colon(s@) == i,
            None => double_colon(s@) == s@.len(),
        },
        s@.len() <= usize::MAX,
{
    let n: usize = s.len();
    let mut i: usize = 0;
    while i < n && n - i > 1
        invariant
            i <= s@.len(),
            n == s@.len(),
            forall|j: int|
                0 <= j < i && j + 1 < s@.len() ==> !(s@[j] == ':' && #[trigger] s@[j + 1] == ':'),
        decreases s@.len() - i,
    {
        if s[i] == ':' && s[i + 1] == ':' {
            proof {
                lemma_double_colon_absent(s@, i as int);
                assert(s@.skip(i as int)[0] == ':');
                assert(s@.skip(i as int)[1] == ':');
            }
            return Some(i);
        }
        i = i + 1;
    }
    proof {
        lemma_double_colon_absent(s@, i as int);
    }
    None
}

fn eight_groups(g: &Vec<u16>) -> (r: [u16; 8])
    requires
        g@.len() == 8,
    ensures
        r@ == g@,
{
    let r: [u16; 8] = [g[0], g[1], g[2], g[3], g[4], g[5], g[6], g[7]];
    assert(r@ =~= g@);
    r
}

/// Reads the eight groups of an IPv6 address.
pub fn parse_ipv6(s: &[char]) -> (r: Option<[u16; 8]>)
    ensures
        match r {
            Some(g) => ipv6_groups(s@) == Some(g@),
            None => ipv6_groups(s@) is None,
        },
{
    match find_double_colon(s) {
        Some(d) => {
            let before = slice_of(s, 0, d);
            let after = slice_of(s, d + 2, s.len());
            assert(before@ =~= s@.take(d as int));
            assert(after@ =~= s@.skip(d + 2));
            let mut out: Vec<u16> = match read_group_list(&before, false) {
                Some(head) => head,
                None => {
                    return None;
                },
            };
            let mut tail: Vec<u16> = match read_group_list(&after, true) {
                Some(tail) => tail,
                None => {
                    return None;
                },
            };
            if out.len() > 7 || tail.len() > 7 - out.len() {
                return None;
            }
            let ghost head = out@;
            let zeros: usize = 8 - out.len() - tail.len();
            let mut i: usize = 0;
            while i < zeros
                invariant
                    i <= zeros,
                    out@ == head + Seq::new(i as nat, |j: int| 0u16),
                decreases zeros - i,
            {
                out.push(0);
                i = i + 1;
                assert(out@ =~= head + Seq::new(i as nat, |j: int| 0u16));
            }
            let ghost rest = tail@;
            out.append(&mut tail);
            assert(out@ =~= head + Seq::new(zeros as nat, |j: int| 0u16) + rest);
            Some(eight_groups(&out))
        },
        None => match read_group_list(s, true) {
            Some(groups) => if groups.len() == 8 {
                Some(eight_groups(&groups))
            } else {
                None
            },
            None => None,
        },
    }
}

/// Reads an IPv4 or IPv6 address.
pub fn parse_ip(s: &[char]) -> (r: Option<IpAddress>)
    ensures
        match r {
            Some(a) => ip_address(s@) == Some(a@),
            None => ip_address(s@) is None,
        },
{
    match parse_ipv4(s) {
        Some(octets) => Some(IpAddress::V4(octets)),
        None => match parse_ipv6(s) {
            Some(groups) => Some(IpAddress::V6(groups)),
            None => None,
        },
    }
}

fn parse_socket_v4(s: &[char]) -> (r: Option<SocketAddress>)
    ensures
        match r {
            Some(a) => socket_v4(s@) == Some(a@),
            None => socket_v4(s@) is None,
        },
{
    let c: usize = match rfind(s, ':') {
        Some(c) => c,
        None => {
            return None;
        },
    };
    let host = slice_of(s, 0, c);
    let digits = slice_of(s, c + 1, s.len());
    assert(host@ =~= s@.take(c as int));
    assert(digits@ =~= s@.skip(c + 1));
    match (parse_ipv4(&host), read_digits(&digits, 10, 65535)) {
        (Some(octets), Some(port)) => Some(SocketAddress::V4 { octets, port: port as u16 }),
        _ => None,
    }
}

fn parse_socket_v6(s: &[char]) -> (r: Option<SocketAddress>)
    ensures
        match r {
            Some(a) => socket_v6(s@) == Some(a@),
            None => socket_v6(s@) is None,
        },
{
    let c: usize = match rfind(s, ']') {
        Some(c) => c,
        None => {
            return None;
        },
    };
    if s[0] != '[' || c < 1 || s.len() - c < 2 || s[c + 1] != ':' {
        return None;
    }
    let digits = slice_of(s, c + 2, s.len());
    assert(digits@ =~= s@.skip(c + 2));
    let port: u16 = match read_digits(&digits, 10, 65535) {
        Some(port) => port as u16,
        None => {
            return None;
        },
    };
    let inner = slice_of(s, 1, c);
    match find(&inner, '%') {
        Some(p) => {
            let address = slice_of(&inner, 0, p);
            let zone = slice_of(&inner, p + 1, inner.len());
            assert(address@ =~= inner@.take(p as int));
            assert(zone@ =~= inner@.skip(p + 1));
            match (parse_ipv6(&address), read_digits(&zone, 10, 0xffff_ffff)) {
                (Some(groups), Some(scope)) => Some(
                    SocketAddress::V6 { groups, scope: scope as u32, port },
                ),
                _ => None,
            }
        },
        None => match parse_ipv6(&inner) {
            Some(groups) => Some(SocketAddress::V6 { groups, scope: 0, port }),
            None => None,
        },
    }
}

/// Reads a socket address.
pub fn parse_socket(s: &[char]) -> (r: Option<SocketAddress>)
    ensures
        match r {
            Some(a) => socket_address(s@) == Some(a@),
            None => socket_address(s@) is None,
        },
{
    match parse_socket_v4(s) {
        Some(a) => Some(a),
        None => parse_socket_v6(s),
    }
}

// ---------------------------------------------------------------------------
// Writing
// ---------------------------------------------------------------------------

fn push_ipv4(out: &mut String, o: &[u8; 4])
    ensures
        final(out)@ == old(out)@ + ipv4_text(o@),
{
    let ghost start = out@;
    push_decimal(out, o[0] as u64);
    out.push('.');
    push_decimal(out, o[1] as u64);
    out.push('.');
    push_decimal(out, o[2] as u64);
    out.push('.');
    push_decimal(out, o[3] as u64);
    assert(out@ =~= start + ipv4_text(o@));
}

fn push_groups(out: &mut String, g: &[u16; 8], from: usize, to: usize)
    requires
        from <= to <= 8,
    ensures
        final(out)@ == old(out)@ + joined_groups(g@.subrange(from as int, to as int)),
{
    let ghost start = out@;
    let mut i: usize = from;
    assert(g@.subrange(from as int, from as int) =~= Seq::empty());
    assert(start + joined_groups(Seq::empty()) =~= start);
    while i < to
        invariant
            from <= i <= to <= 8,
            out@ == start + joined_groups(g@.subrange(from as int, i as int)),
        decreases to - i,
    {
        let ghost part = g@.subrange(from as int, i as int);
        let ghost next = g@.subrange(from as int, i + 1);
        assert(next.drop_last() =~= part);
        if i > from {
            out.push(':');
        }
        push_numeral(out, g[i] as u64, 16);
        assert(out@ =~= start + joined_groups(next));
        i = i + 1;
    }
}

fn zeros_from(g: &[u16; 8], from: usize) -> (r: usize)
    requires
        from <= 8,
    ensures
        r == zero_run(g@, from as int),
        from + r <= 8,
    decreases 8 - from,
{
    if from < 8 && g[from] == 0 {
        1 + zeros_from(g, from + 1)
    } else {
        0
    }
}

fn push_ipv6(out: &mut String, g: &[u16; 8])
    ensures
        final(out)@ == old(out)@ + ipv6_text(g@),
{
    let ghost start_text = out@;
    if g[0] == 0 && g[1] == 0 && g[2] == 0 && g[3] == 0 && g[4] == 0 && g[5] == 0xffff {
        out.append("::ffff:");
        let o: [u8; 4] = [
            (g[6] / 256) as u8,
            (g[6] % 256) as u8,
            (g[7] / 256) as u8,
            (g[7] % 256) as u8,
        ];
        push_ipv4(out, &o);
        assert(o@ =~= seq![
            (g@[6] / 256) as u8,
            (g@[6] % 256) as u8,
            (g@[7] / 256) as u8,
            (g@[7] % 256) as u8,
        ]);
        assert(out@ =~= start_text + ipv6_text(g@));
        return ;
    }
    let mut start: usize = 0;
    let mut run: usize = zeros_from(g, 0);
    let mut i: usize = 0;
    reveal_with_fuel(longest_zero_run, 2);
    while i < 8
        invariant
            i <= 8,
            start < 8,
            start == longest_zero_run(g@, i as nat),
            run == zero_run(g@, start as int),
            start + run <= 8,
        decreases 8 - i,
    {
        let here: usize = zeros_from(g, i);
        if here > run {
            start = i;
            run = here;
        }
        i = i + 1;
    }
    if run > 1 {
        push_groups(out, g, 0, start);
        out.append("::");
        push_groups(out, g, start + run, 8);
        assert(g@.subrange(0, start as int) =~= g@.take(start as int));
        assert(g@.subrange(start + run, 8) =~= g@.skip(start + run));
        assert(out@ =~= start_text + ipv6_text(g@));
    } else {
        push_groups(out, g, 0, 8);
        assert(g@.subrange(0, 8) =~= g@);
    }
}

/// Writes an address.
pub fn push_ip(out: &mut String, a: &IpAddress)
    ensures
        final(out)@ == old(out)@ + ip_text(a@),
{
    match a {
        IpAddress::V4(octets) => push_ipv4(out, octets),
        IpAddress::V6(groups) => push_ipv6(out, groups),
    }
}

/// The written form of an address.
pub fn ip_to_text(a: &IpAddress) -> (r: String)
    ensures
        r@ == ip_text(a@),
{
    let mut out = String::new();
    push_ip(&mut out, a);
    assert(Seq::<char>::empty() + ip_text(a@) =~= ip_text(a@));
    out
}

/// The written form of a socket address.
pub fn socket_to_text(a: &SocketAddress) -> (r: String)
    ensures
        r@ == socket_text(a@),
{
    let mut out = String::new();
    match a {
        SocketAddress::V4 { octets, port } => {
            push_ipv4(&mut out, octets);
            out.push(':');
            push_decimal(&mut out, *port as u64);
        },
        SocketAddress::V6 { groups, scope, port } => {
            out.push('[');
            push_ipv6(&mut out, groups);
            if *scope != 0 {
                out.push('%');
                push_decimal(&mut out, *scope as u64);
            }
            out.append("]:");
            push_decimal(&mut out, *port as u64);
        },
    }
    assert(out@ =~= socket_text(a@));
    out
}

/// Whether an address only reaches the local host.
pub fn is_loopback(a: &IpAddress) -> (r: bool)
    ensures
        r == loopback(a@),
{
    match a {
        IpAddress::V4(o) => o[0] == 127,
        IpAddress::V6(g) => {
            let r = g[0] == 0 && g[1] == 0 && g[2] == 0 && g[3] == 0 && g[4] == 0 && g[5] == 0
                && g[6] == 0 && g[7] == 1;
            proof {
                let one = seq![0u16, 0, 0, 0, 0, 0, 0, 1];
                if r {
                    assert(g@ =~= one);
                } else {
                    assert(g@[0] != one[0] || g@[1] != one[1] || g@[2] != one[2] || g@[3] != one[3]
                        || g@[4] != one[4] || g@[5] != one[5] || g@[6] != one[6] || g@[7]
                        != one[7]);
                }
            }
            r
        },
    }
}

/// The local host is 127.0.0.0/8 and ::1.
pub proof fn law_the_local_host(o: Seq<u8>, g: Seq<u16>)
    requires
        o.len() == 4,
        g.len() == 8,
    ensures
        loopback(IpModel::V4(o)) <==> o[0] == 127,
        loopback(IpModel::V6(g)) <==> g[7] == 1 && forall|i: int|
            0 <= i < 7 ==> (#[trigger] g[i]) == 0,
{
    if g[7] == 1 && (forall|i: int| 0 <= i < 7 ==> (#[trigger] g[i]) == 0) {
        assert(g =~= seq![0u16, 0, 0, 0, 0, 0, 0, 1]);
    }
}

/// An IPv4 address is four numbers of at most 255 with dots between them, each without
/// leading zeros.
pub proof fn law_ipv4_addresses_are_four_octets(s: Seq<char>, i: int)
    requires
        ipv4_octets(s) is Some,
        0 <= i < 4,
    ensures
        pieces(s, '.').len() == 4,
        ipv4_octets(s)->0.len() == 4,
        ipv4_octets(s)->0[i] == digits_value(pieces(s, '.')[i], 10),
        1 <= pieces(s, '.')[i].len() <= 3,
        pieces(s, '.')[i].len() > 1 ==> pieces(s, '.')[i][0] != '0',
        digits_value(pieces(s, '.')[i], 10) <= 255,
{
    assert(octet_text(pieces(s, '.')[i]));
}

/// An IPv6 address has eight groups.
pub proof fn law_ipv6_addresses_have_eight_groups(s: Seq<char>)
    requires
        ipv6_groups(s) is Some,
    ensures
        ipv6_groups(s)->0.len() == 8,
{
}

/// A socket address is an address and a port of at most 65535, behind a colon; an IPv6
/// one stands in brackets.
pub proof fn law_socket_addresses_have_a_port(s: Seq<char>)
    requires
        socket_address(s) is Some,
    ensures
        match socket_address(s)->0 {
            SocketModel::V4 { octets, port } => {
                let c = last_index(s, ':');
                &&& port <= 65535
                &&& c >= 0 && ipv4_octets(s.take(c)) == Some(octets) && digits_value(
                    s.skip(c + 1),
                    10,
                ) == port
            },
            SocketModel::V6 { groups, scope, port } => {
                &&& port <= 65535 && scope <= 0xffff_ffff
                &&& s[0] == '[' && s.contains(']')
            },
        },
{
    if socket_v4(s) is None {
        let c = last_index(s, ']');
        crate::text::law_positions_are_first_and_last(s, ']', 0);
    }
}

/// Whether `m` groups from `b` on are zero.
pub open spec fn zeros(g: Seq<u16>, b: int, m: int) -> bool {
    0 <= b && 0 <= m && b + m <= g.len() && forall|i: int| b <= i < b + m ==> (#[trigger] g[i]) == 0
}

/// An IPv6 address is written with its longest run of zeros left out, the first of them
/// where several are as long, and with every group where no two zeros stand together.
pub proof fn law_the_first_longest_run_of_zeros_is_left_out(g: Seq<u16>, a: int, n: int)
    requires
        g.len() == 8,
        !(zeros(g, 0, 5) && g[5] == 0xffff),
    ensures
        n >= 2 && zeros(g, a, n) && (forall|b: int, m: int| #[trigger]
            zeros(g, b, m) ==> m <= n && (b < a ==> m < n)) ==> ipv6_text(g) == joined_groups(
            g.take(a),
        ) + "::"@ + joined_groups(g.skip(a + n)),
        (forall|b: int, m: int| #[trigger] zeros(g, b, m) ==> m <= 1) ==> ipv6_text(g)
            == joined_groups(g),
{
    let r = longest_zero_run(g, 8);
    lemma_longest_run(g, 8);
    lemma_run_of_zeros(g, r);
    if ipv4_mapped(g) {
        assert(zeros(g, 0, 5));
    }
    if n >= 2 && zeros(g, a, n) && (forall|b: int, m: int| #[trigger]
        zeros(g, b, m) ==> m <= n && (b < a ==> m < n)) {
        lemma_run_of_zeros(g, a);
        assert(zeros(g, a, zero_run(g, a) as int));
        assert(zeros(g, r, zero_run(g, r) as int));
        if zero_run(g, a) < n {
            assert(g[a + zero_run(g, a)] == 0);
        }
        assert(a < 8);
        assert(r == a);
    } else if forall|b: int, m: int| #[trigger] zeros(g, b, m) ==> m <= 1 {
        assert(zeros(g, r, zero_run(g, r) as int));
    }
}

proof fn lemma_run_of_zeros(g: Seq<u16>, i: int)
    requires
        0 <= i <= g.len(),
    ensures
        zeros(g, i, zero_run(g, i) as int),
        i + zero_run(g, i) < g.len() ==> g[i + zero_run(g, i)] != 0,
    decreases g.len() - i,
{
    if i < g.len() && g[i] == 0 {
        lemma_run_of_zeros(g, i + 1);
    }
}

proof fn lemma_longest_run(g: Seq<u16>, k: nat)
    ensures
        0 <= longest_zero_run(g, k),
        k > 0 ==> longest_zero_run(g, k) < k,
        k == 0 ==> longest_zero_run(g, k) == 0,
        forall|j: int|
            0 <= j < k ==> (#[trigger] zero_run(g, j)) <= zero_run(g, longest_zero_run(g, k)) && (j
                < longest_zero_run(g, k) ==> zero_run(g, j) < zero_run(
                g,
                longest_zero_run(g, k),
            )),
    decreases k,
{
    if k > 0 {
        lemma_longest_run(g, (k - 1) as nat);
    }
}

/// An IPv6 address that stands for an IPv4 one is written with that.
pub proof fn law_mapped_addresses_show_their_ipv4_form(g: Seq<u16>)
    requires
        g.len() == 8,
        zeros(g, 0, 5),
        g[5] == 0xffff,
    ensures
        ipv6_text(g) == "::ffff:"@ + ipv4_text(
            seq![(g[6] / 256) as u8, (g[6] % 256) as u8, (g[7] / 256) as u8, (g[7] % 256) as u8],
        ),
{
}

/// Groups are written in hexadecimal with a colon between each two.
pub proof fn law_groups_are_joined_by_colons(g: Seq<u16>, x: u16)
    ensures
        joined_groups(seq![x]) == numeral(x as nat, 16),
        g.len() > 0 ==> joined_groups(g.push(x)) == joined_groups(g) + seq![':'] + numeral(
            x as nat,
            16,
        ),
{
    assert(g.push(x).drop_last() =~= g);
}

} // verus!
